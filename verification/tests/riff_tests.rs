use agent_riff::mode::{ResponseMode, SurpriseBand};
use agent_riff::quality::Quality;
use agent_riff::round::{Riff, Round, SurpriseReading};
use agent_riff::session::{RiffSession, SessionMetrics, HISTORY_LIMIT};

/// What the rules read of a round's total surprise: over 0.3 is productive
/// surprise, over the landing threshold lands, under 0.2 is low and over 0.7
/// is high.
fn reading(total: f64, landing_threshold: f64) -> SurpriseReading {
    let band = if total < 0.2 {
        SurpriseBand::Low
    } else if total > 0.7 {
        SurpriseBand::High
    } else {
        SurpriseBand::Medium
    };
    SurpriseReading { exceeds_floor: total > 0.3, exceeds_landing: total > landing_threshold, band }
}

/// A session together with each round's total surprise.
struct Jam {
    s: RiffSession,
    totals: Vec<f64>,
    landing_threshold: f64,
}

impl Jam {
    fn new(agents: Vec<u32>) -> Jam {
        Jam { s: RiffSession::new(agents), totals: Vec::new(), landing_threshold: 0.8 }
    }
    fn new_round(&mut self) {
        self.s.new_round();
        self.totals.push(0.0);
    }
    fn riff(&mut self, agent_id: u32, quality: Quality, surprise: f64) {
        self.s.riff(agent_id, quality);
        if let Some(t) = self.totals.last_mut() {
            *t += surprise.clamp(0.0, 1.0);
        }
    }
    fn evaluate(&mut self) -> (f64, agent_riff::session::RoundSummary) {
        let total = *self.totals.last().unwrap_or(&0.0);
        (total, self.s.evaluate(reading(total, self.landing_threshold)))
    }
    fn metrics(&self) -> (SessionMetrics, f64, f64) {
        let readings: Vec<SurpriseReading> =
            self.totals.iter().map(|t| reading(*t, self.landing_threshold)).collect();
        let m = self.s.metrics(&readings);
        let total: f64 = self.totals.iter().sum();
        let avg = if m.total_rounds > 0 { total / m.total_rounds as f64 } else { 0.0 };
        (m, total, avg)
    }
}

#[test]
fn riff_creation() {
    let r = Riff::new(0, 1, Quality::Strong, 1);
    assert_eq!(r.agent_id, 0);
    assert_eq!(r.round, 1);
    assert_eq!(r.quality, Quality::Strong);
}

#[test]
fn round_add_and_eval() {
    let mut round = Round::new(0);
    round.add(Riff::new(0, 0, Quality::Okay, 0));
    round.add(Riff::new(1, 0, Quality::Strong, 1));
    let total: f64 = 0.5 + 0.8;
    assert_eq!(round.riffs.len(), 2);
    assert!(round.was_productive(&reading(total, 0.8)));
    assert!(round.best().unwrap().quality == Quality::Strong);
}

#[test]
fn round_quality_gap() {
    let mut round = Round::new(0);
    round.add(Riff::new(0, 0, Quality::Weak, 0));
    round.add(Riff::new(1, 0, Quality::Strong, 1));
    assert_eq!(round.quality_gap, 2); // strong(1) - weak(-1) = 2
}

#[test]
fn response_mode_auto() {
    assert_eq!(ResponseMode::select(reading(0.1, 0.8).band, 0), ResponseMode::Provoked); // low surprise
    assert_eq!(ResponseMode::select(reading(0.8, 0.8).band, 0), ResponseMode::Escalate); // high surprise
    assert_eq!(ResponseMode::select(reading(0.5, 0.8).band, 6), ResponseMode::Pivot); // stale streak
    assert_eq!(ResponseMode::select(reading(0.4, 0.8).band, 0), ResponseMode::Invert); // medium
}

#[test]
fn session_basic_flow() {
    let mut j = Jam::new(vec![0, 1]);
    j.new_round();
    j.riff(0, Quality::Okay, 0.3);
    j.riff(1, Quality::Strong, 0.6);
    let (_, summary) = j.evaluate();
    assert!(summary.productive);
    assert_eq!(j.s.current_round, 1);
}

#[test]
fn session_multi_round() {
    let mut j = Jam::new(vec![0, 1]);
    for _round in 0..3 {
        j.new_round();
        j.riff(0, Quality::Strong, 0.7);
        j.riff(1, Quality::Strong, 0.8);
        j.evaluate();
    }
    let (m, _, avg) = j.metrics();
    assert_eq!(m.total_rounds, 3);
    assert!(avg > 0.5);
    assert!(!j.s.finished);
}

#[test]
fn session_stale_detection() {
    let mut j = Jam::new(vec![0, 1]);
    j.s.stale_threshold = 3;
    for _ in 0..4 {
        j.new_round();
        j.riff(0, Quality::Weak, 0.05); // low surprise, not productive
        j.riff(1, Quality::Weak, 0.05);
        j.evaluate();
    }
    assert!(j.s.finished);
}

#[test]
fn session_landing() {
    let mut j = Jam::new(vec![0, 1]);
    j.landing_threshold = 0.5;
    j.new_round();
    j.riff(0, Quality::Strong, 0.9);
    j.riff(1, Quality::Strong, 0.8);
    let (_, summary) = j.evaluate();
    assert!(summary.landed);
}

#[test]
fn session_metrics() {
    let mut j = Jam::new(vec![0, 1]);
    j.new_round();
    j.riff(0, Quality::Strong, 0.7);
    j.riff(1, Quality::Okay, 0.4);
    j.evaluate();
    let (m, total, _) = j.metrics();
    assert_eq!(m.total_rounds, 1);
    assert!(total > 1.0);
    assert_eq!(m.productive_rounds, 1);
}

#[test]
fn response_mode_directions() {
    assert_eq!(ResponseMode::Escalate.direction(), 0);
    assert_eq!(ResponseMode::Pivot.direction(), 1);
    assert_eq!(ResponseMode::Invert.direction(), -1);
    assert_eq!(ResponseMode::Provoked.direction(), 1);
}

#[test]
fn quality_roundtrip() {
    for v in [-1i8, 0, 1] {
        assert_eq!(Quality::from_i8(v).unwrap().to_i8(), v);
    }
}

// ---- further cases of the library's own rules ----

#[test]
fn quality_from_i8_rejects_out_of_range() {
    assert_eq!(Quality::from_i8(2), None);
    assert_eq!(Quality::from_i8(-2), None);
    assert_eq!(Quality::from_i8(i8::MIN), None);
    assert_eq!(Quality::from_i8(-1), Some(Quality::Weak));
    assert_eq!(Quality::from_i8(0), Some(Quality::Okay));
    assert_eq!(Quality::from_i8(1), Some(Quality::Strong));
}

#[test]
fn quality_scores() {
    assert_eq!(Quality::Weak.to_i8(), -1);
    assert_eq!(Quality::Okay.to_i8(), 0);
    assert_eq!(Quality::Strong.to_i8(), 1);
}

#[test]
fn select_pivots_only_past_five() {
    assert_eq!(ResponseMode::select(SurpriseBand::High, 5), ResponseMode::Escalate);
    assert_eq!(ResponseMode::select(SurpriseBand::High, 6), ResponseMode::Pivot);
    assert_eq!(ResponseMode::select(SurpriseBand::Low, 5), ResponseMode::Provoked);
    assert_eq!(ResponseMode::select(SurpriseBand::Medium, u32::MAX), ResponseMode::Pivot);
}

#[test]
fn riff_direction_is_clamped() {
    let r = Riff::new(3, 4, Quality::Okay, 7);
    assert_eq!(r.direction, 1);
    assert_eq!(r.content_hash, 0);
    assert_eq!(r.agent_id, 3);
    assert_eq!(r.round, 4);
    assert_eq!(Riff::new(0, 0, Quality::Okay, -9).direction, -1);
    assert_eq!(Riff::new(0, 0, Quality::Okay, 0).direction, 0);
}

#[test]
fn best_is_last_of_equals_and_none_when_empty() {
    let mut round = Round::new(2);
    assert!(round.best().is_none());
    round.add(Riff::new(0, 2, Quality::Strong, 0));
    round.add(Riff::new(1, 2, Quality::Weak, 0));
    round.add(Riff::new(2, 2, Quality::Strong, 0));
    round.add(Riff::new(3, 2, Quality::Okay, 0));
    assert_eq!(round.best().unwrap().agent_id, 2);
}

#[test]
fn equal_qualities_have_no_gap() {
    let mut round = Round::new(0);
    round.add(Riff::new(0, 0, Quality::Okay, 0));
    round.add(Riff::new(1, 0, Quality::Okay, 0));
    assert_eq!(round.quality_gap, 0);
    assert!(!round.was_productive(&reading(0.2, 0.8)));
    round.add(Riff::new(2, 0, Quality::Strong, 0));
    assert_eq!(round.quality_gap, 1);
    assert!(round.was_productive(&reading(0.2, 0.8)));
}

#[test]
fn riffs_carry_round_and_mode_direction() {
    let mut s = RiffSession::new(vec![0, 1]);
    s.new_round();
    s.riff(0, Quality::Okay);
    s.mode = ResponseMode::Invert;
    s.riff(1, Quality::Okay);
    s.new_round();
    s.riff(0, Quality::Okay);
    assert_eq!(s.rounds[0].number, 0);
    assert_eq!(s.rounds[1].number, 1);
    assert_eq!(s.rounds[0].riffs[0].direction, 0);
    assert_eq!(s.rounds[0].riffs[1].direction, -1);
    assert_eq!(s.rounds[1].riffs[0].round, 1);
    assert_eq!(s.rounds[0].riffs[1].round, 0);
}

#[test]
fn riff_without_round_only_records_history() {
    let mut s = RiffSession::new(vec![0]);
    s.riff(0, Quality::Strong);
    assert!(s.rounds.is_empty());
    assert_eq!(s.history.len(), 1);
    assert_eq!(s.history[0], Quality::Strong);
}

#[test]
fn history_keeps_last_twenty() {
    let mut s = RiffSession::new(vec![0]);
    s.new_round();
    s.riff(0, Quality::Weak);
    for _ in 0..HISTORY_LIMIT {
        s.riff(0, Quality::Strong);
    }
    assert_eq!(s.history.len(), HISTORY_LIMIT);
    assert!(s.history.iter().all(|q| *q == Quality::Strong));
    s.riff(0, Quality::Okay);
    assert_eq!(s.history.len(), HISTORY_LIMIT);
    assert_eq!(*s.history.back().unwrap(), Quality::Okay);
}

#[test]
fn evaluate_without_rounds_changes_nothing() {
    let mut s = RiffSession::new(vec![0, 1]);
    s.streak = 4;
    let summary = s.evaluate(reading(0.9, 0.5));
    assert!(!summary.productive);
    assert!(!summary.landed);
    assert_eq!(summary.mode, ResponseMode::Escalate);
    assert_eq!(s.streak, 4);
    assert!(!s.finished);
}

#[test]
fn landing_needs_a_strong_riff() {
    let mut j = Jam::new(vec![0, 1]);
    j.landing_threshold = 0.5;
    j.new_round();
    j.riff(0, Quality::Okay, 1.0);
    j.riff(1, Quality::Okay, 1.0);
    let (_, summary) = j.evaluate();
    assert!(!summary.landed);
    assert!(summary.productive);
}

#[test]
fn streak_resets_and_long_streak_pivots() {
    let mut j = Jam::new(vec![0, 1]);
    for _ in 0..6 {
        j.new_round();
        j.riff(0, Quality::Strong, 0.5);
        j.riff(1, Quality::Strong, 0.5);
        j.evaluate();
    }
    assert_eq!(j.s.streak, 6);
    assert_eq!(j.s.mode, ResponseMode::Pivot);
    j.new_round();
    j.riff(0, Quality::Okay, 0.0);
    let (_, summary) = j.evaluate();
    assert!(!summary.productive);
    assert_eq!(j.s.streak, 0);
    assert_eq!(j.s.mode, ResponseMode::Provoked);
    // one unproductive round is fewer than the five in a row that end a session
    assert_eq!(j.s.unproductive_run, 1);
    assert!(!j.s.finished);
}

#[test]
fn stale_needs_threshold_unproductive_rounds_in_a_row() {
    let mut j = Jam::new(vec![0, 1]);
    for _ in 0..4 {
        j.new_round();
        j.riff(0, Quality::Weak, 0.01);
        j.riff(1, Quality::Weak, 0.01);
        j.evaluate();
    }
    assert!(!j.s.finished);
    // a productive round breaks the run
    j.new_round();
    j.riff(0, Quality::Strong, 0.5);
    j.evaluate();
    assert_eq!(j.s.unproductive_run, 0);
    for _ in 0..4 {
        j.new_round();
        j.riff(0, Quality::Weak, 0.01);
        j.evaluate();
        assert!(!j.s.finished);
    }
    j.new_round();
    j.riff(0, Quality::Weak, 0.01);
    j.evaluate();
    assert_eq!(j.s.unproductive_run, 5);
    assert!(j.s.finished);
}

#[test]
fn repeated_evaluation_counts_a_round_once() {
    let mut j = Jam::new(vec![0, 1]);
    j.new_round();
    j.riff(0, Quality::Okay, 0.0);
    for _ in 0..10 {
        let (_, summary) = j.evaluate();
        assert!(!summary.productive);
    }
    assert_eq!(j.s.unproductive_run, 1);
    assert_eq!(j.s.streak, 0);
    assert_eq!(j.s.rounds[0].verdict, Some(false));
    assert!(!j.s.finished);
    j.new_round();
    j.riff(0, Quality::Strong, 0.9);
    j.evaluate();
    j.evaluate();
    assert_eq!(j.s.streak, 1);
    assert_eq!(j.s.unproductive_run, 0);
}

#[test]
fn unevaluated_rounds_are_passed_over() {
    let mut j = Jam::new(vec![0]);
    j.new_round();
    j.riff(0, Quality::Strong, 0.9);
    j.evaluate();
    j.new_round();
    j.riff(0, Quality::Weak, 0.0);
    j.new_round();
    j.riff(0, Quality::Strong, 0.9);
    j.evaluate();
    assert_eq!(j.s.streak, 2);
    assert_eq!(j.s.rounds[1].verdict, None);
}

#[test]
fn best_position_is_last_highest() {
    let mut round = Round::new(0);
    assert_eq!(round.best_position(), None);
    round.add(Riff::new(0, 0, Quality::Okay, 0));
    round.add(Riff::new(1, 0, Quality::Okay, 0));
    round.add(Riff::new(2, 0, Quality::Weak, 0));
    assert_eq!(round.best_position(), Some(1));
}

#[test]
fn finished_stays_finished() {
    let mut j = Jam::new(vec![0]);
    j.s.finished = true;
    j.new_round();
    j.riff(0, Quality::Strong, 1.0);
    j.evaluate();
    assert!(j.s.finished);
}

#[test]
fn metrics_counts() {
    let mut j = Jam::new(vec![0, 1]);
    j.new_round();
    j.riff(0, Quality::Strong, 0.9);
    j.riff(1, Quality::Weak, 0.1);
    j.evaluate();
    j.new_round();
    j.riff(0, Quality::Okay, 0.1);
    j.riff(1, Quality::Okay, 0.05);
    j.evaluate();
    j.new_round();
    j.riff(0, Quality::Strong, 0.5);
    let (m, _, _) = j.metrics();
    assert_eq!(m.total_rounds, 3);
    assert_eq!(m.productive_rounds, 2);
    assert_eq!(m.strong_riffs, 2);
    assert_eq!(m.total_riffs, 5);
    assert_eq!(m.streak, 0);
    assert_eq!(m.landed_count, 1);
}

#[test]
fn landed_count_needs_a_strong_riff() {
    let mut j = Jam::new(vec![0, 1]);
    j.new_round();
    j.riff(0, Quality::Okay, 0.5);
    j.riff(1, Quality::Okay, 0.5);
    let (_, summary) = j.evaluate();
    assert!(!summary.landed);
    let (m, _, _) = j.metrics();
    assert_eq!(m.landed_count, 0);
}
