use vstd::prelude::*;
use std::collections::VecDeque;
use crate::mode::ResponseMode;
use crate::quality::Quality;
use crate::round::{Riff, Round, SurpriseReading, gap, has_strong, strong_count};

verus! {

/// How many recent qualities the session remembers.
pub const HISTORY_LIMIT: usize = 20;

/// The default number of rounds after which an unproductive session stops.
pub const DEFAULT_STALE_THRESHOLD: u32 = 5;

/// The riff session: the jam where agents compete.
#[derive(Debug, Clone)]
pub struct RiffSession {
    pub agents: Vec<u32>,
    pub rounds: Vec<Round>,
    pub current_round: u32,
    pub mode: ResponseMode,
    /// Consecutive productive rounds.
    pub streak: u32,
    /// Consecutive unproductive rounds.
    pub unproductive_run: u32,
    /// Rounds without surprise before declaring stale.
    pub stale_threshold: u32,
    pub finished: bool,
    /// Recent quality history.
    pub history: VecDeque<Quality>,
}

/// Summary of a single round's evaluation (its surprise is the caller's).
#[derive(Debug, Clone, Copy, PartialEq, Eq, Structural)]
pub struct RoundSummary {
    pub productive: bool,
    pub landed: bool,
    pub mode: ResponseMode,
}

/// The session's counts (the sums and ratios of surprise are the caller's).
#[derive(Debug, Clone, Copy, PartialEq, Eq, Structural)]
pub struct SessionMetrics {
    pub total_rounds: usize,
    pub productive_rounds: usize,
    pub strong_riffs: usize,
    pub total_riffs: usize,
    pub streak: u32,
    pub landed_count: usize,
}

/// The history after recording `q`: appended, and the oldest entry dropped
/// when that makes it longer than the limit.
pub open spec fn recorded(h: Seq<Quality>, q: Quality) -> Seq<Quality> {
    let p = h.push(q);
    if p.len() > HISTORY_LIMIT {
        p.subrange(1, p.len() as int)
    } else {
        p
    }
}

/// How many of the first `n` rounds were productive under their readings.
pub open spec fn productive_upto(rounds: Seq<Round>, readings: Seq<SurpriseReading>, n: int) -> int
    decreases n,
{
    if n <= 0 {
        0
    } else {
        productive_upto(rounds, readings, n - 1) + if rounds[n - 1].productive(readings[n - 1]) {
            1int
        } else {
            0int
        }
    }
}

/// How many of the first `n` rounds landed: their reading is over the
/// landing threshold and one of their riffs is Strong.
pub open spec fn landed_upto(rounds: Seq<Round>, readings: Seq<SurpriseReading>, n: int) -> int
    decreases n,
{
    if n <= 0 {
        0
    } else {
        landed_upto(rounds, readings, n - 1) + if readings[n - 1].exceeds_landing && has_strong(
            rounds[n - 1].riffs@,
        ) {
            1int
        } else {
            0int
        }
    }
}

/// How many riffs the first `n` rounds hold.
pub open spec fn riffs_upto(rounds: Seq<Round>, n: int) -> int
    decreases n,
{
    if n <= 0 {
        0
    } else {
        riffs_upto(rounds, n - 1) + rounds[n - 1].riffs@.len()
    }
}

/// How many Strong riffs the first `n` rounds hold.
pub open spec fn strong_upto(rounds: Seq<Round>, n: int) -> int
    decreases n,
{
    if n <= 0 {
        0
    } else {
        strong_upto(rounds, n - 1) + strong_count(rounds[n - 1].riffs@)
    }
}

/// How many evaluated rounds at the end were productive in a row (rounds not
/// evaluated are passed over).
pub open spec fn trailing_productive(rounds: Seq<Round>) -> int
    decreases rounds.len(),
{
    if rounds.len() == 0 {
        0
    } else {
        match rounds.last().verdict {
            None => trailing_productive(rounds.drop_last()),
            Some(true) => trailing_productive(rounds.drop_last()) + 1,
            Some(false) => 0,
        }
    }
}

/// How many evaluated rounds at the end were unproductive in a row (rounds
/// not evaluated are passed over).
pub open spec fn trailing_unproductive(rounds: Seq<Round>) -> int
    decreases rounds.len(),
{
    if rounds.len() == 0 {
        0
    } else {
        match rounds.last().verdict {
            None => trailing_unproductive(rounds.drop_last()),
            Some(false) => trailing_unproductive(rounds.drop_last()) + 1,
            Some(true) => 0,
        }
    }
}

impl RiffSession {
    /// The session's invariant: one round per round started, numbered by
    /// position; each round's gap is that of its riffs; each riff carries its
    /// round's number and a direction in -1..=1; the history is bounded; and
    /// the streak and the unproductive run count the evaluated rounds at the
    /// end that were productive, and unproductive, in a row.
    pub open spec fn wf(&self) -> bool {
        &&& self.rounds@.len() == self.current_round
        &&& forall|i: int| 0 <= i < self.rounds@.len() ==> (#[trigger] self.rounds@[i]).number == i
        &&& forall|i: int| 0 <= i < self.rounds@.len() ==> (#[trigger] self.rounds@[i]).wf()
        &&& forall|i: int, j: int|
            0 <= i < self.rounds@.len() && 0 <= j < self.rounds@[i].riffs@.len() ==> {
                &&& (#[trigger] self.rounds@[i].riffs@[j]).round == i
                &&& -1 <= self.rounds@[i].riffs@[j].direction <= 1
            }
        &&& self.history@.len() <= HISTORY_LIMIT
        &&& self.streak == trailing_productive(self.rounds@)
        &&& self.unproductive_run == trailing_unproductive(self.rounds@)
    }

    /// The riff that agent `agent_id` adds with `quality` in this state: in
    /// the latest round started, with the current mode's direction.
    pub open spec fn riff_of(&self, agent_id: u32, quality: Quality) -> Riff {
        Riff {
            agent_id,
            round: if self.current_round == 0 {
                0u32
            } else {
                (self.current_round - 1) as u32
            },
            content_hash: 0,
            quality,
            direction: self.mode.offset() as i8,
        }
    }

    /// A new session with the given agents, no rounds, escalating, and a
    /// stale threshold of five.
    pub fn new(agents: Vec<u32>) -> (s: RiffSession)
        ensures
            s.agents@ == agents@,
            s.rounds@ == Seq::<Round>::empty(),
            s.current_round == 0,
            s.mode == ResponseMode::Escalate,
            s.streak == 0,
            s.unproductive_run == 0,
            s.stale_threshold == DEFAULT_STALE_THRESHOLD,
            !s.finished,
            s.history@ == Seq::<Quality>::empty(),
            s.wf(),
    {
        RiffSession {
            agents,
            rounds: Vec::new(),
            current_round: 0,
            mode: ResponseMode::Escalate,
            streak: 0,
            unproductive_run: 0,
            stale_threshold: DEFAULT_STALE_THRESHOLD,
            finished: false,
            history: VecDeque::new(),
        }
    }

    /// Starts a new round, numbered by the rounds started before it, and
    /// hands it out.
    #[verifier::spinoff_prover]
    pub fn new_round(&mut self) -> (r: &mut Round)
        requires
            old(self).current_round < u32::MAX,
        ensures
            r.number == old(self).current_round,
            r.riffs@ == Seq::<Riff>::empty(),
            r.quality_gap == 0,
            final(self).rounds@ == old(self).rounds@.push(*final(r)),
            final(self).current_round == old(self).current_round + 1,
            final(self).agents == old(self).agents,
            final(self).mode == old(self).mode,
            final(self).streak == old(self).streak,
            final(self).unproductive_run == old(self).unproductive_run,
            final(self).stale_threshold == old(self).stale_threshold,
            final(self).finished == old(self).finished,
            final(self).history == old(self).history,
            r.verdict is None,
            old(self).wf() && *final(r) == *r ==> final(self).wf(),
    {
        let r = Round::new(self.current_round);
        self.rounds.push(r);
        self.current_round = self.current_round + 1;
        let last = self.rounds.len() - 1;
        assert forall|x: Round| x.verdict is None implies {
            &&& trailing_productive(old(self).rounds@.push(x)) == trailing_productive(old(self).rounds@)
            &&& trailing_unproductive(old(self).rounds@.push(x)) == trailing_unproductive(
                old(self).rounds@,
            )
        } by {
            assert(old(self).rounds@.push(x).drop_last() =~= old(self).rounds@);
        }
        &mut self.rounds[last]
    }

    /// Adds a riff by `agent_id` to the latest round, in the direction of the
    /// current mode, and records its quality in the history, which keeps the
    /// last twenty. With no round started only the history changes.
    pub fn riff(&mut self, agent_id: u32, quality: Quality)
        ensures
            old(self).rounds@.len() > 0 ==> {
                let k = old(self).rounds@.len() - 1;
                &&& final(self).rounds@.len() == old(self).rounds@.len()
                &&& forall|i: int| 0 <= i < k ==> final(self).rounds@[i] == old(self).rounds@[i]
                &&& final(self).rounds@[k].number == old(self).rounds@[k].number
                &&& final(self).rounds@[k].riffs@ == old(self).rounds@[k].riffs@.push(
                    old(self).riff_of(agent_id, quality),
                )
                &&& final(self).rounds@[k].quality_gap == gap(final(self).rounds@[k].riffs@)
            },
            old(self).rounds@.len() > 0 ==> {
                let added = final(self).rounds@[old(self).rounds@.len() - 1].riffs@.last();
                &&& added.agent_id == agent_id
                &&& added.quality == quality
                &&& added.content_hash == 0
                &&& added.direction == old(self).mode.offset()
                &&& added.round + 1 == old(self).current_round || (added.round == 0
                    && old(self).current_round == 0)
            },
            old(self).rounds@.len() == 0 ==> final(self).rounds == old(self).rounds,
            final(self).history@ == recorded(old(self).history@, quality),
            final(self).agents == old(self).agents,
            final(self).current_round == old(self).current_round,
            final(self).mode == old(self).mode,
            final(self).streak == old(self).streak,
            final(self).unproductive_run == old(self).unproductive_run,
            final(self).stale_threshold == old(self).stale_threshold,
            final(self).finished == old(self).finished,
            old(self).wf() ==> final(self).wf(),
    {
        let direction = self.mode.direction();
        let round = self.current_round.saturating_sub(1);
        let riff = Riff::new(agent_id, round, quality, direction);
        let n = self.rounds.len();
        if n > 0 {
            self.rounds[n - 1].add(riff);
        }
        self.history.push_back(quality);
        if self.history.len() > HISTORY_LIMIT {
            self.history.pop_front();
        }
        proof {
            if old(self).wf() && n > 0 {
                let k = n - 1;
                assert(self.rounds@.drop_last() =~= old(self).rounds@.drop_last());
                assert forall|i: int, j: int|
                    0 <= i < self.rounds@.len() && 0 <= j < self.rounds@[i].riffs@.len() implies {
                        &&& (#[trigger] self.rounds@[i].riffs@[j]).round == i
                        &&& -1 <= self.rounds@[i].riffs@[j].direction <= 1
                    } by {
                    if i < k {
                        assert(self.rounds@[i] == old(self).rounds@[i]);
                    } else if j < old(self).rounds@[k].riffs@.len() {
                        assert(self.rounds@[k].riffs@[j] == old(self).rounds@[k].riffs@[j]);
                    }
                }
                assert forall|i: int| 0 <= i < self.rounds@.len() implies (#[trigger] self.rounds@[i]).number == i by {
                    if i < k {
                        assert(self.rounds@[i] == old(self).rounds@[i]);
                    }
                }
                assert forall|i: int| 0 <= i < self.rounds@.len() implies (#[trigger] self.rounds@[i]).wf() by {
                    if i < k {
                        assert(self.rounds@[i] == old(self).rounds@[i]);
                    }
                }
            }
        }
    }

    /// Evaluates the latest round and chooses the next response mode.
    ///
    /// With no round started, nothing changes and the summary is neither
    /// productive nor landed. Otherwise the round's productivity is settled
    /// by its first evaluation, which records it in the round: a productive
    /// round extends the streak and clears the run of unproductive rounds,
    /// while an unproductive one resets the streak and extends that run; a
    /// round evaluated again keeps its verdict and is not counted again. The
    /// round landed when this reading is over the landing threshold and one of
    /// its riffs is Strong; the next mode follows this reading's surprise band
    /// and the streak; and once `stale_threshold` unproductive rounds have come
    /// in a row the session is finished.
    pub fn evaluate(&mut self, reading: SurpriseReading) -> (summary: RoundSummary)
        requires
            old(self).rounds@.len() > 0 && old(self).rounds@.last().verdict is None ==> {
                &&& old(self).rounds@.last().productive(reading) ==> old(self).streak < u32::MAX
                &&& !old(self).rounds@.last().productive(reading) ==> old(self).unproductive_run
                    < u32::MAX
            },
        ensures
            old(self).rounds@.len() == 0 ==> summary == (RoundSummary {
                productive: false,
                landed: false,
                mode: old(self).mode,
            }) && *final(self) == *old(self),
            old(self).rounds@.len() > 0 ==> {
                let k = old(self).rounds@.len() - 1;
                let last = old(self).rounds@[k];
                let first = last.verdict is None;
                let p = match last.verdict {
                    Some(v) => v,
                    None => last.productive(reading),
                };
                &&& summary.productive == p
                &&& summary.landed == (reading.exceeds_landing && has_strong(last.riffs@))
                &&& final(self).rounds@.len() == old(self).rounds@.len()
                &&& forall|i: int| 0 <= i < k ==> final(self).rounds@[i] == old(self).rounds@[i]
                &&& final(self).rounds@[k].number == last.number
                &&& final(self).rounds@[k].riffs == last.riffs
                &&& final(self).rounds@[k].quality_gap == last.quality_gap
                &&& final(self).rounds@[k].verdict == Some(p)
                &&& final(self).streak == (if !first {
                    old(self).streak as int
                } else if p {
                    old(self).streak + 1
                } else {
                    0
                })
                &&& final(self).unproductive_run == (if !first {
                    old(self).unproductive_run as int
                } else if p {
                    0
                } else {
                    old(self).unproductive_run + 1
                })
                &&& final(self).mode == ResponseMode::chosen(reading.band, final(self).streak as int)
                &&& summary.mode == final(self).mode
                &&& final(self).finished == (old(self).finished || (!p
                    && final(self).unproductive_run >= old(self).stale_threshold))
                &&& final(self).agents == old(self).agents
                &&& final(self).current_round == old(self).current_round
                &&& final(self).stale_threshold == old(self).stale_threshold
                &&& final(self).history == old(self).history
            },
            old(self).finished ==> final(self).finished,
            old(self).wf() ==> final(self).wf(),
            old(self).wf() && old(self).rounds@.len() > 0 ==> final(self).finished == (
            old(self).finished || (!summary.productive && trailing_unproductive(final(self).rounds@)
                >= old(self).stale_threshold)),
    {
        let n = self.rounds.len();
        if n == 0 {
            return RoundSummary { productive: false, landed: false, mode: self.mode };
        }
        let landed = reading.exceeds_landing && self.rounds[n - 1].any_strong();
        let productive = match self.rounds[n - 1].verdict {
            Some(v) => v,
            None => {
                let fresh = self.rounds[n - 1].was_productive(&reading);
                self.rounds[n - 1].verdict = Some(fresh);
                if fresh {
                    self.streak = self.streak + 1;
                    self.unproductive_run = 0;
                } else {
                    self.streak = 0;
                    self.unproductive_run = self.unproductive_run + 1;
                }
                fresh
            },
        };
        self.mode = ResponseMode::select(reading.band, self.streak);
        if !productive && self.unproductive_run >= self.stale_threshold {
            self.finished = true;
        }
        proof {
            if old(self).wf() {
                assert(self.rounds@.drop_last() =~= old(self).rounds@.drop_last());
                let k = n - 1;
                assert forall|i: int| 0 <= i < self.rounds@.len() implies (#[trigger] self.rounds@[i]).number == i by {
                    if i < k {
                        assert(self.rounds@[i] == old(self).rounds@[i]);
                    }
                }
                assert forall|i: int| 0 <= i < self.rounds@.len() implies (#[trigger] self.rounds@[i]).wf() by {
                    if i < k {
                        assert(self.rounds@[i] == old(self).rounds@[i]);
                    }
                }
                assert forall|i: int, j: int|
                    0 <= i < self.rounds@.len() && 0 <= j < self.rounds@[i].riffs@.len() implies {
                        &&& (#[trigger] self.rounds@[i].riffs@[j]).round == i
                        &&& -1 <= self.rounds@[i].riffs@[j].direction <= 1
                    } by {
                    if i < k {
                        assert(self.rounds@[i] == old(self).rounds@[i]);
                    }
                }
            }
        }
        RoundSummary { productive, landed, mode: self.mode }
    }

    /// Overall session counts. `readings[i]` is what the caller read of
    /// round `i`'s total surprise: a round is counted as productive by the
    /// productivity rule under its reading, and as landed when its reading is
    /// over the landing threshold and one of its riffs is Strong.
    pub fn metrics(&self, readings: &Vec<SurpriseReading>) -> (m: SessionMetrics)
        requires
            readings@.len() == self.rounds@.len(),
            riffs_upto(self.rounds@, self.rounds@.len() as int) <= usize::MAX,
        ensures
            m.total_rounds == self.rounds@.len(),
            m.productive_rounds == productive_upto(self.rounds@, readings@, self.rounds@.len() as int),
            m.strong_riffs == strong_upto(self.rounds@, self.rounds@.len() as int),
            m.total_riffs == riffs_upto(self.rounds@, self.rounds@.len() as int),
            m.streak == self.streak,
            m.landed_count == landed_upto(self.rounds@, readings@, self.rounds@.len() as int),
            m.productive_rounds <= m.total_rounds,
            m.landed_count <= m.total_rounds,
            m.strong_riffs <= m.total_riffs,
            self.wf() ==> m.total_rounds == self.current_round,
    {
        let n = self.rounds.len();
        let mut productive: usize = 0;
        let mut landed: usize = 0;
        let mut strong: usize = 0;
        let mut total: usize = 0;
        let mut i: usize = 0;
        while i < n
            invariant
                i <= n,
                n == self.rounds@.len(),
                readings@.len() == n,
                riffs_upto(self.rounds@, n as int) <= usize::MAX,
                productive == productive_upto(self.rounds@, readings@, i as int),
                landed == landed_upto(self.rounds@, readings@, i as int),
                strong == strong_upto(self.rounds@, i as int),
                total == riffs_upto(self.rounds@, i as int),
                productive <= i,
                landed <= i,
                strong <= total,
            decreases n - i,
        {
            if self.rounds[i].was_productive(&readings[i]) {
                productive = productive + 1;
            }
            if readings[i].exceeds_landing && self.rounds[i].any_strong() {
                landed = landed + 1;
            }
            proof {
                lemma_riffs_upto_monotone(self.rounds@, i as int + 1, n as int);
            }
            strong = strong + self.rounds[i].count_strong();
            total = total + self.rounds[i].riffs.len();
            i = i + 1;
        }
        SessionMetrics {
            total_rounds: n,
            productive_rounds: productive,
            strong_riffs: strong,
            total_riffs: total,
            streak: self.streak,
            landed_count: landed,
        }
    }
}

/// Counting the riffs of more rounds never gives fewer.
pub proof fn lemma_riffs_upto_monotone(rounds: Seq<Round>, i: int, n: int)
    requires
        0 <= i <= n,
    ensures
        riffs_upto(rounds, i) <= riffs_upto(rounds, n),
    decreases n - i,
{
    if i < n {
        lemma_riffs_upto_monotone(rounds, i, n - 1);
    }
}

/// Recording a quality in a history within the limit keeps the limit, ends
/// with that quality, and keeps the most recent entries: the result is the
/// tail of the history with the quality appended.
pub proof fn lemma_history_window(h: Seq<Quality>, q: Quality)
    requires
        h.len() <= HISTORY_LIMIT,
    ensures
        recorded(h, q).len() == (if h.len() < HISTORY_LIMIT { h.len() + 1int } else { HISTORY_LIMIT as int }),
        recorded(h, q).last() == q,
        recorded(h, q) == h.push(q).subrange(h.len() + 1 - recorded(h, q).len(), h.len() + 1int),
{
    assert(h.push(q).subrange(0, h.len() + 1int) =~= h.push(q));
}

/// The runs at the end count evaluated rounds only, so neither is longer
/// than the rounds.
pub proof fn lemma_trailing_bounded(rounds: Seq<Round>)
    ensures
        0 <= trailing_productive(rounds) <= rounds.len(),
        0 <= trailing_unproductive(rounds) <= rounds.len(),
    decreases rounds.len(),
{
    if rounds.len() > 0 {
        lemma_trailing_bounded(rounds.drop_last());
    }
}

/// A well-formed session can always be evaluated: its streak and
/// unproductive run are too short to overflow when a new round is counted.
/// So `evaluate` may be called on every well-formed session, and on each it
/// keeps a finished session finished.
pub proof fn lemma_wf_evaluate_allowed(s: &RiffSession, reading: SurpriseReading)
    requires
        s.wf(),
    ensures
        s.rounds@.len() > 0 && s.rounds@.last().verdict is None ==> {
            &&& s.rounds@.last().productive(reading) ==> s.streak < u32::MAX
            &&& !s.rounds@.last().productive(reading) ==> s.unproductive_run < u32::MAX
        },
{
    if s.rounds@.len() > 0 && s.rounds@.last().verdict is None {
        lemma_trailing_bounded(s.rounds@.drop_last());
    }
}

/// Counting rounds one further adds exactly what that round contributes:
/// one productive round when its surprise is over the floor or its riffs
/// differ in quality; one landed round when its surprise is over the landing
/// threshold and one of its riffs is Strong; its riffs; and its Strong riffs.
/// Each count is between zero and the rounds counted (the riff counts between
/// zero and the riffs).
pub proof fn lemma_counts_step(rounds: Seq<Round>, readings: Seq<SurpriseReading>, n: int)
    requires
        0 < n,
    ensures
        productive_upto(rounds, readings, n) == productive_upto(rounds, readings, n - 1) + (if readings[n
            - 1].exceeds_floor || rounds[n - 1].quality_gap > 0 {
            1int
        } else {
            0int
        }),
        landed_upto(rounds, readings, n) == landed_upto(rounds, readings, n - 1) + (if readings[n
            - 1].exceeds_landing && (exists|j: int|
            0 <= j < rounds[n - 1].riffs@.len() && (#[trigger] rounds[n - 1].riffs@[j]).quality
                == Quality::Strong) {
            1int
        } else {
            0int
        }),
        riffs_upto(rounds, n) == riffs_upto(rounds, n - 1) + rounds[n - 1].riffs@.len(),
        strong_upto(rounds, n) == strong_upto(rounds, n - 1) + rounds[n - 1].riffs@.filter(
            |x: Riff| x.quality == Quality::Strong,
        ).len(),
{
    crate::round::lemma_strong_count_counts(rounds[n - 1].riffs@, rounds[n - 1].riffs@[0]);
}

/// Every count lies between zero and the number of rounds (riffs) counted.
pub proof fn lemma_counts_bounded(rounds: Seq<Round>, readings: Seq<SurpriseReading>, n: int)
    requires
        0 <= n,
    ensures
        0 <= productive_upto(rounds, readings, n) <= n,
        0 <= landed_upto(rounds, readings, n) <= n,
        0 <= strong_upto(rounds, n) <= riffs_upto(rounds, n),
    decreases n,
{
    if n > 0 {
        lemma_counts_bounded(rounds, readings, n - 1);
        crate::round::lemma_strong_count(rounds[n - 1].riffs@);
    }
}

/// The runs at the end follow the rounds: a round not yet evaluated leaves
/// both unchanged, a productive round extends the productive run and ends
/// the unproductive one, and an unproductive round does the reverse.
pub proof fn lemma_trailing_push(rounds: Seq<Round>, r: Round)
    ensures
        r.verdict is None ==> trailing_productive(rounds.push(r)) == trailing_productive(rounds)
            && trailing_unproductive(rounds.push(r)) == trailing_unproductive(rounds),
        r.verdict == Some(true) ==> trailing_productive(rounds.push(r)) == trailing_productive(
            rounds,
        ) + 1 && trailing_unproductive(rounds.push(r)) == 0,
        r.verdict == Some(false) ==> trailing_productive(rounds.push(r)) == 0
            && trailing_unproductive(rounds.push(r)) == trailing_unproductive(rounds) + 1,
{
    assert(rounds.push(r).drop_last() =~= rounds);
}

/// The riff a session adds is the agent's, with the given quality, the
/// current mode's direction and the latest round's number.
pub proof fn lemma_riff_of(s: &RiffSession, agent_id: u32, quality: Quality)
    ensures
        s.riff_of(agent_id, quality).agent_id == agent_id,
        s.riff_of(agent_id, quality).quality == quality,
        s.riff_of(agent_id, quality).direction == s.mode.offset(),
        s.riff_of(agent_id, quality).content_hash == 0,
        s.current_round > 0 ==> s.riff_of(agent_id, quality).round + 1 == s.current_round,
{
}

} // verus!
