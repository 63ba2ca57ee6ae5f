use vstd::prelude::*;
use crate::mode::SurpriseBand;
use crate::quality::Quality;

verus! {

/// A single riff: an agent's output in one round. How surprising it was is
/// measured by the caller and carried beside it, not here.
#[derive(Debug, Clone, Copy, PartialEq, Eq, Structural)]
pub struct Riff {
    pub agent_id: u32,
    pub round: u32,
    /// Hash of the output (domain-specific).
    pub content_hash: u64,
    pub quality: Quality,
    /// -1 = reversed direction, 0 = extended, +1 = new direction.
    pub direction: i8,
}

/// What the session's rules read of a round's total surprise, a real number
/// that the caller holds: whether it is over the productive floor, whether
/// it is over the landing threshold, and its band for the choice of mode.
#[derive(Debug, Clone, Copy, PartialEq, Eq, Structural)]
pub struct SurpriseReading {
    pub exceeds_floor: bool,
    pub exceeds_landing: bool,
    pub band: SurpriseBand,
}

/// `v` held to the range -1..=1.
pub open spec fn clamp_direction(v: int) -> int {
    if v < -1 {
        -1
    } else if v > 1 {
        1
    } else {
        v
    }
}

/// The highest score among the riffs (0 for none).
pub open spec fn highest(s: Seq<Riff>) -> int
    decreases s.len(),
{
    if s.len() == 0 {
        0
    } else if s.len() == 1 {
        s[0].quality.score()
    } else {
        let h = highest(s.drop_last());
        let v = s.last().quality.score();
        if v > h {
            v
        } else {
            h
        }
    }
}

/// The lowest score among the riffs (0 for none).
pub open spec fn lowest(s: Seq<Riff>) -> int
    decreases s.len(),
{
    if s.len() == 0 {
        0
    } else if s.len() == 1 {
        s[0].quality.score()
    } else {
        let l = lowest(s.drop_last());
        let v = s.last().quality.score();
        if v < l {
            v
        } else {
            l
        }
    }
}

/// The difference between the best and the worst riff's score.
pub open spec fn gap(s: Seq<Riff>) -> int {
    highest(s) - lowest(s)
}

/// The index of the best riff: of those with the highest score, the last.
pub open spec fn best_index(s: Seq<Riff>) -> int
    decreases s.len(),
{
    if s.len() <= 1 {
        0
    } else {
        let k = best_index(s.drop_last());
        if s.last().quality.score() >= s[k].quality.score() {
            s.len() - 1
        } else {
            k
        }
    }
}

/// How many of the riffs are Strong.
pub open spec fn strong_count(s: Seq<Riff>) -> int
    decreases s.len(),
{
    if s.len() == 0 {
        0
    } else {
        strong_count(s.drop_last()) + if s.last().quality == Quality::Strong {
            1int
        } else {
            0int
        }
    }
}

/// Whether some riff is Strong.
pub open spec fn has_strong(s: Seq<Riff>) -> bool {
    exists|i: int| 0 <= i < s.len() && (#[trigger] s[i]).quality == Quality::Strong
}

impl Riff {
    /// A riff with no content hash and its direction held to -1..=1.
    pub fn new(agent_id: u32, round: u32, quality: Quality, direction: i8) -> (r: Riff)
        ensures
            r.agent_id == agent_id,
            r.round == round,
            r.content_hash == 0,
            r.quality == quality,
            r.direction == clamp_direction(direction as int),
    {
        let d: i8 = if direction < -1 {
            -1
        } else if direction > 1 {
            1
        } else {
            direction
        };
        Riff { agent_id, round, content_hash: 0, quality, direction: d }
    }
}

/// A riff round: one exchange between agents. Its total surprise is held
/// by the caller.
#[derive(Debug, Clone)]
pub struct Round {
    pub number: u32,
    pub riffs: Vec<Riff>,
    /// Difference between best and worst riff.
    pub quality_gap: i8,
    /// Whether the round was productive, settled when the session first
    /// evaluated it; `None` while it has not been evaluated.
    pub verdict: Option<bool>,
}

impl Round {
    /// Whether the round holds its gap: the gap of its riffs.
    pub open spec fn wf(&self) -> bool {
        self.quality_gap == gap(self.riffs@)
    }

    /// The productivity rule: surprising enough, or riffs of unequal quality.
    pub open spec fn productive(&self, reading: SurpriseReading) -> bool {
        reading.exceeds_floor || self.quality_gap > 0
    }

    /// An empty round with the given number.
    pub fn new(number: u32) -> (r: Round)
        ensures
            r.number == number,
            r.riffs@ == Seq::<Riff>::empty(),
            r.quality_gap == 0,
            r.verdict is None,
            r.wf(),
    {
        Round { number, riffs: Vec::new(), quality_gap: 0, verdict: None }
    }

    /// Adds a riff and recomputes the quality gap.
    pub fn add(&mut self, riff: Riff)
        ensures
            final(self).number == old(self).number,
            final(self).riffs@ == old(self).riffs@.push(riff),
            final(self).quality_gap == gap(final(self).riffs@),
            final(self).verdict == old(self).verdict,
    {
        self.riffs.push(riff);
        self.recalc();
    }

    /// Sets the quality gap from the riffs; an empty round keeps its gap.
    fn recalc(&mut self)
        ensures
            final(self).number == old(self).number,
            final(self).riffs@ == old(self).riffs@,
            final(self).verdict == old(self).verdict,
            old(self).riffs@.len() > 0 ==> final(self).quality_gap == gap(old(self).riffs@),
            old(self).riffs@.len() == 0 ==> final(self).quality_gap == old(self).quality_gap,
    {
        let n = self.riffs.len();
        if n == 0 {
            return;
        }
        let ghost s = self.riffs@;
        let mut hi: i8 = self.riffs[0].quality.to_i8();
        let mut lo: i8 = hi;
        let mut i: usize = 1;
        assert(s.take(1).drop_last() =~= Seq::<Riff>::empty());
        while i < n
            invariant
                1 <= i <= n,
                n == s.len(),
                s == self.riffs@,
                hi == highest(s.take(i as int)),
                lo == lowest(s.take(i as int)),
                -1 <= lo <= hi <= 1,
            decreases n - i,
        {
            let v = self.riffs[i].quality.to_i8();
            assert(s.take(i as int + 1).drop_last() =~= s.take(i as int));
            if v > hi {
                hi = v;
            }
            if v < lo {
                lo = v;
            }
            i = i + 1;
        }
        assert(s.take(n as int) =~= s);
        self.quality_gap = hi - lo;
    }

    /// Did this round produce surprising output?
    pub fn was_productive(&self, reading: &SurpriseReading) -> (r: bool)
        ensures
            r == self.productive(*reading),
    {
        reading.exceeds_floor || self.quality_gap > 0
    }

    /// Position of the best riff in this round: the last of those with the
    /// highest quality.
    pub fn best_position(&self) -> (r: Option<usize>)
        ensures
            self.riffs@.len() == 0 ==> r is None,
            self.riffs@.len() > 0 ==> (r matches Some(k) && k == best_index(self.riffs@)),
    {
        let n = self.riffs.len();
        if n == 0 {
            return None;
        }
        let ghost s = self.riffs@;
        let mut k: usize = 0;
        let mut i: usize = 1;
        while i < n
            invariant
                1 <= i <= n,
                n == s.len(),
                s == self.riffs@,
                k < i,
                k == best_index(s.take(i as int)),
            decreases n - i,
        {
            assert(s.take(i as int + 1).drop_last() =~= s.take(i as int));
            assert(s.take(i as int)[k as int] == s[k as int]);
            if self.riffs[i].quality.to_i8() >= self.riffs[k].quality.to_i8() {
                k = i;
            }
            i = i + 1;
        }
        assert(s.take(n as int) =~= s);
        Some(k)
    }

    /// Best riff in this round: the last of those with the highest quality.
    pub fn best(&self) -> (r: Option<&Riff>)
        ensures
            self.riffs@.len() == 0 ==> r is None,
            self.riffs@.len() > 0 ==> (r matches Some(b) && *b == self.riffs@[best_index(self.riffs@)]),
    {
        match self.best_position() {
            Some(k) => {
                proof {
                    lemma_best_is_last_highest(self.riffs@);
                }
                assert(k as int == best_index(self.riffs@));
                let b = &self.riffs[k];
                assert(*b == self.riffs@[best_index(self.riffs@)]);
                Some(b)
            },
            None => None,
        }
    }

    /// Whether some riff of the round is Strong.
    pub fn any_strong(&self) -> (r: bool)
        ensures
            r == has_strong(self.riffs@),
    {
        let n = self.riffs.len();
        let mut i: usize = 0;
        while i < n
            invariant
                i <= n,
                n == self.riffs@.len(),
                forall|j: int| 0 <= j < i ==> (#[trigger] self.riffs@[j]).quality != Quality::Strong,
            decreases n - i,
        {
            if self.riffs[i].quality == Quality::Strong {
                return true;
            }
            i = i + 1;
        }
        false
    }

    /// How many riffs of the round are Strong.
    pub fn count_strong(&self) -> (r: usize)
        ensures
            r == strong_count(self.riffs@),
            r <= self.riffs@.len(),
    {
        let n = self.riffs.len();
        let ghost s = self.riffs@;
        let mut c: usize = 0;
        let mut i: usize = 0;
        while i < n
            invariant
                i <= n,
                n == s.len(),
                s == self.riffs@,
                c == strong_count(s.take(i as int)),
                c <= i,
            decreases n - i,
        {
            assert(s.take(i as int + 1).drop_last() =~= s.take(i as int));
            if self.riffs[i].quality == Quality::Strong {
                c = c + 1;
            }
            i = i + 1;
        }
        assert(s.take(n as int) =~= s);
        c
    }
}

/// On a non-empty round the highest score is one of the riffs' scores and
/// no riff scores above it; likewise the lowest score from below.
pub proof fn lemma_extremes(s: Seq<Riff>)
    requires
        s.len() > 0,
    ensures
        exists|i: int| 0 <= i < s.len() && (#[trigger] s[i]).quality.score() == highest(s),
        exists|i: int| 0 <= i < s.len() && (#[trigger] s[i]).quality.score() == lowest(s),
        forall|i: int| 0 <= i < s.len() ==> (#[trigger] s[i]).quality.score() <= highest(s),
        forall|i: int| 0 <= i < s.len() ==> lowest(s) <= (#[trigger] s[i]).quality.score(),
        -1 <= lowest(s) <= highest(s) <= 1,
    decreases s.len(),
{
    if s.len() == 1 {
        assert(s[0].quality.score() == highest(s));
    } else {
        let t = s.drop_last();
        lemma_extremes(t);
        assert forall|i: int| 0 <= i < s.len() implies (#[trigger] s[i]).quality.score() <= highest(s) by {
            if i < s.len() - 1 {
                assert(s[i] == t[i]);
            }
        }
        assert forall|i: int| 0 <= i < s.len() implies lowest(s) <= (#[trigger] s[i]).quality.score() by {
            if i < s.len() - 1 {
                assert(s[i] == t[i]);
            }
        }
        let hi = choose|i: int| 0 <= i < t.len() && (#[trigger] t[i]).quality.score() == highest(t);
        let li = choose|i: int| 0 <= i < t.len() && (#[trigger] t[i]).quality.score() == lowest(t);
        assert(s[hi] == t[hi]);
        assert(s[li] == t[li]);
        assert(s[s.len() - 1] == s.last());
    }
}

/// The quality gap is never negative and at most two (Strong over Weak), and
/// it is zero exactly when every riff has the same quality.
pub proof fn lemma_gap_bounds(s: Seq<Riff>)
    ensures
        0 <= gap(s) <= 2,
        gap(s) == 0 <==> forall|i: int, j: int|
            0 <= i < s.len() && 0 <= j < s.len() ==> (#[trigger] s[i]).quality == (#[trigger] s[j]).quality,
{
    if s.len() > 0 {
        lemma_extremes(s);
        if gap(s) == 0 {
            assert forall|i: int, j: int|
                0 <= i < s.len() && 0 <= j < s.len() implies (#[trigger] s[i]).quality == (#[trigger] s[j]).quality by {
                assert(s[i].quality.score() == s[j].quality.score());
            }
        } else {
            let hi = choose|i: int| 0 <= i < s.len() && (#[trigger] s[i]).quality.score() == highest(s);
            let li = choose|i: int| 0 <= i < s.len() && (#[trigger] s[i]).quality.score() == lowest(s);
            assert(s[hi].quality != s[li].quality);
        }
    }
}

/// The best riff has the highest score, and every riff after it scores less:
/// among equally good riffs the last one is the best.
pub proof fn lemma_best_is_last_highest(s: Seq<Riff>)
    requires
        s.len() > 0,
    ensures
        0 <= best_index(s) < s.len(),
        s[best_index(s)].quality.score() == highest(s),
        forall|j: int| best_index(s) < j < s.len() ==> (#[trigger] s[j]).quality.score() < highest(s),
    decreases s.len(),
{
    lemma_extremes(s);
    if s.len() > 1 {
        let t = s.drop_last();
        lemma_best_is_last_highest(t);
        lemma_extremes(t);
        let k = best_index(t);
        assert(s[k] == t[k]);
        assert forall|j: int| best_index(s) < j < s.len() implies (#[trigger] s[j]).quality.score() < highest(s) by {
            if j < s.len() - 1 {
                assert(s[j] == t[j]);
            }
        }
    }
}

/// The number of Strong riffs is at most the number of riffs, and positive
/// exactly when some riff is Strong.
pub proof fn lemma_strong_count(s: Seq<Riff>)
    ensures
        0 <= strong_count(s) <= s.len(),
        strong_count(s) > 0 <==> has_strong(s),
    decreases s.len(),
{
    if s.len() > 0 {
        let t = s.drop_last();
        lemma_strong_count(t);
        if has_strong(t) {
            let i = choose|i: int| 0 <= i < t.len() && (#[trigger] t[i]).quality == Quality::Strong;
            assert(s[i] == t[i]);
        }
        if has_strong(s) && s.last().quality != Quality::Strong {
            let i = choose|i: int| 0 <= i < s.len() && (#[trigger] s[i]).quality == Quality::Strong;
            assert(i < s.len() - 1);
            assert(t[i] == s[i]);
        }
        if s.last().quality == Quality::Strong {
            assert(s[s.len() - 1] == s.last());
        }
    }
}

/// The productivity rule: a round is productive under a reading exactly
/// when the surprise is over the floor or its riffs differ in quality
/// (a positive quality gap), whatever the surprise band.
pub proof fn lemma_productive_rule(r: Round, reading: SurpriseReading)
    ensures
        r.productive(reading) <==> (reading.exceeds_floor || r.quality_gap > 0),
        r.quality_gap > 0 ==> r.productive(reading),
        reading.exceeds_floor ==> r.productive(reading),
{
}

/// A round whose gap is kept and whose riffs differ in quality is productive
/// under every reading, and a round of equal riffs is productive only when
/// its surprise is over the floor.
pub proof fn lemma_unequal_riffs_are_productive(r: Round, reading: SurpriseReading)
    requires
        r.wf(),
    ensures
        (exists|i: int, j: int|
            0 <= i < r.riffs@.len() && 0 <= j < r.riffs@.len() && (#[trigger] r.riffs@[i]).quality
                != (#[trigger] r.riffs@[j]).quality) ==> r.productive(reading),
        (forall|i: int, j: int|
            0 <= i < r.riffs@.len() && 0 <= j < r.riffs@.len() ==> (#[trigger] r.riffs@[i]).quality
                == (#[trigger] r.riffs@[j]).quality) ==> (r.productive(reading)
            <==> reading.exceeds_floor),
{
    lemma_gap_bounds(r.riffs@);
}

/// The quality gap is the largest difference of scores between two riffs:
/// no pair differs by more, and some pair differs by exactly that much.
pub proof fn lemma_gap_is_largest_difference(s: Seq<Riff>)
    requires
        s.len() > 0,
    ensures
        forall|i: int, j: int|
            0 <= i < s.len() && 0 <= j < s.len() ==> (#[trigger] s[i]).quality.score() - (
            #[trigger] s[j]).quality.score() <= gap(s),
        exists|i: int, j: int|
            0 <= i < s.len() && 0 <= j < s.len() && (#[trigger] s[i]).quality.score() - (
            #[trigger] s[j]).quality.score() == gap(s),
{
    lemma_extremes(s);
    let hi = choose|i: int| 0 <= i < s.len() && (#[trigger] s[i]).quality.score() == highest(s);
    let lo = choose|i: int| 0 <= i < s.len() && (#[trigger] s[i]).quality.score() == lowest(s);
    assert(s[hi].quality.score() - s[lo].quality.score() == gap(s));
}

/// The Strong count is the number of Strong riffs: the length of the riffs
/// filtered to the Strong ones; a riff added counts once when Strong and not
/// at all otherwise; and riffs that are all Strong count in full.
pub proof fn lemma_strong_count_counts(s: Seq<Riff>, r: Riff)
    ensures
        strong_count(s) == s.filter(|x: Riff| x.quality == Quality::Strong).len(),
        strong_count(s.push(r)) == strong_count(s) + (if r.quality == Quality::Strong {
            1int
        } else {
            0int
        }),
        (forall|i: int| 0 <= i < s.len() ==> (#[trigger] s[i]).quality == Quality::Strong)
            ==> strong_count(s) == s.len(),
        (forall|i: int| 0 <= i < s.len() ==> (#[trigger] s[i]).quality != Quality::Strong)
            ==> strong_count(s) == 0,
{
    lemma_strong_count_filter(s);
    lemma_strong_count_filter(s.push(r));
    reveal_with_fuel(Seq::filter, 1);
    assert(s.push(r).drop_last() =~= s);
    if forall|i: int| 0 <= i < s.len() ==> (#[trigger] s[i]).quality == Quality::Strong {
        assert(s.filter(|x: Riff| x.quality == Quality::Strong) =~= s) by {
            lemma_all_strong_filter(s);
        }
    }
    if forall|i: int| 0 <= i < s.len() ==> (#[trigger] s[i]).quality != Quality::Strong {
        lemma_strong_count(s);
    }
}

proof fn lemma_strong_count_filter(s: Seq<Riff>)
    ensures
        strong_count(s) == s.filter(|x: Riff| x.quality == Quality::Strong).len(),
    decreases s.len(),
{
    reveal_with_fuel(Seq::filter, 1);
    if s.len() > 0 {
        lemma_strong_count_filter(s.drop_last());
    }
}

proof fn lemma_all_strong_filter(s: Seq<Riff>)
    requires
        forall|i: int| 0 <= i < s.len() ==> (#[trigger] s[i]).quality == Quality::Strong,
    ensures
        s.filter(|x: Riff| x.quality == Quality::Strong) == s,
    decreases s.len(),
{
    reveal_with_fuel(Seq::filter, 1);
    if s.len() > 0 {
        let t = s.drop_last();
        assert forall|i: int| 0 <= i < t.len() implies (#[trigger] t[i]).quality == Quality::Strong by {
            assert(t[i] == s[i]);
        }
        lemma_all_strong_filter(t);
        assert(s.last() == s[s.len() - 1]);
        assert(t.push(s.last()) =~= s);
    }
}

} // verus!
