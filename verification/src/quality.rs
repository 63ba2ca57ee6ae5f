use vstd::prelude::*;

verus! {

/// Quality assessment of a riff output: Weak (-1), Okay (0), Strong (+1).
#[derive(Debug, Clone, Copy, PartialEq, Eq, Structural)]
pub enum Quality {
    Weak,
    Okay,
    Strong,
}

impl Quality {
    /// The signed score of a quality.
    pub open spec fn score(self) -> int {
        match self {
            Quality::Weak => -1,
            Quality::Okay => 0,
            Quality::Strong => 1,
        }
    }

    /// The quality whose score is `v`, if there is one.
    pub open spec fn from_score(v: int) -> Option<Quality> {
        if v == -1 {
            Some(Quality::Weak)
        } else if v == 0 {
            Some(Quality::Okay)
        } else if v == 1 {
            Some(Quality::Strong)
        } else {
            None
        }
    }

    /// The quality's score as an `i8`.
    pub fn to_i8(self) -> (v: i8)
        ensures
            v == self.score(),
    {
        match self {
            Quality::Weak => -1,
            Quality::Okay => 0,
            Quality::Strong => 1,
        }
    }

    /// The quality with score `v`; `None` for any value outside -1..=1.
    pub fn from_i8(v: i8) -> (r: Option<Quality>)
        ensures
            r == Quality::from_score(v as int),
            r is Some <==> -1 <= v <= 1,
    {
        match v {
            -1 => Some(Quality::Weak),
            0 => Some(Quality::Okay),
            1 => Some(Quality::Strong),
            _ => None,
        }
    }
}

/// Converting a quality to its score and back gives the same quality.
pub proof fn lemma_quality_roundtrip(q: Quality)
    ensures
        Quality::from_score(q.score()) == Some(q),
        -1 <= q.score() <= 1,
{
}

/// A score that names a quality is that quality's score, so `from_i8`
/// followed by `to_i8` gives the value back.
pub proof fn lemma_score_roundtrip(v: int)
    ensures
        Quality::from_score(v) matches Some(q) ==> q.score() == v,
        Quality::from_score(v) is Some <==> -1 <= v <= 1,
{
}

/// Scores order the qualities: Weak scores -1, Okay 0 and Strong +1, and
/// different qualities have different scores.
pub proof fn lemma_scores_order(q: Quality, r: Quality)
    ensures
        q.score() == -1 <==> q == Quality::Weak,
        q.score() == 0 <==> q == Quality::Okay,
        q.score() == 1 <==> q == Quality::Strong,
        q.score() == r.score() <==> q == r,
{
}

} // verus!
