use vstd::prelude::*;

verus! {

/// How an agent responds to a previous riff.
#[derive(Debug, Clone, Copy, PartialEq, Eq, Structural)]
pub enum ResponseMode {
    /// Push the same direction further (amplify).
    Escalate,
    /// Push in a perpendicular direction (reframe).
    Pivot,
    /// Push in the opposite direction (challenge).
    Invert,
    /// Take the most provocative part and go somewhere new.
    Provoked,
}

/// Where a round's surprise lies against the two bounds that steer the
/// choice of mode: `Low` under the lower bound, `High` over the upper one,
/// `Medium` otherwise (bounds included, and a reading that compares to
/// neither).
#[derive(Debug, Clone, Copy, PartialEq, Eq, Structural)]
pub enum SurpriseBand {
    Low,
    Medium,
    High,
}

/// A productive streak longer than this makes the next mode a pivot.
pub const PIVOT_STREAK: u32 = 5;

impl ResponseMode {
    /// The direction offset of a mode: 0 for the same direction, +1 for a new
    /// one, -1 for the reverse.
    pub open spec fn offset(self) -> int {
        match self {
            ResponseMode::Escalate => 0,
            ResponseMode::Pivot => 1,
            ResponseMode::Invert => -1,
            ResponseMode::Provoked => 1,
        }
    }

    /// The mode chosen after a round with surprise in `band`, with `streak`
    /// productive rounds in a row.
    pub open spec fn chosen(band: SurpriseBand, streak: int) -> ResponseMode {
        if streak > PIVOT_STREAK {
            ResponseMode::Pivot
        } else {
            match band {
                SurpriseBand::Low => ResponseMode::Provoked,
                SurpriseBand::High => ResponseMode::Escalate,
                SurpriseBand::Medium => ResponseMode::Invert,
            }
        }
    }

    /// Chooses the response mode from the previous round's surprise band and
    /// the productive streak: a streak over five pivots; otherwise low
    /// surprise provokes, high surprise escalates and medium surprise inverts.
    pub fn select(band: SurpriseBand, streak: u32) -> (m: ResponseMode)
        ensures
            m == ResponseMode::chosen(band, streak as int),
    {
        if streak > PIVOT_STREAK {
            ResponseMode::Pivot
        } else {
            match band {
                SurpriseBand::Low => ResponseMode::Provoked,
                SurpriseBand::High => ResponseMode::Escalate,
                SurpriseBand::Medium => ResponseMode::Invert,
            }
        }
    }

    /// Direction offset this mode produces.
    pub fn direction(self) -> (d: i8)
        ensures
            d == self.offset(),
            -1 <= d <= 1,
    {
        match self {
            ResponseMode::Escalate => 0,
            ResponseMode::Pivot => 1,
            ResponseMode::Invert => -1,
            ResponseMode::Provoked => 1,
        }
    }
}

/// A streak over the pivot length always pivots, whatever the surprise, and
/// a pivot comes from nothing else.
pub proof fn lemma_long_streak_pivots(band: SurpriseBand, streak: int)
    ensures
        streak > PIVOT_STREAK ==> ResponseMode::chosen(band, streak) == ResponseMode::Pivot,
        ResponseMode::chosen(band, streak) == ResponseMode::Pivot ==> streak > PIVOT_STREAK,
{
}

/// With a short streak the mode follows the surprise alone: hot rounds
/// escalate, flat rounds provoke, the rest invert.
pub proof fn lemma_short_streak_follows_surprise(band: SurpriseBand, streak: int)
    requires
        streak <= PIVOT_STREAK,
    ensures
        ResponseMode::chosen(band, streak) == ResponseMode::Escalate <==> band == SurpriseBand::High,
        ResponseMode::chosen(band, streak) == ResponseMode::Provoked <==> band == SurpriseBand::Low,
        ResponseMode::chosen(band, streak) == ResponseMode::Invert <==> band == SurpriseBand::Medium,
{
}

/// Only Invert reverses direction and only Escalate keeps it; Pivot and
/// Provoked both take a new direction.
pub proof fn lemma_mode_directions(m: ResponseMode)
    ensures
        m.offset() == -1 <==> m == ResponseMode::Invert,
        m.offset() == 0 <==> m == ResponseMode::Escalate,
        m.offset() == 1 <==> (m == ResponseMode::Pivot || m == ResponseMode::Provoked),
{
}

} // verus!
