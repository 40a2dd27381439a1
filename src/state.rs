use vstd::prelude::*;

use crate::character::Request;
use crate::decision::DecisionType;
use crate::time_state::TimeState;

verus! {

/// Heart size at which (or above which) the ruler's heart gives out.
pub const MAX_HEART_SIZE: i64 = 6;

/// Upper end of the wealth gauge.
pub const MAX_WEALTH: i64 = 100;

/// Upper end of the happiness gauge.
pub const MAX_HAPPINESS: i64 = 100;

/// Prosperity needed on the last evening to win.
pub const MIN_PROSPERITY: i64 = 150;

/// Upper end of the prosperity gauge.
pub const MAX_PROSPERITY: i64 = 200;

/// The last day (counted from 0): its evening decides between winning and losing.
pub const FINAL_DAY: usize = 1;

/// `x` held to the range of `i64`.
pub open spec fn clamp_i64(x: int) -> int {
    if x < i64::MIN {
        i64::MIN as int
    } else if x > i64::MAX {
        i64::MAX as int
    } else {
        x
    }
}

/// `a + b`, held to the range of `i64` instead of overflowing.
pub fn saturating_add(a: i64, b: i64) -> (r: i64)
    ensures
        r == clamp_i64(a + b),
{
    match a.checked_add(b) {
        Some(v) => v,
        None => {
            if b > 0 {
                i64::MAX
            } else {
                i64::MIN
            }
        },
    }
}

/// The face the ruler shows while listening.
#[derive(Clone, Copy, Debug, PartialEq, Eq, Structural)]
pub enum Mask {
    Happy,
    Neutral,
    Sad,
    Absent,
}

impl Default for Mask {
    fn default() -> (r: Mask)
        ensures
            r == Mask::Absent,
    {
        Mask::Absent
    }
}

/// What one answer to a request does: deltas added to the realm's gauges,
/// an optional new value of the insight flag, and optional cosmetic tags.
#[derive(Clone, Debug)]
pub struct StateUpdate {
    pub heart_size: i64,
    pub wealth: i64,
    pub happiness: i64,
    pub can_use_insight: Option<bool>,
    pub last_word: Option<String>,
    pub mask: Option<Mask>,
}

impl Default for StateUpdate {
    fn default() -> (r: StateUpdate)
        ensures
            r.heart_size == 0,
            r.wealth == 0,
            r.happiness == 0,
            r.can_use_insight.is_none(),
            r.last_word.is_none(),
            r.mask.is_none(),
    {
        StateUpdate {
            heart_size: 0,
            wealth: 0,
            happiness: 0,
            can_use_insight: None,
            last_word: None,
            mask: None,
        }
    }
}

/// The realm's gauges, the last verdict given and the current day (from 0).
#[derive(Clone, Copy, Debug, PartialEq, Eq, Structural)]
pub struct KingdomState {
    pub heart_size: i64,
    pub wealth: i64,
    pub happiness: i64,
    pub can_use_insight: bool,
    pub last_decision: Option<DecisionType>,
    pub day: usize,
}

impl KingdomState {
    /// The state a run starts in.
    pub fn new() -> (r: KingdomState)
        ensures
            r == KingdomState::initial(),
    {
        KingdomState {
            heart_size: 3,
            wealth: 50,
            happiness: 50,
            can_use_insight: false,
            last_decision: None,
            day: 0,
        }
    }

    pub open spec fn initial() -> KingdomState {
        KingdomState {
            heart_size: 3,
            wealth: 50,
            happiness: 50,
            can_use_insight: false,
            last_decision: None,
            day: 0,
        }
    }

    /// The state after the answer `decision`, whose update is `u`: each delta
    /// added to its gauge (held to the range of `i64`), the verdict recorded,
    /// the insight flag overridden where `u` says so, the day untouched.
    pub open spec fn applied(self, u: StateUpdate, decision: DecisionType) -> KingdomState {
        KingdomState {
            heart_size: clamp_i64(self.heart_size + u.heart_size) as i64,
            wealth: clamp_i64(self.wealth + u.wealth) as i64,
            happiness: clamp_i64(self.happiness + u.happiness) as i64,
            can_use_insight: match u.can_use_insight {
                Some(b) => b,
                None => self.can_use_insight,
            },
            last_decision: Some(decision),
            day: self.day,
        }
    }

    /// Applies the answer `decision` to `request`: adds the chosen update's
    /// deltas, records the verdict, overrides the insight flag where the
    /// update says so. Returns the chosen update.
    pub fn apply_request_decision<'a>(
        &mut self,
        request: &'a Request,
        decision: DecisionType,
    ) -> (r: &'a StateUpdate)
        ensures
            *r == request.update_for(decision),
            *final(self) == old(self).applied(*r, decision),
    {
        let result = match decision {
            DecisionType::Yes => &request.yes,
            DecisionType::No => &request.no,
        };
        self.last_decision = Some(decision);
        self.heart_size = saturating_add(self.heart_size, result.heart_size);
        self.happiness = saturating_add(self.happiness, result.happiness);
        self.wealth = saturating_add(self.wealth, result.wealth);
        if let Some(insight) = result.can_use_insight {
            self.can_use_insight = insight;
        }
        result
    }

    pub open spec fn spec_prosperity(self) -> int {
        self.happiness + self.wealth
    }

    /// Overall prosperity: happiness plus wealth.
    pub fn prosperity(&self) -> (r: i128)
        ensures
            r == self.spec_prosperity(),
    {
        Self::calculate_prosperity(self.happiness, self.wealth)
    }

    /// Prosperity of the given happiness and wealth: their sum.
    pub fn calculate_prosperity(happiness: i64, wealth: i64) -> (r: i128)
        ensures
            r == happiness + wealth,
    {
        happiness as i128 + wealth as i128
    }

    pub open spec fn spec_day_name(day: usize) -> &'static str {
        if day == 1 {
            "Fall"
        } else if day == 2 {
            "Winter"
        } else {
            "Spring"
        }
    }

    /// The season shown when the current day begins.
    pub fn day_name(&self) -> (r: &'static str)
        ensures
            r == Self::spec_day_name(self.day),
    {
        match self.day {
            0 => "Spring",
            1 => "Fall",
            2 => "Winter",
            _ => "Spring",
        }
    }
}

/// How a run ends.
#[derive(Clone, Copy, Debug, PartialEq, Eq, Structural)]
pub enum Outcome {
    Win,
    Loss,
}

/// The heart has given out: it shrank to nothing or grew to its limit.
pub open spec fn heart_failed(s: KingdomState) -> bool {
    s.heart_size <= 0 || s.heart_size >= MAX_HEART_SIZE
}

/// How the run ends in this state and phase, if it ends: a failed heart is
/// a loss whatever else holds; otherwise the final day's evening is a win
/// with enough prosperity and a loss without.
pub open spec fn end_outcome(s: KingdomState, phase: TimeState) -> Option<Outcome> {
    if heart_failed(s) {
        Some(Outcome::Loss)
    } else if s.day == FINAL_DAY && phase == TimeState::Evening {
        if s.spec_prosperity() >= MIN_PROSPERITY {
            Some(Outcome::Win)
        } else {
            Some(Outcome::Loss)
        }
    } else {
        None
    }
}

/// Whether the run ends now, and how.
pub fn check_end_conditions(state: &KingdomState, phase: TimeState) -> (r: Option<Outcome>)
    ensures
        r == end_outcome(*state, phase),
{
    if state.heart_size <= 0 || state.heart_size >= MAX_HEART_SIZE {
        Some(Outcome::Loss)
    } else if state.day == FINAL_DAY && phase == TimeState::Evening {
        if state.prosperity() >= MIN_PROSPERITY as i128 {
            Some(Outcome::Win)
        } else {
            Some(Outcome::Loss)
        }
    } else {
        None
    }
}

/// A failed heart decides the run before prosperity is weighed: with the
/// heart at or past either bound the run is lost, even on the final
/// evening with prosperity at or above the threshold.
pub proof fn lemma_heart_failure_first(s: KingdomState, phase: TimeState)
    requires
        s.heart_size <= 0 || s.heart_size >= MAX_HEART_SIZE,
    ensures
        end_outcome(s, phase) == Some(Outcome::Loss),
{
}

} // verus!
