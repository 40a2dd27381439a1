use vstd::prelude::*;

use crate::character::{
    lemma_find_below, lemma_only_filtered_keeps_find, lemma_only_filtered_keeps_used,
    lemma_only_filtered_refl, used_kept,
    lemma_only_filtered_trans, only_filtered_changed, CharacterView, Characters, CharactersView,
    Request, RequestAvailability, DREAM_KEY,
};
use crate::decision::DecisionType;
use crate::state::KingdomState;

verus! {

/// Whether the smith was granted the strikers.
#[derive(Clone, Copy, Debug, PartialEq, Eq, Structural)]
pub struct SmithyState {
    pub granted_strikers: Option<bool>,
}

/// Whether paganism was made illegal at the nun's request.
#[derive(Clone, Copy, Debug, PartialEq, Eq, Structural)]
pub struct NunState {
    pub made_paganism_illegal: Option<bool>,
}

/// The prince's two requests: the festival and the housing of the disabled.
#[derive(Clone, Copy, Debug, PartialEq, Eq, Structural)]
pub struct PrinceState {
    pub approved_festival: Option<bool>,
    pub housed_disabled: Option<bool>,
}

/// Whether the western duchy was fined.
#[derive(Clone, Copy, Debug, PartialEq, Eq, Structural)]
pub struct DuchyState {
    pub fined_duchy: Option<bool>,
}

/// The princess's two requests: conscription and the alliance.
#[derive(Clone, Copy, Debug, PartialEq, Eq, Structural)]
pub struct PrincessState {
    pub lowered_conscription: Option<bool>,
    pub made_alliance: Option<bool>,
}

/// How the nightly dream has gone so far.
#[derive(Clone, Copy, Debug, PartialEq, Eq, Structural)]
pub struct DreamState {
    pub said_summoned: Option<bool>,
    pub presented_hand: Option<bool>,
    pub cardiac_dream: bool,
    pub no_choice: bool,
    pub this_gift: bool,
    pub entertain: bool,
    pub prosper: bool,
    pub only: bool,
    pub more: bool,
    pub kill_prince: bool,
    pub kill_princess: bool,
    pub sanction: bool,
    pub done: bool,
}

/// The flags of every story thread: written by handlers, read by filters.
#[derive(Clone, Copy, Debug, PartialEq, Eq, Structural)]
pub struct StoryState {
    pub smithy: SmithyState,
    pub nun: NunState,
    pub prince: PrinceState,
    pub princess: PrincessState,
    pub dream: DreamState,
    pub duchy: DuchyState,
}

impl StoryState {
    pub open spec fn initial() -> StoryState {
        StoryState {
            smithy: SmithyState { granted_strikers: None },
            nun: NunState { made_paganism_illegal: None },
            prince: PrinceState { approved_festival: None, housed_disabled: None },
            princess: PrincessState { lowered_conscription: None, made_alliance: None },
            dream: DreamState {
                said_summoned: None,
                presented_hand: None,
                cardiac_dream: false,
                no_choice: false,
                this_gift: false,
                entertain: false,
                prosper: false,
                only: false,
                more: false,
                kill_prince: false,
                kill_princess: false,
                sanction: false,
                done: false,
            },
            duchy: DuchyState { fined_duchy: None },
        }
    }

    /// Every thread untouched: no answer recorded, no dream flag raised.
    pub fn new() -> (r: StoryState)
        ensures
            r == StoryState::initial(),
    {
        StoryState {
            smithy: SmithyState { granted_strikers: None },
            nun: NunState { made_paganism_illegal: None },
            prince: PrinceState { approved_festival: None, housed_disabled: None },
            princess: PrincessState { lowered_conscription: None, made_alliance: None },
            dream: DreamState {
                said_summoned: None,
                presented_hand: None,
                cardiac_dream: false,
                no_choice: false,
                this_gift: false,
                entertain: false,
                prosper: false,
                only: false,
                more: false,
                kill_prince: false,
                kill_princess: false,
                sanction: false,
                done: false,
            },
            duchy: DuchyState { fined_duchy: None },
        }
    }
}

/// `text` equals `lit`.
fn same_text(text: &String, lit: &str) -> (r: bool)
    ensures
        r == (text@ == lit@),
{
    *text == lit.to_owned()
}

/// The flag after the last verdict, `Some(true)` for yes,
/// `Some(false)` for no, unchanged when there was none.
pub open spec fn verdict_flag(last: Option<DecisionType>, flag: Option<bool>) -> Option<bool> {
    match last {
        Some(DecisionType::Yes) => Some(true),
        Some(DecisionType::No) => Some(false),
        None => flag,
    }
}

fn recorded(last: Option<DecisionType>, flag: Option<bool>) -> (r: Option<bool>)
    ensures
        r == verdict_flag(last, flag),
{
    match last {
        Some(DecisionType::Yes) => Some(true),
        Some(DecisionType::No) => Some(false),
        None => flag,
    }
}

/// 1 for `Some(true)`, else 0.
pub open spec fn count_yes(flag: Option<bool>) -> int {
    if flag == Some(true) {
        1
    } else {
        0
    }
}

fn yes_count(flag: Option<bool>) -> (r: u32)
    ensures
        r == count_yes(flag),
{
    if flag == Some(true) {
        1
    } else {
        0
    }
}

/// The response handlers a request can name: each runs after the request is
/// answered and records how a story thread went.
#[derive(Clone, Copy, Debug, PartialEq, Eq, Structural)]
pub enum HandlerId {
    SmithyStrikers,
    NunPaganism,
    PrinceFestivalHandler,
    PrinceDisabledHandler,
    DreamSummon,
    PresentHand,
    ConditionalSucc,
    Succ,
    SetCardiacDream,
    SetNoChoice,
    SetThisGift,
    FineDuchyHandler,
    GraspHandler,
    EntertainHandler,
    ProsperHandler,
    PrincessConscriptionHandler,
    PrincessAllianceHandler,
    AccordHandler,
    KillHandler,
}

pub open spec fn handler_of_name(n: Seq<char>) -> Option<HandlerId> {
    if n == "smithy_strikers"@ {
        Some(HandlerId::SmithyStrikers)
    } else if n == "nun_paganism"@ {
        Some(HandlerId::NunPaganism)
    } else if n == "prince_festival_handler"@ {
        Some(HandlerId::PrinceFestivalHandler)
    } else if n == "prince_disabled_handler"@ {
        Some(HandlerId::PrinceDisabledHandler)
    } else if n == "dream_summon"@ {
        Some(HandlerId::DreamSummon)
    } else if n == "present_hand"@ {
        Some(HandlerId::PresentHand)
    } else if n == "conditional_succ"@ {
        Some(HandlerId::ConditionalSucc)
    } else if n == "succ"@ {
        Some(HandlerId::Succ)
    } else if n == "set_cardiac_dream"@ {
        Some(HandlerId::SetCardiacDream)
    } else if n == "set_no_choice"@ {
        Some(HandlerId::SetNoChoice)
    } else if n == "set_this_gift"@ {
        Some(HandlerId::SetThisGift)
    } else if n == "fine_duchy_handler"@ {
        Some(HandlerId::FineDuchyHandler)
    } else if n == "grasp_handler"@ {
        Some(HandlerId::GraspHandler)
    } else if n == "entertain_handler"@ {
        Some(HandlerId::EntertainHandler)
    } else if n == "prosper_handler"@ {
        Some(HandlerId::ProsperHandler)
    } else if n == "princess_conscription_handler"@ {
        Some(HandlerId::PrincessConscriptionHandler)
    } else if n == "princess_alliance_handler"@ {
        Some(HandlerId::PrincessAllianceHandler)
    } else if n == "accord_handler"@ {
        Some(HandlerId::AccordHandler)
    } else if n == "kill_handler"@ {
        Some(HandlerId::KillHandler)
    } else {
        None
    }
}

impl HandlerId {
    /// The handler that `name` names, if any.
    pub fn from_name(name: &String) -> (r: Option<HandlerId>)
        ensures
            r == handler_of_name(name@),
    {
        if same_text(name, "smithy_strikers") {
            Some(HandlerId::SmithyStrikers)
        } else if same_text(name, "nun_paganism") {
            Some(HandlerId::NunPaganism)
        } else if same_text(name, "prince_festival_handler") {
            Some(HandlerId::PrinceFestivalHandler)
        } else if same_text(name, "prince_disabled_handler") {
            Some(HandlerId::PrinceDisabledHandler)
        } else if same_text(name, "dream_summon") {
            Some(HandlerId::DreamSummon)
        } else if same_text(name, "present_hand") {
            Some(HandlerId::PresentHand)
        } else if same_text(name, "conditional_succ") {
            Some(HandlerId::ConditionalSucc)
        } else if same_text(name, "succ") {
            Some(HandlerId::Succ)
        } else if same_text(name, "set_cardiac_dream") {
            Some(HandlerId::SetCardiacDream)
        } else if same_text(name, "set_no_choice") {
            Some(HandlerId::SetNoChoice)
        } else if same_text(name, "set_this_gift") {
            Some(HandlerId::SetThisGift)
        } else if same_text(name, "fine_duchy_handler") {
            Some(HandlerId::FineDuchyHandler)
        } else if same_text(name, "grasp_handler") {
            Some(HandlerId::GraspHandler)
        } else if same_text(name, "entertain_handler") {
            Some(HandlerId::EntertainHandler)
        } else if same_text(name, "prosper_handler") {
            Some(HandlerId::ProsperHandler)
        } else if same_text(name, "princess_conscription_handler") {
            Some(HandlerId::PrincessConscriptionHandler)
        } else if same_text(name, "princess_alliance_handler") {
            Some(HandlerId::PrincessAllianceHandler)
        } else if same_text(name, "accord_handler") {
            Some(HandlerId::AccordHandler)
        } else if same_text(name, "kill_handler") {
            Some(HandlerId::KillHandler)
        } else {
            None
        }
    }

    /// The story after this handler runs, the last verdict being `last`.
    pub open spec fn effect(self, last: Option<DecisionType>, s: StoryState) -> StoryState {
        match self {
            HandlerId::SmithyStrikers => StoryState {
                smithy: SmithyState {
                    granted_strikers: verdict_flag(last, s.smithy.granted_strikers),
                },
                ..s
            },
            HandlerId::NunPaganism => StoryState {
                nun: NunState {
                    made_paganism_illegal: verdict_flag(last, s.nun.made_paganism_illegal),
                },
                ..s
            },
            HandlerId::PrinceFestivalHandler => StoryState {
                prince: PrinceState {
                    approved_festival: verdict_flag(last, s.prince.approved_festival),
                    ..s.prince
                },
                ..s
            },
            HandlerId::PrinceDisabledHandler => StoryState {
                prince: PrinceState {
                    housed_disabled: verdict_flag(last, s.prince.housed_disabled),
                    ..s.prince
                },
                ..s
            },
            HandlerId::DreamSummon => StoryState {
                dream: DreamState {
                    said_summoned: verdict_flag(last, s.dream.said_summoned),
                    ..s.dream
                },
                ..s
            },
            HandlerId::PresentHand => StoryState {
                dream: match last {
                    Some(DecisionType::Yes) => DreamState { this_gift: true, ..s.dream },
                    Some(DecisionType::No) => DreamState { no_choice: true, ..s.dream },
                    None => s.dream,
                },
                ..s
            },
            HandlerId::ConditionalSucc => s,
            HandlerId::Succ => StoryState { dream: DreamState { this_gift: true, ..s.dream }, ..s },
            HandlerId::SetCardiacDream => StoryState {
                dream: DreamState { cardiac_dream: true, ..s.dream },
                ..s
            },
            HandlerId::SetNoChoice => StoryState {
                dream: DreamState { no_choice: true, ..s.dream },
                ..s
            },
            HandlerId::SetThisGift => StoryState {
                dream: DreamState { this_gift: true, ..s.dream },
                ..s
            },
            HandlerId::FineDuchyHandler => StoryState {
                duchy: DuchyState { fined_duchy: verdict_flag(last, s.duchy.fined_duchy) },
                ..s
            },
            HandlerId::GraspHandler => StoryState {
                dream: DreamState { entertain: true, ..s.dream },
                ..s
            },
            HandlerId::EntertainHandler => StoryState {
                dream: match last {
                    Some(DecisionType::Yes) => DreamState { prosper: true, ..s.dream },
                    Some(DecisionType::No) => DreamState { only: true, ..s.dream },
                    None => s.dream,
                },
                ..s
            },
            HandlerId::ProsperHandler => StoryState {
                dream: DreamState { more: true, ..s.dream },
                ..s
            },
            HandlerId::PrincessConscriptionHandler => StoryState {
                princess: PrincessState {
                    lowered_conscription: verdict_flag(last, s.princess.lowered_conscription),
                    ..s.princess
                },
                ..s
            },
            HandlerId::PrincessAllianceHandler => StoryState {
                princess: PrincessState {
                    made_alliance: verdict_flag(last, s.princess.made_alliance),
                    ..s.princess
                },
                ..s
            },
            HandlerId::AccordHandler => StoryState {
                dream: if count_yes(s.prince.approved_festival) + count_yes(
                    s.prince.housed_disabled,
                ) >= count_yes(s.princess.lowered_conscription) + count_yes(
                    s.princess.made_alliance,
                ) {
                    DreamState { kill_prince: true, ..s.dream }
                } else {
                    DreamState { kill_princess: true, ..s.dream }
                },
                ..s
            },
            HandlerId::KillHandler => StoryState {
                dream: match last {
                    Some(DecisionType::Yes) => DreamState { done: true, ..s.dream },
                    Some(DecisionType::No) => DreamState { sanction: true, ..s.dream },
                    None => s.dream,
                },
                ..s
            },
        }
    }

    /// Whether running this handler sounds the special stinger.
    pub open spec fn spec_stinger(self, last: Option<DecisionType>) -> bool {
        match self {
            HandlerId::ConditionalSucc => last == Some(DecisionType::Yes),
            HandlerId::Succ => true,
            _ => false,
        }
    }

    
    fn next_story(self, last: Option<DecisionType>, s: StoryState) -> (r: StoryState)
        ensures
            r == self.effect(last, s),
    {
        match self {
            HandlerId::SmithyStrikers => StoryState {
                smithy: SmithyState {
                    granted_strikers: recorded(last, s.smithy.granted_strikers),
                },
                ..s
            },
            HandlerId::NunPaganism => StoryState {
                nun: NunState {
                    made_paganism_illegal: recorded(last, s.nun.made_paganism_illegal),
                },
                ..s
            },
            HandlerId::PrinceFestivalHandler => StoryState {
                prince: PrinceState {
                    approved_festival: recorded(last, s.prince.approved_festival),
                    ..s.prince
                },
                ..s
            },
            HandlerId::PrinceDisabledHandler => StoryState {
                prince: PrinceState {
                    housed_disabled: recorded(last, s.prince.housed_disabled),
                    ..s.prince
                },
                ..s
            },
            HandlerId::DreamSummon => StoryState {
                dream: DreamState {
                    said_summoned: recorded(last, s.dream.said_summoned),
                    ..s.dream
                },
                ..s
            },
            HandlerId::PresentHand => StoryState {
                dream: match last {
                    Some(DecisionType::Yes) => DreamState { this_gift: true, ..s.dream },
                    Some(DecisionType::No) => DreamState { no_choice: true, ..s.dream },
                    None => s.dream,
                },
                ..s
            },
            HandlerId::ConditionalSucc => s,
            HandlerId::Succ => StoryState { dream: DreamState { this_gift: true, ..s.dream }, ..s },
            HandlerId::SetCardiacDream => StoryState {
                dream: DreamState { cardiac_dream: true, ..s.dream },
                ..s
            },
            HandlerId::SetNoChoice => StoryState {
                dream: DreamState { no_choice: true, ..s.dream },
                ..s
            },
            HandlerId::SetThisGift => StoryState {
                dream: DreamState { this_gift: true, ..s.dream },
                ..s
            },
            HandlerId::FineDuchyHandler => StoryState {
                duchy: DuchyState { fined_duchy: recorded(last, s.duchy.fined_duchy) },
                ..s
            },
            HandlerId::GraspHandler => StoryState {
                dream: DreamState { entertain: true, ..s.dream },
                ..s
            },
            HandlerId::EntertainHandler => StoryState {
                dream: match last {
                    Some(DecisionType::Yes) => DreamState { prosper: true, ..s.dream },
                    Some(DecisionType::No) => DreamState { only: true, ..s.dream },
                    None => s.dream,
                },
                ..s
            },
            HandlerId::ProsperHandler => StoryState {
                dream: DreamState { more: true, ..s.dream },
                ..s
            },
            HandlerId::PrincessConscriptionHandler => StoryState {
                princess: PrincessState {
                    lowered_conscription: recorded(last, s.princess.lowered_conscription),
                    ..s.princess
                },
                ..s
            },
            HandlerId::PrincessAllianceHandler => StoryState {
                princess: PrincessState {
                    made_alliance: recorded(last, s.princess.made_alliance),
                    ..s.princess
                },
                ..s
            },
            HandlerId::AccordHandler => StoryState {
                dream: if yes_count(s.prince.approved_festival) + yes_count(
                    s.prince.housed_disabled,
                ) >= yes_count(s.princess.lowered_conscription) + yes_count(
                    s.princess.made_alliance,
                ) {
                    DreamState { kill_prince: true, ..s.dream }
                } else {
                    DreamState { kill_princess: true, ..s.dream }
                },
                ..s
            },
            HandlerId::KillHandler => StoryState {
                dream: match last {
                    Some(DecisionType::Yes) => DreamState { done: true, ..s.dream },
                    Some(DecisionType::No) => DreamState { sanction: true, ..s.dream },
                    None => s.dream,
                },
                ..s
            },
        }
    }

    /// Runs the handler on `story`, the last verdict being `last`. Returns
    /// whether the special stinger is to sound.
    pub fn run(self, last: Option<DecisionType>, story: &mut StoryState) -> (stinger: bool)
        ensures
            *final(story) == self.effect(last, *old(story)),
            stinger == self.spec_stinger(last),
    {
        *story = self.next_story(last, *story);
        match self {
            HandlerId::ConditionalSucc => match last {
                Some(DecisionType::Yes) => true,
                _ => false,
            },
            HandlerId::Succ => true,
            _ => false,
        }
    }
}

/// The story after the handlers named in `names` run, first to last;
/// unknown names are skipped.
pub open spec fn run_handler_names(
    names: Seq<Seq<char>>,
    last: Option<DecisionType>,
    s: StoryState,
) -> StoryState
    decreases names.len(),
{
    if names.len() == 0 {
        s
    } else {
        let p = run_handler_names(names.drop_last(), last, s);
        match handler_of_name(names.last()) {
            Some(h) => h.effect(last, p),
            None => p,
        }
    }
}

/// `name` names a handler that sounds the special stinger.
pub open spec fn sounds_stinger(name: Seq<char>, last: Option<DecisionType>) -> bool {
    match handler_of_name(name) {
        Some(h) => h.spec_stinger(last),
        None => false,
    }
}

/// Some handler named in `names` sounds the special stinger.
pub open spec fn stinger_among(names: Seq<Seq<char>>, last: Option<DecisionType>) -> bool {
    exists|k: int| 0 <= k < names.len() && #[trigger] sounds_stinger(names[k], last)
}

/// The names in `names` that name no handler, in order.
pub open spec fn unknown_handler_names(names: Seq<Seq<char>>) -> Seq<Seq<char>>
    decreases names.len(),
{
    if names.len() == 0 {
        Seq::empty()
    } else {
        let p = unknown_handler_names(names.drop_last());
        if handler_of_name(names.last()) is None {
            p.push(names.last())
        } else {
            p
        }
    }
}

/// What running a list of handlers reported.
pub struct HandlerRun {
    /// Some handler asks for the special stinger.
    pub stinger: bool,
    /// The names that name no handler, which were skipped.
    pub unknown: Vec<String>,
}

/// The response handlers, run by name after a request is answered.
pub struct ResponseHandlers;

impl ResponseHandlers {
    /// Runs the handlers named in `names`, in order, the last verdict being
    /// `last`; skips the names that name no handler.
    pub fn run(names: &Vec<String>, last: Option<DecisionType>, story: &mut StoryState) -> (r: HandlerRun)
        ensures
            *final(story) == run_handler_names(string_views(names@), last, *old(story)),
            r.stinger == stinger_among(string_views(names@), last),
            string_views(r.unknown@) == unknown_handler_names(string_views(names@)),
    {
        let ghost all = string_views(names@);
        let mut stinger = false;
        let mut unknown: Vec<String> = Vec::new();
        let mut k: usize = 0;
        while k < names.len()
            invariant
                k <= names@.len(),
                all == string_views(names@),
                *story == run_handler_names(all.take(k as int), last, *old(story)),
                stinger == stinger_among(all.take(k as int), last),
                string_views(unknown@) == unknown_handler_names(all.take(k as int)),
            decreases names@.len() - k,
        {
            proof {
                assert(all.take(k as int + 1).drop_last() =~= all.take(k as int));
                assert(all.take(k as int + 1).last() == all[k as int]);
            }
            match HandlerId::from_name(&names[k]) {
                Some(h) => {
                    let sounds = h.run(last, story);
                    proof {
                        let t = all.take(k as int + 1);
                        let pre = all.take(k as int);
                        assert(t[k as int] == names@[k as int]@);
                        assert(sounds_stinger(t[k as int], last) == sounds);
                        assert forall|j: int| 0 <= j < k implies t[j] == pre[j] by {}
                        if sounds {
                            assert(stinger_among(t, last));
                        }
                        if stinger {
                            let j = choose|j: int| 0 <= j < pre.len() && #[trigger] sounds_stinger(pre[j], last);
                            assert(sounds_stinger(t[j], last));
                        }
                        if stinger_among(t, last) && !sounds {
                            let j = choose|j: int| 0 <= j < t.len() && #[trigger] sounds_stinger(t[j], last);
                            assert(sounds_stinger(pre[j], last));
                        }
                    }
                    stinger = stinger || sounds;
                },
                None => {
                    unknown.push(names[k].clone());
                    proof {
                        let t = all.take(k as int + 1);
                        assert(string_views(unknown@) =~= unknown_handler_names(all.take(k as int)).push(all[k as int]));
                        if stinger_among(t, last) {
                            let j = choose|j: int|
                                0 <= j < t.len() && #[trigger] sounds_stinger(t[j], last);
                            assert(all.take(k as int)[j] == t[j]);
                        }
                        if stinger {
                            let j = choose|j: int|
                                0 <= j < all.take(k as int).len() && #[trigger] sounds_stinger(all.take(k as int)[j], last);
                            assert(t[j] == all.take(k as int)[j]);
                        }
                    }
                },
            }
            k = k + 1;
        }
        proof {
            assert(all.take(names@.len() as int) =~= all);
        }
        HandlerRun { stinger, unknown }
    }
}

/// `true` unless the answer was recorded as no.
pub open spec fn none_or_true(value: Option<bool>) -> bool {
    value != Some(false)
}

/// `true` unless the answer was recorded as yes.
pub open spec fn none_or_false(value: Option<bool>) -> bool {
    value != Some(true)
}

/// The filters a request can name: each recomputes whether one fixed request
/// is locked, from the story flags.
#[derive(Clone, Copy, Debug, PartialEq, Eq, Structural)]
pub enum FilterId {
    PrinceFestival,
    PrincessDisabledFilter,
    SummonNo,
    SummonYes,
    Presented,
    CardiacDream,
    NoChoice,
    ThisGift,
    DidntFineDuchy,
    EntertainFilter,
    ProsperFilter,
    OnlyFilter,
    MoreFilter,
    DreamPrincessFilter,
    DreamPrinceFilter,
    DreamSanctionFilter,
    DreamDoneFilter,
}

pub open spec fn filter_of_name(n: Seq<char>) -> Option<FilterId> {
    if n == "prince_festival"@ {
        Some(FilterId::PrinceFestival)
    } else if n == "princess_disabled_filter"@ {
        Some(FilterId::PrincessDisabledFilter)
    } else if n == "summon_no"@ {
        Some(FilterId::SummonNo)
    } else if n == "summon_yes"@ {
        Some(FilterId::SummonYes)
    } else if n == "presented"@ {
        Some(FilterId::Presented)
    } else if n == "cardiac_dream"@ {
        Some(FilterId::CardiacDream)
    } else if n == "no_choice"@ {
        Some(FilterId::NoChoice)
    } else if n == "this_gift"@ {
        Some(FilterId::ThisGift)
    } else if n == "didnt_fine_duchy"@ {
        Some(FilterId::DidntFineDuchy)
    } else if n == "entertain_filter"@ {
        Some(FilterId::EntertainFilter)
    } else if n == "prosper_filter"@ {
        Some(FilterId::ProsperFilter)
    } else if n == "only_filter"@ {
        Some(FilterId::OnlyFilter)
    } else if n == "more_filter"@ {
        Some(FilterId::MoreFilter)
    } else if n == "dream_princess_filter"@ {
        Some(FilterId::DreamPrincessFilter)
    } else if n == "dream_prince_filter"@ {
        Some(FilterId::DreamPrinceFilter)
    } else if n == "dream_sanction_filter"@ {
        Some(FilterId::DreamSanctionFilter)
    } else if n == "dream_done_filter"@ {
        Some(FilterId::DreamDoneFilter)
    } else {
        None
    }
}

impl FilterId {
    /// The filter that `name` names, if any.
    pub fn from_name(name: &String) -> (r: Option<FilterId>)
        ensures
            r == filter_of_name(name@),
    {
        if same_text(name, "prince_festival") {
            Some(FilterId::PrinceFestival)
        } else if same_text(name, "princess_disabled_filter") {
            Some(FilterId::PrincessDisabledFilter)
        } else if same_text(name, "summon_no") {
            Some(FilterId::SummonNo)
        } else if same_text(name, "summon_yes") {
            Some(FilterId::SummonYes)
        } else if same_text(name, "presented") {
            Some(FilterId::Presented)
        } else if same_text(name, "cardiac_dream") {
            Some(FilterId::CardiacDream)
        } else if same_text(name, "no_choice") {
            Some(FilterId::NoChoice)
        } else if same_text(name, "this_gift") {
            Some(FilterId::ThisGift)
        } else if same_text(name, "didnt_fine_duchy") {
            Some(FilterId::DidntFineDuchy)
        } else if same_text(name, "entertain_filter") {
            Some(FilterId::EntertainFilter)
        } else if same_text(name, "prosper_filter") {
            Some(FilterId::ProsperFilter)
        } else if same_text(name, "only_filter") {
            Some(FilterId::OnlyFilter)
        } else if same_text(name, "more_filter") {
            Some(FilterId::MoreFilter)
        } else if same_text(name, "dream_princess_filter") {
            Some(FilterId::DreamPrincessFilter)
        } else if same_text(name, "dream_prince_filter") {
            Some(FilterId::DreamPrinceFilter)
        } else if same_text(name, "dream_sanction_filter") {
            Some(FilterId::DreamSanctionFilter)
        } else if same_text(name, "dream_done_filter") {
            Some(FilterId::DreamDoneFilter)
        } else {
            None
        }
    }

    /// The key of the petitioner whose request this filter locks or unlocks.
    pub open spec fn spec_key(self) -> &'static str {
        match self {
            FilterId::PrinceFestival => "prince",
            FilterId::PrincessDisabledFilter => "princess",
            FilterId::SummonNo => DREAM_KEY,
            FilterId::SummonYes => DREAM_KEY,
            FilterId::Presented => DREAM_KEY,
            FilterId::CardiacDream => DREAM_KEY,
            FilterId::NoChoice => DREAM_KEY,
            FilterId::ThisGift => DREAM_KEY,
            FilterId::DidntFineDuchy => "west-duchess",
            FilterId::EntertainFilter => DREAM_KEY,
            FilterId::ProsperFilter => DREAM_KEY,
            FilterId::OnlyFilter => DREAM_KEY,
            FilterId::MoreFilter => DREAM_KEY,
            FilterId::DreamPrincessFilter => DREAM_KEY,
            FilterId::DreamPrinceFilter => DREAM_KEY,
            FilterId::DreamSanctionFilter => DREAM_KEY,
            FilterId::DreamDoneFilter => DREAM_KEY,
        }
    }

    /// The day and slot of the request this filter locks or unlocks.
    pub open spec fn spec_slot(self) -> (int, int) {
        match self {
            FilterId::PrinceFestival => (0, 0),
            FilterId::PrincessDisabledFilter => (0, 1),
            FilterId::SummonNo => (0, 1),
            FilterId::SummonYes => (0, 2),
            FilterId::Presented => (0, 2),
            FilterId::CardiacDream => (0, 3),
            FilterId::NoChoice => (0, 4),
            FilterId::ThisGift => (0, 5),
            FilterId::DidntFineDuchy => (1, 0),
            FilterId::EntertainFilter => (1, 1),
            FilterId::ProsperFilter => (1, 2),
            FilterId::OnlyFilter => (1, 3),
            FilterId::MoreFilter => (1, 4),
            FilterId::DreamPrincessFilter => (2, 2),
            FilterId::DreamPrinceFilter => (2, 1),
            FilterId::DreamSanctionFilter => (2, 3),
            FilterId::DreamDoneFilter => (2, 4),
        }
    }

    /// Whether the filter locks its request, given the story flags.
    pub open spec fn spec_value(self, s: StoryState) -> bool {
        match self {
            FilterId::PrinceFestival => none_or_true(s.nun.made_paganism_illegal),
            FilterId::PrincessDisabledFilter => none_or_false(s.prince.housed_disabled),
            FilterId::SummonNo => none_or_true(s.dream.said_summoned),
            FilterId::SummonYes => none_or_false(s.dream.said_summoned),
            FilterId::Presented => none_or_true(s.dream.presented_hand),
            FilterId::CardiacDream => !s.dream.cardiac_dream,
            FilterId::NoChoice => !s.dream.no_choice,
            FilterId::ThisGift => !s.dream.this_gift,
            FilterId::DidntFineDuchy => none_or_true(s.duchy.fined_duchy),
            FilterId::EntertainFilter => !s.dream.entertain,
            FilterId::ProsperFilter => !s.dream.prosper,
            FilterId::OnlyFilter => !s.dream.only,
            FilterId::MoreFilter => !s.dream.more,
            FilterId::DreamPrincessFilter => !s.dream.kill_princess,
            FilterId::DreamPrinceFilter => !s.dream.kill_prince,
            FilterId::DreamSanctionFilter => !s.dream.sanction,
            FilterId::DreamDoneFilter => !s.dream.done,
        }
    }

    /// The petitioner key, day and slot of the request this filter governs.
    pub fn target(self) -> (r: (&'static str, usize, usize))
        ensures
            r.0 == self.spec_key(),
            (r.1 as int, r.2 as int) == self.spec_slot(),
    {
        match self {
            FilterId::PrinceFestival => ("prince", 0, 0),
            FilterId::PrincessDisabledFilter => ("princess", 0, 1),
            FilterId::SummonNo => (DREAM_KEY, 0, 1),
            FilterId::SummonYes => (DREAM_KEY, 0, 2),
            FilterId::Presented => (DREAM_KEY, 0, 2),
            FilterId::CardiacDream => (DREAM_KEY, 0, 3),
            FilterId::NoChoice => (DREAM_KEY, 0, 4),
            FilterId::ThisGift => (DREAM_KEY, 0, 5),
            FilterId::DidntFineDuchy => ("west-duchess", 1, 0),
            FilterId::EntertainFilter => (DREAM_KEY, 1, 1),
            FilterId::ProsperFilter => (DREAM_KEY, 1, 2),
            FilterId::OnlyFilter => (DREAM_KEY, 1, 3),
            FilterId::MoreFilter => (DREAM_KEY, 1, 4),
            FilterId::DreamPrincessFilter => (DREAM_KEY, 2, 2),
            FilterId::DreamPrinceFilter => (DREAM_KEY, 2, 1),
            FilterId::DreamSanctionFilter => (DREAM_KEY, 2, 3),
            FilterId::DreamDoneFilter => (DREAM_KEY, 2, 4),
        }
    }

    /// Whether the filter locks its request, given the story flags.
    pub fn value(self, s: &StoryState) -> (r: bool)
        ensures
            r == self.spec_value(*s),
    {
        match self {
            FilterId::PrinceFestival => is_none_or_true(s.nun.made_paganism_illegal),
            FilterId::PrincessDisabledFilter => is_none_or_false(s.prince.housed_disabled),
            FilterId::SummonNo => is_none_or_true(s.dream.said_summoned),
            FilterId::SummonYes => is_none_or_false(s.dream.said_summoned),
            FilterId::Presented => is_none_or_true(s.dream.presented_hand),
            FilterId::CardiacDream => !s.dream.cardiac_dream,
            FilterId::NoChoice => !s.dream.no_choice,
            FilterId::ThisGift => !s.dream.this_gift,
            FilterId::DidntFineDuchy => is_none_or_true(s.duchy.fined_duchy),
            FilterId::EntertainFilter => !s.dream.entertain,
            FilterId::ProsperFilter => !s.dream.prosper,
            FilterId::OnlyFilter => !s.dream.only,
            FilterId::MoreFilter => !s.dream.more,
            FilterId::DreamPrincessFilter => !s.dream.kill_princess,
            FilterId::DreamPrinceFilter => !s.dream.kill_prince,
            FilterId::DreamSanctionFilter => !s.dream.sanction,
            FilterId::DreamDoneFilter => !s.dream.done,
        }
    }
}

fn is_none_or_true(value: Option<bool>) -> (r: bool)
    ensures
        r == none_or_true(value),
{
    match value {
        Some(false) => false,
        _ => true,
    }
}

fn is_none_or_false(value: Option<bool>) -> (r: bool)
    ensures
        r == none_or_false(value),
{
    match value {
        Some(true) => false,
        _ => true,
    }
}

impl FilterId {
    /// The catalog after this filter runs on the story `s`.
    pub open spec fn applied(self, v: CharactersView, s: StoryState) -> CharactersView {
        v.with_filtered(self.spec_key()@, self.spec_slot().0, self.spec_slot().1, self.spec_value(s))
    }

    /// Runs the filter: locks or unlocks its request according to `story`.
    pub fn apply(self, story: &StoryState, characters: &mut Characters)
        ensures
            final(characters)@ == self.applied(old(characters)@, *story),
    {
        let (key, day, slot) = self.target();
        let v = self.value(story);
        characters.set_filtered(key, day, slot, v);
    }
}

/// The filter names of the unused requests among the first `n` of `rs`, in order.
pub open spec fn request_filter_names(rs: Seq<Request>, n: int) -> Seq<Seq<char>>
    decreases n,
{
    if n <= 0 {
        Seq::empty()
    } else {
        let p = request_filter_names(rs, n - 1);
        let r = rs[n - 1];
        match r.filter {
            Some(f) => if r.availability.used {
                p
            } else {
                p.push(f@)
            },
            None => p,
        }
    }
}

/// The filter names of the unused requests of `day` of the first `n`
/// petitioners, petitioner by petitioner, slot by slot.
pub open spec fn filter_names_below(v: CharactersView, day: int, n: int) -> Seq<Seq<char>>
    decreases n,
{
    if n <= 0 {
        Seq::empty()
    } else {
        let rs = v.table[n - 1].1.day_requests(day);
        filter_names_below(v, day, n - 1) + request_filter_names(rs, rs.len() as int)
    }
}

/// The names of the filters that a pass over `day` runs, in order.
pub open spec fn filter_names(v: CharactersView, day: int) -> Seq<Seq<char>> {
    filter_names_below(v, day, v.table.len() as int)
}

/// The catalog after the filter named `name` runs; unchanged for an unknown name.
pub open spec fn apply_filter_name(v: CharactersView, name: Seq<char>, s: StoryState) -> CharactersView {
    match filter_of_name(name) {
        Some(f) => f.applied(v, s),
        None => v,
    }
}

/// The catalog after the filters named in `names` run, first to last.
pub open spec fn apply_filter_names(v: CharactersView, names: Seq<Seq<char>>, s: StoryState) -> CharactersView
    decreases names.len(),
{
    if names.len() == 0 {
        v
    } else {
        apply_filter_name(apply_filter_names(v, names.drop_last(), s), names.last(), s)
    }
}

/// The names in `names` that name no filter, in order.
pub open spec fn unknown_filter_names(names: Seq<Seq<char>>) -> Seq<Seq<char>>
    decreases names.len(),
{
    if names.len() == 0 {
        Seq::empty()
    } else {
        let p = unknown_filter_names(names.drop_last());
        if filter_of_name(names.last()) is None {
            p.push(names.last())
        } else {
            p
        }
    }
}

pub open spec fn string_views(v: Seq<String>) -> Seq<Seq<char>> {
    v.map_values(|s: String| s@)
}

pub proof fn lemma_with_filtered_only(v: CharactersView, key: Seq<char>, day: int, slot: int, b: bool)
    ensures
        only_filtered_changed(v, v.with_filtered(key, day, slot, b)),
        v.with_filtered(key, day, slot, b).filtered_at(key, day, slot) == match v.filtered_at(
            key,
            day,
            slot,
        ) {
            Some(_) => Some(b),
            None => None::<bool>,
        },
        forall|k2: Seq<char>, d2: int, s2: int|
            (k2 != key || d2 != day || s2 != slot) ==> #[trigger] v.with_filtered(
                key,
                day,
                slot,
                b,
            ).filtered_at(k2, d2, s2) == v.filtered_at(k2, d2, s2),
{
    let w = v.with_filtered(key, day, slot, b);
    lemma_only_filtered_refl(v);
    lemma_find_below(v, key, v.table.len() as int);
    match v.find(key) {
        Some(i) => {
            let c = v.table[i].1;
            if 0 <= day < c.requests.len() && 0 <= slot < c.requests[day].len() {
                let nc = w.table[i].1;
                assert forall|j: int| 0 <= j < v.table.len() implies {
                    let (ka, ca) = #[trigger] v.table[j];
                    let (kb, cb) = w.table[j];
                    &&& ka == kb
                    &&& ca.name == cb.name
                    &&& ca.class == cb.class
                    &&& ca.sprite_path == cb.sprite_path
                    &&& ca.current_request == cb.current_request
                    &&& ca.requests.len() == cb.requests.len()
                    &&& forall|d: int|
                        0 <= d < ca.requests.len() ==> {
                            &&& (#[trigger] ca.requests[d]).len() == cb.requests[d].len()
                            &&& forall|sl: int|
                                0 <= sl < ca.requests[d].len() ==> {
                                    let ra = #[trigger] ca.requests[d][sl];
                                    cb.requests[d][sl] == ra.with_availability(
                                        RequestAvailability {
                                            filtered: cb.requests[d][sl].availability.filtered,
                                            ..ra.availability
                                        },
                                    )
                                }
                        }
                } by {
                    if j == i {
                        assert forall|d: int| 0 <= d < c.requests.len() implies {
                            &&& (#[trigger] c.requests[d]).len() == nc.requests[d].len()
                            &&& forall|sl: int|
                                0 <= sl < c.requests[d].len() ==> {
                                    let ra = #[trigger] c.requests[d][sl];
                                    nc.requests[d][sl] == ra.with_availability(
                                        RequestAvailability {
                                            filtered: nc.requests[d][sl].availability.filtered,
                                            ..ra.availability
                                        },
                                    )
                                }
                        } by {
                            assert forall|sl: int| 0 <= sl < c.requests[d].len() implies {
                                let ra = #[trigger] c.requests[d][sl];
                                nc.requests[d][sl] == ra.with_availability(
                                    RequestAvailability {
                                        filtered: nc.requests[d][sl].availability.filtered,
                                        ..ra.availability
                                    },
                                )
                            } by {
                                assert(v.table[j].1.requests[d][sl] == c.requests[d][sl]);
                            }
                        }
                    } else {
                        assert(w.table[j] == v.table[j]);
                    }
                }
                assert(only_filtered_changed(v, w));
                lemma_only_filtered_keeps_find(v, w, key);
                assert forall|k2: Seq<char>, d2: int, s2: int|
                    (k2 != key || d2 != day || s2 != slot) implies #[trigger] w.filtered_at(
                    k2,
                    d2,
                    s2,
                ) == v.filtered_at(k2, d2, s2) by {
                    lemma_only_filtered_keeps_find(v, w, k2);
                    lemma_find_below(v, k2, v.table.len() as int);
                }
            }
        },
        None => {},
    }
}

/// A filter pass changes nothing but `filtered` flags.
pub proof fn lemma_filter_names_only(v: CharactersView, names: Seq<Seq<char>>, s: StoryState)
    ensures
        only_filtered_changed(v, apply_filter_names(v, names, s)),
    decreases names.len(),
{
    if names.len() == 0 {
        lemma_only_filtered_refl(v);
    } else {
        let p = apply_filter_names(v, names.drop_last(), s);
        lemma_filter_names_only(v, names.drop_last(), s);
        match filter_of_name(names.last()) {
            Some(f) => {
                lemma_with_filtered_only(
                    p,
                    f.spec_key()@,
                    f.spec_slot().0,
                    f.spec_slot().1,
                    f.spec_value(s),
                );
                lemma_only_filtered_trans(v, p, apply_filter_names(v, names, s));
            },
            None => {},
        }
    }
}

/// Filters are idempotent: running a filter a second time on the same story
/// changes nothing more.
pub proof fn lemma_filter_idempotent(f: FilterId, v: CharactersView, s: StoryState)
    ensures
        f.applied(f.applied(v, s), s) == f.applied(v, s),
{
    let (key, day, slot) = (f.spec_key()@, f.spec_slot().0, f.spec_slot().1);
    let b = f.spec_value(s);
    let w = v.with_filtered(key, day, slot, b);
    lemma_with_filtered_only(v, key, day, slot, b);
    lemma_only_filtered_keeps_find(v, w, key);
    lemma_find_below(v, key, v.table.len() as int);
    match v.find(key) {
        Some(i) => {
            let c = v.table[i].1;
            if 0 <= day < c.requests.len() && 0 <= slot < c.requests[day].len() {
                let cw = w.table[i].1;
                let a = c.requests[day][slot].availability;
                assert(cw.requests[day][slot].availability == RequestAvailability { filtered: b, ..a });
                let ww = w.with_filtered(key, day, slot, b);
                assert(ww.table[i].1.requests[day] =~= cw.requests[day]);
                assert(ww.table[i].1.requests =~= cw.requests);
                assert(ww.table =~= w.table);
            }
        },
        None => {},
    }
}

/// The request that filter `f` governs, as (key, day, slot).
pub open spec fn governed(f: FilterId) -> (Seq<char>, int, int) {
    (f.spec_key()@, f.spec_slot().0, f.spec_slot().1)
}

/// In a filter pass, the last filter to govern a request decides it: if the
/// name at `k` names filter `f`, whose request exists, and no later name of
/// the pass names a filter governing the same request, then after the pass
/// that request is locked exactly when `f` says so for the story `s`.
pub proof fn lemma_last_filter_decides(v: CharactersView, names: Seq<Seq<char>>, s: StoryState, k: int)
    requires
        0 <= k < names.len(),
        filter_of_name(names[k]) is Some,
        v.filtered_at(
            governed(filter_of_name(names[k])->0).0,
            governed(filter_of_name(names[k])->0).1,
            governed(filter_of_name(names[k])->0).2,
        ) is Some,
        forall|j: int|
            k < j < names.len() && (#[trigger] filter_of_name(names[j])) is Some ==> governed(
                filter_of_name(names[j])->0,
            ) != governed(filter_of_name(names[k])->0),
    ensures
        ({
            let f = filter_of_name(names[k])->0;
            let (key, day, slot) = governed(f);
            apply_filter_names(v, names, s).filtered_at(key, day, slot) == Some(f.spec_value(s))
        }),
    decreases names.len(),
{
    let f = filter_of_name(names[k])->0;
    let (key, day, slot) = governed(f);
    let p = apply_filter_names(v, names.drop_last(), s);
    lemma_filter_names_only(v, names.drop_last(), s);
    lemma_only_filtered_keeps_find(v, p, key);
    if k == names.len() - 1 {
        assert(p.filtered_at(key, day, slot) is Some) by {
            lemma_find_below(v, key, v.table.len() as int);
        }
        lemma_with_filtered_only(p, key, day, slot, f.spec_value(s));
    } else {
        assert(names.drop_last()[k] == names[k]);
        assert forall|j: int|
            k < j < names.drop_last().len() && (#[trigger] filter_of_name(names.drop_last()[j])) is Some implies governed(
            filter_of_name(names.drop_last()[j])->0,
        ) != governed(filter_of_name(names.drop_last()[k])->0) by {
            assert(names.drop_last()[j] == names[j]);
            assert(filter_of_name(names[j]) is Some);
        }
        lemma_last_filter_decides(v, names.drop_last(), s, k);
        let last = names.last();
        assert(names[names.len() - 1] == last);
        match filter_of_name(last) {
            Some(g) => {
                assert(governed(g) != governed(f));
                let (k2, d2, s2) = governed(g);
                lemma_with_filtered_only(p, k2, d2, s2, g.spec_value(s));
            },
            None => {},
        }
    }
}

/// The filter pass over the catalog.
pub struct Filters;

impl Filters {
    /// The names of the filters that a pass over `day` runs, in order.
    fn names(day: usize, characters: &Characters) -> (r: Vec<String>)
        ensures
            string_views(r@) == filter_names(characters@, day as int),
    {
        let mut r: Vec<String> = Vec::new();
        let mut i: usize = 0;
        while i < characters.table.len()
            invariant
                i <= characters.table@.len(),
                string_views(r@) == filter_names_below(characters@, day as int, i as int),
            decreases characters.table@.len() - i,
        {
            let ch = &characters.table[i].1;
            if day < ch.requests.len() {
                let rs = &ch.requests[day];
                let ghost base = string_views(r@);
                let mut j: usize = 0;
                while j < rs.len()
                    invariant
                        day < ch.requests@.len(),
                        *rs == ch.requests@[day as int],
                        *ch == characters.table@[i as int].1,
                        j <= rs@.len(),
                        string_views(r@) == base + request_filter_names(rs@, j as int),
                    decreases rs@.len() - j,
                {
                    let req = &rs[j];
                    if !req.availability.used {
                        if let Some(f) = &req.filter {
                            let ghost before = r@;
                            r.push(f.clone());
                            proof {
                                assert(request_filter_names(rs@, j as int + 1)
                                    == request_filter_names(rs@, j as int).push(f@));
                                assert(string_views(r@) =~= string_views(before).push(f@));
                                assert(string_views(r@) =~= base + request_filter_names(
                                    rs@,
                                    j as int + 1,
                                ));
                            }
                        }
                    }
                    j = j + 1;
                }
                proof {
                    assert(characters@.table[i as int].1.day_requests(day as int) == rs@);
                }
            } else {
                proof {
                    assert(request_filter_names(Seq::empty(), 0) =~= Seq::empty());
                    assert(string_views(r@) =~= filter_names_below(characters@, day as int, i as int + 1));
                }
            }
            i = i + 1;
        }
        r
    }

    /// Runs, for every petitioner in catalog order and every unused request
    /// of `day` in slot order, the filter that the request names. Returns
    /// the names that name no filter, which are skipped.
    pub fn run(day: usize, characters: &mut Characters, story: &StoryState) -> (unknown: Vec<String>)
        ensures
            final(characters)@ == apply_filter_names(
                old(characters)@,
                filter_names(old(characters)@, day as int),
                *story,
            ),
            used_kept(old(characters)@, final(characters)@),
            string_views(unknown@) == unknown_filter_names(filter_names(old(characters)@, day as int)),
    {
        let names = Self::names(day, characters);
        let ghost start = characters@;
        let ghost all = string_views(names@);
        let mut unknown: Vec<String> = Vec::new();
        let mut k: usize = 0;
        while k < names.len()
            invariant
                k <= names@.len(),
                all == string_views(names@),
                characters@ == apply_filter_names(start, all.take(k as int), *story),
                string_views(unknown@) == unknown_filter_names(all.take(k as int)),
            decreases names@.len() - k,
        {
            proof {
                assert(all.take(k as int + 1).drop_last() =~= all.take(k as int));
            }
            match FilterId::from_name(&names[k]) {
                Some(f) => {
                    f.apply(story, characters);
                },
                None => {
                    unknown.push(names[k].clone());
                    proof {
                        assert(string_views(unknown@) =~= unknown_filter_names(all.take(k as int)).push(all[k as int]));
                    }
                },
            }
            k = k + 1;
        }
        proof {
            assert(all.take(names@.len() as int) =~= all);
            lemma_filter_names_only(start, all, *story);
            lemma_only_filtered_keeps_used(start, characters@);
        }
        unknown
    }
}

/// Runs the filter pass over the current day, as when a day's play begins.
/// Returns the names that name no filter.
pub fn initialize_filters(state: &KingdomState, characters: &mut Characters, story: &StoryState) -> (unknown: Vec<String>)
    ensures
        final(characters)@ == apply_filter_names(
            old(characters)@,
            filter_names(old(characters)@, state.day as int),
            *story,
        ),
        string_views(unknown@) == unknown_filter_names(filter_names(old(characters)@, state.day as int)),
{
    Filters::run(state.day, characters, story)
}

/// The prince's festival request is open only once paganism was kept legal.
pub fn prince_festival(characters: &mut Characters, story: &StoryState)
    ensures
        final(characters)@ == FilterId::PrinceFestival.applied(old(characters)@, *story),
{
    FilterId::PrinceFestival.apply(story, characters)
}

/// The princess's request on the disabled is open only once the prince's
/// request to house them was granted.
pub fn princess_disabled_filter(characters: &mut Characters, story: &StoryState)
    ensures
        final(characters)@ == FilterId::PrincessDisabledFilter.applied(old(characters)@, *story),
{
    FilterId::PrincessDisabledFilter.apply(story, characters)
}

} // verus!
