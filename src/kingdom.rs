use vstd::prelude::*;

use crate::character::{
    lemma_candidates_below, lemma_eligible_below, lemma_find_below, lemma_find_same_keys,
    lemma_only_filtered_keeps_find, lemma_only_filtered_keeps_used, lemma_used_kept_mark,
    lemma_used_kept_trans, used_kept, CharacterView, Characters, CharactersView, Pool, Request,
};
use crate::decision::{Decision, DecisionType};
use crate::handlers::{
    apply_filter_names, filter_names, filter_of_name, governed, lemma_filter_names_only,
    lemma_last_filter_decides, run_handler_names, stinger_among, string_views,
    unknown_filter_names, unknown_handler_names, Filters, ResponseHandlers, StoryState,
};
use crate::random::random_index;
use crate::state::{check_end_conditions, end_outcome, KingdomState, Mask, Outcome};
use crate::time_state::{next_phase, PhaseEvent, TimeState};

verus! {

/// Why a verdict was not applied. Nothing changes when one is refused.
#[derive(Clone, Copy, Debug, PartialEq, Eq, Structural)]
pub enum ResolveError {
    /// No petitioner has the verdict's key.
    UnknownPetitioner,
    /// The petitioner is presenting no request of the current day.
    NoCurrentRequest,
}

/// What applying a verdict reported.
#[derive(Debug)]
pub struct Resolution {
    /// The heart size after the verdict.
    pub heart_size: i64,
    /// A handler asked for the special stinger.
    pub stinger: bool,
    /// Handler names that name no handler; they were skipped.
    pub unknown_handlers: Vec<String>,
    /// Filter names that name no filter; they were skipped.
    pub unknown_filters: Vec<String>,
}

/// The whole run: the realm's gauges, the petitioners, the story flags, the
/// phase of the day and the mask the ruler wears.
#[derive(Debug)]
pub struct Kingdom {
    pub state: KingdomState,
    pub characters: Characters,
    pub story: StoryState,
    pub phase: TimeState,
    pub active_mask: Mask,
}

/// The pool that petitions are drawn from in `phase`.
pub open spec fn pool_of(phase: TimeState) -> Pool {
    if phase == TimeState::Night {
        Pool::Dream
    } else {
        Pool::Court
    }
}

/// The error that a verdict from the petitioner under `key` meets on `day`,
/// if any.
pub open spec fn verdict_error(v: CharactersView, day: int, key: Seq<char>) -> Option<ResolveError> {
    match v.find(key) {
        None => Some(ResolveError::UnknownPetitioner),
        Some(i) => if v.table[i].1.spec_request(day) is None {
            Some(ResolveError::NoCurrentRequest)
        } else {
            None
        },
    }
}

/// The catalog once the request at `slot` of `day` of petitioner `i` is
/// answered and the filter pass has run on the story `s`.
pub open spec fn after_answer(v: CharactersView, i: int, day: int, slot: int, s: StoryState) -> CharactersView {
    let mid = v.answered(i, day, slot);
    apply_filter_names(mid, filter_names(mid, day), s)
}

/// The day after `day`; the count stops at the largest `usize`.
pub open spec fn next_day(day: usize) -> usize {
    if day < usize::MAX {
        (day + 1) as usize
    } else {
        day
    }
}

/// What one turn reported: the applied verdict, the petition presented
/// next (petitioner index and slot) if any, and the end of the run if it
/// came.
#[derive(Debug)]
pub struct Turn {
    pub resolution: Resolution,
    pub presented: Option<(usize, usize)>,
    pub outcome: Option<Outcome>,
}

/// A request is answered only once: right after a verdict from the
/// petitioner under `key` has been applied to the request at `slot` of
/// `day` (the request answered, then the filter pass run on any story), a
/// second verdict from that petitioner finds nothing presented and is
/// refused, so it changes nothing.
pub proof fn lemma_second_verdict_refused(v: CharactersView, key: Seq<char>, day: int, slot: int, s: StoryState)
    requires
        v.find(key) is Some,
        v.has_request(v.find(key)->0, day, slot),
    ensures
        verdict_error(after_answer(v, v.find(key)->0, day, slot, s), day, key) == Some(
            ResolveError::NoCurrentRequest,
        ),
{
    let i = v.find(key)->0;
    let mid = v.answered(i, day, slot);
    let after = after_answer(v, i, day, slot, s);
    lemma_find_below(v, key, v.table.len() as int);
    assert forall|j: int| 0 <= j < v.table.len() implies #[trigger] v.table[j].0 == mid.table[j].0 by {}
    lemma_find_same_keys(v, mid, key, v.table.len() as int);
    lemma_filter_names_only(mid, filter_names(mid, day), s);
    lemma_only_filtered_keeps_find(mid, after, key);
    assert(after.table[i].1.current_request == mid.table[i].1.current_request);
}

/// Handlers run before the filters of the same turn: when a verdict answers
/// the request at `slot` of `day` of petitioner `i`, and the handlers leave
/// the story `s`, then every filter that the turn's filter pass runs (the
/// name at `k` of that pass), whose request exists, and that no later
/// filter of the pass overrides on the same request, leaves that request
/// locked exactly when it says so for `s`. A request unlocked by this
/// turn's handler is therefore open to the very next selection.
pub proof fn lemma_turn_filters_see_handlers(
    v: CharactersView,
    i: int,
    day: int,
    slot: int,
    s: StoryState,
    k: int,
)
    requires
        v.has_request(i, day, slot),
        0 <= k < filter_names(v.answered(i, day, slot), day).len(),
        filter_of_name(filter_names(v.answered(i, day, slot), day)[k]) is Some,
        ({
            let f = filter_of_name(filter_names(v.answered(i, day, slot), day)[k])->0;
            v.answered(i, day, slot).filtered_at(governed(f).0, governed(f).1, governed(f).2) is Some
        }),
        forall|j: int|
            k < j < filter_names(v.answered(i, day, slot), day).len() && (#[trigger] filter_of_name(
                filter_names(v.answered(i, day, slot), day)[j],
            )) is Some ==> governed(
                filter_of_name(filter_names(v.answered(i, day, slot), day)[j])->0,
            ) != governed(filter_of_name(filter_names(v.answered(i, day, slot), day)[k])->0),
    ensures
        ({
            let f = filter_of_name(filter_names(v.answered(i, day, slot), day)[k])->0;
            after_answer(v, i, day, slot, s).filtered_at(governed(f).0, governed(f).1, governed(f).2)
                == Some(f.spec_value(s))
        }),
{
    let mid = v.answered(i, day, slot);
    lemma_last_filter_decides(mid, filter_names(mid, day), s, k);
}

fn clone_names(v: &Vec<String>) -> (r: Vec<String>)
    ensures
        string_views(r@) == string_views(v@),
{
    let mut r: Vec<String> = Vec::new();
    let mut k: usize = 0;
    while k < v.len()
        invariant
            k <= v@.len(),
            string_views(r@) == string_views(v@).take(k as int),
        decreases v@.len() - k,
    {
        let c = v[k].clone();
        let ghost before = r@;
        r.push(c);
        proof {
            assert(c@ == v@[k as int]@);
            assert(string_views(r@) =~= string_views(before).push(c@));
            assert(string_views(r@) =~= string_views(v@).take(k as int + 1));
        }
        k = k + 1;
    }
    proof {
        assert(string_views(v@).take(v@.len() as int) =~= string_views(v@));
    }
    r
}

impl Kingdom {
    /// A run over `characters`, before its first morning.
    pub fn new(characters: Characters) -> (r: Kingdom)
        ensures
            r.state == KingdomState::initial(),
            r.characters@ == characters@,
            r.story == StoryState::initial(),
            r.phase == TimeState::Idle,
            r.active_mask == Mask::Absent,
    {
        Kingdom {
            state: KingdomState::new(),
            characters,
            story: StoryState::new(),
            phase: TimeState::Idle,
            active_mask: Mask::Absent,
        }
    }

    /// The petitioner index and slot that a verdict from `key` applies to,
    /// where `verdict_error` finds none.
    pub open spec fn verdict_target(self, key: Seq<char>) -> (int, int) {
        let i = self.characters@.find(key)->0;
        (i, self.characters@.table[i].1.current_request->0 as int)
    }

    /// The request that a verdict from `key` answers, where
    /// `verdict_error` finds none.
    pub open spec fn answered_request(self, key: Seq<char>) -> Request {
        let (i, slot) = self.verdict_target(key);
        self.characters@.table[i].1.requests[self.state.day as int][slot]
    }

    /// Applies a verdict. The answered request's update is added to the
    /// realm, the request is marked used and no longer presented, its
    /// handlers run in order on the story (seeing the new verdict), then the
    /// filter pass runs over the current day. A verdict from an unknown
    /// petitioner, or from one presenting nothing, changes nothing.
    pub fn resolve(&mut self, decision: &Decision) -> (r: Result<Resolution, ResolveError>)
        ensures
            ({
                let o = old(self);
                let day = o.state.day as int;
                let key = decision.spec_key();
                let t = decision.spec_kind();
                match verdict_error(o.characters@, day, key) {
                    Some(e) => r == Err::<Resolution, ResolveError>(e) && *final(self) == *o,
                    None => {
                        let (i, slot) = o.verdict_target(key);
                        let req = o.answered_request(key);
                        let u = req.update_for(t);
                        let names = string_views(req.response_handlers@);
                        let mid = o.characters@.answered(i, day, slot);
                        &&& r is Ok
                        &&& final(self).state == o.state.applied(u, t)
                        &&& final(self).active_mask == match u.mask {
                            Some(m) => m,
                            None => o.active_mask,
                        }
                        &&& final(self).story == run_handler_names(names, Some(t), o.story)
                        &&& final(self).characters@ == after_answer(
                            o.characters@,
                            i,
                            day,
                            slot,
                            final(self).story,
                        )
                        &&& final(self).phase == o.phase
                        &&& used_kept(o.characters@, final(self).characters@)
                        &&& r->Ok_0.heart_size == final(self).state.heart_size
                        &&& r->Ok_0.stinger == stinger_among(names, Some(t))
                        &&& string_views(r->Ok_0.unknown_handlers@) == unknown_handler_names(names)
                        &&& string_views(r->Ok_0.unknown_filters@) == unknown_filter_names(
                            filter_names(mid, day),
                        )
                    },
                }
            }),
    {
        let day = self.state.day;
        let key = decision.key();
        let i = match self.characters.find(key.as_str()) {
            Some(i) => i,
            None => {
                return Err(ResolveError::UnknownPetitioner);
            },
        };
        let slot = match self.characters.table[i].1.current_request {
            Some(s) => s,
            None => {
                return Err(ResolveError::NoCurrentRequest);
            },
        };
        if !(day < self.characters.table[i].1.requests.len() && slot
            < self.characters.table[i].1.requests[day].len()) {
            return Err(ResolveError::NoCurrentRequest);
        }
        let kind = DecisionType::from(decision);
        let names = clone_names(&self.characters.table[i].1.requests[day][slot].response_handlers);
        let mask = self.state.apply_request_decision(
            &self.characters.table[i].1.requests[day][slot],
            kind,
        ).mask;
        if let Some(m) = mask {
            self.active_mask = m;
        }
        let ghost before = self.characters@;
        self.characters.finish_request(i, day, slot);
        proof {
            lemma_used_kept_mark(before, i as int, day as int, slot as int, self.characters@);
        }
        let ghost mid = self.characters@;
        let handlers = ResponseHandlers::run(&names, self.state.last_decision, &mut self.story);
        let unknown_filters = Filters::run(day, &mut self.characters, &self.story);
        proof {
            lemma_filter_names_only(mid, filter_names(mid, day as int), self.story);
            lemma_only_filtered_keeps_used(mid, self.characters@);
            lemma_used_kept_trans(before, mid, self.characters@);
        }
        Ok(
            Resolution {
                heart_size: self.state.heart_size,
                stinger: handlers.stinger,
                unknown_handlers: handlers.unknown,
                unknown_filters,
            },
        )
    }
}

impl Kingdom {
    /// Moves the day forward on `event`. Leaving the evening for the night
    /// starts the next day: the day count goes up by one and no petitioner
    /// is presenting anything any more. No other step touches the day.
    /// Returns the new phase, or `None` where the event means nothing now.
    pub fn advance(&mut self, event: PhaseEvent) -> (r: Option<TimeState>)
        ensures
            r == next_phase(old(self).phase, event),
            final(self).phase == match r {
                Some(p) => p,
                None => old(self).phase,
            },
            final(self).state == if old(self).phase == TimeState::Evening && r == Some(
                TimeState::Night,
            ) {
                KingdomState { day: next_day(old(self).state.day), ..old(self).state }
            } else {
                old(self).state
            },
            old(self).phase == TimeState::Evening && r == Some(TimeState::Night) ==> {
                &&& final(self).characters@.current_key == old(self).characters@.current_key
                &&& final(self).characters@.table.len() == old(self).characters@.table.len()
                &&& forall|i: int|
                    0 <= i < old(self).characters@.table.len() ==> #[trigger] final(self).characters@.table[i] == (
                        old(self).characters@.table[i].0,
                        CharacterView {
                            current_request: None,
                            ..old(self).characters@.table[i].1
                        },
                    )
            },
            !(old(self).phase == TimeState::Evening && r == Some(TimeState::Night))
                ==> final(self).characters@ == old(self).characters@,
            used_kept(old(self).characters@, final(self).characters@),
            final(self).story == old(self).story,
            final(self).active_mask == old(self).active_mask,
    {
        let r = self.phase.next(event);
        if let Some(p) = r {
            if self.phase == TimeState::Evening && p == TimeState::Night {
                if self.state.day < usize::MAX {
                    self.state.day = self.state.day + 1;
                }
                self.characters.clear_requests();
                proof {
                    assert forall|i: int, day: int, slot: int|
                        old(self).characters@.has_request(i, day, slot) && #[trigger] old(self).characters@.availability(i, day, slot).used implies self.characters@.has_request(
                        i,
                        day,
                        slot,
                    ) && self.characters@.availability(i, day, slot).used by {
                        assert(self.characters@.table[i].1.requests
                            == old(self).characters@.table[i].1.requests);
                    }
                }
            }
            self.phase = p;
        }
        r
    }

    /// Presents the petition that the rolls pick (see
    /// `CharactersView::picked`) from the pool of the current phase: the
    /// court by day, where the petitioner just presented may not come
    /// again, or the dream by night. When the pool has nothing left, the
    /// phase moves on instead and the catalog is left as it was.
    pub fn choose_new_character_with(&mut self, roll_character: usize, roll_request: usize) -> (r:
        Option<(usize, usize)>)
        ensures
            ({
                let o = old(self);
                let pool = pool_of(o.phase);
                let day = o.state.day as int;
                &&& r == o.characters@.picked(pool, day, roll_character as int, roll_request as int)
                &&& r matches Some((i, slot)) ==> {
                    &&& o.characters@.is_candidate(i as int, pool, day)
                    &&& o.characters@.table[i as int].1.is_eligible(day, slot as int)
                    &&& final(self).characters@ == o.characters@.presenting(i as int, day, slot as int)
                    &&& final(self).phase == o.phase
                    &&& pool == Pool::Court ==> o.characters@.current_key != Some(
                        o.characters@.table[i as int].0,
                    )
                }
                &&& r is None ==> {
                    &&& o.characters@.candidates(pool, day).len() == 0
                    &&& final(self).characters@ == o.characters@
                    &&& final(self).phase == match next_phase(o.phase, PhaseEvent::PoolExhausted) {
                        Some(p) => p,
                        None => o.phase,
                    }
                }
                &&& used_kept(o.characters@, final(self).characters@)
                &&& final(self).state == o.state
                &&& final(self).story == o.story
                &&& final(self).active_mask == o.active_mask
            }),
    {
        let pool = if self.phase == TimeState::Night {
            Pool::Dream
        } else {
            Pool::Court
        };
        let day = self.state.day;
        match self.characters.pick(pool, day, roll_character, roll_request) {
            Some((i, slot)) => {
                proof {
                    let v = self.characters@;
                    let c = v.candidates(pool, day as int);
                    assert(v.table.len() == self.characters.table.len());
                    lemma_candidates_below(v, pool, day as int, v.table.len() as int);
                    assert(v.is_candidate(i as int, pool, day as int));
                    let ch = v.table[i as int].1;
                    self.characters.table[i as int].1.lemma_day_len(day as int);
                    lemma_eligible_below(ch, day as int, ch.day_requests(day as int).len() as int);
                    let e = ch.eligible(day as int);
                    assert(e.contains(slot));
                    assert(ch.is_eligible(day as int, slot as int));
                }
                let ghost before = self.characters@;
                self.characters.present(i, day, slot);
                proof {
                    lemma_used_kept_mark(before, i as int, day as int, slot as int, self.characters@);
                }
                Some((i, slot))
            },
            None => {
                self.advance(PhaseEvent::PoolExhausted);
                None
            },
        }
    }

    /// Presents a petition drawn at random from the pool of the current
    /// phase: a petitioner uniformly among those with something left to
    /// ask, then one of their eligible requests uniformly. When the pool has
    /// nothing left, the phase moves on instead.
    pub fn choose_new_character(&mut self) -> (r: Option<(usize, usize)>)
        ensures
            ({
                let o = old(self);
                let pool = pool_of(o.phase);
                let day = o.state.day as int;
                &&& r is None <==> o.characters@.candidates(pool, day).len() == 0
                &&& r matches Some((i, slot)) ==> {
                    &&& o.characters@.is_candidate(i as int, pool, day)
                    &&& o.characters@.table[i as int].1.is_eligible(day, slot as int)
                    &&& final(self).characters@ == o.characters@.presenting(i as int, day, slot as int)
                    &&& final(self).phase == o.phase
                    &&& pool == Pool::Court ==> o.characters@.current_key != Some(
                        o.characters@.table[i as int].0,
                    )
                }
                &&& r is None ==> {
                    &&& final(self).characters@ == o.characters@
                    &&& final(self).phase == match next_phase(o.phase, PhaseEvent::PoolExhausted) {
                        Some(p) => p,
                        None => o.phase,
                    }
                }
                &&& used_kept(o.characters@, final(self).characters@)
                &&& final(self).state == o.state
                &&& final(self).story == o.story
                &&& final(self).active_mask == o.active_mask
            }),
    {
        let pool = if self.phase == TimeState::Night {
            Pool::Dream
        } else {
            Pool::Court
        };
        let day = self.state.day;
        let c = self.characters.candidates(pool, day);
        if c.len() == 0 {
            return self.choose_new_character_with(0, 0);
        }
        let roll_character = random_index(c.len());
        let i = c[roll_character];
        proof {
            let v = self.characters@;
            assert(v.table.len() == self.characters.table.len());
            lemma_candidates_below(v, pool, day as int, v.table.len() as int);
            assert(v.is_candidate(i as int, pool, day as int));
        }
        let m = self.characters.table[i].1.eligible_requests(day).len();
        let roll_request = random_index(m);
        self.choose_new_character_with(roll_character, roll_request)
    }

    /// How the run ends now, if it does.
    pub fn check_end_conditions(&self) -> (r: Option<Outcome>)
        ensures
            r == end_outcome(self.state, self.phase),
    {
        check_end_conditions(&self.state, self.phase)
    }

    /// Begins the run: the filter pass over the current day, then the first
    /// morning. Returns the filter names that name no filter.
    pub fn start(&mut self) -> (unknown: Vec<String>)
        ensures
            ({
                let o = old(self);
                let names = filter_names(o.characters@, o.state.day as int);
                &&& final(self).characters@ == apply_filter_names(o.characters@, names, o.story)
                &&& string_views(unknown@) == unknown_filter_names(names)
                &&& final(self).phase == match next_phase(o.phase, PhaseEvent::Start) {
                    Some(p) => p,
                    None => o.phase,
                }
                &&& used_kept(o.characters@, final(self).characters@)
                &&& final(self).state == o.state
                &&& final(self).story == o.story
                &&& final(self).active_mask == o.active_mask
            }),
    {
        let unknown = Filters::run(self.state.day, &mut self.characters, &self.story);
        proof {
            lemma_filter_names_only(
                old(self).characters@,
                filter_names(old(self).characters@, old(self).state.day as int),
                self.story,
            );
            lemma_only_filtered_keeps_used(old(self).characters@, self.characters@);
        }
        if self.phase == TimeState::Idle {
            self.advance(PhaseEvent::Start);
        }
        unknown
    }

    /// One turn: applies the verdict (see `resolve`), then presents the next
    /// petition drawn at random (see `choose_new_character`), then checks
    /// whether the run has ended. A refused verdict changes nothing.
    pub fn update_state(&mut self, decision: &Decision) -> (r: Result<Turn, ResolveError>)
        ensures
            ({
                let o = old(self);
                let day = o.state.day as int;
                let key = decision.spec_key();
                let t = decision.spec_kind();
                match verdict_error(o.characters@, day, key) {
                    Some(e) => r == Err::<Turn, ResolveError>(e) && *final(self) == *o,
                    None => {
                        let (i, slot) = o.verdict_target(key);
                        let req = o.answered_request(key);
                        let u = req.update_for(t);
                        let names = string_views(req.response_handlers@);
                        let after = after_answer(o.characters@, i, day, slot, final(self).story);
                        let pool = pool_of(o.phase);
                        &&& r is Ok
                        &&& final(self).state == o.state.applied(u, t)
                        &&& final(self).story == run_handler_names(names, Some(t), o.story)
                        &&& r->Ok_0.resolution.heart_size == final(self).state.heart_size
                        &&& r->Ok_0.resolution.stinger == stinger_among(names, Some(t))
                        &&& r->Ok_0.presented matches Some((j, s)) ==> {
                            &&& after.is_candidate(j as int, pool, day)
                            &&& after.table[j as int].1.is_eligible(day, s as int)
                            &&& final(self).characters@ == after.presenting(j as int, day, s as int)
                            &&& final(self).phase == o.phase
                        }
                        &&& r->Ok_0.presented is None ==> {
                            &&& after.candidates(pool, day).len() == 0
                            &&& final(self).characters@ == after
                            &&& final(self).phase == match next_phase(o.phase, PhaseEvent::PoolExhausted) {
                                Some(p) => p,
                                None => o.phase,
                            }
                        }
                        &&& r->Ok_0.outcome == end_outcome(final(self).state, final(self).phase)
                        &&& used_kept(o.characters@, final(self).characters@)
                    },
                }
            }),
    {
        let resolution = match self.resolve(decision) {
            Ok(res) => res,
            Err(e) => {
                return Err(e);
            },
        };
        let ghost mid = self.characters@;
        let presented = self.choose_new_character();
        proof {
            lemma_used_kept_trans(old(self).characters@, mid, self.characters@);
        }
        let outcome = check_end_conditions(&self.state, self.phase);
        Ok(Turn { resolution, presented, outcome })
    }
}

} // verus!
