use vstd::prelude::*;

use crate::decision::DecisionType;
use crate::random::random_index;
use crate::state::StateUpdate;

verus! {

/// Social rank of a petitioner.
#[derive(Clone, Copy, Debug, PartialEq, Eq, Structural)]
pub enum Class {
    Peasant,
    Craftsman,
    Artist,
    Merchant,
    Priest,
    Lord,
    Royal,
    GreaterOne,
}

/// Whether a request may still be presented: a filter may lock it, and a
/// request once used is never presented again.
#[derive(Clone, Copy, Debug, PartialEq, Eq, Structural)]
pub struct RequestAvailability {
    pub filtered: bool,
    pub used: bool,
}

impl RequestAvailability {
    pub open spec fn spec_is_available(self) -> bool {
        !(self.filtered || self.used)
    }

    /// Neither locked by a filter nor used.
    pub fn is_available(&self) -> (r: bool)
        ensures
            r == self.spec_is_available(),
            r == !(self.filtered || self.used),
    {
        !(self.filtered || self.used)
    }
}

impl Default for RequestAvailability {
    fn default() -> (r: RequestAvailability)
        ensures
            r == (RequestAvailability { filtered: false, used: false }),
    {
        RequestAvailability { filtered: false, used: false }
    }
}

/// One thing a petitioner asks for, with the effect of each answer, the
/// name of the filter that may lock it, and the names of the handlers run
/// once it is answered.
#[derive(Clone, Debug)]
pub struct Request {
    pub text: String,
    pub yes: StateUpdate,
    pub no: StateUpdate,
    pub filter: Option<String>,
    pub response_handlers: Vec<String>,
    pub availability: RequestAvailability,
}

impl Request {
    pub open spec fn update_for(self, decision: DecisionType) -> StateUpdate {
        match decision {
            DecisionType::Yes => self.yes,
            DecisionType::No => self.no,
        }
    }

    pub open spec fn with_availability(self, a: RequestAvailability) -> Request {
        Request { availability: a, ..self }
    }
}

/// A petitioner: who they are, and their requests by day (outer index) and
/// slot (inner index). `current_request` is the slot being presented.
#[derive(Debug)]
pub struct Character {
    pub name: String,
    pub class: Class,
    pub sprite_path: String,
    pub requests: Vec<Vec<Request>>,
    pub current_request: Option<usize>,
}

/// A petitioner as a mathematical value.
pub struct CharacterView {
    pub name: Seq<char>,
    pub class: Class,
    pub sprite_path: Seq<char>,
    pub requests: Seq<Seq<Request>>,
    pub current_request: Option<usize>,
}

impl View for Character {
    type V = CharacterView;

    open spec fn view(&self) -> CharacterView {
        CharacterView {
            name: self.name@,
            class: self.class,
            sprite_path: self.sprite_path@,
            requests: self.requests@.map_values(|day: Vec<Request>| day@),
            current_request: self.current_request,
        }
    }
}

impl CharacterView {
    /// The requests of `day`; none for a day past the last.
    pub open spec fn day_requests(self, day: int) -> Seq<Request> {
        if 0 <= day < self.requests.len() {
            self.requests[day]
        } else {
            Seq::empty()
        }
    }

    pub open spec fn is_eligible(self, day: int, slot: int) -> bool {
        0 <= slot < self.day_requests(day).len()
            && self.day_requests(day)[slot].availability.spec_is_available()
    }

    /// The eligible slots of `day` below `n`, in increasing order.
    pub open spec fn eligible_below(self, day: int, n: int) -> Seq<usize>
        decreases n,
    {
        if n <= 0 {
            Seq::empty()
        } else if self.is_eligible(day, n - 1) {
            self.eligible_below(day, n - 1).push((n - 1) as usize)
        } else {
            self.eligible_below(day, n - 1)
        }
    }

    /// The slots of `day` that may be presented, in increasing order.
    pub open spec fn eligible(self, day: int) -> Seq<usize> {
        self.eligible_below(day, self.day_requests(day).len() as int)
    }

    /// The same petitioner with the availability of one request replaced.
    pub open spec fn with_availability(
        self,
        day: int,
        slot: int,
        a: RequestAvailability,
    ) -> CharacterView {
        CharacterView {
            requests: self.requests.update(
                day,
                self.requests[day].update(slot, self.requests[day][slot].with_availability(a)),
            ),
            ..self
        }
    }

    /// The request being presented on `day`, if its slot exists.
    pub open spec fn spec_request(self, day: int) -> Option<Request> {
        match self.current_request {
            Some(i) => if (i as int) < self.day_requests(day).len() {
                Some(self.day_requests(day)[i as int])
            } else {
                None
            },
            None => None,
        }
    }
}

pub proof fn lemma_eligible_below(c: CharacterView, day: int, n: int)
    requires
        n <= usize::MAX,
    ensures
        c.eligible_below(day, n).len() <= if n < 0 { 0 } else { n },
        forall|k: int|
            0 <= k < c.eligible_below(day, n).len() ==> {
                let s = #[trigger] c.eligible_below(day, n)[k] as int;
                0 <= s < n && c.is_eligible(day, s)
            },
        forall|s: int| 0 <= s < n && c.is_eligible(day, s) ==> c.eligible_below(day, n).contains(s as usize),
    decreases n,
{
    if n > 0 {
        lemma_eligible_below(c, day, n - 1);
        let p = c.eligible_below(day, n - 1);
        if c.is_eligible(day, n - 1) {
            assert(p.push((n - 1) as usize)[p.len() as int] == (n - 1) as usize);
            assert forall|s: int| 0 <= s < n && c.is_eligible(day, s) implies c.eligible_below(
                day,
                n,
            ).contains(s as usize) by {
                if s < n - 1 {
                    let k = choose|k: int| 0 <= k < p.len() && p[k] == s as usize;
                    assert(p.push((n - 1) as usize)[k] == s as usize);
                } else {
                    assert(p.push((n - 1) as usize)[p.len() as int] == s as usize);
                }
            }
        }
    }
}

impl Character {
    pub proof fn lemma_day_len(&self, day: int)
        ensures
            self@.day_requests(day).len() <= usize::MAX,
    {
        if 0 <= day < self.requests@.len() {
            assert(self.requests@[day]@.len() == self.requests@[day].len());
        }
    }

    /// The slots of `day` that may be presented, in increasing order.
    pub fn eligible_requests(&self, day: usize) -> (r: Vec<usize>)
        ensures
            r@ == self@.eligible(day as int),
    {
        let mut r: Vec<usize> = Vec::new();
        if day < self.requests.len() {
            let reqs = &self.requests[day];
            let mut i: usize = 0;
            while i < reqs.len()
                invariant
                    day < self.requests@.len(),
                    *reqs == self.requests@[day as int],
                    i <= reqs@.len(),
                    r@ == self@.eligible_below(day as int, i as int),
                decreases reqs@.len() - i,
            {
                if reqs[i].availability.is_available() {
                    r.push(i);
                }
                i = i + 1;
            }
        }
        r
    }

    /// The eligible request of `day` that `roll` picks: the `roll % n`-th of
    /// the `n` eligible slots, in increasing order; `None` when there is none.
    pub fn pick_request(&self, day: usize, roll: usize) -> (r: Option<(usize, &Request)>)
        ensures
            self@.eligible(day as int).len() == 0 <==> r.is_none(),
            r matches Some((slot, req)) ==> {
                let e = self@.eligible(day as int);
                &&& slot == e[roll as int % e.len() as int]
                &&& *req == self@.day_requests(day as int)[slot as int]
            },
    {
        let slots = self.eligible_requests(day);
        if slots.len() == 0 {
            None
        } else {
            let slot = slots[roll % slots.len()];
            proof {
                self.lemma_day_len(day as int);
            lemma_eligible_below(self@, day as int, self@.day_requests(day as int).len() as int);
            }
            Some((slot, &self.requests[day][slot]))
        }
    }

    /// A request of `day` drawn at random among those that may be presented,
    /// with its slot; `None` when there is none.
    pub fn sample_requests(&self, day: usize) -> (r: Option<(usize, &Request)>)
        ensures
            self@.eligible(day as int).len() == 0 <==> r.is_none(),
            r matches Some((slot, req)) ==> {
                &&& self@.eligible(day as int).contains(slot)
                &&& self@.is_eligible(day as int, slot as int)
                &&& *req == self@.day_requests(day as int)[slot as int]
            },
    {
        let n = self.eligible_requests(day).len();
        let roll = if n == 0 {
            0
        } else {
            random_index(n)
        };
        let r = self.pick_request(day, roll);
        proof {
            self.lemma_day_len(day as int);
            lemma_eligible_below(self@, day as int, self@.day_requests(day as int).len() as int);
        }
        r
    }

    /// Marks the request at `request` of `day` as the one being presented,
    /// and as used.
    pub fn set_used(&mut self, day: usize, request: usize)
        requires
            day < old(self).requests@.len(),
            request < old(self).requests@[day as int]@.len(),
        ensures
            final(self)@ == (CharacterView {
                current_request: Some(request),
                ..old(self)@.with_availability(
                    day as int,
                    request as int,
                    RequestAvailability {
                        used: true,
                        ..old(self)@.requests[day as int][request as int].availability
                    },
                )
            }),
    {
        self.current_request = Some(request);
        self.requests[day][request].availability.used = true;
        proof {
            assert(self@.requests =~~= old(self)@.with_availability(
                day as int,
                request as int,
                RequestAvailability {
                    used: true,
                    ..old(self)@.requests[day as int][request as int].availability
                },
            ).requests);
        }
    }

    /// The request being presented on `day`, if any.
    pub fn request(&self, day: usize) -> (r: Option<&Request>)
        ensures
            r == match self@.spec_request(day as int) {
                Some(q) => Some(&q),
                None => None::<&Request>,
            },
    {
        match self.current_request {
            Some(index) => {
                if day < self.requests.len() && index < self.requests[day].len() {
                    Some(&self.requests[day][index])
                } else {
                    None
                }
            },
            None => None,
        }
    }

    /// Forgets which request is being presented.
    pub fn clear_request(&mut self)
        ensures
            final(self)@ == (CharacterView { current_request: None, ..old(self)@ }),
    {
        self.current_request = None;
    }
}

/// Key of the petitioner who appears in dreams, at night only.
pub const DREAM_KEY: &'static str = "dream-man";

/// Which petitioners may be presented: by day all but the dreamer and the
/// one just presented; by night the dreamer alone.
#[derive(Clone, Copy, Debug, PartialEq, Eq, Structural)]
pub enum Pool {
    Court,
    Dream,
}

/// The catalog of petitioners, each under its key, and the key of the one
/// being presented, if any.
#[derive(Debug)]
pub struct Characters {
    pub table: Vec<(String, Character)>,
    pub current_key: Option<String>,
}

/// The catalog as a mathematical value.
pub struct CharactersView {
    pub table: Seq<(Seq<char>, CharacterView)>,
    pub current_key: Option<Seq<char>>,
}

impl View for Characters {
    type V = CharactersView;

    open spec fn view(&self) -> CharactersView {
        CharactersView {
            table: self.table@.map_values(|e: (String, Character)| (e.0@, e.1@)),
            current_key: match self.current_key {
                Some(k) => Some(k@),
                None => None,
            },
        }
    }
}

impl CharactersView {
    /// The first index below `n` whose key is `key`.
    pub open spec fn find_below(self, key: Seq<char>, n: int) -> Option<int>
        decreases n,
    {
        if n <= 0 {
            None
        } else {
            match self.find_below(key, n - 1) {
                Some(i) => Some(i),
                None => if self.table[n - 1].0 == key {
                    Some(n - 1)
                } else {
                    None
                },
            }
        }
    }

    /// The index of the petitioner under `key`.
    pub open spec fn find(self, key: Seq<char>) -> Option<int> {
        self.find_below(key, self.table.len() as int)
    }

    pub open spec fn in_pool(self, i: int, pool: Pool) -> bool {
        let k = self.table[i].0;
        match pool {
            Pool::Court => k != DREAM_KEY@ && self.current_key != Some(k),
            Pool::Dream => k == DREAM_KEY@,
        }
    }

    /// Petitioner `i` may be presented on `day` from `pool`.
    pub open spec fn is_candidate(self, i: int, pool: Pool, day: int) -> bool {
        0 <= i < self.table.len() && self.in_pool(i, pool) && self.table[i].1.eligible(day).len()
            > 0
    }

    pub open spec fn candidates_below(self, pool: Pool, day: int, n: int) -> Seq<usize>
        decreases n,
    {
        if n <= 0 {
            Seq::empty()
        } else if self.is_candidate(n - 1, pool, day) {
            self.candidates_below(pool, day, n - 1).push((n - 1) as usize)
        } else {
            self.candidates_below(pool, day, n - 1)
        }
    }

    /// The indices of the petitioners that may be presented, in increasing order.
    pub open spec fn candidates(self, pool: Pool, day: int) -> Seq<usize> {
        self.candidates_below(pool, day, self.table.len() as int)
    }

    /// What the rolls pick on `day` from `pool`: the `roll_character % n`-th
    /// of the `n` candidates, and the `roll_request % m`-th of its `m`
    /// eligible slots.
    pub open spec fn picked(
        self,
        pool: Pool,
        day: int,
        roll_character: int,
        roll_request: int,
    ) -> Option<(usize, usize)> {
        let c = self.candidates(pool, day);
        if c.len() == 0 {
            None
        } else {
            let i = c[roll_character % c.len() as int];
            let e = self.table[i as int].1.eligible(day);
            Some((i, e[roll_request % e.len() as int]))
        }
    }

    /// The `filtered` flag of the request at `slot` of `day` of the
    /// petitioner under `key`, if there is such a request.
    pub open spec fn filtered_at(self, key: Seq<char>, day: int, slot: int) -> Option<bool> {
        match self.find(key) {
            Some(i) => {
                let c = self.table[i].1;
                if 0 <= day < c.requests.len() && 0 <= slot < c.requests[day].len() {
                    Some(c.requests[day][slot].availability.filtered)
                } else {
                    None
                }
            },
            None => None,
        }
    }

    /// The catalog with the `filtered` flag of that request set to `v`;
    /// unchanged where there is no such request.
    pub open spec fn with_filtered(self, key: Seq<char>, day: int, slot: int, v: bool) -> CharactersView {
        match self.find(key) {
            Some(i) => {
                let c = self.table[i].1;
                if 0 <= day < c.requests.len() && 0 <= slot < c.requests[day].len() {
                    CharactersView {
                        table: self.table.update(
                            i,
                            (
                                self.table[i].0,
                                c.with_availability(
                                    day,
                                    slot,
                                    RequestAvailability {
                                        filtered: v,
                                        ..c.requests[day][slot].availability
                                    },
                                ),
                            ),
                        ),
                        ..self
                    }
                } else {
                    self
                }
            },
            None => self,
        }
    }

    /// The catalog with petitioner `i` presenting slot `slot` of `day`,
    /// which is marked used.
    pub open spec fn presenting(self, i: int, day: int, slot: int) -> CharactersView {
        let c = self.table[i].1;
        let a = c.requests[day][slot].availability;
        CharactersView {
            table: self.table.update(
                i,
                (
                    self.table[i].0,
                    CharacterView {
                        current_request: Some(slot as usize),
                        ..c.with_availability(day, slot, RequestAvailability { used: true, ..a })
                    },
                ),
            ),
            current_key: Some(self.table[i].0),
        }
    }
}

impl CharactersView {
    /// Petitioner `i` has answered the request at `slot` of `day`: it is
    /// used, and nothing is being presented by that petitioner.
    pub open spec fn answered(self, i: int, day: int, slot: int) -> CharactersView {
        let c = self.table[i].1;
        let a = c.requests[day][slot].availability;
        CharactersView {
            table: self.table.update(
                i,
                (
                    self.table[i].0,
                    CharacterView {
                        current_request: None,
                        ..c.with_availability(day, slot, RequestAvailability { used: true, ..a })
                    },
                ),
            ),
            ..self
        }
    }

    /// Request `slot` of `day` of petitioner `i` exists.
    pub open spec fn has_request(self, i: int, day: int, slot: int) -> bool {
        0 <= i < self.table.len() && 0 <= day < self.table[i].1.requests.len() && 0 <= slot
            < self.table[i].1.requests[day].len()
    }

    pub open spec fn availability(self, i: int, day: int, slot: int) -> RequestAvailability {
        self.table[i].1.requests[day][slot].availability
    }
}

/// Every request used in `a` still exists, and is still used, in `b`.
pub open spec fn used_kept(a: CharactersView, b: CharactersView) -> bool {
    forall|i: int, day: int, slot: int|
        #![trigger a.availability(i, day, slot)]
        a.has_request(i, day, slot) && a.availability(i, day, slot).used ==> b.has_request(
            i,
            day,
            slot,
        ) && b.availability(i, day, slot).used
}

/// `b` is `a` with, at most, some `filtered` flags changed.
pub open spec fn only_filtered_changed(a: CharactersView, b: CharactersView) -> bool {
    &&& a.table.len() == b.table.len()
    &&& a.current_key == b.current_key
    &&& forall|i: int|
        0 <= i < a.table.len() ==> {
            let (ka, ca) = #[trigger] a.table[i];
            let (kb, cb) = b.table[i];
            &&& ka == kb
            &&& ca.name == cb.name
            &&& ca.class == cb.class
            &&& ca.sprite_path == cb.sprite_path
            &&& ca.current_request == cb.current_request
            &&& ca.requests.len() == cb.requests.len()
            &&& forall|day: int|
                0 <= day < ca.requests.len() ==> {
                    &&& (#[trigger] ca.requests[day]).len() == cb.requests[day].len()
                    &&& forall|slot: int|
                        0 <= slot < ca.requests[day].len() ==> {
                            let ra = #[trigger] ca.requests[day][slot];
                            cb.requests[day][slot] == ra.with_availability(
                                RequestAvailability {
                                    filtered: cb.requests[day][slot].availability.filtered,
                                    ..ra.availability
                                },
                            )
                        }
                }
        }
}

pub proof fn lemma_only_filtered_refl(a: CharactersView)
    ensures
        only_filtered_changed(a, a),
{
    assert forall|i: int, day: int, slot: int|
        0 <= i < a.table.len() && 0 <= day < a.table[i].1.requests.len() && 0 <= slot
            < a.table[i].1.requests[day].len() implies a.table[i].1.requests[day][slot]
        == a.table[i].1.requests[day][slot].with_availability(
        RequestAvailability {
            filtered: a.table[i].1.requests[day][slot].availability.filtered,
            ..a.table[i].1.requests[day][slot].availability
        },
    ) by {}
}

pub proof fn lemma_only_filtered_trans(a: CharactersView, b: CharactersView, c: CharactersView)
    requires
        only_filtered_changed(a, b),
        only_filtered_changed(b, c),
    ensures
        only_filtered_changed(a, c),
{
    assert forall|i: int| 0 <= i < a.table.len() implies {
        let (ka, ca) = #[trigger] a.table[i];
        let (kc, cc) = c.table[i];
        &&& ka == kc
        &&& ca.name == cc.name
        &&& ca.class == cc.class
        &&& ca.sprite_path == cc.sprite_path
        &&& ca.current_request == cc.current_request
        &&& ca.requests.len() == cc.requests.len()
        &&& forall|day: int|
            0 <= day < ca.requests.len() ==> {
                &&& (#[trigger] ca.requests[day]).len() == cc.requests[day].len()
                &&& forall|slot: int|
                    0 <= slot < ca.requests[day].len() ==> {
                        let ra = #[trigger] ca.requests[day][slot];
                        cc.requests[day][slot] == ra.with_availability(
                            RequestAvailability {
                                filtered: cc.requests[day][slot].availability.filtered,
                                ..ra.availability
                            },
                        )
                    }
            }
    } by {
        let ca = a.table[i].1;
        let cb = b.table[i].1;
        let cc = c.table[i].1;
        assert forall|day: int| 0 <= day < ca.requests.len() implies {
            &&& (#[trigger] ca.requests[day]).len() == cc.requests[day].len()
            &&& forall|slot: int|
                0 <= slot < ca.requests[day].len() ==> {
                    let ra = #[trigger] ca.requests[day][slot];
                    cc.requests[day][slot] == ra.with_availability(
                        RequestAvailability {
                            filtered: cc.requests[day][slot].availability.filtered,
                            ..ra.availability
                        },
                    )
                }
        } by {
            assert(cb.requests[day] == b.table[i].1.requests[day]);
            assert forall|slot: int| 0 <= slot < ca.requests[day].len() implies {
                let ra = #[trigger] ca.requests[day][slot];
                cc.requests[day][slot] == ra.with_availability(
                    RequestAvailability {
                        filtered: cc.requests[day][slot].availability.filtered,
                        ..ra.availability
                    },
                )
            } by {
                assert(cb.requests[day][slot] == b.table[i].1.requests[day][slot]);
            }
        }
    }
}

/// Changing only `filtered` flags keeps every `used` flag.
pub proof fn lemma_only_filtered_keeps_used(a: CharactersView, b: CharactersView)
    requires
        only_filtered_changed(a, b),
    ensures
        used_kept(a, b),
{
    assert forall|i: int, day: int, slot: int|
        a.has_request(i, day, slot) && #[trigger] a.availability(i, day, slot).used implies b.has_request(
        i,
        day,
        slot,
    ) && b.availability(i, day, slot).used by {}
}

/// Changing only `filtered` flags keeps where every key is found.
pub proof fn lemma_only_filtered_keeps_find(a: CharactersView, b: CharactersView, key: Seq<char>)
    requires
        only_filtered_changed(a, b),
    ensures
        a.find(key) == b.find(key),
{
    assert forall|i: int| 0 <= i < a.table.len() implies #[trigger] a.table[i].0 == b.table[i].0 by {}
    lemma_find_same_keys(a, b, key, a.table.len() as int);
}

pub proof fn lemma_used_kept_trans(a: CharactersView, b: CharactersView, c: CharactersView)
    requires
        used_kept(a, b),
        used_kept(b, c),
    ensures
        used_kept(a, c),
{
    assert forall|i: int, day: int, slot: int|
        a.has_request(i, day, slot) && #[trigger] a.availability(i, day, slot).used implies c.has_request(
        i,
        day,
        slot,
    ) && c.availability(i, day, slot).used by {
        assert(b.availability(i, day, slot).used);
    }
}

/// Marking one request used, whatever else changes of that petitioner but
/// its requests, keeps every `used` flag.
pub proof fn lemma_used_kept_mark(v: CharactersView, i: int, day: int, slot: int, w: CharactersView)
    requires
        v.has_request(i, day, slot),
        w.table.len() == v.table.len(),
        forall|j: int| 0 <= j < v.table.len() && j != i ==> #[trigger] w.table[j] == v.table[j],
        w.table[i].1.requests == v.table[i].1.with_availability(
            day,
            slot,
            RequestAvailability { used: true, ..v.table[i].1.requests[day][slot].availability },
        ).requests,
    ensures
        used_kept(v, w),
{
    assert forall|j: int, d: int, sl: int|
        v.has_request(j, d, sl) && #[trigger] v.availability(j, d, sl).used implies w.has_request(
        j,
        d,
        sl,
    ) && w.availability(j, d, sl).used by {
        if j != i {
            assert(w.table[j] == v.table[j]);
        } else if d == day {
            assert(w.table[i].1.requests[d] == v.table[i].1.requests[d].update(
                slot,
                v.table[i].1.requests[d][slot].with_availability(
                    RequestAvailability { used: true, ..v.table[i].1.requests[day][slot].availability },
                ),
            ));
        } else {
            assert(w.table[i].1.requests[d] == v.table[i].1.requests[d]);
        }
    }
}

pub proof fn lemma_find_same_keys(a: CharactersView, b: CharactersView, key: Seq<char>, n: int)
    requires
        a.table.len() == b.table.len(),
        n <= a.table.len(),
        forall|i: int| 0 <= i < a.table.len() ==> #[trigger] a.table[i].0 == b.table[i].0,
    ensures
        a.find_below(key, n) == b.find_below(key, n),
    decreases n,
{
    if n > 0 {
        lemma_find_same_keys(a, b, key, n - 1);
    }
}

pub proof fn lemma_find_below(v: CharactersView, key: Seq<char>, n: int)
    requires
        n <= v.table.len(),
    ensures
        v.find_below(key, n) matches Some(i) ==> 0 <= i < n && v.table[i].0 == key && forall|
            j: int,
        |
            0 <= j < i ==> v.table[j].0 != key,
        v.find_below(key, n) is None ==> forall|j: int| 0 <= j < n ==> v.table[j].0 != key,
    decreases n,
{
    if n > 0 {
        lemma_find_below(v, key, n - 1);
    }
}

pub proof fn lemma_find_stable(v: CharactersView, key: Seq<char>, n: int, m: int)
    requires
        0 <= n <= m,
        v.find_below(key, n) is Some,
    ensures
        v.find_below(key, m) == v.find_below(key, n),
    decreases m,
{
    if m > n {
        lemma_find_stable(v, key, n, m - 1);
    }
}

pub proof fn lemma_candidates_below(v: CharactersView, pool: Pool, day: int, n: int)
    requires
        n <= usize::MAX,
    ensures
        forall|k: int|
            0 <= k < v.candidates_below(pool, day, n).len() ==> {
                let i = #[trigger] v.candidates_below(pool, day, n)[k] as int;
                0 <= i < n && v.is_candidate(i, pool, day)
            },
        forall|i: int|
            0 <= i < n && v.is_candidate(i, pool, day) ==> v.candidates_below(
                pool,
                day,
                n,
            ).contains(i as usize),
    decreases n,
{
    if n > 0 {
        lemma_candidates_below(v, pool, day, n - 1);
        let p = v.candidates_below(pool, day, n - 1);
        if v.is_candidate(n - 1, pool, day) {
            assert(p.push((n - 1) as usize)[p.len() as int] == (n - 1) as usize);
            assert forall|i: int| 0 <= i < n && v.is_candidate(i, pool, day) implies v.candidates_below(
                pool,
                day,
                n,
            ).contains(i as usize) by {
                if i < n - 1 {
                    let k = choose|k: int| 0 <= k < p.len() && p[k] == i as usize;
                    assert(p.push((n - 1) as usize)[k] == i as usize);
                } else {
                    assert(p.push((n - 1) as usize)[p.len() as int] == i as usize);
                }
            }
        }
    }
}

impl Characters {
    /// An empty catalog with nobody presented.
    pub fn new() -> (r: Characters)
        ensures
            r@.table.len() == 0,
            r@.current_key.is_none(),
    {
        Characters { table: Vec::new(), current_key: None }
    }

    /// The index of the petitioner under `key`.
    pub fn find(&self, key: &str) -> (r: Option<usize>)
        ensures
            r matches Some(i) ==> self@.find(key@) == Some(i as int),
            r is None ==> self@.find(key@) is None,
            r matches Some(i) ==> i < self@.table.len() && self@.table[i as int].0 == key@,
    {
        let k = key.to_owned();
        let mut i: usize = 0;
        while i < self.table.len()
            invariant
                i <= self.table@.len(),
                k@ == key@,
                self@.find_below(key@, i as int) is None,
            decreases self.table@.len() - i,
        {
            if self.table[i].0 == k {
                proof {
                    lemma_find_stable(self@, key@, i as int + 1, self@.table.len() as int);
                }
                return Some(i);
            }
            i = i + 1;
        }
        None
    }

    /// Puts `character` under `key`, in place of the one there, if any.
    pub fn insert(&mut self, key: String, character: Character)
        ensures
            final(self)@.current_key == old(self)@.current_key,
            match old(self)@.find(key@) {
                Some(i) => final(self)@.table == old(self)@.table.update(i, (key@, character@)),
                None => final(self)@.table == old(self)@.table.push((key@, character@)),
            },
    {
        proof {
            lemma_find_below(self@, key@, self@.table.len() as int);
        }
        match self.find(key.as_str()) {
            Some(i) => {
                self.table.set(i, (key, character));
                proof {
                    assert(self@.table =~= old(self)@.table.update(i as int, (key@, character@)));
                }
            },
            None => {
                self.table.push((key, character));
                proof {
                    assert(self@.table =~= old(self)@.table.push((key@, character@)));
                }
            },
        }
    }

    fn in_pool(&self, i: usize, pool: Pool, dream: &String) -> (r: bool)
        requires
            i < self@.table.len(),
            dream@ == DREAM_KEY@,
        ensures
            r == self@.in_pool(i as int, pool),
    {
        let k = &self.table[i].0;
        match pool {
            Pool::Court => {
                let current = match &self.current_key {
                    Some(c) => *k == *c,
                    None => false,
                };
                !(*k == *dream) && !current
            },
            Pool::Dream => *k == *dream,
        }
    }

    /// The indices of the petitioners that may be presented on `day` from
    /// `pool`, in increasing order.
    pub fn candidates(&self, pool: Pool, day: usize) -> (r: Vec<usize>)
        ensures
            r@ == self@.candidates(pool, day as int),
    {
        let dream = DREAM_KEY.to_owned();
        let mut r: Vec<usize> = Vec::new();
        let mut i: usize = 0;
        while i < self.table.len()
            invariant
                i <= self.table@.len(),
                dream@ == DREAM_KEY@,
                r@ == self@.candidates_below(pool, day as int, i as int),
            decreases self.table@.len() - i,
        {
            if self.in_pool(i, pool, &dream) && self.table[i].1.eligible_requests(day).len() > 0 {
                r.push(i);
            }
            i = i + 1;
        }
        r
    }

    /// Sets the `filtered` flag of the request at `slot` of `day` of the
    /// petitioner under `key`; does nothing where there is no such request.
    pub fn set_filtered(&mut self, key: &str, day: usize, slot: usize, v: bool)
        ensures
            final(self)@ == old(self)@.with_filtered(key@, day as int, slot as int, v),
    {
        if let Some(i) = self.find(key) {
            if day < self.table[i].1.requests.len() && slot < self.table[i].1.requests[day].len() {
                self.table[i].1.requests[day][slot].availability.filtered = v;
                proof {
                    let c = old(self)@.table[i as int].1;
                    let nc = c.with_availability(
                        day as int,
                        slot as int,
                        RequestAvailability {
                            filtered: v,
                            ..c.requests[day as int][slot as int].availability
                        },
                    );
                    assert(self@.table[i as int].1.requests =~~= nc.requests);
                    assert(self@.table =~~= old(self)@.table.update(
                        i as int,
                        (old(self)@.table[i as int].0, nc),
                    ));
                }
            }
        }
    }

    /// Petitioner `i` presents the request at `slot` of `day`, which is
    /// marked used.
    pub fn present(&mut self, i: usize, day: usize, slot: usize)
        requires
            old(self)@.has_request(i as int, day as int, slot as int),
        ensures
            final(self)@ == old(self)@.presenting(i as int, day as int, slot as int),
    {
        let key = self.table[i].0.clone();
        self.table[i].1.set_used(day, slot);
        self.current_key = Some(key);
        proof {
            assert(self@.table =~= old(self)@.presenting(i as int, day as int, slot as int).table);
        }
    }

    /// Petitioner `i` has answered the request at `slot` of `day`.
    pub fn finish_request(&mut self, i: usize, day: usize, slot: usize)
        requires
            old(self)@.has_request(i as int, day as int, slot as int),
        ensures
            final(self)@ == old(self)@.answered(i as int, day as int, slot as int),
    {
        self.table[i].1.set_used(day, slot);
        self.table[i].1.clear_request();
        proof {
            assert(self@.table =~= old(self)@.answered(i as int, day as int, slot as int).table);
        }
    }

    /// Forgets, for every petitioner, which request it is presenting.
    pub fn clear_requests(&mut self)
        ensures
            final(self)@.current_key == old(self)@.current_key,
            final(self)@.table.len() == old(self)@.table.len(),
            forall|i: int|
                0 <= i < old(self)@.table.len() ==> #[trigger] final(self)@.table[i] == (
                    old(self)@.table[i].0,
                    CharacterView { current_request: None, ..old(self)@.table[i].1 },
                ),
    {
        let mut i: usize = 0;
        while i < self.table.len()
            invariant
                i <= self.table@.len(),
                self@.current_key == old(self)@.current_key,
                self@.table.len() == old(self)@.table.len(),
                forall|j: int|
                    0 <= j < old(self)@.table.len() ==> #[trigger] self@.table[j] == if j < i {
                        (
                            old(self)@.table[j].0,
                            CharacterView { current_request: None, ..old(self)@.table[j].1 },
                        )
                    } else {
                        old(self)@.table[j]
                    },
            decreases self.table@.len() - i,
        {
            let ghost prev = self@;
            proof {
                assert(prev.table[i as int] == old(self)@.table[i as int]);
            }
            self.table[i].1.clear_request();
            proof {
                assert forall|j: int| 0 <= j < self@.table.len() && j != i implies self@.table[j]
                    == prev.table[j] by {}
                assert(self@.table[i as int] == (
                    old(self)@.table[i as int].0,
                    CharacterView { current_request: None, ..old(self)@.table[i as int].1 },
                ));
                assert forall|j: int| 0 <= j < old(self)@.table.len() implies #[trigger] self@.table[j] == if j < i + 1 {
                        (
                            old(self)@.table[j].0,
                            CharacterView { current_request: None, ..old(self)@.table[j].1 },
                        )
                    } else {
                        old(self)@.table[j]
                    } by {
                    if j != i {
                        assert(self@.table[j] == prev.table[j]);
                    }
                }
            }
            i = i + 1;
        }
    }

    /// The petitioner and slot that the rolls pick on `day` from `pool`:
    /// see `CharactersView::picked`.
    pub fn pick(&self, pool: Pool, day: usize, roll_character: usize, roll_request: usize) -> (r:
        Option<(usize, usize)>)
        ensures
            r == self@.picked(pool, day as int, roll_character as int, roll_request as int),
    {
        let c = self.candidates(pool, day);
        if c.len() == 0 {
            None
        } else {
            let i = c[roll_character % c.len()];
            proof {
                assert(self@.table.len() == self.table.len());
                lemma_candidates_below(self@, pool, day as int, self@.table.len() as int);
                assert(self@.is_candidate(i as int, pool, day as int));
            }
            let e = self.table[i].1.eligible_requests(day);
            Some((i, e[roll_request % e.len()]))
        }
    }
}

} // verus!
