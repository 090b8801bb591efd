//! The two immutable catalogs loaded at startup, and the query operations
//! the routes dispatch to: list all records, look one up by id, and search
//! by the fuzzy matching predicate.

use vstd::prelude::*;

use crate::matcher::fuzzy_match;
use crate::matcher::spec_fuzzy_match;

verus! {

/// One national park record.
#[derive(Debug, PartialEq, Eq)]
pub struct Park {
    pub id: u32,
    pub name: String,
    pub image: String,
    pub location: String,
    pub established: String,
    pub area: String,
    pub visitors: u32,
    pub description: String,
}

impl Clone for Park {
    fn clone(&self) -> (r: Park)
        ensures
            r == *self,
    {
        Park {
            id: self.id,
            name: self.name.clone(),
            image: self.image.clone(),
            location: self.location.clone(),
            established: self.established.clone(),
            area: self.area.clone(),
            visitors: self.visitors,
            description: self.description.clone(),
        }
    }
}

/// One record for a state that contains national parks. The three counts
/// are absent when unknown; absence is distinct from a count of zero.
#[derive(Debug, PartialEq, Eq)]
pub struct State {
    pub id: u32,
    pub state: String,
    pub total_parks: Option<u32>,
    pub exclusive_parks: Option<u32>,
    pub shared_parks: Option<u32>,
}

impl Clone for State {
    fn clone(&self) -> (r: State)
        ensures
            r == *self,
    {
        State {
            id: self.id,
            state: self.state.clone(),
            total_parks: self.total_parks,
            exclusive_parks: self.exclusive_parks,
            shared_parks: self.shared_parks,
        }
    }
}

/// The error body returned with a 404 or 500: a status word and a
/// human-readable message.
#[derive(Debug, PartialEq, Eq)]
pub struct Response {
    pub status: String,
    pub message: String,
}

impl Response {
    /// The body sent when no park has the requested id.
    pub fn park_not_found() -> (r: Response)
        ensures
            r.status@ == "error"@,
            r.message@ == "Park not found"@,
    {
        Response { status: "error".to_owned(), message: "Park not found".to_owned() }
    }

    /// The body sent when no state has the requested id.
    pub fn state_not_found() -> (r: Response)
        ensures
            r.status@ == "error"@,
            r.message@ == "State not found"@,
    {
        Response { status: "error".to_owned(), message: "State not found".to_owned() }
    }
}

/// A park is a search hit when its name or its description matches.
pub open spec fn park_matches(q: Seq<char>, p: Park) -> bool {
    spec_fuzzy_match(q, p.name@) || spec_fuzzy_match(q, p.description@)
}

/// A state is a search hit when its name matches.
pub open spec fn state_matches(q: Seq<char>, s: State) -> bool {
    spec_fuzzy_match(q, s.state@)
}

/// The parks that are search hits for `q`, in collection order.
pub open spec fn parks_matching(parks: Seq<Park>, q: Seq<char>) -> Seq<Park>
    decreases parks.len(),
{
    if parks.len() == 0 {
        Seq::empty()
    } else if park_matches(q, parks.last()) {
        parks_matching(parks.drop_last(), q).push(parks.last())
    } else {
        parks_matching(parks.drop_last(), q)
    }
}

/// The states that are search hits for `q`, in collection order.
pub open spec fn states_matching(states: Seq<State>, q: Seq<char>) -> Seq<State>
    decreases states.len(),
{
    if states.len() == 0 {
        Seq::empty()
    } else if state_matches(q, states.last()) {
        states_matching(states.drop_last(), q).push(states.last())
    } else {
        states_matching(states.drop_last(), q)
    }
}

/// Search completeness for parks: every record in the search result is a
/// hit, every hit in the collection appears in the result, and the result
/// is empty (not an error) when no record is a hit.
pub proof fn lemma_parks_search_complete(parks: Seq<Park>, q: Seq<char>)
    ensures
        forall|k: int|
            0 <= k < parks_matching(parks, q).len() ==> park_matches(
                q,
                #[trigger] parks_matching(parks, q)[k],
            ),
        forall|i: int|
            0 <= i < parks.len() && park_matches(q, #[trigger] parks[i]) ==> parks_matching(
                parks,
                q,
            ).contains(parks[i]),
        (forall|i: int| 0 <= i < parks.len() ==> !park_matches(q, #[trigger] parks[i]))
            ==> parks_matching(parks, q).len() == 0,
    decreases parks.len(),
{
    if parks.len() > 0 {
        let prefix = parks.drop_last();
        lemma_parks_search_complete(prefix, q);
        let rest = parks_matching(prefix, q);
        let full = parks_matching(parks, q);
        assert forall|k: int| 0 <= k < full.len() implies park_matches(q, full[k]) by {
            if park_matches(q, parks.last()) {
                assert(full == rest.push(parks.last()));
                if k < rest.len() {
                    assert(full[k] == rest[k]);
                } else {
                    assert(full[k] == parks.last());
                }
            } else {
                assert(full == rest);
            }
        }
        assert forall|i: int|
            0 <= i < parks.len() && park_matches(q, parks[i]) implies full.contains(
            parks[i],
        ) by {
            if i == parks.len() - 1 {
                assert(full == rest.push(parks.last()));
                assert(full[full.len() - 1] == parks[i]);
            } else {
                assert(prefix[i] == parks[i]);
                assert(rest.contains(parks[i]));
                let k = choose|k: int| 0 <= k < rest.len() && rest[k] == parks[i];
                assert(full[k] == parks[i]);
            }
        }
        if forall|i: int| 0 <= i < parks.len() ==> !park_matches(q, #[trigger] parks[i]) {
            assert forall|i: int| 0 <= i < prefix.len() implies !park_matches(
                q,
                #[trigger] prefix[i],
            ) by {
                assert(prefix[i] == parks[i]);
            }
            assert(!park_matches(q, parks.last()));
            assert(full == rest);
        }
    }
}

/// Search completeness for states, in the same three parts as for parks.
pub proof fn lemma_states_search_complete(states: Seq<State>, q: Seq<char>)
    ensures
        forall|k: int|
            0 <= k < states_matching(states, q).len() ==> state_matches(
                q,
                #[trigger] states_matching(states, q)[k],
            ),
        forall|i: int|
            0 <= i < states.len() && state_matches(q, #[trigger] states[i]) ==> states_matching(
                states,
                q,
            ).contains(states[i]),
        (forall|i: int| 0 <= i < states.len() ==> !state_matches(q, #[trigger] states[i]))
            ==> states_matching(states, q).len() == 0,
    decreases states.len(),
{
    if states.len() > 0 {
        let prefix = states.drop_last();
        lemma_states_search_complete(prefix, q);
        let rest = states_matching(prefix, q);
        let full = states_matching(states, q);
        assert forall|k: int| 0 <= k < full.len() implies state_matches(q, full[k]) by {
            if state_matches(q, states.last()) {
                assert(full == rest.push(states.last()));
                if k < rest.len() {
                    assert(full[k] == rest[k]);
                } else {
                    assert(full[k] == states.last());
                }
            } else {
                assert(full == rest);
            }
        }
        assert forall|i: int|
            0 <= i < states.len() && state_matches(q, states[i]) implies full.contains(
            states[i],
        ) by {
            if i == states.len() - 1 {
                assert(full == rest.push(states.last()));
                assert(full[full.len() - 1] == states[i]);
            } else {
                assert(prefix[i] == states[i]);
                assert(rest.contains(states[i]));
                let k = choose|k: int| 0 <= k < rest.len() && rest[k] == states[i];
                assert(full[k] == states[i]);
            }
        }
        if forall|i: int| 0 <= i < states.len() ==> !state_matches(q, #[trigger] states[i]) {
            assert forall|i: int| 0 <= i < prefix.len() implies !state_matches(
                q,
                #[trigger] prefix[i],
            ) by {
                assert(prefix[i] == states[i]);
            }
            assert(!state_matches(q, states.last()));
            assert(full == rest);
        }
    }
}

/// Some park in the collection carries this id.
pub open spec fn has_park_with_id(parks: Seq<Park>, id: u32) -> bool {
    exists|i: int| 0 <= i < parks.len() && parks[i].id == id
}

/// Some state in the collection carries this id.
pub open spec fn has_state_with_id(states: Seq<State>, id: u32) -> bool {
    exists|i: int| 0 <= i < states.len() && states[i].id == id
}

/// `i` is the position of the first park carrying `id`.
pub open spec fn first_park_with_id(parks: Seq<Park>, id: u32, i: int) -> bool {
    0 <= i < parks.len() && parks[i].id == id && forall|j: int|
        0 <= j < i ==> parks[j].id != id
}

/// `i` is the position of the first state carrying `id`.
pub open spec fn first_state_with_id(states: Seq<State>, id: u32, i: int) -> bool {
    0 <= i < states.len() && states[i].id == id && forall|j: int|
        0 <= j < i ==> states[j].id != id
}

/// There is at most one first position carrying a given id, so the record
/// a lookup returns is fully determined by the catalog and the id: repeated
/// identical lookups return identical records.
pub proof fn lemma_first_park_with_id_unique(parks: Seq<Park>, id: u32, i: int, j: int)
    requires
        first_park_with_id(parks, id, i),
        first_park_with_id(parks, id, j),
    ensures
        i == j,
{
}

/// The state-catalog counterpart of the lookup-determinism lemma.
pub proof fn lemma_first_state_with_id_unique(states: Seq<State>, id: u32, i: int, j: int)
    requires
        first_state_with_id(states, id, i),
        first_state_with_id(states, id, j),
    ensures
        i == j,
{
}

/// The two catalogs, loaded once before the server starts and never
/// mutated afterwards.
pub struct AppState {
    pub parks: Vec<Park>,
    pub states: Vec<State>,
}

impl AppState {
    /// Packages two loaded catalogs; both are kept in load order.
    pub fn new(parks: Vec<Park>, states: Vec<State>) -> (r: AppState)
        ensures
            r.parks@ == parks@,
            r.states@ == states@,
    {
        AppState { parks, states }
    }

    /// The full park catalog, in load order.
    pub fn get_all_parks(&self) -> (r: &Vec<Park>)
        ensures
            r@ == self.parks@,
    {
        &self.parks
    }

    /// The full state catalog, in load order.
    pub fn get_all_states(&self) -> (r: &Vec<State>)
        ensures
            r@ == self.states@,
    {
        &self.states
    }

    /// Linear scan for the first park whose id equals the argument; the
    /// not-found error body comes back exactly when no park carries the id.
    pub fn get_park_by_id(&self, id: u32) -> (r: Result<Park, Response>)
        ensures
            r is Ok <==> has_park_with_id(self.parks@, id),
            match r {
                Ok(p) => exists|i: int|
                    #[trigger] first_park_with_id(self.parks@, id, i) && p == self.parks@[i],
                Err(e) => e.status@ == "error"@ && e.message@ == "Park not found"@,
            },
    {
        let mut i: usize = 0;
        while i < self.parks.len()
            invariant
                i <= self.parks.len(),
                forall|j: int| 0 <= j < i ==> self.parks@[j].id != id,
            decreases self.parks.len() - i,
        {
            if self.parks[i].id == id {
                proof {
                    assert(first_park_with_id(self.parks@, id, i as int));
                }
                return Ok(self.parks[i].clone());
            }
            i += 1;
        }
        Err(Response::park_not_found())
    }

    /// Linear scan for the first state whose id equals the argument; the
    /// not-found error body comes back exactly when no state carries the id.
    pub fn get_state_by_id(&self, id: u32) -> (r: Result<State, Response>)
        ensures
            r is Ok <==> has_state_with_id(self.states@, id),
            match r {
                Ok(s) => exists|i: int|
                    #[trigger] first_state_with_id(self.states@, id, i) && s == self.states@[i],
                Err(e) => e.status@ == "error"@ && e.message@ == "State not found"@,
            },
    {
        let mut i: usize = 0;
        while i < self.states.len()
            invariant
                i <= self.states.len(),
                forall|j: int| 0 <= j < i ==> self.states@[j].id != id,
            decreases self.states.len() - i,
        {
            if self.states[i].id == id {
                proof {
                    assert(first_state_with_id(self.states@, id, i as int));
                }
                return Ok(self.states[i].clone());
            }
            i += 1;
        }
        Err(Response::state_not_found())
    }

    /// Every park whose name or description matches the query, in
    /// collection order; empty when nothing matches.
    pub fn find_parks_by_query(&self, query: &str) -> (r: Vec<Park>)
        ensures
            r@ == parks_matching(self.parks@, query@),
    {
        let mut results: Vec<Park> = Vec::new();
        let mut i: usize = 0;
        while i < self.parks.len()
            invariant
                i <= self.parks.len(),
                results@ == parks_matching(self.parks@.subrange(0, i as int), query@),
            decreases self.parks.len() - i,
        {
            let p = &self.parks[i];
            if fuzzy_match(query, p.name.as_str()) || fuzzy_match(query, p.description.as_str()) {
                results.push(p.clone());
            }
            proof {
                let pre = self.parks@.subrange(0, i as int);
                let cur = self.parks@.subrange(0, i as int + 1);
                assert(cur.drop_last() =~= pre);
                assert(cur.last() == self.parks@[i as int]);
            }
            i += 1;
        }
        proof {
            assert(self.parks@.subrange(0, self.parks@.len() as int) =~= self.parks@);
        }
        results
    }

    /// Every state whose name matches the query, in collection order;
    /// empty when nothing matches.
    pub fn find_states_by_query(&self, query: &str) -> (r: Vec<State>)
        ensures
            r@ == states_matching(self.states@, query@),
    {
        let mut results: Vec<State> = Vec::new();
        let mut i: usize = 0;
        while i < self.states.len()
            invariant
                i <= self.states.len(),
                results@ == states_matching(self.states@.subrange(0, i as int), query@),
            decreases self.states.len() - i,
        {
            let s = &self.states[i];
            if fuzzy_match(query, s.state.as_str()) {
                results.push(s.clone());
            }
            proof {
                let pre = self.states@.subrange(0, i as int);
                let cur = self.states@.subrange(0, i as int + 1);
                assert(cur.drop_last() =~= pre);
                assert(cur.last() == self.states@[i as int]);
            }
            i += 1;
        }
        proof {
            assert(self.states@.subrange(0, self.states@.len() as int) =~= self.states@);
        }
        results
    }
}

} // verus!
