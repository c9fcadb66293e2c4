//! The request store: the latest captured request of each identification.

use crate::request::{CapturedRequest, RequestView};
use vstd::hash_map::StringHashMap;
use vstd::prelude::*;

verus! {

/// A map from identification to the request captured last for it. A write
/// replaces the whole value, and nothing is ever removed.
pub struct RequestStore {
    entries: StringHashMap<CapturedRequest>,
}

impl View for RequestStore {
    type V = Map<Seq<char>, RequestView>;

    closed spec fn view(&self) -> Map<Seq<char>, RequestView> {
        Map::new(
            |id: Seq<char>| self.entries@.contains_key(id),
            |id: Seq<char>| self.entries@[id]@,
        )
    }
}

impl RequestStore {
    /// A store without entries.
    pub fn new() -> (store: Self)
        ensures
            store@ == Map::<Seq<char>, RequestView>::empty(),
    {
        let store = RequestStore { entries: StringHashMap::new() };
        assert(store@ =~= Map::<Seq<char>, RequestView>::empty());
        store
    }

    /// Records `request` as the latest value of `id`, in place of any value
    /// that was there. The other identifications keep theirs.
    pub fn upsert(&mut self, id: &str, request: CapturedRequest)
        ensures
            final(self)@ == old(self)@.insert(id@, request@),
    {
        self.entries.insert(id.to_owned(), request);
        assert(self@ =~= old(self)@.insert(id@, request@));
    }

    /// A copy of the latest value of `id`, or `None` where nothing was ever
    /// recorded for it.
    pub fn get(&self, id: &str) -> (found: Option<CapturedRequest>)
        ensures
            match found {
                Some(request) => self@.contains_key(id@) && request@ == self@[id@],
                None => !self@.contains_key(id@),
            },
    {
        match self.entries.get(id) {
            Some(request) => Some(request.clone()),
            None => None,
        }
    }

    /// Whether a value was ever recorded for `id`.
    pub fn contains(&self, id: &str) -> (present: bool)
        ensures
            present == self@.contains_key(id@),
    {
        self.entries.contains_key(id)
    }
}

} // verus!
