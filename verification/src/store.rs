//! An in-memory hotel table with the repository operations the service
//! builds on: insert under a freshly generated id, and fetch by id. The
//! table keeps the single invariant the schema declares: every stored row
//! has an id, and no two rows share one.

use vstd::prelude::*;
use crate::analytics::{find_hotel, spec_first_hotel_match, spec_hotel_exists, spec_hotel_matches};
use crate::models::Hotel;

verus! {

/// Failure of a store operation.
#[derive(Clone, Copy, PartialEq, Eq, Structural, Debug)]
pub enum StoreError {
    /// The id to insert under is already taken.
    DuplicateId,
}

/// Relies on `uuid::Uuid::new_v4` and its `Display` form: a random
/// identifier rendered as the 36-character hyphenated text. Nothing is
/// assumed about which identifier comes back, only its length.
#[verifier::external_body]
fn fresh_id() -> (r: String)
    ensures
        r@.len() == 36,
{
    uuid::Uuid::new_v4().to_string()
}

pub struct HotelStore {
    pub hotels: Vec<Hotel>,
}

impl HotelStore {
    /// Every stored row carries an id, and no two rows share one.
    pub open spec fn wf(self) -> bool {
        &&& forall|i: int| 0 <= i < self.hotels@.len() ==> self.hotels@[i].id is Some
        &&& forall|i: int, j: int|
            0 <= i < j < self.hotels@.len() ==> self.hotels@[i].id->Some_0@
                != self.hotels@[j].id->Some_0@
    }

    pub fn new() -> (r: Self)
        ensures
            r.wf(),
            r.hotels@.len() == 0,
    {
        HotelStore { hotels: Vec::new() }
    }

    /// Whether some stored row carries the given id.
    pub fn contains_id(&self, id: &String) -> (r: bool)
        ensures
            r == spec_hotel_exists(self.hotels@, id@),
    {
        match find_hotel(&self.hotels, id) {
            Some(_) => true,
            None => false,
        }
    }

    /// Inserts a row under the given id: appended when the id is free,
    /// refused untouched when a stored row already carries it.
    pub fn insert_hotel_with_id(
        &mut self,
        id: String,
        name: String,
        location: String,
        stars: i32,
    ) -> (r: Result<(), StoreError>)
        requires
            old(self).wf(),
        ensures
            final(self).wf(),
            match r {
                Ok(()) => !spec_hotel_exists(old(self).hotels@, id@) && final(self).hotels@ == old(
                    self,
                ).hotels@.push(Hotel { id: Some(id), name, location, stars }),
                Err(e) => e == StoreError::DuplicateId && spec_hotel_exists(
                    old(self).hotels@,
                    id@,
                ) && final(self).hotels@ == old(self).hotels@,
            },
    {
        match find_hotel(&self.hotels, &id) {
            Some(_) => Err(StoreError::DuplicateId),
            None => {
                self.hotels.push(Hotel { id: Some(id), name, location, stars });
                proof {
                    assert forall|i: int, j: int|
                        0 <= i < j < self.hotels@.len() implies self.hotels@[i].id->Some_0@
                        != self.hotels@[j].id->Some_0@ by {
                        if j == self.hotels@.len() - 1 {
                            assert(!spec_hotel_matches(old(self).hotels@[i], id@));
                        }
                    }
                }
                Ok(())
            },
        }
    }

    /// Creates a hotel under a freshly generated id and returns the id.
    /// On success the new row holds exactly the given fields and the
    /// 36-character id, which no earlier row carries; the one failure is a
    /// generated id colliding with a stored 36-character one, which leaves
    /// the table untouched — so on a table holding no such id, creation
    /// always succeeds.
    pub fn create_hotel(&mut self, name: String, location: String, stars: i32) -> (r: Result<
        String,
        StoreError,
    >)
        requires
            old(self).wf(),
        ensures
            final(self).wf(),
            match r {
                Ok(id) => {
                    &&& id@.len() == 36
                    &&& !spec_hotel_exists(old(self).hotels@, id@)
                    &&& final(self).hotels@ == old(self).hotels@.push(
                        Hotel { id: Some(id), name, location, stars },
                    )
                },
                Err(e) => {
                    &&& e == StoreError::DuplicateId
                    &&& final(self).hotels@ == old(self).hotels@
                    &&& old(self).hotels@.len() > 0
                    &&& exists|s: Seq<char>|
                        s.len() == 36 && spec_hotel_exists(old(self).hotels@, s)
                },
            },
    {
        let id = fresh_id();
        let returned = id.clone();
        match self.insert_hotel_with_id(id, name, location, stars) {
            Ok(()) => Ok(returned),
            Err(e) => {
                proof {
                    assert(returned@.len() == 36 && spec_hotel_exists(
                        old(self).hotels@,
                        returned@,
                    ));
                }
                Err(e)
            },
        }
    }

    /// Fetches the row carrying the given id: `None` exactly when no
    /// stored row does.
    pub fn get_hotel(&self, id: &String) -> (r: Option<Hotel>)
        ensures
            match r {
                Some(h) => exists|j: int|
                    spec_first_hotel_match(self.hotels@, id@, j) && h == self.hotels@[j],
                None => !spec_hotel_exists(self.hotels@, id@),
            },
    {
        match find_hotel(&self.hotels, id) {
            Some(j) => Some(self.hotels[j].clone()),
            None => None,
        }
    }
}

/// Round trip of creation and lookup: after a row is inserted under a
/// fresh id, a fetch by that id meeting the lookup's contract finds
/// exactly that row, so the created hotel comes back with identical name,
/// location and stars under its non-empty generated id.
pub proof fn lemma_create_then_get(pre: Seq<Hotel>, h: Hotel, fetched: Hotel)
    requires
        h.id is Some,
        !spec_hotel_exists(pre, h.id->Some_0@),
        exists|j: int|
            spec_first_hotel_match(pre.push(h), h.id->Some_0@, j) && fetched == pre.push(h)[j],
    ensures
        fetched == h,
{
    let j = choose|j: int|
        spec_first_hotel_match(pre.push(h), h.id->Some_0@, j) && fetched == pre.push(h)[j];
    if j < pre.len() {
        assert(pre.push(h)[j] == pre[j]);
        assert(spec_hotel_matches(pre[j], h.id->Some_0@));
        assert(spec_hotel_exists(pre, h.id->Some_0@));
    }
}

} // verus!
