use vstd::prelude::*;

use crate::birthday::{Birthday, BirthdayView};
use crate::date::Date;

verus! {

/// Why a store refused a change.
#[derive(Clone, Copy, Debug, PartialEq, Eq, Structural)]
pub enum StoreError {
    /// Every identifier that a record can carry has been handed out.
    IdsExhausted,
}

/// The records of a store, in the order in which they were added, and the identifier
/// that the next record will receive.
pub struct StoreState {
    pub records: Seq<BirthdayView>,
    pub next_id: int,
}

impl StoreState {
    /// Identifiers are positive, increase along the records (so no two are equal) and
    /// stay below the one to be handed out next; every date is a calendar date.
    pub open spec fn wf(self) -> bool {
        &&& 1 <= self.next_id <= i32::MAX
        &&& forall|i: int| 0 <= i < self.records.len() ==> 1 <= #[trigger] self.records[i].id
            < self.next_id
        &&& forall|i: int, j: int|
            0 <= i < j < self.records.len() ==> self.records[i].id < self.records[j].id
        &&& forall|i: int| 0 <= i < self.records.len() ==> (#[trigger] self.records[i]).date.wf()
    }

    pub open spec fn has_id(self, id: int) -> bool {
        exists|i: int| 0 <= i < self.records.len() && #[trigger] self.records[i].id == id
    }

    /// Position of the record with identifier `id`, if there is one.
    pub open spec fn position_of(self, id: int) -> int {
        choose|i: int| 0 <= i < self.records.len() && #[trigger] self.records[i].id == id
    }

    /// The store after a record with `name` and `date` has been added.
    pub open spec fn added(self, name: Seq<char>, date: Date) -> StoreState {
        StoreState {
            records: self.records.push(BirthdayView { id: self.next_id, name, date }),
            next_id: self.next_id + 1,
        }
    }

    /// The store after the record with identifier `id`, if any, has been removed.
    pub open spec fn removed(self, id: int) -> StoreState {
        if self.has_id(id) {
            StoreState { records: self.records.remove(self.position_of(id)), next_id: self.next_id }
        } else {
            self
        }
    }
}

/// A collection of birthday records held in memory. Each record gets a fresh identifier
/// when it is added; identifiers are never reused.
pub struct BirthdayStore {
    records: Vec<Birthday>,
    next_id: i32,
}

pub(crate) fn copy_birthday(b: &Birthday) -> (r: Birthday)
    ensures
        r@ == b@,
{
    Birthday { id: b.id, name: b.name.clone(), date: b.date }
}

impl View for BirthdayStore {
    type V = StoreState;

    closed spec fn view(&self) -> StoreState {
        StoreState {
            records: self.records@.map_values(|b: Birthday| b@),
            next_id: self.next_id as int,
        }
    }
}

impl BirthdayStore {
    /// An empty store.
    pub fn new() -> (r: BirthdayStore)
        ensures
            r@.records.len() == 0,
            r@.next_id == 1,
            r@.wf(),
    {
        BirthdayStore { records: Vec::new(), next_id: 1 }
    }

    /// Adds a record with `name` and `date` under a fresh identifier.
    pub fn add(&mut self, name: String, date: Date) -> (r: Result<(), StoreError>)
        requires
            old(self)@.wf(),
            date.wf(),
        ensures
            final(self)@.wf(),
            r is Ok <==> old(self)@.next_id < i32::MAX,
            r is Ok ==> final(self)@ == old(self)@.added(name@, date),
            r is Err ==> final(self)@ == old(self)@ && r == Err::<(), StoreError>(
                StoreError::IdsExhausted,
            ),
    {
        if self.next_id == i32::MAX {
            return Err(StoreError::IdsExhausted);
        }
        let ghost before = self@;
        let id = self.next_id;
        self.records.push(Birthday { id, name, date });
        self.next_id = id + 1;
        proof {
            assert(self@.records =~= before.added(name@, date).records);
        }
        Ok(())
    }

    /// Every record, in the order in which they were added.
    pub fn get_all(&self) -> (r: Vec<Birthday>)
        ensures
            r@.map_values(|b: Birthday| b@) == self@.records,
    {
        let mut out: Vec<Birthday> = Vec::new();
        let mut i: usize = 0;
        while i < self.records.len()
            invariant
                i <= self.records@.len(),
                out@.len() == i,
                forall|k: int| 0 <= k < i ==> (#[trigger] out@[k])@ == self.records@[k]@,
            decreases self.records@.len() - i,
        {
            out.push(copy_birthday(&self.records[i]));
            i += 1;
        }
        assert(out@.map_values(|b: Birthday| b@) =~= self@.records);
        out
    }

    /// Removes the record with identifier `id` and returns it; `None`, with the store
    /// unchanged, when no record has that identifier.
    pub fn remove(&mut self, id: i32) -> (r: Option<Birthday>)
        requires
            old(self)@.wf(),
        ensures
            final(self)@.wf(),
            final(self)@ == old(self)@.removed(id as int),
            r is Some <==> old(self)@.has_id(id as int),
            r matches Some(b) ==> b@ == old(self)@.records[old(self)@.position_of(id as int)],
    {
        let ghost before = self@;
        let mut i: usize = 0;
        while i < self.records.len()
            invariant
                i <= self.records@.len(),
                self@ == before,
                before.wf(),
                before == old(self)@,
                forall|k: int| 0 <= k < i ==> #[trigger] self@.records[k].id != id,
            decreases self.records@.len() - i,
        {
            if self.records[i].id == id {
                proof {
                    assert(before.records[i as int].id == id);
                    assert(before.has_id(id as int));
                    let p = before.position_of(id as int);
                    assert(0 <= p < before.records.len() && before.records[p].id == id);
                    if p > i as int {
                        assert(before.records[i as int].id < before.records[p].id);
                    }
                    assert(p == i as int);
                    lemma_remove_then_remove_again(before, id as int);
                }
                let b = self.records.remove(i);
                proof {
                    assert(self@.records =~= before.records.remove(i as int));
                    assert(before.position_of(id as int) == i as int);
                }
                return Some(b);
            }
            i += 1;
        }
        proof {
            assert(!before.has_id(id as int));
        }
        None
    }
}

/// Adding a record, then listing the store, gives exactly one record more than before: it
/// comes last, carries the name and date that were added, and an identifier that no earlier
/// record had.
pub proof fn lemma_add_then_list(s: StoreState, name: Seq<char>, date: Date)
    requires
        s.wf(),
        date.wf(),
        s.next_id < i32::MAX,
    ensures
        s.added(name, date).wf(),
        s.added(name, date).records.len() == s.records.len() + 1,
        s.added(name, date).records.subrange(0, s.records.len() as int) == s.records,
        s.added(name, date).records.last().name == name,
        s.added(name, date).records.last().date == date,
        !s.has_id(s.added(name, date).records.last().id),
{
    let t = s.added(name, date);
    assert(t.records.subrange(0, s.records.len() as int) =~= s.records);
}

/// Removing an existing identifier takes out exactly that record and keeps the others in
/// order; removing it a second time finds nothing.
pub proof fn lemma_remove_then_remove_again(s: StoreState, id: int)
    requires
        s.wf(),
        s.has_id(id),
    ensures
        s.records[s.position_of(id)].id == id,
        s.removed(id).records == s.records.remove(s.position_of(id)),
        s.removed(id).wf(),
        !s.removed(id).has_id(id),
        s.removed(id).removed(id) == s.removed(id),
{
    let p = s.position_of(id);
    let t = s.removed(id);
    assert forall|k: int| 0 <= k < t.records.len() implies #[trigger] t.records[k].id != id by {
        if k < p {
            assert(t.records[k] == s.records[k]);
        } else {
            assert(t.records[k] == s.records[k + 1]);
        }
    }
    assert forall|i: int, j: int| 0 <= i < j < t.records.len() implies t.records[i].id
        < t.records[j].id by {
        let a = if i < p { i } else { i + 1 };
        let b = if j < p { j } else { j + 1 };
        assert(t.records[i] == s.records[a]);
        assert(t.records[j] == s.records[b]);
    }
}

} // verus!
