//! The store of memory records: the operations the pipeline performs on it, and an
//! in-memory table that carries them out as the `memories` table of the session database
//! does.

use vstd::prelude::*;

use crate::models::{opt_chars, ItemView, MemoryItem, ProcessingState};

verus! {

/// The operations on a session's store of memory records.
pub trait MemoryRepository {
    /// Adds a record unless one with the same id exists.
    fn insert_or_ignore_memory(&mut self, item: &MemoryItem);

    /// Sets the state and error message of the record `id`, and its extension and overlay
    /// flag where given.
    fn update_state(
        &mut self,
        id: &str,
        state: ProcessingState,
        error_message: Option<&str>,
        extension: Option<String>,
        has_overlay: Option<bool>,
    );

    /// Every record.
    fn get_all_memories(&self) -> Vec<MemoryItem>;

    /// Moves every record in state `from_state` to `to_state`.
    fn update_states(&mut self, from_state: ProcessingState, to_state: ProcessingState);

    /// Puts the record `id` back to pending, clearing its error.
    fn reset_item_state(&mut self, id: &str);
}

/// What the table keeps of a record: the stored columns; segments, aliases and the
/// thumbnail flag are not stored.
pub open spec fn stored(v: ItemView) -> ItemView {
    ItemView { segment_ids: None, candidate_ids: None, has_thumbnail: false, ..v }
}

/// The record `r` after `update_state`.
pub open spec fn updated_row(
    r: ItemView,
    state: ProcessingState,
    error_message: Option<Seq<char>>,
    extension: Option<Seq<char>>,
    has_overlay: Option<bool>,
) -> ItemView {
    ItemView {
        state,
        error_message,
        extension: match extension {
            Some(e) => Some(e),
            None => r.extension,
        },
        has_overlay: match has_overlay {
            Some(b) => b,
            None => r.has_overlay,
        },
        ..r
    }
}

/// The table after `insert_or_ignore_memory`.
pub open spec fn after_insert(rows: Seq<ItemView>, v: ItemView) -> Seq<ItemView> {
    if has_id(rows, v.id) {
        rows
    } else {
        rows.push(stored(v))
    }
}

/// The table after `update_state`.
pub open spec fn after_update(
    rows: Seq<ItemView>,
    id: Seq<char>,
    state: ProcessingState,
    error_message: Option<Seq<char>>,
    extension: Option<Seq<char>>,
    has_overlay: Option<bool>,
) -> Seq<ItemView> {
    rows.map_values(|r: ItemView| if r.id == id { updated_row(r, state, error_message, extension, has_overlay) } else { r })
}

/// The table after `update_states`.
pub open spec fn after_update_states(rows: Seq<ItemView>, from: ProcessingState, to: ProcessingState) -> Seq<ItemView> {
    rows.map_values(|r: ItemView| if r.state == from { ItemView { state: to, ..r } } else { r })
}

/// The table after `reset_item_state`.
pub open spec fn after_reset(rows: Seq<ItemView>, id: Seq<char>) -> Seq<ItemView> {
    rows.map_values(|r: ItemView| if r.id == id { ItemView { state: ProcessingState::Pending, error_message: None, ..r } } else { r })
}

pub open spec fn has_id(rows: Seq<ItemView>, id: Seq<char>) -> bool {
    exists|k: int| 0 <= k < rows.len() && (#[trigger] rows[k]).id == id
}

pub open spec fn ids_distinct(rows: Seq<ItemView>) -> bool {
    forall|a: int, b: int| 0 <= a < rows.len() && 0 <= b < rows.len() && a != b ==> (#[trigger] rows[a]).id != (#[trigger] rows[b]).id
}

pub open spec fn row_views(v: Seq<MemoryItem>) -> Seq<ItemView> {
    v.map_values(|m: MemoryItem| m@)
}

/// A record inserted and then read back: the table holds a record with its id, and when
/// the id was new, that record is the stored columns of what was inserted, at the end.
pub proof fn lemma_insert_then_read(rows: Seq<ItemView>, v: ItemView)
    ensures
        has_id(after_insert(rows, v), v.id),
        !has_id(rows, v.id) ==> after_insert(rows, v).last() == stored(v) && after_insert(rows, v).len() == rows.len() + 1,
{
    if !has_id(rows, v.id) {
        let r = after_insert(rows, v);
        assert(r[rows.len() as int].id == v.id);
    }
}

/// Inserting the same record twice is the same as inserting it once.
pub proof fn lemma_insert_idempotent(rows: Seq<ItemView>, v: ItemView)
    ensures
        after_insert(after_insert(rows, v), v) == after_insert(rows, v),
{
    lemma_insert_then_read(rows, v);
}

/// An update that gives no extension or overlay flag keeps the stored ones, and always sets
/// the state and the error message.
pub proof fn lemma_update_keeps_unset_columns(
    rows: Seq<ItemView>,
    id: Seq<char>,
    state: ProcessingState,
    error_message: Option<Seq<char>>,
    k: int,
)
    requires
        0 <= k < rows.len(),
        rows[k].id == id,
    ensures
        after_update(rows, id, state, error_message, None, None)[k] == (ItemView { state, error_message, ..rows[k] }),
{
}

/// A memory whose stored row matches it still matches it after the same change is applied
/// to both (the copy sent to the front end and the database stay in step).
pub proof fn lemma_update_keeps_copy_in_step(
    rows: Seq<ItemView>,
    k: int,
    item: ItemView,
    state: ProcessingState,
    error_message: Option<Seq<char>>,
    extension: Option<Seq<char>>,
    has_overlay: Option<bool>,
)
    requires
        0 <= k < rows.len(),
        rows[k] == stored(item),
    ensures
        after_update(rows, item.id, state, error_message, extension, has_overlay)[k] == stored(
            updated_row(item, state, error_message, extension, has_overlay),
        ),
{
}

/// After moving every record in one state to another, no record is left in the first.
pub proof fn lemma_update_states_empties_source(rows: Seq<ItemView>, from: ProcessingState, to: ProcessingState)
    requires
        from != to,
    ensures
        forall|k: int| 0 <= k < rows.len() ==> (#[trigger] after_update_states(rows, from, to)[k]).state != from,
        after_update_states(rows, from, to).len() == rows.len(),
{
}

/// A reset record is pending and has no error; the others are untouched.
pub proof fn lemma_reset_clears(rows: Seq<ItemView>, id: Seq<char>)
    ensures
        forall|k: int| 0 <= k < rows.len() && rows[k].id == id ==> {
            &&& (#[trigger] after_reset(rows, id)[k]).state == ProcessingState::Pending
            &&& after_reset(rows, id)[k].error_message is None
        },
        forall|k: int| 0 <= k < rows.len() && rows[k].id != id ==> #[trigger] after_reset(rows, id)[k] == rows[k],
{
}

fn copy_strs(v: &Option<Vec<String>>) -> (r: Option<Vec<String>>)
    ensures
        crate::models::opt_string_list(r) == crate::models::opt_string_list(*v),
{
    match v {
        Some(x) => Some(crate::pipeline::index::copy_strings(x)),
        None => None,
    }
}

fn copy_opt(s: &Option<String>) -> (r: Option<String>)
    ensures
        opt_chars(r) == opt_chars(*s),
{
    match s {
        Some(x) => Some(x.clone()),
        None => None,
    }
}

/// A copy of a record with the same contents.
pub fn copy_item(m: &MemoryItem) -> (r: MemoryItem)
    ensures
        r@ == m@,
{
    MemoryItem {
        id: m.id.clone(),
        segment_ids: copy_strs(&m.segment_ids),
        candidate_ids: copy_strs(&m.candidate_ids),
        download_url: m.download_url.clone(),
        original_date: m.original_date.clone(),
        location: copy_opt(&m.location),
        state: m.state,
        error_message: copy_opt(&m.error_message),
        extension: copy_opt(&m.extension),
        has_overlay: m.has_overlay,
        has_thumbnail: m.has_thumbnail,
        media_type: m.media_type.clone(),
    }
}

/// The stored columns of a record.
fn stored_copy(m: &MemoryItem) -> (r: MemoryItem)
    ensures
        r@ == stored(m@),
{
    let r = MemoryItem {
        id: m.id.clone(),
        segment_ids: None,
        candidate_ids: None,
        download_url: m.download_url.clone(),
        original_date: m.original_date.clone(),
        location: copy_opt(&m.location),
        state: m.state,
        error_message: copy_opt(&m.error_message),
        extension: copy_opt(&m.extension),
        has_overlay: m.has_overlay,
        has_thumbnail: false,
        media_type: m.media_type.clone(),
    };
    assert(r@ =~= stored(m@));
    r
}

/// Memory records keyed by id, in insertion order.
pub struct MemoryTable {
    rows: Vec<MemoryItem>,
}

impl View for MemoryTable {
    type V = Seq<ItemView>;

    closed spec fn view(&self) -> Seq<ItemView> {
        row_views(self.rows@)
    }
}

impl MemoryTable {
    #[verifier::type_invariant]
    spec fn keyed(self) -> bool {
        ids_distinct(row_views(self.rows@))
    }

    pub fn new() -> (t: Self)
        ensures
            t@.len() == 0,
    {
        let t = MemoryTable { rows: Vec::new() };
        assert(row_views(t.rows@) =~= Seq::<ItemView>::empty());
        t
    }

    fn find(&self, id: &str) -> (r: Option<usize>)
        ensures
            match r {
                Some(k) => k < self@.len() && self@[k as int].id == id@,
                None => !has_id(self@, id@),
            },
    {
        let key = id.to_owned();
        let mut k: usize = 0;
        while k < self.rows.len()
            invariant
                k <= self.rows@.len(),
                key@ == id@,
                forall|j: int| 0 <= j < k ==> (#[trigger] self.rows@[j]).id@ != id@,
            decreases self.rows@.len() - k,
        {
            if self.rows[k].id == key {
                return Some(k);
            }
            k = k + 1;
        }
        assert(!has_id(self@, id@)) by {
            if has_id(self@, id@) {
                let j = choose|j: int| 0 <= j < self@.len() && (#[trigger] self@[j]).id == id@;
                assert(self.rows@[j]@ == self@[j]);
            }
        }
        None
    }

    /// Records whose state is `state`, in table order.
    pub fn get_memories_by_state(&self, state: ProcessingState) -> (r: Vec<MemoryItem>)
        ensures
            row_views(r@) == self@.filter(|v: ItemView| v.state == state),
    {
        let mut r: Vec<MemoryItem> = Vec::new();
        let mut k: usize = 0;
        assert(self@.take(0).filter(|v: ItemView| v.state == state) =~= Seq::<ItemView>::empty());
        while k < self.rows.len()
            invariant
                k <= self.rows@.len(),
                row_views(r@) == self@.take(k as int).filter(|v: ItemView| v.state == state),
            decreases self.rows@.len() - k,
        {
            let ghost before = row_views(r@);
            proof {
                assert(self@.take(k + 1).drop_last() =~= self@.take(k as int));
                assert(self@[k as int] == self.rows@[k as int]@);
                reveal(Seq::filter);
                assert(self@.take(k + 1).last() == self@[k as int]);
            }
            if self.rows[k].state == state {
                let c = copy_item(&self.rows[k]);
                r.push(c);
                assert(row_views(r@) =~= before.push(c@));
            }
            k = k + 1;
        }
        assert(self@.take(self@.len() as int) =~= self@);
        r
    }
}

impl MemoryRepository for MemoryTable {
    fn insert_or_ignore_memory(&mut self, item: &MemoryItem)
        ensures
            final(self)@ == after_insert(old(self)@, item@),
    {
        proof {
            use_type_invariant(&*self);
        }
        if self.find(item.id.as_str()).is_none() {
            let ghost before = self@;
            let row = stored_copy(item);
            let mut rows: Vec<MemoryItem> = Vec::new();
            std::mem::swap(&mut rows, &mut self.rows);
            rows.push(row);
            assert(row_views(rows@) =~= before.push(stored(item@)));
            assert(ids_distinct(row_views(rows@))) by {
                assert forall|a: int, b: int|
                    0 <= a < rows@.len() && 0 <= b < rows@.len() && a != b implies (#[trigger] row_views(rows@)[a]).id
                        != (#[trigger] row_views(rows@)[b]).id by {
                    if a == before.len() as int {
                        assert(row_views(rows@)[b] == before[b]);
                    } else if b == before.len() as int {
                        assert(row_views(rows@)[a] == before[a]);
                    } else {
                        assert(row_views(rows@)[a] == before[a]);
                        assert(row_views(rows@)[b] == before[b]);
                    }
                }
            }
            self.rows = rows;
        }
    }

    fn update_state(
        &mut self,
        id: &str,
        state: ProcessingState,
        error_message: Option<&str>,
        extension: Option<String>,
        has_overlay: Option<bool>,
    )
        ensures
            final(self)@ == after_update(
                old(self)@,
                id@,
                state,
                match error_message {
                    Some(e) => Some(e@),
                    None => None,
                },
                opt_chars(extension),
                has_overlay,
            ),
            final(self)@.len() == old(self)@.len(),
            forall|k: int|
                0 <= k < old(self)@.len() ==> #[trigger] final(self)@[k] == if old(self)@[k].id == id@ {
                    updated_row(
                        old(self)@[k],
                        state,
                        match error_message {
                            Some(e) => Some(e@),
                            None => None,
                        },
                        opt_chars(extension),
                        has_overlay,
                    )
                } else {
                    old(self)@[k]
                },
    {
        proof {
            use_type_invariant(&*self);
        }
        match self.find(id) {
            Some(k) => {
                let ghost before = self@;
                let mut rows: Vec<MemoryItem> = Vec::new();
                std::mem::swap(&mut rows, &mut self.rows);
                let mut row = rows.remove(k);
                row.state = state;
                row.error_message = match error_message {
                    Some(e) => Some(e.to_owned()),
                    None => None,
                };
                if let Some(e) = extension {
                    row.extension = Some(e);
                }
                if let Some(b) = has_overlay {
                    row.has_overlay = b;
                }
                let ghost new_row = row@;
                rows.insert(k, row);
                assert(row_views(rows@) =~= before.update(k as int, new_row));
                assert forall|j: int| 0 <= j < before.len() implies #[trigger] row_views(rows@)[j] == if before[j].id == id@ {
                    updated_row(before[j], state, match error_message { Some(e) => Some(e@), None => None }, opt_chars(extension), has_overlay)
                } else {
                    before[j]
                } by {
                    if j == k as int {
                        assert(new_row =~= updated_row(before[j], state, match error_message { Some(e) => Some(e@), None => None }, opt_chars(extension), has_overlay));
                    } else {
                        assert(before[j].id != before[k as int].id);
                    }
                }
                assert(ids_distinct(row_views(rows@))) by {
                    assert forall|a: int, b: int|
                        0 <= a < rows@.len() && 0 <= b < rows@.len() && a != b implies (#[trigger] row_views(rows@)[a]).id
                            != (#[trigger] row_views(rows@)[b]).id by {
                        assert(row_views(rows@)[a].id == before[a].id);
                        assert(row_views(rows@)[b].id == before[b].id);
                    }
                }
                self.rows = rows;
            },
            None => {
                assert forall|j: int| 0 <= j < self@.len() implies self@[j].id != id@ by {
                    if self@[j].id == id@ {
                        assert(has_id(self@, id@));
                    }
                }
            },
        }
    }

    fn get_all_memories(&self) -> (r: Vec<MemoryItem>)
        ensures
            row_views(r@) == self@,
    {
        let mut r: Vec<MemoryItem> = Vec::new();
        let mut k: usize = 0;
        while k < self.rows.len()
            invariant
                k <= self.rows@.len(),
                row_views(r@) == self@.take(k as int),
            decreases self.rows@.len() - k,
        {
            let c = copy_item(&self.rows[k]);
            let ghost before = row_views(r@);
            r.push(c);
            assert(self@[k as int] == self.rows@[k as int]@);
            assert(row_views(r@) =~= before.push(c@));
            assert(self@.take(k + 1) =~= self@.take(k as int).push(self@[k as int]));
            k = k + 1;
        }
        assert(self@.take(self@.len() as int) =~= self@);
        r
    }

    fn update_states(&mut self, from_state: ProcessingState, to_state: ProcessingState)
        ensures
            final(self)@ == after_update_states(old(self)@, from_state, to_state),
            final(self)@.len() == old(self)@.len(),
            forall|k: int|
                0 <= k < old(self)@.len() ==> #[trigger] final(self)@[k] == if old(self)@[k].state == from_state {
                    ItemView { state: to_state, ..old(self)@[k] }
                } else {
                    old(self)@[k]
                },
    {
        proof {
            use_type_invariant(&*self);
        }
        let ghost before = self@;
        let mut rows: Vec<MemoryItem> = Vec::new();
        std::mem::swap(&mut rows, &mut self.rows);
        let mut out: Vec<MemoryItem> = Vec::new();
        let mut k: usize = 0;
        while rows.len() > 0
            invariant
                k <= before.len(),
                row_views(rows@) == before.skip(k as int),
                out@.len() == k,
                forall|j: int|
                    0 <= j < k ==> #[trigger] row_views(out@)[j] == if before[j].state == from_state {
                        ItemView { state: to_state, ..before[j] }
                    } else {
                        before[j]
                    },
            decreases rows@.len(),
        {
            let ghost r0 = rows@;
            let mut row = rows.remove(0);
            proof {
                assert(row_views(r0)[0] == r0[0]@);
                assert(before.skip(k as int).len() == r0.len());
                assert(row@ == before[k as int]);
                assert(row_views(rows@) =~= before.skip(k + 1)) by {
                    assert(rows@ =~= r0.subrange(1, r0.len() as int));
                    assert forall|m: int| 0 <= m < rows@.len() implies #[trigger] row_views(rows@)[m] == before.skip(k + 1)[m] by {
                        assert(rows@[m] == r0[m + 1]);
                        assert(row_views(r0)[m + 1] == before.skip(k as int)[m + 1]);
                    }
                }
            }
            if row.state == from_state {
                row.state = to_state;
            }
            let ghost ov = row_views(out@);
            out.push(row);
            assert forall|j: int| 0 <= j < k + 1 implies #[trigger] row_views(out@)[j] == if before[j].state == from_state {
                ItemView { state: to_state, ..before[j] }
            } else {
                before[j]
            } by {
                if j < k {
                    assert(row_views(out@)[j] == ov[j]);
                }
            }
            k = out.len();
        }
        assert(ids_distinct(row_views(out@))) by {
            assert forall|a: int, b: int|
                0 <= a < out@.len() && 0 <= b < out@.len() && a != b implies (#[trigger] row_views(out@)[a]).id
                    != (#[trigger] row_views(out@)[b]).id by {
                assert(row_views(out@)[a].id == before[a].id);
                assert(row_views(out@)[b].id == before[b].id);
            }
        }
        self.rows = out;
    }

    fn reset_item_state(&mut self, id: &str)
        ensures
            final(self)@ == after_reset(old(self)@, id@),
            final(self)@.len() == old(self)@.len(),
            forall|k: int|
                0 <= k < old(self)@.len() ==> #[trigger] final(self)@[k] == if old(self)@[k].id == id@ {
                    ItemView { state: ProcessingState::Pending, error_message: None, ..old(self)@[k] }
                } else {
                    old(self)@[k]
                },
    {
        proof {
            use_type_invariant(&*self);
        }
        let ghost before = self@;
        self.update_state(id, ProcessingState::Pending, None, None, None);
        assert forall|k: int| 0 <= k < before.len() implies #[trigger] self@[k] == if before[k].id == id@ {
            ItemView { state: ProcessingState::Pending, error_message: None, ..before[k] }
        } else {
            before[k]
        } by {
            if before[k].id == id@ {
                assert(self@[k] =~= ItemView { state: ProcessingState::Pending, error_message: None, ..before[k] });
            }
        }
    }
}

} // verus!
