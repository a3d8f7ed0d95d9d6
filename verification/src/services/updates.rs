//! Coalescing of per-memory updates for the front end: between two ticks only the latest
//! update of each memory is kept, and a tick announces all of them at once.

use vstd::prelude::*;

use crate::db::{has_id, ids_distinct, row_views};
use crate::models::{ItemView, MemoryItem};

verus! {

/// The pending updates after `v` arrives: it replaces the pending update of the same
/// memory, or joins the pending updates when there is none.
pub open spec fn upsert(rows: Seq<ItemView>, v: ItemView) -> Seq<ItemView> {
    if has_id(rows, v.id) {
        rows.map_values(|r: ItemView| if r.id == v.id { v } else { r })
    } else {
        rows.push(v)
    }
}

/// The pending updates after `updates` arrive in order, starting from none.
pub open spec fn pending_after(updates: Seq<ItemView>) -> Seq<ItemView>
    decreases updates.len(),
{
    if updates.len() == 0 {
        Seq::empty()
    } else {
        upsert(pending_after(updates.drop_last()), updates.last())
    }
}

/// `pending` holds one update per memory of `updates`, the latest that arrived for it.
pub open spec fn latest_per_memory(updates: Seq<ItemView>, pending: Seq<ItemView>) -> bool {
    &&& ids_distinct(pending)
    &&& forall|id: Seq<char>|
        has_id(pending, id) <==> exists|j: int| 0 <= j < updates.len() && (#[trigger] updates[j]).id == id
    &&& forall|k: int|
        0 <= k < pending.len() ==> exists|j: int|
            0 <= j < updates.len() && updates[j] == #[trigger] pending[k] && forall|j2: int|
                j < j2 < updates.len() ==> (#[trigger] updates[j2]).id != pending[k].id
}

#[verifier::spinoff_prover]
proof fn lemma_step_replace(prev: Seq<ItemView>, p0: Seq<ItemView>, v: ItemView)
    requires
        latest_per_memory(prev, p0),
        has_id(p0, v.id),
    ensures
        latest_per_memory(prev.push(v), upsert(p0, v)),
{
    let updates = prev.push(v);
    let n = prev.len() as int;
    let p = upsert(p0, v);
    assert(p.len() == p0.len());
    assert forall|j: int| 0 <= j < n implies #[trigger] updates[j] == prev[j] by {}
    assert forall|k: int| 0 <= k < p.len() implies (#[trigger] p[k]).id == p0[k].id by {}
    assert forall|id: Seq<char>|
        has_id(p, id) <==> exists|j: int| 0 <= j < updates.len() && (#[trigger] updates[j]).id == id by {
        if has_id(p, id) {
            let k = choose|k: int| 0 <= k < p.len() && (#[trigger] p[k]).id == id;
            assert(p0[k].id == id);
            assert(has_id(p0, id));
            let j = choose|j: int| 0 <= j < prev.len() && (#[trigger] prev[j]).id == id;
            assert(updates[j].id == id);
        }
        if exists|j: int| 0 <= j < updates.len() && (#[trigger] updates[j]).id == id {
            let j = choose|j: int| 0 <= j < updates.len() && (#[trigger] updates[j]).id == id;
            if j < n {
                assert(prev[j].id == id);
                assert(has_id(p0, id));
                let k = choose|k: int| 0 <= k < p0.len() && (#[trigger] p0[k]).id == id;
                assert(p[k].id == id);
            } else {
                let k = choose|k: int| 0 <= k < p0.len() && (#[trigger] p0[k]).id == v.id;
                assert(p[k].id == id);
            }
        }
    }
    assert forall|a: int, b: int| 0 <= a < p.len() && 0 <= b < p.len() && a != b implies (#[trigger] p[a]).id
        != (#[trigger] p[b]).id by {
        assert(p[a].id == p0[a].id && p[b].id == p0[b].id);
    }
    assert forall|k: int| 0 <= k < p.len() implies exists|j: int|
        0 <= j < updates.len() && updates[j] == #[trigger] p[k] && forall|j2: int|
            j < j2 < updates.len() ==> (#[trigger] updates[j2]).id != p[k].id by {
        if p0[k].id == v.id {
            assert(updates[n] == p[k]);
        } else {
            let j = choose|j: int|
                0 <= j < prev.len() && prev[j] == #[trigger] p0[k] && forall|j2: int|
                    j < j2 < prev.len() ==> (#[trigger] prev[j2]).id != p0[k].id;
            assert(updates[j] == p[k]);
            assert forall|j2: int| j < j2 < updates.len() implies (#[trigger] updates[j2]).id != p[k].id by {
                if j2 < n {
                    assert(prev[j2].id != p0[k].id);
                }
            }
        }
    }
}

#[verifier::spinoff_prover]
proof fn lemma_step_push(prev: Seq<ItemView>, p0: Seq<ItemView>, v: ItemView)
    requires
        latest_per_memory(prev, p0),
        !has_id(p0, v.id),
    ensures
        latest_per_memory(prev.push(v), upsert(p0, v)),
{
    let updates = prev.push(v);
    let n = prev.len() as int;
    let p = upsert(p0, v);
    assert(p == p0.push(v));
    assert forall|j: int| 0 <= j < n implies #[trigger] updates[j] == prev[j] by {}
    assert forall|k: int| 0 <= k < p0.len() implies #[trigger] p[k] == p0[k] by {}
    assert forall|id: Seq<char>|
        has_id(p, id) <==> exists|j: int| 0 <= j < updates.len() && (#[trigger] updates[j]).id == id by {
        if has_id(p, id) {
            let k = choose|k: int| 0 <= k < p.len() && (#[trigger] p[k]).id == id;
            if k < p0.len() {
                assert(has_id(p0, id));
                let j = choose|j: int| 0 <= j < prev.len() && (#[trigger] prev[j]).id == id;
                assert(updates[j].id == id);
            } else {
                assert(updates[n].id == id);
            }
        }
        if exists|j: int| 0 <= j < updates.len() && (#[trigger] updates[j]).id == id {
            let j = choose|j: int| 0 <= j < updates.len() && (#[trigger] updates[j]).id == id;
            if j < n {
                assert(prev[j].id == id);
                assert(has_id(p0, id));
                let k = choose|k: int| 0 <= k < p0.len() && (#[trigger] p0[k]).id == id;
                assert(p[k].id == id);
            } else {
                assert(p[p0.len() as int].id == id);
            }
        }
    }
    assert forall|a: int, b: int| 0 <= a < p.len() && 0 <= b < p.len() && a != b implies (#[trigger] p[a]).id
        != (#[trigger] p[b]).id by {
        if a == p0.len() as int {
            assert(p0[b].id != v.id);
        } else if b == p0.len() as int {
            assert(p0[a].id != v.id);
        }
    }
    assert forall|k: int| 0 <= k < p.len() implies exists|j: int|
        0 <= j < updates.len() && updates[j] == #[trigger] p[k] && forall|j2: int|
            j < j2 < updates.len() ==> (#[trigger] updates[j2]).id != p[k].id by {
        if k == p0.len() as int {
            assert(updates[n] == p[k]);
        } else {
            assert(p0[k].id != v.id);
            let j = choose|j: int|
                0 <= j < prev.len() && prev[j] == #[trigger] p0[k] && forall|j2: int|
                    j < j2 < prev.len() ==> (#[trigger] prev[j2]).id != p0[k].id;
            assert(updates[j] == p[k]);
            assert forall|j2: int| j < j2 < updates.len() implies (#[trigger] updates[j2]).id != p[k].id by {
                if j2 < n {
                    assert(prev[j2].id != p0[k].id);
                }
            }
        }
    }
}

/// Whatever updates arrive between two ticks, the tick announces one update per memory
/// that was updated, and that update is the latest that arrived for it.
pub proof fn lemma_latest_update_wins(updates: Seq<ItemView>)
    ensures
        latest_per_memory(updates, pending_after(updates)),
    decreases updates.len(),
{
    if updates.len() == 0 {
        assert forall|id: Seq<char>|
            has_id(pending_after(updates), id) <==> exists|j: int| 0 <= j < updates.len() && (#[trigger] updates[j]).id == id by {}
    } else {
        let prev = updates.drop_last();
        lemma_latest_update_wins(prev);
        assert(updates =~= prev.push(updates.last()));
        if has_id(pending_after(prev), updates.last().id) {
            lemma_step_replace(prev, pending_after(prev), updates.last());
        } else {
            lemma_step_push(prev, pending_after(prev), updates.last());
        }
    }
}

/// The updates waiting for the next tick, at most one per memory, in the order their
/// memories were first updated since the last tick.
pub struct UpdateCoalescer {
    pending: Vec<MemoryItem>,
}

impl View for UpdateCoalescer {
    type V = Seq<ItemView>;

    closed spec fn view(&self) -> Seq<ItemView> {
        row_views(self.pending@)
    }
}

fn position_of(rows: &Vec<MemoryItem>, id: &str) -> (r: Option<usize>)
    ensures
        match r {
            Some(k) => k < rows@.len() && rows@[k as int].id@ == id@,
            None => !has_id(row_views(rows@), id@),
        },
{
    let key = id.to_owned();
    let mut k: usize = 0;
    while k < rows.len()
        invariant
            k <= rows@.len(),
            key@ == id@,
            forall|j: int| 0 <= j < k ==> (#[trigger] rows@[j]).id@ != id@,
        decreases rows@.len() - k,
    {
        if rows[k].id == key {
            return Some(k);
        }
        k = k + 1;
    }
    assert(!has_id(row_views(rows@), id@)) by {
        if has_id(row_views(rows@), id@) {
            let j = choose|j: int| 0 <= j < row_views(rows@).len() && (#[trigger] row_views(rows@)[j]).id == id@;
            assert(rows@[j]@ == row_views(rows@)[j]);
        }
    }
    None
}

impl UpdateCoalescer {
    #[verifier::type_invariant]
    spec fn one_per_memory(self) -> bool {
        ids_distinct(row_views(self.pending@))
    }

    /// No update pending.
    pub fn new() -> (c: Self)
        ensures
            c@ == Seq::<ItemView>::empty(),
    {
        let c = UpdateCoalescer { pending: Vec::new() };
        assert(row_views(c.pending@) =~= Seq::<ItemView>::empty());
        c
    }

    /// An update of a memory arrives: it replaces the pending update of that memory, if any.
    pub fn memory_updated(&mut self, item: MemoryItem)
        ensures
            final(self)@ == upsert(old(self)@, item@),
    {
        proof {
            use_type_invariant(&*self);
        }
        let ghost before = self@;
        let ghost v = item@;
        let mut rows: Vec<MemoryItem> = Vec::new();
        std::mem::swap(&mut rows, &mut self.pending);
        assert(row_views(rows@) == before);
        match position_of(&rows, item.id.as_str()) {
            Some(k) => {
                assert(has_id(before, v.id)) by {
                    assert(before[k as int].id == v.id);
                }
                rows.set(k, item);
                assert(row_views(rows@) =~= before.map_values(|r: ItemView| if r.id == v.id { v } else { r })) by {
                    assert forall|j: int| 0 <= j < before.len() implies #[trigger] row_views(rows@)[j] == (if before[j].id == v.id { v } else { before[j] }) by {
                        if j != k as int && before[j].id == v.id {
                            assert(before[k as int].id == v.id);
                        }
                    }
                }
                assert(ids_distinct(row_views(rows@))) by {
                    assert forall|a: int, b: int|
                        0 <= a < rows@.len() && 0 <= b < rows@.len() && a != b implies (#[trigger] row_views(rows@)[a]).id
                            != (#[trigger] row_views(rows@)[b]).id by {
                        assert(row_views(rows@)[a].id == before[a].id);
                        assert(row_views(rows@)[b].id == before[b].id);
                    }
                }
            },
            None => {
                rows.push(item);
                assert(row_views(rows@) =~= before.push(v));
                assert(ids_distinct(row_views(rows@))) by {
                    assert forall|a: int, b: int|
                        0 <= a < rows@.len() && 0 <= b < rows@.len() && a != b implies (#[trigger] row_views(rows@)[a]).id
                            != (#[trigger] row_views(rows@)[b]).id by {
                        if a == before.len() as int {
                            assert(row_views(rows@)[b] == before[b]);
                        } else if b == before.len() as int {
                            assert(row_views(rows@)[a] == before[a]);
                        } else {
                            assert(row_views(rows@)[a] == before[a]);
                            assert(row_views(rows@)[b] == before[b]);
                        }
                    }
                }
            },
        }
        self.pending = rows;
    }

    /// A tick: every pending update is handed out, one per memory, and none stays pending.
    pub fn take_pending(&mut self) -> (r: Vec<MemoryItem>)
        ensures
            row_views(r@) == old(self)@,
            final(self)@ == Seq::<ItemView>::empty(),
    {
        let mut rows: Vec<MemoryItem> = Vec::new();
        std::mem::swap(&mut rows, &mut self.pending);
        assert(row_views(self.pending@) =~= Seq::<ItemView>::empty());
        rows
    }
}

} // verus!
