use vstd::prelude::*;

verus! {

/// A handle into an [`Arena`]: a slot index and the generation of that slot
/// at the time the handle was issued.
#[derive(Clone, Copy, PartialEq, Eq, Hash, Debug, Structural)]
pub struct Id {
    pub index: u32,
    pub generation: u32,
}

pub type SignalId = Id;

pub type NodeId = Id;

pub type ScopeId = Id;

struct ArenaEntry<T> {
    value: Option<T>,
    generation: u32,
}

/// The mathematical content of an arena: per slot its value (if occupied)
/// and its generation, and the stack of vacant slots.
pub struct ArenaModel<T> {
    pub values: Seq<Option<T>>,
    pub generations: Seq<u32>,
    pub free: Seq<u32>,
}

impl<T> ArenaModel<T> {
    /// Every slot has a generation; every index fits in a `u32`; the free
    /// stack holds each vacant slot exactly once and nothing else.
    pub open spec fn wf(self) -> bool {
        &&& self.values.len() == self.generations.len()
        &&& self.values.len() <= u32::MAX as int + 1
        &&& self.free.no_duplicates()
        &&& forall|i: int| 0 <= i < self.free.len() ==> (#[trigger] self.free[i] as int) < self.values.len()
        &&& forall|k: int|
            0 <= k < self.values.len() ==> (#[trigger] self.values[k] is None <==> self.free.contains(k as u32))
    }

    /// Inserting can name its new slot with a `u32` index.
    pub open spec fn has_room(self) -> bool {
        self.free.len() > 0 || self.values.len() <= u32::MAX as int
    }

    pub open spec fn is_live(self, id: Id) -> bool {
        &&& (id.index as int) < self.values.len()
        &&& self.values[id.index as int] is Some
        &&& self.generations[id.index as int] == id.generation
    }

    /// The values reachable by a handle.
    pub open spec fn live(self) -> Map<Id, T> {
        Map::new(|id: Id| self.is_live(id), |id: Id| self.values[id.index as int]->Some_0)
    }

    /// The handle that the next insertion issues: the most recently freed
    /// slot with its current generation, or a new slot of generation 0.
    pub open spec fn next_id(self) -> Id {
        if self.free.len() > 0 {
            Id { index: self.free.last(), generation: self.generations[self.free.last() as int] }
        } else {
            Id { index: self.values.len() as u32, generation: 0 }
        }
    }

    pub open spec fn inserted(self, value: T) -> ArenaModel<T> {
        if self.free.len() > 0 {
            ArenaModel {
                values: self.values.update(self.free.last() as int, Some(value)),
                generations: self.generations,
                free: self.free.drop_last(),
            }
        } else {
            ArenaModel {
                values: self.values.push(Some(value)),
                generations: self.generations.push(0u32),
                free: self.free,
            }
        }
    }

    /// Removing a live handle vacates its slot, bumps the slot's generation
    /// (wrapping) and pushes the slot on the free stack; any other handle
    /// leaves the arena as it is.
    pub open spec fn removed(self, id: Id) -> ArenaModel<T> {
        if self.is_live(id) {
            ArenaModel {
                values: self.values.update(id.index as int, None),
                generations: self.generations.update(id.index as int, id.generation.wrapping_add(1)),
                free: self.free.push(id.index),
            }
        } else {
            self
        }
    }

    /// The arena after the value behind a live handle is overwritten.
    pub open spec fn replaced(self, id: Id, value: T) -> ArenaModel<T> {
        if self.is_live(id) {
            ArenaModel { values: self.values.update(id.index as int, Some(value)), ..self }
        } else {
            self
        }
    }
}

/// Inserting into a well-formed arena with room keeps it well formed, issues
/// a handle that resolved to nothing before, and makes exactly that handle
/// resolve to the inserted value.
pub proof fn law_insert_adds_fresh_entry<T>(m: ArenaModel<T>, value: T)
    requires
        m.wf(),
        m.has_room(),
    ensures
        m.inserted(value).wf(),
        !m.live().contains_key(m.next_id()),
        m.inserted(value).live() == m.live().insert(m.next_id(), value),
{
    let n = m.inserted(value);
    let id = m.next_id();
    if m.free.len() > 0 {
        let i = m.free.last() as int;
        assert(m.free.contains(m.free.last()));
        assert(m.values[i] is None);
        assert forall|j: int| 0 <= j < n.free.len() implies (#[trigger] n.free[j] as int) < n.values.len() by {
            assert(n.free[j] == m.free[j]);
        }
        assert forall|k: int| 0 <= k < n.values.len() implies (#[trigger] n.values[k] is None <==> n.free.contains(k as u32)) by {
            if k == i {
                if n.free.contains(k as u32) {
                    let j = choose|j: int| 0 <= j < n.free.len() && n.free[j] == k as u32;
                    assert(m.free[j] == m.free[m.free.len() - 1]);
                }
            } else {
                if m.free.contains(k as u32) {
                    let j = choose|j: int| 0 <= j < m.free.len() && m.free[j] == k as u32;
                    assert(j != m.free.len() - 1);
                    assert(n.free[j] == k as u32);
                }
                if n.free.contains(k as u32) {
                    let j = choose|j: int| 0 <= j < n.free.len() && n.free[j] == k as u32;
                    assert(m.free[j] == k as u32);
                }
            }
        }
        assert(n.wf());
    } else {
        assert forall|k: int| 0 <= k < n.values.len() implies (#[trigger] n.values[k] is None <==> n.free.contains(k as u32)) by {
            if k < m.values.len() {
                assert(n.values[k] == m.values[k]);
            } else {
                assert(!n.free.contains(k as u32));
            }
        }
        assert(n.wf());
    }
    assert(n.live() =~= m.live().insert(id, value));
}

/// Removing a handle keeps the arena well formed; a live handle's entry
/// leaves the arena and nothing else changes, and any other handle leaves the
/// arena exactly as it was.
pub proof fn law_remove_drops_entry<T>(m: ArenaModel<T>, id: Id)
    requires
        m.wf(),
    ensures
        m.removed(id).wf(),
        m.live().contains_key(id) ==> m.removed(id).live() == m.live().remove(id),
        !m.live().contains_key(id) ==> m.removed(id) == m,
{
    if m.is_live(id) {
        let n = m.removed(id);
        let i = id.index as int;
        assert(!m.free.contains(id.index));
        assert forall|a: int, b: int| 0 <= a < b < n.free.len() implies n.free[a] != n.free[b] by {
            if b == n.free.len() - 1 {
                assert(m.free[a] != id.index);
            }
        }
        assert forall|j: int| 0 <= j < n.free.len() implies (#[trigger] n.free[j] as int) < n.values.len() by {
            if j < m.free.len() {
                assert(n.free[j] == m.free[j]);
            }
        }
        assert forall|k: int| 0 <= k < n.values.len() implies (#[trigger] n.values[k] is None <==> n.free.contains(k as u32)) by {
            if k == i {
                assert(n.free[n.free.len() - 1] == k as u32);
            } else {
                if m.free.contains(k as u32) {
                    let j = choose|j: int| 0 <= j < m.free.len() && m.free[j] == k as u32;
                    assert(n.free[j] == k as u32);
                }
                if n.free.contains(k as u32) {
                    let j = choose|j: int| 0 <= j < n.free.len() && n.free[j] == k as u32;
                    assert(j < m.free.len());
                    assert(m.free[j] == k as u32);
                }
            }
        }
        assert(n.wf());
        assert forall|x: Id| n.is_live(x) <==> (m.is_live(x) && x != id) by {
            if x.index == id.index && m.is_live(x) {
                assert(x.generation == id.generation);
            }
        }
        assert(n.live() =~= m.live().remove(id));
    }
}

/// Removing the handle that was just issued gives back the arena's previous
/// content.
pub proof fn law_remove_undoes_insert<T>(m: ArenaModel<T>, value: T)
    requires
        m.wf(),
        m.has_room(),
    ensures
        m.inserted(value).removed(m.next_id()).live() == m.live(),
{
    law_insert_adds_fresh_entry(m, value);
    law_remove_drops_entry(m.inserted(value), m.next_id());
    assert(m.inserted(value).live().contains_key(m.next_id()));
    assert(m.live().insert(m.next_id(), value).remove(m.next_id()) =~= m.live());
}

/// Once a live handle is removed, the next insertion reuses its slot under
/// the following generation, so the stale handle is not issued again.
pub proof fn law_reused_slot_gets_new_generation<T>(m: ArenaModel<T>, id: Id)
    requires
        m.wf(),
        m.live().contains_key(id),
    ensures
        m.removed(id).next_id() == (Id { index: id.index, generation: id.generation.wrapping_add(1) }),
        m.removed(id).next_id() != id,
{
    assert(m.is_live(id));
}

/// A handle whose slot has moved on to another generation does not start
/// resolving again when something is inserted.
pub proof fn law_stale_handle_stays_dead<T>(m: ArenaModel<T>, id: Id, value: T)
    requires
        m.wf(),
        m.has_room(),
        (id.index as int) < m.values.len(),
        m.generations[id.index as int] != id.generation,
    ensures
        !m.inserted(value).live().contains_key(id),
{
}

/// A well-formed arena only resolves handles whose index names an existing
/// slot.
pub proof fn law_live_handles_are_in_bounds<T>(m: ArenaModel<T>, id: Id)
    requires
        m.wf(),
        m.live().contains_key(id),
    ensures
        (id.index as int) < m.values.len(),
        m.values[id.index as int] == Some(m.live()[id]),
{
}

/// Overwriting the value behind a handle keeps the arena well formed and
/// changes only that handle's value; a dead handle changes nothing.
pub proof fn law_replace_writes_one_value<T>(m: ArenaModel<T>, id: Id, value: T)
    requires
        m.wf(),
    ensures
        m.replaced(id, value).wf(),
        m.replaced(id, value).generations == m.generations,
        m.replaced(id, value).live() == (if m.live().contains_key(id) { m.live().insert(id, value) } else { m.live() }),
{
    if m.is_live(id) {
        let n = m.replaced(id, value);
        assert forall|k: int| 0 <= k < n.values.len() implies (#[trigger] n.values[k] is None <==> n.free.contains(k as u32)) by {
            if k != id.index as int {
                assert(n.values[k] == m.values[k]);
            }
        }
        assert forall|x: Id| n.is_live(x) <==> m.is_live(x) by {
            if x.index == id.index {
                assert(n.values[x.index as int] is Some);
            }
        }
        assert(n.live() =~= m.live().insert(id, value));
    }
}

/// Inserting leaves every other handle as it was: live with the same value,
/// or dead.
pub proof fn law_insert_leaves_other_handles<T>(m: ArenaModel<T>, value: T, id: Id)
    requires
        m.wf(),
        m.has_room(),
        id != m.next_id(),
    ensures
        m.inserted(value).live().contains_key(id) == m.live().contains_key(id),
        m.live().contains_key(id) ==> m.inserted(value).live()[id] == m.live()[id],
{
    law_insert_adds_fresh_entry(m, value);
}

/// A handle whose slot exists under another generation is not the one the
/// next insertion issues.
pub proof fn law_moved_on_handle_is_not_issued<T>(m: ArenaModel<T>, id: Id)
    requires
        m.wf(),
        m.has_room(),
        (id.index as int) < m.values.len(),
        m.generations[id.index as int] != id.generation,
    ensures
        m.next_id() != id,
{
    if m.free.len() > 0 {
        assert(m.free[m.free.len() - 1] == m.free.last());
    }
}

/// One operation on an arena.
pub enum ArenaOp<T> {
    Insert(T),
    Remove(Id),
    Write(Id, T),
}

pub open spec fn step<T>(m: ArenaModel<T>, op: ArenaOp<T>) -> ArenaModel<T> {
    match op {
        ArenaOp::Insert(v) => m.inserted(v),
        ArenaOp::Remove(id) => m.removed(id),
        ArenaOp::Write(id, v) => m.replaced(id, v),
    }
}

/// The arena after the operations, in order.
pub open spec fn run<T>(m: ArenaModel<T>, ops: Seq<ArenaOp<T>>) -> ArenaModel<T>
    decreases ops.len(),
{
    if ops.len() == 0 {
        m
    } else {
        step(run(m, ops.drop_last()), ops.last())
    }
}

/// Every insertion of the operations finds room.
pub open spec fn runnable<T>(m: ArenaModel<T>, ops: Seq<ArenaOp<T>>) -> bool
    decreases ops.len(),
{
    if ops.len() == 0 {
        true
    } else {
        runnable(m, ops.drop_last()) && (ops.last() is Insert ==> run(m, ops.drop_last()).has_room())
    }
}

/// The handle that the operation at position `k` issues, if it inserts.
pub open spec fn issued<T>(m: ArenaModel<T>, ops: Seq<ArenaOp<T>>, k: int) -> Id {
    run(m, ops.take(k)).next_id()
}

pub open spec fn inserted_at<T>(m: ArenaModel<T>, ops: Seq<ArenaOp<T>>, id: Id, k: int) -> bool {
    0 <= k < ops.len() && ops[k] is Insert && issued(m, ops, k) == id
}

/// No operation after position `k` removes `id`.
pub open spec fn survives<T>(ops: Seq<ArenaOp<T>>, id: Id, k: int) -> bool {
    forall|j: int| k < j < ops.len() ==> #[trigger] ops[j] != ArenaOp::<T>::Remove(id)
}

/// The value last given to `id` since its insertion at position `k`: the
/// inserted value, or that of the latest write through `id` after it.
pub open spec fn latest_value<T>(ops: Seq<ArenaOp<T>>, id: Id, k: int) -> T
    decreases ops.len(),
{
    if ops.len() == 0 || ops.len() - 1 == k {
        ops[k]->Insert_0
    } else {
        match ops.last() {
            ArenaOp::Write(w, v) => if w == id {
                v
            } else {
                latest_value(ops.drop_last(), id, k)
            },
            _ => latest_value(ops.drop_last(), id, k),
        }
    }
}

pub open spec fn is_empty_model<T>(m: ArenaModel<T>) -> bool {
    m.values.len() == 0 && m.generations.len() == 0 && m.free.len() == 0
}

/// Running operations keeps an arena well formed.
pub proof fn law_run_keeps_wf<T>(m: ArenaModel<T>, ops: Seq<ArenaOp<T>>)
    requires
        m.wf(),
        runnable(m, ops),
    ensures
        run(m, ops).wf(),
    decreases ops.len(),
{
    if ops.len() > 0 {
        law_run_keeps_wf(m, ops.drop_last());
        let p = run(m, ops.drop_last());
        match ops.last() {
            ArenaOp::Insert(v) => law_insert_adds_fresh_entry(p, v),
            ArenaOp::Remove(id) => law_remove_drops_entry(p, id),
            ArenaOp::Write(id, v) => law_replace_writes_one_value(p, id, v),
        }
    }
}

proof fn lemma_prefix_facts<T>(m: ArenaModel<T>, ops: Seq<ArenaOp<T>>, id: Id, k: int)
    requires
        ops.len() > 0,
        0 <= k < ops.len() - 1,
    ensures
        ops.drop_last()[k] == ops[k],
        issued(m, ops.drop_last(), k) == issued(m, ops, k),
        inserted_at(m, ops.drop_last(), id, k) == inserted_at(m, ops, id, k),
        survives(ops, id, k) == (survives(ops.drop_last(), id, k) && ops.last() != ArenaOp::<T>::Remove(id)),
{
    assert(ops.drop_last().take(k) =~= ops.take(k));
    if survives(ops.drop_last(), id, k) && ops.last() != ArenaOp::<T>::Remove(id) {
        assert forall|j: int| k < j < ops.len() implies #[trigger] ops[j] != ArenaOp::<T>::Remove(id) by {
            if j < ops.len() - 1 {
                assert(ops.drop_last()[j] == ops[j]);
            }
        }
    }
    if survives(ops, id, k) {
        assert forall|j: int| k < j < ops.drop_last().len() implies #[trigger] ops.drop_last()[j] != ArenaOp::<T>::Remove(id) by {
            assert(ops.drop_last()[j] == ops[j]);
        }
        assert(ops[ops.len() - 1] == ops.last());
    }
}

/// What `get` gives after a history of operations on a new arena: a handle
/// resolves exactly when some insertion issued it and no later operation
/// removed it, and then to the value last given to it, by that insertion or
/// by a later write through it.
pub proof fn law_handle_history<T>(m: ArenaModel<T>, ops: Seq<ArenaOp<T>>, id: Id)
    requires
        is_empty_model(m),
        runnable(m, ops),
    ensures
        run(m, ops).live().contains_key(id) <==> exists|k: int| #[trigger] inserted_at(m, ops, id, k) && survives(ops, id, k),
        forall|k: int| #[trigger] inserted_at(m, ops, id, k) && survives(ops, id, k) ==> run(m, ops).live()[id] == latest_value(ops, id, k),
    decreases ops.len(),
{
    assert(m.wf());
    if ops.len() == 0 {
        assert(!m.is_live(id));
    } else {
        let prev = ops.drop_last();
        let n = ops.len() - 1;
        law_handle_history(m, prev, id);
        law_run_keeps_wf(m, prev);
        let p = run(m, prev);
        assert(ops.take(n) =~= prev);
        assert(ops[n] == ops.last());
        assert forall|k: int| 0 <= k < n implies (#[trigger] inserted_at(m, ops, id, k) && survives(ops, id, k)) == (inserted_at(m, prev, id, k) && survives(prev, id, k) && ops.last() != ArenaOp::<T>::Remove(id)) by {
            lemma_prefix_facts(m, ops, id, k);
        }
        match ops.last() {
            ArenaOp::Insert(v) => {
                law_insert_adds_fresh_entry(p, v);
                let nid = p.next_id();
                assert(issued(m, ops, n) == nid);
                if run(m, ops).live().contains_key(id) {
                    if id == nid {
                        assert(inserted_at(m, ops, id, n) && survives(ops, id, n));
                    } else {
                        let k = choose|k: int| #[trigger] inserted_at(m, prev, id, k) && survives(prev, id, k);
                        assert(inserted_at(m, ops, id, k) && survives(ops, id, k));
                    }
                }
                assert forall|k: int| #[trigger] inserted_at(m, ops, id, k) && survives(ops, id, k) implies run(m, ops).live().contains_key(id)
                    && run(m, ops).live()[id] == latest_value(ops, id, k) by {
                    if k < n {
                        assert(inserted_at(m, prev, id, k) && survives(prev, id, k));
                        assert(id != nid);
                    }
                }
            },
            ArenaOp::Remove(r) => {
                law_remove_drops_entry(p, r);
                if id == r {
                    assert forall|k: int| !(#[trigger] inserted_at(m, ops, id, k) && survives(ops, id, k)) by {
                        if 0 <= k < n {
                            assert(ops[n] == ArenaOp::<T>::Remove(id));
                        }
                    }
                } else {
                    if run(m, ops).live().contains_key(id) {
                        let k = choose|k: int| #[trigger] inserted_at(m, prev, id, k) && survives(prev, id, k);
                        assert(inserted_at(m, ops, id, k) && survives(ops, id, k));
                    }
                    assert forall|k: int| #[trigger] inserted_at(m, ops, id, k) && survives(ops, id, k) implies run(m, ops).live().contains_key(id)
                        && run(m, ops).live()[id] == latest_value(ops, id, k) by {
                        assert(k < n);
                        assert(inserted_at(m, prev, id, k) && survives(prev, id, k));
                    }
                }
            },
            ArenaOp::Write(w, v) => {
                law_replace_writes_one_value(p, w, v);
                if run(m, ops).live().contains_key(id) {
                    let k = choose|k: int| #[trigger] inserted_at(m, prev, id, k) && survives(prev, id, k);
                    assert(inserted_at(m, ops, id, k) && survives(ops, id, k));
                }
                assert forall|k: int| #[trigger] inserted_at(m, ops, id, k) && survives(ops, id, k) implies run(m, ops).live().contains_key(id)
                    && run(m, ops).live()[id] == latest_value(ops, id, k) by {
                    assert(k < n);
                    assert(inserted_at(m, prev, id, k) && survives(prev, id, k));
                }
            },
        }
    }
}

/// The removals of the operations after position `j` that vacate slot
/// `idx`.
pub open spec fn frees_after<T>(m: ArenaModel<T>, ops: Seq<ArenaOp<T>>, idx: u32, j: int) -> nat
    decreases ops.len(),
{
    if ops.len() == 0 || ops.len() <= j + 1 {
        0
    } else {
        frees_after(m, ops.drop_last(), idx, j) + match ops.last() {
            ArenaOp::Remove(r) => if r.index == idx && run(m, ops.drop_last()).is_live(r) {
                1nat
            } else {
                0nat
            },
            _ => 0nat,
        }
    }
}

proof fn lemma_wrapping_step(x: u32, a: int)
    requires
        a >= 0,
        x as int == a % 0x1_0000_0000,
    ensures
        x.wrapping_add(1) as int == (a + 1) % 0x1_0000_0000,
{
}

proof fn lemma_generation_after_removal<T>(m: ArenaModel<T>, ops: Seq<ArenaOp<T>>, id: Id, j: int)
    requires
        m.wf(),
        runnable(m, ops),
        0 <= j < ops.len(),
        ops[j] == ArenaOp::<T>::Remove(id),
        run(m, ops.take(j)).is_live(id),
    ensures
        (id.index as int) < run(m, ops).values.len(),
        run(m, ops).generations[id.index as int] as int == (id.generation + 1 + frees_after(m, ops, id.index, j)) % 0x1_0000_0000,
    decreases ops.len(),
{
    let prev = ops.drop_last();
    let n = ops.len() - 1;
    law_run_keeps_wf(m, prev);
    let p = run(m, prev);
    let i = id.index as int;
    assert(ops[n] == ops.last());
    if n == j {
        assert(ops.take(j) =~= prev);
        lemma_wrapping_step(id.generation, id.generation as int);
    } else {
        assert(prev[j] == ops[j]);
        assert(prev.take(j) =~= ops.take(j));
        lemma_generation_after_removal(m, prev, id, j);
        let a = id.generation + 1 + frees_after(m, prev, id.index, j);
        match ops.last() {
            ArenaOp::Insert(v) => {
                assert(run(m, ops).generations[i] == p.generations[i]);
            },
            ArenaOp::Remove(r) => {
                if r.index == id.index && p.is_live(r) {
                    lemma_wrapping_step(p.generations[i], a);
                }
            },
            ArenaOp::Write(w, v) => {},
        }
    }
}

/// A removed handle stays dead, and is not issued again, for as long as its
/// slot has not been vacated often enough for its generation to wrap round
/// to the handle's: `j` is the removal, and the slot is vacated fewer than
/// `u32::MAX` times after it.
pub proof fn law_removed_handle_stays_dead<T>(m: ArenaModel<T>, ops: Seq<ArenaOp<T>>, id: Id, j: int)
    requires
        m.wf(),
        runnable(m, ops),
        0 <= j < ops.len(),
        ops[j] == ArenaOp::<T>::Remove(id),
        run(m, ops.take(j)).live().contains_key(id),
        frees_after(m, ops, id.index, j) < u32::MAX,
    ensures
        !run(m, ops).live().contains_key(id),
        run(m, ops).has_room() ==> run(m, ops).next_id() != id,
{
    lemma_generation_after_removal(m, ops, id, j);
    law_run_keeps_wf(m, ops);
    let f = frees_after(m, ops, id.index, j);
    assert((id.generation + 1 + f) % 0x1_0000_0000 != id.generation as int);
    if run(m, ops).has_room() {
        law_moved_on_handle_is_not_issued(run(m, ops), id);
    }
}

spec fn slot_values<T>(s: Seq<ArenaEntry<T>>) -> Seq<Option<T>> {
    s.map_values(|e: ArenaEntry<T>| e.value)
}

spec fn slot_generations<T>(s: Seq<ArenaEntry<T>>) -> Seq<u32> {
    s.map_values(|e: ArenaEntry<T>| e.generation)
}

broadcast proof fn lemma_slots_after_update<T>(s: Seq<ArenaEntry<T>>, i: int, e: ArenaEntry<T>)
    requires
        0 <= i < s.len(),
    ensures
        #[trigger] slot_values(s.update(i, e)) == slot_values(s).update(i, e.value),
        slot_generations(s.update(i, e)) == slot_generations(s).update(i, e.generation),
        e.generation == s[i].generation ==> slot_generations(s.update(i, e)) == slot_generations(s),
{
    assert(slot_values(s.update(i, e)) =~= slot_values(s).update(i, e.value));
    assert(slot_generations(s.update(i, e)) =~= slot_generations(s).update(i, e.generation));
    if e.generation == s[i].generation {
        assert(slot_generations(s.update(i, e)) =~= slot_generations(s));
    }
}

fn slot_value_mut<T>(entries: &mut Vec<ArenaEntry<T>>, i: usize) -> (r: Option<&mut T>)
    requires
        i < old(entries).len(),
    ensures
        r is Some <==> old(entries)@[i as int].value is Some,
        r is Some ==> *r.unwrap() == old(entries)@[i as int].value->Some_0,
        r is Some ==> final(entries)@ == old(entries)@.update(i as int, ArenaEntry { value: Some(*final(r.unwrap())), generation: old(entries)@[i as int].generation }),
        r is None ==> final(entries)@ == old(entries)@,
{
    let entry = &mut entries[i];
    entry.value.as_mut()
}

/// A generational arena: slots are reused after removal, and each reuse
/// carries a new generation so that old handles stop resolving.
pub struct Arena<T> {
    entries: Vec<ArenaEntry<T>>,
    free: Vec<u32>,
}

impl<T> Arena<T> {
    pub closed spec fn model(&self) -> ArenaModel<T> {
        ArenaModel {
            values: slot_values(self.entries@),
            generations: slot_generations(self.entries@),
            free: self.free@,
        }
    }

    pub open spec fn wf(&self) -> bool {
        self.model().wf()
    }

    pub fn new() -> (arena: Self)
        ensures
            arena.wf(),
            arena.model().values.len() == 0,
            arena.model().free.len() == 0,
            arena@ == Map::<Id, T>::empty(),
    {
        let arena = Arena { entries: Vec::new(), free: Vec::new() };
        assert(arena@ =~= Map::<Id, T>::empty());
        arena
    }

    /// Stores `value` in the most recently vacated slot, or in a new slot of
    /// generation 0, and returns its handle.
    pub fn insert(&mut self, value: T) -> (id: Id)
        requires
            old(self).wf(),
            old(self).model().has_room(),
        ensures
            final(self).wf(),
            id == old(self).model().next_id(),
            final(self).model() == old(self).model().inserted(value),
            !old(self)@.contains_key(id),
            final(self)@ == old(self)@.insert(id, value),
    {
        proof {
            law_insert_adds_fresh_entry(self.model(), value);
        }
        let ghost m = self.model();
        match self.free.pop() {
            Some(index) => {
                assert(m.free.contains(index));
                let generation = self.entries[index as usize].generation;
                let entry = &mut self.entries[index as usize];
                entry.value = Some(value);
                assert(self.model().values =~= m.inserted(value).values);
                assert(self.model().generations =~= m.inserted(value).generations);
                assert(self.model().free =~= m.inserted(value).free);
                Id { index, generation }
            },
            None => {
                let index = self.entries.len() as u32;
                self.entries.push(ArenaEntry { value: Some(value), generation: 0 });
                assert(self.model().values =~= m.inserted(value).values);
                assert(self.model().generations =~= m.inserted(value).generations);
                assert(self.model().free =~= m.inserted(value).free);
                Id { index, generation: 0 }
            },
        }
    }

    /// The value behind `id`, if `id` is live.
    pub fn get(&self, id: Id) -> (r: Option<&T>)
        requires
            self.wf(),
        ensures
            r == (if self@.contains_key(id) { Some(&self@[id]) } else { None }),
    {
        if id.index as usize >= self.entries.len() {
            return None;
        }
        let entry = &self.entries[id.index as usize];
        if entry.generation != id.generation {
            return None;
        }
        entry.value.as_ref()
    }

    /// Mutable access to the value behind `id`, if `id` is live; writing
    /// through it changes that value only.
    pub fn get_mut(&mut self, id: Id) -> (r: Option<&mut T>)
        requires
            old(self).wf(),
        ensures
            r is Some <==> old(self)@.contains_key(id),
            r is Some ==> *r.unwrap() == old(self)@[id],
            r is Some ==> final(self).model() == old(self).model().replaced(id, *final(r.unwrap())),
            r is Some ==> final(self)@ == old(self)@.insert(id, *final(r.unwrap())),
            r is None ==> final(self).model() == old(self).model(),
            final(self).wf(),
    {
        proof {
            broadcast use lemma_slots_after_update;
        }
        if id.index as usize >= self.entries.len() {
            return None;
        }
        if self.entries[id.index as usize].generation != id.generation {
            return None;
        }
        slot_value_mut(&mut self.entries, id.index as usize)
    }

    /// Takes the value behind `id` out of the arena if `id` is live; the slot
    /// becomes vacant under the next generation and is reused first.
    pub fn remove(&mut self, id: Id) -> (r: Option<T>)
        requires
            old(self).wf(),
        ensures
            final(self).wf(),
            final(self).model() == old(self).model().removed(id),
            r == (if old(self)@.contains_key(id) { Some(old(self)@[id]) } else { None }),
            final(self)@ == old(self)@.remove(id),
    {
        proof {
            law_remove_drops_entry(self.model(), id);
        }
        let ghost m = self.model();
        if id.index as usize >= self.entries.len() {
            return None;
        }
        let index = id.index as usize;
        if self.entries[index].generation != id.generation {
            return None;
        }
        if self.entries[index].value.is_none() {
            return None;
        }
        let entry = &mut self.entries[index];
        let value = entry.value.take();
        entry.generation = entry.generation.wrapping_add(1);
        self.free.push(id.index);
        assert(self.model().values =~= m.removed(id).values);
        assert(self.model().generations =~= m.removed(id).generations);
        assert(self.model().free =~= m.removed(id).free);
        value
    }
}

impl<T> View for Arena<T> {
    type V = Map<Id, T>;

    open spec fn view(&self) -> Map<Id, T> {
        self.model().live()
    }
}

} // verus!
