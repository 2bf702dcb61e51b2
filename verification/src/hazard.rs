//! Hazard pointer registry (Michael, 2004).
//!
//! Hazard pointers are a lock-free reclamation scheme. The idea:
//!
//! 1. A reader, before dereferencing a pointer, **publishes** it into a
//!    per-reader hazard slot.
//! 2. Before reclaiming a retired pointer, a writer **scans** every reader's
//!    hazard slot. If anyone is currently reading the pointer, defer.
//! 3. Once no reader publishes the pointer, it is safe to free.
//!
//! This defeats the ABA problem the [`TreiberStack`](crate::TreiberStack)
//! is vulnerable to: an address cannot be reused while any thread still
//! holds it as a hazard.
//!
//! The registry is a fixed-size array of slots that threads acquire and
//! release manually. Pointers are addresses here; zero is the null pointer.
//!
//! ## Why fixed-size?
//!
//! Real hazard-pointer libraries grow the slot array dynamically. This one
//! caps at [`MAX_HAZARDS`] for simplicity; that is enough for the
//! scan-and-defer pattern.

use vstd::prelude::*;

verus! {

/// Maximum number of concurrent hazard slots. Each in-flight reader
/// of a protected pointer claims one. Bumping this is a one-line change.
pub const MAX_HAZARDS: usize = 64;

/// What a slot is used for.
#[derive(Copy, Clone, Debug, PartialEq, Eq, Structural)]
pub enum SlotState {
    /// Nobody has acquired it.
    Unused,
    /// Somebody has acquired it, and it publishes nothing.
    Idle,
    /// It publishes this pointer.
    Publishing(usize),
}

pub struct HazardRegistry {
    slots: [SlotState; MAX_HAZARDS],
}

impl View for HazardRegistry {
    type V = Seq<SlotState>;

    closed spec fn view(&self) -> Seq<SlotState> {
        self.slots@
    }
}

/// The index of the first slot from `from` on that nobody has acquired; the number of slots
/// if there is none.
pub open spec fn first_unused(slots: Seq<SlotState>, from: nat) -> nat
    decreases slots.len() - from,
{
    if from >= slots.len() {
        slots.len()
    } else if slots[from as int] is Unused {
        from
    } else {
        first_unused(slots, from + 1)
    }
}

/// Whether a slot publishes a pointer other than null.
pub open spec fn is_published(slot: SlotState) -> bool {
    slot matches SlotState::Publishing(ptr) && ptr != 0
}

/// Whether some slot publishes `ptr`.
pub open spec fn is_hazard(slots: Seq<SlotState>, ptr: usize) -> bool {
    slots.contains(SlotState::Publishing(ptr))
}

/// The pointers other than null that the slots publish, in the order of the slots.
pub open spec fn published(slots: Seq<SlotState>) -> Seq<usize> {
    slots.filter(|slot: SlotState| is_published(slot)).map_values(
        |slot: SlotState| slot->Publishing_0,
    )
}

/// The slots of a registry that nobody has acquired one of.
pub open spec fn unused_slots() -> Seq<SlotState> {
    Seq::new(MAX_HAZARDS as nat, |i: int| SlotState::Unused)
}

impl Default for HazardRegistry {
    fn default() -> (registry: Self)
        ensures
            registry@ == unused_slots(),
    {
        Self::new()
    }
}

impl HazardRegistry {
    /// A registry that nobody has acquired a slot of.
    pub fn new() -> (registry: Self)
        ensures
            registry@ == unused_slots(),
            registry@.len() == MAX_HAZARDS,
            forall|i: int| 0 <= i < MAX_HAZARDS ==> (#[trigger] registry@[i]) is Unused,
    {
        let registry = Self { slots: [SlotState::Unused;MAX_HAZARDS] };
        assert(registry@ =~= unused_slots());
        registry
    }

    /// Acquire a slot: the first one that is not in use. It publishes nothing yet.
    /// Returns `None` if all slots are in use.
    pub fn acquire(&mut self) -> (slot: Option<HazardSlot>)
        ensures
            match slot {
                Some(slot) => {
                    &&& slot@ == first_unused(old(self)@, 0)
                    &&& slot@ < MAX_HAZARDS
                    &&& final(self)@ == old(self)@.update(slot@ as int, SlotState::Idle)
                },
                None => first_unused(old(self)@, 0) == MAX_HAZARDS && final(self)@ == old(self)@,
            },
    {
        let mut idx: usize = 0;
        while idx < MAX_HAZARDS
            invariant
                idx <= MAX_HAZARDS,
                self@ == old(self)@,
                self@.len() == MAX_HAZARDS,
                first_unused(self@, 0) == first_unused(self@, idx as nat),
            decreases MAX_HAZARDS - idx,
        {
            if self.slots[idx] == SlotState::Unused {
                self.slots[idx] = SlotState::Idle;
                assert(self@ =~= old(self)@.update(idx as int, SlotState::Idle));
                return Some(HazardSlot { idx });
            }
            idx = idx + 1;
        }
        None
    }

    /// Returns `true` iff some slot is currently publishing `ptr` as a
    /// hazard. Reclaimers call this on a retired pointer before freeing.
    pub fn is_hazarded(&self, ptr: usize) -> (hazarded: bool)
        ensures
            hazarded == is_hazard(self@, ptr),
            hazarded <==> exists|i: int|
                0 <= i < self@.len() && #[trigger] self@[i] == SlotState::Publishing(ptr),
    {
        let mut idx: usize = 0;
        while idx < MAX_HAZARDS
            invariant
                idx <= MAX_HAZARDS,
                self@.len() == MAX_HAZARDS,
                forall|k: int| 0 <= k < idx ==> self@[k] != SlotState::Publishing(ptr),
            decreases MAX_HAZARDS - idx,
        {
            if self.slots[idx] == SlotState::Publishing(ptr) {
                assert(self@[idx as int] == SlotState::Publishing(ptr));
                return true;
            }
            idx = idx + 1;
        }
        false
    }

    /// What the slot at `idx` publishes, if it publishes anything but null.
    pub fn published_at(&self, idx: usize) -> (ptr: Option<usize>)
        requires
            idx < MAX_HAZARDS,
        ensures
            ptr == (if is_published(self@[idx as int]) {
                Some(self@[idx as int]->Publishing_0)
            } else {
                None
            }),
            ptr matches Some(p) ==> p != 0 && self@[idx as int] == SlotState::Publishing(p),
            ptr is None ==> self@[idx as int] is Unused || self@[idx as int] is Idle
                || self@[idx as int] == SlotState::Publishing(0),
    {
        match self.slots[idx] {
            SlotState::Publishing(ptr) => if ptr != 0 {
                Some(ptr)
            } else {
                None
            },
            _ => None,
        }
    }

    /// Every registry has [`MAX_HAZARDS`] slots.
    pub proof fn has_all_slots(&self)
        ensures
            self@.len() == MAX_HAZARDS,
    {
    }

    /// Snapshot of currently-hazarded pointers. Useful for batch retirement
    /// where the reclaimer scans the whole hazard table once.
    pub fn snapshot(&self) -> (ptrs: Vec<usize>)
        ensures
            ptrs@ == published(self@),
    {
        let mut out: Vec<usize> = Vec::new();
        let mut idx: usize = 0;
        proof {
            published_slot_by_slot(self@, 0);
        }
        while idx < MAX_HAZARDS
            invariant
                idx <= MAX_HAZARDS,
                self@.len() == MAX_HAZARDS,
                out@ == published(self@.take(idx as int)),
            decreases MAX_HAZARDS - idx,
        {
            if let Some(ptr) = self.published_at(idx) {
                out.push(ptr);
            }
            proof {
                published_slot_by_slot(self@, idx as int);
            }
            idx = idx + 1;
        }
        assert(self@.take(idx as int) =~= self@);
        out
    }
}

/// Ownership of one slot in a [`HazardRegistry`]. It is given back with
/// [`release`](Self::release); one that merely goes out of scope stays acquired.
pub struct HazardSlot {
    idx: usize,
}

impl View for HazardSlot {
    type V = nat;

    /// The index of the slot.
    closed spec fn view(&self) -> nat {
        self.idx as nat
    }
}

impl HazardSlot {
    /// Whether this is a slot of `registry`, and acquired.
    pub open spec fn belongs_to(&self, registry: &HazardRegistry) -> bool {
        self@ < registry@.len() && !(registry@[self@ as int] is Unused)
    }

    /// Publish `ptr` as a hazard for this slot. Subsequent calls
    /// to [`HazardRegistry::is_hazarded`] with this pointer return `true`
    /// until [`clear`](Self::clear) is called.
    pub fn protect(&self, registry: &mut HazardRegistry, ptr: usize)
        requires
            self.belongs_to(old(registry)),
        ensures
            final(registry)@ == old(registry)@.update(self@ as int, SlotState::Publishing(ptr)),
    {
        registry.slots[self.idx] = SlotState::Publishing(ptr);
        assert(registry@ =~= old(registry)@.update(self@ as int, SlotState::Publishing(ptr)));
    }

    /// Publish nothing.
    pub fn clear(&self, registry: &mut HazardRegistry)
        requires
            self.belongs_to(old(registry)),
        ensures
            final(registry)@ == old(registry)@.update(self@ as int, SlotState::Idle),
    {
        registry.slots[self.idx] = SlotState::Idle;
        assert(registry@ =~= old(registry)@.update(self@ as int, SlotState::Idle));
    }

    pub fn idx(&self) -> (idx: usize)
        ensures
            idx == self@,
    {
        self.idx
    }

    /// Give the slot back for reuse. It publishes nothing any more.
    pub fn release(self, registry: &mut HazardRegistry)
        requires
            self.belongs_to(old(registry)),
        ensures
            final(registry)@ == old(registry)@.update(self@ as int, SlotState::Unused),
    {
        self.clear(registry);
        registry.slots[self.idx] = SlotState::Unused;
        assert(registry@ =~= old(registry)@.update(self@ as int, SlotState::Unused));
    }
}

/// [`first_unused`] is a slot that nobody has acquired, if there is any, and none with such a
/// slot before it.
pub proof fn first_unused_is_first(slots: Seq<SlotState>, from: nat, i: int)
    requires
        from <= slots.len(),
    ensures
        from <= first_unused(slots, from) <= slots.len(),
        first_unused(slots, from) < slots.len() ==> slots[first_unused(slots, from) as int]
            is Unused,
        from <= i < first_unused(slots, from) ==> !(slots[i] is Unused),
    decreases slots.len() - from,
{
    if from < slots.len() && !(slots[from as int] is Unused) {
        first_unused_is_first(slots, from + 1, i);
    }
}

/// Two slots acquired one after the other, with the first not given back, are different.
pub proof fn acquired_slots_are_distinct(slots: Seq<SlotState>, held: int)
    requires
        0 <= held < slots.len(),
        !(slots[held] is Unused),
    ensures
        first_unused(slots, 0) != held,
{
    first_unused_is_first(slots, 0, held);
}

/// A slot can be acquired exactly if not all are held.
pub proof fn acquire_fails_only_when_exhausted(slots: Seq<SlotState>)
    ensures
        first_unused(slots, 0) == slots.len() <==> forall|i: int|
            0 <= i < slots.len() ==> !((#[trigger] slots[i]) is Unused),
{
    first_unused_is_first(slots, 0, 0);
    let f = first_unused(slots, 0);
    if f == slots.len() {
        assert forall|i: int| 0 <= i < slots.len() implies !((#[trigger] slots[i]) is Unused) by {
            first_unused_is_first(slots, 0, i);
        }
    }
}

/// What a slot protects stays hazarded, whatever happens to other slots, until it is cleared,
/// released or made to protect something else.
pub proof fn protection_lasts(
    slots: Seq<SlotState>,
    holder: int,
    ptr: usize,
    other: int,
    put: SlotState,
)
    requires
        0 <= holder < slots.len(),
        slots[holder] == SlotState::Publishing(ptr),
        other != holder,
        0 <= other < slots.len(),
    ensures
        is_hazard(slots.update(other, put), ptr),
        slots.update(other, put)[holder] == SlotState::Publishing(ptr),
{
    assert(slots.update(other, put)[holder] == SlotState::Publishing(ptr));
}

/// Once the only slot that publishes `ptr` publishes something else, or is released, `ptr` is
/// not hazarded any more.
pub proof fn clearing_ends_protection(
    slots: Seq<SlotState>,
    holder: int,
    ptr: usize,
    put: SlotState,
)
    requires
        0 <= holder < slots.len(),
        put != SlotState::Publishing(ptr),
        forall|i: int| 0 <= i < slots.len() && i != holder ==> #[trigger] slots[i]
            != SlotState::Publishing(ptr),
    ensures
        !is_hazard(slots.update(holder, put), ptr),
{
}

/// What the slots publish is found by reading them one after the other.
pub proof fn published_slot_by_slot(slots: Seq<SlotState>, i: int)
    requires
        0 <= i < slots.len(),
    ensures
        published(slots.take(0)) == Seq::<usize>::empty(),
        published(slots.take(i + 1)) == (if is_published(slots[i]) {
            published(slots.take(i)).push(slots[i]->Publishing_0)
        } else {
            published(slots.take(i))
        }),
        published(slots.take(slots.len() as int)) == published(slots),
{
    reveal(Seq::filter);
    let longer = slots.take(i + 1);
    assert(longer.drop_last() =~= slots.take(i));
    assert(longer.last() == slots[i]);
    assert(published(longer) =~= (if is_published(slots[i]) {
        published(slots.take(i)).push(slots[i]->Publishing_0)
    } else {
        published(slots.take(i))
    }));
    assert(published(slots.take(0)) =~= Seq::<usize>::empty());
    assert(slots.take(slots.len() as int) =~= slots);
}

/// A slot that was only acquired, or was cleared, publishes nothing: it adds no hazard.
pub proof fn idle_slot_adds_no_hazard(slots: Seq<SlotState>, idx: int, ptr: usize)
    requires
        0 <= idx < slots.len(),
    ensures
        is_hazard(slots.update(idx, SlotState::Idle), ptr) ==> is_hazard(slots, ptr),
{
    let idle = slots.update(idx, SlotState::Idle);
    if is_hazard(idle, ptr) {
        let i = idle.index_of(SlotState::Publishing(ptr));
        assert(slots[i] == SlotState::Publishing(ptr));
    }
}

/// A snapshot lists exactly the hazarded pointers other than null.
pub proof fn snapshot_lists_hazards(slots: Seq<SlotState>, ptr: usize)
    ensures
        published(slots).contains(ptr) <==> ptr != 0 && is_hazard(slots, ptr),
    decreases slots.len(),
{
    reveal(Seq::filter);
    if slots.len() > 0 {
        let fewer = slots.drop_last();
        snapshot_lists_hazards(fewer, ptr);
        let was = published(fewer);
        let now = published(slots);
        if is_published(slots.last()) {
            assert(now =~= was.push(slots.last()->Publishing_0));
            assert(now.last() == slots.last()->Publishing_0);
            if was.contains(ptr) {
                assert(now[was.index_of(ptr)] == ptr);
            }
            if now.contains(ptr) && ptr != slots.last()->Publishing_0 {
                assert(was[now.index_of(ptr)] == ptr);
            }
        } else {
            assert(now =~= was);
        }
        if fewer.contains(SlotState::Publishing(ptr)) {
            assert(slots[fewer.index_of(SlotState::Publishing(ptr))] == SlotState::Publishing(ptr));
        }
        if slots.contains(SlotState::Publishing(ptr)) && slots.last() != SlotState::Publishing(ptr) {
            assert(fewer[slots.index_of(SlotState::Publishing(ptr))] == SlotState::Publishing(ptr));
        }
    } else {
        assert(published(slots) =~= Seq::empty());
    }
}

/// A pointer is hazarded, null too, exactly if the slot at some index publishes it.
pub proof fn hazard_means_published_somewhere(slots: Seq<SlotState>, ptr: usize)
    ensures
        is_hazard(slots, ptr) <==> exists|i: int|
            0 <= i < slots.len() && #[trigger] slots[i] == SlotState::Publishing(ptr),
{
}

/// A snapshot of one more slot has one more pointer, behind the others, exactly if that slot
/// publishes a pointer other than null.
pub proof fn snapshot_grows_with_the_slots(slots: Seq<SlotState>, slot: SlotState)
    ensures
        published(Seq::<SlotState>::empty()).len() == 0,
        forall|ptr: usize|
            ptr != 0 && slot == SlotState::Publishing(ptr) ==> #[trigger] published(
                slots.push(slot),
            ) == published(slots).push(ptr),
        slot == SlotState::Unused || slot == SlotState::Idle || slot == SlotState::Publishing(0)
            ==> published(slots.push(slot)) == published(slots),
{
    reveal(Seq::filter);
    let more = slots.push(slot);
    assert(more.drop_last() =~= slots);
    assert(more.last() == slot);
    assert(published(Seq::<SlotState>::empty()) =~= Seq::<usize>::empty());
    if is_published(slot) {
        assert(published(more) =~= published(slots).push(slot->Publishing_0));
    } else {
        assert(published(more) =~= published(slots));
    }
}

} // verus!
