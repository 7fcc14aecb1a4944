//! Per-slot aggregation of accepted commitments into ordered constraint sets,
//! with the `Open -> Sealed -> Retired` life cycle of each slot.
use vstd::prelude::*;
use std::collections::HashMap;
use crate::hashing::{append_bytes, keccak, keccak_of, Hash32};
use crate::request::{append_le_u64, concat_all, le_bytes};
use crate::merkle::hash_views;

verus! {

broadcast use vstd::std_specs::hash::group_hash_axioms;

/// Where a slot stands in its life cycle.
#[derive(Clone, Copy, Debug, PartialEq, Eq, Structural)]
pub enum SlotPhase {
    Open,
    Sealed,
    Retired,
}

/// A transaction that the block of `slot` must include.
#[derive(Clone, Copy, Debug)]
pub struct Constraint {
    pub slot: u64,
    pub transaction_hash: Hash32,
    /// The constraint's position in its slot's set.
    pub position_hint: Option<usize>,
}

/// The ordered constraints of one slot.
#[derive(Clone, Debug)]
pub struct ConstraintsSet {
    pub slot: u64,
    pub constraints: Vec<Constraint>,
}

/// The digest a sealed set is signed over: the slot as eight little-endian
/// bytes, then the constrained transaction hashes in order.
pub open spec fn constraints_digest(slot: u64, hashes: Seq<Seq<u8>>) -> Seq<u8> {
    keccak_of(le_bytes(slot as nat, 8) + concat_all(hashes))
}

impl ConstraintsSet {
    /// The digest that the sidecar signs when it publishes the set.
    pub fn digest(&self) -> (r: Hash32)
        ensures
            r@ == constraints_digest(self.slot, constraint_hashes(self.constraints@)),
    {
        let ghost hashes = constraint_hashes(self.constraints@);
        let mut buf: Vec<u8> = Vec::new();
        append_le_u64(&mut buf, self.slot);
        let ghost prefix = buf@;
        let mut i: usize = 0;
        while i < self.constraints.len()
            invariant
                i <= self.constraints@.len(),
                hashes == constraint_hashes(self.constraints@),
                buf@ == prefix + concat_all(hashes.subrange(0, i as int)),
            decreases self.constraints@.len() - i,
        {
            append_bytes(&mut buf, &self.constraints[i].transaction_hash);
            i = i + 1;
            assert(hashes.subrange(0, i as int).drop_last() =~= hashes.subrange(0, i - 1));
            assert(buf@ =~= prefix + concat_all(hashes.subrange(0, i as int)));
        }
        assert(hashes.subrange(0, i as int) =~= hashes);
        keccak(buf.as_slice())
    }
}

/// What the aggregator holds for one slot: its phase, its constraints in
/// arrival order, and the tallies of what was committed.
#[derive(Clone, Debug)]
pub struct SlotState {
    pub phase: SlotPhase,
    pub constraints: Vec<Constraint>,
    pub commitments: u64,
    pub committed_gas: u64,
}

/// Per-slot resource limits.
#[derive(Clone, Copy, Debug)]
pub struct Limits {
    pub max_commitments_per_slot: u64,
    pub max_committed_gas_per_slot: u64,
}

/// The abstract state of one slot.
pub struct SlotView {
    pub phase: SlotPhase,
    pub hashes: Seq<Seq<u8>>,
    pub commitments: nat,
    pub gas: nat,
}

/// The hashes of a list of constraints, in order.
pub open spec fn constraint_hashes(cs: Seq<Constraint>) -> Seq<Seq<u8>> {
    cs.map_values(|c: Constraint| c.transaction_hash@)
}

/// Every constraint names `slot` and its own position.
pub open spec fn constraints_placed(cs: Seq<Constraint>, slot: u64) -> bool {
    forall|k: int| 0 <= k < cs.len() ==> (#[trigger] cs[k]).slot == slot && cs[k].position_hint == Some(k as usize)
}

/// The abstract state of a slot held as `st`.
pub open spec fn view_of_state(st: SlotState) -> SlotView {
    SlotView {
        phase: st.phase,
        hashes: constraint_hashes(st.constraints@),
        commitments: st.commitments as nat,
        gas: st.committed_gas as nat,
    }
}

/// A slot that holds nothing yet: open and empty.
pub open spec fn fresh_slot() -> SlotView {
    SlotView { phase: SlotPhase::Open, hashes: Seq::empty(), commitments: 0, gas: 0 }
}

/// The abstract state of `slot`.
pub open spec fn slot_view(slots: Map<u64, SlotState>, slot: u64) -> SlotView {
    if slots.contains_key(slot) {
        view_of_state(slots[slot])
    } else {
        fresh_slot()
    }
}

/// A slot after a commitment of transactions with `hashes` and total gas `gas`.
pub open spec fn after_commit(v: SlotView, hashes: Seq<Seq<u8>>, gas: nat) -> SlotView {
    SlotView { phase: SlotPhase::Open, hashes: v.hashes + hashes, commitments: v.commitments + 1, gas: v.gas + gas }
}

/// A slot after sealing: its constraints stay as they are; a retired slot stays retired.
pub open spec fn after_seal(v: SlotView) -> SlotView {
    if v.phase is Retired {
        v
    } else {
        SlotView { phase: SlotPhase::Sealed, ..v }
    }
}

/// A retired slot: it holds nothing more and takes nothing more.
pub open spec fn retired_view() -> SlotView {
    SlotView { phase: SlotPhase::Retired, hashes: Seq::empty(), commitments: 0, gas: 0 }
}

/// What happens to a slot: a commitment of transactions with the given hashes
/// and total gas that passes every check but the slot's phase, or the
/// slot's sealing deadline.
pub enum SlotEvent {
    Commit(Seq<Seq<u8>>, nat),
    Seal,
}

/// A slot after one event, as `validate` and `seal` state it: a commitment
/// is taken only while the slot is open, and is refused unchanged after.
pub open spec fn apply_event(v: SlotView, e: SlotEvent) -> SlotView {
    match e {
        SlotEvent::Commit(hashes, gas) => if v.phase is Open {
            after_commit(v, hashes, gas)
        } else {
            v
        },
        SlotEvent::Seal => after_seal(v),
    }
}

/// A slot after a sequence of events, in order.
pub open spec fn run_events(v: SlotView, events: Seq<SlotEvent>) -> SlotView
    decreases events.len(),
{
    if events.len() == 0 {
        v
    } else {
        run_events(apply_event(v, events[0]), events.drop_first())
    }
}

/// The hashes of the commitments that come before the first seal, in order.
pub open spec fn committed_before_seal(events: Seq<SlotEvent>) -> Seq<Seq<u8>>
    decreases events.len(),
{
    if events.len() == 0 {
        Seq::empty()
    } else {
        match events[0] {
            SlotEvent::Seal => Seq::empty(),
            SlotEvent::Commit(hashes, _) => hashes + committed_before_seal(events.drop_first()),
        }
    }
}

proof fn lemma_sealed_stays(v: SlotView, events: Seq<SlotEvent>)
    requires
        v.phase is Sealed,
    ensures
        run_events(v, events) == v,
    decreases events.len(),
{
    if events.len() > 0 {
        assert(apply_event(v, events[0]) == v);
        lemma_sealed_stays(v, events.drop_first());
    }
}

proof fn lemma_run_from_open(v: SlotView, events: Seq<SlotEvent>)
    requires
        v.phase is Open,
        exists|i: int| 0 <= i < events.len() && events[i] is Seal,
    ensures
        run_events(v, events).phase is Sealed,
        run_events(v, events).hashes == v.hashes + committed_before_seal(events),
    decreases events.len(),
{
    let rest = events.drop_first();
    match events[0] {
        SlotEvent::Seal => {
            lemma_sealed_stays(after_seal(v), rest);
            assert(v.hashes + Seq::<Seq<u8>>::empty() =~= v.hashes);
        },
        SlotEvent::Commit(hashes, gas) => {
            let i = choose|i: int| 0 <= i < events.len() && events[i] is Seal;
            assert(rest[i - 1] is Seal);
            lemma_run_from_open(after_commit(v, hashes, gas), rest);
            assert(v.hashes + hashes + committed_before_seal(rest) =~= v.hashes + (hashes + committed_before_seal(rest)));
        },
    }
}

/// Sealing is atomic: whatever commitments and seals a slot that holds nothing
/// yet goes through, once it has been sealed it is sealed with exactly the
/// transactions of the commitments taken before the first seal, in arrival
/// order, and nothing taken after.
pub proof fn lemma_sealing_atomic(events: Seq<SlotEvent>)
    requires
        exists|i: int| 0 <= i < events.len() && events[i] is Seal,
    ensures
        run_events(fresh_slot(), events).phase is Sealed,
        run_events(fresh_slot(), events).hashes == committed_before_seal(events),
{
    let v = fresh_slot();
    lemma_run_from_open(v, events);
    assert(v.hashes + committed_before_seal(events) =~= committed_before_seal(events));
}

/// The per-slot state of the sidecar.
pub struct Aggregator {
    pub slots: HashMap<u64, SlotState>,
}

impl Aggregator {
    /// Each slot's constraints name that slot and their positions.
    pub open spec fn wf(&self) -> bool {
        forall|s: u64| #[trigger] self.slots@.contains_key(s) ==> constraints_placed(self.slots@[s].constraints@, s)
    }

    /// An aggregator that holds no slot.
    pub fn new() -> (r: Aggregator)
        ensures
            r.wf(),
            r.slots@ == Map::<u64, SlotState>::empty(),
    {
        Aggregator { slots: HashMap::new() }
    }

    /// The phase of `slot`.
    pub fn phase(&self, slot: u64) -> (r: SlotPhase)
        ensures
            r == slot_view(self.slots@, slot).phase,
    {
        match self.slots.get(&slot) {
            Some(st) => st.phase,
            None => SlotPhase::Open,
        }
    }

    /// The commitments and the gas committed so far for `slot`.
    pub fn tallies(&self, slot: u64) -> (r: (u64, u64))
        ensures
            r.0 == slot_view(self.slots@, slot).commitments,
            r.1 == slot_view(self.slots@, slot).gas,
    {
        match self.slots.get(&slot) {
            Some(st) => (st.commitments, st.committed_gas),
            None => (0, 0),
        }
    }

    /// Appends one constraint per hash to the open `slot`, in order, and adds
    /// one commitment and `gas` to its tallies.
    pub fn commit(&mut self, slot: u64, hashes: &Vec<Hash32>, gas: u64)
        requires
            old(self).wf(),
            slot_view(old(self).slots@, slot).phase is Open,
            slot_view(old(self).slots@, slot).commitments + 1 <= u64::MAX,
            slot_view(old(self).slots@, slot).gas + gas <= u64::MAX,
        ensures
            final(self).wf(),
            slot_view(final(self).slots@, slot) == after_commit(slot_view(old(self).slots@, slot), hash_views(hashes@), gas as nat),
            forall|s: u64| s != slot ==> slot_view(#[trigger] final(self).slots@, s) == slot_view(old(self).slots@, s),
    {
        let ghost v0 = slot_view(self.slots@, slot);
        let mut st = match self.slots.remove(&slot) {
            Some(st) => st,
            None => SlotState { phase: SlotPhase::Open, constraints: Vec::new(), commitments: 0, committed_gas: 0 },
        };
        proof {
            assert(constraint_hashes(Seq::<Constraint>::empty()) =~= Seq::<Seq<u8>>::empty());
            assert(constraints_placed(Seq::<Constraint>::empty(), slot));
        }
        let ghost base = st.constraints@;
        let mut i: usize = 0;
        while i < hashes.len()
            invariant
                i <= hashes@.len(),
                constraint_hashes(base) == v0.hashes,
                constraints_placed(st.constraints@, slot),
                constraint_hashes(st.constraints@) == v0.hashes + hash_views(hashes@).subrange(0, i as int),
                st.phase == v0.phase,
                st.commitments == v0.commitments,
                st.committed_gas == v0.gas,
            decreases hashes@.len() - i,
        {
            let pos = st.constraints.len();
            let ghost prev = st.constraints@;
            let c = Constraint { slot, transaction_hash: hashes[i], position_hint: Some(pos) };
            st.constraints.push(c);
            assert(constraint_hashes(st.constraints@) =~= constraint_hashes(prev).push(hashes@[i as int]@));
            assert(hash_views(hashes@).subrange(0, i + 1) =~= hash_views(hashes@).subrange(0, i as int).push(hashes@[i as int]@));
            i = i + 1;
            assert(constraint_hashes(st.constraints@) =~= v0.hashes + hash_views(hashes@).subrange(0, i as int));
        }
        assert(hash_views(hashes@).subrange(0, i as int) =~= hash_views(hashes@));
        st.commitments = st.commitments + 1;
        st.committed_gas = st.committed_gas + gas;
        self.slots.insert(slot, st);
    }

    /// Seals `slot` and returns its constraints; a retired slot is left as it
    /// is and gives `None`. Sealing a sealed slot returns the same set again.
    pub fn seal(&mut self, slot: u64) -> (r: Option<ConstraintsSet>)
        requires
            old(self).wf(),
        ensures
            final(self).wf(),
            slot_view(final(self).slots@, slot) == after_seal(slot_view(old(self).slots@, slot)),
            forall|s: u64| s != slot ==> slot_view(#[trigger] final(self).slots@, s) == slot_view(old(self).slots@, s),
            match r {
                Some(set) => {
                    &&& !(slot_view(old(self).slots@, slot).phase is Retired)
                    &&& set.slot == slot
                    &&& constraint_hashes(set.constraints@) == slot_view(old(self).slots@, slot).hashes
                    &&& constraints_placed(set.constraints@, slot)
                },
                None => slot_view(old(self).slots@, slot).phase is Retired,
            },
    {
        let st = match self.slots.remove(&slot) {
            Some(st) => st,
            None => SlotState { phase: SlotPhase::Open, constraints: Vec::new(), commitments: 0, committed_gas: 0 },
        };
        proof {
            assert(constraint_hashes(Seq::<Constraint>::empty()) =~= Seq::<Seq<u8>>::empty());
        }
        if st.phase == SlotPhase::Retired {
            self.slots.insert(slot, st);
            proof {
                assert(slot_view(self.slots@, slot) == slot_view(old(self).slots@, slot));
            }
            return None;
        }
        let copy = copy_constraints(&st.constraints);
        let sealed = SlotState { phase: SlotPhase::Sealed, ..st };
        self.slots.insert(slot, sealed);
        Some(ConstraintsSet { slot, constraints: copy })
    }

    /// Retires `slot`: its constraints are dropped and it takes no more commitments.
    pub fn retire(&mut self, slot: u64)
        requires
            old(self).wf(),
        ensures
            final(self).wf(),
            slot_view(final(self).slots@, slot) == retired_view(),
            forall|s: u64| s != slot ==> slot_view(#[trigger] final(self).slots@, s) == slot_view(old(self).slots@, s),
    {
        self.slots.insert(slot, SlotState { phase: SlotPhase::Retired, constraints: Vec::new(), commitments: 0, committed_gas: 0 });
        proof {
            assert(constraint_hashes(Seq::<Constraint>::empty()) =~= Seq::<Seq<u8>>::empty());
        }
    }

    /// The sealed constraints of `slot`, if it is sealed.
    pub fn sealed_constraints(&self, slot: u64) -> (r: Option<ConstraintsSet>)
        requires
            self.wf(),
        ensures
            match r {
                Some(set) => {
                    &&& slot_view(self.slots@, slot).phase is Sealed
                    &&& set.slot == slot
                    &&& constraint_hashes(set.constraints@) == slot_view(self.slots@, slot).hashes
                },
                None => !(slot_view(self.slots@, slot).phase is Sealed),
            },
    {
        match self.slots.get(&slot) {
            Some(st) => {
                if st.phase == SlotPhase::Sealed {
                    Some(ConstraintsSet { slot, constraints: copy_constraints(&st.constraints) })
                } else {
                    None
                }
            },
            None => None,
        }
    }
}

/// Copies a list of constraints.
fn copy_constraints(cs: &Vec<Constraint>) -> (r: Vec<Constraint>)
    ensures
        r@ == cs@,
{
    let mut out: Vec<Constraint> = Vec::new();
    let mut j: usize = 0;
    while j < cs.len()
        invariant
            j <= cs.len(),
            out@ == cs@.subrange(0, j as int),
        decreases cs.len() - j,
    {
        out.push(cs[j]);
        j = j + 1;
        assert(out@ =~= cs@.subrange(0, j as int));
    }
    assert(cs@.subrange(0, j as int) =~= cs@);
    out
}

} // verus!
