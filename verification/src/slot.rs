//! The places of a chain.
use vstd::prelude::*;

verus! {

/// A place in a chain: one plugin instance, or one for the left channel and one
/// for the right. An instance is given by its number.
#[derive(Debug, Clone, Copy, PartialEq, Eq, Structural)]
pub enum ChainSlot {
    Single(usize),
    DualMono { left: usize, right: usize },
}

impl ChainSlot {
    /// The instances, in the order in which they run.
    pub open spec fn instances(self) -> Seq<usize> {
        match self {
            ChainSlot::Single(i) => seq![i],
            ChainSlot::DualMono { left, right } => seq![left, right],
        }
    }

    /// Whether the slot holds the instance `i`.
    pub open spec fn holds(self, i: int) -> bool {
        match self {
            ChainSlot::Single(k) => k == i,
            ChainSlot::DualMono { left, right } => left == i || right == i,
        }
    }

    /// The instance that stands for the slot.
    pub open spec fn primary(self) -> usize {
        match self {
            ChainSlot::Single(i) => i,
            ChainSlot::DualMono { left, .. } => left,
        }
    }

    /// Whether all instances are among the first `n`.
    pub open spec fn within(self, n: nat) -> bool {
        match self {
            ChainSlot::Single(i) => i < n,
            ChainSlot::DualMono { left, right } => left < n && right < n,
        }
    }

    /// The instance that stands for the slot: the left one of two.
    pub fn primary_idx(&self) -> (r: usize)
        ensures
            r == self.primary(),
    {
        match *self {
            ChainSlot::Single(i) => i,
            ChainSlot::DualMono { left, right } => left,
        }
    }

    /// The instances, in the order in which they run.
    pub fn members(&self) -> (r: Vec<usize>)
        ensures
            r@ == self.instances(),
    {
        let mut r: Vec<usize> = Vec::new();
        match *self {
            ChainSlot::Single(i) => {
                r.push(i);
            },
            ChainSlot::DualMono { left, right } => {
                r.push(left);
                r.push(right);
            },
        }
        assert(r@ =~= self.instances());
        r
    }
}

/// What a slot is made of: its instances run in their order, the first stands for
/// the slot, and the slot holds them and no others.
pub proof fn slot_has_its_instances(slot: ChainSlot, i: usize)
    ensures
        slot.instances().len() == if slot is Single {
            1int
        } else {
            2int
        },
        slot matches ChainSlot::Single(k) ==> slot.instances()[0] == k,
        slot matches ChainSlot::DualMono { left, right } ==> slot.instances()[0] == left
            && slot.instances()[1] == right,
        slot.primary() == slot.instances()[0],
        slot.holds(i as int) <==> slot.instances().contains(i),
        forall|n: nat| #[trigger]
            slot.within(n) <==> (forall|k: int|
                0 <= k < slot.instances().len() ==> #[trigger] slot.instances()[k] < n),
{
    let all = slot.instances();
    assert(all.contains(all[0]));
    if slot is DualMono {
        assert(all.contains(all[1]));
    }
    assert forall|n: nat| #[trigger]
        slot.within(n) <==> (forall|k: int|
            0 <= k < slot.instances().len() ==> #[trigger] slot.instances()[k] < n) by {
        if forall|k: int| 0 <= k < all.len() ==> #[trigger] all[k] < n {
            assert(all[0] < n);
            if slot is DualMono {
                assert(all[1] < n);
            }
        }
    }
}

/// [`ChainSlot::members`] are the instances of a slot in the order in which they run, and
/// [`ChainSlot::primary_idx`] is the first of them.
pub proof fn members_of_slot_run_in_order(slot: &ChainSlot, all: Vec<usize>, first: usize)
    requires
        call_ensures(ChainSlot::members, (slot,), all),
        call_ensures(ChainSlot::primary_idx, (slot,), first),
    ensures
        *slot matches ChainSlot::Single(i) ==> all@ == seq![i] && first == i,
        *slot matches ChainSlot::DualMono { left, right } ==> all@ == seq![left, right] && first
            == left,
{
}

} // verus!
