//! The `slab` crate's collection as the benchmarks use it: a store of byte blocks
//! under integer keys.
//!
//! Nothing in this file is proved: each function states what the crate's source shows
//! of one of its methods, and the patterns are verified against these statements.

use slab::Slab;
use vstd::prelude::*;

verus! {

/// `slab::Slab`, of which nothing is seen here but through the functions below.
#[verifier::external_type_specification]
#[verifier::external_body]
#[verifier::reject_recursive_types(T)]
pub struct ExSlab<T>(Slab<T>);

/// The blocks that a slab holds, by key.
pub uninterp spec fn slab_blocks(slab: Slab<Vec<u8>>) -> Map<int, Seq<u8>>;

/// The number of slots that a slab has made use of so far, the vacant ones included.
pub uninterp spec fn slab_slots(slab: Slab<Vec<u8>>) -> nat;

/// The keys of the vacant slots of a slab, in the order in which the slab takes them
/// for new blocks: the one released last comes first.
pub uninterp spec fn slab_vacant(slab: Slab<Vec<u8>>) -> Seq<int>;

/// The key under which a slab stores the next block: that of the vacant slot released
/// last, or, where no slot is vacant, that of one slot more.
pub open spec fn slab_next_key(slab: Slab<Vec<u8>>) -> int {
    if slab_vacant(slab).len() > 0 {
        slab_vacant(slab)[0]
    } else {
        slab_slots(slab) as int
    }
}

/// The number of slots below which a slab takes one more. The slab keeps its slots in
/// a vector, which cannot grow beyond `isize::MAX` bytes; a slot for a block takes no
/// more than 32 bytes and a vector at most doubles, so this many slots are far from
/// that, also where addresses have 32 bits.
pub const SLOT_LIMIT: usize = 0x100_0000;

/// `Slab::new`: a slab that holds nothing and has made use of no slot.
#[verifier::external_body]
pub(crate) fn slab_new() -> (fresh: Slab<Vec<u8>>)
    ensures
        slab_blocks(fresh).dom() =~= Set::<int>::empty(),
        slab_slots(fresh) == 0,
        slab_vacant(fresh) =~= Seq::<int>::empty(),
{
    Slab::new()
}

/// `Slab::with_capacity`: a slab that holds nothing and has made use of no slot, with
/// room for `capacity` slots.
#[verifier::external_body]
pub(crate) fn slab_with_capacity(capacity: usize) -> (fresh: Slab<Vec<u8>>)
    requires
        capacity <= SLOT_LIMIT,
    ensures
        slab_blocks(fresh).dom() =~= Set::<int>::empty(),
        slab_slots(fresh) == 0,
        slab_vacant(fresh) =~= Seq::<int>::empty(),
{
    Slab::with_capacity(capacity)
}

/// `Slab::insert`: stores `block` under the slab's next key, which held nothing, and
/// returns that key. Where a slot was vacant, the one released last is taken and is
/// vacant no more; where none was, the slab makes use of one slot more.
#[verifier::external_body]
pub(crate) fn slab_insert(slab: &mut Slab<Vec<u8>>, block: Vec<u8>) -> (key: usize)
    requires
        slab_slots(*old(slab)) < SLOT_LIMIT,
    ensures
        key == slab_next_key(*old(slab)),
        !slab_blocks(*old(slab)).dom().contains(key as int),
        slab_blocks(*final(slab)) == slab_blocks(*old(slab)).insert(key as int, block@),
        slab_vacant(*old(slab)).len() > 0 ==> slab_slots(*final(slab)) == slab_slots(*old(slab))
            && slab_vacant(*final(slab)) == slab_vacant(*old(slab)).drop_first(),
        slab_vacant(*old(slab)).len() == 0 ==> slab_slots(*final(slab)) == slab_slots(*old(slab))
            + 1 && slab_vacant(*final(slab)) == slab_vacant(*old(slab)),
        key < slab_slots(*final(slab)),
{
    slab.insert(block)
}

/// `Slab::remove`: takes the block under `key` out of the slab and returns it. The
/// slot stays, vacant, and is the first that the slab takes again.
#[verifier::external_body]
pub(crate) fn slab_remove(slab: &mut Slab<Vec<u8>>, key: usize) -> (block: Vec<u8>)
    requires
        slab_blocks(*old(slab)).dom().contains(key as int),
    ensures
        block@ == slab_blocks(*old(slab))[key as int],
        slab_blocks(*final(slab)) == slab_blocks(*old(slab)).remove(key as int),
        slab_slots(*final(slab)) == slab_slots(*old(slab)),
        slab_vacant(*final(slab)) == seq![key as int] + slab_vacant(*old(slab)),
{
    slab.remove(key)
}

} // verus!
