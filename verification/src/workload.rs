//! The access patterns: the orders in which a batch of blocks is acquired and
//! released, on the heap and in a slab.

use crate::store::{
    slab_blocks, slab_insert, slab_new, slab_next_key, slab_remove, slab_slots, slab_vacant,
    SLOT_LIMIT,
};
use rand::rngs::StdRng;
use rand::Rng;
use slab::Slab;
use vstd::prelude::*;

verus! {

/// `rand::rngs::StdRng`, a generator of random numbers, of which nothing is seen here.
#[verifier::external_type_specification]
#[verifier::external_body]
pub struct ExStdRng(StdRng);

/// `std::hint::black_box`: hands its argument back, in a way that the compiler cannot
/// see through.
pub assume_specification<T>[ std::hint::black_box::<T> ](dummy: T) -> (same: T)
    ensures
        same == dummy,
;

/// `Rng::gen_range` on `0..bound`: a number below `bound`, drawn from `rng`.
#[verifier::external_body]
pub(crate) fn pick(rng: &mut StdRng, bound: usize) -> (index: usize)
    requires
        bound > 0,
    ensures
        index < bound,
{
    rng.gen_range(0..bound)
}

/// A block of `size` bytes on the heap, with nothing written to it.
pub fn block(size: usize) -> (block: Vec<u8>)
    ensures
        block@.len() == 0,
{
    Vec::with_capacity(size)
}

/// Whether the slab that held `before` holds `now` after it took the keys of
/// `held[lo..hi]` for new blocks: those keys are distinct and were vacant, they are
/// all that was added, and the blocks of `before` are as they were.
spec fn holds_also(
    now: Map<int, Seq<u8>>,
    before: Map<int, Seq<u8>>,
    held: Seq<Option<usize>>,
    lo: int,
    hi: int,
) -> bool {
    &&& forall|i: int|
        lo <= i < hi ==> (#[trigger] held[i] matches Some(key) ==> now.dom().contains(key as int)
            && !before.dom().contains(key as int))
    &&& forall|i: int, j: int|
        lo <= i < j < hi && #[trigger] held[i].is_some() && #[trigger] held[j].is_some()
            ==> held[i] != held[j]
    &&& forall|k: int| #[trigger]
        now.dom().contains(k) ==> before.dom().contains(k) || exists|i: int|
            lo <= i < hi && #[trigger] held[i] == Some(k as usize) && 0 <= k <= usize::MAX
    &&& forall|k: int| #[trigger]
        before.dom().contains(k) ==> now.dom().contains(k) && now[k] == before[k]
}

/// The keys of `keys` as a sequence of held keys.
spec fn all_held(keys: Seq<usize>) -> Seq<Option<usize>> {
    Seq::new(keys.len(), |i: int| Some(keys[i]))
}

/// A slab that holds nothing more than before holds what it held before.
proof fn lemma_holds_none(
    now: Map<int, Seq<u8>>,
    before: Map<int, Seq<u8>>,
    held: Seq<Option<usize>>,
    lo: int,
    hi: int,
)
    requires
        holds_also(now, before, held, lo, hi),
        forall|i: int| lo <= i < hi ==> held[i].is_none(),
    ensures
        now =~= before,
{
}

/// Taking a vacant key for a new block, and noting it at position `p`, keeps the
/// account: `p` is one more position behind the window, or a position in it that
/// held no key.
proof fn lemma_holds_after_insert(
    now: Map<int, Seq<u8>>,
    before: Map<int, Seq<u8>>,
    held: Seq<Option<usize>>,
    noted: Seq<Option<usize>>,
    lo: int,
    hi: int,
    p: int,
    key: usize,
    block: Seq<u8>,
)
    requires
        holds_also(now, before, held, lo, hi),
        !now.dom().contains(key as int),
        lo <= p <= hi,
        p < hi ==> held[p].is_none(),
        noted[p] == Some(key),
        forall|i: int| lo <= i < hi && i != p ==> noted[i] == held[i],
    ensures
        holds_also(
            now.insert(key as int, block),
            before,
            noted,
            lo,
            if p < hi { hi } else { hi + 1 },
        ),
{
    let next = now.insert(key as int, block);
    let top = if p < hi { hi } else { hi + 1 };
    assert forall|i: int| lo <= i < top implies (#[trigger] noted[i] matches Some(k)
        ==> next.dom().contains(k as int) && !before.dom().contains(k as int)) by {
        if i != p {
            assert(noted[i] == held[i]);
        }
    }
    assert forall|i: int, j: int|
        lo <= i < j < top && #[trigger] noted[i].is_some() && #[trigger] noted[j].is_some()
        implies noted[i] != noted[j] by {
        if i != p && j != p {
            assert(held[i].is_some() && held[j].is_some());
        } else if i == p {
            assert(noted[j] == held[j]);
        } else {
            assert(noted[i] == held[i]);
        }
    }
    assert forall|k: int| #[trigger] next.dom().contains(k) implies before.dom().contains(k)
        || exists|i: int|
        lo <= i < top && #[trigger] noted[i] == Some(k as usize) && 0 <= k <= usize::MAX by {
        if k == key as int {
            assert(noted[p] == Some(k as usize));
        } else if !before.dom().contains(k) {
            let i = choose|i: int|
                lo <= i < hi && #[trigger] held[i] == Some(k as usize) && 0 <= k <= usize::MAX;
            assert(noted[i] == Some(k as usize));
        }
    }
}

/// Releasing the key noted at position `p`, and leaving `p` out of the window or
/// without a key, keeps the account.
proof fn lemma_holds_after_remove(
    now: Map<int, Seq<u8>>,
    before: Map<int, Seq<u8>>,
    held: Seq<Option<usize>>,
    noted: Seq<Option<usize>>,
    lo: int,
    hi: int,
    left: int,
    right: int,
    p: int,
    key: usize,
)
    requires
        holds_also(now, before, held, lo, hi),
        lo <= p < hi,
        held[p] == Some(key),
        left == lo || (left == lo + 1 && p == lo),
        right == hi || (right == hi - 1 && p == hi - 1),
        forall|i: int| left <= i < right && i != p ==> noted[i] == held[i],
        left <= p < right ==> noted[p].is_none(),
    ensures
        now.dom().contains(key as int),
        holds_also(now.remove(key as int), before, noted, left, right),
{
    let next = now.remove(key as int);
    assert(held[p] matches Some(k) && k == key);
    assert forall|i: int| left <= i < right implies (#[trigger] noted[i] matches Some(k)
        ==> next.dom().contains(k as int) && !before.dom().contains(k as int)) by {
        if i != p {
            assert(noted[i] == held[i]);
            if held[i].is_some() {
                if i < p {
                    assert(held[i] != held[p]);
                } else {
                    assert(held[p] != held[i]);
                }
            }
        }
    }
    assert forall|i: int, j: int|
        left <= i < j < right && #[trigger] noted[i].is_some() && #[trigger] noted[j].is_some()
        implies noted[i] != noted[j] by {
        assert(noted[i] == held[i] && noted[j] == held[j]);
        assert(held[i].is_some() && held[j].is_some());
    }
    assert forall|k: int| #[trigger] next.dom().contains(k) implies before.dom().contains(k)
        || exists|i: int|
        left <= i < right && #[trigger] noted[i] == Some(k as usize) && 0 <= k <= usize::MAX by {
        if !before.dom().contains(k) {
            let i = choose|i: int|
                lo <= i < hi && #[trigger] held[i] == Some(k as usize) && 0 <= k <= usize::MAX;
            assert(i != p);
            assert(noted[i] == Some(k as usize));
        }
    }
}

/// The key that a slab with the vacant keys `vacant` and `slots` slots gives to the
/// block number `i` of those that it takes one after another: the vacant keys in
/// their order, then the keys of new slots.
pub open spec fn taken_key(vacant: Seq<int>, slots: nat, i: int) -> int {
    if i < vacant.len() {
        vacant[i]
    } else {
        slots + (i - vacant.len())
    }
}

/// The keys that the slab gives to `n` blocks taken one after another.
pub open spec fn taken_keys(vacant: Seq<int>, slots: nat, n: nat) -> Seq<int> {
    Seq::new(n, |i: int| taken_key(vacant, slots, i))
}

/// The vacant keys that are left once the slab has taken `n` blocks.
pub open spec fn vacant_after(vacant: Seq<int>, n: nat) -> Seq<int> {
    if n <= vacant.len() {
        vacant.skip(n as int)
    } else {
        Seq::empty()
    }
}

/// The number of slots of the slab once it has taken `n` blocks.
pub open spec fn slots_after(vacant: Seq<int>, slots: nat, n: nat) -> nat {
    if n <= vacant.len() {
        slots
    } else {
        (slots + (n - vacant.len())) as nat
    }
}

/// The keys of the slots that a slab with `slots` slots adds to hold `n` blocks more
/// than it has vacant slots for.
pub open spec fn added_slots(vacant: Seq<int>, slots: nat, n: nat) -> Seq<int> {
    Seq::new((slots_after(vacant, slots, n) - slots) as nat, |i: int| slots + i)
}

/// The keys given to `n` blocks, the one given last first.
pub open spec fn taken_keys_reversed(vacant: Seq<int>, slots: nat, n: nat) -> Seq<int> {
    Seq::new(n, |i: int| taken_key(vacant, slots, n - 1 - i))
}

/// Acquires a block in `slab` and releases it at once, `batch` times over. The slab
/// holds afterwards what it held before. One slot serves every block: the one that
/// the slab takes next, which, where none was vacant, is one slot more, and is vacant
/// afterwards.
pub fn immediate_in(slab: &mut Slab<Vec<u8>>, batch: usize, size: usize)
    requires
        slab_slots(*old(slab)) + batch <= SLOT_LIMIT,
    ensures
        slab_blocks(*final(slab)) =~= slab_blocks(*old(slab)),
        slab_slots(*final(slab)) == slots_after(
            slab_vacant(*old(slab)),
            slab_slots(*old(slab)),
            if batch > 0 { 1 } else { 0 },
        ),
        slab_vacant(*final(slab)) =~= slab_vacant(*old(slab)) + added_slots(
            slab_vacant(*old(slab)),
            slab_slots(*old(slab)),
            if batch > 0 { 1 } else { 0 },
        ),
{
    let mut i: usize = 0;
    while i < batch
        invariant
            i <= batch,
            slab_slots(*old(slab)) + batch <= SLOT_LIMIT,
            slab_blocks(*slab) =~= slab_blocks(*old(slab)),
            slab_slots(*slab) == slots_after(
                slab_vacant(*old(slab)),
                slab_slots(*old(slab)),
                if i > 0 { 1 } else { 0 },
            ),
            slab_vacant(*slab) =~= slab_vacant(*old(slab)) + added_slots(
                slab_vacant(*old(slab)),
                slab_slots(*old(slab)),
                if i > 0 { 1 } else { 0 },
            ),
        decreases batch - i,
    {
        let key = slab_insert(slab, block(size));
        let _ = std::hint::black_box(slab_remove(slab, key));
        i += 1;
    }
}

/// Acquires `batch` blocks in `slab` and returns their keys, in the order in which
/// they were acquired.
fn fill(slab: &mut Slab<Vec<u8>>, batch: usize, size: usize) -> (keys: Vec<usize>)
    requires
        slab_slots(*old(slab)) + batch <= SLOT_LIMIT,
    ensures
        keys@.len() == batch,
        forall|i: int|
            0 <= i < batch ==> #[trigger] keys@[i] == taken_key(
                slab_vacant(*old(slab)),
                slab_slots(*old(slab)),
                i,
            ),
        slab_slots(*final(slab)) == slots_after(
            slab_vacant(*old(slab)),
            slab_slots(*old(slab)),
            batch as nat,
        ),
        slab_vacant(*final(slab)) =~= vacant_after(slab_vacant(*old(slab)), batch as nat),
        holds_also(
            slab_blocks(*final(slab)),
            slab_blocks(*old(slab)),
            all_held(keys@),
            0,
            batch as int,
        ),
{
    let mut keys: Vec<usize> = Vec::with_capacity(batch);
    let mut i: usize = 0;
    while i < batch
        invariant
            i <= batch,
            keys@.len() == i,
            slab_slots(*old(slab)) + batch <= SLOT_LIMIT,
            forall|j: int|
                0 <= j < i ==> #[trigger] keys@[j] == taken_key(
                    slab_vacant(*old(slab)),
                    slab_slots(*old(slab)),
                    j,
                ),
            slab_slots(*slab) == slots_after(
                slab_vacant(*old(slab)),
                slab_slots(*old(slab)),
                i as nat,
            ),
            slab_vacant(*slab) =~= vacant_after(slab_vacant(*old(slab)), i as nat),
            holds_also(slab_blocks(*slab), slab_blocks(*old(slab)), all_held(keys@), 0, i as int),
        decreases batch - i,
    {
        let ghost held = all_held(keys@);
        let ghost now = slab_blocks(*slab);
        let fresh = block(size);
        let ghost bytes = fresh@;
        let key = slab_insert(slab, fresh);
        keys.push(key);
        proof {
            lemma_holds_after_insert(
                now,
                slab_blocks(*old(slab)),
                held,
                all_held(keys@),
                0,
                i as int,
                i as int,
                key,
                bytes,
            );
        }
        i += 1;
    }
    keys
}

/// Acquires `batch` blocks in `slab`, then releases them, the last one first. The
/// slab holds afterwards what it held before; it has added the slots that the batch
/// needed beyond the vacant ones, and takes its vacant slots in the order in which it
/// did before, the added ones after them.
pub fn lifo_in(slab: &mut Slab<Vec<u8>>, batch: usize, size: usize)
    requires
        slab_slots(*old(slab)) + batch <= SLOT_LIMIT,
    ensures
        slab_blocks(*final(slab)) =~= slab_blocks(*old(slab)),
        slab_slots(*final(slab)) == slots_after(
            slab_vacant(*old(slab)),
            slab_slots(*old(slab)),
            batch as nat,
        ),
        slab_vacant(*final(slab)) =~= slab_vacant(*old(slab)) + added_slots(
            slab_vacant(*old(slab)),
            slab_slots(*old(slab)),
            batch as nat,
        ),
{
    let mut keys = fill(slab, batch, size);
    let ghost taken = taken_keys(slab_vacant(*old(slab)), slab_slots(*old(slab)), batch as nat);
    let ghost rest = vacant_after(slab_vacant(*old(slab)), batch as nat);
    while keys.len() > 0
        invariant
            keys@.len() <= batch,
            taken == taken_keys(slab_vacant(*old(slab)), slab_slots(*old(slab)), batch as nat),
            rest == vacant_after(slab_vacant(*old(slab)), batch as nat),
            forall|j: int| 0 <= j < keys@.len() ==> #[trigger] keys@[j] == taken[j],
            slab_slots(*slab) == slots_after(
                slab_vacant(*old(slab)),
                slab_slots(*old(slab)),
                batch as nat,
            ),
            slab_vacant(*slab) =~= taken.subrange(keys@.len() as int, batch as int) + rest,
            holds_also(
                slab_blocks(*slab),
                slab_blocks(*old(slab)),
                all_held(keys@),
                0,
                keys@.len() as int,
            ),
        decreases keys@.len(),
    {
        let ghost held = all_held(keys@);
        let ghost now = slab_blocks(*slab);
        let key = keys.pop().unwrap();
        proof {
            lemma_holds_after_remove(
                now,
                slab_blocks(*old(slab)),
                held,
                all_held(keys@),
                0,
                held.len() as int,
                0,
                keys@.len() as int,
                keys@.len() as int,
                key,
            );
        }
        let _ = std::hint::black_box(slab_remove(slab, key));
    }
    proof {
        lemma_holds_none(slab_blocks(*slab), slab_blocks(*old(slab)), all_held(keys@), 0, 0);
        assert(taken.subrange(0, batch as int) =~= taken);
    }
}

/// Acquires `batch` blocks in `slab`, then releases them, the first one first. The
/// slab holds afterwards what it held before; it has added the slots that the batch
/// needed beyond the vacant ones, and takes the slots that the batch used in the
/// opposite order next time: the one that was taken last first.
pub fn fifo_in(slab: &mut Slab<Vec<u8>>, batch: usize, size: usize)
    requires
        slab_slots(*old(slab)) + batch <= SLOT_LIMIT,
    ensures
        slab_blocks(*final(slab)) =~= slab_blocks(*old(slab)),
        slab_slots(*final(slab)) == slots_after(
            slab_vacant(*old(slab)),
            slab_slots(*old(slab)),
            batch as nat,
        ),
        slab_vacant(*final(slab)) =~= taken_keys_reversed(
            slab_vacant(*old(slab)),
            slab_slots(*old(slab)),
            batch as nat,
        ) + vacant_after(slab_vacant(*old(slab)), batch as nat),
{
    let keys = fill(slab, batch, size);
    let ghost rest = vacant_after(slab_vacant(*old(slab)), batch as nat);
    let mut i: usize = 0;
    while i < batch
        invariant
            i <= batch,
            keys@.len() == batch,
            rest == vacant_after(slab_vacant(*old(slab)), batch as nat),
            forall|j: int|
                0 <= j < batch ==> #[trigger] keys@[j] == taken_key(
                    slab_vacant(*old(slab)),
                    slab_slots(*old(slab)),
                    j,
                ),
            slab_slots(*slab) == slots_after(
                slab_vacant(*old(slab)),
                slab_slots(*old(slab)),
                batch as nat,
            ),
            slab_vacant(*slab) =~= taken_keys_reversed(
                slab_vacant(*old(slab)),
                slab_slots(*old(slab)),
                i as nat,
            ) + rest,
            holds_also(
                slab_blocks(*slab),
                slab_blocks(*old(slab)),
                all_held(keys@),
                i as int,
                batch as int,
            ),
        decreases batch - i,
    {
        let key = keys[i];
        proof {
            lemma_holds_after_remove(
                slab_blocks(*slab),
                slab_blocks(*old(slab)),
                all_held(keys@),
                all_held(keys@),
                i as int,
                batch as int,
                i + 1,
                batch as int,
                i as int,
                key,
            );
        }
        let _ = std::hint::black_box(slab_remove(slab, key));
        i += 1;
    }
    proof {
        lemma_holds_none(
            slab_blocks(*slab),
            slab_blocks(*old(slab)),
            all_held(keys@),
            batch as int,
            batch as int,
        );
    }
}

/// Releases the block whose key is noted at place `at`, or, where no key is noted
/// there, acquires a block and notes its key there.
pub fn toggle_in(
    slab: &mut Slab<Vec<u8>>,
    places: &mut Vec<Option<usize>>,
    at: usize,
    size: usize,
)
    requires
        at < old(places)@.len(),
        slab_slots(*old(slab)) < SLOT_LIMIT,
        old(places)@[at as int] matches Some(key) ==> slab_blocks(*old(slab)).dom().contains(
            key as int,
        ),
    ensures
        match old(places)@[at as int] {
            Some(key) => {
                &&& final(places)@ =~= old(places)@.update(at as int, None)
                &&& slab_blocks(*final(slab)) == slab_blocks(*old(slab)).remove(key as int)
                &&& slab_slots(*final(slab)) == slab_slots(*old(slab))
                &&& slab_vacant(*final(slab)) =~= seq![key as int] + slab_vacant(*old(slab))
            },
            None => {
                &&& final(places)@ =~= old(places)@.update(
                    at as int,
                    Some(slab_next_key(*old(slab)) as usize),
                )
                &&& 0 <= slab_next_key(*old(slab)) <= usize::MAX
                &&& !slab_blocks(*old(slab)).dom().contains(slab_next_key(*old(slab)))
                &&& slab_blocks(*final(slab)) == slab_blocks(*old(slab)).insert(
                    slab_next_key(*old(slab)),
                    Seq::empty(),
                )
                &&& slab_slots(*final(slab)) == slots_after(
                    slab_vacant(*old(slab)),
                    slab_slots(*old(slab)),
                    1,
                )
                &&& slab_vacant(*final(slab)) =~= vacant_after(slab_vacant(*old(slab)), 1)
            },
        },
{
    match places[at] {
        Some(key) => {
            places[at] = None;
            let _ = std::hint::black_box(slab_remove(slab, key));
        },
        None => {
            let fresh = block(size);
            proof {
                assert(fresh@ =~= Seq::<u8>::empty());
            }
            let key = slab_insert(slab, fresh);
            places[at] = Some(key);
            let _ = std::hint::black_box(key);
        },
    }
}

/// Acquires and releases blocks in `slab` in an order drawn from `rng`: twice `batch`
/// times one of `batch` places is drawn and toggled, as [`toggle_in`] does. The blocks
/// that are left at the end are released in the order of their places. Whatever is
/// drawn, the slab holds afterwards what it held before; it has lost no slot and
/// added no more than a batch held at one time needs beyond the vacant ones; every
/// slot that it added is vacant; and it has a vacant slot, as the first draw acquires
/// a block.
pub fn random_in(slab: &mut Slab<Vec<u8>>, rng: &mut StdRng, batch: usize, size: usize)
    requires
        batch > 0,
        slab_slots(*old(slab)) + 2 * batch <= SLOT_LIMIT,
    ensures
        slab_blocks(*final(slab)) =~= slab_blocks(*old(slab)),
        slab_slots(*old(slab)) <= slab_slots(*final(slab)) <= slots_after(
            slab_vacant(*old(slab)),
            slab_slots(*old(slab)),
            batch as nat,
        ),
        slab_vacant(*final(slab)).len() > 0,
        slab_vacant(*final(slab)).len() == slab_vacant(*old(slab)).len() + slab_slots(
            *final(slab),
        ) - slab_slots(*old(slab)),
{
    let mut places: Vec<Option<usize>> = Vec::with_capacity(batch);
    let mut i: usize = 0;
    while i < batch
        invariant
            i <= batch,
            places@.len() == i,
            forall|j: int| 0 <= j < i ==> places@[j].is_none(),
        decreases batch - i,
    {
        places.push(None);
        i += 1;
    }
    proof {
        lemma_count_none(places@, batch as int);
    }
    let mut round: usize = 0;
    while round < 2 * batch
        invariant
            batch > 0,
            round <= 2 * batch,
            places@.len() == batch,
            slab_slots(*old(slab)) + 2 * batch <= SLOT_LIMIT,
            slab_slots(*old(slab)) <= slab_slots(*slab) <= slots_after(
                slab_vacant(*old(slab)),
                slab_slots(*old(slab)),
                batch as nat,
            ),
            holds_also(slab_blocks(*slab), slab_blocks(*old(slab)), places@, 0, batch as int),
            round > 0 ==> slab_vacant(*slab).len() > 0 || exists|j: int|
                0 <= j < batch && #[trigger] places@[j].is_some(),
            slab_vacant(*slab).len() + noted(places@, batch as int) == slab_vacant(
                *old(slab),
            ).len() + slab_slots(*slab) - slab_slots(*old(slab)),
        decreases 2 * batch - round,
    {
        let at = pick(rng, batch);
        let ghost held = places@;
        let ghost now = slab_blocks(*slab);
        proof {
            assert(held[at as int] matches Some(key) ==> now.dom().contains(key as int));
            lemma_count_bound(held, batch as int, at as int);
        }
        toggle_in(slab, &mut places, at, size);
        proof {
            lemma_count_update(held, places@, at as int, batch as int);
            match held[at as int] {
                Some(key) => {
                    lemma_holds_after_remove(
                        now,
                        slab_blocks(*old(slab)),
                        held,
                        places@,
                        0,
                        batch as int,
                        0,
                        batch as int,
                        at as int,
                        key,
                    );
                },
                None => {
                    let key = places@[at as int].unwrap();
                    lemma_holds_after_insert(
                        now,
                        slab_blocks(*old(slab)),
                        held,
                        places@,
                        0,
                        batch as int,
                        at as int,
                        key,
                        Seq::empty(),
                    );
                    assert(places@[at as int].is_some());
                },
            }
        }
        round += 1;
    }
    let mut i: usize = 0;
    while i < batch
        invariant
            i <= batch,
            places@.len() == batch,
            slab_slots(*old(slab)) <= slab_slots(*slab) <= slots_after(
                slab_vacant(*old(slab)),
                slab_slots(*old(slab)),
                batch as nat,
            ),
            holds_also(
                slab_blocks(*slab),
                slab_blocks(*old(slab)),
                places@,
                i as int,
                batch as int,
            ),
            slab_vacant(*slab).len() > 0 || exists|j: int|
                i <= j < batch && #[trigger] places@[j].is_some(),
            slab_vacant(*slab).len() + noted(places@, batch as int) - noted(places@, i as int)
                == slab_vacant(*old(slab)).len() + slab_slots(*slab) - slab_slots(*old(slab)),
        decreases batch - i,
    {
        match places[i] {
            Some(key) => {
                proof {
                    lemma_holds_after_remove(
                        slab_blocks(*slab),
                        slab_blocks(*old(slab)),
                        places@,
                        places@,
                        i as int,
                        batch as int,
                        i + 1,
                        batch as int,
                        i as int,
                        key,
                    );
                }
                let _ = std::hint::black_box(slab_remove(slab, key));
            },
            None => {},
        }
        i += 1;
    }
    proof {
        lemma_holds_none(
            slab_blocks(*slab),
            slab_blocks(*old(slab)),
            places@,
            batch as int,
            batch as int,
        );
    }
}

/// The number of keys that are noted at the first `n` places.
spec fn noted(places: Seq<Option<usize>>, n: int) -> int
    decreases n,
{
    if n <= 0 {
        0
    } else if places[n - 1].is_some() {
        noted(places, n - 1) + 1
    } else {
        noted(places, n - 1)
    }
}

/// Where no key is noted, the number of noted keys is 0.
proof fn lemma_count_none(places: Seq<Option<usize>>, n: int)
    requires
        0 <= n <= places.len(),
        forall|j: int| 0 <= j < n ==> places[j].is_none(),
    ensures
        noted(places, n) == 0,
    decreases n,
{
    if n > 0 {
        lemma_count_none(places, n - 1);
    }
}

/// No more keys are noted than there are places, and fewer where a place has none.
proof fn lemma_count_bound(places: Seq<Option<usize>>, n: int, at: int)
    requires
        0 <= n <= places.len(),
    ensures
        0 <= noted(places, n) <= n,
        0 <= at < n && places[at].is_none() ==> noted(places, n) <= n - 1,
    decreases n,
{
    if n > 0 {
        lemma_count_bound(places, n - 1, at);
    }
}

/// Noting a key at a place that had none makes one noted key more, and taking the key
/// of a place away makes one less.
proof fn lemma_count_update(
    before: Seq<Option<usize>>,
    after: Seq<Option<usize>>,
    at: int,
    n: int,
)
    requires
        0 <= n <= before.len(),
        after.len() == before.len(),
        0 <= at < before.len(),
        forall|j: int| 0 <= j < before.len() && j != at ==> after[j] == before[j],
    ensures
        noted(after, n) == noted(before, n) + if at < n {
            (if after[at].is_some() { 1int } else { 0 }) - (if before[at].is_some() {
                1int
            } else {
                0
            })
        } else {
            0
        },
    decreases n,
{
    if n > 0 {
        lemma_count_update(before, after, at, n - 1);
    }
}

/// Acquires a block in a slab of its own and releases it at once, `batch` times over.
pub fn immediate_cold(batch: usize, size: usize) {
    let mut i: usize = 0;
    while i < batch
        invariant
            i <= batch,
        decreases batch - i,
    {
        let mut slab = slab_new();
        let key = slab_insert(&mut slab, block(size));
        let _ = std::hint::black_box(slab_remove(&mut slab, key));
        i += 1;
    }
}

/// Allocates a block on the heap and frees it at once, `batch` times over.
pub fn immediate_heap(batch: usize, size: usize) {
    let mut i: usize = 0;
    while i < batch
        invariant
            i <= batch,
        decreases batch - i,
    {
        let _ = std::hint::black_box(block(size));
        i += 1;
    }
}

/// Allocates `batch` blocks on the heap and returns them, in the order in which they
/// were allocated.
fn fill_heap(batch: usize, size: usize) -> (blocks: Vec<Vec<u8>>)
    ensures
        blocks@.len() == batch,
{
    let mut blocks: Vec<Vec<u8>> = Vec::with_capacity(batch);
    let mut i: usize = 0;
    while i < batch
        invariant
            i <= batch,
            blocks@.len() == i,
        decreases batch - i,
    {
        blocks.push(block(size));
        i += 1;
    }
    blocks
}

/// Allocates `batch` blocks on the heap, then frees them, the last one first.
pub fn lifo_heap(batch: usize, size: usize) {
    let mut blocks = fill_heap(batch, size);
    while blocks.len() > 0
        decreases blocks@.len(),
    {
        let _ = std::hint::black_box(blocks.pop());
    }
}

/// Allocates `batch` blocks on the heap, then frees them, the first one first.
pub fn fifo_heap(batch: usize, size: usize) {
    let blocks = fill_heap(batch, size);
    for block in blocks {
        let _ = std::hint::black_box(block);
    }
}

/// Frees the block that is kept at place `at`, or, where none is kept there,
/// allocates one and keeps it there.
pub fn toggle_heap(places: &mut Vec<Option<Vec<u8>>>, at: usize, size: usize)
    requires
        at < old(places)@.len(),
    ensures
        final(places)@.len() == old(places)@.len(),
        forall|j: int|
            0 <= j < old(places)@.len() && j != at ==> final(places)@[j] == old(places)@[j],
        old(places)@[at as int].is_some() ==> final(places)@[at as int].is_none(),
        old(places)@[at as int].is_none() ==> (final(places)@[at as int] matches Some(kept)
            && kept@ =~= Seq::<u8>::empty()),
{
    if places[at].is_some() {
        let _ = std::hint::black_box(places[at].take());
    } else {
        places[at] = Some(block(size));
        let _ = std::hint::black_box(&places[at]);
    }
}

/// Allocates and frees blocks on the heap in an order drawn from `rng`: twice `batch`
/// times one of `batch` places is drawn and toggled, as [`toggle_heap`] does. The
/// blocks that are left at the end are freed in the order of their places.
pub fn random_heap(rng: &mut StdRng, batch: usize, size: usize)
    requires
        batch > 0,
        2 * batch <= usize::MAX,
{
    let mut places: Vec<Option<Vec<u8>>> = Vec::with_capacity(batch);
    let mut i: usize = 0;
    while i < batch
        invariant
            i <= batch,
            places@.len() == i,
        decreases batch - i,
    {
        places.push(None);
        i += 1;
    }
    let mut round: usize = 0;
    while round < 2 * batch
        invariant
            batch > 0,
            2 * batch <= usize::MAX,
            round <= 2 * batch,
            places@.len() == batch,
        decreases 2 * batch - round,
    {
        let at = pick(rng, batch);
        toggle_heap(&mut places, at, size);
        round += 1;
    }
    for place in places {
        let _ = std::hint::black_box(place);
    }
}

} // verus!
