//! A pool of zero-initialised byte blocks, each under an id drawn at random,
//! with a count of live allocations and a switch that arms corruption of a
//! block's contents when it is opened.
//!
//! The pool itself is single-owner state; sharing it between threads (and
//! deciding whether its block table could be locked when a handle goes away)
//! is left to the caller, which reports that outcome to `release`.

use vstd::prelude::*;
use std::collections::HashMap;
use crate::entropy::{random_u8, random_usize};

verus! {

/// The abstract state of a pool: the blocks by id, the live-allocation
/// counter and whether corruption is armed.
pub struct PoolView {
    pub blocks: Map<usize, Seq<u8>>,
    pub active: i32,
    pub corrupt: bool,
}

/// `n + 1` in 32-bit two's complement, wrapping at the top.
pub open spec fn count_up(n: i32) -> i32 {
    if n == i32::MAX {
        i32::MIN
    } else {
        (n + 1) as i32
    }
}

/// `n - 1` in 32-bit two's complement, wrapping at the bottom.
pub open spec fn count_down(n: i32) -> i32 {
    if n == i32::MIN {
        i32::MAX
    } else {
        (n - 1) as i32
    }
}

/// A block of `size` zero bytes.
pub open spec fn zeroed(size: nat) -> Seq<u8> {
    Seq::new(size, |_i: int| 0u8)
}

/// The pool after a block of `size` zero bytes is stored under `id` (a
/// block already under `id` is replaced) and the counter goes up by one.
pub open spec fn after_allocate(p: PoolView, id: usize, size: nat) -> PoolView {
    PoolView { blocks: p.blocks.insert(id, zeroed(size)), active: count_up(p.active), corrupt: p.corrupt }
}

/// The pool after a handle for `id` goes away: the block is removed when
/// the block table could be locked, and the counter goes down by one
/// either way.
pub open spec fn after_release(p: PoolView, id: usize, table_locked: bool) -> PoolView {
    PoolView {
        blocks: if table_locked {
            p.blocks.remove(id)
        } else {
            p.blocks
        },
        active: count_down(p.active),
        corrupt: p.corrupt,
    }
}

/// The pool after the block under `id` is opened: when corruption is armed
/// and the coin came up, an existing block is overwritten with `fill` in
/// every byte; otherwise nothing changes.
pub open spec fn after_open(p: PoolView, id: usize, coin: bool, fill: u8) -> PoolView {
    if p.corrupt && coin && p.blocks.contains_key(id) {
        PoolView {
            blocks: p.blocks.insert(id, Seq::new(p.blocks[id].len(), |_i: int| fill)),
            ..p
        }
    } else {
        p
    }
}

/// `block` with its first `count` bytes set to their index modulo 256.
pub open spec fn with_pattern(block: Seq<u8>, count: nat) -> Seq<u8> {
    Seq::new(block.len(), |j: int| if j < count { (j % 256) as u8 } else { block[j] })
}

/// One step in the life of a pool: an allocation of `size` bytes under
/// `id`, or the drop of a handle on `id`, with whether the block table
/// could be locked then.
pub enum PoolEvent {
    Allocate { id: usize, size: nat },
    Release { id: usize, table_locked: bool },
}

/// The pool after one event.
pub open spec fn after_event(p: PoolView, e: PoolEvent) -> PoolView {
    match e {
        PoolEvent::Allocate { id, size } => after_allocate(p, id, size),
        PoolEvent::Release { id, table_locked } => after_release(p, id, table_locked),
    }
}

/// The pool after a sequence of events, in order.
pub open spec fn after_events(p: PoolView, events: Seq<PoolEvent>) -> PoolView
    decreases events.len(),
{
    if events.len() == 0 {
        p
    } else {
        after_event(after_events(p, events.drop_last()), events.last())
    }
}

/// The number of allocations in `events` minus the number of releases:
/// the handles that the events leave live.
pub open spec fn net_allocations(events: Seq<PoolEvent>) -> int
    decreases events.len(),
{
    if events.len() == 0 {
        0
    } else {
        net_allocations(events.drop_last()) + if events.last() is Allocate {
            1int
        } else {
            -1int
        }
    }
}

/// A pool of byte blocks.
pub struct MemoryPool {
    blocks: HashMap<usize, Vec<u8>>,
    active_allocations: i32,
    should_corrupt: bool,
}

/// A handle on one block of a pool.
pub struct MemoryHandle {
    pub id: usize,
}

impl View for MemoryPool {
    type V = PoolView;

    closed spec fn view(&self) -> PoolView {
        PoolView {
            blocks: self.blocks@.map_values(|v: Vec<u8>| v@),
            active: self.active_allocations,
            corrupt: self.should_corrupt,
        }
    }
}

impl MemoryPool {
    /// An empty pool: no blocks, no live allocations, corruption off.
    pub fn new() -> (pool: Self)
        ensures
            pool@.blocks == Map::<usize, Seq<u8>>::empty(),
            pool@.active == 0,
            !pool@.corrupt,
    {
        let pool = MemoryPool { blocks: HashMap::new(), active_allocations: 0, should_corrupt: false };
        assert(pool@.blocks =~= Map::<usize, Seq<u8>>::empty());
        pool
    }

    /// The number of live allocations.
    pub fn active_allocations(&self) -> (n: i32)
        ensures
            n == self@.active,
    {
        self.active_allocations
    }

    /// Whether corruption is armed.
    pub fn corruption_enabled(&self) -> (b: bool)
        ensures
            b == self@.corrupt,
    {
        self.should_corrupt
    }

    /// The length of the block under `id`, if there is one.
    pub fn block_len(&self, id: usize) -> (r: Option<usize>)
        ensures
            match r {
                Some(n) => self@.blocks.contains_key(id) && n == self@.blocks[id].len(),
                None => !self@.blocks.contains_key(id),
            },
    {
        match self.blocks.get(&id) {
            Some(block) => Some(block.len()),
            None => None,
        }
    }

    /// A copy of the block under `id`, if there is one.
    pub fn block_contents(&self, id: usize) -> (r: Option<Vec<u8>>)
        ensures
            match r {
                Some(v) => self@.blocks.contains_key(id) && v@ == self@.blocks[id],
                None => !self@.blocks.contains_key(id),
            },
    {
        match self.blocks.get(&id) {
            Some(block) => Some(block.clone()),
            None => None,
        }
    }

    /// Allocates a block of `size` zero bytes under a random id and counts
    /// it as live; the handle carries the id that was drawn.
    pub fn allocate(&mut self, size: usize) -> (h: MemoryHandle)
        ensures
            final(self)@ == after_allocate(old(self)@, h.id, size as nat),
    {
        let id = random_usize();
        self.allocate_with_id(id, size)
    }

    /// Allocates a block of `size` zero bytes under `id` (replacing a block
    /// already there) and counts it as live.
    pub fn allocate_with_id(&mut self, id: usize, size: usize) -> (h: MemoryHandle)
        ensures
            h.id == id,
            final(self)@ == after_allocate(old(self)@, id, size as nat),
    {
        let block: Vec<u8> = vec![0u8; size];
        self.blocks.insert(id, block);
        self.active_allocations = self.active_allocations.wrapping_add(1);
        proof {
            assert(block@ =~= zeroed(size as nat));
            assert(self@.blocks =~= old(self)@.blocks.insert(id, zeroed(size as nat)));
        }
        MemoryHandle { id }
    }
}

impl MemoryHandle {
    /// Opens this handle's block, as a raw access to it would: when
    /// corruption is armed and `coin` came up, an existing block is first
    /// overwritten with one random byte repeated. Returns whether the block
    /// exists.
    ///
    /// Whatever byte was drawn, the pool keeps its ids, block lengths,
    /// counter and switch; without corruption armed or without the coin it
    /// is unchanged.
    pub fn get_mut(&self, pool: &mut MemoryPool, coin: bool) -> (found: bool)
        ensures
            found == old(pool)@.blocks.contains_key(self.id),
            final(pool)@.active == old(pool)@.active,
            final(pool)@.corrupt == old(pool)@.corrupt,
            final(pool)@.blocks.dom() == old(pool)@.blocks.dom(),
            forall|k: usize| #[trigger]
                final(pool)@.blocks.contains_key(k) ==> final(pool)@.blocks[k].len()
                    == old(pool)@.blocks[k].len(),
            exists|fill: u8| final(pool)@ == after_open(old(pool)@, self.id, coin, fill),
    {
        let fill = if pool.should_corrupt && coin && pool.blocks.contains_key(&self.id) {
            random_u8()
        } else {
            0u8
        };
        let found = self.open_with(pool, coin, fill);
        proof {
            lemma_open_keeps_shape(old(pool)@, self.id, coin, fill);
        }
        assert(final(pool)@ == after_open(old(pool)@, self.id, coin, fill));
        found
    }

    /// Opens this handle's block with `fill` as the byte that corruption
    /// writes: see `after_open`. Returns whether the block exists.
    pub fn open_with(&self, pool: &mut MemoryPool, coin: bool, fill: u8) -> (found: bool)
        ensures
            found == old(pool)@.blocks.contains_key(self.id),
            final(pool)@ == after_open(old(pool)@, self.id, coin, fill),
    {
        if pool.should_corrupt && coin {
            match pool.blocks.get(&self.id) {
                Some(block) => {
                    let len = block.len();
                    let replacement: Vec<u8> = vec![fill; len];
                    pool.blocks.insert(self.id, replacement);
                    proof {
                        assert(replacement@ =~= Seq::new(len as nat, |_i: int| fill));
                        assert(pool@.blocks =~= old(pool)@.blocks.insert(
                            self.id,
                            Seq::new(old(pool)@.blocks[self.id].len(), |_i: int| fill),
                        ));
                    }
                    return true;
                },
                None => {},
            }
        }
        pool.blocks.contains_key(&self.id)
    }

    /// Writes `j % 256` into byte `j` of this handle's block for every
    /// `j < count`; the block must exist and hold at least `count` bytes.
    pub fn fill_pattern(&self, pool: &mut MemoryPool, count: usize)
        requires
            old(pool)@.blocks.contains_key(self.id),
            count <= old(pool)@.blocks[self.id].len(),
        ensures
            final(pool)@ == (PoolView {
                blocks: old(pool)@.blocks.insert(
                    self.id,
                    with_pattern(old(pool)@.blocks[self.id], count as nat),
                ),
                ..old(pool)@
            }),
            final(pool)@.blocks[self.id].len() == old(pool)@.blocks[self.id].len(),
            forall|j: int|
                0 <= j < count ==> #[trigger] final(pool)@.blocks[self.id][j] == (j % 256) as u8,
            forall|j: int|
                count <= j < old(pool)@.blocks[self.id].len() ==> #[trigger] final(pool)@.blocks[self.id][j]
                    == old(pool)@.blocks[self.id][j],
    {
        proof {
            lemma_pattern_bytes(old(pool)@.blocks[self.id], count as nat);
        }
        let mut block = match pool.blocks.remove(&self.id) {
            Some(b) => b,
            None => {
                assert(false);
                Vec::new()
            },
        };
        let ghost original = block@;
        let mut j: usize = 0;
        while j < count
            invariant
                0 <= j <= count,
                count <= original.len(),
                block@.len() == original.len(),
                forall|k: int|
                    0 <= k < original.len() ==> #[trigger] block@[k] == if k < j {
                        (k % 256) as u8
                    } else {
                        original[k]
                    },
            decreases count - j,
        {
            block.set(j, (j % 256) as u8);
            j = j + 1;
        }
        pool.blocks.insert(self.id, block);
        proof {
            assert(block@ =~= with_pattern(original, count as nat));
            assert(pool@.blocks =~= old(pool)@.blocks.insert(
                self.id,
                with_pattern(old(pool)@.blocks[self.id], count as nat),
            ));
        }
    }

    /// Arms corruption for every block of the pool.
    pub fn corrupt_memory(&self, pool: &mut MemoryPool)
        ensures
            final(pool)@ == (PoolView { corrupt: true, ..old(pool)@ }),
    {
        pool.should_corrupt = true;
    }

    /// What dropping this handle does: removes its block when the caller
    /// could lock the block table (`table_locked`), and counts one live
    /// allocation fewer in any case.
    pub fn release(self, pool: &mut MemoryPool, table_locked: bool)
        ensures
            final(pool)@ == after_release(old(pool)@, self.id, table_locked),
    {
        if table_locked {
            pool.blocks.remove(&self.id);
        }
        pool.active_allocations = pool.active_allocations.wrapping_sub(1);
        proof {
            if table_locked {
                assert(pool@.blocks =~= old(pool)@.blocks.remove(self.id));
            } else {
                assert(pool@.blocks =~= old(pool)@.blocks);
            }
        }
    }
}

/// Writing the pattern keeps the block's length, puts `j % 256` in each
/// byte below `count`, and leaves every byte from `count` on as it was.
pub proof fn lemma_pattern_bytes(block: Seq<u8>, count: nat)
    requires
        count <= block.len(),
    ensures
        with_pattern(block, count).len() == block.len(),
        forall|j: int| 0 <= j < count ==> #[trigger] with_pattern(block, count)[j] == (j % 256) as u8,
        forall|j: int| count <= j < block.len() ==> #[trigger] with_pattern(block, count)[j] == block[j],
{
}

/// An allocation puts `size` zero bytes under its id and leaves every
/// other block as it was.
pub proof fn lemma_allocate_bytes(p: PoolView, id: usize, size: nat)
    ensures
        after_allocate(p, id, size).blocks.contains_key(id),
        after_allocate(p, id, size).blocks[id].len() == size,
        forall|j: int| 0 <= j < size ==> #[trigger] after_allocate(p, id, size).blocks[id][j] == 0u8,
        forall|k: usize|
            k != id ==> (#[trigger] after_allocate(p, id, size).blocks.contains_key(k)
                <==> p.blocks.contains_key(k)),
        forall|k: usize|
            k != id && p.blocks.contains_key(k) ==> #[trigger] after_allocate(p, id, size).blocks[k]
                == p.blocks[k],
        p.active < i32::MAX ==> after_allocate(p, id, size).active == p.active + 1,
{
}

/// A release removes at most the block under its own id, and only when
/// the table was locked; the counter goes down by one unless it was at the
/// bottom.
pub proof fn lemma_release_frame(p: PoolView, id: usize, table_locked: bool)
    ensures
        after_release(p, id, table_locked).blocks.contains_key(id) <==> (!table_locked
            && p.blocks.contains_key(id)),
        forall|k: usize|
            k != id ==> (#[trigger] after_release(p, id, table_locked).blocks.contains_key(k)
                <==> p.blocks.contains_key(k)),
        forall|k: usize|
            (k != id || !table_locked) && p.blocks.contains_key(k) ==> #[trigger] after_release(
                p,
                id,
                table_locked,
            ).blocks[k] == p.blocks[k],
        p.active > i32::MIN ==> after_release(p, id, table_locked).active == p.active - 1,
{
}

/// Opening a block with corruption armed and the coin up sets every byte
/// of that block to the fill byte; no other block changes in any case.
pub proof fn lemma_open_bytes(p: PoolView, id: usize, coin: bool, fill: u8)
    ensures
        p.corrupt && coin && p.blocks.contains_key(id) ==> forall|j: int|
            0 <= j < p.blocks[id].len() ==> #[trigger] after_open(p, id, coin, fill).blocks[id][j]
                == fill,
        !(p.corrupt && coin) ==> after_open(p, id, coin, fill) == p,
        forall|k: usize|
            k != id && p.blocks.contains_key(k) ==> #[trigger] after_open(p, id, coin, fill).blocks[k]
                == p.blocks[k],
{
}

/// Dropping a handle undoes its allocation: allocating a fresh id and then
/// releasing it with the table locked gives back the pool as it was.
pub proof fn lemma_release_undoes_allocate(p: PoolView, id: usize, size: nat)
    requires
        !p.blocks.contains_key(id),
    ensures
        after_release(after_allocate(p, id, size), id, true) == p,
{
    assert(p.blocks.insert(id, zeroed(size)).remove(id) =~= p.blocks);
}

/// Opening a block never changes which ids hold blocks, nor any block's
/// length, nor the counter or the switch; and without corruption armed it
/// changes nothing at all.
pub proof fn lemma_open_keeps_shape(p: PoolView, id: usize, coin: bool, fill: u8)
    ensures
        after_open(p, id, coin, fill).blocks.dom() == p.blocks.dom(),
        forall|k: usize| #[trigger]
            p.blocks.contains_key(k) ==> after_open(p, id, coin, fill).blocks[k].len() == p.blocks[k].len(),
        after_open(p, id, coin, fill).active == p.active,
        after_open(p, id, coin, fill).corrupt == p.corrupt,
        !p.corrupt ==> after_open(p, id, coin, fill) == p,
{
    if p.corrupt && coin && p.blocks.contains_key(id) {
        assert(p.blocks.insert(id, Seq::new(p.blocks[id].len(), |_i: int| fill)).dom() =~= p.blocks.dom());
    }
}

/// Over any sequence of allocations and handle drops whose running count
/// stays within 32 bits, the live-allocation counter ends at its start plus
/// the allocations minus the drops, whether or not each drop could lock the
/// block table. From a new pool (counter 0) that is the number of live
/// handles.
pub proof fn lemma_counter_counts_live_handles(p: PoolView, events: Seq<PoolEvent>)
    requires
        forall|k: int|
            0 <= k <= events.len() ==> i32::MIN <= p.active + #[trigger] net_allocations(
                events.take(k),
            ) <= i32::MAX,
    ensures
        after_events(p, events).active == p.active + net_allocations(events),
        after_events(p, events).corrupt == p.corrupt,
    decreases events.len(),
{
    if events.len() > 0 {
        let n = events.len() as int;
        let prefix = events.drop_last();
        assert forall|k: int| 0 <= k <= prefix.len() implies i32::MIN <= p.active
            + #[trigger] net_allocations(prefix.take(k)) <= i32::MAX by {
            assert(prefix.take(k) =~= events.take(k));
        }
        lemma_counter_counts_live_handles(p, prefix);
        assert(events.take(n) =~= events);
        assert(events.take(n - 1) =~= prefix);
        assert(i32::MIN <= p.active + net_allocations(events.take(n)) <= i32::MAX);
        assert(i32::MIN <= p.active + net_allocations(events.take(n - 1)) <= i32::MAX);
    }
}

/// A block allocated under an id is still in the pool after any later
/// events, unless some later handle drop on that id removed it with the
/// block table locked (a drop that could not lock the table leaves it).
pub proof fn lemma_allocated_block_stays(p: PoolView, events: Seq<PoolEvent>, i: int)
    requires
        0 <= i < events.len(),
        events[i] is Allocate,
        forall|j: int|
            i < j < events.len() ==> !(#[trigger] events[j] matches PoolEvent::Release {
                id,
                table_locked,
            } && id == events[i]->Allocate_id && table_locked),
    ensures
        after_events(p, events).blocks.contains_key(events[i]->Allocate_id),
    decreases events.len(),
{
    let n = events.len() as int;
    let prefix = events.drop_last();
    if i < n - 1 {
        assert forall|j: int| i < j < prefix.len() implies !(#[trigger] prefix[j] matches PoolEvent::Release {
            id,
            table_locked,
        } && id == prefix[i]->Allocate_id && table_locked) by {
            assert(prefix[j] == events[j]);
        }
        lemma_allocated_block_stays(p, prefix, i);
        assert(prefix[i] == events[i]);
        assert(events.last() == events[n - 1]);
    }
}

/// Every allocation and every release moves the live-allocation counter by
/// exactly one, so an allocation followed by its release leaves it as it
/// was, whatever the block table did.
pub proof fn lemma_counter_balances(n: i32)
    ensures
        count_down(count_up(n)) == n,
        count_up(count_down(n)) == n,
{
}

} // verus!
