//! The arena: the owner of the address space that pools take memory from.
//!
//! Memory is a vector of words and an address is the index of a word. The
//! words below `ARENA_BASE` are never handed out, so that address zero can
//! stand for no object.
use vstd::prelude::*;

use crate::err::MpsError;
use crate::format::{RawFormatMethods, relocate};
use crate::pools::{Pool, copied_relocated, copied_with_fixes};

verus! {

/// The first address an arena hands out.
pub const ARENA_BASE: usize = 16;
/// The size, in words, of the address space an arena reserves by default.
pub const DEFAULT_ARENA_SIZE: usize = 32 * 1024 * 1024;
/// The largest address space, in words, that an arena can reserve.
pub const MAX_ARENA_SIZE: usize = 512 * 1024 * 1024;
/// The pause-time budget, in microseconds, of an arena built without one.
pub const DEFAULT_PAUSE_TIME: u64 = 100_000;
/// The spare-memory ratio, in millionths, of an arena built without one.
pub const DEFAULT_SPARE: u32 = 750_000;
/// The spare-memory ratio that stands for one.
pub const SPARE_ONE: u32 = 1_000_000;

/// An arena: an address space of words, the memory that its pools have
/// taken from it, and the collector's counters.
pub struct Arena {
    /// The words of the address space.
    pub mem: Vec<usize>,
    /// The first address not yet handed to a pool.
    pub top: usize,
    /// The words that pools hold.
    pub committed: usize,
    /// The most words that pools may hold at once.
    pub commit_limit: usize,
    /// The number of flips so far.
    pub epoch: u64,
    /// The number of collections in which objects moved.
    pub moved: usize,
    /// The advisory pause-time bound, in microseconds.
    pub pause_time: u64,
    /// The most spare memory kept, in millionths of the memory in use.
    pub spare: u32,
}

impl Arena {
    /// The arena's bookkeeping is consistent: memory is handed out upwards
    /// from `ARENA_BASE` and never past the end of the address space.
    pub open spec fn wf(&self) -> bool {
        &&& ARENA_BASE <= self.top <= self.mem@.len()
        &&& self.mem@.len() <= MAX_ARENA_SIZE
        &&& self.committed <= self.top
        &&& self.spare <= SPARE_ONE
    }

    /// The words of the address space.
    pub open spec fn memory(&self) -> Seq<usize> {
        self.mem@
    }

    /// The number of flips so far.
    pub open spec fn flips(&self) -> u64 {
        self.epoch
    }

    /// The address space: one word per address.
    pub fn as_raw(&self) -> (r: &Vec<usize>)
        ensures
            r@ == self.memory(),
    {
        &self.mem
    }

    /// The size of the address space, in words.
    pub fn size(&self) -> (r: usize)
        ensures
            r == self.memory().len(),
    {
        self.mem.len()
    }

    /// The word at `addr`.
    pub fn read(&self, addr: usize) -> (r: usize)
        requires
            addr < self.memory().len(),
        ensures
            r == self.memory()[addr as int],
    {
        self.mem[addr]
    }

    /// Writes `value` at `addr`.
    pub fn write(&mut self, addr: usize, value: usize)
        requires
            addr < old(self).memory().len(),
        ensures
            final(self).memory() == old(self).memory().update(addr as int, value),
            final(self).top == old(self).top,
            final(self).committed == old(self).committed,
            final(self).commit_limit == old(self).commit_limit,
            final(self).epoch == old(self).epoch,
            final(self).moved == old(self).moved,
            final(self).pause_time == old(self).pause_time,
            final(self).spare == old(self).spare,
    {
        self.mem.set(addr, value);
    }

    /// The number of collections in which objects may have moved; zero
    /// while only non-moving pools have been collected.
    pub fn moved_collections(&self) -> (r: usize)
        ensures
            r == self.moved,
    {
        self.moved
    }

    /// The most memory, in words, that pools may hold at once.
    pub fn commit_limit(&self) -> (r: usize)
        ensures
            r == self.commit_limit,
    {
        self.commit_limit
    }

    /// Sets the commit limit; it cannot be set below the memory in use.
    pub fn set_commit_limit(&mut self, limit: usize) -> (r: Result<(), MpsError>)
        ensures
            r == if limit < old(self).committed {
                Err::<(), MpsError>(MpsError::InvalidParam)
            } else {
                Ok::<(), MpsError>(())
            },
            final(self).commit_limit == if limit < old(self).committed {
                old(self).commit_limit
            } else {
                limit
            },
            final(self).mem == old(self).mem,
            final(self).top == old(self).top,
            final(self).committed == old(self).committed,
            final(self).epoch == old(self).epoch,
            final(self).moved == old(self).moved,
            final(self).pause_time == old(self).pause_time,
            final(self).spare == old(self).spare,
    {
        if limit < self.committed {
            Err(MpsError::InvalidParam)
        } else {
            self.commit_limit = limit;
            Ok(())
        }
    }

    /// The memory, in words, that pools hold.
    pub fn committed(&self) -> (r: usize)
        ensures
            r == self.committed,
    {
        self.committed
    }

    /// The memory kept aside for later use without being in use. This arena
    /// keeps none: memory that a pool gives back is returned at once.
    pub fn spare_committed(&self) -> (r: usize)
        ensures
            r == 0,
    {
        0
    }

    /// The advisory bound, in microseconds, on how long an operation may
    /// pause the client.
    pub fn pause_time(&self) -> (r: u64)
        ensures
            r == self.pause_time,
    {
        self.pause_time
    }

    /// Sets the advisory pause-time bound, in microseconds.
    pub fn set_pause_time(&mut self, pause_time: u64)
        ensures
            final(self).pause_time == pause_time,
            final(self).mem == old(self).mem,
            final(self).top == old(self).top,
            final(self).committed == old(self).committed,
            final(self).commit_limit == old(self).commit_limit,
            final(self).epoch == old(self).epoch,
            final(self).moved == old(self).moved,
            final(self).spare == old(self).spare,
    {
        self.pause_time = pause_time;
    }

    /// The most spare memory the arena keeps, in millionths of the memory
    /// in use.
    pub fn spare_limit(&self) -> (r: u32)
        ensures
            r == self.spare,
    {
        self.spare
    }

    /// Asks the collector to start a collection and returns at once. The
    /// start is a flip: every reservation made before it fails to commit.
    /// Once the flip counter is exhausted no collection can start.
    pub fn begin_collection(&mut self) -> (r: Result<(), MpsError>)
        ensures
            r == if old(self).epoch == u64::MAX {
                Err::<(), MpsError>(MpsError::Limit)
            } else {
                Ok::<(), MpsError>(())
            },
            final(self).epoch == if old(self).epoch == u64::MAX {
                old(self).epoch
            } else {
                (old(self).epoch + 1) as u64
            },
            final(self).mem == old(self).mem,
            final(self).top == old(self).top,
            final(self).committed == old(self).committed,
            final(self).commit_limit == old(self).commit_limit,
            final(self).moved == old(self).moved,
            final(self).pause_time == old(self).pause_time,
            final(self).spare == old(self).spare,
    {
        if self.epoch == u64::MAX {
            Err(MpsError::Limit)
        } else {
            self.epoch = self.epoch + 1;
            Ok(())
        }
    }

    /// Runs a full collection of `pool` and returns when it is complete;
    /// `roots` are the references the client holds outside the pool.
    ///
    /// The pool's `moves` then lists each object the collection moved, with
    /// its new address. A forwarding marker to the copy stands at the old
    /// address, and the copy holds the old object's words with each
    /// reference relocated through `moves`; each root is relocated the same
    /// way.
    pub fn full_collection<F: RawFormatMethods, P: Pool<F>>(
        &mut self,
        pool: &mut P,
        roots: &mut Vec<usize>,
    )
        requires
            old(self).wf(),
            old(pool).core_view().wf(),
            old(pool).core_view().bound_to(old(self)),
        ensures
            final(self).wf(),
            final(pool).core_view().wf(),
            final(pool).core_view().bound_to(final(self)),
            final(pool).core_view().format == old(pool).core_view().format,
            final(pool).core_view().moving == old(pool).core_view().moving,
            final(self).mem@.len() == old(self).mem@.len(),
            final(self).commit_limit == old(self).commit_limit,
            final(roots)@.len() == old(roots)@.len(),
            old(self).moved <= final(self).moved,
            old(self).epoch < u64::MAX ==> {
                &&& final(self).epoch == old(self).epoch + 1
                &&& final(pool).core_view().aps@.len() == old(pool).core_view().aps@.len()
                &&& forall|i: int|
                    0 <= i < final(pool).core_view().aps@.len() ==> {
                        let st = #[trigger] final(pool).core_view().aps@[i];
                        &&& !st.open
                        &&& st.pending == old(pool).core_view().aps@[i].pending
                        &&& st.reserved_addr == old(pool).core_view().aps@[i].reserved_addr
                        &&& st.reserved_size == old(pool).core_view().aps@[i].reserved_size
                    }
            },
            !old(pool).core_view().moving ==> {
                &&& final(pool).core_view().segments == old(pool).core_view().segments
                &&& final(self).mem == old(self).mem
                &&& final(self).moved == old(self).moved
                &&& *final(roots) == *old(roots)
            },
            forall|i: int|
                0 <= i < final(roots)@.len() ==> #[trigger] final(roots)@[i] == old(roots)@[i] || (
                F::valid_at(final(self).mem@, old(roots)@[i] as int) && F::forwarded_to(
                    final(self).mem@,
                    old(roots)@[i] as int,
                ) == Some(final(roots)@[i]) && copied_with_fixes::<F>(
                    old(self).mem@,
                    final(self).mem@,
                    old(roots)@[i],
                    final(roots)@[i],
                )),
            old(pool).core_view().heap_parses(old(self).mem@) ==> final(pool).core_view().heap_parses(final(self).mem@),
            old(self).epoch < u64::MAX ==> {
                &&& !old(pool).core_view().moving ==> final(pool).core_view().moves@.len() == 0
                &&& forall|i: int|
                    0 <= i < final(roots)@.len() ==> #[trigger] final(roots)@[i] == relocate(
                        final(pool).core_view().moves@,
                        old(roots)@[i],
                    )
                &&& forall|k: int|
                    0 <= k < final(pool).core_view().moves@.len() ==> {
                        let e = #[trigger] final(pool).core_view().moves@[k];
                        &&& F::valid_at(final(self).mem@, e.0 as int)
                        &&& F::forwarded_to(final(self).mem@, e.0 as int) == Some(e.1)
                        &&& copied_relocated::<F>(
                            old(self).mem@,
                            final(self).mem@,
                            final(pool).core_view().moves@,
                            e.0,
                            e.1,
                        )
                    }
            },
    {
        let core = pool.pool_core_mut();
        core.collect(self, roots);
    }

    /// The words skipped to align the next segment to `align`.
    pub open spec fn align_gap(&self, align: usize) -> int {
        if self.top % align == 0 {
            0
        } else {
            align - self.top % align
        }
    }

    /// Why `size` fresh words aligned to `align` cannot be taken: the commit
    /// limit would be passed, or the address space has no room; `None` when
    /// they can.
    pub open spec fn take_error(&self, size: usize, align: usize) -> Option<MpsError> {
        if self.commit_limit < self.committed + size {
            Some(MpsError::CommitLimit)
        } else if self.mem@.len() < self.top + self.align_gap(align) + size {
            Some(MpsError::Memory)
        } else {
            None
        }
    }

    /// Takes `size` words of fresh memory at an address aligned to `align`.
    pub(crate) fn take_segment(&mut self, size: usize, align: usize) -> (r: Result<
        usize,
        MpsError,
    >)
        requires
            old(self).wf(),
            0 < align,
        ensures
            final(self).wf(),
            final(self).mem == old(self).mem,
            final(self).epoch == old(self).epoch,
            final(self).moved == old(self).moved,
            final(self).commit_limit == old(self).commit_limit,
            final(self).pause_time == old(self).pause_time,
            final(self).spare == old(self).spare,
            old(self).top <= final(self).top,
            r is Err <==> old(self).take_error(size, align) is Some,
            match r {
                Ok(base) => {
                    &&& base % align == 0
                    &&& old(self).top <= base
                    &&& base + size == final(self).top
                    &&& final(self).committed == old(self).committed + size
                },
                Err(e) => {
                    &&& old(self).take_error(size, align) == Some(e)
                    &&& final(self).top == old(self).top
                    &&& final(self).committed == old(self).committed
                },
            },
    {
        let rem = self.top % align;
        let gap: usize = if rem == 0 {
            0
        } else {
            align - rem
        };
        if self.commit_limit < self.committed || self.commit_limit - self.committed < size {
            return Err(MpsError::CommitLimit);
        }
        if self.mem.len() - self.top < gap || self.mem.len() - self.top - gap < size {
            return Err(MpsError::Memory);
        }
        let base = self.top + gap;
        proof {
            let t = self.top as int;
            let al = align as int;
            assert((t + gap) % al == 0) by (nonlinear_arith)
                requires
                    al > 0,
                    rem == t % al,
                    gap == if rem == 0 {
                        0
                    } else {
                        al - rem
                    },
                    t >= 0,
            {
                assert(t == (t / al) * al + t % al);
                if rem != 0 {
                    assert(t + gap == (t / al + 1) * al);
                }
            }
        }
        self.top = base + size;
        self.committed = self.committed + size;
        Ok(base)
    }

    /// Gives back `size` words that a pool held.
    pub(crate) fn release(&mut self, size: usize)
        requires
            old(self).wf(),
        ensures
            final(self).wf(),
            final(self).mem == old(self).mem,
            final(self).top == old(self).top,
            final(self).epoch == old(self).epoch,
            final(self).moved == old(self).moved,
            final(self).commit_limit == old(self).commit_limit,
            final(self).committed == if size <= old(self).committed {
                (old(self).committed - size) as usize
            } else {
                0
            },
    {
        if size <= self.committed {
            self.committed = self.committed - size;
        } else {
            self.committed = 0;
        }
    }
}

/// The class of arenas that take their address space from virtual memory.
pub struct VirtualMemoryArenaClass;

impl VirtualMemoryArenaClass {
    /// The class.
    pub fn get() -> (r: VirtualMemoryArenaClass) {
        VirtualMemoryArenaClass
    }

    /// A builder with every setting left at its default.
    pub fn builder(&self) -> (r: VirtualMemoryArenaBuilder)
        ensures
            r.arena_size is None,
            r.commit_limit is None,
            r.spare is None,
            r.pause_time is None,
    {
        VirtualMemoryArenaBuilder { arena_size: None, commit_limit: None, spare: None, pause_time: None }
    }
}

/// The settings of an arena to build; `None` takes the default.
pub struct VirtualMemoryArenaBuilder {
    /// The address space to reserve, in words (`DEFAULT_ARENA_SIZE`).
    pub arena_size: Option<usize>,
    /// The most memory pools may hold, in words (no limit).
    pub commit_limit: Option<usize>,
    /// The most spare memory kept, in millionths of the memory in use
    /// (`DEFAULT_SPARE`); at most `SPARE_ONE`.
    pub spare: Option<u32>,
    /// The advisory pause-time bound, in microseconds (`DEFAULT_PAUSE_TIME`).
    pub pause_time: Option<u64>,
}

/// The address-space size a builder asks for.
pub open spec fn requested_size(b: VirtualMemoryArenaBuilder) -> usize {
    match b.arena_size {
        Some(s) => s,
        None => DEFAULT_ARENA_SIZE,
    }
}

impl VirtualMemoryArenaBuilder {
    /// Builds the arena. A size that leaves no room past `ARENA_BASE`, or a
    /// spare ratio above one, is an invalid parameter; a size above
    /// `MAX_ARENA_SIZE` cannot be reserved.
    pub fn build(self) -> (r: Result<Arena, MpsError>)
        ensures
            match r {
                Ok(a) => {
                    &&& a.wf()
                    &&& a.memory().len() == requested_size(self)
                    &&& forall|i: int| 0 <= i < a.memory().len() ==> a.memory()[i] == 0
                    &&& a.top == ARENA_BASE
                    &&& a.committed == 0
                    &&& a.epoch == 0
                    &&& a.moved == 0
                    &&& a.commit_limit == match self.commit_limit {
                        Some(l) => l,
                        None => usize::MAX,
                    }
                    &&& a.spare == match self.spare {
                        Some(s) => s,
                        None => DEFAULT_SPARE,
                    }
                    &&& a.pause_time == match self.pause_time {
                        Some(p) => p,
                        None => DEFAULT_PAUSE_TIME,
                    }
                },
                Err(e) => e == if requested_size(self) <= ARENA_BASE || (self.spare is Some
                    && self.spare->0 > SPARE_ONE) {
                    MpsError::InvalidParam
                } else {
                    MpsError::Resource
                },
            },
            r is Err <==> (requested_size(self) <= ARENA_BASE || requested_size(self)
                > MAX_ARENA_SIZE || (self.spare is Some && self.spare->0 > SPARE_ONE)),
    {
        let size = match self.arena_size {
            Some(s) => s,
            None => DEFAULT_ARENA_SIZE,
        };
        let spare = match self.spare {
            Some(s) => s,
            None => DEFAULT_SPARE,
        };
        if size <= ARENA_BASE || spare > SPARE_ONE {
            return Err(MpsError::InvalidParam);
        }
        if size > MAX_ARENA_SIZE {
            return Err(MpsError::Resource);
        }
        let mut mem: Vec<usize> = Vec::with_capacity(size);
        while mem.len() < size
            invariant
                mem@.len() <= size,
                forall|i: int| 0 <= i < mem@.len() ==> mem@[i] == 0,
            decreases size - mem@.len(),
        {
            mem.push(0);
        }
        Ok(
            Arena {
                mem,
                top: ARENA_BASE,
                committed: 0,
                commit_limit: match self.commit_limit {
                    Some(l) => l,
                    None => usize::MAX,
                },
                epoch: 0,
                moved: 0,
                pause_time: match self.pause_time {
                    Some(p) => p,
                    None => DEFAULT_PAUSE_TIME,
                },
                spare,
            },
        )
    }
}

} // verus!
