//! Allocation points: the two-step reserve/commit protocol by which a client
//! allocates in a pool while the collector may run at any moment.
//!
//! 1. `reserve` a block whose size is a multiple of the pool's alignment.
//! 2. Initialise the block so that the format's methods can read it. Until
//!    it is committed, nothing the collector can see may refer to it, and
//!    references stored in it must not be followed.
//! 3. `commit` the block. `true` means the object is now the collector's to
//!    scan, move or reclaim; `false` means a flip came after the
//!    reservation: the block is lost and the client starts again from 1.
//!
//! A point holds one reservation at a time: it is committed, or dropped with
//! `abandon`, before the next `reserve`.
use vstd::prelude::*;

use crate::arena::{ARENA_BASE, Arena};
use crate::err::MpsError;
use crate::format::{RawFormatMethods, parses};
use crate::pools::{Pool, Segment};

verus! {

/// An allocation point of a pool: a handle to the point's state, which the
/// pool holds.
#[derive(Clone, Copy)]
pub struct AllocationPoint {
    /// The index of the point's state in its pool.
    pub index: usize,
}

impl AllocationPoint {
    /// The handle for the allocation point of index `raw` in its pool.
    pub fn from_raw(raw: usize) -> (r: AllocationPoint)
        ensures
            r.index == raw,
    {
        AllocationPoint { index: raw }
    }

    /// The index of the point's state in its pool.
    pub fn as_raw(&self) -> (r: usize)
        ensures
            r == self.index,
    {
        self.index
    }

    /// Reserves a block of `size` words on this point of `pool`.
    ///
    /// A size that is zero or not a multiple of the pool's alignment is an
    /// invalid parameter. A block that fits in the point's buffer is served
    /// from it, which never fails; otherwise the pool takes a new segment
    /// from the arena, which fails when the commit limit or the address
    /// space is exhausted. The block's address is a multiple of the
    /// alignment. A second reservation before the first is committed or
    /// abandoned is not allowed.
    pub fn reserve<F: RawFormatMethods, P: Pool<F>>(
        &self,
        arena: &mut Arena,
        pool: &mut P,
        size: usize,
    ) -> (r: Result<usize, MpsError>)
        requires
            old(pool).core_view().wf(),
            old(arena).wf(),
            old(pool).core_view().bound_to(old(arena)),
            self.index < old(pool).core_view().aps@.len(),
            !old(pool).core_view().aps@[self.index as int].pending,
        ensures
            final(pool).core_view().wf(),
            final(arena).wf(),
            final(pool).core_view().bound_to(final(arena)),
            final(pool).core_view().format == old(pool).core_view().format,
            final(pool).core_view().moving == old(pool).core_view().moving,
            final(pool).core_view().extend_by == old(pool).core_view().extend_by,
            final(pool).core_view().aps@.len() == old(pool).core_view().aps@.len(),
            forall|j: int|
                0 <= j < old(pool).core_view().aps@.len() && j != self.index ==> final(pool).core_view().aps@[j] == old(pool).core_view().aps@[j],
            final(arena).mem == old(arena).mem,
            final(arena).epoch == old(arena).epoch,
            final(arena).moved == old(arena).moved,
            final(arena).commit_limit == old(arena).commit_limit,
            (size == 0 || size % old(pool).core_view().format.alignment != 0) <==> r == Err::<usize, MpsError>(
                MpsError::InvalidParam,
            ),
            size > 0 && size % old(pool).core_view().format.alignment == 0 && !old(pool).core_view().fast_path(
                old(arena),
                self.index as int,
                size,
            ) ==> match r {
                Ok(_) => old(pool).core_view().fill_error(old(arena), size) is None,
                Err(e) => old(pool).core_view().fill_error(old(arena), size) == Some(e),
            },
            match r {
                Ok(addr) => {
                    &&& addr % old(pool).core_view().format.alignment == 0
                    &&& ARENA_BASE <= addr
                    &&& addr + size <= final(arena).mem@.len()
                    &&& final(pool).core_view().aps@[self.index as int].open
                    &&& final(pool).core_view().aps@[self.index as int].epoch == final(arena).epoch
                    &&& final(pool).core_view().aps@[self.index as int].pending
                    &&& final(pool).core_view().aps@[self.index as int].reserved_addr == addr
                    &&& final(pool).core_view().aps@[self.index as int].reserved_size == size
                    &&& final(pool).core_view().aps@[self.index as int].alloc == addr + size
                    &&& final(pool).core_view().block_is_free(self.index as int)
                },
                Err(e) => {
                    &&& !final(pool).core_view().aps@[self.index as int].pending
                    &&& (e == MpsError::InvalidParam || e == MpsError::CommitLimit || e
                        == MpsError::Memory)
                    &&& e != MpsError::InvalidParam ==> !old(pool).core_view().fast_path(old(arena), self.index as int, size)
                },
            },
            size > 0 && size % old(pool).core_view().format.alignment == 0 && old(pool).core_view().fast_path(
                old(arena),
                self.index as int,
                size,
            ) ==> r == Ok::<usize, MpsError>(
                old(pool).core_view().segments@[old(pool).core_view().aps@[self.index as int].seg as int].init,
            ) && final(pool).core_view().aps@[self.index as int].alloc == old(pool).core_view().aps@[self.index as int].alloc + size,
            old(pool).core_view().heap_parses(old(arena).mem@) ==> final(pool).core_view().heap_parses(final(arena).mem@),
    {
        let core = pool.pool_core_mut();
        core.reserve(arena, self.index, size)
    }

    /// Commits the block reserved on this point of `pool`, which the client
    /// has initialised as one object of the pool's format.
    ///
    /// The result is `true`, and the object the pool's, exactly when no flip
    /// came between the reservation and the commit; the object then ends
    /// the run of committed objects that a walk with `skip` from the
    /// segment's base goes through. On `false` the client must reserve and
    /// initialise the block again.
    pub fn commit<F: RawFormatMethods, P: Pool<F>>(
        &self,
        arena: &Arena,
        pool: &mut P,
        addr: usize,
        size: usize,
    ) -> (r: bool)
        requires
            old(pool).core_view().wf(),
            old(pool).core_view().bound_to(arena),
            self.index < old(pool).core_view().aps@.len(),
            old(pool).core_view().aps@[self.index as int].pending,
            addr == old(pool).core_view().aps@[self.index as int].reserved_addr,
            size == old(pool).core_view().aps@[self.index as int].reserved_size,
            F::valid_at(arena.mem@, addr as int),
            F::size_at(arena.mem@, addr as int) == size,
        ensures
            final(pool).core_view().wf(),
            final(pool).core_view().format == old(pool).core_view().format,
            final(pool).core_view().moving == old(pool).core_view().moving,
            final(pool).core_view().extend_by == old(pool).core_view().extend_by,
            final(pool).core_view().aps@.len() == old(pool).core_view().aps@.len(),
            forall|j: int|
                0 <= j < old(pool).core_view().aps@.len() && j != self.index ==> final(pool).core_view().aps@[j] == old(pool).core_view().aps@[j],
            !final(pool).core_view().aps@[self.index as int].pending,
            r == (old(pool).core_view().aps@[self.index as int].open && old(pool).core_view().aps@[self.index as int].epoch == arena.epoch),
            r ==> {
                let k = old(pool).core_view().aps@[self.index as int].seg as int;
                &&& final(pool).core_view().segments@ == old(pool).core_view().segments@.update(
                    k,
                    Segment { init: (addr + size) as usize, ..old(pool).core_view().segments@[k] },
                )
                &&& final(pool).core_view().aps@[self.index as int].open
            },
            !r ==> final(pool).core_view().segments == old(pool).core_view().segments,
            !r ==> !final(pool).core_view().aps@[self.index as int].open,
            r ==> {
                let base = old(pool).core_view().segments@[old(pool).core_view().aps@[self.index as int].seg as int].base;
                parses::<F>(arena.mem@, base as int, addr as int) ==> parses::<F>(
                    arena.mem@,
                    base as int,
                    addr + size,
                )
            },
            old(pool).core_view().heap_parses(arena.mem@) ==> final(pool).core_view().heap_parses(arena.mem@),
    {
        let core = pool.pool_core_mut();
        core.commit(arena, self.index, addr, size)
    }

    /// Drops the block reserved on this point of `pool` without committing
    /// it, so that the point can reserve again.
    pub fn abandon<F: RawFormatMethods, P: Pool<F>>(&self, pool: &mut P)
        requires
            old(pool).core_view().wf(),
            self.index < old(pool).core_view().aps@.len(),
            old(pool).core_view().aps@[self.index as int].pending,
        ensures
            final(pool).core_view().wf(),
            final(pool).core_view().format == old(pool).core_view().format,
            final(pool).core_view().moving == old(pool).core_view().moving,
            final(pool).core_view().segments == old(pool).core_view().segments,
            final(pool).core_view().aps@.len() == old(pool).core_view().aps@.len(),
            forall|j: int|
                0 <= j < old(pool).core_view().aps@.len() && j != self.index ==> final(pool).core_view().aps@[j]
                    == old(pool).core_view().aps@[j],
            !final(pool).core_view().aps@[self.index as int].pending,
    {
        let core = pool.pool_core_mut();
        core.abandon(self.index);
    }
}

} // verus!
