//! The automatic mark-sweep pool class: collected, never moving. Simple,
//! and meant for debugging rather than production.
use vstd::prelude::*;

use crate::arena::Arena;
use crate::err::MpsError;
use crate::format::{ObjectFormat, RawFormatMethods, is_pow2, is_power_of_two};
use crate::pools::{AutomaticPool, Pool, PoolCore};

verus! {

/// The smallest segment, in words, a mark-sweep pool takes from its arena.
pub const MARK_SWEEP_EXTEND_BY: usize = 4096;

/// The templates a debugging pool writes around and over blocks.
pub struct DebugOptions {
    /// Written before and after each allocated block.
    pub fence_template: Option<Vec<u8>>,
    /// Written over freed memory.
    pub free_template: Option<Vec<u8>>,
}

impl Default for DebugOptions {
    fn default() -> (r: DebugOptions)
        ensures
            r.fence_template is Some,
            r.free_template is Some,
            r.fence_template->0@ == seq![70u8, 69, 78, 67, 69, 32, 0xDE, 0xAD, 0xBE, 0xEF],
            r.free_template->0@ == seq![70u8, 82, 69, 69, 32, 0xCA, 0xFE, 0xBA, 0xBE],
    {
        let fence: Vec<u8> = vec![70u8, 69, 78, 67, 69, 32, 0xDE, 0xAD, 0xBE, 0xEF];
        let free: Vec<u8> = vec![70u8, 82, 69, 69, 32, 0xCA, 0xFE, 0xBA, 0xBE];
        DebugOptions { fence_template: Some(fence), free_template: Some(free) }
    }
}

/// Builds an automatic mark-sweep pool.
pub struct AutoMarkSweepBuilder<'a> {
    /// The arena the pool will take its memory from.
    pub arena: &'a Arena,
    /// Debugging templates, if the pool is to check its blocks.
    pub debug: Option<DebugOptions>,
    /// Whether references to the pool's blocks may be ambiguous.
    pub allow_ambiguous: Option<bool>,
}

impl<'a> AutoMarkSweepBuilder<'a> {
    /// Says whether references to the pool's blocks may be ambiguous; they
    /// may by default.
    pub fn allow_ambiguous(&mut self, b: bool) -> (r: &mut Self)
        ensures
            r.allow_ambiguous == Some(b),
            r.debug == old(self).debug,
            *final(self) == *final(r),
    {
        self.allow_ambiguous = Some(b);
        self
    }

    /// Makes the pool a debugging pool with the given templates, or a plain
    /// one for `None`.
    pub fn debug(&mut self, opts: Option<DebugOptions>) -> (r: &mut Self)
        ensures
            r.debug == opts,
            r.allow_ambiguous == old(self).allow_ambiguous,
            *final(self) == *final(r),
    {
        self.debug = opts;
        self
    }

    /// Builds the pool on `format`, which must be a managed format whose
    /// alignment is that of its methods and a power of two, small enough
    /// that a segment can be rounded up to it.
    pub fn build<F: RawFormatMethods>(&mut self, format: ObjectFormat<F>) -> (r: Result<
        AutoMarkSweep<F>,
        MpsError,
    >)
        ensures
            r is Ok <==> (format.managed && format.alignment == F::spec_alignment() && is_pow2(
                format.alignment,
            ) && format.alignment <= usize::MAX - MARK_SWEEP_EXTEND_BY),
            match r {
                Ok(p) => {
                    &&& p.core.wf()
                    &&& p.core.bound_to(old(self).arena)
                    &&& p.core.format == format
                    &&& !p.core.moving
                    &&& p.core.segments@.len() == 0
                    &&& p.core.aps@.len() == 0
                    &&& MARK_SWEEP_EXTEND_BY <= p.core.extend_by < MARK_SWEEP_EXTEND_BY
                        + format.alignment
                    &&& p.allow_ambiguous == match old(self).allow_ambiguous {
                        Some(b) => b,
                        None => true,
                    }
                    &&& p.debug == old(self).debug
                },
                Err(e) => e == MpsError::InvalidParam,
            },
    {
        let a = F::alignment();
        if !format.managed || format.alignment != a || !is_power_of_two(a) {
            return Err(MpsError::InvalidParam);
        }
        if a > usize::MAX - MARK_SWEEP_EXTEND_BY {
            return Err(MpsError::InvalidParam);
        }
        let core = PoolCore::new(format, false, MARK_SWEEP_EXTEND_BY);
        let allow_ambiguous = match self.allow_ambiguous {
            Some(b) => b,
            None => true,
        };
        let debug = self.debug.take();
        Ok(AutoMarkSweep { core, allow_ambiguous, debug })
    }
}

/// An automatic mark-sweep pool: collected, and its objects never move.
pub struct AutoMarkSweep<F> {
    /// The state every pool class shares.
    pub core: PoolCore<F>,
    /// Whether references to the pool's blocks may be ambiguous.
    pub allow_ambiguous: bool,
    /// The debugging templates, for a debugging pool.
    pub debug: Option<DebugOptions>,
}

impl<F: RawFormatMethods> AutoMarkSweep<F> {
    /// A builder with every setting left at its default.
    pub fn builder<'a>(arena: &'a Arena) -> (r: AutoMarkSweepBuilder<'a>)
        ensures
            r.arena == arena,
            r.debug is None,
            r.allow_ambiguous is None,
    {
        AutoMarkSweepBuilder { arena, debug: None, allow_ambiguous: None }
    }
}

impl<F: RawFormatMethods> Pool<F> for AutoMarkSweep<F> {
    open spec fn core_view(&self) -> PoolCore<F> {
        self.core
    }

    fn pool_core(&self) -> (r: &PoolCore<F>) {
        &self.core
    }

    fn pool_core_mut(&mut self) -> (r: &mut PoolCore<F>) {
        &mut self.core
    }

    open spec fn automatic(&self) -> bool {
        true
    }

    fn is_automatic(&self) -> (r: bool) {
        true
    }
}

impl<F: RawFormatMethods> AutomaticPool<F> for AutoMarkSweep<F> {

}

} // verus!
