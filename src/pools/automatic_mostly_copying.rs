//! The automatic mostly-copying pool class: collected and moving, the class
//! meant for production.
use vstd::prelude::*;

use crate::arena::Arena;
use crate::err::MpsError;
use crate::format::{ObjectFormat, RawFormatMethods, is_pow2, is_power_of_two};
use crate::pools::{AutomaticPool, Pool, PoolCore};

verus! {

/// The smallest segment, in words, a mostly-copying pool takes from its
/// arena unless told otherwise.
pub const COPYING_EXTEND_BY: usize = 8192;

/// Builds an automatic mostly-copying pool.
pub struct AutoMostlyCopyingBuilder<'a> {
    /// The arena the pool will take its memory from.
    pub arena: &'a Arena,
    /// Whether ambiguous references to the inside of a block keep it alive.
    pub allow_interior: Option<bool>,
    /// The smallest segment the pool takes from the arena, in words.
    pub extend_by: Option<usize>,
}

impl<'a> AutoMostlyCopyingBuilder<'a> {
    /// Says whether ambiguous references to the inside of a block keep it
    /// alive; they do by default.
    pub fn allow_interior(&mut self, b: bool) -> (r: &mut Self)
        ensures
            r.allow_interior == Some(b),
            r.extend_by == old(self).extend_by,
            *final(self) == *final(r),
    {
        self.allow_interior = Some(b);
        self
    }

    /// Sets the smallest segment the pool takes from the arena, in words.
    pub fn extend_by(&mut self, size: usize) -> (r: &mut Self)
        ensures
            r.extend_by == Some(size),
            r.allow_interior == old(self).allow_interior,
            *final(self) == *final(r),
    {
        self.extend_by = Some(size);
        self
    }

    /// Builds the pool on `format`, which must be a managed format whose
    /// alignment is that of its methods and a power of two; a segment size
    /// that cannot be rounded up to the alignment is an invalid parameter.
    pub fn build<F: RawFormatMethods>(&self, format: ObjectFormat<F>) -> (r: Result<
        AutoMostlyCopyingPool<F>,
        MpsError,
    >)
        ensures
            r is Ok <==> (format.managed && format.alignment == F::spec_alignment() && is_pow2(
                format.alignment,
            ) && match self.extend_by {
                Some(e) => e <= usize::MAX - format.alignment,
                None => COPYING_EXTEND_BY <= usize::MAX - format.alignment,
            }),
            match r {
                Ok(p) => {
                    &&& p.core.wf()
                    &&& p.core.bound_to(self.arena)
                    &&& p.core.format == format
                    &&& p.core.moving
                    &&& p.core.segments@.len() == 0
                    &&& p.core.aps@.len() == 0
                    &&& match self.extend_by {
                        Some(e) => e <= p.core.extend_by < e + format.alignment,
                        None => COPYING_EXTEND_BY <= p.core.extend_by < COPYING_EXTEND_BY
                            + format.alignment,
                    }
                    &&& p.allow_interior == match self.allow_interior {
                        Some(b) => b,
                        None => true,
                    }
                },
                Err(e) => e == MpsError::InvalidParam,
            },
    {
        let a = F::alignment();
        if !format.managed || format.alignment != a || !is_power_of_two(a) {
            return Err(MpsError::InvalidParam);
        }
        let ext = match self.extend_by {
            Some(e) => e,
            None => COPYING_EXTEND_BY,
        };
        if ext > usize::MAX - a {
            return Err(MpsError::InvalidParam);
        }
        let core = PoolCore::new(format, true, ext);
        let allow_interior = match self.allow_interior {
            Some(b) => b,
            None => true,
        };
        Ok(AutoMostlyCopyingPool { core, allow_interior })
    }
}

/// An automatic mostly-copying pool: collected, and a collection may move
/// its objects.
pub struct AutoMostlyCopyingPool<F> {
    /// The state every pool class shares.
    pub core: PoolCore<F>,
    /// Whether ambiguous references to the inside of a block keep it alive.
    pub allow_interior: bool,
}

impl<F: RawFormatMethods> AutoMostlyCopyingPool<F> {
    /// A builder with every setting left at its default.
    pub fn builder<'a>(arena: &'a Arena) -> (r: AutoMostlyCopyingBuilder<'a>)
        ensures
            r.arena == arena,
            r.allow_interior is None,
            r.extend_by is None,
    {
        AutoMostlyCopyingBuilder { arena, allow_interior: None, extend_by: None }
    }
}

impl<F: RawFormatMethods> Pool<F> for AutoMostlyCopyingPool<F> {
    open spec fn core_view(&self) -> PoolCore<F> {
        self.core
    }

    fn pool_core(&self) -> (r: &PoolCore<F>) {
        &self.core
    }

    fn pool_core_mut(&mut self) -> (r: &mut PoolCore<F>) {
        &mut self.core
    }

    open spec fn automatic(&self) -> bool {
        true
    }

    fn is_automatic(&self) -> (r: bool) {
        true
    }
}

impl<F: RawFormatMethods> AutomaticPool<F> for AutoMostlyCopyingPool<F> {

}

} // verus!
