//! Pools: groups of objects under one format and one policy, each holding
//! the segments it took from its arena and the state of its allocation
//! points.
use vstd::prelude::*;

use crate::alloc_point::AllocationPoint;
use crate::arena::{ARENA_BASE, Arena};
use crate::err::MpsError;
use crate::format::{
    FormatLayout, ObjectFormat, RawFormatMethods, ScanState, is_pow2, lemma_parses_bounds,
    lemma_parses_extend, lemma_parses_frame, lemma_parses_join, parses, relocate, zone_bit, ScanFixState, fix_value,
    run_slot,
};

pub mod automatic_mostly_copying;
pub mod mark_sweep;

verus! {

/// An extent of memory a pool holds: committed objects lie in
/// `[base, init)`, and `[init, limit)` is free.
#[derive(Clone, Copy)]
pub struct Segment {
    /// The first address.
    pub base: usize,
    /// The end of the committed objects.
    pub init: usize,
    /// The end of the extent.
    pub limit: usize,
}

/// The state of one allocation point.
#[derive(Clone, Copy)]
pub struct ApState {
    /// The point holds a buffer: the free part of segment `seg`.
    pub open: bool,
    /// The segment of the buffer.
    pub seg: usize,
    /// The end of the reserved block, or the buffer's `init` when none is
    /// reserved.
    pub alloc: usize,
    /// The flip count when the buffer was taken.
    pub epoch: u64,
    /// A block is reserved and not yet committed.
    pub pending: bool,
    /// The address of the reserved block.
    pub reserved_addr: usize,
    /// The size of the reserved block.
    pub reserved_size: usize,
}

/// The state every pool class shares.
pub struct PoolCore<F> {
    /// The format of the pool's objects.
    pub format: ObjectFormat<F>,
    /// Whether a collection may move the pool's objects.
    pub moving: bool,
    /// The smallest segment the pool takes from the arena, in words.
    pub extend_by: usize,
    /// The extents the pool holds.
    pub segments: Vec<Segment>,
    /// The allocation points, by index.
    pub aps: Vec<ApState>,
    /// No segment reaches past this address.
    pub high: usize,
    /// Old and new address of each object the last collection moved.
    pub moves: Vec<(usize, usize)>,
}

/// Two segments share no address.
pub open spec fn disjoint(s1: Segment, s2: Segment) -> bool {
    s1.limit <= s2.base || s2.limit <= s1.base
}

/// The state of an allocation point agrees with the segments.
pub open spec fn ap_wf(st: ApState, segs: Seq<Segment>, align: usize) -> bool {
    &&& st.open ==> {
        &&& st.seg < segs.len()
        &&& segs[st.seg as int].init <= st.alloc <= segs[st.seg as int].limit
        &&& st.alloc % align == 0
        &&& st.pending ==> st.reserved_addr == segs[st.seg as int].init && st.reserved_addr
            + st.reserved_size == st.alloc
        &&& !st.pending ==> st.alloc == segs[st.seg as int].init
    }
    &&& st.pending ==> st.reserved_size > 0 && st.reserved_size % align == 0
        && st.reserved_addr % align == 0
}

/// Addresses fall into zones of `2^ZONE_SHIFT` words for the collector's
/// reference filter.
pub const ZONE_SHIFT: u64 = 20;

/// Copies the object at `a` to `cur`, just past the run of objects at `to`,
/// and leaves a forwarding marker to the copy at `a`.
fn move_object<F: FormatLayout>(m: &mut Vec<usize>, a: usize, sz: usize, to: usize, cur: usize)
    requires
        F::valid_at(old(m)@, a as int),
        F::size_at(old(m)@, a as int) == sz,
        a + sz <= to <= cur,
        cur + sz <= old(m)@.len(),
        parses::<F>(old(m)@, to as int, cur as int),
    ensures
        final(m)@.len() == old(m)@.len(),
        parses::<F>(final(m)@, to as int, cur + sz),
        F::valid_at(final(m)@, a as int),
        F::size_at(final(m)@, a as int) == sz,
        F::forwarded_to(final(m)@, a as int) == Some(cur),
        forall|i: int|
            0 <= i < old(m)@.len() && !(a <= i < a + sz) && !(cur <= i < cur + sz) ==> final(m)@[i]
                == old(m)@[i],
        parses::<F>(final(m)@, to as int, cur as int),
        parses::<F>(final(m)@, cur as int, cur + sz),
        F::valid_at(final(m)@, cur as int),
        F::size_at(final(m)@, cur as int) == sz,
        forall|i: int| cur <= i < cur + sz ==> #[trigger] final(m)@[i] == old(m)@[i - cur + a],
{
    let ghost m0 = m@;
    assert(m@.len() == m.len());
    let mut j: usize = 0;
    while j < sz
        invariant
            j <= sz,
            a + sz <= to <= cur,
            cur + sz <= m@.len(),
            m@.len() == m0.len(),
            m0.len() <= usize::MAX,
            forall|i: int| cur <= i < cur + j ==> #[trigger] m@[i] == m0[i - cur + a],
            forall|i: int| 0 <= i < m0.len() && !(cur <= i < cur + j) ==> m@[i] == m0[i],
        decreases sz - j,
    {
        let w = m[a + j];
        m.set(cur + j, w);
        j = j + 1;
    }
    proof {
        F::lemma_copy(m0, a as int, m@, cur as int);
        F::lemma_copy(m0, a as int, m@, a as int);
        lemma_parses_frame::<F>(m0, m@, to as int, cur as int);
        lemma_parses_extend::<F>(m@, to as int, cur as int);
    }
    let ghost m1 = m@;
    proof {
        lemma_parses_extend::<F>(m1, cur as int, cur as int);
    }
    F::forward(m, a, cur);
    proof {
        lemma_parses_frame::<F>(m1, m@, to as int, cur + sz);
        lemma_parses_frame::<F>(m1, m@, to as int, cur as int);
        lemma_parses_frame::<F>(m1, m@, cur as int, cur + sz);
        F::lemma_copy(m1, cur as int, m@, cur as int);
    }
}

/// A run of objects stays one when memory changes only in two ranges that
/// it does not overlap.
pub proof fn lemma_parses_outside<F: FormatLayout>(
    m1: Seq<usize>,
    m2: Seq<usize>,
    base: int,
    limit: int,
    lo1: int,
    hi1: int,
    lo2: int,
    hi2: int,
)
    requires
        parses::<F>(m1, base, limit),
        m1.len() == m2.len(),
        forall|i: int|
            0 <= i < m1.len() && !(lo1 <= i < hi1) && !(lo2 <= i < hi2) ==> m2[i] == m1[i],
        limit <= lo1 || hi1 <= base,
        limit <= lo2 || hi2 <= base,
    ensures
        parses::<F>(m2, base, limit),
{
    lemma_parses_bounds::<F>(m1, base, limit);
    assert forall|i: int| base <= i < limit implies m1[i] == m2[i] by {}
    lemma_parses_frame::<F>(m1, m2, base, limit);
}

/// Each entry of a relocation table is a forwarding marker, ending at or
/// before `bound`, to the entry's new address.
pub open spec fn forwards_all<F: FormatLayout>(
    m: Seq<usize>,
    t: Seq<(usize, usize)>,
    bound: int,
) -> bool {
    forall|k: int|
        0 <= k < t.len() ==> {
            let e = #[trigger] t[k];
            &&& F::valid_at(m, e.0 as int)
            &&& e.0 + F::size_at(m, e.0 as int) <= bound
            &&& F::forwarded_to(m, e.0 as int) == Some(e.1)
        }
}

/// Forwarding markers below `bound` stay what they are where the words
/// below `bound` stay the same.
pub proof fn lemma_forwards_frame<F: FormatLayout>(
    m1: Seq<usize>,
    m2: Seq<usize>,
    t: Seq<(usize, usize)>,
    bound: int,
)
    requires
        forwards_all::<F>(m1, t, bound),
        m1.len() == m2.len(),
        forall|i: int| 0 <= i < bound ==> m1[i] == m2[i],
    ensures
        forwards_all::<F>(m2, t, bound),
{
    assert forall|k: int| 0 <= k < t.len() implies {
        let e = #[trigger] t[k];
        &&& F::valid_at(m2, e.0 as int)
        &&& e.0 + F::size_at(m2, e.0 as int) <= bound
        &&& F::forwarded_to(m2, e.0 as int) == Some(e.1)
    } by {
        let e = t[k];
        F::lemma_object(m1, e.0 as int);
        F::lemma_copy(m1, e.0 as int, m2, e.0 as int);
    }
}

/// A reference goes under a table either nowhere or to the new address of
/// an entry for it.
pub proof fn lemma_relocate<F: FormatLayout>(m: Seq<usize>, t: Seq<(usize, usize)>, bound: int, a: usize)
    requires
        forwards_all::<F>(m, t, bound),
    ensures
        relocate(t, a) == a || (F::valid_at(m, a as int) && F::forwarded_to(m, a as int) == Some(
            relocate(t, a),
        )),
    decreases t.len(),
{
    if t.len() > 0 && t[0].0 != a {
        assert(forwards_all::<F>(m, t.drop_first(), bound)) by {
            assert forall|k: int| 0 <= k < t.drop_first().len() implies {
                let e = #[trigger] t.drop_first()[k];
                &&& F::valid_at(m, e.0 as int)
                &&& e.0 + F::size_at(m, e.0 as int) <= bound
                &&& F::forwarded_to(m, e.0 as int) == Some(e.1)
            } by {
                assert(t.drop_first()[k] == t[k + 1]);
            }
        }
        lemma_relocate::<F>(m, t.drop_first(), bound, a);
    } else if t.len() > 0 {
        assert(t[0] == t[0]);
    }
}

/// The object at `x` in `m0` went to `y` in `m1`: each of its words is
/// there, and each reference slot either kept its value or now refers to
/// where the forwarding marker at its old value says the object went.
pub open spec fn copied_with_fixes<F: FormatLayout>(
    m0: Seq<usize>,
    m1: Seq<usize>,
    x: usize,
    y: usize,
) -> bool {
    &&& F::valid_at(m0, x as int)
    &&& forall|i: int|
        y <= i < y + F::size_at(m0, x as int) ==> #[trigger] m1[i] == m0[i - y + x] || (
        F::ref_slot(m0, x as int, i - y + x) && F::valid_at(m1, m0[i - y + x] as int)
            && F::forwarded_to(m1, m0[i - y + x] as int) == Some(m1[i]))
}

/// The object at `x` in `m0` went to `y` in `m1` under relocation table
/// `t`: each reference slot holds the relocated old value, and every other
/// word the old word.
pub open spec fn copied_relocated<F: FormatLayout>(
    m0: Seq<usize>,
    m1: Seq<usize>,
    t: Seq<(usize, usize)>,
    x: usize,
    y: usize,
) -> bool {
    &&& F::valid_at(m0, x as int)
    &&& forall|i: int|
        y <= i < y + F::size_at(m0, x as int) ==> #[trigger] m1[i] == if F::ref_slot(
            m0,
            x as int,
            i - y + x,
        ) {
            relocate(t, m0[i - y + x])
        } else {
            m0[i - y + x]
        }
}

/// Each entry `(x, y)` of a relocation table is a copy at `y`, in the run
/// of objects `[to, cur)`, of the words of the object at `x` in `m0`.
pub open spec fn entries_copied<F: FormatLayout>(
    m: Seq<usize>,
    m0: Seq<usize>,
    t: Seq<(usize, usize)>,
    to: int,
    cur: int,
) -> bool {
    forall|k: int|
        0 <= k < t.len() ==> {
            let e = #[trigger] t[k];
            let s = F::size_at(m0, e.0 as int);
            &&& F::valid_at(m0, e.0 as int)
            &&& to <= e.1
            &&& e.1 + s <= cur
            &&& parses::<F>(m, to, e.1 as int)
            &&& parses::<F>(m, e.1 as int, cur)
            &&& forall|i: int| e.1 <= i < e.1 + s ==> #[trigger] m[i] == m0[i - e.1 + e.0]
        }
}

/// The entry of a table that moves a reference the table changes.
pub proof fn lemma_relocate_entry(t: Seq<(usize, usize)>, a: usize) -> (k: int)
    requires
        relocate(t, a) != a,
    ensures
        0 <= k < t.len(),
        t[k].0 == a,
        t[k].1 == relocate(t, a),
    decreases t.len(),
{
    if t[0].0 == a {
        0
    } else {
        let k = lemma_relocate_entry(t.drop_first(), a);
        assert(t.drop_first()[k] == t[k + 1]);
        k + 1
    }
}

/// The slots of a run lie inside it.
pub proof fn lemma_run_slot_bounds<F: FormatLayout>(m: Seq<usize>, b: int, l: int, j: int)
    requires
        parses::<F>(m, b, l),
    ensures
        run_slot::<F>(m, b, l, j) ==> b <= j < l,
    decreases l - b,
{
    if b != l {
        F::lemma_object(m, b);
        lemma_run_slot_bounds::<F>(m, b + F::size_at(m, b), l, j);
    }
}

/// Inside one object of a run, the run's slots are that object's slots.
pub proof fn lemma_run_slot_at<F: FormatLayout>(m: Seq<usize>, b: int, y: int, l: int, j: int)
    requires
        parses::<F>(m, b, y),
        parses::<F>(m, y, l),
        F::valid_at(m, y),
        y + F::size_at(m, y) <= l,
        y <= j < y + F::size_at(m, y),
    ensures
        run_slot::<F>(m, b, l, j) == F::ref_slot(m, y, j),
    decreases y - b,
{
    F::lemma_object(m, y);
    F::lemma_alignment();
    if b == y {
        if y != l {
            lemma_run_slot_bounds::<F>(m, y + F::size_at(m, y), l, j);
        }
    } else {
        F::lemma_object(m, b);
        lemma_parses_bounds::<F>(m, b + F::size_at(m, b), y);
        lemma_run_slot_at::<F>(m, b + F::size_at(m, b), y, l, j);
    }
}

/// After the scan of the run `[to, cur)`, each copied entry holds its old
/// object's words with its references fixed.
pub proof fn lemma_entry_after_scan<F: RawFormatMethods>(
    m0: Seq<usize>,
    mb: Seq<usize>,
    mf: Seq<usize>,
    fs: ScanFixState,
    t: Seq<(usize, usize)>,
    to: int,
    cur: int,
    mark: int,
    k: int,
)
    requires
        entries_copied::<F>(mb, m0, t, to, cur),
        0 <= k < t.len(),
        fs.w == u64::MAX,
        fs.zs < 64,
        fs.relocations@ == t,
        forwards_all::<F>(mf, t, mark),
        mb.len() == mf.len(),
        forall|j: int|
            to <= j < cur ==> #[trigger] mf[j] == if run_slot::<F>(mb, to, cur, j) {
                fix_value(fs, mb[j])
            } else {
                mb[j]
            },
    ensures
        copied_with_fixes::<F>(m0, mf, t[k].0, t[k].1),
        copied_relocated::<F>(m0, mf, t, t[k].0, t[k].1),
{
    let e = t[k];
    let x = e.0 as int;
    let y = e.1 as int;
    let s = F::size_at(m0, x);
    F::lemma_object(m0, x);
    F::lemma_alignment();
    lemma_parses_bounds::<F>(mb, y, cur);
    F::lemma_copy(m0, x, mb, y);
    assert forall|i: int| y <= i < y + s implies #[trigger] mf[i] == m0[i - y + x] || (F::ref_slot(
        m0,
        x,
        i - y + x,
    ) && F::valid_at(mf, m0[i - y + x] as int) && F::forwarded_to(mf, m0[i - y + x] as int)
        == Some(mf[i])) by {
        lemma_run_slot_at::<F>(mb, to, y, cur, i);
        assert(mb[i] == m0[i - y + x]);
        let v = mb[i];
        lemma_zone_bit_white(v, fs.zs);
        lemma_relocate::<F>(mf, t, mark, v);
    }
    assert forall|i: int| y <= i < y + s implies #[trigger] mf[i] == if F::ref_slot(
        m0,
        x,
        i - y + x,
    ) {
        relocate(t, m0[i - y + x])
    } else {
        m0[i - y + x]
    } by {
        lemma_run_slot_at::<F>(mb, to, y, cur, i);
        assert(mb[i] == m0[i - y + x]);
        lemma_zone_bit_white(mb[i], fs.zs);
    }
}

/// Every zone bit is set in a word of all ones.
pub proof fn lemma_zone_bit_white(addr: usize, zs: u64)
    requires
        zs < 64,
    ensures
        u64::MAX & zone_bit(addr, zs) != 0,
{
    let x = ((addr as u64) >> zs) & 63u64;
    assert(x < 64) by (bit_vector)
        requires
            x == ((addr as u64) >> zs) & 63u64,
    ;
    assert(u64::MAX & (1u64 << x) != 0) by (bit_vector)
        requires
            x < 64,
    ;
}

/// The sum of two multiples of `a` is one.
pub proof fn lemma_add_aligned(x: int, y: int, a: int)
    requires
        a > 0,
        x % a == 0,
        y % a == 0,
    ensures
        (x + y) % a == 0,
{
    vstd::arithmetic::div_mod::lemma_add_mod_noop(x, y, a);
    assert(0int % a == 0);
}

/// The sum of the sizes of some segments.
pub open spec fn seg_total(s: Seq<Segment>) -> int
    decreases s.len(),
{
    if s.len() == 0 {
        0
    } else {
        seg_total(s.drop_last()) + s.last().limit - s.last().base
    }
}

/// The sum of the free parts of some segments.
pub open spec fn seg_free(s: Seq<Segment>) -> int
    decreases s.len(),
{
    if s.len() == 0 {
        0
    } else {
        seg_free(s.drop_last()) + s.last().limit - s.last().init
    }
}

/// `x`, or `usize::MAX` if it is larger.
pub open spec fn saturate(x: int) -> usize {
    if x > usize::MAX {
        usize::MAX
    } else {
        x as usize
    }
}

impl<F: RawFormatMethods> PoolCore<F> {
    /// The pool's bookkeeping is consistent.
    pub open spec fn wf(&self) -> bool {
        let a = self.format.alignment;
        &&& a == F::spec_alignment()
        &&& is_pow2(a)
        &&& self.extend_by % a == 0
        &&& forall|k: int|
            0 <= k < self.segments@.len() ==> {
                let s = #[trigger] self.segments@[k];
                s.base % a == 0 && s.init % a == 0 && s.base <= s.init <= s.limit && ARENA_BASE
                    <= s.base
            }
        &&& forall|k: int|
            0 <= k < self.segments@.len() ==> (#[trigger] self.segments@[k]).limit <= self.high
        &&& forall|k1: int, k2: int|
            0 <= k1 < self.segments@.len() && 0 <= k2 < self.segments@.len() && k1 != k2
                ==> disjoint(#[trigger] self.segments@[k1], #[trigger] self.segments@[k2])
        &&& forall|i: int|
            0 <= i < self.aps@.len() ==> ap_wf(#[trigger] self.aps@[i], self.segments@, a)
        &&& forall|i: int, j: int|
            0 <= i < self.aps@.len() && 0 <= j < self.aps@.len() && i != j && (
            #[trigger] self.aps@[i]).open && (#[trigger] self.aps@[j]).open ==> self.aps@[i].seg
                != self.aps@[j].seg
    }

    /// The committed part of every segment is a run of objects of the
    /// pool's format: a walk with `skip` from its base lands on its `init`.
    pub open spec fn heap_parses(&self, m: Seq<usize>) -> bool {
        forall|k: int|
            0 <= k < self.segments@.len() ==> parses::<F>(
                m,
                (#[trigger] self.segments@[k]).base as int,
                self.segments@[k].init as int,
            )
    }

    /// A fresh pool with no memory and no allocation points; the segment
    /// size is rounded up to the alignment.
    pub fn new(format: ObjectFormat<F>, moving: bool, extend_by: usize) -> (r: PoolCore<F>)
        requires
            format.alignment == F::spec_alignment(),
            is_pow2(format.alignment),
            extend_by <= usize::MAX - format.alignment,
        ensures
            r.wf(),
            r.format == format,
            r.moving == moving,
            r.segments@.len() == 0,
            r.aps@.len() == 0,
            r.high == 0,
            extend_by <= r.extend_by < extend_by + format.alignment,
    {
        let a = format.alignment;
        let rem = extend_by % a;
        let ext = if rem == 0 {
            extend_by
        } else {
            extend_by + (a - rem)
        };
        proof {
            let e = extend_by as int;
            let al = a as int;
            assert((ext as int) % al == 0) by (nonlinear_arith)
                requires
                    al > 0,
                    rem == e % al,
                    ext == if rem == 0 {
                        e
                    } else {
                        e + al - rem
                    },
                    e >= 0,
            {
                assert(e == (e / al) * al + e % al);
                if rem != 0 {
                    assert(ext == (e / al + 1) * al);
                }
            }
        }
        PoolCore {
            format,
            moving,
            extend_by: ext,
            segments: Vec::new(),
            aps: Vec::new(),
            high: 0,
            moves: Vec::new(),
        }
    }

    /// The words the pool holds, or `usize::MAX` if more.
    pub fn total_size(&self) -> (r: usize)
        requires
            self.wf(),
        ensures
            r == saturate(seg_total(self.segments@)),
    {
        let mut total: usize = 0;
        let mut k: usize = 0;
        while k < self.segments.len()
            invariant
                k <= self.segments@.len(),
                self.wf(),
                seg_total(self.segments@.take(k as int)) >= 0,
                total == saturate(seg_total(self.segments@.take(k as int))),
            decreases self.segments@.len() - k,
        {
            let s = self.segments[k];
            proof {
                assert(self.segments@.take(k + 1).drop_last() =~= self.segments@.take(k as int));
                assert(self.segments@.take(k + 1).last() == self.segments@[k as int]);
            }
            let d: usize = s.limit - s.base;
            total = if total > usize::MAX - d {
                usize::MAX
            } else {
                total + d
            };
            k = k + 1;
        }
        assert(self.segments@.take(k as int) =~= self.segments@);
        total
    }

    /// The words the pool holds but has no object in, or `usize::MAX` if
    /// more.
    pub fn free_size(&self) -> (r: usize)
        requires
            self.wf(),
        ensures
            r == saturate(seg_free(self.segments@)),
    {
        let mut free: usize = 0;
        let mut k: usize = 0;
        while k < self.segments.len()
            invariant
                k <= self.segments@.len(),
                self.wf(),
                seg_free(self.segments@.take(k as int)) >= 0,
                free == saturate(seg_free(self.segments@.take(k as int))),
            decreases self.segments@.len() - k,
        {
            let s = self.segments[k];
            proof {
                assert(self.segments@.take(k + 1).drop_last() =~= self.segments@.take(k as int));
                assert(self.segments@.take(k + 1).last() == self.segments@[k as int]);
            }
            let d: usize = s.limit - s.init;
            free = if free > usize::MAX - d {
                usize::MAX
            } else {
                free + d
            };
            k = k + 1;
        }
        assert(self.segments@.take(k as int) =~= self.segments@);
        free
    }

    /// The reservation of `size` words on allocation point `i` can be served
    /// from the point's buffer without the arena.
    pub open spec fn fast_path(&self, arena: &Arena, i: int, size: usize) -> bool {
        let st = self.aps@[i];
        let s = self.segments@[st.seg as int];
        &&& st.open
        &&& st.epoch == arena.epoch
        &&& st.alloc + size <= s.limit
        &&& s.limit <= arena.mem@.len()
    }

    /// The pool's memory came from `arena`: no segment reaches past the
    /// memory the arena has handed out.
    pub open spec fn bound_to(&self, arena: &Arena) -> bool {
        self.high <= arena.top
    }

    /// The size of the segment a reservation of `size` words takes from the
    /// arena when the point's buffer cannot serve it.
    pub open spec fn fill_size(&self, size: usize) -> usize {
        if size < self.extend_by {
            self.extend_by
        } else {
            size
        }
    }

    /// Why a reservation of `size` words that the buffer cannot serve fails:
    /// the pool counts no more segments, or the arena cannot give the
    /// segment; `None` when it succeeds.
    pub open spec fn fill_error(&self, arena: &Arena, size: usize) -> Option<MpsError> {
        if self.segments@.len() == usize::MAX {
            Some(MpsError::Memory)
        } else {
            arena.take_error(self.fill_size(size), self.format.alignment)
        }
    }

    /// The block reserved on point `i` lies in the point's buffer, outside
    /// every segment's committed objects and every other reserved block.
    pub open spec fn block_is_free(&self, i: int) -> bool {
        let st = self.aps@[i];
        &&& forall|k: int|
            0 <= k < self.segments@.len() ==> st.reserved_addr + st.reserved_size
                <= (#[trigger] self.segments@[k]).base || self.segments@[k].init
                <= st.reserved_addr
        &&& forall|j: int|
            0 <= j < self.aps@.len() && j != i && (#[trigger] self.aps@[j]).open
                && self.aps@[j].pending ==> st.reserved_addr + st.reserved_size
                <= self.aps@[j].reserved_addr || self.aps@[j].reserved_addr
                + self.aps@[j].reserved_size <= st.reserved_addr
    }

    /// Reserves `size` words on allocation point `i`.
    ///
    /// A size that is zero or not a multiple of the alignment is an invalid
    /// parameter. Otherwise the block comes from the point's buffer when it
    /// fits there, which never fails; else from a new segment of the arena,
    /// which fails when the commit limit or the address space is exhausted.
    /// The block's address is a multiple of the alignment.
    pub fn reserve(&mut self, arena: &mut Arena, i: usize, size: usize) -> (r: Result<
        usize,
        MpsError,
    >)
        requires
            old(self).wf(),
            old(arena).wf(),
            old(self).bound_to(old(arena)),
            i < old(self).aps@.len(),
            !old(self).aps@[i as int].pending,
        ensures
            final(self).wf(),
            final(arena).wf(),
            final(self).bound_to(final(arena)),
            final(self).format == old(self).format,
            final(self).moving == old(self).moving,
            final(self).extend_by == old(self).extend_by,
            final(self).aps@.len() == old(self).aps@.len(),
            forall|j: int|
                0 <= j < old(self).aps@.len() && j != i ==> final(self).aps@[j] == old(self).aps@[j],
            final(arena).mem == old(arena).mem,
            final(arena).epoch == old(arena).epoch,
            final(arena).moved == old(arena).moved,
            final(arena).commit_limit == old(arena).commit_limit,
            (size == 0 || size % old(self).format.alignment != 0) <==> r == Err::<usize, MpsError>(
                MpsError::InvalidParam,
            ),
            size > 0 && size % old(self).format.alignment == 0 && !old(self).fast_path(
                old(arena),
                i as int,
                size,
            ) ==> match r {
                Ok(_) => old(self).fill_error(old(arena), size) is None,
                Err(e) => old(self).fill_error(old(arena), size) == Some(e),
            },
            match r {
                Ok(addr) => {
                    &&& addr % old(self).format.alignment == 0
                    &&& ARENA_BASE <= addr
                    &&& addr + size <= final(arena).mem@.len()
                    &&& final(self).aps@[i as int].open
                    &&& final(self).aps@[i as int].epoch == final(arena).epoch
                    &&& final(self).aps@[i as int].pending
                    &&& final(self).aps@[i as int].reserved_addr == addr
                    &&& final(self).aps@[i as int].reserved_size == size
                    &&& final(self).aps@[i as int].alloc == addr + size
                    &&& final(self).block_is_free(i as int)
                },
                Err(e) => {
                    &&& !final(self).aps@[i as int].pending
                    &&& (e == MpsError::InvalidParam || e == MpsError::CommitLimit || e
                        == MpsError::Memory)
                    &&& e != MpsError::InvalidParam ==> !old(self).fast_path(old(arena), i as int, size)
                },
            },
            size > 0 && size % old(self).format.alignment == 0 && old(self).fast_path(
                old(arena),
                i as int,
                size,
            ) ==> r == Ok::<usize, MpsError>(
                old(self).segments@[old(self).aps@[i as int].seg as int].init,
            ) && final(self).aps@[i as int].alloc == old(self).aps@[i as int].alloc + size,
            old(self).heap_parses(old(arena).mem@) ==> final(self).heap_parses(final(arena).mem@),
    {
        let a = self.format.alignment;
        if size == 0 || size % a != 0 {
            return Err(MpsError::InvalidParam);
        }
        let st = self.aps[i];
        if st.open && st.epoch == arena.epoch {
            let seg = self.segments[st.seg];
            if size <= seg.limit - st.alloc && seg.limit <= arena.mem.len() {
                let next = st.alloc + size;
                proof {
                    lemma_add_aligned(st.alloc as int, size as int, a as int);
                }
                self.aps.set(
                    i,
                    ApState {
                        open: true,
                        seg: st.seg,
                        alloc: next,
                        epoch: st.epoch,
                        pending: true,
                        reserved_addr: seg.init,
                        reserved_size: size,
                    },
                );
                proof {
                    lemma_block_is_free(*self, i as int);
                }
                return Ok(seg.init);
            }
        }
        self.fill(arena, i, size)
    }

    /// Serves a reservation from a new segment of the arena; the point's old
    /// buffer keeps its committed objects.
    fn fill(&mut self, arena: &mut Arena, i: usize, size: usize) -> (r: Result<usize, MpsError>)
        requires
            old(self).wf(),
            old(arena).wf(),
            i < old(self).aps@.len(),
            !old(self).aps@[i as int].pending,
            old(self).bound_to(old(arena)),
            size > 0,
            size % old(self).format.alignment == 0,
        ensures
            final(self).wf(),
            final(arena).wf(),
            final(self).bound_to(final(arena)),
            final(self).format == old(self).format,
            final(self).moving == old(self).moving,
            final(self).extend_by == old(self).extend_by,
            final(self).aps@.len() == old(self).aps@.len(),
            forall|j: int|
                0 <= j < old(self).aps@.len() && j != i ==> final(self).aps@[j] == old(self).aps@[j],
            final(arena).mem == old(arena).mem,
            final(arena).epoch == old(arena).epoch,
            final(arena).moved == old(arena).moved,
            final(arena).commit_limit == old(arena).commit_limit,
            match r {
                Ok(addr) => {
                    &&& old(self).fill_error(old(arena), size) is None
                    &&& addr % old(self).format.alignment == 0
                    &&& ARENA_BASE <= addr
                    &&& addr + size <= final(arena).mem@.len()
                    &&& final(self).aps@[i as int].open
                    &&& final(self).aps@[i as int].epoch == final(arena).epoch
                    &&& final(self).aps@[i as int].pending
                    &&& final(self).aps@[i as int].reserved_addr == addr
                    &&& final(self).aps@[i as int].reserved_size == size
                    &&& final(self).aps@[i as int].alloc == addr + size
                    &&& final(self).block_is_free(i as int)
                },
                Err(e) => {
                    &&& !final(self).aps@[i as int].pending
                    &&& old(self).fill_error(old(arena), size) == Some(e)
                },
            },
            old(self).heap_parses(old(arena).mem@) ==> final(self).heap_parses(final(arena).mem@),
    {
        let a = self.format.alignment;
        let want = if size < self.extend_by {
            self.extend_by
        } else {
            size
        };
        if self.segments.len() == usize::MAX {
            return Err(MpsError::Memory);
        }
        match arena.take_segment(want, a) {
            Err(e) => Err(e),
            Ok(base) => {
                let k = self.segments.len();
                self.segments.push(Segment { base, init: base, limit: base + want });
                self.high = base + want;
                proof {
                    lemma_add_aligned(base as int, size as int, a as int);
                }
                self.aps.set(
                    i,
                    ApState {
                        open: true,
                        seg: k,
                        alloc: base + size,
                        epoch: arena.epoch,
                        pending: true,
                        reserved_addr: base,
                        reserved_size: size,
                    },
                );
                proof {
                    assert forall|j: int| 0 <= j < self.aps@.len() implies ap_wf(
                        #[trigger] self.aps@[j],
                        self.segments@,
                        a,
                    ) by {
                        if j != i {
                            assert(self.aps@[j] == old(self).aps@[j]);
                            assert(ap_wf(old(self).aps@[j], old(self).segments@, a));
                            if self.aps@[j].open {
                                assert(self.segments@[self.aps@[j].seg as int] == old(self).segments@[self.aps@[j].seg as int]);
                            }
                        }
                    }
                    if old(self).heap_parses(arena.mem@) {
                        assert forall|k2: int| 0 <= k2 < self.segments@.len() implies parses::<F>(
                            arena.mem@,
                            (#[trigger] self.segments@[k2]).base as int,
                            self.segments@[k2].init as int,
                        ) by {
                            if k2 < k {
                                assert(self.segments@[k2] == old(self).segments@[k2]);
                            }
                        }
                    }
                    assert forall|k2: int|
                        0 <= k2 < self.segments@.len() implies #[trigger] self.segments@[k2].base
                        % a == 0 && self.segments@[k2].init % a == 0 && self.segments@[k2].base
                        <= self.segments@[k2].init <= self.segments@[k2].limit by {
                        if k2 < k {
                            assert(self.segments@[k2] == old(self).segments@[k2]);
                        }
                    }
                }
                proof {
                    lemma_block_is_free(*self, i as int);
                }
                Ok(base)
            },
        }
    }

    /// Commits the block reserved on allocation point `i`.
    ///
    /// When no flip came between the reservation and the commit, the block
    /// becomes part of the pool's committed objects and the result is
    /// `true`. Otherwise the result is `false`: the block is dropped, the
    /// point loses its buffer, and the client must reserve again.
    pub fn commit(&mut self, arena: &Arena, i: usize, addr: usize, size: usize) -> (r: bool)
        requires
            old(self).wf(),
            old(self).bound_to(arena),
            i < old(self).aps@.len(),
            old(self).aps@[i as int].pending,
            addr == old(self).aps@[i as int].reserved_addr,
            size == old(self).aps@[i as int].reserved_size,
            F::valid_at(arena.mem@, addr as int),
            F::size_at(arena.mem@, addr as int) == size,
        ensures
            final(self).wf(),
            final(self).format == old(self).format,
            final(self).moving == old(self).moving,
            final(self).extend_by == old(self).extend_by,
            final(self).aps@.len() == old(self).aps@.len(),
            forall|j: int|
                0 <= j < old(self).aps@.len() && j != i ==> final(self).aps@[j] == old(self).aps@[j],
            !final(self).aps@[i as int].pending,
            r == (old(self).aps@[i as int].open && old(self).aps@[i as int].epoch == arena.epoch),
            r ==> {
                let k = old(self).aps@[i as int].seg as int;
                &&& final(self).segments@ == old(self).segments@.update(
                    k,
                    Segment { init: (addr + size) as usize, ..old(self).segments@[k] },
                )
                &&& final(self).aps@[i as int].open
            },
            !r ==> final(self).segments == old(self).segments,
            !r ==> !final(self).aps@[i as int].open,
            r ==> {
                let base = old(self).segments@[old(self).aps@[i as int].seg as int].base;
                parses::<F>(arena.mem@, base as int, addr as int) ==> parses::<F>(
                    arena.mem@,
                    base as int,
                    addr + size,
                )
            },
            old(self).heap_parses(arena.mem@) ==> final(self).heap_parses(arena.mem@),
    {
        let st = self.aps[i];
        if st.open && st.epoch == arena.epoch {
            let s = self.segments[st.seg];
            proof {
                if parses::<F>(arena.mem@, s.base as int, addr as int) {
                    lemma_parses_extend::<F>(arena.mem@, s.base as int, addr as int);
                }
            }
            self.segments.set(st.seg, Segment { base: s.base, init: st.alloc, limit: s.limit });
            self.aps.set(
                i,
                ApState {
                    open: true,
                    seg: st.seg,
                    alloc: st.alloc,
                    epoch: st.epoch,
                    pending: false,
                    reserved_addr: 0,
                    reserved_size: 0,
                },
            );
            proof {
                let a = self.format.alignment;
                assert forall|j: int| 0 <= j < self.aps@.len() implies ap_wf(
                    #[trigger] self.aps@[j],
                    self.segments@,
                    a,
                ) by {
                    if j != i {
                        assert(self.aps@[j] == old(self).aps@[j]);
                        assert(ap_wf(old(self).aps@[j], old(self).segments@, a));
                        if self.aps@[j].open {
                            assert(self.aps@[j].seg != st.seg);
                        }
                    }
                }
                if old(self).heap_parses(arena.mem@) {
                    assert(parses::<F>(arena.mem@, s.base as int, s.init as int));
                    assert forall|k2: int| 0 <= k2 < self.segments@.len() implies parses::<F>(
                        arena.mem@,
                        (#[trigger] self.segments@[k2]).base as int,
                        self.segments@[k2].init as int,
                    ) by {
                        if k2 != st.seg {
                            assert(self.segments@[k2] == old(self).segments@[k2]);
                        }
                    }
                }
            }
            true
        } else {
            self.aps.set(
                i,
                ApState {
                    open: false,
                    seg: st.seg,
                    alloc: st.alloc,
                    epoch: st.epoch,
                    pending: false,
                    reserved_addr: 0,
                    reserved_size: 0,
                },
            );
            proof {
                let a = self.format.alignment;
                assert forall|j: int| 0 <= j < self.aps@.len() implies ap_wf(
                    #[trigger] self.aps@[j],
                    self.segments@,
                    a,
                ) by {
                    if j != i {
                        assert(self.aps@[j] == old(self).aps@[j]);
                    }
                }
            }
            false
        }
    }

    /// Drops the block reserved on allocation point `i` without committing
    /// it; the block's words go back to the point's buffer.
    pub fn abandon(&mut self, i: usize)
        requires
            old(self).wf(),
            i < old(self).aps@.len(),
            old(self).aps@[i as int].pending,
        ensures
            final(self).wf(),
            final(self).format == old(self).format,
            final(self).moving == old(self).moving,
            final(self).extend_by == old(self).extend_by,
            final(self).segments == old(self).segments,
            final(self).aps@.len() == old(self).aps@.len(),
            forall|j: int|
                0 <= j < old(self).aps@.len() && j != i ==> final(self).aps@[j] == old(self).aps@[j],
            !final(self).aps@[i as int].pending,
            final(self).aps@[i as int].open == old(self).aps@[i as int].open,
            final(self).aps@[i as int].open ==> final(self).aps@[i as int].alloc
                == old(self).aps@[i as int].reserved_addr,
    {
        let st = self.aps[i];
        let alloc = if st.open {
            st.reserved_addr
        } else {
            st.alloc
        };
        self.aps.set(
            i,
            ApState {
                open: st.open,
                seg: st.seg,
                alloc,
                epoch: st.epoch,
                pending: false,
                reserved_addr: 0,
                reserved_size: 0,
            },
        );
        proof {
            let a = self.format.alignment;
            assert forall|j: int| 0 <= j < self.aps@.len() implies ap_wf(
                #[trigger] self.aps@[j],
                self.segments@,
                a,
            ) by {
                if j != i {
                    assert(self.aps@[j] == old(self).aps@[j]);
                } else {
                    assert(ap_wf(old(self).aps@[j], self.segments@, a));
                }
            }
        }
    }

    /// Takes every allocation point's buffer away; reservations stay
    /// pending, to fail at their commit.
    fn close_buffers(&mut self)
        requires
            old(self).wf(),
        ensures
            final(self).wf(),
            final(self).format == old(self).format,
            final(self).moving == old(self).moving,
            final(self).extend_by == old(self).extend_by,
            final(self).segments == old(self).segments,
            final(self).high == old(self).high,
            final(self).moves == old(self).moves,
            final(self).aps@.len() == old(self).aps@.len(),
            forall|i: int|
                0 <= i < final(self).aps@.len() ==> {
                    let st = #[trigger] final(self).aps@[i];
                    &&& !st.open
                    &&& st.pending == old(self).aps@[i].pending
                    &&& st.reserved_addr == old(self).aps@[i].reserved_addr
                    &&& st.reserved_size == old(self).aps@[i].reserved_size
                },
    {
        let mut i: usize = 0;
        while i < self.aps.len()
            invariant
                i <= self.aps@.len(),
                self.aps@.len() == old(self).aps@.len(),
                self.format == old(self).format,
                self.moving == old(self).moving,
                self.extend_by == old(self).extend_by,
                self.segments == old(self).segments,
                self.high == old(self).high,
                self.moves == old(self).moves,
                self.wf(),
                forall|j: int|
                    0 <= j < self.aps@.len() ==> {
                        let st = #[trigger] self.aps@[j];
                        &&& j < i ==> !st.open
                        &&& j >= i ==> st == old(self).aps@[j]
                        &&& st.pending == old(self).aps@[j].pending
                        &&& st.reserved_addr == old(self).aps@[j].reserved_addr
                        &&& st.reserved_size == old(self).aps@[j].reserved_size
                    },
            decreases self.aps@.len() - i,
        {
            let st = self.aps[i];
            self.aps.set(i, ApState { open: false, ..st });
            proof {
                let a = self.format.alignment;
                assert(ap_wf(old(self).aps@[i as int], self.segments@, a));
                assert forall|j: int| 0 <= j < self.aps@.len() implies ap_wf(
                    #[trigger] self.aps@[j],
                    self.segments@,
                    a,
                ) by {
                    if j != i {
                        assert(self.aps@[j] == old(self).aps@[j] || !self.aps@[j].open);
                    }
                }
            }
            i = i + 1;
        }
    }

    /// Collects the pool in full.
    ///
    /// The collection starts with a flip, which takes every allocation
    /// point's buffer away, so that a reservation made before it fails to
    /// commit. In a moving pool every committed object is then copied to a
    /// new segment and a forwarding marker is left in its place; the new
    /// segment is scanned, and each reference in it and each root that
    /// referred to a moved object is made to refer to the copy. A segment
    /// in which a malformed object stands keeps that object and all after
    /// it in place. When the arena cannot give the new segment, nothing
    /// moves. When no flip is left, nothing happens.
    ///
    /// `moves` then lists each object that moved with its new address; the
    /// copy holds the old object's words with each reference relocated
    /// through `moves`, and each root is relocated the same way.
    pub fn collect(&mut self, arena: &mut Arena, roots: &mut Vec<usize>)
        requires
            old(self).wf(),
            old(arena).wf(),
            old(self).bound_to(old(arena)),
        ensures
            final(self).wf(),
            final(arena).wf(),
            final(self).bound_to(final(arena)),
            final(self).format == old(self).format,
            final(self).moving == old(self).moving,
            final(self).extend_by == old(self).extend_by,
            final(arena).mem@.len() == old(arena).mem@.len(),
            final(arena).commit_limit == old(arena).commit_limit,
            final(roots)@.len() == old(roots)@.len(),
            old(arena).moved <= final(arena).moved,
            old(arena).epoch == u64::MAX ==> {
                &&& *final(self) == *old(self)
                &&& *final(arena) == *old(arena)
                &&& *final(roots) == *old(roots)
            },
            old(arena).epoch < u64::MAX ==> {
                &&& final(arena).epoch == old(arena).epoch + 1
                &&& final(self).aps@.len() == old(self).aps@.len()
                &&& forall|i: int|
                    0 <= i < final(self).aps@.len() ==> {
                        let st = #[trigger] final(self).aps@[i];
                        &&& !st.open
                        &&& st.pending == old(self).aps@[i].pending
                        &&& st.reserved_addr == old(self).aps@[i].reserved_addr
                        &&& st.reserved_size == old(self).aps@[i].reserved_size
                    }
            },
            !old(self).moving ==> {
                &&& final(self).segments == old(self).segments
                &&& final(arena).mem == old(arena).mem
                &&& final(arena).moved == old(arena).moved
                &&& *final(roots) == *old(roots)
            },
            forall|i: int|
                0 <= i < final(roots)@.len() ==> #[trigger] final(roots)@[i] == old(roots)@[i] || (
                F::valid_at(final(arena).mem@, old(roots)@[i] as int) && F::forwarded_to(
                    final(arena).mem@,
                    old(roots)@[i] as int,
                ) == Some(final(roots)@[i]) && copied_with_fixes::<F>(
                    old(arena).mem@,
                    final(arena).mem@,
                    old(roots)@[i],
                    final(roots)@[i],
                )),
            old(self).heap_parses(old(arena).mem@) ==> final(self).heap_parses(final(arena).mem@),
            old(arena).epoch < u64::MAX ==> {
                &&& !old(self).moving ==> final(self).moves@.len() == 0
                &&& forall|i: int|
                    0 <= i < final(roots)@.len() ==> #[trigger] final(roots)@[i] == relocate(
                        final(self).moves@,
                        old(roots)@[i],
                    )
                &&& forall|k: int|
                    0 <= k < final(self).moves@.len() ==> {
                        let e = #[trigger] final(self).moves@[k];
                        &&& F::valid_at(final(arena).mem@, e.0 as int)
                        &&& F::forwarded_to(final(arena).mem@, e.0 as int) == Some(e.1)
                        &&& copied_relocated::<F>(
                            old(arena).mem@,
                            final(arena).mem@,
                            final(self).moves@,
                            e.0,
                            e.1,
                        )
                    }
            },
    {
        if arena.epoch == u64::MAX {
            return;
        }
        arena.epoch = arena.epoch + 1;
        self.moves = Vec::new();
        self.close_buffers();
        if self.moving {
            self.evacuate(arena, roots);
        }
    }

    /// Copies every committed object to a new segment, then fixes the new
    /// segment and the roots.
    fn evacuate(&mut self, arena: &mut Arena, roots: &mut Vec<usize>)
        requires
            old(self).wf(),
            old(arena).wf(),
            forall|i: int| 0 <= i < old(self).aps@.len() ==> !(#[trigger] old(self).aps@[i]).open,
            old(self).bound_to(old(arena)),
            old(self).moves@.len() == 0,
        ensures
            forall|i: int|
                0 <= i < final(roots)@.len() ==> #[trigger] final(roots)@[i] == relocate(
                    final(self).moves@,
                    old(roots)@[i],
                ),
            forall|k: int|
                0 <= k < final(self).moves@.len() ==> {
                    let e = #[trigger] final(self).moves@[k];
                    &&& F::valid_at(final(arena).mem@, e.0 as int)
                    &&& F::forwarded_to(final(arena).mem@, e.0 as int) == Some(e.1)
                    &&& copied_relocated::<F>(
                        old(arena).mem@,
                        final(arena).mem@,
                        final(self).moves@,
                        e.0,
                        e.1,
                    )
                },
            final(self).wf(),
            final(arena).wf(),
            final(self).bound_to(final(arena)),
            final(self).format == old(self).format,
            final(self).moving == old(self).moving,
            final(self).extend_by == old(self).extend_by,
            final(self).aps == old(self).aps,
            final(arena).mem@.len() == old(arena).mem@.len(),
            final(arena).commit_limit == old(arena).commit_limit,
            final(arena).epoch == old(arena).epoch,
            final(roots)@.len() == old(roots)@.len(),
            old(arena).moved <= final(arena).moved,
            forall|i: int|
                0 <= i < final(roots)@.len() ==> #[trigger] final(roots)@[i] == old(roots)@[i] || (
                F::valid_at(final(arena).mem@, old(roots)@[i] as int) && F::forwarded_to(
                    final(arena).mem@,
                    old(roots)@[i] as int,
                ) == Some(final(roots)@[i]) && copied_with_fixes::<F>(
                    old(arena).mem@,
                    final(arena).mem@,
                    old(roots)@[i],
                    final(roots)@[i],
                )),
            old(self).heap_parses(old(arena).mem@) ==> final(self).heap_parses(final(arena).mem@),
    {
        let ghost heap0 = old(self).heap_parses(old(arena).mem@);
        let ghost m0 = old(arena).mem@;
        let al = self.format.alignment;
        let mut total: usize = 0;
        let mut k: usize = 0;
        while k < self.segments.len()
            invariant
                k <= self.segments@.len(),
                self.wf(),
                *self == *old(self),
                *arena == *old(arena),
                *roots == *old(roots),
                arena.wf(),
                old(self).bound_to(old(arena)),
                old(self).moves@.len() == 0,
            decreases self.segments@.len() - k,
        {
            let s = self.segments[k];
            if s.init - s.base > usize::MAX - total {
                return;
            }
            total = total + (s.init - s.base);
            k = k + 1;
        }
        if total == 0 {
            return;
        }
        let to = match arena.take_segment(total, al) {
            Ok(b) => b,
            Err(_) => {
                return;
            },
        };
        let end = to + total;
        let mut cur: usize = to;
        let mut table: Vec<(usize, usize)> = Vec::new();
        let mut kept: Vec<Segment> = Vec::new();
        let mut released: usize = 0;
        let mut mark: usize = 0;
        let ghost mut origin: Seq<int> = Seq::empty();
        let mut k: usize = 0;
        while k < self.segments.len()
            invariant
                k <= self.segments@.len(),
                self.wf(),
                self.high <= to,
                self.segments == old(self).segments,
                heap0 ==> forall|k2: int|
                    k <= k2 < self.segments@.len() ==> parses::<F>(
                        arena.mem@,
                        (#[trigger] self.segments@[k2]).base as int,
                        self.segments@[k2].init as int,
                    ),
                heap0 ==> forall|j: int|
                    0 <= j < kept@.len() ==> parses::<F>(
                        arena.mem@,
                        (#[trigger] kept@[j]).base as int,
                        kept@[j].init as int,
                    ),
                origin.len() == kept@.len(),
                forall|j: int|
                    0 <= j < kept@.len() ==> {
                        let o = #[trigger] origin[j];
                        &&& 0 <= o < k
                        &&& self.segments@[o].base <= kept@[j].base
                        &&& kept@[j].limit <= self.segments@[o].limit
                    },
                forall|j1: int, j2: int|
                    0 <= j1 < kept@.len() && 0 <= j2 < kept@.len() && j1 != j2 ==> #[trigger] origin[j1]
                        != #[trigger] origin[j2],
                mark <= to,
                forwards_all::<F>(arena.mem@, table@, mark as int),
                m0 == old(arena).mem@,
                forall|i: int| mark <= i < to ==> #[trigger] arena.mem@[i] == m0[i],
                entries_copied::<F>(arena.mem@, m0, table@, to as int, cur as int),
                *roots == *old(roots),
                self.format.alignment == al,
                arena.wf(),
                arena.mem@.len() == old(arena).mem@.len(),
                arena.commit_limit == old(arena).commit_limit,
                arena.epoch == old(arena).epoch,
                arena.moved == old(arena).moved,
                to % al == 0,
                cur % al == 0,
                to <= cur <= end,
                end <= arena.mem@.len(),
                arena.top == end,
                parses::<F>(arena.mem@, to as int, cur as int),
                forall|j: int|
                    0 <= j < kept@.len() ==> {
                        let s = #[trigger] kept@[j];
                        s.base % al == 0 && s.init % al == 0 && s.base <= s.init <= s.limit
                            && ARENA_BASE <= s.base
                    },
            decreases self.segments@.len() - k,
        {
            let s = self.segments[k];
            if s.init > to || s.base < mark {
                kept.push(s);
                proof {
                    origin = origin.push(k as int);
                }
            } else {
                let mut a: usize = s.base;
                proof {
                    lemma_forwards_frame::<F>(arena.mem@, arena.mem@, table@, a as int);
                }
                while a < s.init
                    invariant
                        s.base <= a <= s.init <= to,
                        mark <= s.base,
                        m0 == old(arena).mem@,
                        forall|i: int| a <= i < to ==> #[trigger] arena.mem@[i] == m0[i],
                        entries_copied::<F>(arena.mem@, m0, table@, to as int, cur as int),
                        self.wf(),
                        self.high <= to,
                        k < self.segments@.len(),
                        s == self.segments@[k as int],
                        origin.len() == kept@.len(),
                        forall|j: int|
                            0 <= j < kept@.len() ==> {
                                let o = #[trigger] origin[j];
                                &&& 0 <= o < k
                                &&& self.segments@[o].base <= kept@[j].base
                                &&& kept@[j].limit <= self.segments@[o].limit
                                &&& kept@[j].base <= kept@[j].init <= kept@[j].limit
                            },
                        heap0 ==> parses::<F>(arena.mem@, a as int, s.init as int),
                        heap0 ==> forall|k2: int|
                            k < k2 < self.segments@.len() ==> parses::<F>(
                                arena.mem@,
                                (#[trigger] self.segments@[k2]).base as int,
                                self.segments@[k2].init as int,
                            ),
                        heap0 ==> forall|j: int|
                            0 <= j < kept@.len() ==> parses::<F>(
                                arena.mem@,
                                (#[trigger] kept@[j]).base as int,
                                kept@[j].init as int,
                            ),
                        forwards_all::<F>(arena.mem@, table@, a as int),
                        a % al == 0,
                        self.format.alignment == al,
                        is_pow2(al),
                        arena.wf(),
                        arena.mem@.len() == old(arena).mem@.len(),
                        arena.commit_limit == old(arena).commit_limit,
                        arena.epoch == old(arena).epoch,
                        arena.moved == old(arena).moved,
                        to % al == 0,
                        cur % al == 0,
                        to <= cur <= end,
                        end <= arena.mem@.len(),
                        arena.top == end,
                        parses::<F>(arena.mem@, to as int, cur as int),
                    decreases s.init - a,
                {
                    let sz = match F::object_size(&arena.mem, a, s.init) {
                        Some(sz) => sz,
                        None => {
                            break;
                        },
                    };
                    proof {
                        F::lemma_object(arena.mem@, a as int);
                    }
                    if sz == 0 || sz % al != 0 || sz > end - cur {
                        break;
                    }
                    proof {
                        lemma_add_aligned(a as int, sz as int, al as int);
                        lemma_add_aligned(cur as int, sz as int, al as int);
                    }
                    match F::is_forwarded(&arena.mem, a) {
                        Some(_) => {
                            proof {
                                if heap0 {
                                    assert(parses::<F>(arena.mem@, a + sz, s.init as int));
                                }
                                lemma_forwards_frame::<F>(
                                    arena.mem@,
                                    arena.mem@,
                                    table@,
                                    a + sz,
                                );
                            }
                        },
                        None => {
                            let ghost before = arena.mem@;
                            move_object::<F>(&mut arena.mem, a, sz, to, cur);
                            proof {
                                if heap0 {
                                    let ai = a as int;
                                    let ci = cur as int;
                                    let zi = sz as int;
                                    assert(parses::<F>(before, ai + zi, s.init as int));
                                    lemma_parses_outside::<F>(
                                        before,
                                        arena.mem@,
                                        ai + zi,
                                        s.init as int,
                                        ai,
                                        ai + zi,
                                        ci,
                                        ci + zi,
                                    );
                                    assert forall|k2: int|
                                        k < k2 < self.segments@.len() implies parses::<F>(
                                        arena.mem@,
                                        (#[trigger] self.segments@[k2]).base as int,
                                        self.segments@[k2].init as int,
                                    ) by {
                                        let g = self.segments@[k2];
                                        assert(disjoint(g, self.segments@[k as int]));
                                        assert(g.limit <= self.high);
                                        lemma_parses_outside::<F>(
                                            before,
                                            arena.mem@,
                                            g.base as int,
                                            g.init as int,
                                            ai,
                                            ai + zi,
                                            ci,
                                            ci + zi,
                                        );
                                    }
                                    assert forall|j: int| 0 <= j < kept@.len() implies parses::<F>(
                                        arena.mem@,
                                        (#[trigger] kept@[j]).base as int,
                                        kept@[j].init as int,
                                    ) by {
                                        let g = kept@[j];
                                        let o = origin[j];
                                        assert(g.base <= g.init <= g.limit);
                                        assert(s.base <= s.init <= s.limit);
                                        assert(disjoint(self.segments@[o], self.segments@[k as int]));
                                        assert(self.segments@[o].limit <= self.high);
                                        lemma_parses_outside::<F>(
                                            before,
                                            arena.mem@,
                                            g.base as int,
                                            g.init as int,
                                            ai,
                                            ai + zi,
                                            ci,
                                            ci + zi,
                                        );
                                    }
                                }
                                lemma_forwards_frame::<F>(before, arena.mem@, table@, a as int);
                                lemma_forwards_frame::<F>(
                                    arena.mem@,
                                    arena.mem@,
                                    table@,
                                    a + sz,
                                );
                            }
                            let ghost t0 = table@;
                            table.push((a, cur));
                            proof {
                                let ai = a as int;
                                let ci = cur as int;
                                let zi = sz as int;
                                F::lemma_copy(before, ai, m0, ai);
                                assert forall|k2: int| 0 <= k2 < table@.len() implies {
                                    let e = #[trigger] table@[k2];
                                    let s2 = F::size_at(m0, e.0 as int);
                                    &&& F::valid_at(m0, e.0 as int)
                                    &&& to <= e.1
                                    &&& e.1 + s2 <= ci + zi
                                    &&& parses::<F>(arena.mem@, to as int, e.1 as int)
                                    &&& parses::<F>(arena.mem@, e.1 as int, ci + zi)
                                    &&& forall|i: int|
                                        e.1 <= i < e.1 + s2 ==> #[trigger] arena.mem@[i] == m0[i
                                            - e.1 + e.0]
                                } by {
                                    if k2 < t0.len() {
                                        let e = t0[k2];
                                        assert(table@[k2] == e);
                                        let y = e.1 as int;
                                        F::lemma_object(m0, e.0 as int);
                                        lemma_parses_outside::<F>(
                                            before,
                                            arena.mem@,
                                            to as int,
                                            y,
                                            ai,
                                            ai + zi,
                                            ci,
                                            ci + zi,
                                        );
                                        lemma_parses_outside::<F>(
                                            before,
                                            arena.mem@,
                                            y,
                                            ci,
                                            ai,
                                            ai + zi,
                                            ci,
                                            ci + zi,
                                        );
                                        lemma_parses_join::<F>(arena.mem@, y, ci, ci + zi);
                                    } else {
                                        assert(table@[k2] == (a, cur));
                                    }
                                }
                            }
                            proof {
                                assert forall|j: int| 0 <= j < table@.len() implies {
                                    let e = #[trigger] table@[j];
                                    &&& F::valid_at(arena.mem@, e.0 as int)
                                    &&& e.0 + F::size_at(arena.mem@, e.0 as int) <= a + sz
                                    &&& F::forwarded_to(arena.mem@, e.0 as int) == Some(e.1)
                                } by {
                                    if j < t0.len() {
                                        assert(table@[j] == t0[j]);
                                    }
                                }
                            }
                            cur = cur + sz;
                        },
                    }
                    a = a + sz;
                }
                proof {
                    lemma_forwards_frame::<F>(arena.mem@, arena.mem@, table@, s.init as int);
                }
                mark = s.init;
                if a == s.init {
                    let d = s.limit - s.base;
                    released = if released > usize::MAX - d {
                        usize::MAX
                    } else {
                        released + d
                    };
                } else {
                    kept.push(Segment { base: a, init: s.init, limit: s.init });
                    proof {
                        origin = origin.push(k as int);
                    }
                }
            }
            k = k + 1;
        }
        let ss = ScanState {
            zone_shift: ZONE_SHIFT,
            white: u64::MAX,
            unfixed: 0,
            relocations: table,
        };
        let ghost t = table@;
        let mut fs = ss.begin_fix();
        let ghost before_scan = arena.mem@;
        let ghost fs_pre = fs;
        let ghost old_segments_pre = self.segments@;
        let scanned = F::scan(&mut fs, &mut arena.mem, to, cur);
        // A scan fails only where a fix fails, and no fix fails here: the
        // scan's contract owes success, so the roots are fixed after it.
        assert(scanned is Ok);
        proof {
            if heap0 {
                assert forall|j: int| 0 <= j < kept@.len() implies parses::<F>(
                    arena.mem@,
                    (#[trigger] kept@[j]).base as int,
                    kept@[j].init as int,
                ) by {
                    let g = kept@[j];
                    assert(old_segments_pre[origin[j]].limit <= to);
                    lemma_parses_outside::<F>(
                        before_scan,
                        arena.mem@,
                        g.base as int,
                        g.init as int,
                        to as int,
                        cur as int,
                        to as int,
                        cur as int,
                    );
                }
            }
            lemma_forwards_frame::<F>(before_scan, arena.mem@, t, mark as int);
            assert forall|k2: int| 0 <= k2 < t.len() implies copied_with_fixes::<F>(
                m0,
                arena.mem@,
                (#[trigger] t[k2]).0,
                t[k2].1,
            ) && copied_relocated::<F>(m0, arena.mem@, t, t[k2].0, t[k2].1) by {
                lemma_entry_after_scan::<F>(
                    m0,
                    before_scan,
                    arena.mem@,
                    fs_pre,
                    t,
                    to as int,
                    cur as int,
                    mark as int,
                    k2,
                );
            }
        }
        let mut i: usize = 0;
        while i < roots.len()
            invariant
                i <= roots@.len(),
                roots@.len() == old(roots)@.len(),
                fs.wf(),
                fs.w == u64::MAX,
                fs.relocations@ == t,
                forwards_all::<F>(arena.mem@, t, mark as int),
                forall|j: int| i <= j < roots@.len() ==> roots@[j] == old(roots)@[j],
                forall|j: int| 0 <= j < i ==> roots@[j] == relocate(t, old(roots)@[j]),
                forall|k2: int|
                    0 <= k2 < t.len() ==> copied_relocated::<F>(
                        m0,
                        arena.mem@,
                        t,
                        (#[trigger] t[k2]).0,
                        t[k2].1,
                    ),
                forall|k2: int|
                    0 <= k2 < t.len() ==> copied_with_fixes::<F>(
                        m0,
                        arena.mem@,
                        (#[trigger] t[k2]).0,
                        t[k2].1,
                    ),
                forall|j: int|
                    0 <= j < i ==> #[trigger] roots@[j] == old(roots)@[j] || (F::valid_at(
                        arena.mem@,
                        old(roots)@[j] as int,
                    ) && F::forwarded_to(arena.mem@, old(roots)@[j] as int) == Some(roots@[j])
                        && copied_with_fixes::<F>(m0, arena.mem@, old(roots)@[j], roots@[j])),
            decreases roots@.len() - i,
        {
            let mut r = roots[i];
            proof {
                lemma_zone_bit_white(r, fs.zs);
                lemma_relocate::<F>(arena.mem@, t, mark as int, r);
            }
            let ghost r0 = r;
            let _ = fs.fix(&mut r);
            proof {
                lemma_zone_bit_white(r0, fs.zs);
                if r != r0 {
                    let k2 = lemma_relocate_entry(t, r0);
                    assert(copied_with_fixes::<F>(m0, arena.mem@, t[k2].0, t[k2].1));
                }
            }
            roots.set(i, r);
            i = i + 1;
        }
        let ghost old_segments = self.segments@;
        kept.push(Segment { base: to, init: cur, limit: end });
        proof {
            let n = kept@.len() - 1;
            assert forall|j: int| 0 <= j < n implies (#[trigger] kept@[j]).limit <= to by {
                assert(old_segments[origin[j]].limit <= self.high);
            }
            assert forall|j1: int, j2: int|
                0 <= j1 < kept@.len() && 0 <= j2 < kept@.len() && j1 != j2 implies disjoint(
                #[trigger] kept@[j1],
                #[trigger] kept@[j2],
            ) by {
                if j1 < n && j2 < n {
                    assert(disjoint(old_segments[origin[j1]], old_segments[origin[j2]]));
                } else if j1 < n {
                    assert(kept@[j1].limit <= to);
                } else {
                    assert(kept@[j2].limit <= to);
                }
            }
            assert forall|j: int| 0 <= j < kept@.len() implies (#[trigger] kept@[j]).limit <= end by {
                if j < n {
                    assert(kept@[j].limit <= to);
                }
            }
            if heap0 {
                assert forall|j: int| 0 <= j < kept@.len() implies parses::<F>(
                    arena.mem@,
                    (#[trigger] kept@[j]).base as int,
                    kept@[j].init as int,
                ) by {
                    if j < n {
                        assert(kept@[j] == kept@.drop_last()[j]);
                    }
                }
            }
        }
        self.segments = kept;
        self.high = end;
        self.moves = fs.relocations;
        arena.release(released);
        if arena.moved < usize::MAX {
            arena.moved = arena.moved + 1;
        }
    }

    /// Adds an allocation point with no buffer and returns its index.
    pub fn add_allocation_point(&mut self) -> (r: Result<usize, MpsError>)
        requires
            old(self).wf(),
        ensures
            final(self).wf(),
            final(self).format == old(self).format,
            final(self).moving == old(self).moving,
            final(self).extend_by == old(self).extend_by,
            final(self).segments == old(self).segments,
            match r {
                Ok(i) => {
                    &&& i == old(self).aps@.len()
                    &&& final(self).aps@.len() == i + 1
                    &&& final(self).aps@.take(i as int) == old(self).aps@
                    &&& !final(self).aps@[i as int].open
                    &&& !final(self).aps@[i as int].pending
                },
                Err(e) => e == MpsError::Limit && final(self).aps == old(self).aps,
            },
            r is Err <==> old(self).aps@.len() == usize::MAX,
    {
        let n = self.aps.len();
        if n == usize::MAX {
            return Err(MpsError::Limit);
        }
        self.aps.push(
            ApState {
                open: false,
                seg: 0,
                alloc: 0,
                epoch: 0,
                pending: false,
                reserved_addr: 0,
                reserved_size: 0,
            },
        );
        assert(self.aps@.take(n as int) =~= old(self).aps@);
        Ok(n)
    }
}

/// A block reserved on an open point lies in the point's buffer: outside
/// every segment's committed objects and every other reserved block.
pub proof fn lemma_block_is_free<F: RawFormatMethods>(core: PoolCore<F>, i: int)
    requires
        core.wf(),
        0 <= i < core.aps@.len(),
        core.aps@[i].open,
        core.aps@[i].pending,
    ensures
        core.block_is_free(i),
{
    let st = core.aps@[i];
    let a = core.format.alignment;
    assert(ap_wf(st, core.segments@, a));
    let own = core.segments@[st.seg as int];
    assert forall|k: int| 0 <= k < core.segments@.len() implies st.reserved_addr + st.reserved_size
        <= (#[trigger] core.segments@[k]).base || core.segments@[k].init <= st.reserved_addr by {
        if k != st.seg {
            assert(disjoint(core.segments@[k], own));
        }
    }
    assert forall|j: int|
        0 <= j < core.aps@.len() && j != i && (#[trigger] core.aps@[j]).open
            && core.aps@[j].pending implies st.reserved_addr + st.reserved_size
        <= core.aps@[j].reserved_addr || core.aps@[j].reserved_addr + core.aps@[j].reserved_size
        <= st.reserved_addr by {
        let o = core.aps@[j];
        assert(ap_wf(o, core.segments@, a));
        assert(o.seg != st.seg);
        assert(disjoint(core.segments@[o.seg as int], own));
    }
}

/// Writing inside a live reservation leaves every committed object as it
/// was: if each segment's committed part was a run of objects before the
/// writes, it still is after them.
pub proof fn lemma_write_reserved<F: RawFormatMethods>(
    core: PoolCore<F>,
    i: int,
    m1: Seq<usize>,
    m2: Seq<usize>,
)
    requires
        core.wf(),
        core.heap_parses(m1),
        0 <= i < core.aps@.len(),
        core.aps@[i].pending,
        core.aps@[i].open,
        m1.len() == m2.len(),
        forall|j: int|
            0 <= j < m1.len() && !(core.aps@[i].reserved_addr <= j < core.aps@[i].reserved_addr
                + core.aps@[i].reserved_size) ==> m1[j] == m2[j],
    ensures
        core.heap_parses(m2),
{
    let st = core.aps@[i];
    assert(ap_wf(st, core.segments@, core.format.alignment));
    assert forall|k: int| 0 <= k < core.segments@.len() implies parses::<F>(
        m2,
        (#[trigger] core.segments@[k]).base as int,
        core.segments@[k].init as int,
    ) by {
        let seg = core.segments@[k];
        if k != st.seg {
            assert(disjoint(core.segments@[k], core.segments@[st.seg as int]));
        }
        lemma_parses_bounds::<F>(m1, seg.base as int, seg.init as int);
        assert forall|j: int| seg.base <= j < seg.init implies m1[j] == m2[j] by {
            assert(!(st.reserved_addr <= j < st.reserved_addr + st.reserved_size));
        }
        lemma_parses_frame::<F>(m1, m2, seg.base as int, seg.init as int);
    }
}

/// A pool of objects of format `F`.
pub trait Pool<F: RawFormatMethods> {
    /// The state the pool class shares with the others.
    spec fn core_view(&self) -> PoolCore<F>;

    /// The shared state.
    fn pool_core(&self) -> (r: &PoolCore<F>)
        ensures
            *r == self.core_view(),
    ;

    /// The shared state, to change.
    fn pool_core_mut(&mut self) -> (r: &mut PoolCore<F>)
        ensures
            *r == old(self).core_view(),
            final(self).core_view() == *final(r),
    ;

    /// Whether the collector manages the pool's memory: the client never
    /// frees an object explicitly.
    fn is_automatic(&self) -> (r: bool)
        ensures
            r == self.automatic(),
    ;

    /// Whether the collector manages the pool's memory.
    spec fn automatic(&self) -> bool;

    /// Whether the client frees the pool's objects itself.
    fn is_manual(&self) -> (r: bool)
        ensures
            r == !self.automatic(),
    {
        !self.is_automatic()
    }

    /// The words the pool holds, or `usize::MAX` if more.
    fn total_size(&self) -> (r: usize)
        requires
            self.core_view().wf(),
        ensures
            r == saturate(seg_total(self.core_view().segments@)),
    {
        self.pool_core().total_size()
    }

    /// The words the pool holds but has no object in, or `usize::MAX` if
    /// more.
    fn free_size(&self) -> (r: usize)
        requires
            self.core_view().wf(),
        ensures
            r == saturate(seg_free(self.core_view().segments@)),
    {
        self.pool_core().free_size()
    }

    /// Makes a new allocation point on the pool, with no buffer yet. Fails
    /// only when the pool cannot count another point.
    fn create_allocation_point(&mut self) -> (r: Result<AllocationPoint, MpsError>)
        requires
            old(self).core_view().wf(),
        ensures
            final(self).core_view().wf(),
            final(self).core_view().segments == old(self).core_view().segments,
            final(self).core_view().format == old(self).core_view().format,
            final(self).core_view().moving == old(self).core_view().moving,
            match r {
                Ok(ap) => {
                    &&& ap.index == old(self).core_view().aps@.len()
                    &&& final(self).core_view().aps@.len() == ap.index + 1
                    &&& final(self).core_view().aps@.take(ap.index as int) == old(self).core_view().aps@
                    &&& !final(self).core_view().aps@[ap.index as int].open
                    &&& !final(self).core_view().aps@[ap.index as int].pending
                },
                Err(e) => e == MpsError::Limit,
            },
            r is Err <==> old(self).core_view().aps@.len() == usize::MAX,
    {
        let core = self.pool_core_mut();
        match core.add_allocation_point() {
            Ok(i) => Ok(AllocationPoint { index: i }),
            Err(e) => Err(e),
        }
    }
}

/// A pool whose memory the collector manages.
pub trait AutomaticPool<F: RawFormatMethods>: Pool<F> {

}

} // verus!
