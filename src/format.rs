//! Object formats: the layout contract between a pool's objects and the
//! collector, and the scan/fix state handed to a format's `scan` method.
//!
//! Memory is a sequence of machine words and an address is the index of a
//! word. A format makes every extent of a pool self-describing: from the
//! address of an object, a forwarding marker or a padding marker, `skip` finds
//! the next one.
use vstd::prelude::*;

use crate::arena::Arena;
use crate::err::MpsError;

verus! {

/// `a` is a power of two: nonzero, with a single bit set.
pub open spec fn is_pow2(a: usize) -> bool {
    a != 0 && a & ((a - 1) as usize) == 0
}

/// Whether `a` is a power of two.
pub fn is_power_of_two(a: usize) -> (r: bool)
    ensures
        r == is_pow2(a),
{
    a != 0 && a & (a - 1) == 0
}

/// The layout of one format: how big each object is, and the forwarding and
/// padding markers that may stand in place of objects.
///
/// Each method may read or write only the words of the object it is given,
/// so the laws below are stated over the words of that object alone.
pub trait FormatLayout: Sized {
    /// The alignment, in words, of every object of this format.
    spec fn spec_alignment() -> usize;

    /// The smallest size, in words, of an object, a forwarding marker or a
    /// padding marker.
    spec fn min_size() -> nat;

    /// An object, a forwarding marker or a padding marker starts at `a`.
    spec fn valid_at(m: Seq<usize>, a: int) -> bool;

    /// The size in words of what starts at `a`.
    spec fn size_at(m: Seq<usize>, a: int) -> int;

    /// Where the object that stood at `a` went, if a forwarding marker stands
    /// there now.
    spec fn forwarded_to(m: Seq<usize>, a: int) -> Option<usize>;

    /// Word `j` is a reference slot of the object at `a` that holds a
    /// reference to fix. Markers have none.
    spec fn ref_slot(m: Seq<usize>, a: int, j: int) -> bool;

    /// The smallest object is at least a word and at most the alignment.
    proof fn lemma_alignment()
        ensures
            1 <= Self::min_size() <= Self::spec_alignment(),
    ;

    /// What starts at `a` lies wholly in memory and is at least the minimum
    /// size.
    proof fn lemma_object(m: Seq<usize>, a: int)
        requires
            Self::valid_at(m, a),
        ensures
            0 <= a,
            Self::min_size() <= Self::size_at(m, a),
            a + Self::size_at(m, a) <= m.len(),
            forall|j: int| #[trigger] Self::ref_slot(m, a, j) ==> a <= j < a + Self::size_at(m, a),
    ;

    /// What an object is depends on its own words alone: the same words at
    /// another place, or in another memory, are the same object.
    proof fn lemma_copy(m1: Seq<usize>, a: int, m2: Seq<usize>, b: int)
        requires
            Self::valid_at(m1, a),
            0 <= b,
            b + Self::size_at(m1, a) <= m2.len(),
            forall|i: int| b <= i < b + Self::size_at(m1, a) ==> #[trigger] m2[i] == m1[i - b + a],
        ensures
            Self::valid_at(m2, b),
            Self::size_at(m2, b) == Self::size_at(m1, a),
            Self::forwarded_to(m2, b) == Self::forwarded_to(m1, a),
            forall|j: int| #[trigger] Self::ref_slot(m2, b, j) == Self::ref_slot(m1, a, j - b + a),
    ;

    /// The alignment of the format, in words.
    fn alignment() -> (r: usize)
        ensures
            r == Self::spec_alignment(),
    ;

    /// The size of what starts at `a`, if an object or a marker starts there
    /// and ends at or before `limit`.
    fn object_size(m: &Vec<usize>, a: usize, limit: usize) -> (r: Option<usize>)
        ensures
            r == if Self::valid_at(m@, a as int) && a + Self::size_at(m@, a as int) <= limit {
                Some(Self::size_at(m@, a as int) as usize)
            } else {
                None::<usize>
            },
    ;

    /// The address just past what starts at `a`.
    fn skip(m: &Vec<usize>, a: usize) -> (r: usize)
        requires
            Self::valid_at(m@, a as int),
        ensures
            r == a + Self::size_at(m@, a as int),
    ;

    /// The new address of the object that stood at `a`, if a forwarding
    /// marker stands there now.
    fn is_forwarded(m: &Vec<usize>, a: usize) -> (r: Option<usize>)
        requires
            Self::valid_at(m@, a as int),
        ensures
            r == Self::forwarded_to(m@, a as int),
    ;

    /// Replaces the object at `old_addr` by a forwarding marker to
    /// `new_addr` of the same size.
    fn forward(m: &mut Vec<usize>, old_addr: usize, new_addr: usize)
        requires
            Self::valid_at(old(m)@, old_addr as int),
        ensures
            final(m)@.len() == old(m)@.len(),
            Self::valid_at(final(m)@, old_addr as int),
            Self::size_at(final(m)@, old_addr as int) == Self::size_at(old(m)@, old_addr as int),
            Self::forwarded_to(final(m)@, old_addr as int) == Some(new_addr),
            forall|i: int|
                0 <= i < old(m)@.len() && !(old_addr <= i < old_addr + Self::size_at(
                    old(m)@,
                    old_addr as int,
                )) ==> final(m)@[i] == old(m)@[i],
    ;

    /// Writes a padding marker of exactly `size` words at `a`.
    fn pad(m: &mut Vec<usize>, a: usize, size: usize)
        requires
            Self::min_size() <= size,
            a + size <= old(m)@.len(),
        ensures
            final(m)@.len() == old(m)@.len(),
            Self::valid_at(final(m)@, a as int),
            Self::size_at(final(m)@, a as int) == size,
            Self::forwarded_to(final(m)@, a as int) == None::<usize>,
            forall|i: int|
                0 <= i < old(m)@.len() && !(a <= i < a + size) ==> final(m)@[i] == old(m)@[i],
    ;

}

/// The methods a pool uses to read and rewrite the objects of one format.
pub trait RawFormatMethods: FormatLayout {
    /// Fixes every reference held by the objects of `[base, limit)`, in
    /// ascending address order: each reference slot gets the value `fix`
    /// gives it, the zone of each reference joins the summary, and every
    /// other word is left as it was. A fix never fails here, so neither does
    /// the scan.
    fn scan(ss: &mut ScanFixState, m: &mut Vec<usize>, base: usize, limit: usize) -> (r: Result<
        (),
        MpsError,
    >)
        requires
            parses::<Self>(old(m)@, base as int, limit as int),
            old(ss).wf(),
        ensures
            final(ss).wf(),
            final(ss).relocations == old(ss).relocations,
            final(ss).zs == old(ss).zs,
            final(ss).w == old(ss).w,
            final(m)@.len() == old(m)@.len(),
            parses::<Self>(final(m)@, base as int, limit as int),
            forall|i: int|
                0 <= i < old(m)@.len() && !(base <= i < limit) ==> final(m)@[i] == old(m)@[i],
            r is Ok,
            forall|j: int|
                base <= j < limit ==> #[trigger] final(m)@[j] == if run_slot::<Self>(
                    old(m)@,
                    base as int,
                    limit as int,
                    j,
                ) {
                    fix_value(*old(ss), old(m)@[j])
                } else {
                    old(m)@[j]
                },
            forall|j: int|
                #[trigger] run_slot::<Self>(old(m)@, base as int, limit as int, j) ==> final(ss).ufs
                    & zone_bit(old(m)@[j], old(ss).zs) != 0,
            old(ss).ufs | final(ss).ufs == final(ss).ufs,
    ;
}

/// A format made for one arena: the alignment of its objects and the methods
/// of `F`.
pub struct ObjectFormat<F> {
    /// The alignment of every object, in words.
    pub alignment: usize,
    /// Whether the format carries the methods of a collected pool.
    pub managed: bool,
    /// The format methods.
    pub methods: std::marker::PhantomData<F>,
}

impl<F: RawFormatMethods> ObjectFormat<F> {
    /// Makes a format for a collected pool from the methods of `F`; an
    /// alignment that is not a power of two is an invalid parameter.
    pub fn managed_with(arena: &Arena) -> (r: Result<ObjectFormat<F>, MpsError>)
        ensures
            r is Ok <==> is_pow2(F::spec_alignment()),
            match r {
                Ok(f) => f.alignment == F::spec_alignment() && f.managed,
                Err(e) => e == MpsError::InvalidParam,
            },
    {
        let a = F::alignment();
        if is_power_of_two(a) {
            Ok(ObjectFormat { alignment: a, managed: true, methods: std::marker::PhantomData })
        } else {
            Err(MpsError::InvalidParam)
        }
    }

    /// Whether the format carries the methods of a collected pool.
    pub fn managed(&self) -> (r: bool)
        ensures
            r == self.managed,
    {
        self.managed
    }

    /// The format's alignment, in words, the one number the collector reads
    /// from it directly.
    pub fn as_raw(&self) -> (r: usize)
        ensures
            r == self.alignment,
    {
        self.alignment
    }
}

/// `[base, limit)` is a run of objects and markers of format `F`, each
/// starting where `skip` of the one before it lands, the last one ending at
/// `limit` exactly.
pub open spec fn parses<F: FormatLayout>(m: Seq<usize>, base: int, limit: int) -> bool
    decreases limit - base,
{
    if base == limit {
        true
    } else {
        base < limit && F::valid_at(m, base) && 0 < F::size_at(m, base) && base + F::size_at(
            m,
            base,
        ) <= limit && parses::<F>(m, base + F::size_at(m, base), limit)
    }
}

/// Word `j` is a reference slot of one of the objects of the run at
/// `[base, limit)`.
pub open spec fn run_slot<F: FormatLayout>(m: Seq<usize>, base: int, limit: int, j: int) -> bool
    decreases limit - base,
{
    if base < limit && F::valid_at(m, base) && 0 < F::size_at(m, base) && base + F::size_at(
        m,
        base,
    ) <= limit {
        F::ref_slot(m, base, j) || run_slot::<F>(m, base + F::size_at(m, base), limit, j)
    } else {
        false
    }
}

/// The value a fix gives reference `x` under fixing state `fs`.
pub open spec fn fix_value(fs: ScanFixState, x: usize) -> usize {
    if fs.w & zone_bit(x, fs.zs) != 0 {
        relocate(fs.relocations@, x)
    } else {
        x
    }
}

/// The slots of a run followed by one more object are those of the run and
/// those of the object; all lie inside the extended run.
pub proof fn lemma_run_slot_extend<F: FormatLayout>(m: Seq<usize>, base: int, a: int, j: int)
    requires
        parses::<F>(m, base, a),
        F::valid_at(m, a),
    ensures
        run_slot::<F>(m, base, a + F::size_at(m, a), j) == (run_slot::<F>(m, base, a, j)
            || F::ref_slot(m, a, j)),
        run_slot::<F>(m, base, a, j) ==> base <= j < a,
    decreases a - base,
{
    F::lemma_object(m, a);
    F::lemma_alignment();
    if base != a {
        F::lemma_object(m, base);
        lemma_run_slot_extend::<F>(m, base + F::size_at(m, base), a, j);
    } else {
        let s = F::size_at(m, a);
        assert(!run_slot::<F>(m, a + s, a + s, j));
    }
}

/// Adding bits `z` to `x` keeps `x`'s bits and sets `z`'s.
pub proof fn lemma_or_adds(x: u64, z: u64)
    ensures
        x | x == x,
        x | (x | z) == x | z,
        z != 0 ==> (x | z) & z != 0,
{
    assert(x | x == x) by (bit_vector);
    assert(x | (x | z) == x | z) by (bit_vector);
    assert(z != 0 ==> (x | z) & z != 0) by (bit_vector);
}

/// Inclusion of bit sets, written `a | b == b`, is transitive and keeps
/// each bit.
pub proof fn lemma_or_includes(a: u64, b: u64, c: u64, bit: u64)
    ensures
        a | b == b && b | c == c ==> a | c == c,
        a | b == b && a & bit != 0 ==> b & bit != 0,
{
    assert(a | b == b && b | c == c ==> a | c == c) by (bit_vector);
    assert(a | b == b && a & bit != 0 ==> b & bit != 0) by (bit_vector);
}

/// A zone bit is never zero.
pub proof fn lemma_zone_bit_nonzero(addr: usize, zs: u64)
    requires
        zs < 64,
    ensures
        zone_bit(addr, zs) != 0,
{
    let x = ((addr as u64) >> zs) & 63u64;
    assert(x < 64) by (bit_vector)
        requires
            x == ((addr as u64) >> zs) & 63u64,
    ;
    assert(1u64 << x != 0) by (bit_vector)
        requires
            x < 64,
    ;
}

/// A run of objects lies in memory.
pub proof fn lemma_parses_bounds<F: FormatLayout>(m: Seq<usize>, base: int, limit: int)
    requires
        parses::<F>(m, base, limit),
    ensures
        base <= limit,
        base < limit ==> 0 <= base && limit <= m.len(),
    decreases limit - base,
{
    if base != limit {
        F::lemma_object(m, base);
        lemma_parses_bounds::<F>(m, base + F::size_at(m, base), limit);
    }
}

/// A run of objects stays one where its words stay the same.
pub proof fn lemma_parses_frame<F: FormatLayout>(
    m1: Seq<usize>,
    m2: Seq<usize>,
    base: int,
    limit: int,
)
    requires
        parses::<F>(m1, base, limit),
        m1.len() == m2.len(),
        forall|i: int| base <= i < limit ==> m1[i] == m2[i],
    ensures
        parses::<F>(m2, base, limit),
    decreases limit - base,
{
    if base != limit {
        F::lemma_object(m1, base);
        let s = F::size_at(m1, base);
        lemma_parses_bounds::<F>(m1, base + s, limit);
        F::lemma_copy(m1, base, m2, base);
        lemma_parses_frame::<F>(m1, m2, base + s, limit);
    }
}

/// A run of objects followed by one more object is a run of objects.
pub proof fn lemma_parses_extend<F: FormatLayout>(m: Seq<usize>, base: int, a: int)
    requires
        parses::<F>(m, base, a),
        F::valid_at(m, a),
    ensures
        parses::<F>(m, base, a + F::size_at(m, a)),
    decreases a - base,
{
    F::lemma_object(m, a);
    if base != a {
        lemma_parses_extend::<F>(m, base + F::size_at(m, base), a);
    } else {
        let s = F::size_at(m, a);
        assert(parses::<F>(m, a + s, a + s));
    }
}

/// Two adjacent runs of objects form one run.
pub proof fn lemma_parses_join<F: FormatLayout>(m: Seq<usize>, base: int, mid: int, limit: int)
    requires
        parses::<F>(m, base, mid),
        parses::<F>(m, mid, limit),
    ensures
        parses::<F>(m, base, limit),
    decreases mid - base,
{
    if base != mid {
        lemma_parses_join::<F>(m, base + F::size_at(m, base), mid, limit);
        lemma_parses_bounds::<F>(m, mid, limit);
    }
}

/// The sum of a sequence of sizes.
pub open spec fn sum(s: Seq<usize>) -> int
    decreases s.len(),
{
    if s.len() == 0 {
        0
    } else {
        sum(s.drop_last()) + s.last()
    }
}

/// Walks `[base, limit)` with `skip` and returns the size of each step.
///
/// The walk lands on `limit` exactly: the steps neither overlap nor leave a
/// gap, so their sizes add up to the length of the extent.
pub fn skip_deltas<F: FormatLayout>(m: &Vec<usize>, base: usize, limit: usize) -> (r: Vec<
    usize,
>)
    requires
        parses::<F>(m@, base as int, limit as int),
    ensures
        sum(r@) == limit - base,
        forall|k: int| 0 <= k < r@.len() ==> r@[k] >= F::min_size() && r@[k] > 0,
        forall|k: int|
            0 <= k < r@.len() ==> #[trigger] r@[k] == F::size_at(m@, base + sum(r@.take(k))),
{
    let mut deltas: Vec<usize> = Vec::new();
    let mut a: usize = base;
    proof {
        lemma_parses_bounds::<F>(m@, base as int, limit as int);
    }
    while a < limit
        invariant
            base <= a <= limit,
            parses::<F>(m@, a as int, limit as int),
            sum(deltas@) == a - base,
            forall|k: int| 0 <= k < deltas@.len() ==> deltas@[k] >= F::min_size() && deltas@[k] > 0,
            forall|k: int|
                0 <= k < deltas@.len() ==> #[trigger] deltas@[k] == F::size_at(
                    m@,
                    base + sum(deltas@.take(k)),
                ),
        decreases limit - a,
    {
        proof {
            F::lemma_object(m@, a as int);
            lemma_parses_bounds::<F>(m@, a + F::size_at(m@, a as int), limit as int);
        }
        let next = F::skip(m, a);
        let d: usize = next - a;
        let ghost prev = deltas@;
        deltas.push(d);
        proof {
            assert(deltas@.drop_last() =~= prev);
            assert(deltas@.take(prev.len() as int) =~= prev);
            assert forall|k: int| 0 <= k < prev.len() implies deltas@.take(k) =~= prev.take(k) by {}
        }
        a = next;
    }
    proof {
        lemma_parses_bounds::<F>(m@, a as int, limit as int);
    }
    deltas
}

/// The zone bit of an address: bit `(addr >> zs) mod 64` of a word.
pub open spec fn zone_bit(addr: usize, zs: u64) -> u64 {
    1u64 << (((addr as u64) >> zs) & 63u64)
}

/// Where a reference goes under a relocation table: the new address of the
/// first entry whose old address it is, or the reference itself.
pub open spec fn relocate(t: Seq<(usize, usize)>, a: usize) -> usize
    decreases t.len(),
{
    if t.len() == 0 {
        a
    } else if t[0].0 == a {
        t[0].1
    } else {
        relocate(t.drop_first(), a)
    }
}

/// The collector's state for one scan: the zone shift, the set of condemned
/// zones, the summary of zones that references were seen in, and the table
/// of objects moved so far.
pub struct ScanState {
    /// Addresses are grouped into zones of `2^zone_shift` words.
    pub zone_shift: u64,
    /// The zones that hold condemned objects, one bit each.
    pub white: u64,
    /// The zones of every reference the filter has been asked about.
    pub unfixed: u64,
    /// Old and new address of each object moved in this collection.
    pub relocations: Vec<(usize, usize)>,
}

/// The capability a format's `scan` method fixes references through.
pub struct ScanFixState {
    /// The zone shift.
    pub zs: u64,
    /// The condemned zones.
    pub w: u64,
    /// The zones of the references seen so far.
    pub ufs: u64,
    /// Old and new address of each moved object.
    pub relocations: Vec<(usize, usize)>,
}

impl ScanState {
    /// The state is usable: the zone shift is a valid shift of a word.
    pub open spec fn wf(&self) -> bool {
        self.zone_shift < 64
    }

    /// The fixing state a scan starts from.
    pub open spec fn fix_state(&self) -> ScanFixState {
        ScanFixState {
            zs: self.zone_shift,
            w: self.white,
            ufs: self.unfixed,
            relocations: self.relocations,
        }
    }

    /// Runs `func` on the fixing state of this scan and returns its result.
    /// `func` hands the state back; when it succeeds, the zones it saw are
    /// kept in the scan's summary, and when it fails they are dropped.
    pub fn fix_with<G>(&mut self, func: G) -> (r: Result<(), MpsError>) where
        G: FnOnce(ScanFixState) -> (ScanFixState, Result<(), MpsError>),

        requires
            func.requires((old(self).fix_state(),)),
        ensures
            exists|out: (ScanFixState, Result<(), MpsError>)|
                #[trigger] func.ensures((old(self).fix_state(),), out) && r == out.1
                    && final(self).relocations == out.0.relocations && final(self).unfixed == (
                if out.1 is Ok {
                    out.0.ufs
                } else {
                    old(self).unfixed
                }),
            final(self).zone_shift == old(self).zone_shift,
            final(self).white == old(self).white,
    {
        let mut relocations: Vec<(usize, usize)> = Vec::new();
        std::mem::swap(&mut relocations, &mut self.relocations);
        let fs = ScanFixState {
            zs: self.zone_shift,
            w: self.white,
            ufs: self.unfixed,
            relocations,
        };
        assert(fs == old(self).fix_state());
        let (done, res) = func(fs);
        let ghost out = (done, res);
        assert(func.ensures((old(self).fix_state(),), out));
        self.relocations = done.relocations;
        if res.is_ok() {
            self.unfixed = done.ufs;
        }
        res
    }

    /// Enters the fixing phase of a scan.
    pub fn begin_fix(self) -> (r: ScanFixState)
        ensures
            r.zs == self.zone_shift,
            r.w == self.white,
            r.ufs == self.unfixed,
            r.relocations == self.relocations,
    {
        ScanFixState {
            zs: self.zone_shift,
            w: self.white,
            ufs: self.unfixed,
            relocations: self.relocations,
        }
    }
}

impl ScanFixState {
    /// The state is usable: the zone shift is a valid shift of a word.
    pub open spec fn wf(&self) -> bool {
        self.zs < 64
    }

    /// Leaves the fixing phase, keeping the summary of zones seen.
    pub fn end_fix(self) -> (r: ScanState)
        ensures
            r.zone_shift == self.zs,
            r.white == self.w,
            r.unfixed == self.ufs,
            r.relocations == self.relocations,
    {
        ScanState {
            zone_shift: self.zs,
            white: self.w,
            unfixed: self.ufs,
            relocations: self.relocations,
        }
    }

    /// The scan state a nested scan starts from.
    pub open spec fn scan_state(&self) -> ScanState {
        ScanState {
            zone_shift: self.zs,
            white: self.w,
            unfixed: self.ufs,
            relocations: self.relocations,
        }
    }

    /// Hands the scan to a nested scanning function, which must enter its
    /// own fixing phase. When it succeeds, the zones it saw join this
    /// state's summary.
    pub fn call_scan<G>(&mut self, func: G) -> (r: Result<(), MpsError>) where
        G: FnOnce(ScanState) -> (ScanState, Result<(), MpsError>),

        requires
            func.requires((old(self).scan_state(),)),
        ensures
            exists|out: (ScanState, Result<(), MpsError>)|
                #[trigger] func.ensures((old(self).scan_state(),), out) && r == out.1
                    && final(self).relocations == out.0.relocations && final(self).ufs == (
                if out.1 is Ok {
                    old(self).ufs | out.0.unfixed
                } else {
                    old(self).ufs
                }),
            final(self).zs == old(self).zs,
            final(self).w == old(self).w,
    {
        let mut relocations: Vec<(usize, usize)> = Vec::new();
        std::mem::swap(&mut relocations, &mut self.relocations);
        let ss = ScanState { zone_shift: self.zs, white: self.w, unfixed: self.ufs, relocations };
        assert(ss == old(self).scan_state());
        let (done, res) = func(ss);
        let ghost out = (done, res);
        assert(func.ensures((old(self).scan_state(),), out));
        self.relocations = done.relocations;
        if res.is_ok() {
            self.ufs = self.ufs | done.unfixed;
        }
        res
    }

    /// Whether a reference may point into a condemned zone. Whatever the
    /// answer, the reference's zone is added to the summary of zones seen.
    pub fn should_fix(&mut self, addr: usize) -> (r: bool)
        requires
            old(self).wf(),
        ensures
            final(self).ufs == old(self).ufs | zone_bit(addr, old(self).zs),
            r == (old(self).w & zone_bit(addr, old(self).zs) != 0),
            final(self).zs == old(self).zs,
            final(self).w == old(self).w,
            final(self).relocations == old(self).relocations,
    {
        let zs: u64 = self.zs;
        let z: u64 = ((addr as u64) >> zs) & 63u64;
        assert(z < 64) by (bit_vector)
            requires
                z == ((addr as u64) >> zs) & 63u64,
        ;
        let wt: u64 = 1u64 << z;
        self.ufs = self.ufs | wt;
        (self.w & wt) != 0
    }

    /// Fixes a reference without the filter: a reference to a moved object
    /// is rewritten to the object's new address.
    pub fn force_fix(&mut self, r: &mut usize) -> (res: Result<(), MpsError>)
        ensures
            *final(r) == relocate(old(self).relocations@, *old(r)),
            res is Ok,
            *final(self) == *old(self),
    {
        let a = *r;
        let mut i: usize = 0;
        assert(self.relocations@.skip(0) =~= self.relocations@);
        while i < self.relocations.len()
            invariant
                i <= self.relocations@.len(),
                a == *old(r),
                *r == a,
                relocate(self.relocations@, a) == relocate(self.relocations@.skip(i as int), a),
            decreases self.relocations@.len() - i,
        {
            let (from, to) = self.relocations[i];
            proof {
                assert(self.relocations@.skip(i as int).drop_first() =~= self.relocations@.skip(
                    i + 1,
                ));
            }
            if from == a {
                *r = to;
                return Ok(());
            }
            i = i + 1;
        }
        assert(self.relocations@.skip(i as int) =~= Seq::<(usize, usize)>::empty());
        Ok(())
    }

    /// Fixes a reference if the filter says it may point into a condemned
    /// zone; the reference's zone is recorded either way.
    pub fn fix(&mut self, r: &mut usize) -> (res: Result<(), MpsError>)
        requires
            old(self).wf(),
        ensures
            final(self).ufs == old(self).ufs | zone_bit(*old(r), old(self).zs),
            final(self).zs == old(self).zs,
            final(self).w == old(self).w,
            final(self).relocations == old(self).relocations,
            *final(r) == if old(self).w & zone_bit(*old(r), old(self).zs) != 0 {
                relocate(old(self).relocations@, *old(r))
            } else {
                *old(r)
            },
            res is Ok,
    {
        let a = *r;
        if self.should_fix(a) {
            self.force_fix(r)
        } else {
            Ok(())
        }
    }
}

} // verus!
