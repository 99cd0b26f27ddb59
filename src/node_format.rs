//! A format of binary-tree nodes and leaves, laid out as a tagged union whose
//! size is read from a table keyed by the tag, with forwarding and padding
//! markers that obey the same layout.
//!
//! | tag            | words                          | size         |
//! |----------------|--------------------------------|--------------|
//! | `TAG_NODE`     | tag, left, right, value        | 4            |
//! | `TAG_LEAF`     | tag, value                     | 2            |
//! | `TAG_FWD_PAIR` | tag, new address               | 2            |
//! | `TAG_FWD`      | tag, new address, size         | size (>= 3)  |
//! | `TAG_PAD`      | tag, size                      | size (>= 2)  |
//!
//! A reference of value `NULL` refers to nothing.
use vstd::prelude::*;

use crate::err::MpsError;
use crate::format::{
    FormatLayout, RawFormatMethods, ScanFixState, fix_value, lemma_or_adds, lemma_or_includes, lemma_zone_bit_nonzero,
    lemma_run_slot_extend, run_slot, zone_bit, lemma_parses_bounds,
    lemma_parses_extend, lemma_parses_frame, parses,
};

verus! {

/// The tag of an interior node.
pub const TAG_NODE: usize = 1;
/// The tag of a leaf.
pub const TAG_LEAF: usize = 2;
/// The tag of a two-word forwarding marker.
pub const TAG_FWD_PAIR: usize = 3;
/// The tag of a forwarding marker of three words or more.
pub const TAG_FWD: usize = 4;
/// The tag of a padding marker.
pub const TAG_PAD: usize = 5;
/// The reference that refers to nothing.
pub const NULL: usize = 0;
/// The size of an interior node, in words.
pub const NODE_SIZE: usize = 4;
/// The size of a leaf, in words.
pub const LEAF_SIZE: usize = 2;
/// The alignment of the format, in words.
pub const NODE_ALIGN: usize = 2;

/// The format of tree nodes and leaves.
pub struct NodeFormat;

/// The size that the tag at `a` gives, reading the size word of the
/// variable-size markers.
pub open spec fn node_size(m: Seq<usize>, a: int) -> int {
    let t = m[a];
    if t == TAG_NODE {
        NODE_SIZE as int
    } else if t == TAG_LEAF || t == TAG_FWD_PAIR {
        2
    } else if t == TAG_FWD {
        m[a + 2] as int
    } else if t == TAG_PAD {
        m[a + 1] as int
    } else {
        0
    }
}

/// An object or a marker of this format starts at `a`.
pub open spec fn node_valid(m: Seq<usize>, a: int) -> bool {
    &&& 0 <= a < m.len()
    &&& {
        let t = m[a];
        if t == TAG_NODE {
            a + 4 <= m.len()
        } else if t == TAG_LEAF || t == TAG_FWD_PAIR {
            a + 2 <= m.len()
        } else if t == TAG_FWD {
            a + 3 <= m.len() && m[a + 2] >= 3 && a + m[a + 2] <= m.len()
        } else if t == TAG_PAD {
            a + 2 <= m.len() && m[a + 1] >= 2 && a + m[a + 1] <= m.len()
        } else {
            false
        }
    }
}

impl FormatLayout for NodeFormat {
    open spec fn spec_alignment() -> usize {
        NODE_ALIGN
    }

    open spec fn min_size() -> nat {
        2
    }

    open spec fn valid_at(m: Seq<usize>, a: int) -> bool {
        node_valid(m, a)
    }

    open spec fn size_at(m: Seq<usize>, a: int) -> int {
        node_size(m, a)
    }

    open spec fn forwarded_to(m: Seq<usize>, a: int) -> Option<usize> {
        if m[a] == TAG_FWD_PAIR || m[a] == TAG_FWD {
            Some(m[a + 1])
        } else {
            None
        }
    }

    open spec fn ref_slot(m: Seq<usize>, a: int, j: int) -> bool {
        m[a] == TAG_NODE && ((j == a + 1 || j == a + 2) && m[j] != NULL)
    }

    proof fn lemma_alignment() {
    }

    proof fn lemma_object(m: Seq<usize>, a: int) {
    }

    proof fn lemma_copy(m1: Seq<usize>, a: int, m2: Seq<usize>, b: int) {
        assert(m2[b] == m1[b - b + a]);
        assert(m2[b + 1] == m1[b + 1 - b + a]);
        if m1[a] == TAG_FWD || m1[a] == TAG_NODE {
            assert(m2[b + 2] == m1[b + 2 - b + a]);
        }
        if m1[a] == TAG_NODE {
            assert(m2[b + 3] == m1[b + 3 - b + a]);
        }
    }

    fn alignment() -> (r: usize) {
        NODE_ALIGN
    }

    fn object_size(m: &Vec<usize>, a: usize, limit: usize) -> (r: Option<usize>) {
        if a >= m.len() {
            return None;
        }
        let t = m[a];
        let len = m.len();
        let size: usize = if t == TAG_NODE {
            if len - a < 4 {
                return None;
            }
            NODE_SIZE
        } else if t == TAG_LEAF || t == TAG_FWD_PAIR {
            if len - a < 2 {
                return None;
            }
            2
        } else if t == TAG_FWD {
            if len - a < 3 || m[a + 2] < 3 || len - a < m[a + 2] {
                return None;
            }
            m[a + 2]
        } else if t == TAG_PAD {
            if len - a < 2 || m[a + 1] < 2 || len - a < m[a + 1] {
                return None;
            }
            m[a + 1]
        } else {
            return None;
        };
        if limit < a || limit - a < size {
            None
        } else {
            Some(size)
        }
    }

    fn skip(m: &Vec<usize>, a: usize) -> (r: usize) {
        assert(m@.len() == m.len());
        let t = m[a];
        if t == TAG_NODE {
            a + NODE_SIZE
        } else if t == TAG_LEAF || t == TAG_FWD_PAIR {
            a + 2
        } else if t == TAG_FWD {
            a + m[a + 2]
        } else {
            a + m[a + 1]
        }
    }

    fn is_forwarded(m: &Vec<usize>, a: usize) -> (r: Option<usize>) {
        assert(m@.len() == m.len());
        let t = m[a];
        if t == TAG_FWD_PAIR || t == TAG_FWD {
            Some(m[a + 1])
        } else {
            None
        }
    }

    fn forward(m: &mut Vec<usize>, old_addr: usize, new_addr: usize) {
        let size = Self::skip(m, old_addr) - old_addr;
        if size == 2 {
            m.set(old_addr, TAG_FWD_PAIR);
            m.set(old_addr + 1, new_addr);
        } else {
            m.set(old_addr, TAG_FWD);
            m.set(old_addr + 1, new_addr);
            m.set(old_addr + 2, size);
        }
    }

    fn pad(m: &mut Vec<usize>, a: usize, size: usize) {
        assert(m@.len() == m.len());
        m.set(a, TAG_PAD);
        m.set(a + 1, size);
    }
}

impl RawFormatMethods for NodeFormat {
    fn scan(ss: &mut ScanFixState, m: &mut Vec<usize>, base: usize, limit: usize) -> (r: Result<
        (),
        MpsError,
    >) {
        let ghost m0 = m@;
        let ghost ss0 = *ss;
        let mut a: usize = base;
        proof {
            lemma_parses_bounds::<NodeFormat>(m@, base as int, limit as int);
            assert(parses::<NodeFormat>(m0, base as int, base as int));
            assert forall|j: int| #[trigger] run_slot::<NodeFormat>(m0, base as int, base as int, j)
                implies false by {}
            lemma_or_adds(ss0.ufs, 0);
        }
        while a < limit
            invariant
                base <= a <= limit,
                ss.wf(),
                ss.relocations == ss0.relocations,
                ss.zs == ss0.zs,
                ss.w == ss0.w,
                ss0.ufs | ss.ufs == ss.ufs,
                m@.len() == m0.len(),
                parses::<NodeFormat>(m@, base as int, a as int),
                parses::<NodeFormat>(m@, a as int, limit as int),
                parses::<NodeFormat>(m0, base as int, a as int),
                parses::<NodeFormat>(m0, a as int, limit as int),
                forall|i: int| 0 <= i < m0.len() && !(base <= i < a) ==> m@[i] == m0[i],
                forall|j: int|
                    base <= j < a ==> #[trigger] m@[j] == if run_slot::<NodeFormat>(
                        m0,
                        base as int,
                        a as int,
                        j,
                    ) {
                        fix_value(ss0, m0[j])
                    } else {
                        m0[j]
                    },
                forall|j: int|
                    #[trigger] run_slot::<NodeFormat>(m0, base as int, a as int, j) ==> ss.ufs
                        & zone_bit(m0[j], ss0.zs) != 0,
            decreases limit - a,
        {
            proof {
                lemma_parses_bounds::<NodeFormat>(m@, a + node_size(m@, a as int), limit as int);
                NodeFormat::lemma_copy(m0, a as int, m@, a as int);
            }
            let next = Self::skip(m, a);
            let ghost ufs_before = ss.ufs;
            if m[a] == TAG_NODE {
                let ghost before = m@;
                let mut left = m[a + 1];
                if left != NULL {
                    match ss.fix(&mut left) {
                        Ok(()) => {},
                        Err(e) => {
                            return Err(e);
                        },
                    }
                    m.set(a + 1, left);
                    proof {
                        lemma_or_adds(ufs_before, zone_bit(m0[a + 1], ss0.zs));
                        lemma_zone_bit_nonzero(m0[a + 1], ss0.zs);
                    }
                }
                let ghost ufs_mid = ss.ufs;
                let mut right = m[a + 2];
                if right != NULL {
                    match ss.fix(&mut right) {
                        Ok(()) => {},
                        Err(e) => {
                            return Err(e);
                        },
                    }
                    m.set(a + 2, right);
                    proof {
                        lemma_or_adds(ufs_mid, zone_bit(m0[a + 2], ss0.zs));
                        lemma_zone_bit_nonzero(m0[a + 2], ss0.zs);
                    }
                }
                proof {
                    lemma_or_adds(ufs_before, 0);
                    lemma_or_adds(ufs_mid, 0);
                    lemma_or_includes(ufs_before, ufs_mid, ss.ufs, 0);
                    if m0[a + 1] != NULL {
                        lemma_or_includes(
                            ufs_mid,
                            ss.ufs,
                            0,
                            zone_bit(m0[a + 1], ss0.zs),
                        );
                    }
                    assert(ufs_before | ss.ufs == ss.ufs);
                    assert(m0[a + 1] != NULL ==> ss.ufs & zone_bit(m0[a + 1], ss0.zs) != 0);
                    assert(m0[a + 2] != NULL ==> ss.ufs & zone_bit(m0[a + 2], ss0.zs) != 0);
                }
                proof {
                    assert(node_valid(m@, a as int));
                    lemma_parses_frame::<NodeFormat>(before, m@, base as int, a as int);
                    lemma_parses_frame::<NodeFormat>(before, m@, next as int, limit as int);
                }
            }
            proof {
                lemma_or_adds(ufs_before, 0);
                lemma_or_includes(ss0.ufs, ufs_before, ss.ufs, 0);
                lemma_parses_extend::<NodeFormat>(m@, base as int, a as int);
                lemma_parses_extend::<NodeFormat>(m0, base as int, a as int);
                assert forall|j: int| base <= j < next implies #[trigger] m@[j] == if run_slot::<
                    NodeFormat,
                >(m0, base as int, next as int, j) {
                    fix_value(ss0, m0[j])
                } else {
                    m0[j]
                } by {
                    lemma_run_slot_extend::<NodeFormat>(m0, base as int, a as int, j);
                }
                assert forall|j: int| #[trigger]
                    run_slot::<NodeFormat>(m0, base as int, next as int, j) implies ss.ufs
                    & zone_bit(m0[j], ss0.zs) != 0 by {
                    lemma_run_slot_extend::<NodeFormat>(m0, base as int, a as int, j);
                    lemma_or_includes(ufs_before, ss.ufs, 0, zone_bit(m0[j], ss0.zs));
                }
            }
            a = next;
        }
        Ok(())
    }
}

impl NodeFormat {
    /// Writes an interior node at `a`.
    pub fn write_node(m: &mut Vec<usize>, a: usize, left: usize, right: usize, value: usize)
        requires
            a + NODE_SIZE <= old(m)@.len(),
        ensures
            final(m)@.len() == old(m)@.len(),
            node_valid(final(m)@, a as int),
            node_size(final(m)@, a as int) == NODE_SIZE,
            final(m)@[a as int] == TAG_NODE,
            final(m)@[a + 1] == left,
            final(m)@[a + 2] == right,
            final(m)@[a + 3] == value,
            forall|i: int|
                0 <= i < old(m)@.len() && !(a <= i < a + NODE_SIZE) ==> final(m)@[i] == old(m)@[i],
    {
        assert(m@.len() == m.len());
        m.set(a, TAG_NODE);
        m.set(a + 1, left);
        m.set(a + 2, right);
        m.set(a + 3, value);
    }

    /// Writes a leaf at `a`.
    pub fn write_leaf(m: &mut Vec<usize>, a: usize, value: usize)
        requires
            a + LEAF_SIZE <= old(m)@.len(),
        ensures
            final(m)@.len() == old(m)@.len(),
            node_valid(final(m)@, a as int),
            node_size(final(m)@, a as int) == LEAF_SIZE,
            final(m)@[a as int] == TAG_LEAF,
            final(m)@[a + 1] == value,
            forall|i: int|
                0 <= i < old(m)@.len() && !(a <= i < a + LEAF_SIZE) ==> final(m)@[i] == old(m)@[i],
    {
        assert(m@.len() == m.len());
        m.set(a, TAG_LEAF);
        m.set(a + 1, value);
    }
}

} // verus!
