use mps::alloc_point::AllocationPoint;
use mps::arena::{Arena, VirtualMemoryArenaClass, ARENA_BASE};
use mps::err::{handle_res, res_of, RES_COMMIT_LIMIT, RES_FAIL, RES_IO, RES_LIMIT, RES_MEMORY,
    RES_OK, RES_PARAM, RES_RESOURCE, RES_UNIMPL};
use mps::format::{is_power_of_two, skip_deltas, FormatLayout, ObjectFormat, RawFormatMethods, ScanFixState,
    ScanState};
use mps::node_format::{NodeFormat, LEAF_SIZE, NODE_ALIGN, NODE_SIZE, NULL, TAG_FWD, TAG_FWD_PAIR,
    TAG_LEAF, TAG_NODE, TAG_PAD};
use mps::pools::automatic_mostly_copying::{AutoMostlyCopyingPool, COPYING_EXTEND_BY};
use mps::pools::mark_sweep::{AutoMarkSweep, DebugOptions, MARK_SWEEP_EXTEND_BY};
use mps::pools::Pool;
use mps::MpsError;

const MB32_WORDS: usize = 32 * 1024 * 1024 / 8;

fn arena_of(words: usize) -> Arena {
    let mut b = VirtualMemoryArenaClass::get().builder();
    b.arena_size = Some(words);
    b.build().expect("arena")
}

fn format(arena: &Arena) -> ObjectFormat<NodeFormat> {
    ObjectFormat::<NodeFormat>::managed_with(arena).expect("format")
}

/// Allocates one object of `size` words, initialising it with `init`, and
/// retries until the commit succeeds.
fn allocate<P: Pool<NodeFormat>>(
    arena: &mut Arena,
    pool: &mut P,
    ap: &AllocationPoint,
    size: usize,
    init: impl Fn(&mut Vec<usize>, usize),
) -> usize {
    loop {
        let addr = ap.reserve(arena, pool, size).expect("reserve");
        init(&mut arena.mem, addr);
        if ap.commit(arena, pool, addr, size) {
            return addr;
        }
    }
}

fn make_tree<P: Pool<NodeFormat>>(
    arena: &mut Arena,
    pool: &mut P,
    ap: &AllocationPoint,
    depth: usize,
    next_value: &mut usize,
) -> usize {
    if depth == 0 {
        let v = *next_value;
        *next_value += 1;
        allocate(arena, pool, ap, LEAF_SIZE, |m, a| NodeFormat::write_leaf(m, a, v))
    } else {
        let l = make_tree(arena, pool, ap, depth - 1, next_value);
        let r = make_tree(arena, pool, ap, depth - 1, next_value);
        allocate(arena, pool, ap, NODE_SIZE, |m, a| NodeFormat::write_node(m, a, l, r, depth))
    }
}

fn count(m: &[usize], a: usize) -> usize {
    if a == NULL {
        return 0;
    }
    match m[a] {
        TAG_NODE => 1 + count(m, m[a + 1]) + count(m, m[a + 2]),
        TAG_LEAF => 1,
        t => panic!("unexpected tag {} at {}", t, a),
    }
}

fn leaves(m: &[usize], a: usize, out: &mut Vec<usize>) {
    match m[a] {
        TAG_NODE => {
            leaves(m, m[a + 1], out);
            leaves(m, m[a + 2], out);
        }
        TAG_LEAF => out.push(m[a + 1]),
        t => panic!("unexpected tag {} at {}", t, a),
    }
}

#[test]
fn tree_in_mark_sweep_pool_has_2047_nodes() {
    let mut arena = arena_of(MB32_WORDS);
    let fmt = format(&arena);
    let mut pool = AutoMarkSweep::<NodeFormat>::builder(&arena).build(fmt).expect("pool");
    let ap = pool.create_allocation_point().expect("ap");
    let mut v = 0;
    let root = make_tree(&mut arena, &mut pool, &ap, 10, &mut v);
    assert_eq!(count(&arena.mem, root), (1 << 11) - 1);
    assert_eq!(count(&arena.mem, root), 2047);
}

#[test]
fn moving_collection_keeps_leaf_values() {
    let mut arena = arena_of(MB32_WORDS);
    let fmt = format(&arena);
    let mut pool = AutoMostlyCopyingPool::<NodeFormat>::builder(&arena).build(fmt).expect("pool");
    let ap = pool.create_allocation_point().expect("ap");
    let mut v = 0;
    let first = make_tree(&mut arena, &mut pool, &ap, 10, &mut v);
    let mut before = Vec::new();
    leaves(&arena.mem, first, &mut before);
    assert_eq!(before.len(), 1024);

    let mut roots = vec![first];
    assert_eq!(arena.moved_collections(), 0);
    arena.full_collection(&mut pool, &mut roots);
    assert_eq!(arena.moved_collections(), 1);
    let moved_root = roots[0];
    assert_ne!(moved_root, first, "the tree should have moved");
    assert_eq!(pool.core.moves.len(), 2047);
    assert!(pool.core.moves.contains(&(first, moved_root)));
    assert_eq!(NodeFormat::is_forwarded(&arena.mem, first), Some(moved_root));

    let second = make_tree(&mut arena, &mut pool, &ap, 10, &mut v);
    let mut after = Vec::new();
    leaves(&arena.mem, roots[0], &mut after);
    assert_eq!(after, before);
    assert_eq!(count(&arena.mem, roots[0]), 2047);
    assert_eq!(count(&arena.mem, second), 2047);
    let mut second_leaves = Vec::new();
    leaves(&arena.mem, second, &mut second_leaves);
    assert_eq!(second_leaves, (1024..2048).collect::<Vec<usize>>());
}

#[test]
fn commit_without_flip_succeeds_and_object_is_readable() {
    let mut arena = arena_of(1 << 16);
    let fmt = format(&arena);
    let mut pool = AutoMarkSweep::<NodeFormat>::builder(&arena).build(fmt).expect("pool");
    let ap = pool.create_allocation_point().expect("ap");
    let addr = ap.reserve(&mut arena, &mut pool, LEAF_SIZE).expect("reserve");
    NodeFormat::write_leaf(&mut arena.mem, addr, 42);
    assert!(ap.commit(&arena, &mut pool, addr, LEAF_SIZE));
    assert_eq!(arena.read(addr), TAG_LEAF);
    assert_eq!(arena.read(addr + 1), 42);
}

#[test]
fn commit_after_flip_fails_and_retry_succeeds() {
    let mut arena = arena_of(1 << 16);
    let fmt = format(&arena);
    let mut pool = AutoMarkSweep::<NodeFormat>::builder(&arena).build(fmt).expect("pool");
    let ap = pool.create_allocation_point().expect("ap");
    let addr = ap.reserve(&mut arena, &mut pool, LEAF_SIZE).expect("reserve");
    NodeFormat::write_leaf(&mut arena.mem, addr, 7);
    assert_eq!(arena.begin_collection(), Ok(()));
    assert!(!ap.commit(&arena, &mut pool, addr, LEAF_SIZE));
    let again = ap.reserve(&mut arena, &mut pool, LEAF_SIZE).expect("reserve");
    NodeFormat::write_leaf(&mut arena.mem, again, 7);
    assert!(ap.commit(&arena, &mut pool, again, LEAF_SIZE));
}

#[test]
fn fast_path_reservations_are_adjacent_and_aligned() {
    let mut arena = arena_of(1 << 16);
    let fmt = format(&arena);
    let mut pool = AutoMarkSweep::<NodeFormat>::builder(&arena).build(fmt).expect("pool");
    let ap = pool.create_allocation_point().expect("ap");
    let a = ap.reserve(&mut arena, &mut pool, NODE_SIZE).expect("reserve");
    NodeFormat::write_node(&mut arena.mem, a, NULL, NULL, 1);
    assert!(ap.commit(&arena, &mut pool, a, NODE_SIZE));
    let b = ap.reserve(&mut arena, &mut pool, LEAF_SIZE).expect("reserve");
    assert_eq!(b, a + NODE_SIZE);
    assert_eq!(a % NODE_ALIGN, 0);
    assert_eq!(b % NODE_ALIGN, 0);
    assert!(a >= ARENA_BASE);
}

#[test]
fn reserve_rejects_unaligned_and_zero_sizes() {
    let mut arena = arena_of(1 << 16);
    let fmt = format(&arena);
    let mut pool = AutoMarkSweep::<NodeFormat>::builder(&arena).build(fmt).expect("pool");
    let ap = pool.create_allocation_point().expect("ap");
    assert_eq!(ap.reserve(&mut arena, &mut pool, 3), Err(MpsError::InvalidParam));
    assert_eq!(ap.reserve(&mut arena, &mut pool, 0), Err(MpsError::InvalidParam));
    for size in [2usize, 4, 6, 8, 10] {
        let a = ap.reserve(&mut arena, &mut pool, size).expect("reserve");
        assert_eq!(a % NODE_ALIGN, 0);
        arena.mem[a] = TAG_PAD;
        arena.mem[a + 1] = size;
        assert!(ap.commit(&arena, &mut pool, a, size));
    }
}

#[test]
fn reserve_fails_past_commit_limit() {
    let mut b = VirtualMemoryArenaClass::get().builder();
    b.arena_size = Some(1 << 16);
    b.commit_limit = Some(100);
    let mut arena = b.build().expect("arena");
    let fmt = format(&arena);
    let mut pool = AutoMarkSweep::<NodeFormat>::builder(&arena).build(fmt).expect("pool");
    let ap = pool.create_allocation_point().expect("ap");
    assert_eq!(ap.reserve(&mut arena, &mut pool, 2), Err(MpsError::CommitLimit));
}

#[test]
fn reserve_fails_when_address_space_is_exhausted() {
    let mut arena = arena_of(1000);
    let fmt = format(&arena);
    let mut pool = AutoMarkSweep::<NodeFormat>::builder(&arena).build(fmt).expect("pool");
    let ap = pool.create_allocation_point().expect("ap");
    assert_eq!(ap.reserve(&mut arena, &mut pool, 2), Err(MpsError::Memory));
}

#[test]
fn pool_sizes_follow_allocation() {
    let mut arena = arena_of(1 << 16);
    let fmt = format(&arena);
    let mut pool = AutoMarkSweep::<NodeFormat>::builder(&arena).build(fmt).expect("pool");
    assert_eq!(pool.total_size(), 0);
    assert_eq!(pool.free_size(), 0);
    assert!(pool.is_automatic());
    assert!(!pool.is_manual());
    let ap = pool.create_allocation_point().expect("ap");
    let a = ap.reserve(&mut arena, &mut pool, NODE_SIZE).expect("reserve");
    NodeFormat::write_node(&mut arena.mem, a, NULL, NULL, 0);
    assert!(ap.commit(&arena, &mut pool, a, NODE_SIZE));
    assert_eq!(pool.total_size(), MARK_SWEEP_EXTEND_BY);
    assert_eq!(pool.free_size(), MARK_SWEEP_EXTEND_BY - NODE_SIZE);
    assert_eq!(arena.committed(), MARK_SWEEP_EXTEND_BY);
}

#[test]
fn set_commit_limit_below_use_is_rejected() {
    let mut arena = arena_of(1 << 16);
    let fmt = format(&arena);
    let mut pool = AutoMarkSweep::<NodeFormat>::builder(&arena).build(fmt).expect("pool");
    let ap = pool.create_allocation_point().expect("ap");
    let a = ap.reserve(&mut arena, &mut pool, LEAF_SIZE).expect("reserve");
    NodeFormat::write_leaf(&mut arena.mem, a, 1);
    assert!(ap.commit(&arena, &mut pool, a, LEAF_SIZE));
    assert_eq!(arena.set_commit_limit(10), Err(MpsError::InvalidParam));
    assert_eq!(arena.commit_limit(), usize::MAX);
    assert_eq!(arena.set_commit_limit(MARK_SWEEP_EXTEND_BY), Ok(()));
    assert_eq!(arena.commit_limit(), MARK_SWEEP_EXTEND_BY);
}

#[test]
fn arena_build_validates_its_settings() {
    let mut b = VirtualMemoryArenaClass::get().builder();
    b.arena_size = Some(ARENA_BASE);
    assert_eq!(b.build().err(), Some(MpsError::InvalidParam));
    let mut b = VirtualMemoryArenaClass::get().builder();
    b.arena_size = Some(1 << 12);
    b.spare = Some(1_000_001);
    assert_eq!(b.build().err(), Some(MpsError::InvalidParam));
    let mut b = VirtualMemoryArenaClass::get().builder();
    b.arena_size = Some(usize::MAX);
    assert_eq!(b.build().err(), Some(MpsError::Resource));
    let mut b = VirtualMemoryArenaClass::get().builder();
    b.arena_size = Some(1 << 12);
    b.pause_time = Some(5);
    b.spare = Some(500_000);
    let mut arena = b.build().expect("arena");
    assert_eq!(arena.size(), 1 << 12);
    assert_eq!(arena.pause_time(), 5);
    assert_eq!(arena.spare_limit(), 500_000);
    assert_eq!(arena.spare_committed(), 0);
    assert_eq!(arena.committed(), 0);
    arena.set_pause_time(9);
    assert_eq!(arena.pause_time(), 9);
    assert_eq!(arena.as_raw().len(), 1 << 12);
}

#[test]
fn non_moving_collection_leaves_objects_in_place() {
    let mut arena = arena_of(1 << 16);
    let fmt = format(&arena);
    let mut pool = AutoMarkSweep::<NodeFormat>::builder(&arena).build(fmt).expect("pool");
    let ap = pool.create_allocation_point().expect("ap");
    let mut v = 0;
    let root = make_tree(&mut arena, &mut pool, &ap, 3, &mut v);
    let mut roots = vec![root];
    arena.full_collection(&mut pool, &mut roots);
    assert_eq!(roots[0], root);
    assert_eq!(arena.moved_collections(), 0);
    assert_eq!(count(&arena.mem, root), 15);
    assert!(pool.core.moves.is_empty());
}

#[test]
fn pending_reservation_fails_after_full_collection() {
    let mut arena = arena_of(1 << 16);
    let fmt = format(&arena);
    let mut pool = AutoMostlyCopyingPool::<NodeFormat>::builder(&arena).build(fmt).expect("pool");
    let ap = pool.create_allocation_point().expect("ap");
    let a = ap.reserve(&mut arena, &mut pool, LEAF_SIZE).expect("reserve");
    NodeFormat::write_leaf(&mut arena.mem, a, 3);
    let mut roots = Vec::new();
    arena.full_collection(&mut pool, &mut roots);
    assert!(!ap.commit(&arena, &mut pool, a, LEAF_SIZE));
}

#[test]
fn builders_record_their_settings() {
    let arena = arena_of(1 << 12);
    let mut b = AutoMostlyCopyingPool::<NodeFormat>::builder(&arena);
    b.allow_interior(false).extend_by(999);
    assert_eq!(b.allow_interior, Some(false));
    assert_eq!(b.extend_by, Some(999));
    let pool = b.build(format(&arena)).expect("pool");
    assert_eq!(pool.core.extend_by, 1000);
    assert!(!pool.allow_interior);
    let dflt = AutoMostlyCopyingPool::<NodeFormat>::builder(&arena).build(format(&arena)).expect("pool");
    assert_eq!(dflt.core.extend_by, COPYING_EXTEND_BY);
    assert!(dflt.allow_interior);

    let mut m = AutoMarkSweep::<NodeFormat>::builder(&arena);
    m.allow_ambiguous(false).debug(Some(DebugOptions::default()));
    let pool = m.build(format(&arena)).expect("pool");
    assert!(!pool.allow_ambiguous);
    let d = pool.debug.as_ref().expect("debug");
    assert_eq!(d.fence_template.as_deref(), Some(&b"FENCE \xDE\xAD\xBE\xEF"[..]));
    assert_eq!(d.free_template.as_deref(), Some(&b"FREE \xCA\xFE\xBA\xBE"[..]));
}

#[test]
fn format_checks_its_alignment() {
    let arena = arena_of(1 << 12);
    let f = format(&arena);
    assert!(f.managed());
    assert_eq!(f.as_raw(), NODE_ALIGN);
    assert!(is_power_of_two(1));
    assert!(is_power_of_two(64));
    assert!(!is_power_of_two(0));
    assert!(!is_power_of_two(12));
    let mut forged = format(&arena);
    forged.alignment = 3;
    assert!(AutoMarkSweep::<NodeFormat>::builder(&arena).build(forged).is_err());
}

#[test]
fn error_codes_map_both_ways() {
    assert_eq!(MpsError::from_code(RES_FAIL), MpsError::Fail);
    assert_eq!(MpsError::from_code(RES_IO), MpsError::Io);
    assert_eq!(MpsError::from_code(RES_LIMIT), MpsError::Limit);
    assert_eq!(MpsError::from_code(RES_MEMORY), MpsError::Memory);
    assert_eq!(MpsError::from_code(RES_RESOURCE), MpsError::Resource);
    assert_eq!(MpsError::from_code(RES_UNIMPL), MpsError::Unimplemented);
    assert_eq!(MpsError::from_code(RES_COMMIT_LIMIT), MpsError::CommitLimit);
    assert_eq!(MpsError::from_code(RES_PARAM), MpsError::InvalidParam);
    assert_eq!(MpsError::from_code(1234), MpsError::Unknown);
    assert_eq!(MpsError::from_code(-1), MpsError::Unknown);
    assert_eq!(handle_res(RES_OK), Ok(()));
    assert_eq!(handle_res(RES_MEMORY), Err(MpsError::Memory));
    assert_eq!(res_of(Ok(())), RES_OK);
    assert_eq!(res_of(Err(MpsError::CommitLimit)), RES_COMMIT_LIMIT);
    for e in [MpsError::Fail, MpsError::Io, MpsError::Limit, MpsError::Memory,
        MpsError::Resource, MpsError::Unimplemented, MpsError::CommitLimit,
        MpsError::InvalidParam] {
        assert_eq!(MpsError::from_code(e.code()), e);
    }
    assert_eq!(MpsError::from_code(MpsError::Unknown.code()), MpsError::Unknown);
    assert_eq!(MpsError::Memory.message(), "Insufficient memory");
}

#[test]
fn skip_walk_covers_a_segment_exactly() {
    let mut m = vec![0usize; 64];
    NodeFormat::write_node(&mut m, 8, NULL, NULL, 1);
    NodeFormat::write_leaf(&mut m, 12, 2);
    NodeFormat::pad(&mut m, 14, 6);
    NodeFormat::forward(&mut m, 12, 40);
    NodeFormat::write_node(&mut m, 20, 8, 14, 3);
    let deltas = skip_deltas::<NodeFormat>(&m, 8, 24);
    assert_eq!(deltas, vec![4, 2, 6, 4]);
    assert_eq!(deltas.iter().sum::<usize>(), 24 - 8);
}

#[test]
fn forward_keeps_size_and_records_target() {
    let mut m = vec![0usize; 32];
    NodeFormat::write_node(&mut m, 4, 1, 2, 3);
    NodeFormat::forward(&mut m, 4, 20);
    assert_eq!(m[4], TAG_FWD);
    assert_eq!(NodeFormat::is_forwarded(&m, 4), Some(20));
    assert_eq!(NodeFormat::skip(&m, 4), 4 + NODE_SIZE);
    NodeFormat::write_leaf(&mut m, 10, 9);
    assert_eq!(NodeFormat::is_forwarded(&m, 10), None);
    NodeFormat::forward(&mut m, 10, 22);
    assert_eq!(m[10], TAG_FWD_PAIR);
    assert_eq!(NodeFormat::is_forwarded(&m, 10), Some(22));
    assert_eq!(NodeFormat::skip(&m, 10), 10 + LEAF_SIZE);
}

#[test]
fn pad_then_skip_lands_past_the_padding() {
    for size in 2..20usize {
        let mut m = vec![0usize; 32];
        NodeFormat::pad(&mut m, 6, size);
        assert_eq!(NodeFormat::skip(&m, 6), 6 + size);
        assert_eq!(NodeFormat::is_forwarded(&m, 6), None);
        assert_eq!(NodeFormat::object_size(&m, 6, 32), Some(size));
    }
}

#[test]
fn object_size_rejects_malformed_objects() {
    let mut m = vec![0usize; 16];
    assert_eq!(NodeFormat::object_size(&m, 0, 16), None);
    NodeFormat::write_node(&mut m, 12, 0, 0, 0);
    assert_eq!(NodeFormat::object_size(&m, 12, 16), Some(4));
    assert_eq!(NodeFormat::object_size(&m, 12, 15), None);
    m[0] = TAG_PAD;
    m[1] = 1;
    assert_eq!(NodeFormat::object_size(&m, 0, 16), None);
    m[1] = 40;
    assert_eq!(NodeFormat::object_size(&m, 0, 16), None);
    assert_eq!(NodeFormat::object_size(&m, 99, 200), None);
}

#[test]
fn should_fix_records_every_zone_and_filters_by_white_set() {
    let mut fs = ScanState { zone_shift: 4, white: 0b100, unfixed: 0, relocations: vec![] }
        .begin_fix();
    assert!(!fs.should_fix(0x10));
    assert_eq!(fs.ufs, 0b10);
    assert!(fs.should_fix(0x25));
    assert_eq!(fs.ufs, 0b110);
    let ss = fs.end_fix();
    assert_eq!(ss.unfixed, 0b110);
    let mut fs = ScanFixState { zs: 0, w: u64::MAX, ufs: 0, relocations: vec![(8, 100), (12, 200)] };
    let mut r = 12;
    assert_eq!(fs.fix(&mut r), Ok(()));
    assert_eq!(r, 200);
    let mut r = 9;
    assert_eq!(fs.force_fix(&mut r), Ok(()));
    assert_eq!(r, 9);
    let mut fs = ScanFixState { zs: 0, w: 0, ufs: 0, relocations: vec![(8, 100)] };
    let mut r = 8;
    assert_eq!(fs.fix(&mut r), Ok(()));
    assert_eq!(r, 8);
    assert_eq!(fs.ufs, 1 << 8);
}

#[test]
fn begin_collection_fails_once_flips_run_out() {
    let mut arena = arena_of(1 << 12);
    assert_eq!(arena.begin_collection(), Ok(()));
    assert_eq!(arena.epoch, 1);
    arena.epoch = u64::MAX;
    assert_eq!(arena.begin_collection(), Err(MpsError::Limit));
    assert_eq!(arena.epoch, u64::MAX);
}

#[test]
fn collection_without_flips_left_changes_nothing() {
    let mut arena = arena_of(1 << 16);
    let fmt = format(&arena);
    let mut pool = AutoMostlyCopyingPool::<NodeFormat>::builder(&arena).build(fmt).expect("pool");
    let ap = pool.create_allocation_point().expect("ap");
    let mut v = 0;
    let root = make_tree(&mut arena, &mut pool, &ap, 2, &mut v);
    arena.epoch = u64::MAX;
    let mut roots = vec![root];
    arena.full_collection(&mut pool, &mut roots);
    assert_eq!(roots[0], root);
    assert_eq!(arena.moved_collections(), 0);
    assert_eq!(count(&arena.mem, root), 7);
}

#[test]
fn moved_tree_is_a_run_of_objects_after_collection() {
    let mut arena = arena_of(1 << 16);
    let fmt = format(&arena);
    let mut pool = AutoMostlyCopyingPool::<NodeFormat>::builder(&arena).build(fmt).expect("pool");
    let ap = pool.create_allocation_point().expect("ap");
    let mut v = 0;
    let root = make_tree(&mut arena, &mut pool, &ap, 4, &mut v);
    let mut roots = vec![root];
    arena.full_collection(&mut pool, &mut roots);
    let seg = *pool.core.segments.last().expect("segment");
    let deltas = skip_deltas::<NodeFormat>(&arena.mem, seg.base, seg.init);
    assert_eq!(deltas.len(), 31);
    assert_eq!(deltas.iter().sum::<usize>(), 16 * LEAF_SIZE + 15 * NODE_SIZE);
    assert_eq!(count(&arena.mem, roots[0]), 31);
    let mut old_leaves = Vec::new();
    leaves(&arena.mem, roots[0], &mut old_leaves);
    assert_eq!(old_leaves, (0..16).collect::<Vec<usize>>());
}

#[test]
fn fix_with_keeps_zones_only_on_success() {
    let mut ss = ScanState { zone_shift: 0, white: u64::MAX, unfixed: 0, relocations: vec![(4, 40)] };
    let mut seen = 0;
    let r = ss.fix_with(|mut fs| {
        let mut a = 4;
        let res = fs.fix(&mut a);
        seen = a;
        (fs, res)
    });
    assert_eq!(r, Ok(()));
    assert_eq!(seen, 40);
    assert_eq!(ss.unfixed, 1 << 4);
    assert_eq!(ss.relocations, vec![(4, 40)]);
    let r = ss.fix_with(|mut fs| {
        let _ = fs.should_fix(5);
        (fs, Err(MpsError::Memory))
    });
    assert_eq!(r, Err(MpsError::Memory));
    assert_eq!(ss.unfixed, 1 << 4);
}

#[test]
fn call_scan_merges_nested_zones() {
    let mut fs = ScanFixState { zs: 0, w: u64::MAX, ufs: 1, relocations: vec![] };
    let r = fs.call_scan(|mut ss| {
        let res = ss.fix_with(|mut inner| {
            let _ = inner.should_fix(3);
            (inner, Ok(()))
        });
        (ss, res)
    });
    assert_eq!(r, Ok(()));
    assert_eq!(fs.ufs, 1 | (1 << 3));
}

#[test]
fn every_segment_walks_to_its_committed_end() {
    let mut arena = arena_of(1 << 16);
    let fmt = format(&arena);
    let mut pool = AutoMostlyCopyingPool::<NodeFormat>::builder(&arena).build(fmt).expect("pool");
    pool.core.extend_by = 64;
    let ap = pool.create_allocation_point().expect("ap");
    let mut v = 0;
    let root = make_tree(&mut arena, &mut pool, &ap, 5, &mut v);
    assert!(pool.core.segments.len() > 1);
    let mut objects = 0;
    for seg in pool.core.segments.iter() {
        let deltas = skip_deltas::<NodeFormat>(&arena.mem, seg.base, seg.init);
        assert_eq!(deltas.iter().sum::<usize>(), seg.init - seg.base);
        objects += deltas.len();
    }
    assert_eq!(objects, 63);
    let mut roots = vec![root];
    arena.full_collection(&mut pool, &mut roots);
    assert_eq!(pool.core.segments.len(), 1);
    let seg = pool.core.segments[0];
    let deltas = skip_deltas::<NodeFormat>(&arena.mem, seg.base, seg.init);
    assert_eq!(deltas.len(), 63);
    assert_eq!(deltas.iter().sum::<usize>(), seg.init - seg.base);
    assert_eq!(count(&arena.mem, roots[0]), 63);
}

#[test]
fn abandoned_reservation_gives_its_block_back() {
    let mut arena = arena_of(1 << 16);
    let fmt = format(&arena);
    let mut pool = AutoMarkSweep::<NodeFormat>::builder(&arena).build(fmt).expect("pool");
    let ap = pool.create_allocation_point().expect("ap");
    let a = ap.reserve(&mut arena, &mut pool, NODE_SIZE).expect("reserve");
    ap.abandon(&mut pool);
    let b = ap.reserve(&mut arena, &mut pool, LEAF_SIZE).expect("reserve");
    assert_eq!(a, b);
    NodeFormat::write_leaf(&mut arena.mem, b, 5);
    assert!(ap.commit(&arena, &mut pool, b, LEAF_SIZE));
    assert_eq!(pool.free_size(), MARK_SWEEP_EXTEND_BY - LEAF_SIZE);
}

#[test]
fn scan_fixes_each_non_null_slot_and_nothing_else() {
    let mut m = vec![0usize; 40];
    NodeFormat::write_node(&mut m, 16, 30, NULL, 7);
    NodeFormat::write_leaf(&mut m, 20, 9);
    NodeFormat::write_node(&mut m, 22, 20, 34, 8);
    let before = m.clone();
    let mut fs = ScanFixState { zs: 0, w: u64::MAX, ufs: 0, relocations: vec![(30, 2), (20, 4)] };
    assert_eq!(NodeFormat::scan(&mut fs, &mut m, 16, 26), Ok(()));
    assert_eq!(m[17], 2);
    assert_eq!(m[18], NULL);
    assert_eq!(m[23], 4);
    assert_eq!(m[24], 34);
    for j in (0..40).filter(|j| ![17usize, 23].contains(j)) {
        assert_eq!(m[j], before[j], "word {}", j);
    }
    assert_eq!(fs.ufs, (1u64 << 30) | (1 << 20) | (1 << 34));
}
