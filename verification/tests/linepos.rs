use linepos::{LineCache, PosTrackerDatRef, PosTrackerExtern};

#[test]
fn get_source_location() {
    let src = "Das ist ein Test!\nHurra!\n";
    let lc = LineCache::new(src);
    assert_eq!(lc.0, vec![(1, 17), (2, 24)]);
    assert_eq!(lc.run(3), (0, 3));
    assert_eq!(lc.run(20), (1, 3));
}

#[test]
fn lookup_interval_boundaries() {
    let src = "Das ist ein Test!\nHurra!\n";
    let lc = LineCache::new(src);
    // Start of the buffer and the whole first line.
    assert_eq!(lc.run(0), (0, 0));
    assert_eq!(lc.run(16), (0, 16));
    // An offset pointing at a line feed counts to the following line.
    assert_eq!(lc.run(17), (1, 0));
    assert_eq!(lc.run(18), (1, 1));
    assert_eq!(lc.run(24), (2, 0));
    // Past the last line feed the lookup extrapolates.
    assert_eq!(lc.run(25), (2, 1));
}

#[test]
fn lookup_is_idempotent() {
    let src = "Das ist ein Test!\nHurra!\n";
    let lc = LineCache::new(src);
    let first = lc.run(20);
    let second = lc.run(20);
    assert_eq!(first, second);
    assert_eq!(first, (1, 3));
}

#[test]
fn empty_buffer() {
    let lc = LineCache::new("");
    assert_eq!(lc.0, vec![]);
    assert_eq!(lc.run(0), (0, 0));

    let dat: &[u8] = b"";
    let mut t = PosTrackerDatRef::new(dat);
    let r = t.update(0);
    assert_eq!(r, Some((&b""[..], 0, 0)));
    let snap = t.inner();
    assert_eq!((snap.offset, snap.line, snap.column), (0, 0, 0));
}

#[test]
fn tracker_forward_scan() {
    let dat: &[u8] = "Das ist ein Test!\nHurra!\n".as_bytes();
    let mut t = PosTrackerExtern::default();
    let r = t.update(dat, 3);
    assert_eq!(r, Some((&b"Das"[..], 0, 3)));
    assert_eq!((t.offset, t.line, t.column), (3, 0, 3));
    // Crossing the first line feed resets the column.
    let r = t.update(dat, 20);
    assert_eq!(r, Some((&dat[3..20], 1, 2)));
    assert_eq!((t.offset, t.line, t.column), (20, 1, 2));
    let r = t.update(dat, 25);
    assert_eq!(r, Some((&dat[20..25], 1, 0)));
    assert_eq!((t.offset, t.line, t.column), (25, 2, 0));
}

#[test]
fn tracker_agrees_with_index_on_first_line() {
    let src = "Das ist ein Test!\nHurra!\n";
    let lc = LineCache::new(src);
    let mut t = PosTrackerExtern::default();
    // Advance through an increasing chain of offsets on the first line.
    t.update(src.as_bytes(), 1).unwrap();
    t.update(src.as_bytes(), 3).unwrap();
    t.update(src.as_bytes(), 9).unwrap();
    assert_eq!(lc.run(9), (t.line, t.column));
}

#[test]
fn backward_move_rejected() {
    let dat: &[u8] = b"one\ntwo\nthree";
    let mut t = PosTrackerExtern::default();
    assert!(t.update(dat, 6).is_some());
    assert_eq!((t.offset, t.line, t.column), (6, 1, 2));
    // A backward move fails and leaves the state untouched.
    assert_eq!(t.update(dat, 5), None);
    assert_eq!((t.offset, t.line, t.column), (6, 1, 2));
    // A follow-up forward move resumes from the unchanged state.
    let r = t.update(dat, 8);
    assert_eq!(r, Some((&b"o\n"[..], 1, 0)));
    assert_eq!((t.offset, t.line, t.column), (8, 2, 0));
}

#[test]
fn advance_by_zero() {
    let dat: &[u8] = b"abc";
    let mut t = PosTrackerExtern::default();
    assert!(t.update(dat, 2).is_some());
    let r = t.update(dat, 2);
    assert_eq!(r, Some((&b""[..], 0, 0)));
    assert_eq!((t.offset, t.line, t.column), (2, 0, 2));
}

#[test]
fn carriage_return_is_invisible_to_tracker() {
    // A CR byte advances neither line nor column...
    let with_cr: &[u8] = b"ab\r\ncd";
    let plain: &[u8] = b"ab\ncd";
    let mut t1 = PosTrackerExtern::default();
    let r1 = t1.update(with_cr, with_cr.len()).unwrap();
    let mut t2 = PosTrackerExtern::default();
    let r2 = t2.update(plain, plain.len()).unwrap();
    // ...so "\r\n" yields the same deltas and coordinates as a lone "\n".
    assert_eq!((r1.1, r1.2), (r2.1, r2.2));
    assert_eq!((t1.line, t1.column), (1, 2));
    assert_eq!((t2.line, t2.column), (1, 2));
    // A lone CR does not move the column either.
    let lone: &[u8] = b"a\rb";
    let mut t3 = PosTrackerExtern::default();
    let r3 = t3.update(lone, 3).unwrap();
    assert_eq!((r3.1, r3.2), (0, 2));
    assert_eq!((t3.offset, t3.line, t3.column), (3, 0, 2));
}

#[test]
fn bound_tracker_delegates() {
    let src = "Das ist ein Test!\nHurra!\n";
    let dat = src.as_bytes();
    let mut t = PosTrackerDatRef::new(dat);
    let snap = t.inner();
    assert_eq!((snap.offset, snap.line, snap.column), (0, 0, 0));
    let r = t.update(18);
    assert_eq!(r, Some((&dat[0..18], 1, 0)));
    let snap = t.inner();
    assert_eq!((snap.offset, snap.line, snap.column), (18, 1, 0));
    // The bound variant answers exactly as the core tracker would.
    let mut core = PosTrackerExtern::default();
    let rc = core.update(dat, 18);
    assert_eq!(r, rc);
    assert_eq!(t.update(5), None);
}
