use solarsim::trail::{record_point, MAX_TRAIL};

#[test]
fn trail_grows_until_full() {
    let mut t: Vec<u32> = Vec::new();
    record_point(&mut t, 1);
    record_point(&mut t, 2);
    assert_eq!(t, vec![1, 2]);
}

#[test]
fn full_trail_drops_its_oldest_point() {
    assert_eq!(MAX_TRAIL, 3000);
    let mut t: Vec<usize> = Vec::new();
    for i in 0..MAX_TRAIL {
        record_point(&mut t, i);
    }
    assert_eq!(t.len(), MAX_TRAIL);
    assert_eq!(t[0], 0);
    record_point(&mut t, MAX_TRAIL);
    assert_eq!(t.len(), MAX_TRAIL);
    assert_eq!(t[0], 1);
    assert_eq!(*t.last().unwrap(), MAX_TRAIL);
}
