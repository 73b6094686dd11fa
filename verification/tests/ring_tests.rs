use dream_go::ring::CircularBuf;

#[test]
fn check() {
    let mut buf = CircularBuf::new();

    buf.push(0);
    buf.push(1);
    buf.push(2);
    buf.push(3);
    buf.push(4);
    buf.push(5);
    buf.push(6);
    buf.push(7);
    buf.push(8);

    let mut iter = buf.iter();

    assert_eq!(iter.next().unwrap(), 8);
    assert_eq!(iter.next().unwrap(), 7);
    assert_eq!(iter.next().unwrap(), 6);
    assert_eq!(iter.next().unwrap(), 5);
    assert_eq!(iter.next().unwrap(), 4);
    assert_eq!(iter.next().unwrap(), 3);
    assert!(iter.next().is_none());
}

#[test]
fn unprimed_slots_hold_sentinel() {
    let buf = CircularBuf::new();
    let mut iter = buf.iter();
    for _ in 0..6 {
        assert_eq!(iter.next().unwrap(), 361);
    }
    assert!(iter.next().is_none());
}

#[test]
fn iteration_is_restartable() {
    let mut buf = CircularBuf::new();
    buf.push(10);
    buf.push(20);
    buf.push(30);

    let mut first = Vec::new();
    let mut iter = buf.iter();
    while let Some(v) = iter.next() {
        first.push(v);
    }
    let mut second = Vec::new();
    let mut iter = buf.iter();
    while let Some(v) = iter.next() {
        second.push(v);
    }
    assert_eq!(first, second);
    assert_eq!(first, vec![30, 20, 10, 361, 361, 361]);
}

#[test]
fn exactly_six_most_recent_in_reverse_order() {
    let mut buf = CircularBuf::new();
    for v in 0..20u16 {
        buf.push(v);
    }
    let mut seen = Vec::new();
    let mut iter = buf.iter();
    while let Some(v) = iter.next() {
        seen.push(v);
    }
    assert_eq!(seen, vec![19, 18, 17, 16, 15, 14]);
}
