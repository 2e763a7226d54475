use ring::cursor::Cursor;

#[test]
fn cursor_test_constructor() {
    const SZ: u32 = 8;

    let cursor = Cursor::new(SZ);
    assert_eq!(cursor.head, 0);
    assert_eq!(cursor.tail, 0);
    assert_eq!(cursor.size, SZ);
    assert_eq!(cursor.mask, SZ - 1);
}

#[test]
fn test_next() {
    const SZ: u32 = 8;
    let mut cursor = Cursor::new(SZ);
    let h = cursor.front();
    let n = cursor.next(h);

    assert_eq!(h, 0);
    assert_eq!(n, 1);
}

#[test]
fn test_exchange() {
    const SZ: u32 = 8;
    let mut cursor = Cursor::new(SZ);
    let h = cursor.front();
    let n = cursor.next(h);

    assert_eq!(h, 0);
    assert_eq!(n, 1);

    cursor.exchange_front(h, n);
    assert_eq!(cursor.head, n);
    let h = cursor.front();
    let n = cursor.next(h);

    assert_eq!(h, 1);
    assert_eq!(n, 2);
}

#[test]
fn cursor_test_overflow() {
    const SZ: u32 = 8;
    let mut cursor = Cursor::new(SZ);
    cursor.exchange_front(0, 7);

    let h = cursor.front();
    let n = cursor.next(h);

    assert_eq!(h, 7);
    assert_eq!(n, 0);
}

#[test]
fn next_walks_the_whole_circle() {
    for log2 in 0..12u32 {
        let size = 1u32 << log2;
        let mut cursor = Cursor::new(size);
        for pos in 0..size {
            assert_eq!(cursor.next(pos), (pos + 1) % size);
        }
        assert_eq!(cursor.next(size - 1), 0);
    }
}

#[test]
fn next_of_positions_off_the_circle() {
    let mut cursor = Cursor::new(8);
    assert_eq!(cursor.next(8), 1);
    assert_eq!(cursor.next(15), 0);
    assert_eq!(cursor.next(u32::MAX), 0);
    assert_eq!(cursor.next(u32::MAX - 1), 7);
    let mut widest = Cursor::new(1 << 31);
    assert_eq!(widest.next((1 << 31) - 1), 0);
    assert_eq!(widest.next(u32::MAX), 0);
    assert_eq!(widest.next(5), 6);
}

#[test]
fn next_leaves_the_cursor_alone() {
    let mut cursor = Cursor::new(16);
    cursor.exchange_front(0, 5);
    cursor.exchange_back(0, 3);
    cursor.next(9);
    assert_eq!((cursor.head, cursor.tail, cursor.size, cursor.mask), (5, 3, 16, 15));
    assert_eq!(cursor.front(), 5);
    assert_eq!(cursor.back(), 3);
    assert_eq!((cursor.head, cursor.tail, cursor.size, cursor.mask), (5, 3, 16, 15));
}

#[test]
fn exchange_front_succeeds_only_on_the_expected_value() {
    let mut cursor = Cursor::new(8);
    assert!(!cursor.exchange_front(1, 2));
    assert_eq!((cursor.head, cursor.tail), (0, 0));
    assert!(cursor.exchange_front(0, 2));
    assert_eq!((cursor.head, cursor.tail), (2, 0));
    assert!(!cursor.exchange_front(0, 3));
    assert_eq!((cursor.head, cursor.tail), (2, 0));
    assert!(cursor.exchange_front(2, 2));
    assert_eq!((cursor.head, cursor.tail), (2, 0));
}

#[test]
fn exchange_back_succeeds_only_on_the_expected_value() {
    let mut cursor = Cursor::new(8);
    assert!(!cursor.exchange_back(4, 5));
    assert_eq!((cursor.head, cursor.tail), (0, 0));
    assert!(cursor.exchange_back(0, 7));
    assert_eq!((cursor.head, cursor.tail), (0, 7));
    assert!(!cursor.exchange_back(0, 1));
    assert_eq!((cursor.head, cursor.tail), (0, 7));
    assert_eq!(cursor.back(), 7);
    assert_eq!(cursor.front(), 0);
}

#[test]
fn reached_compares_with_the_published_position() {
    let mut cursor = Cursor::new(4);
    assert!(cursor.reached(0));
    assert!(!cursor.reached(1));
    cursor.exchange_front(0, 1);
    assert!(cursor.reached(0));
    assert!(!cursor.reached(1));
    cursor.exchange_back(0, 1);
    assert!(cursor.reached(1));
    assert!(!cursor.reached(0));
}

#[test]
fn smallest_circle() {
    let mut cursor = Cursor::new(1);
    assert_eq!(cursor.mask, 0);
    assert_eq!(cursor.next(0), 0);
    assert_eq!(cursor.next(77), 0);
}
