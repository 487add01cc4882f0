use flatgfa::pool::{Pool, Span, Store};

#[test]
fn span_basics() {
    let s = Span { start: 2, end: 5 };
    assert!(!s.is_empty());
    assert_eq!(s.len(), 3);
    assert_eq!(s.range(), 2..5);
    let e = Span { start: 4, end: 4 };
    assert!(e.is_empty());
    assert_eq!(e.len(), 0);
}

#[test]
fn vec_store_add_returns_sequential_ids() {
    let mut pool: Vec<u8> = Vec::new();
    assert_eq!(pool.count(), 0);
    assert_eq!(pool.next_id(), 0);
    let a = pool.add(10);
    let b = pool.add(20);
    assert_eq!(a, 0);
    assert_eq!(b, 1);
    assert_eq!(*pool.get_id(0), 10);
    assert_eq!(*pool.get_id(1), 20);
    assert_eq!(pool.count(), 2);
    assert_eq!(pool.next_id(), 2);
}

#[test]
fn slice_pool_reads_like_vec_pool() {
    let backing: Vec<u16> = vec![7, 8, 9];
    let pool: &[u16] = &backing;
    assert_eq!(pool.count(), 3);
    assert_eq!(pool.next_id(), 3);
    assert_eq!(*pool.get_id(2), 9);
    assert_eq!(pool.get_span(Span { start: 1, end: 3 }), &[8, 9]);
}

#[test]
fn vec_store_add_iter_and_slice_span() {
    let mut pool: Vec<u8> = Vec::new();
    pool.add(1);
    let sp = pool.add_iter(vec![2, 3, 4]);
    assert_eq!(sp.start, 1);
    assert_eq!(sp.end, 4);
    let sp2 = pool.add_slice(&[5, 6]);
    assert_eq!(sp2.start, 4);
    assert_eq!(sp2.end, 6);
    assert_eq!(pool.get_span(sp), &[2, 3, 4]);
    assert_eq!(pool.get_span(sp2), &[5, 6]);
    let empty = pool.add_slice(&[]);
    assert!(empty.is_empty());
}
