use amq_engine::buffer::Buffer;

#[test]
fn buffer_push_consume_roundtrip() {
    let mut b = Buffer::with_capacity(8);
    assert_eq!(b.available_data(), 0);
    assert_eq!(b.available_space(), 8);
    b.push_bytes(&vec![1, 2, 3, 4]);
    assert_eq!(b.available_data(), 4);
    assert_eq!(b.available_space(), 4);
    b.consume(2);
    assert_eq!(b.available_data(), 2);
    assert_eq!(b.contents(), vec![3, 4]);
}

#[test]
fn buffer_checkpoint_rollback_exact() {
    let mut b = Buffer::with_capacity(16);
    b.push_bytes(&vec![1, 2, 3]);
    b.consume(1);
    let before = b.contents();
    let cp = b.checkpoint();
    b.push_bytes(&vec![9, 9, 9]);
    assert_eq!(b.available_data(), 5);
    b.rollback(cp);
    assert_eq!(b.contents(), before);
    assert_eq!(b.contents(), vec![2, 3]);
}

#[test]
fn buffer_grow_never_shrinks() {
    let mut b = Buffer::with_capacity(8);
    b.push_bytes(&vec![5, 6]);
    b.grow(4);
    assert_eq!(b.available_space(), 6);
    b.grow(20);
    assert_eq!(b.available_space(), 18);
    assert_eq!(b.contents(), vec![5, 6]);
}
