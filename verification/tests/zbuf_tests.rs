use bytes::Bytes;
use rox::zbuf::ZBuf;

#[test]
fn test_basic_operations() {
    let mut buf = ZBuf::new();
    assert!(buf.is_empty());

    buf.push(Bytes::from(vec![1, 2, 3]));
    buf.push(Bytes::from(vec![4, 5, 6]));

    assert_eq!(buf.len(), 6);
    assert_eq!(buf.num_slices(), 2);
}

#[test]
fn test_contiguous() {
    let mut buf = ZBuf::new();
    buf.push(Bytes::from(vec![1, 2]));
    buf.push(Bytes::from(vec![3, 4]));
    buf.push(Bytes::from(vec![5, 6]));

    let data = buf.contiguous();
    assert_eq!(data.as_ref(), &[1, 2, 3, 4, 5, 6]);
}

#[test]
fn test_slice_read() {
    let mut buf = ZBuf::new();
    buf.push(Bytes::from(vec![10, 20, 30]));
    buf.push(Bytes::from(vec![40, 50, 60]));

    // Read across slice boundary
    let sub = buf.slice(1, 4).unwrap();
    assert_eq!(sub.as_ref(), &[20, 30, 40, 50]);

    // Out of bounds
    assert!(buf.slice(5, 3).is_none());
}

#[test]
fn test_push_front() {
    let mut buf = ZBuf::new();
    buf.push(Bytes::from(vec![3, 4]));
    buf.push_front(Bytes::from(vec![1, 2]));

    let data = buf.contiguous();
    assert_eq!(data.as_ref(), &[1, 2, 3, 4]);
}

#[test]
fn slices_and_edges() {
    let mut buf = ZBuf::from_vec(vec![9, 8]);
    assert_eq!(buf.contiguous().as_ref(), &[9, 8]);
    buf.push(Bytes::new());
    buf.push(Bytes::from(vec![7]));
    assert_eq!(buf.num_slices(), 3);
    assert_eq!(buf.slices().len(), 3);
    assert_eq!(buf.slice(0, 3).unwrap().as_ref(), &[9, 8, 7]);
    assert_eq!(buf.slice(2, 1).unwrap().as_ref(), &[7]);
    assert_eq!(buf.slice(3, 0).unwrap().len(), 0);
    assert!(buf.slice(3, 1).is_none());
    let single = ZBuf::from_bytes(Bytes::from(vec![5, 5]));
    assert_eq!(single.len(), 2);
    buf.clear();
    assert!(buf.is_empty());
    assert_eq!(buf.num_slices(), 0);
}

#[test]
fn slice_past_the_end_even_on_overflow_is_none() {
    let mut z = ZBuf::new();
    z.push(Bytes::from(vec![10u8, 20, 30]));
    z.push(Bytes::from(vec![40u8, 50, 60]));
    assert_eq!(z.slice(1, 4).unwrap().as_ref(), &[20, 30, 40, 50]);
    assert!(z.slice(5, 3).is_none());
    assert!(z.slice(usize::MAX, 2).is_none());
    assert!(z.slice(2, usize::MAX).is_none());
}

#[test]
fn try_push_appends_and_prepends() {
    let mut z = ZBuf::new();
    assert!(z.try_push(Bytes::from(vec![2u8, 3])));
    assert!(z.try_push_front(Bytes::from(vec![1u8])));
    assert_eq!(z.len(), 3);
    assert_eq!(z.contiguous().as_ref(), &[1, 2, 3]);
}
