use rox::framing::{frame_length, length_prefixed};

#[test]
fn frames_carry_their_length() {
    let f = length_prefixed(b"hello rox");
    assert_eq!(&f[..4], &9u32.to_le_bytes());
    assert_eq!(&f[4..], b"hello rox");
    assert_eq!(frame_length(&f[..4].to_vec()), 9);
    assert_eq!(length_prefixed(&[]), vec![0, 0, 0, 0]);
    assert_eq!(frame_length(&vec![1, 1, 0, 0]), 257);
}
