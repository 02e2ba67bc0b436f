use ac_client::session::SessionContext;

#[test]
fn sequence_ids_increase() {
    let mut s = SessionContext::new(42);
    assert_eq!(s.session_id, 42);
    assert_eq!(s.expected_id, 1);
    let a = s.next_sequence_id(vec![1]);
    let b = s.next_sequence_id(vec![2]);
    let c = s.next_sequence_id(vec![3]);
    assert_eq!((a, b, c), (1, 2, 3));
    assert_eq!(s.next_seq, 4);
    assert_eq!(s.retransmit(2), Some(&[2u8][..]));
    assert_eq!(s.retransmit(9), None);
}

#[test]
fn retransmit_buffer_keeps_last_256() {
    let mut s = SessionContext::new(1);
    let mut last = 0;
    for i in 0..300u32 {
        let seq = s.next_sequence_id(i.to_le_bytes().to_vec());
        assert!(seq > last);
        last = seq;
    }
    assert_eq!(s.retransmit(44), None);
    assert_eq!(s.retransmit(45), Some(&44u32.to_le_bytes()[..]));
    assert_eq!(s.retransmit(300), Some(&299u32.to_le_bytes()[..]));
}

#[test]
fn advance_expected_counts() {
    let mut s = SessionContext::new(1);
    s.advance_expected();
    s.advance_expected();
    assert_eq!(s.expected_id, 3);
}
