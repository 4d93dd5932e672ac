use handtux::trocr_model::{DecodeSession, MAX_NEW_TOKENS};

#[test]
fn first_step_reads_the_start_token_then_one_token_at_a_time() {
    let mut s = DecodeSession::new(2, 3);
    let r = s.next_request().unwrap();
    assert_eq!(r.start_pos, 0);
    assert_eq!(r.input_ids, vec![2]);
    s.accept_token(17);
    let r = s.next_request().unwrap();
    assert_eq!(r.start_pos, 1);
    assert_eq!(r.input_ids, vec![17]);
    s.accept_token(40);
    let r = s.next_request().unwrap();
    assert_eq!(r.start_pos, 2);
    assert_eq!(r.input_ids, vec![40]);
    assert_eq!(s.token_ids(), &vec![2, 17, 40]);
    assert!(!s.finished());
}

#[test]
fn end_of_text_token_stops_generation() {
    let mut s = DecodeSession::new(2, 3);
    s.accept_token(9);
    s.accept_token(3);
    assert!(s.finished());
    assert!(s.next_request().is_none());
    assert_eq!(s.token_ids(), &vec![2, 9, 3]);
}

#[test]
fn generation_stops_after_the_token_limit() {
    let mut s = DecodeSession::new(0, 1);
    for k in 0..MAX_NEW_TOKENS {
        assert!(!s.finished());
        s.accept_token(5 + k as u32);
    }
    assert!(s.finished());
    assert!(s.next_request().is_none());
    assert_eq!(s.token_ids().len(), MAX_NEW_TOKENS + 1);
    assert_eq!(MAX_NEW_TOKENS, 128);
}

#[test]
fn candidates_are_the_two_placeholders() {
    let s = DecodeSession::new(2, 3);
    assert_eq!(s.candidates(), vec!["Grah".to_string(), "Grah".to_string()]);
}
