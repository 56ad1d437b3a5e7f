use trillium_http::{Error, HeadScanner, Scan, MAX_HEAD_LENGTH};

fn complete(r: Result<Scan, Error>) -> (Vec<u8>, Vec<u8>) {
    match r {
        Ok(Scan::Complete { head, rest }) => (head, rest),
        other => panic!("expected a complete head, got {:?}", other),
    }
}

fn pending(r: Result<Scan, Error>) -> HeadScanner {
    match r {
        Ok(Scan::Pending(sc)) => sc,
        other => panic!("expected a pending scan, got {:?}", other),
    }
}

#[test]
fn head_then_extra_bytes_are_split_at_boundary() {
    let sc = pending(HeadScanner::start(None));
    let (head, rest) = complete(sc.receive(b"GET / HTTP/1.1\r\nHost: x\r\n\r\nhello"));
    assert_eq!(head, b"GET / HTTP/1.1\r\nHost: x\r\n\r\n".to_vec());
    assert_eq!(rest, b"hello".to_vec());
}

#[test]
fn head_without_extra_bytes_leaves_nothing() {
    let sc = pending(HeadScanner::start(None));
    let (head, rest) = complete(sc.receive(b"GET / HTTP/1.1\r\n\r\n"));
    assert_eq!(head, b"GET / HTTP/1.1\r\n\r\n".to_vec());
    assert!(rest.is_empty());
}

#[test]
fn extra_bytes_holding_a_second_head_are_kept_whole() {
    let sc = pending(HeadScanner::start(None));
    let (head, rest) = complete(sc.receive(b"GET /a HTTP/1.1\r\n\r\nGET /b HTTP/1.1\r\n\r\n"));
    assert_eq!(head, b"GET /a HTTP/1.1\r\n\r\n".to_vec());
    assert_eq!(rest, b"GET /b HTTP/1.1\r\n\r\n".to_vec());
}

#[test]
fn boundary_split_across_reads_is_found() {
    let sc = pending(HeadScanner::start(None));
    let sc = pending(sc.receive(b"GET / HTTP/1.1\r\nHost: x\r"));
    assert_eq!(sc.buffered(), 24);
    let (head, rest) = complete(sc.receive(b"\n\r\nbody"));
    assert_eq!(head, b"GET / HTTP/1.1\r\nHost: x\r\n\r\n".to_vec());
    assert_eq!(rest, b"body".to_vec());
}

#[test]
fn carried_over_bytes_may_hold_the_whole_head() {
    let carry = b"GET / HTTP/1.1\r\n\r\nrest".to_vec();
    let (head, rest) = complete(HeadScanner::start(Some(carry)));
    assert_eq!(head, b"GET / HTTP/1.1\r\n\r\n".to_vec());
    assert_eq!(rest, b"rest".to_vec());
}

#[test]
fn carried_over_bytes_start_the_head() {
    let sc = pending(HeadScanner::start(Some(b"GET / HT".to_vec())));
    let (head, rest) = complete(sc.receive(b"TP/1.1\r\n\r\n"));
    assert_eq!(head, b"GET / HTTP/1.1\r\n\r\n".to_vec());
    assert!(rest.is_empty());
}

#[test]
fn close_before_any_byte_is_a_clean_close() {
    let sc = pending(HeadScanner::start(None));
    assert!(matches!(sc.receive(b""), Err(Error::ClosedByClient)));
}

#[test]
fn close_in_the_middle_of_a_head_is_a_partial_head() {
    let sc = pending(HeadScanner::start(None));
    let sc = pending(sc.receive(b"GET / HTTP/1.1\r\n"));
    assert!(matches!(sc.receive(b""), Err(Error::PartialHead)));
}

#[test]
fn head_past_the_limit_is_too_long() {
    let mut sc = pending(HeadScanner::start(None));
    let chunk = vec![b'a'; 100];
    let mut fed = 0usize;
    loop {
        match sc.receive(&chunk) {
            Ok(Scan::Pending(next)) => {
                fed += 100;
                assert!(fed < MAX_HEAD_LENGTH);
                sc = next;
            }
            Err(Error::HeadersTooLong) => break,
            other => panic!("unexpected {:?}", other),
        }
    }
    assert_eq!(fed + 100, 8200);
}

#[test]
fn head_reaching_exactly_the_limit_is_too_long() {
    let sc = pending(HeadScanner::start(Some(vec![b'a'; 8191])));
    assert!(matches!(sc.receive(b"b"), Err(Error::HeadersTooLong)));
}

#[test]
fn head_found_in_the_read_that_crosses_the_limit_is_complete() {
    let sc = pending(HeadScanner::start(Some(vec![b'a'; 8190])));
    let (head, rest) = complete(sc.receive(b"\r\n\r\nxy"));
    assert_eq!(head.len(), 8194);
    assert_eq!(rest, b"xy".to_vec());
}
