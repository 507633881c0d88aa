use zebras::{
    query_envelope, valid_ipv4_addr, QueryAccumulator, QueryStep, ReadEvent, TransportError,
    ZplPrinter,
};

#[test]
fn printer_is_named_after_its_address() {
    let p = ZplPrinter::new("192.168.1.50".to_string(), 9100);
    assert_eq!(p.name, "ZPL Printer @ 192.168.1.50");
    assert_eq!(p.ip, "192.168.1.50");
    assert_eq!(p.port, 9100);
}

#[test]
fn query_envelope_wraps_codes() {
    assert_eq!(query_envelope("ES"), "~HQES\r\n");
    assert_eq!(query_envelope("SN"), "~HQSN\r\n");
    assert_eq!(query_envelope("HM"), "~HM\r\n");
}

#[test]
fn ipv4_validation_accepts_dotted_quads_of_bytes() {
    assert!(valid_ipv4_addr("192.168.0.1"));
    assert!(valid_ipv4_addr("0.0.0.0"));
    assert!(valid_ipv4_addr("255.255.255.255"));
    assert!(!valid_ipv4_addr("192.168.0"));
    assert!(!valid_ipv4_addr("192.168.0.1.5"));
    assert!(!valid_ipv4_addr("256.1.1.1"));
    assert!(!valid_ipv4_addr("a.b.c.d"));
    assert!(!valid_ipv4_addr(""));
}

#[test]
fn data_without_sentinel_continues_the_loop() {
    let mut acc = QueryAccumulator::new(0, 5000);
    let step = acc.on_event(ReadEvent::Data(vec![b'O', b'K']), 10);
    assert_eq!(step, QueryStep::Proceed);
    assert_eq!(acc.buffer, vec![b'O', b'K']);
}

#[test]
fn sentinel_byte_finishes_the_loop() {
    let mut acc = QueryAccumulator::new(0, 5000);
    let step = acc.on_event(ReadEvent::Data(vec![b'A', 0x03]), 10);
    assert_eq!(step, QueryStep::Finished);
    assert_eq!(acc.finish().unwrap(), vec![b'A', 0x03]);
}

#[test]
fn end_of_stream_finishes_with_partial_data() {
    let mut acc = QueryAccumulator::new(0, 5000);
    assert_eq!(acc.on_event(ReadEvent::Data(vec![b'P']), 1), QueryStep::Proceed);
    assert_eq!(acc.on_event(ReadEvent::EndOfStream, 2), QueryStep::Finished);
    assert_eq!(acc.finish().unwrap(), vec![b'P']);
}

#[test]
fn would_block_backs_off_before_the_deadline() {
    let mut acc = QueryAccumulator::new(0, 5000);
    assert_eq!(acc.on_event(ReadEvent::WouldBlock, 100), QueryStep::Backoff);
    assert_eq!(acc.on_event(ReadEvent::WouldBlock, 5000), QueryStep::Backoff);
    assert_eq!(acc.on_event(ReadEvent::WouldBlock, 5001), QueryStep::Finished);
}

#[test]
fn silent_stream_ends_within_one_backoff_of_the_deadline() {
    // a stream that sends some bytes, then neither the sentinel nor a close:
    // the loop must stop on its own, keeping the partial data
    let backoff: u64 = 100;
    let timeout: u64 = 5000;
    let mut acc = QueryAccumulator::new(0, timeout);
    let mut now: u64 = 0;
    assert_eq!(
        acc.on_event(ReadEvent::Data(vec![b'p', b'a', b'r', b't']), now),
        QueryStep::Proceed
    );
    let mut rounds: u64 = 0;
    loop {
        let step = acc.on_event(ReadEvent::WouldBlock, now);
        match step {
            QueryStep::Backoff => {
                now += backoff;
                rounds += 1;
                assert!(rounds <= timeout / backoff + 1, "the loop must not spin past the deadline");
            }
            QueryStep::Finished => break,
            other => panic!("unexpected step {:?}", other),
        }
    }
    assert!(now <= timeout + backoff);
    assert_eq!(acc.finish().unwrap(), vec![b'p', b'a', b'r', b't']);
}

#[test]
fn read_failure_surfaces_its_cause() {
    let mut acc = QueryAccumulator::new(0, 5000);
    let step = acc.on_event(ReadEvent::Failed("connection reset".to_string()), 10);
    assert_eq!(step, QueryStep::Failed("connection reset".to_string()));
}

#[test]
fn empty_accumulation_is_a_distinct_no_response_error() {
    let acc = QueryAccumulator::new(0, 5000);
    match acc.finish() {
        Err(TransportError::NoResponse) => {}
        other => panic!("unexpected result {:?}", other),
    }
}

#[test]
fn deadline_saturates_at_the_clock_end() {
    let acc = QueryAccumulator::new(u64::MAX - 10, 5000);
    assert_eq!(acc.deadline_ms, u64::MAX);
}

#[test]
fn error_messages_name_the_failure_and_cause() {
    assert_eq!(
        TransportError::InvalidAddress("bad port".to_string()).message(),
        "Invalid address: bad port"
    );
    assert_eq!(
        TransportError::ConnectFailed("refused".to_string()).message(),
        "Failed to connect to printer: refused"
    );
    assert_eq!(
        TransportError::SetTimeoutFailed("oops".to_string()).message(),
        "Failed to set timeout: oops"
    );
    assert_eq!(
        TransportError::WriteFailed("pipe".to_string()).message(),
        "Failed to send data: pipe"
    );
    assert_eq!(
        TransportError::FlushFailed("pipe".to_string()).message(),
        "Failed to flush data: pipe"
    );
    assert_eq!(
        TransportError::ReadFailed("reset".to_string()).message(),
        "Read error: reset"
    );
    assert_eq!(
        TransportError::NoResponse.message(),
        "No response from printer"
    );
}
