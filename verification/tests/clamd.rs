use filehost::clamd::{
    end_frame, frame, is_connection_closed, is_socket_path, must_delete, read_response,
    stream_command, Scan, ScanEvent, ScanResult, ScanStage, WireError, CHUNK_SIZE,
};

fn verdict(reply: &[u8]) -> Result<Option<String>, String> {
    let mut scan = Scan::new();
    scan.advance(ScanEvent::FileRead(0));
    scan.advance(ScanEvent::Sent);
    for b in reply {
        scan.advance(ScanEvent::Byte(*b));
    }
    scan.advance(ScanEvent::Eof);
    assert_eq!(scan.next(), ScanStage::Finished);
    match scan.verdict() {
        Ok(ScanResult::Clean) => Ok(None),
        Ok(ScanResult::Infected(name)) => Ok(Some(name)),
        Err(e) => Err(e),
    }
}

#[test]
fn replies() {
    assert_eq!(verdict(b"stream: OK\0"), Ok(None));
    assert_eq!(verdict(b" stream: OK \nrest"), Ok(None));
    assert_eq!(
        verdict(b"stream: Eicar-Signature FOUND\0"),
        Ok(Some("Eicar-Signature".to_string()))
    );
    assert_eq!(
        verdict(b"INSTREAM size limit exceeded. ERROR\0"),
        Err("INSTREAM size limit exceeded. ERROR".to_string())
    );
    assert_eq!(
        verdict(b"what\"?"),
        Err("unexpected clamd response: \"what\\\"?\"".to_string())
    );
    assert_eq!(verdict(b""), Err("unexpected clamd response: \"\"".to_string()));
    assert_eq!(
        verdict(b"stream: FOUND"),
        Err("unexpected clamd response: \"stream: FOUND\"".to_string())
    );
    assert_eq!(
        verdict(b"\xff"),
        Err("unexpected clamd response: \"\u{fffd}\"".to_string())
    );
}

#[test]
fn only_infected_uploads_are_deleted() {
    assert!(must_delete(&read_response("stream: X FOUND")));
    assert!(!must_delete(&read_response("stream: OK")));
    assert!(!must_delete(&read_response("x ERROR")));
}

#[test]
fn frames_carry_the_file() {
    assert_eq!(&stream_command(), b"zINSTREAM\0");
    assert_eq!(frame(b"abc"), vec![0, 0, 0, 3, b'a', b'b', b'c']);
    assert_eq!(frame(&vec![7; CHUNK_SIZE])[..4], [0, 0, 0x20, 0]);
    assert_eq!(end_frame(), [0; 4]);
    let mut stream = frame(b"hello ");
    stream.extend(frame(b"world"));
    stream.extend(end_frame());
    let mut rest = &stream[..];
    let mut file: Vec<u8> = Vec::new();
    loop {
        let n = u32::from_be_bytes([rest[0], rest[1], rest[2], rest[3]]) as usize;
        if n == 0 {
            break;
        }
        file.extend(&rest[4..4 + n]);
        rest = &rest[4 + n..];
    }
    assert_eq!(file, b"hello world");
}

#[test]
fn a_scan_sends_then_reads() {
    let mut scan = Scan::new();
    assert_eq!(scan.next(), ScanStage::ReadingFile);
    scan.advance(ScanEvent::FileRead(8192));
    assert_eq!(scan.next(), ScanStage::Sending);
    scan.advance(ScanEvent::Sent);
    scan.advance(ScanEvent::FileRead(1));
    scan.advance(ScanEvent::Failed(WireError::BrokenPipe));
    assert_eq!(scan.next(), ScanStage::Ending);
    scan.advance(ScanEvent::Failed(WireError::Other));
    assert_eq!(scan.next(), ScanStage::Replying);
    scan.advance(ScanEvent::Byte(b'x'));
    scan.advance(ScanEvent::Failed(WireError::ConnectionReset));
    assert_eq!(scan.next(), ScanStage::Finished);
    scan.advance(ScanEvent::Byte(b'y'));
    assert!(scan.verdict().is_err());
}

#[test]
fn other_failures_break_a_scan() {
    let mut scan = Scan::new();
    scan.advance(ScanEvent::Failed(WireError::BrokenPipe));
    assert_eq!(scan.next(), ScanStage::Broken);
    let mut scan = Scan::new();
    scan.advance(ScanEvent::FileRead(3));
    scan.advance(ScanEvent::Failed(WireError::Other));
    assert_eq!(scan.next(), ScanStage::Broken);
    let mut scan = Scan::new();
    scan.advance(ScanEvent::FileRead(0));
    scan.advance(ScanEvent::Sent);
    scan.advance(ScanEvent::Failed(WireError::Other));
    assert_eq!(scan.next(), ScanStage::Broken);
}

#[test]
fn closed_connections() {
    assert!(is_connection_closed(WireError::BrokenPipe));
    assert!(is_connection_closed(WireError::ConnectionReset));
    assert!(!is_connection_closed(WireError::Other));
    assert!(is_socket_path("/run/clamd.sock"));
    assert!(!is_socket_path("localhost:3310"));
    assert!(!is_socket_path(""));
}
