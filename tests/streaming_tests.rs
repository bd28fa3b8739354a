use share_daemon::address::IpAddress;
use share_daemon::protocol::{LocalResponse, RemoteResponse};
use share_daemon::streaming::{
    body_step, decode_stream_bytes, encode_stream, interpret_final_reply, push_header, read_frame_head,
    read_opening, receiver_reply, screen_sender, FileData, FileRecvError, FrameHead,
    StreamOpening, StreamStatus,
};

fn three_files() -> Vec<FileData> {
    vec![
        FileData::empty_file(b"empty.bin".to_vec()),
        FileData::new(b"hundred.txt".to_vec(), vec![7u8; 100]),
        FileData::new(b"big.dat".to_vec(), (0..100000u32).map(|i| (i % 251) as u8).collect()),
    ]
}

#[test]
fn three_files_end_to_end() {
    let files = three_files();
    let stream = encode_stream(&files);
    let (got, status) = decode_stream_bytes(&stream);
    assert_eq!(status, StreamStatus::Complete);
    assert_eq!(got.len(), 3);
    for (a, b) in got.iter().zip(files.iter()) {
        assert_eq!(a.name(), b.name());
        assert_eq!(a.data(), b.data());
    }
    let reply = receiver_reply(status, got.len() as u64);
    assert_eq!(reply, RemoteResponse::FilesReceived(3));
    let line = reply.to_line();
    assert_eq!(line, b"FILES_RECEIVED 3".to_vec());
    assert_eq!(interpret_final_reply(&line, 3), (LocalResponse::AllFilesSucceeded, false));
    assert_eq!(
        LocalResponse::AllFilesSucceeded.to_line(),
        b"ALL_FILES_SUCCEEDED".to_vec()
    );
}

#[test]
fn stream_cut_after_second_header_counts_first_file() {
    let files = three_files();
    let mut stream = Vec::new();
    let head = b"SEND_START\r\n\r\n";
    stream.extend_from_slice(head);
    stream.extend_from_slice(b"empty.bin:0\r\n\r\n");
    push_header(&mut stream, b"hundred.txt", 100);
    stream.extend_from_slice(&files[1].data()[..40]);
    let full = encode_stream(&files);
    assert_eq!(&full[..stream.len()], &stream[..]);
    let (got, status) = decode_stream_bytes(&stream);
    assert_eq!(status, StreamStatus::Incomplete);
    assert_eq!(got.len(), 1);
    assert_eq!(got[0].name(), b"empty.bin");
    let reply = receiver_reply(status, got.len() as u64);
    assert_eq!(reply.to_line(), b"UNEXPECTED_END_FLAG 1".to_vec());
    assert_eq!(status.error(), Some(FileRecvError::IncorrectFileSize));
}

#[test]
fn stream_framing_exact_bytes() {
    let files = vec![FileData::new(b"a".to_vec(), b"xyz".to_vec())];
    assert_eq!(
        encode_stream(&files),
        b"SEND_START\r\n\r\na:3\r\nxyz\r\nSEND_END\r\n".to_vec()
    );
    assert_eq!(encode_stream(&Vec::new()), b"SEND_START\r\n\r\nSEND_END\r\n".to_vec());
}

#[test]
fn long_names_are_cut() {
    let mut out = Vec::new();
    push_header(&mut out, &[b'n'; 300], 5);
    let mut expect = vec![b'n'; 260];
    expect.extend_from_slice(b":5\r\n");
    assert_eq!(out, expect);
}

#[test]
fn empty_or_broken_streams() {
    let (got, status) = decode_stream_bytes(b"SEND_START\r\n\r\nSEND_END\r\n");
    assert_eq!((got.len(), status), (0, StreamStatus::Complete));
    assert_eq!(receiver_reply(status, 0), RemoteResponse::InvalidRequest);
    let (_, status) = decode_stream_bytes(b"HELLO\r\n");
    assert_eq!(status, StreamStatus::Malformed);
    assert_eq!(status.error(), Some(FileRecvError::InvalidFrame));
    let (got, status) = decode_stream_bytes(b"SEND_START\r\n\r\na:1\r\nx\r\nbogus\r\n");
    assert_eq!((got.len(), status), (1, StreamStatus::Malformed));
    assert_eq!(receiver_reply(status, 1), RemoteResponse::UnexpectedEndFlag(1));
    let (_, status) = decode_stream_bytes(b"SEND_START\r\n\r\n:1\r\nx\r\n");
    assert_eq!(status, StreamStatus::Malformed);
    let (_, status) = decode_stream_bytes(b"SEND_START\r\n");
    assert_eq!(status, StreamStatus::Incomplete);
    assert_eq!(StreamStatus::Complete.error(), None);
}

#[test]
fn sender_reads_final_reply() {
    assert_eq!(interpret_final_reply(b"FILES_RECEIVED 2\r\n", 2), (LocalResponse::AllFilesSucceeded, false));
    assert_eq!(interpret_final_reply(b"FILES_RECEIVED 1\r\n", 2), (LocalResponse::FilesSucceeded(1), false));
    assert_eq!(interpret_final_reply(b"FILES_RECEIVED 3\r\n", 2), (LocalResponse::UnexpectedSendResponse, true));
    assert_eq!(interpret_final_reply(b"UNEXPECTED_END_FLAG 1\r\n", 2), (LocalResponse::UnexpectedSendResponse, true));
    assert_eq!(interpret_final_reply(b"", 2), (LocalResponse::UnexpectedSendResponse, true));
    assert_eq!(LocalResponse::FilesSucceeded(1).to_line(), b"FILES_SUCCEEDED 1".to_vec());
}

#[test]
fn receiver_screens_sender() {
    let granted = IpAddress::V4(0x0a000002);
    assert_eq!(screen_sender(granted, granted), None);
    assert_eq!(screen_sender(granted, IpAddress::V4(0x0a000003)), Some(RemoteResponse::InvalidRequest));
    assert_eq!(screen_sender(granted, IpAddress::V6(0x0a000002, 0)), Some(RemoteResponse::InvalidRequest));
}

#[test]
fn long_names_are_cut_on_a_character_boundary() {
    let mut name = vec![b'a'; 259];
    name.extend_from_slice("é".as_bytes());
    name.extend_from_slice(b"tail");
    let mut out = Vec::new();
    push_header(&mut out, &name, 7);
    let mut expect = vec![b'a'; 259];
    expect.extend_from_slice(b":7\r\n");
    assert_eq!(out, expect);
    let mut name2 = vec![b'a'; 258];
    name2.extend_from_slice("é".as_bytes());
    name2.extend_from_slice(b"tail");
    let mut out2 = Vec::new();
    push_header(&mut out2, &name2, 7);
    let header = String::from_utf8(out2).unwrap();
    assert!(header.starts_with(&format!("{}é:", "a".repeat(258))));
}

#[test]
fn large_counts_are_reported() {
    assert_eq!(RemoteResponse::parse(b"FILES_RECEIVED 300"), Ok(RemoteResponse::FilesReceived(300)));
    assert_eq!(RemoteResponse::parse(b"UNEXPECTED_END_FLAG 256"), Ok(RemoteResponse::UnexpectedEndFlag(256)));
    assert!(RemoteResponse::parse(b"FILES_RECEIVED 18446744073709551616").is_err());
    assert_eq!(receiver_reply(StreamStatus::Complete, 256), RemoteResponse::FilesReceived(256));
    assert_eq!(receiver_reply(StreamStatus::Incomplete, 256).to_line(), b"UNEXPECTED_END_FLAG 256".to_vec());
    assert_eq!(receiver_reply(StreamStatus::Malformed, 0), RemoteResponse::InvalidRequest);
    assert_eq!(interpret_final_reply(b"FILES_RECEIVED 300\r\n", 300), (LocalResponse::AllFilesSucceeded, false));
}

#[test]
fn unsafe_names_break_the_frame() {
    for name in [&b"../x"[..], b"a/b", b"a\\b", b".", b"..", b"/etc/passwd"] {
        let mut frame = b"\r\n".to_vec();
        frame.extend_from_slice(name);
        frame.extend_from_slice(b":1\r\nx");
        assert!(matches!(read_frame_head(&frame), FrameHead::Malformed), "{:?}", name);
    }
    assert!(matches!(read_frame_head(b"\r\n...:1\r\nx"), FrameHead::File { .. }));
    let (got, status) = decode_stream_bytes(b"SEND_START\r\n\r\na:1\r\nx\r\n../b:1\r\ny\r\nSEND_END\r\n");
    assert_eq!((got.len(), status), (1, StreamStatus::Malformed));
    assert_eq!(receiver_reply(status, 1).to_line(), b"UNEXPECTED_END_FLAG 1".to_vec());
}

#[test]
fn body_steps_count_whole_files() {
    assert_eq!(body_step(0, 4, 100), (0, 0, 5));
    assert_eq!(body_step(100, 0, 40), (40, 60, 0));
    assert_eq!(body_step(60, 0, 8192), (60, 0, 1));
    assert_eq!(body_step(10, 2, 0), (0, 10, 2));
}

#[test]
fn stream_read_piece_by_piece() {
    let files = three_files();
    let stream = encode_stream(&files);
    assert_eq!(read_opening(&stream[..5]), StreamOpening::NeedMore);
    assert_eq!(read_opening(b"HELLO\r\n"), StreamOpening::Malformed);
    let used = match read_opening(&stream) {
        StreamOpening::Started(u) => u,
        other => panic!("{:?}", other),
    };
    let mut rest = &stream[used..];
    let mut got = Vec::new();
    loop {
        match read_frame_head(rest) {
            FrameHead::File { name, size, used } => {
                let body = &rest[used..used + size as usize];
                got.push((name, body.to_vec()));
                rest = &rest[used + size as usize..];
            }
            FrameHead::End => break,
            other => panic!("{:?}", other),
        }
    }
    assert_eq!(got.len(), 3);
    assert_eq!(got[2].1, files[2].data().to_vec());
    assert!(matches!(read_frame_head(b"\r\nhalf"), FrameHead::NeedMore));
    assert!(matches!(read_frame_head(b"x\r\n"), FrameHead::Malformed));
}
