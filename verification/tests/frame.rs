use glog_rust::io::frame::{
    check_sync_marker, encode_header, encode_record,
    parse_frame, parse_header, parse_remain_header, Parsed, PROTO_NAME,
};
use glog_rust::io::log_reader::LogBufReadError;
use glog_rust::io::primitive::{Mode, SYNC_MARKER};

fn header() -> Vec<u8> {
    let mut out = Vec::new();
    encode_header(&mut out);
    out
}

#[test]
fn header_is_28_bytes_as_laid_out() {
    let expected: Vec<u8> = vec![
        0x1B, 0xAD, 0xC0, 0xDE, 4, 13, 0, b'A', b'T', b'R', b'e', b'a', b'l', b'T', b'i', b'm',
        b'e', b'L', b'o', b'g', 0xB7, 0xDB, 0xE7, 0xDB, 0x80, 0xAD, 0xD9, 0x57,
    ];
    assert_eq!(header(), expected);
    assert_eq!(header().len(), 28);
    assert_eq!(&PROTO_NAME, b"ATRealTimeLog");
}

#[test]
fn header_is_appended() {
    let mut out = vec![9u8, 9];
    encode_header(&mut out);
    assert_eq!(&out[..2], &[9, 9]);
    assert_eq!(&out[2..], &header()[..]);
}

#[test]
fn header_parses_to_offset_28() {
    assert_eq!(parse_header(&header(), 0), Ok(28));
    let mut longer = header();
    longer.extend_from_slice(&[1, 2, 3]);
    assert_eq!(parse_header(&longer, 0), Ok(28));
    assert_eq!(parse_remain_header(&longer, 5), Ok(28));
    assert_eq!(parse_remain_header(&longer, 40), Err(LogBufReadError::IoError));
}

#[test]
fn header_at_an_offset() {
    let mut data = vec![0xEEu8; 7];
    data.extend_from_slice(&header());
    data.extend_from_slice(&[1, 2, 3]);
    assert_eq!(parse_header(&data, 7), Ok(35));
    assert_eq!(parse_header(&data, 0), Err(LogBufReadError::InValidMagicNumber));
    assert_eq!(parse_header(&data, 8), Err(LogBufReadError::InValidMagicNumber));
    assert_eq!(parse_header(&data, 35), Err(LogBufReadError::IoError));
    assert_eq!(parse_header(&data, 38), Err(LogBufReadError::IoError));
    assert_eq!(parse_header(&data, 39), Err(LogBufReadError::IoError));
}

#[test]
fn version_three_is_accepted() {
    let mut data = header();
    data[4] = 3;
    assert_eq!(parse_header(&data, 0), Ok(28));
    data[4] = 2;
    assert_eq!(parse_header(&data, 0), Err(LogBufReadError::InvalidVersion));
    data[4] = 5;
    assert_eq!(parse_header(&data, 0), Err(LogBufReadError::InvalidVersion));
}

#[test]
fn protocol_name_is_taken_as_it_is() {
    let mut data = vec![0x1B, 0xAD, 0xC0, 0xDE, 4, 3, 0, b'x', b'y', b'z'];
    data.extend_from_slice(&SYNC_MARKER);
    assert_eq!(parse_header(&data, 0), Ok(18));
    let mut empty_name = vec![0x1B, 0xAD, 0xC0, 0xDE, 4, 0, 0];
    empty_name.extend_from_slice(&SYNC_MARKER);
    assert_eq!(parse_header(&empty_name, 0), Ok(15));
}

#[test]
fn header_with_wrong_magic_number() {
    for at in 0..4 {
        let mut data = header();
        data[at] ^= 0x01;
        assert_eq!(parse_header(&data, 0), Err(LogBufReadError::InValidMagicNumber));
    }
}

#[test]
fn truncated_headers_end_in_io_error() {
    let full = header();
    for len in 0..28 {
        assert_eq!(parse_header(&full[..len], 0), Err(LogBufReadError::IoError), "length {}", len);
    }
}

#[test]
fn header_with_wrong_sync_marker() {
    for at in 20..28 {
        let mut data = header();
        data[at] ^= 0x80;
        assert_eq!(parse_header(&data, 0), Err(LogBufReadError::InvalidSyncMarker));
    }
}

#[test]
fn sync_marker_check() {
    let mut data = vec![0u8; 3];
    data.extend_from_slice(&SYNC_MARKER);
    assert_eq!(check_sync_marker(&data, 3), Ok(()));
    assert_eq!(check_sync_marker(&data, 2), Err(LogBufReadError::InvalidSyncMarker));
    assert_eq!(check_sync_marker(&data, 4), Err(LogBufReadError::IoError));
    assert_eq!(check_sync_marker(&data, 11), Err(LogBufReadError::IoError));
    assert_eq!(check_sync_marker(&data, 12), Err(LogBufReadError::IoError));
    assert_eq!(check_sync_marker(&data, usize::MAX), Err(LogBufReadError::IoError));
}

#[test]
fn plain_record_layout() {
    let mut out = Vec::new();
    assert!(encode_record(&mut out, Mode::M11, &[0u8; 16], &[], b"hi"));
    let mut expected = vec![0x11, 2, 0, b'h', b'i'];
    expected.extend_from_slice(&SYNC_MARKER);
    assert_eq!(out, expected);
}

#[test]
fn encrypted_record_layout() {
    let iv = [0xAAu8; 16];
    let key = [0xBBu8; 64];
    let payload = vec![0xCCu8; 300];
    let mut out = vec![0xEEu8];
    assert!(encode_record(&mut out, Mode::M22, &iv, &key, &payload));
    assert_eq!(out.len(), 1 + 1 + 16 + 64 + 2 + 300 + 8);
    assert_eq!(out[0], 0xEE);
    assert_eq!(out[1], 0x22);
    assert_eq!(&out[2..18], &iv);
    assert_eq!(&out[18..82], &key);
    assert_eq!(&out[82..84], &[0x2C, 0x01]);
    assert_eq!(&out[84..384], &payload[..]);
    assert_eq!(&out[384..], &SYNC_MARKER);
}

#[test]
fn payload_length_bounds_of_the_encoder() {
    let mut out = vec![7u8];
    assert!(!encode_record(&mut out, Mode::M11, &[], &[], &[]));
    assert_eq!(out, vec![7u8]);
    assert!(!encode_record(&mut out, Mode::M11, &[], &[], &vec![0u8; 16385]));
    assert_eq!(out, vec![7u8]);
    assert!(!encode_record(&mut out, Mode::M21, &[], &[], &vec![0u8; 70000]));
    assert_eq!(out, vec![7u8]);
    assert!(encode_record(&mut out, Mode::M11, &[], &[], &vec![0u8; 16384]));
    assert_eq!(out.len(), 1 + 1 + 2 + 16384 + 8);
    assert_eq!(&out[2..4], &[0x00, 0x40]);
}

fn frame_of(data: &[u8], pos: usize) -> glog_rust::io::frame::Frame {
    match parse_frame(data, pos) {
        Ok(Parsed::Frame(frame)) => frame,
        Ok(Parsed::Stop(code)) => panic!("stop {}", code),
        Err(e) => panic!("error {:?}", e),
    }
}

fn stop_of(data: &[u8], pos: usize) -> i64 {
    match parse_frame(data, pos) {
        Ok(Parsed::Stop(code)) => code,
        Ok(Parsed::Frame(_)) => panic!("frame"),
        Err(e) => panic!("error {:?}", e),
    }
}

fn error_of(data: &[u8], pos: usize) -> LogBufReadError {
    match parse_frame(data, pos) {
        Err(e) => e,
        Ok(_) => panic!("no error"),
    }
}

#[test]
fn frames_parse_back() {
    let iv = [1u8; 16];
    let key = [2u8; 64];
    let mut data = vec![0u8; 5];
    assert!(encode_record(&mut data, Mode::M12, &iv, &key, b"payload"));
    let second = data.len();
    assert!(encode_record(&mut data, Mode::M21, &iv, &key, b"x"));

    let frame = frame_of(&data, 5);
    assert_eq!(frame.mode, Mode::M12);
    assert_eq!(frame.iv, iv.to_vec());
    assert_eq!(frame.client_key, key.to_vec());
    assert_eq!(frame.payload, b"payload".to_vec());
    assert_eq!(frame.end, second - 8);
    assert_eq!(check_sync_marker(&data, frame.end), Ok(()));

    let frame = frame_of(&data, second);
    assert_eq!(frame.mode, Mode::M21);
    assert!(frame.iv.is_empty());
    assert!(frame.client_key.is_empty());
    assert_eq!(frame.payload, b"x".to_vec());
    assert_eq!(frame.end, data.len() - 8);
}

#[test]
fn soft_stops_of_the_parser() {
    assert_eq!(stop_of(&[], 0), -1);
    assert_eq!(stop_of(&[0x11; 10], 0), -1);
    assert_eq!(stop_of(&[0x11; 20], 10), -1);
    assert_eq!(stop_of(&[0x11; 20], 20), -1);
    assert_eq!(stop_of(&[0x11; 20], 21), -1);
    let mut data = vec![0x31u8; 11];
    assert_eq!(stop_of(&data, 0), -2);
    data[0] = 0x01;
    assert_eq!(stop_of(&data, 0), -2);
    data[0] = 0x13;
    assert_eq!(stop_of(&data, 0), -3);
    data[0] = 0x20;
    assert_eq!(stop_of(&data, 0), -3);
    data[0] = 0x00;
    assert_eq!(stop_of(&data, 0), -2);
}

#[test]
fn declared_lengths_out_of_bounds_are_refused() {
    let mut data = vec![0x11u8, 0, 0];
    data.extend_from_slice(&[0u8; 20]);
    assert_eq!(error_of(&data, 0), LogBufReadError::InvalidLogLength);
    let mut data = vec![0x11u8, 0x01, 0x40];
    data.extend_from_slice(&vec![0u8; 17000]);
    assert_eq!(error_of(&data, 0), LogBufReadError::InvalidLogLength);
    let mut data = vec![0x11u8, 0xff, 0xff];
    data.extend_from_slice(&vec![0u8; 70000]);
    assert_eq!(error_of(&data, 0), LogBufReadError::InvalidLogLength);
    let mut data = vec![0x11u8, 0x00, 0x40];
    data.extend_from_slice(&vec![0u8; 16384]);
    data.extend_from_slice(&SYNC_MARKER);
    assert_eq!(frame_of(&data, 0).payload.len(), 16384);
}

#[test]
fn cut_off_frames_are_soft_stops() {
    let mut plain = Vec::new();
    assert!(encode_record(&mut plain, Mode::M11, &[], &[], &[5u8; 40]));
    assert_eq!(plain.len(), 51);
    for len in 0..51 {
        assert_eq!(stop_of(&plain[..len], 0), -1, "length {}", len);
    }
    assert_eq!(frame_of(&plain, 0).payload, vec![5u8; 40]);

    let mut sealed = Vec::new();
    assert!(encode_record(&mut sealed, Mode::M12, &[1u8; 16], &[2u8; 64], &[5u8; 40]));
    assert_eq!(sealed.len(), 131);
    for len in 0..131 {
        assert_eq!(stop_of(&sealed[..len], 0), -1, "length {}", len);
    }
    assert_eq!(frame_of(&sealed, 0).payload, vec![5u8; 40]);
}

#[test]
fn cut_off_frame_with_a_length_out_of_bounds() {
    let mut data = vec![0x11u8, 0x01, 0x40];
    data.extend_from_slice(&[0u8; 8]);
    assert_eq!(error_of(&data, 0), LogBufReadError::InvalidLogLength);
    assert_eq!(stop_of(&data[..10], 0), -1);
}
