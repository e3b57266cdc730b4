use glog_rust::cipher::aes_cfb_ecdh::Cipher;
use glog_rust::cipher::key_pair::KeyPair;
use glog_rust::io::log_reader::{take_chunk, LogBufReadError, LogBufReaderV4};
use glog_rust::io::log_writer::{check_keys, LogBufWriteError, LogBufWriterV4};
use glog_rust::io::primitive::{CompressMode, EncryptMode, Mode, SYNC_MARKER};

const SERVER_KEY: &str = "1E99423A4ED27608A15A2616A2B0E9E52CED330AC530EDCC32C8FFC6A526AEDD";
const CLIENT_KEY: &str = "00000000000000000000000000000000000000000000000000000000000000FF";
const OTHER_KEY: &str = "0000000000000000000000000000000000000000000000000000000000000001";

const MODES: [(CompressMode, EncryptMode); 4] = [
    (CompressMode::Off, EncryptMode::Off),
    (CompressMode::Off, EncryptMode::Aes),
    (CompressMode::Zlib, EncryptMode::Off),
    (CompressMode::Zlib, EncryptMode::Aes),
];

fn noise(len: usize) -> String {
    let mut state = 0x2545F4914F6CDD1Du64;
    (0..len)
        .map(|_| {
            state ^= state << 13;
            state ^= state >> 7;
            state ^= state << 17;
            char::from(b'!' + (state >> 32) as u8 % 90)
        })
        .collect()
}

fn server_public() -> String {
    KeyPair::from_private_key_str(SERVER_KEY).unwrap().public_key
}

fn stream_of(modes: &[(CompressMode, EncryptMode)], bodies: &[String]) -> Vec<u8> {
    let client = Cipher::new(CLIENT_KEY).unwrap();
    let public = server_public();
    let mut writer = LogBufWriterV4::new(Vec::new(), &client);
    writer.write_head().unwrap();
    for (i, body) in bodies.iter().enumerate() {
        writer.write_single_log(&modes[i % modes.len()], &public, body).unwrap();
    }
    writer.into_inner().clone()
}

fn read_stream(file: &[u8], key: &str) -> (Vec<String>, Result<(), LogBufReadError>) {
    let cipher = Cipher::new(key).unwrap();
    let mut reader = LogBufReaderV4::new(file.to_vec(), &cipher);
    let mut out = Vec::new();
    let res = reader.read(&mut out);
    (out, res)
}

fn logs(n: usize) -> Vec<String> {
    (0..n)
        .map(|i| {
            format!(
                r#"{{"msg":"save:{}","level":"3","timestamp":"2023-08-03 08:38:48 +0000","userId":"uid12345","namespace":"namespace"}}"#,
                i
            )
        })
        .collect()
}

#[test]
fn stream_header_only() {
    let file = stream_of(&MODES, &[]);
    assert_eq!(file.len(), 28);
    let cipher = Cipher::new(SERVER_KEY).unwrap();
    let mut reader = LogBufReaderV4::new(file.clone(), &cipher);
    assert_eq!(reader.read_header(), Ok(()));
    let mut buffer = Vec::new();
    assert_eq!(reader.read_body(&mut buffer), Ok(-1));
    assert_eq!(read_stream(&file, SERVER_KEY), (vec![], Ok(())));
}

#[test]
fn stream_single_plain_record() {
    let body = r#"{"msg":"hello"}"#.to_string();
    let file = stream_of(&[(CompressMode::Off, EncryptMode::Off)], &[body.clone()]);
    let mut expected = stream_of(&MODES, &[]);
    expected.push(0x11);
    expected.extend_from_slice(&[body.len() as u8, 0]);
    expected.extend_from_slice(body.as_bytes());
    expected.extend_from_slice(&SYNC_MARKER);
    assert_eq!(file, expected);
    assert_eq!(read_stream(&file, SERVER_KEY), (vec![body], Ok(())));
}

#[test]
fn stream_of_a_hundred_sealed_records() {
    let bodies = logs(100);
    let file = stream_of(&[(CompressMode::Zlib, EncryptMode::Aes)], &bodies);
    let (out, res) = read_stream(&file, SERVER_KEY);
    assert_eq!(res, Ok(()));
    assert_eq!(out, bodies);
}

#[test]
fn stream_round_trip_in_every_mode() {
    for mode in MODES.iter() {
        let bodies = logs(7);
        let file = stream_of(&[*mode], &bodies);
        assert_eq!(read_stream(&file, SERVER_KEY), (bodies, Ok(())), "mode {:?}", mode);
    }
}

#[test]
fn stream_of_mixed_modes() {
    let bodies = logs(21);
    let file = stream_of(&MODES, &bodies);
    assert_eq!(read_stream(&file, SERVER_KEY), (bodies, Ok(())));
}

#[test]
fn later_chunks_lean_on_earlier_ones() {
    let bodies = vec!["the very same log line, twice over".to_string(); 2];
    let file = stream_of(&[(CompressMode::Zlib, EncryptMode::Off)], &bodies);
    let first_len = u16::from_le_bytes([file[29], file[30]]) as usize;
    let second_at = 28 + 1 + 2 + first_len + 8;
    let second_len = u16::from_le_bytes([file[second_at + 1], file[second_at + 2]]) as usize;
    assert!(second_len < first_len);
    assert_eq!(&file[31..33], &[0x78, 0x9c]);
}

#[test]
fn writer_key_pair_is_reused_across_records() {
    let bodies = logs(3);
    let file = stream_of(&[(CompressMode::Off, EncryptMode::Aes)], &bodies);
    let client_public =
        Cipher::new(CLIENT_KEY).unwrap().get_key_pair().to_public_key_untagged_bytes().unwrap();
    let mut at = 28;
    let mut ivs = Vec::new();
    for body in bodies.iter() {
        assert_eq!(file[at], 0x12);
        ivs.push(file[at + 1..at + 17].to_vec());
        assert_eq!(&file[at + 17..at + 81], &client_public[..]);
        at += 1 + 16 + 64 + 2 + body.len() + 8;
    }
    assert_eq!(at, file.len());
    assert_ne!(ivs[0], ivs[1]);
    assert_ne!(ivs[1], ivs[2]);
}

#[test]
fn stream_read_with_the_wrong_key() {
    let bodies = logs(2);
    let file = stream_of(&[(CompressMode::Off, EncryptMode::Aes)], &bodies);
    let (out, res) = read_stream(&file, OTHER_KEY);
    match res {
        Err(e) => assert_eq!(e, LogBufReadError::DecryptionError),
        Ok(()) => assert_ne!(out, bodies),
    }
    let file = stream_of(&[(CompressMode::Zlib, EncryptMode::Aes)], &bodies);
    let (out, res) = read_stream(&file, OTHER_KEY);
    assert_ne!(out, bodies);
    if res.is_err() {
        assert_eq!(res, Err(LogBufReadError::DecompressError));
    }
}

#[test]
fn stream_with_a_corrupted_sync_marker() {
    for mode in MODES.iter() {
        let bodies = logs(3);
        let mut file = stream_of(&[*mode], &bodies);
        let at = file.len() - 3;
        file[at] ^= 0xff;
        let (out, res) = read_stream(&file, SERVER_KEY);
        assert_eq!(res, Err(LogBufReadError::InvalidSyncMarker));
        assert_eq!(out, bodies[..2].to_vec());
    }
}

#[test]
fn stream_with_a_wrong_magic_number() {
    let mut file = stream_of(&MODES, &logs(1));
    file[0] = 0x00;
    assert_eq!(read_stream(&file, SERVER_KEY), (vec![], Err(LogBufReadError::InValidMagicNumber)));
}

#[test]
fn read_body_leaves_reader_and_buffer_alone_on_a_stop() {
    let bodies = logs(1);
    let mut file = stream_of(&[(CompressMode::Off, EncryptMode::Off)], &bodies);
    file.extend_from_slice(&[0x41u8; 30]);
    let cipher = Cipher::new(SERVER_KEY).unwrap();
    let mut reader = LogBufReaderV4::new(file, &cipher);
    let mut buffer = Vec::new();
    reader.read_header().unwrap();
    assert_eq!(reader.read_body(&mut buffer), Ok(bodies[0].len() as i64));
    assert_eq!(buffer, bodies[0].as_bytes().to_vec());
    assert_eq!(reader.read_body(&mut buffer), Ok(-2));
    assert_eq!(reader.read_body(&mut buffer), Ok(-2));
    assert_eq!(buffer, bodies[0].as_bytes().to_vec());
}

#[test]
fn stream_reader_refuses_long_plaintexts() {
    let client = Cipher::new(CLIENT_KEY).unwrap();
    let mut writer = LogBufWriterV4::new(Vec::new(), &client);
    writer.write_head().unwrap();
    let mode = (CompressMode::Zlib, EncryptMode::Off);
    writer.write_single_log(&mode, "", &"x".repeat(16384)).unwrap();
    writer.write_single_log(&mode, "", &"y".repeat(16385)).unwrap();
    let file = writer.into_inner().clone();
    let (out, res) = read_stream(&file, SERVER_KEY);
    assert_eq!(out, vec!["x".repeat(16384)]);
    assert_eq!(res, Err(LogBufReadError::DecompressError));
}

#[test]
fn stream_writer_refuses_payloads_out_of_bounds() {
    let client = Cipher::new(CLIENT_KEY).unwrap();
    let public = server_public();
    let mut writer = LogBufWriterV4::new(vec![5u8], &client);
    for mode in [(CompressMode::Off, EncryptMode::Off), (CompressMode::Off, EncryptMode::Aes)] {
        assert_eq!(
            writer.write_single_log(&mode, &public, ""),
            Err(LogBufWriteError::InvalidLogLength)
        );
        assert_eq!(
            writer.write_single_log(&mode, &public, &"x".repeat(16385)),
            Err(LogBufWriteError::InvalidLogLength)
        );
    }
    let noise = noise(40000);
    assert_eq!(
        writer.write_single_log(&(CompressMode::Zlib, EncryptMode::Off), &public, &noise),
        Err(LogBufWriteError::InvalidLogLength)
    );
    assert_eq!(
        writer.write_single_log(&(CompressMode::Off, EncryptMode::Aes), "zz", "body"),
        Err(LogBufWriteError::InvalidPublicKey)
    );
    assert_eq!(writer.into_inner().clone(), vec![5u8]);
}

#[test]
fn truncated_stream_ends_softly() {
    for mode in MODES.iter() {
        let bodies = logs(2);
        let file = stream_of(&[*mode], &bodies);
        let first = stream_of(&[*mode], &bodies[..1]).len();
        for len in [first, first + 1, first + 11, first + 20, file.len() - 9, file.len() - 1] {
            assert_eq!(
                read_stream(&file[..len], SERVER_KEY),
                (bodies[..1].to_vec(), Ok(())),
                "mode {:?}, length {}",
                mode,
                len
            );
        }
    }
}

#[test]
fn refused_key_feeds_the_stream_nothing() {
    let client = Cipher::new(CLIENT_KEY).unwrap();
    let public = server_public();
    let mode = (CompressMode::Zlib, EncryptMode::Aes);
    let bodies = logs(3);
    let mut writer = LogBufWriterV4::new(Vec::new(), &client);
    writer.write_head().unwrap();
    writer.write_single_log(&mode, &public, &bodies[0]).unwrap();
    assert_eq!(
        writer.write_single_log(&mode, "not a key", "refused for its key"),
        Err(LogBufWriteError::InvalidPublicKey)
    );
    assert_eq!(
        writer.write_single_log(&mode, &"00".repeat(64), "refused for its key"),
        Err(LogBufWriteError::InvalidPublicKey)
    );
    writer.write_single_log(&mode, &public, &bodies[1]).unwrap();
    writer.write_single_log(&mode, &public, &bodies[2]).unwrap();
    let file = writer.into_inner().clone();
    assert_eq!(read_stream(&file, SERVER_KEY), (bodies, Ok(())));
}

#[test]
fn sealed_stream_record_has_91_bytes_and_the_body() {
    let client = Cipher::new(CLIENT_KEY).unwrap();
    let public = server_public();
    let body = "a body of 21 bytes!!!";
    let mut writer = LogBufWriterV4::new(Vec::new(), &client);
    writer.write_single_log(&(CompressMode::Off, EncryptMode::Aes), &public, body).unwrap();
    let out = writer.into_inner().clone();
    assert_eq!(out.len(), 91 + body.len());
    assert_eq!(out[0], 0x12);
    assert_eq!(&out[17..81], &client.get_key_pair().to_public_key_untagged_bytes().unwrap()[..]);
    assert_eq!(&out[81..83], &(body.len() as u16).to_le_bytes());
    assert_eq!(&out[out.len() - 8..], &SYNC_MARKER);
    let mut payload = out[83..83 + body.len()].to_vec();
    Cipher::new(SERVER_KEY)
        .unwrap()
        .decrypt_inplace(&out[17..81], &out[1..17], &mut payload)
        .unwrap();
    assert_eq!(payload, body.as_bytes().to_vec());
}

#[test]
fn taking_a_chunk() {
    let mut output = b"> ".to_vec();
    assert_eq!(take_chunk(Some(b"abc".to_vec()), &mut output), Ok(5));
    assert_eq!(output, b"> abc".to_vec());
    assert_eq!(take_chunk(Some(Vec::new()), &mut output), Ok(5));
    assert_eq!(take_chunk(Some(vec![b'x'; 16384]), &mut output), Ok(5 + 16384));
    assert_eq!(&output[..5], b"> abc");
    assert_eq!(&output[5..], &vec![b'x'; 16384][..]);
    let mut kept = b"kept".to_vec();
    assert_eq!(
        take_chunk(Some(vec![b'x'; 16385]), &mut kept),
        Err(LogBufReadError::DecompressError)
    );
    assert_eq!(take_chunk(None, &mut kept), Err(LogBufReadError::DecompressError));
    assert_eq!(kept, b"kept".to_vec());
}

#[test]
fn keys_are_judged_before_sealing() {
    let client = Cipher::new(CLIENT_KEY).unwrap();
    let public = server_public();
    assert_eq!(check_keys(Mode::M11, "no key", None), Ok(()));
    assert_eq!(check_keys(Mode::M21, "", Some(&client)), Ok(()));
    assert_eq!(check_keys(Mode::M12, &public, Some(&client)), Ok(()));
    assert_eq!(check_keys(Mode::M22, &public.to_lowercase(), Some(&client)), Ok(()));
    assert_eq!(check_keys(Mode::M12, &public, None), Err(LogBufWriteError::InvalidKey));
    assert_eq!(check_keys(Mode::M12, "zz", None), Err(LogBufWriteError::InvalidPublicKey));
    assert_eq!(
        check_keys(Mode::M22, &public[2..], Some(&client)),
        Err(LogBufWriteError::InvalidPublicKey)
    );
    assert_eq!(
        check_keys(Mode::M22, &"11".repeat(64), Some(&client)),
        Err(LogBufWriteError::InvalidPublicKey)
    );
}

#[test]
fn into_inner_hands_out_the_buffer() {
    let client = Cipher::new(CLIENT_KEY).unwrap();
    let mut writer = LogBufWriterV4::new(vec![1u8, 2], &client);
    writer.into_inner().push(3);
    writer.write_head().unwrap();
    let inner = writer.into_inner();
    assert_eq!(inner.len(), 3 + 28);
    assert_eq!(&inner[..3], &[1, 2, 3]);
    inner.clear();
    writer.write_head().unwrap();
    assert_eq!(writer.into_inner().len(), 28);
}

#[test]
fn chunks_of_one_zlib_stream() {
    let client = Cipher::new(CLIENT_KEY).unwrap();
    let mut writer = LogBufWriterV4::new(Vec::new(), &client);
    let first = writer.compress_zlib(b"hello hello hello hello").unwrap();
    let second = writer.compress_zlib(b"hello hello hello hello").unwrap();
    assert_eq!(&first[..2], &[0x78, 0x9c]);
    assert_eq!(&first[first.len() - 4..], &[0x00, 0x00, 0xff, 0xff]);
    assert_eq!(&second[second.len() - 4..], &[0x00, 0x00, 0xff, 0xff]);
    assert!(second.len() < first.len());
    assert!(writer.into_inner().is_empty());

    let mut reader = LogBufReaderV4::new(Vec::new(), &client);
    let mut output = b"> ".to_vec();
    assert_eq!(reader.decompress_zlib(&first, &mut output), Ok(25));
    assert_eq!(output, b"> hello hello hello hello".to_vec());
    assert_eq!(reader.decompress_zlib(&second, &mut output), Ok(48));
    assert_eq!(output, b"> hello hello hello hellohello hello hello hello".to_vec());

    let mut fresh = LogBufReaderV4::new(Vec::new(), &client);
    let mut untouched = b"kept".to_vec();
    assert_eq!(
        fresh.decompress_zlib(b"no stream at all", &mut untouched),
        Err(LogBufReadError::DecompressError)
    );
    assert_eq!(untouched, b"kept".to_vec());
}
