use ternreader::image_viewer::ImageError;
use ternreader::usb::{
    crc32, encode_error, encode_frame, encode_ok, read_path, read_u16, read_u32, read_u64,
    send_chunked, serialize_list, ErrorCode, Frame, UsbDirEntry, UsbProtocol, FLAG_CONT, FLAG_EOF,
    FLAG_ERR, FLAG_RESP,
};
use ternreader::usb_mode::{Command, UsbMode, UsbModeState, UsbStorage};

fn decode_all(frames: &[Vec<u8>]) -> Vec<Frame> {
    let mut p = UsbProtocol::new(1 << 16);
    for f in frames {
        p.push_bytes(f);
    }
    let mut out = Vec::new();
    while let Some(r) = p.next_frame() {
        out.push(r.ok().expect("well-formed frame"));
    }
    out
}

fn path_payload(path: &str) -> Vec<u8> {
    let mut v = (path.len() as u16).to_le_bytes().to_vec();
    v.extend_from_slice(path.as_bytes());
    v
}

#[test]
fn crc32_check_value() {
    assert_eq!(crc32(b"123456789"), 0xCBF4_3926);
    assert_eq!(crc32(b""), 0);
}

#[test]
fn frame_layout_is_little_endian() {
    let f = encode_frame(FLAG_RESP, 0x01, 0x0203, &[9, 8]);
    assert_eq!(&f[..13], &[0x52, 0x54, 0x01, 0x01, 0x01, 0x03, 0x02, 2, 0, 0, 0, 9, 8]);
    let crc = crc32(&f[..13]);
    assert_eq!(&f[13..], &crc.to_le_bytes());
}

#[test]
fn frames_round_trip_through_the_decoder() {
    let mut p = UsbProtocol::new(4096);
    let mut stream = vec![0xAA, 0x00];
    stream.extend(encode_frame(0, 0x11, 42, b"payload"));
    stream.extend(encode_frame(FLAG_EOF, 0x12, 43, b""));
    p.push_bytes(&stream);
    let mut got = Vec::new();
    while let Some(r) = p.next_frame() {
        if let Ok(f) = r {
            got.push(f);
        }
    }
    assert_eq!(got.len(), 2);
    assert_eq!((got[0].flags, got[0].cmd, got[0].req_id), (0, 0x11, 42));
    assert_eq!(got[0].payload, b"payload".to_vec());
    assert_eq!((got[1].flags, got[1].cmd, got[1].req_id), (FLAG_EOF, 0x12, 43));
    assert!(got[1].payload.is_empty());
}

#[test]
fn partial_frame_waits_for_more_bytes() {
    let f = encode_frame(0, 0x01, 1, &[1, 2, 3]);
    let mut p = UsbProtocol::new(4096);
    p.push_bytes(&f[..10]);
    assert!(p.next_frame().is_none());
    p.push_bytes(&f[10..]);
    assert!(matches!(p.next_frame(), Some(Ok(ref fr)) if fr.payload == vec![1, 2, 3]));
}

#[test]
fn corrupted_crc_is_reported() {
    let mut f = encode_frame(0, 0x01, 1, &[1, 2, 3]);
    let last = f.len() - 1;
    f[last] ^= 0xFF;
    let mut p = UsbProtocol::new(4096);
    p.push_bytes(&f);
    assert!(matches!(p.next_frame(), Some(Err(ErrorCode::CrcMismatch))));
}

#[test]
fn payload_readers() {
    let mut data = Vec::new();
    data.extend_from_slice(&7u16.to_le_bytes());
    data.extend_from_slice(&9u32.to_le_bytes());
    data.extend_from_slice(&11u64.to_le_bytes());
    data.extend(path_payload("/a/b"));
    let mut c = 0usize;
    assert_eq!(read_u16(&data, &mut c), Some(7));
    assert_eq!(read_u32(&data, &mut c), Some(9));
    assert_eq!(read_u64(&data, &mut c), Some(11));
    assert_eq!(read_path(&data, &mut c), Some("/a/b".to_string()));
    assert_eq!(c, data.len());
    assert_eq!(read_u16(&data, &mut c), None);
}

#[test]
fn directory_listing_payload() {
    let entries = vec![
        UsbDirEntry { name: "a.txt".to_string(), is_dir: false, size: 5 },
        UsbDirEntry { name: "d".to_string(), is_dir: true, size: 0 },
    ];
    let p = serialize_list(&entries);
    let mut expect = vec![2, 0];
    expect.extend([0, 5, 0]);
    expect.extend(b"a.txt");
    expect.extend(5u64.to_le_bytes());
    expect.extend([1, 1, 0, b'd']);
    expect.extend(0u64.to_le_bytes());
    assert_eq!(p, expect);
}

#[test]
fn error_response_payload() {
    let f = decode_all(&[encode_error(5, 0x13, ErrorCode::NotFound, "gone")]);
    assert_eq!(f[0].flags, FLAG_RESP | FLAG_ERR);
    assert_eq!(f[0].payload, vec![4, 0, 4, 0, b'g', b'o', b'n', b'e']);
    let ok = decode_all(&[encode_ok(6, 0x14, &[])]);
    assert_eq!((ok[0].flags, ok[0].cmd, ok[0].req_id), (FLAG_RESP, 0x14, 6));
}

#[test]
fn long_responses_are_chunked_and_reassemble() {
    let payload: Vec<u8> = (0u8..10).collect();
    let frames = send_chunked(0x11, 9, &payload, 4);
    let decoded = decode_all(&frames);
    assert_eq!(decoded.len(), 3);
    assert_eq!(decoded[0].flags, FLAG_RESP | FLAG_CONT);
    assert_eq!(decoded[1].flags, FLAG_RESP | FLAG_CONT);
    assert_eq!(decoded[2].flags, FLAG_RESP | FLAG_EOF);
    let joined: Vec<u8> = decoded.iter().flat_map(|f| f.payload.clone()).collect();
    assert_eq!(joined, payload);
    let single = decode_all(&send_chunked(0x11, 9, &payload, 10));
    assert_eq!(single.len(), 1);
    assert_eq!(single[0].flags, FLAG_RESP);
}

#[derive(Default)]
struct MemStorage {
    files: Vec<(String, Vec<u8>)>,
    dirs: Vec<String>,
}

impl UsbStorage for MemStorage {
    fn usb_list(&mut self, _path: &str) -> Result<Vec<UsbDirEntry>, ImageError> {
        Ok(self
            .files
            .iter()
            .map(|(n, d)| UsbDirEntry { name: n.clone(), is_dir: false, size: d.len() as u64 })
            .collect())
    }
    fn usb_read(&mut self, path: &str, offset: u64, length: u32) -> Result<Vec<u8>, ImageError> {
        let (_, d) = self.files.iter().find(|(n, _)| n == path).ok_or(ImageError::Io)?;
        let start = (offset as usize).min(d.len());
        let end = (start + length as usize).min(d.len());
        Ok(d[start..end].to_vec())
    }
    fn usb_write(&mut self, path: &str, offset: u64, data: &[u8]) -> Result<u32, ImageError> {
        if !self.files.iter().any(|(n, _)| n == path) {
            self.files.push((path.to_string(), Vec::new()));
        }
        let f = &mut self.files.iter_mut().find(|(n, _)| n == path).unwrap().1;
        let end = offset as usize + data.len();
        if f.len() < end {
            f.resize(end, 0);
        }
        f[offset as usize..end].copy_from_slice(data);
        Ok(data.len() as u32)
    }
    fn usb_delete(&mut self, path: &str) -> Result<(), ImageError> {
        let before = self.files.len();
        self.files.retain(|(n, _)| n != path);
        if self.files.len() == before {
            Err(ImageError::Message("no such file".to_string()))
        } else {
            Ok(())
        }
    }
    fn usb_rmdir(&mut self, path: &str) -> Result<(), ImageError> {
        let before = self.dirs.len();
        self.dirs.retain(|d| d != path);
        if self.dirs.len() == before {
            Err(ImageError::Message("no such directory".to_string()))
        } else {
            Ok(())
        }
    }
    fn usb_rename(&mut self, from: &str, to: &str) -> Result<(), ImageError> {
        for (n, _) in self.files.iter_mut() {
            if n == from {
                *n = to.to_string();
                return Ok(());
            }
        }
        Err(ImageError::Io)
    }
    fn usb_mkdir(&mut self, path: &str) -> Result<(), ImageError> {
        self.dirs.push(path.to_string());
        Ok(())
    }
}

fn exchange(mode: &mut UsbMode, storage: &mut MemStorage, request: Vec<u8>) -> Vec<Frame> {
    mode.receive(&request);
    let out = mode.process(storage);
    decode_all(&out)
}

#[test]
fn requests_are_refused_until_accepted() {
    let mut mode = UsbMode::new(64);
    let mut st = MemStorage::default();
    assert_eq!(mode.state(), UsbModeState::Idle);
    mode.enter_prompt();
    let r = exchange(&mut mode, &mut st, encode_frame(0, Command::Ping.code(), 1, &[]));
    assert_eq!(r[0].flags, FLAG_RESP | FLAG_ERR);
    assert_eq!(&r[0].payload[..2], &8u16.to_le_bytes());
    assert_eq!(mode.status().last_err, Some(ErrorCode::Busy));
    assert_eq!(mode.status().last_cmd, Some(0x01));
    mode.reject();
    assert_eq!(mode.state(), UsbModeState::Rejected);
    let r = exchange(&mut mode, &mut st, encode_frame(0, 0x01, 2, &[]));
    assert_eq!(r[0].flags, FLAG_RESP | FLAG_ERR);
}

#[test]
fn ping_info_and_eject() {
    let mut mode = UsbMode::new(64);
    let mut st = MemStorage::default();
    assert!(mode.should_prompt());
    mode.enter_prompt();
    assert!(!mode.should_prompt());
    mode.accept();
    assert_eq!(mode.state(), UsbModeState::Active);
    let r = exchange(&mut mode, &mut st, encode_frame(0, 0x01, 3, &[]));
    assert_eq!((r[0].flags, r[0].cmd, r[0].req_id), (FLAG_RESP, 0x01, 3));
    assert_eq!(r[0].payload, 0x5854_3430u32.to_le_bytes().to_vec());
    let r = exchange(&mut mode, &mut st, encode_frame(0, 0x02, 4, &[]));
    let mut info = 64u32.to_le_bytes().to_vec();
    info.extend(0x3Fu32.to_le_bytes());
    assert_eq!(r[0].payload, info);
    st.dirs.push("/x".to_string());
    let r = exchange(&mut mode, &mut st, encode_frame(0, 0x15, 5, &path_payload("/x")));
    assert_eq!((r[0].flags, r[0].cmd, r[0].req_id), (FLAG_RESP, 0x15, 5));
    assert!(r[0].payload.is_empty());
    assert!(st.dirs.is_empty());
    let r = exchange(&mut mode, &mut st, encode_frame(0, 0x15, 8, &path_payload("/x")));
    assert_eq!(r[0].flags, FLAG_RESP | FLAG_ERR);
    assert_eq!(&r[0].payload[..2], &3u16.to_le_bytes());
    let r = exchange(&mut mode, &mut st, encode_frame(0, 0x77, 6, &[]));
    assert_eq!(&r[0].payload[..2], &1u16.to_le_bytes());
    let r = exchange(&mut mode, &mut st, encode_frame(0, 0x20, 7, &[]));
    assert_eq!(r[0].flags, FLAG_RESP);
    assert_eq!(mode.state(), UsbModeState::Idle);
}

#[test]
fn first_bytes_while_idle_open_the_prompt() {
    let mut mode = UsbMode::new(64);
    let mut st = MemStorage::default();
    let r = exchange(&mut mode, &mut st, encode_frame(0, 0x01, 1, &[]));
    assert_eq!(mode.state(), UsbModeState::Prompt);
    assert_eq!(r.len(), 1);
    assert_eq!(r[0].flags, FLAG_RESP | FLAG_ERR);
    assert_eq!(&r[0].payload[..2], &8u16.to_le_bytes());
    mode.accept();
    let r = exchange(&mut mode, &mut st, encode_frame(0, 0x01, 2, &[]));
    assert_eq!(mode.state(), UsbModeState::Active);
    assert_eq!(r[0].flags, FLAG_RESP);
}

#[test]
fn process_answers_each_frame_in_order() {
    let mut mode = UsbMode::new(64);
    let mut st = MemStorage::default();
    mode.set_state(UsbModeState::Active);
    let mut bytes = encode_frame(0, 0x01, 1, &[]);
    let mut bad = encode_frame(0, 0x01, 2, &[]);
    let last = bad.len() - 1;
    bad[last] ^= 0x01;
    bytes.extend(bad);
    bytes.extend(encode_frame(0, 0x77, 3, &[]));
    let r = exchange(&mut mode, &mut st, bytes);
    assert_eq!(r.len(), 3);
    assert_eq!((r[0].flags, r[0].req_id), (FLAG_RESP, 1));
    assert_eq!((r[1].flags, r[1].req_id), (FLAG_RESP | FLAG_ERR, 0));
    assert_eq!(&r[1].payload[..2], &6u16.to_le_bytes());
    assert_eq!((r[2].flags, r[2].req_id), (FLAG_RESP | FLAG_ERR, 3));
    assert_eq!(&r[2].payload[..2], &1u16.to_le_bytes());
}

#[test]
fn write_then_read_then_list() {
    let mut mode = UsbMode::new(64);
    let mut st = MemStorage::default();
    mode.set_state(UsbModeState::Active);
    let mut w = path_payload("/f.bin");
    w.extend(0u64.to_le_bytes());
    w.extend(3u32.to_le_bytes());
    w.extend([7, 8, 9]);
    let r = exchange(&mut mode, &mut st, encode_frame(0, 0x12, 10, &w));
    assert_eq!(r[0].payload, 3u32.to_le_bytes().to_vec());
    let mut rd = path_payload("/f.bin");
    rd.extend(1u64.to_le_bytes());
    rd.extend(5u32.to_le_bytes());
    let r = exchange(&mut mode, &mut st, encode_frame(0, 0x11, 11, &rd));
    assert_eq!(r[0].payload, vec![8, 9]);
    let r = exchange(&mut mode, &mut st, encode_frame(0, 0x10, 12, &path_payload("/")));
    assert_eq!(&r[0].payload[..2], &1u16.to_le_bytes());
    assert_eq!(mode.status().last_list_count, Some(1));
}

#[test]
fn storage_failure_is_an_io_error_with_its_message() {
    let mut mode = UsbMode::new(64);
    let mut st = MemStorage::default();
    mode.set_state(UsbModeState::Active);
    let r = exchange(&mut mode, &mut st, encode_frame(0, 0x13, 20, &path_payload("/missing")));
    assert_eq!(r[0].flags, FLAG_RESP | FLAG_ERR);
    assert_eq!(&r[0].payload[..2], &3u16.to_le_bytes());
    assert_eq!(&r[0].payload[4..], b"no such file");
}

#[test]
fn truncated_path_is_invalid_args() {
    let mut mode = UsbMode::new(64);
    let mut st = MemStorage::default();
    mode.set_state(UsbModeState::Active);
    let r = exchange(&mut mode, &mut st, encode_frame(0, 0x13, 21, &[9, 0, b'/']));
    assert_eq!(&r[0].payload[..2], &7u16.to_le_bytes());
}

#[test]
fn flipped_payload_bit_is_detected_and_skipped() {
    let payload = vec![1u8, 2, 3, 4, 5];
    for byte in 11..(11 + payload.len()) {
        for bit in 0..8 {
            let mut bad = encode_frame(0, 0x11, 7, &payload);
            bad[byte] ^= 1 << bit;
            let mut p = UsbProtocol::new(4096);
            p.push_bytes(&bad);
            p.push_bytes(&encode_frame(0, 0x01, 8, &[9]));
            assert!(matches!(p.next_frame(), Some(Err(ErrorCode::CrcMismatch))));
            match p.next_frame() {
                Some(Ok(f)) => {
                    assert_eq!((f.flags, f.cmd, f.req_id), (0, 0x01, 8));
                    assert_eq!(f.payload, vec![9]);
                }
                _ => panic!("the frame after a damaged one must be read"),
            }
        }
    }
}
