use popcap_pak::iohelper::IoHelper;
use popcap_pak::pak::PakError;

#[test]
fn new_cursor_starts_at_zero() {
    let buf = vec![1u8, 2, 3];
    let mut r = IoHelper::new(&buf);
    assert_eq!(r.tell(), 0);
}

#[test]
fn read_u8_takes_one_byte() {
    let buf = vec![0x2Au8, 0x80];
    let mut r = IoHelper::new(&buf);
    assert_eq!(r.read_u8(), Ok(0x2A));
    assert_eq!(r.tell(), 1);
    assert_eq!(r.read_u8(), Ok(0x80));
    assert_eq!(r.tell(), 2);
    assert_eq!(r.read_u8(), Err(PakError::TruncatedInput));
    assert_eq!(r.tell(), 2);
}

#[test]
fn read_u16_is_little_endian() {
    let buf = vec![0x34u8, 0x12, 0xFF, 0xFF];
    let mut r = IoHelper::new(&buf);
    assert_eq!(r.read_u16(), Ok(0x1234));
    assert_eq!(r.tell(), 2);
    assert_eq!(r.read_u16(), Ok(0xFFFF));
    assert_eq!(r.tell(), 4);
}

#[test]
fn read_u32_is_little_endian() {
    let buf = vec![0x01u8, 0x02, 0x03, 0x04, 0xC0, 0x4A, 0xC0, 0xBA];
    let mut r = IoHelper::new(&buf);
    assert_eq!(r.read_u32(), Ok(0x0403_0201));
    assert_eq!(r.tell(), 4);
    assert_eq!(r.read_u32(), Ok(0xBAC0_4AC0));
    assert_eq!(r.tell(), 8);
}

#[test]
fn read_u64_is_little_endian() {
    let buf = vec![0x01u8, 0x02, 0x03, 0x04, 0x05, 0x06, 0x07, 0x08, 0x09];
    let mut r = IoHelper::new(&buf);
    assert_eq!(r.read_u64(), Ok(0x0807_0605_0403_0201));
    assert_eq!(r.tell(), 8);
}

#[test]
fn wide_reads_start_at_the_cursor() {
    let buf = vec![0xEEu8, 0x01, 0x00, 0x00, 0x00, 0x02, 0x00];
    let mut r = IoHelper::new(&buf);
    r.seek(1);
    assert_eq!(r.read_u32(), Ok(1));
    assert_eq!(r.read_u16(), Ok(2));
    assert_eq!(r.tell(), 7);
}

#[test]
fn short_reads_fail_and_keep_the_position() {
    let buf = vec![1u8, 2, 3, 4, 5, 6, 7];
    let mut r = IoHelper::new(&buf);
    assert_eq!(r.read_u64(), Err(PakError::TruncatedInput));
    assert_eq!(r.tell(), 0);
    r.seek(4);
    assert_eq!(r.read_u32(), Err(PakError::TruncatedInput));
    assert_eq!(r.tell(), 4);
    r.seek(6);
    assert_eq!(r.read_u16(), Err(PakError::TruncatedInput));
    assert_eq!(r.tell(), 6);
    assert_eq!(r.read_u8(), Ok(7));
}

#[test]
fn reads_on_an_empty_buffer_fail() {
    let buf: Vec<u8> = Vec::new();
    let mut r = IoHelper::new(&buf);
    assert_eq!(r.read_u8(), Err(PakError::TruncatedInput));
    assert_eq!(r.read_u16(), Err(PakError::TruncatedInput));
    assert_eq!(r.read_u32(), Err(PakError::TruncatedInput));
    assert_eq!(r.read_u64(), Err(PakError::TruncatedInput));
    assert_eq!(r.read_str(), Err(PakError::TruncatedInput));
    assert_eq!(r.read_bytes(1), Err(PakError::TruncatedInput));
    assert_eq!(r.read_bytes(0), Ok(Vec::new()));
    assert_eq!(r.tell(), 0);
}

#[test]
fn seek_may_leave_the_buffer() {
    let buf = vec![1u8, 2, 3];
    let mut r = IoHelper::new(&buf);
    r.seek(1000);
    assert_eq!(r.tell(), 1000);
    assert_eq!(r.read_u8(), Err(PakError::TruncatedInput));
    assert_eq!(r.read_bytes(1), Err(PakError::TruncatedInput));
    assert_eq!(r.tell(), 1000);
    r.seek(u64::MAX);
    assert_eq!(r.tell(), u64::MAX);
    assert_eq!(r.read_u32(), Err(PakError::TruncatedInput));
    assert_eq!(r.read_bytes(usize::MAX), Err(PakError::TruncatedInput));
    assert_eq!(r.tell(), u64::MAX);
    r.seek(2);
    assert_eq!(r.read_u8(), Ok(3));
}

#[test]
fn read_of_no_bytes_succeeds_at_every_position() {
    let buf = vec![1u8, 2, 3];
    let mut r = IoHelper::new(&buf);
    for pos in [0u64, 2, 3, 4, 1000, u64::MAX] {
        r.seek(pos);
        assert_eq!(r.read_bytes(0), Ok(Vec::new()));
        assert_eq!(r.tell(), pos);
    }
    let empty: Vec<u8> = Vec::new();
    let mut r = IoHelper::new(&empty);
    r.seek(7);
    assert_eq!(r.read_bytes(0), Ok(Vec::new()));
    assert_eq!(r.tell(), 7);
}

#[test]
fn read_fails_exactly_when_more_is_asked_than_is_left() {
    let buf = vec![1u8, 2, 3, 4];
    for pos in 0u64..7 {
        for size in 0usize..7 {
            let mut r = IoHelper::new(&buf);
            r.seek(pos);
            let left = buf.len().saturating_sub(pos as usize);
            let got = r.read_bytes(size);
            if size > left {
                assert_eq!(got, Err(PakError::TruncatedInput));
                assert_eq!(r.tell(), pos);
            } else if size == 0 {
                assert_eq!(got, Ok(Vec::new()));
                assert_eq!(r.tell(), pos);
            } else {
                let from = pos as usize;
                assert_eq!(got, Ok(buf[from..from + size].to_vec()));
                assert_eq!(r.tell(), pos + size as u64);
            }
        }
    }
}

#[test]
fn seek_to_the_end_reads_nothing() {
    let buf = vec![1u8, 2, 3];
    let mut r = IoHelper::new(&buf);
    r.seek(3);
    assert_eq!(r.read_bytes(0), Ok(Vec::new()));
    assert_eq!(r.read_u8(), Err(PakError::TruncatedInput));
    assert_eq!(r.tell(), 3);
}

#[test]
fn read_bytes_copies_the_range() {
    let buf = vec![10u8, 11, 12, 13, 14];
    let mut r = IoHelper::new(&buf);
    r.seek(1);
    assert_eq!(r.read_bytes(3), Ok(vec![11u8, 12, 13]));
    assert_eq!(r.tell(), 4);
    assert_eq!(r.read_bytes(2), Err(PakError::TruncatedInput));
    assert_eq!(r.tell(), 4);
    assert_eq!(r.read_bytes(1), Ok(vec![14u8]));
    assert_eq!(r.tell(), 5);
}

#[test]
fn read_str_decodes_the_bytes_behind_the_length() {
    let buf = vec![3u8, b'a', b'b', b'c', 0xFF];
    let mut r = IoHelper::new(&buf);
    assert_eq!(r.read_str(), Ok(String::from("abc")));
    assert_eq!(r.tell(), 4);
}

#[test]
fn read_str_of_length_zero_is_empty() {
    let buf = vec![0u8, 5];
    let mut r = IoHelper::new(&buf);
    assert_eq!(r.read_str(), Ok(String::new()));
    assert_eq!(r.tell(), 1);
}

#[test]
fn read_str_takes_text_beyond_ascii() {
    let text = "dossier/\u{e9}t\u{e9}.txt";
    let mut buf = vec![text.len() as u8];
    buf.extend_from_slice(text.as_bytes());
    let mut r = IoHelper::new(&buf);
    assert_eq!(r.read_str(), Ok(String::from(text)));
    assert_eq!(r.tell(), 1 + text.len() as u64);
}

#[test]
fn read_str_fails_on_a_short_buffer() {
    let buf = vec![4u8, b'a', b'b', b'c'];
    let mut r = IoHelper::new(&buf);
    assert_eq!(r.read_str(), Err(PakError::TruncatedInput));
    assert_eq!(r.tell(), 0);
}

#[test]
fn read_str_fails_on_bytes_that_are_no_text() {
    let buf = vec![2u8, 0xC3, 0x28, b'x'];
    let mut r = IoHelper::new(&buf);
    assert_eq!(r.read_str(), Err(PakError::InvalidEncoding));
    assert_eq!(r.tell(), 0);
    let buf = vec![1u8, 0xFF];
    let mut r = IoHelper::new(&buf);
    assert_eq!(r.read_str(), Err(PakError::InvalidEncoding));
    let buf = vec![3u8, 0xED, 0xA0, 0x80];
    let mut r = IoHelper::new(&buf);
    assert_eq!(r.read_str(), Err(PakError::InvalidEncoding));
}

#[test]
fn read_str_reports_the_short_buffer_before_the_encoding() {
    let buf = vec![3u8, 0xFF, 0xFF];
    let mut r = IoHelper::new(&buf);
    assert_eq!(r.read_str(), Err(PakError::TruncatedInput));
}
