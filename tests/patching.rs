use libbps::bps::crc32::{BpsCrc32, Crc32};
use libbps::bps::BpsHeader;
use libbps::decode::{signed, varint};
use libbps::engine::apply_body;
use libbps::{Action, Bps, Errors, Patcher, SourceFile, TargetFile};

fn encode(mut n: u64, out: &mut Vec<u8>) {
    loop {
        let x = (n & 0x7f) as u8;
        n >>= 7;
        if n == 0 {
            out.push(0x80 | x);
            break;
        }
        out.push(x);
        n -= 1;
    }
}

fn encode_signed(d: i64) -> u64 {
    if d < 0 {
        ((-d) as u64) << 1 | 1
    } else {
        (d as u64) << 1
    }
}

fn instr(command: u64, len: u64, out: &mut Vec<u8>) {
    encode(((len - 1) << 2) | command, out);
}

fn build_patch(source: &[u8], target: &[u8], target_size: u64, body: &[u8]) -> Vec<u8> {
    let mut p = b"BPS1".to_vec();
    encode(source.len() as u64, &mut p);
    encode(target_size, &mut p);
    encode(0, &mut p);
    p.extend_from_slice(body);
    p.extend_from_slice(&crc32fast::hash(source).to_le_bytes());
    p.extend_from_slice(&crc32fast::hash(target).to_le_bytes());
    let c = crc32fast::hash(&p);
    p.extend_from_slice(&c.to_le_bytes());
    p
}

fn run_body(body: &[u8], source: &[u8], target_size: u64) -> Result<Vec<u8>, Errors> {
    apply_body(body, 0, body.len(), source, target_size)
}

#[test]
fn action_from_word() {
    assert_eq!(Action::from(0), Action::SourceRead(1));
    assert_eq!(Action::from(13), Action::TargetRead(4));
    assert_eq!(Action::from(2), Action::SourceCopy(1));
    assert_eq!(Action::from(7), Action::TargetCopy(2));
}

#[test]
fn varint_known_values() {
    assert_eq!(varint(&[0x80], 0, 1), Ok((0, 1)));
    assert_eq!(varint(&[0x81], 0, 1), Ok((1, 1)));
    assert_eq!(varint(&[0xff], 0, 1), Ok((127, 1)));
    assert_eq!(varint(&[0x00, 0x80], 0, 2), Ok((128, 2)));
    assert_eq!(varint(&[0x55, 0x01, 0x80], 1, 3), Ok((129, 3)));
}

#[test]
fn varint_round_trip_across_range() {
    let values = [0u64, 1, 127, 128, 129, 16383, 16511, 16512, 1 << 32, u32::MAX as u64, 1 << 63, u64::MAX - 1, u64::MAX];
    for &n in values.iter() {
        let mut bytes = Vec::new();
        encode(n, &mut bytes);
        let len = bytes.len();
        bytes.push(0x42);
        assert_eq!(varint(&bytes, 0, bytes.len()), Ok((n, len)));
    }
}

#[test]
fn varint_truncated_is_io() {
    assert_eq!(varint(&[0x01, 0x02], 0, 2), Err(Errors::Io));
    assert_eq!(varint(&[0x01, 0x81], 0, 1), Err(Errors::Io));
    assert_eq!(varint(&[], 0, 0), Err(Errors::Io));
}

#[test]
fn varint_too_large_is_bad_bps() {
    let mut bytes = vec![0x7fu8; 10];
    bytes.push(0xff);
    assert_eq!(varint(&bytes, 0, bytes.len()), Err(Errors::BadBps));
}

#[test]
fn signed_relative_values() {
    for &d in [0i64, 1, -1, 2, -2, 1000, -1000, i64::MAX, i64::MIN + 1].iter() {
        assert_eq!(signed(encode_signed(d)), d);
    }
    assert_eq!(signed(3), -1);
    assert_eq!(signed(4), 2);
}

#[test]
fn crc_compare_known_value() {
    let c = Crc32::new(0xCBF4_3926);
    assert_eq!(c.compare(b"123456789"), Ok(()));
    assert_eq!(c.compare(b"123456780"), Err(Errors::BadCrc32));
    assert_eq!(c.check(0xCBF4_3926), Ok(()));
    assert_eq!(c.check(0xCBF4_3927), Err(Errors::BadCrc32));
}

#[test]
fn crc_compare_is_repeatable() {
    let c = Crc32::new(crc32fast::hash(b"abc"));
    let data = b"abc".to_vec();
    assert_eq!(c.compare(&data), c.compare(&data));
    let bad = Crc32::new(1);
    assert_eq!(bad.compare(&data), Err(Errors::BadCrc32));
    assert_eq!(bad.compare(&data), Err(Errors::BadCrc32));
}

#[test]
fn footer_is_little_endian() {
    let data = [9u8, 1, 0, 0, 0, 2, 0, 0, 0x78, 0x56, 0x34, 0x12, 0xff];
    let f = BpsCrc32::from_footer(&data[1..]).unwrap();
    assert_eq!(f.source(), 1);
    assert_eq!(f.target(), 0x7800_0002);
    assert_eq!(f.bps(), 0xff12_3456);
    assert_eq!(BpsCrc32::from_footer(&data[..11]), Err(Errors::BadBps));
}

#[test]
fn header_parse_and_magic() {
    let mut p = b"BPS1".to_vec();
    encode(4, &mut p);
    encode(300, &mut p);
    encode(2, &mut p);
    p.extend_from_slice(&[0xaa, 0xbb, 0x80]);
    let h = BpsHeader::parse(&p, p.len()).unwrap();
    assert_eq!(h.source_size(), 4);
    assert_eq!(h.target_size(), 300);
    assert_eq!(h.metadata_size, 2);
    assert_eq!(h.header_size, 10);
    assert_eq!(BpsHeader::parse(&p, 9), Err(Errors::Io));
    assert_eq!(BpsHeader::magic_check(&p), Ok(()));
    assert_eq!(BpsHeader::magic_check(b"BPS2xxxx"), Err(Errors::BadHeader));
    assert_eq!(BpsHeader::magic_check(b"BPS1"), Ok(()));
    assert_eq!(BpsHeader::magic_check(b"B"), Err(Errors::Io));
    assert_eq!(BpsHeader::magic_check(b"BPS"), Err(Errors::Io));
    assert_eq!(BpsHeader::magic_check(b""), Err(Errors::Io));
    assert_eq!(BpsHeader::parse(b"BPS1", 3), Err(Errors::Io));
    assert_eq!(BpsHeader::parse(b"UPS1\x80\x80\x80", 7), Err(Errors::BadHeader));
}

#[test]
fn source_read_copies_at_write_position() {
    let mut body = Vec::new();
    instr(0, 3, &mut body);
    assert_eq!(run_body(&body, &[5, 6, 7, 8], 3), Ok(vec![5, 6, 7]));
}

#[test]
fn target_read_copies_literals() {
    let mut body = Vec::new();
    instr(1, 2, &mut body);
    body.extend_from_slice(&[0x11, 0x22]);
    assert_eq!(run_body(&body, &[], 2), Ok(vec![0x11, 0x22]));
}

#[test]
fn source_copy_follows_relative_cursor() {
    let mut body = Vec::new();
    instr(2, 2, &mut body);
    encode(encode_signed(2), &mut body);
    instr(2, 1, &mut body);
    encode(encode_signed(0), &mut body);
    instr(2, 1, &mut body);
    encode(encode_signed(-5), &mut body);
    assert_eq!(run_body(&body, &[1, 2, 3, 4, 5], 4), Ok(vec![3, 4, 5, 1]));
}

#[test]
fn target_copy_repeats_previous_byte() {
    let mut body = Vec::new();
    instr(1, 2, &mut body);
    body.extend_from_slice(&[0x10, 0x20]);
    instr(3, 5, &mut body);
    encode(encode_signed(1), &mut body);
    assert_eq!(run_body(&body, &[], 7), Ok(vec![0x10, 0x20, 0x20, 0x20, 0x20, 0x20, 0x20]));
}

#[test]
fn target_copy_of_two_byte_run() {
    let mut body = Vec::new();
    instr(1, 2, &mut body);
    body.extend_from_slice(&[1, 2]);
    instr(3, 4, &mut body);
    encode(encode_signed(0), &mut body);
    assert_eq!(run_body(&body, &[], 6), Ok(vec![1, 2, 1, 2, 1, 2]));
}

#[test]
fn write_beyond_target_is_overrun() {
    let mut body = Vec::new();
    instr(0, 3, &mut body);
    assert_eq!(run_body(&body, &[1, 2, 3], 2), Err(Errors::PatchOverrun));
    let mut body = Vec::new();
    instr(1, 2, &mut body);
    body.extend_from_slice(&[1, 2]);
    assert_eq!(run_body(&body, &[], 1), Err(Errors::PatchOverrun));
}

#[test]
fn read_beyond_source_is_out_of_bounds() {
    let mut body = Vec::new();
    instr(0, 3, &mut body);
    assert_eq!(run_body(&body, &[1, 2], 3), Err(Errors::OutOfBounds));
    let mut body = Vec::new();
    instr(2, 2, &mut body);
    encode(encode_signed(1), &mut body);
    assert_eq!(run_body(&body, &[1, 2], 2), Err(Errors::OutOfBounds));
    let mut body = Vec::new();
    instr(2, 1, &mut body);
    encode(encode_signed(-1), &mut body);
    assert_eq!(run_body(&body, &[1, 2], 1), Err(Errors::OutOfBounds));
}

#[test]
fn target_copy_of_unwritten_byte_is_out_of_bounds() {
    let mut body = Vec::new();
    instr(1, 1, &mut body);
    body.push(7);
    instr(3, 1, &mut body);
    encode(encode_signed(1), &mut body);
    assert_eq!(run_body(&body, &[], 2), Err(Errors::OutOfBounds));
}

#[test]
fn short_output_is_incomplete() {
    let mut body = Vec::new();
    instr(0, 1, &mut body);
    assert_eq!(run_body(&body, &[1, 2], 2), Err(Errors::IncompletePatch));
    assert_eq!(run_body(&[], &[1, 2], 0), Ok(vec![]));
}

#[test]
fn truncated_literal_is_io() {
    let mut body = Vec::new();
    instr(1, 3, &mut body);
    body.push(1);
    assert_eq!(run_body(&body, &[], 3), Err(Errors::Io));
}

// The target cursor starts at 0, so after one literal byte a zero delta
// points it at the byte just before the write position.
fn end_to_end_body() -> Vec<u8> {
    let mut body = Vec::new();
    instr(1, 1, &mut body);
    body.push(0x99);
    instr(3, 4, &mut body);
    encode(encode_signed(0), &mut body);
    body
}

#[test]
fn target_copy_before_start_is_out_of_bounds() {
    let mut body = Vec::new();
    instr(1, 1, &mut body);
    body.push(0x99);
    instr(3, 4, &mut body);
    encode(encode_signed(-1), &mut body);
    assert_eq!(run_body(&body, &[1, 2, 3, 4], 5), Err(Errors::OutOfBounds));
}

#[test]
fn end_to_end_run_of_bytes() {
    let source = vec![0x01, 0x02, 0x03, 0x04];
    let target = vec![0x99; 5];
    let patch = build_patch(&source, &target, 5, &end_to_end_body());
    let bps = Bps::new(patch.clone()).unwrap();
    assert_eq!(bps.patch_size(), patch.len() as u64);
    let mut patcher = Patcher::new(bps, SourceFile::new(source), TargetFile::new());
    assert_eq!(patcher.patch(), Ok(()));
    assert_eq!(patcher.target_file.data, vec![0x99, 0x99, 0x99, 0x99, 0x99]);
}

#[test]
fn flipped_patch_checksum_fails_at_gate() {
    let source = vec![0x01, 0x02, 0x03, 0x04];
    let target = vec![0x99; 5];
    let mut patch = build_patch(&source, &target, 5, &end_to_end_body());
    let n = patch.len();
    patch[n - 2] ^= 0x01;
    assert_eq!(Bps::new(patch).map(|_| ()), Err(Errors::BadCrc32Bps));
}

#[test]
fn wrong_target_checksum_fails_at_target_check() {
    let source = vec![0x01, 0x02, 0x03, 0x04];
    let wrong_target = vec![0x98; 5];
    let patch = build_patch(&source, &wrong_target, 5, &end_to_end_body());
    let bps = Bps::new(patch).unwrap();
    let mut patcher = Patcher::new(bps, SourceFile::new(source), TargetFile::new());
    assert_eq!(patcher.patch(), Err(Errors::BadCrc32Target));
    assert!(patcher.target_file.data.is_empty());
}

#[test]
fn wrong_source_checksum_fails_at_source_check() {
    let source = vec![0x01, 0x02, 0x03, 0x04];
    let target = vec![0x99; 5];
    let patch = build_patch(&[0, 0, 0, 0], &target, 5, &end_to_end_body());
    let bps = Bps::new(patch).unwrap();
    let mut patcher = Patcher::new(bps, SourceFile::new(source), TargetFile::new());
    assert_eq!(patcher.patch(), Err(Errors::BadCrc32Source));
}

#[test]
fn source_copy_limited_to_declared_size() {
    let source = vec![1, 2, 3, 4];
    let mut body = Vec::new();
    instr(0, 4, &mut body);
    let mut patch = b"BPS1".to_vec();
    encode(2, &mut patch);
    encode(4, &mut patch);
    encode(0, &mut patch);
    patch.extend_from_slice(&body);
    patch.extend_from_slice(&crc32fast::hash(&source).to_le_bytes());
    patch.extend_from_slice(&crc32fast::hash(&source).to_le_bytes());
    let c = crc32fast::hash(&patch);
    patch.extend_from_slice(&c.to_le_bytes());
    let mut patcher = Patcher::new(Bps::new(patch).unwrap(), SourceFile::new(source), TargetFile::new());
    assert_eq!(patcher.patch(), Err(Errors::OutOfBounds));
}

#[test]
fn open_rejects_short_and_bad_magic() {
    assert_eq!(Bps::new(vec![0; 11]).map(|_| ()), Err(Errors::BadBps));
    let mut p = b"BPX1\x80\x80\x80".to_vec();
    p.extend_from_slice(&[0; 8]);
    let c = crc32fast::hash(&p);
    p.extend_from_slice(&c.to_le_bytes());
    assert_eq!(Bps::new(p.clone()).map(|_| ()), Err(Errors::BadHeader));
    assert_eq!(Bps::with_checksum(p, 0).map(|_| ()).err(), Some(if c == 0 { Errors::BadHeader } else { Errors::BadCrc32Bps }));
}

#[test]
fn bps_reads_actions_in_order() {
    let source = vec![1, 2];
    let mut body = Vec::new();
    instr(0, 2, &mut body);
    instr(1, 1, &mut body);
    body.push(5);
    let patch = build_patch(&source, &[1, 2, 5], 3, &body);
    let mut bps = Bps::new(patch).unwrap();
    assert_eq!(bps.action(), Ok(Action::SourceRead(2)));
    assert_eq!(bps.action(), Ok(Action::TargetRead(1)));
    let at = bps.position;
    assert_eq!(bps.read_len_at(1, at), Ok(vec![5]));
    assert_eq!(bps.action(), Err(Errors::Io));
    assert_eq!(bps.read_len_at(100, 0), Err(Errors::Io));
}

#[test]
fn source_file_reads_sequentially() {
    let mut s = SourceFile::new(vec![1, 2, 3]);
    assert_eq!(s.read(2), Ok(vec![1, 2]));
    assert_eq!(s.read(2), Err(Errors::Io));
    assert_eq!(s.read(1), Ok(vec![3]));
}

#[test]
fn target_file_writes_at_position() {
    let mut t = TargetFile::new();
    assert_eq!(t.write(&[1, 2, 3]), Ok(()));
    assert_eq!(t.seek(1), Ok(()));
    assert_eq!(t.write(&[9]), Ok(()));
    assert_eq!(t.seek(5), Ok(()));
    assert_eq!(t.write(&[7]), Ok(()));
    assert_eq!(t.data, vec![1, 9, 3, 0, 0, 7]);
    assert_eq!(t.position, 6);
}

#[test]
fn footer_only_patch_has_no_magic() {
    let mut p = vec![0u8; 8];
    let c = crc32fast::hash(&p);
    p.extend_from_slice(&c.to_le_bytes());
    assert_eq!(Bps::new(p).map(|_| ()), Err(Errors::BadHeader));
}

fn short_patch(lead: &[u8]) -> Vec<u8> {
    let mut p = lead.to_vec();
    p.extend_from_slice(&[0u8; 8]);
    let c = crc32fast::hash(&p);
    p.extend_from_slice(&c.to_le_bytes());
    p
}

#[test]
fn short_patch_with_wrong_magic_is_bad_header() {
    assert_eq!(Bps::new(short_patch(b"")).map(|_| ()), Err(Errors::BadHeader));
    assert_eq!(Bps::new(short_patch(b"XP")).map(|_| ()), Err(Errors::BadHeader));
    assert_eq!(Bps::new(short_patch(b"UPS")).map(|_| ()), Err(Errors::BadHeader));
    assert_eq!(Bps::new(short_patch(b"BPS")).map(|_| ()), Err(Errors::BadHeader));
}

#[test]
fn short_patch_with_magic_is_truncated_header() {
    let mut p = b"BPS1".to_vec();
    p.extend_from_slice(&[0u8; 4]);
    let c = crc32fast::hash(&p);
    p.extend_from_slice(&c.to_le_bytes());
    assert_eq!(Bps::new(p).map(|_| ()), Err(Errors::Io));
}
