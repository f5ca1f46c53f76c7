use replay_log::codec::{decode_entry, decode_super, SUPER_SIZE, WRITE_LOG_MAGIC, WRITE_LOG_VERSION};
use replay_log::engine::{apply_entry, entry_byte_range, write_range, zero_range};
use replay_log::model::{
    should_run_fsck, should_stop, str_eq, FormatError, LogWriteEntry, LOG_DISCARD_FLAG,
    LOG_FLUSH_FLAG, LOG_FUA_FLAG, LOG_MARK_FLAG, LOG_METADATA_FLAG,
};
use replay_log::replay::{replay_log, StopReason};

const SS: u32 = 512;

fn push_u64(out: &mut Vec<u8>, v: u64) {
    out.extend_from_slice(&v.to_le_bytes());
}

fn push_u32(out: &mut Vec<u8>, v: u32) {
    out.extend_from_slice(&v.to_le_bytes());
}

fn mk_super(out: &mut Vec<u8>, nr_entries: u64, sector_size: u32) {
    push_u64(out, WRITE_LOG_MAGIC);
    push_u64(out, WRITE_LOG_VERSION);
    push_u64(out, nr_entries);
    push_u32(out, sector_size);
}

fn mk_entry(out: &mut Vec<u8>, sector: u64, nr_sectors: u64, flags: u64, data: &[u8]) {
    push_u64(out, sector);
    push_u64(out, nr_sectors);
    push_u64(out, flags);
    push_u64(out, data.len() as u64);
    out.extend_from_slice(data);
}

fn write_entry(out: &mut Vec<u8>, sector: u64, nr_sectors: u64, flags: u64, byte: u8) {
    let data = vec![byte; (nr_sectors as usize) * (SS as usize)];
    mk_entry(out, sector, nr_sectors, flags, &data);
}

fn mark_entry(out: &mut Vec<u8>, name: &str) {
    let mut data = name.as_bytes().to_vec();
    data.push(0);
    mk_entry(out, 0, 0, LOG_MARK_FLAG, &data);
}

#[test]
fn super_block_decodes() {
    let mut log: Vec<u8> = Vec::new();
    mk_super(&mut log, 7, SS);
    let sup = decode_super(&log).unwrap();
    assert_eq!(sup.version, 1);
    assert_eq!(sup.nr_entries, 7);
    assert_eq!(sup.sector_size, 512);
}

#[test]
fn super_truncated() {
    let log = vec![0u8; 10];
    assert_eq!(decode_super(&log), Err(FormatError::TruncatedSuper));
}

#[test]
fn super_bad_magic() {
    let mut log: Vec<u8> = Vec::new();
    push_u64(&mut log, 0x1234);
    push_u64(&mut log, WRITE_LOG_VERSION);
    push_u64(&mut log, 0);
    push_u32(&mut log, SS);
    assert_eq!(decode_super(&log), Err(FormatError::BadMagic));
}

#[test]
fn super_bad_version() {
    let mut log: Vec<u8> = Vec::new();
    push_u64(&mut log, WRITE_LOG_MAGIC);
    push_u64(&mut log, 2);
    push_u64(&mut log, 0);
    push_u32(&mut log, SS);
    assert_eq!(decode_super(&log), Err(FormatError::UnsupportedVersion));
}

#[test]
fn super_zero_sector_size() {
    let mut log: Vec<u8> = Vec::new();
    mk_super(&mut log, 0, 0);
    assert_eq!(decode_super(&log), Err(FormatError::ZeroSectorSize));
}

#[test]
fn entry_decodes_with_payload() {
    let mut log: Vec<u8> = Vec::new();
    mk_super(&mut log, 1, SS);
    write_entry(&mut log, 3, 1, LOG_FLUSH_FLAG, 0x5A);
    let (entry, next) = decode_entry(&log, SUPER_SIZE).unwrap().unwrap();
    assert_eq!(entry.sector, 3);
    assert_eq!(entry.nr_sectors, 1);
    assert_eq!(entry.flags, LOG_FLUSH_FLAG);
    assert_eq!(entry.data.len(), 512);
    assert!(entry.data.iter().all(|b| *b == 0x5A));
    assert_eq!(next, log.len());
    assert!(decode_entry(&log, next).unwrap().is_none());
}

#[test]
fn entry_truncated_header() {
    let mut log: Vec<u8> = Vec::new();
    mk_super(&mut log, 1, SS);
    log.extend_from_slice(&[1, 2, 3, 4, 5]);
    assert!(matches!(decode_entry(&log, SUPER_SIZE), Err(FormatError::TruncatedHeader)));
}

#[test]
fn entry_truncated_payload() {
    let mut log: Vec<u8> = Vec::new();
    mk_super(&mut log, 1, SS);
    push_u64(&mut log, 0);
    push_u64(&mut log, 1);
    push_u64(&mut log, 0);
    push_u64(&mut log, 512);
    log.extend_from_slice(&[0xAA; 16]);
    assert!(matches!(decode_entry(&log, SUPER_SIZE), Err(FormatError::TruncatedPayload)));
}

#[test]
fn entry_discard_with_payload() {
    let mut log: Vec<u8> = Vec::new();
    mk_super(&mut log, 1, SS);
    mk_entry(&mut log, 0, 1, LOG_DISCARD_FLAG, &[1, 2, 3, 4]);
    assert!(matches!(decode_entry(&log, SUPER_SIZE), Err(FormatError::DiscardWithPayload)));
}

#[test]
fn entry_bad_mark_text_missing_nul() {
    let mut log: Vec<u8> = Vec::new();
    mk_super(&mut log, 1, SS);
    mk_entry(&mut log, 0, 0, LOG_MARK_FLAG, b"AB");
    assert!(matches!(decode_entry(&log, SUPER_SIZE), Err(FormatError::BadMarkText)));
}

#[test]
fn entry_bad_mark_text_invalid_utf8() {
    let mut log: Vec<u8> = Vec::new();
    mk_super(&mut log, 1, SS);
    mk_entry(&mut log, 0, 0, LOG_MARK_FLAG, &[0xFF, 0xFE, 0]);
    assert!(matches!(decode_entry(&log, SUPER_SIZE), Err(FormatError::BadMarkText)));
}

#[test]
fn mark_name_decodes_through_utf8() {
    let mut log: Vec<u8> = Vec::new();
    mk_super(&mut log, 1, SS);
    mark_entry(&mut log, "h\u{e9}llo");
    let (entry, _) = decode_entry(&log, SUPER_SIZE).unwrap().unwrap();
    assert_eq!(entry.cmd, "h\u{e9}llo");
    assert_ne!(entry.cmd.as_bytes(), entry.data.as_slice());
}

#[test]
fn byte_range_is_exact() {
    let entry = LogWriteEntry {
        sector: 3,
        nr_sectors: 2,
        flags: 0,
        data: Vec::new(),
        cmd: String::new(),
    };
    assert_eq!(entry_byte_range(&entry, SS), Some((1536, 1024)));
}

#[test]
fn byte_range_overflow_is_rejected() {
    let entry = LogWriteEntry {
        sector: u64::MAX,
        nr_sectors: 1,
        flags: 0,
        data: Vec::new(),
        cmd: String::new(),
    };
    assert_eq!(entry_byte_range(&entry, SS), None);
}

#[test]
fn apply_writes_exact_range() {
    let mut image = vec![0u8; 1536];
    let entry = LogWriteEntry {
        sector: 1,
        nr_sectors: 1,
        flags: 0,
        data: vec![0xAB; 512],
        cmd: String::new(),
    };
    assert_eq!(apply_entry(&mut image, &entry, SS), Ok(false));
    assert!(image[..512].iter().all(|b| *b == 0));
    assert!(image[512..1024].iter().all(|b| *b == 0xAB));
    assert!(image[1024..].iter().all(|b| *b == 0));
}

#[test]
fn apply_discard_zeroes_range() {
    let mut image = vec![0x77u8; 1536];
    let entry = LogWriteEntry {
        sector: 1,
        nr_sectors: 2,
        flags: LOG_DISCARD_FLAG,
        data: Vec::new(),
        cmd: String::new(),
    };
    assert_eq!(apply_entry(&mut image, &entry, SS), Ok(false));
    assert!(image[..512].iter().all(|b| *b == 0x77));
    assert!(image[512..].iter().all(|b| *b == 0));
}

#[test]
fn apply_payload_size_mismatch() {
    let mut image = vec![0u8; 512];
    let entry = LogWriteEntry {
        sector: 0,
        nr_sectors: 1,
        flags: 0,
        data: vec![1, 2, 3],
        cmd: String::new(),
    };
    assert_eq!(apply_entry(&mut image, &entry, SS), Err(FormatError::PayloadSizeMismatch));
    assert!(image.iter().all(|b| *b == 0));
}

#[test]
fn apply_range_overflow() {
    let mut image = vec![0u8; 512];
    let entry = LogWriteEntry {
        sector: u64::MAX,
        nr_sectors: 1,
        flags: 0,
        data: vec![0u8; 512],
        cmd: String::new(),
    };
    assert_eq!(apply_entry(&mut image, &entry, SS), Err(FormatError::RangeOverflow));
}

#[test]
fn apply_metadata_write_still_applies() {
    let mut image = vec![0u8; 512];
    let entry = LogWriteEntry {
        sector: 0,
        nr_sectors: 1,
        flags: LOG_METADATA_FLAG,
        data: vec![0x11; 512],
        cmd: String::new(),
    };
    assert_eq!(apply_entry(&mut image, &entry, SS), Ok(false));
    assert!(image.iter().all(|b| *b == 0x11));
}

#[test]
fn apply_fua_reports_sync() {
    let mut image = vec![0u8; 512];
    let entry = LogWriteEntry {
        sector: 0,
        nr_sectors: 1,
        flags: LOG_FUA_FLAG,
        data: vec![0x22; 512],
        cmd: String::new(),
    };
    assert_eq!(apply_entry(&mut image, &entry, SS), Ok(true));
}

#[test]
fn write_range_extends_with_zeroes() {
    let mut image: Vec<u8> = vec![9, 9];
    let data = vec![5u8, 6];
    write_range(&mut image, 4, &data);
    assert_eq!(image, vec![9, 9, 0, 0, 5, 6]);
}

#[test]
fn zero_range_extends_and_clears() {
    let mut image: Vec<u8> = vec![7, 7, 7];
    zero_range(&mut image, 1, 4);
    assert_eq!(image, vec![7, 0, 0, 0, 0]);
}

#[test]
fn should_stop_matches_mark_name() {
    let entry = LogWriteEntry {
        sector: 0,
        nr_sectors: 0,
        flags: LOG_MARK_FLAG,
        data: b"A\0".to_vec(),
        cmd: String::from("A"),
    };
    assert_eq!(should_stop(&entry, LOG_MARK_FLAG, "A"), 1);
    assert_eq!(should_stop(&entry, LOG_MARK_FLAG, "B"), 0);
}

#[test]
fn should_stop_name_gates_non_mark_flags() {
    let entry = LogWriteEntry {
        sector: 0,
        nr_sectors: 1,
        flags: LOG_FLUSH_FLAG,
        data: Vec::new(),
        cmd: String::new(),
    };
    assert_eq!(should_stop(&entry, LOG_FLUSH_FLAG | LOG_MARK_FLAG, "A"), 0);
    assert_eq!(should_stop(&entry, LOG_FLUSH_FLAG, "A"), 1);
    assert_eq!(should_stop(&entry, LOG_FUA_FLAG, "A"), 0);
}

#[test]
fn should_run_fsck_requires_command_and_fua() {
    assert!(should_run_fsck(Some("fsck"), LOG_FUA_FLAG));
    assert!(should_run_fsck(Some("fsck"), LOG_FUA_FLAG | LOG_FLUSH_FLAG));
    assert!(!should_run_fsck(Some("fsck"), LOG_FLUSH_FLAG));
    assert!(!should_run_fsck(None, LOG_FUA_FLAG));
}

#[test]
fn str_eq_compares_contents() {
    assert!(str_eq("mark-a", "mark-a"));
    assert!(!str_eq("mark-a", "mark-b"));
    assert!(!str_eq("mark", "marker"));
    assert!(str_eq("", ""));
}

#[test]
fn replay_scenario_stops_at_mark() {
    let mut log: Vec<u8> = Vec::new();
    mk_super(&mut log, 5, SS);
    write_entry(&mut log, 0, 1, 0, 0xAA);
    mark_entry(&mut log, "A");
    write_entry(&mut log, 1, 1, 0, 0xBB);
    mk_entry(&mut log, 0, 0, LOG_MARK_FLAG | LOG_FUA_FLAG, b"barrier\0");
    write_entry(&mut log, 2, 1, 0, 0xCC);
    let mut image = vec![0u8; 1536];
    let mark = String::from("A");
    let r = replay_log(&log, &mut image, 0, LOG_MARK_FLAG, Some(&mark), false);
    assert_eq!(r.entries_applied, 2);
    assert_eq!(r.reason, StopReason::StopMark);
    assert!(image[..512].iter().all(|b| *b == 0xAA));
    assert!(image[512..].iter().all(|b| *b == 0));
}

#[test]
fn replay_limit_caps_applied_entries() {
    let mut log: Vec<u8> = Vec::new();
    mk_super(&mut log, 3, SS);
    write_entry(&mut log, 0, 1, 0, 0x01);
    write_entry(&mut log, 1, 1, 0, 0x02);
    write_entry(&mut log, 2, 1, 0, 0x03);
    let mark = String::from("never");

    let mut limited = vec![0u8; 1536];
    let r1 = replay_log(&log, &mut limited, 2, LOG_MARK_FLAG, Some(&mark), false);
    assert_eq!(r1.entries_applied, 2);
    assert_eq!(r1.reason, StopReason::LimitReached);
    assert!(limited[1024..].iter().all(|b| *b == 0));

    let mut unlimited = vec![0u8; 1536];
    let r0 = replay_log(&log, &mut unlimited, 0, LOG_MARK_FLAG, Some(&mark), false);
    assert_eq!(r0.entries_applied, 3);
    assert_eq!(r0.reason, StopReason::EndOfLog);

    let mut high = vec![0u8; 1536];
    let r9 = replay_log(&log, &mut high, 9, LOG_MARK_FLAG, Some(&mark), false);
    assert_eq!(r9.entries_applied, 3);
    assert_eq!(r9.reason, StopReason::EndOfLog);
    assert_eq!(high, unlimited);
}

#[test]
fn replay_without_marks_reaches_end_of_log() {
    let mut log: Vec<u8> = Vec::new();
    mk_super(&mut log, 2, SS);
    write_entry(&mut log, 0, 1, 0, 0x10);
    write_entry(&mut log, 1, 1, LOG_FLUSH_FLAG, 0x20);
    let mut image = vec![0u8; 1024];
    let mark = String::from("absent");
    let r = replay_log(&log, &mut image, 0, LOG_MARK_FLAG, Some(&mark), false);
    assert_eq!(r.reason, StopReason::EndOfLog);
    assert_eq!(r.entries_applied, 2);
}

#[test]
fn replay_is_idempotent_on_fresh_targets() {
    let mut log: Vec<u8> = Vec::new();
    mk_super(&mut log, 4, SS);
    write_entry(&mut log, 0, 2, 0, 0x41);
    mk_entry(&mut log, 1, 1, LOG_DISCARD_FLAG, &[]);
    write_entry(&mut log, 2, 1, LOG_FUA_FLAG, 0x42);
    mark_entry(&mut log, "done");
    let mark = String::from("done");

    let mut a = vec![0u8; 2048];
    let mut b = vec![0u8; 2048];
    let ra = replay_log(&log, &mut a, 0, LOG_MARK_FLAG, Some(&mark), false);
    let rb = replay_log(&log, &mut b, 0, LOG_MARK_FLAG, Some(&mark), false);
    assert_eq!(a, b);
    assert_eq!(ra.entries_applied, rb.entries_applied);
    assert_eq!(ra.reason, rb.reason);
}

#[test]
fn replay_records_check_points_at_fua() {
    let mut log: Vec<u8> = Vec::new();
    mk_super(&mut log, 3, SS);
    write_entry(&mut log, 0, 1, 0, 0x01);
    write_entry(&mut log, 1, 1, LOG_FUA_FLAG, 0x02);
    write_entry(&mut log, 2, 1, 0, 0x03);
    let mut image = vec![0u8; 1536];
    let mark = String::from("none");
    let r = replay_log(&log, &mut image, 0, LOG_MARK_FLAG, Some(&mark), true);
    assert_eq!(r.checks, vec![1]);

    let mut without = vec![0u8; 1536];
    let r2 = replay_log(&log, &mut without, 0, LOG_MARK_FLAG, Some(&mark), false);
    assert_eq!(r2.checks, Vec::<u64>::new());
}

#[test]
fn replay_truncated_header_fails_cleanly() {
    let mut log: Vec<u8> = Vec::new();
    mk_super(&mut log, 2, SS);
    write_entry(&mut log, 0, 1, 0, 0x55);
    log.extend_from_slice(&[1, 2, 3]);
    let mut image = vec![0u8; 1024];
    let mark = String::from("x");
    let r = replay_log(&log, &mut image, 0, LOG_MARK_FLAG, Some(&mark), false);
    assert_eq!(r.reason, StopReason::Failed(FormatError::TruncatedHeader));
    assert_eq!(r.entries_applied, 1);
    assert!(image[..512].iter().all(|b| *b == 0x55));
    assert!(image[512..].iter().all(|b| *b == 0));
}

#[test]
fn replay_payload_past_eof_fails_cleanly() {
    let mut log: Vec<u8> = Vec::new();
    mk_super(&mut log, 1, SS);
    push_u64(&mut log, 0);
    push_u64(&mut log, 4);
    push_u64(&mut log, 0);
    push_u64(&mut log, 2048);
    log.extend_from_slice(&[0xEE; 100]);
    let mut image = vec![0u8; 2048];
    let mark = String::from("x");
    let r = replay_log(&log, &mut image, 0, LOG_MARK_FLAG, Some(&mark), false);
    assert_eq!(r.reason, StopReason::Failed(FormatError::TruncatedPayload));
    assert_eq!(r.entries_applied, 0);
    assert!(image.iter().all(|b| *b == 0));
}

#[test]
fn replay_first_mark_occurrence_wins() {
    let mut log: Vec<u8> = Vec::new();
    mk_super(&mut log, 4, SS);
    write_entry(&mut log, 0, 1, 0, 0x0A);
    mark_entry(&mut log, "M");
    write_entry(&mut log, 1, 1, 0, 0x0B);
    mark_entry(&mut log, "M");
    let mut image = vec![0u8; 1024];
    let mark = String::from("M");
    let r = replay_log(&log, &mut image, 0, LOG_MARK_FLAG, Some(&mark), false);
    assert_eq!(r.entries_applied, 2);
    assert_eq!(r.reason, StopReason::StopMark);
    assert!(image[512..].iter().all(|b| *b == 0));
}

#[test]
fn replay_bad_super_applies_nothing() {
    let log = vec![0u8; 16];
    let mut image = vec![3u8; 64];
    let r = replay_log(&log, &mut image, 0, LOG_MARK_FLAG, None, false);
    assert_eq!(r.reason, StopReason::Failed(FormatError::TruncatedSuper));
    assert_eq!(r.entries_applied, 0);
    assert_eq!(image, vec![3u8; 64]);
}

#[test]
fn classification_follows_flags() {
    let write = LogWriteEntry {
        sector: 0,
        nr_sectors: 1,
        flags: 0,
        data: vec![0; 512],
        cmd: String::new(),
    };
    assert!(write.is_write());
    assert!(!write.is_discard());
    assert!(!write.is_mark());
    assert!(!write.requires_sync_before());

    let discard = LogWriteEntry {
        sector: 0,
        nr_sectors: 1,
        flags: LOG_DISCARD_FLAG,
        data: Vec::new(),
        cmd: String::new(),
    };
    assert!(!discard.is_write());
    assert!(discard.is_discard());

    let mark = LogWriteEntry {
        sector: 0,
        nr_sectors: 0,
        flags: LOG_MARK_FLAG,
        data: b"m\0".to_vec(),
        cmd: String::from("m"),
    };
    assert!(!mark.is_write());
    assert!(mark.is_mark());

    let barrier = LogWriteEntry {
        sector: 0,
        nr_sectors: 0,
        flags: LOG_FLUSH_FLAG,
        data: Vec::new(),
        cmd: String::new(),
    };
    assert!(barrier.requires_sync_before());
    let meta = LogWriteEntry {
        sector: 0,
        nr_sectors: 0,
        flags: LOG_METADATA_FLAG,
        data: Vec::new(),
        cmd: String::new(),
    };
    assert!(meta.is_metadata());
}

#[test]
fn replay_limit_takes_precedence_over_stop() {
    let mut log: Vec<u8> = Vec::new();
    mk_super(&mut log, 2, SS);
    write_entry(&mut log, 0, 1, 0, 0x31);
    mark_entry(&mut log, "both");
    let mark = String::from("both");
    let mut image = vec![0u8; 512];
    let r = replay_log(&log, &mut image, 2, LOG_MARK_FLAG, Some(&mark), false);
    assert_eq!(r.entries_applied, 2);
    assert_eq!(r.reason, StopReason::LimitReached);
}

#[test]
fn fua_mark_demands_sync_but_writes_nothing() {
    let mut image = vec![0u8; 512];
    let entry = LogWriteEntry {
        sector: 0,
        nr_sectors: 0,
        flags: LOG_MARK_FLAG | LOG_FUA_FLAG,
        data: b"barrier\0".to_vec(),
        cmd: String::from("barrier"),
    };
    assert_eq!(apply_entry(&mut image, &entry, SS), Ok(true));
    assert!(image.iter().all(|b| *b == 0));
}
