use miassistant_core::adb::ADB_CLSE;
use miassistant_core::adb::ADB_OKAY;
use miassistant_core::adb::ADB_WRTE;
use miassistant_core::errors::Error;
use miassistant_core::sideload::encode_journal;
use miassistant_core::sideload::open_payload;
use miassistant_core::sideload::parse_journal;
use miassistant_core::sideload::resume_start_block;
use miassistant_core::sideload::state_path;
use miassistant_core::sideload::SideloadAction;
use miassistant_core::sideload::SideloadDriver;
use miassistant_core::sideload::SideloadState;
use miassistant_core::sideload::SIDELOAD_CHUNK;

fn wrte(driver: &mut SideloadDriver, text: &[u8]) -> Result<SideloadAction, Error> {
    driver.on_frame(ADB_WRTE, 11, 22, text)
}

#[test]
fn blocks_in_order_with_repeat() {
    // 200000-byte payload, blocks 0..3 requested in order, block 2 repeated,
    // then a completion message: exactly five writes with these offsets and
    // sizes.
    let size: u64 = 200000;
    let mut d = SideloadDriver::new(size, 0);
    let mut writes: Vec<(u64, u64)> = Vec::new();
    for req in [b"0" as &[u8], b"1", b"2", b"3", b"2"] {
        match wrte(&mut d, req).unwrap() {
            SideloadAction::SendBlock { offset, len, .. } => writes.push((offset, len)),
            other => panic!("expected a write, got {:?}", other),
        }
    }
    assert_eq!(
        writes,
        vec![
            (0, 65536),
            (65536, 65536),
            (131072, 65536),
            (196608, 3392),
            (131072, 65536),
        ]
    );
    let done = wrte(&mut d, b"complete\n").unwrap();
    assert_eq!(done, SideloadAction::Finish);
    assert!(d.finished);
}

#[test]
fn stale_block_below_start_is_ignored() {
    // A block index below start_block yields no write at all.
    let mut d = SideloadDriver::new(1_000_000, 3);
    assert_eq!(wrte(&mut d, b"0").unwrap(), SideloadAction::Ignore);
    assert_eq!(wrte(&mut d, b"2").unwrap(), SideloadAction::Ignore);
    match wrte(&mut d, b"3").unwrap() {
        SideloadAction::SendBlock { offset, .. } => assert_eq!(offset, 3 * SIDELOAD_CHUNK),
        other => panic!("expected a write, got {:?}", other),
    }
}

#[test]
fn long_payload_terminates_loop() {
    // A payload of more than eight bytes is a textual completion message.
    let mut d = SideloadDriver::new(1_000_000, 0);
    assert_eq!(wrte(&mut d, b"finished!\n").unwrap(), SideloadAction::Finish);
    assert!(d.finished);
}

#[test]
fn interleaved_okay_is_echoed() {
    let mut d = SideloadDriver::new(1_000_000, 0);
    let act = d.on_frame(ADB_OKAY, 5, 6, &[]).unwrap();
    assert_eq!(act, SideloadAction::SendOkay { arg0: 6, arg1: 5 });
    // Unknown commands are tolerated and dropped.
    let act = d.on_frame(ADB_CLSE, 5, 6, &[]).unwrap();
    assert_eq!(act, SideloadAction::Ignore);
}

#[test]
fn non_numeric_block_is_protocol_error() {
    let mut d = SideloadDriver::new(1_000_000, 0);
    match wrte(&mut d, b"12ab") {
        Err(Error::Protocol(_)) => {}
        other => panic!("expected a protocol error, got {:?}", other),
    }
    let mut d = SideloadDriver::new(1_000_000, 0);
    match wrte(&mut d, b"") {
        Err(Error::Protocol(_)) => {}
        other => panic!("expected a protocol error, got {:?}", other),
    }
}

#[test]
fn block_number_is_trimmed_before_parsing() {
    let mut d = SideloadDriver::new(1_000_000, 0);
    match wrte(&mut d, b" 7 \n").unwrap() {
        SideloadAction::SendBlock { offset, .. } => assert_eq!(offset, 7 * SIDELOAD_CHUNK),
        other => panic!("expected a write, got {:?}", other),
    }
    match wrte(&mut d, b"+8").unwrap() {
        SideloadAction::SendBlock { offset, .. } => assert_eq!(offset, 8 * SIDELOAD_CHUNK),
        other => panic!("expected a write, got {:?}", other),
    }
}

#[test]
fn largest_block_number_is_handled() {
    // Eight digits is the largest block request that is still a number;
    // far past the end of any file here, so the transfer completes.
    let mut d = SideloadDriver::new(u64::MAX, 0);
    match wrte(&mut d, b"99999999").unwrap() {
        SideloadAction::SendBlock { offset, len, .. } => {
            assert_eq!(offset, 99_999_999 * SIDELOAD_CHUNK);
            assert_eq!(len, SIDELOAD_CHUNK);
        }
        other => panic!("expected a write, got {:?}", other),
    }
    let mut d = SideloadDriver::new(1_000, 0);
    assert_eq!(wrte(&mut d, b"99999999").unwrap(), SideloadAction::Finish);
}

#[test]
fn cancel_after_three_blocks_persists_progress() {
    // Flash three blocks, then cancel: the journal must hold the file size
    // and a last block of at least 2.
    let size: u64 = 16 * SIDELOAD_CHUNK;
    let mut d = SideloadDriver::new(size, 0);
    for req in [b"0" as &[u8], b"1", b"2"] {
        match wrte(&mut d, req).unwrap() {
            SideloadAction::SendBlock { .. } => {}
            other => panic!("expected a write, got {:?}", other),
        }
    }
    let journal = d.journal_record("rom.zip");
    assert_eq!(journal.file, "rom.zip");
    assert_eq!(journal.size, size);
    assert!(journal.last_block >= 2);
}

#[test]
fn resume_open_payload_names_next_block() {
    // After a matching journal with last_block 2, the next run opens at 3.
    let size: u64 = 200000;
    let journal = Some(SideloadState { file: "rom.zip".to_string(), size, last_block: 2 });
    let start = resume_start_block(true, &journal, size);
    assert_eq!(start, 3);
    let payload = open_payload(size, "TOKEN", start);
    assert_eq!(payload, b"sideload-host:200000:65536:TOKEN:3\0".to_vec());
}

#[test]
fn changed_file_size_restarts_from_zero() {
    let journal = Some(SideloadState { file: "rom.zip".to_string(), size: 100, last_block: 7 });
    assert_eq!(resume_start_block(true, &journal, 200), 0);
    // Resume not requested: the journal is ignored too.
    assert_eq!(resume_start_block(false, &journal, 100), 0);
    // Nothing acknowledged yet means start from zero.
    let fresh = Some(SideloadState { file: "rom.zip".to_string(), size: 100, last_block: -1 });
    assert_eq!(resume_start_block(true, &fresh, 100), 0);
    assert_eq!(resume_start_block(true, &None, 100), 0);
}

#[test]
fn sixteen_block_happy_path() {
    // Sixteen full blocks, then a completion message: every block served,
    // journal flushes asked for on blocks 0 and 16k-multiples only.
    let size: u64 = 16 * SIDELOAD_CHUNK;
    let mut d = SideloadDriver::new(size, 0);
    for i in 0..16u64 {
        let req = i.to_string().into_bytes();
        match wrte(&mut d, &req).unwrap() {
            SideloadAction::SendBlock { offset, len, flush, .. } => {
                assert_eq!(offset, i * SIDELOAD_CHUNK);
                assert_eq!(len, SIDELOAD_CHUNK);
                assert_eq!(flush, i % 16 == 0);
            }
            other => panic!("expected a write, got {:?}", other),
        }
    }
    assert_eq!(d.last_block, 15);
    assert_eq!(wrte(&mut d, b"complete!!").unwrap(), SideloadAction::Finish);
}

#[test]
fn cancel_and_resume_after_block_eight() {
    // First run: cancel after block 8 is acknowledged; the journal says so.
    let size: u64 = 16 * SIDELOAD_CHUNK;
    let mut d = SideloadDriver::new(size, 0);
    for i in 0..9u64 {
        let req = i.to_string().into_bytes();
        assert!(matches!(
            wrte(&mut d, &req).unwrap(),
            SideloadAction::SendBlock { .. }
        ));
    }
    let journal = d.journal_record("rom.zip");
    assert_eq!(journal.last_block, 8);
    // Second run resumes at block 9 and completes.
    let start = resume_start_block(true, &Some(journal), size);
    assert_eq!(start, 9);
    let payload = open_payload(size, "T", start);
    assert!(payload.ends_with(b":9\0"));
    let mut d2 = SideloadDriver::new(size, start);
    for i in 9..16u64 {
        let req = i.to_string().into_bytes();
        assert!(matches!(
            wrte(&mut d2, &req).unwrap(),
            SideloadAction::SendBlock { .. }
        ));
    }
    assert_eq!(wrte(&mut d2, b"complete!!").unwrap(), SideloadAction::Finish);
}

#[test]
fn request_past_end_finishes() {
    let size: u64 = 100;
    let mut d = SideloadDriver::new(size, 0);
    // Block 1 starts at 65536 > 100.
    assert_eq!(wrte(&mut d, b"1").unwrap(), SideloadAction::Finish);
}

#[test]
fn journal_roundtrip_with_awkward_path() {
    let st = SideloadState {
        file: "dir \"x\"\\roms\nrom\t1.zip".to_string(),
        size: 123456789,
        last_block: -1,
    };
    let bytes = encode_journal(&st);
    let back = parse_journal(&bytes).unwrap();
    assert_eq!(back, st);
}

#[test]
fn journal_bytes_are_canonical_json() {
    let st = SideloadState { file: "rom.zip".to_string(), size: 200000, last_block: 8 };
    let bytes = encode_journal(&st);
    assert_eq!(
        bytes,
        b"{\"file\":\"rom.zip\",\"size\":200000,\"last_block\":8}".to_vec()
    );
    let back = parse_journal(&bytes).unwrap();
    assert_eq!(back, st);
    // serde also reads it, so other tooling sees ordinary JSON.
    let v: serde_json::Value = serde_json::from_slice(&bytes).unwrap();
    assert_eq!(v.get("size").unwrap().as_u64(), Some(200000));
    assert_eq!(v.get("last_block").unwrap().as_i64(), Some(8));
    assert_eq!(v.get("file").unwrap().as_str(), Some("rom.zip"));
}

#[test]
fn garbage_is_no_journal() {
    assert!(parse_journal(b"").is_none());
    assert!(parse_journal(b"{}").is_none());
    assert!(parse_journal(b"{\"file\":\"x\",\"size\":1,\"last_block\":}").is_none());
    assert!(parse_journal(b"{\"file\":\"x\",\"size\":nine,\"last_block\":0}").is_none());
    assert!(parse_journal(b"{\"file\":\"x\",\"size\":1,\"last_block\":0} ").is_none());
}

#[test]
fn state_path_appends_suffix() {
    assert_eq!(state_path("rom.zip"), "rom.zip.sideload.state".to_string());
}
