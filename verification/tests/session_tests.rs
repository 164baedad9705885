use miassistant_core::adb::connect_reply;
use miassistant_core::adb::connect_request;
use miassistant_core::adb::AdbPacket;
use miassistant_core::adb::SessionAction;
use miassistant_core::adb::SimpleCommandSession;
use miassistant_core::adb::ADB_CLSE;
use miassistant_core::adb::ADB_CONNECT;
use miassistant_core::adb::ADB_MAX_DATA;
use miassistant_core::adb::ADB_OKAY;
use miassistant_core::adb::ADB_OPEN;
use miassistant_core::adb::ADB_WRTE;
use miassistant_core::device::probe_query;
use miassistant_core::device::DeviceInfo;
use miassistant_core::errors::Error;

#[test]
fn simple_command_okay_then_write() {
    // Scripted device: OKAY, WRTE("hello\n"), CLSE.
    let (mut session, open, payload) = SimpleCommandSession::start("getdevice:");
    assert_eq!(open.cmd, ADB_OPEN);
    assert_eq!(open.arg0, 1);
    assert_eq!(open.arg1, 0);
    assert_eq!(open.len, 10);
    assert_eq!(payload, b"getdevice:".to_vec());

    let okay = AdbPacket::new(ADB_OKAY, 7, 1, 0);
    let a1 = session.on_frame(&okay, &[]);
    assert_eq!(a1, SessionAction::Recv);

    let wrte = AdbPacket::new(ADB_WRTE, 7, 1, 6);
    let a2 = session.on_frame(&wrte, b"hello\n");
    // The echo uses the first frame's args, swapped.
    assert_eq!(a2, SessionAction::SendOkayThenRecv { arg0: 1, arg1: 7 });

    let clse = AdbPacket::new(ADB_CLSE, 7, 1, 0);
    let a3 = session.on_frame(&clse, &[]);
    assert_eq!(a3, SessionAction::Finished);

    assert_eq!(session.finish(), "hello".to_string());
}

#[test]
fn simple_command_direct_write() {
    // A device may answer with the data frame straight away.
    let (mut session, _open, _payload) = SimpleCommandSession::start("getversion:");
    let wrte = AdbPacket::new(ADB_WRTE, 3, 9, 4);
    let a1 = session.on_frame(&wrte, b"V14 ");
    assert_eq!(a1, SessionAction::SendOkayThenRecv { arg0: 9, arg1: 3 });
    let clse = AdbPacket::new(ADB_CLSE, 3, 9, 0);
    assert_eq!(session.on_frame(&clse, &[]), SessionAction::Finished);
    assert_eq!(session.finish(), "V14".to_string());
}

#[test]
fn connect_request_shape() {
    let (pkt, banner) = connect_request();
    assert_eq!(pkt.cmd, ADB_CONNECT);
    assert_eq!(pkt.arg0, 0x01000001);
    assert_eq!(pkt.arg1, ADB_MAX_DATA);
    assert_eq!(pkt.len, 7);
    assert_eq!(banner, b"host::\0".to_vec());
}

#[test]
fn connect_reply_banner() {
    let reply = AdbPacket::new(ADB_CONNECT, 0x01000001, ADB_MAX_DATA, 9);
    let banner = connect_reply(&reply, b"recovery:").unwrap();
    assert_eq!(banner, "recovery:".to_string());
}

#[test]
fn connect_reply_wrong_command() {
    let reply = AdbPacket::new(ADB_OKAY, 0, 0, 0);
    match connect_reply(&reply, &[]) {
        Err(Error::Protocol(m)) => {
            assert_eq!(m, "Expected CNXN reply, got 59414b4f".to_string());
        }
        _ => panic!("expected a protocol error"),
    }
}

#[test]
fn probe_populates_every_field() {
    // The mock answers each of the eight queries with a distinct string.
    let queries: Vec<&str> = (0..8).map(probe_query).collect();
    assert_eq!(
        queries,
        vec![
            "getdevice:",
            "getversion:",
            "getsn:",
            "getcodebase:",
            "getbranch:",
            "getlanguage:",
            "getregion:",
            "getromzone:",
        ]
    );
    let mut info = DeviceInfo::default();
    for i in 0..8 {
        let mut reply = String::from("reply-");
        reply.push_str(&i.to_string());
        info.set_probe_reply(i, reply);
    }
    assert_eq!(info.device, "reply-0");
    assert_eq!(info.version, "reply-1");
    assert_eq!(info.sn, "reply-2");
    assert_eq!(info.codebase, "reply-3");
    assert_eq!(info.branch, "reply-4");
    assert_eq!(info.language, "reply-5");
    assert_eq!(info.region, "reply-6");
    assert_eq!(info.romzone, "reply-7");
}

#[test]
fn probe_replies_assemble_in_order() {
    let replies: Vec<String> = vec![
        "venus".to_string(),
        "V14".to_string(),
        "SN1".to_string(),
        "13".to_string(),
        "F".to_string(),
        "en-US".to_string(),
        "GLOBAL".to_string(),
        "2".to_string(),
    ];
    let info = DeviceInfo::from_probe_replies(&replies);
    assert_eq!(info.device, "venus");
    assert_eq!(info.version, "V14");
    assert_eq!(info.sn, "SN1");
    assert_eq!(info.codebase, "13");
    assert_eq!(info.branch, "F");
    assert_eq!(info.language, "en-US");
    assert_eq!(info.region, "GLOBAL");
    assert_eq!(info.romzone, "2");
}

#[test]
fn unknown_device_info() {
    let info = DeviceInfo::unknown();
    assert_eq!(info.device, "unknown");
    assert_eq!(info.romzone, "unknown");
    let blank = DeviceInfo::default();
    assert_eq!(blank.device, "");
    assert_eq!(blank.language, "");
}
