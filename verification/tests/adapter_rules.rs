use rustycan::adapters::apex::protocol::{decode_frame, encode_frame, take_frames, DataRecord};
use rustycan::adapters::apex::{
    after_read_failure, apex_to_can_frame, can_frame_to_bytes, find_socketcan_interface,
    session_mode, session_timing, NetInterface, ReadFailure, ReaderStep,
};
use rustycan::adapters::kcan::{
    can_frame_to_kcan, next_seq, receive, take_records, DeviceInfo, KCanFrame, KCanFrameKind,
    KCanOpen, KCanReceived, OpenAction, OpenEvent,
};
use rustycan::adapters::kcan::{ReadFailure as KCanReadFailure, ReaderStep as KCanReaderStep};
use rustycan::adapters::kcan_net::{
    after_net_read, bad_uri, check_device_key, decode_base64url_32, lan_name, parse_k1_uri, K1Uri,
    NetRead, NetStep,
};
use rustycan::adapters::peak::{after_send_failure, receive_error, SendStep};
use rustycan::adapters::registry::{
    availability, lock_owner, AdapterAvailability, AdapterParams, AdapterRegistry, AnyFactory,
    BuiltinFactory, CanAdapterFactory, OwnFactory,
};
use rustycan::adapters::socketcan::{
    can_interfaces, check_interface, InterfaceState, SocketRead,
};
use rustycan::adapters::usb::{select_device, UsbFamily, UsbIdentity};
use rustycan::adapters::{
    open_adapter, probe_adapter_kind, summit_open_error, AdapterError, AdapterKind, Backend,
    Presence,
};
use rustycan::frame::{CanFrame, Id};

fn frame(id: Id, data: &[u8]) -> CanFrame {
    CanFrame::new(id, data).unwrap()
}

#[test]
fn frames_hold_at_most_eight_bytes() {
    assert!(CanFrame::new(Id::standard(0x123).unwrap(), &[0; 9]).is_none());
    assert!(Id::standard(0x800).is_none());
    assert!(Id::extended(0x2000_0000).is_none());
    assert_eq!(frame(Id::extended(0x1FFF_FFFF).unwrap(), &[1]).dlc(), 1);
}

#[test]
fn backends_depend_on_the_platform() {
    assert!(matches!(
        open_adapter(&AdapterKind::Summit, "1", false, None),
        Ok(Backend::Summit { .. })
    ));
    assert!(matches!(
        open_adapter(&AdapterKind::Summit, "1", true, None),
        Err(AdapterError::NotFound(_))
    ));
    assert!(matches!(
        open_adapter(&AdapterKind::SocketCan, "can0", true, None),
        Ok(Backend::SocketCan { ref interface }) if interface == "can0"
    ));
    assert!(open_adapter(&AdapterKind::SocketCan, "can0", false, None).is_err());
    let apex = AdapterKind::Apex { serial: None };
    assert!(matches!(
        open_adapter(&apex, "", true, Some("can1".to_string())),
        Ok(Backend::SocketCan { .. })
    ));
    assert!(matches!(
        open_adapter(&apex, "", true, None),
        Ok(Backend::Apex { .. })
    ));
    let none = Presence {
        summit: false,
        kcan: false,
        socketcan: false,
        apex_interface: false,
        apex: false,
        kcan_net: false,
    };
    assert!(!probe_adapter_kind(&AdapterKind::KCan { serial: None }, true, &none));
    let kcan = Presence { kcan: true, ..none };
    assert!(probe_adapter_kind(&AdapterKind::KCan { serial: None }, true, &kcan));
}

#[test]
fn kcan_frames_are_reported_with_their_own_echo() {
    assert!(AdapterKind::KCan { serial: None }.echoes_tx());
    assert!(!AdapterKind::Summit.echoes_tx());
}

#[test]
fn missing_drivers_are_explained() {
    let e = summit_open_error("dlopen(libPCBUSB.dylib) failed");
    assert!(e.display().contains("Summit driver library not found"));
    let e = summit_open_error("no such channel");
    assert!(!e.display().contains("driver library"));
}

#[test]
fn apex_frames_survive_the_wire() {
    for (id, data) in [
        (Id::standard(0x7FF).unwrap(), vec![1u8, 2, 3]),
        (Id::extended(0x1ABC_DEF0).unwrap(), vec![9u8; 8]),
        (Id::standard(0).unwrap(), vec![]),
    ] {
        let f = frame(id, &data);
        let bytes = can_frame_to_bytes(&f);
        let DataRecord::Frame(a) = decode_frame(&bytes) else {
            panic!("expected a frame");
        };
        let back = apex_to_can_frame(&a).unwrap();
        assert_eq!(back.id().raw(), f.id().raw());
        assert_eq!(back.data(), &data[..]);
    }
}

#[test]
fn apex_stream_may_be_cut_anywhere() {
    let a = can_frame_to_bytes(&frame(Id::standard(0x123).unwrap(), &[1, 2]));
    let b = can_frame_to_bytes(&frame(Id::standard(0x124).unwrap(), &[3]));
    let stream = [a, b].concat();
    for cut in 0..stream.len() {
        let mut pending = Vec::new();
        let mut got = take_frames(&mut pending, &stream[..cut]);
        got.extend(take_frames(&mut pending, &stream[cut..]));
        assert_eq!(got.len(), 2);
        assert_eq!(got[0].id, 0x123);
        assert_eq!(got[1].id, 0x124);
        assert!(pending.is_empty());
    }
}

#[test]
fn apex_sessions_need_a_standard_rate() {
    assert!(session_timing(250_000).is_ok());
    let e = session_timing(33_333).unwrap_err();
    assert!(e.display().contains("unsupported bitrate 33333"));
    assert_ne!(session_mode(true), session_mode(false));
    assert!(matches!(
        after_read_failure(ReadFailure::Disconnected),
        ReaderStep::Stop("__disconnected__")
    ));
    assert!(matches!(
        after_read_failure(ReadFailure::Stall { cleared: false }),
        ReaderStep::Stop(_)
    ));
}

#[test]
fn kernel_interfaces_are_matched_by_serial() {
    let list = vec![
        NetInterface {
            name: "eth0".to_string(),
            kind: Some("1\n".to_string()),
            usb: None,
        },
        NetInterface {
            name: "can0".to_string(),
            kind: Some("280\n".to_string()),
            usb: Some(("0878\n".to_string(), Some("S1\n".to_string()))),
        },
    ];
    assert_eq!(find_socketcan_interface(&list, None), Some(1));
    assert_eq!(find_socketcan_interface(&list, Some("S1")), Some(1));
    assert_eq!(find_socketcan_interface(&list, Some("S2")), None);
}

#[test]
fn kcan_records_may_be_cut_anywhere() {
    let stream: Vec<u8> = (0..200u8).collect();
    for cut in 0..stream.len() {
        let mut pending = Vec::new();
        let mut got = take_records(&mut pending, &stream[..cut]);
        got.extend(take_records(&mut pending, &stream[cut..]));
        assert_eq!(got.len(), 2);
        assert_eq!(got[0], &stream[..80]);
        assert_eq!(got[1], &stream[80..160]);
        assert_eq!(pending, &stream[160..]);
    }
}

#[test]
fn kcan_read_failures_are_told_apart() {
    use_failure(KCanReadFailure::Disconnected, Some("__disconnected__"));
    use_failure(KCanReadFailure::Stall { cleared: true }, None);
    use_failure(
        KCanReadFailure::Stall { cleared: false },
        Some("bulk-in stall, clear_halt failed"),
    );
    use_failure(KCanReadFailure::Transient, None);
    use_failure(
        KCanReadFailure::Fatal("Fault".to_string()),
        Some("bulk-in fatal: Fault"),
    );
}

fn use_failure(failure: KCanReadFailure, reason: Option<&str>) {
    match (rustycan::adapters::kcan::after_read_failure(failure), reason) {
        (KCanReaderStep::Stop(s), Some(r)) => assert_eq!(s, r),
        (KCanReaderStep::Pause, None) | (KCanReaderStep::Resync, None) => {}
        (step, _) => panic!("unexpected {step:?}"),
    }
}

#[test]
fn apex_remote_frames_survive_the_wire() {
    let out = encode_frame(0x123, false, true, 5, &[]);
    let DataRecord::Frame(f) = decode_frame(&out) else {
        panic!("expected a frame");
    };
    assert!(f.rtr && !f.extended);
    assert_eq!((f.id, f.dlc, f.data), (0x123, 5, [0; 8]));
    // longer lengths are cut to eight, and missing data is zero
    let out = encode_frame(0x123, false, false, 12, &[1, 2, 3]);
    let DataRecord::Frame(f) = decode_frame(&out) else {
        panic!("expected a frame");
    };
    assert_eq!((f.dlc, f.data), (8, [1, 2, 3, 0, 0, 0, 0, 0]));
}

#[test]
fn kcan_frames_carry_their_time() {
    let kf = KCanFrame {
        kind: KCanFrameKind::TxEcho,
        extended: false,
        remote: false,
        can_id: 0x181,
        dlc: 2,
        data: [7, 8, 0, 0, 0, 0, 0, 0],
        timestamp_100ns: 25,
        channel: 1,
    };
    let KCanReceived::Frame(r) = receive(&kf, "bad") else {
        panic!("expected a frame");
    };
    assert_eq!(r.frame.data(), &[7, 8]);
    assert_eq!(r.hardware_timestamp_ns, Some(2500));
    assert!(r.is_tx_echo);
    assert_eq!(r.channel, 1);
    let out = can_frame_to_kcan(&r.frame, 9);
    assert_eq!((out.can_id, out.dlc, out.seq), (0x181, 2, 9));
    let mut counter = u16::MAX;
    assert_eq!(next_seq(&mut counter), u16::MAX);
    assert_eq!(counter, 0);
}

#[test]
fn kcan_dongle_is_opened_step_by_step() {
    let info = DeviceInfo {
        protocol_version: 1,
        fw_major: 1,
        fw_minor: 2,
        fw_patch: 3,
        uid_lo: 0xAB,
    };
    let (mut open, a) = KCanOpen::start(250_000, true);
    assert!(matches!(a, OpenAction::GetInfo));
    let a = open.step(OpenEvent::Info(Ok((12, info))));
    assert!(matches!(a, OpenAction::GetBtConst));
    let a = open.step(OpenEvent::BtConst(Ok((32, 80_000_000))));
    assert!(matches!(
        a,
        OpenAction::ComputeTiming {
            clock_hz: 80_000_000,
            baud: 250_000
        }
    ));
    let a = open.step(OpenEvent::Timing(true));
    assert!(matches!(a, OpenAction::SetBitTiming));
    let a = open.step(OpenEvent::Written(Ok(())));
    assert!(matches!(a, OpenAction::SetMode { listen_only: true }));
    let OpenAction::Ready { name, fw_version } = open.step(OpenEvent::Written(Ok(()))) else {
        panic!("expected the dongle to be ready");
    };
    assert!(name.starts_with("KCAN Dongle v1.2.3"));
    assert_eq!(fw_version, (1, 2, 3));
}

#[test]
fn kcan_dongle_of_another_protocol_is_refused() {
    let info = DeviceInfo {
        protocol_version: 2,
        fw_major: 0,
        fw_minor: 0,
        fw_patch: 0,
        uid_lo: 0,
    };
    let (mut open, _) = KCanOpen::start(250_000, false);
    let OpenAction::Fail(e) = open.step(OpenEvent::Info(Ok((12, info)))) else {
        panic!("expected a failure");
    };
    assert!(e
        .display()
        .contains("KCAN protocol v2 unsupported (host supports v1)"));
}

#[test]
fn network_addresses_are_named() {
    assert_eq!(lan_name(&[192, 168, 3, 178]).contains("192.168.3.178"), true);
    assert!(bad_uri("x").display().contains("x"));
    assert!(check_device_key(&[1; 32], &[1; 32]).is_ok());
    assert!(check_device_key(&[1; 32], &[2; 32]).is_err());
    assert!(matches!(after_net_read(100, NetRead::Bytes(8)), NetStep::Decrypt));
    assert!(matches!(after_net_read(0, NetRead::Bytes(8)), NetStep::Read(8)));
    assert!(matches!(after_net_read(0, NetRead::Bytes(0)), NetStep::Stop(_)));
}

#[test]
fn the_key_of_an_address_is_decoded() {
    let K1Uri::Lan { device_pk, .. } =
        parse_k1_uri("K1:C0A803B2/AAECAwQFBgcICQoLDA0ODxAREhMUFRYXGBkaGxwdHh8").unwrap()
    else {
        panic!("expected a local address");
    };
    let expected: Vec<u8> = (0..32).collect();
    assert_eq!(device_pk.to_vec(), expected);
    assert_eq!(decode_base64url_32(&[b'A'; 43]), Some([0; 32]));
    assert_eq!(decode_base64url_32(&[b'A'; 42]), None);
}

#[test]
fn devices_are_selected_by_serial() {
    let list = vec![
        UsbIdentity {
            vendor_id: 0x1209,
            product_id: 0xBEEF,
            serial: "A".to_string(),
        },
        UsbIdentity {
            vendor_id: 0x1209,
            product_id: 0xBEEF,
            serial: "B".to_string(),
        },
    ];
    assert_eq!(select_device(&list, UsbFamily::KCan, None), Some(0));
    assert_eq!(select_device(&list, UsbFamily::KCan, Some("B")), Some(1));
    assert_eq!(select_device(&list, UsbFamily::KCan, Some("C")), None);
    assert_eq!(select_device(&list, UsbFamily::Apex, None), None);
}

#[test]
fn summit_errors_depend_on_the_device() {
    assert!(matches!(
        receive_error("Timed Out", false),
        AdapterError::Timeout
    ));
    assert!(matches!(receive_error("bus off", true), AdapterError::Timeout));
    assert!(matches!(
        receive_error("bus off", false),
        AdapterError::Disconnected
    ));
    assert!(matches!(after_send_failure(0, true, "full"), SendStep::Retry));
    assert!(matches!(
        after_send_failure(0, false, "gone"),
        SendStep::Fail(_)
    ));
}

#[test]
fn interfaces_are_checked() {
    let up = InterfaceState {
        exists: true,
        driver_loaded: true,
        can_interfaces: vec![],
        kind: "280\n".to_string(),
        flags: "0x40081\n".to_string(),
    };
    assert!(check_interface("can0", &up).is_ok());
    let down = InterfaceState {
        flags: "0x40080\n".to_string(),
        ..up
    };
    assert!(check_interface("can0", &down)
        .unwrap_err()
        .display()
        .contains("exists but is DOWN"));
    let missing = InterfaceState {
        exists: false,
        can_interfaces: vec!["can1".to_string(), "can2".to_string()],
        ..down
    };
    assert!(check_interface("can0", &missing)
        .unwrap_err()
        .display()
        .contains("Available CAN interfaces: can1, can2"));
    let r = rustycan::adapters::socketcan::receive(SocketRead::Data {
        id: Id::standard(0x10).unwrap(),
        data: vec![1],
    });
    assert_eq!(r.unwrap().frame.data(), &[1]);
    assert!(matches!(
        rustycan::adapters::socketcan::receive(SocketRead::TimedOut),
        Err(AdapterError::Timeout)
    ));
}

/// A backend that is not built in.
struct Bench {
    channels: u8,
}

#[test]
fn can_interfaces_are_listed_in_order() {
    let found: Vec<(String, String)> = [("vcan1", "280\n"), ("eth0", "1\n"), ("can0", "280\n")]
        .iter()
        .map(|(n, t)| (n.to_string(), t.to_string()))
        .collect();
    assert_eq!(can_interfaces(&found), vec!["can0", "vcan1"]);
}

#[test]
fn backends_are_registered() {
    let mut reg: AdapterRegistry<AnyFactory<Bench>> = AdapterRegistry::with_builtins();
    assert_eq!(reg.factories().len(), 4);
    assert_eq!(reg.by_id("kcan").map(|f| f.display_name()), Some("KCAN Dongle"));
    assert!(reg.by_id("bench").is_none());
    reg.register(AnyFactory::Own(OwnFactory {
        id: "bench",
        name: "Bench adapter",
        backend: Bench { channels: 2 },
    }));
    let bench = reg.by_id("bench").unwrap();
    assert_eq!(bench.display_name(), "Bench adapter");
    assert!(matches!(bench, AnyFactory::Own(o) if o.backend.channels == 2));
    let params = AdapterParams {
        serial: Some("S1".to_string()),
        ..AdapterParams::default()
    };
    assert!(matches!(
        BuiltinFactory::KCan.make_kind(&params),
        AdapterKind::KCan { serial: Some(ref s) } if s == "S1"
    ));
    assert_eq!(lock_owner("123\n"), Some(123));
    assert_eq!(lock_owner("x"), None);
    assert_eq!(
        availability(&BuiltinFactory::Summit, false, false),
        AdapterAvailability::Absent
    );
    assert_eq!(
        availability(&BuiltinFactory::Summit, false, true),
        AdapterAvailability::Available
    );
}
