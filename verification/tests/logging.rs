use rustycan::canopen::nmt::{NmtCommand, NmtEvent, NmtState};
use rustycan::canopen::pdo::{PdoRawValue, PdoValue};
use rustycan::canopen::sdo::{SdoDirection, SdoEvent, SdoValue};
use rustycan::dbc::types::{DbcFrameSignals, DbcSignalValue};
use rustycan::http_server::{handle_shutdown, local_url};
use rustycan::logger::{
    add_timestamp_to_path, ascii_of, bytes_to_hex, command_output, describe_os, EventLogger,
    HostInfo, LocalTime, LogEntry, LogValue, SignalRecord,
};

/// 2018-01-26 18:30:09.453 UTC
const TS: i64 = 1_516_991_409_453;

fn text(e: &LogEntry, key: &str) -> String {
    for f in &e.fields {
        if f.key == key {
            if let LogValue::Text(s) = &f.value {
                return s.clone();
            }
        }
    }
    panic!("no text under {key}");
}

fn number(e: &LogEntry, key: &str) -> i64 {
    for f in &e.fields {
        if f.key == key {
            match &f.value {
                LogValue::Unsigned(n) => return *n as i64,
                LogValue::Signed(n) => return *n,
                _ => {}
            }
        }
    }
    panic!("no number under {key}");
}

fn has(e: &LogEntry, key: &str) -> bool {
    e.fields.iter().any(|f| f.key == key)
}

#[test]
fn a_heartbeat_is_recorded() {
    let mut log = EventLogger::with_text_log(true, 0);
    let ev = NmtEvent::Heartbeat {
        node_id: 5,
        state: NmtState::Operational,
    };
    let r = log.log_nmt(TS, &ev, &[0x05], 0x705);
    assert_eq!(text(&r.entry, "ts"), "2018-01-26T18:30:09.453Z");
    assert_eq!(text(&r.entry, "type"), "NMT_STATE");
    assert_eq!(text(&r.entry, "cob_id"), "0x705");
    assert_eq!(number(&r.entry, "source_node"), 5);
    assert_eq!(text(&r.entry, "state"), "OPERATIONAL");
    assert_eq!(
        r.line.unwrap(),
        "[2018-01-26T18:30:09.453Z][NMT_STATE       ][0x705] 05"
    );
}

#[test]
fn a_sent_command_is_recorded() {
    let mut log = EventLogger::new(0);
    let r = log.log_nmt_sent(TS, &NmtCommand::EnterPreOperational, 3, &[0x80, 0x03]);
    assert_eq!(text(&r.entry, "type"), "NMT_COMMAND_SENT");
    assert_eq!(text(&r.entry, "command"), "ENTER_PRE_OP");
    assert_eq!(number(&r.entry, "target_node"), 3);
    assert!(r.line.is_none());
    let ev = NmtEvent::Command {
        command: NmtCommand::Unknown(9),
        target_node: 0,
    };
    let r = log.log_nmt(TS, &ev, &[9, 0], 0);
    assert_eq!(text(&r.entry, "command"), "UNKNOWN");
    assert_eq!(text(&r.entry, "cob_id"), "0x000");
}

fn sdo(value: Option<SdoValue>, abort_code: Option<u32>) -> SdoEvent {
    SdoEvent {
        node_id: 2,
        direction: SdoDirection::Read,
        index: 0x1008,
        subindex: 0,
        name: "Name".to_string(),
        value,
        abort_code,
    }
}

#[test]
fn an_sdo_event_is_recorded() {
    let mut log = EventLogger::with_text_log(true, 0);
    let ev = sdo(Some(SdoValue::Bytes(b"Motor\0\0".to_vec())), None);
    let r = log.log_sdo(TS, &ev, &[0x43, 0x08], 0x582);
    assert_eq!(text(&r.entry, "type"), "SDO_READ");
    assert_eq!(text(&r.entry, "index"), "0x1008");
    assert_eq!(text(&r.entry, "subindex"), "0x00");
    assert_eq!(text(&r.entry, "ascii"), "Motor");
    assert_eq!(number(&r.entry, "source_node"), 2);
    assert!(!has(&r.entry, "abort_code"));
    assert!(r.line.unwrap().ends_with("[SDO_READ        ][0x582] 43 08"));
    let ev = sdo(Some(SdoValue::I16(-2)), Some(0x0602_0000));
    let r = log.log_sdo(TS, &ev, &[], 0x602);
    assert_eq!(number(&r.entry, "source_node"), 0);
    assert_eq!(number(&r.entry, "value"), -2);
    assert_eq!(text(&r.entry, "abort_code"), "0x06020000");
    assert!(!has(&r.entry, "ascii"));
}

#[test]
fn a_pdo_is_recorded_with_its_signals() {
    let mut log = EventLogger::new(0);
    let values = vec![
        PdoValue {
            signal_name: "speed".to_string(),
            value: PdoRawValue::Integer(-7),
        },
        PdoValue {
            signal_name: "rest".to_string(),
            value: PdoRawValue::Bytes(vec![0x0A, 0xFF]),
        },
    ];
    let r = log.log_pdo(TS, 1, 1, &values, &[1, 2], 0x181);
    let signals = r.entry.signals.unwrap();
    assert!(matches!(
        &signals[0],
        SignalRecord::Pdo { name, value: LogValue::Signed(-7) } if name == "speed"
    ));
    assert!(matches!(
        &signals[1],
        SignalRecord::Pdo { value: LogValue::Texts(t), .. } if t[1] == "0xFF"
    ));
}

#[test]
fn a_decoded_frame_is_recorded() {
    let mut log = EventLogger::new(0);
    let frame = DbcFrameSignals {
        message_name: "M".to_string(),
        can_id: 0x39,
        values: vec![DbcSignalValue {
            signal_name: "dir".to_string(),
            raw_int: 1,
            unit: String::new(),
            description: Some("True".to_string()),
            encoding_def: None,
        }],
        source_dbc: "bus".to_string(),
        raw_data: vec![1],
    };
    let r = log.log_dbc_signal(TS, &frame, &[1.0f64.to_bits()], &[1], 0x39);
    assert_eq!(text(&r.entry, "message"), "M");
    assert!(matches!(
        &r.entry.signals.unwrap()[0],
        SignalRecord::Dbc { raw: 1, physical, .. } if f64::from_bits(*physical) == 1.0
    ));
    let r = log.log_raw_frame(TS, 0x7FF, &[]);
    assert_eq!(text(&r.entry, "type"), "RAW_FRAME");
    assert!(r.entry.signals.is_none());
}

#[test]
fn a_hardware_timestamp_is_used_once() {
    let mut log = EventLogger::new(0);
    log.set_hw_timestamp(Some(1234));
    let r = log.log_raw_frame(TS, 1, &[]);
    assert_eq!(number(&r.entry, "hw_ts_us"), 1234);
    let r = log.log_raw_frame(TS, 1, &[]);
    assert!(!has(&r.entry, "hw_ts_us"));
}

#[test]
fn a_hardware_timestamp_replaces_an_earlier_one() {
    let mut log = EventLogger::new(0);
    log.set_hw_timestamp(Some(1));
    let first = log.log_raw_frame(TS, 1, &[]).entry;
    let before = first.fields.len();
    log.set_hw_timestamp(Some(2));
    let again = log.log(first);
    assert_eq!(again.fields.len(), before);
    assert_eq!(number(&again, "hw_ts_us"), 2);
    assert_eq!(text(&again, "type"), "RAW_FRAME");
}

#[test]
fn the_log_is_flushed_by_count_and_by_time() {
    let mut log = EventLogger::with_config(3, 100, 0);
    assert!(!log.written(true, 1));
    assert!(!log.written(true, 2));
    assert!(!log.written(false, 2));
    assert!(log.written(true, 3));
    assert_eq!(log.entries_since_flush, 0);
    assert!(!log.written(true, 102));
    assert!(log.written(true, 103));
    for i in 0..50 {
        log.written(i % 3 != 0, 103);
        assert!(log.entries_since_flush < 3);
    }
}

#[test]
fn a_session_start_is_recorded() {
    let mut log = EventLogger::with_text_log(true, 0);
    let host = HostInfo {
        os: "linux".to_string(),
        model: "x86_64".to_string(),
        arch: "x86_64".to_string(),
        hostname: "-".to_string(),
        user: "-".to_string(),
    };
    let r = log.log_session_start(TS, "2018-01-26T19:30:09.453+0100", "KCAN", 250_000, host);
    assert_eq!(number(&r.entry, "baud"), 250_000);
    assert_eq!(r.entry.host.unwrap().model, "x86_64");
    assert_eq!(
        r.line.unwrap(),
        "[2018-01-26T19:30:09.453+0100][session_start    ][---------] adapter=\"KCAN\" \
         baud=250000 os=\"linux\" model=\"x86_64\""
    );
}

#[test]
fn host_facts_are_put_together() {
    assert_eq!(command_output(true, b" macOS\n"), Some("macOS".to_string()));
    assert_eq!(command_output(true, b"\n"), None);
    assert_eq!(command_output(false, b"x"), None);
    assert_eq!(command_output(true, b"\xFFx"), Some("\u{FFFD}x".to_string()));
    let s = |t: &str| Some(t.to_string());
    assert_eq!(
        describe_os(s("macOS"), s("15.3"), s("24D81"), "macos"),
        "macOS 15.3 (Build 24D81)"
    );
    assert_eq!(describe_os(s("macOS"), s("15.3"), None, "macos"), "macOS 15.3");
    assert_eq!(describe_os(None, s("15.3"), None, "linux"), "linux");
}

#[test]
fn log_files_are_stamped() {
    // 30 March 2026, 13:04:58
    let t = LocalTime {
        year: 2026,
        month: 3,
        day: 30,
        hour: 13,
        minute: 4,
        second: 58,
    };
    let stamped = |name: &str| add_timestamp_to_path(Some(name), &t);
    assert_eq!(stamped("log.jsonl"), "log_20263003130458.jsonl");
    assert_eq!(stamped("log"), "log_20263003130458");
    assert_eq!(stamped("my.log.jsonl"), "my.log_20263003130458.jsonl");
    assert_eq!(stamped(".hidden"), ".hidden_20263003130458");
    assert_eq!(add_timestamp_to_path(None, &t), "20263003130458");
}

#[test]
fn bytes_are_written_in_two_ways() {
    assert_eq!(bytes_to_hex(&[0x0A, 0xFF]), vec!["0x0A", "0xFF"]);
    assert_eq!(ascii_of(b"ok\r\n"), Some("ok\r\n".to_string()));
    assert_eq!(ascii_of(&[0x80]), None);
    assert_eq!(ascii_of(b"\0tail"), Some(String::new()));
}

#[test]
fn shutdown_needs_its_header() {
    assert_eq!(handle_shutdown(Some("1")), (200, "shutting down"));
    assert_eq!(handle_shutdown(Some("0")), (403, "forbidden"));
    assert_eq!(handle_shutdown(None), (403, "forbidden"));
    assert_eq!(local_url(7878, "shutdown"), "http://127.0.0.1:7878/shutdown");
}
