use std::collections::VecDeque;

use rustycan::app::{apply_event, drain_events, AppState, CanEvent, SdoLogEntry, SDO_LOG_CAP};
use rustycan::canopen::nmt::NmtState;
use rustycan::canopen::pdo::{PdoRawValue, PdoValue};
use rustycan::canopen::sdo::SdoDirection;
use rustycan::dbc::types::{DbcFrameSignals, DbcSignalValue};

fn state() -> AppState {
    AppState::new("log.jsonl".to_string(), 250_000, 0)
}

fn sdo(node_id: u8, index: u16) -> CanEvent {
    CanEvent::Sdo(SdoLogEntry {
        ts_us: 0,
        node_id,
        direction: SdoDirection::Read,
        index,
        subindex: 0,
        name: "x".to_string(),
        value: None,
        abort_code: None,
    })
}

fn signal(name: &str, raw: i64) -> CanEvent {
    CanEvent::DbcSignal(DbcFrameSignals {
        message_name: "M".to_string(),
        can_id: 9,
        values: vec![DbcSignalValue {
            signal_name: name.to_string(),
            raw_int: raw,
            unit: String::new(),
            description: None,
            encoding_def: None,
        }],
        source_dbc: "bus".to_string(),
        raw_data: vec![raw as u8],
    })
}

#[test]
fn the_sdo_log_keeps_the_latest() {
    let mut s = state();
    for i in 0..(SDO_LOG_CAP as u16 + 10) {
        apply_event(&mut s, sdo(1, i), 0);
    }
    assert_eq!(s.sdo_log.len(), SDO_LOG_CAP);
    assert_eq!(s.sdo_log[0].index, 10);
    assert_eq!(s.sdo_log[SDO_LOG_CAP - 1].index, SDO_LOG_CAP as u16 + 9);
}

#[test]
fn an_answer_clears_what_is_pending() {
    let mut s = state();
    let pending = CanEvent::SdoPending {
        node_id: 3,
        index: 0x1018,
        subindex: 1,
        direction: SdoDirection::Read,
    };
    apply_event(&mut s, pending, 0);
    assert!(s.pending_sdos.contains_key(&3));
    apply_event(&mut s, sdo(4, 0x1018), 0);
    assert!(s.pending_sdos.contains_key(&3));
    apply_event(&mut s, sdo(3, 0x1018), 0);
    assert!(!s.pending_sdos.contains_key(&3));
}

#[test]
fn node_states_come_from_heartbeats() {
    let mut s = state();
    s.init_nodes(&vec![(5, "drive.eds".to_string())]);
    assert_eq!(s.node_map[&5].name, "drive.eds");
    let hb = |state| CanEvent::Nmt { node_id: 5, state };
    apply_event(&mut s, hb(NmtState::Bootup), 1_000);
    apply_event(&mut s, hb(NmtState::Operational), 3_500);
    assert_eq!(s.node_map[&5].state, NmtState::Operational);
    assert_eq!(s.node_map[&5].name, "drive.eds");
    assert_eq!(s.node_map[&5].seen.unwrap().period_us, Some(2_500));
    apply_event(
        &mut s,
        CanEvent::Nmt {
            node_id: 7,
            state: NmtState::Stopped,
        },
        4_000,
    );
    assert_eq!(s.node_map[&7].name, "node7");
}

#[test]
fn signals_have_one_entry_each() {
    let mut s = state();
    apply_event(&mut s, signal("a", 1), 0);
    apply_event(&mut s, signal("b", 2), 0);
    apply_event(&mut s, signal("a", 3), 0);
    assert_eq!(s.dbc_signals.len(), 2);
    assert_eq!(s.dbc_signals[0].raw_int, 3);
    assert_eq!(s.dbc_signals[0].count, 2);
    assert_eq!(s.last_raw_bytes[&9], vec![3]);
}

#[test]
fn the_rate_is_measured_over_a_window() {
    let mut s = state();
    for i in 0..100u64 {
        s.record_frame(i * 10_000);
    }
    assert!(s.frames.rate.is_none());
    s.record_frame(2_000_000);
    let rate = s.frames.rate.unwrap();
    assert_eq!((rate.frames, rate.elapsed_us), (101, 2_000_000));
    assert_eq!(s.frames.load.unwrap().baud_rate, 250_000);
    assert_eq!((s.frames.total, s.frames.window_count), (101, 0));
}

#[test]
fn pending_events_are_applied_in_order() {
    let mut s = state();
    let mut events = VecDeque::new();
    events.push_back(CanEvent::FirmwareVersion(1, 2, 3));
    events.push_back(CanEvent::AutoBaudDetected(500_000));
    events.push_back(CanEvent::DbcLoaded("bus".to_string()));
    events.push_back(CanEvent::Pdo {
        node_id: 1,
        cob_id: 0x181,
        values: vec![PdoValue {
            signal_name: "v".to_string(),
            value: PdoRawValue::Unsigned(1),
        }],
    });
    assert!(drain_events(&mut s, events, false, 5));
    assert_eq!(s.device_fw_version, Some((1, 2, 3)));
    assert_eq!(s.detected_baud, Some(500_000));
    assert_eq!(s.dbc_loaded.as_deref(), Some("bus"));
    assert_eq!(s.pdo_values[&0x1_0181].values.len(), 1);
    assert_eq!(s.frames.total, 4);
    assert!(!drain_events(&mut s, VecDeque::new(), true, 6));
}
