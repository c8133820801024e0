use std::collections::VecDeque;

use rustycan::adapters::AdapterKind;
use rustycan::app::{AppState, CanEvent, PendingSdo};
use rustycan::canopen::nmt::{NmtCommand, NmtState};
use rustycan::canopen::pdo::{PdoRawValue, PdoValue};
use rustycan::canopen::sdo::{SdoDirection, SdoValue};
use rustycan::dbc::types::{DbcFrameSignals, DbcSignalValue};
use rustycan::eds::{AccessType, DataType, ObjectDictionary, OdEntry};
use rustycan::gui::browser::{
    access_label, browse, can_read, can_write, group_heading, parse_raw_index_sub, pending_label,
    value_hint_for_type, SdoBrowserPanel,
};
use rustycan::gui::config::{load_session_config, DbcEntry, NodeEntry, PersistedConfig};
use rustycan::gui::connect::{
    device_label, duplicate_warnings, time_display, ConnectButton, ConnectForm, MessageType, Moment,
};
use rustycan::gui::format::{
    age, dbc_value_text, format_bps, format_count, load_zones, nmt_action_commands,
    nmt_action_label, nmt_badge, pdo_header, pdo_hex, sdo_line, sdo_value_text,
    truncate_path_smart, FloatBits, PrefixSearch,
};
use rustycan::gui::monitor::{leave, take_events, IncomingEvent};
use rustycan::gui::plot_view::{line_name, PlotNumber, PlotSignalSource, PlotState, SignalKey};
use rustycan::bbd::sdo_client::SdocType;
use rustycan::canopen::sdo::SdoTransferMode;
use rustycan::session::{permitted, write_transfers, CanCommand};

fn node(id: &str, path: &str) -> NodeEntry {
    NodeEntry {
        id_str: id.to_string(),
        eds_path: path.to_string(),
    }
}

fn form_with(nodes: Vec<NodeEntry>) -> ConnectForm {
    let mut f = ConnectForm::default();
    f.nodes = nodes;
    f
}

// ─── Formats ────────────────────────────────────────────────────────────────

#[test]
fn numbers_are_grouped() {
    assert_eq!(format_bps("250000"), "250,000");
    assert_eq!(format_bps(" 1000000 "), "1,000,000");
    assert_eq!(format_bps("auto"), "auto");
    assert_eq!(format_count(0), "              0");
    assert_eq!(format_count(999_999_999_999), "999,999,999,999");
    assert_eq!(format_count(1234), "          1,234");
}

#[test]
fn the_load_bar_has_three_zones() {
    let z = load_zones(0);
    assert_eq!((z.blue, z.yellow, z.red, z.empty), (0, 0, 0, 20));
    let z = load_zones(10);
    assert_eq!((z.blue, z.yellow, z.red, z.empty), (6, 4, 0, 10));
    let z = load_zones(99);
    assert_eq!((z.blue, z.yellow, z.red, z.empty), (6, 8, 6, 0));
}

#[test]
fn the_longest_fitting_prefix_is_found() {
    for len in 0..40usize {
        for limit in 0..=len {
            let mut search = PrefixSearch::new(len);
            while let Some(n) = search.next() {
                search.answer(n <= limit);
            }
            assert_eq!(search.best, limit, "length {len}");
        }
    }
}

#[test]
fn paths_keep_their_file_name() {
    let short = |prefix| {
        truncate_path_smart("/home/me/log.jsonl", "log.jsonl", "/home/me", false, true, prefix)
    };
    assert_eq!(short(5), "/home...log.jsonl");
    assert_eq!(short(0), "...log.jsonl");
    assert_eq!(
        truncate_path_smart("/home/me/log.jsonl", "log.jsonl", "/home/me", true, true, 0),
        "/home/me/log.jsonl"
    );
    assert_eq!(
        truncate_path_smart("/home/me/log.jsonl", "log.jsonl", "/home/me", false, false, 0),
        "log.jsonl"
    );
}

#[test]
fn ages_and_headings_are_written() {
    assert_eq!(age(false, "1.5", None), "1.5s ago");
    assert_eq!(age(true, "2", Some("100")), "2m ago  [\u{394} 100ms]");
    assert_eq!(
        pdo_header(5, 0x181, "0.10s ago"),
        "Node   5   COB-ID 0x181   0.10s ago"
    );
}

#[test]
fn states_have_badges() {
    assert_eq!(nmt_badge(&NmtState::PreOperational).label, "PRE-OP");
    assert_eq!(nmt_badge(&NmtState::Unknown(3)).label, "UNKNOWN");
    let labels: Vec<&str> = nmt_action_commands().iter().map(nmt_action_label).collect();
    assert_eq!(labels, ["Start", "Stop", "Pre-Op", "Reset", "Reset Comm"]);
}

#[test]
fn values_are_shown_with_their_bytes() {
    let v = sdo_value_text(&SdoValue::I16(-2), "");
    assert_eq!((v.main.as_str(), v.note.as_deref()), ("-2", Some("[0xFFFE]")));
    let v = sdo_value_text(&SdoValue::U32(0x192), "");
    assert_eq!((v.main.as_str(), v.note.as_deref()), ("402", Some("[0x00000192]")));
    let v = sdo_value_text(&SdoValue::Bytes(b"Hi\0".to_vec()), "");
    assert_eq!((v.main.as_str(), v.note.as_deref()), ("\"Hi\"", Some("48 69 00")));
    let v = sdo_value_text(&SdoValue::Bytes(vec![0x80, 1]), "");
    assert_eq!((v.main.as_str(), v.note), ("[80 01]", None));
    let v = sdo_value_text(&SdoValue::F32(1.5f32.to_bits()), "1.5000");
    assert_eq!((v.main.as_str(), v.note.as_deref()), ("1.5000", Some("[0x3FC00000]")));
    let none = FloatBits {
        narrow: None,
        wide: 0,
    };
    assert_eq!(
        pdo_hex(&PdoRawValue::Integer(-1), none).as_deref(),
        Some("0xFFFFFFFFFFFFFFFF")
    );
    assert_eq!(pdo_hex(&PdoRawValue::Unsigned(255), none).as_deref(), Some("0xFF"));
    assert_eq!(pdo_hex(&PdoRawValue::Text("A\u{e9}".into()), none).as_deref(), Some("41 C3 A9"));
    assert_eq!(pdo_hex(&PdoRawValue::Bytes(vec![1]), none), None);
    assert_eq!(dbc_value_text("1", &Some("True".to_string())), "1 (True)");
    let line = sdo_line(5, SdoDirection::Read, 0x1018, 1, Some(0x0602_0000));
    assert_eq!(line.node, "N05");
    assert_eq!(line.direction, "READ ");
    assert_eq!(line.address, "1018h/01");
    assert_eq!(line.abort.as_deref(), Some("[ABORT 0x06020000]"));
}

// ─── Connect form ───────────────────────────────────────────────────────────

#[test]
fn a_form_sets_up_a_session() {
    let mut f = form_with(vec![
        node("0x05", " /eds/drive.eds "),
        node("", "/ignored.eds"),
        node("07H", ""),
    ]);
    f.dbc_files = vec![
        DbcEntry {
            path: " /a.dbc".to_string(),
        },
        DbcEntry {
            path: " ".to_string(),
        },
    ];
    f.log_path = " log.jsonl ".to_string();
    let s = f.try_connect().unwrap();
    assert_eq!(s.baud, 250_000);
    assert_eq!(s.sdo_timeout_ms, 500);
    assert_eq!(s.nodes, vec![(5, Some("/eds/drive.eds".to_string())), (7, None)]);
    assert_eq!(s.dbc_paths, vec!["/a.dbc".to_string()]);
    assert_eq!(s.log_path, "log.jsonl");
    assert_eq!(s.block_size, 64);
}

#[test]
fn faults_in_the_form_are_reported() {
    let mut f = form_with(vec![]);
    f.baud = "fast".to_string();
    assert_eq!(f.try_connect().unwrap_err(), "Invalid baud rate: \"fast\"");
    let mut f = form_with(vec![]);
    f.sdo_timeout_str = "0".to_string();
    assert_eq!(
        f.try_connect().unwrap_err(),
        "SDO timeout must be a positive integer (ms), got \"0\""
    );
    let f = form_with(vec![node("128", "")]);
    assert_eq!(
        f.try_connect().unwrap_err(),
        "Invalid node ID: \"128\" (expected 1\u{2013}127, decimal or 0x/H hex)"
    );
    let f = form_with(vec![node("5", ""), node("0x5", "")]);
    assert_eq!(
        f.try_connect().unwrap_err(),
        "Node ID 5 is used more than once \u{2014} each node must have a unique ID"
    );
}

#[test]
fn duplicates_are_warned_of_in_order() {
    let nodes = vec![
        node("2", ""),
        node("10", ""),
        node("2", ""),
        node("0xA", ""),
        node("3", ""),
    ];
    assert_eq!(
        duplicate_warnings(&nodes),
        vec![
            "Node ID 10 is used more than once",
            "Node ID 2 is used more than once"
        ]
    );
}

fn persisted() -> PersistedConfig {
    PersistedConfig {
        port: "1".to_string(),
        baud: "500000".to_string(),
        nodes: vec![node("1", "/no.eds"), node("2", ""), node("3", "/yes.eds")],
        log_path: Some("  ".to_string()),
        sdo_timeout_str: "250".to_string(),
        listen_only: true,
        text_log: true,
        adapter_kind: AdapterKind::KCan { serial: None },
        kcan_serial: String::new(),
        dbc_files: vec![
            DbcEntry {
                path: "/a".to_string(),
            },
            DbcEntry {
                path: "/b".to_string(),
            },
        ],
        http_port: Some(1),
    }
}

#[test]
fn missing_files_are_dropped() {
    let mut c = persisted();
    c.retain_existing(&[false, false, true], &[false, true]);
    assert_eq!(c.nodes.len(), 2);
    assert_eq!(c.nodes[0].id_str, "2");
    assert_eq!(c.dbc_files.len(), 1);
    assert_eq!(c.dbc_files[0].path, "/b");
}

#[test]
fn a_configuration_sets_up_a_session() {
    let s = load_session_config(&persisted()).unwrap();
    assert_eq!(s.log_path, "rustycan.jsonl");
    assert_eq!(s.baud, 500_000);
    assert!(s.listen_only && s.text_log);
    assert_eq!(s.nodes.len(), 3);
    let mut c = persisted();
    c.baud = String::new();
    assert_eq!(
        load_session_config(&c).unwrap_err(),
        "Invalid baud rate in config: \"\""
    );
}

#[test]
fn settings_survive_a_restart() {
    let mut f = form_with(vec![node("5", "/x.eds")]);
    f.port = "2".to_string();
    f.listen_only = true;
    f.error = Some("gone".to_string());
    let back = PersistedConfig::from_form(&f).into_form();
    assert_eq!(back.port, "2");
    assert_eq!(back.nodes.len(), 1);
    assert_eq!(back.nodes[0].eds_path, "/x.eds");
    assert!(back.listen_only);
    assert!(back.error.is_none());
    assert_eq!(back.log_path, "rustycan.jsonl");
}

#[test]
fn the_adapter_is_searched_for() {
    let mut f = ConnectForm::default();
    assert!(f.should_probe(0));
    let (kind, port, baud) = f.start_probe(1000);
    assert!(matches!(kind, AdapterKind::Summit));
    assert_eq!((port.as_str(), baud), ("1", 250_000));
    assert!(!f.should_probe(10_000));
    let fallback = f.probe_finished(false).unwrap();
    assert!(matches!(fallback, AdapterKind::KCan { serial: None }));
    assert!(!f.dongle_connected);
    f.switch_to(fallback);
    assert!(f.dongle_connected);
    assert_eq!(
        f.adapter_notice.as_deref(),
        Some("PEAK PCAN-USB not found, automatically switched to KCAN Dongle")
    );
    assert!(!f.should_probe(2999));
    assert!(f.should_probe(3000));
    let _ = f.start_probe(3000);
    assert!(f.probe_finished(true).is_none());
    assert!(f.adapter_notice.is_none());
    f.select_summit();
    assert!(f.original_adapter_kind.is_none());
    assert!(f.should_probe(3001));
}

#[test]
fn the_button_waits_for_the_adapter() {
    let mut f = form_with(vec![node("1", ""), node("1", "")]);
    assert_eq!(f.connect_button(), ConnectButton::NoDongle);
    f.dongle_connected = true;
    f.update_warnings();
    assert_eq!(f.connect_button(), ConnectButton::Duplicates);
    f.remove_node(0);
    f.update_warnings();
    assert_eq!(f.connect_button(), ConnectButton::Ready);
}

#[test]
fn kcan_devices_are_labelled() {
    let mut f = ConnectForm::default();
    f.kcan_devices = vec![("S1".to_string(), "KCAN one".to_string())];
    f.kcan_serial = "S1".to_string();
    f.select_kcan();
    assert!(matches!(f.adapter_kind, AdapterKind::KCan { serial: Some(ref s) } if s == "S1"));
    assert_eq!(f.selected_label(), "KCAN one");
    f.select_device(None);
    assert_eq!(f.selected_label(), "Auto (first found)");
    assert_eq!(device_label("S1", "KCAN one"), "KCAN one [S1]");
    assert_eq!(device_label("", "KCAN one"), "KCAN one");
}

#[test]
fn only_the_latest_messages_are_kept() {
    let mut f = ConnectForm::default();
    let now = Moment {
        timestamp_s: Some(3661),
        created_ms: 1,
    };
    f.error = Some("first".to_string());
    f.update_messages(now);
    f.update_messages(now);
    assert_eq!(f.message_history.len(), 1);
    for i in 0..9 {
        f.error = Some(format!("error {i}"));
        f.update_messages(now);
        assert!(f.message_history.len() <= 5);
    }
    assert_eq!(f.message_history[4].text, "error 8");
    assert_eq!(f.message_history[0].text, "error 4");
    f.warnings = vec!["w".to_string()];
    f.update_messages(now);
    f.update_messages(now);
    let count = f
        .message_history
        .iter()
        .filter(|m| m.msg_type == MessageType::Warning)
        .count();
    assert_eq!(count, 1);
    assert_eq!(time_display(Some(3661)), "[01:01:01]");
    assert_eq!(time_display(Some(86_399 + 86_400)), "[23:59:59]");
    assert_eq!(time_display(None), "[--:--:--]");
}

#[test]
fn the_form_comes_back_clean() {
    let mut f = form_with(vec![node("5", "/a.eds"), node("5", "/b.eds")]);
    f.error = Some("x".to_string());
    f.probing = true;
    f.last_probe_ms = Some(5);
    let s = f.saved();
    assert!(s.error.is_none() && !s.probing && s.last_probe_ms.is_none());
    assert_eq!(s.eds_path(5).as_deref(), Some("/b.eds"));
    assert_eq!(s.eds_path(6), None);
    let back = leave(s, Some("bus off".to_string()), false).unwrap();
    assert_eq!(back.error.as_deref(), Some("bus off"));
    assert!(leave(ConnectForm::default(), None, false).is_none());
    assert!(leave(ConnectForm::default(), None, true).unwrap().error.is_none());
}

#[test]
fn lists_can_be_edited() {
    let mut f = ConnectForm::default();
    f.add_node();
    f.add_node();
    f.add_dbc();
    f.confirm_remove = Some(1);
    f.remove_node(1);
    assert_eq!((f.nodes.len(), f.confirm_remove), (1, None));
    f.confirm_remove_dbc = Some(0);
    f.remove_dbc(0);
    assert_eq!((f.dbc_files.len(), f.confirm_remove_dbc), (0, None));
}

// ─── Browser ────────────────────────────────────────────────────────────────

fn entry(name: &str, access: AccessType) -> OdEntry {
    OdEntry {
        name: name.to_string(),
        data_type: DataType::Unsigned16,
        access,
        default_value: None,
    }
}

fn dictionary() -> ObjectDictionary {
    let mut od = ObjectDictionary::new();
    od.insert((0x6040, 0), entry("Control word", AccessType::ReadWrite));
    od.insert((0x1018, 1), entry("Vendor ID", AccessType::ReadOnly));
    od.insert((0x1018, 0), entry("Identity", AccessType::Const));
    od.insert((0x1A00, 0), entry("Mapping", AccessType::WriteOnly));
    od
}

#[test]
fn objects_are_listed_in_groups() {
    let groups = browse(&dictionary(), "");
    let shape: Vec<(u16, Vec<u8>)> = groups.iter().map(|g| (g.index, g.subs.clone())).collect();
    assert_eq!(
        shape,
        vec![(0x1018, vec![0, 1]), (0x1A00, vec![0]), (0x6040, vec![0])]
    );
    assert_eq!(groups[0].name, "Identity");
    assert_eq!(group_heading(0x1018, "Identity"), "1018h  Identity");
}

#[test]
fn the_filter_looks_at_names_and_indexes() {
    let groups = browse(&dictionary(), "VENDOR");
    assert_eq!(groups.len(), 1);
    assert_eq!(groups[0].subs, vec![1]);
    assert_eq!(groups[0].name, "Vendor ID");
    let groups = browse(&dictionary(), "1a0");
    assert_eq!(groups[0].index, 0x1A00);
    assert!(browse(&dictionary(), "nothing").is_empty());
}

#[test]
fn addresses_are_entered() {
    assert_eq!(parse_raw_index_sub("1018", "1"), Ok((0x1018, 1)));
    assert_eq!(parse_raw_index_sub(" 0x6040 ", " 0 "), Ok((0x6040, 0)));
    // no hexadecimal number that fits, but a decimal one
    assert_eq!(parse_raw_index_sub("65535", "0"), Ok((65535, 0)));
    assert_eq!(
        parse_raw_index_sub("0xZ", "0"),
        Err("Invalid hex index \"0xZ\"".to_string())
    );
    assert_eq!(
        parse_raw_index_sub("zz", "0"),
        Err("Invalid index \"zz\" (use hex like 1001 or 0x1001)".to_string())
    );
    assert_eq!(
        parse_raw_index_sub("1018", "256"),
        Err("Invalid subindex \"256\" (decimal 0\u{2013}255)".to_string())
    );
}

#[test]
fn commands_come_from_the_browser() {
    let mut p = SdoBrowserPanel::default();
    assert!(!p.raw_enabled(false));
    p.raw_index_str = "1018".to_string();
    p.raw_subindex_str = "1".to_string();
    assert!(p.raw_enabled(false) && !p.raw_enabled(true));
    assert!(matches!(
        p.raw_read(5),
        Some(CanCommand::SdoRead {
            node_id: 5,
            index: 0x1018,
            subindex: 1,
            ..
        })
    ));
    p.raw_data_str = "01 02".to_string();
    let Some(CanCommand::SdoWrite { data, .. }) = p.raw_write(5) else {
        panic!("expected a write");
    };
    assert_eq!(data, vec![1, 2]);
    p.raw_data_str = "0".to_string();
    assert!(p.raw_write(5).is_none());
    assert!(p.last_error.is_some());
    p.select_object((0x6040, 0));
    assert!(p.last_error.is_none());
    p.write_value_str = "0x0F".to_string();
    let Some(CanCommand::SdoWrite { data, index, .. }) =
        p.object_write(5, (0x6040, 0), &DataType::Unsigned16, None)
    else {
        panic!("expected a write");
    };
    assert_eq!((index, data), (0x6040, vec![0x0F, 0]));
    assert!(matches!(
        p.object_read(5, (0x6040, 0)),
        CanCommand::SdoRead { index: 0x6040, .. }
    ));
    p.select_object((0x6040, 0));
    assert_eq!(p.selected_od_key, None);
}

#[test]
fn the_browser_follows_the_node() {
    let mut p = SdoBrowserPanel::default();
    p.selected_node_idx = 7;
    p.clamp_node(3);
    assert_eq!(p.selected_node_idx, 2);
    p.selected_od_key = Some((0x1000, 0));
    p.select_node(2);
    assert_eq!(p.selected_od_key, Some((0x1000, 0)));
    p.select_node(1);
    assert_eq!(p.selected_od_key, None);
    p.settle_mode(false);
    assert!(p.raw_mode);
    p.set_mode(false, false);
    assert!(p.raw_mode);
    p.set_mode(false, true);
    assert!(!p.raw_mode);
}

#[test]
fn access_rights_are_respected() {
    assert_eq!(access_label(&AccessType::Const), "RO");
    assert_eq!(access_label(&AccessType::ReadWrite), "R/W");
    assert!(can_read(&AccessType::Const) && !can_read(&AccessType::WriteOnly));
    assert!(can_write(&AccessType::WriteOnly) && !can_write(&AccessType::ReadOnly));
    assert_eq!(value_hint_for_type(&DataType::Unsigned8), "0 \u{2026} 255");
    let p = PendingSdo {
        index: 0x1018,
        subindex: 1,
        direction: SdoDirection::Read,
    };
    assert_eq!(pending_label(&p), "\u{23f3} Waiting for READ 1018h/01\u{2026}");
}

#[test]
fn nothing_is_sent_when_only_listening() {
    let c = || CanCommand::SendNmt {
        command: NmtCommand::StartRemoteNode,
        target_node: 0,
    };
    assert!(permitted(c(), true).is_none());
    assert!(permitted(c(), false).is_some());
}

#[test]
fn writes_follow_the_transfer_mode() {
    assert_eq!(
        write_transfers(SdoTransferMode::Auto),
        (SdocType::Block, Some(SdocType::Segmented))
    );
    assert_eq!(
        write_transfers(SdoTransferMode::ForcedSegmented),
        (SdocType::Segmented, None)
    );
    assert_eq!(
        write_transfers(SdoTransferMode::ForcedBlock),
        (SdocType::Block, None)
    );
}

// ─── Monitor ────────────────────────────────────────────────────────────────

fn pdo_event(value: u64, time_us: u64) -> IncomingEvent {
    IncomingEvent {
        event: CanEvent::Pdo {
            node_id: 1,
            cob_id: 0x181,
            values: vec![
                PdoValue {
                    signal_name: "speed".to_string(),
                    value: PdoRawValue::Unsigned(value),
                },
                PdoValue {
                    signal_name: "name".to_string(),
                    value: PdoRawValue::Text("x".to_string()),
                },
            ],
        },
        physical: vec![],
        now_us: 10,
        time_us,
    }
}

fn frame_event() -> IncomingEvent {
    IncomingEvent {
        event: CanEvent::DbcSignal(DbcFrameSignals {
            message_name: "A".to_string(),
            can_id: 5,
            values: vec![DbcSignalValue {
                signal_name: "t".to_string(),
                raw_int: 4,
                unit: "V".to_string(),
                description: None,
                encoding_def: None,
            }],
            source_dbc: "bus".to_string(),
            raw_data: vec![4],
        }),
        physical: vec![2.0f64.to_bits()],
        now_us: 11,
        time_us: 1_000_000,
    }
}

#[test]
fn events_stop_at_an_adapter_error() {
    let mut state = AppState::new("log".to_string(), 250_000, 0);
    let mut plot = PlotState::default();
    let mut events = VecDeque::new();
    events.push_back(pdo_event(1, 1_000_000));
    events.push_back(frame_event());
    events.push_back(IncomingEvent {
        event: CanEvent::AdapterError("bus off".to_string()),
        physical: vec![],
        now_us: 12,
        time_us: 1_000_000,
    });
    events.push_back(pdo_event(2, 2_000_000));
    let r = take_events(&mut state, &mut plot, &mut events);
    assert_eq!(r.as_deref(), Some("bus off"));
    assert_eq!(events.len(), 1);
    assert_eq!(state.frames.total, 2);
    assert_eq!(plot.registry.len(), 2);
    assert!(take_events(&mut state, &mut plot, &mut events).is_none());
    assert_eq!(plot.registry[0].history.points.len(), 2);
    assert_eq!(
        plot.registry[0].history.in_window(2_500_000, 1),
        vec![(-500_000, PlotNumber::Unsigned(2))]
    );
    assert_eq!(plot.available(true), vec![0]);
    assert_eq!(plot.available(false), vec![1]);
    assert_eq!(line_name(&plot.registry[1].key, "V"), "A/t [V]");
    assert_eq!(plot.registry[0].key.label(), "N1/0x181/speed");
}

#[test]
fn signals_are_assigned_and_taken_away() {
    let key = |name: &str| SignalKey {
        source: PlotSignalSource::Dbc {
            can_id: 1,
            message_name: "M".to_string(),
        },
        name: name.to_string(),
    };
    let mut plot = PlotState::default();
    let chart = &mut plot.charts[0];
    chart.toggle(&key("a"));
    chart.toggle(&key("b"));
    assert!(chart.is_assigned(&key("a")));
    chart.toggle(&key("a"));
    assert!(!chart.is_assigned(&key("a")));
    chart.remove(0);
    assert!(chart.assigned.is_empty());
}

#[test]
fn the_picker_is_sorted_by_label() {
    let mut plot = PlotState::default();
    for (node_id, name) in [(2u8, "b"), (10, "a"), (2, "a")] {
        plot.feed_event(
            &CanEvent::Pdo {
                node_id,
                cob_id: 0x180 + node_id as u16,
                values: vec![PdoValue {
                    signal_name: name.to_string(),
                    value: PdoRawValue::Integer(0),
                }],
            },
            &[],
            0,
        );
    }
    let labels: Vec<String> = plot
        .available(true)
        .iter()
        .map(|&i| plot.registry[i].key.label())
        .collect();
    assert_eq!(labels, ["N10/0x18A/a", "N2/0x182/a", "N2/0x182/b"]);
}
