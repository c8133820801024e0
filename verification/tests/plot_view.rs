use rustycan::app::CanEvent;
use rustycan::canopen::pdo::{PdoRawValue, PdoValue};
use rustycan::gui::plot_view::{
    pdo_to_number, ChartConfig, PlotNumber, PlotPoint, PlotSignalSource, PlotState, SignalHistory,
    SignalKey, MAX_HISTORY_POINTS, NUM_CHARTS,
};

/// The number as it is drawn.
fn drawn(n: PlotNumber) -> f64 {
    match n {
        PlotNumber::Integer(v) => v as f64,
        PlotNumber::Unsigned(v) => v as f64,
        PlotNumber::Real32(bits) => f32::from_bits(bits) as f64,
        PlotNumber::Real64(bits) => f64::from_bits(bits),
    }
}

fn pdo_to_f64(v: &PdoRawValue) -> Option<f64> {
    pdo_to_number(v).map(drawn)
}

#[test]
fn test_pdo_to_f64_integer() {
    assert_eq!(pdo_to_f64(&PdoRawValue::Integer(8)), Some(8.0));
    assert_eq!(pdo_to_f64(&PdoRawValue::Integer(-3)), Some(-3.0));
}

#[test]
fn test_pdo_to_f64_unsigned() {
    assert_eq!(pdo_to_f64(&PdoRawValue::Unsigned(255)), Some(255.0));
}

#[test]
fn test_pdo_to_f64_float() {
    let v = pdo_to_f64(&PdoRawValue::Real64(1.5f64.to_bits())).unwrap();
    assert!((v - 1.5).abs() < 1e-9);
}

#[test]
fn test_pdo_to_f64_non_numeric() {
    assert_eq!(pdo_to_f64(&PdoRawValue::Text("x".into())), None);
    assert_eq!(pdo_to_f64(&PdoRawValue::Bytes(vec![0x01])), None);
}

#[test]
fn test_ring_buffer_trim() {
    let mut hist = SignalHistory::new(String::new());
    for i in 0..=(MAX_HISTORY_POINTS) {
        hist.push(PlotPoint {
            time_us: i as u64,
            value: PlotNumber::Unsigned(i as u64),
        });
    }
    assert_eq!(hist.points.len(), MAX_HISTORY_POINTS);
}

#[test]
fn test_chart_config_default_title() {
    let cfg = ChartConfig::new(0);
    assert_eq!(cfg.title, "Chart 1");
    let cfg7 = ChartConfig::new(7);
    assert_eq!(cfg7.title, "Chart 8");
}

#[test]
fn test_plot_state_default() {
    let state = PlotState::default();
    assert_eq!(state.active_chart, 0);
    assert!(!state.picker_open);
    assert_eq!(state.charts.len(), NUM_CHARTS);
}

#[test]
fn test_feed_event_pdo() {
    let mut state = PlotState::default();
    let ev = CanEvent::Pdo {
        node_id: 1,
        cob_id: 0x181,
        values: vec![PdoValue {
            signal_name: "speed".to_string(),
            value: PdoRawValue::Unsigned(100),
        }],
    };
    state.feed_event(&ev, &[], 1_000_000_000);

    let key = SignalKey {
        source: PlotSignalSource::Pdo {
            node_id: 1,
            cob_id: 0x181,
        },
        name: "speed".to_string(),
    };
    let hist = &state.registry[state.find(&key).unwrap()].history;
    assert_eq!(hist.points.len(), 1);
    let p = hist.points[0];
    assert_eq!(
        [p.time_us as f64 / 1e6, drawn(p.value)],
        [1000.0, 100.0]
    );
}
