//! Live signals for plotting: their histories and the charts that they are assigned to.
//!
//! Sample values are kept as they were received; drawing turns them into floating-point numbers.

use std::collections::VecDeque;
use vstd::prelude::*;

use crate::app::CanEvent;
use crate::canopen::pdo::{PdoRawValue, PdoRawValueView, PdoValue, PdoValueView};
use crate::dbc::types::{DbcFrameSignals, FrameSignalsView};
use crate::text;

verus! {

/// Number of samples kept for each signal.
pub const MAX_HISTORY_POINTS: usize = 10_000;

/// Number of chart pages.
pub const NUM_CHARTS: usize = 8;

// ─── Signal identity ────────────────────────────────────────────────────────

/// Where a signal comes from.
#[derive(Debug)]
pub enum PlotSignalSource {
    /// A PDO of a node.
    Pdo { node_id: u8, cob_id: u16 },
    /// A DBC message.
    Dbc { can_id: u32, message_name: String },
}

/// The mathematical value of a [`PlotSignalSource`].
pub enum SourceView {
    Pdo { node_id: u8, cob_id: u16 },
    Dbc { can_id: u32, message_name: Seq<char> },
}

impl PlotSignalSource {
    /// The source over views.
    pub open spec fn view(&self) -> SourceView {
        match self {
            PlotSignalSource::Pdo { node_id, cob_id } => SourceView::Pdo {
                node_id: *node_id,
                cob_id: *cob_id,
            },
            PlotSignalSource::Dbc { can_id, message_name } => SourceView::Dbc {
                can_id: *can_id,
                message_name: message_name@,
            },
        }
    }
}

impl Clone for PlotSignalSource {
    fn clone(&self) -> (r: Self)
        ensures
            r@ == self@,
    {
        match self {
            PlotSignalSource::Pdo { node_id, cob_id } => PlotSignalSource::Pdo {
                node_id: *node_id,
                cob_id: *cob_id,
            },
            PlotSignalSource::Dbc { can_id, message_name } => PlotSignalSource::Dbc {
                can_id: *can_id,
                message_name: message_name.clone(),
            },
        }
    }
}

/// Identifies a signal.
#[derive(Debug)]
pub struct SignalKey {
    pub source: PlotSignalSource,
    /// Name of the signal or object.
    pub name: String,
}

/// The mathematical value of a [`SignalKey`].
pub struct SignalKeyView {
    pub source: SourceView,
    pub name: Seq<char>,
}

/// The label of a signal: `N1/0x181/speed`, or `message/signal`.
pub open spec fn label_text(key: SignalKeyView) -> Seq<char> {
    match key.source {
        SourceView::Pdo { node_id, cob_id } => "N"@ + text::decimal(node_id as nat) + "/0x"@
            + text::hex_padded(cob_id as nat, 1) + "/"@ + key.name,
        SourceView::Dbc { message_name, .. } => message_name + "/"@ + key.name,
    }
}

impl SignalKey {
    /// The key over views.
    pub open spec fn view(&self) -> SignalKeyView {
        SignalKeyView { source: self.source@, name: self.name@ }
    }

    /// Short label for charts and the picker.
    pub fn label(&self) -> (r: String)
        ensures
            r@ == label_text(self@),
    {
        match &self.source {
            PlotSignalSource::Pdo { node_id, cob_id } => {
                let mut s: String = "N".to_owned();
                text::push_decimal(&mut s, *node_id as u64);
                text::push_str(&mut s, "/0x");
                text::push_hex(&mut s, *cob_id as u64, 1);
                text::push_str(&mut s, "/");
                text::push_str(&mut s, self.name.as_str());
                s
            },
            PlotSignalSource::Dbc { message_name, .. } => {
                let mut s: String = message_name.clone();
                text::push_str(&mut s, "/");
                text::push_str(&mut s, self.name.as_str());
                s
            },
        }
    }

    /// Whether two keys identify the same signal.
    pub fn same(&self, other: &SignalKey) -> (r: bool)
        ensures
            r == (self@ == other@),
    {
        let source: bool = match (&self.source, &other.source) {
            (
                PlotSignalSource::Pdo { node_id: a, cob_id: b },
                PlotSignalSource::Pdo { node_id: c, cob_id: d },
            ) => *a == *c && *b == *d,
            (
                PlotSignalSource::Dbc { can_id: a, message_name: b },
                PlotSignalSource::Dbc { can_id: c, message_name: d },
            ) => *a == *c && text::same_text(b.as_str(), d.as_str()),
            _ => false,
        };
        source && text::same_text(self.name.as_str(), other.name.as_str())
    }
}

impl Clone for SignalKey {
    fn clone(&self) -> (r: Self)
        ensures
            r@ == self@,
    {
        SignalKey { source: self.source.clone(), name: self.name.clone() }
    }
}

// ─── Samples ────────────────────────────────────────────────────────────────

/// A number that can be plotted. Floating-point numbers are held as their bits.
#[derive(Clone, Copy, Debug, PartialEq, Eq, Structural)]
pub enum PlotNumber {
    Integer(i64),
    Unsigned(u64),
    Real32(u32),
    Real64(u64),
}

/// The number that a PDO value can be plotted as; `None` for text and bytes.
pub open spec fn plottable(v: PdoRawValueView) -> Option<PlotNumber> {
    match v {
        PdoRawValueView::Integer(n) => Some(PlotNumber::Integer(n as i64)),
        PdoRawValueView::Unsigned(n) => Some(PlotNumber::Unsigned(n as u64)),
        PdoRawValueView::Real32(n) => Some(PlotNumber::Real32(n as u32)),
        PdoRawValueView::Real64(n) => Some(PlotNumber::Real64(n as u64)),
        PdoRawValueView::Text(_) => None,
        PdoRawValueView::Bytes(_) => None,
    }
}

/// The number that a PDO value can be plotted as; `None` for text and bytes.
pub fn pdo_to_number(v: &PdoRawValue) -> (r: Option<PlotNumber>)
    ensures
        r == plottable(v@),
{
    match v {
        PdoRawValue::Integer(n) => Some(PlotNumber::Integer(*n)),
        PdoRawValue::Unsigned(n) => Some(PlotNumber::Unsigned(*n)),
        PdoRawValue::Real32(n) => Some(PlotNumber::Real32(*n)),
        PdoRawValue::Real64(n) => Some(PlotNumber::Real64(*n)),
        PdoRawValue::Text(_) => None,
        PdoRawValue::Bytes(_) => None,
    }
}

/// A sample: the time in microseconds since 1970, and the value.
#[derive(Clone, Copy, Debug, PartialEq, Eq, Structural)]
pub struct PlotPoint {
    pub time_us: u64,
    pub value: PlotNumber,
}

/// The latest samples of one signal.
#[derive(Debug)]
pub struct SignalHistory {
    /// Physical unit.
    pub unit: String,
    /// Samples, oldest first.
    pub points: VecDeque<PlotPoint>,
    /// Whether the signal is drawn.
    pub visible: bool,
}

/// The mathematical value of a [`SignalHistory`].
pub struct HistoryView {
    pub unit: Seq<char>,
    pub points: Seq<PlotPoint>,
    pub visible: bool,
}

/// A history without samples.
pub open spec fn new_history(unit: Seq<char>) -> HistoryView {
    HistoryView { unit, points: seq![], visible: true }
}

/// Samples after one more; where there is no room for it, the oldest goes.
pub open spec fn with_point(points: Seq<PlotPoint>, p: PlotPoint) -> Seq<PlotPoint> {
    if points.len() >= MAX_HISTORY_POINTS {
        points.drop_first().push(p)
    } else {
        points.push(p)
    }
}

impl SignalHistory {
    /// The history over views.
    pub open spec fn view(&self) -> HistoryView {
        HistoryView { unit: self.unit@, points: self.points@, visible: self.visible }
    }

    /// A history without samples.
    pub fn new(unit: String) -> (r: Self)
        ensures
            r@ == new_history(unit@),
    {
        let r = SignalHistory { unit, points: VecDeque::new(), visible: true };
        assert(r@.points =~= seq![]);
        r
    }

    /// Adds a sample.
    pub fn push(&mut self, p: PlotPoint)
        ensures
            final(self)@ == (HistoryView {
                points: with_point(old(self)@.points, p),
                ..old(self)@
            }),
    {
        if self.points.len() >= MAX_HISTORY_POINTS {
            let ghost full = self.points@;
            let _oldest: Option<PlotPoint> = self.points.pop_front();
            assert(self.points@ =~= full.drop_first());
        }
        self.points.push_back(p);
    }

    /// The samples of the last `window_s` seconds, each with its time relative to now in
    /// microseconds.
    pub fn in_window(&self, now_us: u64, window_s: u32) -> (r: Vec<(i128, PlotNumber)>)
        ensures
            r@ == recent(self@.points, now_us as int, window_s as int),
    {
        let mut out: Vec<(i128, PlotNumber)> = Vec::new();
        let mut i: usize = 0;
        while i < self.points.len()
            invariant
                i <= self.points@.len(),
                out@ == recent(self@.points.take(i as int), now_us as int, window_s as int),
            decreases self.points@.len() - i,
        {
            let p: PlotPoint = self.points[i];
            assert(self@.points.take(i + 1).drop_last() =~= self@.points.take(i as int));
            let age: i128 = p.time_us as i128 - now_us as i128;
            if age >= -(window_s as i128 * 1_000_000) {
                out.push((age, p.value));
            }
            i += 1;
        }
        assert(self@.points.take(self@.points.len() as int) =~= self@.points);
        out
    }
}

/// The samples of the last `window_s` seconds, with times relative to now.
pub open spec fn recent(points: Seq<PlotPoint>, now_us: int, window_s: int) -> Seq<
    (i128, PlotNumber),
>
    decreases points.len(),
{
    if points.len() == 0 {
        seq![]
    } else {
        let before = recent(points.drop_last(), now_us, window_s);
        let p = points.last();
        if p.time_us - now_us >= -(window_s * 1_000_000) {
            before.push(((p.time_us - now_us) as i128, p.value))
        } else {
            before
        }
    }
}

// ─── Registry ───────────────────────────────────────────────────────────────

/// A discovered signal and its history.
#[derive(Debug)]
pub struct RegistryEntry {
    pub key: SignalKey,
    pub history: SignalHistory,
}

/// The mathematical value of a [`RegistryEntry`].
pub struct RegistryEntryView {
    pub key: SignalKeyView,
    pub history: HistoryView,
}

impl RegistryEntry {
    /// The entry over views.
    pub open spec fn view(&self) -> RegistryEntryView {
        RegistryEntryView { key: self.key@, history: self.history@ }
    }
}

/// The views of entries.
pub open spec fn registry_views(s: Seq<RegistryEntry>) -> Seq<RegistryEntryView> {
    s.map_values(|e: RegistryEntry| e@)
}

/// Where a signal stands among the entries.
pub open spec fn place(s: Seq<RegistryEntryView>, key: SignalKeyView) -> Option<int>
    decreases s.len(),
{
    if s.len() == 0 {
        None
    } else {
        match place(s.drop_last(), key) {
            Some(i) => Some(i),
            None => if s.last().key == key {
                Some(s.len() - 1)
            } else {
                None
            },
        }
    }
}

/// A sample of a signal.
pub struct SampleView {
    pub key: SignalKeyView,
    pub unit: Seq<char>,
    pub point: PlotPoint,
}

/// The entries after a sample: it goes to the history of its signal, which is new where the signal
/// was not seen before.
pub open spec fn with_sample(s: Seq<RegistryEntryView>, sample: SampleView) -> Seq<
    RegistryEntryView,
> {
    match place(s, sample.key) {
        Some(i) => s.update(
            i,
            RegistryEntryView {
                key: s[i].key,
                history: HistoryView {
                    points: with_point(s[i].history.points, sample.point),
                    ..s[i].history
                },
            },
        ),
        None => s.push(
            RegistryEntryView {
                key: sample.key,
                history: HistoryView {
                    points: with_point(seq![], sample.point),
                    ..new_history(sample.unit)
                },
            },
        ),
    }
}

/// The entries after samples, one after the other.
pub open spec fn with_samples(s: Seq<RegistryEntryView>, samples: Seq<SampleView>) -> Seq<
    RegistryEntryView,
>
    decreases samples.len(),
{
    if samples.len() == 0 {
        s
    } else {
        with_sample(with_samples(s, samples.drop_last()), samples.last())
    }
}

/// The samples in the values of a PDO: one for each number.
pub open spec fn pdo_samples(
    node_id: u8,
    cob_id: u16,
    values: Seq<PdoValueView>,
    time_us: u64,
) -> Seq<SampleView>
    decreases values.len(),
{
    if values.len() == 0 {
        seq![]
    } else {
        let before = pdo_samples(node_id, cob_id, values.drop_last(), time_us);
        match plottable(values.last().value) {
            Some(value) => before.push(
                SampleView {
                    key: SignalKeyView {
                        source: SourceView::Pdo { node_id, cob_id },
                        name: values.last().signal_name,
                    },
                    unit: seq![],
                    point: PlotPoint { time_us, value },
                },
            ),
            None => before,
        }
    }
}

/// The samples in a decoded frame, with the bits of the physical values.
pub open spec fn dbc_samples(frame: FrameSignalsView, physical: Seq<u64>, time_us: u64, n: nat) -> Seq<
    SampleView,
> {
    Seq::new(
        n,
        |i: int|
            SampleView {
                key: SignalKeyView {
                    source: SourceView::Dbc {
                        can_id: frame.can_id,
                        message_name: frame.message_name,
                    },
                    name: frame.values[i].signal_name,
                },
                unit: frame.values[i].unit,
                point: PlotPoint { time_us, value: PlotNumber::Real64(physical[i]) },
            },
    )
}

/// The samples in an event. Other events than PDOs and decoded frames have none.
pub open spec fn event_samples(ev: CanEvent, physical: Seq<u64>, time_us: u64) -> Seq<SampleView> {
    match ev {
        CanEvent::Pdo { node_id, cob_id, values } => pdo_samples(
            node_id,
            cob_id,
            values@.map_values(|v: PdoValue| v@),
            time_us,
        ),
        CanEvent::DbcSignal(frame) => dbc_samples(
            frame@,
            physical,
            time_us,
            frame@.values.len(),
        ),
        _ => seq![],
    }
}

// ─── Charts ─────────────────────────────────────────────────────────────────

/// Configuration of one chart page.
#[derive(Debug)]
pub struct ChartConfig {
    /// Tab label.
    pub title: String,
    /// Signals assigned to this chart.
    pub assigned: Vec<SignalKey>,
    /// How many seconds of history are shown.
    pub time_window_secs: u32,
    /// Bits of a fixed vertical range; `None` to fit the data.
    pub y_range: Option<(u64, u64)>,
    /// Bits of the positions of horizontal reference lines.
    pub thresholds: Vec<u64>,
}

/// The signals of a chart.
pub open spec fn key_views(s: Seq<SignalKey>) -> Seq<SignalKeyView> {
    s.map_values(|k: SignalKey| k@)
}

impl ChartConfig {
    /// The configuration of page `index` at the start.
    pub fn new(index: usize) -> (r: Self)
        requires
            index < usize::MAX,
        ensures
            r.title@ == "Chart "@ + text::decimal((index + 1) as nat),
            r.assigned@ == Seq::<SignalKey>::empty(),
            r.time_window_secs == 30,
            r.y_range is None,
            r.thresholds@ == Seq::<u64>::empty(),
    {
        let mut title: String = "Chart ".to_owned();
        text::push_decimal(&mut title, (index + 1) as u64);
        ChartConfig {
            title,
            assigned: Vec::new(),
            time_window_secs: 30,
            y_range: None,
            thresholds: Vec::new(),
        }
    }

    /// Whether a signal is assigned to this chart.
    pub fn is_assigned(&self, key: &SignalKey) -> (r: bool)
        ensures
            r == key_views(self.assigned@).contains(key@),
    {
        let mut i: usize = 0;
        while i < self.assigned.len()
            invariant
                i <= self.assigned@.len(),
                forall|j: int| 0 <= j < i ==> (#[trigger] self.assigned@[j])@ != key@,
            decreases self.assigned@.len() - i,
        {
            if self.assigned[i].same(key) {
                assert(key_views(self.assigned@)[i as int] == key@);
                return true;
            }
            i += 1;
        }
        proof {
            if key_views(self.assigned@).contains(key@) {
                let j = choose|j: int|
                    0 <= j < key_views(self.assigned@).len() && key_views(self.assigned@)[j] == key@;
                assert(self.assigned@[j]@ == key@);
            }
        }
        false
    }

    /// Assigns a signal that is not assigned, and takes away one that is.
    pub fn toggle(&mut self, key: &SignalKey)
        ensures
            key_views(final(self).assigned@) == toggled(key_views(old(self).assigned@), key@),
            *final(self) == (ChartConfig { assigned: final(self).assigned, ..*old(self) }),
    {
        let ghost before = key_views(self.assigned@);
        if self.is_assigned(key) {
            let mut kept: Vec<SignalKey> = Vec::new();
            let mut i: usize = 0;
            while i < self.assigned.len()
                invariant
                    i <= self.assigned@.len(),
                    before == key_views(self.assigned@),
                    *self == *old(self),
                    key_views(kept@) == without(before.take(i as int), key@),
                decreases self.assigned@.len() - i,
            {
                assert(before.take(i + 1).drop_last() =~= before.take(i as int));
                assert(before.take(i + 1).last() == self.assigned@[i as int]@);
                if !self.assigned[i].same(key) {
                    let k: SignalKey = self.assigned[i].clone();
                    let ghost earlier = kept@;
                    kept.push(k);
                    assert(key_views(kept@) =~= key_views(earlier).push(
                        self.assigned@[i as int]@,
                    ));
                }
                i += 1;
            }
            assert(before.take(before.len() as int) =~= before);
            self.assigned = kept;
        } else {
            let ghost earlier = self.assigned@;
            self.assigned.push(key.clone());
            assert(key_views(self.assigned@) =~= before.push(key@));
        }
    }

    /// Takes away the signal at a position.
    pub fn remove(&mut self, index: usize)
        requires
            index < old(self).assigned@.len(),
        ensures
            final(self).assigned@ == old(self).assigned@.remove(index as int),
            *final(self) == (ChartConfig { assigned: final(self).assigned, ..*old(self) }),
    {
        let _removed: SignalKey = self.assigned.remove(index);
    }
}

/// The signals without a given one.
pub open spec fn without(s: Seq<SignalKeyView>, key: SignalKeyView) -> Seq<SignalKeyView>
    decreases s.len(),
{
    if s.len() == 0 {
        s
    } else if s.last() == key {
        without(s.drop_last(), key)
    } else {
        without(s.drop_last(), key).push(s.last())
    }
}

/// The assigned signals after a signal is toggled.
pub open spec fn toggled(s: Seq<SignalKeyView>, key: SignalKeyView) -> Seq<SignalKeyView> {
    if s.contains(key) {
        without(s, key)
    } else {
        s.push(key)
    }
}

/// The name of a line in a chart: the label, and the unit in brackets where there is one.
pub open spec fn line_text(key: SignalKeyView, unit: Seq<char>) -> Seq<char> {
    if unit.len() == 0 {
        label_text(key)
    } else {
        label_text(key) + " ["@ + unit + "]"@
    }
}

/// The name of a line in a chart.
pub fn line_name(key: &SignalKey, unit: &str) -> (r: String)
    ensures
        r@ == line_text(key@, unit@),
{
    let mut s: String = key.label();
    if text::chars_of(unit).len() > 0 {
        text::push_str(&mut s, " [");
        text::push_str(&mut s, unit);
        text::push_str(&mut s, "]");
    }
    s
}

// ─── Plot state ─────────────────────────────────────────────────────────────

/// Everything that the plot window shows.
#[derive(Debug)]
pub struct PlotState {
    /// The discovered signals, in the order in which they were first seen.
    pub registry: Vec<RegistryEntry>,
    /// The chart pages.
    pub charts: Vec<ChartConfig>,
    /// Index of the visible chart.
    pub active_chart: usize,
    /// Whether the signal picker is open.
    pub picker_open: bool,
}

impl Default for PlotState {
    fn default() -> (r: Self)
        ensures
            r.registry@.len() == 0,
            r.charts@.len() == NUM_CHARTS,
            forall|i: int|
                0 <= i < NUM_CHARTS ==> (#[trigger] r.charts@[i]).title@ == "Chart "@
                    + text::decimal((i + 1) as nat) && r.charts@[i].assigned@.len() == 0
                    && r.charts@[i].time_window_secs == 30 && r.charts@[i].y_range is None
                    && r.charts@[i].thresholds@.len() == 0,
            r.active_chart == 0,
            !r.picker_open,
    {
        let mut charts: Vec<ChartConfig> = Vec::new();
        let mut i: usize = 0;
        while i < NUM_CHARTS
            invariant
                i <= NUM_CHARTS,
                charts@.len() == i,
                forall|j: int|
                    0 <= j < i ==> (#[trigger] charts@[j]).title@ == "Chart "@ + text::decimal(
                        (j + 1) as nat,
                    ) && charts@[j].assigned@.len() == 0 && charts@[j].time_window_secs == 30
                        && charts@[j].y_range is None && charts@[j].thresholds@.len() == 0,
            decreases NUM_CHARTS - i,
        {
            charts.push(ChartConfig::new(i));
            i += 1;
        }
        PlotState { registry: Vec::new(), charts, active_chart: 0, picker_open: false }
    }
}

impl PlotState {
    /// The discovered signals over views.
    pub open spec fn signals(self) -> Seq<RegistryEntryView> {
        registry_views(self.registry@)
    }

    /// Where a signal stands in the registry.
    pub fn find(&self, key: &SignalKey) -> (r: Option<usize>)
        ensures
            r is Some == place(self.signals(), key@) is Some,
            r matches Some(i) ==> place(self.signals(), key@) == Some(i as int) && i
                < self.registry@.len() && self.registry@[i as int].key@ == key@,
    {
        let ghost all = self.signals();
        let mut i: usize = 0;
        while i < self.registry.len()
            invariant
                i <= self.registry@.len(),
                all == self.signals(),
                place(all.take(i as int), key@) is None,
            decreases self.registry@.len() - i,
        {
            assert(all.take(i + 1).drop_last() =~= all.take(i as int));
            assert(all[i as int] == self.registry@[i as int]@);
            if self.registry[i].key.same(key) {
                proof {
                    lemma_place_stays(all, key@, i + 1, all.len() as int);
                    assert(all.take(all.len() as int) =~= all);
                }
                return Some(i);
            }
            i += 1;
        }
        assert(all.take(all.len() as int) =~= all);
        None
    }

    /// Adds a sample to the history of its signal.
    pub fn add_sample(&mut self, key: SignalKey, unit: &str, point: PlotPoint)
        ensures
            final(self).signals() == with_sample(
                old(self).signals(),
                SampleView { key: key@, unit: unit@, point },
            ),
            *final(self) == (PlotState { registry: final(self).registry, ..*old(self) }),
    {
        let ghost before = self.signals();
        match self.find(&key) {
            Some(i) => {
                self.registry[i].history.push(point);
                assert(self.signals() =~= with_sample(
                    before,
                    SampleView { key: key@, unit: unit@, point },
                ));
            },
            None => {
                let mut history = SignalHistory::new(unit.to_owned());
                history.push(point);
                let e = RegistryEntry { key, history };
                let ghost added = e@;
                self.registry.push(e);
                assert(self.signals() =~= before.push(added));
            },
        }
    }

    fn feed_pdo(&mut self, node_id: u8, cob_id: u16, values: &Vec<PdoValue>, time_us: u64)
        ensures
            final(self).signals() == with_samples(
                old(self).signals(),
                pdo_samples(node_id, cob_id, values@.map_values(|v: PdoValue| v@), time_us),
            ),
            *final(self) == (PlotState { registry: final(self).registry, ..*old(self) }),
    {
        let ghost views = values@.map_values(|v: PdoValue| v@);
        let ghost start = *self;
        let mut i: usize = 0;
        assert(views.take(0) =~= seq![]);
        while i < values.len()
            invariant
                i <= values@.len(),
                views == values@.map_values(|v: PdoValue| v@),
                self.signals() == with_samples(
                    start.signals(),
                    pdo_samples(node_id, cob_id, views.take(i as int), time_us),
                ),
                *self == (PlotState { registry: self.registry, ..start }),
            decreases values@.len() - i,
        {
            assert(views.take(i + 1).drop_last() =~= views.take(i as int));
            assert(views.take(i + 1).last() == values@[i as int]@);
            match pdo_to_number(&values[i].value) {
                Some(value) => {
                    let key = SignalKey {
                        source: PlotSignalSource::Pdo { node_id, cob_id },
                        name: values[i].signal_name.clone(),
                    };
                    proof {
                        reveal_strlit("");
                        assert(""@ =~= seq![]);
                        let done = pdo_samples(node_id, cob_id, views.take(i as int), time_us);
                        let all = pdo_samples(node_id, cob_id, views.take(i + 1), time_us);
                        assert(all.drop_last() =~= done);
                    }
                    self.add_sample(key, "", PlotPoint { time_us, value });
                },
                None => {},
            }
            i += 1;
        }
        assert(views.take(views.len() as int) =~= views);
    }

    fn feed_frame(&mut self, frame: &DbcFrameSignals, physical: &[u64], time_us: u64)
        requires
            physical@.len() == frame.values@.len(),
        ensures
            final(self).signals() == with_samples(
                old(self).signals(),
                dbc_samples(frame@, physical@, time_us, frame@.values.len()),
            ),
            *final(self) == (PlotState { registry: final(self).registry, ..*old(self) }),
    {
        let ghost start = *self;
        let mut i: usize = 0;
        while i < frame.values.len()
            invariant
                i <= frame.values@.len(),
                physical@.len() == frame.values@.len(),
                self.signals() == with_samples(
                    start.signals(),
                    dbc_samples(frame@, physical@, time_us, i as nat),
                ),
                *self == (PlotState { registry: self.registry, ..start }),
            decreases frame.values@.len() - i,
        {
            let key = SignalKey {
                source: PlotSignalSource::Dbc {
                    can_id: frame.can_id,
                    message_name: frame.message_name.clone(),
                },
                name: frame.values[i].signal_name.clone(),
            };
            proof {
                let done = dbc_samples(frame@, physical@, time_us, i as nat);
                let all = dbc_samples(frame@, physical@, time_us, (i + 1) as nat);
                assert(all.drop_last() =~= done);
                assert(frame@.values[i as int] == frame.values@[i as int]@);
            }
            self.add_sample(
                key,
                frame.values[i].unit.as_str(),
                PlotPoint { time_us, value: PlotNumber::Real64(physical[i]) },
            );
            i += 1;
        }
    }

    /// Takes in the samples of an event. `physical` holds the bits of the physical values of the
    /// signals of a decoded frame.
    pub fn feed_event(&mut self, ev: &CanEvent, physical: &[u64], time_us: u64)
        requires
            ev matches CanEvent::DbcSignal(f) ==> physical@.len() == f.values@.len(),
        ensures
            final(self).signals() == with_samples(
                old(self).signals(),
                event_samples(*ev, physical@, time_us),
            ),
            *final(self) == (PlotState { registry: final(self).registry, ..*old(self) }),
    {
        match ev {
            CanEvent::Pdo { node_id, cob_id, values } => {
                self.feed_pdo(*node_id, *cob_id, values, time_us);
            },
            CanEvent::DbcSignal(frame) => {
                self.feed_frame(frame, physical, time_us);
            },
            _ => {},
        }
    }

    /// The places in the registry of the signals from PDOs, or of those from DBC messages, in the
    /// order of their labels.
    pub fn available(&self, pdo: bool) -> (r: Vec<usize>)
        ensures
            is_picker_list(self.signals(), pdo, r@),
    {
        let ghost all = self.signals();
        let mut places: Vec<usize> = Vec::new();
        let mut labels: Vec<Vec<char>> = Vec::new();
        let mut i: usize = 0;
        while i < self.registry.len()
            invariant
                i <= self.registry@.len(),
                all == self.signals(),
                places@.len() == labels@.len(),
                forall|j: int|
                    0 <= j < places@.len() ==> (#[trigger] places@[j]) < i && (
                    all[places@[j] as int].key.source is Pdo) == pdo && labels@[j]@ == label_text(
                        all[places@[j] as int].key,
                    ),
                forall|j: int, k: int|
                    0 <= j < k < places@.len() ==> #[trigger] places@[j] < #[trigger] places@[k],
                forall|p: usize|
                    p < i && (all[p as int].key.source is Pdo) == pdo ==> #[trigger] places@.contains(
                        p,
                    ),
            decreases self.registry@.len() - i,
        {
            assert(all[i as int] == self.registry@[i as int]@);
            let from_pdo: bool = match self.registry[i].key.source {
                PlotSignalSource::Pdo { .. } => true,
                PlotSignalSource::Dbc { .. } => false,
            };
            let ghost earlier = places@;
            if from_pdo == pdo {
                let l: String = self.registry[i].key.label();
                places.push(i);
                labels.push(text::chars_of(l.as_str()));
                assert(places@.last() == i);
                assert forall|p: usize|
                    p < i + 1 && (all[p as int].key.source is Pdo)
                        == pdo implies #[trigger] places@.contains(p) by {
                    if p < i {
                        assert(earlier.contains(p));
                        let j = choose|j: int| 0 <= j < earlier.len() && earlier[j] == p;
                        assert(places@[j] == p);
                    } else {
                        assert(places@[places@.len() - 1] == p);
                    }
                }
            }
            i += 1;
        }
        let order: Vec<usize> = text::ranking(&labels);
        let mut out: Vec<usize> = Vec::new();
        let mut k: usize = 0;
        while k < order.len()
            invariant
                k <= order@.len(),
                text::is_ranking(text::char_views(labels@), labels@.len() as int, order@),
                places@.len() == labels@.len(),
                out@.len() == k,
                forall|j: int| 0 <= j < k ==> #[trigger] out@[j] == places@[order@[j] as int],
            decreases order@.len() - k,
        {
            out.push(places[order[k]]);
            k += 1;
        }
        proof {
            let keys = text::char_views(labels@);
            assert forall|a: int, b: int| 0 <= a < b < out@.len() implies picks_before(
                all,
                #[trigger] out@[a] as int,
                #[trigger] out@[b] as int,
            ) by {
                let x = order@[a] as int;
                let y = order@[b] as int;
                assert(text::ranks_before(keys, x, y));
                assert(keys[x] == labels@[x]@);
                assert(keys[y] == labels@[y]@);
                assert(out@[a] == places@[x]);
                assert(out@[b] == places@[y]);
            }
            assert forall|p: usize|
                p < all.len() && (all[p as int].key.source is Pdo)
                    == pdo implies #[trigger] out@.contains(p) by {
                assert(places@.contains(p));
                let j = choose|j: int| 0 <= j < places@.len() && places@[j] == p;
                text::lemma_ranking_total(keys, labels@.len() as int, order@, j);
                let a = choose|a: int| 0 <= a < order@.len() && order@[a] == j;
                assert(out@[a] == p);
            }
        }
        out
    }
}

/// Whether signal `i` stands before signal `j` in the picker: by label, then in the order in which
/// they were first seen.
pub open spec fn picks_before(s: Seq<RegistryEntryView>, i: int, j: int) -> bool {
    text::less(label_text(s[i].key), label_text(s[j].key)) || (label_text(s[i].key) == label_text(
        s[j].key,
    ) && i < j)
}

/// Whether a list holds the places of the signals of one kind of source, each once, in order.
pub open spec fn is_picker_list(s: Seq<RegistryEntryView>, pdo: bool, r: Seq<usize>) -> bool {
    &&& forall|k: int|
        0 <= k < r.len() ==> (#[trigger] r[k]) < s.len() && (s[r[k] as int].key.source is Pdo)
            == pdo
    &&& forall|a: int, b: int|
        0 <= a < b < r.len() ==> picks_before(s, #[trigger] r[a] as int, #[trigger] r[b] as int)
    &&& forall|p: usize|
        p < s.len() && (s[p as int].key.source is Pdo) == pdo ==> #[trigger] r.contains(p)
}

proof fn lemma_place_stays(s: Seq<RegistryEntryView>, key: SignalKeyView, n: int, m: int)
    requires
        0 <= n <= m <= s.len(),
        place(s.take(n), key) is Some,
    ensures
        place(s.take(m), key) == place(s.take(n), key),
    decreases m - n,
{
    if n < m {
        lemma_place_stays(s, key, n, m - 1);
        assert(s.take(m).drop_last() =~= s.take(m - 1));
    }
}

// ─── Laws ───────────────────────────────────────────────────────────────────

/// Whether no signal has two histories.
pub open spec fn keys_distinct(s: Seq<RegistryEntryView>) -> bool {
    forall|i: int, j: int| 0 <= i < j < s.len() ==> (#[trigger] s[i]).key != (#[trigger] s[j]).key
}

/// Whether no history is longer than its limit.
pub open spec fn histories_bounded(s: Seq<RegistryEntryView>) -> bool {
    forall|i: int|
        0 <= i < s.len() ==> (#[trigger] s[i]).history.points.len() <= MAX_HISTORY_POINTS
}

proof fn lemma_place(s: Seq<RegistryEntryView>, key: SignalKeyView)
    ensures
        place(s, key) matches Some(i) ==> 0 <= i < s.len() && s[i].key == key,
        place(s, key) is None ==> forall|i: int| 0 <= i < s.len() ==> (#[trigger] s[i]).key != key,
    decreases s.len(),
{
    if s.len() > 0 {
        lemma_place(s.drop_last(), key);
        assert forall|i: int| 0 <= i < s.len() && place(s, key) is None implies (
        #[trigger] s[i]).key != key by {
            if i < s.len() - 1 {
                assert(s.drop_last()[i] == s[i]);
            }
        }
    }
}

/// Whatever samples come in, every signal has one history, and no history grows beyond its limit.
pub proof fn law_registry_stays_sound(s: Seq<RegistryEntryView>, samples: Seq<SampleView>)
    requires
        keys_distinct(s),
        histories_bounded(s),
    ensures
        keys_distinct(with_samples(s, samples)),
        histories_bounded(with_samples(s, samples)),
    decreases samples.len(),
{
    if samples.len() > 0 {
        law_registry_stays_sound(s, samples.drop_last());
        lemma_place(with_samples(s, samples.drop_last()), samples.last().key);
    }
}

/// The latest sample of a signal is always kept, at the end of its history.
pub proof fn law_latest_sample_kept(s: Seq<RegistryEntryView>, sample: SampleView)
    requires
        keys_distinct(s),
    ensures
        ({
            let after = with_sample(s, sample);
            &&& place(after, sample.key) matches Some(i) && 0 <= i < after.len() && after[i].key
                == sample.key && after[i].history.points.last() == sample.point
        }),
{
    let after = with_sample(s, sample);
    lemma_place(s, sample.key);
    lemma_place(after, sample.key);
    match place(s, sample.key) {
        Some(i) => {
            assert(after[i].key == sample.key);
            let k = place(after, sample.key);
            assert(k is Some);
            assert(after[k->0].key == sample.key);
            assert(s[k->0].key == sample.key);
            if k->0 < i {
                assert(s[k->0].key != s[i].key);
            } else if i < k->0 {
                assert(s[i].key != s[k->0].key);
            }
        },
        None => {
            assert(after.last().key == sample.key);
            assert(after[after.len() - 1].key == sample.key);
            let k = place(after, sample.key);
            assert(k is Some);
            if k->0 < s.len() {
                assert(s[k->0].key == sample.key);
            }
        },
    }
}

/// Toggling a signal twice takes it away again or brings it back to the chart; in both cases it
/// is assigned exactly if it was before.
pub proof fn law_toggle_twice(s: Seq<SignalKeyView>, key: SignalKeyView)
    ensures
        toggled(s, key).contains(key) == !s.contains(key),
        toggled(toggled(s, key), key).contains(key) == s.contains(key),
{
    lemma_without(s, key);
    lemma_without(toggled(s, key), key);
    if !s.contains(key) {
        assert(s.push(key).last() == key);
        assert(s.push(key).contains(key));
    } else {
        assert(without(s, key).push(key).last() == key);
    }
}

proof fn lemma_without(s: Seq<SignalKeyView>, key: SignalKeyView)
    ensures
        !without(s, key).contains(key),
    decreases s.len(),
{
    if s.len() > 0 {
        lemma_without(s.drop_last(), key);
        if s.last() != key {
            let w = without(s.drop_last(), key);
            assert forall|i: int| 0 <= i < w.push(s.last()).len() implies w.push(s.last())[i]
                != key by {
                if i < w.len() {
                    assert(w.contains(w[i]));
                }
            }
        }
    }
}

/// A sample goes to the history of its own signal; the histories of other signals stay as they
/// were.
pub proof fn law_other_histories_stay(s: Seq<RegistryEntryView>, sample: SampleView, i: int)
    requires
        0 <= i < s.len(),
        s[i].key != sample.key,
    ensures
        with_sample(s, sample).len() >= s.len(),
        with_sample(s, sample)[i] == s[i],
{
    lemma_place(s, sample.key);
}

/// A full history keeps its latest samples, in order: only the oldest goes.
pub proof fn law_history_keeps_latest(points: Seq<PlotPoint>, p: PlotPoint)
    requires
        points.len() <= MAX_HISTORY_POINTS,
    ensures
        with_point(points, p).last() == p,
        points.len() < MAX_HISTORY_POINTS ==> with_point(points, p).drop_last() == points,
        points.len() == MAX_HISTORY_POINTS ==> with_point(points, p).drop_last() == points.skip(1),
{
    if points.len() < MAX_HISTORY_POINTS {
        assert(with_point(points, p).drop_last() =~= points);
    } else {
        assert(with_point(points, p).drop_last() =~= points.skip(1));
    }
}

/// The shown samples are exactly those that are no older than the window, in order, each with its
/// time relative to now.
pub proof fn law_window_shows_recent(points: Seq<PlotPoint>, now_us: u64, window_s: u32)
    ensures
        recent(points, now_us as int, window_s as int) == points.filter(
            |p: PlotPoint| now_us - p.time_us <= 1_000_000 * window_s,
        ).map_values(|p: PlotPoint| ((p.time_us - now_us) as i128, p.value)),
    decreases points.len(),
{
    let keep = |p: PlotPoint| now_us - p.time_us <= 1_000_000 * window_s;
    let shown = |p: PlotPoint| ((p.time_us - now_us) as i128, p.value);
    reveal(Seq::filter);
    if points.len() > 0 {
        law_window_shows_recent(points.drop_last(), now_us, window_s);
    }
    assert(recent(points, now_us as int, window_s as int) =~= points.filter(keep).map_values(shown));
}

/// A PDO gives a sample for each of its values that is a number, under the node, the identifier and
/// the name of the signal; text and bytes give none.
pub proof fn law_pdo_samples(node_id: u8, cob_id: u16, values: Seq<PdoValueView>, time_us: u64)
    ensures
        ({
            let numbers = values.filter(
                |v: PdoValueView| !(v.value is Text) && !(v.value is Bytes),
            );
            let samples = pdo_samples(node_id, cob_id, values, time_us);
            &&& samples.len() == numbers.len()
            &&& forall|i: int|
                0 <= i < samples.len() ==> {
                    &&& (#[trigger] samples[i]).key.name == numbers[i].signal_name
                    &&& samples[i].key.source == (SourceView::Pdo { node_id, cob_id })
                    &&& samples[i].point.time_us == time_us
                    &&& plottable(numbers[i].value) == Some(samples[i].point.value)
                }
        }),
    decreases values.len(),
{
    reveal(Seq::filter);
    if values.len() > 0 {
        law_pdo_samples(node_id, cob_id, values.drop_last(), time_us);
    }
}

/// A signal that is toggled is at the end of the chart or gone; all others stay, in order.
pub proof fn law_toggle_keeps_others(s: Seq<SignalKeyView>, key: SignalKeyView)
    ensures
        !s.contains(key) ==> toggled(s, key) == s.push(key),
        s.contains(key) ==> toggled(s, key) == s.filter(|k: SignalKeyView| k != key),
{
    lemma_without_is_filter(s, key);
}

proof fn lemma_without_is_filter(s: Seq<SignalKeyView>, key: SignalKeyView)
    ensures
        without(s, key) == s.filter(|k: SignalKeyView| k != key),
    decreases s.len(),
{
    let keep = |k: SignalKeyView| k != key;
    reveal(Seq::filter);
    if s.len() > 0 {
        lemma_without_is_filter(s.drop_last(), key);
    }
    assert(without(s, key) =~= s.filter(keep));
}

} // verus!
