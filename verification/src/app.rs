//! Application state and the events that update it.
//!
//! Free of any user interface. Times are in microseconds on a clock of the caller's choice.

use std::collections::{BTreeMap, VecDeque};

use vstd::prelude::*;

use crate::canopen::nmt::NmtState;
use crate::canopen::pdo::{values_view, PdoValue, PdoValueView};
use crate::canopen::sdo::{SdoDirection, SdoValue};
use crate::dbc::types::{
    DbcByteOrder, DbcFrameSignals, DbcSignalDef, DbcSignalValue, DbcValueType, FrameSignalsView,
    SignalValueView,
};
use crate::text;

verus! {

broadcast use vstd::std_specs::btree::group_btree_axioms;

/// How many SDO events are kept.
pub const SDO_LOG_CAP: usize = 50;

/// Length of the window over which the frame rate is measured.
pub const FPS_WINDOW_US: u64 = 2_000_000;

/// When something was last seen, and how long after the time before.
#[derive(Clone, Copy, Debug, PartialEq, Eq, Structural)]
pub struct Seen {
    pub at_us: u64,
    pub period_us: Option<u64>,
}

/// The time between two points in time, zero if they are the wrong way round.
pub open spec fn elapsed(from_us: u64, now_us: u64) -> u64 {
    if now_us >= from_us {
        (now_us - from_us) as u64
    } else {
        0
    }
}

fn elapsed_us(from_us: u64, now_us: u64) -> (r: u64)
    ensures
        r == elapsed(from_us, now_us),
{
    if now_us >= from_us {
        now_us - from_us
    } else {
        0
    }
}

/// The record of something seen now, with the period since it was last seen.
pub open spec fn seen_again(before: Option<Seen>, now_us: u64) -> Seen {
    Seen {
        at_us: now_us,
        period_us: match before {
            Some(s) => Some(elapsed(s.at_us, now_us)),
            None => None,
        },
    }
}

fn see_again(before: Option<Seen>, now_us: u64) -> (r: Seen)
    ensures
        r == seen_again(before, now_us),
{
    Seen {
        at_us: now_us,
        period_us: match before {
            Some(s) => Some(elapsed_us(s.at_us, now_us)),
            None => None,
        },
    }
}

/// Live state of a node.
#[derive(Debug)]
pub struct NodeEntry {
    pub name: String,
    pub state: NmtState,
    /// The last heartbeat.
    pub seen: Option<Seen>,
}

/// The mathematical value of a [`NodeEntry`].
pub struct NodeView {
    pub name: Seq<char>,
    pub state: NmtState,
    pub seen: Option<Seen>,
}

impl NodeEntry {
    /// The entry over views.
    pub open spec fn view(&self) -> NodeView {
        NodeView { name: self.name@, state: self.state, seen: self.seen }
    }
}

/// Live values of a PDO.
#[derive(Debug)]
pub struct PdoEntry {
    pub values: Vec<PdoValue>,
    pub seen: Seen,
}

/// The mathematical value of a [`PdoEntry`].
pub struct PdoEntryView {
    pub values: Seq<PdoValueView>,
    pub seen: Seen,
}

impl PdoEntry {
    /// The entry over views.
    pub open spec fn view(&self) -> PdoEntryView {
        PdoEntryView { values: values_view(self.values@), seen: self.seen }
    }
}

/// A transfer that was started and is not answered yet.
#[derive(Clone, Copy, Debug, PartialEq, Eq, Structural)]
pub struct PendingSdo {
    pub index: u16,
    pub subindex: u8,
    pub direction: SdoDirection,
}

/// Most recent signal value of a message.
#[derive(Debug)]
pub struct DbcMessageEntry {
    pub message_name: String,
    pub values: DbcSignalValue,
}

/// Live state of a decoded signal. The physical value is `raw_int * factor + offset`; scale and
/// offset are held as IEEE 754 bit patterns.
#[derive(Debug)]
pub struct DbcSignalEntry {
    pub signal_name: String,
    pub can_id: u32,
    pub message_name: String,
    pub raw_int: i64,
    pub unit: String,
    pub description: Option<String>,
    pub last_seen_us: u64,
    pub count: u64,
    /// Encoding metadata of the last decode that had any.
    pub def: DbcSignalDef,
}

/// The mathematical value of a [`DbcSignalEntry`].
pub struct SignalEntryView {
    pub signal_name: Seq<char>,
    pub can_id: u32,
    pub message_name: Seq<char>,
    pub raw_int: int,
    pub unit: Seq<char>,
    pub description: Option<Seq<char>>,
    pub last_seen_us: u64,
    pub count: int,
    pub def: DbcSignalDef,
}

/// The text of an optional string.
pub open spec fn text_view(s: Option<String>) -> Option<Seq<char>> {
    match s {
        Some(t) => Some(t@),
        None => None,
    }
}

impl DbcSignalEntry {
    /// The entry over views.
    pub open spec fn view(&self) -> SignalEntryView {
        SignalEntryView {
            signal_name: self.signal_name@,
            can_id: self.can_id,
            message_name: self.message_name@,
            raw_int: self.raw_int as int,
            unit: self.unit@,
            description: text_view(self.description),
            last_seen_us: self.last_seen_us,
            count: self.count as int,
            def: self.def,
        }
    }
}

/// Entries as views.
pub open spec fn signal_entries(s: Seq<DbcSignalEntry>) -> Seq<SignalEntryView> {
    s.map_values(|x: DbcSignalEntry| x@)
}

/// An SDO event kept for display.
#[derive(Debug)]
pub struct SdoLogEntry {
    /// Time of the event, in microseconds since 1970.
    pub ts_us: i64,
    pub node_id: u8,
    pub direction: SdoDirection,
    pub index: u16,
    pub subindex: u8,
    pub name: String,
    pub value: Option<SdoValue>,
    pub abort_code: Option<u32>,
}

/// A decoded event.
#[derive(Debug)]
pub enum CanEvent {
    /// A node reported its state.
    Nmt { node_id: u8, state: NmtState },
    /// An SDO transfer was observed or answered.
    Sdo(SdoLogEntry),
    /// A PDO was received.
    Pdo { node_id: u8, cob_id: u16, values: Vec<PdoValue> },
    /// A transfer was started by the master.
    SdoPending { node_id: u8, index: u16, subindex: u8, direction: SdoDirection },
    /// The adapter failed to open.
    AdapterError(String),
    /// The adapter was disconnected.
    AdapterDisconnected,
    /// The adapter is back.
    AdapterReconnected,
    /// Firmware version of the device.
    FirmwareVersion(u8, u8, u8),
    /// Bitrate found by automatic detection.
    AutoBaudDetected(u32),
    /// Signals decoded from a frame.
    DbcSignal(DbcFrameSignals),
    /// A database was loaded.
    DbcLoaded(String),
    /// A frame that nothing decodes.
    RawFrame { cob_id: u32, data: Vec<u8>, port: u8 },
}

/// A measured frame rate: so many frames in so much time.
#[derive(Clone, Copy, Debug, PartialEq, Eq, Structural)]
pub struct FrameRate {
    pub frames: u64,
    pub elapsed_us: u64,
}

/// A frame rate and the bitrate that relates it to the bus load: about 125 bits per frame.
#[derive(Clone, Copy, Debug, PartialEq, Eq, Structural)]
pub struct BusLoad {
    pub rate: FrameRate,
    pub baud_rate: u32,
}

/// The counters of received frames.
#[derive(Clone, Copy, Debug, PartialEq, Eq, Structural)]
pub struct FrameCounters {
    /// Total frames received.
    pub total: u64,
    /// The last measured rate; `None` before the first window is over.
    pub rate: Option<FrameRate>,
    /// What the last bus load was derived from; `None` before there is one.
    pub load: Option<BusLoad>,
    pub window_start_us: u64,
    pub window_count: u64,
}

/// One more, as far as the counter goes.
pub open spec fn bumped(n: u64) -> u64 {
    if n < u64::MAX {
        (n + 1) as u64
    } else {
        n
    }
}

/// The counters after one more frame. Once the window is over, the rate is measured and a new
/// window starts; the bus load follows where the bitrate is known.
pub open spec fn counted(c: FrameCounters, baud_rate: u32, now_us: u64) -> FrameCounters {
    let count = bumped(c.window_count);
    let rate = FrameRate { frames: count, elapsed_us: elapsed(c.window_start_us, now_us) };
    if rate.elapsed_us >= FPS_WINDOW_US {
        FrameCounters {
            total: bumped(c.total),
            rate: Some(rate),
            load: if baud_rate > 0 {
                Some(BusLoad { rate, baud_rate })
            } else {
                c.load
            },
            window_start_us: now_us,
            window_count: 0,
        }
    } else {
        FrameCounters { total: bumped(c.total), window_count: count, ..c }
    }
}

/// Application state.
pub struct AppState {
    /// Nodes by ID.
    pub node_map: BTreeMap<u8, NodeEntry>,
    /// PDOs by [`pdo_key`].
    pub pdo_values: BTreeMap<u32, PdoEntry>,
    /// The latest SDO events, oldest first.
    pub sdo_log: VecDeque<SdoLogEntry>,
    /// Transfers in flight, by node.
    pub pending_sdos: BTreeMap<u8, PendingSdo>,
    /// Decoded signals in the order in which they were first seen, each once.
    pub dbc_signals: Vec<DbcSignalEntry>,
    /// The last payload of each message of the database.
    pub last_raw_bytes: BTreeMap<u32, Vec<u8>>,
    /// Name of the loaded database.
    pub dbc_loaded: Option<String>,
    pub frames: FrameCounters,
    /// Bitrate in bits per second.
    pub baud_rate: u32,
    pub device_fw_version: Option<(u8, u8, u8)>,
    pub detected_baud: Option<u32>,
    /// Path of the log file.
    pub log_path: String,
}

/// The key of a PDO: node ID and COB-ID in one number.
pub open spec fn pdo_key(node_id: u8, cob_id: u16) -> u32 {
    (node_id * 0x1_0000 + cob_id) as u32
}

/// The mathematical value of an [`AppState`].
pub struct StateView {
    pub nodes: Map<u8, NodeView>,
    pub pdos: Map<u32, PdoEntryView>,
    pub sdo_log: Seq<SdoLogEntry>,
    pub pending: Map<u8, PendingSdo>,
    pub signals: Seq<SignalEntryView>,
    pub raw_bytes: Map<u32, Seq<u8>>,
    pub dbc_loaded: Option<Seq<char>>,
    pub frames: FrameCounters,
    pub baud_rate: u32,
    pub device_fw_version: Option<(u8, u8, u8)>,
    pub detected_baud: Option<u32>,
    pub log_path: Seq<char>,
}

impl AppState {
    /// The state over views.
    pub open spec fn view(&self) -> StateView {
        StateView {
            nodes: self.node_map@.map_values(|n: NodeEntry| n@),
            pdos: self.pdo_values@.map_values(|p: PdoEntry| p@),
            sdo_log: self.sdo_log@,
            pending: self.pending_sdos@,
            signals: signal_entries(self.dbc_signals@),
            raw_bytes: self.last_raw_bytes@.map_values(|v: Vec<u8>| v@),
            dbc_loaded: text_view(self.dbc_loaded),
            frames: self.frames,
            baud_rate: self.baud_rate,
            device_fw_version: self.device_fw_version,
            detected_baud: self.detected_baud,
            log_path: self.log_path@,
        }
    }
}

/// The state at the start of a session.
pub open spec fn initial_state(log_path: Seq<char>, baud_rate: u32, now_us: u64) -> StateView {
    StateView {
        nodes: Map::empty(),
        pdos: Map::empty(),
        sdo_log: Seq::empty(),
        pending: Map::empty(),
        signals: Seq::empty(),
        raw_bytes: Map::empty(),
        dbc_loaded: None,
        frames: FrameCounters {
            total: 0,
            rate: None,
            load: None,
            window_start_us: now_us,
            window_count: 0,
        },
        baud_rate,
        device_fw_version: None,
        detected_baud: None,
        log_path,
    }
}

/// The nodes with one more configured node. A node that is there already is kept.
pub open spec fn with_node(nodes: Map<u8, NodeView>, id: u8, name: Seq<char>) -> Map<u8, NodeView> {
    if nodes.contains_key(id) {
        nodes
    } else {
        nodes.insert(id, NodeView { name, state: NmtState::Unknown(0xFF), seen: None })
    }
}

/// The nodes with the first `n` of the given configured nodes.
pub open spec fn with_nodes(nodes: Map<u8, NodeView>, given: Seq<(u8, String)>, n: nat) -> Map<
    u8,
    NodeView,
>
    decreases n,
{
    if n == 0 {
        nodes
    } else {
        with_node(with_nodes(nodes, given, (n - 1) as nat), given[n - 1].0, given[n - 1].1@)
    }
}

/// The nodes after a node reported its state. A node seen for the first time is named after its
/// ID.
pub open spec fn with_state(nodes: Map<u8, NodeView>, id: u8, state: NmtState, now_us: u64) -> Map<
    u8,
    NodeView,
> {
    let before = if nodes.contains_key(id) {
        nodes[id]
    } else {
        NodeView { name: "node"@ + text::decimal(id as nat), state, seen: None }
    };
    nodes.insert(
        id,
        NodeView { name: before.name, state, seen: Some(seen_again(before.seen, now_us)) },
    )
}

/// The SDO log with one more event; beyond its capacity the oldest event leaves.
pub open spec fn logged(log: Seq<SdoLogEntry>, e: SdoLogEntry) -> Seq<SdoLogEntry> {
    if log.len() >= SDO_LOG_CAP {
        log.drop_first().push(e)
    } else {
        log.push(e)
    }
}

/// The PDOs after one was received.
pub open spec fn with_pdo(
    pdos: Map<u32, PdoEntryView>,
    key: u32,
    values: Seq<PdoValueView>,
    now_us: u64,
) -> Map<u32, PdoEntryView> {
    let before = if pdos.contains_key(key) {
        Some(pdos[key].seen)
    } else {
        None
    };
    pdos.insert(key, PdoEntryView { values, seen: seen_again(before, now_us) })
}

/// The encoding metadata of a signal that has none yet. The bit pattern is that of a scale of 1.
pub open spec fn default_def() -> DbcSignalDef {
    DbcSignalDef {
        start_bit: 0,
        bit_size: 0,
        byte_order: DbcByteOrder::LittleEndian,
        value_type: DbcValueType::Unsigned,
        factor_bits: 0x3FF0_0000_0000_0000,
        offset_bits: 0,
        dlc: 8,
    }
}

/// Whether an entry is that of a signal of a message.
pub open spec fn is_entry_of(e: SignalEntryView, can_id: u32, name: Seq<char>) -> bool {
    e.can_id == can_id && e.signal_name == name
}

/// The position of a signal's first entry among the first `n`.
pub open spec fn entry_position(s: Seq<SignalEntryView>, can_id: u32, name: Seq<char>, n: nat) -> Option<
    int,
>
    decreases n,
{
    if n == 0 {
        None
    } else {
        match entry_position(s, can_id, name, (n - 1) as nat) {
            Some(i) => Some(i),
            None => if is_entry_of(s[n - 1], can_id, name) {
                Some(n - 1)
            } else {
                None
            },
        }
    }
}

/// An entry after its signal was decoded once more.
pub open spec fn refreshed(e: SignalEntryView, sig: SignalValueView, now_us: u64) -> SignalEntryView {
    SignalEntryView {
        raw_int: sig.raw_int,
        unit: sig.unit,
        description: sig.description,
        last_seen_us: now_us,
        count: bumped(e.count as u64) as int,
        def: match sig.encoding_def {
            Some(d) => d,
            None => e.def,
        },
        ..e
    }
}

/// The entry of a signal before it was ever decoded.
pub open spec fn fresh_entry(f: FrameSignalsView, sig: SignalValueView) -> SignalEntryView {
    SignalEntryView {
        signal_name: sig.signal_name,
        can_id: f.can_id,
        message_name: f.message_name,
        raw_int: 0,
        unit: sig.unit,
        description: None,
        last_seen_us: 0,
        count: 0,
        def: default_def(),
    }
}

/// The entries after one signal of a frame was decoded.
pub open spec fn with_signal(
    s: Seq<SignalEntryView>,
    f: FrameSignalsView,
    sig: SignalValueView,
    now_us: u64,
) -> Seq<SignalEntryView> {
    match entry_position(s, f.can_id, sig.signal_name, s.len()) {
        Some(i) => s.update(i, refreshed(s[i], sig, now_us)),
        None => s.push(refreshed(fresh_entry(f, sig), sig, now_us)),
    }
}

/// The entries after the first `n` signals of a frame were decoded.
pub open spec fn with_signals(s: Seq<SignalEntryView>, f: FrameSignalsView, n: nat, now_us: u64) -> Seq<
    SignalEntryView,
>
    decreases n,
{
    if n == 0 {
        s
    } else {
        with_signal(with_signals(s, f, (n - 1) as nat, now_us), f, f.values[n - 1], now_us)
    }
}

/// The state after an event. Every event counts as a frame.
pub open spec fn applied(s: StateView, ev: CanEvent, now_us: u64) -> StateView {
    let c = StateView { frames: counted(s.frames, s.baud_rate, now_us), ..s };
    match ev {
        CanEvent::Nmt { node_id, state } => StateView {
            nodes: with_state(c.nodes, node_id, state, now_us),
            ..c
        },
        CanEvent::Sdo(e) => StateView {
            pending: c.pending.remove(e.node_id),
            sdo_log: logged(c.sdo_log, e),
            ..c
        },
        CanEvent::Pdo { node_id, cob_id, values } => StateView {
            pdos: with_pdo(c.pdos, pdo_key(node_id, cob_id), values_view(values@), now_us),
            ..c
        },
        CanEvent::SdoPending { node_id, index, subindex, direction } => StateView {
            pending: c.pending.insert(node_id, PendingSdo { index, subindex, direction }),
            ..c
        },
        CanEvent::FirmwareVersion(major, minor, patch) => StateView {
            device_fw_version: Some((major, minor, patch)),
            ..c
        },
        CanEvent::AutoBaudDetected(baud) => StateView {
            detected_baud: Some(baud),
            baud_rate: baud,
            ..c
        },
        CanEvent::DbcLoaded(name) => StateView { dbc_loaded: Some(name@), ..c },
        CanEvent::DbcSignal(f) => StateView {
            raw_bytes: c.raw_bytes.insert(f.can_id, f.raw_data@),
            signals: with_signals(c.signals, f@, f@.values.len(), now_us),
            ..c
        },
        _ => c,
    }
}

impl AppState {
    /// The state at the start of a session.
    pub fn new(log_path: String, baud_rate: u32, now_us: u64) -> (r: Self)
        ensures
            r@ == initial_state(log_path@, baud_rate, now_us),
    {
        let r: AppState = AppState {
            node_map: BTreeMap::new(),
            pdo_values: BTreeMap::new(),
            sdo_log: VecDeque::new(),
            pending_sdos: BTreeMap::new(),
            dbc_signals: Vec::new(),
            last_raw_bytes: BTreeMap::new(),
            dbc_loaded: None,
            frames: FrameCounters {
                total: 0,
                rate: None,
                load: None,
                window_start_us: now_us,
                window_count: 0,
            },
            baud_rate,
            device_fw_version: None,
            detected_baud: None,
            log_path,
        };
        proof {
            let i = initial_state(log_path@, baud_rate, now_us);
            assert(r@.nodes =~= i.nodes);
            assert(r@.pdos =~= i.pdos);
            assert(r@.signals =~= i.signals);
            assert(r@.raw_bytes =~= i.raw_bytes);
        }
        r
    }

    /// Enters configured nodes, so that they are shown before any heartbeat is received.
    pub fn init_nodes(&mut self, nodes: &Vec<(u8, String)>)
        ensures
            final(self)@ == (StateView {
                nodes: with_nodes(old(self)@.nodes, nodes@, nodes@.len()),
                ..old(self)@
            }),
    {
        let mut i: usize = 0;
        while i < nodes.len()
            invariant
                i <= nodes@.len(),
                self@ == (StateView {
                    nodes: with_nodes(old(self)@.nodes, nodes@, i as nat),
                    ..old(self)@
                }),
            decreases nodes@.len() - i,
        {
            let id: u8 = nodes[i].0;
            let ghost before = self.node_map@;
            if !self.node_map.contains_key(&id) {
                let entry: NodeEntry = NodeEntry {
                    name: nodes[i].1.clone(),
                    state: NmtState::Unknown(0xFF),
                    seen: None,
                };
                let ghost added = entry@;
                self.node_map.insert(id, entry);
                assert(self@.nodes =~= before.map_values(|n: NodeEntry| n@).insert(id, added));
            }
            assert(before.map_values(|n: NodeEntry| n@).contains_key(id) == before.contains_key(
                id,
            ));
            i += 1;
        }
    }

    /// Counts a frame.
    pub fn record_frame(&mut self, now_us: u64)
        ensures
            final(self)@ == (StateView {
                frames: counted(old(self)@.frames, old(self)@.baud_rate, now_us),
                ..old(self)@
            }),
    {
        let c: FrameCounters = self.frames;
        let total: u64 = if c.total < u64::MAX {
            c.total + 1
        } else {
            c.total
        };
        let count: u64 = if c.window_count < u64::MAX {
            c.window_count + 1
        } else {
            c.window_count
        };
        let passed: u64 = elapsed_us(c.window_start_us, now_us);
        if passed >= FPS_WINDOW_US {
            let rate: FrameRate = FrameRate { frames: count, elapsed_us: passed };
            let load: Option<BusLoad> = if self.baud_rate > 0 {
                Some(BusLoad { rate, baud_rate: self.baud_rate })
            } else {
                c.load
            };
            self.frames =
            FrameCounters {
                total,
                rate: Some(rate),
                load,
                window_start_us: now_us,
                window_count: 0,
            };
        } else {
            self.frames =
            FrameCounters {
                total,
                rate: c.rate,
                load: c.load,
                window_start_us: c.window_start_us,
                window_count: count,
            };
        }
    }

    /// Records the state that a node reported.
    pub fn update_nmt(&mut self, node_id: u8, state: NmtState, now_us: u64)
        ensures
            final(self)@ == (StateView {
                nodes: with_state(old(self)@.nodes, node_id, state, now_us),
                ..old(self)@
            }),
    {
        let ghost before = self.node_map@;
        let (name, seen) = match self.node_map.get(&node_id) {
            Some(n) => (n.name.clone(), n.seen),
            None => {
                let mut s: String = "node".to_owned();
                text::push_decimal(&mut s, node_id as u64);
                (s, None)
            },
        };
        let entry: NodeEntry = NodeEntry { name, state, seen: Some(see_again(seen, now_us)) };
        let ghost added = entry@;
        self.node_map.insert(node_id, entry);
        assert(self@.nodes =~= before.map_values(|n: NodeEntry| n@).insert(node_id, added));
        assert(before.map_values(|n: NodeEntry| n@).contains_key(node_id) == before.contains_key(
            node_id,
        ));
    }

    /// Keeps an SDO event.
    pub fn push_sdo(&mut self, entry: SdoLogEntry)
        ensures
            final(self)@ == (StateView {
                sdo_log: logged(old(self)@.sdo_log, entry),
                ..old(self)@
            }),
    {
        if self.sdo_log.len() >= SDO_LOG_CAP {
            let ghost full = self.sdo_log@;
            let _oldest: Option<SdoLogEntry> = self.sdo_log.pop_front();
            assert(self.sdo_log@ =~= full.drop_first());
        }
        self.sdo_log.push_back(entry);
    }

    /// Records the values of a PDO.
    pub fn update_pdo(&mut self, node_id: u8, cob_id: u16, values: Vec<PdoValue>, now_us: u64)
        ensures
            final(self)@ == (StateView {
                pdos: with_pdo(
                    old(self)@.pdos,
                    pdo_key(node_id, cob_id),
                    values_view(values@),
                    now_us,
                ),
                ..old(self)@
            }),
    {
        let key: u32 = node_id as u32 * 0x1_0000 + cob_id as u32;
        let ghost before = self.pdo_values@;
        let seen: Option<Seen> = match self.pdo_values.get(&key) {
            Some(p) => Some(p.seen),
            None => None,
        };
        let entry: PdoEntry = PdoEntry { values, seen: see_again(seen, now_us) };
        let ghost added = entry@;
        self.pdo_values.insert(key, entry);
        assert(self@.pdos =~= before.map_values(|p: PdoEntry| p@).insert(key, added));
        assert(before.map_values(|p: PdoEntry| p@).contains_key(key) == before.contains_key(key));
    }

    fn find_entry(&self, can_id: u32, name: &str) -> (r: Option<usize>)
        ensures
            r is Some == entry_position(self@.signals, can_id, name@, self@.signals.len()) is Some,
            r matches Some(i) ==> entry_position(
                self@.signals,
                can_id,
                name@,
                self@.signals.len(),
            ) == Some(i as int) && i < self.dbc_signals@.len(),
    {
        let ghost all = self@.signals;
        let mut i: usize = 0;
        while i < self.dbc_signals.len()
            invariant
                i <= self.dbc_signals@.len(),
                all == self@.signals,
                entry_position(all, can_id, name@, i as nat) is None,
            decreases self.dbc_signals@.len() - i,
        {
            let e: &DbcSignalEntry = &self.dbc_signals[i];
            assert(all[i as int] == e@);
            if e.can_id == can_id && text::same_text(e.signal_name.as_str(), name) {
                proof {
                    lemma_position_stays(all, can_id, name@, (i + 1) as nat, all.len());
                }
                return Some(i);
            }
            i += 1;
        }
        None
    }

    fn apply_signal(&mut self, frame: Ghost<FrameSignalsView>, can_id: u32, message_name: &str, sig: DbcSignalValue, now_us: u64)
        requires
            frame@.can_id == can_id,
            frame@.message_name == message_name@,
        ensures
            final(self)@ == (StateView {
                signals: with_signal(old(self)@.signals, frame@, sig@, now_us),
                ..old(self)@
            }),
    {
        let ghost before = self.dbc_signals@;
        match self.find_entry(can_id, sig.signal_name.as_str()) {
            Some(i) => {
                let name: String = self.dbc_signals[i].signal_name.clone();
                let message: String = self.dbc_signals[i].message_name.clone();
                let count: u64 = self.dbc_signals[i].count;
                let def: DbcSignalDef = match sig.encoding_def {
                    Some(d) => d,
                    None => self.dbc_signals[i].def,
                };
                let e: DbcSignalEntry = DbcSignalEntry {
                    signal_name: name,
                    can_id: self.dbc_signals[i].can_id,
                    message_name: message,
                    raw_int: sig.raw_int,
                    unit: sig.unit,
                    description: sig.description,
                    last_seen_us: now_us,
                    count: if count < u64::MAX {
                        count + 1
                    } else {
                        count
                    },
                    def,
                };
                let ghost changed = e@;
                self.dbc_signals[i] = e;
                proof {
                    assert(signal_entries(self.dbc_signals@) =~= signal_entries(before).update(
                        i as int,
                        changed,
                    ));
                    assert(changed == refreshed(signal_entries(before)[i as int], sig@, now_us));
                }
            },
            None => {
                let def: DbcSignalDef = match sig.encoding_def {
                    Some(d) => d,
                    None => DbcSignalDef {
                        start_bit: 0,
                        bit_size: 0,
                        byte_order: DbcByteOrder::LittleEndian,
                        value_type: DbcValueType::Unsigned,
                        factor_bits: 0x3FF0_0000_0000_0000,
                        offset_bits: 0,
                        dlc: 8,
                    },
                };
                let e: DbcSignalEntry = DbcSignalEntry {
                    signal_name: sig.signal_name,
                    can_id,
                    message_name: message_name.to_owned(),
                    raw_int: sig.raw_int,
                    unit: sig.unit,
                    description: sig.description,
                    last_seen_us: now_us,
                    count: 1,
                    def,
                };
                let ghost added = e@;
                self.dbc_signals.push(e);
                proof {
                    assert(signal_entries(self.dbc_signals@) =~= signal_entries(before).push(
                        added,
                    ));
                    assert(added == refreshed(fresh_entry(frame@, sig@), sig@, now_us));
                }
            },
        }
    }
}

proof fn lemma_position_stays(
    s: Seq<SignalEntryView>,
    can_id: u32,
    name: Seq<char>,
    m: nat,
    n: nat,
)
    requires
        m <= n,
        entry_position(s, can_id, name, m) is Some,
    ensures
        entry_position(s, can_id, name, n) == entry_position(s, can_id, name, m),
    decreases n,
{
    if m < n {
        lemma_position_stays(s, can_id, name, m, (n - 1) as nat);
    }
}

/// Applies a single event to the state.
pub fn apply_event(state: &mut AppState, ev: CanEvent, now_us: u64)
    ensures
        final(state)@ == applied(old(state)@, ev, now_us),
{
    state.record_frame(now_us);
    match ev {
        CanEvent::Nmt { node_id, state: nmt_state } => {
            state.update_nmt(node_id, nmt_state, now_us);
        },
        CanEvent::Sdo(entry) => {
            let _answered: Option<PendingSdo> = state.pending_sdos.remove(&entry.node_id);
            state.push_sdo(entry);
        },
        CanEvent::Pdo { node_id, cob_id, values } => {
            state.update_pdo(node_id, cob_id, values, now_us);
        },
        CanEvent::SdoPending { node_id, index, subindex, direction } => {
            state.pending_sdos.insert(node_id, PendingSdo { index, subindex, direction });
        },
        CanEvent::AdapterError(_) => {},
        CanEvent::AdapterDisconnected => {},
        CanEvent::AdapterReconnected => {},
        CanEvent::FirmwareVersion(major, minor, patch) => {
            state.device_fw_version = Some((major, minor, patch));
        },
        CanEvent::AutoBaudDetected(baud) => {
            state.detected_baud = Some(baud);
            state.baud_rate = baud;
        },
        CanEvent::DbcLoaded(name) => {
            state.dbc_loaded = Some(name);
        },
        CanEvent::RawFrame { .. } => {},
        CanEvent::DbcSignal(frame) => {
            apply_frame(state, frame, now_us);
        },
    }
}

fn apply_frame(state: &mut AppState, frame: DbcFrameSignals, now_us: u64)
    ensures
        final(state)@ == (StateView {
            raw_bytes: old(state)@.raw_bytes.insert(frame.can_id, frame.raw_data@),
            signals: with_signals(old(state)@.signals, frame@, frame@.values.len(), now_us),
            ..old(state)@
        }),
{
    let ghost f = frame@;
    let ghost raw0 = state.last_raw_bytes@;
    let can_id: u32 = frame.can_id;
    let message_name: String = frame.message_name;
    let ghost payload = frame.raw_data@;
    state.last_raw_bytes.insert(can_id, frame.raw_data);
    assert(state@.raw_bytes =~= raw0.map_values(|v: Vec<u8>| v@).insert(can_id, payload));
    let ghost start = state@;
    let mut rest: VecDeque<DbcSignalValue> = queue(frame.values);
    let ghost all = rest@;
    let ghost mut n: nat = 0;
    assert(all.skip(0) =~= all);
    while rest.len() > 0
        invariant
            f.can_id == can_id,
            f.message_name == message_name@,
            f.values == crate::dbc::types::value_views(all),
            n + rest@.len() == all.len(),
            rest@ == all.skip(n as int),
            state@ == (StateView { signals: with_signals(start.signals, f, n, now_us), ..start }),
        decreases rest@.len(),
    {
        match rest.pop_front() {
            Some(sig) => {
                assert(sig@ == f.values[n as int]);
                state.apply_signal(Ghost(f), can_id, message_name.as_str(), sig, now_us);
                proof {
                    n = n + 1;
                    assert(rest@ =~= all.skip(n as int));
                }
            },
            None => {},
        }
    }
}

fn queue(values: Vec<DbcSignalValue>) -> (r: VecDeque<DbcSignalValue>)
    ensures
        r@ == values@,
{
    let mut r: VecDeque<DbcSignalValue> = VecDeque::new();
    let mut rest: Vec<DbcSignalValue> = values;
    assert(rest@ + r@ =~= values@);
    while rest.len() > 0
        invariant
            rest@ + r@ == values@,
        decreases rest@.len(),
    {
        let ghost before = rest@;
        let ghost behind = r@;
        match rest.pop() {
            Some(v) => {
                r.push_front(v);
                assert(rest@ + r@ =~= before + behind);
            },
            None => {},
        }
    }
    assert(r@ =~= values@);
    r
}

/// The state after several events, in order.
pub open spec fn applied_all(s: StateView, events: Seq<CanEvent>, now_us: u64) -> StateView
    decreases events.len(),
{
    if events.len() == 0 {
        s
    } else {
        applied_all(applied(s, events[0], now_us), events.drop_first(), now_us)
    }
}

/// Applies all pending events, in order. The result is `false` if the sender is gone.
pub fn drain_events(
    state: &mut AppState,
    events: VecDeque<CanEvent>,
    sender_gone: bool,
    now_us: u64,
) -> (r: bool)
    ensures
        final(state)@ == applied_all(old(state)@, events@, now_us),
        r == !sender_gone,
{
    let mut rest: VecDeque<CanEvent> = events;
    while rest.len() > 0
        invariant
            applied_all(state@, rest@, now_us) == applied_all(old(state)@, events@, now_us),
        decreases rest@.len(),
    {
        let ghost before = rest@;
        match rest.pop_front() {
            Some(ev) => {
                assert(rest@ =~= before.drop_first());
                apply_event(state, ev, now_us);
            },
            None => {},
        }
    }
    !sender_gone
}

// ─── Laws ───────────────────────────────────────────────────────────────────

/// The SDO log never exceeds its capacity, whatever the event.
pub proof fn law_sdo_log_bounded(s: StateView, ev: CanEvent, now_us: u64)
    requires
        s.sdo_log.len() <= SDO_LOG_CAP,
    ensures
        applied(s, ev, now_us).sdo_log.len() <= SDO_LOG_CAP,
{
}

/// The newest SDO event is the last of the log, and those before it keep their order.
pub proof fn law_sdo_log_keeps_latest(log: Seq<SdoLogEntry>, e: SdoLogEntry)
    requires
        log.len() <= SDO_LOG_CAP,
    ensures
        logged(log, e).last() == e,
        logged(log, e).drop_last() == (if log.len() < SDO_LOG_CAP {
            log
        } else {
            log.drop_first()
        }),
{
    assert(logged(log, e).drop_last() =~= (if log.len() < SDO_LOG_CAP {
        log
    } else {
        log.drop_first()
    }));
}

/// A pending transfer is no longer pending once an SDO event of its node came in; those of other
/// nodes are.
pub proof fn law_answer_clears_pending(s: StateView, e: SdoLogEntry, now_us: u64, other: u8)
    ensures
        !applied(s, CanEvent::Sdo(e), now_us).pending.contains_key(e.node_id),
        other != e.node_id && s.pending.contains_key(other) ==> applied(
            s,
            CanEvent::Sdo(e),
            now_us,
        ).pending.contains_key(other) && applied(s, CanEvent::Sdo(e), now_us).pending[other]
            == s.pending[other],
{
}

/// The state of a node changes only when the node reports one.
pub proof fn law_node_state_from_node_only(s: StateView, ev: CanEvent, now_us: u64, id: u8)
    requires
        s.nodes.contains_key(id),
        !(ev matches CanEvent::Nmt { node_id, state } && node_id == id),
    ensures
        applied(s, ev, now_us).nodes.contains_key(id),
        applied(s, ev, now_us).nodes[id] == s.nodes[id],
{
}

/// Whether no signal has two entries.
pub open spec fn entries_distinct(s: Seq<SignalEntryView>) -> bool {
    forall|i: int, j: int|
        0 <= i < j < s.len() ==> !is_entry_of(
            #[trigger] s[i],
            (#[trigger] s[j]).can_id,
            s[j].signal_name,
        )
}

proof fn lemma_position(s: Seq<SignalEntryView>, can_id: u32, name: Seq<char>, n: nat)
    requires
        n <= s.len(),
    ensures
        entry_position(s, can_id, name, n) matches Some(i) ==> 0 <= i < n && is_entry_of(
            s[i],
            can_id,
            name,
        ),
        entry_position(s, can_id, name, n) is None ==> forall|i: int|
            0 <= i < n ==> !is_entry_of(#[trigger] s[i], can_id, name),
    decreases n,
{
    if n > 0 {
        lemma_position(s, can_id, name, (n - 1) as nat);
    }
}

/// Every signal has one entry: decoding a frame keeps entries distinct.
pub proof fn law_one_entry_per_signal(
    s: Seq<SignalEntryView>,
    f: FrameSignalsView,
    n: nat,
    now_us: u64,
)
    requires
        entries_distinct(s),
    ensures
        entries_distinct(with_signals(s, f, n, now_us)),
    decreases n,
{
    if n > 0 {
        law_one_entry_per_signal(s, f, (n - 1) as nat, now_us);
        let t = with_signals(s, f, (n - 1) as nat, now_us);
        lemma_position(t, f.can_id, f.values[n - 1].signal_name, t.len());
    }
}

/// Every event counts as exactly one frame, and what an event is not about stays as it was.
pub proof fn law_events_touch_their_own(s: StateView, ev: CanEvent, now_us: u64)
    ensures
        ({
            let t = applied(s, ev, now_us);
            &&& s.frames.total < u64::MAX ==> t.frames.total == s.frames.total + 1
            &&& !(ev is Nmt) ==> t.nodes == s.nodes
            &&& !(ev is Pdo) ==> t.pdos == s.pdos
            &&& !(ev is Sdo) ==> t.sdo_log == s.sdo_log
            &&& !(ev is Sdo) && !(ev is SdoPending) ==> t.pending == s.pending
            &&& !(ev is DbcSignal) ==> t.signals == s.signals && t.raw_bytes == s.raw_bytes
            &&& !(ev is DbcLoaded) ==> t.dbc_loaded == s.dbc_loaded
            &&& !(ev is AutoBaudDetected) ==> t.baud_rate == s.baud_rate && t.detected_baud
                == s.detected_baud
            &&& !(ev is FirmwareVersion) ==> t.device_fw_version == s.device_fw_version
            &&& t.log_path == s.log_path
        }),
{
}

/// A node that reports a state has that state, was seen now, and keeps its name; the period is the
/// time since its last report, if there was one. A node that was not known is named after its ID.
pub proof fn law_report_is_recorded(s: StateView, id: u8, state: NmtState, now_us: u64)
    ensures
        ({
            let t = applied(s, CanEvent::Nmt { node_id: id, state }, now_us);
            &&& t.nodes.contains_key(id)
            &&& t.nodes[id].state == state
            &&& t.nodes[id].seen matches Some(seen) && seen.at_us == now_us
            &&& s.nodes.contains_key(id) ==> t.nodes[id].name == s.nodes[id].name
            &&& !s.nodes.contains_key(id) ==> t.nodes[id].name == "node"@ + text::decimal(id as nat)
            &&& s.nodes.contains_key(id) && s.nodes[id].seen is Some && s.nodes[id].seen->0.at_us
                <= now_us ==> t.nodes[id].seen->0.period_us == Some(
                (now_us - s.nodes[id].seen->0.at_us) as u64,
            )
            &&& !s.nodes.contains_key(id) || s.nodes[id].seen is None
                ==> t.nodes[id].seen->0.period_us is None
        }),
{
}

/// Between two reports of one node the period is the time that passed.
pub proof fn law_period_between_reports(
    s: StateView,
    id: u8,
    first: NmtState,
    second: NmtState,
    t1: u64,
    t2: u64,
)
    requires
        t1 <= t2,
    ensures
        applied(
            applied(s, CanEvent::Nmt { node_id: id, state: first }, t1),
            CanEvent::Nmt { node_id: id, state: second },
            t2,
        ).nodes[id].seen == Some(Seen { at_us: t2, period_us: Some((t2 - t1) as u64) }),
{
}

/// The values of a received PDO are those shown for its node and identifier, and those of other
/// PDOs stay; the period is the time since the PDO was last received.
pub proof fn law_pdo_is_recorded(
    s: StateView,
    node_id: u8,
    cob_id: u16,
    values: Vec<PdoValue>,
    now_us: u64,
    other_node: u8,
    other_cob: u16,
)
    ensures
        ({
            let t = applied(s, CanEvent::Pdo { node_id, cob_id, values }, now_us);
            let key = pdo_key(node_id, cob_id);
            let other = pdo_key(other_node, other_cob);
            &&& t.pdos.contains_key(key)
            &&& t.pdos[key].values == values_view(values@)
            &&& t.pdos[key].seen.at_us == now_us
            &&& s.pdos.contains_key(key) && s.pdos[key].seen.at_us <= now_us
                ==> t.pdos[key].seen.period_us == Some((now_us - s.pdos[key].seen.at_us) as u64)
            &&& !s.pdos.contains_key(key) ==> t.pdos[key].seen.period_us is None
            &&& (other_node, other_cob) != (node_id, cob_id) ==> t.pdos.contains_key(other)
                == s.pdos.contains_key(other) && t.pdos[other] == s.pdos[other]
        }),
{
    let key = node_id * 0x1_0000 + cob_id;
    let other = other_node * 0x1_0000 + other_cob;
    if key == other {
        assert(key / 0x1_0000 == node_id && key % 0x1_0000 == cob_id);
        assert(other / 0x1_0000 == other_node && other % 0x1_0000 == other_cob);
    }
}

/// A transfer that the master starts is pending for its node, until it is answered or another one
/// takes its place.
pub proof fn law_started_transfer_is_pending(
    s: StateView,
    node_id: u8,
    index: u16,
    subindex: u8,
    direction: SdoDirection,
    now_us: u64,
    other: u8,
)
    ensures
        ({
            let t = applied(
                s,
                CanEvent::SdoPending { node_id, index, subindex, direction },
                now_us,
            );
            &&& t.pending.contains_key(node_id)
            &&& t.pending[node_id].index == index
            &&& t.pending[node_id].subindex == subindex
            &&& t.pending[node_id].direction == direction
            &&& other != node_id ==> t.pending.contains_key(other) == s.pending.contains_key(other)
                && t.pending[other] == s.pending[other]
        }),
{
}

/// A detected bitrate is shown and used from then on; a loaded database, a firmware version and the
/// last payload of a decoded message are shown as reported.
pub proof fn law_reports_are_shown(s: StateView, ev: CanEvent, now_us: u64)
    ensures
        ({
            let t = applied(s, ev, now_us);
            &&& ev matches CanEvent::AutoBaudDetected(b) ==> t.detected_baud == Some(b)
                && t.baud_rate == b
            &&& ev matches CanEvent::DbcLoaded(name) ==> t.dbc_loaded == Some(name@)
            &&& ev matches CanEvent::FirmwareVersion(a, b, c) ==> t.device_fw_version == Some(
                (a, b, c),
            )
            &&& ev matches CanEvent::DbcSignal(f) ==> t.raw_bytes.contains_key(f.can_id)
                && t.raw_bytes[f.can_id] == f.raw_data@
            &&& ev matches CanEvent::Sdo(e) ==> t.sdo_log.len() > 0 && t.sdo_log.last() == e
        }),
{
}

/// After a signal was decoded it has an entry with the decoded value, unit and description, seen
/// now and counted once more; entries of other signals stay as they were.
pub proof fn law_signal_is_recorded(
    s: Seq<SignalEntryView>,
    f: FrameSignalsView,
    sig: SignalValueView,
    now_us: u64,
)
    ensures
        ({
            let t = with_signal(s, f, sig, now_us);
            exists|i: int|
                0 <= i < t.len() && {
                    &&& (#[trigger] t[i]).can_id == f.can_id
                    &&& t[i].signal_name == sig.signal_name
                    &&& t[i].raw_int == sig.raw_int
                    &&& t[i].unit == sig.unit
                    &&& t[i].description == sig.description
                    &&& t[i].last_seen_us == now_us
                    &&& sig.encoding_def is Some ==> t[i].def == sig.encoding_def->0
                    &&& i < s.len() && 0 <= s[i].count < u64::MAX ==> t[i].count == s[i].count + 1
                    &&& i == s.len() ==> t[i].count == 1 && t[i].message_name == f.message_name
                    &&& forall|j: int| 0 <= j < s.len() && j != i ==> #[trigger] t[j] == s[j]
                    &&& t.len() == s.len() || (t.len() == s.len() + 1 && i == s.len())
                }
        }),
{
    lemma_position(s, f.can_id, sig.signal_name, s.len());
    let t = with_signal(s, f, sig, now_us);
    match entry_position(s, f.can_id, sig.signal_name, s.len()) {
        Some(i) => {
            assert(t[i] == refreshed(s[i], sig, now_us));
        },
        None => {
            assert(t[s.len() as int] == refreshed(fresh_entry(f, sig), sig, now_us));
        },
    }
}

/// Every frame is counted once. A window lasts at least two seconds: the frame that ends it sets
/// the rate to the frames since its start, itself included, over the time since then, and starts a
/// new one; other frames leave the rate.
pub proof fn law_rate_measured_per_window(c: FrameCounters, baud_rate: u32, now_us: u64)
    requires
        c.window_start_us <= now_us,
        c.window_count < u64::MAX,
    ensures
        ({
            let d = counted(c, baud_rate, now_us);
            let passed = now_us - c.window_start_us;
            &&& passed < 2_000_000 ==> d.rate == c.rate && d.load == c.load && d.window_start_us
                == c.window_start_us && d.window_count == c.window_count + 1
            &&& passed >= 2_000_000 ==> d.rate == Some(
                FrameRate { frames: (c.window_count + 1) as u64, elapsed_us: passed as u64 },
            ) && d.window_start_us == now_us && d.window_count == 0
            &&& passed >= 2_000_000 && baud_rate > 0 ==> d.load == Some(
                BusLoad { rate: d.rate->0, baud_rate },
            )
            &&& passed >= 2_000_000 && baud_rate == 0 ==> d.load == c.load
        }),
{
}

/// Events that come in several lots leave the same state as in one.
pub proof fn law_events_in_lots(
    s: StateView,
    first: Seq<CanEvent>,
    second: Seq<CanEvent>,
    now_us: u64,
)
    ensures
        applied_all(s, first + second, now_us) == applied_all(
            applied_all(s, first, now_us),
            second,
            now_us,
        ),
    decreases first.len(),
{
    if first.len() == 0 {
        assert(first + second =~= second);
    } else {
        assert((first + second).drop_first() =~= first.drop_first() + second);
        law_events_in_lots(applied(s, first[0], now_us), first.drop_first(), second, now_us);
    }
}

/// A configured node is shown from the start, with the name of its first configuration and no
/// known state; one that is there already stays as it is.
pub proof fn law_configured_nodes_shown(
    nodes: Map<u8, NodeView>,
    given: Seq<(u8, String)>,
    k: int,
)
    requires
        0 <= k < given.len(),
        forall|j: int| 0 <= j < k ==> (#[trigger] given[j]).0 != given[k].0,
    ensures
        ({
            let id = given[k].0;
            let after = with_nodes(nodes, given, given.len());
            &&& after.contains_key(id)
            &&& nodes.contains_key(id) ==> after[id] == nodes[id]
            &&& !nodes.contains_key(id) ==> after[id].name == given[k].1@ && after[id].seen is None
                && after[id].state == NmtState::Unknown(0xFF)
        }),
{
    lemma_nodes_before(nodes, given, given[k].0, k as nat);
    lemma_nodes_stay(nodes, given, given[k].0, (k + 1) as nat, given.len());
}

proof fn lemma_nodes_before(nodes: Map<u8, NodeView>, given: Seq<(u8, String)>, id: u8, n: nat)
    requires
        n <= given.len(),
        forall|j: int| 0 <= j < n ==> (#[trigger] given[j]).0 != id,
    ensures
        with_nodes(nodes, given, n).contains_key(id) == nodes.contains_key(id),
        nodes.contains_key(id) ==> with_nodes(nodes, given, n)[id] == nodes[id],
    decreases n,
{
    if n > 0 {
        lemma_nodes_before(nodes, given, id, (n - 1) as nat);
        assert(given[n - 1].0 != id);
    }
}

proof fn lemma_nodes_stay(
    nodes: Map<u8, NodeView>,
    given: Seq<(u8, String)>,
    id: u8,
    m: nat,
    n: nat,
)
    requires
        m <= n,
        with_nodes(nodes, given, m).contains_key(id),
    ensures
        with_nodes(nodes, given, n).contains_key(id),
        with_nodes(nodes, given, n)[id] == with_nodes(nodes, given, m)[id],
    decreases n,
{
    if m < n {
        lemma_nodes_stay(nodes, given, id, m, (n - 1) as nat);
    }
}

} // verus!
