//! The connect form: what is entered, the search for an adapter, and the messages shown.

use vstd::prelude::*;

use crate::adapters::{copy_text, text_view, AdapterKind, AdapterKindView};
use crate::eds::{node_id_number, parse_node_id_str};
use crate::gui::config::{
    bad_timeout_text, baud_number, choose_log_path, collect_paths, copy_dbc_files, copy_nodes,
    dbc_paths_of, effective_log_path, node_list, node_views, parse_baud, parse_nodes,
    parse_timeout, path_list, session_nodes, session_of, timeout_number, ConfigView, DbcEntry,
    NodeEntry, NodeEntryView, PersistedConfig, SessionConfig, SessionView,
};
use crate::text;
use crate::text::string_views;

verus! {

/// Time between two searches for the adapter, in seconds.
pub const PROBE_INTERVAL_SECS: u64 = 2;

/// Number of messages kept for display.
pub const MAX_MESSAGES: usize = 5;

/// Baud rate that is tried where the entered one is no number.
pub const FALLBACK_BAUD: u32 = 250_000;

// ─── Messages ───────────────────────────────────────────────────────────────

/// The kind of a message.
#[derive(Clone, Copy, Debug, PartialEq, Eq, Structural)]
pub enum MessageType {
    Error,
    Warning,
    Notice,
}

/// A message with the time at which it came up.
#[derive(Debug)]
pub struct MessageEntry {
    pub text: String,
    pub msg_type: MessageType,
    /// Seconds since 1970; `None` where the clock stands before that.
    pub timestamp_s: Option<u64>,
    /// Milliseconds of a clock that never goes back.
    pub created_ms: u64,
}

/// The mathematical value of a [`MessageEntry`].
pub struct MessageView {
    pub text: Seq<char>,
    pub msg_type: MessageType,
    pub timestamp_s: Option<u64>,
    pub created_ms: u64,
}

impl MessageEntry {
    /// The message over views.
    pub open spec fn view(&self) -> MessageView {
        MessageView {
            text: self.text@,
            msg_type: self.msg_type,
            timestamp_s: self.timestamp_s,
            created_ms: self.created_ms,
        }
    }
}

impl Clone for MessageEntry {
    fn clone(&self) -> (r: Self)
        ensures
            r@ == self@,
    {
        MessageEntry {
            text: self.text.clone(),
            msg_type: self.msg_type,
            timestamp_s: self.timestamp_s,
            created_ms: self.created_ms,
        }
    }
}

/// The views of messages.
pub open spec fn message_views(s: Seq<MessageEntry>) -> Seq<MessageView> {
    s.map_values(|m: MessageEntry| m@)
}

/// When something came up, on both clocks.
#[derive(Clone, Copy, Debug, PartialEq, Eq, Structural)]
pub struct Moment {
    /// Seconds since 1970; `None` where the clock stands before that.
    pub timestamp_s: Option<u64>,
    /// Milliseconds of a clock that never goes back.
    pub created_ms: u64,
}

/// A message that comes up now.
pub open spec fn message(text: Seq<char>, msg_type: MessageType, now: Moment) -> MessageView {
    MessageView { text, msg_type, timestamp_s: now.timestamp_s, created_ms: now.created_ms }
}

/// The messages after an error or a notice, which is not repeated.
pub open spec fn with_message(
    h: Seq<MessageView>,
    text: Option<Seq<char>>,
    msg_type: MessageType,
    now: Moment,
) -> Seq<MessageView> {
    match text {
        Some(t) => if h.len() == 0 || h.last().text != t {
            h.push(message(t, msg_type, now))
        } else {
            h
        },
        None => h,
    }
}

/// Whether a warning is among the messages.
pub open spec fn has_warning(h: Seq<MessageView>, text: Seq<char>) -> bool {
    exists|i: int|
        0 <= i < h.len() && (#[trigger] h[i]).text == text && h[i].msg_type == MessageType::Warning
}

/// The messages after warnings; one that is there already is not repeated.
pub open spec fn with_warnings(h: Seq<MessageView>, warnings: Seq<Seq<char>>, now: Moment) -> Seq<
    MessageView,
>
    decreases warnings.len(),
{
    if warnings.len() == 0 {
        h
    } else {
        let before = with_warnings(h, warnings.drop_last(), now);
        if has_warning(before, warnings.last()) {
            before
        } else {
            before.push(message(warnings.last(), MessageType::Warning, now))
        }
    }
}

/// The latest messages, as many as are kept.
pub open spec fn latest(h: Seq<MessageView>) -> Seq<MessageView> {
    if h.len() > MAX_MESSAGES {
        h.skip(h.len() - MAX_MESSAGES)
    } else {
        h
    }
}

/// The messages after the current error, notice and warnings.
pub open spec fn updated_messages(
    h: Seq<MessageView>,
    error: Option<Seq<char>>,
    notice: Option<Seq<char>>,
    warnings: Seq<Seq<char>>,
    now: Moment,
) -> Seq<MessageView> {
    latest(
        with_warnings(
            with_message(
                with_message(h, error, MessageType::Error, now),
                notice,
                MessageType::Notice,
                now,
            ),
            warnings,
            now,
        ),
    )
}

/// A time of day as text: hours, minutes and seconds in UTC.
pub open spec fn time_text(timestamp_s: Option<u64>) -> Seq<char> {
    match timestamp_s {
        Some(t) => "["@ + text::padded(text::decimal(((t / 3600) % 24) as nat), 2, '0') + ":"@
            + text::padded(text::decimal(((t / 60) % 60) as nat), 2, '0') + ":"@ + text::padded(
            text::decimal((t % 60) as nat),
            2,
            '0',
        ) + "]"@,
        None => "[--:--:--]"@,
    }
}

/// Writes a time of day.
pub fn time_display(timestamp_s: Option<u64>) -> (r: String)
    ensures
        r@ == time_text(timestamp_s),
{
    match timestamp_s {
        Some(t) => {
            let mut s: String = "[".to_owned();
            text::push_decimal_padded(&mut s, (t / 3600) % 24, 2, '0');
            text::push_str(&mut s, ":");
            text::push_decimal_padded(&mut s, (t / 60) % 60, 2, '0');
            text::push_str(&mut s, ":");
            text::push_decimal_padded(&mut s, t % 60, 2, '0');
            text::push_str(&mut s, "]");
            s
        },
        None => "[--:--:--]".to_owned(),
    }
}

// ─── Duplicate node IDs ─────────────────────────────────────────────────────

/// How many entries have a node ID.
pub open spec fn id_count(nodes: Seq<NodeEntryView>, id: u8) -> nat
    decreases nodes.len(),
{
    if nodes.len() == 0 {
        0
    } else {
        id_count(nodes.drop_last(), id) + (if node_id_number(text::trimmed(nodes.last().id_str))
            == Some(id) {
            1nat
        } else {
            0nat
        })
    }
}

/// The warning about a node ID that is used more than once.
pub open spec fn duplicate_text(id: u8) -> Seq<char> {
    "Node ID "@ + text::decimal(id as nat) + " is used more than once"@
}

/// The warnings about the node IDs below a bound that are used more than once.
pub open spec fn duplicate_texts(nodes: Seq<NodeEntryView>, bound: nat) -> Seq<Seq<char>>
    decreases bound,
{
    if bound == 0 {
        seq![]
    } else {
        let before = duplicate_texts(nodes, (bound - 1) as nat);
        if id_count(nodes, (bound - 1) as u8) > 1 {
            before.push(duplicate_text((bound - 1) as u8))
        } else {
            before
        }
    }
}

fn count_id(nodes: &Vec<NodeEntry>, id: u8) -> (r: usize)
    ensures
        r == id_count(node_views(nodes@), id),
{
    let ghost all = node_views(nodes@);
    let mut n: usize = 0;
    let mut i: usize = 0;
    while i < nodes.len()
        invariant
            i <= nodes@.len(),
            n <= i,
            all == node_views(nodes@),
            n == id_count(all.take(i as int), id),
        decreases nodes@.len() - i,
    {
        assert(all.take(i + 1).drop_last() =~= all.take(i as int));
        assert(all.take(i + 1).last() == nodes@[i as int]@);
        let t: Vec<char> = text::trim(nodes[i].id_str.as_str());
        match parse_node_id_str(t.as_slice()) {
            Some(k) => if k == id {
                n += 1;
            },
            None => {},
        }
        i += 1;
    }
    assert(all.take(all.len() as int) =~= all);
    n
}

/// The warnings about node IDs that are used more than once, in alphabetical order.
pub fn duplicate_warnings(nodes: &Vec<NodeEntry>) -> (r: Vec<String>)
    ensures
        text::is_sorted_form(duplicate_texts(node_views(nodes@), 128), string_views(r@)),
{
    let mut found: Vec<String> = Vec::new();
    let mut id: u8 = 0;
    assert(string_views(found@) =~= seq![]);
    while id < 128
        invariant
            id <= 128,
            string_views(found@) == duplicate_texts(node_views(nodes@), id as nat),
        decreases 128 - id,
    {
        if count_id(nodes, id) > 1 {
            let mut m: String = "Node ID ".to_owned();
            text::push_decimal(&mut m, id as u64);
            text::push_str(&mut m, " is used more than once");
            let ghost before = found@;
            let ghost added = m@;
            found.push(m);
            assert(string_views(found@) =~= string_views(before).push(added));
        }
        id += 1;
    }
    text::sort_texts(&found)
}

/// The first node ID in a list that stands in it before.
pub open spec fn first_repeated(nodes: Seq<(u8, Option<Seq<char>>)>) -> Option<u8>
    decreases nodes.len(),
{
    if nodes.len() == 0 {
        None
    } else {
        match first_repeated(nodes.drop_last()) {
            Some(id) => Some(id),
            None => if exists|j: int|
                0 <= j < nodes.len() - 1 && (#[trigger] nodes[j]).0 == nodes.last().0 {
                Some(nodes.last().0)
            } else {
                None
            },
        }
    }
}

proof fn lemma_repeat_stays(nodes: Seq<(u8, Option<Seq<char>>)>, n: int)
    requires
        0 <= n <= nodes.len(),
        first_repeated(nodes.take(n)) is Some,
    ensures
        first_repeated(nodes) == first_repeated(nodes.take(n)),
    decreases nodes.len() - n,
{
    if n < nodes.len() {
        assert(nodes.take(n + 1).drop_last() =~= nodes.take(n));
        lemma_repeat_stays(nodes, n + 1);
    } else {
        assert(nodes.take(n) =~= nodes);
    }
}

fn find_repeated(nodes: &Vec<(u8, Option<String>)>) -> (r: Option<u8>)
    ensures
        r == first_repeated(session_nodes(nodes@)),
{
    let ghost all = session_nodes(nodes@);
    let mut i: usize = 0;
    while i < nodes.len()
        invariant
            i <= nodes@.len(),
            all == session_nodes(nodes@),
            first_repeated(all.take(i as int)) is None,
        decreases nodes@.len() - i,
    {
        let ghost now = all.take(i + 1);
        assert(now.drop_last() =~= all.take(i as int));
        assert(now.last().0 == nodes@[i as int].0);
        let mut j: usize = 0;
        while j < i
            invariant
                j <= i < nodes@.len(),
                all == session_nodes(nodes@),
                now == all.take(i + 1),
                now.last().0 == nodes@[i as int].0,
                now.drop_last() == all.take(i as int),
                first_repeated(all.take(i as int)) is None,
                forall|k: int| 0 <= k < j ==> (#[trigger] now[k]).0 != now.last().0,
            decreases i - j,
        {
            assert(now[j as int].0 == nodes@[j as int].0);
            if nodes[j].0 == nodes[i].0 {
                proof {
                    assert(first_repeated(now) == Some(nodes@[i as int].0));
                    lemma_repeat_stays(all, i + 1);
                }
                return Some(nodes[i].0);
            }
            j += 1;
        }
        i += 1;
    }
    assert(all.take(all.len() as int) =~= all);
    None
}

// ─── Form ───────────────────────────────────────────────────────────────────

/// The connect form.
#[derive(Debug)]
pub struct ConnectForm {
    pub port: String,
    pub baud: String,
    pub nodes: Vec<NodeEntry>,
    pub log_path: String,
    /// SDO response timeout in milliseconds.
    pub sdo_timeout_str: String,
    /// Why the last attempt to connect failed.
    pub error: Option<String>,
    /// Warnings about what is entered.
    pub warnings: Vec<String>,
    /// The node whose removal awaits confirmation.
    pub confirm_remove: Option<usize>,
    /// Whether an adapter was found.
    pub dongle_connected: bool,
    /// Whether a search for the adapter is under way.
    pub probing: bool,
    /// When the last search was started, in milliseconds of a clock that never goes back.
    pub last_probe_ms: Option<u64>,
    /// No frames are transmitted.
    pub listen_only: bool,
    /// A plain-text log is written too.
    pub text_log: bool,
    pub adapter_kind: AdapterKind,
    /// KCAN devices found: serial number and name.
    pub kcan_devices: Vec<(String, String)>,
    /// Serial number of the selected KCAN device; empty for the first one found.
    pub kcan_serial: String,
    pub dbc_files: Vec<DbcEntry>,
    /// The DBC file whose removal awaits confirmation.
    pub confirm_remove_dbc: Option<usize>,
    /// What is to be told about the adapter.
    pub adapter_notice: Option<String>,
    /// The adapter that was configured before another one was taken.
    pub original_adapter_kind: Option<AdapterKind>,
    /// The latest messages.
    pub message_history: Vec<MessageEntry>,
}

/// The mathematical value of a [`ConnectForm`].
pub struct FormView {
    pub port: Seq<char>,
    pub baud: Seq<char>,
    pub nodes: Seq<NodeEntryView>,
    pub log_path: Seq<char>,
    pub sdo_timeout_str: Seq<char>,
    pub error: Option<Seq<char>>,
    pub warnings: Seq<Seq<char>>,
    pub confirm_remove: Option<usize>,
    pub dongle_connected: bool,
    pub probing: bool,
    pub last_probe_ms: Option<u64>,
    pub listen_only: bool,
    pub text_log: bool,
    pub adapter_kind: AdapterKindView,
    pub kcan_devices: Seq<(Seq<char>, Seq<char>)>,
    pub kcan_serial: Seq<char>,
    pub dbc_files: Seq<Seq<char>>,
    pub confirm_remove_dbc: Option<usize>,
    pub adapter_notice: Option<Seq<char>>,
    pub original_adapter_kind: Option<AdapterKindView>,
    pub message_history: Seq<MessageView>,
}

/// The views of devices.
pub open spec fn device_views(s: Seq<(String, String)>) -> Seq<(Seq<char>, Seq<char>)> {
    s.map_values(|d: (String, String)| (d.0@, d.1@))
}

/// The view of an optional adapter kind.
pub open spec fn kind_view(k: Option<AdapterKind>) -> Option<AdapterKindView> {
    match k {
        Some(kind) => Some(kind@),
        None => None,
    }
}

/// The name of an adapter kind.
pub open spec fn adapter_name(kind: AdapterKindView) -> Seq<char> {
    match kind {
        AdapterKindView::Summit => "PEAK PCAN-USB"@,
        AdapterKindView::KCan { .. } => "KCAN Dongle"@,
        AdapterKindView::SocketCan => "SocketCAN"@,
        AdapterKindView::Apex { .. } => "Apex"@,
        AdapterKindView::KCanNet { .. } => "KCAN over TCP"@,
    }
}

/// The name of an adapter kind.
pub fn adapter_display_name(kind: &AdapterKind) -> (r: &'static str)
    ensures
        r@ == adapter_name(kind@),
{
    match kind {
        AdapterKind::Summit => "PEAK PCAN-USB",
        AdapterKind::KCan { .. } => "KCAN Dongle",
        AdapterKind::SocketCan => "SocketCAN",
        AdapterKind::Apex { .. } => "Apex",
        AdapterKind::KCanNet { .. } => "KCAN over TCP",
    }
}

/// The adapter that is tried where the given one is not found: the KCAN dongle for PEAK hardware
/// and the other way round.
pub open spec fn fallback_of(kind: AdapterKindView) -> Option<AdapterKindView> {
    match kind {
        AdapterKindView::Summit => Some(AdapterKindView::KCan { serial: None }),
        AdapterKindView::KCan { .. } => Some(AdapterKindView::Summit),
        _ => None,
    }
}

/// The notice about an adapter that was taken in place of another.
pub open spec fn switched_text(original: AdapterKindView, new: AdapterKindView) -> Seq<char> {
    adapter_name(original) + " not found, automatically switched to "@ + adapter_name(new)
}

/// The baud rate for a search: the entered one, or the fallback.
pub open spec fn probe_baud(baud: Seq<char>) -> nat {
    match baud_number(baud) {
        Some(n) => n,
        None => FALLBACK_BAUD as nat,
    }
}

/// The form at the first start.
pub open spec fn default_form() -> FormView {
    FormView {
        port: "1"@,
        baud: "250000"@,
        nodes: seq![],
        log_path: "rustycan.jsonl"@,
        sdo_timeout_str: "500"@,
        error: None,
        warnings: seq![],
        confirm_remove: None,
        dongle_connected: false,
        probing: false,
        last_probe_ms: None,
        listen_only: false,
        text_log: false,
        adapter_kind: AdapterKindView::Summit,
        kcan_devices: seq![],
        kcan_serial: seq![],
        dbc_files: seq![],
        confirm_remove_dbc: None,
        adapter_notice: None,
        original_adapter_kind: None,
        message_history: seq![],
    }
}

/// The form with the settings of a configuration.
pub open spec fn form_of(c: ConfigView) -> FormView {
    FormView {
        port: c.port,
        baud: c.baud,
        nodes: c.nodes,
        log_path: effective_log_path(c.log_path),
        sdo_timeout_str: c.sdo_timeout_str,
        listen_only: c.listen_only,
        text_log: c.text_log,
        adapter_kind: c.adapter_kind,
        kcan_serial: c.kcan_serial,
        dbc_files: c.dbc_files,
        ..default_form()
    }
}

/// The settings of a form that are kept. The port of the dashboard is not.
pub open spec fn config_of(f: FormView) -> ConfigView {
    ConfigView {
        port: f.port,
        baud: f.baud,
        nodes: f.nodes,
        log_path: Some(f.log_path),
        sdo_timeout_str: f.sdo_timeout_str,
        listen_only: f.listen_only,
        text_log: f.text_log,
        adapter_kind: f.adapter_kind,
        kcan_serial: f.kcan_serial,
        dbc_files: f.dbc_files,
        http_port: None,
    }
}

impl PersistedConfig {
    /// The form with these settings.
    pub fn into_form(self) -> (r: ConnectForm)
        ensures
            r@ == form_of(self@),
    {
        let log_path: String = choose_log_path(&self.log_path);
        let r = ConnectForm {
            port: self.port,
            baud: self.baud,
            nodes: self.nodes,
            log_path,
            sdo_timeout_str: self.sdo_timeout_str,
            error: None,
            warnings: Vec::new(),
            confirm_remove: None,
            dongle_connected: false,
            probing: false,
            last_probe_ms: None,
            listen_only: self.listen_only,
            text_log: self.text_log,
            adapter_kind: self.adapter_kind,
            kcan_devices: Vec::new(),
            kcan_serial: self.kcan_serial,
            dbc_files: self.dbc_files,
            confirm_remove_dbc: None,
            adapter_notice: None,
            original_adapter_kind: None,
            message_history: Vec::new(),
        };
        assert(r@.warnings =~= seq![]);
        assert(r@.kcan_devices =~= seq![]);
        assert(r@.message_history =~= seq![]);
        r
    }

    /// The settings of a form that are kept.
    pub fn from_form(form: &ConnectForm) -> (r: Self)
        ensures
            r@ == config_of(form@),
    {
        PersistedConfig {
            port: form.port.clone(),
            baud: form.baud.clone(),
            nodes: copy_nodes(&form.nodes),
            log_path: Some(form.log_path.clone()),
            sdo_timeout_str: form.sdo_timeout_str.clone(),
            listen_only: form.listen_only,
            text_log: form.text_log,
            adapter_kind: form.adapter_kind.clone(),
            kcan_serial: form.kcan_serial.clone(),
            dbc_files: copy_dbc_files(&form.dbc_files),
            http_port: None,
        }
    }
}

impl Default for ConnectForm {
    /// The form at the first start.
    fn default() -> (r: Self)
        ensures
            r@ == default_form(),
    {
        let r = ConnectForm {
            port: "1".to_owned(),
            baud: "250000".to_owned(),
            nodes: Vec::new(),
            log_path: "rustycan.jsonl".to_owned(),
            sdo_timeout_str: "500".to_owned(),
            error: None,
            warnings: Vec::new(),
            confirm_remove: None,
            dongle_connected: false,
            probing: false,
            last_probe_ms: None,
            listen_only: false,
            text_log: false,
            adapter_kind: AdapterKind::Summit,
            kcan_devices: Vec::new(),
            kcan_serial: String::new(),
            dbc_files: Vec::new(),
            confirm_remove_dbc: None,
            adapter_notice: None,
            original_adapter_kind: None,
            message_history: Vec::new(),
        };
        assert(r@.nodes =~= seq![]);
        assert(r@.warnings =~= seq![]);
        assert(r@.kcan_devices =~= seq![]);
        assert(r@.kcan_serial =~= seq![]);
        assert(r@.dbc_files =~= seq![]);
        assert(r@.message_history =~= seq![]);
        r
    }
}

/// What the button to connect offers.
#[derive(Clone, Copy, Debug, PartialEq, Eq, Structural)]
pub enum ConnectButton {
    Ready,
    /// No adapter was found.
    NoDongle,
    /// A node ID is used more than once.
    Duplicates,
}

/// The session that a form asks for; else the first thing that is wrong with it.
pub open spec fn form_session(f: FormView) -> Result<SessionView, Seq<char>> {
    match (baud_number(f.baud), timeout_number(f.sdo_timeout_str), node_list(f.nodes)) {
        (None, _, _) => Err("Invalid baud rate: "@ + text::debug_quoted(f.baud)),
        (Some(_), None, _) => Err(bad_timeout_text(f.sdo_timeout_str)),
        (Some(_), Some(_), Err(e)) => Err(e),
        (Some(baud), Some(timeout), Ok(nodes)) => match first_repeated(nodes) {
            Some(id) => Err(
                "Node ID "@ + text::decimal(id as nat)
                    + " is used more than once \u{2014} each node must have a unique ID"@,
            ),
            None => Ok(
                session_of(
                    f.port,
                    baud,
                    nodes,
                    text::trimmed(f.log_path),
                    f.listen_only,
                    f.text_log,
                    timeout,
                    f.adapter_kind,
                    path_list(f.dbc_files),
                ),
            ),
        },
    }
}

/// The form to go back to when a session ends: without the error, and with the search for the
/// adapter to be started anew.
pub open spec fn saved_form(f: FormView) -> FormView {
    FormView { error: None, probing: false, last_probe_ms: None, ..f }
}

/// The last entry with a node ID: its EDS path.
pub open spec fn eds_path_for(nodes: Seq<NodeEntryView>, id: u8) -> Option<Seq<char>>
    decreases nodes.len(),
{
    if nodes.len() == 0 {
        None
    } else if node_id_number(text::trimmed(nodes.last().id_str)) == Some(id) {
        Some(nodes.last().eds_path)
    } else {
        eds_path_for(nodes.drop_last(), id)
    }
}

impl ConnectForm {
    /// The form over views.
    pub open spec fn view(&self) -> FormView {
        FormView {
            port: self.port@,
            baud: self.baud@,
            nodes: node_views(self.nodes@),
            log_path: self.log_path@,
            sdo_timeout_str: self.sdo_timeout_str@,
            error: text_view(self.error),
            warnings: string_views(self.warnings@),
            confirm_remove: self.confirm_remove,
            dongle_connected: self.dongle_connected,
            probing: self.probing,
            last_probe_ms: self.last_probe_ms,
            listen_only: self.listen_only,
            text_log: self.text_log,
            adapter_kind: self.adapter_kind@,
            kcan_devices: device_views(self.kcan_devices@),
            kcan_serial: self.kcan_serial@,
            dbc_files: dbc_paths_of(self.dbc_files@),
            confirm_remove_dbc: self.confirm_remove_dbc,
            adapter_notice: text_view(self.adapter_notice),
            original_adapter_kind: kind_view(self.original_adapter_kind),
            message_history: message_views(self.message_history@),
        }
    }

    /// Checks what is entered and sets up a session. Two nodes cannot have the same ID.
    pub fn try_connect(&self) -> (r: Result<SessionConfig, String>)
        ensures
            r is Ok == form_session(self@) is Ok,
            r matches Ok(s) ==> s@ == form_session(self@)->Ok_0,
            r matches Err(e) ==> e@ == form_session(self@)->Err_0,
    {
        let baud: u32 = match parse_baud(self.baud.as_str()) {
            Some(b) => b,
            None => {
                let quoted: String = text::debug_text(self.baud.as_str());
                return Err(text::join2("Invalid baud rate: ", quoted.as_str()));
            },
        };
        let sdo_timeout_ms: u64 = match parse_timeout(self.sdo_timeout_str.as_str()) {
            Ok(n) => n,
            Err(e) => {
                return Err(e);
            },
        };
        let nodes: Vec<(u8, Option<String>)> = match parse_nodes(&self.nodes) {
            Ok(list) => list,
            Err(e) => {
                return Err(e);
            },
        };
        match find_repeated(&nodes) {
            Some(id) => {
                let mut m: String = "Node ID ".to_owned();
                text::push_decimal(&mut m, id as u64);
                text::push_str(
                    &mut m,
                    " is used more than once \u{2014} each node must have a unique ID",
                );
                return Err(m);
            },
            None => {},
        }
        let port: Vec<char> = text::trim(self.port.as_str());
        let log_path: Vec<char> = text::trim(self.log_path.as_str());
        Ok(
            SessionConfig {
                port: text::string_of(port.as_slice()),
                baud,
                nodes,
                log_path: text::string_of(log_path.as_slice()),
                listen_only: self.listen_only,
                text_log: self.text_log,
                sdo_timeout_ms,
                block_initiate_timeout_ms: 1000,
                block_subblock_timeout_ms: 500,
                block_end_timeout_ms: 1000,
                block_size: 64,
                adapter_kind: self.adapter_kind.clone(),
                dbc_paths: collect_paths(&self.dbc_files),
            },
        )
    }

    /// The form to go back to when the session ends.
    pub fn saved(&self) -> (r: ConnectForm)
        ensures
            r@ == saved_form(self@),
    {
        let mut warnings: Vec<String> = Vec::new();
        let mut i: usize = 0;
        while i < self.warnings.len()
            invariant
                i <= self.warnings@.len(),
                warnings@.len() == i,
                forall|j: int| 0 <= j < i ==> (#[trigger] warnings@[j])@ == self.warnings@[j]@,
            decreases self.warnings@.len() - i,
        {
            warnings.push(self.warnings[i].clone());
            i += 1;
        }
        assert(string_views(warnings@) =~= self@.warnings);
        let mut devices: Vec<(String, String)> = Vec::new();
        let mut i: usize = 0;
        while i < self.kcan_devices.len()
            invariant
                i <= self.kcan_devices@.len(),
                devices@.len() == i,
                forall|j: int|
                    0 <= j < i ==> (#[trigger] devices@[j]).0@ == self.kcan_devices@[j].0@
                        && devices@[j].1@ == self.kcan_devices@[j].1@,
            decreases self.kcan_devices@.len() - i,
        {
            devices.push((self.kcan_devices[i].0.clone(), self.kcan_devices[i].1.clone()));
            i += 1;
        }
        assert(device_views(devices@) =~= self@.kcan_devices);
        let mut history: Vec<MessageEntry> = Vec::new();
        let mut i: usize = 0;
        while i < self.message_history.len()
            invariant
                i <= self.message_history@.len(),
                history@.len() == i,
                forall|j: int| 0 <= j < i ==> (#[trigger] history@[j])@ == self.message_history@[j]@,
            decreases self.message_history@.len() - i,
        {
            history.push(self.message_history[i].clone());
            i += 1;
        }
        assert(message_views(history@) =~= self@.message_history);
        let original_adapter_kind: Option<AdapterKind> = match &self.original_adapter_kind {
            Some(k) => Some(k.clone()),
            None => None,
        };
        ConnectForm {
            port: self.port.clone(),
            baud: self.baud.clone(),
            nodes: copy_nodes(&self.nodes),
            log_path: self.log_path.clone(),
            sdo_timeout_str: self.sdo_timeout_str.clone(),
            error: None,
            warnings,
            confirm_remove: self.confirm_remove,
            dongle_connected: self.dongle_connected,
            probing: false,
            last_probe_ms: None,
            listen_only: self.listen_only,
            text_log: self.text_log,
            adapter_kind: self.adapter_kind.clone(),
            kcan_devices: devices,
            kcan_serial: self.kcan_serial.clone(),
            dbc_files: copy_dbc_files(&self.dbc_files),
            confirm_remove_dbc: self.confirm_remove_dbc,
            adapter_notice: copy_text(&self.adapter_notice),
            original_adapter_kind,
            message_history: history,
        }
    }

    /// The EDS path entered for a node ID; the last entry counts.
    pub fn eds_path(&self, id: u8) -> (r: Option<String>)
        ensures
            text_view(r) == eds_path_for(self@.nodes, id),
    {
        let ghost all = self@.nodes;
        let mut i: usize = self.nodes.len();
        assert(all.take(all.len() as int) =~= all);
        while i > 0
            invariant
                i <= self.nodes@.len(),
                all == node_views(self.nodes@),
                eds_path_for(all.take(i as int), id) == eds_path_for(all, id),
            decreases i,
        {
            i -= 1;
            assert(all.take(i + 1).drop_last() =~= all.take(i as int));
            assert(all.take(i + 1).last() == self.nodes@[i as int]@);
            let t: Vec<char> = text::trim(self.nodes[i].id_str.as_str());
            match parse_node_id_str(t.as_slice()) {
                Some(k) => if k == id {
                    return Some(self.nodes[i].eds_path.clone());
                },
                None => {},
            }
        }
        None
    }

    // ── Search for the adapter ──────────────────────────────────────────────

    /// Whether a search is to be started: none is under way, and the last one was started long
    /// enough ago or there was none.
    pub fn should_probe(&self, now_ms: u64) -> (r: bool)
        ensures
            r == (!self.probing && (self.last_probe_ms matches Some(t) ==> now_ms - t
                >= PROBE_INTERVAL_SECS * 1000)),
    {
        !self.probing && match self.last_probe_ms {
            Some(t) => now_ms >= t && now_ms - t >= PROBE_INTERVAL_SECS * 1000,
            None => true,
        }
    }

    /// Starts a search, and gives the adapter, port and baud rate to look for.
    pub fn start_probe(&mut self, now_ms: u64) -> (r: (AdapterKind, String, u32))
        ensures
            final(self)@ == (FormView {
                probing: true,
                last_probe_ms: Some(now_ms),
                ..old(self)@
            }),
            r.0@ == old(self)@.adapter_kind,
            r.1@ == text::trimmed(old(self)@.port),
            r.2 as nat == probe_baud(old(self)@.baud),
    {
        let port: Vec<char> = text::trim(self.port.as_str());
        let baud: u32 = match parse_baud(self.baud.as_str()) {
            Some(b) => b,
            None => FALLBACK_BAUD,
        };
        self.probing = true;
        self.last_probe_ms = Some(now_ms);
        (self.adapter_kind.clone(), text::string_of(port.as_slice()), baud)
    }

    /// Takes the result of a search. Where the adapter was not found, the result is the adapter to
    /// try in its place, if there is one.
    pub fn probe_finished(&mut self, found: bool) -> (r: Option<AdapterKind>)
        ensures
            kind_view(r) == (if found {
                None
            } else {
                fallback_of(old(self)@.adapter_kind)
            }),
            final(self)@ == (if found {
                FormView {
                    probing: false,
                    dongle_connected: true,
                    adapter_notice: None,
                    ..old(self)@
                }
            } else {
                FormView {
                    probing: false,
                    dongle_connected: false,
                    original_adapter_kind: match old(self)@.original_adapter_kind {
                        Some(k) => Some(k),
                        None => Some(old(self)@.adapter_kind),
                    },
                    ..old(self)@
                }
            }),
    {
        self.probing = false;
        if found {
            self.dongle_connected = true;
            self.adapter_notice = None;
            return None;
        }
        self.dongle_connected = false;
        if self.original_adapter_kind.is_none() {
            self.original_adapter_kind = Some(self.adapter_kind.clone());
        }
        match &self.adapter_kind {
            AdapterKind::Summit => Some(AdapterKind::KCan { serial: None }),
            AdapterKind::KCan { .. } => Some(AdapterKind::Summit),
            _ => None,
        }
    }

    /// Takes an adapter that was found in place of the configured one, and says so.
    pub fn switch_to(&mut self, kind: AdapterKind)
        requires
            old(self)@.original_adapter_kind is Some,
        ensures
            final(self)@ == (FormView {
                dongle_connected: true,
                adapter_kind: kind@,
                adapter_notice: Some(
                    switched_text(old(self)@.original_adapter_kind->0, kind@),
                ),
                ..old(self)@
            }),
    {
        let original: &str = match &self.original_adapter_kind {
            Some(k) => adapter_display_name(k),
            None => "",
        };
        let mut m: String = original.to_owned();
        text::push_str(&mut m, " not found, automatically switched to ");
        text::push_str(&mut m, adapter_display_name(&kind));
        self.adapter_kind = kind;
        self.adapter_notice = Some(m);
        self.dongle_connected = true;
    }

    // ── Selection of the adapter ────────────────────────────────────────────

    /// Selects PEAK hardware: it is searched for at once, and nothing more is said of an earlier
    /// switch.
    pub fn select_summit(&mut self)
        ensures
            final(self)@ == (FormView {
                adapter_kind: AdapterKindView::Summit,
                last_probe_ms: None,
                adapter_notice: None,
                original_adapter_kind: None,
                ..old(self)@
            }),
    {
        self.adapter_kind = AdapterKind::Summit;
        self.last_probe_ms = None;
        self.adapter_notice = None;
        self.original_adapter_kind = None;
    }

    /// Selects the KCAN dongle, the one with the selected serial number if there is one.
    pub fn select_kcan(&mut self)
        ensures
            final(self)@ == (FormView {
                adapter_kind: AdapterKindView::KCan {
                    serial: if old(self)@.kcan_serial.len() == 0 {
                        None
                    } else {
                        Some(old(self)@.kcan_serial)
                    },
                },
                last_probe_ms: None,
                adapter_notice: None,
                original_adapter_kind: None,
                ..old(self)@
            }),
    {
        let serial: Option<String> = if text::chars_of(self.kcan_serial.as_str()).len() == 0 {
            None
        } else {
            Some(self.kcan_serial.clone())
        };
        self.adapter_kind = AdapterKind::KCan { serial };
        self.last_probe_ms = None;
        self.adapter_notice = None;
        self.original_adapter_kind = None;
    }

    /// Selects a KCAN device by its serial number, or the first one found.
    pub fn select_device(&mut self, serial: Option<String>)
        ensures
            final(self)@ == (FormView {
                kcan_serial: match text_view(serial) {
                    Some(s) => s,
                    None => seq![],
                },
                adapter_kind: AdapterKindView::KCan { serial: text_view(serial) },
                ..old(self)@
            }),
    {
        self.kcan_serial =
        match &serial {
            Some(s) => s.clone(),
            None => String::new(),
        };
        self.adapter_kind = AdapterKind::KCan { serial };
        assert(self@.kcan_serial =~= (match text_view(serial) {
            Some(s) => s,
            None => seq![],
        }));
    }

    /// The label of the selected KCAN device.
    pub fn selected_label(&self) -> (r: String)
        ensures
            r@ == selected_text(self@.kcan_devices, self@.kcan_serial),
    {
        let ghost all = self@.kcan_devices;
        let mut i: usize = 0;
        assert(all.skip(0) =~= all);
        while i < self.kcan_devices.len()
            invariant
                i <= self.kcan_devices@.len(),
                all == device_views(self.kcan_devices@),
                selected_text(all.skip(i as int), self.kcan_serial@) == selected_text(
                    all,
                    self.kcan_serial@,
                ),
            decreases self.kcan_devices@.len() - i,
        {
            assert(all.skip(i as int).drop_first() =~= all.skip(i + 1));
            assert(all.skip(i as int)[0] == (
                self.kcan_devices@[i as int].0@,
                self.kcan_devices@[i as int].1@,
            ));
            if text::same_text(self.kcan_devices[i].0.as_str(), self.kcan_serial.as_str()) {
                return self.kcan_devices[i].1.clone();
            }
            i += 1;
        }
        "Auto (first found)".to_owned()
    }

    /// What the button to connect offers.
    pub fn connect_button(&self) -> (r: ConnectButton)
        ensures
            r == (if !self@.dongle_connected {
                ConnectButton::NoDongle
            } else if self@.warnings.len() > 0 {
                ConnectButton::Duplicates
            } else {
                ConnectButton::Ready
            }),
    {
        if !self.dongle_connected {
            ConnectButton::NoDongle
        } else if self.warnings.len() > 0 {
            ConnectButton::Duplicates
        } else {
            ConnectButton::Ready
        }
    }

    // ── Lists ───────────────────────────────────────────────────────────────

    /// Adds an empty node.
    pub fn add_node(&mut self)
        ensures
            final(self)@ == (FormView {
                nodes: old(self)@.nodes.push(NodeEntryView { id_str: seq![], eds_path: seq![] }),
                ..old(self)@
            }),
    {
        let n = NodeEntry { id_str: String::new(), eds_path: String::new() };
        assert(n.id_str@ =~= seq![]);
        assert(n.eds_path@ =~= seq![]);
        let ghost before = self.nodes@;
        let ghost added = n@;
        self.nodes.push(n);
        assert(node_views(self.nodes@) =~= node_views(before).push(added));
    }

    /// Removes a node; no removal awaits confirmation any more.
    pub fn remove_node(&mut self, i: usize)
        requires
            i < old(self).nodes@.len(),
        ensures
            final(self)@ == (FormView {
                nodes: old(self)@.nodes.remove(i as int),
                confirm_remove: None,
                ..old(self)@
            }),
    {
        let ghost before = self.nodes@;
        let _n: NodeEntry = self.nodes.remove(i);
        self.confirm_remove = None;
        assert(node_views(self.nodes@) =~= node_views(before).remove(i as int));
    }

    /// Adds an empty DBC file.
    pub fn add_dbc(&mut self)
        ensures
            final(self)@ == (FormView {
                dbc_files: old(self)@.dbc_files.push(seq![]),
                ..old(self)@
            }),
    {
        let d = DbcEntry { path: String::new() };
        assert(d.path@ =~= seq![]);
        let ghost before = self.dbc_files@;
        self.dbc_files.push(d);
        assert(dbc_paths_of(self.dbc_files@) =~= dbc_paths_of(before).push(seq![]));
    }

    /// Removes a DBC file; no removal awaits confirmation any more.
    pub fn remove_dbc(&mut self, i: usize)
        requires
            i < old(self).dbc_files@.len(),
        ensures
            final(self)@ == (FormView {
                dbc_files: old(self)@.dbc_files.remove(i as int),
                confirm_remove_dbc: None,
                ..old(self)@
            }),
    {
        let ghost before = self.dbc_files@;
        let _d: DbcEntry = self.dbc_files.remove(i);
        self.confirm_remove_dbc = None;
        assert(dbc_paths_of(self.dbc_files@) =~= dbc_paths_of(before).remove(i as int));
    }

    // ── Messages ────────────────────────────────────────────────────────────

    /// Brings the warnings up to date with the nodes that are entered.
    pub fn update_warnings(&mut self)
        ensures
            text::is_sorted_form(
                duplicate_texts(old(self)@.nodes, 128),
                final(self)@.warnings,
            ),
            final(self)@ == (FormView { warnings: final(self)@.warnings, ..old(self)@ }),
    {
        self.warnings = duplicate_warnings(&self.nodes);
    }

    fn add_message(&mut self, text: Option<String>, msg_type: MessageType, now: Moment)
        ensures
            final(self)@ == (FormView {
                message_history: with_message(
                    old(self)@.message_history,
                    text_view(text),
                    msg_type,
                    now,
                ),
                ..old(self)@
            }),
    {
        match text {
            Some(t) => {
                let n: usize = self.message_history.len();
                assert(n > 0 ==> self@.message_history.last().text == self.message_history@[n
                    - 1].text@);
                if n == 0 || !text::same_text(
                    self.message_history[n - 1].text.as_str(),
                    t.as_str(),
                ) {
                    let m = MessageEntry {
                        text: t,
                        msg_type,
                        timestamp_s: now.timestamp_s,
                        created_ms: now.created_ms,
                    };
                    let ghost before = self.message_history@;
                    let ghost added = m@;
                    self.message_history.push(m);
                    assert(message_views(self.message_history@) =~= message_views(before).push(
                        added,
                    ));
                }
            },
            None => {},
        }
    }

    fn knows_warning(&self, w: &str) -> (r: bool)
        ensures
            r == has_warning(self@.message_history, w@),
    {
        let mut i: usize = 0;
        while i < self.message_history.len()
            invariant
                i <= self.message_history@.len(),
                forall|j: int|
                    0 <= j < i ==> !((#[trigger] self@.message_history[j]).text == w@
                        && self@.message_history[j].msg_type == MessageType::Warning),
            decreases self.message_history@.len() - i,
        {
            assert(self@.message_history[i as int] == self.message_history@[i as int]@);
            if self.message_history[i].msg_type == MessageType::Warning && text::same_text(
                self.message_history[i].text.as_str(),
                w,
            ) {
                return true;
            }
            i += 1;
        }
        false
    }

    /// Brings the messages up to date with the current error, notice and warnings.
    pub fn update_messages(&mut self, now: Moment)
        ensures
            final(self)@ == (FormView {
                message_history: updated_messages(
                    old(self)@.message_history,
                    old(self)@.error,
                    old(self)@.adapter_notice,
                    old(self)@.warnings,
                    now,
                ),
                ..old(self)@
            }),
    {
        let error: Option<String> = copy_text(&self.error);
        self.add_message(error, MessageType::Error, now);
        let notice: Option<String> = copy_text(&self.adapter_notice);
        self.add_message(notice, MessageType::Notice, now);
        let ghost start = self@;
        let mut i: usize = 0;
        assert(start.warnings.take(0) =~= seq![]);
        while i < self.warnings.len()
            invariant
                i <= self.warnings@.len(),
                start.warnings == string_views(self.warnings@),
                self@ == (FormView {
                    message_history: with_warnings(
                        start.message_history,
                        start.warnings.take(i as int),
                        now,
                    ),
                    ..start
                }),
            decreases self.warnings@.len() - i,
        {
            assert(start.warnings.take(i + 1).drop_last() =~= start.warnings.take(i as int));
            assert(start.warnings.take(i + 1).last() == self.warnings@[i as int]@);
            if !self.knows_warning(self.warnings[i].as_str()) {
                let m = MessageEntry {
                    text: self.warnings[i].clone(),
                    msg_type: MessageType::Warning,
                    timestamp_s: now.timestamp_s,
                    created_ms: now.created_ms,
                };
                let ghost before = self.message_history@;
                let ghost added = m@;
                self.message_history.push(m);
                assert(message_views(self.message_history@) =~= message_views(before).push(added));
            }
            i += 1;
        }
        assert(start.warnings.take(start.warnings.len() as int) =~= start.warnings);
        let ghost full = self@.message_history;
        let ghost all = self@;
        assert(full.skip(0) =~= full);
        let ghost len = self.message_history@.len();
        while self.message_history.len() > MAX_MESSAGES
            invariant
                self.message_history@.len() <= len,
                len <= MAX_MESSAGES ==> self.message_history@.len() == len,
                len > MAX_MESSAGES ==> self.message_history@.len() >= MAX_MESSAGES,
                len == full.len(),
                self@ == (FormView {
                    message_history: full.skip(len - self.message_history@.len()),
                    ..all
                }),
            decreases self.message_history@.len(),
        {
            let ghost before = self.message_history@;
            let _oldest: MessageEntry = self.message_history.remove(0);
            assert(message_views(self.message_history@) =~= full.skip(
                len - self.message_history@.len(),
            )) by {
                assert(message_views(before) == full.skip(len - before.len()));
                assert forall|k: int| 0 <= k < self.message_history@.len() implies message_views(
                    self.message_history@,
                )[k] == full.skip(len - self.message_history@.len())[k] by {
                    assert(self.message_history@[k] == before[k + 1]);
                    assert(message_views(before)[k + 1] == full.skip(len - before.len())[k + 1]);
                }
            }
        }
        assert(self@.message_history =~= latest(full));
    }
}

/// The label of the device with the given serial number.
pub open spec fn selected_text(devices: Seq<(Seq<char>, Seq<char>)>, serial: Seq<char>) -> Seq<char>
    decreases devices.len(),
{
    if devices.len() == 0 {
        "Auto (first found)"@
    } else if devices[0].0 == serial {
        devices[0].1
    } else {
        selected_text(devices.drop_first(), serial)
    }
}

/// The label of a device in the list: its name, and its serial number where it has one.
pub open spec fn device_text(serial: Seq<char>, name: Seq<char>) -> Seq<char> {
    if serial.len() == 0 {
        name
    } else {
        name + " ["@ + serial + "]"@
    }
}

/// The label of a device in the list.
pub fn device_label(serial: &str, name: &str) -> (r: String)
    ensures
        r@ == device_text(serial@, name@),
{
    let mut s: String = name.to_owned();
    if text::chars_of(serial).len() > 0 {
        text::push_str(&mut s, " [");
        text::push_str(&mut s, serial);
        text::push_str(&mut s, "]");
    }
    s
}

// ─── Laws ───────────────────────────────────────────────────────────────────

/// What a form keeps is what it comes back with: restoring the kept settings gives the same
/// settings again. The log path comes back as it was entered unless it was blank.
pub proof fn law_settings_survive(f: FormView)
    ensures
        ({
            let back = form_of(config_of(f));
            &&& back.port == f.port
            &&& back.baud == f.baud
            &&& back.nodes == f.nodes
            &&& back.sdo_timeout_str == f.sdo_timeout_str
            &&& back.listen_only == f.listen_only
            &&& back.text_log == f.text_log
            &&& back.adapter_kind == f.adapter_kind
            &&& back.kcan_serial == f.kcan_serial
            &&& back.dbc_files == f.dbc_files
            &&& text::trimmed(f.log_path).len() > 0 ==> back.log_path == f.log_path
            &&& config_of(back) == config_of(FormView { log_path: back.log_path, ..f })
        }),
{
}

/// Never more messages are shown than are kept.
pub proof fn law_messages_bounded(
    h: Seq<MessageView>,
    error: Option<Seq<char>>,
    notice: Option<Seq<char>>,
    warnings: Seq<Seq<char>>,
    now: Moment,
)
    ensures
        updated_messages(h, error, notice, warnings, now).len() <= MAX_MESSAGES,
{
}

/// Every node of a session has an ID of its own.
pub proof fn law_session_ids_differ(f: FormView)
    requires
        form_session(f) is Ok,
    ensures
        forall|i: int, j: int|
            0 <= i < j < form_session(f)->Ok_0.nodes.len() ==> (
            #[trigger] form_session(f)->Ok_0.nodes[i]).0 != (
            #[trigger] form_session(f)->Ok_0.nodes[j]).0,
{
    lemma_no_repeat(node_list(f.nodes)->Ok_0);
}

proof fn lemma_no_repeat(nodes: Seq<(u8, Option<Seq<char>>)>)
    requires
        first_repeated(nodes) is None,
    ensures
        forall|i: int, j: int|
            0 <= i < j < nodes.len() ==> (#[trigger] nodes[i]).0 != (#[trigger] nodes[j]).0,
    decreases nodes.len(),
{
    if nodes.len() > 0 {
        lemma_no_repeat(nodes.drop_last());
        assert forall|i: int, j: int| 0 <= i < j < nodes.len() implies (#[trigger] nodes[i]).0 != (
        #[trigger] nodes[j]).0 by {
            if j < nodes.len() - 1 {
                assert(nodes.drop_last()[i] == nodes[i]);
                assert(nodes.drop_last()[j] == nodes[j]);
            }
        }
    }
}

/// Every node of a session has an ID from 1 to 127.
pub proof fn law_session_ids_valid(nodes: Seq<NodeEntryView>)
    requires
        node_list(nodes) is Ok,
    ensures
        forall|i: int|
            0 <= i < node_list(nodes)->Ok_0.len() ==> 1 <= (
            #[trigger] node_list(nodes)->Ok_0[i]).0 <= 127,
    decreases nodes.len(),
{
    if nodes.len() > 0 {
        law_session_ids_valid(nodes.drop_last());
    }
}

/// Falling back twice leads to the kind of adapter that one started with.
pub proof fn law_fallback_goes_both_ways(kind: AdapterKindView)
    requires
        fallback_of(kind) is Some,
    ensures
        fallback_of(fallback_of(kind)->0) matches Some(k) && adapter_name(k) == adapter_name(kind),
{
}

/// A session is set up from a form just where the bitrate, the timeout and the nodes are valid and
/// no two nodes share an ID; it then has the entered settings.
pub proof fn law_session_as_entered(f: FormView)
    ensures
        form_session(f) matches Ok(s) ==> {
            &&& baud_number(f.baud) == Some(s.baud)
            &&& timeout_number(f.sdo_timeout_str) == Some(s.sdo_timeout_ms)
            &&& node_list(f.nodes) == Ok::<Seq<(u8, Option<Seq<char>>)>, Seq<char>>(s.nodes)
            &&& s.port == text::trimmed(f.port)
            &&& s.log_path == text::trimmed(f.log_path)
            &&& s.listen_only == f.listen_only
            &&& s.text_log == f.text_log
            &&& s.adapter_kind == f.adapter_kind
        },
        form_session(f) is Ok <==> baud_number(f.baud) is Some && timeout_number(f.sdo_timeout_str)
            is Some && (node_list(f.nodes) matches Ok(nodes) && forall|i: int, j: int|
            0 <= i < j < nodes.len() ==> (#[trigger] nodes[i]).0 != (#[trigger] nodes[j]).0),
{
    if let Ok(nodes) = node_list(f.nodes) {
        if first_repeated(nodes) is None {
            lemma_no_repeat(nodes);
        } else {
            lemma_repeat_found(nodes);
        }
    }
}

proof fn lemma_repeat_found(nodes: Seq<(u8, Option<Seq<char>>)>)
    requires
        first_repeated(nodes) is Some,
    ensures
        exists|i: int, j: int|
            0 <= i < j < nodes.len() && (#[trigger] nodes[i]).0 == (#[trigger] nodes[j]).0
                && nodes[j].0 == first_repeated(nodes)->0,
    decreases nodes.len(),
{
    let init = nodes.drop_last();
    if first_repeated(init) is Some {
        lemma_repeat_found(init);
        let (i, j) = choose|i: int, j: int|
            0 <= i < j < init.len() && (#[trigger] init[i]).0 == (#[trigger] init[j]).0
                && init[j].0 == first_repeated(init)->0;
        assert(nodes[i] == init[i] && nodes[j] == init[j]);
    } else {
        let i = choose|i: int|
            0 <= i < nodes.len() - 1 && (#[trigger] nodes[i]).0 == nodes.last().0;
        assert(nodes[nodes.len() - 1] == nodes.last());
        assert(nodes[i].0 == nodes[nodes.len() - 1].0);
    }
}

/// A node ID that two entries share is warned about, and no other.
#[verifier::spinoff_prover]
pub proof fn law_shared_ids_warned(nodes: Seq<NodeEntryView>, id: u8)
    requires
        id < 128,
    ensures
        id_count(nodes, id) > 1 ==> duplicate_texts(nodes, 128).contains(duplicate_text(id)),
        (exists|i: int, j: int|
            0 <= i < j < nodes.len() && node_id_number(text::trimmed((#[trigger] nodes[i]).id_str))
                == Some(id) && node_id_number(text::trimmed((#[trigger] nodes[j]).id_str)) == Some(
                id,
            )) ==> id_count(nodes, id) > 1,
        (forall|k: u8| k < 128 ==> #[trigger] id_count(nodes, k) <= 1) ==> duplicate_texts(
            nodes,
            128,
        ).len() == 0,
{
    lemma_warned(nodes, id, 128);
    if forall|k: u8| k < 128 ==> #[trigger] id_count(nodes, k) <= 1 {
        lemma_not_warned(nodes, 128);
    }
    if exists|i: int, j: int|
        0 <= i < j < nodes.len() && node_id_number(text::trimmed((#[trigger] nodes[i]).id_str))
            == Some(id) && node_id_number(text::trimmed((#[trigger] nodes[j]).id_str)) == Some(id) {
        let (i, j) = choose|i: int, j: int|
            0 <= i < j < nodes.len() && node_id_number(text::trimmed((#[trigger] nodes[i]).id_str))
                == Some(id) && node_id_number(text::trimmed((#[trigger] nodes[j]).id_str)) == Some(
                id,
            );
        lemma_counted(nodes, id, i, nodes.len() as int);
        lemma_counted_twice(nodes, id, i, j);
    }
}

#[verifier::spinoff_prover]
proof fn lemma_counted(nodes: Seq<NodeEntryView>, id: u8, i: int, n: int)
    requires
        0 <= i < n <= nodes.len(),
        node_id_number(text::trimmed(nodes[i].id_str)) == Some(id),
    ensures
        id_count(nodes.take(n), id) >= 1,
    decreases n,
{
    assert(nodes.take(n).drop_last() =~= nodes.take(n - 1));
    if i < n - 1 {
        lemma_counted(nodes, id, i, n - 1);
    }
}

#[verifier::spinoff_prover]
proof fn lemma_counted_twice(nodes: Seq<NodeEntryView>, id: u8, i: int, j: int)
    requires
        0 <= i < j < nodes.len(),
        node_id_number(text::trimmed(nodes[i].id_str)) == Some(id),
        node_id_number(text::trimmed(nodes[j].id_str)) == Some(id),
    ensures
        id_count(nodes, id) >= 2,
    decreases nodes.len(),
{
    let init = nodes.drop_last();
    assert(init[i] == nodes[i]);
    if j < init.len() {
        assert(init[j] == nodes[j]);
        lemma_counted_twice(init, id, i, j);
    } else {
        assert(nodes.take(nodes.len() - 1) =~= init);
        assert(nodes.last() == nodes[j]);
        lemma_counted(nodes, id, i, nodes.len() - 1);
    }
}

proof fn lemma_warned(nodes: Seq<NodeEntryView>, id: u8, bound: nat)
    requires
        bound <= 128,
    ensures
        id < bound && id_count(nodes, id) > 1 ==> duplicate_texts(nodes, bound).contains(
            duplicate_text(id),
        ),
    decreases bound,
{
    if id < bound && id_count(nodes, id) > 1 {
        lemma_warned(nodes, id, (bound - 1) as nat);
        let before = duplicate_texts(nodes, (bound - 1) as nat);
        let all = duplicate_texts(nodes, bound);
        if id == bound - 1 {
            assert(all.last() == duplicate_text(id));
            assert(all[all.len() - 1] == duplicate_text(id));
        } else {
            let k = choose|k: int| 0 <= k < before.len() && before[k] == duplicate_text(id);
            assert(all[k] == duplicate_text(id));
        }
    }
}

proof fn lemma_not_warned(nodes: Seq<NodeEntryView>, bound: nat)
    requires
        bound <= 128,
        forall|k: u8| k < 128 ==> #[trigger] id_count(nodes, k) <= 1,
    ensures
        duplicate_texts(nodes, bound).len() == 0,
    decreases bound,
{
    if bound > 0 {
        lemma_not_warned(nodes, (bound - 1) as nat);
        assert(id_count(nodes, (bound - 1) as u8) <= 1);
    }
}

/// The messages that are kept are the latest: the current error, notice and warnings follow on
/// what was there, in that order, unless they are there already.
pub proof fn law_messages_follow(
    h: Seq<MessageView>,
    error: Option<Seq<char>>,
    now: Moment,
)
    requires
        h.len() < MAX_MESSAGES,
    ensures
        error matches Some(e) ==> {
            let after = updated_messages(h, error, None, seq![], now);
            if h.len() > 0 && h.last().text == e {
                after == h
            } else {
                &&& after.drop_last() == h
                &&& after.last().text == e
                &&& after.last().msg_type == MessageType::Error
                &&& after.last().created_ms == now.created_ms
                &&& after.last().timestamp_s == now.timestamp_s
            }
        },
        error is None ==> updated_messages(h, error, None, seq![], now) == h,
{
    if let Some(e) = error {
        let after = updated_messages(h, error, None, seq![], now);
        if !(h.len() > 0 && h.last().text == e) {
            assert(after.drop_last() =~= h);
        }
    }
}

/// A warning that is there already is not repeated, and every current warning is there afterwards.
pub proof fn law_warnings_shown_once(
    h: Seq<MessageView>,
    warnings: Seq<Seq<char>>,
    now: Moment,
    i: int,
)
    requires
        0 <= i < warnings.len(),
    ensures
        has_warning(with_warnings(h, warnings, now), warnings[i]),
        with_warnings(with_warnings(h, warnings, now), warnings, now) == with_warnings(
            h,
            warnings,
            now,
        ),
{
    let w = with_warnings(h, warnings, now);
    assert forall|k: int| 0 <= k < warnings.len() implies has_warning(w, #[trigger] warnings[k]) by {
        lemma_warning_there(h, warnings, now, k);
    }
    lemma_warnings_stay(w, warnings, now);
}

proof fn lemma_warning_there(h: Seq<MessageView>, warnings: Seq<Seq<char>>, now: Moment, i: int)
    requires
        0 <= i < warnings.len(),
    ensures
        has_warning(with_warnings(h, warnings, now), warnings[i]),
    decreases warnings.len(),
{
    let init = warnings.drop_last();
    let before = with_warnings(h, init, now);
    let w = with_warnings(h, warnings, now);
    if i < init.len() {
        lemma_warning_there(h, init, now, i);
        let k = choose|k: int|
            0 <= k < before.len() && (#[trigger] before[k]).text == warnings[i]
                && before[k].msg_type == MessageType::Warning;
        assert(w[k] == before[k]);
    } else if !has_warning(before, warnings.last()) {
        assert(w[w.len() - 1].text == warnings[i]);
    }
}

proof fn lemma_warnings_stay(w: Seq<MessageView>, warnings: Seq<Seq<char>>, now: Moment)
    requires
        forall|k: int| 0 <= k < warnings.len() ==> has_warning(w, #[trigger] warnings[k]),
    ensures
        with_warnings(w, warnings, now) == w,
    decreases warnings.len(),
{
    if warnings.len() > 0 {
        let init = warnings.drop_last();
        assert forall|k: int| 0 <= k < init.len() implies has_warning(w, #[trigger] init[k]) by {
            assert(init[k] == warnings[k]);
        }
        lemma_warnings_stay(w, init, now);
        assert(has_warning(w, warnings[warnings.len() - 1]));
    }
}

} // verus!
