//! Event log: one record per event, as fields for a JSON line and as a line of plain text.
//!
//! The logger builds the records and decides when the files are flushed. Writing is left to the
//! caller, which hands back whether it succeeded.

use vstd::prelude::*;

use crate::adapters::text_view;
use crate::canopen::nmt::{state_text, NmtCommand, NmtEvent};
use crate::canopen::pdo::{PdoRawValue, PdoRawValueView, PdoValue, PdoValueView};
use crate::canopen::sdo::{SdoDirection, SdoEvent, SdoEventView, SdoValue, SdoValueView};
use crate::dbc::types::{DbcFrameSignals, FrameSignalsView, SignalValueView};
use crate::text;

verus! {

// ─── Timestamps ─────────────────────────────────────────────────────────────

/// Whether a time, in milliseconds since 1970-01-01 UTC, lies in the range of dates that the
/// calendar covers: the years from -262143 to 262142.
pub open spec fn valid_time(ms: i64) -> bool {
    -8_334_601_228_800_000 <= ms <= 8_210_266_876_799_999
}

/// A time in UTC as text by RFC 3339, with milliseconds and a final `Z`.
pub uninterp spec fn rfc3339_millis(ms: i64) -> Seq<char>;

/// `chrono::DateTime::<Utc>::to_rfc3339_opts` with milliseconds and `Z`, for the time so many
/// milliseconds after 1970-01-01 UTC. The text depends on the time alone. The time lies in the
/// range that `from_timestamp_millis` takes.
#[verifier::external_body]
fn utc_text(ms: i64) -> (r: String)
    requires
        valid_time(ms),
    ensures
        r@ == rfc3339_millis(ms),
{
    let t = chrono::DateTime::<chrono::Utc>::from_timestamp_millis(ms).unwrap_or_default();
    t.to_rfc3339_opts(chrono::SecondsFormat::Millis, true)
}

// ─── Fields ─────────────────────────────────────────────────────────────────

/// The value of a field.
#[derive(Debug)]
pub enum LogValue {
    Null,
    Bool(bool),
    Signed(i64),
    Unsigned(u64),
    /// Bits of a 32-bit floating-point number.
    Single(u32),
    /// Bits of a 64-bit floating-point number.
    Double(u64),
    Text(String),
    Texts(Vec<String>),
    /// A list of byte values.
    Bytes(Vec<u8>),
}

/// The mathematical value of a [`LogValue`].
pub enum LogValueView {
    Null,
    Bool(bool),
    Number(int),
    Single(u32),
    Double(u64),
    Text(Seq<char>),
    Texts(Seq<Seq<char>>),
    Bytes(Seq<u8>),
}

/// The texts of strings.
pub open spec fn string_views(s: Seq<String>) -> Seq<Seq<char>> {
    s.map_values(|t: String| t@)
}

impl LogValue {
    /// The value over views.
    pub open spec fn view(&self) -> LogValueView {
        match self {
            LogValue::Null => LogValueView::Null,
            LogValue::Bool(b) => LogValueView::Bool(*b),
            LogValue::Signed(n) => LogValueView::Number(*n as int),
            LogValue::Unsigned(n) => LogValueView::Number(*n as int),
            LogValue::Single(b) => LogValueView::Single(*b),
            LogValue::Double(b) => LogValueView::Double(*b),
            LogValue::Text(s) => LogValueView::Text(s@),
            LogValue::Texts(v) => LogValueView::Texts(string_views(v@)),
            LogValue::Bytes(b) => LogValueView::Bytes(b@),
        }
    }
}

/// A field of a record.
#[derive(Debug)]
pub struct Field {
    pub key: String,
    pub value: LogValue,
}

/// The mathematical value of a [`Field`].
pub struct FieldView {
    pub key: Seq<char>,
    pub value: LogValueView,
}

impl Field {
    /// The field over views.
    pub open spec fn view(&self) -> FieldView {
        FieldView { key: self.key@, value: self.value@ }
    }
}

/// The views of fields.
pub open spec fn field_views(fields: Seq<Field>) -> Seq<FieldView> {
    fields.map_values(|f: Field| f@)
}

/// A field with the given key and value.
pub open spec fn field_of(key: Seq<char>, value: LogValueView) -> FieldView {
    FieldView { key, value }
}

fn field(key: &str, value: LogValue) -> (r: Field)
    ensures
        r@ == field_of(key@, value@),
{
    Field { key: key.to_owned(), value }
}

fn text_field(key: &str, value: &str) -> (r: Field)
    ensures
        r@ == field_of(key@, LogValueView::Text(value@)),
{
    Field { key: key.to_owned(), value: LogValue::Text(value.to_owned()) }
}

fn number_field(key: &str, value: u64) -> (r: Field)
    ensures
        r@ == field_of(key@, LogValueView::Number(value as int)),
{
    Field { key: key.to_owned(), value: LogValue::Unsigned(value) }
}

/// The value of a signal in a record.
#[derive(Debug)]
pub enum SignalRecord {
    /// A signal of a PDO.
    Pdo { name: String, value: LogValue },
    /// A signal of a DBC message: its raw value, the bits of its physical value, its unit and the
    /// description of its value.
    Dbc {
        name: String,
        raw: i64,
        physical: u64,
        unit: String,
        description: Option<String>,
    },
}

/// The mathematical value of a [`SignalRecord`].
pub enum SignalRecordView {
    Pdo { name: Seq<char>, value: LogValueView },
    Dbc {
        name: Seq<char>,
        raw: int,
        physical: u64,
        unit: Seq<char>,
        description: Option<Seq<char>>,
    },
}

impl SignalRecord {
    /// The record over views.
    pub open spec fn view(&self) -> SignalRecordView {
        match self {
            SignalRecord::Pdo { name, value } => SignalRecordView::Pdo {
                name: name@,
                value: value@,
            },
            SignalRecord::Dbc { name, raw, physical, unit, description } => SignalRecordView::Dbc {
                name: name@,
                raw: *raw as int,
                physical: *physical,
                unit: unit@,
                description: text_view(*description),
            },
        }
    }
}

/// The views of signal records.
pub open spec fn signal_record_views(s: Seq<SignalRecord>) -> Seq<SignalRecordView> {
    s.map_values(|r: SignalRecord| r@)
}

/// What is known of the workstation.
#[derive(Debug)]
pub struct HostInfo {
    pub os: String,
    pub model: String,
    pub arch: String,
    pub hostname: String,
    pub user: String,
}

/// The mathematical value of a [`HostInfo`].
pub struct HostInfoView {
    pub os: Seq<char>,
    pub model: Seq<char>,
    pub arch: Seq<char>,
    pub hostname: Seq<char>,
    pub user: Seq<char>,
}

impl HostInfo {
    /// The information over views.
    pub open spec fn view(&self) -> HostInfoView {
        HostInfoView {
            os: self.os@,
            model: self.model@,
            arch: self.arch@,
            hostname: self.hostname@,
            user: self.user@,
        }
    }
}

/// A record: its fields; the object `signals`, where it has one, in which a later signal replaces
/// an earlier one of the same name; the object `host`, where it has one.
#[derive(Debug)]
pub struct LogEntry {
    pub fields: Vec<Field>,
    pub signals: Option<Vec<SignalRecord>>,
    pub host: Option<HostInfo>,
}

/// The mathematical value of a [`LogEntry`].
pub struct LogEntryView {
    pub fields: Seq<FieldView>,
    pub signals: Option<Seq<SignalRecordView>>,
    pub host: Option<HostInfoView>,
}

impl LogEntry {
    /// The entry over views.
    pub open spec fn view(&self) -> LogEntryView {
        LogEntryView {
            fields: field_views(self.fields@),
            signals: match self.signals {
                Some(s) => Some(signal_record_views(s@)),
                None => None,
            },
            host: match self.host {
                Some(h) => Some(h@),
                None => None,
            },
        }
    }
}

/// An entry with fields alone.
pub open spec fn plain_entry(fields: Seq<FieldView>) -> LogEntryView {
    LogEntryView { fields, signals: None, host: None }
}

/// The fields with another key than the given one.
pub open spec fn without_key(fields: Seq<FieldView>, key: Seq<char>) -> Seq<FieldView>
    decreases fields.len(),
{
    if fields.len() == 0 {
        fields
    } else if fields.last().key == key {
        without_key(fields.drop_last(), key)
    } else {
        without_key(fields.drop_last(), key).push(fields.last())
    }
}

/// The fields with a value under a key, in place of what stood under it.
pub open spec fn with_field(fields: Seq<FieldView>, key: Seq<char>, value: LogValueView) -> Seq<
    FieldView,
> {
    without_key(fields, key).push(field_of(key, value))
}

/// An entry with the hardware timestamp of its frame, where there is one. It replaces what the entry
/// has under its key.
pub open spec fn stamped(entry: LogEntryView, hw_timestamp_us: Option<u32>) -> LogEntryView {
    match hw_timestamp_us {
        Some(t) => LogEntryView {
            fields: with_field(entry.fields, "hw_ts_us"@, LogValueView::Number(t as int)),
            ..entry
        },
        None => entry,
    }
}

fn remove_key(fields: Vec<Field>, key: &str) -> (r: Vec<Field>)
    ensures
        field_views(r@) == without_key(field_views(fields@), key@),
{
    let ghost all = field_views(fields@);
    let mut rest: Vec<Field> = fields;
    let mut reversed: Vec<Field> = Vec::new();
    proof {
        assert(field_views(rest@) =~= all.take(rest@.len() as int));
        assert(all.take(rest@.len() as int) =~= all);
        assert(field_views(reversed@).reverse() =~= seq![]);
        assert(without_key(all, key@) + field_views(reversed@).reverse() =~= without_key(all, key@));
    }
    while rest.len() > 0
        invariant
            field_views(rest@) == all.take(rest@.len() as int),
            rest@.len() <= all.len(),
            without_key(all.take(rest@.len() as int), key@) + field_views(reversed@).reverse()
                == without_key(all, key@),
        decreases rest@.len(),
    {
        let ghost k = rest@.len() as int;
        let ghost old_rest = rest@;
        match rest.pop() {
            Some(f) => {
                proof {
                    assert(all.take(k).drop_last() =~= all.take(k - 1));
                    assert(field_views(old_rest)[k - 1] == f@);
                    assert(all.take(k).last() == f@);
                    assert(field_views(rest@) =~= all.take(k - 1));
                }
                if !text::same_text(f.key.as_str(), key) {
                    let ghost added = f@;
                    let ghost before = reversed@;
                    let ghost head = without_key(all.take(k - 1), key@);
                    reversed.push(f);
                    proof {
                        assert(field_views(reversed@) =~= field_views(before).push(added));
                        assert(head.push(added) + field_views(before).reverse() =~= head
                            + field_views(reversed@).reverse());
                    }
                }
            },
            None => {},
        }
    }
    let mut kept: Vec<Field> = Vec::new();
    let ghost flipped = field_views(reversed@);
    proof {
        assert(all.take(0) =~= seq![]);
        assert(without_key(all.take(0), key@) + flipped.reverse() =~= flipped.reverse());
        assert(field_views(kept@) + flipped.reverse() =~= flipped.reverse());
    }
    while reversed.len() > 0
        invariant
            field_views(kept@) + field_views(reversed@).reverse() == flipped.reverse(),
            flipped.reverse() == without_key(all, key@),
        decreases reversed@.len(),
    {
        let ghost before = reversed@;
        let ghost done = kept@;
        match reversed.pop() {
            Some(f) => {
                let ghost added = f@;
                kept.push(f);
                proof {
                    assert(field_views(before) =~= field_views(reversed@).push(added));
                    assert(field_views(kept@) =~= field_views(done).push(added));
                    assert(field_views(done) + field_views(before).reverse() =~= field_views(kept@)
                        + field_views(reversed@).reverse());
                }
            },
            None => {},
        }
    }
    assert(field_views(kept@) + field_views(reversed@).reverse() =~= field_views(kept@));
    kept
}

/// A record to write: the entry for the JSON line, and the line of plain text where there is a
/// plain-text log.
#[derive(Debug)]
pub struct Record {
    pub entry: LogEntry,
    pub line: Option<String>,
}

// ─── Formats ────────────────────────────────────────────────────────────────

/// A COB-ID as text: `0x` and at least three digits.
pub open spec fn cob_id_text(cob_id: u16) -> Seq<char> {
    "0x"@ + text::hex_padded(cob_id as nat, 3)
}

fn cob_id_string(cob_id: u16) -> (r: String)
    ensures
        r@ == cob_id_text(cob_id),
{
    let mut s: String = "0x".to_owned();
    text::push_hex(&mut s, cob_id as u64, 3);
    s
}

/// Bytes as texts: each `0x` and two digits.
pub open spec fn hex_list(raw: Seq<u8>) -> Seq<Seq<char>> {
    raw.map_values(|b: u8| "0x"@ + text::hex_padded(b as nat, 2))
}

/// Writes each byte as `0x` and two digits.
pub fn bytes_to_hex(raw: &[u8]) -> (r: Vec<String>)
    ensures
        string_views(r@) == hex_list(raw@),
{
    let mut out: Vec<String> = Vec::new();
    let mut i: usize = 0;
    while i < raw.len()
        invariant
            i <= raw@.len(),
            string_views(out@) == hex_list(raw@.take(i as int)),
        decreases raw@.len() - i,
    {
        let mut s: String = "0x".to_owned();
        text::push_hex(&mut s, raw[i] as u64, 2);
        let ghost added = s@;
        let ghost before = out@;
        out.push(s);
        assert(string_views(out@) =~= string_views(before).push(added));
        assert(hex_list(raw@.take(i + 1)) =~= hex_list(raw@.take(i as int)).push(added));
        i += 1;
    }
    assert(raw@.take(raw@.len() as int) =~= raw@);
    out
}

/// The name of a network management command.
pub open spec fn command_text(command: NmtCommand) -> Seq<char> {
    match command {
        NmtCommand::StartRemoteNode => "START"@,
        NmtCommand::StopRemoteNode => "STOP"@,
        NmtCommand::EnterPreOperational => "ENTER_PRE_OP"@,
        NmtCommand::ResetNode => "RESET_NODE"@,
        NmtCommand::ResetCommunication => "RESET_COMM"@,
        NmtCommand::Unknown(_) => "UNKNOWN"@,
    }
}

/// The name of a network management command.
pub fn format_nmt_command(command: &NmtCommand) -> (r: &'static str)
    ensures
        r@ == command_text(*command),
{
    match command {
        NmtCommand::StartRemoteNode => "START",
        NmtCommand::StopRemoteNode => "STOP",
        NmtCommand::EnterPreOperational => "ENTER_PRE_OP",
        NmtCommand::ResetNode => "RESET_NODE",
        NmtCommand::ResetCommunication => "RESET_COMM",
        NmtCommand::Unknown(_) => "UNKNOWN",
    }
}

/// A line of the plain-text log: `[time][type][cob-id] HH HH HH`, with the type filled up to 16
/// characters.
pub open spec fn text_line(
    ts: Seq<char>,
    type_text: Seq<char>,
    cob_id: Seq<char>,
    raw: Seq<u8>,
) -> Seq<char> {
    "["@ + ts + "]["@ + text::left_aligned(type_text, 16) + "]["@ + cob_id + "] "@
        + text::hex_joined(raw, " "@)
}

/// Writes a line of the plain-text log.
pub fn write_text_line(ts: &str, type_text: &str, cob_id: &str, raw: &[u8]) -> (r: String)
    ensures
        r@ == text_line(ts@, type_text@, cob_id@, raw@),
{
    let mut s: String = "[".to_owned();
    text::push_str(&mut s, ts);
    text::push_str(&mut s, "][");
    text::push_left_aligned(&mut s, type_text, 16);
    text::push_str(&mut s, "][");
    text::push_str(&mut s, cob_id);
    text::push_str(&mut s, "] ");
    text::push_hex_bytes(&mut s, raw, " ");
    s
}

// ─── Entries ────────────────────────────────────────────────────────────────

/// The fields of a network management command.
pub open spec fn command_fields(
    ts: Seq<char>,
    type_text: Seq<char>,
    cob_id: Seq<char>,
    command: NmtCommand,
    target_node: u8,
    raw: Seq<u8>,
) -> Seq<FieldView> {
    seq![
        field_of("ts"@, LogValueView::Text(ts)),
        field_of("type"@, LogValueView::Text(type_text)),
        field_of("cob_id"@, LogValueView::Text(cob_id)),
        field_of("source_node"@, LogValueView::Number(0)),
        field_of("command"@, LogValueView::Text(command_text(command))),
        field_of("target_node"@, LogValueView::Number(target_node as int)),
        field_of("raw"@, LogValueView::Texts(hex_list(raw))),
    ]
}

fn command_entry(
    ts: &str,
    type_text: &str,
    cob_id: &str,
    command: &NmtCommand,
    target_node: u8,
    raw: &[u8],
) -> (r: LogEntry)
    ensures
        r@ == plain_entry(command_fields(ts@, type_text@, cob_id@, *command, target_node, raw@)),
{
    let fields: Vec<Field> = vec![
        text_field("ts", ts),
        text_field("type", type_text),
        text_field("cob_id", cob_id),
        number_field("source_node", 0),
        text_field("command", format_nmt_command(command)),
        number_field("target_node", target_node as u64),
        field("raw", LogValue::Texts(bytes_to_hex(raw))),
    ];
    assert(field_views(fields@) =~= command_fields(
        ts@,
        type_text@,
        cob_id@,
        *command,
        target_node,
        raw@,
    ));
    LogEntry { fields, signals: None, host: None }
}

/// The type of a network management record.
pub open spec fn nmt_type(event: NmtEvent) -> Seq<char> {
    match event {
        NmtEvent::Command { .. } => "NMT_COMMAND"@,
        NmtEvent::Heartbeat { .. } => "NMT_STATE"@,
    }
}

/// The fields of a network management event. Commands come from the master, node 0; a heartbeat
/// comes from the node itself.
pub open spec fn nmt_fields(ts: Seq<char>, event: NmtEvent, raw: Seq<u8>, cob_id: u16) -> Seq<
    FieldView,
> {
    match event {
        NmtEvent::Command { command, target_node } => command_fields(
            ts,
            "NMT_COMMAND"@,
            cob_id_text(cob_id),
            command,
            target_node,
            raw,
        ),
        NmtEvent::Heartbeat { node_id, state } => seq![
            field_of("ts"@, LogValueView::Text(ts)),
            field_of("type"@, LogValueView::Text("NMT_STATE"@)),
            field_of("cob_id"@, LogValueView::Text(cob_id_text(cob_id))),
            field_of("source_node"@, LogValueView::Number(node_id as int)),
            field_of("node"@, LogValueView::Number(node_id as int)),
            field_of("state"@, LogValueView::Text(state_text(state))),
            field_of("raw"@, LogValueView::Texts(hex_list(raw))),
        ],
    }
}

/// The type of an SDO record.
pub open spec fn sdo_type(direction: SdoDirection) -> Seq<char> {
    match direction {
        SdoDirection::Read => "SDO_READ"@,
        SdoDirection::Write => "SDO_WRITE"@,
    }
}

/// The value of an SDO transfer as a field's value.
pub open spec fn sdo_log_value(v: SdoValueView) -> LogValueView {
    match v {
        SdoValueView::Bool(b) => LogValueView::Bool(b),
        SdoValueView::I8(n) => LogValueView::Number(n),
        SdoValueView::I16(n) => LogValueView::Number(n),
        SdoValueView::I32(n) => LogValueView::Number(n),
        SdoValueView::I64(n) => LogValueView::Number(n),
        SdoValueView::U8(n) => LogValueView::Number(n),
        SdoValueView::U16(n) => LogValueView::Number(n),
        SdoValueView::U32(n) => LogValueView::Number(n),
        SdoValueView::U64(n) => LogValueView::Number(n),
        SdoValueView::F32(b) => LogValueView::Single(b as u32),
        SdoValueView::F64(b) => LogValueView::Double(b as u64),
        SdoValueView::Bytes(b) => LogValueView::Bytes(b),
    }
}

fn sdo_value_field(v: &SdoValue) -> (r: LogValue)
    ensures
        r@ == sdo_log_value(v@),
{
    match v {
        SdoValue::Bool(b) => LogValue::Bool(*b),
        SdoValue::I8(n) => LogValue::Signed(*n as i64),
        SdoValue::I16(n) => LogValue::Signed(*n as i64),
        SdoValue::I32(n) => LogValue::Signed(*n as i64),
        SdoValue::I64(n) => LogValue::Signed(*n),
        SdoValue::U8(n) => LogValue::Unsigned(*n as u64),
        SdoValue::U16(n) => LogValue::Unsigned(*n as u64),
        SdoValue::U32(n) => LogValue::Unsigned(*n as u64),
        SdoValue::U64(n) => LogValue::Unsigned(*n),
        SdoValue::F32(b) => LogValue::Single(*b),
        SdoValue::F64(b) => LogValue::Double(*b),
        SdoValue::Bytes(b) => LogValue::Bytes(vstd::slice::slice_to_vec(b.as_slice())),
    }
}

/// Whether a byte may stand in ASCII text: a printable character, a tab, the end of a line, or
/// NUL.
pub open spec fn is_text_byte(b: u8) -> bool {
    b == 0 || b == 0x09 || b == 0x0A || b == 0x0D || 0x20 <= b < 0x7F
}

/// The ASCII text in bytes, up to the first NUL; `None` where a byte does not belong in text.
pub open spec fn ascii_text(bytes: Seq<u8>) -> Option<Seq<char>> {
    if forall|i: int| 0 <= i < bytes.len() ==> #[trigger] is_text_byte(bytes[i]) {
        Some(until_nul(bytes))
    } else {
        None
    }
}

/// The bytes before the first NUL, as characters.
pub open spec fn until_nul(bytes: Seq<u8>) -> Seq<char>
    decreases bytes.len(),
{
    if bytes.len() == 0 || bytes[0] == 0 {
        Seq::empty()
    } else {
        seq![bytes[0] as char] + until_nul(bytes.drop_first())
    }
}

/// The ASCII text in bytes, up to the first NUL; `None` where a byte does not belong in text.
pub fn ascii_of(bytes: &[u8]) -> (r: Option<String>)
    ensures
        text_view(r) == ascii_text(bytes@),
{
    let mut i: usize = 0;
    while i < bytes.len()
        invariant
            i <= bytes@.len(),
            forall|j: int| 0 <= j < i ==> #[trigger] is_text_byte(bytes@[j]),
        decreases bytes@.len() - i,
    {
        let b: u8 = bytes[i];
        let fits: bool = b == 0 || b == 0x09 || b == 0x0A || b == 0x0D || (0x20 <= b && b < 0x7F);
        if !fits {
            assert(!is_text_byte(bytes@[i as int]));
            return None;
        }
        i += 1;
    }
    let mut s: String = "".to_owned();
    let mut k: usize = 0;
    proof {
        reveal_strlit("");
    }
    assert(s@ =~= Seq::empty());
    assert(bytes@.skip(0) =~= bytes@);
    while k < bytes.len() && bytes[k] != 0
        invariant
            k <= bytes@.len(),
            s@ + until_nul(bytes@.skip(k as int)) == until_nul(bytes@),
        decreases bytes@.len() - k,
    {
        let ghost before = s@;
        s.push(bytes[k] as char);
        assert(bytes@.skip(k as int).drop_first() =~= bytes@.skip(k + 1));
        assert(s@ + until_nul(bytes@.skip(k + 1)) =~= before + (seq![bytes@[k as int] as char]
            + until_nul(bytes@.skip(k + 1))));
        k += 1;
    }
    assert(s@ + until_nul(bytes@.skip(k as int)) =~= s@);
    Some(s)
}

/// The fields of an SDO event. A COB-ID from 0x580 to 0x5FF carries a response of the node, any
/// other a request of the master, node 0.
pub open spec fn sdo_fields(ts: Seq<char>, event: SdoEventView, raw: Seq<u8>, cob_id: u16) -> Seq<
    FieldView,
> {
    seq![
        field_of("ts"@, LogValueView::Text(ts)),
        field_of("type"@, LogValueView::Text(sdo_type(event.direction))),
        field_of("cob_id"@, LogValueView::Text(cob_id_text(cob_id))),
        field_of(
            "source_node"@,
            LogValueView::Number(
                if 0x580 <= cob_id <= 0x5FF {
                    event.node_id as int
                } else {
                    0
                },
            ),
        ),
        field_of("node"@, LogValueView::Number(event.node_id as int)),
        field_of(
            "index"@,
            LogValueView::Text("0x"@ + text::hex_padded(event.index as nat, 4)),
        ),
        field_of(
            "subindex"@,
            LogValueView::Text("0x"@ + text::hex_padded(event.subindex as nat, 2)),
        ),
        field_of("name"@, LogValueView::Text(event.name)),
        field_of("raw"@, LogValueView::Texts(hex_list(raw))),
    ] + sdo_value_fields(event.value) + (match event.abort_code {
        Some(code) => seq![
            field_of(
                "abort_code"@,
                LogValueView::Text("0x"@ + text::hex_padded(code as nat, 8)),
            ),
        ],
        None => seq![],
    })
}

/// The fields about the value of an SDO event; bytes that are text are given as text too.
pub open spec fn sdo_value_fields(value: Option<SdoValueView>) -> Seq<FieldView> {
    match value {
        Some(v) => seq![field_of("value"@, sdo_log_value(v))] + (match v {
            SdoValueView::Bytes(b) => match ascii_text(b) {
                Some(t) => seq![field_of("ascii"@, LogValueView::Text(t))],
                None => seq![],
            },
            _ => seq![],
        }),
        None => seq![],
    }
}

/// The value of a PDO signal as a field's value.
pub open spec fn pdo_log_value(v: PdoRawValueView) -> LogValueView {
    match v {
        PdoRawValueView::Integer(n) => LogValueView::Number(n),
        PdoRawValueView::Unsigned(n) => LogValueView::Number(n),
        PdoRawValueView::Real32(b) => LogValueView::Single(b as u32),
        PdoRawValueView::Real64(b) => LogValueView::Double(b as u64),
        PdoRawValueView::Text(s) => LogValueView::Text(s),
        PdoRawValueView::Bytes(b) => LogValueView::Texts(hex_list(b)),
    }
}

/// The value of a PDO signal as a field's value; bytes as a list of texts.
pub fn pdo_value_to_json(v: &PdoRawValue) -> (r: LogValue)
    ensures
        r@ == pdo_log_value(v@),
{
    match v {
        PdoRawValue::Integer(n) => LogValue::Signed(*n),
        PdoRawValue::Unsigned(n) => LogValue::Unsigned(*n),
        PdoRawValue::Real32(b) => LogValue::Single(*b),
        PdoRawValue::Real64(b) => LogValue::Double(*b),
        PdoRawValue::Text(s) => LogValue::Text(s.clone()),
        PdoRawValue::Bytes(b) => LogValue::Texts(bytes_to_hex(b.as_slice())),
    }
}

/// The entry of a PDO: it comes from the node itself.
pub open spec fn pdo_entry(
    ts: Seq<char>,
    node_id: u8,
    pdo_num: u8,
    values: Seq<PdoValueView>,
    raw: Seq<u8>,
    cob_id: u16,
) -> LogEntryView {
    LogEntryView {
        fields: seq![
            field_of("ts"@, LogValueView::Text(ts)),
            field_of("type"@, LogValueView::Text("PDO"@)),
            field_of("cob_id"@, LogValueView::Text(cob_id_text(cob_id))),
            field_of("source_node"@, LogValueView::Number(node_id as int)),
            field_of("node"@, LogValueView::Number(node_id as int)),
            field_of("pdo_num"@, LogValueView::Number(pdo_num as int)),
            field_of("raw"@, LogValueView::Texts(hex_list(raw))),
        ],
        signals: Some(values.map_values(|v: PdoValueView| pdo_record(v))),
        host: None,
    }
}

/// The record of a PDO signal.
pub open spec fn pdo_record(v: PdoValueView) -> SignalRecordView {
    SignalRecordView::Pdo { name: v.signal_name, value: pdo_log_value(v.value) }
}

/// The entry of a frame that a DBC database decodes. `physical` holds the bits of the physical
/// value of each signal.
pub open spec fn dbc_entry(
    ts: Seq<char>,
    frame: FrameSignalsView,
    physical: Seq<u64>,
    raw: Seq<u8>,
    cob_id: u16,
) -> LogEntryView {
    LogEntryView {
        fields: seq![
            field_of("ts"@, LogValueView::Text(ts)),
            field_of("type"@, LogValueView::Text("DBC_SIGNAL"@)),
            field_of("cob_id"@, LogValueView::Text(cob_id_text(cob_id))),
            field_of("source_node"@, LogValueView::Null),
            field_of("message"@, LogValueView::Text(frame.message_name)),
            field_of("source_dbc"@, LogValueView::Text(frame.source_dbc)),
            field_of("raw"@, LogValueView::Texts(hex_list(raw))),
        ],
        signals: Some(
            Seq::new(frame.values.len(), |i: int| dbc_record(frame.values[i], physical[i])),
        ),
        host: None,
    }
}

/// The record of a DBC signal.
pub open spec fn dbc_record(v: SignalValueView, physical: u64) -> SignalRecordView {
    SignalRecordView::Dbc {
        name: v.signal_name,
        raw: v.raw_int,
        physical,
        unit: v.unit,
        description: v.description,
    }
}

/// The fields of a frame that nothing decodes.
pub open spec fn raw_fields(ts: Seq<char>, can_id: u16, raw: Seq<u8>) -> Seq<FieldView> {
    seq![
        field_of("ts"@, LogValueView::Text(ts)),
        field_of("type"@, LogValueView::Text("RAW_FRAME"@)),
        field_of("cob_id"@, LogValueView::Text(cob_id_text(can_id))),
        field_of("source_node"@, LogValueView::Null),
        field_of("raw"@, LogValueView::Texts(hex_list(raw))),
    ]
}

/// The entry at the start of a session.
pub open spec fn session_entry(
    ts: Seq<char>,
    adapter_name: Seq<char>,
    baud: u32,
    host: HostInfoView,
) -> LogEntryView {
    LogEntryView {
        fields: seq![
            field_of("ts"@, LogValueView::Text(ts)),
            field_of("type"@, LogValueView::Text("session_start"@)),
            field_of("adapter"@, LogValueView::Text(adapter_name)),
            field_of("baud"@, LogValueView::Number(baud as int)),
        ],
        signals: None,
        host: Some(host),
    }
}

/// The line of plain text at the start of a session.
pub open spec fn session_line(
    ts_local: Seq<char>,
    adapter_name: Seq<char>,
    baud: u32,
    host: HostInfoView,
) -> Seq<char> {
    "["@ + ts_local + "][session_start    ][---------] adapter=\""@ + adapter_name + "\" baud="@
        + text::decimal(baud as nat) + " os=\""@ + host.os + "\" model=\""@ + host.model + "\""@
}

// ─── Logger ─────────────────────────────────────────────────────────────────

/// Builds the records of a log and decides when it is flushed.
#[derive(Debug)]
pub struct EventLogger {
    /// There is a plain-text log beside the JSON lines.
    pub text_log: bool,
    /// Entries written since the last flush.
    pub entries_since_flush: usize,
    /// Time of the last flush, in milliseconds of a clock that never goes back.
    pub last_flush_ms: u64,
    /// Flush after this many entries.
    pub flush_interval_entries: usize,
    /// Flush at least every this many milliseconds.
    pub flush_interval_ms: u64,
    /// Hardware timestamp of the next entry, in microseconds since bus-on.
    pub hw_timestamp_us: Option<u32>,
}

impl EventLogger {
    /// A logger that flushes every 50 entries or 100 ms.
    pub fn new(now_ms: u64) -> (r: Self)
        ensures
            r == (EventLogger {
                text_log: false,
                entries_since_flush: 0,
                last_flush_ms: now_ms,
                flush_interval_entries: 50,
                flush_interval_ms: 100,
                hw_timestamp_us: None,
            }),
    {
        Self::with_config(50, 100, now_ms)
    }

    /// A logger that flushes every 50 entries or 100 ms, with a plain-text log if wanted.
    pub fn with_text_log(text_log: bool, now_ms: u64) -> (r: Self)
        ensures
            r == (EventLogger {
                text_log,
                entries_since_flush: 0,
                last_flush_ms: now_ms,
                flush_interval_entries: 50,
                flush_interval_ms: 100,
                hw_timestamp_us: None,
            }),
    {
        EventLogger {
            text_log,
            entries_since_flush: 0,
            last_flush_ms: now_ms,
            flush_interval_entries: 50,
            flush_interval_ms: 100,
            hw_timestamp_us: None,
        }
    }

    /// A logger with its own flush intervals.
    pub fn with_config(flush_interval_entries: usize, flush_interval_ms: u64, now_ms: u64) -> (r:
        Self)
        ensures
            r == (EventLogger {
                text_log: false,
                entries_since_flush: 0,
                last_flush_ms: now_ms,
                flush_interval_entries,
                flush_interval_ms,
                hw_timestamp_us: None,
            }),
    {
        EventLogger {
            text_log: false,
            entries_since_flush: 0,
            last_flush_ms: now_ms,
            flush_interval_entries,
            flush_interval_ms,
            hw_timestamp_us: None,
        }
    }

    /// Sets the hardware timestamp of the next entry.
    pub fn set_hw_timestamp(&mut self, ts: Option<u32>)
        ensures
            *final(self) == (EventLogger { hw_timestamp_us: ts, ..*old(self) }),
    {
        self.hw_timestamp_us = ts;
    }

    /// Completes an entry with the hardware timestamp, if one is set. The timestamp belongs to
    /// this entry alone.
    pub fn log(&mut self, entry: LogEntry) -> (r: LogEntry)
        ensures
            r@ == stamped(entry@, old(self).hw_timestamp_us),
            *final(self) == (EventLogger { hw_timestamp_us: None, ..*old(self) }),
    {
        let LogEntry { fields, signals, host } = entry;
        let fields: Vec<Field> = match self.hw_timestamp_us {
            Some(t) => {
                let mut kept: Vec<Field> = remove_key(fields, "hw_ts_us");
                let f: Field = number_field("hw_ts_us", t as u64);
                let ghost added = f@;
                let ghost before = kept@;
                kept.push(f);
                assert(field_views(kept@) =~= field_views(before).push(added));
                kept
            },
            None => fields,
        };
        self.hw_timestamp_us = None;
        LogEntry { fields, signals, host }
    }

    /// Whether the log is to be flushed after one more entry was written.
    pub open spec fn due(self, now_ms: u64) -> bool {
        ||| self.entries_since_flush + 1 >= self.flush_interval_entries
        ||| now_ms - self.last_flush_ms >= self.flush_interval_ms
    }

    /// The logger after an entry was written, or could not be.
    pub open spec fn after_write(self, success: bool, now_ms: u64) -> EventLogger {
        if !success {
            self
        } else if self.due(now_ms) {
            EventLogger { entries_since_flush: 0, last_flush_ms: now_ms, ..self }
        } else {
            EventLogger { entries_since_flush: (self.entries_since_flush + 1) as usize, ..self }
        }
    }

    /// Takes note of whether the entry was written, and tells whether the log is to be flushed
    /// now: after so many entries, or after so much time. An entry that could not be written does
    /// not count.
    pub fn written(&mut self, success: bool, now_ms: u64) -> (r: bool)
        ensures
            r == (success && old(self).due(now_ms)),
            *final(self) == old(self).after_write(success, now_ms),
    {
        if !success {
            return false;
        }
        let full: bool = self.flush_interval_entries == 0 || self.entries_since_flush
            >= self.flush_interval_entries - 1;
        let late: bool = if now_ms >= self.last_flush_ms {
            now_ms - self.last_flush_ms >= self.flush_interval_ms
        } else {
            false
        };
        if full || late {
            self.force_flush(now_ms);
            true
        } else {
            self.entries_since_flush = self.entries_since_flush + 1;
            false
        }
    }

    /// Takes note of a flush.
    pub fn force_flush(&mut self, now_ms: u64)
        ensures
            *final(self) == (EventLogger {
                entries_since_flush: 0,
                last_flush_ms: now_ms,
                ..*old(self)
            }),
    {
        self.entries_since_flush = 0;
        self.last_flush_ms = now_ms;
    }

    /// Whether a record holds an entry, and a line where there is a plain-text log.
    pub open spec fn is_record(self, r: Record, entry: LogEntryView, line: Seq<char>) -> bool {
        &&& r.entry@ == stamped(entry, self.hw_timestamp_us)
        &&& text_view(r.line) == (if self.text_log {
            Some(line)
        } else {
            None
        })
    }

    fn record(
        &mut self,
        entry: LogEntry,
        ts: &str,
        type_text: &str,
        cob_id: &str,
        raw: &[u8],
    ) -> (r: Record)
        ensures
            old(self).is_record(r, entry@, text_line(ts@, type_text@, cob_id@, raw@)),
            *final(self) == (EventLogger { hw_timestamp_us: None, ..*old(self) }),
    {
        let line: Option<String> = if self.text_log {
            Some(write_text_line(ts, type_text, cob_id, raw))
        } else {
            None
        };
        let entry = self.log(entry);
        Record { entry, line }
    }

    /// The record at the start of a session. `ts_local` is the time in the local time zone.
    pub fn log_session_start(
        &mut self,
        ts_ms: i64,
        ts_local: &str,
        adapter_name: &str,
        baud: u32,
        host: HostInfo,
    ) -> (r: Record)
        requires
            valid_time(ts_ms),
        ensures
            old(self).is_record(
                r,
                session_entry(rfc3339_millis(ts_ms), adapter_name@, baud, host@),
                session_line(ts_local@, adapter_name@, baud, host@),
            ),
            *final(self) == (EventLogger { hw_timestamp_us: None, ..*old(self) }),
    {
        let ts: String = utc_text(ts_ms);
        let line: Option<String> = if self.text_log {
            let mut s: String = "[".to_owned();
            text::push_str(&mut s, ts_local);
            text::push_str(&mut s, "][session_start    ][---------] adapter=\"");
            text::push_str(&mut s, adapter_name);
            text::push_str(&mut s, "\" baud=");
            text::push_decimal(&mut s, baud as u64);
            text::push_str(&mut s, " os=\"");
            text::push_str(&mut s, host.os.as_str());
            text::push_str(&mut s, "\" model=\"");
            text::push_str(&mut s, host.model.as_str());
            text::push_str(&mut s, "\"");
            Some(s)
        } else {
            None
        };
        let fields: Vec<Field> = vec![
            text_field("ts", ts.as_str()),
            text_field("type", "session_start"),
            text_field("adapter", adapter_name),
            number_field("baud", baud as u64),
        ];
        assert(field_views(fields@) =~= session_entry(ts@, adapter_name@, baud, host@).fields);
        let entry = self.log(LogEntry { fields, signals: None, host: Some(host) });
        Record { entry, line }
    }

    /// The record of a command that this application sent.
    pub fn log_nmt_sent(&mut self, ts_ms: i64, command: &NmtCommand, target_node: u8, raw: &[u8])
        -> (r: Record)
        requires
            valid_time(ts_ms),
        ensures
            old(self).is_record(
                r,
                plain_entry(
                    command_fields(
                        rfc3339_millis(ts_ms),
                        "NMT_COMMAND_SENT"@,
                        "0x000"@,
                        *command,
                        target_node,
                        raw@,
                    ),
                ),
                text_line(rfc3339_millis(ts_ms), "NMT_COMMAND_SENT"@, "0x000"@, raw@),
            ),
            *final(self) == (EventLogger { hw_timestamp_us: None, ..*old(self) }),
    {
        let ts: String = utc_text(ts_ms);
        let entry: LogEntry = command_entry(
            ts.as_str(),
            "NMT_COMMAND_SENT",
            "0x000",
            command,
            target_node,
            raw,
        );
        self.record(entry, ts.as_str(), "NMT_COMMAND_SENT", "0x000", raw)
    }

    /// The record of a network management event.
    pub fn log_nmt(&mut self, ts_ms: i64, event: &NmtEvent, raw: &[u8], cob_id: u16) -> (r: Record)
        requires
            valid_time(ts_ms),
        ensures
            old(self).is_record(
                r,
                plain_entry(nmt_fields(rfc3339_millis(ts_ms), *event, raw@, cob_id)),
                text_line(rfc3339_millis(ts_ms), nmt_type(*event), cob_id_text(cob_id), raw@),
            ),
            *final(self) == (EventLogger { hw_timestamp_us: None, ..*old(self) }),
    {
        let ts: String = utc_text(ts_ms);
        let id: String = cob_id_string(cob_id);
        match event {
            NmtEvent::Command { command, target_node } => {
                let entry: LogEntry = command_entry(
                    ts.as_str(),
                    "NMT_COMMAND",
                    id.as_str(),
                    command,
                    *target_node,
                    raw,
                );
                self.record(entry, ts.as_str(), "NMT_COMMAND", id.as_str(), raw)
            },
            NmtEvent::Heartbeat { node_id, state } => {
                let name: String = state.display();
                let fields: Vec<Field> = vec![
                    text_field("ts", ts.as_str()),
                    text_field("type", "NMT_STATE"),
                    text_field("cob_id", id.as_str()),
                    number_field("source_node", *node_id as u64),
                    number_field("node", *node_id as u64),
                    text_field("state", name.as_str()),
                    field("raw", LogValue::Texts(bytes_to_hex(raw))),
                ];
                assert(field_views(fields@) =~= nmt_fields(ts@, *event, raw@, cob_id));
                let entry: LogEntry = LogEntry { fields, signals: None, host: None };
                self.record(entry, ts.as_str(), "NMT_STATE", id.as_str(), raw)
            },
        }
    }

    /// The record of an SDO event.
    pub fn log_sdo(&mut self, ts_ms: i64, event: &SdoEvent, raw: &[u8], cob_id: u16) -> (r: Record)
        requires
            valid_time(ts_ms),
        ensures
            old(self).is_record(
                r,
                plain_entry(sdo_fields(rfc3339_millis(ts_ms), event@, raw@, cob_id)),
                text_line(
                    rfc3339_millis(ts_ms),
                    sdo_type(event.direction),
                    cob_id_text(cob_id),
                    raw@,
                ),
            ),
            *final(self) == (EventLogger { hw_timestamp_us: None, ..*old(self) }),
    {
        let ts: String = utc_text(ts_ms);
        let id: String = cob_id_string(cob_id);
        let type_text: &str = match event.direction {
            SdoDirection::Read => "SDO_READ",
            SdoDirection::Write => "SDO_WRITE",
        };
        let source_node: u8 = if 0x580 <= cob_id && cob_id <= 0x5FF {
            event.node_id
        } else {
            0
        };
        let mut index: String = "0x".to_owned();
        text::push_hex(&mut index, event.index as u64, 4);
        let mut subindex: String = "0x".to_owned();
        text::push_hex(&mut subindex, event.subindex as u64, 2);
        let mut fields: Vec<Field> = vec![
            text_field("ts", ts.as_str()),
            text_field("type", type_text),
            text_field("cob_id", id.as_str()),
            number_field("source_node", source_node as u64),
            number_field("node", event.node_id as u64),
            text_field("index", index.as_str()),
            text_field("subindex", subindex.as_str()),
            text_field("name", event.name.as_str()),
            field("raw", LogValue::Texts(bytes_to_hex(raw))),
        ];
        let ghost head = field_views(fields@);
        match &event.value {
            Some(v) => {
                let f: Field = field("value", sdo_value_field(v));
                let ghost added = f@;
                let ghost before = fields@;
                fields.push(f);
                assert(field_views(fields@) =~= field_views(before).push(added));
                match v {
                    SdoValue::Bytes(b) => {
                        match ascii_of(b.as_slice()) {
                            Some(t) => {
                                let f: Field = text_field("ascii", t.as_str());
                                let ghost added = f@;
                                let ghost before = fields@;
                                fields.push(f);
                                assert(field_views(fields@) =~= field_views(before).push(added));
                            },
                            None => {},
                        }
                    },
                    _ => {},
                }
            },
            None => {},
        }
        assert(field_views(fields@) =~= head + sdo_value_fields(event@.value));
        let ghost middle = field_views(fields@);
        match event.abort_code {
            Some(code) => {
                let mut c: String = "0x".to_owned();
                text::push_hex(&mut c, code as u64, 8);
                let f: Field = text_field("abort_code", c.as_str());
                let ghost added = f@;
                let ghost before = fields@;
                fields.push(f);
                assert(field_views(fields@) =~= field_views(before).push(added));
            },
            None => {},
        }
        assert(field_views(fields@) =~= sdo_fields(ts@, event@, raw@, cob_id));
        let entry: LogEntry = LogEntry { fields, signals: None, host: None };
        self.record(entry, ts.as_str(), type_text, id.as_str(), raw)
    }

    /// The record of a PDO.
    pub fn log_pdo(
        &mut self,
        ts_ms: i64,
        node_id: u8,
        pdo_num: u8,
        values: &[PdoValue],
        raw: &[u8],
        cob_id: u16,
    ) -> (r: Record)
        requires
            valid_time(ts_ms),
        ensures
            old(self).is_record(
                r,
                pdo_entry(
                    rfc3339_millis(ts_ms),
                    node_id,
                    pdo_num,
                    values@.map_values(|v: PdoValue| v@),
                    raw@,
                    cob_id,
                ),
                text_line(rfc3339_millis(ts_ms), "PDO"@, cob_id_text(cob_id), raw@),
            ),
            *final(self) == (EventLogger { hw_timestamp_us: None, ..*old(self) }),
    {
        let ts: String = utc_text(ts_ms);
        let id: String = cob_id_string(cob_id);
        let mut signals: Vec<SignalRecord> = Vec::new();
        let mut i: usize = 0;
        while i < values.len()
            invariant
                i <= values@.len(),
                signals@.len() == i,
                forall|j: int|
                    0 <= j < i ==> (#[trigger] signals@[j])@ == pdo_record(values@[j]@),
            decreases values@.len() - i,
        {
            let v: &PdoValue = &values[i];
            let record: SignalRecord = SignalRecord::Pdo {
                name: v.signal_name.clone(),
                value: pdo_value_to_json(&v.value),
            };
            signals.push(record);
            i += 1;
        }
        let fields: Vec<Field> = vec![
            text_field("ts", ts.as_str()),
            text_field("type", "PDO"),
            text_field("cob_id", id.as_str()),
            number_field("source_node", node_id as u64),
            number_field("node", node_id as u64),
            number_field("pdo_num", pdo_num as u64),
            field("raw", LogValue::Texts(bytes_to_hex(raw))),
        ];
        let ghost views = values@.map_values(|v: PdoValue| v@);
        let ghost wanted = pdo_entry(ts@, node_id, pdo_num, views, raw@, cob_id);
        assert(field_views(fields@) =~= wanted.fields);
        assert(signal_record_views(signals@) =~= wanted.signals->0);
        let entry: LogEntry = LogEntry { fields, signals: Some(signals), host: None };
        self.record(entry, ts.as_str(), "PDO", id.as_str(), raw)
    }

    /// The record of a frame that a DBC database decodes. `physical` holds the bits of the
    /// physical value of each signal.
    pub fn log_dbc_signal(
        &mut self,
        ts_ms: i64,
        frame: &DbcFrameSignals,
        physical: &[u64],
        raw: &[u8],
        cob_id: u16,
    ) -> (r: Record)
        requires
            valid_time(ts_ms),
            physical@.len() == frame.values@.len(),
        ensures
            old(self).is_record(
                r,
                dbc_entry(rfc3339_millis(ts_ms), frame@, physical@, raw@, cob_id),
                text_line(rfc3339_millis(ts_ms), "DBC_SIGNAL"@, cob_id_text(cob_id), raw@),
            ),
            *final(self) == (EventLogger { hw_timestamp_us: None, ..*old(self) }),
    {
        let ts: String = utc_text(ts_ms);
        let id: String = cob_id_string(cob_id);
        let mut signals: Vec<SignalRecord> = Vec::new();
        let mut i: usize = 0;
        while i < frame.values.len()
            invariant
                i <= frame.values@.len(),
                physical@.len() == frame.values@.len(),
                signals@.len() == i,
                forall|j: int|
                    0 <= j < i ==> (#[trigger] signals@[j])@ == dbc_record(
                        frame.values@[j]@,
                        physical@[j],
                    ),
            decreases frame.values@.len() - i,
        {
            let v = &frame.values[i];
            let record: SignalRecord = SignalRecord::Dbc {
                name: v.signal_name.clone(),
                raw: v.raw_int,
                physical: physical[i],
                unit: v.unit.clone(),
                description: crate::adapters::copy_text(&v.description),
            };
            signals.push(record);
            i += 1;
        }
        let fields: Vec<Field> = vec![
            text_field("ts", ts.as_str()),
            text_field("type", "DBC_SIGNAL"),
            text_field("cob_id", id.as_str()),
            field("source_node", LogValue::Null),
            text_field("message", frame.message_name.as_str()),
            text_field("source_dbc", frame.source_dbc.as_str()),
            field("raw", LogValue::Texts(bytes_to_hex(raw))),
        ];
        let ghost wanted = dbc_entry(ts@, frame@, physical@, raw@, cob_id);
        assert(field_views(fields@) =~= wanted.fields);
        assert(signal_record_views(signals@) =~= wanted.signals->0);
        let entry: LogEntry = LogEntry { fields, signals: Some(signals), host: None };
        self.record(entry, ts.as_str(), "DBC_SIGNAL", id.as_str(), raw)
    }

    /// The record of a frame that nothing decodes.
    pub fn log_raw_frame(&mut self, ts_ms: i64, can_id: u16, raw: &[u8]) -> (r: Record)
        requires
            valid_time(ts_ms),
        ensures
            old(self).is_record(
                r,
                plain_entry(raw_fields(rfc3339_millis(ts_ms), can_id, raw@)),
                text_line(rfc3339_millis(ts_ms), "RAW_FRAME"@, cob_id_text(can_id), raw@),
            ),
            *final(self) == (EventLogger { hw_timestamp_us: None, ..*old(self) }),
    {
        let ts: String = utc_text(ts_ms);
        let id: String = cob_id_string(can_id);
        let fields: Vec<Field> = vec![
            text_field("ts", ts.as_str()),
            text_field("type", "RAW_FRAME"),
            text_field("cob_id", id.as_str()),
            field("source_node", LogValue::Null),
            field("raw", LogValue::Texts(bytes_to_hex(raw))),
        ];
        assert(field_views(fields@) =~= raw_fields(ts@, can_id, raw@));
        let entry: LogEntry = LogEntry { fields, signals: None, host: None };
        self.record(entry, ts.as_str(), "RAW_FRAME", id.as_str(), raw)
    }
}

// ─── Host metadata ──────────────────────────────────────────────────────────

/// The trimmed output of a program that succeeded, where it is not empty.
pub open spec fn output_text(success: bool, stdout: Seq<u8>) -> Option<Seq<char>> {
    let t = text::trimmed(text::lossy_text(stdout));
    if success && t.len() > 0 {
        Some(t)
    } else {
        None
    }
}

/// The trimmed output of a program that succeeded, where it is not empty.
pub fn command_output(success: bool, stdout: &[u8]) -> (r: Option<String>)
    ensures
        text_view(r) == output_text(success, stdout@),
{
    if !success {
        return None;
    }
    let all: String = text::utf8_lossy(stdout);
    let t: Vec<char> = text::trim(all.as_str());
    if t.len() == 0 {
        None
    } else {
        Some(text::string_of(t.as_slice()))
    }
}

/// The description of the operating system from its name, version and build, where at least name
/// and version are known; else the fallback.
pub open spec fn os_text(
    name: Option<Seq<char>>,
    version: Option<Seq<char>>,
    build: Option<Seq<char>>,
    fallback: Seq<char>,
) -> Seq<char> {
    match (name, version, build) {
        (Some(n), Some(v), Some(b)) => n + " "@ + v + " (Build "@ + b + ")"@,
        (Some(n), Some(v), None) => n + " "@ + v,
        _ => fallback,
    }
}

/// Describes the operating system from its name, version and build.
pub fn describe_os(
    name: Option<String>,
    version: Option<String>,
    build: Option<String>,
    fallback: &str,
) -> (r: String)
    ensures
        r@ == os_text(text_view(name), text_view(version), text_view(build), fallback@),
{
    match name {
        Some(n) => match version {
            Some(v) => {
                let mut s: String = n;
                text::push_str(&mut s, " ");
                text::push_str(&mut s, v.as_str());
                match build {
                    Some(b) => {
                        text::push_str(&mut s, " (Build ");
                        text::push_str(&mut s, b.as_str());
                        text::push_str(&mut s, ")");
                    },
                    None => {},
                }
                s
            },
            None => fallback.to_owned(),
        },
        None => fallback.to_owned(),
    }
}

/// A local time.
#[derive(Clone, Copy, Debug, PartialEq, Eq, Structural)]
pub struct LocalTime {
    pub year: u16,
    /// 1 to 12.
    pub month: u8,
    /// 1 to 31.
    pub day: u8,
    pub hour: u8,
    pub minute: u8,
    pub second: u8,
}

/// A number with at least two digits.
pub open spec fn two_digits(n: u8) -> Seq<char> {
    text::padded(text::decimal(n as nat), 2, '0')
}

/// A time in the name of a file: year, day, month, hour, minute, second, one directly behind the
/// other.
pub open spec fn stamp_text(t: LocalTime) -> Seq<char> {
    text::padded(text::decimal(t.year as nat), 4, '0') + two_digits(t.day) + two_digits(t.month)
        + two_digits(t.hour) + two_digits(t.minute) + two_digits(t.second)
}

/// Where the last dot of a file name stands that starts an extension: any but one at the start;
/// -1 where there is none.
pub open spec fn extension_dot(name: Seq<char>) -> int
    decreases name.len(),
{
    if name.len() <= 1 {
        -1
    } else if name.last() == '.' {
        name.len() - 1
    } else {
        extension_dot(name.drop_last())
    }
}

/// The file name of a log: the stem, a timestamp and the extension, if any; the timestamp alone
/// where there is no file name.
pub open spec fn stamped_name(file_name: Option<Seq<char>>, t: LocalTime) -> Seq<char> {
    match file_name {
        Some(name) => {
            let dot = extension_dot(name);
            if dot < 0 {
                name + "_"@ + stamp_text(t)
            } else {
                name.take(dot) + "_"@ + stamp_text(t) + name.skip(dot)
            }
        },
        None => stamp_text(t),
    }
}

fn push_stamp(s: &mut String, t: &LocalTime)
    ensures
        final(s)@ == old(s)@ + stamp_text(*t),
{
    text::push_decimal_padded(s, t.year as u64, 4, '0');
    text::push_decimal_padded(s, t.day as u64, 2, '0');
    text::push_decimal_padded(s, t.month as u64, 2, '0');
    text::push_decimal_padded(s, t.hour as u64, 2, '0');
    text::push_decimal_padded(s, t.minute as u64, 2, '0');
    text::push_decimal_padded(s, t.second as u64, 2, '0');
    assert(s@ =~= old(s)@ + stamp_text(*t));
}

/// Adds a time to the name of a file, before its extension: `log.jsonl` becomes
/// `log_20263003130458.jsonl` on 30 March 2026 at 13:04:58. A name that starts with its only dot has
/// no extension.
pub fn add_timestamp_to_path(file_name: Option<&str>, t: &LocalTime) -> (r: String)
    ensures
        r@ == stamped_name(
            match file_name {
                Some(n) => Some(n@),
                None => None,
            },
            *t,
        ),
{
    let name: Vec<char> = match file_name {
        Some(n) => text::chars_of(n),
        None => {
            let mut s: String = String::new();
            push_stamp(&mut s, t);
            assert(s@ =~= stamp_text(*t));
            return s;
        },
    };
    let mut n: usize = name.len();
    assert(name@.take(n as int) =~= name@);
    while n > 1 && name[n - 1] != '.'
        invariant
            n <= name@.len(),
            extension_dot(name@.take(n as int)) == extension_dot(name@),
        decreases n,
    {
        assert(name@.take(n as int).drop_last() =~= name@.take(n - 1));
        n -= 1;
    }
    let split: usize = if n > 1 {
        n - 1
    } else {
        name.len()
    };
    let stem: &[char] = vstd::slice::slice_subrange(name.as_slice(), 0, split);
    let rest: &[char] = vstd::slice::slice_subrange(name.as_slice(), split, name.len());
    let mut s: String = text::string_of(stem);
    text::push_str(&mut s, "_");
    push_stamp(&mut s, t);
    text::push_chars(&mut s, rest);
    proof {
        if n > 1 {
            assert(stem@ =~= name@.take(extension_dot(name@)));
            assert(rest@ =~= name@.skip(extension_dot(name@)));
        } else {
            assert(stem@ =~= name@);
            assert(rest@ =~= seq![]);
            assert(s@ =~= name@ + "_"@ + stamp_text(*t));
        }
    }
    s
}

// ─── Laws ───────────────────────────────────────────────────────────────────

/// A hardware timestamp goes into exactly one entry: the next one. After that entry the logger
/// has none, so a further entry stays as it is.
pub proof fn law_timestamp_used_once(before: EventLogger, after: EventLogger, entry: LogEntryView)
    requires
        after == (EventLogger { hw_timestamp_us: None, ..before }),
    ensures
        stamped(entry, after.hw_timestamp_us) == entry,
{
}

/// The logger after a run of entries, each written or not at its time.
pub open spec fn after_writes(logger: EventLogger, writes: Seq<(bool, u64)>) -> EventLogger
    decreases writes.len(),
{
    if writes.len() == 0 {
        logger
    } else {
        let before = after_writes(logger, writes.drop_last());
        before.after_write(writes.last().0, writes.last().1)
    }
}

/// Whatever the clock says and whichever writes fail, at most one entry fewer than the flush
/// interval is left unflushed after any run of entries. An interval of 0 flushes every entry, as
/// an interval of 1 does.
pub proof fn law_unflushed_bounded(logger: EventLogger, writes: Seq<(bool, u64)>)
    requires
        logger.entries_since_flush == 0,
    ensures
        ({
            let after = after_writes(logger, writes);
            &&& after.flush_interval_entries == logger.flush_interval_entries
            &&& after.entries_since_flush == 0 || after.entries_since_flush
                < logger.flush_interval_entries
        }),
    decreases writes.len(),
{
    if writes.len() > 0 {
        law_unflushed_bounded(logger, writes.drop_last());
    }
}

/// A hardware timestamp stands in its entry once, as the last field, and replaces what stood under
/// its key; all other fields stay, in order.
pub proof fn law_timestamp_stands_once(entry: LogEntryView, t: u32)
    ensures
        ({
            let after = stamped(entry, Some(t));
            &&& after.fields.len() > 0
            &&& after.fields.last() == (FieldView {
                key: "hw_ts_us"@,
                value: LogValueView::Number(t as int),
            })
            &&& after.fields.drop_last() == entry.fields.filter(
                |f: FieldView| f.key != "hw_ts_us"@,
            )
            &&& after.signals == entry.signals
            &&& after.host == entry.host
        }),
{
    lemma_without_key(entry.fields, "hw_ts_us"@);
    let after = stamped(entry, Some(t));
    assert(after.fields.drop_last() =~= without_key(entry.fields, "hw_ts_us"@));
}

proof fn lemma_without_key(fields: Seq<FieldView>, key: Seq<char>)
    ensures
        without_key(fields, key) == fields.filter(|f: FieldView| f.key != key),
    decreases fields.len(),
{
    reveal(Seq::filter);
    let keep = |f: FieldView| f.key != key;
    if fields.len() > 0 {
        lemma_without_key(fields.drop_last(), key);
    }
    assert(without_key(fields, key) =~= fields.filter(keep));
}

/// The source of an SDO record is the node itself where its identifier is that of a response, and
/// the master, node 0, where it is that of a request. A read and a write are told apart, and the
/// object, the node and the raw bytes are those of the event.
pub proof fn law_sdo_record(ts: Seq<char>, event: SdoEventView, raw: Seq<u8>, cob_id: u16)
    ensures
        ({
            let f = sdo_fields(ts, event, raw, cob_id);
            &&& crate::canopen::service(cob_id) is SdoResponse ==> f.contains(
                field_of("source_node"@, LogValueView::Number(event.node_id as int)),
            )
            &&& crate::canopen::service(cob_id) is SdoRequest ==> f.contains(
                field_of("source_node"@, LogValueView::Number(0)),
            )
            &&& f.contains(field_of("node"@, LogValueView::Number(event.node_id as int)))
            &&& event.direction == SdoDirection::Read ==> f.contains(
                field_of("type"@, LogValueView::Text("SDO_READ"@)),
            )
            &&& event.direction == SdoDirection::Write ==> f.contains(
                field_of("type"@, LogValueView::Text("SDO_WRITE"@)),
            )
            &&& f.contains(field_of("name"@, LogValueView::Text(event.name)))
            &&& f.contains(field_of("ts"@, LogValueView::Text(ts)))
            &&& event.abort_code matches Some(code) ==> f.last() == field_of(
                "abort_code"@,
                LogValueView::Text("0x"@ + text::hex_padded(code as nat, 8)),
            )
            &&& event.value is None && event.abort_code is None ==> f.len() == 9
        }),
{
    let f = sdo_fields(ts, event, raw, cob_id);
    assert(f[0] == field_of("ts"@, LogValueView::Text(ts)));
    assert(f[1].key == "type"@);
    assert(f[3].key == "source_node"@);
    assert(f[4] == field_of("node"@, LogValueView::Number(event.node_id as int)));
    assert(f[7] == field_of("name"@, LogValueView::Text(event.name)));
    assert(f.contains(f[0]) && f.contains(f[1]) && f.contains(f[3]) && f.contains(f[4])
        && f.contains(f[7]));
}

/// Numbers are logged with their value and sign, whatever their type.
pub proof fn law_numbers_logged(n: int)
    ensures
        sdo_log_value(SdoValueView::I8(n)) == LogValueView::Number(n),
        sdo_log_value(SdoValueView::I16(n)) == LogValueView::Number(n),
        sdo_log_value(SdoValueView::I32(n)) == LogValueView::Number(n),
        sdo_log_value(SdoValueView::I64(n)) == LogValueView::Number(n),
        sdo_log_value(SdoValueView::U8(n)) == LogValueView::Number(n),
        sdo_log_value(SdoValueView::U16(n)) == LogValueView::Number(n),
        sdo_log_value(SdoValueView::U32(n)) == LogValueView::Number(n),
        sdo_log_value(SdoValueView::U64(n)) == LogValueView::Number(n),
        pdo_log_value(PdoRawValueView::Integer(n)) == LogValueView::Number(n),
        pdo_log_value(PdoRawValueView::Unsigned(n)) == LogValueView::Number(n),
{
}

/// Every signal of a PDO is logged under its name, in order; so is every decoded signal of a frame,
/// with its raw and physical value, unit and description.
pub proof fn law_every_signal_logged(
    ts: Seq<char>,
    node_id: u8,
    pdo_num: u8,
    values: Seq<PdoValueView>,
    frame: FrameSignalsView,
    physical: Seq<u64>,
    raw: Seq<u8>,
    cob_id: u16,
    i: int,
)
    ensures
        pdo_entry(ts, node_id, pdo_num, values, raw, cob_id).signals matches Some(s) && s.len()
            == values.len() && (0 <= i < s.len() ==> s[i] == (SignalRecordView::Pdo {
            name: values[i].signal_name,
            value: pdo_log_value(values[i].value),
        })),
        dbc_entry(ts, frame, physical, raw, cob_id).signals matches Some(s) && s.len()
            == frame.values.len() && (0 <= i < s.len() ==> s[i] == (SignalRecordView::Dbc {
            name: frame.values[i].signal_name,
            raw: frame.values[i].raw_int,
            physical: physical[i],
            unit: frame.values[i].unit,
            description: frame.values[i].description,
        })),
{
}

/// Text in bytes is what stands before the first NUL, character by character; a byte of 0x7F and
/// above, or a control byte other than tab and the ends of a line, is in no text.
pub proof fn law_ascii_text(bytes: Seq<u8>, n: int)
    requires
        0 <= n <= bytes.len(),
        forall|i: int| 0 <= i < n ==> #[trigger] bytes[i] != 0,
        n < bytes.len() ==> bytes[n] == 0,
    ensures
        ascii_text(bytes) matches Some(t) ==> t.len() == n && forall|i: int|
            0 <= i < n ==> #[trigger] t[i] == bytes[i] as char,
        (exists|i: int|
            0 <= i < bytes.len() && (#[trigger] bytes[i] >= 0x7F || (0 < bytes[i] < 0x20 && bytes[i]
                != 9 && bytes[i] != 10 && bytes[i] != 13))) ==> ascii_text(bytes) is None,
        (forall|i: int| 0 <= i < bytes.len() ==> 0x20 <= #[trigger] bytes[i] < 0x7F || bytes[i] == 0)
            ==> ascii_text(bytes) is Some,
{
    lemma_until_nul(bytes, n);
    if exists|i: int|
        0 <= i < bytes.len() && (#[trigger] bytes[i] >= 0x7F || (0 < bytes[i] < 0x20 && bytes[i] != 9
            && bytes[i] != 10 && bytes[i] != 13)) {
        let i = choose|i: int|
            0 <= i < bytes.len() && (#[trigger] bytes[i] >= 0x7F || (0 < bytes[i] < 0x20 && bytes[i]
                != 9 && bytes[i] != 10 && bytes[i] != 13));
        assert(!is_text_byte(bytes[i]));
    }
}

proof fn lemma_until_nul(bytes: Seq<u8>, n: int)
    requires
        0 <= n <= bytes.len(),
        forall|i: int| 0 <= i < n ==> #[trigger] bytes[i] != 0,
        n < bytes.len() ==> bytes[n] == 0,
    ensures
        until_nul(bytes).len() == n,
        forall|i: int| 0 <= i < n ==> #[trigger] until_nul(bytes)[i] == bytes[i] as char,
    decreases bytes.len(),
{
    if n > 0 {
        let rest = bytes.drop_first();
        assert(bytes[0] != 0);
        assert forall|i: int| 0 <= i < n - 1 implies #[trigger] rest[i] != 0 by {
            assert(rest[i] == bytes[i + 1]);
        }
        lemma_until_nul(rest, n - 1);
        assert forall|i: int| 0 <= i < n implies #[trigger] until_nul(bytes)[i]
            == bytes[i] as char by {
            if i > 0 {
                assert(until_nul(bytes)[i] == until_nul(rest)[i - 1]);
            }
        }
    }
}

/// While no time passes, the log is flushed with every entry that completes the interval, and only
/// then: after `n` written entries `n` modulo the interval are not flushed.
pub proof fn law_flush_after_interval(logger: EventLogger, writes: Seq<(bool, u64)>)
    requires
        logger.entries_since_flush == 0,
        logger.flush_interval_entries > 0,
        logger.flush_interval_ms > 0,
        forall|i: int|
            0 <= i < writes.len() ==> (#[trigger] writes[i]).0 && writes[i].1
                == logger.last_flush_ms,
    ensures
        after_writes(logger, writes).entries_since_flush == writes.len()
            % logger.flush_interval_entries as nat,
        after_writes(logger, writes).last_flush_ms == logger.last_flush_ms,
        after_writes(logger, writes).flush_interval_entries == logger.flush_interval_entries,
        after_writes(logger, writes).flush_interval_ms == logger.flush_interval_ms,
    decreases writes.len(),
{
    let m = logger.flush_interval_entries as int;
    if writes.len() > 0 {
        let before = writes.drop_last();
        assert forall|i: int| 0 <= i < before.len() implies (#[trigger] before[i]).0 && before[i].1
            == logger.last_flush_ms by {
            assert(before[i] == writes[i]);
        }
        law_flush_after_interval(logger, before);
        assert(writes.last() == writes[writes.len() - 1]);
        let n = before.len() as int;
        let q = n / m;
        let r = n % m;
        vstd::arithmetic::div_mod::lemma_fundamental_div_mod(n, m);
        vstd::arithmetic::div_mod::lemma_mod_bound(n, m);
        if r + 1 < m {
            assert(n + 1 == q * m + (r + 1)) by (nonlinear_arith)
                requires
                    n == m * q + r,
            ;
            vstd::arithmetic::div_mod::lemma_fundamental_div_mod_converse(n + 1, m, q, r + 1);
        } else {
            assert(n + 1 == (q + 1) * m + 0) by (nonlinear_arith)
                requires
                    n == m * q + r,
                    r + 1 == m,
            ;
            vstd::arithmetic::div_mod::lemma_fundamental_div_mod_converse(n + 1, m, q + 1, 0);
        }
    } else {
        vstd::arithmetic::div_mod::lemma_fundamental_div_mod_converse(0, m, 0, 0);
    }
}

/// An entry that is written so long after the last flush as the interval says is flushed, however
/// few there are; one that could not be written is not counted.
pub proof fn law_flush_after_time(logger: EventLogger, now_ms: u64)
    ensures
        now_ms >= logger.last_flush_ms && now_ms - logger.last_flush_ms >= logger.flush_interval_ms
            ==> logger.after_write(true, now_ms).entries_since_flush == 0 && logger.after_write(
            true,
            now_ms,
        ).last_flush_ms == now_ms,
        logger.after_write(false, now_ms) == logger,
{
}

/// The timestamp goes between the stem and the extension of a file's name; a name without a dot, or
/// with its only dot at the start, has no extension.
pub proof fn law_stamp_before_extension(stem: Seq<char>, extension: Seq<char>, t: LocalTime)
    requires
        stem.len() > 0,
        !extension.contains('.'),
    ensures
        stamped_name(Some(stem + seq!['.'] + extension), t) == stem + "_"@ + stamp_text(t) + seq!['.']
            + extension,
        stamped_name(Some(extension), t) == extension + "_"@ + stamp_text(t),
        stamped_name(Some(seq!['.'] + extension), t) == seq!['.'] + extension + "_"@ + stamp_text(t),
        stamped_name(None, t) == stamp_text(t),
{
    let name = stem + seq!['.'] + extension;
    lemma_extension_dot(stem + seq!['.'], extension);
    lemma_extension_dot(seq![], extension);
    lemma_extension_dot(seq!['.'], extension);
    assert((stem + seq!['.']).last() == '.');
    assert(seq![] + extension =~= extension);
    assert(name.take(stem.len() as int) =~= stem);
    assert(name.skip(stem.len() as int) =~= seq!['.'] + extension);
    assert(stamped_name(Some(name), t) =~= stem + "_"@ + stamp_text(t) + seq!['.'] + extension);
}

proof fn lemma_extension_dot(head: Seq<char>, tail: Seq<char>)
    requires
        !tail.contains('.'),
    ensures
        extension_dot(head + tail) == extension_dot(head),
    decreases tail.len(),
{
    if tail.len() == 0 {
        assert(head + tail =~= head);
    } else {
        assert(tail.contains(tail[tail.len() - 1]));
        assert forall|i: int| 0 <= i < tail.drop_last().len() implies tail.drop_last()[i]
            != '.' by {
            assert(tail.contains(tail[i]));
        }
        lemma_extension_dot(head, tail.drop_last());
        assert((head + tail).drop_last() =~= head + tail.drop_last());
        assert((head + tail).last() == tail.last());
    }
}

/// A timestamp has 14 digits in the years up to 9999: four for the year and two each for day,
/// month, hour, minute and second, each of which is read back from its place.
pub proof fn law_stamp_digits(t: LocalTime)
    requires
        t.year <= 9999,
        t.month <= 99,
        t.day <= 99,
        t.hour <= 99,
        t.minute <= 99,
        t.second <= 99,
    ensures
        ({
            let s = stamp_text(t);
            &&& s.len() == 14
            &&& text::digits_number(s.subrange(0, 4), 10) == t.year
            &&& text::digits_number(s.subrange(4, 6), 10) == t.day
            &&& text::digits_number(s.subrange(6, 8), 10) == t.month
            &&& text::digits_number(s.subrange(8, 10), 10) == t.hour
            &&& text::digits_number(s.subrange(10, 12), 10) == t.minute
            &&& text::digits_number(s.subrange(12, 14), 10) == t.second
        }),
{
    let s = stamp_text(t);
    text::lemma_padded_number(t.year as nat, 4, 9999);
    text::lemma_padded_number(t.day as nat, 2, 99);
    text::lemma_padded_number(t.month as nat, 2, 99);
    text::lemma_padded_number(t.hour as nat, 2, 99);
    text::lemma_padded_number(t.minute as nat, 2, 99);
    text::lemma_padded_number(t.second as nat, 2, 99);
    assert(s.subrange(0, 4) =~= text::padded(text::decimal(t.year as nat), 4, '0'));
    assert(s.subrange(4, 6) =~= two_digits(t.day));
    assert(s.subrange(6, 8) =~= two_digits(t.month));
    assert(s.subrange(8, 10) =~= two_digits(t.hour));
    assert(s.subrange(10, 12) =~= two_digits(t.minute));
    assert(s.subrange(12, 14) =~= two_digits(t.second));
}

/// A line of the plain-text log holds the time, the type and the identifier in brackets, then the
/// bytes; a type of up to 16 characters takes up 16.
pub proof fn law_line_columns(ts: Seq<char>, kind: Seq<char>, cob_id: Seq<char>, raw: Seq<u8>)
    requires
        kind.len() <= 16,
    ensures
        ({
            let line = text_line(ts, kind, cob_id, raw);
            let n = ts.len() as int;
            &&& line[0] == '['
            &&& line.subrange(1, 1 + n) == ts
            &&& line.subrange(3 + n, 3 + n + kind.len() as int) == kind
            &&& line[3 + n + 16] == ']'
            &&& line.subrange(21 + n, 21 + n + cob_id.len() as int) == cob_id
            &&& line.skip(23 + n + cob_id.len() as int) == text::hex_joined(raw, " "@)
        }),
{
    reveal_strlit("[");
    reveal_strlit("][");
    reveal_strlit("] ");
    let line = text_line(ts, kind, cob_id, raw);
    let n = ts.len() as int;
    let k = text::left_aligned(kind, 16);
    assert(k.len() == 16);
    assert(k.take(kind.len() as int) =~= kind);
    assert(line.subrange(1, 1 + n) =~= ts);
    assert(line.subrange(3 + n, 3 + n + kind.len() as int) =~= kind);
    assert(line.subrange(21 + n, 21 + n + cob_id.len() as int) =~= cob_id);
    assert(line.skip(23 + n + cob_id.len() as int) =~= text::hex_joined(raw, " "@));
}

} // verus!
