//! CAN databases (DBC files) and the decoding of signals.
//!
//! Both Intel (little-endian) and Motorola (big-endian) byte orders are supported. Multiplexed
//! signals are skipped; all other signals are decoded. Value descriptions are kept with the
//! database and handed out with decoded values.

use std::collections::HashMap;

use vstd::prelude::*;

use crate::bytes::as_signed;
use crate::dbc::bits::{
    extract_intel, extract_motorola, intel_packed, intel_value, motorola_packed, motorola_value,
    pack_intel, pack_motorola, pow2, sign_extended, to_signed,
};
use crate::dbc::source::{dbc_outcome, decode_text, file_text, parse_text};
use crate::dbc::types::{
    group_views, message_views, signal_views, value_views, DbcByteOrder, DbcFrameSignals,
    DbcMessage, DbcMessageId, DbcMultiplex, DbcSignal, DbcSignalDef, DbcSignalValue, DbcValueType,
    DescriptionGroup, FrameSignalsView, GroupView, MessageView, SignalValueView, SignalView,
};
use crate::text;

pub mod bits;
pub mod source;
pub mod types;

verus! {

broadcast use vstd::std_specs::hash::group_hash_axioms;

/// The number under which a message is filed: extended identifiers without flag bits.
pub open spec fn message_key(id: DbcMessageId) -> u32 {
    match id {
        DbcMessageId::Standard(s) => s as u32,
        DbcMessageId::Extended(e) => (e % 0x2000_0000) as u32,
    }
}

/// The number under which a message is filed.
pub fn msg_id_to_key(id: DbcMessageId) -> (r: u32)
    ensures
        r == message_key(id),
{
    match id {
        DbcMessageId::Standard(s) => s as u32,
        DbcMessageId::Extended(e) => e % 0x2000_0000,
    }
}

/// A message and the name of the database that defines it.
#[derive(Debug)]
pub struct DbcEntry {
    pub source: String,
    pub message: DbcMessage,
}

/// The mathematical value of a [`DbcEntry`].
pub struct EntryView {
    pub source: Seq<char>,
    pub message: MessageView,
}

impl DbcEntry {
    /// The entry over views.
    pub open spec fn view(&self) -> EntryView {
        EntryView { source: self.source@, message: self.message@ }
    }
}

/// Entries as views.
pub open spec fn entries_view(s: Seq<DbcEntry>) -> Seq<EntryView> {
    s.map_values(|x: DbcEntry| x@)
}

/// The description of one raw value of a signal.
#[derive(Debug)]
pub struct DbcDescription {
    pub can_id: u32,
    pub signal: String,
    pub raw: i64,
    pub text: String,
}

/// The mathematical value of a [`DbcDescription`].
pub struct DescriptionView {
    pub can_id: u32,
    pub signal: Seq<char>,
    pub raw: i64,
    pub text: Seq<char>,
}

impl DbcDescription {
    /// The description over views.
    pub open spec fn view(&self) -> DescriptionView {
        DescriptionView {
            can_id: self.can_id,
            signal: self.signal@,
            raw: self.raw,
            text: self.text@,
        }
    }
}

/// Descriptions as views.
pub open spec fn descriptions_view(s: Seq<DbcDescription>) -> Seq<DescriptionView> {
    s.map_values(|x: DbcDescription| x@)
}

/// Whether a description is about this value.
pub open spec fn describes(d: DescriptionView, can_id: u32, signal: Seq<char>, raw: int) -> bool {
    d.can_id == can_id && d.signal == signal && d.raw == raw
}

/// The text of the first description of a value.
pub open spec fn first_description(
    s: Seq<DescriptionView>,
    can_id: u32,
    signal: Seq<char>,
    raw: int,
) -> Option<Seq<char>>
    decreases s.len(),
{
    if s.len() == 0 {
        None
    } else if describes(s[0], can_id, signal, raw) {
        Some(s[0].text)
    } else {
        first_description(s.drop_first(), can_id, signal, raw)
    }
}

/// The text of the last description of a value.
pub open spec fn last_description(
    s: Seq<DescriptionView>,
    can_id: u32,
    signal: Seq<char>,
    raw: int,
) -> Option<Seq<char>>
    decreases s.len(),
{
    if s.len() == 0 {
        None
    } else if describes(s.last(), can_id, signal, raw) {
        Some(s.last().text)
    } else {
        last_description(s.drop_last(), can_id, signal, raw)
    }
}

/// The first of the entries that define a message with this number.
pub open spec fn first_entry(s: Seq<EntryView>, can_id: u32) -> Option<EntryView>
    decreases s.len(),
{
    if s.len() == 0 {
        None
    } else if message_key(s[0].message.id) == can_id {
        Some(s[0])
    } else {
        first_entry(s.drop_first(), can_id)
    }
}

/// A database ready for per-frame decoding: all messages in the order of definition, and all
/// value descriptions, those that take precedence first.
pub struct DbcDatabase {
    entries: Vec<DbcEntry>,
    descriptions: Vec<DbcDescription>,
    /// Where the first entry of each message number stands.
    first: HashMap<u32, usize>,
}

/// Whether `m` gives, for each message number in the first `n` entries, its first position.
pub open spec fn is_first_index(s: Seq<EntryView>, n: int, m: Map<u32, usize>) -> bool {
    &&& forall|k: u32| #[trigger]
        m.contains_key(k) ==> {
            &&& m[k] < n
            &&& message_key(s[m[k] as int].message.id) == k
            &&& forall|j: int|
                0 <= j < m[k] ==> message_key((#[trigger] s[j]).message.id) != k
        }
    &&& forall|j: int|
        0 <= j < n ==> #[trigger] m.contains_key(message_key(s[j].message.id))
}

impl DbcDatabase {
    /// All messages, in the order of definition.
    pub closed spec fn messages(self) -> Seq<EntryView> {
        entries_view(self.entries@)
    }

    /// All value descriptions, those that take precedence first.
    pub closed spec fn value_descriptions(self) -> Seq<DescriptionView> {
        descriptions_view(self.descriptions@)
    }

    #[verifier::type_invariant]
    closed spec fn inv(self) -> bool {
        is_first_index(entries_view(self.entries@), self.entries@.len() as int, self.first@)
    }

    /// The message that frames with this number are decoded with.
    pub open spec fn message_for(self, can_id: u32) -> Option<EntryView> {
        first_entry(self.messages(), can_id)
    }

    /// The description of a raw value of a signal.
    pub open spec fn description_for(self, can_id: u32, signal: Seq<char>, raw: int) -> Option<
        Seq<char>,
    > {
        first_description(self.value_descriptions(), can_id, signal, raw)
    }

    fn assemble(entries: Vec<DbcEntry>, descriptions: Vec<DbcDescription>) -> (r: Self)
        ensures
            r.messages() == entries_view(entries@),
            r.value_descriptions() == descriptions_view(descriptions@),
    {
        let mut first: HashMap<u32, usize> = HashMap::new();
        let ghost all = entries_view(entries@);
        let mut i: usize = 0;
        while i < entries.len()
            invariant
                i <= entries@.len(),
                all == entries_view(entries@),
                is_first_index(all, i as int, first@),
            decreases entries@.len() - i,
        {
            let key: u32 = msg_id_to_key(entries[i].message.id);
            assert(all[i as int].message.id == entries@[i as int].message.id);
            if !first.contains_key(&key) {
                first.insert(key, i);
                assert(is_first_index(all, i + 1, first@)) by {
                    assert forall|j: int| 0 <= j < i + 1 implies #[trigger] first@.contains_key(
                        message_key(all[j].message.id),
                    ) by {}
                }
            } else {
                assert(is_first_index(all, i + 1, first@));
            }
            i += 1;
        }
        DbcDatabase { entries, descriptions, first }
    }

    fn lookup(&self, can_id: u32) -> (r: Option<&DbcEntry>)
        ensures
            r is Some == self.message_for(can_id) is Some,
            r matches Some(e) ==> e@ == self.message_for(can_id)->0,
    {
        proof {
            use_type_invariant(self);
            lemma_first_entry(self.messages(), can_id, self.first@);
        }
        match self.first.get(&can_id) {
            Some(i) => Some(&self.entries[*i]),
            None => None,
        }
    }

    fn describe(&self, can_id: u32, signal: &str, raw: i64) -> (r: Option<String>)
        ensures
            text_view(r) == self.description_for(can_id, signal@, raw as int),
    {
        let name: Vec<char> = text::chars_of(signal);
        let ghost all = descriptions_view(self.descriptions@);
        let mut i: usize = 0;
        assert(all.skip(0) =~= all);
        while i < self.descriptions.len()
            invariant
                i <= self.descriptions@.len(),
                name@ == signal@,
                all == descriptions_view(self.descriptions@),
                first_description(all.skip(i as int), can_id, signal@, raw as int)
                    == first_description(all, can_id, signal@, raw as int),
            decreases self.descriptions@.len() - i,
        {
            let d: &DbcDescription = &self.descriptions[i];
            assert(all.skip(i as int)[0] == d@);
            assert(all.skip(i as int).drop_first() =~= all.skip(i + 1));
            if d.can_id == can_id && d.raw == raw {
                let other: Vec<char> = text::chars_of(d.signal.as_str());
                if text::same_chars(other.as_slice(), name.as_slice()) {
                    return Some(d.text.clone());
                }
            }
            i += 1;
        }
        None
    }

    /// Decodes all signals of a frame that are not multiplexed; `None` if no message in the
    /// database has this number. Where several do, the first one is used.
    pub fn decode_frame(&self, can_id: u32, data: &[u8]) -> (r: Option<DbcFrameSignals>)
        ensures
            r is Some == self.message_for(can_id) is Some,
            r matches Some(f) ==> f@ == decoded_frame(
                self.message_for(can_id)->0,
                can_id,
                data@,
                self.value_descriptions(),
            ),
    {
        match self.lookup(can_id) {
            None => None,
            Some(entry) => {
                let msg: &DbcMessage = &entry.message;
                let mut values: Vec<DbcSignalValue> = Vec::new();
                let ghost all = signal_views(msg.signals@);
                let ghost descs = self.value_descriptions();
                let mut i: usize = 0;
                assert(value_views(values@) =~= decoded_signals(
                    all.take(0),
                    can_id,
                    msg.size,
                    data@,
                    descs,
                ));
                while i < msg.signals.len()
                    invariant
                        i <= msg.signals@.len(),
                        all == signal_views(msg.signals@),
                        descs == self.value_descriptions(),
                        value_views(values@) == decoded_signals(
                            all.take(i as int),
                            can_id,
                            msg.size,
                            data@,
                            descs,
                        ),
                    decreases msg.signals@.len() - i,
                {
                    let sig: &DbcSignal = &msg.signals[i];
                    assert(all.take(i + 1).drop_last() =~= all.take(i as int));
                    assert(all.take(i + 1).last() == sig@);
                    if !is_multiplexed_signal(&sig.multiplex) {
                        let ghost before = values@;
                        let raw_int: i64 = raw_value(sig, data);
                        let v: DbcSignalValue = DbcSignalValue {
                            signal_name: sig.name.clone(),
                            raw_int,
                            unit: sig.unit.clone(),
                            description: self.describe(can_id, sig.name.as_str(), raw_int),
                            encoding_def: Some(
                                DbcSignalDef {
                                    start_bit: sig.start_bit,
                                    bit_size: sig.size,
                                    byte_order: sig.byte_order,
                                    value_type: sig.value_type,
                                    factor_bits: sig.factor_bits,
                                    offset_bits: sig.offset_bits,
                                    dlc: (msg.size % 0x100) as u8,
                                },
                            ),
                        };
                        let ghost added = v@;
                        values.push(v);
                        proof {
                            assert(value_views(values@) =~= value_views(before).push(added));
                            assert(added == decoded_signal(sig@, can_id, msg.size, data@, descs));
                        }
                    }
                    i += 1;
                }
                assert(all.take(i as int) =~= all);
                Some(
                    DbcFrameSignals {
                        message_name: msg.name.clone(),
                        can_id,
                        values,
                        source_dbc: entry.source.clone(),
                        raw_data: vstd::slice::slice_to_vec(data),
                    },
                )
            },
        }
    }

    /// The payload length of the message with this number.
    pub fn message_dlc(&self, can_id: u32) -> (r: Option<u8>)
        ensures
            r == (match self.message_for(can_id) {
                Some(e) => Some((e.message.size % 0x100) as u8),
                None => None,
            }),
    {
        match self.lookup(can_id) {
            Some(e) => Some((e.message.size % 0x100) as u8),
            None => None,
        }
    }
}

/// The text of an optional string.
pub open spec fn text_view(s: Option<String>) -> Option<Seq<char>> {
    match s {
        Some(t) => Some(t@),
        None => None,
    }
}

proof fn lemma_first_entry(s: Seq<EntryView>, can_id: u32, m: Map<u32, usize>)
    requires
        is_first_index(s, s.len() as int, m),
    ensures
        m.contains_key(can_id) == first_entry(s, can_id) is Some,
        m.contains_key(can_id) ==> m[can_id] < s.len() && first_entry(s, can_id) == Some(
            s[m[can_id] as int],
        ),
{
    if m.contains_key(can_id) {
        lemma_first_entry_at(s, can_id, m[can_id] as int);
    } else {
        assert forall|j: int| 0 <= j < s.len() implies message_key((#[trigger] s[j]).message.id)
            != can_id by {
            assert(m.contains_key(message_key(s[j].message.id)));
        }
        lemma_no_entry(s, can_id);
    }
}

proof fn lemma_first_entry_at(s: Seq<EntryView>, can_id: u32, i: int)
    requires
        0 <= i < s.len(),
        message_key(s[i].message.id) == can_id,
        forall|j: int| 0 <= j < i ==> message_key((#[trigger] s[j]).message.id) != can_id,
    ensures
        first_entry(s, can_id) == Some(s[i]),
    decreases s.len(),
{
    if i > 0 {
        let t = s.drop_first();
        assert forall|j: int| 0 <= j < i - 1 implies message_key((#[trigger] t[j]).message.id)
            != can_id by {
            assert(t[j] == s[j + 1]);
        }
        lemma_first_entry_at(t, can_id, i - 1);
    }
}

proof fn lemma_no_entry(s: Seq<EntryView>, can_id: u32)
    requires
        forall|j: int| 0 <= j < s.len() ==> message_key((#[trigger] s[j]).message.id) != can_id,
    ensures
        first_entry(s, can_id) is None,
    decreases s.len(),
{
    if s.len() > 0 {
        let t = s.drop_first();
        assert forall|j: int| 0 <= j < t.len() implies message_key((#[trigger] t[j]).message.id)
            != can_id by {
            assert(t[j] == s[j + 1]);
        }
        lemma_no_entry(t, can_id);
    }
}

/// Whether a signal is there only for some values of a multiplexor switch.
pub open spec fn is_multiplexed(m: DbcMultiplex) -> bool {
    m is Multiplexed || m is MultiplexorAndMultiplexed
}

fn is_multiplexed_signal(m: &DbcMultiplex) -> (r: bool)
    ensures
        r == is_multiplexed(*m),
{
    match m {
        DbcMultiplex::Multiplexed(_) => true,
        DbcMultiplex::MultiplexorAndMultiplexed(_) => true,
        _ => false,
    }
}

/// The width of a signal's bit field: at most 64 bits.
pub open spec fn field_width(size: u64) -> nat {
    if size <= 64 {
        size as nat
    } else {
        64
    }
}

/// The bits of a signal in a payload, as an unsigned number.
pub open spec fn field_bits(sig: SignalView, data: Seq<u8>) -> int {
    match sig.byte_order {
        DbcByteOrder::LittleEndian => intel_value(
            data,
            sig.start_bit as int,
            field_width(sig.size),
        ),
        DbcByteOrder::BigEndian => motorola_value(
            data,
            sig.start_bit as int,
            field_width(sig.size),
        ),
    }
}

/// The raw value of a signal in a payload. An unsigned 64-bit value is kept as the signed number
/// with the same bits.
pub open spec fn signal_raw(sig: SignalView, data: Seq<u8>) -> int {
    match sig.value_type {
        DbcValueType::Signed => sign_extended(field_bits(sig, data), sig.size as nat),
        DbcValueType::Unsigned => as_signed(field_bits(sig, data), 0x1_0000_0000_0000_0000),
    }
}

fn raw_value(sig: &DbcSignal, data: &[u8]) -> (r: i64)
    ensures
        r as int == signal_raw(sig@, data@),
{
    let width: u64 = if sig.size <= 64 {
        sig.size
    } else {
        64
    };
    let bits: u64 = match sig.byte_order {
        DbcByteOrder::LittleEndian => extract_intel(data, sig.start_bit, width),
        DbcByteOrder::BigEndian => extract_motorola(data, sig.start_bit, width),
    };
    match sig.value_type {
        DbcValueType::Signed => to_signed(bits, sig.size),
        DbcValueType::Unsigned => crate::bytes::u64_signed(bits),
    }
}

/// A decoded signal.
pub open spec fn decoded_signal(
    sig: SignalView,
    can_id: u32,
    message_size: u64,
    data: Seq<u8>,
    descs: Seq<DescriptionView>,
) -> SignalValueView {
    SignalValueView {
        signal_name: sig.name,
        raw_int: signal_raw(sig, data),
        unit: sig.unit,
        description: first_description(descs, can_id, sig.name, signal_raw(sig, data)),
        encoding_def: Some(
            DbcSignalDef {
                start_bit: sig.start_bit,
                bit_size: sig.size,
                byte_order: sig.byte_order,
                value_type: sig.value_type,
                factor_bits: sig.factor_bits,
                offset_bits: sig.offset_bits,
                dlc: (message_size % 0x100) as u8,
            },
        ),
    }
}

/// All signals that are not multiplexed, decoded, in definition order.
pub open spec fn decoded_signals(
    signals: Seq<SignalView>,
    can_id: u32,
    message_size: u64,
    data: Seq<u8>,
    descs: Seq<DescriptionView>,
) -> Seq<SignalValueView>
    decreases signals.len(),
{
    if signals.len() == 0 {
        seq![]
    } else {
        let before = decoded_signals(signals.drop_last(), can_id, message_size, data, descs);
        if is_multiplexed(signals.last().multiplex) {
            before
        } else {
            before.push(decoded_signal(signals.last(), can_id, message_size, data, descs))
        }
    }
}

/// A decoded frame.
pub open spec fn decoded_frame(
    entry: EntryView,
    can_id: u32,
    data: Seq<u8>,
    descs: Seq<DescriptionView>,
) -> FrameSignalsView {
    FrameSignalsView {
        message_name: entry.message.name,
        can_id,
        values: decoded_signals(entry.message.signals, can_id, entry.message.size, data, descs),
        source_dbc: entry.source,
        raw_data: data,
    }
}

// ─── Loading ────────────────────────────────────────────────────────────────

/// The messages of a file as entries of a database.
pub open spec fn sourced(messages: Seq<MessageView>, source: Seq<char>) -> Seq<EntryView> {
    messages.map_values(|m: MessageView| EntryView { source, message: m })
}

/// The described values of one signal.
pub open spec fn signal_rows(can_id: u32, signal: Seq<char>, entries: Seq<(i64, Seq<char>)>) -> Seq<
    DescriptionView,
> {
    entries.map_values(
        |e: (i64, Seq<char>)| DescriptionView { can_id, signal, raw: e.0, text: e.1 },
    )
}

/// The described values of all signals of a file, in file order.
pub open spec fn file_rows(groups: Seq<GroupView>) -> Seq<DescriptionView>
    decreases groups.len(),
{
    if groups.len() == 0 {
        seq![]
    } else {
        let before = file_rows(groups.drop_last());
        match groups.last().signal {
            Some((id, name)) => before + signal_rows(
                message_key(id),
                name,
                groups.last().entries,
            ),
            None => before,
        }
    }
}

/// Whether a database holds the messages of a file in file order, and of several descriptions of
/// one value the last.
pub open spec fn holds_file(
    db: DbcDatabase,
    messages: Seq<MessageView>,
    groups: Seq<GroupView>,
    source: Seq<char>,
) -> bool {
    &&& db.messages() == sourced(messages, source)
    &&& forall|can_id: u32, signal: Seq<char>, raw: int| #[trigger]
        db.description_for(can_id, signal, raw) == last_description(
            file_rows(groups),
            can_id,
            signal,
            raw,
        )
}

proof fn lemma_reversed_descriptions(
    s: Seq<DescriptionView>,
    can_id: u32,
    signal: Seq<char>,
    raw: int,
)
    ensures
        first_description(s.reverse(), can_id, signal, raw) == last_description(
            s,
            can_id,
            signal,
            raw,
        ),
    decreases s.len(),
{
    if s.len() > 0 {
        lemma_reversed_descriptions(s.drop_last(), can_id, signal, raw);
        assert(s.reverse().drop_first() =~= s.drop_last().reverse());
        assert(s.reverse()[0] == s.last());
    }
}

fn push_rows(rows: &mut Vec<DbcDescription>, can_id: u32, signal: &str, entries: &Vec<(i64, String)>)
    ensures
        descriptions_view(final(rows)@) == descriptions_view(old(rows)@) + signal_rows(
            can_id,
            signal@,
            crate::dbc::types::entry_views(entries@),
        ),
{
    let ghost wanted = signal_rows(can_id, signal@, crate::dbc::types::entry_views(entries@));
    let mut i: usize = 0;
    assert(descriptions_view(rows@) =~= descriptions_view(old(rows)@) + wanted.take(0));
    while i < entries.len()
        invariant
            i <= entries@.len(),
            wanted == signal_rows(can_id, signal@, crate::dbc::types::entry_views(entries@)),
            descriptions_view(rows@) == descriptions_view(old(rows)@) + wanted.take(i as int),
        decreases entries@.len() - i,
    {
        let ghost before = rows@;
        let d: DbcDescription = DbcDescription {
            can_id,
            signal: signal.to_owned(),
            raw: entries[i].0,
            text: entries[i].1.clone(),
        };
        let ghost added = d@;
        rows.push(d);
        proof {
            assert(wanted[i as int] == added);
            assert(descriptions_view(rows@) =~= descriptions_view(before).push(added));
            assert(wanted.take(i + 1) =~= wanted.take(i as int).push(added));
            assert(descriptions_view(rows@) =~= descriptions_view(old(rows)@) + wanted.take(i + 1));
        }
        i += 1;
    }
    assert(wanted.take(i as int) =~= wanted);
}

/// Builds a database from the messages and value descriptions of a file. `source_name` is kept
/// with every message. Where a value is described more than once, the last description counts.
pub fn build_database(
    messages: Vec<DbcMessage>,
    groups: Vec<DescriptionGroup>,
    source_name: &str,
) -> (r: DbcDatabase)
    ensures
        holds_file(r, message_views(messages@), group_views(groups@), source_name@),
{
    let ghost wanted = sourced(message_views(messages@), source_name@);
    let mut entries: Vec<DbcEntry> = Vec::new();
    let mut rest: Vec<DbcMessage> = messages;
    let ghost total = rest@.len() as int;
    assert(rest@ =~= messages@.take(total));
    while rest.len() > 0
        invariant
            rest@.len() <= total,
            total == messages@.len(),
            rest@ == messages@.take(rest@.len() as int),
            wanted == sourced(message_views(messages@), source_name@),
            entries_view(entries@).reverse() == wanted.skip(rest@.len() as int),
        decreases rest@.len(),
    {
        let ghost k = rest@.len() - 1;
        let ghost before = entries@;
        match rest.pop() {
            Some(m) => {
                let e: DbcEntry = DbcEntry { source: source_name.to_owned(), message: m };
                let ghost added = e@;
                entries.push(e);
                proof {
                    assert(wanted[k] == added);
                    assert(entries_view(entries@) =~= entries_view(before).push(added));
                    assert(entries_view(before).push(added).reverse() =~= seq![added]
                        + entries_view(before).reverse());
                    assert(wanted.skip(k) =~= seq![added] + wanted.skip(k + 1));
                    assert(rest@ =~= messages@.take(k));
                }
            },
            None => {},
        }
    }
    let ordered: Vec<DbcEntry> = reverse_entries(entries);
    assert(entries_view(ordered@) =~= entries_view(entries@).reverse());
    assert(wanted.skip(0) =~= wanted);
    let mut rows: Vec<DbcDescription> = Vec::new();
    let ghost gs = group_views(groups@);
    let mut i: usize = 0;
    assert(descriptions_view(rows@) =~= file_rows(gs.take(0)));
    while i < groups.len()
        invariant
            i <= groups@.len(),
            gs == group_views(groups@),
            descriptions_view(rows@) == file_rows(gs.take(i as int)),
        decreases groups@.len() - i,
    {
        let g: &DescriptionGroup = &groups[i];
        assert(gs.take(i + 1).drop_last() =~= gs.take(i as int));
        assert(gs.take(i + 1).last() == g@);
        match &g.signal {
            Some(p) => {
                push_rows(&mut rows, msg_id_to_key(p.0), p.1.as_str(), &g.entries);
            },
            None => {},
        }
        i += 1;
    }
    assert(gs.take(i as int) =~= gs);
    let ghost in_file_order = descriptions_view(rows@);
    let descriptions: Vec<DbcDescription> = reverse_descriptions(rows);
    let db: DbcDatabase = DbcDatabase::assemble(ordered, descriptions);
    proof {
        assert(descriptions_view(descriptions@) =~= in_file_order.reverse());
        assert forall|can_id: u32, signal: Seq<char>, raw: int| #[trigger]
            db.description_for(can_id, signal, raw) == last_description(
                file_rows(gs),
                can_id,
                signal,
                raw,
            ) by {
            lemma_reversed_descriptions(in_file_order, can_id, signal, raw);
        }
    }
    db
}

fn reverse_entries(entries: Vec<DbcEntry>) -> (r: Vec<DbcEntry>)
    ensures
        r@ == entries@.reverse(),
{
    let mut rest: Vec<DbcEntry> = entries;
    let mut r: Vec<DbcEntry> = Vec::new();
    let ghost n = rest@.len() as int;
    while rest.len() > 0
        invariant
            n == entries@.len(),
            rest@.len() <= n,
            rest@ == entries@.take(rest@.len() as int),
            r@ == entries@.reverse().take(n - rest@.len()),
        decreases rest@.len(),
    {
        let ghost k = rest@.len() - 1;
        match rest.pop() {
            Some(e) => {
                r.push(e);
                assert(rest@ =~= entries@.take(k));
                assert(r@ =~= entries@.reverse().take(n - k));
            },
            None => {},
        }
    }
    assert(r@ =~= entries@.reverse());
    r
}

fn reverse_descriptions(rows: Vec<DbcDescription>) -> (r: Vec<DbcDescription>)
    ensures
        r@ == rows@.reverse(),
{
    let mut rest: Vec<DbcDescription> = rows;
    let mut r: Vec<DbcDescription> = Vec::new();
    let ghost n = rest@.len() as int;
    while rest.len() > 0
        invariant
            n == rows@.len(),
            rest@.len() <= n,
            rest@ == rows@.take(rest@.len() as int),
            r@ == rows@.reverse().take(n - rest@.len()),
        decreases rest@.len(),
    {
        let ghost k = rest@.len() - 1;
        match rest.pop() {
            Some(e) => {
                r.push(e);
                assert(rest@ =~= rows@.take(k));
                assert(r@ =~= rows@.reverse().take(n - k));
            },
            None => {},
        }
    }
    assert(r@ =~= rows@.reverse());
    r
}

/// Loads a database from the bytes of its file. `source_name` is the file's stem, `path` its path
/// as shown in messages.
pub fn load_dbc(bytes: &[u8], source_name: &str, path: &str) -> (r: Result<DbcDatabase, String>)
    ensures
        r is Ok == dbc_outcome(file_text(bytes@)) is Ok,
        r matches Ok(db) ==> ({
            let parsed = dbc_outcome(file_text(bytes@))->Ok_0;
            holds_file(db, parsed.0, parsed.1, source_name@)
        }),
        r matches Err(e) ==> e@ == "Failed to parse DBC file "@ + path@ + ": "@ + dbc_outcome(
            file_text(bytes@),
        )->Err_0,
{
    let content: String = decode_text(bytes);
    match parse_text(content.as_str()) {
        Ok(p) => {
            let (messages, groups) = p;
            Ok(build_database(messages, groups, source_name))
        },
        Err(e) => {
            let mut s: String = "Failed to parse DBC file ".to_owned();
            text::push_str(&mut s, path);
            text::push_str(&mut s, ": ");
            text::push_str(&mut s, e.as_str());
            Err(s)
        },
    }
}

// ─── Merging ────────────────────────────────────────────────────────────────

/// The messages of all databases, one database after the other.
pub open spec fn merged_messages(dbs: Seq<DbcDatabase>) -> Seq<EntryView>
    decreases dbs.len(),
{
    if dbs.len() == 0 {
        seq![]
    } else {
        merged_messages(dbs.drop_last()) + dbs.last().messages()
    }
}

/// The value descriptions of all databases, one database after the other.
pub open spec fn merged_descriptions(dbs: Seq<DbcDatabase>) -> Seq<DescriptionView>
    decreases dbs.len(),
{
    if dbs.len() == 0 {
        seq![]
    } else {
        merged_descriptions(dbs.drop_last()) + dbs.last().value_descriptions()
    }
}

/// Merges databases. Where several define the same message or describe the same value, all
/// definitions are kept in the order given, and the first is used.
pub fn merge_databases(databases: Vec<DbcDatabase>) -> (r: Result<DbcDatabase, String>)
    ensures
        r is Ok,
        r->Ok_0.messages() == merged_messages(databases@),
        r->Ok_0.value_descriptions() == merged_descriptions(databases@),
{
    let mut entries: Vec<DbcEntry> = Vec::new();
    let mut descriptions: Vec<DbcDescription> = Vec::new();
    let mut i: usize = 0;
    let mut rest: Vec<DbcDatabase> = databases;
    let ghost all = rest@;
    let total: usize = rest.len();
    assert(entries_view(entries@) =~= merged_messages(all.take(0)));
    assert(descriptions_view(descriptions@) =~= merged_descriptions(all.take(0)));
    while rest.len() > 0
        invariant
            i + rest@.len() == all.len(),
            total == all.len(),
            rest@ == all.skip(i as int),
            all == databases@,
            entries_view(entries@) == merged_messages(all.take(i as int)),
            descriptions_view(descriptions@) == merged_descriptions(all.take(i as int)),
        decreases rest@.len(),
    {
        let ghost n = rest@.len();
        let db: DbcDatabase = rest.remove(0);
        proof {
            assert(all.take(i + 1).drop_last() =~= all.take(i as int));
            assert(db == all[i as int]);
            assert(rest@ =~= all.skip(i + 1));
        }
        let ghost e0 = entries@;
        let ghost d0 = descriptions@;
        let DbcDatabase { entries: mut more, descriptions: mut rows, first: _ } = db;
        let ghost e1 = more@;
        let ghost d1 = rows@;
        entries.append(&mut more);
        descriptions.append(&mut rows);
        proof {
            assert(entries_view(entries@) =~= entries_view(e0) + entries_view(e1));
            assert(descriptions_view(descriptions@) =~= descriptions_view(d0) + descriptions_view(
                d1,
            ));
        }
        i += 1;
    }
    assert(all.take(i as int) =~= all);
    Ok(DbcDatabase::assemble(entries, descriptions))
}

// ─── Encoding ───────────────────────────────────────────────────────────────

/// The first signal with this name.
pub open spec fn first_signal(signals: Seq<SignalView>, name: Seq<char>) -> Option<SignalView>
    decreases signals.len(),
{
    if signals.len() == 0 {
        None
    } else if signals[0].name == name {
        Some(signals[0])
    } else {
        first_signal(signals.drop_first(), name)
    }
}

/// A payload cut or filled up with zeros to `size` bytes.
pub open spec fn resized(current: Seq<u8>, size: nat) -> Seq<u8> {
    Seq::new(
        size,
        |i: int|
            if i < current.len() {
                current[i]
            } else {
                0
            },
    )
}

/// A number limited to a range.
pub open spec fn clamped(n: int, min: int, max: int) -> int {
    if n < min {
        min
    } else if n > max {
        max
    } else {
        n
    }
}

/// The raw value nearest to the wanted one that the signal's field can hold. `signed` and
/// `unsigned` are the wanted raw value, rounded and limited to 64 bits, for signals of either
/// kind.
pub open spec fn limited_raw(sig: SignalView, signed: i64, unsigned: u64) -> int {
    let w = field_width(sig.size);
    match sig.value_type {
        DbcValueType::Signed => if w == 0 {
            0
        } else {
            clamped(signed as int, -pow2((w - 1) as nat), pow2((w - 1) as nat) - 1)
        },
        DbcValueType::Unsigned => clamped(unsigned as int, 0, pow2(w) - 1),
    }
}

/// The bits that are written for a raw value.
pub open spec fn field_number(sig: SignalView, signed: i64, unsigned: u64) -> int {
    limited_raw(sig, signed, unsigned) % pow2(field_width(sig.size))
}

/// Whether `new` is `old` with the signal's field replaced by `number`.
pub open spec fn field_written(sig: SignalView, old_data: Seq<u8>, new_data: Seq<u8>, number: int) -> bool {
    let w = field_width(sig.size);
    match sig.byte_order {
        DbcByteOrder::LittleEndian => intel_packed(
            old_data,
            new_data,
            sig.start_bit as int,
            w,
            number,
        ),
        DbcByteOrder::BigEndian => motorola_packed(
            old_data,
            new_data,
            sig.start_bit as int,
            w as int,
            w as int,
            number,
        ),
    }
}

fn field_number_of(sig: &DbcSignal, signed: i64, unsigned: u64) -> (r: u64)
    ensures
        r as int == field_number(sig@, signed, unsigned),
{
    let w: u64 = if sig.size <= 64 {
        sig.size
    } else {
        64
    };
    proof {
        bits::lemma_pow2_64();
        bits::lemma_pow2_positive(w as nat);
        bits::lemma_pow2_monotone(w as nat, 64);
    }
    if w == 0 {
        proof {
            assert(pow2(0) == 1);
            assert(limited_raw(sig@, signed, unsigned) % 1 == 0);
        }
        return 0;
    }
    let half: u64 = bits::power(w - 1);
    let full: i128 = 2 * half as i128;
    assert(full as int == pow2(w as nat));
    match sig.value_type {
        DbcValueType::Signed => {
            let min: i128 = -(half as i128);
            let max: i128 = half as i128 - 1;
            let c: i128 = if (signed as i128) < min {
                min
            } else if signed as i128 > max {
                max
            } else {
                signed as i128
            };
            proof {
                if c >= 0 {
                    vstd::arithmetic::div_mod::lemma_fundamental_div_mod_converse(
                        c as int,
                        full as int,
                        0,
                        c as int,
                    );
                } else {
                    vstd::arithmetic::div_mod::lemma_fundamental_div_mod_converse(
                        c as int,
                        full as int,
                        -1,
                        c + full,
                    );
                }
            }
            if c >= 0 {
                c as u64
            } else {
                (c + full) as u64
            }
        },
        DbcValueType::Unsigned => {
            let max: i128 = full - 1;
            let c: i128 = if unsigned as i128 > max {
                max
            } else {
                unsigned as i128
            };
            proof {
                vstd::arithmetic::div_mod::lemma_fundamental_div_mod_converse(
                    c as int,
                    full as int,
                    0,
                    c as int,
                );
            }
            c as u64
        },
    }
}

fn resize(current: &[u8], size: u64) -> (r: Vec<u8>)
    ensures
        r@ == resized(current@, size as nat),
{
    let mut data: Vec<u8> = Vec::new();
    let mut i: u64 = 0;
    while i < size
        invariant
            i <= size,
            data@ == resized(current@, i as nat),
        decreases size - i,
    {
        let b: u8 = if i < current.len() as u64 {
            current[i as usize]
        } else {
            0
        };
        data.push(b);
        i += 1;
        assert(data@ =~= resized(current@, i as nat));
    }
    data
}

impl DbcDatabase {
    fn find_signal(&self, can_id: u32, signal_name: &str) -> (r: Option<(&DbcSignal, u64)>)
        ensures
            r is Some == self.signal_for(can_id, signal_name@) is Some,
            r matches Some(p) ==> p.0@ == self.signal_for(can_id, signal_name@)->0 && p.1
                == self.message_for(can_id)->0.message.size,
    {
        match self.lookup(can_id) {
            None => None,
            Some(entry) => {
                let name: Vec<char> = text::chars_of(signal_name);
                let ghost all = signal_views(entry.message.signals@);
                let mut i: usize = 0;
                assert(all.skip(0) =~= all);
                while i < entry.message.signals.len()
                    invariant
                        i <= entry.message.signals@.len(),
                        name@ == signal_name@,
                        all == signal_views(entry.message.signals@),
                        entry@ == self.message_for(can_id)->0,
                        self.message_for(can_id) is Some,
                        first_signal(all.skip(i as int), signal_name@) == first_signal(
                            all,
                            signal_name@,
                        ),
                    decreases entry.message.signals@.len() - i,
                {
                    let s: &DbcSignal = &entry.message.signals[i];
                    assert(all.skip(i as int)[0] == s@);
                    assert(all.skip(i as int).drop_first() =~= all.skip(i + 1));
                    let other: Vec<char> = text::chars_of(s.name.as_str());
                    if text::same_chars(other.as_slice(), name.as_slice()) {
                        return Some((s, entry.message.size));
                    }
                    i += 1;
                }
                None
            },
        }
    }

    /// The definition of a signal of the message with this number.
    pub open spec fn signal_for(self, can_id: u32, name: Seq<char>) -> Option<SignalView> {
        match self.message_for(can_id) {
            Some(e) => first_signal(e.message.signals, name),
            None => None,
        }
    }

    /// The bit patterns of a signal's scale and offset; `None` if the signal is not in the
    /// database.
    pub fn signal_scaling(&self, can_id: u32, signal_name: &str) -> (r: Option<(u64, u64)>)
        ensures
            r == (match self.signal_for(can_id, signal_name@) {
                Some(s) => Some((s.factor_bits, s.offset_bits)),
                None => None,
            }),
    {
        match self.find_signal(can_id, signal_name) {
            Some(p) => Some((p.0.factor_bits, p.0.offset_bits)),
            None => None,
        }
    }

    /// Writes a raw value for one signal into a copy of `current_bytes`, brought to the length of
    /// the message. The raw value, `(physical - offset) / factor` rounded, is given as a signed
    /// and as an unsigned 64-bit number, each limited to its range; the signal takes the one of
    /// its kind, limited to its field. Bits of other signals are kept. `None` if the message or
    /// the signal is not in the database.
    pub fn encode_signal(
        &self,
        can_id: u32,
        signal_name: &str,
        raw_signed: i64,
        raw_unsigned: u64,
        current_bytes: &[u8],
    ) -> (r: Option<Vec<u8>>)
        ensures
            r is Some == self.signal_for(can_id, signal_name@) is Some,
            r matches Some(data) ==> ({
                let sig = self.signal_for(can_id, signal_name@)->0;
                let size = self.message_for(can_id)->0.message.size;
                &&& data@.len() == size
                &&& field_written(
                    sig,
                    resized(current_bytes@, size as nat),
                    data@,
                    field_number(sig, raw_signed, raw_unsigned),
                )
            }),
    {
        match self.find_signal(can_id, signal_name) {
            None => None,
            Some(p) => {
                let sig: &DbcSignal = p.0;
                let mut data: Vec<u8> = resize(current_bytes, p.1);
                let w: u64 = if sig.size <= 64 {
                    sig.size
                } else {
                    64
                };
                let number: u64 = field_number_of(sig, raw_signed, raw_unsigned);
                match sig.byte_order {
                    DbcByteOrder::LittleEndian => pack_intel(
                        data.as_mut_slice(),
                        sig.start_bit,
                        w,
                        number,
                    ),
                    DbcByteOrder::BigEndian => pack_motorola(
                        data.as_mut_slice(),
                        sig.start_bit,
                        w,
                        number,
                    ),
                }
                Some(data)
            },
        }
    }
}

// ─── Laws ───────────────────────────────────────────────────────────────────

/// Whether a signal's field lies within a payload of `size` bytes.
pub open spec fn field_fits(sig: SignalView, size: int) -> bool {
    match sig.byte_order {
        DbcByteOrder::LittleEndian => sig.start_bit + field_width(sig.size) <= 8 * size,
        DbcByteOrder::BigEndian => bits::transmission_index(sig.start_bit as int) + field_width(
            sig.size,
        ) <= 8 * size,
    }
}

/// What was encoded is decoded: a signal whose field lies within the payload reads back as the
/// raw value that was written, limited to what the field can hold.
pub proof fn law_encoded_signal_is_decoded(
    sig: SignalView,
    old_data: Seq<u8>,
    new_data: Seq<u8>,
    signed: i64,
    unsigned: u64,
)
    requires
        1 <= sig.size <= 64,
        field_fits(sig, old_data.len() as int),
        field_written(sig, old_data, new_data, field_number(sig, signed, unsigned)),
    ensures
        sig.value_type == DbcValueType::Signed ==> signal_raw(sig, new_data) == limited_raw(
            sig,
            signed,
            unsigned,
        ),
        sig.value_type == DbcValueType::Unsigned ==> field_bits(sig, new_data) == limited_raw(
            sig,
            signed,
            unsigned,
        ),
{
    let w = field_width(sig.size);
    let number = field_number(sig, signed, unsigned);
    let limited = limited_raw(sig, signed, unsigned);
    bits::lemma_pow2_positive(w);
    bits::lemma_pow2_positive((w - 1) as nat);
    vstd::arithmetic::div_mod::lemma_mod_bound(limited, pow2(w));
    match sig.byte_order {
        DbcByteOrder::LittleEndian => {
            bits::law_intel_round_trip(
                old_data,
                new_data,
                sig.start_bit as int,
                w,
                w,
                number,
            );
        },
        DbcByteOrder::BigEndian => {
            bits::law_motorola_round_trip(old_data, new_data, sig.start_bit as int, w, number);
        },
    }
    vstd::arithmetic::div_mod::lemma_fundamental_div_mod_converse(number, pow2(w), 0, number);
    assert(field_bits(sig, new_data) == number);
    match sig.value_type {
        DbcValueType::Signed => {
            bits::law_sign_extension_recovers(limited, w);
        },
        DbcValueType::Unsigned => {
            vstd::arithmetic::div_mod::lemma_fundamental_div_mod_converse(
                limited,
                pow2(w),
                0,
                limited,
            );
        },
    }
}

/// A message of an earlier database hides those of the same number in later ones; a message of a
/// later one is found where no earlier one has it.
pub proof fn law_first_message_wins(a: Seq<EntryView>, b: Seq<EntryView>, can_id: u32)
    ensures
        first_entry(a + b, can_id) == (match first_entry(a, can_id) {
            Some(e) => Some(e),
            None => first_entry(b, can_id),
        }),
    decreases a.len(),
{
    if a.len() == 0 {
        assert(a + b =~= b);
    } else {
        law_first_message_wins(a.drop_first(), b, can_id);
        assert((a + b).drop_first() =~= a.drop_first() + b);
    }
}

/// A value description of an earlier database hides those of the same value in later ones.
pub proof fn law_first_description_wins(
    a: Seq<DescriptionView>,
    b: Seq<DescriptionView>,
    can_id: u32,
    signal: Seq<char>,
    raw: int,
)
    ensures
        first_description(a + b, can_id, signal, raw) == (match first_description(
            a,
            can_id,
            signal,
            raw,
        ) {
            Some(t) => Some(t),
            None => first_description(b, can_id, signal, raw),
        }),
    decreases a.len(),
{
    if a.len() == 0 {
        assert(a + b =~= b);
    } else {
        law_first_description_wins(a.drop_first(), b, can_id, signal, raw);
        assert((a + b).drop_first() =~= a.drop_first() + b);
    }
}

/// Merging one database changes nothing.
pub proof fn law_merging_one(db: DbcDatabase)
    ensures
        merged_messages(seq![db]) == db.messages(),
        merged_descriptions(seq![db]) == db.value_descriptions(),
{
    assert(seq![db].drop_last() =~= seq![]);
    assert(seq![db].last() == db);
    reveal_with_fuel(merged_messages, 2);
    reveal_with_fuel(merged_descriptions, 2);
    assert(merged_messages(seq![db]) =~= db.messages());
    assert(merged_descriptions(seq![db]) =~= db.value_descriptions());
}

/// The values of a decoded frame are, in definition order, those of exactly the signals of the
/// message that are defined as plain or as the multiplexor switch: a signal that is there only
/// for one value of a switch never appears. Each value carries its signal's name, unit and
/// layout, and the frame the message's name, its database and the payload.
pub proof fn law_decoded_signals_are_unconditional(
    entry: EntryView,
    can_id: u32,
    data: Seq<u8>,
    descs: Seq<DescriptionView>,
)
    ensures
        ({
            let frame = decoded_frame(entry, can_id, data, descs);
            let shown = entry.message.signals.filter(
                |s: SignalView|
                    s.multiplex == DbcMultiplex::Plain || s.multiplex == DbcMultiplex::Multiplexor,
            );
            &&& frame.message_name == entry.message.name
            &&& frame.source_dbc == entry.source
            &&& frame.can_id == can_id
            &&& frame.raw_data == data
            &&& frame.values.len() == shown.len()
            &&& forall|i: int|
                0 <= i < shown.len() ==> {
                    &&& (#[trigger] frame.values[i]).signal_name == shown[i].name
                    &&& frame.values[i].unit == shown[i].unit
                    &&& frame.values[i].raw_int == signal_raw(shown[i], data)
                    &&& frame.values[i].encoding_def matches Some(d) && d.start_bit
                        == shown[i].start_bit && d.bit_size == shown[i].size && d.byte_order
                        == shown[i].byte_order && d.value_type == shown[i].value_type
                        && d.factor_bits == shown[i].factor_bits && d.offset_bits
                        == shown[i].offset_bits && d.dlc == entry.message.size % 0x100
                }
        }),
{
    lemma_decoded_are_shown(entry.message.signals, can_id, entry.message.size, data, descs);
}

proof fn lemma_decoded_are_shown(
    signals: Seq<SignalView>,
    can_id: u32,
    message_size: u64,
    data: Seq<u8>,
    descs: Seq<DescriptionView>,
)
    ensures
        decoded_signals(signals, can_id, message_size, data, descs) == signals.filter(
            |s: SignalView|
                s.multiplex == DbcMultiplex::Plain || s.multiplex == DbcMultiplex::Multiplexor,
        ).map_values(|s: SignalView| decoded_signal(s, can_id, message_size, data, descs)),
    decreases signals.len(),
{
    let keep = |s: SignalView|
        s.multiplex == DbcMultiplex::Plain || s.multiplex == DbcMultiplex::Multiplexor;
    let f = |s: SignalView| decoded_signal(s, can_id, message_size, data, descs);
    reveal(Seq::filter);
    if signals.len() > 0 {
        lemma_decoded_are_shown(signals.drop_last(), can_id, message_size, data, descs);
        let before = signals.drop_last().filter(keep);
        let last = signals.last();
        match last.multiplex {
            DbcMultiplex::Plain => {},
            DbcMultiplex::Multiplexor => {},
            DbcMultiplex::Multiplexed(_) => {},
            DbcMultiplex::MultiplexorAndMultiplexed(_) => {},
        }
        if keep(last) {
            assert(signals.filter(keep) == before.push(last));
            assert(before.push(last).map_values(f) =~= before.map_values(f).push(f(last)));
        }
    }
    assert(decoded_signals(signals, can_id, message_size, data, descs) =~= signals.filter(
        keep,
    ).map_values(f));
}

/// The raw value of a signal is the number that its bits spell, read as the signal's kind says:
/// of an unsigned signal of fewer than 64 bits the number itself, of a signed one the number in
/// two's complement. The bits are those from the start bit upwards for an Intel signal, and those
/// from the start bit on in the order of transmission for a Motorola signal.
pub proof fn law_raw_value_of_field(sig: SignalView, data: Seq<u8>)
    requires
        1 <= sig.size <= 64,
    ensures
        sig.byte_order == DbcByteOrder::LittleEndian ==> field_bits(sig, data) == intel_value(
            data,
            sig.start_bit as int,
            sig.size as nat,
        ),
        sig.byte_order == DbcByteOrder::BigEndian ==> field_bits(sig, data) == motorola_value(
            data,
            sig.start_bit as int,
            sig.size as nat,
        ),
        sig.value_type == DbcValueType::Unsigned && sig.size < 64 ==> signal_raw(sig, data)
            == field_bits(sig, data),
        sig.value_type == DbcValueType::Signed || sig.size == 64 ==> signal_raw(sig, data) == (if field_bits(
            sig,
            data,
        ) < pow2((sig.size - 1) as nat) {
            field_bits(sig, data)
        } else {
            field_bits(sig, data) - pow2(sig.size as nat)
        }),
{
    let w = sig.size as nat;
    let u = field_bits(sig, data);
    bits::lemma_intel_range(data, sig.start_bit as int, w);
    bits::lemma_motorola_range(data, sig.start_bit as int, w);
    bits::lemma_pow2_64();
    bits::law_two_complement_reading(u, w);
    if w < 64 {
        bits::lemma_pow2_monotone(w, 63);
        assert(pow2(64) == 2 * pow2(63));
    } else {
        assert(pow2(64) == 2 * pow2(63));
    }
}

/// A raw value that the field of a signal can hold survives being written and read back; a value
/// beyond what the field can hold is replaced by the nearest one that it can.
pub proof fn law_value_survives_encoding(
    sig: SignalView,
    old_data: Seq<u8>,
    new_data: Seq<u8>,
    signed: i64,
    unsigned: u64,
)
    requires
        1 <= sig.size <= 64,
        field_fits(sig, old_data.len() as int),
        field_written(sig, old_data, new_data, field_number(sig, signed, unsigned)),
    ensures
        sig.value_type == DbcValueType::Signed ==> {
            let half = pow2((sig.size - 1) as nat);
            &&& -half <= signed < half ==> signal_raw(sig, new_data) == signed
            &&& signed < -half ==> signal_raw(sig, new_data) == -half
            &&& signed >= half ==> signal_raw(sig, new_data) == half - 1
        },
        sig.value_type == DbcValueType::Unsigned ==> {
            let full = pow2(sig.size as nat);
            &&& unsigned < full ==> field_bits(sig, new_data) == unsigned
            &&& unsigned >= full ==> field_bits(sig, new_data) == full - 1
        },
{
    bits::lemma_pow2_positive((sig.size - 1) as nat);
    bits::lemma_pow2_positive(sig.size as nat);
    law_encoded_signal_is_decoded(sig, old_data, new_data, signed, unsigned);
}

/// Before a signal is written, a payload is brought to the length of its message: what is there
/// is kept as far as it fits, and what is missing is zero.
pub proof fn law_resized_keeps_prefix(current: Seq<u8>, size: nat, i: int)
    requires
        0 <= i < size,
    ensures
        resized(current, size).len() == size,
        i < current.len() ==> resized(current, size)[i] == current[i],
        i >= current.len() ==> resized(current, size)[i] == 0,
{
}

/// Frames are decoded with the first message of their number, and only with one of their number:
/// of a standard message the identifier itself, of an extended one its 29 bits without flags.
pub proof fn law_message_has_the_number(s: Seq<EntryView>, can_id: u32)
    ensures
        first_entry(s, can_id) matches Some(e) ==> exists|i: int|
            0 <= i < s.len() && #[trigger] s[i] == e && has_number(e.message.id, can_id) && forall|
                j: int,
            |
                0 <= j < i ==> !has_number((#[trigger] s[j]).message.id, can_id),
        first_entry(s, can_id) is None ==> forall|i: int|
            0 <= i < s.len() ==> !has_number((#[trigger] s[i]).message.id, can_id),
    decreases s.len(),
{
    if s.len() > 0 {
        let t = s.drop_first();
        law_message_has_the_number(t, can_id);
        if has_number(s[0].message.id, can_id) {
            assert(s[0] == first_entry(s, can_id)->0);
        } else {
            assert(first_entry(s, can_id) == first_entry(t, can_id));
            if let Some(e) = first_entry(t, can_id) {
                let i = choose|i: int|
                    0 <= i < t.len() && #[trigger] t[i] == e && has_number(e.message.id, can_id)
                        && forall|j: int|
                        0 <= j < i ==> !has_number((#[trigger] t[j]).message.id, can_id);
                assert(s[i + 1] == e);
                assert forall|j: int| 0 <= j < i + 1 implies !has_number(
                    (#[trigger] s[j]).message.id,
                    can_id,
                ) by {
                    if j > 0 {
                        assert(t[j - 1] == s[j]);
                    }
                }
            } else {
                assert forall|i: int| 0 <= i < s.len() implies !has_number(
                    (#[trigger] s[i]).message.id,
                    can_id,
                ) by {
                    if i > 0 {
                        assert(t[i - 1] == s[i]);
                    }
                }
            }
        }
    }
}

/// Whether an identifier in a file stands for this number.
pub open spec fn has_number(id: DbcMessageId, can_id: u32) -> bool {
    match id {
        DbcMessageId::Standard(s) => can_id == s,
        DbcMessageId::Extended(e) => can_id < 0x2000_0000 && (e - can_id) % 0x2000_0000 == 0,
    }
}

/// Of several signals of one name the first is written, and only one of that name.
pub proof fn law_signal_has_the_name(s: Seq<SignalView>, name: Seq<char>)
    ensures
        first_signal(s, name) matches Some(x) ==> exists|i: int|
            0 <= i < s.len() && #[trigger] s[i] == x && x.name == name && forall|j: int|
                0 <= j < i ==> (#[trigger] s[j]).name != name,
        first_signal(s, name) is None ==> forall|i: int|
            0 <= i < s.len() ==> (#[trigger] s[i]).name != name,
    decreases s.len(),
{
    if s.len() > 0 {
        let t = s.drop_first();
        law_signal_has_the_name(t, name);
        if s[0].name == name {
            assert(s[0] == first_signal(s, name)->0);
        } else {
            if let Some(x) = first_signal(t, name) {
                let i = choose|i: int|
                    0 <= i < t.len() && #[trigger] t[i] == x && x.name == name && forall|j: int|
                        0 <= j < i ==> (#[trigger] t[j]).name != name;
                assert(s[i + 1] == x);
                assert forall|j: int| 0 <= j < i + 1 implies (#[trigger] s[j]).name != name by {
                    if j > 0 {
                        assert(t[j - 1] == s[j]);
                    }
                }
            } else {
                assert forall|i: int| 0 <= i < s.len() implies (#[trigger] s[i]).name != name by {
                    if i > 0 {
                        assert(t[i - 1] == s[i]);
                    }
                }
            }
        }
    }
}

/// Of merged databases, the first that defines a message is the one that it is decoded with.
pub proof fn law_merged_first_database_wins(dbs: Seq<DbcDatabase>, k: int, can_id: u32)
    requires
        0 <= k < dbs.len(),
        dbs[k].message_for(can_id) is Some,
        forall|j: int| 0 <= j < k ==> (#[trigger] dbs[j]).message_for(can_id) is None,
    ensures
        first_entry(merged_messages(dbs), can_id) == dbs[k].message_for(can_id),
    decreases dbs.len(),
{
    let before = dbs.drop_last();
    law_first_message_wins(merged_messages(before), dbs.last().messages(), can_id);
    if k < before.len() {
        assert(before[k] == dbs[k]);
        assert forall|j: int| 0 <= j < k implies (#[trigger] before[j]).message_for(
            can_id,
        ) is None by {
            assert(before[j] == dbs[j]);
        }
        law_merged_first_database_wins(before, k, can_id);
    } else {
        assert forall|j: int| 0 <= j < before.len() implies (#[trigger] before[j]).message_for(
            can_id,
        ) is None by {
            assert(before[j] == dbs[j]);
        }
        lemma_merged_none(before, can_id);
    }
}

proof fn lemma_merged_none(dbs: Seq<DbcDatabase>, can_id: u32)
    requires
        forall|j: int| 0 <= j < dbs.len() ==> (#[trigger] dbs[j]).message_for(can_id) is None,
    ensures
        first_entry(merged_messages(dbs), can_id) is None,
    decreases dbs.len(),
{
    if dbs.len() > 0 {
        let before = dbs.drop_last();
        assert forall|j: int| 0 <= j < before.len() implies (#[trigger] before[j]).message_for(
            can_id,
        ) is None by {
            assert(before[j] == dbs[j]);
        }
        lemma_merged_none(before, can_id);
        assert(dbs[dbs.len() - 1].message_for(can_id) is None);
        law_first_message_wins(merged_messages(before), dbs.last().messages(), can_id);
    }
}

/// Of merged databases, the first that describes a value gives its description.
pub proof fn law_merged_first_description_wins(
    dbs: Seq<DbcDatabase>,
    k: int,
    can_id: u32,
    signal: Seq<char>,
    raw: int,
)
    requires
        0 <= k < dbs.len(),
        dbs[k].description_for(can_id, signal, raw) is Some,
        forall|j: int|
            0 <= j < k ==> (#[trigger] dbs[j]).description_for(can_id, signal, raw) is None,
    ensures
        first_description(merged_descriptions(dbs), can_id, signal, raw)
            == dbs[k].description_for(can_id, signal, raw),
    decreases dbs.len(),
{
    let before = dbs.drop_last();
    law_first_description_wins(
        merged_descriptions(before),
        dbs.last().value_descriptions(),
        can_id,
        signal,
        raw,
    );
    if k < before.len() {
        assert(before[k] == dbs[k]);
        assert forall|j: int| 0 <= j < k implies (#[trigger] before[j]).description_for(
            can_id,
            signal,
            raw,
        ) is None by {
            assert(before[j] == dbs[j]);
        }
        law_merged_first_description_wins(before, k, can_id, signal, raw);
    } else {
        assert forall|j: int| 0 <= j < before.len() implies (#[trigger] before[j]).description_for(
            can_id,
            signal,
            raw,
        ) is None by {
            assert(before[j] == dbs[j]);
        }
        lemma_merged_undescribed(before, can_id, signal, raw);
    }
}

proof fn lemma_merged_undescribed(
    dbs: Seq<DbcDatabase>,
    can_id: u32,
    signal: Seq<char>,
    raw: int,
)
    requires
        forall|j: int|
            0 <= j < dbs.len() ==> (#[trigger] dbs[j]).description_for(
                can_id,
                signal,
                raw,
            ) is None,
    ensures
        first_description(merged_descriptions(dbs), can_id, signal, raw) is None,
    decreases dbs.len(),
{
    if dbs.len() > 0 {
        let before = dbs.drop_last();
        assert forall|j: int| 0 <= j < before.len() implies (#[trigger] before[j]).description_for(
            can_id,
            signal,
            raw,
        ) is None by {
            assert(before[j] == dbs[j]);
        }
        lemma_merged_undescribed(before, can_id, signal, raw);
        assert(dbs[dbs.len() - 1].description_for(can_id, signal, raw) is None);
        law_first_description_wins(
            merged_descriptions(before),
            dbs.last().value_descriptions(),
            can_id,
            signal,
            raw,
        );
    }
}

/// Of several rows of a file that describe one value the last counts, and a value that no row
/// describes has no description.
pub proof fn law_last_row_counts(
    rows: Seq<DescriptionView>,
    can_id: u32,
    signal: Seq<char>,
    raw: int,
    k: int,
)
    ensures
        0 <= k < rows.len() && rows[k].can_id == can_id && rows[k].signal == signal && rows[k].raw
            == raw && (forall|j: int|
            k < j < rows.len() ==> !((#[trigger] rows[j]).can_id == can_id && rows[j].signal
                == signal && rows[j].raw == raw)) ==> last_description(rows, can_id, signal, raw)
            == Some(rows[k].text),
        (forall|j: int|
            0 <= j < rows.len() ==> !((#[trigger] rows[j]).can_id == can_id && rows[j].signal
                == signal && rows[j].raw == raw)) ==> last_description(rows, can_id, signal, raw)
            is None,
    decreases rows.len(),
{
    if rows.len() > 0 {
        let before = rows.drop_last();
        law_last_row_counts(before, can_id, signal, raw, k);
        assert(rows.last() == rows[rows.len() - 1]);
        assert forall|j: int| 0 <= j < before.len() implies #[trigger] before[j] == rows[j] by {}
    }
}

/// The rows of a file are its described values, signal by signal in file order, each under the
/// number of the signal's message; environment variables add none.
pub proof fn law_rows_of_a_group(groups: Seq<GroupView>, g: GroupView)
    ensures
        g.signal is None ==> file_rows(groups.push(g)) == file_rows(groups),
        g.signal matches Some((id, name)) ==> {
            let rows = file_rows(groups.push(g));
            let old_len = file_rows(groups).len();
            &&& rows.len() == old_len + g.entries.len()
            &&& rows.take(old_len as int) == file_rows(groups)
            &&& forall|i: int|
                0 <= i < g.entries.len() ==> {
                    &&& has_number(id, (#[trigger] rows[old_len + i]).can_id)
                    &&& rows[old_len + i].signal == name
                    &&& rows[old_len + i].raw == g.entries[i].0
                    &&& rows[old_len + i].text == g.entries[i].1
                }
        },
{
    let all = groups.push(g);
    assert(all.drop_last() =~= groups);
    assert(all.last() == g);
    let rows = file_rows(all);
    let old_len = file_rows(groups).len();
    if let Some((id, name)) = g.signal {
        assert(rows == file_rows(groups) + signal_rows(message_key(id), name, g.entries));
        assert(rows.take(old_len as int) =~= file_rows(groups));
    }
}

} // verus!
