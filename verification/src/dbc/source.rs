//! Reading of database files: character encoding and syntax, both by the `can_dbc` crate.

use vstd::prelude::*;

use crate::dbc::types::{
    entry_views, group_views, message_views, signal_views, DbcByteOrder, DbcMessage,
    DbcMessageId, DbcMultiplex, DbcSignal, DbcValueType, DescriptionGroup, GroupView, MessageView,
};
use crate::text;

verus! {

/// A parsed database file of the `can_dbc` crate.
#[verifier::external_type_specification]
#[verifier::external_body]
pub struct ExDbc(can_dbc::Dbc);

/// The messages of a parsed file, in file order.
pub uninterp spec fn dbc_messages(d: can_dbc::Dbc) -> Seq<MessageView>;

/// The value descriptions of a parsed file, in file order.
pub uninterp spec fn dbc_descriptions(d: can_dbc::Dbc) -> Seq<GroupView>;

/// What the text of a database file is parsed to: messages and value descriptions, or the
/// debugging form of the parser's error.
pub uninterp spec fn dbc_outcome(text: Seq<char>) -> Result<
    (Seq<MessageView>, Seq<GroupView>),
    Seq<char>,
>;

/// The text that bytes stand for in the Windows code page 1252, where it is defined for them.
pub uninterp spec fn cp1252_text(bytes: Seq<u8>) -> Option<Seq<char>>;

/// `can_dbc::decode_cp1252`: decodes bytes as code page 1252, or as the encoding that a byte
/// order mark names. The result depends on the bytes alone.
#[verifier::external_body]
fn decode_cp1252(bytes: &[u8]) -> (r: Option<String>)
    ensures
        r is Some == cp1252_text(bytes@) is Some,
        r matches Some(s) ==> s@ == cp1252_text(bytes@)->0,
{
    can_dbc::decode_cp1252(bytes).map(|t| t.into_owned())
}

/// `can_dbc::Dbc::try_from`: parses the text of a database file. The outcome depends on the text
/// alone; an error is handed on in its debugging form.
#[verifier::external_body]
fn parse(text: &str) -> (r: Result<can_dbc::Dbc, String>)
    ensures
        r is Ok == dbc_outcome(text@) is Ok,
        r matches Ok(d) ==> (dbc_messages(d), dbc_descriptions(d)) == dbc_outcome(text@)->Ok_0,
        r matches Err(e) ==> e@ == dbc_outcome(text@)->Err_0,
{
    can_dbc::Dbc::try_from(text).map_err(|e| format!("{:?}", e))
}

/// `can_dbc::Dbc::messages`: the number of messages.
#[verifier::external_body]
fn message_count(d: &can_dbc::Dbc) -> (r: usize)
    ensures
        r == dbc_messages(*d).len(),
{
    d.messages.len()
}

/// The identifier, name and size of message `i` in `can_dbc::Dbc::messages`.
#[verifier::external_body]
fn message_head(d: &can_dbc::Dbc, i: usize) -> (r: (DbcMessageId, String, u64))
    requires
        i < dbc_messages(*d).len(),
    ensures
        r.0 == dbc_messages(*d)[i as int].id,
        r.1@ == dbc_messages(*d)[i as int].name,
        r.2 == dbc_messages(*d)[i as int].size,
{
    let m = &d.messages[i];
    let id = match m.id {
        can_dbc::MessageId::Standard(n) => DbcMessageId::Standard(n),
        can_dbc::MessageId::Extended(n) => DbcMessageId::Extended(n),
    };
    (id, m.name.clone(), m.size)
}

/// The number of signals of message `i` in `can_dbc::Dbc::messages`.
#[verifier::external_body]
fn signal_count(d: &can_dbc::Dbc, i: usize) -> (r: usize)
    requires
        i < dbc_messages(*d).len(),
    ensures
        r == dbc_messages(*d)[i as int].signals.len(),
{
    d.messages[i].signals.len()
}

/// How signal `j` of message `i` takes part in multiplexing.
#[verifier::external_body]
fn signal_multiplex(d: &can_dbc::Dbc, i: usize, j: usize) -> (r: DbcMultiplex)
    requires
        i < dbc_messages(*d).len(),
        j < dbc_messages(*d)[i as int].signals.len(),
    ensures
        r == dbc_messages(*d)[i as int].signals[j as int].multiplex,
{
    match d.messages[i].signals[j].multiplexer_indicator {
        can_dbc::MultiplexIndicator::Plain => DbcMultiplex::Plain,
        can_dbc::MultiplexIndicator::Multiplexor => DbcMultiplex::Multiplexor,
        can_dbc::MultiplexIndicator::MultiplexedSignal(n) => DbcMultiplex::Multiplexed(n),
        can_dbc::MultiplexIndicator::MultiplexorAndMultiplexedSignal(n) => {
            DbcMultiplex::MultiplexorAndMultiplexed(n)
        },
    }
}

/// The bit field of signal `j` of message `i`: start bit, size, byte order and value type.
#[verifier::external_body]
fn signal_field(d: &can_dbc::Dbc, i: usize, j: usize) -> (r: (
    u64,
    u64,
    DbcByteOrder,
    DbcValueType,
))
    requires
        i < dbc_messages(*d).len(),
        j < dbc_messages(*d)[i as int].signals.len(),
    ensures
        r.0 == dbc_messages(*d)[i as int].signals[j as int].start_bit,
        r.1 == dbc_messages(*d)[i as int].signals[j as int].size,
        r.2 == dbc_messages(*d)[i as int].signals[j as int].byte_order,
        r.3 == dbc_messages(*d)[i as int].signals[j as int].value_type,
{
    let s = &d.messages[i].signals[j];
    let order = match s.byte_order {
        can_dbc::ByteOrder::LittleEndian => DbcByteOrder::LittleEndian,
        can_dbc::ByteOrder::BigEndian => DbcByteOrder::BigEndian,
    };
    let kind = match s.value_type {
        can_dbc::ValueType::Signed => DbcValueType::Signed,
        can_dbc::ValueType::Unsigned => DbcValueType::Unsigned,
    };
    (s.start_bit, s.size, order, kind)
}

/// The name, the bit patterns of scale and offset, and the unit of signal `j` of message `i`.
#[verifier::external_body]
fn signal_scale(d: &can_dbc::Dbc, i: usize, j: usize) -> (r: (String, u64, u64, String))
    requires
        i < dbc_messages(*d).len(),
        j < dbc_messages(*d)[i as int].signals.len(),
    ensures
        r.0@ == dbc_messages(*d)[i as int].signals[j as int].name,
        r.1 == dbc_messages(*d)[i as int].signals[j as int].factor_bits,
        r.2 == dbc_messages(*d)[i as int].signals[j as int].offset_bits,
        r.3@ == dbc_messages(*d)[i as int].signals[j as int].unit,
{
    let s = &d.messages[i].signals[j];
    (s.name.clone(), s.factor.to_bits(), s.offset.to_bits(), s.unit.clone())
}

/// `can_dbc::Dbc::value_descriptions`: the number of groups.
#[verifier::external_body]
fn group_count(d: &can_dbc::Dbc) -> (r: usize)
    ensures
        r == dbc_descriptions(*d).len(),
{
    d.value_descriptions.len()
}

/// The signal that group `i` of `can_dbc::Dbc::value_descriptions` is about: message identifier
/// and name; none for an environment variable.
#[verifier::external_body]
fn group_signal(d: &can_dbc::Dbc, i: usize) -> (r: Option<(DbcMessageId, String)>)
    requires
        i < dbc_descriptions(*d).len(),
    ensures
        r is Some == dbc_descriptions(*d)[i as int].signal is Some,
        r matches Some(p) ==> (p.0, p.1@) == dbc_descriptions(*d)[i as int].signal->0,
{
    match &d.value_descriptions[i] {
        can_dbc::ValueDescription::Signal { message_id, name, .. } => match message_id {
            can_dbc::MessageId::Standard(n) => Some((DbcMessageId::Standard(*n), name.clone())),
            can_dbc::MessageId::Extended(n) => Some((DbcMessageId::Extended(*n), name.clone())),
        },
        can_dbc::ValueDescription::EnvironmentVariable { .. } => None,
    }
}

/// The number of described values in group `i` of `can_dbc::Dbc::value_descriptions`.
#[verifier::external_body]
fn entry_count(d: &can_dbc::Dbc, i: usize) -> (r: usize)
    requires
        i < dbc_descriptions(*d).len(),
    ensures
        r == dbc_descriptions(*d)[i as int].entries.len(),
{
    match &d.value_descriptions[i] {
        can_dbc::ValueDescription::Signal { value_descriptions, .. } => value_descriptions.len(),
        can_dbc::ValueDescription::EnvironmentVariable { value_descriptions, .. } => {
            value_descriptions.len()
        },
    }
}

/// Described value `j` of group `i` of `can_dbc::Dbc::value_descriptions`: the raw value and its
/// description.
#[verifier::external_body]
fn entry_at(d: &can_dbc::Dbc, i: usize, j: usize) -> (r: (i64, String))
    requires
        i < dbc_descriptions(*d).len(),
        j < dbc_descriptions(*d)[i as int].entries.len(),
    ensures
        (r.0, r.1@) == dbc_descriptions(*d)[i as int].entries[j as int],
{
    let list = match &d.value_descriptions[i] {
        can_dbc::ValueDescription::Signal { value_descriptions, .. } => value_descriptions,
        can_dbc::ValueDescription::EnvironmentVariable { value_descriptions, .. } => {
            value_descriptions
        },
    };
    (list[j].id, list[j].description.clone())
}

/// The text of a database file: UTF-8 where the bytes are valid, else code page 1252 (common in
/// practice), else UTF-8 with replacements.
pub open spec fn file_text(bytes: Seq<u8>) -> Seq<char> {
    if vstd::utf8::valid_utf8(bytes) {
        vstd::utf8::decode_utf8(bytes)
    } else {
        match cp1252_text(bytes) {
            Some(t) => t,
            None => text::lossy_text(bytes),
        }
    }
}

/// Decodes the bytes of a database file.
pub fn decode_text(bytes: &[u8]) -> (r: String)
    ensures
        r@ == file_text(bytes@),
{
    match text::utf8_text(bytes) {
        Ok(s) => s,
        Err(_) => match decode_cp1252(bytes) {
            Some(s) => s,
            None => text::utf8_lossy(bytes),
        },
    }
}

fn read_signals(d: &can_dbc::Dbc, i: usize) -> (r: Vec<DbcSignal>)
    requires
        i < dbc_messages(*d).len(),
    ensures
        signal_views(r@) == dbc_messages(*d)[i as int].signals,
{
    let n: usize = signal_count(d, i);
    let ghost wanted = dbc_messages(*d)[i as int].signals;
    let mut signals: Vec<DbcSignal> = Vec::new();
    let mut j: usize = 0;
    while j < n
        invariant
            j <= n,
            i < dbc_messages(*d).len(),
            n == wanted.len(),
            wanted == dbc_messages(*d)[i as int].signals,
            signal_views(signals@) == wanted.take(j as int),
        decreases n - j,
    {
        let ghost before = signals@;
        let (name, factor_bits, offset_bits, unit) = signal_scale(d, i, j);
        let (start_bit, size, byte_order, value_type) = signal_field(d, i, j);
        let signal: DbcSignal = DbcSignal {
            name,
            multiplex: signal_multiplex(d, i, j),
            start_bit,
            size,
            byte_order,
            value_type,
            factor_bits,
            offset_bits,
            unit,
        };
        assert(signal@ == wanted[j as int]);
        signals.push(signal);
        assert(signal_views(signals@) =~= signal_views(before).push(wanted[j as int]));
        assert(wanted.take(j + 1) =~= wanted.take(j as int).push(wanted[j as int]));
        j += 1;
    }
    assert(wanted.take(j as int) =~= wanted);
    signals
}

fn read_messages(d: &can_dbc::Dbc) -> (r: Vec<DbcMessage>)
    ensures
        message_views(r@) == dbc_messages(*d),
{
    let n: usize = message_count(d);
    let ghost wanted = dbc_messages(*d);
    let mut messages: Vec<DbcMessage> = Vec::new();
    let mut i: usize = 0;
    while i < n
        invariant
            i <= n,
            n == wanted.len(),
            wanted == dbc_messages(*d),
            message_views(messages@) == wanted.take(i as int),
        decreases n - i,
    {
        let ghost before = messages@;
        let (id, name, size) = message_head(d, i);
        let message: DbcMessage = DbcMessage { id, name, size, signals: read_signals(d, i) };
        assert(message@ == wanted[i as int]);
        messages.push(message);
        assert(message_views(messages@) =~= message_views(before).push(wanted[i as int]));
        assert(wanted.take(i + 1) =~= wanted.take(i as int).push(wanted[i as int]));
        i += 1;
    }
    assert(wanted.take(i as int) =~= wanted);
    messages
}

fn read_entries(d: &can_dbc::Dbc, i: usize) -> (r: Vec<(i64, String)>)
    requires
        i < dbc_descriptions(*d).len(),
    ensures
        entry_views(r@) == dbc_descriptions(*d)[i as int].entries,
{
    let n: usize = entry_count(d, i);
    let ghost wanted = dbc_descriptions(*d)[i as int].entries;
    let mut entries: Vec<(i64, String)> = Vec::new();
    let mut j: usize = 0;
    while j < n
        invariant
            j <= n,
            i < dbc_descriptions(*d).len(),
            n == wanted.len(),
            wanted == dbc_descriptions(*d)[i as int].entries,
            entry_views(entries@) == wanted.take(j as int),
        decreases n - j,
    {
        let ghost before = entries@;
        entries.push(entry_at(d, i, j));
        assert(entry_views(entries@) =~= entry_views(before).push(wanted[j as int]));
        assert(wanted.take(j + 1) =~= wanted.take(j as int).push(wanted[j as int]));
        j += 1;
    }
    assert(wanted.take(j as int) =~= wanted);
    entries
}

fn read_groups(d: &can_dbc::Dbc) -> (r: Vec<DescriptionGroup>)
    ensures
        group_views(r@) == dbc_descriptions(*d),
{
    let n: usize = group_count(d);
    let ghost wanted = dbc_descriptions(*d);
    let mut groups: Vec<DescriptionGroup> = Vec::new();
    let mut i: usize = 0;
    while i < n
        invariant
            i <= n,
            n == wanted.len(),
            wanted == dbc_descriptions(*d),
            group_views(groups@) == wanted.take(i as int),
        decreases n - i,
    {
        let ghost before = groups@;
        let group: DescriptionGroup = DescriptionGroup {
            signal: group_signal(d, i),
            entries: read_entries(d, i),
        };
        assert(group@ == wanted[i as int]);
        groups.push(group);
        assert(group_views(groups@) =~= group_views(before).push(wanted[i as int]));
        assert(wanted.take(i + 1) =~= wanted.take(i as int).push(wanted[i as int]));
        i += 1;
    }
    assert(wanted.take(i as int) =~= wanted);
    groups
}

/// Parses the text of a database file into its messages and value descriptions; the parser's
/// error in its debugging form where it is malformed.
pub fn parse_text(text: &str) -> (r: Result<(Vec<DbcMessage>, Vec<DescriptionGroup>), String>)
    ensures
        r is Ok == dbc_outcome(text@) is Ok,
        r matches Ok(p) ==> (message_views(p.0@), group_views(p.1@)) == dbc_outcome(text@)->Ok_0,
        r matches Err(e) ==> e@ == dbc_outcome(text@)->Err_0,
{
    match parse(text) {
        Ok(d) => Ok((read_messages(&d), read_groups(&d))),
        Err(e) => Err(e),
    }
}

} // verus!
