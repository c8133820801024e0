//! The object browser: which objects are listed, and the commands to read and write them.

use vstd::prelude::*;

use crate::adapters::text_view;
use crate::app::PendingSdo;
use crate::canopen::sdo::{
    encode_value_for_type, encoded_value, hex_bytes, parse_hex_bytes, SdoDirection,
    SdoTransferMode,
};
use crate::eds::{addresses_of, od_key, AccessType, DataType, ObjectDictionary, OdEntry};
use crate::gui::format::{address_text, push_address};
use crate::session::{command_view, CanCommand, CommandView};
use crate::text;

verus! {

// ─── Entered addresses ──────────────────────────────────────────────────────

/// The index that a text gives: in hexadecimal, with or without `0x`; in decimal where it is no
/// hexadecimal number that fits.
pub open spec fn index_number(s: Seq<char>) -> Option<nat> {
    let t = text::trimmed(s);
    if has_prefix(t) {
        text::unsigned_number(t.skip(2), 16, 0xFFFF)
    } else {
        match text::unsigned_number(t, 16, 0xFFFF) {
            Some(n) => Some(n),
            None => text::unsigned_number(t, 10, 0xFFFF),
        }
    }
}

/// Whether a text starts with `0x` or `0X`.
pub open spec fn has_prefix(t: Seq<char>) -> bool {
    t.len() >= 2 && t[0] == '0' && (t[1] == 'x' || t[1] == 'X')
}

/// The subindex that a text gives, in decimal.
pub open spec fn subindex_number(s: Seq<char>) -> Option<nat> {
    text::unsigned_number(text::trimmed(s), 10, 255)
}

/// The message about a text that gives no index.
pub open spec fn bad_index_text(s: Seq<char>) -> Seq<char> {
    if has_prefix(text::trimmed(s)) {
        "Invalid hex index "@ + text::debug_quoted(s)
    } else {
        "Invalid index "@ + text::debug_quoted(s) + " (use hex like 1001 or 0x1001)"@
    }
}

/// The message about a text that gives no subindex.
pub open spec fn bad_subindex_text(s: Seq<char>) -> Seq<char> {
    "Invalid subindex "@ + text::debug_quoted(s) + " (decimal 0\u{2013}255)"@
}

/// The address that two texts give; else what is wrong with them, the index first.
pub open spec fn raw_address(index: Seq<char>, sub: Seq<char>) -> Result<(u16, u8), Seq<char>> {
    match (index_number(index), subindex_number(sub)) {
        (None, _) => Err(bad_index_text(index)),
        (Some(_), None) => Err(bad_subindex_text(sub)),
        (Some(i), Some(s)) => Ok((i as u16, s as u8)),
    }
}

fn parse_index(index_str: &str) -> (r: Result<u16, String>)
    ensures
        r is Ok == index_number(index_str@) is Some,
        r matches Ok(i) ==> index_number(index_str@) == Some(i as nat),
        r matches Err(e) ==> e@ == bad_index_text(index_str@),
{
    let t: Vec<char> = text::trim(index_str);
    let prefixed: bool = t.len() >= 2 && t[0] == '0' && (t[1] == 'x' || t[1] == 'X');
    if prefixed {
        let digits: &[char] = vstd::slice::slice_subrange(t.as_slice(), 2, t.len());
        assert(digits@ =~= t@.skip(2));
        match text::parse_unsigned(digits, 16, 0xFFFF) {
            Some(n) => Ok(n as u16),
            None => {
                let quoted: String = text::debug_text(index_str);
                Err(text::join2("Invalid hex index ", quoted.as_str()))
            },
        }
    } else {
        match text::parse_unsigned(t.as_slice(), 16, 0xFFFF) {
            Some(n) => Ok(n as u16),
            None => match text::parse_unsigned(t.as_slice(), 10, 0xFFFF) {
                Some(n) => Ok(n as u16),
                None => {
                    let quoted: String = text::debug_text(index_str);
                    let mut m: String = text::join2("Invalid index ", quoted.as_str());
                    text::push_str(&mut m, " (use hex like 1001 or 0x1001)");
                    Err(m)
                },
            },
        }
    }
}

/// Parses an index and a subindex.
pub fn parse_raw_index_sub(index_str: &str, sub_str: &str) -> (r: Result<(u16, u8), String>)
    ensures
        r is Ok == raw_address(index_str@, sub_str@) is Ok,
        r matches Ok(a) ==> raw_address(index_str@, sub_str@) == Ok::<(u16, u8), Seq<char>>(a),
        r matches Err(e) ==> raw_address(index_str@, sub_str@) == Err::<(u16, u8), Seq<char>>(e@),
{
    let index: u16 = match parse_index(index_str) {
        Ok(i) => i,
        Err(e) => {
            return Err(e);
        },
    };
    let t: Vec<char> = text::trim(sub_str);
    match text::parse_unsigned(t.as_slice(), 10, 255) {
        Some(n) => Ok((index, n as u8)),
        None => {
            let quoted: String = text::debug_text(sub_str);
            let mut m: String = text::join2("Invalid subindex ", quoted.as_str());
            text::push_str(&mut m, " (decimal 0\u{2013}255)");
            Err(m)
        },
    }
}

// ─── Listing ────────────────────────────────────────────────────────────────

/// An index in lower-case hexadecimal with four digits.
pub open spec fn lower_index(index: u16) -> Seq<char> {
    text::padded(text::numeral(index as nat, 16, false), 4, '0')
}

/// Whether an object is listed: its name, in lower case, or its index contains the filter.
pub open spec fn passes(filter: Seq<char>, index: u16, name: Seq<char>) -> bool {
    ||| filter.len() == 0
    ||| text::occurs(filter, text::lowercase(name))
    ||| text::occurs(filter, lower_index(index))
    ||| text::occurs(filter, text::hex_padded(index as nat, 4))
}

fn object_passes(filter: &[char], index: u16, name: &str) -> (r: bool)
    ensures
        r == passes(filter@, index, name@),
{
    if filter.len() == 0 {
        return true;
    }
    let low: String = text::to_lowercase(name);
    let n: Vec<char> = text::chars_of(low.as_str());
    if text::contains(n.as_slice(), filter) {
        return true;
    }
    let d: Vec<char> = text::write_numeral(index as u64, 16, false);
    let p: Vec<char> = text::write_padded(d.as_slice(), 4, '0');
    if text::contains(p.as_slice(), filter) {
        return true;
    }
    let d: Vec<char> = text::write_numeral(index as u64, 16, true);
    let p: Vec<char> = text::write_padded(d.as_slice(), 4, '0');
    text::contains(p.as_slice(), filter)
}

/// The listed objects with one index.
#[derive(Debug)]
pub struct OdGroup {
    pub index: u16,
    /// Name of the group: that of its first object.
    pub name: String,
    pub subs: Vec<u8>,
}

/// Whether an object is in the dictionary and passes the filter.
pub open spec fn is_listed(od: Map<(u16, u8), OdEntry>, filter: Seq<char>, key: (u16, u8)) -> bool {
    od.contains_key(key) && passes(filter, key.0, od[key].name@)
}

/// Whether an object stands in one of the groups.
pub open spec fn in_groups(groups: Seq<OdGroup>, key: (u16, u8)) -> bool {
    exists|g: int|
        0 <= g < groups.len() && (#[trigger] groups[g]).index == key.0 && groups[g].subs@.contains(
            key.1,
        )
}

/// Whether groups hold the objects that pass the filter, by index and then by subindex.
pub open spec fn is_grouping(
    od: Map<(u16, u8), OdEntry>,
    filter: Seq<char>,
    groups: Seq<OdGroup>,
) -> bool {
    &&& forall|key: (u16, u8)| #[trigger] in_groups(groups, key) == is_listed(od, filter, key)
    &&& forall|g: int, h: int|
        0 <= g < h < groups.len() ==> (#[trigger] groups[g]).index < (#[trigger] groups[h]).index
    &&& forall|g: int| 0 <= g < groups.len() ==> group_wf(od, #[trigger] groups[g])
}

/// Whether a group has objects, in order, and the name of the first.
pub open spec fn group_wf(od: Map<(u16, u8), OdEntry>, g: OdGroup) -> bool {
    &&& g.subs@.len() > 0
    &&& forall|a: int, b: int|
        0 <= a < b < g.subs@.len() ==> (#[trigger] g.subs@[a]) < (#[trigger] g.subs@[b])
    &&& g.name@ == od[(g.index, g.subs@[0])].name@
}

/// Lists the objects that pass a filter, in groups with the same index. The filter is compared
/// in lower case.
pub fn browse(od: &ObjectDictionary, filter_str: &str) -> (r: Vec<OdGroup>)
    ensures
        is_grouping(od@, text::lowercase(filter_str@), r@),
{
    let low: String = text::to_lowercase(filter_str);
    let filter: Vec<char> = text::chars_of(low.as_str());
    let all: Vec<(u16, u8)> = od.addresses();
    let mut groups: Vec<OdGroup> = Vec::new();
    let mut i: usize = 0;
    while i < all.len()
        invariant
            i <= all@.len(),
            filter@ == text::lowercase(filter_str@),
            addresses_of(od@, all@),
            forall|key: (u16, u8)| #[trigger]
                in_groups(groups@, key) == (is_listed(od@, filter@, key) && exists|j: int|
                    0 <= j < i && #[trigger] all@[j] == key),
            forall|g: int, h: int|
                0 <= g < h < groups@.len() ==> (#[trigger] groups@[g]).index < (
                #[trigger] groups@[h]).index,
            forall|g: int| 0 <= g < groups@.len() ==> group_wf(od@, #[trigger] groups@[g]),
            forall|g: int, b: int, j: int|
                0 <= g < groups@.len() && 0 <= b < groups@[g].subs@.len() && i <= j < all@.len()
                    ==> od_key(((#[trigger] groups@[g]).index, #[trigger] groups@[g].subs@[b]))
                    < od_key(#[trigger] all@[j]),
        decreases all@.len() - i,
    {
        let key: (u16, u8) = all[i];
        let ghost before = groups@;
        assert(od@.contains_key(key)) by {
            assert(all@.contains(all@[i as int]));
        }
        match od.get(&key) {
            Some(e) => {
                if object_passes(filter.as_slice(), key.0, e.name.as_str()) {
                    let n: usize = groups.len();
                    if n > 0 && groups[n - 1].index == key.0 {
                        let ghost subs = groups@[n - 1].subs@;
                        groups[n - 1].subs.push(key.1);
                        proof {
                            let last = groups@[n - 1];
                            assert(last.subs@ =~= subs.push(key.1));
                            assert forall|b: int| 0 <= b < subs.len() implies subs[b] < key.1 by {
                                assert(od_key((before[n - 1].index, before[n - 1].subs@[b]))
                                    < od_key(all@[i as int]));
                            }
                            assert(group_wf(od@, before[n - 1]));
                            assert(group_wf(od@, last));
                            assert forall|g: int| 0 <= g < groups@.len() implies group_wf(
                                od@,
                                #[trigger] groups@[g],
                            ) by {
                                if g < n - 1 {
                                    assert(groups@[g] == before[g]);
                                }
                            }
                            lemma_added(before, groups@, n - 1, key);
                        }
                    } else {
                        let mut subs: Vec<u8> = Vec::new();
                        subs.push(key.1);
                        groups.push(OdGroup { index: key.0, name: e.name.clone(), subs });
                        proof {
                            let last = groups@[n as int];
                            assert(group_wf(od@, last));
                            assert forall|g: int| 0 <= g < n implies (
                            #[trigger] groups@[g]).index < key.0 by {
                                assert(groups@[g] == before[g]);
                                assert(group_wf(od@, before[g]));
                                assert(od_key((before[g].index, before[g].subs@[0])) < od_key(
                                    all@[i as int],
                                ));
                                if g < n - 1 {
                                    assert(before[g].index < before[n - 1].index);
                                    assert(group_wf(od@, before[n - 1]));
                                    assert(od_key((before[n - 1].index, before[n - 1].subs@[0]))
                                        < od_key(all@[i as int]));
                                }
                            }
                            lemma_added(before, groups@, n as int, key);
                        }
                    }
                }
            },
            None => {},
        }
        proof {
            assert forall|k: (u16, u8)| #[trigger]
                in_groups(groups@, k) == (is_listed(od@, filter@, k) && exists|j: int|
                    0 <= j < i + 1 && #[trigger] all@[j] == k) by {
                let was = exists|j: int| 0 <= j < i && #[trigger] all@[j] == k;
                assert(in_groups(before, k) == (is_listed(od@, filter@, k) && was));
                if k == key {
                    assert(all@[i as int] == k);
                } else {
                    if exists|j: int| 0 <= j < i + 1 && #[trigger] all@[j] == k {
                        let j = choose|j: int| 0 <= j < i + 1 && #[trigger] all@[j] == k;
                        assert(j < i);
                        assert(was);
                    }
                }
            }
            assert forall|g: int, b: int, j: int|
                0 <= g < groups@.len() && 0 <= b < groups@[g].subs@.len() && i + 1 <= j
                    < all@.len() implies od_key(
                ((#[trigger] groups@[g]).index, #[trigger] groups@[g].subs@[b]),
            ) < od_key(#[trigger] all@[j]) by {
                assert(od_key(all@[i as int]) < od_key(all@[j]));
                let k = (groups@[g].index, groups@[g].subs@[b]);
                assert(groups@[g].subs@.contains(groups@[g].subs@[b]));
                assert(in_groups(groups@, k));
                let m = choose|m: int| 0 <= m < i + 1 && #[trigger] all@[m] == k;
                assert(od_key(all@[m]) < od_key(all@[j]));
            }
        }
        i += 1;
    }
    proof {
        assert forall|key: (u16, u8)| #[trigger]
            in_groups(groups@, key) == is_listed(od@, filter@, key) by {
            if is_listed(od@, filter@, key) {
                assert(all@.contains(key));
                let j = choose|j: int| 0 <= j < all@.len() && all@[j] == key;
                assert(all@[j] == key);
            }
        }
    }
    groups
}

/// An object that was put into a group is in the groups, and no other is new.
proof fn lemma_added(before: Seq<OdGroup>, after: Seq<OdGroup>, g: int, key: (u16, u8))
    requires
        0 <= g < after.len(),
        after.len() == before.len() || (after.len() == before.len() + 1 && g == before.len()),
        forall|h: int| 0 <= h < before.len() && h != g ==> after[h] == before[h],
        after[g].index == key.0,
        g < before.len() ==> before[g].index == key.0 && after[g].subs@ == before[g].subs@.push(
            key.1,
        ),
        g == before.len() ==> after[g].subs@ == seq![key.1],
    ensures
        forall|k: (u16, u8)| #[trigger] in_groups(after, k) == (in_groups(before, k) || k == key),
{
    assert forall|k: (u16, u8)| #[trigger]
        in_groups(after, k) == (in_groups(before, k) || k == key) by {
        if k == key {
            assert(after[g].subs@[after[g].subs@.len() - 1] == key.1);
            assert(after[g].index == k.0 && after[g].subs@.contains(k.1));
        }
        if in_groups(before, k) {
            let h = choose|h: int|
                0 <= h < before.len() && (#[trigger] before[h]).index == k.0
                    && before[h].subs@.contains(k.1);
            let b = choose|b: int| 0 <= b < before[h].subs@.len() && before[h].subs@[b] == k.1;
            assert(after[h].subs@[b] == k.1);
            assert(after[h].index == k.0 && after[h].subs@.contains(k.1));
        }
        if in_groups(after, k) && k != key {
            let h = choose|h: int|
                0 <= h < after.len() && (#[trigger] after[h]).index == k.0
                    && after[h].subs@.contains(k.1);
            let b = choose|b: int| 0 <= b < after[h].subs@.len() && after[h].subs@[b] == k.1;
            if h == g {
                if g < before.len() {
                    assert(b < before[g].subs@.len());
                    assert(before[g].subs@[b] == k.1);
                    assert(before[h].index == k.0 && before[h].subs@.contains(k.1));
                }
            } else {
                assert(before[h].index == k.0 && before[h].subs@.contains(k.1));
            }
        }
    }
}

// ─── Texts ──────────────────────────────────────────────────────────────────

/// Access rights as they are listed.
pub open spec fn access_text(access: AccessType) -> Seq<char> {
    match access {
        AccessType::ReadOnly => "RO"@,
        AccessType::Const => "RO"@,
        AccessType::WriteOnly => "WO"@,
        AccessType::ReadWrite => "R/W"@,
        AccessType::Unknown => "?"@,
    }
}

/// Access rights as they are listed.
pub fn access_label(access: &AccessType) -> (r: &'static str)
    ensures
        r@ == access_text(*access),
{
    match access {
        AccessType::ReadOnly => "RO",
        AccessType::Const => "RO",
        AccessType::WriteOnly => "WO",
        AccessType::ReadWrite => "R/W",
        AccessType::Unknown => "?",
    }
}

/// Whether an object can be read.
pub fn can_read(access: &AccessType) -> (r: bool)
    ensures
        r == !(access is WriteOnly),
{
    match access {
        AccessType::WriteOnly => false,
        _ => true,
    }
}

/// Whether an object can be written.
pub fn can_write(access: &AccessType) -> (r: bool)
    ensures
        r == !(access is ReadOnly || access is Const),
{
    match access {
        AccessType::ReadOnly => false,
        AccessType::Const => false,
        _ => true,
    }
}

/// What is to be entered for a data type.
pub open spec fn hint_text(dtype: DataType) -> Seq<char> {
    match dtype {
        DataType::Boolean => "true / false"@,
        DataType::Integer8 => "-128 \u{2026} 127"@,
        DataType::Integer16 => "-32768 \u{2026} 32767"@,
        DataType::Integer32 => "-2147483648 \u{2026} 2147483647"@,
        DataType::Integer64 => "signed 64-bit"@,
        DataType::Unsigned8 => "0 \u{2026} 255"@,
        DataType::Unsigned16 => "0 \u{2026} 65535  or  0x\u{2026}"@,
        DataType::Unsigned32 => "0 \u{2026} 4294967295  or  0x\u{2026}"@,
        DataType::Unsigned64 => "unsigned 64-bit  or  0x\u{2026}"@,
        DataType::Real32 => "e.g. 3.14"@,
        DataType::Real64 => "e.g. 3.141592"@,
        DataType::VisibleString => "text string"@,
        DataType::OctetString => "hex bytes: 01 02 \u{2026}"@,
        DataType::Unknown(_) => "hex bytes: 01 02 \u{2026}"@,
    }
}

/// What is to be entered for a data type.
pub fn value_hint_for_type(dtype: &DataType) -> (r: &'static str)
    ensures
        r@ == hint_text(*dtype),
{
    match dtype {
        DataType::Boolean => "true / false",
        DataType::Integer8 => "-128 \u{2026} 127",
        DataType::Integer16 => "-32768 \u{2026} 32767",
        DataType::Integer32 => "-2147483648 \u{2026} 2147483647",
        DataType::Integer64 => "signed 64-bit",
        DataType::Unsigned8 => "0 \u{2026} 255",
        DataType::Unsigned16 => "0 \u{2026} 65535  or  0x\u{2026}",
        DataType::Unsigned32 => "0 \u{2026} 4294967295  or  0x\u{2026}",
        DataType::Unsigned64 => "unsigned 64-bit  or  0x\u{2026}",
        DataType::Real32 => "e.g. 3.14",
        DataType::Real64 => "e.g. 3.141592",
        DataType::VisibleString => "text string",
        DataType::OctetString => "hex bytes: 01 02 \u{2026}",
        DataType::Unknown(_) => "hex bytes: 01 02 \u{2026}",
    }
}

/// What is said of a transfer that was started and not answered.
pub open spec fn pending_text(p: PendingSdo) -> Seq<char> {
    "\u{23f3} Waiting for "@ + (match p.direction {
        SdoDirection::Read => "READ "@,
        SdoDirection::Write => "WRITE "@,
    }) + address_text(p.index, p.subindex) + "\u{2026}"@
}

/// What is said of a transfer that was started and not answered.
pub fn pending_label(p: &PendingSdo) -> (r: String)
    ensures
        r@ == pending_text(*p),
{
    let mut s: String = "\u{23f3} Waiting for ".to_owned();
    match p.direction {
        SdoDirection::Read => {
            text::push_str(&mut s, "READ ");
        },
        SdoDirection::Write => {
            text::push_str(&mut s, "WRITE ");
        },
    }
    push_address(&mut s, p.index, p.subindex);
    text::push_str(&mut s, "\u{2026}");
    s
}

/// The heading of a group.
pub open spec fn group_text(index: u16, name: Seq<char>) -> Seq<char> {
    text::hex_padded(index as nat, 4) + "h  "@ + name
}

/// Writes the heading of a group.
pub fn group_heading(index: u16, name: &str) -> (r: String)
    ensures
        r@ == group_text(index, name@),
{
    let mut s: String = String::new();
    text::push_hex(&mut s, index as u64, 4);
    text::push_str(&mut s, "h  ");
    text::push_str(&mut s, name);
    assert(s@ =~= group_text(index, name@));
    s
}

// ─── Panel ──────────────────────────────────────────────────────────────────

/// The state of the browser.
#[derive(Debug)]
pub struct SdoBrowserPanel {
    /// Which node is selected.
    pub selected_node_idx: usize,
    /// Addresses are entered, not chosen from the dictionary.
    pub raw_mode: bool,
    pub filter_str: String,
    pub selected_od_key: Option<(u16, u8)>,
    pub write_value_str: String,
    pub raw_index_str: String,
    pub raw_subindex_str: String,
    pub raw_data_str: String,
    /// What was wrong with the last command.
    pub last_error: Option<String>,
}

/// The mathematical value of an [`SdoBrowserPanel`].
pub struct PanelView {
    pub selected_node_idx: usize,
    pub raw_mode: bool,
    pub filter_str: Seq<char>,
    pub selected_od_key: Option<(u16, u8)>,
    pub write_value_str: Seq<char>,
    pub raw_index_str: Seq<char>,
    pub raw_subindex_str: Seq<char>,
    pub raw_data_str: Seq<char>,
    pub last_error: Option<Seq<char>>,
}

impl Default for SdoBrowserPanel {
    fn default() -> (r: Self)
        ensures
            r@ == (PanelView {
                selected_node_idx: 0,
                raw_mode: false,
                filter_str: seq![],
                selected_od_key: None,
                write_value_str: seq![],
                raw_index_str: seq![],
                raw_subindex_str: "0"@,
                raw_data_str: seq![],
                last_error: None,
            }),
    {
        let r = SdoBrowserPanel {
            selected_node_idx: 0,
            raw_mode: false,
            filter_str: String::new(),
            selected_od_key: None,
            write_value_str: String::new(),
            raw_index_str: String::new(),
            raw_subindex_str: "0".to_owned(),
            raw_data_str: String::new(),
            last_error: None,
        };
        assert(r@.filter_str =~= seq![]);
        assert(r@.write_value_str =~= seq![]);
        assert(r@.raw_index_str =~= seq![]);
        assert(r@.raw_data_str =~= seq![]);
        r
    }
}

/// The command to read the entered address, or what is wrong with it.
pub open spec fn raw_read_command(p: PanelView, node_id: u8) -> Result<CommandView, Seq<char>> {
    match raw_address(p.raw_index_str, p.raw_subindex_str) {
        Ok(a) => Ok(
            CommandView::SdoRead {
                node_id,
                index: a.0,
                subindex: a.1,
                mode: SdoTransferMode::Auto,
            },
        ),
        Err(e) => Err(e),
    }
}

/// The command to write the entered bytes to the entered address, or what is wrong with them.
pub open spec fn raw_write_command(p: PanelView, node_id: u8) -> Result<CommandView, Seq<char>> {
    match raw_address(p.raw_index_str, p.raw_subindex_str) {
        Ok(a) => match hex_bytes(p.raw_data_str) {
            Ok(data) => Ok(
                CommandView::SdoWrite {
                    node_id,
                    index: a.0,
                    subindex: a.1,
                    data,
                    mode: SdoTransferMode::Auto,
                },
            ),
            Err(e) => Err(e),
        },
        Err(e) => Err(e),
    }
}

/// The command to write the entered value to an object, or what is wrong with it.
pub open spec fn object_write_command(
    p: PanelView,
    node_id: u8,
    key: (u16, u8),
    dtype: DataType,
    float_bits: Option<u64>,
) -> Result<CommandView, Seq<char>> {
    match encoded_value(p.write_value_str, dtype, float_bits) {
        Ok(data) => Ok(
            CommandView::SdoWrite {
                node_id,
                index: key.0,
                subindex: key.1,
                data,
                mode: SdoTransferMode::Auto,
            },
        ),
        Err(e) => Err(e),
    }
}

/// Whether a command is given, or else the error is kept.
pub open spec fn gives(
    before: PanelView,
    after: PanelView,
    command: Option<CanCommand>,
    wanted: Result<CommandView, Seq<char>>,
) -> bool {
    match wanted {
        Ok(c) => command_view(command) == Some(c) && after == (PanelView {
            last_error: None,
            ..before
        }),
        Err(e) => command is None && after == (PanelView { last_error: Some(e), ..before }),
    }
}

impl SdoBrowserPanel {
    /// The panel over views.
    pub open spec fn view(&self) -> PanelView {
        PanelView {
            selected_node_idx: self.selected_node_idx,
            raw_mode: self.raw_mode,
            filter_str: self.filter_str@,
            selected_od_key: self.selected_od_key,
            write_value_str: self.write_value_str@,
            raw_index_str: self.raw_index_str@,
            raw_subindex_str: self.raw_subindex_str@,
            raw_data_str: self.raw_data_str@,
            last_error: text_view(self.last_error),
        }
    }

    /// Keeps the selected node within the list of nodes.
    pub fn clamp_node(&mut self, node_count: usize)
        requires
            node_count > 0,
        ensures
            final(self)@ == (PanelView {
                selected_node_idx: if old(self)@.selected_node_idx < node_count {
                    old(self)@.selected_node_idx
                } else {
                    (node_count - 1) as usize
                },
                ..old(self)@
            }),
    {
        if self.selected_node_idx >= node_count {
            self.selected_node_idx = node_count - 1;
        }
    }

    /// Selects a node. Where it is another one than before, no object is selected any more.
    pub fn select_node(&mut self, idx: usize)
        ensures
            final(self)@ == (if idx == old(self)@.selected_node_idx {
                old(self)@
            } else {
                PanelView {
                    selected_node_idx: idx,
                    selected_od_key: None,
                    write_value_str: seq![],
                    last_error: None,
                    ..old(self)@
                }
            }),
    {
        if idx != self.selected_node_idx {
            self.selected_node_idx = idx;
            self.selected_od_key = None;
            self.write_value_str = String::new();
            self.last_error = None;
            assert(self@.write_value_str =~= seq![]);
        }
    }

    /// Chooses between the dictionary and entered addresses. There is no dictionary to choose from
    /// where the node has none.
    pub fn set_mode(&mut self, raw: bool, has_od: bool)
        ensures
            final(self)@ == (if raw || has_od {
                PanelView { raw_mode: raw, last_error: None, ..old(self)@ }
            } else {
                old(self)@
            }),
    {
        if raw || has_od {
            self.raw_mode = raw;
            self.last_error = None;
        }
    }

    /// Falls back to entered addresses where the node has no dictionary.
    pub fn settle_mode(&mut self, has_od: bool)
        ensures
            final(self)@ == (PanelView {
                raw_mode: old(self)@.raw_mode || !has_od,
                ..old(self)@
            }),
    {
        if !has_od && !self.raw_mode {
            self.raw_mode = true;
        }
    }

    /// Selects an object, or none where it is selected already.
    pub fn select_object(&mut self, key: (u16, u8))
        ensures
            final(self)@ == (if old(self)@.selected_od_key == Some(key) {
                PanelView { selected_od_key: None, ..old(self)@ }
            } else {
                PanelView {
                    selected_od_key: Some(key),
                    write_value_str: seq![],
                    last_error: None,
                    ..old(self)@
                }
            }),
    {
        let same: bool = match self.selected_od_key {
            Some(k) => k.0 == key.0 && k.1 == key.1,
            None => false,
        };
        if same {
            self.selected_od_key = None;
        } else {
            self.selected_od_key = Some(key);
            self.write_value_str = String::new();
            self.last_error = None;
            assert(self@.write_value_str =~= seq![]);
        }
    }

    /// Whether the entered address can be read and written: nothing is awaited, and an index is
    /// entered.
    pub fn raw_enabled(&self, pending: bool) -> (r: bool)
        ensures
            r == (!pending && text::trimmed(self@.raw_index_str).len() > 0),
    {
        !pending && text::trim(self.raw_index_str.as_str()).len() > 0
    }

    /// Gives the command to read the entered address.
    pub fn raw_read(&mut self, node_id: u8) -> (r: Option<CanCommand>)
        ensures
            gives(old(self)@, final(self)@, r, raw_read_command(old(self)@, node_id)),
    {
        match parse_raw_index_sub(self.raw_index_str.as_str(), self.raw_subindex_str.as_str()) {
            Ok((index, subindex)) => {
                self.last_error = None;
                Some(
                    CanCommand::SdoRead { node_id, index, subindex, mode: SdoTransferMode::Auto },
                )
            },
            Err(e) => {
                self.last_error = Some(e);
                None
            },
        }
    }

    /// Gives the command to write the entered bytes to the entered address.
    pub fn raw_write(&mut self, node_id: u8) -> (r: Option<CanCommand>)
        ensures
            gives(old(self)@, final(self)@, r, raw_write_command(old(self)@, node_id)),
    {
        match parse_raw_index_sub(self.raw_index_str.as_str(), self.raw_subindex_str.as_str()) {
            Ok((index, subindex)) => match parse_hex_bytes(self.raw_data_str.as_str()) {
                Ok(data) => {
                    self.last_error = None;
                    Some(
                        CanCommand::SdoWrite {
                            node_id,
                            index,
                            subindex,
                            data,
                            mode: SdoTransferMode::Auto,
                        },
                    )
                },
                Err(e) => {
                    self.last_error = Some(e);
                    None
                },
            },
            Err(e) => {
                self.last_error = Some(e);
                None
            },
        }
    }

    /// Gives the command to read an object.
    pub fn object_read(&mut self, node_id: u8, key: (u16, u8)) -> (r: CanCommand)
        ensures
            r@ == (CommandView::SdoRead {
                node_id,
                index: key.0,
                subindex: key.1,
                mode: SdoTransferMode::Auto,
            }),
            final(self)@ == (PanelView { last_error: None, ..old(self)@ }),
    {
        self.last_error = None;
        CanCommand::SdoRead {
            node_id,
            index: key.0,
            subindex: key.1,
            mode: SdoTransferMode::Auto,
        }
    }

    /// Gives the command to write the entered value to an object. `float_bits` is the number that
    /// the value writes, where the object is a floating-point one.
    pub fn object_write(
        &mut self,
        node_id: u8,
        key: (u16, u8),
        dtype: &DataType,
        float_bits: Option<u64>,
    ) -> (r: Option<CanCommand>)
        ensures
            gives(
                old(self)@,
                final(self)@,
                r,
                object_write_command(old(self)@, node_id, key, *dtype, float_bits),
            ),
    {
        match encode_value_for_type(self.write_value_str.as_str(), dtype, float_bits) {
            Ok(data) => {
                self.last_error = None;
                Some(
                    CanCommand::SdoWrite {
                        node_id,
                        index: key.0,
                        subindex: key.1,
                        data,
                        mode: SdoTransferMode::Auto,
                    },
                )
            },
            Err(e) => {
                self.last_error = Some(e);
                None
            },
        }
    }
}

// ─── Laws ───────────────────────────────────────────────────────────────────

/// Without a filter every object of the dictionary is listed.
pub proof fn law_empty_filter_lists_all(od: Map<(u16, u8), OdEntry>, groups: Seq<OdGroup>)
    requires
        is_grouping(od, seq![], groups),
    ensures
        forall|key: (u16, u8)| #[trigger] in_groups(groups, key) == od.contains_key(key),
{
}

/// An index is read in hexadecimal, with `0x` before it or without, in any number of digits; a
/// subindex in decimal.
pub proof fn law_address_read(index: u16, subindex: u8, width: nat)
    ensures
        raw_address(text::hex_padded(index as nat, width), text::decimal(subindex as nat)) == Ok::<
            (u16, u8),
            Seq<char>,
        >((index, subindex)),
        raw_address(
            seq!['0', 'x'] + text::hex_padded(index as nat, width),
            text::decimal(subindex as nat),
        ) == Ok::<(u16, u8), Seq<char>>((index, subindex)),
{
    let h = text::hex_padded(index as nat, width);
    let p = seq!['0', 'x'] + h;
    let x = text::numeral(index as nat, 16, true);
    text::lemma_numerals_not_spaced(subindex as nat, 10, width);
    text::lemma_numerals_not_spaced(index as nat, 16, width);
    text::law_decimal_notation(subindex as nat, 255);
    text::law_hex_width(index as nat, width);
    text::law_numeral_read_back(index as nat, 16, true);
    assert(p.skip(2) =~= h);
    assert(text::digit_value(h[0], 16) is Some);
    assert(text::digit_value(h[h.len() - 1], 16) is Some);
    if h.len() >= 2 {
        assert(text::digit_value(h[1], 16) is Some);
    }
    lemma_digit_not_space(h[0]);
    lemma_digit_not_space(h[h.len() - 1]);
    text::lemma_trimmed_same(h);
}

proof fn lemma_digit_not_space(c: char)
    requires
        text::digit_value(c, 16) is Some,
    ensures
        !text::is_white_space(c),
        c != '+',
{
}

/// The commands that the panel gives name the node, the address that was entered or chosen, and the
/// bytes that were entered.
pub proof fn law_commands_name_the_address(
    p: PanelView,
    node_id: u8,
    key: (u16, u8),
    dtype: DataType,
)
    ensures
        raw_read_command(p, node_id) matches Ok(CommandView::SdoRead {
            node_id: n,
            index,
            subindex,
            mode,
        }) ==> n == node_id && raw_address(p.raw_index_str, p.raw_subindex_str) == Ok::<
            (u16, u8),
            Seq<char>,
        >((index, subindex)) && mode == SdoTransferMode::Auto,
        raw_read_command(p, node_id) is Ok == raw_address(p.raw_index_str, p.raw_subindex_str) is Ok,
        raw_write_command(p, node_id) matches Ok(c) ==> (c matches CommandView::SdoWrite {
            node_id: n,
            index,
            subindex,
            data,
            mode,
        } && n == node_id && raw_address(p.raw_index_str, p.raw_subindex_str) == Ok::<
            (u16, u8),
            Seq<char>,
        >((index, subindex)) && hex_bytes(p.raw_data_str) == Ok::<Seq<u8>, Seq<char>>(data)),
        object_write_command(p, node_id, key, dtype, None) matches Ok(c) ==> (
        c matches CommandView::SdoWrite { node_id: n, index, subindex, data, mode } && n == node_id
            && index == key.0 && subindex == key.1 && encoded_value(p.write_value_str, dtype, None)
            == Ok::<Seq<u8>, Seq<char>>(data)),
{
}

/// An object is found by its index in hexadecimal, whatever the case of the filter, and by every
/// part of it.
pub proof fn law_found_by_index(index: u16, name: Seq<char>, from: int, to: int)
    requires
        0 <= from <= to <= 4,
    ensures
        text::hex_padded(index as nat, 4).len() == 4,
        passes(text::hex_padded(index as nat, 4).subrange(from, to), index, name),
        passes(lower_index(index).subrange(from, to), index, name),
{
    lemma_four_digits(index);
    let u = text::hex_padded(index as nat, 4);
    let l = lower_index(index);
    let a = u.subrange(from, to);
    let b = l.subrange(from, to);
    assert(u.subrange(from, from + a.len()) == a);
    assert(l.subrange(from, from + b.len()) == b);
}

proof fn lemma_four_digits(index: u16)
    ensures
        text::hex_padded(index as nat, 4).len() == 4,
        lower_index(index).len() == 4,
{
    reveal_with_fuel(text::numeral, 4);
}

} // verus!
