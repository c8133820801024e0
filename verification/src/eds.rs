//! The object dictionary of a CANopen device, as described by its EDS file.

use std::collections::BTreeMap;

use vstd::prelude::*;

use crate::text;

verus! {

broadcast use vstd::std_specs::btree::group_btree_axioms;

/// CANopen basic data types.
#[derive(Clone, Copy, Debug, PartialEq, Eq, Structural)]
pub enum DataType {
    Boolean,
    Integer8,
    Integer16,
    Integer32,
    Integer64,
    Unsigned8,
    Unsigned16,
    Unsigned32,
    Unsigned64,
    Real32,
    Real64,
    VisibleString,
    OctetString,
    /// Any other data type code.
    Unknown(u16),
}

/// Access rights of an object.
#[derive(Clone, Copy, Debug, PartialEq, Eq, Structural)]
pub enum AccessType {
    ReadOnly,
    WriteOnly,
    ReadWrite,
    Const,
    Unknown,
}

/// One entry of the object dictionary.
#[derive(Clone, Debug)]
pub struct OdEntry {
    pub name: String,
    pub data_type: DataType,
    pub access: AccessType,
    pub default_value: Option<String>,
}

/// All entries of a device, by index and subindex.
pub struct ObjectDictionary {
    entries: BTreeMap<u32, OdEntry>,
}

/// The number under which an object is filed: index, then subindex.
pub open spec fn od_key(k: (u16, u8)) -> u32 {
    (k.0 * 0x100 + k.1) as u32
}

/// The index and subindex filed under a number.
pub open spec fn od_address(n: u32) -> (u16, u8) {
    ((n / 0x100) as u16, (n % 0x100) as u8)
}

impl ObjectDictionary {
    /// The entries as a map from index and subindex.
    pub closed spec fn view(&self) -> Map<(u16, u8), OdEntry> {
        Map::new(
            |k: (u16, u8)| self.entries@.contains_key(od_key(k)),
            |k: (u16, u8)| self.entries@[od_key(k)],
        )
    }

    /// An empty dictionary.
    pub fn new() -> (r: Self)
        ensures
            r@ == Map::<(u16, u8), OdEntry>::empty(),
    {
        ObjectDictionary { entries: BTreeMap::new() }
    }

    /// Files an entry, replacing one at the same address.
    pub fn insert(&mut self, key: (u16, u8), entry: OdEntry)
        ensures
            final(self)@ == old(self)@.insert(key, entry),
    {
        let n: u32 = key.0 as u32 * 0x100 + key.1 as u32;
        self.entries.insert(n, entry);
        assert forall|k: (u16, u8)| od_key(k) == n implies k == key by {
            assert(od_address(od_key(k)) == k);
            assert(od_address(od_key(key)) == key);
        }
        assert(self@ =~= old(self)@.insert(key, entry));
    }

    /// The entry at an address.
    pub fn get(&self, key: &(u16, u8)) -> (r: Option<&OdEntry>)
        ensures
            r is Some == self@.contains_key(*key),
            r is Some ==> *r->0 == self@[*key],
    {
        let n: u32 = key.0 as u32 * 0x100 + key.1 as u32;
        self.entries.get(&n)
    }

    /// The addresses of all entries, by index and then by subindex.
    pub fn addresses(&self) -> (r: Vec<(u16, u8)>)
        ensures
            addresses_of(self@, r@),
    {
        let mut out: Vec<(u16, u8)> = Vec::new();
        proof {
            lemma_keys_increase(
                vstd::std_specs::iter::IteratorSpec::remaining(
                    &vstd::std_specs::btree::spec_keys_iter(&self.entries),
                ),
            );
        }
        for n in it: self.entries.keys()
            invariant
                it.seq().unref().to_set() == self.entries@.dom(),
                forall|i: int, j: int| 0 <= i < j < it.seq().len() ==> *it.seq()[i] < *it.seq()[j],
                out@.len() <= it.index(),
                forall|i: int|
                    0 <= i < out@.len() ==> self.entries@.contains_key(od_key(#[trigger] out@[i])),
                forall|i: int, j: int|
                    0 <= i < out@.len() && it.index() <= j < it.seq().len() ==> od_key(
                        #[trigger] out@[i],
                    ) < *#[trigger] it.seq()[j],
                forall|i: int, j: int|
                    0 <= i < j < out@.len() ==> od_key(#[trigger] out@[i]) < od_key(
                        #[trigger] out@[j],
                    ),
                forall|j: int|
                    0 <= j < it.index() && *it.seq()[j] < 0x100_0000 ==> out@.contains(
                        od_address(*#[trigger] it.seq()[j]),
                    ),
        {
            let ghost before = out@;
            if *n < 0x100_0000 {
                let a: (u16, u8) = ((*n / 0x100) as u16, (*n % 0x100) as u8);
                assert(a == od_address(*n) && od_key(a) == *n);
                assert(it.seq().unref()[it.index() as int] == *n);
                assert(it.seq().unref().to_set().contains(*n));
                out.push(a);
                assert(out@[out@.len() - 1] == a);
            }
            assert forall|j: int|
                0 <= j < it.index() + 1 && *it.seq()[j] < 0x100_0000 implies out@.contains(
                od_address(*#[trigger] it.seq()[j]),
            ) by {
                if j < it.index() {
                    let i = before.index_of(od_address(*it.seq()[j]));
                    assert(before.contains(od_address(*it.seq()[j])));
                    assert(out@[i] == od_address(*it.seq()[j]));
                }
            }
        }
        out
    }
}

/// The keys of an ordered map come in increasing order.
proof fn lemma_keys_increase(s: Seq<&u32>)
    requires
        vstd::std_specs::btree::increasing_seq(s),
    ensures
        forall|i: int, j: int| 0 <= i < j < s.len() ==> *s[i] < *s[j],
{
    broadcast use vstd::laws_eq::group_laws_eq;
    broadcast use vstd::laws_cmp::group_laws_cmp;

    reveal(vstd::laws_eq::obeys_eq_spec_properties);
    reveal(vstd::laws_cmp::obeys_partial_cmp_spec_properties);
    reveal(vstd::laws_cmp::obeys_cmp_partial_ord);
    reveal(vstd::laws_cmp::obeys_cmp_ord);
    assert(vstd::laws_cmp::obeys_cmp::<u32>());
    assert(vstd::laws_eq::obeys_eq::<&u32>());
    assert(vstd::laws_cmp::obeys_cmp::<&u32>());
    assert forall|i: int, j: int| 0 <= i < j < s.len() implies *s[i] < *s[j] by {
        assert(vstd::std_specs::cmp::OrdSpec::cmp_spec(&s[i], &s[j]) is Less);
    }
}

/// Whether a list holds the address of every entry once, by index and then by subindex.
pub open spec fn addresses_of(od: Map<(u16, u8), OdEntry>, list: Seq<(u16, u8)>) -> bool {
    &&& forall|k: (u16, u8)| list.contains(k) == #[trigger] od.contains_key(k)
    &&& forall|i: int, j: int|
        0 <= i < j < list.len() ==> od_key(#[trigger] list[i]) < od_key(#[trigger] list[j])
}

/// The number that a default value's text stands for.
pub open spec fn default_number(s: Seq<char>) -> Option<nat> {
    text::auto_number(text::trimmed(s), 0xFFFF_FFFF)
}

/// Parses the default value of an unsigned object: decimal, `0x` or `H` hexadecimal.
pub fn parse_default_u32(s: &str) -> (r: Option<u32>)
    ensures
        r is Some == default_number(s@) is Some,
        r is Some ==> r->0 as nat == default_number(s@)->0,
{
    let t: Vec<char> = text::trim(s);
    match text::parse_auto(t.as_slice(), 0xFFFF_FFFF) {
        Some(v) => Some(v as u32),
        None => None,
    }
}

/// The node ID that a text stands for: 1 to 127, in decimal, `0x` or `H` hexadecimal.
pub open spec fn node_id_number(s: Seq<char>) -> Option<u8> {
    match text::auto_number(s, 127) {
        Some(n) => if n >= 1 {
            Some(n as u8)
        } else {
            None
        },
        None => None,
    }
}

/// Parses a node ID.
pub fn parse_node_id_str(s: &[char]) -> (r: Option<u8>)
    ensures
        r == node_id_number(s@),
{
    match text::parse_auto(s, 127) {
        Some(v) => if v >= 1 {
            Some(v as u8)
        } else {
            None
        },
        None => None,
    }
}

/// The name in a section header; `None` for any other line.
pub open spec fn section_name(line: Seq<char>) -> Option<Seq<char>> {
    if line.len() >= 2 && line[0] == '[' && line.last() == ']' {
        Some(text::lower(text::trimmed(line.subrange(1, line.len() - 1))))
    } else {
        None
    }
}

/// The value that a line gives to the node ID; `None` for any other line.
pub open spec fn node_id_value(line: Seq<char>) -> Option<Seq<char>> {
    let eq = text::position(line, '=');
    if eq < line.len() && text::lower(text::trimmed(line.take(eq))) == "nodeid"@ {
        Some(text::trimmed(line.skip(eq + 1)))
    } else {
        None
    }
}

/// The value of `NodeId` in the section `DeviceComissioning` of an EDS file's text: the first one.
/// `inside` tells whether the text starts within that section. Upper and lower case do not differ
/// in names.
pub open spec fn commissioned(file: Seq<char>, inside: bool) -> Option<Seq<char>>
    decreases file.len(),
{
    if file.len() == 0 {
        None
    } else {
        let n = text::position(file, '\n');
        let line = text::trimmed(file.take(n));
        let rest = if 0 <= n < file.len() {
            file.skip(n + 1)
        } else {
            seq![]
        };
        match section_name(line) {
            Some(name) => commissioned(rest, name == "devicecomissioning"@),
            None => match node_id_value(line) {
                Some(v) => if inside {
                    Some(v)
                } else {
                    commissioned(rest, inside)
                },
                None => commissioned(rest, inside),
            },
        }
    }
}

fn section_of(line: &[char]) -> (r: Option<Vec<char>>)
    ensures
        r is Some == section_name(line@) is Some,
        r matches Some(n) ==> Some(n@) == section_name(line@),
{
    let n: usize = line.len();
    if n < 2 || line[0] != '[' || line[n - 1] != ']' {
        return None;
    }
    let inner: &[char] = vstd::slice::slice_subrange(line, 1, n - 1);
    Some(text::to_lower(text::trim_chars(inner)))
}

fn value_of(line: &[char]) -> (r: Option<Vec<char>>)
    ensures
        r is Some == node_id_value(line@) is Some,
        r matches Some(v) ==> Some(v@) == node_id_value(line@),
{
    let eq: usize = text::find(line, '=');
    if eq >= line.len() {
        return None;
    }
    let before: &[char] = vstd::slice::slice_subrange(line, 0, eq);
    assert(before@ =~= line@.take(eq as int));
    let key: Vec<char> = text::to_lower(text::trim_chars(before));
    if !text::is_text(key.as_slice(), "nodeid") {
        return None;
    }
    let after: &[char] = vstd::slice::slice_subrange(line, eq + 1, line.len());
    assert(after@ =~= line@.skip(eq + 1));
    Some(vstd::slice::slice_to_vec(text::trim_chars(after)))
}

/// The node ID that the text of an EDS file gives under `[DeviceComissioning] NodeId`: 1 to 127, in
/// decimal, `0x` or `H` hexadecimal; `None` where it gives none.
pub fn parse_node_id(file: &str) -> (r: Option<u8>)
    ensures
        r == (match commissioned(file@, false) {
            Some(v) => node_id_number(v),
            None => None,
        }),
{
    let cs: Vec<char> = text::chars_of(file);
    let mut at: usize = 0;
    let mut inside: bool = false;
    assert(cs@.skip(0) =~= file@);
    while at < cs.len()
        invariant
            at <= cs@.len(),
            commissioned(cs@.skip(at as int), inside) == commissioned(file@, false),
        decreases cs@.len() - at,
    {
        let tail: &[char] = vstd::slice::slice_subrange(cs.as_slice(), at, cs.len());
        let ghost whole = cs@.skip(at as int);
        assert(tail@ =~= whole);
        let n: usize = text::find(tail, '\n');
        let raw: &[char] = vstd::slice::slice_subrange(tail, 0, n);
        assert(raw@ =~= whole.take(n as int));
        let line: &[char] = text::trim_chars(raw);
        let next: usize = if n < tail.len() {
            at + n + 1
        } else {
            cs.len()
        };
        proof {
            if n < tail@.len() {
                assert(cs@.skip(next as int) =~= whole.skip(n + 1));
            } else {
                assert(cs@.skip(next as int) =~= seq![]);
            }
        }
        match section_of(line) {
            Some(name) => {
                inside = text::is_text(name.as_slice(), "devicecomissioning");
            },
            None => match value_of(line) {
                Some(v) => {
                    if inside {
                        return parse_node_id_str(v.as_slice());
                    }
                },
                None => {},
            },
        }
        at = next;
    }
    None
}

/// The node ID is the value of the first `NodeId` line of the section `DeviceComissioning`: lines
/// before that section, or of other sections, do not count, whatever they hold, and neither does
/// anything behind the first such line.
pub proof fn law_first_commissioned_value(file: Seq<char>, line: Seq<char>, inside: bool)
    requires
        text::position(line, '\n') >= line.len(),
    ensures
        ({
            let all = line + seq!['\n'] + file;
            let t = text::trimmed(line);
            let header = t.len() >= 2 && t[0] == '[' && t.last() == ']';
            let title = text::lower(text::trimmed(t.subrange(1, t.len() - 1)));
            let eq = text::position(t, '=');
            let sets = eq < t.len() && text::lower(text::trimmed(t.take(eq))) == "nodeid"@;
            &&& header ==> commissioned(all, inside) == commissioned(
                file,
                title == "devicecomissioning"@,
            )
            &&& !header && sets && inside ==> commissioned(all, inside) == Some(
                text::trimmed(t.skip(eq + 1)),
            )
            &&& !header && !(sets && inside) ==> commissioned(all, inside) == commissioned(
                file,
                inside,
            )
        }),
{
    let all = line + seq!['\n'] + file;
    lemma_line_end(line, file);
    let n = line.len() as int;
    assert(all.take(n) =~= line);
    assert(all.skip(n + 1) =~= file);
}

proof fn lemma_line_end(line: Seq<char>, file: Seq<char>)
    requires
        text::position(line, '\n') >= line.len(),
    ensures
        text::position(line + seq!['\n'] + file, '\n') == line.len(),
    decreases line.len(),
{
    let all = line + seq!['\n'] + file;
    if line.len() > 0 {
        let rest = line.drop_first();
        assert(all.drop_first() =~= rest + seq!['\n'] + file);
        lemma_line_end(rest, file);
    }
}

/// A node ID is accepted just from 1 to 127.
pub proof fn law_node_id_range(s: Seq<char>)
    ensures
        node_id_number(s) matches Some(id) ==> 1 <= id <= 127 && text::auto_number(s, 127) == Some(
            id as nat,
        ),
        node_id_number(s) is None ==> (text::auto_number(s, 127) matches Some(n) ==> n == 0 || n
            > 127),
{
}

/// Objects are filed under their index and subindex: no two share a place, and they are ordered by
/// index and then by subindex.
pub proof fn law_addresses_ordered(a: (u16, u8), b: (u16, u8))
    ensures
        od_key(a) == od_key(b) ==> a == b,
        od_key(a) < od_key(b) <==> (a.0 < b.0 || (a.0 == b.0 && a.1 < b.1)),
        od_address(od_key(a)) == a,
{
    assert(od_address(od_key(a)) == a);
    assert(od_address(od_key(b)) == b);
}

} // verus!
