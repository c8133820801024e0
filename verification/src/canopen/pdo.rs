//! Process data objects: the signal layout from the object dictionary, and the decoding of
//! payloads.

use std::collections::HashMap;

use vstd::prelude::*;

use crate::bytes::{
    as_signed, copy_range, le2, le4, le8, le_byte, le_bytes2, le_bytes4, le_bytes8,
    lemma_le2_of_bytes, lemma_le4_of_bytes, lemma_le8_of_bytes, u16_le, u16_signed, u32_le,
    u32_signed, u64_le, u64_signed, u8_signed,
};
use crate::canopen::sdo::{default_name, object_name};
use crate::eds::{default_number, parse_default_u32, DataType, ObjectDictionary, OdEntry};
use crate::text;

verus! {

broadcast use vstd::std_specs::hash::group_hash_axioms;

/// Typed value extracted from a PDO payload. Floating-point values are held as their IEEE 754
/// bit patterns.
#[derive(Debug)]
pub enum PdoRawValue {
    Integer(i64),
    Unsigned(u64),
    Real32(u32),
    Real64(u64),
    Text(String),
    /// Fallback for non-standard bit widths.
    Bytes(Vec<u8>),
}

/// The mathematical value of a [`PdoRawValue`].
pub enum PdoRawValueView {
    Integer(int),
    Unsigned(int),
    Real32(int),
    Real64(int),
    Text(Seq<char>),
    Bytes(Seq<u8>),
}

impl PdoRawValue {
    /// The value, with numbers unbounded.
    pub open spec fn view(&self) -> PdoRawValueView {
        match self {
            PdoRawValue::Integer(v) => PdoRawValueView::Integer(*v as int),
            PdoRawValue::Unsigned(v) => PdoRawValueView::Unsigned(*v as int),
            PdoRawValue::Real32(v) => PdoRawValueView::Real32(*v as int),
            PdoRawValue::Real64(v) => PdoRawValueView::Real64(*v as int),
            PdoRawValue::Text(s) => PdoRawValueView::Text(s@),
            PdoRawValue::Bytes(b) => PdoRawValueView::Bytes(b@),
        }
    }

    /// The displayed text. `float_text` is the printed form of the number, with four decimals,
    /// where the value is a floating-point one.
    pub fn display(&self, float_text: &str) -> (r: String)
        ensures
            r@ == raw_value_text(self@, float_text@),
    {
        match self {
            PdoRawValue::Integer(v) => {
                let mut s: String = String::new();
                text::push_signed(&mut s, *v);
                assert(s@ =~= text::signed_decimal(*v as int));
                s
            },
            PdoRawValue::Unsigned(v) => {
                let mut s: String = String::new();
                text::push_decimal(&mut s, *v);
                assert(s@ =~= text::decimal(*v as nat));
                s
            },
            PdoRawValue::Real32(_) => float_text.to_owned(),
            PdoRawValue::Real64(_) => float_text.to_owned(),
            PdoRawValue::Text(t) => t.clone(),
            PdoRawValue::Bytes(b) => crate::canopen::sdo::bracketed_hex(b.as_slice()),
        }
    }
}

/// How a value is displayed: numbers in decimal, text as it is, bytes as a bracketed hexadecimal
/// list.
pub open spec fn raw_value_text(v: PdoRawValueView, float_text: Seq<char>) -> Seq<char> {
    match v {
        PdoRawValueView::Integer(n) => text::signed_decimal(n),
        PdoRawValueView::Unsigned(n) => text::decimal(n as nat),
        PdoRawValueView::Real32(_) => float_text,
        PdoRawValueView::Real64(_) => float_text,
        PdoRawValueView::Text(s) => s,
        PdoRawValueView::Bytes(b) => "["@ + text::hex_joined(b, " "@) + "]"@,
    }
}

/// One signal decoded from a PDO payload.
#[derive(Debug)]
pub struct PdoValue {
    pub signal_name: String,
    pub value: PdoRawValue,
}

/// The mathematical value of a [`PdoValue`].
pub struct PdoValueView {
    pub signal_name: Seq<char>,
    pub value: PdoRawValueView,
}

impl PdoValue {
    /// The signal's value over views.
    pub open spec fn view(&self) -> PdoValueView {
        PdoValueView { signal_name: self.signal_name@, value: self.value@ }
    }

    /// The displayed text: name, equals sign, value.
    pub fn display(&self, float_text: &str) -> (r: String)
        ensures
            r@ == self.signal_name@ + " = "@ + raw_value_text(self.value@, float_text@),
    {
        let v: String = self.value.display(float_text);
        let mut s: String = self.signal_name.clone();
        text::push_str(&mut s, " = ");
        text::push_str(&mut s, v.as_str());
        s
    }
}

/// Layout of one signal within a PDO payload.
#[derive(Debug)]
pub struct PdoSignal {
    pub name: String,
    /// Bit offset from byte 0 of the payload.
    pub bit_offset: usize,
    pub bit_length: usize,
    pub data_type: DataType,
}

/// The mathematical value of a [`PdoSignal`].
pub struct PdoSignalView {
    pub name: Seq<char>,
    pub bit_offset: int,
    pub bit_length: int,
    pub data_type: DataType,
}

impl PdoSignal {
    /// The layout over views.
    pub open spec fn view(&self) -> PdoSignalView {
        PdoSignalView {
            name: self.name@,
            bit_offset: self.bit_offset as int,
            bit_length: self.bit_length as int,
            data_type: self.data_type,
        }
    }
}

/// Signals as views.
pub open spec fn signals_view(s: Seq<PdoSignal>) -> Seq<PdoSignalView> {
    s.map_values(|x: PdoSignal| x@)
}

/// Decoded values as views.
pub open spec fn values_view(s: Seq<PdoValue>) -> Seq<PdoValueView> {
    s.map_values(|x: PdoValue| x@)
}

/// All PDO decoders of a single node, by COB-ID.
pub struct PdoDecoder {
    /// COB-ID to PDO number (from 1) and ordered list of signals.
    pub mappings: HashMap<u16, (u8, Vec<PdoSignal>)>,
}

/// A decoder's mappings as views.
pub open spec fn mappings_view(m: Map<u16, (u8, Vec<PdoSignal>)>) -> Map<
    u16,
    (u8, Seq<PdoSignalView>),
> {
    m.map_values(|v: (u8, Vec<PdoSignal>)| (v.0, signals_view(v.1@)))
}

/// The number in the default value of an object, if it has one.
pub open spec fn default_of(od: Map<(u16, u8), OdEntry>, key: (u16, u8)) -> Option<int> {
    if od.contains_key(key) && od[key].default_value is Some {
        match default_number(od[key].default_value->0@) {
            Some(n) => Some(n as int),
            None => None,
        }
    } else {
        None
    }
}

/// The data type of a mapped object; an object without an entry has an unknown type.
pub open spec fn mapped_type(od: Map<(u16, u8), OdEntry>, key: (u16, u8)) -> DataType {
    if od.contains_key(key) {
        od[key].data_type
    } else {
        DataType::Unknown(0)
    }
}

/// The bits that signals take up.
pub open spec fn total_bits(s: Seq<PdoSignalView>) -> int
    decreases s.len(),
{
    if s.len() == 0 {
        0
    } else {
        total_bits(s.drop_last()) + s.last().bit_length
    }
}

/// The signals of the first `n` mapping entries of the mapping object `map_idx`, packed one
/// behind the other. A mapping value names the object's index (bits 16 and up), its subindex
/// (bits 8 to 15) and its length in bits (bits 0 to 7); an entry without a value maps nothing.
pub open spec fn mapped_signals(od: Map<(u16, u8), OdEntry>, map_idx: u16, n: nat) -> Seq<
    PdoSignalView,
>
    decreases n,
{
    if n == 0 {
        seq![]
    } else {
        let before = mapped_signals(od, map_idx, (n - 1) as nat);
        match default_of(od, (map_idx, n as u8)) {
            None => before,
            Some(mv) => {
                let key = ((mv / 0x1_0000) as u16, (mv / 0x100 % 0x100) as u8);
                before.push(
                    PdoSignalView {
                        name: object_name(od, key),
                        bit_offset: total_bits(before),
                        bit_length: mv % 0x100,
                        data_type: mapped_type(od, key),
                    },
                )
            },
        }
    }
}

/// Which of the eight PDOs: the four transmit PDOs, then the four receive PDOs.
pub open spec fn comm_index(k: int) -> u16 {
    if k < 4 {
        (0x1800 + k) as u16
    } else {
        (0x1400 + (k - 4)) as u16
    }
}

/// The mapping object of a PDO.
pub open spec fn map_index(k: int) -> u16 {
    if k < 4 {
        (0x1A00 + k) as u16
    } else {
        (0x1600 + (k - 4)) as u16
    }
}

/// The COB-ID of PDO `k`: the low 11 bits of the configured one, else the predefined one. `None`
/// where bit 31 marks it as disabled.
pub open spec fn pdo_cob_id(node_id: u8, od: Map<(u16, u8), OdEntry>, k: int) -> Option<u16> {
    match default_of(od, (comm_index(k), 1)) {
        Some(raw) => if raw >= 0x8000_0000 {
            None
        } else {
            Some((raw % 0x800) as u16)
        },
        None => Some(
            ((if k < 4 {
                0x180int
            } else {
                0x200
            }) + node_id + 0x100 * (k % 4)) as u16,
        ),
    }
}

/// The number of mapping entries of PDO `k`.
pub open spec fn mapped_count(od: Map<(u16, u8), OdEntry>, k: int) -> nat {
    match default_of(od, (map_index(k), 0)) {
        Some(n) => (n % 0x100) as nat,
        None => 0,
    }
}

/// The mappings after the first `k` PDOs. A PDO that is disabled or maps nothing adds none; a
/// later PDO with the same COB-ID takes the place of an earlier one.
pub open spec fn decoder_mappings(node_id: u8, od: Map<(u16, u8), OdEntry>, k: nat) -> Map<
    u16,
    (u8, Seq<PdoSignalView>),
>
    decreases k,
{
    if k == 0 {
        Map::empty()
    } else {
        let i = k - 1;
        let before = decoder_mappings(node_id, od, i as nat);
        let signals = mapped_signals(od, map_index(i), mapped_count(od, i));
        match pdo_cob_id(node_id, od, i) {
            Some(cob) if signals.len() > 0 => before.insert(cob, ((i % 4 + 1) as u8, signals)),
            _ => before,
        }
    }
}

fn default_value(od: &ObjectDictionary, index: u16, sub: u8) -> (r: Option<u32>)
    ensures
        r is Some == default_of(od@, (index, sub)) is Some,
        r matches Some(n) ==> n as int == default_of(od@, (index, sub))->0,
{
    match od.get(&(index, sub)) {
        Some(e) => match &e.default_value {
            Some(s) => parse_default_u32(s.as_str()),
            None => None,
        },
        None => None,
    }
}

proof fn lemma_total_bits_bound(od: Map<(u16, u8), OdEntry>, map_idx: u16, n: nat)
    ensures
        0 <= total_bits(mapped_signals(od, map_idx, n)) <= 0xFF * n,
    decreases n,
{
    if n > 0 {
        lemma_total_bits_bound(od, map_idx, (n - 1) as nat);
        let before = mapped_signals(od, map_idx, (n - 1) as nat);
        let all = mapped_signals(od, map_idx, n);
        if all != before {
            assert(all.drop_last() =~= before);
        }
    }
}

fn read_signals(od: &ObjectDictionary, map_idx: u16, count: u8) -> (r: Vec<PdoSignal>)
    ensures
        signals_view(r@) == mapped_signals(od@, map_idx, count as nat),
{
    let mut signals: Vec<PdoSignal> = Vec::new();
    let mut bit_offset: usize = 0;
    let mut n: u8 = 0;
    assert(signals_view(signals@) =~= seq![]);
    while n < count
        invariant
            n <= count,
            signals_view(signals@) == mapped_signals(od@, map_idx, n as nat),
            bit_offset == total_bits(signals_view(signals@)),
            bit_offset <= 0xFF * n,
        decreases count - n,
    {
        let sub: u8 = n + 1;
        let ghost before = signals_view(signals@);
        match default_value(od, map_idx, sub) {
            None => {},
            Some(mv) => {
                let index: u16 = (mv / 0x1_0000) as u16;
                let obj_sub: u8 = (mv / 0x100 % 0x100) as u8;
                let bit_length: usize = (mv % 0x100) as usize;
                let entry: Option<&OdEntry> = od.get(&(index, obj_sub));
                let name: String = match entry {
                    Some(e) => e.name.clone(),
                    None => default_name(index, obj_sub),
                };
                let data_type: DataType = match entry {
                    Some(e) => e.data_type,
                    None => DataType::Unknown(0),
                };
                let signal: PdoSignal = PdoSignal { name, bit_offset, bit_length, data_type };
                let ghost added = signal@;
                signals.push(signal);
                bit_offset = bit_offset + bit_length;
                proof {
                    assert(signals_view(signals@) =~= before.push(added));
                    assert(before.push(added).drop_last() =~= before);
                }
            },
        }
        n += 1;
    }
    signals
}

impl PdoDecoder {
    /// Builds a decoder from the object dictionary of a node: the communication parameters
    /// 0x1800 to 0x1803 with the mappings 0x1A00 to 0x1A03 (transmit PDOs), then 0x1400 to
    /// 0x1403 with 0x1600 to 0x1603 (receive PDOs).
    pub fn from_od(node_id: u8, od: &ObjectDictionary) -> (r: Self)
        ensures
            mappings_view(r.mappings@) == decoder_mappings(node_id, od@, 8),
    {
        let mut mappings: HashMap<u16, (u8, Vec<PdoSignal>)> = HashMap::new();
        let mut k: u16 = 0;
        assert(mappings_view(mappings@) =~= Map::empty());
        while k < 8
            invariant
                k <= 8,
                mappings_view(mappings@) == decoder_mappings(node_id, od@, k as nat),
            decreases 8 - k,
        {
            let comm_idx: u16 = if k < 4 {
                0x1800 + k
            } else {
                0x1400 + (k - 4)
            };
            let map_idx: u16 = if k < 4 {
                0x1A00 + k
            } else {
                0x1600 + (k - 4)
            };
            let pdo_num: u16 = k % 4;
            let cob_id: Option<u16> = match default_value(od, comm_idx, 1) {
                Some(raw) => if raw >= 0x8000_0000 {
                    None
                } else {
                    Some((raw % 0x800) as u16)
                },
                None => {
                    let base: u16 = if k < 4 {
                        0x180
                    } else {
                        0x200
                    };
                    Some(base + node_id as u16 + pdo_num * 0x100)
                },
            };
            let count: u8 = match default_value(od, map_idx, 0) {
                Some(n) => (n % 0x100) as u8,
                None => 0,
            };
            match cob_id {
                None => {},
                Some(cob) => {
                    let signals: Vec<PdoSignal> = read_signals(od, map_idx, count);
                    let ghost before = mappings@;
                    if signals.len() > 0 {
                        let ghost listed = signals_view(signals@);
                        assert(listed.len() == signals@.len());
                        mappings.insert(cob, (pdo_num as u8 + 1, signals));
                        assert(mappings_view(mappings@) =~= mappings_view(before).insert(
                            cob,
                            ((k % 4 + 1) as u8, listed),
                        ));
                    } else {
                        assert(signals_view(signals@).len() == 0);
                    }
                },
            }
            k += 1;
        }
        PdoDecoder { mappings }
    }

    /// Decodes a payload; `None` if the COB-ID is not mapped.
    pub fn decode(&self, cob_id: u16, data: &[u8]) -> (r: Option<Vec<PdoValue>>)
        ensures
            r is Some == self.mappings@.contains_key(cob_id),
            r matches Some(values) ==> values_view(values@) == decoded_values(
                mappings_view(self.mappings@)[cob_id].1,
                data@,
            ),
    {
        match self.mappings.get(&cob_id) {
            None => None,
            Some(entry) => {
                let signals: &Vec<PdoSignal> = &entry.1;
                let mut values: Vec<PdoValue> = Vec::new();
                let mut i: usize = 0;
                while i < signals.len()
                    invariant
                        i <= signals@.len(),
                        values_view(values@) == decoded_values(
                            signals_view(signals@).take(i as int),
                            data@,
                        ),
                    decreases signals@.len() - i,
                {
                    let ghost before = values@;
                    let s: &PdoSignal = &signals[i];
                    let v: PdoValue = PdoValue {
                        signal_name: s.name.clone(),
                        value: extract_bits(data, s.bit_offset, s.bit_length, &s.data_type),
                    };
                    let ghost all = signals_view(signals@);
                    let ghost added = v@;
                    values.push(v);
                    proof {
                        assert(all[i as int] == s@);
                        assert(values_view(values@) =~= values_view(before).push(added));
                        assert(all.take(i + 1) =~= all.take(i as int).push(all[i as int]));
                        assert(decoded_values(all.take(i + 1), data@) =~= decoded_values(
                            all.take(i as int),
                            data@,
                        ).push(added));
                    }
                    i += 1;
                }
                assert(signals_view(signals@).take(i as int) =~= signals_view(signals@));
                Some(values)
            },
        }
    }

    /// The PDO number (from 1) mapped to a COB-ID.
    pub fn pdo_num_for_cob_id(&self, cob_id: u16) -> (r: Option<u8>)
        ensures
            r == (if self.mappings@.contains_key(cob_id) {
                Some(self.mappings@[cob_id].0)
            } else {
                None
            }),
    {
        match self.mappings.get(&cob_id) {
            Some(entry) => Some(entry.0),
            None => None,
        }
    }
}

/// The values of signals in a payload.
pub open spec fn decoded_values(signals: Seq<PdoSignalView>, data: Seq<u8>) -> Seq<PdoValueView> {
    signals.map_values(
        |s: PdoSignalView|
            PdoValueView {
                signal_name: s.name,
                value: bits_value(data, s.bit_offset, s.bit_length, s.data_type),
            },
    )
}

/// The bytes from position `from` that `bit_length` bits take up, as far as the payload goes.
pub open spec fn covered_bytes(data: Seq<u8>, from: int, bit_length: int) -> Seq<u8> {
    let end = from + (bit_length + 7) / 8;
    data.subrange(
        from,
        if end <= data.len() {
            end
        } else {
            data.len() as int
        },
    )
}

/// The value of the signal of `bit_length` bits in the byte that holds bit `bit_offset`.
///
/// Strings are read as text where they are valid UTF-8. Other signals of 8, 16, 32 and 64 bits
/// that fit the payload are read as little-endian numbers, all others as bytes. A signal of no
/// bits, or behind the payload, is empty.
pub open spec fn bits_value(data: Seq<u8>, bit_offset: int, bit_length: int, dtype: DataType) -> PdoRawValueView {
    let at = bit_offset / 8;
    let bytes = covered_bytes(data, at, bit_length);
    if bit_length == 0 || at >= data.len() {
        PdoRawValueView::Bytes(seq![])
    } else if dtype == DataType::VisibleString || dtype == DataType::OctetString {
        if vstd::utf8::valid_utf8(bytes) {
            PdoRawValueView::Text(text::without_trailing_nul(vstd::utf8::decode_utf8(bytes)))
        } else {
            PdoRawValueView::Bytes(bytes)
        }
    } else if bit_length == 8 {
        if dtype == DataType::Integer8 {
            PdoRawValueView::Integer(as_signed(data[at] as int, 0x100))
        } else if dtype == DataType::Boolean {
            PdoRawValueView::Unsigned(data[at] as int % 2)
        } else {
            PdoRawValueView::Unsigned(data[at] as int)
        }
    } else if bit_length == 16 && at + 2 <= data.len() {
        if dtype == DataType::Integer16 {
            PdoRawValueView::Integer(as_signed(le2(data, at), 0x1_0000))
        } else {
            PdoRawValueView::Unsigned(le2(data, at))
        }
    } else if bit_length == 32 && at + 4 <= data.len() {
        if dtype == DataType::Integer32 {
            PdoRawValueView::Integer(as_signed(le4(data, at), 0x1_0000_0000))
        } else if dtype == DataType::Real32 {
            PdoRawValueView::Real32(le4(data, at))
        } else {
            PdoRawValueView::Unsigned(le4(data, at))
        }
    } else if bit_length == 64 && at + 8 <= data.len() {
        if dtype == DataType::Integer64 {
            PdoRawValueView::Integer(as_signed(le8(data, at), 0x1_0000_0000_0000_0000))
        } else if dtype == DataType::Real64 {
            PdoRawValueView::Real64(le8(data, at))
        } else {
            PdoRawValueView::Unsigned(le8(data, at))
        }
    } else {
        PdoRawValueView::Bytes(bytes)
    }
}

/// Extracts `bit_length` bits from the byte that holds bit `bit_offset` and interprets them as
/// the given data type.
pub fn extract_bits(data: &[u8], bit_offset: usize, bit_length: usize, dtype: &DataType) -> (r:
    PdoRawValue)
    ensures
        r@ == bits_value(data@, bit_offset as int, bit_length as int, *dtype),
{
    if bit_length == 0 {
        let none: Vec<u8> = Vec::new();
        assert(none@ =~= seq![]);
        return PdoRawValue::Bytes(none);
    }
    let at: usize = bit_offset / 8;
    if at >= data.len() {
        let none: Vec<u8> = Vec::new();
        assert(none@ =~= seq![]);
        return PdoRawValue::Bytes(none);
    }
    let rest: usize = data.len() - at;
    let byte_len: usize = if bit_length % 8 == 0 {
        bit_length / 8
    } else {
        bit_length / 8 + 1
    };
    let end: usize = if byte_len <= rest {
        at + byte_len
    } else {
        data.len()
    };
    if *dtype == DataType::VisibleString || *dtype == DataType::OctetString {
        let bytes: Vec<u8> = copy_range(data, at, end);
        assert(bytes@ == covered_bytes(data@, at as int, bit_length as int));
        return match text::utf8_text(bytes.as_slice()) {
            Ok(s) => PdoRawValue::Text(text::strip_trailing_nul(s.as_str())),
            Err(_) => PdoRawValue::Bytes(bytes),
        };
    }
    match bit_length {
        8 => match *dtype {
            DataType::Integer8 => PdoRawValue::Integer(u8_signed(data[at]) as i64),
            DataType::Boolean => PdoRawValue::Unsigned((data[at] % 2) as u64),
            _ => PdoRawValue::Unsigned(data[at] as u64),
        },
        16 if rest >= 2 => {
            let v: u16 = u16_le(data[at], data[at + 1]);
            match *dtype {
                DataType::Integer16 => PdoRawValue::Integer(u16_signed(v) as i64),
                _ => PdoRawValue::Unsigned(v as u64),
            }
        },
        32 if rest >= 4 => {
            let v: u32 = u32_le(data[at], data[at + 1], data[at + 2], data[at + 3]);
            match *dtype {
                DataType::Integer32 => PdoRawValue::Integer(u32_signed(v) as i64),
                DataType::Real32 => PdoRawValue::Real32(v),
                _ => PdoRawValue::Unsigned(v as u64),
            }
        },
        64 if rest >= 8 => {
            let v: u64 = u64_le(data, at);
            match *dtype {
                DataType::Integer64 => PdoRawValue::Integer(u64_signed(v)),
                DataType::Real64 => PdoRawValue::Real64(v),
                _ => PdoRawValue::Unsigned(v),
            }
        },
        _ => PdoRawValue::Bytes(copy_range(data, at, end)),
    }
}

/// The signals of a PDO are packed without gaps or overlaps: the first starts at bit 0, and each
/// following one where the one before it ends.
pub proof fn law_signals_are_packed(od: Map<(u16, u8), OdEntry>, map_idx: u16, n: nat, i: int)
    requires
        0 <= i < mapped_signals(od, map_idx, n).len(),
    ensures
        ({
            let s = mapped_signals(od, map_idx, n);
            &&& i == 0 ==> s[i].bit_offset == 0
            &&& i > 0 ==> s[i].bit_offset == s[i - 1].bit_offset + s[i - 1].bit_length
            &&& 0 <= s[i].bit_length <= 0xFF
        }),
    decreases n,
{
    let s = mapped_signals(od, map_idx, n);
    let before = mapped_signals(od, map_idx, (n - 1) as nat);
    if i < before.len() {
        law_signals_are_packed(od, map_idx, (n - 1) as nat, i);
    } else {
        assert(s.drop_last() =~= before);
        if i > 0 {
            lemma_total_is_end(od, map_idx, (n - 1) as nat);
        }
    }
}

proof fn lemma_total_is_end(od: Map<(u16, u8), OdEntry>, map_idx: u16, n: nat)
    requires
        mapped_signals(od, map_idx, n).len() > 0,
    ensures
        total_bits(mapped_signals(od, map_idx, n)) == mapped_signals(
            od,
            map_idx,
            n,
        ).last().bit_offset + mapped_signals(od, map_idx, n).last().bit_length,
    decreases n,
{
    let s = mapped_signals(od, map_idx, n);
    let before = mapped_signals(od, map_idx, (n - 1) as nat);
    if default_of(od, (map_idx, n as u8)) is None {
        lemma_total_is_end(od, map_idx, (n - 1) as nat);
    } else {
        assert(s.drop_last() =~= before);
    }
}

/// A PDO whose configured COB-ID has bit 31 set is not decoded under the predefined identifier
/// either: it adds nothing to the mappings.
pub proof fn law_disabled_pdo_not_mapped(node_id: u8, od: Map<(u16, u8), OdEntry>, k: nat)
    requires
        default_of(od, (comm_index(k as int), 1)) is Some,
        default_of(od, (comm_index(k as int), 1))->0 >= 0x8000_0000,
    ensures
        decoder_mappings(node_id, od, k + 1) == decoder_mappings(node_id, od, k),
{
}

/// Whether the `len` bytes of a payload from position `at` on are the little-endian two's
/// complement of a number.
pub open spec fn holds_number(data: Seq<u8>, at: int, len: nat, n: int) -> bool {
    &&& 0 <= at
    &&& at + len <= data.len()
    &&& forall|k: int| 0 <= k < len ==> #[trigger] data[at + k] == le_byte(n, k as nat)
}

proof fn lemma_held_number(data: Seq<u8>, at: int, n: int)
    ensures
        holds_number(data, at, 1, n) ==> data[at] == n % 0x100,
        holds_number(data, at, 2, n) ==> le2(data, at) == n % 0x1_0000,
        holds_number(data, at, 4, n) ==> le4(data, at) == n % 0x1_0000_0000,
        holds_number(data, at, 8, n) ==> le8(data, at) == n % 0x1_0000_0000_0000_0000,
{
    if holds_number(data, at, 1, n) {
        assert(data[at + 0] == le_byte(n, 0));
    }
    if holds_number(data, at, 2, n) {
        lemma_le2_of_bytes(n);
        assert(data.subrange(at, at + 2) =~= le_bytes2(n));
        assert(data[at] == data.subrange(at, at + 2)[0]);
        assert(data[at + 1] == data.subrange(at, at + 2)[1]);
    }
    if holds_number(data, at, 4, n) {
        lemma_le4_of_bytes(n);
        let s = data.subrange(at, at + 4);
        assert forall|k: int| 0 <= k < 4 implies s[k] == le_bytes4(n)[k] by {
            assert(data[at + k] == le_byte(n, k as nat));
        }
        assert(s =~= le_bytes4(n));
        assert(data[at] == s[0] && data[at + 1] == s[1] && data[at + 2] == s[2] && data[at + 3]
            == s[3]);
    }
    if holds_number(data, at, 8, n) {
        lemma_le8_of_bytes(n);
        let s = data.subrange(at, at + 8);
        assert forall|k: int| 0 <= k < 8 implies s[k] == le_bytes8(n)[k] by {
            assert(data[at + k] == le_byte(n, k as nat));
        }
        assert(s =~= le_bytes8(n));
        assert(data[at] == s[0] && data[at + 1] == s[1] && data[at + 2] == s[2] && data[at + 3]
            == s[3]);
        assert(data[at + 4] == s[4] && data[at + 5] == s[5] && data[at + 6] == s[6] && data[at + 7]
            == s[7]);
    }
}

/// A number in the range of a signed type, negative numbers included, that stands in a payload at
/// the byte of a signal of that type is extracted as that number.
pub proof fn law_signed_number_extracted(data: Seq<u8>, at: int, n: int)
    ensures
        holds_number(data, at, 1, n) && -0x80 <= n < 0x80 ==> bits_value(
            data,
            8 * at,
            8,
            DataType::Integer8,
        ) == PdoRawValueView::Integer(n),
        holds_number(data, at, 2, n) && -0x8000 <= n < 0x8000 ==> bits_value(
            data,
            8 * at,
            16,
            DataType::Integer16,
        ) == PdoRawValueView::Integer(n),
        holds_number(data, at, 4, n) && -0x8000_0000 <= n < 0x8000_0000 ==> bits_value(
            data,
            8 * at,
            32,
            DataType::Integer32,
        ) == PdoRawValueView::Integer(n),
        holds_number(data, at, 8, n) && -0x8000_0000_0000_0000 <= n < 0x8000_0000_0000_0000
            ==> bits_value(data, 8 * at, 64, DataType::Integer64) == PdoRawValueView::Integer(n),
{
    lemma_held_number(data, at, n);
}

/// A number in the range of an unsigned type that stands in a payload at the byte of a signal of
/// that type is extracted as that number, and the bit pattern of a floating-point number as that
/// pattern. A signal of an unknown type is read as an unsigned number of its width.
pub proof fn law_unsigned_number_extracted(data: Seq<u8>, at: int, n: int, code: u16)
    ensures
        holds_number(data, at, 1, n) && 0 <= n < 0x100 ==> {
            &&& bits_value(data, 8 * at, 8, DataType::Unsigned8) == PdoRawValueView::Unsigned(n)
            &&& bits_value(data, 8 * at, 8, DataType::Unknown(code)) == PdoRawValueView::Unsigned(n)
        },
        holds_number(data, at, 2, n) && 0 <= n < 0x1_0000 ==> {
            &&& bits_value(data, 8 * at, 16, DataType::Unsigned16) == PdoRawValueView::Unsigned(n)
            &&& bits_value(data, 8 * at, 16, DataType::Unknown(code)) == PdoRawValueView::Unsigned(
                n,
            )
        },
        holds_number(data, at, 4, n) && 0 <= n < 0x1_0000_0000 ==> {
            &&& bits_value(data, 8 * at, 32, DataType::Unsigned32) == PdoRawValueView::Unsigned(n)
            &&& bits_value(data, 8 * at, 32, DataType::Unknown(code)) == PdoRawValueView::Unsigned(
                n,
            )
            &&& bits_value(data, 8 * at, 32, DataType::Real32) == PdoRawValueView::Real32(n)
        },
        holds_number(data, at, 8, n) && 0 <= n < 0x1_0000_0000_0000_0000 ==> {
            &&& bits_value(data, 8 * at, 64, DataType::Unsigned64) == PdoRawValueView::Unsigned(n)
            &&& bits_value(data, 8 * at, 64, DataType::Unknown(code)) == PdoRawValueView::Unsigned(
                n,
            )
            &&& bits_value(data, 8 * at, 64, DataType::Real64) == PdoRawValueView::Real64(n)
        },
{
    lemma_held_number(data, at, n);
}

/// A Boolean signal of eight bits is the low bit of its byte.
pub proof fn law_boolean_extracted(data: Seq<u8>, at: int)
    requires
        0 <= at < data.len(),
    ensures
        bits_value(data, 8 * at, 8, DataType::Boolean) == PdoRawValueView::Unsigned(
            if data[at] % 2 == 1 {
                1
            } else {
                0
            },
        ),
{
}

/// A text signal whose bytes are valid UTF-8 is extracted as the text that they encode, without
/// trailing NULs.
pub proof fn law_text_extracted(data: Seq<u8>, at: int, len: int, dtype: DataType)
    requires
        dtype == DataType::VisibleString || dtype == DataType::OctetString,
        0 <= at,
        0 < len,
        at + len <= data.len(),
        vstd::utf8::valid_utf8(data.subrange(at, at + len)),
    ensures
        bits_value(data, 8 * at, 8 * len, dtype) == PdoRawValueView::Text(
            text::without_trailing_nul(vstd::utf8::decode_utf8(data.subrange(at, at + len))),
        ),
{
    assert(covered_bytes(data, at, 8 * len) == data.subrange(at, at + len));
}

/// Where a signal starts within a byte, it is read from the start of that byte.
pub proof fn law_offset_within_byte_ignored(
    data: Seq<u8>,
    bit_offset: int,
    bit_length: int,
    dtype: DataType,
)
    requires
        0 <= bit_offset,
    ensures
        bits_value(data, bit_offset, bit_length, dtype) == bits_value(
            data,
            bit_offset - bit_offset % 8,
            bit_length,
            dtype,
        ),
{
}

/// A signal that is no text and no number of 8, 16, 32 or 64 bits is extracted as the bytes that
/// it touches, as far as the payload goes; so is a number that the payload cuts off. One behind
/// the payload is empty.
pub proof fn law_other_signals_are_bytes(
    data: Seq<u8>,
    at: int,
    bit_length: int,
    dtype: DataType,
    len: int,
)
    requires
        dtype != DataType::VisibleString,
        dtype != DataType::OctetString,
        0 <= at,
        0 <= len,
        8 * (len - 1) < bit_length <= 8 * len,
        (bit_length == 8 || bit_length == 16 || bit_length == 32 || bit_length == 64) ==> at + len
            > data.len(),
    ensures
        at >= data.len() ==> bits_value(data, 8 * at, bit_length, dtype) == PdoRawValueView::Bytes(
            seq![],
        ),
        at + len <= data.len() ==> bits_value(data, 8 * at, bit_length, dtype)
            == PdoRawValueView::Bytes(data.subrange(at, at + len)),
        at < data.len() < at + len ==> bits_value(data, 8 * at, bit_length, dtype)
            == PdoRawValueView::Bytes(data.skip(at)),
{
    if at + len <= data.len() {
        assert(len == 0 ==> data.subrange(at, at + len) =~= seq![]);
    }
    if at < data.len() < at + len {
        assert(data.subrange(at, data.len() as int) =~= data.skip(at));
    }
}

/// A mapping entry places one signal behind those of the entries before it: its value names the
/// object's index in the upper 16 bits, the subindex in the next eight and the length in bits in
/// the low eight. The signal has the object's name and type.
pub proof fn law_mapping_entry_read(
    od: Map<(u16, u8), OdEntry>,
    map_idx: u16,
    n: u8,
    index: u16,
    subindex: u8,
    bits: u8,
)
    requires
        n > 0,
        default_of(od, (map_idx, n)) == Some(0x1_0000 * index + 0x100 * subindex + bits),
    ensures
        ({
            let before = mapped_signals(od, map_idx, (n - 1) as nat);
            let all = mapped_signals(od, map_idx, n as nat);
            let s = all.last();
            &&& all.len() == before.len() + 1
            &&& all.drop_last() == before
            &&& s.bit_length == bits
            &&& od.contains_key((index, subindex)) ==> s.name == od[(index, subindex)].name@
                && s.data_type == od[(index, subindex)].data_type
            &&& !od.contains_key((index, subindex)) ==> s.data_type == DataType::Unknown(0)
        }),
{
    let mv = 0x1_0000 * index + 0x100 * subindex + bits;
    assert(mv / 0x1_0000 == index);
    assert(mv / 0x100 % 0x100 == subindex);
    assert(mv % 0x100 == bits);
    let before = mapped_signals(od, map_idx, (n - 1) as nat);
    let all = mapped_signals(od, map_idx, n as nat);
    assert(all.drop_last() =~= before);
}

/// Transmit PDO `i + 1` is described by 0x1800 + i and 0x1A00 + i, receive PDO `i + 1` by 0x1400 +
/// i and 0x1600 + i, whose subindex 0 tells how many entries are mapped. One without a configured
/// identifier has the predefined one, and a configured one counts with its 11 low bits.
pub proof fn law_pdo_identifiers(node_id: u8, od: Map<(u16, u8), OdEntry>, i: int)
    requires
        0 <= i < 4,
        node_id <= 127,
    ensures
        comm_index(i) == 0x1800 + i,
        map_index(i) == 0x1A00 + i,
        comm_index(4 + i) == 0x1400 + i,
        map_index(4 + i) == 0x1600 + i,
        default_of(od, ((0x1A00 + i) as u16, 0)) matches Some(n) ==> mapped_count(od, i) == n % 0x100,
        default_of(od, ((0x1600 + i) as u16, 0)) matches Some(n) ==> mapped_count(od, 4 + i) == n
            % 0x100,
        default_of(od, ((0x1A00 + i) as u16, 0)) is None ==> mapped_count(od, i) == 0,
        default_of(od, ((0x1600 + i) as u16, 0)) is None ==> mapped_count(od, 4 + i) == 0,
        default_of(od, ((0x1800 + i) as u16, 1)) is None ==> pdo_cob_id(node_id, od, i) == Some(
            (0x180 + 0x100 * i + node_id) as u16,
        ),
        default_of(od, ((0x1400 + i) as u16, 1)) is None ==> pdo_cob_id(node_id, od, 4 + i) == Some(
            (0x200 + 0x100 * i + node_id) as u16,
        ),
        default_of(od, ((0x1800 + i) as u16, 1)) matches Some(raw) ==> (raw < 0x8000_0000
            ==> pdo_cob_id(node_id, od, i) == Some((raw % 0x800) as u16)),
        default_of(od, ((0x1400 + i) as u16, 1)) matches Some(raw) ==> (raw < 0x8000_0000
            ==> pdo_cob_id(node_id, od, 4 + i) == Some((raw % 0x800) as u16)),
{
}

/// The decoder of a node holds each PDO that is enabled and maps something under its identifier,
/// with its number from 1 to 4 and all its signals, unless a later PDO has the same identifier.
pub proof fn law_enabled_pdo_is_mapped(node_id: u8, od: Map<(u16, u8), OdEntry>, k: nat, n: nat)
    requires
        k < n <= 8,
        pdo_cob_id(node_id, od, k as int) is Some,
        mapped_signals(od, map_index(k as int), mapped_count(od, k as int)).len() > 0,
        forall|j: int|
            k < j < n ==> #[trigger] pdo_cob_id(node_id, od, j) != pdo_cob_id(node_id, od, k as int),
    ensures
        ({
            let cob = pdo_cob_id(node_id, od, k as int)->0;
            let m = decoder_mappings(node_id, od, n);
            &&& m.contains_key(cob)
            &&& m[cob].0 == k % 4 + 1
            &&& m[cob].1 == mapped_signals(od, map_index(k as int), mapped_count(od, k as int))
        }),
    decreases n,
{
    if k + 1 < n {
        law_enabled_pdo_is_mapped(node_id, od, k, (n - 1) as nat);
        assert(pdo_cob_id(node_id, od, n - 1) != pdo_cob_id(node_id, od, k as int));
    }
}

/// Every signal of a PDO is decoded, in mapping order and under its own name, from the bits that
/// the layout gives it.
pub proof fn law_every_signal_decoded(signals: Seq<PdoSignalView>, data: Seq<u8>)
    ensures
        decoded_values(signals, data).len() == signals.len(),
        forall|i: int|
            0 <= i < signals.len() ==> (#[trigger] decoded_values(signals, data)[i]).signal_name
                == signals[i].name && decoded_values(signals, data)[i].value == bits_value(
                data,
                signals[i].bit_offset,
                signals[i].bit_length,
                signals[i].data_type,
            ),
{
}

} // verus!
