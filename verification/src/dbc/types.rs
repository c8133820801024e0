//! Messages and signals of a CAN database, and decoded values.

use vstd::prelude::*;

verus! {

/// Byte order of a signal.
#[derive(Clone, Copy, Debug, PartialEq, Eq, Structural)]
pub enum DbcByteOrder {
    /// Intel (little-endian): `start_bit` is the position of the least significant bit.
    LittleEndian,
    /// Motorola (big-endian): `start_bit` is the position of the most significant bit.
    BigEndian,
}

/// Integer interpretation of a signal's raw bits.
#[derive(Clone, Copy, Debug, PartialEq, Eq, Structural)]
pub enum DbcValueType {
    /// Raw bits are treated as an unsigned integer.
    Unsigned,
    /// Raw bits are treated as a two's-complement signed integer.
    Signed,
}

/// Identifier of a message as written in the file.
#[derive(Clone, Copy, Debug, PartialEq, Eq, Structural)]
pub enum DbcMessageId {
    Standard(u16),
    Extended(u32),
}

/// How a signal takes part in multiplexing.
#[derive(Clone, Copy, Debug, PartialEq, Eq, Structural)]
pub enum DbcMultiplex {
    /// Not at all.
    Plain,
    /// The signal is the multiplexor switch.
    Multiplexor,
    /// The signal is there for one value of the switch.
    Multiplexed(u64),
    /// The signal is there for one value of the switch, and is a switch itself.
    MultiplexorAndMultiplexed(u64),
}

/// A signal as defined in the file. Scale and offset are held as IEEE 754 bit patterns.
#[derive(Debug)]
pub struct DbcSignal {
    pub name: String,
    pub multiplex: DbcMultiplex,
    pub start_bit: u64,
    pub size: u64,
    pub byte_order: DbcByteOrder,
    pub value_type: DbcValueType,
    pub factor_bits: u64,
    pub offset_bits: u64,
    pub unit: String,
}

/// The mathematical value of a [`DbcSignal`].
pub struct SignalView {
    pub name: Seq<char>,
    pub multiplex: DbcMultiplex,
    pub start_bit: u64,
    pub size: u64,
    pub byte_order: DbcByteOrder,
    pub value_type: DbcValueType,
    pub factor_bits: u64,
    pub offset_bits: u64,
    pub unit: Seq<char>,
}

impl DbcSignal {
    /// The signal over views.
    pub open spec fn view(&self) -> SignalView {
        SignalView {
            name: self.name@,
            multiplex: self.multiplex,
            start_bit: self.start_bit,
            size: self.size,
            byte_order: self.byte_order,
            value_type: self.value_type,
            factor_bits: self.factor_bits,
            offset_bits: self.offset_bits,
            unit: self.unit@,
        }
    }
}

/// Signals as views.
pub open spec fn signal_views(s: Seq<DbcSignal>) -> Seq<SignalView> {
    s.map_values(|x: DbcSignal| x@)
}

/// A message as defined in the file.
#[derive(Debug)]
pub struct DbcMessage {
    pub id: DbcMessageId,
    pub name: String,
    /// Payload length in bytes.
    pub size: u64,
    pub signals: Vec<DbcSignal>,
}

/// The mathematical value of a [`DbcMessage`].
pub struct MessageView {
    pub id: DbcMessageId,
    pub name: Seq<char>,
    pub size: u64,
    pub signals: Seq<SignalView>,
}

impl DbcMessage {
    /// The message over views.
    pub open spec fn view(&self) -> MessageView {
        MessageView {
            id: self.id,
            name: self.name@,
            size: self.size,
            signals: signal_views(self.signals@),
        }
    }
}

/// Messages as views.
pub open spec fn message_views(s: Seq<DbcMessage>) -> Seq<MessageView> {
    s.map_values(|x: DbcMessage| x@)
}

/// Encoding metadata needed to write a physical value back into a payload. Scale and offset are
/// held as IEEE 754 bit patterns.
#[derive(Clone, Copy, Debug, PartialEq, Eq, Structural)]
pub struct DbcSignalDef {
    /// Position of the least significant (Intel) or most significant (Motorola) bit.
    pub start_bit: u64,
    /// Number of bits occupied by this signal.
    pub bit_size: u64,
    /// Byte order used when packing and unpacking.
    pub byte_order: DbcByteOrder,
    /// Signed or unsigned interpretation of the raw bits.
    pub value_type: DbcValueType,
    /// Scale factor: `physical = raw * factor + offset`.
    pub factor_bits: u64,
    /// Offset: `physical = raw * factor + offset`.
    pub offset_bits: u64,
    /// Length of the containing message in bytes.
    pub dlc: u8,
}

/// A single decoded signal of a frame. The physical value is `raw_int * factor + offset`, with
/// the scale and offset of the encoding metadata.
#[derive(Debug)]
pub struct DbcSignalValue {
    /// Signal name as defined in the file.
    pub signal_name: String,
    /// Raw integer value extracted from the payload.
    pub raw_int: i64,
    /// Engineering unit.
    pub unit: String,
    /// Description of the raw value, where the file has one.
    pub description: Option<String>,
    /// Encoding metadata for writing this signal back into a frame.
    pub encoding_def: Option<DbcSignalDef>,
}

/// The mathematical value of a [`DbcSignalValue`].
pub struct SignalValueView {
    pub signal_name: Seq<char>,
    pub raw_int: int,
    pub unit: Seq<char>,
    pub description: Option<Seq<char>>,
    pub encoding_def: Option<DbcSignalDef>,
}

impl DbcSignalValue {
    /// The value over views.
    pub open spec fn view(&self) -> SignalValueView {
        SignalValueView {
            signal_name: self.signal_name@,
            raw_int: self.raw_int as int,
            unit: self.unit@,
            description: match self.description {
                Some(s) => Some(s@),
                None => None,
            },
            encoding_def: self.encoding_def,
        }
    }
}

/// Decoded values as views.
pub open spec fn value_views(s: Seq<DbcSignalValue>) -> Seq<SignalValueView> {
    s.map_values(|x: DbcSignalValue| x@)
}

/// All decoded signals of one frame.
#[derive(Debug)]
pub struct DbcFrameSignals {
    /// Message name as defined in the file.
    pub message_name: String,
    /// Number of the CAN identifier.
    pub can_id: u32,
    /// Decoded signals in definition order.
    pub values: Vec<DbcSignalValue>,
    /// Name of the database that defines the message.
    pub source_dbc: String,
    /// The payload.
    pub raw_data: Vec<u8>,
}

/// The mathematical value of a [`DbcFrameSignals`].
pub struct FrameSignalsView {
    pub message_name: Seq<char>,
    pub can_id: u32,
    pub values: Seq<SignalValueView>,
    pub source_dbc: Seq<char>,
    pub raw_data: Seq<u8>,
}

impl DbcFrameSignals {
    /// The frame's signals over views.
    pub open spec fn view(&self) -> FrameSignalsView {
        FrameSignalsView {
            message_name: self.message_name@,
            can_id: self.can_id,
            values: value_views(self.values@),
            source_dbc: self.source_dbc@,
            raw_data: self.raw_data@,
        }
    }
}

/// The descriptions of the values of one signal or environment variable, as written in the file.
#[derive(Debug)]
pub struct DescriptionGroup {
    /// Message and name of the signal; `None` for an environment variable.
    pub signal: Option<(DbcMessageId, String)>,
    /// Raw values with their descriptions.
    pub entries: Vec<(i64, String)>,
}

/// The mathematical value of a [`DescriptionGroup`].
pub struct GroupView {
    pub signal: Option<(DbcMessageId, Seq<char>)>,
    pub entries: Seq<(i64, Seq<char>)>,
}

/// Described values as views.
pub open spec fn entry_views(s: Seq<(i64, String)>) -> Seq<(i64, Seq<char>)> {
    s.map_values(|x: (i64, String)| (x.0, x.1@))
}

impl DescriptionGroup {
    /// The group over views.
    pub open spec fn view(&self) -> GroupView {
        GroupView {
            signal: match self.signal {
                Some(p) => Some((p.0, p.1@)),
                None => None,
            },
            entries: entry_views(self.entries@),
        }
    }
}

/// Groups as views.
pub open spec fn group_views(s: Seq<DescriptionGroup>) -> Seq<GroupView> {
    s.map_values(|x: DescriptionGroup| x@)
}

} // verus!
