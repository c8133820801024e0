//! How values are written on the screen.

use vstd::prelude::*;

use crate::adapters::text_view;
use crate::app::{DbcSignalEntry, SignalEntryView};
use crate::canopen::nmt::{NmtCommand, NmtState};
use crate::canopen::pdo::{PdoRawValue, PdoRawValueView};
use crate::canopen::sdo::{SdoDirection, SdoValue, SdoValueView};
use crate::logger::{ascii_of, ascii_text};
use crate::text;

verus! {

// ─── Numbers ────────────────────────────────────────────────────────────────

/// Digits with a comma before every group of three from the right.
pub open spec fn grouped(digits: Seq<char>) -> Seq<char>
    decreases digits.len(),
{
    if digits.len() <= 3 {
        digits
    } else {
        grouped(digits.take(digits.len() - 3)) + seq![','] + digits.skip(digits.len() - 3)
    }
}

/// Writes digits with a comma before every group of three from the right.
pub fn group_digits(digits: &[char]) -> (r: Vec<char>)
    ensures
        r@ == grouped(digits@),
    decreases digits@.len(),
{
    let n: usize = digits.len();
    if n <= 3 {
        let r: Vec<char> = vstd::slice::slice_to_vec(digits);
        return r;
    }
    let head: &[char] = vstd::slice::slice_subrange(digits, 0, n - 3);
    assert(head@ =~= digits@.take(n - 3));
    let mut r: Vec<char> = group_digits(head);
    r.push(',');
    r.push(digits[n - 3]);
    r.push(digits[n - 2]);
    r.push(digits[n - 1]);
    assert(r@ =~= grouped(digits@));
    r
}

/// A number of bits per second with separators; a text that is no number as it is.
pub open spec fn bps_text(s: Seq<char>) -> Seq<char> {
    match text::unsigned_number(text::trimmed(s), 10, 0xFFFF_FFFF_FFFF_FFFF) {
        Some(n) => grouped(text::decimal(n)),
        None => s,
    }
}

/// Writes a number of bits per second with separators: `250,000`.
pub fn format_bps(s: &str) -> (r: String)
    ensures
        r@ == bps_text(s@),
{
    let t: Vec<char> = text::trim(s);
    match text::parse_unsigned(t.as_slice(), 10, 0xFFFF_FFFF_FFFF_FFFF) {
        Some(n) => {
            let d: Vec<char> = text::write_numeral(n, 10, true);
            let g: Vec<char> = group_digits(d.as_slice());
            text::string_of(g.as_slice())
        },
        None => s.to_owned(),
    }
}

/// A count with separators, filled up to 15 characters.
pub open spec fn count_text(n: nat) -> Seq<char> {
    text::padded(grouped(text::decimal(n)), 15, ' ')
}

/// Writes a count with separators, filled up on the left to 15 characters.
pub fn format_count(n: u64) -> (r: String)
    ensures
        r@ == count_text(n as nat),
{
    let d: Vec<char> = text::write_numeral(n, 10, true);
    let g: Vec<char> = group_digits(d.as_slice());
    let p: Vec<char> = text::write_padded(g.as_slice(), 15, ' ');
    text::string_of(p.as_slice())
}

// ─── Bus load ───────────────────────────────────────────────────────────────

/// Number of blocks in the bar of the bus load.
pub const LOAD_BLOCKS: usize = 20;

/// First block of the yellow zone: 30 percent.
pub const BLUE_END: usize = 6;

/// First block of the red zone: 70 percent.
pub const YELLOW_END: usize = 14;

/// How many blocks of the bar have which colour.
#[derive(Clone, Copy, Debug, PartialEq, Eq, Structural)]
pub struct LoadZones {
    pub blue: usize,
    pub yellow: usize,
    pub red: usize,
    pub empty: usize,
}

/// Splits the bar of the bus load into its zones, for the given number of filled blocks.
pub fn load_zones(filled: usize) -> (r: LoadZones)
    ensures
        r.blue == (if filled < BLUE_END {
            filled
        } else {
            BLUE_END
        }),
        r.yellow == (if filled <= BLUE_END {
            0
        } else if filled < YELLOW_END {
            filled - BLUE_END
        } else {
            YELLOW_END - BLUE_END
        }),
        r.red == (if filled <= YELLOW_END {
            0
        } else if filled < LOAD_BLOCKS {
            filled - YELLOW_END
        } else {
            LOAD_BLOCKS - YELLOW_END
        }),
        r.blue + r.yellow + r.red + r.empty == LOAD_BLOCKS,
{
    let filled: usize = if filled < LOAD_BLOCKS {
        filled
    } else {
        LOAD_BLOCKS
    };
    let blue: usize = if filled < BLUE_END {
        filled
    } else {
        BLUE_END
    };
    let yellow: usize = if filled > BLUE_END {
        if filled < YELLOW_END {
            filled - BLUE_END
        } else {
            YELLOW_END - BLUE_END
        }
    } else {
        0
    };
    let red: usize = if filled > YELLOW_END {
        filled - YELLOW_END
    } else {
        0
    };
    LoadZones { blue, yellow, red, empty: LOAD_BLOCKS - filled }
}

// ─── Paths ──────────────────────────────────────────────────────────────────

/// A search for the longest prefix that fits: the next length to try lies half-way between
/// `left` and `right`.
#[derive(Clone, Copy, Debug, PartialEq, Eq, Structural)]
pub struct PrefixSearch {
    pub left: usize,
    pub right: usize,
    /// The longest length so far that fits.
    pub best: usize,
    pub finished: bool,
}

impl PrefixSearch {
    /// The bounds lie within what can be a length.
    pub open spec fn wf(self) -> bool {
        &&& self.right < usize::MAX
        &&& !self.finished ==> self.left <= self.right
    }

    /// Starts a search among the lengths up to `len`.
    pub fn new(len: usize) -> (r: Self)
        requires
            len < usize::MAX,
        ensures
            r == (PrefixSearch { left: 0, right: len, best: 0, finished: false }),
            r.wf(),
    {
        PrefixSearch { left: 0, right: len, best: 0, finished: false }
    }

    /// The length that is tried next.
    pub open spec fn middle(self) -> int {
        (self.left + self.right) / 2
    }

    /// The search after the tried length did or did not fit.
    pub open spec fn narrowed(self, fits: bool) -> PrefixSearch {
        let mid = self.middle();
        if fits {
            PrefixSearch {
                left: (mid + 1) as usize,
                right: self.right,
                best: mid as usize,
                finished: mid + 1 > self.right,
            }
        } else {
            PrefixSearch {
                left: self.left,
                right: (if mid > 0 {
                    mid - 1
                } else {
                    0
                }) as usize,
                best: self.best,
                finished: mid == 0 || self.left > mid - 1,
            }
        }
    }

    /// The length to try next; `None` when the search is over.
    pub fn next(&self) -> (r: Option<usize>)
        requires
            self.wf(),
        ensures
            r is None == self.finished,
            r matches Some(n) ==> n == self.middle() && self.left <= n <= self.right,
    {
        if self.finished {
            None
        } else {
            Some(self.left + (self.right - self.left) / 2)
        }
    }

    /// Takes note of whether the tried length fits.
    pub fn answer(&mut self, fits: bool)
        requires
            old(self).wf(),
            !old(self).finished,
        ensures
            *final(self) == old(self).narrowed(fits),
            final(self).wf(),
    {
        let mid: usize = self.left + (self.right - self.left) / 2;
        if fits {
            self.best = mid;
            self.left = mid + 1;
            self.finished = self.left > self.right;
        } else if mid == 0 {
            self.right = 0;
            self.finished = true;
        } else {
            self.right = mid - 1;
            self.finished = self.left > self.right;
        }
    }
}

/// What a search ends with, for a given rule of which lengths fit.
pub open spec fn search_result(s: PrefixSearch, fits: spec_fn(int) -> bool) -> usize
    decreases
            if s.finished {
                0
            } else {
                s.right - s.left + 1
            },
    when s.wf()
    via search_shrinks
{
    if s.finished {
        s.best
    } else {
        search_result(s.narrowed(fits(s.middle())), fits)
    }
}

#[via_fn]
proof fn search_shrinks(s: PrefixSearch, fits: spec_fn(int) -> bool) {
}

/// Where a shorter prefix fits whenever a longer one does, and the empty one fits, the search ends
/// with the longest prefix that fits.
pub proof fn law_search_finds_longest(len: usize, fits: spec_fn(int) -> bool)
    requires
        len < usize::MAX,
        fits(0),
        forall|a: int, b: int| 0 <= a <= b <= len && #[trigger] fits(b) ==> #[trigger] fits(a),
    ensures
        ({
            let start = PrefixSearch { left: 0, right: len, best: 0, finished: false };
            let longest = search_result(start, fits);
            &&& longest <= len
            &&& fits(longest as int)
            &&& forall|n: int| longest < n <= len ==> !#[trigger] fits(n)
        }),
{
    lemma_search(PrefixSearch { left: 0, right: len, best: 0, finished: false }, len, fits);
}

proof fn lemma_search(s: PrefixSearch, len: usize, fits: spec_fn(int) -> bool)
    requires
        s.wf(),
        s.right <= len,
        fits(0),
        fits(s.best as int),
        forall|a: int, b: int| 0 <= a <= b <= len && #[trigger] fits(b) ==> #[trigger] fits(a),
        forall|n: int| s.right < n <= len ==> !#[trigger] fits(n),
        s.finished ==> s.best == s.right,
        !s.finished ==> s.best <= s.left && (s.best == s.left || s.best + 1 == s.left),
    ensures
        search_result(s, fits) <= len,
        fits(search_result(s, fits) as int),
        forall|n: int| search_result(s, fits) < n <= len ==> !#[trigger] fits(n),
    decreases
            if s.finished {
                0
            } else {
                s.right - s.left + 1
            },
{
    if !s.finished {
        let mid = s.middle();
        let t = s.narrowed(fits(mid));
        if !fits(mid) {
            assert forall|n: int| t.right < n <= len implies !#[trigger] fits(n) by {
                if n <= s.right && fits(n) {
                    assert(fits(mid));
                }
            }
        }
        lemma_search(t, len, fits);
    }
}

/// A path that is shortened to fit: its file name is always there. `full_fits` and `suffix_fits`
/// tell whether the whole path fits and whether the file name fits after an ellipsis; `prefix` is
/// the length of the longest part of the directory that fits before both.
pub open spec fn shortened(
    full: Seq<char>,
    filename: Seq<char>,
    parent: Seq<char>,
    full_fits: bool,
    suffix_fits: bool,
    prefix: int,
) -> Seq<char> {
    if full.len() == 0 || full_fits {
        full
    } else if !suffix_fits || parent.len() == 0 {
        filename
    } else {
        parent.take(prefix) + "..."@ + filename
    }
}

/// Shortens a path to fit.
pub fn truncate_path_smart(
    full: &str,
    filename: &str,
    parent: &str,
    full_fits: bool,
    suffix_fits: bool,
    prefix: usize,
) -> (r: String)
    requires
        prefix <= parent@.len(),
    ensures
        r@ == shortened(full@, filename@, parent@, full_fits, suffix_fits, prefix as int),
{
    if full_fits || text::chars_of(full).len() == 0 {
        return full.to_owned();
    }
    let dir: Vec<char> = text::chars_of(parent);
    if !suffix_fits || dir.len() == 0 {
        return filename.to_owned();
    }
    let head: &[char] = vstd::slice::slice_subrange(dir.as_slice(), 0, prefix);
    assert(head@ =~= parent@.take(prefix as int));
    let mut s: String = text::string_of(head);
    text::push_str(&mut s, "...");
    text::push_str(&mut s, filename);
    s
}

// ─── Ages ───────────────────────────────────────────────────────────────────

/// How long ago something was: `number` is the printed number of seconds, or of minutes from the
/// first minute on; `period` is the printed number of milliseconds between the last two times.
pub open spec fn age_text(
    in_minutes: bool,
    number: Seq<char>,
    period: Option<Seq<char>>,
) -> Seq<char> {
    let age = number + (if in_minutes {
        "m ago"@
    } else {
        "s ago"@
    });
    match period {
        Some(p) => age + "  [\u{394} "@ + p + "ms]"@,
        None => age,
    }
}

/// Writes how long ago something was.
pub fn age(in_minutes: bool, number: &str, period: Option<&str>) -> (r: String)
    ensures
        r@ == age_text(
            in_minutes,
            number@,
            match period {
                Some(p) => Some(p@),
                None => None,
            },
        ),
{
    let mut s: String = number.to_owned();
    if in_minutes {
        text::push_str(&mut s, "m ago");
    } else {
        text::push_str(&mut s, "s ago");
    }
    match period {
        Some(p) => {
            text::push_str(&mut s, "  [\u{394} ");
            text::push_str(&mut s, p);
            text::push_str(&mut s, "ms]");
        },
        None => {},
    }
    s
}

/// The heading of a PDO.
pub open spec fn pdo_heading(node_id: u8, cob_id: u16, age: Seq<char>) -> Seq<char> {
    "Node "@ + text::padded(text::decimal(node_id as nat), 3, ' ') + "   COB-ID 0x"@
        + text::hex_padded(cob_id as nat, 3) + "   "@ + age
}

/// Writes the heading of a PDO.
pub fn pdo_header(node_id: u8, cob_id: u16, age: &str) -> (r: String)
    ensures
        r@ == pdo_heading(node_id, cob_id, age@),
{
    let mut s: String = "Node ".to_owned();
    text::push_decimal_padded(&mut s, node_id as u64, 3, ' ');
    text::push_str(&mut s, "   COB-ID 0x");
    text::push_hex(&mut s, cob_id as u64, 3);
    text::push_str(&mut s, "   ");
    text::push_str(&mut s, age);
    s
}

// ─── Network management ─────────────────────────────────────────────────────

/// The badge of a node's state: an icon, a label, and their colours.
#[derive(Clone, Copy, Debug)]
pub struct Badge {
    pub icon: &'static str,
    pub label: &'static str,
    pub icon_color: (u8, u8, u8),
    pub text_color: (u8, u8, u8),
}

/// The label of a node's state.
pub open spec fn badge_label(state: NmtState) -> Seq<char> {
    match state {
        NmtState::Operational => "OP"@,
        NmtState::PreOperational => "PRE-OP"@,
        NmtState::Stopped => "STOP"@,
        NmtState::Bootup => "BOOT"@,
        NmtState::Unknown(_) => "UNKNOWN"@,
    }
}

/// The colours of a node's state: of the icon and of the label.
pub open spec fn badge_colors(state: NmtState) -> ((u8, u8, u8), (u8, u8, u8)) {
    match state {
        NmtState::Operational => ((0, 210, 90), (120, 230, 140)),
        NmtState::PreOperational => ((230, 190, 0), (240, 210, 80)),
        NmtState::Stopped => ((220, 50, 50), (240, 120, 120)),
        NmtState::Bootup => ((60, 140, 255), (130, 190, 255)),
        NmtState::Unknown(_) => ((160, 160, 160), (160, 160, 160)),
    }
}

/// The icon of a node's state.
pub open spec fn badge_icon(state: NmtState) -> Seq<char> {
    match state {
        NmtState::Operational => "\u{f058}"@,
        NmtState::PreOperational => "\u{f017}"@,
        NmtState::Stopped => "\u{f057}"@,
        NmtState::Bootup => "\u{f135}"@,
        NmtState::Unknown(_) => "\u{f128}"@,
    }
}

/// The badge of a node's state.
pub fn nmt_badge(state: &NmtState) -> (r: Badge)
    ensures
        r.icon@ == badge_icon(*state),
        r.label@ == badge_label(*state),
        (r.icon_color, r.text_color) == badge_colors(*state),
{
    match state {
        NmtState::Operational => Badge {
            icon: "\u{f058}",
            label: "OP",
            icon_color: (0, 210, 90),
            text_color: (120, 230, 140),
        },
        NmtState::PreOperational => Badge {
            icon: "\u{f017}",
            label: "PRE-OP",
            icon_color: (230, 190, 0),
            text_color: (240, 210, 80),
        },
        NmtState::Stopped => Badge {
            icon: "\u{f057}",
            label: "STOP",
            icon_color: (220, 50, 50),
            text_color: (240, 120, 120),
        },
        NmtState::Bootup => Badge {
            icon: "\u{f135}",
            label: "BOOT",
            icon_color: (60, 140, 255),
            text_color: (130, 190, 255),
        },
        NmtState::Unknown(_) => Badge {
            icon: "\u{f128}",
            label: "UNKNOWN",
            icon_color: (160, 160, 160),
            text_color: (160, 160, 160),
        },
    }
}

/// The commands of the buttons in the table of nodes, from left to right.
pub fn nmt_action_commands() -> (r: [NmtCommand; 5])
    ensures
        r@ == seq![
            NmtCommand::StartRemoteNode,
            NmtCommand::StopRemoteNode,
            NmtCommand::EnterPreOperational,
            NmtCommand::ResetNode,
            NmtCommand::ResetCommunication,
        ],
{
    let r: [NmtCommand; 5] = [
        NmtCommand::StartRemoteNode,
        NmtCommand::StopRemoteNode,
        NmtCommand::EnterPreOperational,
        NmtCommand::ResetNode,
        NmtCommand::ResetCommunication,
    ];
    assert(r@ =~= seq![
        NmtCommand::StartRemoteNode,
        NmtCommand::StopRemoteNode,
        NmtCommand::EnterPreOperational,
        NmtCommand::ResetNode,
        NmtCommand::ResetCommunication,
    ]);
    r
}

/// The label of a button in the table of nodes.
pub open spec fn action_text(command: NmtCommand) -> Seq<char> {
    match command {
        NmtCommand::StartRemoteNode => "Start"@,
        NmtCommand::StopRemoteNode => "Stop"@,
        NmtCommand::EnterPreOperational => "Pre-Op"@,
        NmtCommand::ResetNode => "Reset"@,
        NmtCommand::ResetCommunication => "Reset Comm"@,
        NmtCommand::Unknown(_) => ""@,
    }
}

/// The label of a button in the table of nodes.
pub fn nmt_action_label(command: &NmtCommand) -> (r: &'static str)
    ensures
        r@ == action_text(*command),
{
    match command {
        NmtCommand::StartRemoteNode => "Start",
        NmtCommand::StopRemoteNode => "Stop",
        NmtCommand::EnterPreOperational => "Pre-Op",
        NmtCommand::ResetNode => "Reset",
        NmtCommand::ResetCommunication => "Reset Comm",
        NmtCommand::Unknown(_) => "",
    }
}

// ─── Values ─────────────────────────────────────────────────────────────────

/// The bits of a floating-point number: with 32 bits where that is exact, and with 64 bits.
#[derive(Clone, Copy, Debug, PartialEq, Eq, Structural)]
pub struct FloatBits {
    pub narrow: Option<u32>,
    pub wide: u64,
}

/// The hexadecimal form of a PDO value; `None` for bytes, which are displayed in hexadecimal
/// anyway. `float` holds the bits of a floating-point value.
pub open spec fn pdo_hex_text(v: PdoRawValueView, float: FloatBits) -> Option<Seq<char>> {
    let float_text = match float.narrow {
        Some(b) => "0x"@ + text::hex_padded(b as nat, 8),
        None => "0x"@ + text::hex_padded(float.wide as nat, 16),
    };
    match v {
        PdoRawValueView::Integer(n) => Some(
            "0x"@ + text::hex_padded(
                (if n < 0 {
                    n + 0x1_0000_0000_0000_0000
                } else {
                    n
                }) as nat,
                1,
            ),
        ),
        PdoRawValueView::Unsigned(n) => Some("0x"@ + text::hex_padded(n as nat, 1)),
        PdoRawValueView::Real32(_) => Some(float_text),
        PdoRawValueView::Real64(_) => Some(float_text),
        PdoRawValueView::Text(s) => Some(
            text::hex_joined(vstd::utf8::encode_utf8(s), " "@),
        ),
        PdoRawValueView::Bytes(_) => None,
    }
}

fn prefixed_hex(n: u64, width: usize) -> (r: String)
    ensures
        r@ == "0x"@ + text::hex_padded(n as nat, width as nat),
{
    let mut s: String = "0x".to_owned();
    text::push_hex(&mut s, n, width);
    s
}

/// The hexadecimal form of a PDO value.
pub fn pdo_hex(v: &PdoRawValue, float: FloatBits) -> (r: Option<String>)
    ensures
        text_view(r) == pdo_hex_text(v@, float),
{
    match v {
        PdoRawValue::Integer(n) => Some(prefixed_hex(unsigned_form(*n), 1)),
        PdoRawValue::Unsigned(n) => Some(prefixed_hex(*n, 1)),
        PdoRawValue::Real32(_) => Some(float_hex(float)),
        PdoRawValue::Real64(_) => Some(float_hex(float)),
        PdoRawValue::Text(s) => {
            let mut h: String = String::new();
            text::push_hex_bytes(&mut h, s.as_str().as_bytes(), " ");
            assert(h@ =~= text::hex_joined(vstd::utf8::encode_utf8(s@), " "@));
            Some(h)
        },
        PdoRawValue::Bytes(_) => None,
    }
}

fn unsigned_form(n: i64) -> (r: u64)
    ensures
        r == (if n < 0 {
            n + 0x1_0000_0000_0000_0000
        } else {
            n as int
        }),
{
    if n < 0 {
        (n as i128 + 0x1_0000_0000_0000_0000) as u64
    } else {
        n as u64
    }
}

fn float_hex(float: FloatBits) -> (r: String)
    ensures
        r@ == (match float.narrow {
            Some(b) => "0x"@ + text::hex_padded(b as nat, 8),
            None => "0x"@ + text::hex_padded(float.wide as nat, 16),
        }),
{
    match float.narrow {
        Some(b) => prefixed_hex(b as u64, 8),
        None => prefixed_hex(float.wide, 16),
    }
}

/// How a value is shown: its main form, and a note beside it.
#[derive(Debug)]
pub struct ValueText {
    pub main: String,
    pub note: Option<String>,
}

/// The mathematical value of a [`ValueText`].
pub struct ValueTextView {
    pub main: Seq<char>,
    pub note: Option<Seq<char>>,
}

impl ValueText {
    /// The text over views.
    pub open spec fn view(&self) -> ValueTextView {
        ValueTextView { main: self.main@, note: text_view(self.note) }
    }
}

/// A number that may be negative in two's complement.
pub open spec fn two_complement(n: int, modulus: int) -> nat {
    (if n < 0 {
        n + modulus
    } else {
        n
    }) as nat
}

/// A main form with a hexadecimal note in brackets.
pub open spec fn with_hex(main: Seq<char>, n: nat, width: nat) -> ValueTextView {
    ValueTextView { main, note: Some("[0x"@ + text::hex_padded(n, width) + "]"@) }
}

/// How an SDO value is shown: numbers in decimal with their bytes in hexadecimal; bytes as text in
/// quotes where they are text, else in brackets. `float_text` is the printed form of a
/// floating-point value.
pub open spec fn sdo_value_shown(v: SdoValueView, float_text: Seq<char>) -> ValueTextView {
    match v {
        SdoValueView::I8(n) => with_hex(
            text::signed_decimal(n),
            two_complement(n, 0x100),
            2,
        ),
        SdoValueView::I16(n) => with_hex(
            text::signed_decimal(n),
            two_complement(n, 0x1_0000),
            4,
        ),
        SdoValueView::I32(n) => with_hex(
            text::signed_decimal(n),
            two_complement(n, 0x1_0000_0000),
            8,
        ),
        SdoValueView::I64(n) => with_hex(
            text::signed_decimal(n),
            two_complement(n, 0x1_0000_0000_0000_0000),
            16,
        ),
        SdoValueView::U8(n) => with_hex(text::decimal(n as nat), n as nat, 2),
        SdoValueView::U16(n) => with_hex(text::decimal(n as nat), n as nat, 4),
        SdoValueView::U32(n) => with_hex(text::decimal(n as nat), n as nat, 8),
        SdoValueView::U64(n) => with_hex(text::decimal(n as nat), n as nat, 16),
        SdoValueView::F32(b) => with_hex(float_text, b as nat, 8),
        SdoValueView::F64(b) => with_hex(float_text, b as nat, 16),
        SdoValueView::Bytes(b) => match ascii_text(b) {
            Some(t) => ValueTextView {
                main: "\""@ + t + "\""@,
                note: Some(text::hex_joined(b, " "@)),
            },
            None => ValueTextView { main: "["@ + text::hex_joined(b, " "@) + "]"@, note: None },
        },
        SdoValueView::Bool(b) => ValueTextView {
            main: if b {
                "true"@
            } else {
                "false"@
            },
            note: None,
        },
    }
}

fn hex_note(n: u64, width: usize) -> (r: Option<String>)
    ensures
        text_view(r) == Some("[0x"@ + text::hex_padded(n as nat, width as nat) + "]"@),
{
    let mut s: String = "[0x".to_owned();
    text::push_hex(&mut s, n, width);
    text::push_str(&mut s, "]");
    Some(s)
}

fn signed_text(n: i64) -> (r: String)
    ensures
        r@ == text::signed_decimal(n as int),
{
    let mut s: String = String::new();
    text::push_signed(&mut s, n);
    assert(s@ =~= text::signed_decimal(n as int));
    s
}

fn unsigned_text(n: u64) -> (r: String)
    ensures
        r@ == text::decimal(n as nat),
{
    let mut s: String = String::new();
    text::push_decimal(&mut s, n);
    assert(s@ =~= text::decimal(n as nat));
    s
}

fn complement(n: i64, modulus: i64) -> (r: u64)
    requires
        0 < modulus,
        -modulus <= n,
    ensures
        r == two_complement(n as int, modulus as int),
{
    if n < 0 {
        (n + modulus) as u64
    } else {
        n as u64
    }
}

/// How an SDO value is shown.
pub fn sdo_value_text(v: &SdoValue, float_text: &str) -> (r: ValueText)
    ensures
        r@ == sdo_value_shown(v@, float_text@),
{
    match v {
        SdoValue::I8(n) => ValueText {
            main: signed_text(*n as i64),
            note: hex_note(complement(*n as i64, 0x100), 2),
        },
        SdoValue::I16(n) => ValueText {
            main: signed_text(*n as i64),
            note: hex_note(complement(*n as i64, 0x1_0000), 4),
        },
        SdoValue::I32(n) => ValueText {
            main: signed_text(*n as i64),
            note: hex_note(complement(*n as i64, 0x1_0000_0000), 8),
        },
        SdoValue::I64(n) => ValueText {
            main: signed_text(*n),
            note: hex_note(unsigned_form(*n), 16),
        },
        SdoValue::U8(n) => ValueText {
            main: unsigned_text(*n as u64),
            note: hex_note(*n as u64, 2),
        },
        SdoValue::U16(n) => ValueText {
            main: unsigned_text(*n as u64),
            note: hex_note(*n as u64, 4),
        },
        SdoValue::U32(n) => ValueText {
            main: unsigned_text(*n as u64),
            note: hex_note(*n as u64, 8),
        },
        SdoValue::U64(n) => ValueText { main: unsigned_text(*n), note: hex_note(*n, 16) },
        SdoValue::F32(b) => ValueText {
            main: float_text.to_owned(),
            note: hex_note(*b as u64, 8),
        },
        SdoValue::F64(b) => ValueText { main: float_text.to_owned(), note: hex_note(*b, 16) },
        SdoValue::Bytes(b) => {
            match ascii_of(b.as_slice()) {
                Some(t) => {
                    let mut main: String = "\"".to_owned();
                    text::push_str(&mut main, t.as_str());
                    text::push_str(&mut main, "\"");
                    let mut note: String = String::new();
                    text::push_hex_bytes(&mut note, b.as_slice(), " ");
                    assert(note@ =~= text::hex_joined(b@, " "@));
                    ValueText { main, note: Some(note) }
                },
                None => {
                    let mut main: String = "[".to_owned();
                    text::push_hex_bytes(&mut main, b.as_slice(), " ");
                    text::push_str(&mut main, "]");
                    ValueText { main, note: None }
                },
            }
        },
        SdoValue::Bool(b) => ValueText {
            main: if *b {
                "true".to_owned()
            } else {
                "false".to_owned()
            },
            note: None,
        },
    }
}

/// The value of a DBC signal, with the description of its value where there is one.
pub open spec fn described(value: Seq<char>, description: Option<Seq<char>>) -> Seq<char> {
    match description {
        Some(d) => value + " ("@ + d + ")"@,
        None => value,
    }
}

/// Writes the value of a DBC signal.
pub fn dbc_value_text(value: &str, description: &Option<String>) -> (r: String)
    ensures
        r@ == described(value@, text_view(*description)),
{
    let mut s: String = value.to_owned();
    match description {
        Some(d) => {
            text::push_str(&mut s, " (");
            text::push_str(&mut s, d.as_str());
            text::push_str(&mut s, ")");
        },
        None => {},
    }
    s
}

/// The message of a DBC signal: its identifier and its name.
pub open spec fn dbc_message_shown(can_id: u32, name: Seq<char>) -> Seq<char> {
    "0x"@ + text::hex_padded(can_id as nat, 3) + " "@ + name
}

/// Writes the message of a DBC signal.
pub fn dbc_message_text(can_id: u32, name: &str) -> (r: String)
    ensures
        r@ == dbc_message_shown(can_id, name@),
{
    let mut s: String = prefixed_hex(can_id as u64, 3);
    text::push_str(&mut s, " ");
    text::push_str(&mut s, name);
    s
}

/// Whether a signal is listed before another: by identifier, then by name, then in the order in
/// which they were first seen.
pub open spec fn listed_before(s: Seq<SignalEntryView>, i: int, j: int) -> bool {
    ||| s[i].can_id < s[j].can_id
    ||| s[i].can_id == s[j].can_id && (text::less(s[i].signal_name, s[j].signal_name) || (
    s[i].signal_name == s[j].signal_name && i < j))
}

/// Whether a list holds the places of all signals in the order of the table.
pub open spec fn is_signal_table(s: Seq<SignalEntryView>, n: int, order: Seq<usize>) -> bool {
    &&& order.len() == n
    &&& forall|i: int| 0 <= i < n ==> (#[trigger] order[i]) < n
    &&& forall|i: int, j: int|
        0 <= i < j < n ==> listed_before(s, #[trigger] order[i] as int, #[trigger] order[j] as int)
}

fn comes_later(a: &DbcSignalEntry, b: &DbcSignalEntry) -> (r: bool)
    ensures
        r == (b.can_id < a.can_id || (a.can_id == b.can_id && text::less(
            b.signal_name@,
            a.signal_name@,
        ))),
{
    if a.can_id != b.can_id {
        return b.can_id < a.can_id;
    }
    let x: Vec<char> = text::chars_of(a.signal_name.as_str());
    let y: Vec<char> = text::chars_of(b.signal_name.as_str());
    text::comes_before(y.as_slice(), x.as_slice())
}

/// The order of the signals in the table: by identifier, then by name.
pub fn signal_table(entries: &Vec<DbcSignalEntry>) -> (r: Vec<usize>)
    ensures
        is_signal_table(crate::app::signal_entries(entries@), entries@.len() as int, r@),
{
    let ghost all = crate::app::signal_entries(entries@);
    let mut order: Vec<usize> = Vec::new();
    let mut k: usize = 0;
    while k < entries.len()
        invariant
            k <= entries@.len(),
            all == crate::app::signal_entries(entries@),
            is_signal_table(all, k as int, order@),
        decreases entries@.len() - k,
    {
        let mut p: usize = k;
        while p > 0 && comes_later(&entries[order[p - 1]], &entries[k])
            invariant
                p <= k,
                k < entries@.len(),
                all == crate::app::signal_entries(entries@),
                is_signal_table(all, k as int, order@),
                forall|q: int|
                    p <= q < k ==> listed_before(all, k as int, #[trigger] order@[q] as int),
            decreases p,
        {
            assert(all[order@[p - 1] as int] == entries@[order@[p - 1] as int]@);
            assert(all[k as int] == entries@[k as int]@);
            p -= 1;
        }
        proof {
            if p > 0 {
                let last = order@[p - 1] as int;
                assert(all[last] == entries@[last]@);
                assert(all[k as int] == entries@[k as int]@);
                text::law_order(
                    all[last].signal_name,
                    all[k as int].signal_name,
                    all[last].signal_name,
                );
                assert(listed_before(all, last, k as int));
                assert forall|q: int| 0 <= q < p implies listed_before(
                    all,
                    #[trigger] order@[q] as int,
                    k as int,
                ) by {
                    text::law_order(
                        all[order@[q] as int].signal_name,
                        all[last].signal_name,
                        all[k as int].signal_name,
                    );
                    if q < p - 1 {
                        assert(listed_before(all, order@[q] as int, order@[p - 1] as int));
                    }
                }
            }
        }
        let ghost before = order@;
        order.insert(p, k);
        proof {
            assert forall|i: int, j: int| 0 <= i < j < k + 1 implies listed_before(
                all,
                #[trigger] order@[i] as int,
                #[trigger] order@[j] as int,
            ) by {
                let bi = if i < p {
                    i
                } else {
                    i - 1
                };
                let bj = if j < p {
                    j
                } else {
                    j - 1
                };
                if i != p && j != p {
                    assert(listed_before(all, before[bi] as int, before[bj] as int));
                } else if i == p {
                    assert(listed_before(all, k as int, before[bj] as int));
                } else {
                    assert(listed_before(all, before[bi] as int, k as int));
                }
            }
        }
        k += 1;
    }
    order
}

// ─── SDO log ────────────────────────────────────────────────────────────────

/// The texts of a line of the SDO log.
#[derive(Debug)]
pub struct SdoLineText {
    pub node: String,
    pub direction: &'static str,
    pub address: String,
    pub abort: Option<String>,
}

/// An object's address: `1018h/01`.
pub open spec fn address_text(index: u16, subindex: u8) -> Seq<char> {
    text::hex_padded(index as nat, 4) + "h/"@ + text::hex_padded(subindex as nat, 2)
}

/// Writes an object's address.
pub fn push_address(s: &mut String, index: u16, subindex: u8)
    ensures
        final(s)@ == old(s)@ + address_text(index, subindex),
{
    text::push_hex(s, index as u64, 4);
    text::push_str(s, "h/");
    text::push_hex(s, subindex as u64, 2);
    assert(s@ =~= old(s)@ + address_text(index, subindex));
}

/// Writes the texts of a line of the SDO log: `N05`, `READ `, `1018h/01`, `[ABORT 0x06020000]`.
pub fn sdo_line(
    node_id: u8,
    direction: SdoDirection,
    index: u16,
    subindex: u8,
    abort_code: Option<u32>,
) -> (r: SdoLineText)
    ensures
        r.node@ == "N"@ + text::padded(text::decimal(node_id as nat), 2, '0'),
        r.direction@ == (match direction {
            SdoDirection::Read => "READ "@,
            SdoDirection::Write => "WRITE"@,
        }),
        r.address@ == address_text(index, subindex),
        text_view(r.abort) == (match abort_code {
            Some(c) => Some("[ABORT 0x"@ + text::hex_padded(c as nat, 8) + "]"@),
            None => None,
        }),
{
    let mut node: String = "N".to_owned();
    text::push_decimal_padded(&mut node, node_id as u64, 2, '0');
    let mut address: String = String::new();
    push_address(&mut address, index, subindex);
    assert(address@ =~= address_text(index, subindex));
    let abort: Option<String> = match abort_code {
        Some(c) => {
            let mut s: String = "[ABORT 0x".to_owned();
            text::push_hex(&mut s, c as u64, 8);
            text::push_str(&mut s, "]");
            Some(s)
        },
        None => None,
    };
    SdoLineText {
        node,
        direction: match direction {
            SdoDirection::Read => "READ ",
            SdoDirection::Write => "WRITE",
        },
        address,
        abort,
    }
}

/// Grouping only puts commas between the digits: without them the digits are as they were, and
/// every group behind a comma has three.
pub proof fn law_grouping_keeps_digits(digits: Seq<char>)
    requires
        !digits.contains(','),
    ensures
        grouped(digits).filter(|c: char| c != ',') == digits,
        digits.len() > 3 ==> grouped(digits)[grouped(digits).len() - 4] == ','
            && grouped(digits).skip(grouped(digits).len() - 3) == digits.skip(digits.len() - 3),
        digits.len() <= 3 ==> grouped(digits) == digits,
    decreases digits.len(),
{
    let keep = |c: char| c != ',';
    let g = grouped(digits);
    if digits.len() <= 3 {
        lemma_no_commas(digits);
    } else {
        let head = digits.take(digits.len() - 3);
        let tail = digits.skip(digits.len() - 3);
        assert forall|i: int| 0 <= i < head.len() implies head[i] != ',' by {
            assert(digits.contains(digits[i]));
        }
        assert forall|i: int| 0 <= i < tail.len() implies tail[i] != ',' by {
            assert(digits.contains(digits[digits.len() - 3 + i]));
        }
        law_grouping_keeps_digits(head);
        lemma_no_commas(tail);
        let part = grouped(head) + seq![','];
        assert(part.drop_last() =~= grouped(head));
        reveal(Seq::filter);
        assert(part.filter(keep) == grouped(head).filter(keep));
        lemma_filter_tail(part, tail);
        assert(part + tail =~= g);
        assert(head + tail =~= digits);
        assert(g.skip(g.len() - 3) =~= tail);
    }
}

proof fn lemma_no_commas(s: Seq<char>)
    requires
        !s.contains(','),
    ensures
        s.filter(|c: char| c != ',') == s,
    decreases s.len(),
{
    let keep = |c: char| c != ',';
    reveal(Seq::filter);
    if s.len() > 0 {
        assert(s.contains(s[s.len() - 1]));
        assert forall|i: int| 0 <= i < s.drop_last().len() implies s.drop_last()[i] != ',' by {
            assert(s.contains(s[i]));
        }
        lemma_no_commas(s.drop_last());
        assert(s.drop_last().push(s.last()) =~= s);
    }
}

proof fn lemma_filter_tail(a: Seq<char>, b: Seq<char>)
    requires
        !b.contains(','),
    ensures
        (a + b).filter(|c: char| c != ',') == a.filter(|c: char| c != ',') + b,
    decreases b.len(),
{
    let keep = |c: char| c != ',';
    reveal(Seq::filter);
    if b.len() == 0 {
        assert(a + b =~= a);
        assert(a.filter(keep) + b =~= a.filter(keep));
    } else {
        assert(b.contains(b[b.len() - 1]));
        assert forall|i: int| 0 <= i < b.drop_last().len() implies b.drop_last()[i] != ',' by {
            assert(b.contains(b[i]));
        }
        lemma_filter_tail(a, b.drop_last());
        assert((a + b).drop_last() =~= a + b.drop_last());
        assert((a + b).last() == b.last());
        assert(a.filter(keep) + b =~= (a.filter(keep) + b.drop_last()).push(b.last()));
    }
}

/// The hexadecimal note of an integer shows its bytes at the width of its type, negative numbers in
/// two's complement; the main form shows the number with its sign.
pub proof fn law_notes_show_bytes(n: int)
    ensures
        -0x80 <= n < 0x80 ==> shows_number(sdo_value_shown(SdoValueView::I8(n), seq![]), n, 0x100, 2),
        -0x8000 <= n < 0x8000 ==> shows_number(
            sdo_value_shown(SdoValueView::I16(n), seq![]),
            n,
            0x1_0000,
            4,
        ),
        -0x8000_0000 <= n < 0x8000_0000 ==> shows_number(
            sdo_value_shown(SdoValueView::I32(n), seq![]),
            n,
            0x1_0000_0000,
            8,
        ),
        -0x8000_0000_0000_0000 <= n < 0x8000_0000_0000_0000 ==> shows_number(
            sdo_value_shown(SdoValueView::I64(n), seq![]),
            n,
            0x1_0000_0000_0000_0000,
            16,
        ),
        0 <= n < 0x100 ==> shows_number(sdo_value_shown(SdoValueView::U8(n), seq![]), n, 0x100, 2),
        0 <= n < 0x1_0000 ==> shows_number(
            sdo_value_shown(SdoValueView::U16(n), seq![]),
            n,
            0x1_0000,
            4,
        ),
        0 <= n < 0x1_0000_0000 ==> shows_number(
            sdo_value_shown(SdoValueView::U32(n), seq![]),
            n,
            0x1_0000_0000,
            8,
        ),
        0 <= n < 0x1_0000_0000_0000_0000 ==> shows_number(
            sdo_value_shown(SdoValueView::U64(n), seq![]),
            n,
            0x1_0000_0000_0000_0000,
            16,
        ),
{
    lemma_shown(n, 0x100, 2);
    lemma_shown(n, 0x1_0000, 4);
    lemma_shown(n, 0x1_0000_0000, 8);
    lemma_shown(n, 0x1_0000_0000_0000_0000, 16);
}

proof fn lemma_shown(n: int, modulus: int, digits: nat)
    requires
        modulus > 0,
    ensures
        -modulus <= n < modulus ==> shows_number(
            with_hex(text::signed_decimal(n), two_complement(n, modulus), digits),
            n,
            modulus,
            digits,
        ),
        0 <= n < modulus ==> shows_number(
            with_hex(text::decimal(n as nat), n as nat, digits),
            n,
            modulus,
            digits,
        ),
{
    if 0 <= n < modulus {
        vstd::arithmetic::div_mod::lemma_fundamental_div_mod_converse(n, modulus, 0, n);
    } else if -modulus <= n < 0 {
        vstd::arithmetic::div_mod::lemma_fundamental_div_mod_converse(n, modulus, -1, n + modulus);
    }
}

/// Whether a shown value is a number in decimal with a note of its residue in hexadecimal.
pub open spec fn shows_number(v: ValueTextView, n: int, modulus: int, digits: nat) -> bool {
    &&& v.main == text::signed_decimal(n)
    &&& v.note == Some("[0x"@ + text::hex_padded((n % modulus) as nat, digits) + "]"@)
}

} // verus!
