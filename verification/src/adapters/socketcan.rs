//! SocketCAN adapter: diagnosis before opening, and the meaning of what is received.

use vstd::prelude::*;

use crate::adapters::apex::{can_kind, is_can_kind};
use crate::adapters::{AdapterError, AdapterErrorView, ReceivedFrame};
use crate::frame::{CanFrame, Id};
use crate::text;

verus! {

/// What the system tells about an interface.
#[derive(Debug)]
pub struct InterfaceState {
    /// The interface exists.
    pub exists: bool,
    /// The driver module is loaded.
    pub driver_loaded: bool,
    /// The CAN interfaces there are, in order.
    pub can_interfaces: Vec<String>,
    /// The text of the interface's type file; empty where it cannot be read.
    pub kind: String,
    /// The text of the interface's flags file; empty where it cannot be read.
    pub flags: String,
}

/// Text without any number of leading `0x`.
pub open spec fn without_hex_prefixes(s: Seq<char>) -> Seq<char>
    decreases s.len(),
{
    if s.len() >= 2 && s[0] == '0' && s[1] == 'x' {
        without_hex_prefixes(s.skip(2))
    } else {
        s
    }
}

/// The flags of an interface; none where the text writes no number.
pub open spec fn interface_flags(flags: Seq<char>) -> nat {
    match text::unsigned_number(without_hex_prefixes(text::trimmed(flags)), 16, 0xFFFF_FFFF) {
        Some(n) => n,
        None => 0,
    }
}

/// Whether an interface is up: bit 0 of its flags.
pub open spec fn is_up(flags: Seq<char>) -> bool {
    interface_flags(flags) % 2 == 1
}

/// The strings of a list as texts.
pub open spec fn string_texts(v: Seq<String>) -> Seq<Seq<char>> {
    v.map_values(|s: String| s@)
}

/// The names of the interfaces whose type is that of a CAN interface. An interface is a name and the
/// text of its type file.
pub open spec fn can_names(found: Seq<(Seq<char>, Seq<char>)>) -> Seq<Seq<char>>
    decreases found.len(),
{
    if found.len() == 0 {
        seq![]
    } else if is_can_kind(found.last().1) {
        can_names(found.drop_last()).push(found.last().0)
    } else {
        can_names(found.drop_last())
    }
}

/// The interfaces over views.
pub open spec fn found_views(found: Seq<(String, String)>) -> Seq<(Seq<char>, Seq<char>)> {
    found.map_values(|f: (String, String)| (f.0@, f.1@))
}

/// The CAN interfaces among those found, each given by its name and the text of its type file, in
/// alphabetical order.
pub fn can_interfaces(found: &Vec<(String, String)>) -> (r: Vec<String>)
    ensures
        text::is_sorted_form(can_names(found_views(found@)), text::string_views(r@)),
{
    let ghost all = found_views(found@);
    let mut names: Vec<String> = Vec::new();
    let mut i: usize = 0;
    assert(text::string_views(names@) =~= seq![]);
    while i < found.len()
        invariant
            i <= found@.len(),
            all == found_views(found@),
            text::string_views(names@) == can_names(all.take(i as int)),
        decreases found@.len() - i,
    {
        assert(all.take(i + 1).drop_last() =~= all.take(i as int));
        assert(all.take(i + 1).last() == (found@[i as int].0@, found@[i as int].1@));
        if can_kind(found[i].1.as_str()) {
            let name: String = found[i].0.clone();
            let ghost before = names@;
            let ghost added = name@;
            names.push(name);
            assert(text::string_views(names@) =~= text::string_views(before).push(added));
        }
        i += 1;
    }
    assert(all.take(all.len() as int) =~= all);
    text::sort_texts(&names)
}

/// Directions for a system without the driver module.
pub open spec fn no_driver_text(interface: Seq<char>) -> Seq<char> {
    "SocketCAN interface '"@ + interface
        + "' not found and the peak_usb kernel\nmodule is not loaded.\n\nStep 1 \u{2014} load the driver (once per boot):\n\tsudo modprobe peak_usb\n\nStep 2 \u{2014} plug in the PEAK adapter (or re-plug if already connected).\n\nStep 3 \u{2014} bring up the interface:\n\tsudo ip link set "@
        + interface + " up type can bitrate 250000\n\nVerify:  ip link show | grep can"@
}

/// What is said about the interfaces there are.
pub open spec fn available_text(interfaces: Seq<Seq<char>>) -> Seq<char> {
    if interfaces.len() > 0 {
        "\n\nAvailable CAN interfaces: "@ + text::joined(interfaces, ", "@)
    } else {
        "\n\n(No CAN interfaces are currently up \u{2014} is the adapter plugged in?)"@
    }
}

/// Directions for an interface that does not exist.
pub open spec fn missing_text(interface: Seq<char>, interfaces: Seq<Seq<char>>) -> Seq<char> {
    "SocketCAN interface '"@ + interface + "' not found."@ + available_text(interfaces)
        + "\n\nBring up the correct interface:\n\tsudo ip link set <iface> up type can bitrate 250000"@
}

/// Directions for an interface that is not a CAN interface.
pub open spec fn not_can_text(interface: Seq<char>, kind: Seq<char>) -> Seq<char> {
    "'"@ + interface + "' is not a CAN interface (type="@ + text::trimmed(kind)
        + ").\nCheck available CAN interfaces: ip link show | grep can"@
}

/// Directions for an interface that is down.
pub open spec fn down_text(interface: Seq<char>) -> Seq<char> {
    "SocketCAN interface '"@ + interface
        + "' exists but is DOWN.\n\nBring it up:\n\tsudo ip link set "@ + interface
        + " up type can bitrate 250000"@
}

/// Why an interface cannot be opened, if it cannot.
pub open spec fn obstacle(interface: Seq<char>, s: InterfaceState) -> Option<Seq<char>> {
    if !s.exists && !s.driver_loaded {
        Some(no_driver_text(interface))
    } else if !s.exists {
        Some(missing_text(interface, string_texts(s.can_interfaces@)))
    } else if !is_can_kind(s.kind@) {
        Some(not_can_text(interface, s.kind@))
    } else if !is_up(s.flags@) {
        Some(down_text(interface))
    } else {
        None
    }
}

fn strip_hex_prefixes(s: &[char]) -> (r: &[char])
    ensures
        r@ == without_hex_prefixes(s@),
{
    let n: usize = s.len();
    let mut i: usize = 0;
    assert(s@.skip(0) =~= s@);
    while n - i >= 2 && s[i] == '0' && s[i + 1] == 'x'
        invariant
            n == s@.len(),
            i <= n,
            without_hex_prefixes(s@.skip(i as int)) == without_hex_prefixes(s@),
        decreases n - i,
    {
        assert(s@.skip(i as int).skip(2) =~= s@.skip(i + 2));
        i += 2;
    }
    let t: &[char] = vstd::slice::slice_subrange(s, i, n);
    assert(t@ =~= s@.skip(i as int));
    t
}

fn up(flags: &str) -> (r: bool)
    ensures
        r == is_up(flags@),
{
    let t: Vec<char> = text::trim(flags);
    match text::parse_unsigned(strip_hex_prefixes(t.as_slice()), 16, 0xFFFF_FFFF) {
        Some(n) => n % 2 == 1,
        None => false,
    }
}

fn join_strings(parts: &Vec<String>, sep: &str) -> (r: String)
    ensures
        r@ == text::joined(string_texts(parts@), sep@),
{
    let mut out: String = String::new();
    let ghost all = string_texts(parts@);
    let mut i: usize = 0;
    assert(all.take(0) =~= Seq::<Seq<char>>::empty());
    while i < parts.len()
        invariant
            i <= parts@.len(),
            all == string_texts(parts@),
            out@ == text::joined(all.take(i as int), sep@),
        decreases parts@.len() - i,
    {
        assert(all.take(i + 1).drop_last() =~= all.take(i as int));
        if i > 0 {
            text::push_str(&mut out, sep);
        }
        text::push_str(&mut out, parts[i].as_str());
        i += 1;
        assert(out@ =~= text::joined(all.take(i as int), sep@));
    }
    assert(all.take(i as int) =~= all);
    out
}

/// Checks an interface before it is opened. The error says what to do about the obstacle.
pub fn check_interface(interface: &str, s: &InterfaceState) -> (r: Result<(), AdapterError>)
    ensures
        r is Ok == obstacle(interface@, *s) is None,
        r matches Err(e) ==> e@ == AdapterErrorView::NotFound(obstacle(interface@, *s)->0),
{
    if !s.exists && !s.driver_loaded {
        let mut t: String = "SocketCAN interface '".to_owned();
        text::push_str(&mut t, interface);
        text::push_str(
            &mut t,
            "' not found and the peak_usb kernel\nmodule is not loaded.\n\nStep 1 \u{2014} load the driver (once per boot):\n\tsudo modprobe peak_usb\n\nStep 2 \u{2014} plug in the PEAK adapter (or re-plug if already connected).\n\nStep 3 \u{2014} bring up the interface:\n\tsudo ip link set ",
        );
        text::push_str(&mut t, interface);
        text::push_str(
            &mut t,
            " up type can bitrate 250000\n\nVerify:  ip link show | grep can",
        );
        return Err(AdapterError::NotFound(t));
    }
    if !s.exists {
        let mut t: String = "SocketCAN interface '".to_owned();
        text::push_str(&mut t, interface);
        text::push_str(&mut t, "' not found.");
        let hint: String = if s.can_interfaces.len() > 0 {
            let list: String = join_strings(&s.can_interfaces, ", ");
            text::join2("\n\nAvailable CAN interfaces: ", list.as_str())
        } else {
            "\n\n(No CAN interfaces are currently up \u{2014} is the adapter plugged in?)".to_owned()
        };
        assert(string_texts(s.can_interfaces@).len() == s.can_interfaces@.len());
        assert(hint@ == available_text(string_texts(s.can_interfaces@)));
        text::push_str(&mut t, hint.as_str());
        text::push_str(
            &mut t,
            "\n\nBring up the correct interface:\n\tsudo ip link set <iface> up type can bitrate 250000",
        );
        return Err(AdapterError::NotFound(t));
    }
    if !can_kind(s.kind.as_str()) {
        let k: Vec<char> = text::trim(s.kind.as_str());
        let mut t: String = "'".to_owned();
        text::push_str(&mut t, interface);
        text::push_str(&mut t, "' is not a CAN interface (type=");
        text::push_chars(&mut t, k.as_slice());
        text::push_str(
            &mut t,
            ").\nCheck available CAN interfaces: ip link show | grep can",
        );
        return Err(AdapterError::NotFound(t));
    }
    if !up(s.flags.as_str()) {
        let mut t: String = "SocketCAN interface '".to_owned();
        text::push_str(&mut t, interface);
        text::push_str(
            &mut t,
            "' exists but is DOWN.\n\nBring it up:\n\tsudo ip link set ",
        );
        text::push_str(&mut t, interface);
        text::push_str(&mut t, " up type can bitrate 250000");
        return Err(AdapterError::NotFound(t));
    }
    Ok(())
}

/// The error number of an interface that was taken down.
pub const ENETDOWN: i32 = 100;

/// What a read from the socket came to.
#[derive(Debug)]
pub enum SocketRead {
    /// A data frame.
    Data { id: Id, data: Vec<u8> },
    /// A remote frame.
    Remote,
    /// An error frame.
    ErrorFrame,
    /// Nothing within the timeout.
    TimedOut,
    /// The read failed, with this error number (if it has one) and message.
    Failed { os_error: Option<i32>, message: String },
}

/// What a read from the socket means. Error frames and an interface that was taken down count as
/// a disconnect; remote frames are not carried on.
pub fn receive(read: SocketRead) -> (r: Result<ReceivedFrame, AdapterError>)
    ensures
        match read {
            SocketRead::Data { id, data } => if id.wf() && data@.len() <= 8 {
                r matches Ok(f) && {
                    &&& f.frame.spec_id() == id
                    &&& f.frame.payload() == data@
                    &&& f.hardware_timestamp_ns is None
                    &&& f.channel == 0
                    &&& !f.is_tx_echo
                }
            } else {
                r matches Err(e) && e@ == AdapterErrorView::Io("malformed SocketCAN data frame"@)
            },
            SocketRead::Remote => r matches Err(e) && e@ == AdapterErrorView::Io(
                "malformed SocketCAN RTR frame"@,
            ),
            SocketRead::ErrorFrame => r matches Err(e) && e@ == AdapterErrorView::Disconnected,
            SocketRead::TimedOut => r matches Err(e) && e@ == AdapterErrorView::Timeout,
            SocketRead::Failed { os_error, message } => if os_error == Some(ENETDOWN) {
                r matches Err(e) && e@ == AdapterErrorView::Disconnected
            } else {
                r matches Err(e) && e@ == AdapterErrorView::Io(message@)
            },
        },
{
    match read {
        SocketRead::Data { id, data } => match CanFrame::new(id, data.as_slice()) {
            Some(frame) => Ok(
                ReceivedFrame {
                    frame,
                    hardware_timestamp_ns: None,
                    channel: 0,
                    is_tx_echo: false,
                },
            ),
            None => Err(AdapterError::Io("malformed SocketCAN data frame".to_owned())),
        },
        SocketRead::Remote => Err(AdapterError::Io("malformed SocketCAN RTR frame".to_owned())),
        SocketRead::ErrorFrame => Err(AdapterError::Disconnected),
        SocketRead::TimedOut => Err(AdapterError::Timeout),
        SocketRead::Failed { os_error, message } => {
            let down: bool = match os_error {
                Some(n) => n == ENETDOWN,
                None => false,
            };
            if down {
                Err(AdapterError::Disconnected)
            } else {
                Err(AdapterError::Io(message))
            }
        },
    }
}

/// The flags of an interface, in hexadecimal behind `0x`, show it up just where their lowest bit is
/// set.
pub proof fn law_up_is_lowest_bit(n: u32, width: nat)
    ensures
        is_up(seq!['0', 'x'] + text::hex_padded(n as nat, width)) == (n % 2 == 1),
{
    let h = text::hex_padded(n as nat, width);
    let s = seq!['0', 'x'] + h;
    text::lemma_numerals_not_spaced(n as nat, 16, width);
    text::law_hex_width(n as nat, width);
    assert(s.skip(2) =~= h);
    assert(text::digit_value(h[0], 16) is Some);
    if h.len() >= 2 {
        assert(text::digit_value(h[1], 16) is Some);
    }
    reveal_with_fuel(without_hex_prefixes, 2);
    assert(without_hex_prefixes(s) == h);
}

/// An interface can be opened just where it exists, is a CAN interface, and is up.
pub proof fn law_interface_usable(interface: Seq<char>, s: InterfaceState)
    ensures
        obstacle(interface, s) is None <==> (s.exists && text::trimmed(s.kind@) == "280"@ && is_up(
            s.flags@,
        )),
{
}

/// The CAN interfaces among those found are the names of exactly those of type 280, in order.
pub proof fn law_can_interfaces_listed(found: Seq<(Seq<char>, Seq<char>)>)
    ensures
        can_names(found) == found.filter(
            |f: (Seq<char>, Seq<char>)| text::trimmed(f.1) == "280"@,
        ).map_values(|f: (Seq<char>, Seq<char>)| f.0),
    decreases found.len(),
{
    let keep = |f: (Seq<char>, Seq<char>)| text::trimmed(f.1) == "280"@;
    let name = |f: (Seq<char>, Seq<char>)| f.0;
    reveal(Seq::filter);
    if found.len() > 0 {
        law_can_interfaces_listed(found.drop_last());
    }
    assert(can_names(found) =~= found.filter(keep).map_values(name));
}

} // verus!
