//! Network management: node states and commands.

use vstd::prelude::*;

use crate::text;

verus! {

/// State of a node as reported by its heartbeat.
#[derive(Clone, Copy, Debug, PartialEq, Eq, Structural)]
pub enum NmtState {
    Bootup,
    Stopped,
    Operational,
    PreOperational,
    /// Any other state byte.
    Unknown(u8),
}

/// Command of the network master.
#[derive(Clone, Copy, Debug, PartialEq, Eq, Structural)]
pub enum NmtCommand {
    StartRemoteNode,
    StopRemoteNode,
    EnterPreOperational,
    ResetNode,
    ResetCommunication,
    /// Any other command byte.
    Unknown(u8),
}

/// The state that the byte of a heartbeat reports.
pub open spec fn state_of(b: u8) -> NmtState {
    if b == 0x00 {
        NmtState::Bootup
    } else if b == 0x04 {
        NmtState::Stopped
    } else if b == 0x05 {
        NmtState::Operational
    } else if b == 0x7F {
        NmtState::PreOperational
    } else {
        NmtState::Unknown(b)
    }
}

/// The byte of a command.
pub open spec fn command_byte(c: NmtCommand) -> u8 {
    match c {
        NmtCommand::StartRemoteNode => 0x01,
        NmtCommand::StopRemoteNode => 0x02,
        NmtCommand::EnterPreOperational => 0x80,
        NmtCommand::ResetNode => 0x81,
        NmtCommand::ResetCommunication => 0x82,
        NmtCommand::Unknown(b) => b,
    }
}

/// How a state is displayed.
pub open spec fn state_text(state: NmtState) -> Seq<char> {
    match state {
        NmtState::Bootup => "BOOTUP"@,
        NmtState::Stopped => "STOPPED"@,
        NmtState::Operational => "OPERATIONAL"@,
        NmtState::PreOperational => "PRE-OPERATIONAL"@,
        NmtState::Unknown(b) => "UNKNOWN(0x"@ + text::hex_padded(b as nat, 2) + ")"@,
    }
}

impl NmtCommand {
    /// The command of a byte.
    pub fn from_byte(b: u8) -> (r: Self)
        ensures
            command_byte(r) == b,
            r is Unknown == (b != 0x01 && b != 0x02 && b != 0x80 && b != 0x81 && b != 0x82),
    {
        match b {
            0x01 => NmtCommand::StartRemoteNode,
            0x02 => NmtCommand::StopRemoteNode,
            0x80 => NmtCommand::EnterPreOperational,
            0x81 => NmtCommand::ResetNode,
            0x82 => NmtCommand::ResetCommunication,
            _ => NmtCommand::Unknown(b),
        }
    }

    /// The payload of the command to one node, or to all for node 0.
    pub fn payload(&self, target_node: u8) -> (r: [u8; 2])
        ensures
            r@ == seq![command_byte(*self), target_node],
    {
        let b: u8 = match self {
            NmtCommand::StartRemoteNode => 0x01,
            NmtCommand::StopRemoteNode => 0x02,
            NmtCommand::EnterPreOperational => 0x80,
            NmtCommand::ResetNode => 0x81,
            NmtCommand::ResetCommunication => 0x82,
            NmtCommand::Unknown(b) => *b,
        };
        let r: [u8; 2] = [b, target_node];
        assert(r@ =~= seq![command_byte(*self), target_node]);
        r
    }
}

impl NmtState {
    /// The state that the byte of a heartbeat reports.
    pub fn from_byte(b: u8) -> (r: Self)
        ensures
            r == state_of(b),
    {
        match b {
            0x00 => NmtState::Bootup,
            0x04 => NmtState::Stopped,
            0x05 => NmtState::Operational,
            0x7F => NmtState::PreOperational,
            _ => NmtState::Unknown(b),
        }
    }

    /// The displayed text.
    pub fn display(&self) -> (r: String)
        ensures
            r@ == state_text(*self),
    {
        match self {
            NmtState::Bootup => "BOOTUP".to_owned(),
            NmtState::Stopped => "STOPPED".to_owned(),
            NmtState::Operational => "OPERATIONAL".to_owned(),
            NmtState::PreOperational => "PRE-OPERATIONAL".to_owned(),
            NmtState::Unknown(b) => {
                let mut s: String = "UNKNOWN(0x".to_owned();
                text::push_hex(&mut s, *b as u64, 2);
                text::push_str(&mut s, ")");
                s
            },
        }
    }
}

/// An observed network management message.
#[derive(Clone, Copy, Debug, PartialEq, Eq, Structural)]
pub enum NmtEvent {
    /// A command to one node, or to all for node 0.
    Command { command: NmtCommand, target_node: u8 },
    /// A heartbeat.
    Heartbeat { node_id: u8, state: NmtState },
}

/// The states of a heartbeat byte: 0 is boot-up, 4 stopped, 5 operational, 127 pre-operational, and
/// any other byte is kept as it is.
pub proof fn law_heartbeat_states(b: u8)
    ensures
        state_of(0) == NmtState::Bootup,
        state_of(4) == NmtState::Stopped,
        state_of(5) == NmtState::Operational,
        state_of(127) == NmtState::PreOperational,
        b != 0 && b != 4 && b != 5 && b != 127 ==> state_of(b) == NmtState::Unknown(b),
{
}

/// The bytes of the commands: start is 1, stop 2, pre-operational 128, reset of the node 129 and of
/// its communication 130; commands of different bytes are different.
pub proof fn law_command_bytes(a: NmtCommand, b: NmtCommand)
    ensures
        command_byte(NmtCommand::StartRemoteNode) == 1,
        command_byte(NmtCommand::StopRemoteNode) == 2,
        command_byte(NmtCommand::EnterPreOperational) == 128,
        command_byte(NmtCommand::ResetNode) == 129,
        command_byte(NmtCommand::ResetCommunication) == 130,
        command_byte(a) == command_byte(b) && !(a is Unknown) && !(b is Unknown) ==> a == b,
        a matches NmtCommand::Unknown(x) ==> command_byte(a) == x,
{
}

} // verus!
