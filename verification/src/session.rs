//! Commands to a running session.

use vstd::prelude::*;

use crate::bbd::sdo_client::SdocType;
use crate::canopen::nmt::NmtCommand;
use crate::canopen::sdo::SdoTransferMode;

verus! {

/// A command to the thread that owns the adapter.
#[derive(Debug)]
pub enum CanCommand {
    /// Send a network management command to a node, or to all for node 0.
    SendNmt { command: NmtCommand, target_node: u8 },
    /// Read an object of a node.
    SdoRead { node_id: u8, index: u16, subindex: u8, mode: SdoTransferMode },
    /// Write an object of a node.
    SdoWrite { node_id: u8, index: u16, subindex: u8, data: Vec<u8>, mode: SdoTransferMode },
}

/// The mathematical value of a [`CanCommand`].
pub enum CommandView {
    SendNmt { command: NmtCommand, target_node: u8 },
    SdoRead { node_id: u8, index: u16, subindex: u8, mode: SdoTransferMode },
    SdoWrite { node_id: u8, index: u16, subindex: u8, data: Seq<u8>, mode: SdoTransferMode },
}

impl CanCommand {
    /// The command over views.
    pub open spec fn view(&self) -> CommandView {
        match self {
            CanCommand::SendNmt { command, target_node } => CommandView::SendNmt {
                command: *command,
                target_node: *target_node,
            },
            CanCommand::SdoRead { node_id, index, subindex, mode } => CommandView::SdoRead {
                node_id: *node_id,
                index: *index,
                subindex: *subindex,
                mode: *mode,
            },
            CanCommand::SdoWrite { node_id, index, subindex, data, mode } => CommandView::SdoWrite {
                node_id: *node_id,
                index: *index,
                subindex: *subindex,
                data: data@,
                mode: *mode,
            },
        }
    }
}

/// The view of an optional command.
pub open spec fn command_view(c: Option<CanCommand>) -> Option<CommandView> {
    match c {
        Some(c) => Some(c@),
        None => None,
    }
}

/// Lets a command through unless the session only listens: then nothing is transmitted.
pub fn permitted(command: CanCommand, listen_only: bool) -> (r: Option<CanCommand>)
    ensures
        command_view(r) == (if listen_only {
            None
        } else {
            Some(command@)
        }),
{
    if listen_only {
        None
    } else {
        Some(command)
    }
}

/// The transfers to try for a write, one after the other: by block and then in segments unless one
/// of the two is demanded.
pub fn write_transfers(mode: SdoTransferMode) -> (r: (SdocType, Option<SdocType>))
    ensures
        r == (match mode {
            SdoTransferMode::Auto => (SdocType::Block, Some(SdocType::Segmented)),
            SdoTransferMode::ForcedSegmented => (SdocType::Segmented, None),
            SdoTransferMode::ForcedBlock => (SdocType::Block, None),
        }),
{
    match mode {
        SdoTransferMode::Auto => (SdocType::Block, Some(SdocType::Segmented)),
        SdoTransferMode::ForcedSegmented => (SdocType::Segmented, None),
        SdoTransferMode::ForcedBlock => (SdocType::Block, None),
    }
}

} // verus!
