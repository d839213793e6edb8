//! Commands that the server sends back to the buoy.
use vstd::prelude::*;

use crate::errors::GiftError;
use crate::text::{response_ok, response_ok_bytes, same_bytes};
use crate::ControllerAction;

verus! {

/// A directive of the operator. There is one so far.
#[derive(Clone, Copy, Debug, PartialEq, Eq, Structural)]
pub enum FX30Command {
    /// Normal operation: nothing to do.
    Normal,
}

/// Carries out a command of the server.
pub fn handle_fx30_command(cmd: FX30Command) -> (r: Result<(), GiftError>)
    ensures
        r == Ok::<(), GiftError>(()),
{
    match cmd {
        FX30Command::Normal => Ok(()),
    }
}

/// Whether the reply of the server is the plain acknowledgement.
pub fn is_response_ok(resp: &[u8]) -> (r: bool)
    ensures
        r == (resp@ == response_ok()),
{
    let ok = response_ok_bytes();
    same_bytes(resp, ok.as_slice())
}

/// The action that a reply of the server asks for. Every reply, the plain
/// acknowledgement and anything else alike, maps to normal operation.
pub fn parse_server_response(resp: &[u8]) -> (r: ControllerAction)
    ensures
        r == ControllerAction::CtrlServerCmd(FX30Command::Normal),
{
    if is_response_ok(resp) {
        ControllerAction::CtrlServerCmd(FX30Command::Normal)
    } else {
        ControllerAction::CtrlServerCmd(FX30Command::Normal)
    }
}

/// The action to put on the controller's channel for a reply, and whether
/// the reply was the one expected.
pub fn handle_server_response(resp: &[u8]) -> (r: (ControllerAction, bool))
    ensures
        r.0 == ControllerAction::CtrlServerCmd(FX30Command::Normal),
        r.1 == (resp@ == response_ok()),
{
    (parse_server_response(resp), is_response_ok(resp))
}

} // verus!
