//! A pairing that both sides saved, or neither reports.

use vstd::prelude::*;

use crate::bytes::same_bytes;
use crate::net::identity::DeviceId;
use crate::net::trust::PairedPeer;

verus! {

/// Seconds that a pairing may take.
pub const TIMEOUT: u64 = 30;

/// What a side sends once it saved the pairing: `saved`.
pub const SAVED: [u8; 5] = [115, 97, 118, 101, 100];

/// Refuses a paired device that is not the one on the other end of the
/// connection; otherwise it is to be saved under its id.
pub fn check_paired(peer: &PairedPeer, connected: DeviceId) -> (out: Result<DeviceId, String>)
    ensures
        match out {
            Ok(id) => id == peer.device_id && id == connected,
            Err(said) => {
                &&& peer.device_id != connected
                &&& said@ == "paired identity did not match the connection's device key"@
            },
        },
{
    if peer.device_id == connected {
        Ok(peer.device_id)
    } else {
        Err("paired identity did not match the connection's device key".to_owned())
    }
}

/// Judges the other side's word that it saved the pairing: what it sent, and
/// whether it stopped reading ours.
pub fn check_saved(received: &[u8], stopped: bool) -> (out: Result<(), String>)
    ensures
        match out {
            Ok(()) => received@ == SAVED@ && !stopped,
            Err(said) => if received@ != SAVED@ {
                said@ == "peer did not confirm saving the pairing"@
            } else {
                stopped && said@ == "peer stopped the pairing confirmation"@
            },
        },
{
    let saved = SAVED;
    if !same_bytes(received, saved.as_slice()) {
        return Err("peer did not confirm saving the pairing".to_owned());
    }
    if stopped {
        return Err("peer stopped the pairing confirmation".to_owned());
    }
    Ok(())
}

/// What is said once a pairing is kept is `saved`.
pub proof fn law_word_for_saved(i: int)
    ensures
        SAVED@.len() == 5,
        0 <= i < 5 ==> SAVED@[i] as int == "saved"@[i] as int,
{
    reveal_strlit("saved");
}

}
