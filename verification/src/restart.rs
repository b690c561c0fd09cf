//! Restarting one adapter: the request, and what is said of its outcome.

use crate::protocol::broadcom::{
    bcm_restart_ack, build_sta_restart_req, BCM_STA_RESTART_CNF, BCM_STA_RESTART_REQ,
};
use crate::protocol::{
    bcm_frame, is_bcm_message, law_bcm_frame_bytes, law_bcm_frame_reads_back,
    law_messages_are_known_by_their_header, mac_at, mac_text, MacAddr,
};
use vstd::prelude::*;
use vstd::string::*;

verus! {

/// Seconds to listen for the acknowledgement of a restart.
pub const ACK_WAIT_SECS: u64 = 5;

/// Seconds to listen for the acknowledgement of a restart during a health check.
pub const CHECK_ACK_WAIT_SECS: u64 = 3;

/// Seconds until an adapter is expected to be back.
pub const SETTLE_SECS: u64 = 15;

/// What is said when no acknowledgement came.
pub const NO_ACK: &'static str =
    "No confirmation received (adapter may have restarted immediately).";

/// The request to restart `target`, sent from the address `host`.
pub fn restart_request(target: MacAddr, host: MacAddr) -> (f: Vec<u8>)
    ensures
        f@ == bcm_frame(target, host, BCM_STA_RESTART_REQ, 0, Seq::empty()),
        f@.subrange(0, 6) == target.0@,
        f@.subrange(6, 12) == host.0@,
{
    proof {
        law_bcm_frame_bytes(target, host, BCM_STA_RESTART_REQ, 0, Seq::empty());
    }
    build_sta_restart_req(target, host, 0)
}

/// `data` acknowledges a restart.
pub open spec fn acknowledges(data: Seq<u8>) -> bool {
    is_bcm_message(data, BCM_STA_RESTART_CNF)
}

/// Test whether a frame acknowledges a restart.
pub fn is_ack(data: &[u8]) -> (r: bool)
    ensures
        r == acknowledges(data@),
{
    bcm_restart_ack(data).is_some()
}

/// Tell that a restart is requested.
pub fn sending_note(target: MacAddr) -> (r: String)
    ensures
        r@ == "Sending restart to "@ + mac_text(target) + "..."@,
{
    let mut r = String::from_str("Sending restart to ");
    r.append(target.to_string().as_str());
    r.append("...");
    r
}

/// Tell who acknowledges a restart with `data`; `None` where nobody does.
pub fn ack_note(data: &[u8]) -> (r: Option<String>)
    ensures
        match r {
            Some(text) => acknowledges(data@) && text@ == "Adapter "@ + mac_text(mac_at(data@, 6))
                + " acknowledged restart."@,
            None => !acknowledges(data@),
        },
{
    match bcm_restart_ack(data) {
        Some(src) => {
            let mut r = String::from_str("Adapter ");
            r.append(src.to_string().as_str());
            r.append(" acknowledged restart.");
            Some(r)
        },
        None => None,
    }
}

/// A request to restart is not taken for its acknowledgement.
pub proof fn law_request_is_no_acknowledgement(target: MacAddr, host: MacAddr)
    ensures
        !acknowledges(bcm_frame(target, host, BCM_STA_RESTART_REQ, 0, Seq::empty())),
{
    law_bcm_frame_reads_back(
        target,
        host,
        BCM_STA_RESTART_REQ,
        0,
        Seq::empty(),
        BCM_STA_RESTART_CNF,
    );
}

/// The request to restart goes to the adapter, from the host, and asks for nothing
/// else; an acknowledgement is a frame of the matching type.
pub proof fn law_restart_request(target: MacAddr, host: MacAddr, data: Seq<u8>)
    ensures
        ({
            let f = bcm_frame(target, host, BCM_STA_RESTART_REQ, 0, Seq::empty());
            &&& f.subrange(0, 6) == target.0@
            &&& f.subrange(6, 12) == host.0@
            &&& f.subrange(12, 15) == seq![0x89u8, 0x12, 2]
            &&& f[15] + 256 * f[16] == 0xA020
        }),
        acknowledges(data) <==> data.len() >= 23 && data[12] == 0x89 && data[13] == 0x12 && data[14]
            == 2 && data[15] + 256 * data[16] == 0xA021,
{
    law_bcm_frame_bytes(target, host, BCM_STA_RESTART_REQ, 0, Seq::empty());
    law_messages_are_known_by_their_header(data, BCM_STA_RESTART_CNF);
}

}
