//! The texts that peers exchange: a node names itself in its messages by the
//! decimal text of its id, and a node that receives a coordinator message reads
//! the announced leader back from that text.
use crate::text::{decimal_text, law_parse_reads_back_decimal, parse_u32, spec_decimal, spec_parse_u32};
use vstd::prelude::*;

verus! {

/// The leader a coordinator message announces: its replica id read as a
/// number, or 0 when the text is not a number.
pub open spec fn spec_announced_leader(replica_id: Seq<char>) -> u32 {
    match spec_parse_u32(replica_id) {
        Some(n) => n,
        None => 0,
    }
}

/// The replica id a node writes in its election, heartbeat and coordinator messages.
pub fn replica_id_text(peer_id: u32) -> (r: String)
    ensures
        r@ == spec_decimal(peer_id as nat),
{
    decimal_text(peer_id)
}

/// The leader a received coordinator message announces.
pub fn announced_leader(replica_id: &str) -> (r: u32)
    ensures
        r == spec_announced_leader(replica_id@),
{
    match parse_u32(replica_id) {
        Some(n) => n,
        None => 0,
    }
}

/// A coordinator message names its sender: the receiving node reads back
/// exactly the id of the node that announced itself.
pub proof fn law_announcement_names_sender(peer_id: u32)
    ensures
        spec_announced_leader(spec_decimal(peer_id as nat)) == peer_id,
{
    law_parse_reads_back_decimal(peer_id);
}

} // verus!
