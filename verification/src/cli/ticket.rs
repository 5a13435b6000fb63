//! Tickets, which say how a node can be reached.

use iroh_base::ticket::NodeTicket;

use vstd::prelude::*;

use crate::proto::addr::{text_of, texts_of, NodeAddr, NodeAddrView};
use crate::proto::keys::{be_value, PublicKey};

verus! {

/// What `iroh_base` reads from the text of a node ticket: the bytes of the node's identifier, the
/// URL of its relay server, and its socket addresses; or what is wrong with the text.
pub uninterp spec fn ticket_parts(text: Seq<char>) -> Result<
    (Seq<u8>, Option<Seq<char>>, Seq<Seq<char>>),
    Seq<char>,
>;

/// `NodeTicket::from_str` reads a ticket; its parts are handed out as bytes and texts, and the
/// error as a text.
#[verifier::external_body]
fn read_ticket(text: &str) -> (r: Result<([u8; 32], Option<String>, Vec<String>), String>)
    ensures
        match r {
            Ok((id, relay, direct)) => ticket_parts(text@) == Ok::<
                (Seq<u8>, Option<Seq<char>>, Seq<Seq<char>>),
                Seq<char>,
            >((id@, text_of(relay), texts_of(direct@))),
            Err(err) => ticket_parts(text@) == Err::<
                (Seq<u8>, Option<Seq<char>>, Seq<Seq<char>>),
                Seq<char>,
            >(err@),
        },
{
    match text.parse::<NodeTicket>() {
        Ok(ticket) => {
            let addr = ticket.node_addr();
            let relay = addr.relay_url.as_ref().map(|url| url.to_string());
            let direct = addr.direct_addresses.iter().map(|a| a.to_string()).collect();
            Ok((*addr.node_id.as_bytes(), relay, direct))
        },
        Err(err) => Err(err.to_string()),
    }
}

/// Whether `addr` is made up of these parts.
pub open spec fn made_of(
    addr: NodeAddrView,
    id: Seq<u8>,
    relay: Option<Seq<char>>,
    direct: Seq<Seq<char>>,
) -> bool {
    &&& addr.node_id.hi == be_value(id.subrange(0, 16))
    &&& addr.node_id.lo == be_value(id.subrange(16, 32))
    &&& addr.relay_url == relay
    &&& addr.direct_addresses == direct
}

/// The address that is made up of the parts of a ticket.
pub fn addr_from_parts(id: [u8; 32], relay_url: Option<String>, direct: Vec<String>) -> (addr:
    NodeAddr)
    ensures
        made_of(addr@, id@, text_of(relay_url), texts_of(direct@)),
{
    NodeAddr { node_id: PublicKey::from_bytes(&id), relay_url, direct_addresses: direct }
}

/// Reads how a peer can be reached from a ticket. Returns what is wrong with a text that is no
/// ticket.
pub fn parse_peer(text: &str) -> (r: Result<NodeAddr, String>)
    ensures
        match ticket_parts(text@) {
            Ok((id, relay, direct)) => r matches Ok(addr) && made_of(addr@, id, relay, direct),
            Err(err) => r matches Err(e) && e@ == err,
        },
{
    match read_ticket(text) {
        Ok((id, relay, direct)) => Ok(addr_from_parts(id, relay, direct)),
        Err(err) => Err(err),
    }
}

} // verus!
