//! Where a node can be reached.

use vstd::prelude::*;

use crate::proto::keys::PublicKey;

verus! {

/// A node and the ways to contact it.
///
/// The protocol reads only `node_id`; the rest is handed on as it came.
#[derive(Debug)]
pub struct NodeAddr {
    /// The node's identifier.
    pub node_id: PublicKey,
    /// The URL of the relay server through which the node can be reached.
    pub relay_url: Option<String>,
    /// Socket addresses where the node might be reached directly, each as `address:port`.
    pub direct_addresses: Vec<String>,
}

/// What a [`NodeAddr`] holds.
#[verifier::ext_equal]
pub struct NodeAddrView {
    pub node_id: PublicKey,
    pub relay_url: Option<Seq<char>>,
    pub direct_addresses: Seq<Seq<char>>,
}

/// The text of an optional string.
pub open spec fn text_of(s: Option<String>) -> Option<Seq<char>> {
    match s {
        Some(s) => Some(s@),
        None => None,
    }
}

/// The texts of a list of strings.
pub open spec fn texts_of(s: Seq<String>) -> Seq<Seq<char>> {
    s.map_values(|t: String| t@)
}

impl View for NodeAddr {
    type V = NodeAddrView;

    open spec fn view(&self) -> NodeAddrView {
        NodeAddrView {
            node_id: self.node_id,
            relay_url: text_of(self.relay_url),
            direct_addresses: texts_of(self.direct_addresses@),
        }
    }
}

impl Clone for NodeAddr {
    fn clone(&self) -> (copy: NodeAddr)
        ensures
            copy@ == self@,
    {
        let relay_url = match &self.relay_url {
            Some(url) => Some(url.clone()),
            None => None,
        };
        let mut direct_addresses: Vec<String> = Vec::new();
        let mut i: usize = 0;
        while i < self.direct_addresses.len()
            invariant
                i <= self.direct_addresses@.len(),
                direct_addresses@.len() == i,
                forall|j: int|
                    0 <= j < i ==> (#[trigger] direct_addresses@[j])@ == self.direct_addresses@[j]@,
            decreases self.direct_addresses@.len() - i,
        {
            direct_addresses.push(self.direct_addresses[i].clone());
            i = i + 1;
        }
        let copy = NodeAddr { node_id: self.node_id, relay_url, direct_addresses };
        assert(copy@.direct_addresses =~= self@.direct_addresses);
        copy
    }
}

} // verus!
