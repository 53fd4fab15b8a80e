//! The identity of a peer, held by its canonical text.

use vstd::prelude::*;

verus! {

/// What the text of a peer identity parses to, written out again: the
/// base-58 text of the identity that `text` denotes, or `None` where `text`
/// denotes none.
pub uninterp spec fn canonical_peer_text(text: Seq<char>) -> Option<Seq<char>>;

/// Whether `text` is the canonical text of a peer identity.
pub open spec fn is_peer_text(text: Seq<char>) -> bool {
    canonical_peer_text(text) == Some(text)
}

/// The identity of a peer. Two identities are the same peer where their
/// texts are equal.
#[derive(Debug)]
pub struct PeerId {
    text: String,
}

/// `<libp2p_identity::PeerId as FromStr>::from_str`, then
/// `libp2p_identity::PeerId::to_base58` on what was parsed: the canonical
/// text of the identity, or `None` where the text is no identity. An
/// identity parsed back from its own base-58 text is that identity, so the
/// canonical text parses to itself.
#[verifier::external_body]
fn parse_peer_text(text: &str) -> (parsed: Option<String>)
    ensures
        parsed matches Some(canonical) ==> canonical_peer_text(text@) == Some(canonical@)
            && canonical_peer_text(canonical@) == Some(canonical@),
        parsed is None ==> canonical_peer_text(text@) is None,
{
    match text.parse::<libp2p_identity::PeerId>() {
        Ok(peer) => Some(peer.to_base58()),
        Err(_) => None,
    }
}

impl View for PeerId {
    type V = Seq<char>;

    closed spec fn view(&self) -> Seq<char> {
        self.text@
    }
}

impl PeerId {
    #[verifier::type_invariant]
    spec fn well_formed(self) -> bool {
        is_peer_text(self.text@)
    }

    /// The identity that `text` denotes, or `None` where it denotes none.
    pub fn parse(text: &str) -> (parsed: Option<PeerId>)
        ensures
            parsed matches Some(peer) ==> canonical_peer_text(text@) == Some(peer@),
            parsed is None ==> canonical_peer_text(text@) is None,
    {
        match parse_peer_text(text) {
            Some(canonical) => Some(PeerId { text: canonical }),
            None => None,
        }
    }

    /// The canonical text of the identity.
    pub fn to_base58(&self) -> (text: String)
        ensures
            text@ == self@,
            is_peer_text(text@),
    {
        proof {
            use_type_invariant(self);
        }
        self.text.clone()
    }

    /// Whether the two identities are the same peer.
    pub fn same_as(&self, other: &PeerId) -> (same: bool)
        ensures
            same == (self@ == other@),
    {
        self.text == other.text
    }

    /// A copy of the identity.
    pub fn duplicate(&self) -> (copy: PeerId)
        ensures
            copy@ == self@,
    {
        proof {
            use_type_invariant(self);
        }
        PeerId { text: self.text.clone() }
    }
}

} // verus!
