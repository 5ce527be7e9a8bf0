//! Peer identifiers.

use vstd::prelude::*;
use vstd::string::*;

verus! {

/// The name of a peer in the overlay.
#[derive(Debug, PartialEq, Eq, Hash, PartialOrd, Ord)]
pub struct PeerID(pub String);

impl View for PeerID {
    type V = Seq<char>;

    open spec fn view(&self) -> Seq<char> {
        self.0@
    }
}

impl DeepView for PeerID {
    type V = Seq<char>;

    open spec fn deep_view(&self) -> Seq<char> {
        self.0@
    }
}

impl Clone for PeerID {
    fn clone(&self) -> (copy: PeerID)
        ensures
            copy@ == self@,
    {
        PeerID(self.0.clone())
    }
}

impl<'a> From<&'a str> for PeerID {
    fn from(item: &'a str) -> (id: PeerID)
        ensures
            id@ == item@,
    {
        PeerID(item.to_owned())
    }
}

impl From<String> for PeerID {
    fn from(item: String) -> (id: PeerID)
        ensures
            id@ == item@,
    {
        PeerID(item)
    }
}

impl vstd::std_specs::convert::FromSpecImpl<String> for PeerID {
    open spec fn obeys_from_spec() -> bool {
        true
    }

    open spec fn from_spec(item: String) -> PeerID {
        PeerID(item)
    }
}

/// Converting a `&str` gives an identifier with the same text; the `String`
/// inside is a fresh copy, so the conversion is stated by its view in the
/// `ensures` of `from` rather than as an equation between values.
impl<'a> vstd::std_specs::convert::FromSpecImpl<&'a str> for PeerID {
    open spec fn obeys_from_spec() -> bool {
        false
    }

    open spec fn from_spec(item: &'a str) -> PeerID {
        choose|id: PeerID| id@ == item@
    }
}

impl PeerID {
    /// Whether two identifiers name the same peer.
    pub fn same(&self, other: &PeerID) -> (same: bool)
        ensures
            same == (self@ == other@),
    {
        self.0 == other.0
    }

    /// Whether this identifier is the text `other`.
    pub fn is(&self, other: &str) -> (same: bool)
        ensures
            same == (self@ == other@),
    {
        let owned: String = other.to_owned();
        self.0 == owned
    }

    /// The identifier as `Display` writes it: the name itself.
    pub fn to_string(&self) -> (text: String)
        ensures
            text@ == self@,
    {
        self.0.clone()
    }

    /// The name.
    pub fn as_str(&self) -> (text: &str)
        ensures
            text@ == self@,
    {
        self.0.as_str()
    }
}

} // verus!
