use vstd::prelude::*;

verus! {

/// The address of a peer, held as the text that the standard library's `Display` for
/// `SocketAddr` writes for it (`127.0.0.1:8080`, `[::1]:80`). Two peers are the same
/// exactly when their texts are.
pub struct PeerAddr {
    text: String,
}

impl View for PeerAddr {
    type V = Seq<char>;

    closed spec fn view(&self) -> Seq<char> {
        self.text@
    }
}

impl Clone for PeerAddr {
    fn clone(&self) -> (r: Self)
        ensures
            r@ == self@,
    {
        PeerAddr { text: self.text.clone() }
    }
}

impl PeerAddr {
    /// The address whose canonical text is `text`.
    pub fn from_text(text: String) -> (r: PeerAddr)
        ensures
            r@ == text@,
    {
        PeerAddr { text }
    }

    /// The canonical text of the address.
    pub fn as_str(&self) -> (r: &str)
        ensures
            r@ == self@,
    {
        self.text.as_str()
    }

    /// Whether two addresses are the same peer.
    pub fn same(&self, other: &PeerAddr) -> (r: bool)
        ensures
            r == (self@ == other@),
    {
        self.text == other.text
    }
}

} // verus!
