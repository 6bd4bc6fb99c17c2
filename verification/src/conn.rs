use crate::addr::PeerAddr;
use crate::table::AddrTable;
use vstd::prelude::*;

verus! {

/// A peer address with a note on the connection.
pub struct MetaSocketAddr {
    addr: PeerAddr,
    meta: String,
}

/// How a peer address with its note is written: the address, a space, the note.
pub open spec fn meta_text(addr: Seq<char>, meta: Seq<char>) -> Seq<char> {
    addr + " "@ + meta
}

impl MetaSocketAddr {
    /// The address.
    pub closed spec fn address(&self) -> Seq<char> {
        self.addr@
    }

    /// The note.
    pub closed spec fn note(&self) -> Seq<char> {
        self.meta@
    }

    /// An address with its note.
    pub fn pkg(addr: PeerAddr, meta: String) -> (r: MetaSocketAddr)
        ensures
            r.address() == addr@,
            r.note() == meta@,
    {
        MetaSocketAddr { addr, meta }
    }

    /// The text that `Display` writes.
    pub fn to_text(&self) -> (r: String)
        ensures
            r@ == meta_text(self.address(), self.note()),
    {
        let mut s = String::from_str(self.addr.as_str());
        s.append(" ");
        s.append(self.meta.as_str());
        s
    }
}

/// The note on a connection that a peer opened to this side.
pub open spec fn client_note() -> Seq<char> {
    "(Conn to Client)"@
}

/// The note on a connection that this side opened to a peer.
pub open spec fn server_note() -> Seq<char> {
    "(Conn to Server)"@
}

/// The connections of this side: its own address; the peers that connected to it
/// (this side acting as server), and the peers that it connected to (this side acting
/// as client), each with the handle `S` used to write to it.
pub struct ConnCtx<S> {
    this: PeerAddr,
    as_server: AddrTable<S>,
    as_client: AddrTable<S>,
}

impl<S> ConnCtx<S> {
    /// This side's own address.
    pub closed spec fn own_addr(&self) -> Seq<char> {
        self.this@
    }

    /// The peers that connected to this side.
    pub closed spec fn clients(&self) -> Map<Seq<char>, S> {
        self.as_server.map()
    }

    /// The peers that this side connected to.
    pub closed spec fn servers(&self) -> Map<Seq<char>, S> {
        self.as_client.map()
    }

    /// The handle to send a message to the peer with, as `addr_stream` picks it; where
    /// there is no connection to the peer, the error `No Conn on <addr>`.
    pub fn stream_for_send(&self, addr: &PeerAddr) -> (r: Result<&S, String>)
        ensures
            match r {
                Ok(s) => if self.clients().dom().contains(addr@) {
                    *s == self.clients()[addr@]
                } else {
                    self.servers().dom().contains(addr@) && *s == self.servers()[addr@]
                },
                Err(e) => !self.clients().dom().contains(addr@) && !self.servers().dom().contains(
                    addr@,
                ) && e@ == "No Conn on "@ + addr@,
            },
    {
        match self.addr_stream(addr) {
            Some(s) => Ok(s),
            None => {
                let mut e = String::from_str("No Conn on ");
                e.append(addr.as_str());
                Err(e)
            },
        }
    }

    /// The connections to probe for the status report, in order: those to clients, then
    /// those to servers.
    pub closed spec fn targets(&self) -> Seq<(Seq<char>, Seq<char>, S)> {
        self.as_server.listing().map_values(|e: (Seq<char>, S)| (e.0, client_note(), e.1))
            + self.as_client.listing().map_values(|e: (Seq<char>, S)| (e.0, server_note(), e.1))
    }

    /// What the status report probes: each peer that connected to this side, once and
    /// with the client note, then each peer that this side connected to, once and with
    /// the server note; each with the handle to write to it.
    pub proof fn lemma_targets(&self)
        requires
            self.wf(),
        ensures
            self.clients().dom().finite(),
            self.servers().dom().finite(),
            self.targets().len() == self.clients().dom().len() + self.servers().dom().len(),
            forall|i: int|
                0 <= i < self.clients().dom().len() ==> (#[trigger] self.targets()[i]).1
                    == client_note() && self.clients().dom().contains(self.targets()[i].0)
                    && self.clients()[self.targets()[i].0] == self.targets()[i].2,
            forall|i: int|
                self.clients().dom().len() <= i < self.targets().len() ==> (
                #[trigger] self.targets()[i]).1 == server_note() && self.servers().dom().contains(
                    self.targets()[i].0,
                ) && self.servers()[self.targets()[i].0] == self.targets()[i].2,
            forall|k: Seq<char>|
                #[trigger] self.clients().dom().contains(k) ==> exists|i: int|
                    0 <= i < self.clients().dom().len() && #[trigger] self.targets()[i].0 == k,
            forall|k: Seq<char>|
                #[trigger] self.servers().dom().contains(k) ==> exists|i: int|
                    self.clients().dom().len() <= i < self.targets().len() && #[trigger] self.targets()[i].0
                        == k,
            forall|i: int, j: int|
                0 <= i < j < self.clients().dom().len() ==> #[trigger] self.targets()[i].0
                    != #[trigger] self.targets()[j].0,
            forall|i: int, j: int|
                self.clients().dom().len() <= i < j < self.targets().len() ==> #[trigger] self.targets()[i].0
                    != #[trigger] self.targets()[j].0,
    {
        self.as_server.lemma_listing();
        self.as_client.lemma_listing();
        let la = self.as_server.listing();
        let lb = self.as_client.listing();
        let n = la.len() as int;
        let t = self.targets();
        assert forall|i: int| 0 <= i < n implies #[trigger] t[i] == (la[i].0, client_note(), la[i].1) by {
        }
        assert forall|i: int| n <= i < t.len() implies #[trigger] t[i] == (
            lb[i - n].0,
            server_note(),
            lb[i - n].1,
        ) by {
        }
        assert forall|k: Seq<char>| #[trigger] self.clients().dom().contains(k) implies exists|i: int|
            0 <= i < n && #[trigger] t[i].0 == k by {
            assert(self.as_server.map().dom().contains(k));
            let i = choose|i: int| 0 <= i < la.len() && #[trigger] la[i].0 == k;
            assert(t[i] == (la[i].0, client_note(), la[i].1));
            assert(0 <= i < n && t[i].0 == k);
        }
        assert forall|k: Seq<char>| #[trigger] self.servers().dom().contains(k) implies exists|i: int|
            n <= i < t.len() && #[trigger] t[i].0 == k by {
            assert(self.as_client.map().dom().contains(k));
            let i = choose|i: int| 0 <= i < lb.len() && #[trigger] lb[i].0 == k;
            assert(t[n + i] == (lb[i].0, server_note(), lb[i].1));
            assert(n <= n + i < t.len() && t[n + i].0 == k);
        }
        assert forall|i: int, j: int| 0 <= i < j < n implies #[trigger] t[i].0 != #[trigger] t[j].0 by {
            assert(t[i] == (la[i].0, client_note(), la[i].1));
            assert(t[j] == (la[j].0, client_note(), la[j].1));
            assert(la[i].0 != la[j].0);
        }
        assert forall|i: int, j: int| n <= i < j < t.len() implies #[trigger] t[i].0 != #[trigger] t[j].0 by {
            assert(t[i] == (lb[i - n].0, server_note(), lb[i - n].1));
            assert(t[j] == (lb[j - n].0, server_note(), lb[j - n].1));
            assert(lb[i - n].0 != lb[j - n].0);
        }
    }

    /// Each table lists an address once (what `lemma_targets` rests on; `new` and every
    /// change keep it).
    pub closed spec fn wf(&self) -> bool {
        self.as_server.wf() && self.as_client.wf()
    }

    /// No connections yet.
    pub fn new(addr: PeerAddr) -> (r: ConnCtx<S>)
        ensures
            r.wf(),
            r.own_addr() == addr@,
            r.clients() == Map::<Seq<char>, S>::empty(),
            r.servers() == Map::<Seq<char>, S>::empty(),
    {
        let r = ConnCtx { this: addr, as_server: AddrTable::new(), as_client: AddrTable::new() };
        proof {
            use_type_invariant(&r.as_server);
            use_type_invariant(&r.as_client);
        }
        r
    }

    /// This side's own address.
    pub fn addr(&self) -> (r: &PeerAddr)
        ensures
            r@ == self.own_addr(),
    {
        &self.this
    }

    /// A peer connected to this side: its write handle is kept, replacing any earlier one.
    pub fn add_client(&mut self, addr: PeerAddr, stream: S)
        ensures
            final(self).wf(),
            final(self).clients() == old(self).clients().insert(addr@, stream),
            final(self).servers() == old(self).servers(),
            final(self).own_addr() == old(self).own_addr(),
    {
        self.as_server.insert(addr, stream);
        proof {
            use_type_invariant(&self.as_server);
            use_type_invariant(&self.as_client);
        }
    }

    /// This side connected to a peer: its write handle is kept, replacing any earlier one.
    pub fn add_server(&mut self, addr: PeerAddr, stream: S)
        ensures
            final(self).wf(),
            final(self).servers() == old(self).servers().insert(addr@, stream),
            final(self).clients() == old(self).clients(),
            final(self).own_addr() == old(self).own_addr(),
    {
        self.as_client.insert(addr, stream);
        proof {
            use_type_invariant(&self.as_server);
            use_type_invariant(&self.as_client);
        }
    }

    /// Drops the connection that this side opened to a peer, giving back its handle;
    /// an error where there is none.
    pub fn try_disconnect_server(&mut self, addr: &PeerAddr) -> (r: Result<S, String>)
        ensures
            final(self).wf(),
            final(self).servers() == old(self).servers().remove(addr@),
            final(self).clients() == old(self).clients(),
            final(self).own_addr() == old(self).own_addr(),
            match r {
                Ok(s) => old(self).servers().dom().contains(addr@) && s == old(self).servers()[addr@],
                Err(e) => !old(self).servers().dom().contains(addr@) && e@ == "不存在的远端主机！"@,
            },
    {
        let removed = self.as_client.remove(addr);
        proof {
            use_type_invariant(&self.as_server);
            use_type_invariant(&self.as_client);
        }
        match removed {
            Some(s) => Ok(s),
            None => Err(String::from_str("不存在的远端主机！")),
        }
    }

    /// The handle of the connection that this side opened to the peer, if any.
    pub fn server_stream(&self, addr: &PeerAddr) -> (r: Option<&S>)
        ensures
            match r {
                Some(s) => self.servers().dom().contains(addr@) && *s == self.servers()[addr@],
                None => !self.servers().dom().contains(addr@),
            },
    {
        self.as_client.get(addr)
    }

    /// The handle of the connection that the peer opened to this side, if any.
    pub fn client_stream(&self, addr: &PeerAddr) -> (r: Option<&S>)
        ensures
            match r {
                Some(s) => self.clients().dom().contains(addr@) && *s == self.clients()[addr@],
                None => !self.clients().dom().contains(addr@),
            },
    {
        self.as_server.get(addr)
    }

    /// The handle to write to the peer with: the connection it opened to this side if
    /// there is one, else the one this side opened to it, if any.
    pub fn addr_stream(&self, addr: &PeerAddr) -> (r: Option<&S>)
        ensures
            match r {
                Some(s) => if self.clients().dom().contains(addr@) {
                    *s == self.clients()[addr@]
                } else {
                    self.servers().dom().contains(addr@) && *s == self.servers()[addr@]
                },
                None => !self.clients().dom().contains(addr@) && !self.servers().dom().contains(
                    addr@,
                ),
            },
    {
        match self.client_stream(addr) {
            Some(s) => Some(s),
            None => self.server_stream(addr),
        }
    }

    /// The connections to probe for the status report, with their notes (see `targets`).
    pub fn status_targets(&self) -> (r: Vec<MetaSocketAddr>)
        ensures
            r@.len() == self.targets().len(),
            forall|i: int|
                0 <= i < r@.len() ==> (#[trigger] r@[i]).address() == self.targets()[i].0
                    && r@[i].note() == self.targets()[i].1,
    {
        let mut out: Vec<MetaSocketAddr> = Vec::new();
        let n = self.as_server.len();
        let mut i: usize = 0;
        let ghost a = self.as_server.listing().map_values(|e: (Seq<char>, S)| (e.0, client_note(), e.1));
        let ghost b = self.as_client.listing().map_values(|e: (Seq<char>, S)| (e.0, server_note(), e.1));
        while i < n
            invariant
                n == self.as_server.listing().len(),
                a == self.as_server.listing().map_values(|e: (Seq<char>, S)| (e.0, client_note(), e.1)),
                i <= n,
                out@.len() == i,
                forall|j: int|
                    0 <= j < i ==> (#[trigger] out@[j]).address() == a[j].0 && out@[j].note() == a[j].1,
            decreases n - i,
        {
            let (addr, _) = self.as_server.entry_at(i);
            out.push(MetaSocketAddr::pkg(addr.clone(), String::from_str("(Conn to Client)")));
            i = i + 1;
        }
        let m = self.as_client.len();
        let mut k: usize = 0;
        while k < m
            invariant
                m == self.as_client.listing().len(),
                n == a.len(),
                b == self.as_client.listing().map_values(|e: (Seq<char>, S)| (e.0, server_note(), e.1)),
                k <= m,
                out@.len() == n + k,
                forall|j: int|
                    0 <= j < n ==> (#[trigger] out@[j]).address() == a[j].0 && out@[j].note() == a[j].1,
                forall|j: int|
                    n <= j < n + k ==> (#[trigger] out@[j]).address() == b[j - n].0 && out@[j].note() == b[j - n].1,
            decreases m - k,
        {
            let (addr, _) = self.as_client.entry_at(k);
            out.push(MetaSocketAddr::pkg(addr.clone(), String::from_str("(Conn to Server)")));
            k = k + 1;
        }
        proof {
            assert forall|i: int| 0 <= i < out@.len() implies (#[trigger] out@[i]).address() == self.targets()[i].0
                && out@[i].note() == self.targets()[i].1 by {
                if i < n {
                    assert(self.targets()[i] == a[i]);
                } else {
                    assert(self.targets()[i] == b[i - n]);
                }
            }
        }
        out
    }

    /// The handle of the `i`-th connection to probe (see `targets`).
    pub fn target_stream(&self, i: usize) -> (r: &S)
        requires
            i < self.targets().len(),
        ensures
            *r == self.targets()[i as int].2,
    {
        let n = self.as_server.len();
        if i < n {
            let (_, s) = self.as_server.entry_at(i);
            s
        } else {
            let (_, s) = self.as_client.entry_at(i - n);
            s
        }
    }
}

/// A connection that this side opened and then drops is given back, and the table is
/// as if it had never been opened.
pub proof fn lemma_connect_then_disconnect<S>(servers: Map<Seq<char>, S>, addr: Seq<char>, stream: S)
    ensures
        servers.insert(addr, stream).dom().contains(addr),
        servers.insert(addr, stream)[addr] == stream,
        servers.insert(addr, stream).remove(addr) == servers.remove(addr),
{
    assert(servers.insert(addr, stream).remove(addr) =~= servers.remove(addr));
}

/// Every probed connection lands in exactly one of the two lists: the live list holds
/// those that answered, the dead list those that did not, each in probing order.
pub proof fn lemma_split_partition(alive: Seq<bool>, n: int)
    requires
        0 <= n <= alive.len(),
    ensures
        spec_split(alive, n).0.len() + spec_split(alive, n).1.len() == n,
        forall|i: int|
            0 <= i < spec_split(alive, n).0.len() ==> 0 <= #[trigger] spec_split(alive, n).0[i] < n
                && alive[spec_split(alive, n).0[i]],
        forall|i: int|
            0 <= i < spec_split(alive, n).1.len() ==> 0 <= #[trigger] spec_split(alive, n).1[i] < n
                && !alive[spec_split(alive, n).1[i]],
        forall|i: int, j: int|
            0 <= i < j < spec_split(alive, n).0.len() ==> spec_split(alive, n).0[i] < spec_split(
                alive,
                n,
            ).0[j],
        forall|i: int, j: int|
            0 <= i < j < spec_split(alive, n).1.len() ==> spec_split(alive, n).1[i] < spec_split(
                alive,
                n,
            ).1[j],
    decreases n,
{
    if n > 0 {
        lemma_split_partition(alive, n - 1);
    }
}

/// The probed connections sorted into live and dead, in their order.
pub open spec fn spec_split(alive: Seq<bool>, n: int) -> (Seq<int>, Seq<int>)
    decreases n,
{
    if n <= 0 {
        (seq![], seq![])
    } else {
        let (l, d) = spec_split(alive, n - 1);
        if alive[n - 1] {
            (l.push(n - 1), d)
        } else {
            (l, d.push(n - 1))
        }
    }
}

/// Sorts probed connections into those that answered (`alive`) and those that did not,
/// keeping their order.
pub fn split_by_liveness(targets: Vec<MetaSocketAddr>, alive: &Vec<bool>) -> (r: (Vec<MetaSocketAddr>, Vec<MetaSocketAddr>))
    requires
        targets@.len() == alive@.len(),
    ensures
        ({
            let (l, d) = spec_split(alive@, alive@.len() as int);
            &&& r.0@.len() == l.len()
            &&& r.1@.len() == d.len()
            &&& forall|i: int| 0 <= i < l.len() ==> #[trigger] r.0@[i] == targets@[l[i]]
            &&& forall|i: int| 0 <= i < d.len() ==> #[trigger] r.1@[i] == targets@[d[i]]
        }),
{
    let mut liv: Vec<MetaSocketAddr> = Vec::new();
    let mut dead: Vec<MetaSocketAddr> = Vec::new();
    let mut rest = targets;
    let ghost all = rest@;
    let n = alive.len();
    let mut i: usize = 0;
    proof {
        assert(rest@ =~= all.skip(0));
    }
    while i < n
        invariant
            n == alive@.len(),
            all.len() == n,
            i <= n,
            rest@ == all.skip(i as int),
            ({
                let (l, d) = spec_split(alive@, i as int);
                &&& liv@.len() == l.len()
                &&& dead@.len() == d.len()
                &&& forall|j: int| 0 <= j < l.len() ==> #[trigger] liv@[j] == all[l[j]]
                &&& forall|j: int| 0 <= j < d.len() ==> #[trigger] dead@[j] == all[d[j]]
            }),
        decreases n - i,
    {
        let t = rest.remove(0);
        proof {
            assert(t == all[i as int]);
            assert(rest@ =~= all.skip(i + 1));
        }
        if alive[i] {
            liv.push(t);
        } else {
            dead.push(t);
        }
        i = i + 1;
    }
    (liv, dead)
}

} // verus!
