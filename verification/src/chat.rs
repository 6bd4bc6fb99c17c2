use crate::addr::PeerAddr;
use crate::conn::ConnCtx;
use crate::message::BaseChatMessageBody;
use crate::table::AddrTable;
use crate::text::views;
use vstd::prelude::*;

verus! {

/// The first line of the chat with a peer.
pub open spec fn chat_header(addr: Seq<char>) -> Seq<char> {
    "--------Chat between "@ + addr + " ----"@
}

/// The chats after opening the chat with `addr`: started where it was not, unless it is
/// already open.
pub open spec fn chats_after_open(
    current: Option<Seq<char>>,
    chats: Map<Seq<char>, Seq<Seq<char>>>,
    addr: Seq<char>,
) -> Map<Seq<char>, Seq<Seq<char>>> {
    if current == Some(addr) || chats.dom().contains(addr) {
        chats
    } else {
        chats.insert(addr, seq![chat_header(addr)])
    }
}

/// The chats after a line `msg` came from `from`: the chat with it is started where it
/// was not, and the line joins it as `[To You] <msg>`.
pub open spec fn chats_after_receive(
    chats: Map<Seq<char>, Seq<Seq<char>>>,
    from: Seq<char>,
    msg: Seq<char>,
) -> Map<Seq<char>, Seq<Seq<char>>> {
    let started = if chats.dom().contains(from) {
        chats
    } else {
        chats.insert(from, seq![chat_header(from)])
    };
    started.insert(from, started[from].push("[To You] "@ + msg))
}

/// Opening the chat that is already open changes nothing, so opening twice is opening
/// once.
pub proof fn lemma_open_twice(
    current: Option<Seq<char>>,
    chats: Map<Seq<char>, Seq<Seq<char>>>,
    addr: Seq<char>,
)
    ensures
        chats_after_open(Some(addr), chats_after_open(current, chats, addr), addr)
            == chats_after_open(current, chats, addr),
{
}

/// Opening a chat changes no other chat: every other peer has a chat after exactly when
/// before, with the same lines. The opened chat keeps its lines where it was started,
/// and starts with the header alone where it was not (unless it was already open).
pub proof fn lemma_open_keeps_other_chats(
    current: Option<Seq<char>>,
    chats: Map<Seq<char>, Seq<Seq<char>>>,
    addr: Seq<char>,
)
    ensures
        forall|k: Seq<char>|
            k != addr ==> (#[trigger] chats_after_open(current, chats, addr).dom().contains(k)
                <==> chats.dom().contains(k)),
        forall|k: Seq<char>|
            k != addr && chats.dom().contains(k) ==> #[trigger] chats_after_open(
                current,
                chats,
                addr,
            )[k] == chats[k],
        chats.dom().contains(addr) ==> chats_after_open(current, chats, addr).dom().contains(addr)
            && chats_after_open(current, chats, addr)[addr] == chats[addr],
        !chats.dom().contains(addr) && current != Some(addr) ==> chats_after_open(
            current,
            chats,
            addr,
        ).dom().contains(addr) && chats_after_open(current, chats, addr)[addr] == seq![
            chat_header(addr),
        ],
{
}

/// A received line changes no chat but the sender's: every other peer has a chat after
/// exactly when before, with the same lines.
pub proof fn lemma_receive_keeps_other_chats(
    chats: Map<Seq<char>, Seq<Seq<char>>>,
    from: Seq<char>,
    msg: Seq<char>,
)
    ensures
        forall|k: Seq<char>|
            k != from ==> (#[trigger] chats_after_receive(chats, from, msg).dom().contains(k)
                <==> chats.dom().contains(k)),
        forall|k: Seq<char>|
            k != from && chats.dom().contains(k) ==> #[trigger] chats_after_receive(
                chats,
                from,
                msg,
            )[k] == chats[k],
{
}

/// A received line ends the sender's chat, and a chat started by it begins with the
/// header.
pub proof fn lemma_receive_appends(chats: Map<Seq<char>, Seq<Seq<char>>>, from: Seq<char>, msg: Seq<char>)
    ensures
        chats_after_receive(chats, from, msg).dom().contains(from),
        chats_after_receive(chats, from, msg)[from].last() == "[To You] "@ + msg,
        !chats.dom().contains(from) ==> chats_after_receive(chats, from, msg)[from] == seq![
            chat_header(from),
            "[To You] "@ + msg,
        ],
        chats.dom().contains(from) ==> chats_after_receive(chats, from, msg)[from].drop_last()
            == chats[from],
{
    if !chats.dom().contains(from) {
        assert(seq![chat_header(from)].push("[To You] "@ + msg) =~= seq![
            chat_header(from),
            "[To You] "@ + msg,
        ]);
    } else {
        assert(chats[from].push("[To You] "@ + msg).drop_last() =~= chats[from]);
    }
}

/// The chats: the peer whose chat is open, if any, and the lines of each chat.
pub struct ChatCtx {
    chatting: Option<PeerAddr>,
    history_char: AddrTable<Vec<String>>,
}

fn copy_lines(v: &Vec<String>) -> (r: Vec<String>)
    ensures
        views(r@) == views(v@),
{
    let mut out: Vec<String> = Vec::new();
    let mut i: usize = 0;
    while i < v.len()
        invariant
            i <= v@.len(),
            views(out@) == views(v@).take(i as int),
        decreases v@.len() - i,
    {
        let s = v[i].clone();
        let ghost before = views(out@);
        out.push(s);
        proof {
            assert(views(out@) =~= before.push(s@));
            assert(views(v@).take(i + 1) =~= views(v@).take(i as int).push(v@[i as int]@));
        }
        i = i + 1;
    }
    proof {
        assert(views(v@).take(v@.len() as int) =~= views(v@));
    }
    out
}

impl ChatCtx {
    /// The peer whose chat is open.
    pub closed spec fn current(&self) -> Option<Seq<char>> {
        match self.chatting {
            Some(a) => Some(a@),
            None => None,
        }
    }

    /// The lines of each chat.
    pub closed spec fn chats(&self) -> Map<Seq<char>, Seq<Seq<char>>> {
        self.history_char.map().map_values(|v: Vec<String>| views(v@))
    }

    /// No chat open, none started.
    pub fn new() -> (r: ChatCtx)
        ensures
            r.current() is None,
            r.chats() == Map::<Seq<char>, Seq<Seq<char>>>::empty(),
    {
        let r = ChatCtx { chatting: None, history_char: AddrTable::new() };
        proof {
            assert(r.chats() =~= Map::<Seq<char>, Seq<Seq<char>>>::empty());
        }
        r
    }

    /// Starts the chat with a peer afresh: its only line is the header.
    fn init_chat(&mut self, addr: &PeerAddr)
        ensures
            final(self).current() == old(self).current(),
            final(self).chats() == old(self).chats().insert(addr@, seq![chat_header(addr@)]),
    {
        let mut line = String::from_str("--------Chat between ");
        line.append(addr.as_str());
        line.append(" ----");
        let mut body: Vec<String> = Vec::new();
        body.push(line);
        self.history_char.insert(addr.clone(), body);
        proof {
            assert(views(body@) =~= seq![chat_header(addr@)]);
            assert(self.chats() =~= old(self).chats().insert(addr@, seq![chat_header(addr@)]));
        }
    }

    /// Appends a line to the chat with a peer, where it was started.
    fn push_line(&mut self, addr: &PeerAddr, line: String) -> (r: bool)
        ensures
            final(self).current() == old(self).current(),
            r == old(self).chats().dom().contains(addr@),
            final(self).chats() == (if r {
                old(self).chats().insert(addr@, old(self).chats()[addr@].push(line@))
            } else {
                old(self).chats()
            }),
    {
        match self.history_char.remove(addr) {
            Some(lines) => {
                let mut lines = lines;
                let ghost before = lines@;
                lines.push(line);
                proof {
                    assert(views(lines@) =~= views(before).push(line@));
                }
                self.history_char.insert(addr.clone(), lines);
                proof {
                    assert(self.chats() =~= old(self).chats().insert(
                        addr@,
                        old(self).chats()[addr@].push(line@),
                    ));
                }
                true
            },
            None => {
                proof {
                    assert(self.chats() =~= old(self).chats());
                }
                false
            },
        }
    }

    /// Opens the chat with a peer, starting it where it was not started; nothing
    /// changes where it is already open.
    pub fn change_chat(&mut self, chat: &PeerAddr)
        ensures
            final(self).current() == Some(chat@),
            final(self).chats() == chats_after_open(old(self).current(), old(self).chats(), chat@),
    {
        if let Some(now) = &self.chatting {
            if now.same(chat) {
                return;
            }
        }
        self.chatting = Some(chat.clone());
        if !self.history_char.contains(chat) {
            self.init_chat(chat);
        }
    }

    /// `chatwith`: opens the chat with a peer (as `change_chat`) where there is a
    /// connection to it; else nothing changes and the error is `No Conn on <addr>`,
    /// since the peer must be connected.
    pub fn chat_with<S>(&mut self, conns: &ConnCtx<S>, chat: &PeerAddr) -> (r: Result<(), String>)
        ensures
            match r {
                Ok(()) => (conns.clients().dom().contains(chat@) || conns.servers().dom().contains(
                    chat@,
                )) && final(self).current() == Some(chat@) && final(self).chats()
                    == chats_after_open(old(self).current(), old(self).chats(), chat@),
                Err(e) => !conns.clients().dom().contains(chat@) && !conns.servers().dom().contains(
                    chat@,
                ) && e@ == "No Conn on "@ + chat@ && *final(self) == *old(self),
            },
    {
        match conns.stream_for_send(chat) {
            Ok(_) => {
                self.change_chat(chat);
                Ok(())
            },
            Err(e) => Err(e),
        }
    }

    /// The lines of the open chat; an error where no chat is open, or it was not started.
    pub fn print_to(&self) -> (r: Result<Vec<String>, String>)
        ensures
            match r {
                Ok(lines) => self.current() matches Some(a) && self.chats().dom().contains(a)
                    && views(lines@) == self.chats()[a],
                Err(e) => match self.current() {
                    None => e@ == "No Chatting"@,
                    Some(a) => !self.chats().dom().contains(a) && e@ == "No init chat"@,
                },
            },
    {
        let tg = match &self.chatting {
            None => return Err(String::from_str("No Chatting")),
            Some(e) => e,
        };
        match self.history_char.get(tg) {
            Some(lines) => Ok(copy_lines(lines)),
            None => Err(String::from_str("No init chat")),
        }
    }

    /// The peer to send a chat line to: the one whose chat is open; an error where none
    /// is.
    pub fn chat_target(&self) -> (r: Result<PeerAddr, String>)
        ensures
            match r {
                Ok(a) => self.current() == Some(a@),
                Err(e) => self.current() is None && e@ == "No chat selected"@,
            },
    {
        match &self.chatting {
            Some(c) => Ok(c.clone()),
            None => Err(String::from_str("No chat selected")),
        }
    }

    /// A chat line was sent to a peer: it joins that chat as `[From You] <msg>`; an
    /// error where the chat was not started.
    pub fn record_sent(&mut self, to: &PeerAddr, msg: &str) -> (r: Result<(), String>)
        ensures
            final(self).current() == old(self).current(),
            match r {
                Ok(_) => old(self).chats().dom().contains(to@) && final(self).chats() == old(
                    self,
                ).chats().insert(to@, old(self).chats()[to@].push("[From You] "@ + msg@)),
                Err(e) => !old(self).chats().dom().contains(to@) && final(self).chats() == old(
                    self,
                ).chats() && e@ == "chat not init"@,
            },
    {
        let mut line = String::from_str("[From You] ");
        line.append(msg);
        if self.push_line(to, line) {
            Ok(())
        } else {
            Err(String::from_str("chat not init"))
        }
    }

    /// A chat line came from a peer: it joins that chat (started where it was not) as
    /// `[To You] <msg>`.
    pub fn new_msg(&mut self, msg: BaseChatMessageBody)
        ensures
            final(self).current() == old(self).current(),
            final(self).chats() == chats_after_receive(old(self).chats(), msg.me@, msg.msg@),
    {
        if !self.history_char.contains(&msg.me) {
            self.init_chat(&msg.me);
        }
        let mut line = String::from_str("[To You] ");
        line.append(msg.msg.as_str());
        let _ = self.push_line(&msg.me, line);
    }
}

} // verus!
