use crate::addr::PeerAddr;
use crate::text::{join_words, joined, split_words, text_is, views, words};
use vstd::prelude::*;

verus! {

/// A command line, decoded into the call that it asks for.
pub enum SystemCall {
    /// `conn <address>`: connect to a peer.
    ConnTcpSocket(PeerAddr),
    /// `disconn <address>`: drop the connection that this side opened to a peer.
    DisconnectTcpSocket(PeerAddr),
    /// `msgbox <address> <words>` (`msg!`): send a raw message to a connected peer.
    UnsafeMsgbox(PeerAddr, String),
    /// `connsta` (`sta!`): show the state of the connections.
    ConnStatus,
    /// `chatwith <address>` (`cw!`): open the chat window with a connected peer.
    ChatWith(PeerAddr),
    /// `chatmsg <words>` (`chat!`): send a message in the open chat window.
    ChatMsg(String),
    /// The command could not be decoded, for the reason given.
    Exception(String),
    /// The command name is not known.
    Unknown,
}

/// What a `SystemCall` holds, with addresses and texts as character sequences.
pub enum CallModel {
    ConnTcpSocket(Seq<char>),
    DisconnectTcpSocket(Seq<char>),
    UnsafeMsgbox(Seq<char>, Seq<char>),
    ConnStatus,
    ChatWith(Seq<char>),
    ChatMsg(Seq<char>),
    Exception(Seq<char>),
    Unknown,
}

impl SystemCall {
    /// The call that a command name asks for, given its arguments and what reading the
    /// first of them as a socket address gave.
    pub fn by_name(name: &String, args: &Vec<String>, addr: Result<PeerAddr, String>) -> (r: SystemCall)
        ensures
            r@ == spec_by_name(name@, views(args@), outcome_view(addr)),
    {
        if text_is(name, "conn") {
            ParserHandler::hd_conn_cmd(args, addr)
        } else if text_is(name, "disconn") {
            ParserHandler::hd_dis_conn_cmd(args, addr)
        } else if text_is(name, "connsta") || text_is(name, "sta!") {
            SystemCall::ConnStatus
        } else if text_is(name, "msgbox") || text_is(name, "msg!") {
            ParserHandler::hd_unsafe_msgbox(args, addr)
        } else if text_is(name, "chatwith") || text_is(name, "cw!") {
            ParserHandler::hd_chat_with(args, addr)
        } else if text_is(name, "chatmsg") || text_is(name, "chat!") {
            ParserHandler::hd_chat_send_msg(args)
        } else {
            SystemCall::Unknown
        }
    }
}

impl View for SystemCall {
    type V = CallModel;

    open spec fn view(&self) -> CallModel {
        match self {
            SystemCall::ConnTcpSocket(a) => CallModel::ConnTcpSocket(a@),
            SystemCall::DisconnectTcpSocket(a) => CallModel::DisconnectTcpSocket(a@),
            SystemCall::UnsafeMsgbox(a, m) => CallModel::UnsafeMsgbox(a@, m@),
            SystemCall::ConnStatus => CallModel::ConnStatus,
            SystemCall::ChatWith(a) => CallModel::ChatWith(a@),
            SystemCall::ChatMsg(m) => CallModel::ChatMsg(m@),
            SystemCall::Exception(e) => CallModel::Exception(e@),
            SystemCall::Unknown => CallModel::Unknown,
        }
    }
}

/// The outcome of reading a text as a socket address, by views.
pub open spec fn outcome_view(r: Result<PeerAddr, String>) -> Result<Seq<char>, Seq<char>> {
    match r {
        Ok(a) => Ok(a@),
        Err(e) => Err(e@),
    }
}

/// `read_addr`: the first argument read as an address (`addr` is what reading it as a
/// socket address gave), or why not.
pub open spec fn spec_read_addr(args: Seq<Seq<char>>, addr: Result<Seq<char>, Seq<char>>) -> Result<
    Seq<char>,
    Seq<char>,
> {
    if args.len() == 0 {
        Err("no addr given"@)
    } else {
        addr
    }
}

/// `conn` and `disconn`: the first argument as an address, made into a call by `make`.
pub open spec fn spec_addr_cmd(
    args: Seq<Seq<char>>,
    addr: Result<Seq<char>, Seq<char>>,
    disconnect: bool,
) -> CallModel {
    if args.len() == 0 {
        CallModel::Exception("no addr given in conn"@)
    } else {
        match addr {
            Ok(a) => if disconnect {
                CallModel::DisconnectTcpSocket(a)
            } else {
                CallModel::ConnTcpSocket(a)
            },
            Err(e) => CallModel::Exception("invalid addr: "@ + e),
        }
    }
}

/// `msgbox`: an address, then the message as the remaining words joined by spaces.
pub open spec fn spec_msgbox_cmd(args: Seq<Seq<char>>, addr: Result<Seq<char>, Seq<char>>) -> CallModel {
    match spec_read_addr(args, addr) {
        Ok(a) => CallModel::UnsafeMsgbox(a, joined(args.drop_first())),
        Err(e) => CallModel::Exception(e),
    }
}

/// `chatwith`: an address.
pub open spec fn spec_chat_with_cmd(args: Seq<Seq<char>>, addr: Result<Seq<char>, Seq<char>>) -> CallModel {
    match spec_read_addr(args, addr) {
        Ok(a) => CallModel::ChatWith(a),
        Err(e) => CallModel::Exception(e),
    }
}

/// The call that a command name asks for, given its arguments.
pub open spec fn spec_by_name(
    name: Seq<char>,
    args: Seq<Seq<char>>,
    addr: Result<Seq<char>, Seq<char>>,
) -> CallModel {
    if name == "conn"@ {
        spec_addr_cmd(args, addr, false)
    } else if name == "disconn"@ {
        spec_addr_cmd(args, addr, true)
    } else if name == "connsta"@ || name == "sta!"@ {
        CallModel::ConnStatus
    } else if name == "msgbox"@ || name == "msg!"@ {
        spec_msgbox_cmd(args, addr)
    } else if name == "chatwith"@ || name == "cw!"@ {
        spec_chat_with_cmd(args, addr)
    } else if name == "chatmsg"@ || name == "chat!"@ {
        CallModel::ChatMsg(joined(args))
    } else {
        CallModel::Unknown
    }
}

/// The call that a command line asks for: its first word names the command, the rest
/// are its arguments. `addr` is what reading the second word as a socket address gave.
pub open spec fn spec_parse(command: Seq<char>, addr: Result<Seq<char>, Seq<char>>) -> CallModel {
    let w = words(command);
    if w.len() == 0 {
        CallModel::Exception("no name given in command"@)
    } else {
        spec_by_name(w[0], w.drop_first(), addr)
    }
}

/// The short names that the README gives (`sta!`, `msg!`, `cw!`, `chat!`) are the same
/// commands as the long ones.
pub proof fn lemma_short_names(args: Seq<Seq<char>>, addr: Result<Seq<char>, Seq<char>>)
    ensures
        spec_by_name("sta!"@, args, addr) == spec_by_name("connsta"@, args, addr),
        spec_by_name("msg!"@, args, addr) == spec_by_name("msgbox"@, args, addr),
        spec_by_name("cw!"@, args, addr) == spec_by_name("chatwith"@, args, addr),
        spec_by_name("chat!"@, args, addr) == spec_by_name("chatmsg"@, args, addr),
{
    reveal_strlit("conn");
    reveal_strlit("disconn");
    reveal_strlit("connsta");
    reveal_strlit("sta!");
    reveal_strlit("msgbox");
    reveal_strlit("msg!");
    reveal_strlit("chatwith");
    reveal_strlit("cw!");
    reveal_strlit("chatmsg");
    reveal_strlit("chat!");
    assert("conn"@.len() == 4 && "conn"@[0] == 'c' && "conn"@[3] == 'n');
    assert("disconn"@.len() == 7 && "disconn"@[0] == 'd' && "disconn"@[6] == 'n');
    assert("connsta"@.len() == 7 && "connsta"@[0] == 'c' && "connsta"@[6] == 'a');
    assert("sta!"@.len() == 4 && "sta!"@[0] == 's' && "sta!"@[3] == '!');
    assert("msgbox"@.len() == 6 && "msgbox"@[0] == 'm' && "msgbox"@[5] == 'x');
    assert("msg!"@.len() == 4 && "msg!"@[0] == 'm' && "msg!"@[3] == '!');
    assert("chatwith"@.len() == 8 && "chatwith"@[0] == 'c' && "chatwith"@[7] == 'h');
    assert("cw!"@.len() == 3 && "cw!"@[0] == 'c' && "cw!"@[2] == '!');
    assert("chatmsg"@.len() == 7 && "chatmsg"@[0] == 'c' && "chatmsg"@[6] == 'g');
    assert("chat!"@.len() == 5 && "chat!"@[0] == 'c' && "chat!"@[4] == '!');
}

/// Only the words of a command line matter: lines with the same words, whatever the
/// white space between them, ask for the same call.
pub proof fn lemma_words_only(c1: Seq<char>, c2: Seq<char>, addr: Result<Seq<char>, Seq<char>>)
    requires
        words(c1) == words(c2),
    ensures
        spec_parse(c1, addr) == spec_parse(c2, addr),
{
}

/// A copy of the words from `from` on.
fn tail_words(ws: &Vec<String>, from: usize) -> (r: Vec<String>)
    requires
        from <= ws@.len(),
    ensures
        views(r@) == views(ws@).skip(from as int),
{
    let mut out: Vec<String> = Vec::new();
    let mut i = from;
    while i < ws.len()
        invariant
            from <= i <= ws@.len(),
            views(out@) == views(ws@).subrange(from as int, i as int),
        decreases ws@.len() - i,
    {
        let c = ws[i].clone();
        let ghost before = out@;
        out.push(c);
        proof {
            assert(out@ == before.push(c));
            assert(c@ == views(ws@)[i as int]);
            assert(views(out@) =~= views(before).push(c@));
            assert(views(out@) =~= views(ws@).subrange(from as int, i + 1));
        }
        i = i + 1;
    }
    proof {
        assert(views(ws@).subrange(from as int, ws@.len() as int) =~= views(ws@).skip(from as int));
    }
    out
}

/// Reads the first argument as an address; `addr` is what reading it as a socket
/// address gave.
pub fn read_addr(args: &Vec<String>, addr: Result<PeerAddr, String>) -> (r: Result<PeerAddr, String>)
    ensures
        outcome_view(r) == spec_read_addr(views(args@), outcome_view(addr)),
{
    if args.len() == 0 {
        Err(String::from_str("no addr given"))
    } else {
        addr
    }
}

/// The remaining arguments joined with spaces.
pub fn read_str(args: &Vec<String>) -> (r: String)
    ensures
        r@ == joined(views(args@)),
{
    join_words(args.as_slice())
}

/// The handlers of the commands, each given the command's arguments and what reading
/// the first of them as a socket address gave.
pub struct ParserHandler;

impl ParserHandler {
    fn hd_addr_cmd(args: &Vec<String>, addr: Result<PeerAddr, String>, disconnect: bool) -> (r: SystemCall)
        ensures
            r@ == spec_addr_cmd(views(args@), outcome_view(addr), disconnect),
    {
        if args.len() == 0 {
            return SystemCall::Exception(String::from_str("no addr given in conn"));
        }
        match addr {
            Ok(a) => if disconnect {
                SystemCall::DisconnectTcpSocket(a)
            } else {
                SystemCall::ConnTcpSocket(a)
            },
            Err(e) => {
                let mut msg = String::from_str("invalid addr: ");
                msg.append(e.as_str());
                SystemCall::Exception(msg)
            },
        }
    }

    /// `conn <address>`.
    pub fn hd_conn_cmd(args: &Vec<String>, addr: Result<PeerAddr, String>) -> (r: SystemCall)
        ensures
            r@ == spec_addr_cmd(views(args@), outcome_view(addr), false),
    {
        Self::hd_addr_cmd(args, addr, false)
    }

    /// `disconn <address>`.
    pub fn hd_dis_conn_cmd(args: &Vec<String>, addr: Result<PeerAddr, String>) -> (r: SystemCall)
        ensures
            r@ == spec_addr_cmd(views(args@), outcome_view(addr), true),
    {
        Self::hd_addr_cmd(args, addr, true)
    }

    /// `msgbox <address> <words>`.
    pub fn hd_unsafe_msgbox(args: &Vec<String>, addr: Result<PeerAddr, String>) -> (r: SystemCall)
        ensures
            r@ == spec_msgbox_cmd(views(args@), outcome_view(addr)),
    {
        let a = match read_addr(args, addr) {
            Ok(a) => a,
            Err(e) => return SystemCall::Exception(e),
        };
        let rest = tail_words(args, 1);
        proof {
            assert(views(args@).skip(1) =~= views(args@).drop_first());
        }
        let msg = read_str(&rest);
        SystemCall::UnsafeMsgbox(a, msg)
    }

    /// `chatwith <address>`.
    pub fn hd_chat_with(args: &Vec<String>, addr: Result<PeerAddr, String>) -> (r: SystemCall)
        ensures
            r@ == spec_chat_with_cmd(views(args@), outcome_view(addr)),
    {
        match read_addr(args, addr) {
            Ok(a) => SystemCall::ChatWith(a),
            Err(e) => SystemCall::Exception(e),
        }
    }

    /// `chatmsg <words>`.
    pub fn hd_chat_send_msg(args: &Vec<String>) -> (r: SystemCall)
        ensures
            r@ == CallModel::ChatMsg(joined(views(args@))),
    {
        SystemCall::ChatMsg(read_str(args))
    }
}

/// Decodes command lines.
pub struct CommandParser;

impl CommandParser {
    /// The second word of a command line, the one that commands read as an address.
    pub fn address_word(command: &str) -> (r: Option<String>)
        ensures
            match r {
                Some(w) => words(command@).len() >= 2 && w@ == words(command@)[1],
                None => words(command@).len() < 2,
            },
    {
        let ws = split_words(command);
        if ws.len() >= 2 {
            Some(ws[1].clone())
        } else {
            None
        }
    }

    /// Decodes a command line; `addr` is what reading its second word as a socket
    /// address gave (it is not looked at when there is no second word).
    pub fn parse(command: &str, addr: Result<PeerAddr, String>) -> (r: SystemCall)
        ensures
            r@ == spec_parse(command@, outcome_view(addr)),
    {
        let ws = split_words(command);
        if ws.len() == 0 {
            return SystemCall::Exception(String::from_str("no name given in command"));
        }
        let name = &ws[0];
        let args = tail_words(&ws, 1);
        proof {
            assert(views(ws@).skip(1) =~= words(command@).drop_first());
            assert(name@ == words(command@)[0]);
        }
        SystemCall::by_name(name, &args, addr)
    }
}

} // verus!
