use crate::text::{decimal, u32_to_decimal};
use vstd::prelude::*;

verus! {

/// The counters shown on the status line.
pub struct CommandStatusCtx {
    /// Commands entered so far.
    pub typed_command: u32,
    /// Characters typed so far.
    pub typed_alpha: u32,
    /// The last command entered.
    pub last_command: String,
}

/// The status line for the given counters and last command.
pub open spec fn status_text(typed_alpha: u32, typed_command: u32, last: Seq<char>) -> Seq<char> {
    "累计输入字符："@ + decimal(typed_alpha as nat) + "  累计输入命令："@ + decimal(
        typed_command as nat,
    ) + " 最后一次执行的命令："@ + last
}

impl CommandStatusCtx {
    /// All counters at zero, no command yet.
    pub fn new() -> (r: CommandStatusCtx)
        ensures
            r.typed_command == 0,
            r.typed_alpha == 0,
            r.last_command@ == Seq::<char>::empty(),
    {
        CommandStatusCtx { typed_command: 0, typed_alpha: 0, last_command: String::new() }
    }

    /// The status line, as its `Display` writes it.
    pub fn to_text(&self) -> (r: String)
        ensures
            r@ == status_text(self.typed_alpha, self.typed_command, self.last_command@),
    {
        let mut s = String::from_str("累计输入字符：");
        let a = u32_to_decimal(self.typed_alpha);
        s.append(a.as_str());
        s.append("  累计输入命令：");
        let c = u32_to_decimal(self.typed_command);
        s.append(c.as_str());
        s.append(" 最后一次执行的命令：");
        s.append(self.last_command.as_str());
        s
    }
}

} // verus!
