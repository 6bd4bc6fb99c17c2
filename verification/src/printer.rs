use crate::command::plainer::CommendExecResult;
use crate::command::status::{status_text, CommandStatusCtx};
use crate::history::{cursor_back, cursor_forth, HistoryLoader};
use crate::screen::{layout_screen, spec_layout, ScreenLayout, CANT_PRINT_RANGE_HEIGHT};
use crate::text::{byte_prefix, byte_suffix, push_char, str_byte_len, views};
use std::collections::VecDeque;
use vstd::prelude::*;
use vstd::string::StringSliceAdditionalSpecFns;
use vstd::utf8::{
    encode_utf8, is_ascii_chars, is_ascii_chars_encode_utf8, is_char_boundary,
    is_char_boundary_iff_not_is_continuation_byte, is_char_boundary_start_end_of_seq,
    is_continuation_byte, encode_utf8_valid_utf8,
};

verus! {

/// How many lines the screen buffer reserves room for when it is made.
pub const SCREEN_BUFFER_SIZE: usize = 1024;

/// `String::pop`. Trusted: the last character, if any, is removed.
#[verifier::external_body]
pub(crate) fn pop_char(s: &mut String)
    ensures
        final(s)@ == (if old(s)@.len() > 0 {
            old(s)@.drop_last()
        } else {
            old(s)@
        }),
{
    s.pop();
}

/// The input line after Backspace: its last character, if any, removed.
pub open spec fn after_backspace(input: Seq<char>) -> Seq<char> {
    if input.len() > 0 {
        input.drop_last()
    } else {
        input
    }
}

/// The scroll offset after a step: `1` one line up, `-1` one line down but not below 0;
/// other steps change nothing.
pub open spec fn after_scroll(view: u16, off: i16) -> u16 {
    if off == 1 {
        (view + 1) as u16
    } else if off == -1 && view > 0 {
        (view - 1) as u16
    } else {
        view
    }
}

/// The history cursor after a step: `1` back, `-1` forth; other steps change nothing.
pub open spec fn cursor_after_step(cursor: nat, len: nat, off: i8) -> nat {
    if off == 1 {
        cursor_back(cursor)
    } else if off == -1 {
        cursor_forth(cursor, len)
    } else {
        cursor
    }
}

/// The input line after a history step: the entry under the cursor (before the step),
/// where the step is `1` or `-1` and the history is not empty; else unchanged.
pub open spec fn input_after_step(input: Seq<char>, history: Seq<Seq<char>>, cursor: nat, off: i8) -> Seq<char> {
    if (off == 1 || off == -1) && history.len() > 0 {
        history[cursor as int]
    } else {
        input
    }
}

/// Every byte position of an ASCII text is a character boundary.
pub proof fn lemma_ascii_boundaries(s: Seq<char>, i: int)
    requires
        is_ascii_chars(s),
        0 <= i <= encode_utf8(s).len(),
    ensures
        is_char_boundary(encode_utf8(s), i),
{
    let b = encode_utf8(s);
    encode_utf8_valid_utf8(s);
    is_ascii_chars_encode_utf8(s);
    if i == b.len() {
        is_char_boundary_start_end_of_seq(b);
    } else {
        assert(s[i] as u8 == b[i]);
        assert(b[i] < 0x80);
        assert(!is_continuation_byte(b[i]));
        is_char_boundary_iff_not_is_continuation_byte(b, i);
    }
}

/// Typing a character and then Backspace leaves the input line as it was.
pub proof fn lemma_backspace_undoes_typing(input: Seq<char>, c: char)
    ensures
        after_backspace(input.push(c)) == input,
{
    assert(input.push(c).drop_last() =~= input);
}

/// Scrolling up one line and then down one line leaves the offset as it was.
pub proof fn lemma_scroll_up_then_down(view: u16)
    requires
        view < u16::MAX,
    ensures
        after_scroll(after_scroll(view, 1i16), -1i16) == view,
{
}

/// Right after a command is entered, Up gives it back: it is the newest history entry
/// and the cursor is on it.
pub proof fn lemma_enter_then_up(input: Seq<char>, history: Seq<Seq<char>>, command: Seq<char>)
    ensures
        input_after_step(input, history.push(command), history.len(), 1) == command,
        cursor_after_step(history.len(), history.len() + 1, 1) == cursor_back(history.len()),
{
}

/// What the terminal shows: the line being typed, the lines written so far, how far the
/// screen is scrolled up, the status counters and the history of entered commands.
pub struct PrinterCtx {
    write_buffer: String,
    screen_buffer: VecDeque<String>,
    screen_view: u16,
    command_status_ctx: CommandStatusCtx,
    command_history: HistoryLoader<String>,
}

impl PrinterCtx {
    /// The line being typed.
    pub closed spec fn input(&self) -> Seq<char> {
        self.write_buffer@
    }

    /// The lines written to the screen, oldest first.
    pub closed spec fn screen(&self) -> Seq<Seq<char>> {
        views(self.screen_buffer@)
    }

    /// How many lines the screen is scrolled up.
    pub closed spec fn view_offset(&self) -> u16 {
        self.screen_view
    }

    /// Characters typed so far.
    pub closed spec fn typed_alpha(&self) -> u32 {
        self.command_status_ctx.typed_alpha
    }

    /// Commands entered so far.
    pub closed spec fn typed_command(&self) -> u32 {
        self.command_status_ctx.typed_command
    }

    /// The last command entered.
    pub closed spec fn last_command(&self) -> Seq<char> {
        self.command_status_ctx.last_command@
    }

    /// The commands entered, oldest first.
    pub closed spec fn history(&self) -> Seq<Seq<char>> {
        views(self.command_history.entries())
    }

    /// The history's cursor.
    pub closed spec fn history_cursor(&self) -> nat {
        self.command_history.cursor()
    }

    /// An empty screen, nothing typed.
    pub fn new() -> (r: PrinterCtx)
        ensures
            r.input() == Seq::<char>::empty(),
            r.screen() == Seq::<Seq<char>>::empty(),
            r.view_offset() == 0,
            r.typed_alpha() == 0,
            r.typed_command() == 0,
            r.last_command() == Seq::<char>::empty(),
            r.history() == Seq::<Seq<char>>::empty(),
            r.all_ascii(),
    {
        let r = PrinterCtx {
            write_buffer: String::new(),
            screen_buffer: VecDeque::with_capacity(SCREEN_BUFFER_SIZE),
            screen_view: 0,
            command_status_ctx: CommandStatusCtx::new(),
            command_history: HistoryLoader::new(),
        };
        proof {
            assert(r.screen() =~= Seq::<Seq<char>>::empty());
            assert(r.history() =~= Seq::<Seq<char>>::empty());
        }
        r
    }

    /// Appends lines to the screen.
    pub fn write_many(&mut self, o: Vec<String>)
        ensures
            final(self).screen() == old(self).screen() + views(o@),
            final(self).input() == old(self).input(),
            final(self).view_offset() == old(self).view_offset(),
            final(self).history() == old(self).history(),
            final(self).history_cursor() == old(self).history_cursor(),
            final(self).typed_alpha() == old(self).typed_alpha(),
            final(self).typed_command() == old(self).typed_command(),
            final(self).last_command() == old(self).last_command(),
    {
        let mut i: usize = 0;
        let ghost start = self.screen();
        while i < o.len()
            invariant
                i <= o@.len(),
                self.screen() == start + views(o@).take(i as int),
                self.input() == old(self).input(),
                self.view_offset() == old(self).view_offset(),
                self.history() == old(self).history(),
                self.history_cursor() == old(self).history_cursor(),
                self.typed_alpha() == old(self).typed_alpha(),
                self.typed_command() == old(self).typed_command(),
                self.last_command() == old(self).last_command(),
            decreases o@.len() - i,
        {
            let line = o[i].clone();
            let ghost before = self.screen_buffer@;
            self.screen_buffer.push_back(line);
            proof {
                assert(views(self.screen_buffer@) =~= views(before).push(line@));
                assert(views(o@).take(i + 1) =~= views(o@).take(i as int).push(o@[i as int]@));
            }
            i = i + 1;
        }
        proof {
            assert(views(o@).take(o@.len() as int) =~= views(o@));
        }
    }

    /// Appends one line to the screen.
    pub fn write_output(&mut self, o: String)
        ensures
            final(self).screen() == old(self).screen().push(o@),
            final(self).input() == old(self).input(),
            final(self).view_offset() == old(self).view_offset(),
            final(self).history() == old(self).history(),
            final(self).history_cursor() == old(self).history_cursor(),
            final(self).typed_alpha() == old(self).typed_alpha(),
            final(self).typed_command() == old(self).typed_command(),
            final(self).last_command() == old(self).last_command(),
    {
        let ghost before = self.screen_buffer@;
        self.screen_buffer.push_back(o);
        proof {
            assert(views(self.screen_buffer@) =~= views(before).push(o@));
        }
    }

    /// Empties the screen.
    pub fn clear_screen(&mut self)
        ensures
            final(self).screen() == Seq::<Seq<char>>::empty(),
            final(self).input() == old(self).input(),
            final(self).view_offset() == old(self).view_offset(),
            final(self).history() == old(self).history(),
            final(self).history_cursor() == old(self).history_cursor(),
            final(self).typed_alpha() == old(self).typed_alpha(),
            final(self).typed_command() == old(self).typed_command(),
            final(self).last_command() == old(self).last_command(),
    {
        self.screen_buffer.clear();
        proof {
            assert(views(self.screen_buffer@) =~= Seq::<Seq<char>>::empty());
        }
    }

    /// A typed character: it joins the input line and is counted.
    pub fn user_ascii_input(&mut self, input: char)
        requires
            old(self).typed_alpha() < u32::MAX,
        ensures
            final(self).input() == old(self).input().push(input),
            final(self).typed_alpha() == old(self).typed_alpha() + 1,
            final(self).screen() == old(self).screen(),
            final(self).view_offset() == old(self).view_offset(),
            final(self).history() == old(self).history(),
            final(self).history_cursor() == old(self).history_cursor(),
            final(self).typed_command() == old(self).typed_command(),
            final(self).last_command() == old(self).last_command(),
    {
        push_char(&mut self.write_buffer, input);
        self.command_status_ctx.typed_alpha = self.command_status_ctx.typed_alpha + 1;
    }

    /// Backspace: the last character of the input line, if any, goes.
    pub fn user_backspace(&mut self)
        ensures
            final(self).input() == after_backspace(old(self).input()),
            final(self).screen() == old(self).screen(),
            final(self).view_offset() == old(self).view_offset(),
            final(self).history() == old(self).history(),
            final(self).history_cursor() == old(self).history_cursor(),
            final(self).typed_alpha() == old(self).typed_alpha(),
            final(self).typed_command() == old(self).typed_command(),
            final(self).last_command() == old(self).last_command(),
    {
        pop_char(&mut self.write_buffer);
    }

    /// Walks the command history: `1` goes back, `-1` forth; the entry under the cursor,
    /// if any, becomes the input line. Any other step is an error.
    pub fn user_cmd_history(&mut self, off: i8) -> (r: Result<(), String>)
        ensures
            r is Err <==> !(off == 1 || off == -1),
            r matches Err(e) ==> e@ == "Op must be 1 or -1"@,
            old(self).history().len() > 0 ==> old(self).history_cursor() < old(self).history().len(),
            final(self).history() == old(self).history(),
            final(self).history_cursor() == cursor_after_step(
                old(self).history_cursor(),
                old(self).history().len(),
                off,
            ),
            final(self).input() == input_after_step(
                old(self).input(),
                old(self).history(),
                old(self).history_cursor(),
                off,
            ),
            final(self).screen() == old(self).screen(),
            final(self).view_offset() == old(self).view_offset(),
            final(self).typed_alpha() == old(self).typed_alpha(),
            final(self).typed_command() == old(self).typed_command(),
            final(self).last_command() == old(self).last_command(),
    {
        proof {
            use_type_invariant(&self.command_history);
            self.command_history.lemma_wf();
        }
        let found = if off == 1 {
            self.command_history.easily()
        } else if off == -1 {
            self.command_history.later()
        } else {
            return Err(String::from_str("Op must be 1 or -1"));
        };
        match found {
            None => {},
            Some(cmd) => {
                proof {
                    assert(cmd@ == old(self).history()[old(self).history_cursor() as int]);
                }
                self.write_buffer = cmd;
            },
        }
        Ok(())
    }

    /// Enter: the input line is taken as a command. It is cleared, counted, recorded as
    /// the last command and added to the history; the command is returned to be run.
    pub fn user_conform(&mut self) -> (r: String)
        requires
            old(self).typed_command() < u32::MAX,
        ensures
            r@ == old(self).input(),
            final(self).input() == Seq::<char>::empty(),
            final(self).last_command() == old(self).input(),
            final(self).typed_command() == old(self).typed_command() + 1,
            final(self).history() == old(self).history().push(old(self).input()),
            final(self).history_cursor() == old(self).history().len(),
            final(self).screen() == old(self).screen(),
            final(self).view_offset() == old(self).view_offset(),
            final(self).typed_alpha() == old(self).typed_alpha(),
    {
        let command = self.write_buffer.clone();
        self.write_buffer = String::new();
        self.command_status_ctx.last_command = command.clone();
        self.command_status_ctx.typed_command = self.command_status_ctx.typed_command + 1;
        let ghost before = self.command_history.entries();
        self.command_history.add(command.clone());
        proof {
            assert(self.history() =~= views(before).push(command@));
        }
        command
    }

    /// Shows what a command printed: the screen is cleared first where it asks so.
    pub fn apply_exec_result(&mut self, res: CommendExecResult)
        ensures
            final(self).screen() == (if res.clears() {
                res.texts()
            } else {
                old(self).screen() + res.texts()
            }),
            final(self).input() == old(self).input(),
            final(self).view_offset() == old(self).view_offset(),
            final(self).history() == old(self).history(),
            final(self).history_cursor() == old(self).history_cursor(),
            final(self).typed_alpha() == old(self).typed_alpha(),
            final(self).typed_command() == old(self).typed_command(),
            final(self).last_command() == old(self).last_command(),
    {
        let clear = res.need_clear();
        if clear {
            self.clear_screen();
        }
        let lines = res.output();
        self.write_many(lines);
        proof {
            if clear {
                assert(Seq::<Seq<char>>::empty() + views(lines@) =~= views(lines@));
            }
        }
    }

    /// Scrolls the screen: `1` one line up, `-1` one line down (not below the bottom).
    /// Any other step is an error.
    pub fn user_view_offset_changed(&mut self, off: i16) -> (r: Result<(), String>)
        requires
            off == 1 ==> old(self).view_offset() < u16::MAX,
        ensures
            r is Err <==> !(off == 1 || off == -1),
            r matches Err(e) ==> e@ == "Why offset more than 1"@,
            final(self).view_offset() == after_scroll(old(self).view_offset(), off),
            final(self).input() == old(self).input(),
            final(self).screen() == old(self).screen(),
            final(self).history() == old(self).history(),
            final(self).history_cursor() == old(self).history_cursor(),
            final(self).typed_alpha() == old(self).typed_alpha(),
            final(self).typed_command() == old(self).typed_command(),
            final(self).last_command() == old(self).last_command(),
    {
        if off == 1 {
            self.screen_view = self.screen_view + 1;
            Ok(())
        } else if off == -1 {
            if self.screen_view > 0 {
                self.screen_view = self.screen_view - 1;
            }
            Ok(())
        } else {
            Err(String::from_str("Why offset more than 1"))
        }
    }

    /// How many lines the screen is scrolled up.
    pub fn screen_view(&self) -> (r: u16)
        ensures
            r == self.view_offset(),
    {
        self.screen_view
    }

    /// The counters of the status line.
    pub fn status(&self) -> (r: &CommandStatusCtx)
        ensures
            r.typed_alpha == self.typed_alpha(),
            r.typed_command == self.typed_command(),
            r.last_command@ == self.last_command(),
    {
        &self.command_status_ctx
    }

    /// How many lines are written to the screen.
    pub fn screen_len(&self) -> (r: usize)
        ensures
            r == self.screen().len(),
    {
        self.screen_buffer.len()
    }

    /// The lines written to the screen, oldest first.
    pub fn screen_lines(&self) -> (r: Vec<String>)
        ensures
            views(r@) == self.screen(),
    {
        let mut out: Vec<String> = Vec::new();
        let mut i: usize = 0;
        while i < self.screen_buffer.len()
            invariant
                i <= self.screen_buffer@.len(),
                views(out@) == views(self.screen_buffer@).take(i as int),
            decreases self.screen_buffer@.len() - i,
        {
            let line = self.screen_buffer[i].clone();
            let ghost before = views(out@);
            out.push(line);
            proof {
                assert(views(out@) =~= before.push(line@));
                assert(views(self.screen_buffer@).take(i + 1) =~= views(self.screen_buffer@).take(
                    i as int,
                ).push(self.screen_buffer@[i as int]@));
            }
            i = i + 1;
        }
        proof {
            assert(views(self.screen_buffer@).take(self.screen_buffer@.len() as int) =~= views(
                self.screen_buffer@,
            ));
        }
        out
    }

    /// The line being typed.
    pub fn input_text(&self) -> (r: &str)
        ensures
            r@ == self.input(),
    {
        self.write_buffer.as_str()
    }

    /// The screen as a terminal `w` columns and `h` rows wide shows it (see
    /// `spec_layout`).
    pub fn layout(&self, w: u16, h: u16) -> (r: Option<ScreenLayout>)
        requires
            h > CANT_PRINT_RANGE_HEIGHT && self.screen().len() > 0 ==> w > 0,
            h > CANT_PRINT_RANGE_HEIGHT ==> h - CANT_PRINT_RANGE_HEIGHT + self.view_offset()
                <= u16::MAX,
        ensures
            match r {
                None => spec_layout(self.screen(), w as nat, h as nat, self.view_offset() as nat) is None,
                Some(l) => spec_layout(self.screen(), w as nat, h as nat, self.view_offset() as nat)
                    == Some(
                    (
                        views(l.rows@),
                        match l.new_view {
                            Some(v) => Some(v as nat),
                            None => None::<nat>,
                        },
                    ),
                ),
            },
    {
        layout_screen(&self.screen_buffer, w, h, self.screen_view)
    }

    /// Keeps the scroll offset that a layout gave.
    pub fn apply_view(&mut self, v: u16)
        ensures
            final(self).view_offset() == v,
            final(self).input() == old(self).input(),
            final(self).screen() == old(self).screen(),
            final(self).history() == old(self).history(),
            final(self).history_cursor() == old(self).history_cursor(),
            final(self).typed_alpha() == old(self).typed_alpha(),
            final(self).typed_command() == old(self).typed_command(),
            final(self).last_command() == old(self).last_command(),
    {
        self.screen_view = v;
    }

    /// The input line and every command in the history are ASCII.
    pub open spec fn all_ascii(&self) -> bool {
        &&& is_ascii_chars(self.input())
        &&& forall|i: int| 0 <= i < self.history().len() ==> is_ascii_chars(#[trigger] self.history()[i])
    }

    /// The part of the input line that a terminal `w` columns wide shows: its last `w`
    /// bytes; `None` where that cut falls inside a character, which cannot happen while
    /// the input line is ASCII.
    pub fn input_view(&self, w: u16) -> (r: Option<String>)
        ensures
            is_ascii_chars(self.input()) ==> r is Some,
            ({
                let b = encode_utf8(self.input());
                let from: int = if b.len() < w { 0 } else { b.len() - w };
                match r {
                    Some(t) => is_char_boundary(b, from) && encode_utf8(t@) == b.skip(from),
                    None => !is_char_boundary(b, from),
                }
            }),
    {
        let s = self.write_buffer.as_str();
        let n = str_byte_len(s);
        let from = if n < w as usize { 0 } else { n - w as usize };
        proof {
            if is_ascii_chars(self.input()) {
                lemma_ascii_boundaries(self.input(), from as int);
            }
        }
        byte_suffix(s, from)
    }

    /// The part of the status line that a terminal `w` columns wide shows: its first
    /// `w` bytes; `None` where that cut falls inside a character.
    pub fn status_view(&self, w: u16) -> (r: Option<String>)
        ensures
            ({
                let b = encode_utf8(
                    status_text(self.typed_alpha(), self.typed_command(), self.last_command()),
                );
                let to: int = if b.len() < w { b.len() as int } else { w as int };
                match r {
                    Some(t) => is_char_boundary(b, to) && encode_utf8(t@) == b.take(to),
                    None => !is_char_boundary(b, to),
                }
            }),
    {
        let text = self.command_status_ctx.to_text();
        let s = text.as_str();
        let n = str_byte_len(s);
        let to = if n < w as usize { n } else { w as usize };
        byte_prefix(s, to)
    }
}

/// A call in a chain that builds a `WriteToBufTask` from `new`: `with_cls`, or a call
/// that adds lines (`with_output` one, `with_many` several).
pub enum BuildCall {
    Cls,
    Add(Seq<Seq<char>>),
}

/// A task as far as writing goes: whether it clears the screen first, and its lines.
pub open spec fn build_step(task: (bool, Seq<Seq<char>>), call: BuildCall) -> (bool, Seq<Seq<char>>) {
    match call {
        BuildCall::Cls => (true, task.1),
        BuildCall::Add(lines) => (task.0, task.1 + lines),
    }
}

/// The task that a chain of calls builds from `new`, one call after the other.
pub open spec fn built(calls: Seq<BuildCall>) -> (bool, Seq<Seq<char>>)
    decreases calls.len(),
{
    if calls.len() == 0 {
        (false, seq![])
    } else {
        build_step(built(calls.drop_last()), calls.last())
    }
}

/// Whether `with_cls` is among the calls of a chain.
pub open spec fn chain_clears(calls: Seq<BuildCall>) -> bool {
    exists|i: int| 0 <= i < calls.len() && calls[i] is Cls
}

/// The lines that the calls of a chain add, in call order.
pub open spec fn chain_lines(calls: Seq<BuildCall>) -> Seq<Seq<char>>
    decreases calls.len(),
{
    if calls.len() == 0 {
        seq![]
    } else {
        chain_lines(calls.drop_last()) + match calls.last() {
            BuildCall::Cls => seq![],
            BuildCall::Add(lines) => lines,
        }
    }
}

/// The screen after a task runs on it: the task's lines after the screen, or alone
/// where the task clears first.
pub open spec fn screen_after(task: (bool, Seq<Seq<char>>), screen: Seq<Seq<char>>) -> Seq<Seq<char>> {
    if task.0 {
        task.1
    } else {
        screen + task.1
    }
}

/// Any chain of builder calls writes the lines it gathered, in call order; the screen
/// is cleared first exactly where `with_cls` was called anywhere in the chain, before
/// or after the lines were added.
pub proof fn lemma_chain_writes(calls: Seq<BuildCall>, screen: Seq<Seq<char>>)
    ensures
        built(calls) == (chain_clears(calls), chain_lines(calls)),
        screen_after(built(calls), screen) == (if chain_clears(calls) {
            chain_lines(calls)
        } else {
            screen + chain_lines(calls)
        }),
    decreases calls.len(),
{
    if calls.len() > 0 {
        let d = calls.drop_last();
        lemma_chain_writes(d, screen);
        if chain_clears(calls) {
            if !(calls.last() is Cls) {
                let i = choose|i: int| 0 <= i < calls.len() && calls[i] is Cls;
                assert(d[i] is Cls);
            }
        }
        if chain_clears(d) {
            let i = choose|i: int| 0 <= i < d.len() && d[i] is Cls;
            assert(calls[i] is Cls);
        }
        if calls.last() is Cls {
            assert(calls[calls.len() - 1] is Cls);
            assert(chain_lines(d) + Seq::<Seq<char>>::empty() =~= chain_lines(d));
        }
    } else {
        assert(Seq::<Seq<char>>::empty() + Seq::<Seq<char>>::empty() =~= Seq::<Seq<char>>::empty());
    }
}

/// Lines to write to the screen together, after clearing it where asked.
pub struct WriteToBufTask {
    to: Vec<String>,
    cls: bool,
}

impl WriteToBufTask {
    /// The lines gathered so far.
    pub closed spec fn lines(&self) -> Seq<Seq<char>> {
        views(self.to@)
    }

    /// Whether the screen is cleared first.
    pub closed spec fn clears(&self) -> bool {
        self.cls
    }

    /// No lines, no clearing.
    pub fn new() -> (r: WriteToBufTask)
        ensures
            r.lines() == Seq::<Seq<char>>::empty(),
            !r.clears(),
            (r.clears(), r.lines()) == built(seq![]),
    {
        let r = WriteToBufTask { to: Vec::new(), cls: false };
        proof {
            assert(r.lines() =~= Seq::<Seq<char>>::empty());
        }
        r
    }

    /// Clear the screen first.
    pub fn with_cls(self) -> (r: WriteToBufTask)
        ensures
            r.lines() == self.lines(),
            r.clears(),
            (r.clears(), r.lines()) == build_step((self.clears(), self.lines()), BuildCall::Cls),
    {
        let mut t = self;
        t.cls = true;
        t
    }

    /// One more line.
    pub fn with_output(self, s: String) -> (r: WriteToBufTask)
        ensures
            r.lines() == self.lines().push(s@),
            r.clears() == self.clears(),
            (r.clears(), r.lines()) == build_step(
                (self.clears(), self.lines()),
                BuildCall::Add(seq![s@]),
            ),
    {
        let mut t = self;
        let ghost before = t.to@;
        t.to.push(s);
        proof {
            assert(views(t.to@) =~= views(before).push(s@));
        }
        t
    }

    /// More lines.
    pub fn with_many(self, s: Vec<String>) -> (r: WriteToBufTask)
        ensures
            r.lines() == self.lines() + views(s@),
            r.clears() == self.clears(),
            (r.clears(), r.lines()) == build_step(
                (self.clears(), self.lines()),
                BuildCall::Add(views(s@)),
            ),
    {
        let mut t = self;
        let mut s = s;
        let ghost before = t.to@;
        let ghost added = s@;
        t.to.append(&mut s);
        proof {
            assert(views(t.to@) =~= views(before) + views(added));
        }
        t
    }

    /// Writes the lines to the screen, clearing it first where asked.
    pub fn run(self, ctx: &mut PrinterCtx)
        ensures
            final(ctx).screen() == (if self.clears() {
                self.lines()
            } else {
                old(ctx).screen() + self.lines()
            }),
            final(ctx).screen() == screen_after((self.clears(), self.lines()), old(ctx).screen()),
            final(ctx).input() == old(ctx).input(),
            final(ctx).view_offset() == old(ctx).view_offset(),
            final(ctx).history() == old(ctx).history(),
            final(ctx).history_cursor() == old(ctx).history_cursor(),
            final(ctx).typed_alpha() == old(ctx).typed_alpha(),
            final(ctx).typed_command() == old(ctx).typed_command(),
            final(ctx).last_command() == old(ctx).last_command(),
    {
        if self.cls {
            ctx.clear_screen();
        }
        ctx.write_many(self.to);
        proof {
            if self.cls {
                assert(Seq::<Seq<char>>::empty() + self.lines() =~= self.lines());
            }
        }
    }
}

} // verus!
