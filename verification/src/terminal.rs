use crate::printer::{after_backspace, after_scroll, cursor_after_step, input_after_step, PrinterCtx};
use crate::text::{is_char_typeable, lemma_typeable_is_ascii, typeable_char};
use vstd::utf8::is_ascii_chars;
use vstd::prelude::*;

verus! {

/// The keys that the terminal reacts to.
#[derive(PartialEq, Eq, Structural, Clone, Copy, Debug)]
pub enum KeyCode {
    Enter,
    Char(char),
    Backspace,
    Left,
    Right,
    Up,
    Down,
    Other,
}

/// A key event: the key, whether Control was held, and whether the key was released
/// (rather than pressed or repeated).
#[derive(PartialEq, Eq, Structural, Clone, Copy, Debug)]
pub struct KeyInput {
    pub code: KeyCode,
    pub control: bool,
    pub release: bool,
}

/// A terminal event: a key, or anything else (resizes, the mouse, focus, pastes).
#[derive(PartialEq, Eq, Structural, Clone, Copy, Debug)]
pub enum TerminalEvent {
    Key(KeyInput),
    Other,
}

/// What a terminal event asks for.
#[derive(PartialEq, Eq, Structural, Clone, Copy, Debug)]
pub enum TerminalAction {
    /// Control-C: leave the application.
    Exit,
    /// Nothing.
    Ignore,
    /// Enter: run the input line.
    Confirm,
    /// A character typed into the input line.
    Input(char),
    /// Backspace.
    Backspace,
    /// Scroll the screen by the step (`1` up, `-1` down).
    ViewOffset(i16),
    /// Walk the command history by the step (`1` back, `-1` forth).
    History(i8),
}

/// What a terminal event asks for: Control-C leaves; a release does nothing; Enter
/// runs the line; a character that can be typed (see `typeable_char`) joins the input
/// line; Backspace deletes; Left and Right
/// scroll up and down; Up and Down walk the history back and forth.
pub open spec fn spec_decide(event: TerminalEvent) -> TerminalAction {
    match event {
        TerminalEvent::Key(key) => if key.control && key.code == KeyCode::Char('c') {
            TerminalAction::Exit
        } else if key.release {
            TerminalAction::Ignore
        } else {
            match key.code {
                KeyCode::Enter => TerminalAction::Confirm,
                KeyCode::Char(c) => if typeable_char(c) {
                    TerminalAction::Input(c)
                } else {
                    TerminalAction::Ignore
                },
                KeyCode::Backspace => TerminalAction::Backspace,
                KeyCode::Left => TerminalAction::ViewOffset(1i16),
                KeyCode::Right => TerminalAction::ViewOffset(-1i16),
                KeyCode::Up => TerminalAction::History(1i8),
                KeyCode::Down => TerminalAction::History(-1i8),
                KeyCode::Other => TerminalAction::Ignore,
            }
        },
        TerminalEvent::Other => TerminalAction::Ignore,
    }
}

/// Control-C leaves whatever else holds; any other released key does nothing.
pub proof fn lemma_release_and_exit(key: KeyInput)
    ensures
        key.control && key.code == KeyCode::Char('c') ==> spec_decide(TerminalEvent::Key(key))
            == TerminalAction::Exit,
        !(key.control && key.code == KeyCode::Char('c')) && key.release ==> spec_decide(
            TerminalEvent::Key(key),
        ) == TerminalAction::Ignore,
{
}

/// A key press types exactly the characters that can be typed: a pressed key of such a
/// character, without Control, is typed, and nothing else is.
pub proof fn lemma_typed_are_typeable(event: TerminalEvent)
    ensures
        spec_decide(event) matches TerminalAction::Input(c) ==> typeable_char(c),
        event matches TerminalEvent::Key(key) ==> (key.code matches KeyCode::Char(c) ==> (!key.control
            && !key.release && typeable_char(c) ==> spec_decide(event) == TerminalAction::Input(c))),
{
}

/// What the application does after a terminal event has been applied.
pub enum KeyEffect {
    /// Leave the application.
    Exit,
    /// Nothing more.
    Done,
    /// Run this command line.
    Run(String),
}

/// Reacts to terminal events.
pub struct PrintEventHandler;

impl PrintEventHandler {
    /// What a terminal event asks for.
    pub fn decide(event: &TerminalEvent) -> (r: TerminalAction)
        ensures
            r == spec_decide(*event),
    {
        match event {
            TerminalEvent::Key(key) => {
                let is_c = match key.code {
                    KeyCode::Char(c) => c == 'c',
                    _ => false,
                };
                if key.control && is_c {
                    return TerminalAction::Exit;
                }
                if key.release {
                    return TerminalAction::Ignore;
                }
                match key.code {
                    KeyCode::Enter => TerminalAction::Confirm,
                    KeyCode::Char(c) => if is_char_typeable(c) {
                        TerminalAction::Input(c)
                    } else {
                        TerminalAction::Ignore
                    },
                    KeyCode::Backspace => TerminalAction::Backspace,
                    KeyCode::Left => TerminalAction::ViewOffset(1),
                    KeyCode::Right => TerminalAction::ViewOffset(-1),
                    KeyCode::Up => TerminalAction::History(1),
                    KeyCode::Down => TerminalAction::History(-1),
                    KeyCode::Other => TerminalAction::Ignore,
                }
            },
            TerminalEvent::Other => TerminalAction::Ignore,
        }
    }

    /// Whether applying an event stays within the counters: typing needs room in the
    /// character count, Enter in the command count, scrolling up in the offset.
    pub open spec fn fits(ctx: &PrinterCtx, event: TerminalEvent) -> bool {
        match spec_decide(event) {
            TerminalAction::Input(_) => ctx.typed_alpha() < u32::MAX,
            TerminalAction::Confirm => ctx.typed_command() < u32::MAX,
            TerminalAction::ViewOffset(off) => off == 1 ==> ctx.view_offset() < u16::MAX,
            _ => true,
        }
    }

    /// Applies a terminal event to the screen state, as `spec_decide` says, and tells
    /// what to do next.
    pub fn hd_terminal_event(ctx: &mut PrinterCtx, event: &TerminalEvent) -> (r: KeyEffect)
        requires
            Self::fits(old(ctx), *event),
        ensures
            old(ctx).all_ascii() ==> final(ctx).all_ascii(),
            match spec_decide(*event) {
                TerminalAction::Exit => r is Exit && *final(ctx) == *old(ctx),
                TerminalAction::Ignore => r is Done && *final(ctx) == *old(ctx),
                TerminalAction::Confirm => r matches KeyEffect::Run(cmd) && cmd@ == old(ctx).input()
                    && final(ctx).input() == Seq::<char>::empty() && final(ctx).history()
                    == old(ctx).history().push(old(ctx).input()) && final(ctx).typed_command()
                    == old(ctx).typed_command() + 1 && final(ctx).last_command() == old(ctx).input()
                    && final(ctx).history_cursor() == old(ctx).history().len() && final(ctx).screen()
                    == old(ctx).screen() && final(ctx).view_offset() == old(ctx).view_offset()
                    && final(ctx).typed_alpha() == old(ctx).typed_alpha(),
                TerminalAction::Input(c) => r is Done && final(ctx).input() == old(ctx).input().push(
                    c,
                ) && final(ctx).typed_alpha() == old(ctx).typed_alpha() + 1 && final(ctx).screen()
                    == old(ctx).screen() && final(ctx).view_offset() == old(ctx).view_offset()
                    && final(ctx).history() == old(ctx).history() && final(ctx).history_cursor()
                    == old(ctx).history_cursor() && final(ctx).typed_command() == old(
                    ctx,
                ).typed_command() && final(ctx).last_command() == old(ctx).last_command(),
                TerminalAction::Backspace => r is Done && final(ctx).input() == after_backspace(
                    old(ctx).input(),
                ) && final(ctx).screen() == old(ctx).screen() && final(ctx).view_offset() == old(
                    ctx,
                ).view_offset() && final(ctx).history() == old(ctx).history()
                    && final(ctx).history_cursor() == old(ctx).history_cursor()
                    && final(ctx).typed_alpha() == old(ctx).typed_alpha() && final(ctx).typed_command()
                    == old(ctx).typed_command() && final(ctx).last_command() == old(
                    ctx,
                ).last_command(),
                TerminalAction::ViewOffset(off) => r is Done && final(ctx).view_offset() == after_scroll(
                    old(ctx).view_offset(),
                    off,
                ) && final(ctx).input() == old(ctx).input() && final(ctx).screen() == old(
                    ctx,
                ).screen() && final(ctx).history() == old(ctx).history()
                    && final(ctx).history_cursor() == old(ctx).history_cursor()
                    && final(ctx).typed_alpha() == old(ctx).typed_alpha() && final(ctx).typed_command()
                    == old(ctx).typed_command() && final(ctx).last_command() == old(
                    ctx,
                ).last_command(),
                TerminalAction::History(off) => r is Done && final(ctx).history() == old(ctx).history()
                    && final(ctx).history_cursor() == cursor_after_step(
                    old(ctx).history_cursor(),
                    old(ctx).history().len(),
                    off,
                ) && final(ctx).input() == input_after_step(
                    old(ctx).input(),
                    old(ctx).history(),
                    old(ctx).history_cursor(),
                    off,
                ) && final(ctx).screen() == old(ctx).screen() && final(ctx).view_offset() == old(
                    ctx,
                ).view_offset() && final(ctx).typed_alpha() == old(ctx).typed_alpha()
                    && final(ctx).typed_command() == old(ctx).typed_command()
                    && final(ctx).last_command() == old(ctx).last_command(),
            },
    {
        match Self::decide(event) {
            TerminalAction::Exit => KeyEffect::Exit,
            TerminalAction::Ignore => KeyEffect::Done,
            TerminalAction::Confirm => {
                let cmd = ctx.user_conform();
                proof {
                    if old(ctx).all_ascii() {
                        assert forall|i: int| 0 <= i < ctx.history().len() implies is_ascii_chars(
                            #[trigger] ctx.history()[i],
                        ) by {
                            if i < old(ctx).history().len() {
                                assert(ctx.history()[i] == old(ctx).history()[i]);
                            }
                        }
                        assert(is_ascii_chars(ctx.input()));
                    }
                }
                KeyEffect::Run(cmd)
            },
            TerminalAction::Input(c) => {
                ctx.user_ascii_input(c);
                proof {
                    if old(ctx).all_ascii() {
                        lemma_typeable_is_ascii(c);
                        assert(is_ascii_chars(ctx.input())) by {
                            assert forall|i: int| 0 <= i < ctx.input().len() implies '\0' <= #[trigger] ctx.input()[i] <= '\u{7f}' by {
                                if i < old(ctx).input().len() {
                                    assert(ctx.input()[i] == old(ctx).input()[i]);
                                }
                            }
                        }
                    }
                }
                KeyEffect::Done
            },
            TerminalAction::Backspace => {
                ctx.user_backspace();
                proof {
                    if old(ctx).all_ascii() && old(ctx).input().len() > 0 {
                        assert forall|i: int| 0 <= i < ctx.input().len() implies '\0' <= #[trigger] ctx.input()[i] <= '\u{7f}' by {
                            assert(ctx.input()[i] == old(ctx).input()[i]);
                        }
                    }
                }
                KeyEffect::Done
            },
            TerminalAction::ViewOffset(off) => {
                let _ = ctx.user_view_offset_changed(off);
                KeyEffect::Done
            },
            TerminalAction::History(off) => {
                let ghost cur = ctx.history_cursor();
                let _ = ctx.user_cmd_history(off);
                proof {
                    if old(ctx).all_ascii() && old(ctx).history().len() > 0 {
                        assert(is_ascii_chars(old(ctx).history()[cur as int]));
                    }
                }
                KeyEffect::Done
            },
        }
    }
}

} // verus!
