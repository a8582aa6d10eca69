//! What the terminal shows of a screen and what its keys ask for. Drawing and reading keys
//! are left to the caller; it hands a pressed key over as a [`Key`].
use vstd::prelude::*;

use crate::command::Command;
use crate::frame::{Frame, FrameView, HudView};
use crate::text::{decimal, fmt_u64, owned, push_str, str_eq};

verus! {

/// A key the player pressed.
#[derive(Debug, Clone, Copy, PartialEq, Eq, Structural)]
pub enum Key {
    Esc,
    Up,
    Down,
    Enter,
    Char(char),
    Other,
}

/// The screen offers verb `id`, enabled.
pub open spec fn verb_on(f: FrameView, id: Seq<char>) -> bool {
    exists|i: int| 0 <= i < f.verbs.len() && (#[trigger] f.verbs[i]).id == id && f.verbs[i].enabled
}

/// The command a key asks for on a screen; `None` for a key that asks for nothing. Keys held
/// with Control ask for nothing. Enter continues, closes or chooses the selected entry,
/// whichever the screen offers first; a digit from 1 to 9 chooses that entry of the list.
pub open spec fn key_command(f: FrameView, key: Key, ctrl: bool) -> Option<Command> {
    if ctrl {
        None
    } else {
        match key {
            Key::Esc => Some(Command::Quit),
            Key::Up => Some(Command::MoveCursor { delta: -1i32 }),
            Key::Down => Some(Command::MoveCursor { delta: 1i32 }),
            Key::Enter => if verb_on(f, "continue"@) {
                Some(Command::Continue)
            } else if verb_on(f, "close"@) {
                Some(Command::Close)
            } else if verb_on(f, "choose"@) {
                Some(
                    Command::Choose {
                        index: if f.slots.selected < 255 {
                            f.slots.selected as u8
                        } else {
                            255
                        },
                    },
                )
            } else {
                Some(Command::Continue)
            },
            Key::Char(c) => if c == 'k' {
                Some(Command::MoveCursor { delta: -1i32 })
            } else if c == 'j' {
                Some(Command::MoveCursor { delta: 1i32 })
            } else if c == 'q' {
                Some(Command::Quit)
            } else if c == 'n' {
                Some(Command::Notes)
            } else if c == '?' {
                Some(Command::Help)
            } else if c == 'x' && verb_on(f, "close"@) {
                Some(Command::Close)
            } else if '1' <= c <= '9' {
                if verb_on(f, "choose"@) {
                    Some(Command::Choose { index: ((c as u32) - ('1' as u32)) as u8 })
                } else {
                    None
                }
            } else {
                None
            },
            Key::Other => None,
        }
    }
}

impl Frame {
    /// The screen offers verb `id`, enabled.
    pub fn verb_enabled(&self, id: &str) -> (r: bool)
        ensures
            r == verb_on(self@, id@),
    {
        let mut i: usize = 0;
        while i < self.verbs.len()
            invariant
                i <= self.verbs.len(),
                forall|k: int|
                    0 <= k < i ==> !((#[trigger] self@.verbs[k]).id == id@ && self@.verbs[k].enabled),
            decreases self.verbs.len() - i,
        {
            let v = &self.verbs[i];
            assert(self@.verbs[i as int] == v@);
            if v.enabled && str_eq(v.id.as_str(), id) {
                return true;
            }
            i += 1;
        }
        false
    }

    /// The entry of the list that the cursor is on.
    pub fn selected(&self) -> (r: usize)
        ensures
            r == self@.slots.selected,
    {
        self.slots.selected
    }
}

/// The command that `key` asks for on screen `frame`.
pub fn map_key(frame: &Frame, key: Key, ctrl: bool) -> (r: Option<Command>)
    ensures
        r == key_command(frame@, key, ctrl),
{
    if ctrl {
        return None;
    }
    match key {
        Key::Esc => Some(Command::Quit),
        Key::Up => Some(Command::MoveCursor { delta: -1 }),
        Key::Down => Some(Command::MoveCursor { delta: 1 }),
        Key::Enter => {
            if frame.verb_enabled("continue") {
                Some(Command::Continue)
            } else if frame.verb_enabled("close") {
                Some(Command::Close)
            } else if frame.verb_enabled("choose") {
                let idx = frame.selected();
                let index: u8 = if idx < 255 {
                    idx as u8
                } else {
                    255
                };
                Some(Command::Choose { index })
            } else {
                Some(Command::Continue)
            }
        },
        Key::Char(c) => {
            if c == 'k' {
                Some(Command::MoveCursor { delta: -1 })
            } else if c == 'j' {
                Some(Command::MoveCursor { delta: 1 })
            } else if c == 'q' {
                Some(Command::Quit)
            } else if c == 'n' {
                Some(Command::Notes)
            } else if c == '?' {
                Some(Command::Help)
            } else if c == 'x' && frame.verb_enabled("close") {
                Some(Command::Close)
            } else if '1' <= c && c <= '9' {
                if frame.verb_enabled("choose") {
                    let d: u32 = (c as u32) - ('1' as u32);
                    Some(Command::Choose { index: d as u8 })
                } else {
                    None
                }
            } else {
                None
            }
        },
        Key::Other => None,
    }
}

/// The top line of the screen: heir, place, phase and money.
pub open spec fn hud_text(h: HudView) -> Seq<char> {
    " "@ + h.heir + "   "@ + h.location + "   "@ + h.phase + "   "@ + h.money + " "@
}

/// The top line of the screen.
pub fn hud_line(frame: &Frame) -> (r: String)
    ensures
        r@ == hud_text(frame@.slots.hud),
{
    let h = &frame.slots.hud;
    let mut r = owned(" ");
    push_str(&mut r, h.heir.as_str());
    push_str(&mut r, "   ");
    push_str(&mut r, h.location.as_str());
    push_str(&mut r, "   ");
    push_str(&mut r, h.phase.as_str());
    push_str(&mut r, "   ");
    push_str(&mut r, h.money.as_str());
    push_str(&mut r, " ");
    r
}

/// The line of entry `i` of the side list: a mark on the selected entry, its number, its name.
pub open spec fn side_line(f: FrameView, i: int) -> Seq<char> {
    (if i == f.slots.selected {
        ">"@
    } else {
        " "@
    }) + " "@ + decimal(i + 1) + ". "@ + f.slots.list[i].1
}

/// The lines of the side panel: one per list entry, or a hint to continue when there is none.
pub open spec fn side_text(f: FrameView) -> Seq<Seq<char>> {
    if f.slots.list.len() == 0 {
        seq!["Enter continue"@]
    } else {
        Seq::new(f.slots.list.len(), |i: int| side_line(f, i))
    }
}

/// The lines of the side panel.
pub fn side_lines(frame: &Frame) -> (r: Vec<String>)
    ensures
        crate::strset::texts(r@) == side_text(frame@),
{
    let list = &frame.slots.list;
    let mut out: Vec<String> = Vec::new();
    if list.len() == 0 {
        out.push(owned("Enter continue"));
        assert(crate::strset::texts(out@) =~= side_text(frame@));
        return out;
    }
    let sel = frame.slots.selected;
    let mut i: usize = 0;
    while i < list.len()
        invariant
            i <= list.len(),
            list == &frame.slots.list,
            sel == frame@.slots.selected,
            list.len() > 0,
            crate::strset::texts(out@) == Seq::new(i as nat, |k: int| side_line(frame@, k)),
        decreases list.len() - i,
    {
        let mut line = if i == sel {
            owned(">")
        } else {
            owned(" ")
        };
        push_str(&mut line, " ");
        let num = fmt_u64((i as u64) + 1);
        push_str(&mut line, num.as_str());
        push_str(&mut line, ". ");
        push_str(&mut line, list[i].name.as_str());
        assert(frame@.slots.list[i as int].1 == list@[i as int].name@);
        assert(line@ =~= side_line(frame@, i as int));
        let ghost prev = out@;
        let ghost lv = line@;
        out.push(line);
        assert(crate::strset::texts(out@) =~= crate::strset::texts(prev).push(lv));
        assert(crate::strset::texts(out@) =~= Seq::new((i + 1) as nat, |k: int| side_line(frame@, k)));
        i += 1;
    }
    assert(crate::strset::texts(out@) =~= side_text(frame@));
    out
}

} // verus!
