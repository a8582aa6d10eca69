//! The decisions of a play session over a campaign: where to start, how to open a chapter,
//! when to save the lineage and where to go after a chapter. The caller runs the loop: it
//! reads and writes the lineage and drives the screen.
use vstd::prelude::*;

use crate::command::PersistHint;
use crate::dsl::{resume_spec, str_opt_view, Campaign};
use crate::engine::{boot_with, carry_opt_view};
use crate::error::engine_error_message;
use crate::frame::Frame;
use crate::ir::opt_view;
use crate::persist::{lineage_opt_view, LineageSave, LineageView};
use crate::rules::boot_spec;
use crate::state::{Carry, WorldState, WorldStateView};
use crate::strmap::map_get;
use crate::strset::texts;
use crate::text::{owned, push_str, str_eq};
use crate::ir::Ir;

verus! {

/// The chapter a session starts from: the one asked for, else the entry when nothing was
/// saved, else where the saved lineage resumes; `None` when the saved campaign is over.
pub open spec fn start_spec(
    m: Seq<(Seq<char>, Ir)>,
    entry: Seq<char>,
    force: Option<Seq<char>>,
    save: Option<LineageView>,
) -> Option<Seq<char>> {
    match force {
        Some(id) => Some(id),
        None => match save {
            None => Some(entry),
            Some(p) => resume_spec(m, entry, p.completed, p.next_chapter),
        },
    }
}

/// The chapter a session starts from; `None` when the saved campaign is over.
pub fn start_chapter(camp: &Campaign, force: Option<String>, save: Option<&LineageSave>) -> (r:
    Option<String>)
    ensures
        opt_view(r) == start_spec(camp.chapters@, camp.entry@, opt_view(force), lineage_opt_view(save)),
{
    match force {
        Some(id) => Some(id),
        None => match save {
            None => Some(camp.entry.clone()),
            Some(prev) => {
                let next: Option<&str> = match &prev.next_chapter {
                    Some(n) => Some(n.as_str()),
                    None => None,
                };
                proof {
                    assert(str_opt_view(next) == opt_view(prev.next_chapter));
                }
                camp.resume(prev.completed.as_slice(), next)
            },
        },
    }
}

/// A `next` chapter that the campaign holds; `None` for one it does not hold.
pub open spec fn known_next(m: Seq<(Seq<char>, Ir)>, n: Option<Seq<char>>) -> Option<Seq<char>> {
    match n {
        Some(x) => if map_get(m, x) is Some {
            Some(x)
        } else {
            None
        },
        None => None,
    }
}

/// The message for a chapter id that the campaign does not hold.
pub open spec fn missing_chapter(id: Seq<char>) -> Seq<char> {
    "chapter `"@ + id + "` not in campaign"@
}

/// Opens chapter `id` of the campaign with what the previous chapter carries: its first
/// state, where a `next` that the campaign does not hold is dropped, and its first screen.
pub fn open_chapter(camp: &Campaign, id: &str, carry: Option<&Carry>) -> (r: Result<
    (WorldState, Frame),
    String,
>)
    ensures
        match map_get(camp.chapters@, id@) {
            None => r is Err && r->Err_0@ == missing_chapter(id@),
            Some(ir) => match boot_spec(ir, carry_opt_view(carry)) {
                Err(e) => r is Err && r->Err_0@ == engine_error_message(e),
                Ok((sv, fv)) => r is Ok && r->Ok_0.0@ == (WorldStateView {
                    next_chapter: known_next(camp.chapters@, sv.next_chapter),
                    ..sv
                }) && r->Ok_0.1@ == fv,
            },
        },
{
    let ir = match camp.chapters.get(id) {
        Some(ir) => ir,
        None => {
            let mut m = owned("chapter `");
            push_str(&mut m, id);
            push_str(&mut m, "` not in campaign");
            return Err(m);
        },
    };
    match boot_with(ir, carry) {
        Err(e) => Err(e.message()),
        Ok((state, frame)) => {
            let mut state = state;
            let drop = match &state.next_chapter {
                Some(n) => !camp.chapters.contains_key(n.as_str()),
                None => false,
            };
            if drop {
                state.next_chapter = None;
            }
            Ok((state, frame))
        },
    }
}

/// Whether a step's state is to be written to the lineage: the step asks for it and the
/// chapter has reached its debrief or its end.
pub fn should_save(state: &WorldState, hint: PersistHint) -> (r: bool)
    ensures
        r == (hint == PersistHint::Flush && (state@.mode == "debrief"@ || state@.mode == "done"@)),
{
    let flush = match hint {
        PersistHint::Flush => true,
        PersistHint::Skip => false,
    };
    flush && (str_eq(state.mode.as_str(), "debrief") || str_eq(state.mode.as_str(), "done"))
}

/// What follows the end of a chapter's session.
pub struct ChapterEnd {
    /// The lineage is to be written.
    pub save: bool,
    /// The chapter to play next, if any.
    pub next: Option<String>,
}

/// What follows a chapter's session that ended in `state`: the lineage is written when the
/// chapter reached its debrief or its end; the session goes on to the `next` chapter only
/// when the chapter is done and the campaign holds that chapter.
pub fn chapter_end(camp: &Campaign, state: &WorldState) -> (r: ChapterEnd)
    ensures
        r.save == (state@.mode == "done"@ || state@.mode == "debrief"@),
        opt_view(r.next) == (if state@.mode == "done"@ {
            known_next(camp.chapters@, state@.next_chapter)
        } else {
            None
        }),
        r.next matches Some(n) ==> map_get(camp.chapters@, n@) is Some,
{
    let done = str_eq(state.mode.as_str(), "done");
    let save = done || str_eq(state.mode.as_str(), "debrief");
    let next = if done {
        match &state.next_chapter {
            Some(n) => if camp.chapters.contains_key(n.as_str()) {
                Some(n.clone())
            } else {
                None
            },
            None => None,
        }
    } else {
        None
    };
    ChapterEnd { save, next }
}

} // verus!
