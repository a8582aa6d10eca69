use vstd::prelude::*;

use crate::ir::opt_view;
use crate::strset::texts;
use crate::text::{owned, push_str, replace_all, replace_str};

verus! {

/// A key the screen offers, and what it does.
pub struct Verb {
    pub id: String,
    pub key: String,
    pub enabled: bool,
    pub global: bool,
}

pub struct VerbView {
    pub id: Seq<char>,
    pub key: Seq<char>,
    pub enabled: bool,
    pub global: bool,
}

impl View for Verb {
    type V = VerbView;

    open spec fn view(&self) -> VerbView {
        VerbView { id: self.id@, key: self.key@, enabled: self.enabled, global: self.global }
    }
}

impl Verb {
    /// A verb of this screen only.
    pub fn local(id: &str, key: &str) -> (r: Verb)
        ensures
            r@ == (VerbView { id: id@, key: key@, enabled: true, global: false }),
    {
        Verb { id: owned(id), key: owned(key), enabled: true, global: false }
    }

    /// A verb offered on every screen.
    pub fn global(id: &str, key: &str) -> (r: Verb)
        ensures
            r@ == (VerbView { id: id@, key: key@, enabled: true, global: true }),
    {
        Verb { id: owned(id), key: owned(key), enabled: true, global: true }
    }
}

pub open spec fn verb_views(v: Seq<Verb>) -> Seq<VerbView> {
    v.map_values(|x: Verb| x@)
}

/// The verbs that every screen offers: notes, help, quit.
pub open spec fn global_verbs() -> Seq<VerbView> {
    seq![
        VerbView { id: "notes"@, key: "n"@, enabled: true, global: true },
        VerbView { id: "help"@, key: "?"@, enabled: true, global: true },
        VerbView { id: "quit"@, key: "q"@, enabled: true, global: true },
    ]
}

/// Appends the global verbs.
pub fn push_globals(v: &mut Vec<Verb>)
    ensures
        verb_views(final(v)@) == verb_views(old(v)@) + global_verbs(),
{
    let ghost start = verb_views(v@);
    v.push(Verb::global("notes", "n"));
    v.push(Verb::global("help", "?"));
    v.push(Verb::global("quit", "q"));
    assert(verb_views(v@) =~= start + global_verbs());
}

/// One entry of the list on the side of the screen.
pub struct ListItem {
    pub id: String,
    pub name: String,
}

pub open spec fn item_views(v: Seq<ListItem>) -> Seq<(Seq<char>, Seq<char>)> {
    v.map_values(|x: ListItem| (x.id@, x.name@))
}

/// The top line of the screen.
pub struct Hud {
    pub location: String,
    pub heir: String,
    pub phase: String,
    pub money: String,
}

pub struct HudView {
    pub location: Seq<char>,
    pub heir: Seq<char>,
    pub phase: Seq<char>,
    pub money: Seq<char>,
}

impl View for Hud {
    type V = HudView;

    open spec fn view(&self) -> HudView {
        HudView {
            location: self.location@,
            heir: self.heir@,
            phase: self.phase@,
            money: self.money@,
        }
    }
}

/// What the screen shows.
pub struct Slots {
    pub hud: Hud,
    pub narrative: String,
    pub list: Vec<ListItem>,
    pub selected: usize,
    pub title: Option<String>,
    pub overlay_title: Option<String>,
    pub footer: Option<String>,
}

pub struct SlotsView {
    pub hud: HudView,
    pub narrative: Seq<char>,
    pub list: Seq<(Seq<char>, Seq<char>)>,
    pub selected: usize,
    pub title: Option<Seq<char>>,
    pub overlay_title: Option<Seq<char>>,
    pub footer: Option<Seq<char>>,
}

impl View for Slots {
    type V = SlotsView;

    open spec fn view(&self) -> SlotsView {
        SlotsView {
            hud: self.hud@,
            narrative: self.narrative@,
            list: item_views(self.list@),
            selected: self.selected,
            title: opt_view(self.title),
            overlay_title: opt_view(self.overlay_title),
            footer: opt_view(self.footer),
        }
    }
}

/// One screen: its mode, what it shows and the keys it offers.
pub struct Frame {
    pub mode: String,
    pub slots: Slots,
    pub verbs: Vec<Verb>,
}

pub struct FrameView {
    pub mode: Seq<char>,
    pub slots: SlotsView,
    pub verbs: Seq<VerbView>,
}

impl View for Frame {
    type V = FrameView;

    open spec fn view(&self) -> FrameView {
        FrameView { mode: self.mode@, slots: self.slots@, verbs: verb_views(self.verbs@) }
    }
}

/// The texts of `items` joined by `sep`.
pub open spec fn join_with(items: Seq<Seq<char>>, sep: Seq<char>) -> Seq<char>
    decreases items.len(),
{
    if items.len() == 0 {
        Seq::empty()
    } else if items.len() == 1 {
        items[0]
    } else {
        join_with(items.drop_last(), sep) + sep + items.last()
    }
}

/// Joins the strings of `items` with `sep` between them.
pub fn join_strings(items: &Vec<String>, sep: &str) -> (r: String)
    ensures
        r@ == join_with(texts(items@), sep@),
{
    let mut out = String::new();
    let mut i: usize = 0;
    while i < items.len()
        invariant
            i <= items.len(),
            out@ == join_with(texts(items@).take(i as int), sep@),
        decreases items.len() - i,
    {
        assert(texts(items@).take(i + 1).drop_last() =~= texts(items@).take(i as int));
        if i > 0 {
            push_str(&mut out, sep);
        } else {
            assert(out@ =~= Seq::<char>::empty());
        }
        push_str(&mut out, items[i].as_str());
        proof {
            if i == 0 {
                assert(out@ =~= texts(items@).take(1)[0]);
            }
        }
        i += 1;
    }
    assert(texts(items@).take(i as int) =~= texts(items@));
    out
}

/// The footer parts of `verbs`: `key id` for each enabled verb.
pub open spec fn footer_parts(verbs: Seq<VerbView>) -> Seq<Seq<char>>
    decreases verbs.len(),
{
    if verbs.len() == 0 {
        Seq::empty()
    } else if verbs.last().enabled {
        footer_parts(verbs.drop_last()).push(verbs.last().key + " "@ + verbs.last().id)
    } else {
        footer_parts(verbs.drop_last())
    }
}

/// The footer line of a screen.
pub open spec fn footer_text(verbs: Seq<VerbView>) -> Seq<char> {
    join_with(footer_parts(verbs), "   "@)
}

impl Frame {
    /// The keys this screen offers, as one line.
    pub fn footer(&self) -> (r: String)
        ensures
            r@ == footer_text(self@.verbs),
    {
        let mut parts: Vec<String> = Vec::new();
        let mut i: usize = 0;
        while i < self.verbs.len()
            invariant
                i <= self.verbs.len(),
                texts(parts@) == footer_parts(verb_views(self.verbs@).take(i as int)),
            decreases self.verbs.len() - i,
        {
            let v = &self.verbs[i];
            assert(verb_views(self.verbs@).take(i + 1).drop_last() =~= verb_views(
                self.verbs@,
            ).take(i as int));
            if v.enabled {
                let mut p = owned(v.key.as_str());
                push_str(&mut p, " ");
                push_str(&mut p, v.id.as_str());
                let ghost prev = parts@;
                parts.push(p);
                assert(texts(parts@) =~= texts(prev).push(p@));
            }
            i += 1;
        }
        assert(verb_views(self.verbs@).take(i as int) =~= verb_views(self.verbs@));
        join_strings(&parts, "   ")
    }

    /// This screen with its footer line filled in.
    pub fn with_footer(self) -> (r: Frame)
        ensures
            r@ == (FrameView {
                slots: SlotsView { footer: Some(footer_text(self@.verbs)), ..self@.slots },
                ..self@
            }),
    {
        let footer = self.footer();
        let mut f = self;
        f.slots.footer = Some(footer);
        f
    }
}

/// `text` without its `{em}` and `{/em}` markers.
pub open spec fn plain_em_spec(text: Seq<char>) -> Seq<char> {
    replace_all(replace_all(text, "{em}"@, Seq::empty()), "{/em}"@, Seq::empty())
}

/// Removes the `{em}` / `{/em}` emphasis markers.
pub fn plain_em(text: &str) -> (r: String)
    ensures
        r@ == plain_em_spec(text@),
{
    proof {
        reveal_strlit("{em}");
        reveal_strlit("{/em}");
        reveal_strlit("");
        assert(""@ =~= Seq::<char>::empty());
    }
    let a = replace_str(text, "{em}", "");
    replace_str(a.as_str(), "{/em}", "")
}

} // verus!
