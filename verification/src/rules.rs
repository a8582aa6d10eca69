//! The chapter mode machine as mathematics: what every engine operation computes.
use vstd::prelude::*;

use crate::command::{Command, PersistHint};
use crate::error::EngineErrorView;
use crate::frame::{footer_text, global_verbs, join_with, FrameView, HudView, SlotsView, VerbView};
use crate::ir::{opt_view, ChoiceIr, Ir, LieuJouable, PetitionIr};
use crate::state::{FicheView, HeirView, WorldStateView, NOTES_CAP, play_mode_of};
use crate::strmap::{map_get, map_put};
use crate::strset::{insert_all, remove_all, set_insert, texts};
use crate::text::{decimal, replace_all};

verus! {

// ---------------------------------------------------------------- visibility

/// The indices `j < n` for which `p(j)` holds, in increasing order.
pub open spec fn indices_where(n: nat, p: spec_fn(int) -> bool) -> Seq<usize>
    decreases n,
{
    if n == 0 {
        Seq::empty()
    } else if p(n - 1) {
        indices_where((n - 1) as nat, p).push((n - 1) as usize)
    } else {
        indices_where((n - 1) as nat, p)
    }
}

/// The first index `j < n` for which `p(j)` holds.
pub open spec fn first_where(n: nat, p: spec_fn(int) -> bool) -> Option<int>
    decreases n,
{
    if n == 0 {
        None
    } else {
        match first_where((n - 1) as nat, p) {
            Some(k) => Some(k),
            None => if p(n - 1) {
                Some(n - 1)
            } else {
                None
            },
        }
    }
}

/// The `when_flag` / `when_not_flag` gates are met by `flags`.
pub open spec fn flag_ok(
    flags: Seq<Seq<char>>,
    when: Option<String>,
    when_not: Option<String>,
) -> bool {
    &&& match when {
        Some(f) => flags.contains(f@),
        None => true,
    }
    &&& match when_not {
        Some(f) => !flags.contains(f@),
        None => true,
    }
}

/// Place `j` is open to `flags`.
pub open spec fn lieu_open(ir: Ir, flags: Seq<Seq<char>>) -> spec_fn(int) -> bool {
    |j: int|
        flag_ok(
            flags,
            ir.chapter.lieux_jouables@[j].when_flag,
            ir.chapter.lieux_jouables@[j].when_not_flag,
        )
}

/// Indices of the places whose gates `flags` meets.
pub open spec fn visible_lieux(ir: Ir, flags: Seq<Seq<char>>) -> Seq<usize> {
    indices_where(ir.chapter.lieux_jouables@.len(), lieu_open(ir, flags))
}

/// Choice `j` of `choices` is open to `flags`.
pub open spec fn choice_open(choices: Seq<ChoiceIr>, flags: Seq<Seq<char>>) -> spec_fn(int) -> bool {
    |j: int| flag_ok(flags, choices[j].when_flag, choices[j].when_not_flag)
}

/// Indices of the choices whose gates `flags` meets.
pub open spec fn visible_choices(choices: Seq<ChoiceIr>, flags: Seq<Seq<char>>) -> Seq<usize> {
    indices_where(choices.len(), choice_open(choices, flags))
}

/// Place `j` has the id `id`.
pub open spec fn lieu_has_id(ir: Ir, id: Seq<char>) -> spec_fn(int) -> bool {
    |j: int| ir.chapter.lieux_jouables@[j].id@ == id
}

/// The first place of the chapter with the given id.
pub open spec fn find_lieu(ir: Ir, id: Seq<char>) -> Option<int> {
    first_where(ir.chapter.lieux_jouables@.len(), lieu_has_id(ir, id))
}

/// The petition ids the chosen place opens, when a known place is chosen.
pub open spec fn allowed_petitions(ir: Ir, s: WorldStateView) -> Option<Seq<Seq<char>>> {
    match s.lieu {
        Some(id) => match find_lieu(ir, id) {
            Some(k) => Some(texts(ir.chapter.lieux_jouables@[k].petitions@)),
            None => None,
        },
        None => None,
    }
}

/// Petition `p` is open: its gates hold and the chosen place (if any) lists it.
pub open spec fn petition_open(ir: Ir, s: WorldStateView, p: PetitionIr) -> bool {
    &&& flag_ok(s.flags, p.when_flag, p.when_not_flag)
    &&& match allowed_petitions(ir, s) {
        Some(ids) => ids.contains(p.id@),
        None => true,
    }
}

/// Petition `j` is open.
pub open spec fn petition_open_at(ir: Ir, s: WorldStateView) -> spec_fn(int) -> bool {
    |j: int| petition_open(ir, s, ir.chapter.petitions@[j])
}

/// Indices of the open petitions.
pub open spec fn visible_petitions(ir: Ir, s: WorldStateView) -> Seq<usize> {
    indices_where(ir.chapter.petitions@.len(), petition_open_at(ir, s))
}

pub proof fn lemma_indices_where(n: nat, p: spec_fn(int) -> bool)
    requires
        n <= usize::MAX,
    ensures
        forall|k: int|
            0 <= k < indices_where(n, p).len() ==> (#[trigger] indices_where(n, p)[k]) < n && p(
                indices_where(n, p)[k] as int,
            ),
        indices_where(n, p).len() <= n,
    decreases n,
{
    if n > 0 {
        lemma_indices_where((n - 1) as nat, p);
    }
}

pub proof fn lemma_first_where(n: nat, p: spec_fn(int) -> bool)
    ensures
        match first_where(n, p) {
            Some(k) => 0 <= k < n && p(k) && forall|j: int| 0 <= j < k ==> !#[trigger] p(j),
            None => forall|j: int| 0 <= j < n ==> !#[trigger] p(j),
        },
    decreases n,
{
    if n > 0 {
        lemma_first_where((n - 1) as nat, p);
    }
}

/// The first element of `v` after `after` (the first element when `after` is `None`).
pub open spec fn first_after(v: Seq<usize>, after: Option<usize>) -> Option<usize>
    decreases v.len(),
{
    if v.len() == 0 {
        None
    } else if (match after {
        Some(a) => v[0] > a,
        None => true,
    }) {
        Some(v[0])
    } else {
        first_after(v.skip(1), after)
    }
}

/// The ids of what the list of the current mode offers.
pub open spec fn offered_ids(ir: Ir, s: WorldStateView) -> Seq<Seq<char>> {
    if s.mode == "lieu"@ {
        visible_lieux(ir, s.flags).map_values(|j: usize| ir.chapter.lieux_jouables@[j as int].id@)
    } else if s.mode == "petition"@ {
        if s.petition_i < ir.chapter.petitions@.len() {
            let cs = ir.chapter.petitions@[s.petition_i as int].choices@;
            visible_choices(cs, s.flags).map_values(|j: usize| cs[j as int].id@)
        } else {
            Seq::empty()
        }
    } else if s.mode == "set_piece"@ {
        let cs = ir.chapter.set_piece.choices@;
        visible_choices(cs, s.flags).map_values(|j: usize| cs[j as int].id@)
    } else {
        Seq::empty()
    }
}

pub proof fn lemma_first_after(v: Seq<usize>, after: Option<usize>)
    ensures
        first_after(v, after) matches Some(i) ==> v.contains(i) && (after matches Some(a) ==> i > a),
    decreases v.len(),
{
    if v.len() > 0 {
        lemma_first_after(v.skip(1), after);
        if let Some(i) = first_after(v, after) {
            if first_after(v.skip(1), after) == Some(i) && !(match after {
                Some(a) => v[0] > a,
                None => true,
            }) {
                let k = choose|k: int| 0 <= k < v.skip(1).len() && v.skip(1)[k] == i;
                assert(v[k + 1] == i);
            } else {
                assert(v[0] == i);
            }
        }
    }
}

/// The names of the modes are pairwise distinct.
pub proof fn lemma_mode_names()
    ensures
        distinct_names(
            seq![
                "briefing"@,
                "lieu"@,
                "petition"@,
                "aftermath"@,
                "set_piece"@,
                "set_aftermath"@,
                "debrief"@,
                "done"@,
                "notes"@,
                "help"@,
            ],
        ),
{
    reveal_strlit("briefing");
    reveal_strlit("lieu");
    reveal_strlit("petition");
    reveal_strlit("aftermath");
    reveal_strlit("set_piece");
    reveal_strlit("set_aftermath");
    reveal_strlit("debrief");
    reveal_strlit("done");
    reveal_strlit("notes");
    reveal_strlit("help");
    let ns = seq![
        "briefing"@,
        "lieu"@,
        "petition"@,
        "aftermath"@,
        "set_piece"@,
        "set_aftermath"@,
        "debrief"@,
        "done"@,
        "notes"@,
        "help"@,
    ];
    assert forall|i: int, j: int| 0 <= i < j < ns.len() implies #[trigger] ns[i] != #[trigger] ns[j] by {
        assert(ns[i].len() != ns[j].len() || ns[i][0] != ns[j][0]);
    }
}

/// No two texts of `ns` are equal.
pub open spec fn distinct_names(ns: Seq<Seq<char>>) -> bool {
    forall|i: int, j: int| 0 <= i < j < ns.len() ==> #[trigger] ns[i] != #[trigger] ns[j]
}

// ---------------------------------------------------------------- text

/// The bindings of `m` written into `t`: `{key}` becomes the decimal value.
pub open spec fn fill_money(t: Seq<char>, m: Seq<(Seq<char>, i32)>) -> Seq<char>
    decreases m.len(),
{
    if m.len() == 0 {
        t
    } else {
        replace_all(
            fill_money(t, m.drop_last()),
            "{"@ + m.last().0 + "}"@,
            decimal(m.last().1 as int),
        )
    }
}

/// `text` with the heir, chapter and money placeholders filled in.
pub open spec fn interpolate(ir: Ir, s: WorldStateView, text: Seq<char>) -> Seq<char> {
    let t1 = replace_all(text, "{heir.name}"@, s.heir.name);
    let t2 = replace_all(t1, "{heir.title}"@, s.heir.title);
    let t3 = replace_all(t2, "{heir.id}"@, s.heir.id);
    let t4 = replace_all(t3, "{chapter.title}"@, ir.chapter.title@);
    let t5 = replace_all(t4, "{clock.dates}"@, ir.chapter.dates@);
    fill_money(t5, s.monnaies)
}

/// The narrative of the briefing.
pub open spec fn briefing_text(ir: Ir, s: WorldStateView) -> Seq<char> {
    let b = ir.chapter.briefing;
    let body = interpolate(ir, s, b.text@);
    if b.masthead@.len() == 0 {
        body
    } else {
        interpolate(ir, s, b.masthead@) + "\n\n"@ + body
    }
}

/// An emphasised heading, followed by a blank line; nothing for an empty title.
pub open spec fn heading(title: Seq<char>) -> Seq<char> {
    if title.len() == 0 {
        Seq::empty()
    } else {
        "{em}"@ + title + "{/em}\n\n"@
    }
}

/// The narrative of a petition.
pub open spec fn petition_text(ir: Ir, s: WorldStateView, p: PetitionIr) -> Seq<char> {
    heading(p.title@) + interpolate(ir, s, p.text@)
}

/// The narrative of the set piece.
pub open spec fn set_piece_text(ir: Ir, s: WorldStateView) -> Seq<char> {
    heading(ir.chapter.set_piece.title@) + interpolate(ir, s, ir.chapter.set_piece.text@)
}

/// One bullet line per text.
pub open spec fn bullets(items: Seq<Seq<char>>) -> Seq<char>
    decreases items.len(),
{
    if items.len() == 0 {
        Seq::empty()
    } else {
        bullets(items.drop_last()) + "• "@ + items.last() + "\n"@
    }
}

/// One bullet line per fiche: its name, a dash, its text.
pub open spec fn fiche_bullets(fs: Seq<FicheView>) -> Seq<char>
    decreases fs.len(),
{
    if fs.len() == 0 {
        Seq::empty()
    } else {
        fiche_bullets(fs.drop_last()) + "• "@ + fs.last().nom + " — "@ + fs.last().texte + "\n"@
    }
}

/// The narrative of the debrief: text, fiches, relics, and the carnet when it holds notes.
pub open spec fn debrief_text(ir: Ir, s: WorldStateView) -> Seq<char> {
    let intro = interpolate(ir, s, ir.chapter.debrief.text@);
    let a = if intro.len() == 0 {
        intro
    } else {
        intro + "\n\n"@
    };
    let b = a + "{em}Fiches{/em}\n"@ + (if s.fiches.len() == 0 {
        "Rien classé.\n"@
    } else {
        fiche_bullets(s.fiches)
    });
    let c = b + "\n"@ + "{em}Reliques{/em}\n"@ + (if s.heritage.len() == 0 {
        "La cave est vide.\n"@
    } else {
        bullets(s.heritage)
    });
    if s.notes.len() == 0 {
        c
    } else {
        c + "\n{em}Carnet{/em}\n"@ + bullets(s.notes)
    }
}

/// The prompt shown when the player picks a place.
pub open spec fn lieu_prompt() -> Seq<char> {
    "Tu ne peux pas être partout. Où vas-tu ? Le reste de cette France-là se fera sans toi."@
}

/// The closing text of a chapter.
pub open spec fn done_text(s: WorldStateView) -> Seq<char> {
    "La chronique s'arrête ici pour ce siècle.\n\nHéritier suivant : "@ + s.heir.name + "."@ + (
    match s.next_chapter {
        Some(n) => "\nChapitre suivant : "@ + n + "."@,
        None => Seq::empty(),
    })
}

// ---------------------------------------------------------------- choices

/// The new amount of a currency: old amount plus delta, never below zero.
pub open spec fn clamp_add(e: i32, d: i32) -> i32 {
    if e + d < 0 {
        0
    } else {
        (e + d) as i32
    }
}

/// The deltas of `delta`, in key order, applied to the currencies that `m` holds.
pub open spec fn apply_delta(m: Seq<(Seq<char>, i32)>, delta: Seq<(Seq<char>, i32)>) -> Seq<
    (Seq<char>, i32),
>
    decreases delta.len(),
{
    if delta.len() == 0 {
        m
    } else {
        let m1 = apply_delta(m, delta.drop_last());
        let (k, d) = delta.last();
        match map_get(m1, k) {
            Some(e) => map_put(m1, k, clamp_add(e, d)),
            None => m1,
        }
    }
}

/// Every sum that applying `delta` to `m` computes fits in an `i32`.
pub open spec fn delta_fits(m: Seq<(Seq<char>, i32)>, delta: Seq<(Seq<char>, i32)>) -> bool
    decreases delta.len(),
{
    if delta.len() == 0 {
        true
    } else {
        &&& delta_fits(m, delta.drop_last())
        &&& match map_get(apply_delta(m, delta.drop_last()), delta.last().0) {
            Some(e) => i32::MIN <= e + delta.last().1 <= i32::MAX,
            None => true,
        }
    }
}

/// The amount held of `k`, zero when none.
pub open spec fn amount(m: Seq<(Seq<char>, i32)>, k: Seq<char>) -> i32 {
    match map_get(m, k) {
        Some(v) => v,
        None => 0,
    }
}

/// The relics after a choice: its heritage added (a union), `cheval` added when the chapter
/// says so and a horse stock is held, then its removals taken out.
pub open spec fn heritage_after(
    ir: Ir,
    heritage: Seq<Seq<char>>,
    monnaies: Seq<(Seq<char>, i32)>,
    c: ChoiceIr,
) -> Seq<Seq<char>> {
    let h1 = insert_all(heritage, texts(c.heritage@));
    let h2 = if ir.chapter.cheval_si_chevaux && c.heritage@.len() > 0 && amount(
        monnaies,
        "chevaux"@,
    ) > 0 {
        set_insert(h1, "cheval"@)
    } else {
        h1
    };
    remove_all(h2, texts(c.heritage_remove@))
}

/// The heir after a choice that may name the next heir.
pub open spec fn heir_after(h: HeirView, c: ChoiceIr) -> HeirView {
    match c.next_heir {
        Some(id) => HeirView {
            id: id@,
            name: match c.next_heir_name {
                Some(n) => n@,
                None => h.name,
            },
            title: Seq::empty(),
        },
        None => h,
    }
}

/// The state after the consequences of a choice.
pub open spec fn apply_choice(ir: Ir, s: WorldStateView, c: ChoiceIr) -> WorldStateView {
    let m = apply_delta(s.monnaies, c.delta@);
    let flags = insert_all(s.flags, texts(c.flags@));
    let notes = match c.notes {
        Some(n) => if s.notes.len() < NOTES_CAP {
            s.notes.push(n@)
        } else {
            s.notes
        },
        None => s.notes,
    };
    WorldStateView {
        monnaies: m,
        flags: flags,
        notes: notes,
        heritage: heritage_after(ir, s.heritage, m, c),
        heir: heir_after(s.heir, c),
        ..s
    }
}

/// The fiches of the debrief among the first `n` whose gates `flags` meets.
pub open spec fn earned_fiches(ir: Ir, flags: Seq<Seq<char>>, n: nat) -> Seq<FicheView>
    decreases n,
{
    if n == 0 {
        Seq::empty()
    } else {
        let f = ir.chapter.debrief.fiches@[n - 1];
        let r = earned_fiches(ir, flags, (n - 1) as nat);
        if flag_ok(flags, f.when_flag, f.when_not_flag) {
            r.push(FicheView { id: f.id@, nom: f.nom@, texte: f.texte@ })
        } else {
            r
        }
    }
}

// ---------------------------------------------------------------- modes

pub open spec fn enter_set_piece(ir: Ir, s: WorldStateView) -> WorldStateView {
    let s1 = WorldStateView { mode: "set_piece"@, cursor: 0, ..s };
    WorldStateView { narrative: set_piece_text(ir, s1), ..s1 }
}

/// The first open petition after `after`, or the set piece when none is left.
pub open spec fn enter_petition(ir: Ir, s: WorldStateView, after: Option<usize>) -> WorldStateView {
    match first_after(visible_petitions(ir, s), after) {
        Some(i) => {
            let s1 = WorldStateView { mode: "petition"@, petition_i: i, cursor: 0, ..s };
            WorldStateView {
                narrative: petition_text(ir, s1, ir.chapter.petitions@[i as int]),
                ..s1
            }
        },
        None => enter_set_piece(ir, s),
    }
}

/// The choice of a place, or the petitions when no place is open.
pub open spec fn enter_lieu(ir: Ir, s: WorldStateView) -> WorldStateView {
    if visible_lieux(ir, s.flags).len() == 0 {
        enter_petition(ir, s, None)
    } else {
        let s1 = WorldStateView { mode: "lieu"@, cursor: 0, ..s };
        WorldStateView { narrative: interpolate(ir, s1, lieu_prompt()), ..s1 }
    }
}

pub open spec fn enter_debrief(ir: Ir, s: WorldStateView) -> WorldStateView {
    let s1 = WorldStateView { mode: "debrief"@, ..s };
    let s2 = WorldStateView {
        fiches: earned_fiches(ir, s1.flags, ir.chapter.debrief.fiches@.len()),
        ..s1
    };
    let s3 = if s2.heritage.len() == 0 {
        WorldStateView {
            heritage: insert_all(Seq::empty(), texts(ir.chapter.heritage_default@)),
            ..s2
        }
    } else {
        s2
    };
    WorldStateView { narrative: debrief_text(ir, s3), ..s3 }
}

/// What `Continue` does in each mode.
pub open spec fn continue_mode(ir: Ir, s: WorldStateView) -> Result<WorldStateView, EngineErrorView> {
    if s.mode == "briefing"@ {
        if ir.chapter.lieux_jouables@.len() == 0 {
            Ok(enter_petition(ir, s, None))
        } else {
            Ok(enter_lieu(ir, s))
        }
    } else if s.mode == "aftermath"@ {
        Ok(enter_petition(ir, s, Some(s.petition_i)))
    } else if s.mode == "set_aftermath"@ {
        Ok(enter_debrief(ir, s))
    } else if s.mode == "debrief"@ {
        Ok(WorldStateView { mode: "done"@, narrative: done_text(s), ..s })
    } else if s.mode == "done"@ {
        Ok(s)
    } else {
        Err(EngineErrorView::WrongMode("Continue"@, s.mode))
    }
}

/// The choice that `Choose { index }` picks in a petition or the set piece.
pub open spec fn chosen(ir: Ir, s: WorldStateView, index: int) -> Option<ChoiceIr> {
    if s.mode == "petition"@ {
        if s.petition_i < ir.chapter.petitions@.len() {
            let cs = ir.chapter.petitions@[s.petition_i as int].choices@;
            let vis = visible_choices(cs, s.flags);
            if 0 <= index < vis.len() {
                Some(cs[vis[index] as int])
            } else {
                None
            }
        } else {
            None
        }
    } else if s.mode == "set_piece"@ {
        let cs = ir.chapter.set_piece.choices@;
        let vis = visible_choices(cs, s.flags);
        if 0 <= index < vis.len() {
            Some(cs[vis[index] as int])
        } else {
            None
        }
    } else {
        None
    }
}

/// The narrative shown after a place is picked (before the petitions take over).
pub open spec fn lieu_text(ir: Ir, s: WorldStateView, l: LieuJouable) -> Seq<char> {
    let body = interpolate(ir, s, l.texte@);
    if body.len() == 0 {
        l.nom@
    } else {
        "{em}"@ + l.nom@ + "{/em}\n\n"@ + body
    }
}

/// What `Choose { index }` does.
pub open spec fn choose_step(ir: Ir, s: WorldStateView, index: int) -> Result<WorldStateView, EngineErrorView> {
    if s.mode == "lieu"@ {
        let vis = visible_lieux(ir, s.flags);
        if 0 <= index < vis.len() {
            let l = ir.chapter.lieux_jouables@[vis[index] as int];
            let s1 = WorldStateView {
                lieu: Some(l.id@),
                flags: set_insert(s.flags, "lieu-"@ + l.id@),
                cursor: 0,
                ..s
            };
            let s2 = WorldStateView { narrative: lieu_text(ir, s1, l), ..s1 };
            Ok(enter_petition(ir, s2, None))
        } else {
            Err(EngineErrorView::UnknownChoice(decimal(index)))
        }
    } else if s.mode == "petition"@ && s.petition_i >= ir.chapter.petitions@.len() {
        Err(EngineErrorView::Other("no petition"@))
    } else if s.mode == "petition"@ || s.mode == "set_piece"@ {
        match chosen(ir, s, index) {
            Some(c) => {
                let s1 = apply_choice(ir, s, c);
                let s2 = WorldStateView {
                    mode: if s.mode == "petition"@ {
                        "aftermath"@
                    } else {
                        "set_aftermath"@
                    },
                    cursor: 0,
                    last_choice: Some(c.id@),
                    ..s1
                };
                let t = interpolate(ir, s2, c.text@);
                Ok(WorldStateView { narrative: if t.len() == 0 { c.label@ } else { t }, ..s2 })
            },
            None => Err(EngineErrorView::UnknownChoice(decimal(index))),
        }
    } else {
        Err(EngineErrorView::WrongMode("Choose"@, s.mode))
    }
}

// ---------------------------------------------------------------- screens

/// The label of the phase shown in the HUD.
pub open spec fn phase(ir: Ir, s: WorldStateView) -> Seq<char> {
    let m = play_mode_of(s);
    let counter = decimal(s.petition_i + 1) + "/"@ + decimal(ir.chapter.petitions@.len() as int);
    if m == "briefing"@ {
        "briefing"@
    } else if m == "lieu"@ {
        "où"@
    } else if m == "petition"@ {
        "pétition "@ + counter
    } else if m == "aftermath"@ {
        "après "@ + counter
    } else if m == "set_piece"@ {
        "set-piece"@
    } else if m == "set_aftermath"@ {
        "après set-piece"@
    } else if m == "debrief"@ {
        "debrief"@
    } else if m == "done"@ {
        "fin"@
    } else if m == "notes"@ {
        "carnet"@
    } else if m == "help"@ {
        "aide"@
    } else {
        m
    }
}

/// `label amount` for each of the first `n` currencies of the chapter.
pub open spec fn money_parts(ir: Ir, m: Seq<(Seq<char>, i32)>, n: nat) -> Seq<Seq<char>>
    decreases n,
{
    if n == 0 {
        Seq::empty()
    } else {
        let c = ir.chapter.monnaies@[n - 1];
        money_parts(ir, m, (n - 1) as nat).push(
            c.label@ + " "@ + decimal(amount(m, c.id@) as int),
        )
    }
}

/// Where the HUD says the heir is: the chosen place, else the chronicle's place.
pub open spec fn location(ir: Ir, s: WorldStateView) -> Seq<char> {
    match s.lieu {
        Some(id) => match find_lieu(ir, id) {
            Some(k) => ir.chapter.lieux_jouables@[k].nom@,
            None => ir.chronicle.lieu@,
        },
        None => ir.chronicle.lieu@,
    }
}

pub open spec fn hud(ir: Ir, s: WorldStateView) -> HudView {
    HudView {
        location: location(ir, s),
        heir: s.heir.name,
        phase: phase(ir, s),
        money: join_with(money_parts(ir, s.monnaies, ir.chapter.monnaies@.len()), "   "@),
    }
}

/// A screen with its footer filled in.
pub open spec fn finish_frame(
    mode: Seq<char>,
    hud: HudView,
    narrative: Seq<char>,
    list: Seq<(Seq<char>, Seq<char>)>,
    selected: usize,
    title: Option<Seq<char>>,
    overlay_title: Option<Seq<char>>,
    verbs: Seq<VerbView>,
) -> FrameView {
    FrameView {
        mode: mode,
        slots: SlotsView {
            hud: hud,
            narrative: narrative,
            list: list,
            selected: selected,
            title: title,
            overlay_title: overlay_title,
            footer: Some(footer_text(verbs)),
        },
        verbs: verbs,
    }
}

/// The title of a page.
pub open spec fn page_title(mode: Seq<char>) -> Seq<char> {
    if mode == "briefing"@ {
        "briefing"@
    } else if mode == "aftermath"@ || mode == "set_aftermath"@ {
        "suite"@
    } else if mode == "debrief"@ {
        "chronique"@
    } else if mode == "done"@ {
        "transmission"@
    } else {
        mode
    }
}

/// A page to read, with a `continue` key.
pub open spec fn page_frame(ir: Ir, s: WorldStateView) -> FrameView {
    finish_frame(
        s.mode,
        hud(ir, s),
        s.narrative,
        Seq::empty(),
        0,
        Some(page_title(s.mode)),
        None,
        seq![VerbView { id: "continue"@, key: "enter"@, enabled: true, global: false }]
            + global_verbs(),
    )
}

pub open spec fn list_verbs() -> Seq<VerbView> {
    seq![
        VerbView { id: "up"@, key: "k"@, enabled: true, global: false },
        VerbView { id: "down"@, key: "j"@, enabled: true, global: false },
        VerbView { id: "choose"@, key: "enter"@, enabled: true, global: false },
    ] + global_verbs()
}

/// A screen with a list to choose from.
pub open spec fn list_frame(ir: Ir, s: WorldStateView, list: Seq<(Seq<char>, Seq<char>)>) -> FrameView {
    finish_frame(s.mode, hud(ir, s), s.narrative, list, s.cursor, Some(s.mode), None, list_verbs())
}

/// The list entries of the open places.
pub open spec fn lieu_list(ir: Ir, s: WorldStateView) -> Seq<(Seq<char>, Seq<char>)> {
    let ls = ir.chapter.lieux_jouables@;
    visible_lieux(ir, s.flags).map_values(|j: usize| (ls[j as int].id@, ls[j as int].nom@))
}

/// The list entries of the open choices of `cs`.
pub open spec fn choice_list(cs: Seq<ChoiceIr>, flags: Seq<Seq<char>>) -> Seq<(Seq<char>, Seq<char>)> {
    visible_choices(cs, flags).map_values(|j: usize| (cs[j as int].id@, cs[j as int].label@))
}

pub open spec fn petition_list(ir: Ir, s: WorldStateView) -> Seq<(Seq<char>, Seq<char>)> {
    if s.petition_i < ir.chapter.petitions@.len() {
        choice_list(ir.chapter.petitions@[s.petition_i as int].choices@, s.flags)
    } else {
        Seq::empty()
    }
}

/// The numbered lines of the carnet, `1. note` and so on.
pub open spec fn numbered(notes: Seq<Seq<char>>) -> Seq<Seq<char>> {
    Seq::new(notes.len(), |i: int| decimal(i + 1) + ". "@ + notes[i])
}

pub open spec fn help_text() -> Seq<char> {
    "j/k  liste\nEnter  choisir / continuer\nn  carnet\n?  aide\nq  quitter\n\nParfois tu choisis d'abord un lieu : tu ne peux pas être partout. L'histoire continue si tu rates."@
}

/// The narrative of an overlay.
pub open spec fn overlay_text(s: WorldStateView, kind: Seq<char>) -> Seq<char> {
    if kind == "notes"@ {
        if s.notes.len() == 0 {
            "Le carnet est vide."@
        } else {
            join_with(numbered(s.notes), "\n"@)
        }
    } else if kind == "help"@ {
        help_text()
    } else {
        Seq::empty()
    }
}

pub open spec fn overlay_frame(ir: Ir, s: WorldStateView, kind: Seq<char>) -> FrameView {
    finish_frame(
        kind,
        hud(ir, s),
        overlay_text(s, kind),
        Seq::empty(),
        0,
        None,
        Some(kind),
        seq![VerbView { id: "close"@, key: "x"@, enabled: true, global: false }] + global_verbs(),
    )
}

/// The screen for a state.
pub open spec fn screen(ir: Ir, s: WorldStateView) -> Result<FrameView, EngineErrorView> {
    match s.overlay {
        Some(kind) => Ok(overlay_frame(ir, s, kind)),
        None => {
            let m = s.mode;
            if m == "briefing"@ || m == "aftermath"@ || m == "set_aftermath"@ || m == "debrief"@
                || m == "done"@ {
                Ok(page_frame(ir, s))
            } else if m == "petition"@ {
                Ok(list_frame(ir, s, petition_list(ir, s)))
            } else if m == "lieu"@ {
                Ok(list_frame(ir, s, lieu_list(ir, s)))
            } else if m == "set_piece"@ {
                Ok(list_frame(ir, s, choice_list(ir.chapter.set_piece.choices@, s.flags)))
            } else {
                Err(EngineErrorView::Other("no renderer for "@ + m))
            }
        },
    }
}

/// Rendering does not overflow: the petition counter is only shown for an index below the maximum.
pub open spec fn renderable(s: WorldStateView) -> bool {
    let m = play_mode_of(s);
    (m == "petition"@ || m == "aftermath"@) ==> s.petition_i < usize::MAX
}

// ---------------------------------------------------------------- steps

pub struct StepView {
    pub state: WorldStateView,
    pub frame: FrameView,
    pub persist: PersistHint,
    pub halt: bool,
}

/// The cursor after moving by `delta` over a list of `n` entries (wrapping around).
pub open spec fn moved_cursor(cursor: usize, delta: i32, n: int) -> usize {
    (((cursor as i32) as int + delta as int) % n) as usize
}

/// The state after a command, before rendering; `None` on a refused command.
pub open spec fn step_state(ir: Ir, s: WorldStateView, cmd: Command) -> Result<WorldStateView, EngineErrorView> {
    if s.overlay is Some {
        match cmd {
            Command::Close | Command::Notes | Command::Help | Command::Continue => Ok(
                WorldStateView { overlay: None, ..s },
            ),
            _ => Ok(s),
        }
    } else {
        match cmd {
            Command::MoveCursor { delta } => {
                let n = offered_ids(ir, s).len();
                if n > 0 {
                    Ok(WorldStateView { cursor: moved_cursor(s.cursor, delta, n as int), ..s })
                } else {
                    Ok(s)
                }
            },
            Command::Select { index } => {
                let n = offered_ids(ir, s).len();
                if n > 0 {
                    Ok(
                        WorldStateView {
                            cursor: if index < n - 1 {
                                index as usize
                            } else {
                                (n - 1) as usize
                            },
                            ..s
                        },
                    )
                } else {
                    Ok(s)
                }
            },
            Command::Choose { index } => choose_step(ir, s, index as int),
            Command::Continue => continue_mode(ir, s),
            Command::Notes => Ok(WorldStateView { overlay: Some("notes"@), ..s }),
            Command::Help => Ok(WorldStateView { overlay: Some("help"@), ..s }),
            Command::Close => Ok(s),
            Command::Quit => Ok(s),
        }
    }
}

/// Whether a successful command asks for the lineage to be written.
pub open spec fn step_persist(s: WorldStateView, cmd: Command) -> PersistHint {
    if s.overlay is None && (cmd is Choose || cmd is Continue) {
        PersistHint::Flush
    } else {
        PersistHint::Skip
    }
}

/// Whether a command ends the session.
pub open spec fn step_halt(s: WorldStateView, cmd: Command, next: WorldStateView) -> bool {
    cmd is Quit || (s.overlay is None && cmd is Continue && next.mode == "done"@)
}

/// What `apply` answers.
pub open spec fn apply_spec(ir: Ir, s: WorldStateView, cmd: Command) -> Result<StepView, EngineErrorView> {
    match step_state(ir, s, cmd) {
        Err(e) => Err(e),
        Ok(next) => match screen(ir, next) {
            Err(e) => Err(e),
            Ok(frame) => Ok(
                StepView {
                    state: next,
                    frame: frame,
                    persist: step_persist(s, cmd),
                    halt: step_halt(s, cmd, next),
                },
            ),
        },
    }
}

/// The inputs on which `apply` computes without overflow: the cursor arithmetic fits in `i32`,
/// a chosen choice's money sums fit in `i32`, and the petition counter can be shown.
pub open spec fn apply_safe(ir: Ir, s: WorldStateView, cmd: Command) -> bool {
    &&& (s.overlay is None && cmd is MoveCursor && offered_ids(ir, s).len() > 0) ==> {
        &&& offered_ids(ir, s).len() <= i32::MAX
        &&& i32::MIN <= (s.cursor as i32) as int + cmd->delta as int <= i32::MAX
    }
    &&& (s.overlay is None && cmd is Choose) ==> match chosen(ir, s, cmd->Choose_index as int) {
        Some(c) => delta_fits(s.monnaies, c.delta@),
        None => true,
    }
    &&& match step_state(ir, s, cmd) {
        Ok(next) => renderable(next),
        Err(_) => true,
    }
}

} // verus!

verus! {

use crate::state::CarryView;
use crate::strmap::map_insert;

/// The currencies of the chapter at their starting amounts.
pub open spec fn start_money(ir: Ir, n: nat) -> Seq<(Seq<char>, i32)>
    decreases n,
{
    if n == 0 {
        Seq::empty()
    } else {
        let c = ir.chapter.monnaies@[n - 1];
        map_insert(start_money(ir, (n - 1) as nat), c.id@, c.start)
    }
}

/// The amounts of `carried` written over the currencies that `m` already holds.
pub open spec fn carried_money(m: Seq<(Seq<char>, i32)>, carried: Seq<(Seq<char>, i32)>) -> Seq<
    (Seq<char>, i32),
>
    decreases carried.len(),
{
    if carried.len() == 0 {
        m
    } else {
        map_put(carried_money(m, carried.drop_last()), carried.last().0, carried.last().1)
    }
}

/// The state a chapter starts in, given what the previous chapter carries over.
pub open spec fn boot_state(ir: Ir, carry: Option<CarryView>) -> WorldStateView {
    let ch = ir.chapter;
    let money0 = start_money(ir, ch.monnaies@.len());
    let default_heritage = insert_all(Seq::empty(), texts(ch.heritage_default@));
    let heir0 = HeirView { id: ch.heir.id@, name: ch.heir.name@, title: ch.heir.title@ };
    let s = match carry {
        None => WorldStateView {
            chapter: ch.id@,
            mode: "briefing"@,
            petition_i: 0,
            cursor: 0,
            monnaies: money0,
            flags: Seq::empty(),
            notes: Seq::empty(),
            heritage: default_heritage,
            fiches: Seq::empty(),
            heir: heir0,
            narrative: Seq::empty(),
            last_choice: None,
            next_chapter: opt_view(ch.next),
            overlay: None,
            lieu: None,
        },
        Some(c) => WorldStateView {
            chapter: ch.id@,
            mode: "briefing"@,
            petition_i: 0,
            cursor: 0,
            monnaies: carried_money(money0, c.monnaies),
            flags: match c.heir {
                Some(h) => set_insert(c.flags, "prev-heir-"@ + h.id),
                None => c.flags,
            },
            notes: c.notes,
            heritage: if c.heritage.len() > 0 {
                c.heritage
            } else {
                default_heritage
            },
            fiches: Seq::empty(),
            heir: if ch.heir_policy@ != "chapter"@ && c.heir is Some {
                c.heir->0
            } else {
                heir0
            },
            narrative: Seq::empty(),
            last_choice: None,
            next_chapter: opt_view(ch.next),
            overlay: None,
            lieu: None,
        },
    };
    WorldStateView { narrative: briefing_text(ir, s), ..s }
}

/// What `boot_with` answers.
pub open spec fn boot_spec(ir: Ir, carry: Option<CarryView>) -> Result<(WorldStateView, FrameView), EngineErrorView> {
    match ir.validation() {
        Err(m) => Err(EngineErrorView::InvalidIr(m)),
        Ok(()) => {
            let s = boot_state(ir, carry);
            match screen(ir, s) {
                Ok(f) => Ok((s, f)),
                Err(e) => Err(e),
            }
        },
    }
}

} // verus!
