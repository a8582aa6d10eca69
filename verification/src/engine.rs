use vstd::prelude::*;

use crate::command::{Command, PersistHint};
use crate::error::{EngineError, EngineErrorView};
use crate::frame::{
    global_verbs, item_views, join_strings, join_with, push_globals, verb_views, Frame, Hud,
    ListItem, Slots, Verb, VerbView,
};
use crate::ir::{ChoiceIr, Ir, PetitionIr};
use crate::rules::{
    allowed_petitions, amount, apply_choice, apply_delta, apply_safe, apply_spec, boot_spec,
    boot_state, briefing_text, bullets, carried_money, choice_list, choice_open, choose_step,
    chosen, continue_mode, debrief_text, delta_fits, done_text, earned_fiches, enter_debrief,
    enter_lieu, enter_petition, enter_set_piece, fiche_bullets, fill_money, find_lieu,
    first_after, first_where, flag_ok, heading, hud, indices_where, interpolate,
    lemma_first_where, lemma_indices_where, lieu_has_id, lieu_list, lieu_open, lieu_text,
    list_frame, list_verbs, location, money_parts, numbered, offered_ids, overlay_frame,
    overlay_text, page_frame, petition_open, petition_open_at, petition_text, phase, renderable,
    screen, set_piece_text, start_money, step_state, visible_choices, visible_lieux,
    visible_petitions, StepView,
};
use crate::state::{
    copy_strings, fiche_views, Carry, CarryView, FicheGot, FicheView, HeirState, WorldState,
    WorldStateView, NOTES_CAP,
};
use crate::strmap::StrMap;
use crate::strset::{texts, StrSet};
use crate::text::{fmt_i64, fmt_u64, owned, push_str, replace_str, str_eq};

verus! {

fn flag_ok_exec(flags: &StrSet, when: &Option<String>, when_not: &Option<String>) -> (r: bool)
    ensures
        r == flag_ok(flags@, *when, *when_not),
{
    if let Some(f) = when {
        if !flags.contains(f.as_str()) {
            return false;
        }
    }
    if let Some(f) = when_not {
        if flags.contains(f.as_str()) {
            return false;
        }
    }
    true
}

fn visible_lieux_exec(ir: &Ir, flags: &StrSet) -> (r: Vec<usize>)
    ensures
        r@ == visible_lieux(*ir, flags@),
{
    let ls = &ir.chapter.lieux_jouables;
    let mut out: Vec<usize> = Vec::new();
    let mut j: usize = 0;
    while j < ls.len()
        invariant
            j <= ls.len(),
            ls == &ir.chapter.lieux_jouables,
            out@ == indices_where(j as nat, lieu_open(*ir, flags@)),
        decreases ls.len() - j,
    {
        if flag_ok_exec(flags, &ls[j].when_flag, &ls[j].when_not_flag) {
            out.push(j);
        }
        j += 1;
    }
    out
}

fn visible_choices_exec(choices: &Vec<ChoiceIr>, flags: &StrSet) -> (r: Vec<usize>)
    ensures
        r@ == visible_choices(choices@, flags@),
{
    let mut out: Vec<usize> = Vec::new();
    let mut j: usize = 0;
    while j < choices.len()
        invariant
            j <= choices.len(),
            out@ == indices_where(j as nat, choice_open(choices@, flags@)),
        decreases choices.len() - j,
    {
        if flag_ok_exec(flags, &choices[j].when_flag, &choices[j].when_not_flag) {
            out.push(j);
        }
        j += 1;
    }
    out
}

fn find_lieu_exec(ir: &Ir, id: &str) -> (r: Option<usize>)
    ensures
        match r {
            Some(k) => find_lieu(*ir, id@) == Some(k as int),
            None => find_lieu(*ir, id@) is None,
        },
{
    let ls = &ir.chapter.lieux_jouables;
    let mut j: usize = 0;
    while j < ls.len()
        invariant
            j <= ls.len(),
            ls == &ir.chapter.lieux_jouables,
            first_where(j as nat, lieu_has_id(*ir, id@)) is None,
        decreases ls.len() - j,
    {
        if str_eq(ls[j].id.as_str(), id) {
            assert(first_where((j + 1) as nat, lieu_has_id(*ir, id@)) == Some(j as int));
            proof {
                lemma_first_where_stable((j + 1) as nat, ls@.len(), lieu_has_id(*ir, id@));
            }
            return Some(j);
        }
        j += 1;
    }
    None
}

proof fn lemma_first_where_stable(n: nat, m: nat, p: spec_fn(int) -> bool)
    requires
        n <= m,
        first_where(n, p) is Some,
    ensures
        first_where(m, p) == first_where(n, p),
    decreases m - n,
{
    if n < m {
        lemma_first_where_stable(n, (m - 1) as nat, p);
    }
}

/// Whether `x` is one of the strings of `v`.
pub(crate) fn strings_contain(v: &Vec<String>, x: &str) -> (r: bool)
    ensures
        r == texts(v@).contains(x@),
{
    let mut i: usize = 0;
    while i < v.len()
        invariant
            i <= v.len(),
            forall|k: int| 0 <= k < i ==> texts(v@)[k] != x@,
        decreases v.len() - i,
    {
        if str_eq(v[i].as_str(), x) {
            assert(texts(v@)[i as int] == x@);
            return true;
        }
        i += 1;
    }
    false
}

/// The petition ids that the chosen place opens.
fn allowed_exec<'a>(ir: &'a Ir, state: &WorldState) -> (r: Option<&'a Vec<String>>)
    ensures
        match (r, allowed_petitions(*ir, state@)) {
            (Some(v), Some(ids)) => texts(v@) == ids,
            (None, None) => true,
            _ => false,
        },
{
    match &state.lieu {
        Some(id) => match find_lieu_exec(ir, id.as_str()) {
            Some(k) => {
                proof {
                    lemma_first_where(ir.chapter.lieux_jouables@.len(), lieu_has_id(*ir, id@));
                }
                Some(&ir.chapter.lieux_jouables[k].petitions)
            },
            None => None,
        },
        None => None,
    }
}

fn visible_petitions_exec(ir: &Ir, state: &WorldState) -> (r: Vec<usize>)
    ensures
        r@ == visible_petitions(*ir, state@),
{
    let allowed = allowed_exec(ir, state);
    let ps = &ir.chapter.petitions;
    let mut out: Vec<usize> = Vec::new();
    let mut j: usize = 0;
    while j < ps.len()
        invariant
            j <= ps.len(),
            ps == &ir.chapter.petitions,
            match (allowed, allowed_petitions(*ir, state@)) {
                (Some(v), Some(ids)) => texts(v@) == ids,
                (None, None) => true,
                _ => false,
            },
            out@ == indices_where(j as nat, petition_open_at(*ir, state@)),
        decreases ps.len() - j,
    {
        let p = &ps[j];
        let ok = flag_ok_exec(&state.flags, &p.when_flag, &p.when_not_flag) && match allowed {
            Some(ids) => strings_contain(ids, p.id.as_str()),
            None => true,
        };
        assert(ok == petition_open(*ir, state@, ps@[j as int]));
        if ok {
            out.push(j);
        }
        j += 1;
    }
    out
}

fn first_after_exec(v: &Vec<usize>, after: Option<usize>) -> (r: Option<usize>)
    ensures
        r == first_after(v@, after),
{
    let mut i: usize = 0;
    assert(v@.skip(0) =~= v@);
    while i < v.len()
        invariant
            i <= v.len(),
            first_after(v@, after) == first_after(v@.skip(i as int), after),
        decreases v.len() - i,
    {
        let x = v[i];
        let hit = match after {
            Some(a) => x > a,
            None => true,
        };
        assert(v@.skip(i as int)[0] == x);
        if hit {
            return Some(x);
        }
        assert(v@.skip(i as int).skip(1) =~= v@.skip(i + 1));
        i += 1;
    }
    None
}

/// The ids of the choices offered in the current mode.
pub fn choice_ids(ir: &Ir, state: &WorldState) -> (r: Vec<String>)
    ensures
        texts(r@) == offered_ids(*ir, state@),
{
    let mode = state.mode.as_str();
    if str_eq(mode, "lieu") {
        let vis = visible_lieux_exec(ir, &state.flags);
        let nl = ir.chapter.lieux_jouables.len();
        proof {
            lemma_indices_where(nl as nat, lieu_open(*ir, state@.flags));
        }
        let mut out: Vec<String> = Vec::new();
        let mut i: usize = 0;
        while i < vis.len()
            invariant
                i <= vis.len(),
                vis@ == visible_lieux(*ir, state@.flags),
                forall|k: int| 0 <= k < vis@.len() ==> (#[trigger] vis@[k]) < ir.chapter.lieux_jouables@.len(),
                out.len() == i,
                forall|k: int| 0 <= k < i ==> (#[trigger] texts(out@)[k]) == ir.chapter.lieux_jouables@[vis@[k] as int].id@,
            decreases vis.len() - i,
        {
            let ghost prev = out@;
            out.push(ir.chapter.lieux_jouables[vis[i]].id.clone());
            assert forall|k: int| 0 <= k < i + 1 implies (#[trigger] texts(out@)[k]) == ir.chapter.lieux_jouables@[vis@[k] as int].id@ by {
                if k < i {
                    assert(out@[k] == prev[k]);
                    assert(texts(prev)[k] == prev[k]@);
                }
            }
            i += 1;
        }
        assert(texts(out@) =~= offered_ids(*ir, state@));
        out
    } else if str_eq(mode, "petition") {
        if state.petition_i < ir.chapter.petitions.len() {
            let cs = &ir.chapter.petitions[state.petition_i].choices;
            choice_ids_among(cs, &state.flags)
        } else {
            let out: Vec<String> = Vec::new();
            assert(texts(out@) =~= Seq::<Seq<char>>::empty());
            out
        }
    } else if str_eq(mode, "set_piece") {
        choice_ids_among(&ir.chapter.set_piece.choices, &state.flags)
    } else {
        let out: Vec<String> = Vec::new();
        assert(texts(out@) =~= Seq::<Seq<char>>::empty());
        out
    }
}

fn choice_ids_among(cs: &Vec<ChoiceIr>, flags: &StrSet) -> (r: Vec<String>)
    ensures
        texts(r@) == visible_choices(cs@, flags@).map_values(|j: usize| cs@[j as int].id@),
{
    let vis = visible_choices_exec(cs, flags);
    let nc = cs.len();
    proof {
        lemma_indices_where(nc as nat, choice_open(cs@, flags@));
    }
    let mut out: Vec<String> = Vec::new();
    let mut i: usize = 0;
    while i < vis.len()
        invariant
            i <= vis.len(),
            vis@ == visible_choices(cs@, flags@),
            forall|k: int| 0 <= k < vis@.len() ==> (#[trigger] vis@[k]) < cs@.len(),
            out.len() == i,
            forall|k: int| 0 <= k < i ==> (#[trigger] texts(out@)[k]) == cs@[vis@[k] as int].id@,
        decreases vis.len() - i,
    {
        let ghost prev = out@;
        out.push(cs[vis[i]].id.clone());
        assert forall|k: int| 0 <= k < i + 1 implies (#[trigger] texts(out@)[k]) == cs@[vis@[k] as int].id@ by {
            if k < i {
                assert(out@[k] == prev[k]);
                assert(texts(prev)[k] == prev[k]@);
            }
        }
        i += 1;
    }
    assert(texts(out@) =~= visible_choices(cs@, flags@).map_values(|j: usize| cs@[j as int].id@));
    out
}

/// `text` with the `{key}` placeholders of the currencies filled in.
fn fill_money_exec(t: String, m: &StrMap<i32>) -> (r: String)
    ensures
        r@ == fill_money(t@, m@),
{
    proof {
        reveal_strlit("{");
        reveal_strlit("}");
    }
    let ghost t0 = t@;
    let mut out = t;
    let mut i: usize = 0;
    assert(m@.take(0) =~= Seq::<(Seq<char>, i32)>::empty());
    while i < m.len()
        invariant
            i <= m@.len(),
            out@ == fill_money(t0, m@.take(i as int)),
        decreases m@.len() - i,
    {
        let (k, v) = m.entry(i);
        let mut pat = owned("{");
        push_str(&mut pat, k.as_str());
        push_str(&mut pat, "}");
        let val = fmt_i64(*v as i64);
        proof {
            reveal_strlit("{");
        }
        assert(m@.take(i + 1).drop_last() =~= m@.take(i as int));
        assert(m@.take(i + 1).last() == m@[i as int]);
        out = replace_str(out.as_str(), pat.as_str(), val.as_str());
        i += 1;
    }
    assert(m@.take(i as int) =~= m@);
    out
}

/// `text` with the heir, chapter and money placeholders filled in.
fn interpolate_exec(ir: &Ir, state: &WorldState, text: &str) -> (r: String)
    ensures
        r@ == interpolate(*ir, state@, text@),
{
    proof {
        reveal_strlit("{heir.name}");
        reveal_strlit("{heir.title}");
        reveal_strlit("{heir.id}");
        reveal_strlit("{chapter.title}");
        reveal_strlit("{clock.dates}");
    }
    let t1 = replace_str(text, "{heir.name}", state.heir.name.as_str());
    let t2 = replace_str(t1.as_str(), "{heir.title}", state.heir.title.as_str());
    let t3 = replace_str(t2.as_str(), "{heir.id}", state.heir.id.as_str());
    let t4 = replace_str(t3.as_str(), "{chapter.title}", ir.chapter.title.as_str());
    let t5 = replace_str(t4.as_str(), "{clock.dates}", ir.chapter.dates.as_str());
    fill_money_exec(t5, &state.monnaies)
}

proof fn lemma_delta_fits_prefix(m: Seq<(Seq<char>, i32)>, d: Seq<(Seq<char>, i32)>, i: int)
    requires
        delta_fits(m, d),
        0 <= i < d.len(),
    ensures
        match map_get_after(m, d, i) {
            Some(e) => i32::MIN <= e + d[i].1 <= i32::MAX,
            None => true,
        },
    decreases d.len(),
{
    if i + 1 < d.len() {
        lemma_delta_fits_prefix(m, d.drop_last(), i);
        assert(d.drop_last().take(i) =~= d.take(i));
    } else {
        assert(d.drop_last() =~= d.take(i));
    }
}

/// The amount of the `i`-th delta key after the first `i` deltas.
spec fn map_get_after(m: Seq<(Seq<char>, i32)>, d: Seq<(Seq<char>, i32)>, i: int) -> Option<i32> {
    crate::strmap::map_get(apply_delta(m, d.take(i)), d[i].0)
}

/// Applies the consequences of choice `c` to `state`.
fn apply_choice_exec(ir: &Ir, state: &mut WorldState, c: &ChoiceIr)
    requires
        delta_fits(old(state)@.monnaies, c.delta@),
    ensures
        final(state)@ == apply_choice(*ir, old(state)@, *c),
{
    let ghost s0 = state@;
    let mut i: usize = 0;
    assert(c.delta@.take(0) =~= Seq::<(Seq<char>, i32)>::empty());
    while i < c.delta.len()
        invariant
            i <= c.delta@.len(),
            delta_fits(s0.monnaies, c.delta@),
            state@ == (WorldStateView { monnaies: apply_delta(s0.monnaies, c.delta@.take(i as int)), ..s0 }),
        decreases c.delta@.len() - i,
    {
        let (k, d) = c.delta.entry(i);
        let d = *d;
        proof {
            lemma_delta_fits_prefix(s0.monnaies, c.delta@, i as int);
            assert(c.delta@.take(i + 1).drop_last() =~= c.delta@.take(i as int));
            assert(c.delta@.take(i + 1).last() == c.delta@[i as int]);
        }
        match state.monnaies.get(k.as_str()) {
            Some(e) => {
                let e = *e;
                let nv: i32 = if e + d < 0 {
                    0
                } else {
                    e + d
                };
                state.monnaies.put(k.as_str(), nv);
            },
            None => {},
        }
        i += 1;
    }
    assert(c.delta@.take(i as int) =~= c.delta@);
    state.flags.insert_vec(&c.flags);
    if let Some(n) = &c.notes {
        if state.notes.len() < NOTES_CAP {
            let ghost prev = state.notes@;
            state.notes.push(n.clone());
            assert(texts(state.notes@) =~= texts(prev).push(n@));
        }
    }
    state.heritage.insert_vec(&c.heritage);
    let chevaux: i32 = match state.monnaies.get("chevaux") {
        Some(v) => *v,
        None => 0,
    };
    assert(chevaux == amount(state@.monnaies, "chevaux"@));
    if ir.chapter.cheval_si_chevaux && c.heritage.len() > 0 && chevaux > 0 {
        state.heritage.insert(owned("cheval"));
    }
    state.heritage.remove_vec(&c.heritage_remove);
    if let Some(id) = &c.next_heir {
        state.heir.id = id.clone();
        if let Some(n) = &c.next_heir_name {
            state.heir.name = n.clone();
        }
        state.heir.title = String::new();
    }
}

/// The fiches the debrief grants to `flags`.
fn earned_fiches_exec(ir: &Ir, flags: &StrSet) -> (r: Vec<FicheGot>)
    ensures
        fiche_views(r@) == earned_fiches(*ir, flags@, ir.chapter.debrief.fiches@.len()),
{
    let fs = &ir.chapter.debrief.fiches;
    let mut out: Vec<FicheGot> = Vec::new();
    let mut j: usize = 0;
    assert(fiche_views(out@) =~= Seq::<FicheView>::empty());
    while j < fs.len()
        invariant
            j <= fs.len(),
            fs == &ir.chapter.debrief.fiches,
            fiche_views(out@) == earned_fiches(*ir, flags@, j as nat),
        decreases fs.len() - j,
    {
        let f = &fs[j];
        if flag_ok_exec(flags, &f.when_flag, &f.when_not_flag) {
            let ghost prev = out@;
            out.push(FicheGot { id: f.id.clone(), nom: f.nom.clone(), texte: f.texte.clone() });
            assert(fiche_views(out@) =~= fiche_views(prev).push(
                FicheView { id: f.id@, nom: f.nom@, texte: f.texte@ },
            ));
        }
        j += 1;
    }
    out
}

fn heading_exec(title: &str) -> (r: String)
    ensures
        r@ == heading(title@),
{
    if title.unicode_len() == 0 {
        let r = String::new();
        assert(r@ =~= heading(title@));
        r
    } else {
        let mut r = owned("{em}");
        push_str(&mut r, title);
        push_str(&mut r, "{/em}\n\n");
        r
    }
}

fn briefing_text_exec(ir: &Ir, state: &WorldState) -> (r: String)
    ensures
        r@ == briefing_text(*ir, state@),
{
    let b = &ir.chapter.briefing;
    let body = interpolate_exec(ir, state, b.text.as_str());
    if b.masthead.as_str().unicode_len() == 0 {
        body
    } else {
        let mut r = interpolate_exec(ir, state, b.masthead.as_str());
        push_str(&mut r, "\n\n");
        push_str(&mut r, body.as_str());
        r
    }
}

fn petition_text_exec(ir: &Ir, state: &WorldState, p: &PetitionIr) -> (r: String)
    ensures
        r@ == petition_text(*ir, state@, *p),
{
    let mut r = heading_exec(p.title.as_str());
    let body = interpolate_exec(ir, state, p.text.as_str());
    push_str(&mut r, body.as_str());
    r
}

fn set_piece_text_exec(ir: &Ir, state: &WorldState) -> (r: String)
    ensures
        r@ == set_piece_text(*ir, state@),
{
    let sp = &ir.chapter.set_piece;
    let mut r = heading_exec(sp.title.as_str());
    let body = interpolate_exec(ir, state, sp.text.as_str());
    push_str(&mut r, body.as_str());
    r
}

fn push_bullets(out: &mut String, items: &Vec<String>)
    ensures
        final(out)@ == old(out)@ + bullets(texts(items@)),
{
    let ghost o = out@;
    let mut i: usize = 0;
    assert(texts(items@).take(0) =~= Seq::<Seq<char>>::empty());
    assert(o + bullets(Seq::<Seq<char>>::empty()) =~= o);
    while i < items.len()
        invariant
            i <= items.len(),
            out@ == o + bullets(texts(items@).take(i as int)),
        decreases items.len() - i,
    {
        let ghost before = out@;
        push_str(out, "• ");
        push_str(out, items[i].as_str());
        push_str(out, "\n");
        proof {
            let t = texts(items@).take(i + 1);
            assert(t.drop_last() =~= texts(items@).take(i as int));
            assert(t.last() == items@[i as int]@);
            assert(out@ =~= o + bullets(t));
        }
        i += 1;
    }
    assert(texts(items@).take(i as int) =~= texts(items@));
}

fn push_set_bullets(out: &mut String, items: &StrSet)
    ensures
        final(out)@ == old(out)@ + bullets(items@),
{
    let ghost o = out@;
    let mut i: usize = 0;
    assert(items@.take(0) =~= Seq::<Seq<char>>::empty());
    assert(o + bullets(Seq::<Seq<char>>::empty()) =~= o);
    while i < items.len()
        invariant
            i <= items@.len(),
            out@ == o + bullets(items@.take(i as int)),
        decreases items@.len() - i,
    {
        push_str(out, "• ");
        push_str(out, items.item(i).as_str());
        push_str(out, "\n");
        proof {
            let t = items@.take(i + 1);
            assert(t.drop_last() =~= items@.take(i as int));
            assert(out@ =~= o + bullets(t));
        }
        i += 1;
    }
    assert(items@.take(i as int) =~= items@);
}

fn push_fiche_bullets(out: &mut String, fs: &Vec<FicheGot>)
    ensures
        final(out)@ == old(out)@ + fiche_bullets(fiche_views(fs@)),
{
    let ghost o = out@;
    let mut i: usize = 0;
    assert(fiche_views(fs@).take(0) =~= Seq::<FicheView>::empty());
    assert(o + fiche_bullets(Seq::<FicheView>::empty()) =~= o);
    while i < fs.len()
        invariant
            i <= fs.len(),
            out@ == o + fiche_bullets(fiche_views(fs@).take(i as int)),
        decreases fs.len() - i,
    {
        push_str(out, "• ");
        push_str(out, fs[i].nom.as_str());
        push_str(out, " — ");
        push_str(out, fs[i].texte.as_str());
        push_str(out, "\n");
        proof {
            let t = fiche_views(fs@).take(i + 1);
            assert(t.drop_last() =~= fiche_views(fs@).take(i as int));
            assert(t.last() == fs@[i as int]@);
            assert(out@ =~= o + fiche_bullets(t));
        }
        i += 1;
    }
    assert(fiche_views(fs@).take(i as int) =~= fiche_views(fs@));
}

fn debrief_text_exec(ir: &Ir, state: &WorldState) -> (r: String)
    ensures
        r@ == debrief_text(*ir, state@),
{
    let mut out = interpolate_exec(ir, state, ir.chapter.debrief.text.as_str());
    if out.as_str().unicode_len() != 0 {
        push_str(&mut out, "\n\n");
    }
    push_str(&mut out, "{em}Fiches{/em}\n");
    if state.fiches.len() == 0 {
        push_str(&mut out, "Rien classé.\n");
    } else {
        push_fiche_bullets(&mut out, &state.fiches);
    }
    push_str(&mut out, "\n");
    push_str(&mut out, "{em}Reliques{/em}\n");
    if state.heritage.is_empty() {
        push_str(&mut out, "La cave est vide.\n");
    } else {
        push_set_bullets(&mut out, &state.heritage);
    }
    if state.notes.len() != 0 {
        push_str(&mut out, "\n{em}Carnet{/em}\n");
        push_bullets(&mut out, &state.notes);
    }
    assert(out@ =~= debrief_text(*ir, state@));
    out
}

fn lieu_text_exec(ir: &Ir, state: &WorldState, id: usize) -> (r: String)
    requires
        id < ir.chapter.lieux_jouables@.len(),
    ensures
        r@ == lieu_text(*ir, state@, ir.chapter.lieux_jouables@[id as int]),
{
    let l = &ir.chapter.lieux_jouables[id];
    let body = interpolate_exec(ir, state, l.texte.as_str());
    if body.as_str().unicode_len() == 0 {
        l.nom.clone()
    } else {
        let mut r = owned("{em}");
        push_str(&mut r, l.nom.as_str());
        push_str(&mut r, "{/em}\n\n");
        push_str(&mut r, body.as_str());
        r
    }
}

fn done_text_exec(state: &WorldState) -> (r: String)
    ensures
        r@ == done_text(state@),
{
    let mut r = owned("La chronique s'arrête ici pour ce siècle.\n\nHéritier suivant : ");
    push_str(&mut r, state.heir.name.as_str());
    push_str(&mut r, ".");
    if let Some(n) = &state.next_chapter {
        push_str(&mut r, "\nChapitre suivant : ");
        push_str(&mut r, n.as_str());
        push_str(&mut r, ".");
    }
    assert(r@ =~= done_text(state@));
    r
}

fn enter_set_piece_exec(ir: &Ir, state: &mut WorldState)
    ensures
        final(state)@ == enter_set_piece(*ir, old(state)@),
{
    state.mode = owned("set_piece");
    state.cursor = 0;
    let t = set_piece_text_exec(ir, state);
    state.narrative = t;
}

fn enter_petition_exec(ir: &Ir, state: &mut WorldState, after: Option<usize>)
    ensures
        final(state)@ == enter_petition(*ir, old(state)@, after),
{
    let vis = visible_petitions_exec(ir, state);
    let np = ir.chapter.petitions.len();
    proof {
        lemma_indices_where(np as nat, crate::rules::petition_open_at(*ir, state@));
        crate::rules::lemma_first_after(vis@, after);
    }
    match first_after_exec(&vis, after) {
        Some(i) => {
            assert(i < ir.chapter.petitions@.len());
            state.mode = owned("petition");
            state.petition_i = i;
            state.cursor = 0;
            let t = petition_text_exec(ir, state, &ir.chapter.petitions[i]);
            state.narrative = t;
        },
        None => enter_set_piece_exec(ir, state),
    }
}

fn enter_lieu_exec(ir: &Ir, state: &mut WorldState)
    ensures
        final(state)@ == enter_lieu(*ir, old(state)@),
{
    let vis = visible_lieux_exec(ir, &state.flags);
    if vis.len() == 0 {
        enter_petition_exec(ir, state, None);
        return;
    }
    state.mode = owned("lieu");
    state.cursor = 0;
    let t = interpolate_exec(
        ir,
        state,
        "Tu ne peux pas être partout. Où vas-tu ? Le reste de cette France-là se fera sans toi.",
    );
    state.narrative = t;
}

fn enter_debrief_exec(ir: &Ir, state: &mut WorldState)
    ensures
        final(state)@ == enter_debrief(*ir, old(state)@),
{
    state.mode = owned("debrief");
    state.fiches = earned_fiches_exec(ir, &state.flags);
    if state.heritage.is_empty() {
        state.heritage = StrSet::from_vec(&ir.chapter.heritage_default);
    }
    let t = debrief_text_exec(ir, state);
    state.narrative = t;
}

/// What `Continue` does in the current mode.
fn continue_exec(ir: &Ir, state: &mut WorldState) -> (r: Result<(), EngineError>)
    ensures
        match (r, continue_mode(*ir, old(state)@)) {
            (Ok(()), Ok(s)) => final(state)@ == s,
            (Err(e), Err(v)) => e@ == v && final(state)@ == old(state)@,
            _ => false,
        },
{
    if str_eq(state.mode.as_str(), "briefing") {
        if ir.chapter.lieux_jouables.len() == 0 {
            enter_petition_exec(ir, state, None);
        } else {
            enter_lieu_exec(ir, state);
        }
    } else if str_eq(state.mode.as_str(), "aftermath") {
        let after = state.petition_i;
        enter_petition_exec(ir, state, Some(after));
    } else if str_eq(state.mode.as_str(), "set_aftermath") {
        enter_debrief_exec(ir, state);
    } else if str_eq(state.mode.as_str(), "debrief") {
        state.mode = owned("done");
        let t = done_text_exec(state);
        state.narrative = t;
    } else if str_eq(state.mode.as_str(), "done") {
    } else {
        return Err(EngineError::WrongMode("Continue", state.mode.clone()));
    }
    Ok(())
}

/// What `Choose { index }` does in the current mode.
fn choose_exec(ir: &Ir, state: &mut WorldState, index: usize) -> (r: Result<(), EngineError>)
    requires
        chosen(*ir, old(state)@, index as int) matches Some(c) ==> delta_fits(
            old(state)@.monnaies,
            c.delta@,
        ),
    ensures
        match (r, choose_step(*ir, old(state)@, index as int)) {
            (Ok(()), Ok(s)) => final(state)@ == s,
            (Err(e), Err(v)) => e@ == v,
            _ => false,
        },
{
    if str_eq(state.mode.as_str(), "lieu") {
        let lieux = visible_lieux_exec(ir, &state.flags);
        let nl = ir.chapter.lieux_jouables.len();
        proof {
            lemma_indices_where(nl as nat, lieu_open(*ir, state@.flags));
        }
        if index >= lieux.len() {
            return Err(EngineError::UnknownChoice(fmt_u64(index as u64)));
        }
        let l = lieux[index];
        let id = ir.chapter.lieux_jouables[l].id.clone();
        state.lieu = Some(id);
        let mut flag = owned("lieu-");
        push_str(&mut flag, ir.chapter.lieux_jouables[l].id.as_str());
        state.flags.insert(flag);
        state.cursor = 0;
        let t = lieu_text_exec(ir, state, l);
        state.narrative = t;
        enter_petition_exec(ir, state, None);
        return Ok(());
    }
    let is_petition = str_eq(state.mode.as_str(), "petition");
    let cs: &Vec<ChoiceIr> = if is_petition {
        if state.petition_i >= ir.chapter.petitions.len() {
            return Err(EngineError::Other(owned("no petition")));
        }
        &ir.chapter.petitions[state.petition_i].choices
    } else if str_eq(state.mode.as_str(), "set_piece") {
        &ir.chapter.set_piece.choices
    } else {
        return Err(EngineError::WrongMode("Choose", state.mode.clone()));
    };
    let vis = visible_choices_exec(cs, &state.flags);
    let nc = cs.len();
    proof {
        lemma_indices_where(nc as nat, choice_open(cs@, state@.flags));
    }
    if index >= vis.len() {
        return Err(EngineError::UnknownChoice(fmt_u64(index as u64)));
    }
    let c = &cs[vis[index]];
    assert(chosen(*ir, old(state)@, index as int) == Some(*c));
    apply_choice_exec(ir, state, c);
    state.mode = if is_petition {
        owned("aftermath")
    } else {
        owned("set_aftermath")
    };
    state.cursor = 0;
    state.last_choice = Some(c.id.clone());
    let t = interpolate_exec(ir, state, c.text.as_str());
    if t.as_str().unicode_len() == 0 {
        state.narrative = c.label.clone();
    } else {
        state.narrative = t;
    }
    Ok(())
}

fn phase_exec(ir: &Ir, state: &WorldState) -> (r: String)
    requires
        renderable(state@),
    ensures
        r@ == phase(*ir, state@),
{
    let m = state.play_mode();
    let is_pet = str_eq(m, "petition");
    let is_after = str_eq(m, "aftermath");
    if str_eq(m, "briefing") {
        owned("briefing")
    } else if str_eq(m, "lieu") {
        owned("où")
    } else if is_pet || is_after {
        let mut r = if is_pet {
            owned("pétition ")
        } else {
            owned("après ")
        };
        let a = fmt_u64((state.petition_i + 1) as u64);
        let b = fmt_u64(ir.chapter.petitions.len() as u64);
        push_str(&mut r, a.as_str());
        push_str(&mut r, "/");
        push_str(&mut r, b.as_str());
        r
    } else if str_eq(m, "set_piece") {
        owned("set-piece")
    } else if str_eq(m, "set_aftermath") {
        owned("après set-piece")
    } else if str_eq(m, "debrief") {
        owned("debrief")
    } else if str_eq(m, "done") {
        owned("fin")
    } else if str_eq(m, "notes") {
        owned("carnet")
    } else if str_eq(m, "help") {
        owned("aide")
    } else {
        owned(m)
    }
}

fn money_exec(ir: &Ir, state: &WorldState) -> (r: String)
    ensures
        r@ == join_with(money_parts(*ir, state@.monnaies, ir.chapter.monnaies@.len()), "   "@),
{
    let cs = &ir.chapter.monnaies;
    let mut parts: Vec<String> = Vec::new();
    let mut i: usize = 0;
    while i < cs.len()
        invariant
            i <= cs.len(),
            cs == &ir.chapter.monnaies,
            texts(parts@) == money_parts(*ir, state@.monnaies, i as nat),
        decreases cs.len() - i,
    {
        let v: i32 = match state.monnaies.get(cs[i].id.as_str()) {
            Some(v) => *v,
            None => 0,
        };
        let mut p = owned(cs[i].label.as_str());
        push_str(&mut p, " ");
        let d = fmt_i64(v as i64);
        push_str(&mut p, d.as_str());
        let ghost prev = parts@;
        parts.push(p);
        assert(texts(parts@) =~= texts(prev).push(p@));
        i += 1;
    }
    join_strings(&parts, "   ")
}

fn location_exec(ir: &Ir, state: &WorldState) -> (r: String)
    ensures
        r@ == location(*ir, state@),
{
    match &state.lieu {
        Some(id) => match find_lieu_exec(ir, id.as_str()) {
            Some(k) => {
                proof {
                    lemma_first_where(ir.chapter.lieux_jouables@.len(), lieu_has_id(*ir, id@));
                }
                ir.chapter.lieux_jouables[k].nom.clone()
            },
            None => ir.chronicle.lieu.clone(),
        },
        None => ir.chronicle.lieu.clone(),
    }
}

fn hud_exec(ir: &Ir, state: &WorldState) -> (r: Hud)
    requires
        renderable(state@),
    ensures
        r@ == hud(*ir, state@),
{
    Hud {
        location: location_exec(ir, state),
        heir: state.heir.name.clone(),
        phase: phase_exec(ir, state),
        money: money_exec(ir, state),
    }
}

fn page_frame_exec(ir: &Ir, state: &WorldState) -> (r: Frame)
    requires
        renderable(state@),
    ensures
        r@ == page_frame(*ir, state@),
{
    let mut verbs: Vec<Verb> = Vec::new();
    verbs.push(Verb::local("continue", "enter"));
    push_globals(&mut verbs);
    let m = state.mode.as_str();
    let title = if str_eq(m, "briefing") {
        owned("briefing")
    } else if str_eq(m, "aftermath") || str_eq(m, "set_aftermath") {
        owned("suite")
    } else if str_eq(m, "debrief") {
        owned("chronique")
    } else if str_eq(m, "done") {
        owned("transmission")
    } else {
        owned(m)
    };
    let list: Vec<ListItem> = Vec::new();
    let f = Frame {
        mode: state.mode.clone(),
        slots: Slots {
            hud: hud_exec(ir, state),
            narrative: state.narrative.clone(),
            list,
            selected: 0,
            title: Some(title),
            overlay_title: None,
            footer: None,
        },
        verbs,
    };
    assert(item_views(f.slots.list@) =~= Seq::<(Seq<char>, Seq<char>)>::empty());
    assert(verb_views(f.verbs@) =~= seq![VerbView { id: "continue"@, key: "enter"@, enabled: true, global: false }] + global_verbs());
    f.with_footer()
}

fn list_frame_exec(ir: &Ir, state: &WorldState, list: Vec<ListItem>) -> (r: Frame)
    requires
        renderable(state@),
    ensures
        r@ == list_frame(*ir, state@, item_views(list@)),
{
    let mut verbs: Vec<Verb> = Vec::new();
    verbs.push(Verb::local("up", "k"));
    verbs.push(Verb::local("down", "j"));
    verbs.push(Verb::local("choose", "enter"));
    push_globals(&mut verbs);
    let ghost lv = item_views(list@);
    let f = Frame {
        mode: state.mode.clone(),
        slots: Slots {
            hud: hud_exec(ir, state),
            narrative: state.narrative.clone(),
            list,
            selected: state.cursor,
            title: Some(state.mode.clone()),
            overlay_title: None,
            footer: None,
        },
        verbs,
    };
    assert(verb_views(f.verbs@) =~= list_verbs());
    f.with_footer()
}

fn lieu_list_exec(ir: &Ir, state: &WorldState) -> (r: Vec<ListItem>)
    ensures
        item_views(r@) == lieu_list(*ir, state@),
{
    let vis = visible_lieux_exec(ir, &state.flags);
    let nl = ir.chapter.lieux_jouables.len();
    proof {
        lemma_indices_where(nl as nat, lieu_open(*ir, state@.flags));
    }
    let ls = &ir.chapter.lieux_jouables;
    let mut out: Vec<ListItem> = Vec::new();
    let mut i: usize = 0;
    while i < vis.len()
        invariant
            i <= vis.len(),
            ls == &ir.chapter.lieux_jouables,
            vis@ == visible_lieux(*ir, state@.flags),
            forall|k: int| 0 <= k < vis@.len() ==> (#[trigger] vis@[k]) < ls@.len(),
            out.len() == i,
            forall|k: int| 0 <= k < i ==> (#[trigger] item_views(out@)[k]) == (ls@[vis@[k] as int].id@, ls@[vis@[k] as int].nom@),
        decreases vis.len() - i,
    {
        let l = &ls[vis[i]];
        let ghost prev = out@;
        out.push(ListItem { id: l.id.clone(), name: l.nom.clone() });
        assert forall|k: int| 0 <= k < i + 1 implies (#[trigger] item_views(out@)[k]) == (ls@[vis@[k] as int].id@, ls@[vis@[k] as int].nom@) by {
            if k < i {
                assert(out@[k] == prev[k]);
                assert(item_views(prev)[k] == (prev[k].id@, prev[k].name@));
            }
        }
        i += 1;
    }
    assert(item_views(out@) =~= lieu_list(*ir, state@));
    out
}

fn choice_list_exec(cs: &Vec<ChoiceIr>, flags: &StrSet) -> (r: Vec<ListItem>)
    ensures
        item_views(r@) == choice_list(cs@, flags@),
{
    let vis = visible_choices_exec(cs, flags);
    let nc = cs.len();
    proof {
        lemma_indices_where(nc as nat, choice_open(cs@, flags@));
    }
    let mut out: Vec<ListItem> = Vec::new();
    let mut i: usize = 0;
    while i < vis.len()
        invariant
            i <= vis.len(),
            vis@ == visible_choices(cs@, flags@),
            forall|k: int| 0 <= k < vis@.len() ==> (#[trigger] vis@[k]) < cs@.len(),
            out.len() == i,
            forall|k: int| 0 <= k < i ==> (#[trigger] item_views(out@)[k]) == (cs@[vis@[k] as int].id@, cs@[vis@[k] as int].label@),
        decreases vis.len() - i,
    {
        let c = &cs[vis[i]];
        let ghost prev = out@;
        out.push(ListItem { id: c.id.clone(), name: c.label.clone() });
        assert forall|k: int| 0 <= k < i + 1 implies (#[trigger] item_views(out@)[k]) == (cs@[vis@[k] as int].id@, cs@[vis@[k] as int].label@) by {
            if k < i {
                assert(out@[k] == prev[k]);
                assert(item_views(prev)[k] == (prev[k].id@, prev[k].name@));
            }
        }
        i += 1;
    }
    assert(item_views(out@) =~= choice_list(cs@, flags@));
    out
}

fn overlay_text_exec(state: &WorldState, kind: &str) -> (r: String)
    ensures
        r@ == overlay_text(state@, kind@),
{
    if str_eq(kind, "notes") {
        if state.notes.len() == 0 {
            owned("Le carnet est vide.")
        } else {
            let mut lines: Vec<String> = Vec::new();
            let mut i: usize = 0;
            while i < state.notes.len()
                invariant
                    i <= state.notes.len(),
                    lines.len() == i,
                    forall|k: int| 0 <= k < i ==> (#[trigger] texts(lines@)[k]) == numbered(state@.notes)[k],
                decreases state.notes.len() - i,
            {
                let mut l = fmt_u64((i + 1) as u64);
                push_str(&mut l, ". ");
                push_str(&mut l, state.notes[i].as_str());
                let ghost prev = lines@;
                lines.push(l);
                assert forall|k: int| 0 <= k < i + 1 implies (#[trigger] texts(lines@)[k]) == numbered(state@.notes)[k] by {
                    if k < i {
                        assert(lines@[k] == prev[k]);
                        assert(texts(prev)[k] == prev[k]@);
                    }
                }
                i += 1;
            }
            assert(texts(lines@) =~= numbered(state@.notes));
            join_strings(&lines, "\n")
        }
    } else if str_eq(kind, "help") {
        owned(
            "j/k  liste\nEnter  choisir / continuer\nn  carnet\n?  aide\nq  quitter\n\nParfois tu choisis d'abord un lieu : tu ne peux pas être partout. L'histoire continue si tu rates.",
        )
    } else {
        let r = String::new();
        assert(r@ =~= overlay_text(state@, kind@));
        r
    }
}

fn overlay_frame_exec(ir: &Ir, state: &WorldState, kind: &str) -> (r: Frame)
    requires
        renderable(state@),
    ensures
        r@ == overlay_frame(*ir, state@, kind@),
{
    let mut verbs: Vec<Verb> = Vec::new();
    verbs.push(Verb::local("close", "x"));
    push_globals(&mut verbs);
    let list: Vec<ListItem> = Vec::new();
    let f = Frame {
        mode: owned(kind),
        slots: Slots {
            hud: hud_exec(ir, state),
            narrative: overlay_text_exec(state, kind),
            list,
            selected: 0,
            title: None,
            overlay_title: Some(owned(kind)),
            footer: None,
        },
        verbs,
    };
    assert(item_views(f.slots.list@) =~= Seq::<(Seq<char>, Seq<char>)>::empty());
    assert(verb_views(f.verbs@) =~= seq![VerbView { id: "close"@, key: "x"@, enabled: true, global: false }] + global_verbs());
    f.with_footer()
}

/// The screen for `state`.
pub fn render(ir: &Ir, state: &WorldState) -> (r: Result<Frame, EngineError>)
    requires
        renderable(state@),
    ensures
        match (r, screen(*ir, state@)) {
            (Ok(f), Ok(v)) => f@ == v,
            (Err(e), Err(v)) => e@ == v,
            _ => false,
        },
{
    if let Some(kind) = &state.overlay {
        return Ok(overlay_frame_exec(ir, state, kind.as_str()));
    }
    let m = state.mode.as_str();
    if str_eq(m, "briefing") || str_eq(m, "aftermath") || str_eq(m, "set_aftermath") || str_eq(
        m,
        "debrief",
    ) || str_eq(m, "done") {
        Ok(page_frame_exec(ir, state))
    } else if str_eq(m, "petition") {
        let list = if state.petition_i < ir.chapter.petitions.len() {
            choice_list_exec(&ir.chapter.petitions[state.petition_i].choices, &state.flags)
        } else {
            let v: Vec<ListItem> = Vec::new();
            assert(item_views(v@) =~= Seq::<(Seq<char>, Seq<char>)>::empty());
            v
        };
        Ok(list_frame_exec(ir, state, list))
    } else if str_eq(m, "lieu") {
        let list = lieu_list_exec(ir, state);
        Ok(list_frame_exec(ir, state, list))
    } else if str_eq(m, "set_piece") {
        let list = choice_list_exec(&ir.chapter.set_piece.choices, &state.flags);
        Ok(list_frame_exec(ir, state, list))
    } else {
        let mut msg = owned("no renderer for ");
        push_str(&mut msg, m);
        Err(EngineError::Other(msg))
    }
}

/// The outcome of one command: the new state, its screen, whether to write the lineage,
/// and whether the session ends.
pub struct Step {
    pub state: WorldState,
    pub frame: Frame,
    pub persist: PersistHint,
    pub halt: bool,
}

impl View for Step {
    type V = StepView;

    open spec fn view(&self) -> StepView {
        StepView { state: self.state@, frame: self.frame@, persist: self.persist, halt: self.halt }
    }
}

/// `x` modulo `n`, never negative (`i32::rem_euclid`).
fn rem_euclid(x: i32, n: i32) -> (r: i32)
    requires
        n > 0,
    ensures
        r as int == (x as int) % (n as int),
        0 <= r < n,
{
    if x >= 0 {
        x % n
    } else {
        let y: i32 = -(x + 1);
        let q: i32 = y % n;
        proof {
            let k = (y as int) / (n as int);
            assert(y as int == (n as int) * k + q) by (nonlinear_arith)
                requires
                    q as int == (y as int) % (n as int),
                    k == (y as int) / (n as int),
                    n > 0,
            ;
            assert((x as int) == (n as int) * (-k - 1) + (n - 1 - q)) by (nonlinear_arith)
                requires
                    y as int == (n as int) * k + q,
                    y == -(x + 1),
            ;
            assert((x as int) % (n as int) == n - 1 - q) by (nonlinear_arith)
                requires
                    (x as int) == (n as int) * (-k - 1) + (n - 1 - q),
                    0 <= q < n,
            {
                vstd::arithmetic::div_mod::lemma_fundamental_div_mod_converse(
                    x as int,
                    n as int,
                    -k - 1,
                    n - 1 - q,
                );
            }
        }
        n - 1 - q
    }
}

/// The view of an optional carry.
pub open spec fn carry_opt_view(c: Option<&Carry>) -> Option<CarryView> {
    match c {
        Some(c) => Some(c@),
        None => None,
    }
}

/// Starts a chapter fresh.
pub fn boot(ir: &Ir) -> (r: Result<(WorldState, Frame), EngineError>)
    ensures
        match (r, boot_spec(*ir, None)) {
            (Ok((s, f)), Ok((sv, fv))) => s@ == sv && f@ == fv,
            (Err(e), Err(v)) => e@ == v,
            _ => false,
        },
{
    boot_with(ir, None)
}

/// Starts a chapter with what the previous one carries over.
pub fn boot_with(ir: &Ir, carry: Option<&Carry>) -> (r: Result<(WorldState, Frame), EngineError>)
    ensures
        match (r, boot_spec(*ir, carry_opt_view(carry))) {
            (Ok((s, f)), Ok((sv, fv))) => s@ == sv && f@ == fv,
            (Err(e), Err(v)) => e@ == v,
            _ => false,
        },
{
    if let Err(m) = ir.validate() {
        return Err(EngineError::InvalidIr(m));
    }
    let ch = &ir.chapter;
    let mut monnaies: StrMap<i32> = StrMap::new();
    let mut i: usize = 0;
    while i < ch.monnaies.len()
        invariant
            i <= ch.monnaies.len(),
            ch == &ir.chapter,
            monnaies@ == start_money(*ir, i as nat),
        decreases ch.monnaies.len() - i,
    {
        monnaies.insert(ch.monnaies[i].id.clone(), ch.monnaies[i].start);
        i += 1;
    }
    let mut flags = StrSet::new();
    let mut heritage = StrSet::from_vec(&ch.heritage_default);
    let mut notes: Vec<String> = Vec::new();
    let mut heir = HeirState {
        id: ch.heir.id.clone(),
        name: ch.heir.name.clone(),
        title: ch.heir.title.clone(),
    };
    assert(texts(notes@) =~= Seq::<Seq<char>>::empty());
    if let Some(c) = carry {
        flags = c.flags.copy();
        if let Some(prev) = &c.heir {
            let mut f = owned("prev-heir-");
            push_str(&mut f, prev.id.as_str());
            flags.insert(f);
        }
        if !c.heritage.is_empty() {
            heritage = c.heritage.copy();
        }
        notes = copy_strings(&c.notes);
        let ghost m0 = monnaies@;
        let mut j: usize = 0;
        assert(c.monnaies@.take(0) =~= Seq::<(Seq<char>, i32)>::empty());
        while j < c.monnaies.len()
            invariant
                j <= c.monnaies@.len(),
                monnaies@ == carried_money(m0, c.monnaies@.take(j as int)),
            decreases c.monnaies@.len() - j,
        {
            let (k, v) = c.monnaies.entry(j);
            assert(c.monnaies@.take(j + 1).drop_last() =~= c.monnaies@.take(j as int));
            assert(c.monnaies@.take(j + 1).last() == c.monnaies@[j as int]);
            monnaies.put(k.as_str(), *v);
            j += 1;
        }
        assert(c.monnaies@.take(j as int) =~= c.monnaies@);
        if !str_eq(ch.heir_policy.as_str(), "chapter") {
            if let Some(prev) = &c.heir {
                heir = prev.copy();
            }
        }
    }
    let fiches: Vec<FicheGot> = Vec::new();
    let mut state = WorldState {
        chapter: ch.id.clone(),
        mode: owned("briefing"),
        petition_i: 0,
        cursor: 0,
        monnaies,
        flags,
        notes,
        heritage,
        fiches,
        heir,
        narrative: String::new(),
        last_choice: None,
        next_chapter: crate::state::copy_opt(&ch.next),
        overlay: None,
        lieu: None,
    };
    assert(fiche_views(state.fiches@) =~= Seq::<FicheView>::empty());
    let t = briefing_text_exec(ir, &state);
    state.narrative = t;
    assert(state@ == boot_state(*ir, carry_opt_view(carry)));
    match render(ir, &state) {
        Ok(frame) => Ok((state, frame)),
        Err(e) => Err(e),
    }
}

/// Applies one command to `state`.
pub fn apply(ir: &Ir, state: WorldState, cmd: Command) -> (r: Result<Step, EngineError>)
    requires
        apply_safe(*ir, state@, cmd),
    ensures
        match (r, apply_spec(*ir, state@, cmd)) {
            (Ok(step), Ok(v)) => step@ == v,
            (Err(e), Err(v)) => e@ == v,
            _ => false,
        },
{
    let ghost s0 = state@;
    let mut state = state;
    let mut persist = PersistHint::Skip;
    let mut halt = false;
    if state.overlay.is_some() {
        match cmd {
            Command::Close | Command::Notes | Command::Help | Command::Continue => {
                state.overlay = None;
            },
            Command::Quit => halt = true,
            _ => {},
        }
        assert(step_state(*ir, s0, cmd) == Ok::<WorldStateView, EngineErrorView>(state@));
        return match render(ir, &state) {
            Ok(frame) => Ok(Step { state, frame, persist, halt }),
            Err(e) => Err(e),
        };
    }
    match cmd {
        Command::MoveCursor { delta } => {
            let n = choice_ids(ir, &state).len();
            if n > 0 {
                let next: i32 = state.cursor as i32 + delta;
                let r = rem_euclid(next, n as i32);
                state.cursor = r as usize;
            }
        },
        Command::Select { index } => {
            let n = choice_ids(ir, &state).len();
            if n > 0 {
                let idx = index as usize;
                state.cursor = if idx < n - 1 {
                    idx
                } else {
                    n - 1
                };
            }
        },
        Command::Choose { index } => {
            match choose_exec(ir, &mut state, index as usize) {
                Ok(()) => {},
                Err(e) => return Err(e),
            }
            persist = PersistHint::Flush;
        },
        Command::Continue => {
            match continue_exec(ir, &mut state) {
                Ok(()) => {},
                Err(e) => return Err(e),
            }
            persist = PersistHint::Flush;
            if str_eq(state.mode.as_str(), "done") {
                halt = true;
            }
        },
        Command::Notes => state.overlay = Some(owned("notes")),
        Command::Help => state.overlay = Some(owned("help")),
        Command::Close => {},
        Command::Quit => halt = true,
    }
    assert(step_state(*ir, s0, cmd) == Ok::<WorldStateView, EngineErrorView>(state@));
    match render(ir, &state) {
        Ok(frame) => Ok(Step { state, frame, persist, halt }),
        Err(e) => Err(e),
    }
}

/// The choice that `Choose { index }` picks in the current mode, if any.
fn chosen_exec<'a>(ir: &'a Ir, state: &WorldState, index: usize) -> (r: Option<&'a ChoiceIr>)
    ensures
        match r {
            Some(c) => chosen(*ir, state@, index as int) == Some(*c),
            None => chosen(*ir, state@, index as int) is None,
        },
{
    let cs: &Vec<ChoiceIr> = if str_eq(state.mode.as_str(), "petition") {
        if state.petition_i >= ir.chapter.petitions.len() {
            return None;
        }
        &ir.chapter.petitions[state.petition_i].choices
    } else if str_eq(state.mode.as_str(), "set_piece") {
        &ir.chapter.set_piece.choices
    } else {
        return None;
    };
    let vis = visible_choices_exec(cs, &state.flags);
    let nc = cs.len();
    proof {
        lemma_indices_where(nc as nat, choice_open(cs@, state@.flags));
    }
    if index >= vis.len() {
        return None;
    }
    Some(&cs[vis[index]])
}

/// Whether every money change of `d`, applied in key order to `m`, stays within `i32`.
fn delta_fits_exec(m: &StrMap<i32>, d: &StrMap<i32>) -> (r: bool)
    ensures
        r == delta_fits(m@, d@),
{
    let mut tmp = m.copy();
    let mut i: usize = 0;
    assert(d@.take(0) =~= Seq::<(Seq<char>, i32)>::empty());
    while i < d.len()
        invariant
            i <= d@.len(),
            tmp@ == apply_delta(m@, d@.take(i as int)),
            delta_fits(m@, d@.take(i as int)),
        decreases d@.len() - i,
    {
        let (k, dv) = d.entry(i);
        let dv = *dv;
        assert(d@.take(i + 1).drop_last() =~= d@.take(i as int));
        assert(d@.take(i + 1).last() == d@[i as int]);
        match tmp.get(k.as_str()) {
            Some(e) => {
                let e = *e;
                let sum: i64 = e as i64 + dv as i64;
                if sum < i32::MIN as i64 || sum > i32::MAX as i64 {
                    proof {
                        if delta_fits(m@, d@) {
                            lemma_delta_fits_take(m@, d@, i + 1);
                        }
                    }
                    return false;
                }
                let nv: i32 = if sum < 0 {
                    0
                } else {
                    sum as i32
                };
                tmp.put(k.as_str(), nv);
            },
            None => {},
        }
        i += 1;
    }
    assert(d@.take(i as int) =~= d@);
    true
}

proof fn lemma_delta_fits_take(m: Seq<(Seq<char>, i32)>, d: Seq<(Seq<char>, i32)>, j: int)
    requires
        0 <= j <= d.len(),
        delta_fits(m, d),
    ensures
        delta_fits(m, d.take(j)),
    decreases d.len() - j,
{
    if j < d.len() {
        lemma_delta_fits_take(m, d.drop_last(), j);
        assert(d.drop_last().take(j) =~= d.take(j));
    } else {
        assert(d.take(j) =~= d);
    }
}

/// What `try_apply` checks before it applies a command: the petition index can still be
/// counted, the cursor moves within `i32`, and a chosen choice's money changes stay within
/// `i32`.
pub open spec fn apply_checks(ir: Ir, s: WorldStateView, cmd: Command) -> bool {
    &&& s.petition_i < usize::MAX
    &&& (s.overlay is None && cmd is MoveCursor && offered_ids(ir, s).len() > 0) ==> {
        &&& offered_ids(ir, s).len() <= i32::MAX
        &&& i32::MIN <= (s.cursor as i32) as int + cmd->delta as int <= i32::MAX
    }
    &&& (s.overlay is None && cmd is Choose) ==> match chosen(ir, s, cmd->Choose_index as int) {
        Some(c) => delta_fits(s.monnaies, c.delta@),
        None => true,
    }
}

proof fn lemma_checks_make_safe(ir: Ir, s: WorldStateView, cmd: Command)
    requires
        apply_checks(ir, s, cmd),
        ir.chapter.petitions@.len() <= usize::MAX,
    ensures
        apply_safe(ir, s, cmd),
{
    crate::rules::lemma_mode_names();
    let n = ir.chapter.petitions@.len();
    lemma_indices_where(n, petition_open_at(ir, s));
    crate::rules::lemma_first_after(visible_petitions(ir, s), None);
    crate::rules::lemma_first_after(visible_petitions(ir, s), Some(s.petition_i));
    if let Some(i) = first_after(visible_petitions(ir, s), None) {
        let k = choose|k: int| 0 <= k < visible_petitions(ir, s).len() && visible_petitions(ir, s)[k] == i;
    }
    if let Some(i) = first_after(visible_petitions(ir, s), Some(s.petition_i)) {
        let k = choose|k: int| 0 <= k < visible_petitions(ir, s).len() && visible_petitions(ir, s)[k] == i;
    }
    if s.overlay is None && cmd is Choose && s.mode == "lieu"@ {
        let vis = visible_lieux(ir, s.flags);
        let index = cmd->Choose_index as int;
        if 0 <= index < vis.len() {
            let l = ir.chapter.lieux_jouables@[vis[index] as int];
            let s1 = WorldStateView {
                lieu: Some(l.id@),
                flags: crate::strset::set_insert(s.flags, "lieu-"@ + l.id@),
                cursor: 0,
                ..s
            };
            let s2 = WorldStateView { narrative: lieu_text(ir, s1, l), ..s1 };
            lemma_indices_where(n, petition_open_at(ir, s2));
            crate::rules::lemma_first_after(visible_petitions(ir, s2), None);
            if let Some(i) = first_after(visible_petitions(ir, s2), None) {
                let k = choose|k: int| 0 <= k < visible_petitions(ir, s2).len() && visible_petitions(ir, s2)[k] == i;
            }
        }
    }
}

/// Applies `cmd` when [`apply_checks`] holds, and answers as `apply` does; `None` when a
/// check fails and the command would overflow.
pub fn try_apply(ir: &Ir, state: WorldState, cmd: Command) -> (r: Option<Result<Step, EngineError>>)
    ensures
        r is Some <==> apply_checks(*ir, state@, cmd),
        r matches Some(x) ==> match (x, apply_spec(*ir, state@, cmd)) {
            (Ok(step), Ok(v)) => step@ == v,
            (Err(e), Err(v)) => e@ == v,
            _ => false,
        },
{
    if state.petition_i == usize::MAX {
        return None;
    }
    if state.overlay.is_none() {
        match cmd {
            Command::MoveCursor { delta } => {
                let n = choice_ids(ir, &state).len();
                if n > 0 {
                    if n > i32::MAX as usize {
                        return None;
                    }
                    let c: i32 = #[verifier::truncate] (state.cursor as i32);
                    let sum: i64 = c as i64 + delta as i64;
                    if sum < i32::MIN as i64 || sum > i32::MAX as i64 {
                        return None;
                    }
                }
            },
            Command::Choose { index } => {
                match chosen_exec(ir, &state, index as usize) {
                    Some(c) => {
                        if !delta_fits_exec(&state.monnaies, &c.delta) {
                            return None;
                        }
                    },
                    None => {},
                }
            },
            _ => {},
        }
    }
    let np = ir.chapter.petitions.len();
    proof {
        lemma_checks_make_safe(*ir, state@, cmd);
    }
    Some(apply(ir, state, cmd))
}

} // verus!
