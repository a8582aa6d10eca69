//! Properties of the library as a whole, proved from the contracts of its functions.
use vstd::prelude::*;

use crate::command::{Command, PersistHint};
use crate::dsl::{
    campaign_order, dangling_at, lemma_distinct_keys_bound, lemma_map_get_some_key, lint_spec,
    next_of, not_done, resume_spec, walk,
};
use crate::error::EngineErrorView;
use crate::frame::global_verbs;
use crate::ir::{ChoiceIr, Ir};
use crate::persist::{
    append_new, append_new_fiches, carry_of_lineage, has_fiche, merged_lineage, LineageView,
};
use crate::rules::{
    amount, apply_choice, apply_delta, apply_spec, boot_state, carried_money, choice_list, chosen,
    clamp_add, delta_fits, distinct_names, first_after, first_where, lemma_first_after,
    lemma_first_where, lemma_indices_where, lemma_mode_names, lieu_list, offered_ids,
    petition_list, petition_open, screen, start_money, step_halt, step_persist, step_state,
    visible_petitions,
};
use crate::screen::{key_command, Key};
use crate::state::{carry_of, CarryView, FicheView, WorldStateView, NOTES_CAP};
use crate::strmap::{keys_of, keys_sorted, lemma_map_put_keys, map_get, map_put};
use crate::strset::{
    insert_all, lemma_insert_all_contains, lemma_insert_all_sorted, lemma_remove_all_contains,
    lemma_set_insert_contains, set_insert, sorted_texts, texts,
};
use crate::text::lemma_text_lt_irreflexive;

verus! {

/// Whether a choice also grants the `cheval` relic: the chapter says so, the choice lists
/// relics, and a `chevaux` stock is held after its money changes.
pub open spec fn grants_cheval(ir: Ir, s: WorldStateView, c: ChoiceIr) -> bool {
    &&& ir.chapter.cheval_si_chevaux
    &&& c.heritage@.len() > 0
    &&& amount(apply_delta(s.monnaies, c.delta@), "chevaux"@) > 0
}

/// The relics after a choice are a union: a relic is held afterwards exactly when the choice
/// does not remove it and it was held before, or the choice lists it, or it is the `cheval`
/// that the chapter grants. Listing relics never wipes the rest of the cave.
pub proof fn law_choice_heritage_is_union(ir: Ir, s: WorldStateView, c: ChoiceIr, x: Seq<char>)
    ensures
        apply_choice(ir, s, c).heritage.contains(x) <==> !texts(c.heritage_remove@).contains(x) && (
        s.heritage.contains(x) || texts(c.heritage@).contains(x) || (x == "cheval"@ && grants_cheval(
            ir,
            s,
            c,
        ))),
{
    let h1 = insert_all(s.heritage, texts(c.heritage@));
    lemma_insert_all_contains(s.heritage, texts(c.heritage@), x);
    lemma_set_insert_contains(h1, "cheval"@, x);
    let h2 = if grants_cheval(ir, s, c) {
        set_insert(h1, "cheval"@)
    } else {
        h1
    };
    lemma_remove_all_contains(h2, texts(c.heritage_remove@), x);
}

/// A `Choose` that picks a choice moves to the state that the choice's consequences give.
pub proof fn law_choose_applies_choice(ir: Ir, s: WorldStateView, index: u8)
    requires
        s.overlay is None,
        chosen(ir, s, index as int) is Some,
    ensures
        step_state(ir, s, Command::Choose { index }) is Ok,
        step_state(ir, s, Command::Choose { index })->Ok_0.heritage == apply_choice(
            ir,
            s,
            chosen(ir, s, index as int)->0,
        ).heritage,
        step_state(ir, s, Command::Choose { index })->Ok_0.flags == apply_choice(
            ir,
            s,
            chosen(ir, s, index as int)->0,
        ).flags,
        step_state(ir, s, Command::Choose { index })->Ok_0.monnaies == apply_choice(
            ir,
            s,
            chosen(ir, s, index as int)->0,
        ).monnaies,
{
    lemma_mode_names();
}

/// Only a chapter marked `cheval_si_chevaux` hands out the `cheval` relic on its own: elsewhere
/// a choice leaves the heir without a horse unless one was held or the choice lists it.
pub proof fn law_cheval_only_where_chapter_says(ir: Ir, s: WorldStateView, index: u8)
    requires
        s.overlay is None,
        chosen(ir, s, index as int) is Some,
        !ir.chapter.cheval_si_chevaux,
        !s.heritage.contains("cheval"@),
        !texts(chosen(ir, s, index as int)->0.heritage@).contains("cheval"@),
    ensures
        !step_state(ir, s, Command::Choose { index })->Ok_0.heritage.contains("cheval"@),
{
    let c = chosen(ir, s, index as int)->0;
    law_choose_applies_choice(ir, s, index);
    law_choice_heritage_is_union(ir, s, c, "cheval"@);
}

/// Where the chapter is marked `cheval_si_chevaux`, a choice that lists relics while a
/// `chevaux` stock is held adds `cheval`, unless it removes it.
pub proof fn law_cheval_from_chevaux(ir: Ir, s: WorldStateView, index: u8)
    requires
        s.overlay is None,
        chosen(ir, s, index as int) is Some,
        grants_cheval(ir, s, chosen(ir, s, index as int)->0),
        !texts(chosen(ir, s, index as int)->0.heritage_remove@).contains("cheval"@),
    ensures
        step_state(ir, s, Command::Choose { index })->Ok_0.heritage.contains("cheval"@),
{
    let c = chosen(ir, s, index as int)->0;
    law_choose_applies_choice(ir, s, index);
    law_choice_heritage_is_union(ir, s, c, "cheval"@);
}

/// The commands that close an open overlay.
pub open spec fn closes_overlay(cmd: Command) -> bool {
    cmd is Close || cmd is Notes || cmd is Help || cmd is Continue
}

/// While an overlay is open, `Close`, `Notes`, `Help` and `Continue` close it and change
/// nothing else; every other command leaves the state as it is. Nothing is written meanwhile.
pub proof fn law_overlay_holds_the_chapter(ir: Ir, s: WorldStateView, cmd: Command)
    requires
        s.overlay is Some,
    ensures
        closes_overlay(cmd) ==> step_state(ir, s, cmd) == Ok::<WorldStateView, EngineErrorView>(
            WorldStateView { overlay: None, ..s },
        ),
        !closes_overlay(cmd) ==> step_state(ir, s, cmd) == Ok::<WorldStateView, EngineErrorView>(s),
        step_persist(s, cmd) == PersistHint::Skip,
{
}

/// `Quit` ends the session in every state and changes nothing.
pub proof fn law_quit_halts(ir: Ir, s: WorldStateView)
    ensures
        step_state(ir, s, Command::Quit) == Ok::<WorldStateView, EngineErrorView>(s),
        step_halt(s, Command::Quit, s),
        apply_spec(ir, s, Command::Quit) is Ok ==> apply_spec(ir, s, Command::Quit)->Ok_0.halt
            && apply_spec(ir, s, Command::Quit)->Ok_0.state == s,
{
}

/// Moving or placing the cursor over a non-empty list leaves it on an entry of that list,
/// and touches nothing but the cursor.
pub proof fn law_cursor_stays_in_list(ir: Ir, s: WorldStateView, cmd: Command)
    requires
        s.overlay is None,
        cmd is MoveCursor || cmd is Select,
        offered_ids(ir, s).len() > 0,
    ensures
        step_state(ir, s, cmd) is Ok,
        step_state(ir, s, cmd)->Ok_0 == (WorldStateView {
            cursor: step_state(ir, s, cmd)->Ok_0.cursor,
            ..s
        }),
        step_state(ir, s, cmd)->Ok_0.cursor < offered_ids(ir, step_state(ir, s, cmd)->Ok_0).len(),
{
    let next = step_state(ir, s, cmd)->Ok_0;
    assert(offered_ids(ir, next) == offered_ids(ir, s));
}

/// `Choose` is refused outside the modes that offer a list.
pub proof fn law_choose_needs_a_list(ir: Ir, s: WorldStateView, index: u8)
    requires
        s.overlay is None,
        s.mode != "lieu"@,
        s.mode != "petition"@,
        s.mode != "set_piece"@,
    ensures
        step_state(ir, s, Command::Choose { index }) == Err::<WorldStateView, EngineErrorView>(
            EngineErrorView::WrongMode("Choose"@, s.mode),
        ),
{
}

/// `Continue` is refused in the modes that wait for a choice.
pub proof fn law_continue_needs_a_page(ir: Ir, s: WorldStateView)
    requires
        s.overlay is None,
        s.mode == "lieu"@ || s.mode == "petition"@ || s.mode == "set_piece"@,
    ensures
        step_state(ir, s, Command::Continue) == Err::<WorldStateView, EngineErrorView>(
            EngineErrorView::WrongMode("Continue"@, s.mode),
        ),
{
    lemma_mode_names();
}

/// `Continue` at the debrief closes the chapter: the state is done, the session halts and the
/// lineage is to be written. At the end, `Continue` changes nothing and halts again.
pub proof fn law_debrief_ends_the_chapter(ir: Ir, s: WorldStateView)
    requires
        s.overlay is None,
        s.mode == "debrief"@ || s.mode == "done"@,
    ensures
        step_state(ir, s, Command::Continue) is Ok,
        step_state(ir, s, Command::Continue)->Ok_0.mode == "done"@,
        s.mode == "done"@ ==> step_state(ir, s, Command::Continue)->Ok_0 == s,
        step_halt(s, Command::Continue, step_state(ir, s, Command::Continue)->Ok_0),
        step_persist(s, Command::Continue) == PersistHint::Flush,
{
    lemma_mode_names();
}

/// The carnet never holds more than `NOTES_CAP` notes: no command takes it past the cap.
pub proof fn law_notes_capped(ir: Ir, s: WorldStateView, cmd: Command)
    requires
        s.notes.len() <= NOTES_CAP,
    ensures
        step_state(ir, s, cmd) is Ok ==> step_state(ir, s, cmd)->Ok_0.notes.len() <= NOTES_CAP,
{
    lemma_mode_names();
}

/// `lint` passes exactly when every chapter's `next` names a chapter of the campaign.
pub proof fn law_lint_accepts_closed_campaigns(m: Seq<(Seq<char>, Ir)>)
    ensures
        lint_spec(m) is Ok <==> forall|j: int|
            0 <= j < m.len() && #[trigger] m[j].1.chapter.next is Some ==> map_get(
                m,
                m[j].1.chapter.next->0@,
            ) is Some,
{
    lemma_first_where(m.len(), dangling_at(m));
    if lint_spec(m) is Err {
        let j = first_where(m.len(), dangling_at(m))->0;
        assert(dangling_at(m)(j));
    } else {
        assert forall|j: int| 0 <= j < m.len() && #[trigger] m[j].1.chapter.next is Some implies map_get(
            m,
            m[j].1.chapter.next->0@,
        ) is Some by {
            assert(!dangling_at(m)(j));
        }
    }
}

/// `ord` ends where the `next` links end or come back to an id already in it.
pub open spec fn ends_chain(m: Seq<(Seq<char>, Ir)>, ord: Seq<Seq<char>>) -> bool {
    &&& ord.len() > 0
    &&& match next_of(m, ord.last()) {
        Some(n) => ord.contains(n),
        None => true,
    }
}

/// Consecutive ids of `ord` follow the `next` links of `m`.
pub open spec fn follows_links(m: Seq<(Seq<char>, Ir)>, ord: Seq<Seq<char>>) -> bool {
    forall|i: int| 0 <= i < ord.len() - 1 ==> next_of(m, #[trigger] ord[i]) == Some(ord[i + 1])
}

proof fn lemma_walk(m: Seq<(Seq<char>, Ir)>, out: Seq<Seq<char>>, cur: Option<Seq<char>>, fuel: nat)
    requires
        out.no_duplicates(),
        follows_links(m, out),
        out.len() > 0 ==> next_of(m, out.last()) == cur,
    ensures
        walk(m, out, cur, fuel).no_duplicates(),
        follows_links(m, walk(m, out, cur, fuel)),
        walk(m, out, cur, fuel).len() >= out.len(),
        walk(m, out, cur, fuel).subrange(0, out.len() as int) == out,
        keys_sorted(m) && out.len() + fuel == m.len() + 1 && (out.len() > 0 || cur is Some)
            ==> ends_chain(m, walk(m, out, cur, fuel)),
    decreases fuel,
{
    let r = walk(m, out, cur, fuel);
    if fuel == 0 || cur is None || out.contains(cur->0) {
        assert(r.subrange(0, out.len() as int) =~= out);
        if keys_sorted(m) && out.len() + fuel == m.len() + 1 && (out.len() > 0 || cur is Some) {
            if fuel == 0 && next_of(m, out.last()) is Some {
                assert forall|i: int| 0 <= i < out.len() implies map_get(m, #[trigger] out[i]) is Some by {
                    if i < out.len() - 1 {
                        assert(next_of(m, out[i]) is Some);
                    }
                }
                lemma_distinct_keys_bound(out, m);
            }
        }
    } else {
        let c = cur->0;
        let o2 = out.push(c);
        assert(o2.no_duplicates()) by {
            assert forall|a: int, b: int| 0 <= a < b < o2.len() implies o2[a] != o2[b] by {
                if b == out.len() {
                    assert(out[a] == o2[a]);
                }
            }
        }
        assert(follows_links(m, o2)) by {
            assert forall|i: int| 0 <= i < o2.len() - 1 implies next_of(m, #[trigger] o2[i]) == Some(o2[i + 1]) by {
                if i < out.len() - 1 {
                    assert(o2[i] == out[i] && o2[i + 1] == out[i + 1]);
                } else {
                    assert(o2[i] == out.last());
                }
            }
        }
        assert(o2.last() == c);
        lemma_walk(m, o2, next_of(m, c), (fuel - 1) as nat);
        assert(r == walk(m, o2, next_of(m, c), (fuel - 1) as nat));
        assert(r.subrange(0, out.len() as int) =~= out) by {
            assert forall|i: int| 0 <= i < out.len() implies r[i] == out[i] by {
                assert(r.subrange(0, o2.len() as int)[i] == o2[i]);
            }
        }
    }
}

/// The play order starts at the entry, names each chapter at most once, goes from one
/// chapter to the next along the `next` links, and stops only where the links end or loop.
pub proof fn law_order_follows_next(m: Seq<(Seq<char>, Ir)>, entry: Seq<char>)
    requires
        keys_sorted(m),
    ensures
        ends_chain(m, campaign_order(m, entry)),
        campaign_order(m, entry).len() >= 1,
        campaign_order(m, entry)[0] == entry,
        campaign_order(m, entry).no_duplicates(),
        follows_links(m, campaign_order(m, entry)),
{
    let fuel = (m.len() + 1) as nat;
    let o1 = seq![entry];
    assert(campaign_order(m, entry) == walk(m, o1, next_of(m, entry), (fuel - 1) as nat));
    assert(o1.last() == entry);
    lemma_walk(m, o1, next_of(m, entry), (fuel - 1) as nat);
    let r = campaign_order(m, entry);
    assert(r.subrange(0, 1)[0] == r[0]);
}

/// A lineage resumes at a chapter it has not completed: the saved next chapter when that is
/// a chapter of the campaign, else a chapter of the play order. It resumes nowhere only when
/// every chapter of the play order is completed.
pub proof fn law_resume_skips_completed(
    m: Seq<(Seq<char>, Ir)>,
    entry: Seq<char>,
    completed: Seq<Seq<char>>,
    next: Option<Seq<char>>,
)
    ensures
        resume_spec(m, entry, completed, next) matches Some(x) ==> !completed.contains(x) && (
        map_get(m, x) is Some || campaign_order(m, entry).contains(x)),
        resume_spec(m, entry, completed, next) is None ==> forall|i: int|
            0 <= i < campaign_order(m, entry).len() ==> completed.contains(
                #[trigger] campaign_order(m, entry)[i],
            ),
{
    let ord = campaign_order(m, entry);
    lemma_first_where(ord.len(), not_done(completed, ord));
    if resume_spec(m, entry, completed, next) is None {
        assert forall|i: int| 0 <= i < ord.len() implies completed.contains(#[trigger] ord[i]) by {
            assert(!not_done(completed, ord)(i));
        }
    }
}

/// A chapter starts at its briefing, on the first petition, with the cursor at the top, no
/// fiche, no overlay, no place chosen and no choice made.
pub proof fn law_boot_starts_at_briefing(ir: Ir, carry: Option<CarryView>)
    ensures
        boot_state(ir, carry).mode == "briefing"@,
        boot_state(ir, carry).chapter == ir.chapter.id@,
        boot_state(ir, carry).petition_i == 0,
        boot_state(ir, carry).cursor == 0,
        boot_state(ir, carry).fiches.len() == 0,
        boot_state(ir, carry).overlay is None,
        boot_state(ir, carry).lieu is None,
        boot_state(ir, carry).last_choice is None,
        boot_state(ir, carry).next_chapter == crate::ir::opt_view(ir.chapter.next),
        carry is None ==> boot_state(ir, carry).flags.len() == 0 && boot_state(
            ir,
            carry,
        ).notes.len() == 0 && boot_state(ir, carry).monnaies == start_money(
            ir,
            ir.chapter.monnaies@.len(),
        ),
{
}

/// A chapter started from a carry keeps its flags, adding `prev-heir-<id>` for the heir it
/// hands on; keeps its notes, and its relics unless it has none; keeps its heir unless the
/// chapter's heir policy is `chapter`; and holds the currencies of the chapter, no more.
pub proof fn law_boot_takes_the_carry(ir: Ir, c: CarryView, x: Seq<char>)
    ensures
        boot_state(ir, Some(c)).flags.contains(x) <==> c.flags.contains(x) || (c.heir is Some && x
            == "prev-heir-"@ + c.heir->0.id),
        boot_state(ir, Some(c)).notes == c.notes,
        c.heritage.len() > 0 ==> boot_state(ir, Some(c)).heritage == c.heritage,
        ir.chapter.heir_policy@ != "chapter"@ && c.heir is Some ==> boot_state(ir, Some(c)).heir
            == c.heir->0,
        ir.chapter.heir_policy@ == "chapter"@ ==> boot_state(ir, Some(c)).heir.id
            == ir.chapter.heir.id@,
        keys_of(boot_state(ir, Some(c)).monnaies) == keys_of(
            start_money(ir, ir.chapter.monnaies@.len()),
        ),
{
    if c.heir is Some {
        lemma_set_insert_contains(c.flags, "prev-heir-"@ + c.heir->0.id, x);
    }
    lemma_carried_keys(start_money(ir, ir.chapter.monnaies@.len()), c.monnaies);
}

proof fn lemma_carried_keys(m: Seq<(Seq<char>, i32)>, carried: Seq<(Seq<char>, i32)>)
    ensures
        keys_of(carried_money(m, carried)) == keys_of(m),
    decreases carried.len(),
{
    if carried.len() > 0 {
        lemma_carried_keys(m, carried.drop_last());
        lemma_map_put_keys(
            carried_money(m, carried.drop_last()),
            carried.last().0,
            carried.last().1,
        );
    }
}

/// Money changes never add or drop a currency: the currencies held stay the same, in order.
pub proof fn law_delta_keeps_currencies(m: Seq<(Seq<char>, i32)>, d: Seq<(Seq<char>, i32)>)
    ensures
        keys_of(apply_delta(m, d)) == keys_of(m),
    decreases d.len(),
{
    if d.len() > 0 {
        law_delta_keeps_currencies(m, d.drop_last());
        let m1 = apply_delta(m, d.drop_last());
        lemma_map_put_keys(m1, d.last().0, clamp_add(amount(m1, d.last().0), d.last().1));
    }
}

/// No amount is ever below zero.
pub open spec fn no_debt(m: Seq<(Seq<char>, i32)>) -> bool {
    forall|i: int| 0 <= i < m.len() ==> (#[trigger] m[i]).1 >= 0
}

proof fn lemma_map_put_no_debt(m: Seq<(Seq<char>, i32)>, k: Seq<char>, v: i32)
    requires
        no_debt(m),
        v >= 0,
    ensures
        no_debt(map_put(m, k, v)),
    decreases m.len(),
{
    if m.len() > 0 {
        let t = m.skip(1);
        assert(no_debt(t)) by {
            assert forall|i: int| 0 <= i < t.len() implies (#[trigger] t[i]).1 >= 0 by {
                assert(t[i] == m[i + 1]);
            }
        }
        lemma_map_put_no_debt(t, k, v);
        let rest = map_put(t, k, v);
        let head = if m[0].0 == k { (k, v) } else { m[0] };
        let r = map_put(m, k, v);
        assert(r == seq![head] + rest);
        assert forall|i: int| 0 <= i < r.len() implies (#[trigger] r[i]).1 >= 0 by {
            if i > 0 {
                assert(r[i] == rest[i - 1]);
            }
        }
    }
}

/// Money changes never take an amount below zero: a loss larger than the stock leaves none.
pub proof fn law_money_never_negative(m: Seq<(Seq<char>, i32)>, d: Seq<(Seq<char>, i32)>)
    requires
        no_debt(m),
        delta_fits(m, d),
    ensures
        no_debt(apply_delta(m, d)),
    decreases d.len(),
{
    if d.len() > 0 {
        law_money_never_negative(m, d.drop_last());
        let m1 = apply_delta(m, d.drop_last());
        match map_get(m1, d.last().0) {
            Some(e) => lemma_map_put_no_debt(m1, d.last().0, clamp_add(e, d.last().1)),
            None => {},
        }
    }
}

proof fn lemma_append_new_contains(xs: Seq<Seq<char>>, ys: Seq<Seq<char>>, y: Seq<char>)
    ensures
        append_new(xs, ys).contains(y) == (xs.contains(y) || ys.contains(y)),
    decreases ys.len(),
{
    if ys.len() > 0 {
        let d = ys.drop_last();
        lemma_append_new_contains(xs, d, y);
        let r = append_new(xs, d);
        if !r.contains(ys.last()) {
            assert(r.push(ys.last()).last() == ys.last());
            if r.push(ys.last()).contains(y) && y != ys.last() {
                let k = choose|k: int| 0 <= k < r.push(ys.last()).len() && r.push(ys.last())[k] == y;
                assert(r[k] == y);
            }
            if r.contains(y) {
                let k = choose|k: int| 0 <= k < r.len() && r[k] == y;
                assert(r.push(ys.last())[k] == y);
            }
        }
        if d.contains(y) {
            let k = choose|k: int| 0 <= k < d.len() && d[k] == y;
            assert(ys[k] == y);
        }
        if ys.contains(y) && y != ys.last() {
            let k = choose|k: int| 0 <= k < ys.len() && ys[k] == y;
            assert(d[k] == y);
        }
        assert(ys[ys.len() - 1] == ys.last());
    }
}

proof fn lemma_append_new_fresh(ys: Seq<Seq<char>>)
    requires
        ys.no_duplicates(),
    ensures
        append_new(Seq::empty(), ys) == ys,
    decreases ys.len(),
{
    if ys.len() > 0 {
        let d = ys.drop_last();
        assert(d.no_duplicates());
        lemma_append_new_fresh(d);
        if d.contains(ys.last()) {
            let k = choose|k: int| 0 <= k < d.len() && d[k] == ys.last();
            assert(ys[k] == ys[ys.len() - 1]);
        }
        assert(d.push(ys.last()) =~= ys);
    }
}

/// No two fiches of `fs` share an id.
pub open spec fn distinct_fiches(fs: Seq<FicheView>) -> bool {
    forall|i: int, j: int| 0 <= i < j < fs.len() ==> (#[trigger] fs[i]).id != (#[trigger] fs[j]).id
}

proof fn lemma_append_new_fiches_fresh(fs: Seq<FicheView>)
    requires
        distinct_fiches(fs),
    ensures
        append_new_fiches(Seq::empty(), fs) == fs,
    decreases fs.len(),
{
    if fs.len() > 0 {
        let d = fs.drop_last();
        assert(distinct_fiches(d)) by {
            assert forall|i: int, j: int| 0 <= i < j < d.len() implies (#[trigger] d[i]).id != (#[trigger] d[j]).id by {
                assert(d[i] == fs[i] && d[j] == fs[j]);
            }
        }
        lemma_append_new_fiches_fresh(d);
        if has_fiche(d, fs.last().id) {
            let k = choose|k: int| 0 <= k < d.len() && d[k].id == fs.last().id;
            assert(fs[k] == d[k]);
            assert(fs[fs.len() - 1] == fs.last());
        }
        assert(d.push(fs.last()) =~= fs);
    }
}

proof fn lemma_append_new_fiches_has(xs: Seq<FicheView>, ys: Seq<FicheView>, id: Seq<char>)
    ensures
        has_fiche(append_new_fiches(xs, ys), id) == (has_fiche(xs, id) || has_fiche(ys, id)),
    decreases ys.len(),
{
    if ys.len() > 0 {
        let d = ys.drop_last();
        lemma_append_new_fiches_has(xs, d, id);
        let r = append_new_fiches(xs, d);
        if !has_fiche(r, ys.last().id) {
            let r2 = r.push(ys.last());
            if has_fiche(r2, id) && id != ys.last().id {
                let k = choose|k: int| 0 <= k < r2.len() && r2[k].id == id;
                assert(r[k] == r2[k]);
            }
            if has_fiche(r, id) {
                let k = choose|k: int| 0 <= k < r.len() && r[k].id == id;
                assert(r2[k] == r[k]);
            }
            assert(r2[r.len() as int] == ys.last());
        }
        if has_fiche(d, id) {
            let k = choose|k: int| 0 <= k < d.len() && d[k].id == id;
            assert(ys[k] == d[k]);
        }
        if has_fiche(ys, id) && id != ys.last().id {
            let k = choose|k: int| 0 <= k < ys.len() && ys[k].id == id;
            assert(k != ys.len() - 1);
            assert(d[k] == ys[k]);
        }
        assert(ys[ys.len() - 1] == ys.last());
    }
}

proof fn lemma_sorted_no_duplicates(s: Seq<Seq<char>>)
    requires
        sorted_texts(s),
    ensures
        s.no_duplicates(),
{
    assert forall|i: int, j: int| 0 <= i < s.len() && 0 <= j < s.len() && i != j implies s[i] != s[j] by {
        if i < j {
            lemma_text_lt_irreflexive(s[i]);
        } else {
            lemma_text_lt_irreflexive(s[j]);
        }
    }
}

/// A lineage written after a first chapter and read back hands the next chapter exactly what
/// the finished state would hand it directly.
pub proof fn law_lineage_roundtrip(chronicle: Seq<char>, s: WorldStateView)
    requires
        sorted_texts(s.flags),
        sorted_texts(s.heritage),
        distinct_fiches(s.fiches),
    ensures
        carry_of_lineage(merged_lineage(None, chronicle, s)) == carry_of(s),
{
    lemma_sorted_no_duplicates(s.flags);
    lemma_append_new_fresh(s.flags);
    lemma_insert_all_sorted(s.flags);
    lemma_insert_all_sorted(s.heritage);
    lemma_append_new_fiches_fresh(s.fiches);
}

/// A lineage grows: it keeps every chapter completed before and adds this one, keeps every
/// flag and fiche saved before and adds this chapter's, and otherwise holds this chapter's
/// state.
pub proof fn law_lineage_accumulates(
    prev: LineageView,
    chronicle: Seq<char>,
    s: WorldStateView,
    x: Seq<char>,
)
    ensures
        merged_lineage(Some(prev), chronicle, s).completed.contains(s.chapter),
        prev.completed.contains(x) ==> merged_lineage(Some(prev), chronicle, s).completed.contains(
            x,
        ),
        carry_of_lineage(merged_lineage(Some(prev), chronicle, s)).flags.contains(x) <==> (
        prev.flags.contains(x) || s.flags.contains(x)),
        has_fiche(merged_lineage(Some(prev), chronicle, s).fiches, x) <==> (has_fiche(prev.fiches, x)
            || has_fiche(s.fiches, x)),
        merged_lineage(Some(prev), chronicle, s).heir == s.heir,
        merged_lineage(Some(prev), chronicle, s).monnaies == s.monnaies,
        merged_lineage(Some(prev), chronicle, s).next_chapter == s.next_chapter,
{
    let c = prev.completed;
    if !c.contains(s.chapter) {
        assert(c.push(s.chapter)[c.len() as int] == s.chapter);
        if c.contains(x) {
            let k = choose|k: int| 0 <= k < c.len() && c[k] == x;
            assert(c.push(s.chapter)[k] == x);
        }
    }
    lemma_append_new_contains(prev.flags, s.flags, x);
    lemma_insert_all_contains(Seq::empty(), append_new(prev.flags, s.flags), x);
    lemma_append_new_fiches_has(prev.fiches, s.fiches, x);
}

/// The order of a chapter: briefing, then the choice of a place, the petitions each followed
/// by its aftermath, the set piece and its aftermath, the debrief, and the end.
pub open spec fn flows_to(a: Seq<char>, b: Seq<char>) -> bool {
    ||| a == b
    ||| a == "briefing"@ && (b == "lieu"@ || b == "petition"@ || b == "set_piece"@)
    ||| a == "lieu"@ && (b == "petition"@ || b == "set_piece"@)
    ||| a == "petition"@ && b == "aftermath"@
    ||| a == "aftermath"@ && (b == "petition"@ || b == "set_piece"@)
    ||| a == "set_piece"@ && b == "set_aftermath"@
    ||| a == "set_aftermath"@ && b == "debrief"@
    ||| a == "debrief"@ && b == "done"@
}

/// Every command keeps to the order of a chapter: a chapter never goes back.
pub proof fn law_chapter_flow(ir: Ir, s: WorldStateView, cmd: Command)
    ensures
        step_state(ir, s, cmd) is Ok ==> flows_to(s.mode, step_state(ir, s, cmd)->Ok_0.mode),
{
    lemma_mode_names();
}

/// A petition is only ever put to the player when it is open (its flags are met and the
/// chosen place lists it), and petitions come in their order, none of them twice.
pub proof fn law_petitions_open_and_in_order(ir: Ir, s: WorldStateView, cmd: Command)
    requires
        ir.chapter.petitions@.len() <= usize::MAX,
        step_state(ir, s, cmd) is Ok,
        step_state(ir, s, cmd)->Ok_0.mode == "petition"@,
        s.mode != "petition"@,
    ensures
        step_state(ir, s, cmd)->Ok_0.petition_i < ir.chapter.petitions@.len(),
        petition_open(
            ir,
            step_state(ir, s, cmd)->Ok_0,
            ir.chapter.petitions@[step_state(ir, s, cmd)->Ok_0.petition_i as int],
        ),
        s.mode == "aftermath"@ ==> step_state(ir, s, cmd)->Ok_0.petition_i > s.petition_i,
{
    lemma_mode_names();
    let next = step_state(ir, s, cmd)->Ok_0;
    assert(s.overlay is None);
    assert(cmd is Continue || cmd is Choose);
    let base = if cmd is Choose {
        let vis = crate::rules::visible_lieux(ir, s.flags);
        let l = ir.chapter.lieux_jouables@[vis[cmd->Choose_index as int] as int];
        let s1 = WorldStateView {
            lieu: Some(l.id@),
            flags: set_insert(s.flags, "lieu-"@ + l.id@),
            cursor: 0,
            ..s
        };
        WorldStateView { narrative: crate::rules::lieu_text(ir, s1, l), ..s1 }
    } else {
        s
    };
    let after = if s.mode == "aftermath"@ { Some(s.petition_i) } else { None };
    let v = visible_petitions(ir, base);
    lemma_indices_where(ir.chapter.petitions@.len(), crate::rules::petition_open_at(ir, base));
    lemma_first_after(v, after);
    let i = first_after(v, after)->0;
    let k = choose|k: int| 0 <= k < v.len() && v[k] == i;
    assert(v[k] == i);
    assert(petition_open(ir, base, ir.chapter.petitions@[i as int]));
}

/// The ids of the entries of a list.
pub open spec fn list_ids(l: Seq<(Seq<char>, Seq<char>)>) -> Seq<Seq<char>> {
    l.map_values(|e: (Seq<char>, Seq<char>)| e.0)
}

/// The modes that ask the player to choose from a list.
pub open spec fn list_mode(m: Seq<char>) -> bool {
    m == "lieu"@ || m == "petition"@ || m == "set_piece"@
}

/// A screen that asks for a choice lists exactly the ids that `choice_ids` offers, in the
/// same order, with the cursor on the selected entry.
pub proof fn law_screen_lists_what_is_offered(ir: Ir, s: WorldStateView)
    requires
        s.overlay is None,
        list_mode(s.mode),
    ensures
        screen(ir, s) is Ok,
        list_ids(screen(ir, s)->Ok_0.slots.list) == offered_ids(ir, s),
        screen(ir, s)->Ok_0.slots.selected == s.cursor,
{
    lemma_mode_names();
    let f = screen(ir, s)->Ok_0;
    if s.mode == "lieu"@ {
        assert(list_ids(lieu_list(ir, s)) =~= offered_ids(ir, s));
    } else if s.mode == "petition"@ {
        if s.petition_i < ir.chapter.petitions@.len() {
            let cs = ir.chapter.petitions@[s.petition_i as int].choices@;
            assert(list_ids(choice_list(cs, s.flags)) =~= offered_ids(ir, s));
        } else {
            assert(list_ids(petition_list(ir, s)) =~= offered_ids(ir, s));
        }
    } else {
        let cs = ir.chapter.set_piece.choices@;
        assert(list_ids(choice_list(cs, s.flags)) =~= offered_ids(ir, s));
    }
}

/// `Choose { index }` on a petition or the set piece picks the choice listed at `index`.
pub proof fn law_choose_picks_the_listed_choice(ir: Ir, s: WorldStateView, index: u8)
    requires
        s.overlay is None,
        s.mode == "petition"@ || s.mode == "set_piece"@,
        (index as int) < offered_ids(ir, s).len(),
    ensures
        chosen(ir, s, index as int) is Some,
        chosen(ir, s, index as int)->0.id@ == offered_ids(ir, s)[index as int],
{
    lemma_mode_names();
}

proof fn lemma_verb_names()
    ensures
        distinct_names(
            seq!["continue"@, "close"@, "choose"@, "up"@, "down"@, "notes"@, "help"@, "quit"@],
        ),
{
    reveal_strlit("continue");
    reveal_strlit("close");
    reveal_strlit("choose");
    reveal_strlit("up");
    reveal_strlit("down");
    reveal_strlit("notes");
    reveal_strlit("help");
    reveal_strlit("quit");
    let ns = seq!["continue"@, "close"@, "choose"@, "up"@, "down"@, "notes"@, "help"@, "quit"@];
    assert forall|i: int, j: int| 0 <= i < j < ns.len() implies #[trigger] ns[i] != #[trigger] ns[j] by {
        assert(ns[i].len() != ns[j].len() || ns[i][0] != ns[j][0] || ns[i][1] != ns[j][1]);
    }
}

/// Enter does what the screen's own keys say: on a page it continues, on an overlay it
/// closes it, and on a list it chooses the entry under the cursor.
pub proof fn law_enter_follows_the_screen(ir: Ir, s: WorldStateView)
    requires
        screen(ir, s) is Ok,
    ensures
        s.overlay is Some ==> key_command(screen(ir, s)->Ok_0, Key::Enter, false) == Some(
            Command::Close,
        ),
        s.overlay is None && list_mode(s.mode) ==> key_command(
            screen(ir, s)->Ok_0,
            Key::Enter,
            false,
        ) == Some(
            Command::Choose {
                index: if s.cursor < 255 {
                    s.cursor as u8
                } else {
                    255
                },
            },
        ),
        s.overlay is None && !list_mode(s.mode) ==> key_command(
            screen(ir, s)->Ok_0,
            Key::Enter,
            false,
        ) == Some(Command::Continue),
{
    lemma_mode_names();
    lemma_verb_names();
    let f = screen(ir, s)->Ok_0;
    let vs = f.verbs;
    assert(global_verbs()[0].id == "notes"@);
    if s.overlay is Some {
        assert(vs[0].id == "close"@ && vs[0].enabled);
        assert forall|i: int| 0 <= i < vs.len() implies (#[trigger] vs[i]).id != "continue"@ by {
            if i > 0 {
                assert(vs[i] == global_verbs()[i - 1]);
            }
        }
    } else if list_mode(s.mode) {
        assert(vs[2].id == "choose"@ && vs[2].enabled);
        assert forall|i: int| 0 <= i < vs.len() implies (#[trigger] vs[i]).id != "continue"@
            && vs[i].id != "close"@ by {
            if i > 2 {
                assert(vs[i] == global_verbs()[i - 3]);
            }
        }
    } else {
        assert(vs[0].id == "continue"@ && vs[0].enabled);
    }
}

proof fn lemma_clean_order_prefix(m: Seq<(Seq<char>, Ir)>, ord: Seq<Seq<char>>, i: int)
    requires
        keys_sorted(m),
        lint_spec(m) is Ok,
        follows_links(m, ord),
        ord.len() > 0,
        map_get(m, ord[0]) is Some,
        0 <= i < ord.len(),
    ensures
        map_get(m, ord[i]) is Some,
    decreases i,
{
    if i > 0 {
        lemma_clean_order_prefix(m, ord, i - 1);
        let x = ord[i - 1];
        assert(next_of(m, x) == Some(ord[i]));
        lemma_map_get_some_key(m, x);
        let j = choose|j: int| 0 <= j < m.len() && m[j].0 == x;
        crate::strmap::lemma_map_get_at(m, x, j);
        law_lint_accepts_closed_campaigns(m);
        assert(m[j].1.chapter.next is Some);
    }
}

/// When `lint` passes and the entry is a chapter, the play order names chapters only.
pub proof fn law_clean_campaign_plays_chapters(m: Seq<(Seq<char>, Ir)>, entry: Seq<char>)
    requires
        keys_sorted(m),
        lint_spec(m) is Ok,
        map_get(m, entry) is Some,
    ensures
        forall|i: int|
            0 <= i < campaign_order(m, entry).len() ==> map_get(
                m,
                #[trigger] campaign_order(m, entry)[i],
            ) is Some,
{
    law_order_follows_next(m, entry);
    let ord = campaign_order(m, entry);
    assert forall|i: int| 0 <= i < ord.len() implies map_get(m, #[trigger] ord[i]) is Some by {
        lemma_clean_order_prefix(m, ord, i);
    }
}

// ---------------------------------------------------------------- carried money

proof fn lemma_map_insert_get<V>(m: Seq<(Seq<char>, V)>, k: Seq<char>, v: V, x: Seq<char>)
    ensures
        map_get(crate::strmap::map_insert(m, k, v), x) == if x == k {
            Some(v)
        } else {
            map_get(m, x)
        },
    decreases m.len(),
{
    let r = crate::strmap::map_insert(m, k, v);
    if m.len() == 0 {
        assert(r.len() == 1 && r[0] == (k, v));
        assert(r.skip(1) =~= m);
    } else if m[0].0 == k {
        assert(r[0] == (k, v));
        assert(r.skip(1) =~= m.skip(1));
    } else if crate::text::text_lt(k, m[0].0) {
        assert(r[0] == (k, v));
        assert(r.skip(1) =~= m);
    } else {
        lemma_map_insert_get(m.skip(1), k, v, x);
        assert(r[0] == m[0]);
        assert(r.skip(1) =~= crate::strmap::map_insert(m.skip(1), k, v));
    }
}

proof fn lemma_map_put_get<V>(m: Seq<(Seq<char>, V)>, k: Seq<char>, v: V, x: Seq<char>)
    ensures
        map_get(map_put(m, k, v), x) == if x == k && map_get(m, k) is Some {
            Some(v)
        } else {
            map_get(m, x)
        },
    decreases m.len(),
{
    if m.len() > 0 {
        lemma_map_put_get(m.skip(1), k, v, x);
        let r = map_put(m, k, v);
        assert(r.skip(1) =~= map_put(m.skip(1), k, v));
    }
}

proof fn lemma_start_money_holds(ir: Ir, n: nat, j: int)
    requires
        n <= ir.chapter.monnaies@.len(),
        0 <= j < n,
    ensures
        map_get(start_money(ir, n), ir.chapter.monnaies@[j].id@) is Some,
    decreases n,
{
    let k = ir.chapter.monnaies@[j].id@;
    let c = ir.chapter.monnaies@[n - 1];
    lemma_map_insert_get(start_money(ir, (n - 1) as nat), c.id@, c.start, k);
    if j < n - 1 {
        lemma_start_money_holds(ir, (n - 1) as nat, j);
    }
}

proof fn lemma_carried_amount(m: Seq<(Seq<char>, i32)>, carried: Seq<(Seq<char>, i32)>, i: int)
    requires
        keys_sorted(carried),
        0 <= i < carried.len(),
        map_get(m, carried[i].0) is Some,
    ensures
        map_get(carried_money(m, carried), carried[i].0) == Some(carried[i].1),
    decreases carried.len(),
{
    let k = carried[i].0;
    let d = carried.drop_last();
    let last = carried.last();
    lemma_carried_keys_kept(m, d, k);
    if i == carried.len() - 1 {
        lemma_map_put_get(carried_money(m, d), last.0, last.1, k);
    } else {
        assert(keys_sorted(d)) by {
            assert forall|a: int, b: int| 0 <= a < b < d.len() implies crate::text::text_lt(
                #[trigger] d[a].0,
                #[trigger] d[b].0,
            ) by {
                assert(d[a] == carried[a] && d[b] == carried[b]);
            }
        }
        assert(d[i] == carried[i]);
        lemma_carried_amount(m, d, i);
        assert(crate::text::text_lt(carried[i].0, carried[carried.len() - 1].0));
        lemma_text_lt_irreflexive(k);
        assert(last.0 != k);
        lemma_map_put_get(carried_money(m, d), last.0, last.1, k);
    }
}

proof fn lemma_carried_keys_kept(m: Seq<(Seq<char>, i32)>, carried: Seq<(Seq<char>, i32)>, k: Seq<char>)
    requires
        map_get(m, k) is Some,
    ensures
        map_get(carried_money(m, carried), k) is Some,
    decreases carried.len(),
{
    if carried.len() > 0 {
        lemma_carried_keys_kept(m, carried.drop_last(), k);
        lemma_map_put_get(
            carried_money(m, carried.drop_last()),
            carried.last().0,
            carried.last().1,
            k,
        );
    }
}

/// A chapter started from a carry holds, for each of its currencies that the carry holds,
/// exactly the carried amount, whatever it is (zero included): the previous chapter's money
/// replaces the chapter's start.
pub proof fn law_boot_carries_every_amount(ir: Ir, c: CarryView, i: int, j: int)
    requires
        keys_sorted(c.monnaies),
        0 <= i < c.monnaies.len(),
        0 <= j < ir.chapter.monnaies@.len(),
        ir.chapter.monnaies@[j].id@ == c.monnaies[i].0,
    ensures
        map_get(boot_state(ir, Some(c)).monnaies, c.monnaies[i].0) == Some(c.monnaies[i].1),
{
    let n = ir.chapter.monnaies@.len();
    lemma_start_money_holds(ir, n, j);
    lemma_carried_amount(start_money(ir, n), c.monnaies, i);
}

// ---------------------------------------------------------------- saved relics

/// Whatever was saved before, a lineage saves the relics, notes, money, heir and next chapter
/// of the state just finished, and reading it back hands on exactly those relics.
pub proof fn law_lineage_saves_the_last_state(
    prev: Option<LineageView>,
    chronicle: Seq<char>,
    s: WorldStateView,
)
    requires
        sorted_texts(s.heritage),
    ensures
        merged_lineage(prev, chronicle, s).heritage == s.heritage,
        merged_lineage(prev, chronicle, s).notes == s.notes,
        merged_lineage(prev, chronicle, s).monnaies == s.monnaies,
        merged_lineage(prev, chronicle, s).heir == s.heir,
        merged_lineage(prev, chronicle, s).next_chapter == s.next_chapter,
        carry_of_lineage(merged_lineage(prev, chronicle, s)).heritage == s.heritage,
        carry_of_lineage(merged_lineage(prev, chronicle, s)).notes == s.notes,
        carry_of_lineage(merged_lineage(prev, chronicle, s)).monnaies == s.monnaies,
{
    lemma_insert_all_sorted(s.heritage);
}

// ---------------------------------------------------------------- fiches

/// Debrief fiche `f` is granted to `flags`: its `when_flag`, if any, is held, and its
/// `when_not_flag`, if any, is not.
pub open spec fn fiche_granted(flags: Seq<Seq<char>>, f: crate::ir::FicheIr) -> bool {
    &&& (f.when_flag matches Some(w) ==> flags.contains(w@))
    &&& (f.when_not_flag matches Some(w) ==> !flags.contains(w@))
}

/// The view of debrief fiche `j`.
pub open spec fn fiche_view_at(ir: Ir, j: int) -> FicheView {
    FicheView {
        id: ir.chapter.debrief.fiches@[j].id@,
        nom: ir.chapter.debrief.fiches@[j].nom@,
        texte: ir.chapter.debrief.fiches@[j].texte@,
    }
}

/// `x` is one of the first `n` debrief fiches, one that `flags` grants.
pub open spec fn granted_fiche(ir: Ir, flags: Seq<Seq<char>>, n: int, x: FicheView) -> bool {
    exists|j: int|
        0 <= j < n && fiche_granted(flags, ir.chapter.debrief.fiches@[j]) && #[trigger] fiche_view_at(
            ir,
            j,
        ) == x
}

proof fn lemma_earned(ir: Ir, flags: Seq<Seq<char>>, n: nat)
    requires
        n <= ir.chapter.debrief.fiches@.len(),
    ensures
        forall|k: int|
            0 <= k < crate::rules::earned_fiches(ir, flags, n).len() ==> granted_fiche(
                ir,
                flags,
                n as int,
                #[trigger] crate::rules::earned_fiches(ir, flags, n)[k],
            ),
        forall|j: int|
            0 <= j < n && fiche_granted(flags, #[trigger] ir.chapter.debrief.fiches@[j])
                ==> crate::rules::earned_fiches(ir, flags, n).contains(fiche_view_at(ir, j)),
    decreases n,
{
    if n > 0 {
        lemma_earned(ir, flags, (n - 1) as nat);
        let fs = ir.chapter.debrief.fiches@;
        let r0 = crate::rules::earned_fiches(ir, flags, (n - 1) as nat);
        let r = crate::rules::earned_fiches(ir, flags, n);
        let f = fs[n - 1];
        assert(crate::rules::flag_ok(flags, f.when_flag, f.when_not_flag) == fiche_granted(flags, f));
        assert forall|k: int| 0 <= k < r.len() implies granted_fiche(ir, flags, n as int, #[trigger] r[k]) by {
            if k < r0.len() {
                assert(r[k] == r0[k]);
                assert(granted_fiche(ir, flags, (n - 1) as int, r0[k]));
                let j = choose|j: int|
                    0 <= j < n - 1 && fiche_granted(flags, fs[j]) && #[trigger] fiche_view_at(ir, j)
                        == r0[k];
                assert(fiche_view_at(ir, j) == r[k]);
            } else {
                assert(r[k] == fiche_view_at(ir, n - 1));
            }
        }
        assert forall|j: int| 0 <= j < n && fiche_granted(flags, #[trigger] fs[j]) implies r.contains(
            fiche_view_at(ir, j),
        ) by {
            if j < n - 1 {
                let x = fiche_view_at(ir, j);
                assert(r0.contains(x));
                let k = choose|k: int| 0 <= k < r0.len() && r0[k] == x;
                assert(r[k] == x);
            } else {
                assert(r[r.len() - 1] == fiche_view_at(ir, j));
            }
        }
    }
}

/// Entering the debrief grants exactly the debrief fiches whose gates the flags meet: each
/// granted fiche is one whose `when_flag` (if any) is held and whose `when_not_flag` (if any)
/// is not, and every such fiche is granted.
pub proof fn law_debrief_grants_gated_fiches(ir: Ir, s: WorldStateView)
    requires
        s.overlay is None,
        s.mode == "set_aftermath"@,
    ensures
        step_state(ir, s, Command::Continue) is Ok,
        forall|k: int|
            0 <= k < step_state(ir, s, Command::Continue)->Ok_0.fiches.len() ==> granted_fiche(
                ir,
                s.flags,
                ir.chapter.debrief.fiches@.len() as int,
                #[trigger] step_state(ir, s, Command::Continue)->Ok_0.fiches[k],
            ),
        forall|j: int|
            0 <= j < ir.chapter.debrief.fiches@.len() && fiche_granted(
                s.flags,
                #[trigger] ir.chapter.debrief.fiches@[j],
            ) ==> step_state(ir, s, Command::Continue)->Ok_0.fiches.contains(fiche_view_at(ir, j)),
{
    lemma_mode_names();
    lemma_earned(ir, s.flags, ir.chapter.debrief.fiches@.len());
    assert(step_state(ir, s, Command::Continue)->Ok_0.fiches == crate::rules::earned_fiches(
        ir,
        s.flags,
        ir.chapter.debrief.fiches@.len(),
    ));
}

// ---------------------------------------------------------------- places

/// On the screen where a place is picked, each entry of the list is an open place: its id,
/// and as its name the place's `nom`; the place's `when_flag` (if any) is held and its
/// `when_not_flag` (if any) is not.
pub proof fn law_place_list_shows_names(ir: Ir, s: WorldStateView)
    requires
        s.overlay is None,
        s.mode == "lieu"@,
        ir.chapter.lieux_jouables@.len() <= usize::MAX,
    ensures
        screen(ir, s) is Ok,
        forall|k: int|
            0 <= k < screen(ir, s)->Ok_0.slots.list.len() ==> exists|j: int|
                0 <= j < ir.chapter.lieux_jouables@.len() && #[trigger] screen(ir, s)->Ok_0.slots.list[k]
                    == (ir.chapter.lieux_jouables@[j].id@, ir.chapter.lieux_jouables@[j].nom@) && (
                ir.chapter.lieux_jouables@[j].when_flag matches Some(w) ==> s.flags.contains(w@))
                    && (ir.chapter.lieux_jouables@[j].when_not_flag matches Some(w)
                    ==> !s.flags.contains(w@)),
{
    lemma_mode_names();
    let ls = ir.chapter.lieux_jouables@;
    let vis = crate::rules::visible_lieux(ir, s.flags);
    lemma_indices_where(ls.len(), crate::rules::lieu_open(ir, s.flags));
    let l = screen(ir, s)->Ok_0.slots.list;
    assert(l == lieu_list(ir, s));
    assert forall|k: int| 0 <= k < l.len() implies exists|j: int|
        0 <= j < ls.len() && #[trigger] l[k] == (ls[j].id@, ls[j].nom@) && (ls[j].when_flag matches Some(
            w,
        ) ==> s.flags.contains(w@)) && (ls[j].when_not_flag matches Some(w) ==> !s.flags.contains(
            w@,
        )) by {
        let j = vis[k] as int;
        assert(crate::rules::lieu_open(ir, s.flags)(j));
        assert(l[k] == (ls[j].id@, ls[j].nom@));
    }
}

} // verus!
