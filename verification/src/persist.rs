//! The lineage that a campaign keeps between chapters, as values.
use vstd::prelude::*;

use crate::ir::opt_view;
use crate::state::{
    copy_fiches, copy_opt, copy_strings, fiche_views, Carry, CarryView, FicheGot, FicheView,
    HeirState, HeirView, WorldState,
};
use crate::strmap::StrMap;
use crate::strset::{insert_all, texts, StrSet};
use crate::text::{chars_of, owned, push_str, str_eq};

verus! {

/// The schema tag of a saved lineage.
pub const SAVE_SCHEMA: &'static str = "chronicle.save/v1";

/// What is saved of a campaign between chapters.
pub struct LineageSave {
    pub schema: String,
    pub chronicle: String,
    pub completed: Vec<String>,
    pub next_chapter: Option<String>,
    pub heir: HeirState,
    pub heritage: Vec<String>,
    pub flags: Vec<String>,
    pub monnaies: StrMap<i32>,
    pub notes: Vec<String>,
    pub fiches: Vec<FicheGot>,
}

pub struct LineageView {
    pub schema: Seq<char>,
    pub chronicle: Seq<char>,
    pub completed: Seq<Seq<char>>,
    pub next_chapter: Option<Seq<char>>,
    pub heir: HeirView,
    pub heritage: Seq<Seq<char>>,
    pub flags: Seq<Seq<char>>,
    pub monnaies: Seq<(Seq<char>, i32)>,
    pub notes: Seq<Seq<char>>,
    pub fiches: Seq<FicheView>,
}

impl View for LineageSave {
    type V = LineageView;

    open spec fn view(&self) -> LineageView {
        LineageView {
            schema: self.schema@,
            chronicle: self.chronicle@,
            completed: texts(self.completed@),
            next_chapter: opt_view(self.next_chapter),
            heir: self.heir@,
            heritage: texts(self.heritage@),
            flags: texts(self.flags@),
            monnaies: self.monnaies@,
            notes: texts(self.notes@),
            fiches: fiche_views(self.fiches@),
        }
    }
}

/// `xs` followed by each text of `ys` that it does not hold yet, in order.
pub open spec fn append_new(xs: Seq<Seq<char>>, ys: Seq<Seq<char>>) -> Seq<Seq<char>>
    decreases ys.len(),
{
    if ys.len() == 0 {
        xs
    } else {
        let r = append_new(xs, ys.drop_last());
        if r.contains(ys.last()) {
            r
        } else {
            r.push(ys.last())
        }
    }
}

/// Some fiche of `fs` has the id `id`.
pub open spec fn has_fiche(fs: Seq<FicheView>, id: Seq<char>) -> bool {
    exists|i: int| 0 <= i < fs.len() && fs[i].id == id
}

/// `xs` followed by each fiche of `ys` whose id it does not hold yet, in order.
pub open spec fn append_new_fiches(xs: Seq<FicheView>, ys: Seq<FicheView>) -> Seq<FicheView>
    decreases ys.len(),
{
    if ys.len() == 0 {
        xs
    } else {
        let r = append_new_fiches(xs, ys.drop_last());
        if has_fiche(r, ys.last().id) {
            r
        } else {
            r.push(ys.last())
        }
    }
}

/// The lineage after a chapter: what was saved before, plus this chapter, its flags and fiches;
/// the rest taken from the state.
pub open spec fn merged_lineage(
    prev: Option<LineageView>,
    chronicle: Seq<char>,
    s: crate::state::WorldStateView,
) -> LineageView {
    let completed0 = match prev {
        Some(p) => p.completed,
        None => Seq::empty(),
    };
    let flags0 = match prev {
        Some(p) => p.flags,
        None => Seq::empty(),
    };
    let fiches0 = match prev {
        Some(p) => p.fiches,
        None => Seq::empty(),
    };
    LineageView {
        schema: SAVE_SCHEMA@,
        chronicle: chronicle,
        completed: if completed0.contains(s.chapter) {
            completed0
        } else {
            completed0.push(s.chapter)
        },
        next_chapter: s.next_chapter,
        heir: s.heir,
        heritage: s.heritage,
        flags: append_new(flags0, s.flags),
        monnaies: s.monnaies,
        notes: s.notes,
        fiches: append_new_fiches(fiches0, s.fiches),
    }
}

pub open spec fn lineage_opt_view(o: Option<&LineageSave>) -> Option<LineageView> {
    match o {
        Some(p) => Some(p@),
        None => None,
    }
}

fn push_new_strings(xs: &mut Vec<String>, ys: &Vec<String>)
    ensures
        texts(final(xs)@) == append_new(texts(old(xs)@), texts(ys@)),
{
    let ghost x0 = texts(xs@);
    let mut i: usize = 0;
    assert(texts(ys@).take(0) =~= Seq::<Seq<char>>::empty());
    while i < ys.len()
        invariant
            i <= ys.len(),
            texts(xs@) == append_new(x0, texts(ys@).take(i as int)),
        decreases ys.len() - i,
    {
        assert(texts(ys@).take(i + 1).drop_last() =~= texts(ys@).take(i as int));
        assert(texts(ys@).take(i + 1).last() == ys@[i as int]@);
        if !crate::engine::strings_contain(xs, ys[i].as_str()) {
            let ghost prev = texts(xs@);
            xs.push(ys[i].clone());
            assert(texts(xs@) =~= prev.push(ys@[i as int]@));
        }
        i += 1;
    }
    assert(texts(ys@).take(i as int) =~= texts(ys@));
}

fn fiches_have(fs: &Vec<FicheGot>, id: &str) -> (r: bool)
    ensures
        r == has_fiche(fiche_views(fs@), id@),
{
    let mut i: usize = 0;
    while i < fs.len()
        invariant
            i <= fs.len(),
            forall|k: int| 0 <= k < i ==> fiche_views(fs@)[k].id != id@,
        decreases fs.len() - i,
    {
        if str_eq(fs[i].id.as_str(), id) {
            assert(fiche_views(fs@)[i as int].id == id@);
            return true;
        }
        i += 1;
    }
    false
}

fn push_new_fiches(xs: &mut Vec<FicheGot>, ys: &Vec<FicheGot>)
    ensures
        fiche_views(final(xs)@) == append_new_fiches(fiche_views(old(xs)@), fiche_views(ys@)),
{
    let ghost x0 = fiche_views(xs@);
    let mut i: usize = 0;
    assert(fiche_views(ys@).take(0) =~= Seq::<FicheView>::empty());
    while i < ys.len()
        invariant
            i <= ys.len(),
            fiche_views(xs@) == append_new_fiches(x0, fiche_views(ys@).take(i as int)),
        decreases ys.len() - i,
    {
        assert(fiche_views(ys@).take(i + 1).drop_last() =~= fiche_views(ys@).take(i as int));
        assert(fiche_views(ys@).take(i + 1).last() == ys@[i as int]@);
        if !fiches_have(xs, ys[i].id.as_str()) {
            let ghost prev = fiche_views(xs@);
            xs.push(ys[i].copy());
            assert(fiche_views(xs@) =~= prev.push(ys@[i as int]@));
        }
        i += 1;
    }
    assert(fiche_views(ys@).take(i as int) =~= fiche_views(ys@));
}

/// The lineage to save after `state`, given what was saved before.
pub fn merge_lineage(prev: Option<&LineageSave>, chronicle: &str, state: &WorldState) -> (r: LineageSave)
    ensures
        r@ == merged_lineage(lineage_opt_view(prev), chronicle@, state@),
{
    let mut completed: Vec<String> = match prev {
        Some(p) => copy_strings(&p.completed),
        None => Vec::new(),
    };
    let mut flags: Vec<String> = match prev {
        Some(p) => copy_strings(&p.flags),
        None => Vec::new(),
    };
    let mut fiches: Vec<FicheGot> = match prev {
        Some(p) => copy_fiches(&p.fiches),
        None => Vec::new(),
    };
    assert(prev is None ==> texts(completed@) =~= Seq::<Seq<char>>::empty());
    assert(prev is None ==> texts(flags@) =~= Seq::<Seq<char>>::empty());
    assert(prev is None ==> fiche_views(fiches@) =~= Seq::<FicheView>::empty());
    if !crate::engine::strings_contain(&completed, state.chapter.as_str()) {
        let ghost before = texts(completed@);
        completed.push(state.chapter.clone());
        assert(texts(completed@) =~= before.push(state.chapter@));
    }
    push_new_strings(&mut flags, &state.flags.to_vec());
    push_new_fiches(&mut fiches, &state.fiches);
    LineageSave {
        schema: owned(SAVE_SCHEMA),
        chronicle: owned(chronicle),
        completed,
        next_chapter: copy_opt(&state.next_chapter),
        heir: state.heir.copy(),
        heritage: state.heritage.to_vec(),
        flags,
        monnaies: state.monnaies.copy(),
        notes: copy_strings(&state.notes),
        fiches,
    }
}

/// What a saved lineage hands to the next chapter.
pub open spec fn carry_of_lineage(l: LineageView) -> CarryView {
    CarryView {
        heir: Some(l.heir),
        heritage: insert_all(Seq::empty(), l.heritage),
        flags: insert_all(Seq::empty(), l.flags),
        notes: l.notes,
        monnaies: l.monnaies,
        fiches: l.fiches,
    }
}

/// What a saved lineage hands to the next chapter.
pub fn to_carry(save: &LineageSave) -> (r: Carry)
    ensures
        r@ == carry_of_lineage(save@),
{
    Carry {
        heir: Some(save.heir.copy()),
        heritage: StrSet::from_vec(&save.heritage),
        flags: StrSet::from_vec(&save.flags),
        notes: copy_strings(&save.notes),
        monnaies: save.monnaies.copy(),
        fiches: copy_fiches(&save.fiches),
    }
}

/// `b` appended to the path `a` as a path joins them: `b` itself when it is absolute (starts
/// with `/`), else `a`, a separator unless `a` is empty or already ends with one, and `b`.
pub open spec fn path_join(a: Seq<char>, b: Seq<char>) -> Seq<char> {
    if b.len() > 0 && b[0] == '/' {
        b
    } else if a.len() == 0 || a.last() == '/' {
        a + b
    } else {
        a + "/"@ + b
    }
}

/// Joins two paths held as text.
fn join_path(a: &str, b: &str) -> (r: String)
    ensures
        r@ == path_join(a@, b@),
{
    let ca = chars_of(a);
    let cb = chars_of(b);
    if cb.len() > 0 && cb[0] == '/' {
        return owned(b);
    }
    let mut r = owned(a);
    if !(ca.len() == 0 || ca[ca.len() - 1] == '/') {
        push_str(&mut r, "/");
    }
    push_str(&mut r, b);
    r
}

/// The directory that lineages are kept under: the one given, else `instance/chronicle`.
pub fn instance_dir(explicit: Option<String>) -> (r: String)
    ensures
        r@ == match explicit {
            Some(d) => d@,
            None => "instance/chronicle"@,
        },
{
    match explicit {
        Some(d) => d,
        None => owned("instance/chronicle"),
    }
}

/// Where the lineage of a chronicle is saved: `<instance>/<chronicle>/lineage.json`.
pub fn save_path(instance: &str, chronicle: &str) -> (r: String)
    ensures
        r@ == path_join(path_join(instance@, chronicle@), "lineage.json"@),
{
    let dir = join_path(instance, chronicle);
    join_path(dir.as_str(), "lineage.json")
}

} // verus!
