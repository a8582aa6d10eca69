use vstd::prelude::*;

use crate::ir::opt_view;
use crate::strmap::StrMap;
use crate::strset::{texts, StrSet};

verus! {

/// Most notes a carnet holds; later notes are dropped.
pub const NOTES_CAP: usize = 26;

pub struct HeirState {
    pub id: String,
    pub name: String,
    pub title: String,
}

pub struct HeirView {
    pub id: Seq<char>,
    pub name: Seq<char>,
    pub title: Seq<char>,
}

impl View for HeirState {
    type V = HeirView;

    open spec fn view(&self) -> HeirView {
        HeirView { id: self.id@, name: self.name@, title: self.title@ }
    }
}

impl HeirState {
    pub fn copy(&self) -> (r: HeirState)
        ensures
            r@ == self@,
    {
        HeirState { id: self.id.clone(), name: self.name.clone(), title: self.title.clone() }
    }
}

/// A fiche earned at a debrief.
pub struct FicheGot {
    pub id: String,
    pub nom: String,
    pub texte: String,
}

pub struct FicheView {
    pub id: Seq<char>,
    pub nom: Seq<char>,
    pub texte: Seq<char>,
}

impl View for FicheGot {
    type V = FicheView;

    open spec fn view(&self) -> FicheView {
        FicheView { id: self.id@, nom: self.nom@, texte: self.texte@ }
    }
}

impl FicheGot {
    pub fn copy(&self) -> (r: FicheGot)
        ensures
            r@ == self@,
    {
        FicheGot { id: self.id.clone(), nom: self.nom.clone(), texte: self.texte.clone() }
    }
}

pub open spec fn fiche_views(v: Seq<FicheGot>) -> Seq<FicheView> {
    v.map_values(|f: FicheGot| f@)
}

/// Copies of the fiches.
pub fn copy_fiches(v: &Vec<FicheGot>) -> (r: Vec<FicheGot>)
    ensures
        fiche_views(r@) == fiche_views(v@),
{
    let mut out: Vec<FicheGot> = Vec::new();
    let mut i: usize = 0;
    while i < v.len()
        invariant
            i <= v.len(),
            out.len() == i,
            fiche_views(out@) == fiche_views(v@).take(i as int),
        decreases v.len() - i,
    {
        let ghost prev = out@;
        out.push(v[i].copy());
        assert forall|k: int| 0 <= k < i + 1 implies #[trigger] fiche_views(out@)[k] == fiche_views(
            v@,
        ).take(i + 1)[k] by {
            if k < i {
                assert(out@[k] == prev[k]);
                assert(fiche_views(prev)[k] == prev[k]@);
            }
        }
        assert(fiche_views(out@) =~= fiche_views(v@).take(i + 1));
        i += 1;
    }
    assert(fiche_views(v@).take(i as int) =~= fiche_views(v@));
    out
}

/// Copies of the strings.
pub fn copy_strings(v: &Vec<String>) -> (r: Vec<String>)
    ensures
        texts(r@) == texts(v@),
{
    let mut out: Vec<String> = Vec::new();
    let mut i: usize = 0;
    while i < v.len()
        invariant
            i <= v.len(),
            out.len() == i,
            texts(out@) == texts(v@).take(i as int),
        decreases v.len() - i,
    {
        let ghost prev = out@;
        let c = v[i].clone();
        out.push(c);
        assert forall|k: int| 0 <= k < i + 1 implies #[trigger] texts(out@)[k] == texts(v@).take(
            i + 1,
        )[k] by {
            if k < i {
                assert(out@[k] == prev[k]);
                assert(texts(prev)[k] == prev[k]@);
            }
        }
        assert(texts(out@) =~= texts(v@).take(i + 1));
        i += 1;
    }
    assert(texts(v@).take(i as int) =~= texts(v@));
    out
}

/// A copy of an optional string.
pub fn copy_opt(o: &Option<String>) -> (r: Option<String>)
    ensures
        opt_view(r) == opt_view(*o),
{
    match o {
        Some(s) => Some(s.clone()),
        None => None,
    }
}

/// What one chapter hands to the next.
pub struct Carry {
    pub heir: Option<HeirState>,
    pub heritage: StrSet,
    pub flags: StrSet,
    pub notes: Vec<String>,
    pub monnaies: StrMap<i32>,
    pub fiches: Vec<FicheGot>,
}

pub struct CarryView {
    pub heir: Option<HeirView>,
    pub heritage: Seq<Seq<char>>,
    pub flags: Seq<Seq<char>>,
    pub notes: Seq<Seq<char>>,
    pub monnaies: Seq<(Seq<char>, i32)>,
    pub fiches: Seq<FicheView>,
}

pub open spec fn opt_heir_view(o: Option<HeirState>) -> Option<HeirView> {
    match o {
        Some(h) => Some(h@),
        None => None,
    }
}

impl View for Carry {
    type V = CarryView;

    open spec fn view(&self) -> CarryView {
        CarryView {
            heir: opt_heir_view(self.heir),
            heritage: self.heritage@,
            flags: self.flags@,
            notes: texts(self.notes@),
            monnaies: self.monnaies@,
            fiches: fiche_views(self.fiches@),
        }
    }
}

/// Where the player stands in a chapter.
pub struct WorldState {
    pub chapter: String,
    pub mode: String,
    pub petition_i: usize,
    pub cursor: usize,
    pub monnaies: StrMap<i32>,
    pub flags: StrSet,
    pub notes: Vec<String>,
    pub heritage: StrSet,
    pub fiches: Vec<FicheGot>,
    pub heir: HeirState,
    pub narrative: String,
    pub last_choice: Option<String>,
    pub next_chapter: Option<String>,
    pub overlay: Option<String>,
    pub lieu: Option<String>,
}

pub struct WorldStateView {
    pub chapter: Seq<char>,
    pub mode: Seq<char>,
    pub petition_i: usize,
    pub cursor: usize,
    pub monnaies: Seq<(Seq<char>, i32)>,
    pub flags: Seq<Seq<char>>,
    pub notes: Seq<Seq<char>>,
    pub heritage: Seq<Seq<char>>,
    pub fiches: Seq<FicheView>,
    pub heir: HeirView,
    pub narrative: Seq<char>,
    pub last_choice: Option<Seq<char>>,
    pub next_chapter: Option<Seq<char>>,
    pub overlay: Option<Seq<char>>,
    pub lieu: Option<Seq<char>>,
}

impl View for WorldState {
    type V = WorldStateView;

    open spec fn view(&self) -> WorldStateView {
        WorldStateView {
            chapter: self.chapter@,
            mode: self.mode@,
            petition_i: self.petition_i,
            cursor: self.cursor,
            monnaies: self.monnaies@,
            flags: self.flags@,
            notes: texts(self.notes@),
            heritage: self.heritage@,
            fiches: fiche_views(self.fiches@),
            heir: self.heir@,
            narrative: self.narrative@,
            last_choice: opt_view(self.last_choice),
            next_chapter: opt_view(self.next_chapter),
            overlay: opt_view(self.overlay),
            lieu: opt_view(self.lieu),
        }
    }
}

/// The mode that the screen shows: an open overlay, else the chapter mode.
pub open spec fn play_mode_of(s: WorldStateView) -> Seq<char> {
    match s.overlay {
        Some(o) => o,
        None => s.mode,
    }
}

/// The carry that a finished state hands on.
pub open spec fn carry_of(s: WorldStateView) -> CarryView {
    CarryView {
        heir: Some(s.heir),
        heritage: s.heritage,
        flags: s.flags,
        notes: s.notes,
        monnaies: s.monnaies,
        fiches: s.fiches,
    }
}

impl Carry {
    /// What `state` hands to the next chapter.
    pub fn from_state(state: &WorldState) -> (r: Carry)
        ensures
            r@ == carry_of(state@),
    {
        Carry {
            heir: Some(state.heir.copy()),
            heritage: state.heritage.copy(),
            flags: state.flags.copy(),
            notes: copy_strings(&state.notes),
            monnaies: state.monnaies.copy(),
            fiches: copy_fiches(&state.fiches),
        }
    }

    /// A carry that hands nothing on.
    pub fn empty() -> (r: Carry)
        ensures
            r@ == (CarryView {
                heir: None,
                heritage: Seq::empty(),
                flags: Seq::empty(),
                notes: Seq::empty(),
                monnaies: Seq::empty(),
                fiches: Seq::empty(),
            }),
    {
        let r = Carry {
            heir: None,
            heritage: StrSet::new(),
            flags: StrSet::new(),
            notes: Vec::new(),
            monnaies: StrMap::new(),
            fiches: Vec::new(),
        };
        assert(texts(r.notes@) =~= Seq::<Seq<char>>::empty());
        assert(fiche_views(r.fiches@) =~= Seq::<FicheView>::empty());
        r
    }
}

impl Default for Carry {
    /// A carry that hands nothing on.
    fn default() -> (r: Carry)
        ensures
            r@ == (CarryView {
                heir: None,
                heritage: Seq::empty(),
                flags: Seq::empty(),
                notes: Seq::empty(),
                monnaies: Seq::empty(),
                fiches: Seq::empty(),
            }),
    {
        Carry::empty()
    }
}

impl WorldState {
    /// A copy of this state.
    pub fn copy(&self) -> (r: WorldState)
        ensures
            r@ == self@,
    {
        WorldState {
            chapter: self.chapter.clone(),
            mode: self.mode.clone(),
            petition_i: self.petition_i,
            cursor: self.cursor,
            monnaies: self.monnaies.copy(),
            flags: self.flags.copy(),
            notes: copy_strings(&self.notes),
            heritage: self.heritage.copy(),
            fiches: copy_fiches(&self.fiches),
            heir: self.heir.copy(),
            narrative: self.narrative.clone(),
            last_choice: copy_opt(&self.last_choice),
            next_chapter: copy_opt(&self.next_chapter),
            overlay: copy_opt(&self.overlay),
            lieu: copy_opt(&self.lieu),
        }
    }

    /// The mode that the screen shows: an open overlay, else the chapter mode.
    pub fn play_mode(&self) -> (r: &str)
        ensures
            r@ == play_mode_of(self@),
    {
        match &self.overlay {
            Some(o) => o.as_str(),
            None => self.mode.as_str(),
        }
    }
}

} // verus!
