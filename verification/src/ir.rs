use vstd::prelude::*;

use crate::strmap::StrMap;
use crate::text::{owned, push_str, str_eq};

verus! {

/// The schema tag that every compiled chapter carries.
pub const SCHEMA: &'static str = "chronicle.ir/v1";

/// A compiled chapter together with the chronicle it belongs to.
pub struct Ir {
    pub schema: String,
    pub chronicle: ChronicleMeta,
    pub chapter: ChapterIr,
}

pub struct ChronicleMeta {
    pub id: String,
    pub title: String,
    pub lieu: String,
}

pub struct ChapterIr {
    pub id: String,
    pub title: String,
    pub partie: String,
    pub saison: String,
    pub dates: String,
    pub lieux: Vec<String>,
    pub sanctuaire: String,
    pub gazette: String,
    pub monnaies: Vec<CurrencyIr>,
    pub heir: HeirIr,
    pub briefing: TextBlock,
    pub petitions: Vec<PetitionIr>,
    pub set_piece: EncounterIr,
    pub debrief: DebriefIr,
    pub next: Option<String>,
    pub heritage_default: Vec<String>,
    /// `carry` (default): keep the heir from the previous chapter.
    /// `chapter`: this chapter's `heir` block wins (time skip).
    pub heir_policy: String,
    /// Places the player may pick from before the petitions; each opens its own petitions.
    pub lieux_jouables: Vec<LieuJouable>,
    /// When set, a choice that adds heritage while a `chevaux` stock is positive
    /// also adds the `cheval` relic.
    pub cheval_si_chevaux: bool,
}

/// The default of `heir_policy`.
pub fn carry_policy() -> (r: String)
    ensures
        r@ == "carry"@,
{
    owned("carry")
}

pub struct CurrencyIr {
    pub id: String,
    pub label: String,
    pub start: i32,
}

pub struct HeirIr {
    pub id: String,
    pub name: String,
    pub title: String,
}

pub struct TextBlock {
    pub masthead: String,
    pub text: String,
}

pub struct PetitionIr {
    pub id: String,
    pub title: String,
    pub text: String,
    pub choices: Vec<ChoiceIr>,
    pub when_flag: Option<String>,
    pub when_not_flag: Option<String>,
}

pub struct EncounterIr {
    pub id: String,
    pub title: String,
    pub text: String,
    pub choices: Vec<ChoiceIr>,
}

pub struct ChoiceIr {
    pub id: String,
    pub label: String,
    pub text: String,
    pub delta: StrMap<i32>,
    pub flags: Vec<String>,
    pub notes: Option<String>,
    pub heritage: Vec<String>,
    pub heritage_remove: Vec<String>,
    pub next_heir: Option<String>,
    pub next_heir_name: Option<String>,
    pub when_flag: Option<String>,
    pub when_not_flag: Option<String>,
}

pub struct DebriefIr {
    pub text: String,
    pub fiches: Vec<FicheIr>,
}

pub struct FicheIr {
    pub id: String,
    pub nom: String,
    pub texte: String,
    pub when_flag: Option<String>,
    pub when_not_flag: Option<String>,
}

pub struct LieuJouable {
    pub id: String,
    pub nom: String,
    pub texte: String,
    pub petitions: Vec<String>,
    pub when_flag: Option<String>,
    pub when_not_flag: Option<String>,
}

/// The view of an optional string.
pub open spec fn opt_view(o: Option<String>) -> Option<Seq<char>> {
    match o {
        Some(s) => Some(s@),
        None => None,
    }
}

/// Index of the first petition without choices, among the first `n`.
pub open spec fn first_empty_petition(ps: Seq<PetitionIr>, n: nat) -> Option<int>
    decreases n,
{
    if n == 0 {
        None
    } else {
        match first_empty_petition(ps, (n - 1) as nat) {
            Some(i) => Some(i),
            None => if ps[n - 1].choices@.len() == 0 {
                Some(n - 1)
            } else {
                None
            },
        }
    }
}

proof fn lemma_first_empty_stable(ps: Seq<PetitionIr>, n: nat, m: nat)
    requires
        n <= m,
        first_empty_petition(ps, n) is Some,
    ensures
        first_empty_petition(ps, m) == first_empty_petition(ps, n),
    decreases m - n,
{
    if n < m {
        lemma_first_empty_stable(ps, n, (m - 1) as nat);
    }
}

impl Ir {
    /// What `validate` answers: the first failed check's message, in the order
    /// schema, petitions present, set-piece choices present, each petition's choices present.
    pub open spec fn validation(&self) -> Result<(), Seq<char>> {
        if self.schema@ != SCHEMA@ {
            Err("expected "@ + SCHEMA@ + ", got "@ + self.schema@)
        } else if self.chapter.petitions@.len() == 0 {
            Err("chapter has no petitions"@)
        } else if self.chapter.set_piece.choices@.len() == 0 {
            Err("set_piece has no choices"@)
        } else {
            match first_empty_petition(
                self.chapter.petitions@,
                self.chapter.petitions@.len(),
            ) {
                Some(i) => Err("petition "@ + self.chapter.petitions@[i].id@ + " has no choices"@),
                None => Ok(()),
            }
        }
    }

    /// Checks the chapter's shape.
    pub fn validate(&self) -> (r: Result<(), String>)
        ensures
            match (r, self.validation()) {
                (Ok(()), Ok(())) => true,
                (Err(m), Err(e)) => m@ == e,
                _ => false,
            },
    {
        if !str_eq(self.schema.as_str(), SCHEMA) {
            let mut m = owned("expected ");
            push_str(&mut m, SCHEMA);
            push_str(&mut m, ", got ");
            push_str(&mut m, self.schema.as_str());
            return Err(m);
        }
        if self.chapter.petitions.len() == 0 {
            return Err(owned("chapter has no petitions"));
        }
        if self.chapter.set_piece.choices.len() == 0 {
            return Err(owned("set_piece has no choices"));
        }
        let mut i: usize = 0;
        while i < self.chapter.petitions.len()
            invariant
                i <= self.chapter.petitions@.len(),
                self.schema@ == SCHEMA@,
                self.chapter.petitions@.len() > 0,
                self.chapter.set_piece.choices@.len() > 0,
                first_empty_petition(self.chapter.petitions@, i as nat) is None,
            decreases self.chapter.petitions@.len() - i,
        {
            if self.chapter.petitions[i].choices.len() == 0 {
                assert(first_empty_petition(self.chapter.petitions@, (i + 1) as nat) == Some(
                    i as int,
                ));
                proof {
                    lemma_first_empty_stable(
                        self.chapter.petitions@,
                        (i + 1) as nat,
                        self.chapter.petitions@.len(),
                    );
                }
                let mut m = owned("petition ");
                push_str(&mut m, self.chapter.petitions[i].id.as_str());
                push_str(&mut m, " has no choices");
                return Err(m);
            }
            i += 1;
        }
        Ok(())
    }
}

} // verus!
