//! Chronicle: a campaign engine. A chapter (briefing, petitions, set piece, debrief) is a
//! mode machine driven by commands; chapters chain into a campaign and hand a lineage on.
//! Everything here computes on values: reading files, decoding YAML or JSON and drawing the
//! screen are left to the caller.
use vstd::prelude::*;

pub mod text;
pub mod strset;
pub mod strmap;
pub mod ir;
pub mod command;
pub mod error;
pub mod state;
pub mod frame;
pub mod rules;
pub mod engine;
pub mod dsl;
pub mod persist;
pub mod session;
pub mod screen;
pub mod laws;

pub use command::{Command, PersistHint};
pub use dsl::{
    assemble_campaign, extract_yaml, finish_markdown, infer_entry, looks_like_yaml, yaml_source,
    Campaign, CampagneFile, DslError,
};
pub use engine::{apply, boot, boot_with, choice_ids, render, try_apply, Step};
pub use error::EngineError;
pub use frame::{plain_em, Frame, Hud, ListItem, Slots, Verb};
pub use ir::{
    carry_policy, ChapterIr, ChoiceIr, ChronicleMeta, CurrencyIr, DebriefIr, EncounterIr, FicheIr,
    HeirIr, Ir, LieuJouable, PetitionIr, TextBlock, SCHEMA,
};
pub use persist::{instance_dir, merge_lineage, save_path, to_carry, LineageSave, SAVE_SCHEMA};
pub use screen::{hud_line, map_key, side_lines, Key};
pub use session::{chapter_end, open_chapter, should_save, start_chapter, ChapterEnd};
pub use state::{Carry, FicheGot, HeirState, WorldState, NOTES_CAP};
pub use strmap::StrMap;
pub use strset::StrSet;

verus! {

} // verus!
