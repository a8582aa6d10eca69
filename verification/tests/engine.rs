use chronicle::{
    apply, boot, boot_with, carry_policy, choice_ids, plain_em, render, Carry, ChapterIr,
    ChoiceIr, ChronicleMeta, Command, CurrencyIr, DebriefIr, EncounterIr, EngineError, FicheIr,
    Frame, HeirIr, Ir, LieuJouable, PersistHint, PetitionIr, StrMap, TextBlock, Verb, WorldState,
    NOTES_CAP, SCHEMA,
};

fn s(x: &str) -> String {
    x.to_string()
}

fn choice(id: &str, label: &str) -> ChoiceIr {
    ChoiceIr {
        id: s(id),
        label: s(label),
        text: String::new(),
        delta: StrMap::new(),
        flags: vec![],
        notes: None,
        heritage: vec![],
        heritage_remove: vec![],
        next_heir: None,
        next_heir_name: None,
        when_flag: None,
        when_not_flag: None,
    }
}

fn petition(id: &str, title: &str, text: &str, choices: Vec<ChoiceIr>) -> PetitionIr {
    PetitionIr {
        id: s(id),
        title: s(title),
        text: s(text),
        choices,
        when_flag: None,
        when_not_flag: None,
    }
}

fn fiche(id: &str, nom: &str, when: Option<&str>) -> FicheIr {
    FicheIr {
        id: s(id),
        nom: s(nom),
        texte: s("texte"),
        when_flag: when.map(s),
        when_not_flag: None,
    }
}

fn delta(pairs: &[(&str, i32)]) -> StrMap<i32> {
    let mut m = StrMap::new();
    for (k, v) in pairs {
        m.insert(s(k), *v);
    }
    m
}

/// A chapter shaped like the first chapter of a France pack.
fn relais() -> Ir {
    let mut oui = choice("oui", "Loger le voyageur");
    oui.flags = vec![s("xenodochium")];
    oui.delta = delta(&[("grain", -1)]);
    oui.notes = Some(s("Un hôte."));
    let mut non = choice("non", "Refuser");
    non.flags = vec![s("refus")];
    let relacher = choice("relacher", "Relâcher");
    let mut prelever = choice("prelever", "Prélever");
    prelever.delta = delta(&[("grain", 2)]);
    let mut garder = choice("garder", "Garder les chevaux");
    garder.heritage = vec![s("fibule")];
    let mut vendre = choice("vendre", "Vendre les chevaux");
    vendre.delta = delta(&[("chevaux", -5)]);
    let mut loger = choice("loger", "Loger les Burgondes");
    loger.next_heir = Some(s("wulfgar"));
    loger.next_heir_name = Some(s("Wulfgar"));
    loger.flags = vec![s("wulfgar")];
    loger.heritage = vec![s("fibule")];
    loger.text = s("{heir.name} reçoit les Burgondes.");
    let mut refuser = choice("refuser", "Refuser les Burgondes");
    refuser.next_heir = Some(s("aurel"));
    refuser.next_heir_name = Some(s("Aurel"));
    Ir {
        schema: s(SCHEMA),
        chronicle: ChronicleMeta { id: s("france"), title: s("France"), lieu: s("Lugdunum") },
        chapter: ChapterIr {
            id: s("dernier-relais"),
            title: s("Le dernier relais"),
            partie: s("1"),
            saison: String::new(),
            dates: s("470"),
            lieux: vec![],
            sanctuaire: String::new(),
            gazette: String::new(),
            monnaies: vec![
                CurrencyIr { id: s("grain"), label: s("Grain"), start: 4 },
                CurrencyIr { id: s("chevaux"), label: s("Chevaux"), start: 1 },
            ],
            heir: HeirIr { id: s("tetricus"), name: s("Tetricus"), title: s("dominus") },
            briefing: TextBlock {
                masthead: s("{chapter.title}, {clock.dates}"),
                text: s("{heir.name} tient le relais. Grain : {grain}."),
            },
            petitions: vec![
                petition("hote", "L'hôte", "Un voyageur frappe.", vec![oui, non]),
                petition("prisonnier", "", "Un prisonnier.", vec![relacher, prelever]),
                petition("chevaux", "Les chevaux", "Les bêtes.", vec![garder, vendre]),
            ],
            set_piece: EncounterIr {
                id: s("arrivee"),
                title: s("L'arrivée"),
                text: s("Les Burgondes."),
                choices: vec![loger, refuser],
            },
            debrief: DebriefIr {
                text: s("Fin du relais."),
                fiches: vec![
                    fiche("fait:fin-de-l-impot", "Fin de l'impôt", None),
                    fiche("institution:civitas-eveque", "Civitas", Some("wulfgar")),
                ],
            },
            next: Some(s("bapteme")),
            heritage_default: vec![s("anneau")],
            heir_policy: carry_policy(),
            lieux_jouables: vec![],
            cheval_si_chevaux: true,
        },
    }
}

fn bapteme() -> Ir {
    let mut ir = relais();
    ir.chapter.id = s("bapteme");
    ir.chapter.title = s("Le baptême");
    ir.chapter.next = None;
    ir.chapter.cheval_si_chevaux = false;
    ir.chapter.heir = HeirIr { id: s("leonce"), name: s("Léonce"), title: String::new() };
    ir
}

fn step(ir: &Ir, state: WorldState, cmd: Command) -> WorldState {
    apply(ir, state, cmd).unwrap_or_else(|e| panic!("{}", e.message())).state
}

fn choose_id(ir: &Ir, state: WorldState, id: &str) -> WorldState {
    let list = choice_ids(ir, &state);
    let index = list.iter().position(|x| x == id).expect("choice offered");
    step(ir, state, Command::Choose { index: index as u8 })
}

fn play(ir: &Ir, mut state: WorldState, ids: &[&str]) -> WorldState {
    for id in ids {
        if state.mode == "briefing" || state.mode == "aftermath" || state.mode == "set_aftermath" {
            state = step(ir, state, Command::Continue);
        }
        state = choose_id(ir, state, id);
    }
    while state.mode != "debrief" && state.mode != "done" {
        state = step(ir, state, Command::Continue);
    }
    state
}

#[test]
fn boot_is_briefing() {
    let ir = relais();
    let (state, frame) = boot(&ir).unwrap();
    assert_eq!(state.mode, "briefing");
    assert_eq!(frame.mode, "briefing");
    assert_eq!(state.heir.id, "tetricus");
    assert_eq!(state.monnaies.get("grain"), Some(&4));
    assert!(state.narrative.contains("Tetricus"));
    assert_eq!(
        state.narrative,
        "Le dernier relais, 470\n\nTetricus tient le relais. Grain : 4."
    );
    assert_eq!(state.petition_i, 0);
    assert_eq!(state.cursor, 0);
    assert!(state.fiches.is_empty());
    assert!(state.heritage.contains("anneau"));
    assert_eq!(state.next_chapter.as_deref(), Some("bapteme"));
}

#[test]
fn briefing_screen() {
    let ir = relais();
    let (_, frame) = boot(&ir).unwrap();
    assert_eq!(frame.slots.hud.heir, "Tetricus");
    assert_eq!(frame.slots.hud.location, "Lugdunum");
    assert_eq!(frame.slots.hud.phase, "briefing");
    assert_eq!(frame.slots.hud.money, "Grain 4   Chevaux 1");
    assert_eq!(frame.slots.title.as_deref(), Some("briefing"));
    assert_eq!(
        frame.slots.footer.as_deref(),
        Some("enter continue   n notes   ? help   q quit")
    );
    assert_eq!(frame.footer(), "enter continue   n notes   ? help   q quit");
    assert!(frame.slots.list.is_empty());
}

#[test]
fn loger_wulfgar_lineage() {
    let ir = relais();
    let (mut state, _) = boot(&ir).unwrap();
    state = step(&ir, state, Command::Continue);
    assert_eq!(state.mode, "petition");
    state = choose_id(&ir, state, "oui");
    assert_eq!(state.mode, "aftermath");
    assert!(state.flags.contains("xenodochium"));
    assert_eq!(state.monnaies.get("grain"), Some(&3));
    assert_eq!(state.notes, vec![s("Un hôte.")]);
    state = step(&ir, state, Command::Continue);
    state = choose_id(&ir, state, "relacher");
    state = step(&ir, state, Command::Continue);
    state = choose_id(&ir, state, "garder");
    state = step(&ir, state, Command::Continue);
    assert_eq!(state.mode, "set_piece");
    state = choose_id(&ir, state, "loger");
    assert_eq!(state.mode, "set_aftermath");
    assert!(state.flags.contains("wulfgar"));
    assert_eq!(state.heir.id, "wulfgar");
    assert_eq!(state.heir.name, "Wulfgar");
    assert_eq!(state.narrative, "Wulfgar reçoit les Burgondes.");
    state = step(&ir, state, Command::Continue);
    assert_eq!(state.mode, "debrief");
    assert!(state.fiches.iter().any(|f| f.id == "fait:fin-de-l-impot"));
    assert!(state.fiches.iter().any(|f| f.id == "institution:civitas-eveque"));
    assert!(state.heritage.contains("fibule"));
    assert!(state.heritage.contains("cheval"));
    assert!(state.heritage.contains("anneau"));
    let st = apply(&ir, state, Command::Continue).unwrap();
    assert!(st.halt);
    assert_eq!(st.persist, PersistHint::Flush);
    assert_eq!(st.state.mode, "done");
    assert_eq!(st.frame.slots.title.as_deref(), Some("transmission"));
    assert_eq!(
        st.state.narrative,
        "La chronique s'arrête ici pour ce siècle.\n\nHéritier suivant : Wulfgar.\nChapitre suivant : bapteme."
    );
}

#[test]
fn refuse_burns_to_aurel() {
    let ir = relais();
    let (state, _) = boot(&ir).unwrap();
    let state = play(&ir, state, &["non", "prelever", "vendre", "refuser"]);
    assert_eq!(state.mode, "debrief");
    assert_eq!(state.heir.id, "aurel");
    assert!(!state.fiches.iter().any(|f| f.id == "institution:civitas-eveque"));
    assert!(!state.heritage.contains("cheval"));
    assert_eq!(state.monnaies.get("chevaux"), Some(&0));
    assert_eq!(state.monnaies.get("grain"), Some(&6));
}

#[test]
fn choose_wrong_mode() {
    let ir = relais();
    let (state, _) = boot(&ir).unwrap();
    let err = apply(&ir, state, Command::Choose { index: 0 }).err().unwrap();
    assert!(matches!(err, EngineError::WrongMode("Choose", ref m) if m == "briefing"));
    assert_eq!(err.message(), "command Choose is not valid in mode briefing");
}

#[test]
fn continue_refused_while_choosing() {
    let ir = relais();
    let (state, _) = boot(&ir).unwrap();
    let state = step(&ir, state, Command::Continue);
    let err = apply(&ir, state, Command::Continue).err().unwrap();
    assert_eq!(err.message(), "command Continue is not valid in mode petition");
}

#[test]
fn unknown_choice_is_refused() {
    let ir = relais();
    let (state, _) = boot(&ir).unwrap();
    let state = step(&ir, state, Command::Continue);
    let err = apply(&ir, state, Command::Choose { index: 7 }).err().unwrap();
    assert!(matches!(err, EngineError::UnknownChoice(ref m) if m == "7"));
    assert_eq!(err.message(), "unknown choice 7");
}

#[test]
fn petition_screen_lists_choices() {
    let ir = relais();
    let (state, _) = boot(&ir).unwrap();
    let st = apply(&ir, state, Command::Continue).unwrap();
    assert_eq!(st.persist, PersistHint::Flush);
    assert!(!st.halt);
    let f = &st.frame;
    assert_eq!(f.mode, "petition");
    assert_eq!(f.slots.hud.phase, "pétition 1/3");
    assert_eq!(f.slots.narrative, "{em}L'hôte{/em}\n\nUn voyageur frappe.");
    assert_eq!(f.slots.list.len(), 2);
    assert_eq!(f.slots.list[0].id, "oui");
    assert_eq!(f.slots.list[1].name, "Refuser");
    assert_eq!(
        f.footer(),
        "k up   j down   enter choose   n notes   ? help   q quit"
    );
    assert_eq!(choice_ids(&ir, &st.state), vec![s("oui"), s("non")]);
}

#[test]
fn cursor_wraps_and_clamps() {
    let ir = relais();
    let (state, _) = boot(&ir).unwrap();
    let state = step(&ir, state, Command::Continue);
    let st = apply(&ir, state, Command::MoveCursor { delta: -1 }).unwrap();
    assert_eq!(st.state.cursor, 1);
    assert_eq!(st.frame.slots.selected, 1);
    assert_eq!(st.persist, PersistHint::Skip);
    let state = step(&ir, st.state, Command::MoveCursor { delta: 1 });
    assert_eq!(state.cursor, 0);
    let state = step(&ir, state, Command::Select { index: 9 });
    assert_eq!(state.cursor, 1);
    let state = step(&ir, state, Command::Select { index: 0 });
    assert_eq!(state.cursor, 0);
}

#[test]
fn cursor_ignored_on_pages() {
    let ir = relais();
    let (state, _) = boot(&ir).unwrap();
    let state = step(&ir, state, Command::MoveCursor { delta: 3 });
    assert_eq!(state.cursor, 0);
    assert_eq!(state.mode, "briefing");
}

#[test]
fn overlay_holds_the_chapter() {
    let ir = relais();
    let (state, _) = boot(&ir).unwrap();
    let state = step(&ir, state, Command::Continue);
    let state = choose_id(&ir, state, "oui");
    let st = apply(&ir, state, Command::Notes).unwrap();
    assert_eq!(st.state.overlay.as_deref(), Some("notes"));
    assert_eq!(st.state.play_mode(), "notes");
    assert_eq!(st.frame.mode, "notes");
    assert_eq!(st.frame.slots.narrative, "1. Un hôte.");
    assert_eq!(st.frame.slots.overlay_title.as_deref(), Some("notes"));
    assert_eq!(st.frame.slots.hud.phase, "carnet");
    let st = apply(&ir, st.state, Command::Choose { index: 0 }).unwrap();
    assert_eq!(st.persist, PersistHint::Skip);
    assert_eq!(st.state.overlay.as_deref(), Some("notes"));
    assert_eq!(st.state.mode, "aftermath");
    let st = apply(&ir, st.state, Command::Continue).unwrap();
    assert!(st.state.overlay.is_none());
    assert_eq!(st.state.mode, "aftermath");
    assert_eq!(st.persist, PersistHint::Skip);
}

#[test]
fn help_overlay() {
    let ir = relais();
    let (state, _) = boot(&ir).unwrap();
    let st = apply(&ir, state, Command::Help).unwrap();
    assert_eq!(st.frame.mode, "help");
    assert!(st.frame.slots.narrative.starts_with("j/k  liste"));
    assert_eq!(st.frame.footer(), "x close   n notes   ? help   q quit");
    let st = apply(&ir, st.state, Command::Close).unwrap();
    assert!(st.state.overlay.is_none());
    assert_eq!(st.frame.mode, "briefing");
}

#[test]
fn empty_carnet() {
    let ir = relais();
    let (state, _) = boot(&ir).unwrap();
    let st = apply(&ir, state, Command::Notes).unwrap();
    assert_eq!(st.frame.slots.narrative, "Le carnet est vide.");
}

#[test]
fn quit_halts_anywhere() {
    let ir = relais();
    let (state, _) = boot(&ir).unwrap();
    let st = apply(&ir, state, Command::Quit).unwrap();
    assert!(st.halt);
    assert_eq!(st.state.mode, "briefing");
    let st = apply(&ir, st.state, Command::Notes).unwrap();
    let st = apply(&ir, st.state, Command::Quit).unwrap();
    assert!(st.halt);
}

#[test]
fn done_stays_done() {
    let ir = relais();
    let (state, _) = boot(&ir).unwrap();
    let state = play(&ir, state, &["oui", "relacher", "garder", "loger"]);
    let state = step(&ir, state, Command::Continue);
    let before = state.copy();
    let st = apply(&ir, state, Command::Continue).unwrap();
    assert!(st.halt);
    assert_eq!(st.state.mode, "done");
    assert_eq!(st.state.narrative, before.narrative);
}

#[test]
fn debrief_page() {
    let ir = relais();
    let (state, _) = boot(&ir).unwrap();
    let state = play(&ir, state, &["oui", "relacher", "garder", "loger"]);
    assert_eq!(
        state.narrative,
        "Fin du relais.\n\n{em}Fiches{/em}\n• Fin de l'impôt — texte\n• Civitas — texte\n\n{em}Reliques{/em}\n• anneau\n• cheval\n• fibule\n\n{em}Carnet{/em}\n• Un hôte.\n"
    );
    let frame = render(&ir, &state).unwrap();
    assert_eq!(frame.slots.title.as_deref(), Some("chronique"));
}

#[test]
fn no_cheval_without_the_chapter_flag() {
    let ir = bapteme();
    let (state, _) = boot(&ir).unwrap();
    let state = play(&ir, state, &["oui", "relacher", "garder", "loger"]);
    assert!(state.heritage.contains("fibule"));
    assert!(!state.heritage.contains("cheval"));
}

#[test]
fn heritage_is_a_union() {
    let mut ir = relais();
    ir.chapter.petitions[1].choices[0].heritage = vec![s("bague")];
    ir.chapter.set_piece.choices[0].heritage_remove = vec![s("anneau")];
    let (state, _) = boot(&ir).unwrap();
    let state = play(&ir, state, &["oui", "relacher", "garder", "loger"]);
    assert!(state.heritage.contains("bague"));
    assert!(state.heritage.contains("fibule"));
    assert!(state.heritage.contains("cheval"));
    assert!(!state.heritage.contains("anneau"));
    assert_eq!(state.heritage.len(), 3);
}

#[test]
fn notes_stop_at_the_cap() {
    let ir = relais();
    let (state, _) = boot(&ir).unwrap();
    let mut state = step(&ir, state, Command::Continue);
    state.notes = (0..NOTES_CAP).map(|i| format!("note {i}")).collect();
    let state = choose_id(&ir, state, "oui");
    assert_eq!(state.notes.len(), NOTES_CAP);
    assert_eq!(state.notes[NOTES_CAP - 1], format!("note {}", NOTES_CAP - 1));
}

#[test]
fn gated_choices_and_petitions() {
    let mut ir = relais();
    ir.chapter.petitions[1].when_flag = Some(s("refus"));
    ir.chapter.petitions[2].choices[1].when_not_flag = Some(s("xenodochium"));
    let (state, _) = boot(&ir).unwrap();
    let state = step(&ir, state, Command::Continue);
    let state = choose_id(&ir, state, "oui");
    let state = step(&ir, state, Command::Continue);
    assert_eq!(state.mode, "petition");
    assert_eq!(state.petition_i, 2);
    assert_eq!(choice_ids(&ir, &state), vec![s("garder")]);
}

#[test]
fn places_open_their_petitions() {
    let mut ir = relais();
    ir.chapter.lieux_jouables = vec![
        LieuJouable {
            id: s("forum"),
            nom: s("Le forum"),
            texte: String::new(),
            petitions: vec![s("hote")],
            when_flag: None,
            when_not_flag: None,
        },
        LieuJouable {
            id: s("quai"),
            nom: s("Le quai"),
            texte: s("Les quais de {heir.name}."),
            petitions: vec![s("prisonnier")],
            when_flag: None,
            when_not_flag: None,
        },
    ];
    let (state, _) = boot(&ir).unwrap();
    let st = apply(&ir, state, Command::Continue).unwrap();
    assert_eq!(st.state.mode, "lieu");
    assert_eq!(st.frame.slots.hud.phase, "où");
    assert_eq!(choice_ids(&ir, &st.state), vec![s("forum"), s("quai")]);
    let st = apply(&ir, st.state, Command::Choose { index: 1 }).unwrap();
    let state = st.state;
    assert_eq!(state.lieu.as_deref(), Some("quai"));
    assert!(state.flags.contains("lieu-quai"));
    assert_eq!(state.mode, "petition");
    assert_eq!(state.petition_i, 1);
    assert_eq!(st.frame.slots.hud.location, "Le quai");
    let state = choose_id(&ir, state, "relacher");
    let state = step(&ir, state, Command::Continue);
    assert_eq!(state.mode, "set_piece");
}

#[test]
fn invalid_chapters_do_not_boot() {
    let mut ir = relais();
    ir.schema = s("other/v0");
    assert_eq!(ir.validate(), Err(s("expected chronicle.ir/v1, got other/v0")));
    let err = boot(&ir).err().unwrap();
    assert_eq!(err.message(), "invalid IR: expected chronicle.ir/v1, got other/v0");

    let mut ir = relais();
    ir.chapter.petitions.clear();
    assert_eq!(ir.validate(), Err(s("chapter has no petitions")));

    let mut ir = relais();
    ir.chapter.set_piece.choices.clear();
    assert_eq!(ir.validate(), Err(s("set_piece has no choices")));

    let mut ir = relais();
    ir.chapter.petitions[1].choices.clear();
    assert_eq!(ir.validate(), Err(s("petition prisonnier has no choices")));

    assert_eq!(relais().validate(), Ok(()));
}

#[test]
fn unknown_mode_has_no_screen() {
    let ir = relais();
    let (mut state, _) = boot(&ir).unwrap();
    state.mode = s("weird");
    let err = render(&ir, &state).err().unwrap();
    assert!(matches!(err, EngineError::Other(ref m) if m == "no renderer for weird"));
}

#[test]
fn carry_into_next_chapter() {
    let ir = relais();
    let (state, _) = boot(&ir).unwrap();
    let s1 = play(&ir, state, &["oui", "relacher", "garder", "loger"]);
    let next = bapteme();
    let (state, frame) = boot_with(&next, Some(&Carry::from_state(&s1))).unwrap();
    assert_eq!(state.heir.id, "wulfgar");
    assert!(state.flags.contains("prev-heir-wulfgar"));
    assert!(state.flags.contains("wulfgar"));
    assert!(state.narrative.contains("Wulfgar"));
    assert!(state.heritage.contains("fibule"));
    assert_eq!(state.notes, vec![s("Un hôte.")]);
    assert_eq!(state.monnaies.get("grain"), Some(&3));
    assert!(state.fiches.is_empty());
    assert_eq!(frame.mode, "briefing");
}

#[test]
fn chapter_heir_policy_wins() {
    let ir = relais();
    let (state, _) = boot(&ir).unwrap();
    let s1 = play(&ir, state, &["oui", "relacher", "garder", "loger"]);
    let mut next = bapteme();
    next.chapter.heir_policy = s("chapter");
    let (state, _) = boot_with(&next, Some(&Carry::from_state(&s1))).unwrap();
    assert_eq!(state.heir.id, "leonce");
    assert!(state.flags.contains("prev-heir-wulfgar"));
}

#[test]
fn empty_carry_starts_fresh() {
    let ir = relais();
    let (state, _) = boot_with(&ir, Some(&Carry::empty())).unwrap();
    assert_eq!(state.heir.id, "tetricus");
    assert!(state.heritage.contains("anneau"));
    assert!(state.flags.is_empty());
    assert_eq!(state.monnaies.get("grain"), Some(&4));
}

#[test]
fn carry_from_state_copies() {
    let ir = relais();
    let (state, _) = boot(&ir).unwrap();
    let s1 = play(&ir, state, &["non", "prelever", "vendre", "refuser"]);
    let c = Carry::from_state(&s1);
    assert_eq!(c.heir.as_ref().map(|h| h.id.clone()), Some(s("aurel")));
    assert_eq!(c.flags.to_vec(), s1.flags.to_vec());
    assert_eq!(c.heritage.to_vec(), vec![s("anneau")]);
    assert_eq!(c.fiches.len(), s1.fiches.len());
}

#[test]
fn verbs_and_plain_text() {
    let v = Verb::local("choose", "enter");
    assert!(v.enabled && !v.global);
    assert_eq!(v.id, "choose");
    let g = Verb::global("quit", "q");
    assert!(g.enabled && g.global);
    assert_eq!(plain_em("{em}Fiches{/em} et {em}reliques{/em}"), "Fiches et reliques");
    assert_eq!(plain_em("rien"), "rien");
}

#[test]
fn footer_skips_disabled_verbs() {
    let ir = relais();
    let (_, frame) = boot(&ir).unwrap();
    let mut f: Frame = frame;
    f.verbs[1].enabled = false;
    f.slots.footer = None;
    let f = f.with_footer();
    assert_eq!(f.slots.footer.as_deref(), Some("enter continue   ? help   q quit"));
}

#[test]
fn money_is_written_into_text() {
    let mut ir = relais();
    ir.chapter.petitions[0].text = s("{heir.title} {heir.id} : {grain} grain, {chevaux} cheval.");
    let (state, _) = boot(&ir).unwrap();
    let state = step(&ir, state, Command::Continue);
    assert_eq!(
        state.narrative,
        "{em}L'hôte{/em}\n\ndominus tetricus : 4 grain, 1 cheval."
    );
}

#[test]
fn try_apply_refuses_overflow() {
    let mut ir = relais();
    ir.chapter.petitions[0].choices[1].delta = delta(&[("grain", i32::MAX)]);
    let (state, _) = boot(&ir).unwrap();
    let state = step(&ir, state, Command::Continue);
    assert!(chronicle::try_apply(&ir, state.copy(), Command::Choose { index: 1 }).is_none());
    let st = chronicle::try_apply(&ir, state.copy(), Command::Choose { index: 0 }).unwrap().unwrap();
    assert_eq!(st.state.mode, "aftermath");
    let st = chronicle::try_apply(&ir, state.copy(), Command::MoveCursor { delta: 1 }).unwrap().unwrap();
    assert_eq!(st.state.cursor, 1);
    let moved = st.state;
    assert!(chronicle::try_apply(&ir, moved, Command::MoveCursor { delta: i32::MAX }).is_none());
    let err = chronicle::try_apply(&ir, state, Command::Continue).unwrap().err().unwrap();
    assert_eq!(err.message(), "command Continue is not valid in mode petition");
}

#[test]
fn default_carry_is_empty() {
    let c = Carry::default();
    assert!(c.heir.is_none());
    assert!(c.flags.is_empty() && c.heritage.is_empty());
    assert!(c.notes.is_empty() && c.fiches.is_empty());
    assert_eq!(c.monnaies.len(), 0);
}
