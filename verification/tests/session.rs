use chronicle::{
    apply, boot, carry_policy, chapter_end, choice_ids, hud_line, instance_dir, map_key,
    merge_lineage, open_chapter, save_path, should_save, side_lines, start_chapter, to_carry,
    Campaign, ChapterIr, ChoiceIr, ChronicleMeta, Command, CurrencyIr, DebriefIr, EncounterIr,
    FicheGot, HeirIr, Ir, Key, PersistHint, PetitionIr, StrMap, TextBlock, WorldState,
    SAVE_SCHEMA, SCHEMA,
};

fn s(x: &str) -> String {
    x.to_string()
}

fn choice(id: &str) -> ChoiceIr {
    ChoiceIr {
        id: s(id),
        label: format!("Choix {id}"),
        text: String::new(),
        delta: StrMap::new(),
        flags: vec![format!("f-{id}")],
        notes: None,
        heritage: vec![],
        heritage_remove: vec![],
        next_heir: None,
        next_heir_name: None,
        when_flag: None,
        when_not_flag: None,
    }
}

fn ir(id: &str, next: Option<&str>) -> Ir {
    Ir {
        schema: s(SCHEMA),
        chronicle: ChronicleMeta { id: s("peru"), title: s("Pérou"), lieu: s("Cuzco") },
        chapter: ChapterIr {
            id: s(id),
            title: format!("Chapitre {id}"),
            partie: String::new(),
            saison: String::new(),
            dates: String::new(),
            lieux: vec![],
            sanctuaire: String::new(),
            gazette: String::new(),
            monnaies: vec![CurrencyIr { id: s("coca"), label: s("Coca"), start: 2 }],
            heir: HeirIr { id: s("sisa"), name: s("Sisa"), title: String::new() },
            briefing: TextBlock { masthead: String::new(), text: s("{heir.name}") },
            petitions: vec![PetitionIr {
                id: s("p"),
                title: String::new(),
                text: s("t"),
                choices: vec![choice("a"), choice("b")],
                when_flag: None,
                when_not_flag: None,
            }],
            set_piece: EncounterIr {
                id: s("sp"),
                title: String::new(),
                text: s("t"),
                choices: vec![choice("z")],
            },
            debrief: DebriefIr { text: String::new(), fiches: vec![] },
            next: next.map(s),
            heritage_default: vec![],
            heir_policy: carry_policy(),
            lieux_jouables: vec![],
            cheval_si_chevaux: false,
        },
    }
}

fn campaign() -> Campaign {
    let mut chapters = StrMap::new();
    chapters.insert(s("un"), ir("un", Some("deux")));
    chapters.insert(s("deux"), ir("deux", Some("trois")));
    Campaign {
        meta: ChronicleMeta { id: s("peru"), title: s("Pérou"), lieu: s("Cuzco") },
        entry: s("un"),
        chapters,
    }
}

fn finish(ir: &Ir, state: WorldState) -> WorldState {
    let mut state = state;
    while state.mode != "done" {
        let cmd = if choice_ids(ir, &state).is_empty() {
            Command::Continue
        } else {
            Command::Choose { index: 0 }
        };
        state = apply(ir, state, cmd).ok().unwrap().state;
    }
    state
}

fn done_state() -> WorldState {
    let camp = campaign();
    let first = camp.get("un").unwrap();
    let (state, _) = boot(first).ok().unwrap();
    let mut state = finish(first, state);
    state.fiches.push(FicheGot { id: s("fait:x"), nom: s("X"), texte: s("x") });
    state
}

#[test]
fn lineage_round_trip() {
    let state = done_state();
    let save = merge_lineage(None, "peru", &state);
    assert_eq!(save.schema, SAVE_SCHEMA);
    assert_eq!(save.chronicle, "peru");
    assert_eq!(save.completed, vec![s("un")]);
    assert_eq!(save.next_chapter.as_deref(), Some("deux"));
    assert_eq!(save.flags, state.flags.to_vec());
    let carry = to_carry(&save);
    assert_eq!(carry.heir.as_ref().map(|h| h.id.clone()), Some(s("sisa")));
    assert_eq!(carry.flags.to_vec(), state.flags.to_vec());
    assert_eq!(carry.heritage.to_vec(), state.heritage.to_vec());
    assert_eq!(carry.notes, state.notes);
    assert_eq!(carry.monnaies.get("coca"), Some(&2));
    assert_eq!(carry.fiches.len(), 1);
}

#[test]
fn lineage_accumulates() {
    let state = done_state();
    let first = merge_lineage(None, "peru", &state);
    let mut later = state.copy();
    later.chapter = s("deux");
    later.flags.insert(s("f-new"));
    later.fiches.push(FicheGot { id: s("fait:x"), nom: s("X bis"), texte: s("x") });
    let second = merge_lineage(Some(&first), "peru", &later);
    assert_eq!(second.completed, vec![s("un"), s("deux")]);
    assert!(second.flags.contains(&s("f-new")));
    assert!(second.flags.contains(&s("f-a")));
    assert_eq!(second.fiches.len(), 1);
    assert_eq!(second.fiches[0].nom, "X");
    let again = merge_lineage(Some(&second), "peru", &later);
    assert_eq!(again.completed, vec![s("un"), s("deux")]);
}

#[test]
fn lineage_paths() {
    assert_eq!(instance_dir(None), "instance/chronicle");
    assert_eq!(instance_dir(Some(s("/tmp/x"))), "/tmp/x");
    assert_eq!(save_path("instance/chronicle", "france"), "instance/chronicle/france/lineage.json");
    assert_eq!(save_path("inst/", "peru"), "inst/peru/lineage.json");
    assert_eq!(save_path("inst", "/abs"), "/abs/lineage.json");
    assert_eq!(save_path("", "peru"), "peru/lineage.json");
}

#[test]
fn start_where_the_lineage_left() {
    let camp = campaign();
    assert_eq!(start_chapter(&camp, None, None), Some(s("un")));
    assert_eq!(start_chapter(&camp, Some(s("deux")), None), Some(s("deux")));
    let save = merge_lineage(None, "peru", &done_state());
    assert_eq!(start_chapter(&camp, None, Some(&save)), Some(s("deux")));
    let mut over = merge_lineage(None, "peru", &done_state());
    over.completed.push(s("deux"));
    over.next_chapter = None;
    assert_eq!(start_chapter(&camp, None, Some(&over)), Some(s("trois")));
    over.completed = camp.order();
    assert_eq!(start_chapter(&camp, None, Some(&over)), None);
}

#[test]
fn open_chapter_drops_unknown_next() {
    let camp = campaign();
    let (state, frame) = open_chapter(&camp, "deux", None).ok().unwrap();
    assert_eq!(state.chapter, "deux");
    assert!(state.next_chapter.is_none());
    assert_eq!(frame.mode, "briefing");
    let (state, _) = open_chapter(&camp, "un", None).ok().unwrap();
    assert_eq!(state.next_chapter.as_deref(), Some("deux"));
    assert_eq!(open_chapter(&camp, "dix", None).err(), Some(s("chapter `dix` not in campaign")));
    let mut broken = campaign();
    broken.chapters.insert(s("trois"), {
        let mut i = ir("trois", None);
        i.schema = s("old");
        i
    });
    assert_eq!(
        open_chapter(&broken, "trois", None).err(),
        Some(s("invalid IR: expected chronicle.ir/v1, got old"))
    );
}

#[test]
fn chapter_end_decides() {
    let camp = campaign();
    let done = done_state();
    let end = chapter_end(&camp, &done);
    assert!(end.save);
    assert_eq!(end.next.as_deref(), Some("deux"));
    let mut last = done.copy();
    last.next_chapter = Some(s("trois"));
    let end = chapter_end(&camp, &last);
    assert!(end.save);
    assert!(end.next.is_none());
    let mut mid = done.copy();
    mid.mode = s("debrief");
    let end = chapter_end(&camp, &mid);
    assert!(end.save);
    assert!(end.next.is_none());
    mid.mode = s("petition");
    assert!(!chapter_end(&camp, &mid).save);
}

#[test]
fn saves_only_at_the_end() {
    let done = done_state();
    assert!(should_save(&done, PersistHint::Flush));
    assert!(!should_save(&done, PersistHint::Skip));
    let mut mid = done.copy();
    mid.mode = s("aftermath");
    assert!(!should_save(&mid, PersistHint::Flush));
    mid.mode = s("debrief");
    assert!(should_save(&mid, PersistHint::Flush));
}

#[test]
fn keys_ask_for_commands() {
    let camp = campaign();
    let first = camp.get("un").unwrap();
    let (state, page) = boot(first).ok().unwrap();
    assert!(matches!(map_key(&page, Key::Enter, false), Some(Command::Continue)));
    assert!(matches!(map_key(&page, Key::Esc, false), Some(Command::Quit)));
    assert!(matches!(map_key(&page, Key::Char('q'), false), Some(Command::Quit)));
    assert!(matches!(map_key(&page, Key::Char('n'), false), Some(Command::Notes)));
    assert!(matches!(map_key(&page, Key::Char('?'), false), Some(Command::Help)));
    assert!(matches!(map_key(&page, Key::Up, false), Some(Command::MoveCursor { delta: -1 })));
    assert!(matches!(map_key(&page, Key::Char('j'), false), Some(Command::MoveCursor { delta: 1 })));
    assert!(map_key(&page, Key::Char('2'), false).is_none());
    assert!(map_key(&page, Key::Char('x'), false).is_none());
    assert!(map_key(&page, Key::Enter, true).is_none());
    assert!(map_key(&page, Key::Other, false).is_none());

    let st = apply(first, state, Command::Continue).ok().unwrap();
    let list = st.frame;
    assert!(matches!(map_key(&list, Key::Char('2'), false), Some(Command::Choose { index: 1 })));
    assert!(map_key(&list, Key::Char('0'), false).is_none());
    assert!(matches!(map_key(&list, Key::Enter, false), Some(Command::Choose { index: 0 })));
    let st = apply(first, st.state, Command::MoveCursor { delta: 1 }).ok().unwrap();
    assert!(matches!(map_key(&st.frame, Key::Enter, false), Some(Command::Choose { index: 1 })));
    assert!(st.frame.verb_enabled("choose"));
    assert!(!st.frame.verb_enabled("continue"));
    assert_eq!(st.frame.selected(), 1);

    let st = apply(first, st.state, Command::Help).ok().unwrap();
    assert!(matches!(map_key(&st.frame, Key::Enter, false), Some(Command::Close)));
    assert!(matches!(map_key(&st.frame, Key::Char('x'), false), Some(Command::Close)));
}

#[test]
fn hud_and_side_panel() {
    let camp = campaign();
    let first = camp.get("un").unwrap();
    let (state, page) = boot(first).ok().unwrap();
    assert_eq!(hud_line(&page), " Sisa   Cuzco   briefing   Coca 2 ");
    assert_eq!(side_lines(&page), vec![s("Enter continue")]);
    let st = apply(first, state, Command::Continue).ok().unwrap();
    assert_eq!(side_lines(&st.frame), vec![s("> 1. Choix a"), s("  2. Choix b")]);
}
