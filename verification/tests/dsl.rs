use chronicle::{
    assemble_campaign, carry_policy, extract_yaml, finish_markdown, infer_entry, looks_like_yaml,
    yaml_source, CampagneFile, Campaign, ChapterIr, ChoiceIr, ChronicleMeta, DebriefIr,
    DslError, EncounterIr, HeirIr, Ir, PetitionIr, StrMap, TextBlock, SCHEMA,
};

fn s(x: &str) -> String {
    x.to_string()
}

fn choice(id: &str) -> ChoiceIr {
    ChoiceIr {
        id: s(id),
        label: s(id),
        text: String::new(),
        delta: StrMap::new(),
        flags: vec![],
        notes: None,
        heritage: vec![],
        heritage_remove: vec![],
        next_heir: None,
        next_heir_name: None,
        when_flag: None,
        when_not_flag: None,
    }
}

fn chapter(id: &str, next: Option<&str>) -> ChapterIr {
    ChapterIr {
        id: s(id),
        title: format!("Chapitre {id}"),
        partie: s("france"),
        saison: String::new(),
        dates: String::new(),
        lieux: vec![],
        sanctuaire: String::new(),
        gazette: String::new(),
        monnaies: vec![],
        heir: HeirIr { id: s("h"), name: s("H"), title: String::new() },
        briefing: TextBlock { masthead: String::new(), text: s("b") },
        petitions: vec![PetitionIr {
            id: s("p"),
            title: String::new(),
            text: s("t"),
            choices: vec![choice("a")],
            when_flag: None,
            when_not_flag: None,
        }],
        set_piece: EncounterIr {
            id: s("sp"),
            title: String::new(),
            text: s("t"),
            choices: vec![choice("z")],
        },
        debrief: DebriefIr { text: String::new(), fiches: vec![] },
        next: next.map(s),
        heritage_default: vec![],
        heir_policy: carry_policy(),
        lieux_jouables: vec![],
        cheval_si_chevaux: false,
    }
}

fn meta() -> ChronicleMeta {
    ChronicleMeta { id: s("france"), title: s("France"), lieu: s("Gaule") }
}

fn ir(id: &str, next: Option<&str>) -> Ir {
    Ir { schema: s(SCHEMA), chronicle: meta(), chapter: chapter(id, next) }
}

fn campaign(entry: &str, links: &[(&str, Option<&str>)]) -> Campaign {
    let mut chapters = StrMap::new();
    for (id, next) in links {
        chapters.insert(s(id), ir(id, *next));
    }
    Campaign { meta: meta(), entry: s(entry), chapters }
}

#[test]
fn yaml_fence_required() {
    let err = yaml_source("# hi\n\nno fence\n", "t.md").err().unwrap();
    assert!(err.message().contains("no yaml fence"));
    assert!(matches!(err, DslError::Message(ref m) if m == "t.md: no yaml fence"));
}

#[test]
fn fence_body_is_extracted() {
    let src = "# Titre\n\nIntro.\n\n```yaml\nid: a\ntitle: A\n```\n\nsuite\n";
    assert_eq!(extract_yaml(src), Some(s("id: a\ntitle: A\n")));
    let src = "texte\r\n```yml\r\nid: b\r\n```\r\n";
    assert_eq!(extract_yaml(src), Some(s("id: b\n")));
    assert_eq!(yaml_source(src, "b.md").ok(), Some(s("id: b\n")));
}

#[test]
fn unclosed_fence_is_no_fence() {
    assert_eq!(extract_yaml("# x\n```yaml\nid: a\n"), None);
    assert_eq!(extract_yaml("```\nid: a\n```\n"), None);
}

#[test]
fn bare_yaml_is_taken_whole() {
    assert!(looks_like_yaml("id: x"));
    assert!(looks_like_yaml("chronicle:\n  id: y"));
    assert!(looks_like_yaml("title: T"));
    assert!(!looks_like_yaml("# id: x"));
    assert_eq!(extract_yaml("  \nid: a\ntitle: A\n"), Some(s("id: a\ntitle: A\n")));
}

#[test]
fn finish_markdown_checks_the_chapter() {
    let ok = finish_markdown("a.md", Some(meta()), chapter("a", None)).ok().unwrap();
    assert_eq!(ok.schema, "chronicle.ir/v1");
    assert_eq!(ok.chronicle.id, "france");
    assert_eq!(ok.chapter.id, "a");
    assert_eq!(ok.validate(), Ok(()));

    let own = finish_markdown("a.md", None, chapter("a", None)).ok().unwrap();
    assert_eq!(own.chronicle.id, "france");
    assert_eq!(own.chronicle.title, "Chapitre a");
    assert_eq!(own.chronicle.lieu, "");

    let mut ch = chapter("a", None);
    ch.petitions.clear();
    let e = finish_markdown("a.md", None, ch).err().unwrap();
    assert_eq!(e.message(), "a.md: petitions is empty");

    let mut ch = chapter("a", None);
    ch.set_piece.choices.clear();
    let e = finish_markdown("a.md", None, ch).err().unwrap();
    assert_eq!(e.message(), "a.md: set_piece has no choices");

    let mut ch = chapter("a", None);
    ch.petitions[0].choices.clear();
    let e = finish_markdown("a.md", None, ch).err().unwrap();
    assert_eq!(e.message(), "a.md: petition p has no choices");
}

#[test]
fn dsl_error_messages() {
    assert_eq!(DslError::Message(s("m")).message(), "m");
    assert_eq!(DslError::Io(s("gone")).message(), "io: gone");
    assert_eq!(DslError::Yaml(s("bad")).message(), "yaml: bad");
}

#[test]
fn lint_rejects_dangling_next() {
    let camp = campaign("a", &[("a", Some("b")), ("b", Some("nowhere"))]);
    let err = camp.lint().err().unwrap();
    assert!(err.message().contains("nowhere"));
    assert_eq!(err.message(), "b: next `nowhere` is not a chapter of the campaign");
}

#[test]
fn packs_lint_clean() {
    let camp = campaign("a", &[("a", Some("b")), ("b", Some("c")), ("c", None)]);
    assert!(camp.lint().is_ok());
}

#[test]
fn order_follows_next() {
    let camp = campaign("a", &[("c", None), ("a", Some("b")), ("b", Some("c"))]);
    assert_eq!(camp.order(), vec![s("a"), s("b"), s("c")]);
    let looped = campaign("a", &[("a", Some("b")), ("b", Some("a"))]);
    assert_eq!(looped.order(), vec![s("a"), s("b")]);
    let dangling = campaign("a", &[("a", Some("x"))]);
    assert_eq!(dangling.order(), vec![s("a"), s("x")]);
}

#[test]
fn resume_skips_completed() {
    let camp = campaign("a", &[("a", Some("b")), ("b", Some("c")), ("c", None)]);
    assert_eq!(camp.resume(&[], None), Some(s("a")));
    assert_eq!(camp.resume(&[s("a")], Some("b")), Some(s("b")));
    assert_eq!(camp.resume(&[s("a")], Some("zzz")), Some(s("b")));
    assert_eq!(camp.resume(&[s("a"), s("b")], Some("b")), Some(s("c")));
    assert_eq!(camp.resume(&[s("a"), s("b"), s("c")], None), None);
    assert_eq!(camp.resume(&[s("b")], Some("c")), Some(s("c")));
}

#[test]
fn entry_is_inferred() {
    let camp = campaign("", &[("b", Some("c")), ("a", Some("b")), ("c", None)]);
    assert_eq!(infer_entry(&camp.chapters), "a");
    let ring = campaign("", &[("b", Some("a")), ("a", Some("b"))]);
    assert_eq!(infer_entry(&ring.chapters), "a");
    let none: StrMap<Ir> = StrMap::new();
    assert_eq!(infer_entry(&none), "");
}

#[test]
fn get_and_entry_chapter() {
    let camp = campaign("a", &[("a", Some("b")), ("b", None)]);
    assert_eq!(camp.get("b").map(|ir| ir.chapter.id.clone()), Some(s("b")));
    assert!(camp.get("z").is_none());
    assert_eq!(camp.entry_chapter().ok().map(|ir| ir.chapter.id.clone()), Some(s("a")));
    let lost = campaign("x", &[("a", None)]);
    assert_eq!(lost.entry_chapter().err().unwrap().message(), "entry x missing");
}

#[test]
fn campaign_is_assembled() {
    let files = vec![
        Ok(ir("b", Some("c"))),
        Err(DslError::Message(s("notes.md: no yaml fence"))),
        Ok(ir("a", Some("b"))),
        Ok(ir("c", None)),
    ];
    let camp = assemble_campaign(files, None, "pack").ok().unwrap();
    assert_eq!(camp.entry, "a");
    assert_eq!(camp.meta.id, "france");
    assert_eq!(camp.chapters.len(), 3);
    assert_eq!(camp.order(), vec![s("a"), s("b"), s("c")]);
}

#[test]
fn campagne_file_overrides() {
    let files = vec![Ok(ir("a", Some("b"))), Ok(ir("b", None))];
    let c = CampagneFile { id: s("gaule"), title: String::new(), lieu: s("Lyon"), entry: s("b") };
    let camp = assemble_campaign(files, Some(Ok(c)), "pack").ok().unwrap();
    assert_eq!(camp.entry, "b");
    assert_eq!(camp.meta.id, "gaule");
    assert_eq!(camp.meta.title, "France");
    assert_eq!(camp.meta.lieu, "Lyon");
    assert_eq!(camp.get("a").unwrap().chronicle.id, "gaule");
}

#[test]
fn campaign_errors() {
    let e = assemble_campaign(vec![], None, "pack").err().unwrap();
    assert_eq!(e.message(), "no playable chapters under pack");

    let files = vec![Ok(ir("a", None)), Err(DslError::Yaml(s("bad indent")))];
    let e = assemble_campaign(files, None, "pack").err().unwrap();
    assert_eq!(e.message(), "yaml: bad indent");

    let files = vec![Ok(ir("a", None))];
    let c = CampagneFile { id: String::new(), title: String::new(), lieu: String::new(), entry: s("q") };
    let e = assemble_campaign(files, Some(Ok(c)), "pack").err().unwrap();
    assert_eq!(e.message(), "entry `q` not in campaign");

    let files = vec![Ok(ir("a", None))];
    let e = assemble_campaign(files, Some(Err(DslError::Io(s("denied")))), "pack").err().unwrap();
    assert_eq!(e.message(), "io: denied");
}
