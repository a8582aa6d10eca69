//! Author Markdown (a YAML fence) and campaign assembly: the parts that are not file access
//! or YAML decoding.
use vstd::prelude::*;

use crate::ir::{first_empty_petition, opt_view, ChapterIr, ChronicleMeta, Ir, SCHEMA};
use crate::rules::{first_where, lemma_first_where};
use crate::state::copy_opt;
use crate::strmap::{keys_of, keys_sorted, map_get, map_insert, StrMap};
use crate::strset::texts;
use crate::text::{
    contains_sub, lines_of, lines_str, owned, push_str, starts_with, starts_with_str, str_eq,
    trim, trim_start, trim_start_str, trim_str,
};

verus! {

/// Why a chapter or a campaign could not be compiled.
#[derive(Debug)]
pub enum DslError {
    Message(String),
    Io(String),
    Yaml(String),
}

pub enum DslErrorView {
    Message(Seq<char>),
    Io(Seq<char>),
    Yaml(Seq<char>),
}

impl View for DslError {
    type V = DslErrorView;

    open spec fn view(&self) -> DslErrorView {
        match self {
            DslError::Message(m) => DslErrorView::Message(m@),
            DslError::Io(m) => DslErrorView::Io(m@),
            DslError::Yaml(m) => DslErrorView::Yaml(m@),
        }
    }
}

/// The text shown for a compile error.
pub open spec fn dsl_error_message(e: DslErrorView) -> Seq<char> {
    match e {
        DslErrorView::Message(m) => m,
        DslErrorView::Io(m) => "io: "@ + m,
        DslErrorView::Yaml(m) => "yaml: "@ + m,
    }
}

impl DslError {
    /// The text shown for this error.
    pub fn message(&self) -> (r: String)
        ensures
            r@ == dsl_error_message(self@),
    {
        match self {
            DslError::Message(m) => owned(m.as_str()),
            DslError::Io(m) => {
                let mut r = owned("io: ");
                push_str(&mut r, m.as_str());
                r
            },
            DslError::Yaml(m) => {
                let mut r = owned("yaml: ");
                push_str(&mut r, m.as_str());
                r
            },
        }
    }
}

/// The text starts like a bare YAML chapter.
pub open spec fn looks_like_yaml_spec(s: Seq<char>) -> bool {
    starts_with(s, "id:"@) || starts_with(s, "chronicle:"@) || starts_with(s, "title:"@)
}

/// Whether the text starts like a bare YAML chapter.
pub fn looks_like_yaml(s: &str) -> (r: bool)
    ensures
        r == looks_like_yaml_spec(s@),
{
    starts_with_str(s, "id:") || starts_with_str(s, "chronicle:") || starts_with_str(s, "title:")
}

/// The lines of a fence body up to its closing fence, each followed by a line feed;
/// `None` when the fence is never closed.
pub open spec fn fence_body(ls: Seq<Seq<char>>) -> Option<Seq<char>>
    decreases ls.len(),
{
    if ls.len() == 0 {
        None
    } else if trim(ls[0]) == "```"@ {
        Some(Seq::empty())
    } else {
        match fence_body(ls.skip(1)) {
            Some(b) => Some(ls[0] + "\n"@ + b),
            None => None,
        }
    }
}

/// The body of the first ```` ```yaml ```` (or ```` ```yml ````) fence among `ls`.
pub open spec fn fence_scan(ls: Seq<Seq<char>>) -> Option<Seq<char>>
    decreases ls.len(),
{
    if ls.len() == 0 {
        None
    } else if trim(ls[0]) == "```yaml"@ || trim(ls[0]) == "```yml"@ {
        fence_body(ls.skip(1))
    } else {
        fence_scan(ls.skip(1))
    }
}

/// The YAML of a chapter source: the whole source when it is bare YAML, else the first fence.
pub open spec fn extract_yaml_spec(src: Seq<char>) -> Option<Seq<char>> {
    let t = trim_start(src);
    if !starts_with(t, "#"@) && !starts_with(t, "```"@) && looks_like_yaml_spec(t) {
        Some(t)
    } else {
        fence_scan(lines_of(src))
    }
}

fn fence_body_exec(ls: &Vec<String>, from: usize) -> (r: Option<String>)
    requires
        from <= ls.len(),
    ensures
        opt_view(r) == fence_body(texts(ls@).skip(from as int)),
{
    let ghost all = texts(ls@);
    let mut buf = String::new();
    let mut j = from;
    assert(buf@ + Seq::<char>::empty() =~= buf@);
    while j < ls.len()
        invariant
            from <= j <= ls.len(),
            all == texts(ls@),
            match fence_body(all.skip(j as int)) {
                Some(b) => fence_body(all.skip(from as int)) == Some(buf@ + b),
                None => fence_body(all.skip(from as int)) is None,
            },
        decreases ls.len() - j,
    {
        let ghost rest = all.skip(j as int);
        assert(rest[0] == ls@[j as int]@);
        assert(rest.skip(1) =~= all.skip(j + 1));
        let t = trim_str(ls[j].as_str());
        if str_eq(t.as_str(), "```") {
            assert(buf@ + Seq::<char>::empty() =~= buf@);
            return Some(buf);
        }
        let ghost before = buf@;
        push_str(&mut buf, ls[j].as_str());
        push_str(&mut buf, "\n");
        proof {
            if let Some(b) = fence_body(all.skip(j + 1)) {
                assert(before + (ls@[j as int]@ + "\n"@ + b) =~= buf@ + b);
            }
        }
        j += 1;
    }
    assert(all.skip(j as int).len() == 0);
    None
}

/// The YAML of a chapter source.
pub fn extract_yaml(src: &str) -> (r: Option<String>)
    ensures
        opt_view(r) == extract_yaml_spec(src@),
{
    let trimmed = trim_start_str(src);
    if !starts_with_str(trimmed.as_str(), "#") && !starts_with_str(trimmed.as_str(), "```")
        && looks_like_yaml(trimmed.as_str()) {
        return Some(trimmed);
    }
    let ls = lines_str(src);
    let ghost all = texts(ls@);
    let mut i: usize = 0;
    assert(all.skip(0) =~= all);
    while i < ls.len()
        invariant
            i <= ls.len(),
            all == texts(ls@),
            all == lines_of(src@),
            extract_yaml_spec(src@) == fence_scan(all),
            fence_scan(all) == fence_scan(all.skip(i as int)),
        decreases ls.len() - i,
    {
        let ghost rest = all.skip(i as int);
        assert(rest[0] == ls@[i as int]@);
        assert(rest.skip(1) =~= all.skip(i + 1));
        let t = trim_str(ls[i].as_str());
        if str_eq(t.as_str(), "```yaml") || str_eq(t.as_str(), "```yml") {
            return fence_body_exec(&ls, i + 1);
        }
        i += 1;
    }
    None
}

/// The YAML of a chapter source, or the error that names the file.
pub fn yaml_source(src: &str, file: &str) -> (r: Result<String, DslError>)
    ensures
        match (r, extract_yaml_spec(src@)) {
            (Ok(y), Some(v)) => y@ == v,
            (Err(e), None) => e@ == DslErrorView::Message(file@ + ": no yaml fence"@),
            _ => false,
        },
{
    match extract_yaml(src) {
        Some(y) => Ok(y),
        None => {
            let mut m = owned(file);
            push_str(&mut m, ": no yaml fence");
            Err(DslError::Message(m))
        },
    }
}

/// A chapter's own message when its shape is wrong: no petitions, no set-piece choices,
/// or a petition without choices.
pub open spec fn chapter_problem(file: Seq<char>, ch: ChapterIr) -> Option<Seq<char>> {
    if ch.petitions@.len() == 0 {
        Some(file + ": petitions is empty"@)
    } else if ch.set_piece.choices@.len() == 0 {
        Some(file + ": set_piece has no choices"@)
    } else {
        match first_empty_petition(ch.petitions@, ch.petitions@.len()) {
            Some(i) => Some(file + ": petition "@ + ch.petitions@[i].id@ + " has no choices"@),
            None => None,
        }
    }
}

/// The chronicle of a chapter file: the one it names, else one made from its `partie` and title.
pub open spec fn chronicle_or_default(c: Option<ChronicleMeta>, ch: ChapterIr) -> (Seq<char>, Seq<char>, Seq<char>) {
    match c {
        Some(m) => (m.id@, m.title@, m.lieu@),
        None => (ch.partie@, ch.title@, Seq::empty()),
    }
}

/// Turns a decoded chapter file into a checked chapter.
pub fn finish_markdown(file: &str, chronicle: Option<ChronicleMeta>, chapter: ChapterIr) -> (r: Result<Ir, DslError>)
    ensures
        match (r, chapter_problem(file@, chapter)) {
            (Ok(ir), None) => {
                &&& ir.schema@ == SCHEMA@
                &&& ir.chapter == chapter
                &&& (ir.chronicle.id@, ir.chronicle.title@, ir.chronicle.lieu@)
                    == chronicle_or_default(chronicle, chapter)
                &&& ir.validation() is Ok
            },
            (Err(e), Some(m)) => e@ == DslErrorView::Message(m),
            _ => false,
        },
{
    if chapter.petitions.len() == 0 {
        let mut m = owned(file);
        push_str(&mut m, ": petitions is empty");
        return Err(DslError::Message(m));
    }
    if chapter.set_piece.choices.len() == 0 {
        let mut m = owned(file);
        push_str(&mut m, ": set_piece has no choices");
        return Err(DslError::Message(m));
    }
    let mut i: usize = 0;
    while i < chapter.petitions.len()
        invariant
            i <= chapter.petitions@.len(),
            chapter.petitions@.len() > 0,
            chapter.set_piece.choices@.len() > 0,
            first_empty_petition(chapter.petitions@, i as nat) is None,
        decreases chapter.petitions@.len() - i,
    {
        if chapter.petitions[i].choices.len() == 0 {
            assert(first_empty_petition(chapter.petitions@, (i + 1) as nat) == Some(i as int));
            proof {
                lemma_first_empty_stable(chapter.petitions@, (i + 1) as nat, chapter.petitions@.len());
            }
            let mut m = owned(file);
            push_str(&mut m, ": petition ");
            push_str(&mut m, chapter.petitions[i].id.as_str());
            push_str(&mut m, " has no choices");
            return Err(DslError::Message(m));
        }
        i += 1;
    }
    let chronicle = match chronicle {
        Some(c) => c,
        None => ChronicleMeta {
            id: chapter.partie.clone(),
            title: chapter.title.clone(),
            lieu: String::new(),
        },
    };
    let ir = Ir { schema: owned(SCHEMA), chronicle, chapter };
    match ir.validate() {
        Ok(()) => Ok(ir),
        Err(e) => {
            let mut m = owned(file);
            push_str(&mut m, ": ");
            push_str(&mut m, e.as_str());
            Err(DslError::Message(m))
        },
    }
}

proof fn lemma_first_empty_stable(ps: Seq<crate::ir::PetitionIr>, n: nat, m: nat)
    requires
        n <= m,
        first_empty_petition(ps, n) is Some,
    ensures
        first_empty_petition(ps, m) == first_empty_petition(ps, n),
    decreases m - n,
{
    if n < m {
        lemma_first_empty_stable(ps, n, (m - 1) as nat);
    }
}

/// The chapter that chapter `id` leads to, when `id` is a chapter of `m`.
pub open spec fn next_of(m: Seq<(Seq<char>, Ir)>, id: Seq<char>) -> Option<Seq<char>> {
    match map_get(m, id) {
        Some(ir) => opt_view(ir.chapter.next),
        None => None,
    }
}

/// Following `next` links from `cur`, adding each id to `out`, until a link is missing,
/// an id comes again, or `fuel` runs out.
pub open spec fn walk(m: Seq<(Seq<char>, Ir)>, out: Seq<Seq<char>>, cur: Option<Seq<char>>, fuel: nat) -> Seq<Seq<char>>
    decreases fuel,
{
    if fuel == 0 {
        out
    } else {
        match cur {
            None => out,
            Some(c) => if out.contains(c) {
                out
            } else {
                walk(m, out.push(c), next_of(m, c), (fuel - 1) as nat)
            },
        }
    }
}

/// The chapters in play order: from the entry along the `next` links, each at most once.
pub open spec fn campaign_order(m: Seq<(Seq<char>, Ir)>, entry: Seq<char>) -> Seq<Seq<char>> {
    walk(m, Seq::empty(), Some(entry), m.len() + 1)
}

/// Chapter `j` of `m` names a `next` that is not a chapter of `m`.
pub open spec fn dangling_at(m: Seq<(Seq<char>, Ir)>) -> spec_fn(int) -> bool {
    |j: int|
        match m[j].1.chapter.next {
            Some(n) => map_get(m, n@) is None,
            None => false,
        }
}

/// What `lint` reports for `m`: the first chapter (in id order) whose `next` is not a chapter.
pub open spec fn lint_spec(m: Seq<(Seq<char>, Ir)>) -> Result<(), Seq<char>> {
    match first_where(m.len(), dangling_at(m)) {
        Some(j) => Err(
            m[j].0 + ": next `"@ + opt_view(m[j].1.chapter.next)->0 + "` is not a chapter of the campaign"@,
        ),
        None => Ok(()),
    }
}

/// Id `k` is the `next` of some chapter of `m`.
pub open spec fn is_target(m: Seq<(Seq<char>, Ir)>, k: Seq<char>) -> bool {
    exists|j: int| 0 <= j < m.len() && opt_view(m[j].1.chapter.next) == Some(k)
}

/// Chapter `j` of `m` is nobody's `next`.
pub open spec fn untargeted_at(m: Seq<(Seq<char>, Ir)>) -> spec_fn(int) -> bool {
    |j: int| !is_target(m, m[j].0)
}

/// The entry a campaign without an explicit one starts from: the first chapter (in id order)
/// that no chapter leads to, else the first chapter, else nothing.
pub open spec fn inferred_entry(m: Seq<(Seq<char>, Ir)>) -> Seq<char> {
    match first_where(m.len(), untargeted_at(m)) {
        Some(j) => m[j].0,
        None => if m.len() > 0 {
            m[0].0
        } else {
            Seq::empty()
        },
    }
}

/// Where a lineage resumes: the saved next chapter when it is a chapter not yet completed,
/// else the first chapter in play order not yet completed.
pub open spec fn resume_spec(
    m: Seq<(Seq<char>, Ir)>,
    entry: Seq<char>,
    completed: Seq<Seq<char>>,
    next: Option<Seq<char>>,
) -> Option<Seq<char>> {
    let ord = campaign_order(m, entry);
    if next is Some && map_get(m, next->0) is Some && !completed.contains(next->0) {
        next
    } else {
        match first_where(ord.len(), not_done(completed, ord)) {
            Some(j) => Some(ord[j]),
            None => None,
        }
    }
}

/// Position `j` of `ord` is not among `completed`.
pub open spec fn not_done(completed: Seq<Seq<char>>, ord: Seq<Seq<char>>) -> spec_fn(int) -> bool {
    |j: int| !completed.contains(ord[j])
}

/// A campaign: its chronicle, the chapter it starts from, and its chapters by id.
pub struct Campaign {
    pub meta: ChronicleMeta,
    pub entry: String,
    pub chapters: StrMap<Ir>,
}

pub(crate) proof fn lemma_distinct_keys_bound(s: Seq<Seq<char>>, m: Seq<(Seq<char>, Ir)>)
    requires
        s.no_duplicates(),
        keys_sorted(m),
        forall|i: int| 0 <= i < s.len() ==> map_get(m, #[trigger] s[i]) is Some,
    ensures
        s.len() <= m.len(),
{
    let ks = keys_of(m);
    assert forall|x: Seq<char>| s.to_set().contains(x) implies ks.to_set().contains(x) by {
        let i = choose|i: int| 0 <= i < s.len() && s[i] == x;
        assert(map_get(m, s[i]) is Some);
        lemma_map_get_some_key(m, x);
        let j = choose|j: int| 0 <= j < m.len() && m[j].0 == x;
        assert(ks[j] == x);
    }
    s.unique_seq_to_set();
    ks.lemma_cardinality_of_set();
    vstd::set_lib::lemma_len_subset(s.to_set(), ks.to_set());
}

pub(crate) proof fn lemma_map_get_some_key(m: Seq<(Seq<char>, Ir)>, k: Seq<char>)
    requires
        map_get(m, k) is Some,
    ensures
        exists|j: int| 0 <= j < m.len() && m[j].0 == k,
    decreases m.len(),
{
    if m[0].0 != k {
        lemma_map_get_some_key(m.skip(1), k);
        let j = choose|j: int| 0 <= j < m.skip(1).len() && m.skip(1)[j].0 == k;
        assert(m[j + 1].0 == k);
    }
}

impl Campaign {
    /// The chapter the campaign starts from; an error naming the entry when it is missing.
    pub fn entry_chapter(&self) -> (r: Result<&Ir, DslError>)
        ensures
            match r {
                Ok(ir) => map_get(self.chapters@, self.entry@) == Some(*ir),
                Err(e) => map_get(self.chapters@, self.entry@) is None && e@ == DslErrorView::Message(
                    "entry "@ + self.entry@ + " missing"@,
                ),
            },
    {
        match self.chapters.get(self.entry.as_str()) {
            Some(ir) => Ok(ir),
            None => {
                let mut m = owned("entry ");
                push_str(&mut m, self.entry.as_str());
                push_str(&mut m, " missing");
                Err(DslError::Message(m))
            },
        }
    }

    /// The chapter with id `id`.
    pub fn get(&self, id: &str) -> (r: Option<&Ir>)
        ensures
            match r {
                Some(ir) => map_get(self.chapters@, id@) == Some(*ir),
                None => map_get(self.chapters@, id@) is None,
            },
    {
        self.chapters.get(id)
    }

    /// The chapter ids in play order.
    pub fn order(&self) -> (r: Vec<String>)
        ensures
            texts(r@) == campaign_order(self.chapters@, self.entry@),
    {
        self.chapters.check_sorted();
        let ghost m = self.chapters@;
        let ghost n = m.len() + 1;
        let mut out: Vec<String> = Vec::new();
        let mut cur: Option<String> = Some(self.entry.clone());
        assert(texts(out@) =~= Seq::<Seq<char>>::empty());
        loop
            invariant
                m == self.chapters@,
                keys_sorted(m),
                n == m.len() + 1,
                texts(out@).no_duplicates(),
                out.len() <= n,
                cur is Some ==> forall|i: int| 0 <= i < out.len() ==> map_get(m, #[trigger] texts(out@)[i]) is Some,
                campaign_order(m, self.entry@) == walk(m, texts(out@), opt_view(cur), (n - out.len()) as nat),
            ensures
                texts(out@) == campaign_order(self.chapters@, self.entry@),
            decreases n - out.len(),
        {
            let c = match cur {
                None => {
                    break;
                },
                Some(c) => c,
            };
            proof {
                lemma_distinct_keys_bound(texts(out@), m);
            }
            if crate::engine::strings_contain(&out, c.as_str()) {
                break;
            }
            let next = match self.chapters.get(c.as_str()) {
                Some(ir) => copy_opt(&ir.chapter.next),
                None => None,
            };
            let ghost prev = texts(out@);
            let ghost cv = c@;
            out.push(c);
            assert(texts(out@) =~= prev.push(cv));
            proof {
                assert forall|a: int, b: int| 0 <= a < b < texts(out@).len() implies texts(out@)[a] != texts(out@)[b] by {
                    if b == prev.len() {
                        assert(prev.contains(texts(out@)[a])) by {
                            assert(prev[a] == texts(out@)[a]);
                        }
                    } else {
                        assert(prev[a] == texts(out@)[a]);
                        assert(prev[b] == texts(out@)[b]);
                    }
                }
            }
            cur = next;
        }
        out
    }

    /// Where a lineage resumes: `next` when it is a chapter not yet completed, else the
    /// first chapter in play order not yet completed; `None` when all are completed.
    pub fn resume(&self, completed: &[String], next: Option<&str>) -> (r: Option<String>)
        ensures
            opt_view(r) == resume_spec(
                self.chapters@,
                self.entry@,
                texts(completed@),
                str_opt_view(next),
            ),
    {
        if let Some(n) = next {
            if self.chapters.contains_key(n) && !slice_contains(completed, n) {
                return Some(owned(n));
            }
        }
        let ord = self.order();
        let ghost o = texts(ord@);
        let mut i: usize = 0;
        while i < ord.len()
            invariant
                i <= ord.len(),
                o == texts(ord@),
                o == campaign_order(self.chapters@, self.entry@),
                resume_spec(self.chapters@, self.entry@, texts(completed@), str_opt_view(next))
                    == match first_where(o.len(), not_done(texts(completed@), o)) {
                    Some(j) => Some(o[j]),
                    None => None,
                },
                first_where(i as nat, not_done(texts(completed@), o)) is None,
            decreases ord.len() - i,
        {
            if !slice_contains(completed, ord[i].as_str()) {
                assert(o[i as int] == ord@[i as int]@);
                assert(first_where((i + 1) as nat, not_done(texts(completed@), o)) == Some(i as int));
                proof {
                    lemma_first_where_stable((i + 1) as nat, o.len(), not_done(texts(completed@), o));
                }
                return Some(ord[i].clone());
            }
            assert(o[i as int] == ord@[i as int]@);
            i += 1;
        }
        None
    }

    /// Checks that every `next` names a chapter of the campaign.
    pub fn lint(&self) -> (r: Result<(), DslError>)
        ensures
            match (r, lint_spec(self.chapters@)) {
                (Ok(()), Ok(())) => true,
                (Err(e), Err(m)) => e@ == DslErrorView::Message(m),
                _ => false,
            },
    {
        let ghost m = self.chapters@;
        let mut j: usize = 0;
        while j < self.chapters.len()
            invariant
                j <= m.len(),
                m == self.chapters@,
                first_where(j as nat, dangling_at(m)) is None,
            decreases m.len() - j,
        {
            let (id, ir) = self.chapters.entry(j);
            if let Some(n) = &ir.chapter.next {
                if !self.chapters.contains_key(n.as_str()) {
                    assert(first_where((j + 1) as nat, dangling_at(m)) == Some(j as int));
                    proof {
                        lemma_first_where_stable((j + 1) as nat, m.len(), dangling_at(m));
                    }
                    let mut msg = owned(id.as_str());
                    push_str(&mut msg, ": next `");
                    push_str(&mut msg, n.as_str());
                    push_str(&mut msg, "` is not a chapter of the campaign");
                    return Err(DslError::Message(msg));
                }
            }
            j += 1;
        }
        Ok(())
    }
}

/// The view of an optional string slice.
pub open spec fn str_opt_view(o: Option<&str>) -> Option<Seq<char>> {
    match o {
        Some(s) => Some(s@),
        None => None,
    }
}

/// Whether `x` is one of the strings of `v`.
fn slice_contains(v: &[String], x: &str) -> (r: bool)
    ensures
        r == texts(v@).contains(x@),
{
    let mut i: usize = 0;
    while i < v.len()
        invariant
            i <= v@.len(),
            forall|k: int| 0 <= k < i ==> texts(v@)[k] != x@,
        decreases v@.len() - i,
    {
        if str_eq(v[i].as_str(), x) {
            assert(texts(v@)[i as int] == x@);
            return true;
        }
        i += 1;
    }
    false
}

proof fn lemma_first_where_stable(n: nat, m: nat, p: spec_fn(int) -> bool)
    requires
        n <= m,
        first_where(n, p) is Some,
    ensures
        first_where(m, p) == first_where(n, p),
    decreases m - n,
{
    if n < m {
        lemma_first_where_stable(n, (m - 1) as nat, p);
    }
}

/// The entry of a campaign that does not name one.
pub fn infer_entry(chapters: &StrMap<Ir>) -> (r: String)
    ensures
        r@ == inferred_entry(chapters@),
{
    let ghost m = chapters@;
    let mut j: usize = 0;
    while j < chapters.len()
        invariant
            j <= m.len(),
            m == chapters@,
            first_where(j as nat, untargeted_at(m)) is None,
        decreases m.len() - j,
    {
        let (id, _) = chapters.entry(j);
        let mut targeted = false;
        let mut k: usize = 0;
        while k < chapters.len()
            invariant
                k <= m.len(),
                m == chapters@,
                id@ == m[j as int].0,
                targeted == exists|i: int| 0 <= i < k && opt_view(m[i].1.chapter.next) == Some(id@),
            decreases m.len() - k,
        {
            let (_, ir) = chapters.entry(k);
            if let Some(n) = &ir.chapter.next {
                if str_eq(n.as_str(), id.as_str()) {
                    targeted = true;
                }
            }
            k += 1;
        }
        if !targeted {
            assert(first_where((j + 1) as nat, untargeted_at(m)) == Some(j as int));
            proof {
                lemma_first_where_stable((j + 1) as nat, m.len(), untargeted_at(m));
            }
            return id.clone();
        }
        j += 1;
    }
    if chapters.len() > 0 {
        let (id, _) = chapters.entry(0);
        id.clone()
    } else {
        String::new()
    }
}

/// The fields of a `campagne.yaml` file.
pub struct CampagneFile {
    pub id: String,
    pub title: String,
    pub lieu: String,
    pub entry: String,
}

/// The id, title and place of a chronicle.
pub open spec fn meta_view(m: ChronicleMeta) -> (Seq<char>, Seq<char>, Seq<char>) {
    (m.id@, m.title@, m.lieu@)
}

/// A compile outcome that stops the campaign: any error but a file without a YAML fence.
pub open spec fn fatal(r: Result<Ir, DslError>) -> bool {
    match r {
        Ok(_) => false,
        Err(e) => !(match e@ {
            DslErrorView::Message(m) => contains_sub(m, "no yaml fence"@),
            _ => false,
        }),
    }
}

pub open spec fn fatal_at(files: Seq<Result<Ir, DslError>>) -> spec_fn(int) -> bool {
    |j: int| fatal(files[j])
}

/// The chapters that compiled, in file order.
pub open spec fn compiled(files: Seq<Result<Ir, DslError>>) -> Seq<Ir>
    decreases files.len(),
{
    if files.len() == 0 {
        Seq::empty()
    } else {
        match files.last() {
            Ok(ir) => compiled(files.drop_last()).push(ir),
            Err(_) => compiled(files.drop_last()),
        }
    }
}

/// The chronicle of a campaign: that of the first chapter with a chronicle id.
pub open spec fn meta_fold(irs: Seq<Ir>) -> (Seq<char>, Seq<char>, Seq<char>)
    decreases irs.len(),
{
    if irs.len() == 0 {
        (Seq::empty(), Seq::empty(), Seq::empty())
    } else {
        let m = meta_fold(irs.drop_last());
        if m.0.len() == 0 {
            meta_view(irs.last().chronicle)
        } else {
            m
        }
    }
}

/// The chapters by id, a later file replacing an earlier one with the same id.
pub open spec fn chapter_model(irs: Seq<Ir>) -> Seq<(Seq<char>, Ir)>
    decreases irs.len(),
{
    if irs.len() == 0 {
        Seq::empty()
    } else {
        map_insert(chapter_model(irs.drop_last()), irs.last().chapter.id@, irs.last())
    }
}

/// The chronicle after the non-empty fields of a `campagne.yaml` file are written over it.
pub open spec fn override_meta(
    m: (Seq<char>, Seq<char>, Seq<char>),
    c: CampagneFile,
) -> (Seq<char>, Seq<char>, Seq<char>) {
    (
        if c.id@.len() > 0 { c.id@ } else { m.0 },
        if c.title@.len() > 0 { c.title@ } else { m.1 },
        if c.lieu@.len() > 0 { c.lieu@ } else { m.2 },
    )
}

/// `a` holds the chapters of `b` under the same ids, each with the chronicle `meta`.
pub open spec fn related(
    a: Seq<(Seq<char>, Ir)>,
    b: Seq<(Seq<char>, Ir)>,
    meta: (Seq<char>, Seq<char>, Seq<char>),
) -> bool {
    &&& a.len() == b.len()
    &&& forall|i: int|
        0 <= i < a.len() ==> {
            &&& (#[trigger] a[i]).0 == b[i].0
            &&& a[i].1.schema == b[i].1.schema
            &&& a[i].1.chapter == b[i].1.chapter
            &&& meta_view(a[i].1.chronicle) == meta
        }
}

/// What assembling a campaign answers: its chronicle and entry, or the error.
pub open spec fn assemble_spec(
    files: Seq<Result<Ir, DslError>>,
    campagne: Option<Result<CampagneFile, DslError>>,
    dir: Seq<char>,
) -> Result<((Seq<char>, Seq<char>, Seq<char>), Seq<char>), DslErrorView> {
    match first_where(files.len(), fatal_at(files)) {
        Some(j) => Err(files[j]->Err_0@),
        None => {
            let irs = compiled(files);
            if irs.len() == 0 {
                Err(DslErrorView::Message("no playable chapters under "@ + dir))
            } else {
                let m0 = meta_fold(irs);
                match campagne {
                    Some(Err(e)) => Err(e@),
                    _ => {
                        let meta = match campagne {
                            Some(Ok(c)) => override_meta(m0, c),
                            _ => m0,
                        };
                        let entry0 = match campagne {
                            Some(Ok(c)) => c.entry@,
                            _ => Seq::empty(),
                        };
                        let model = chapter_model(irs);
                        let entry = if entry0.len() == 0 {
                            inferred_entry(model)
                        } else {
                            entry0
                        };
                        if map_get(model, entry) is None {
                            Err(DslErrorView::Message("entry `"@ + entry + "` not in campaign"@))
                        } else {
                            Ok((meta, entry))
                        }
                    },
                }
            }
        },
    }
}

proof fn lemma_related_insert(
    a: Seq<(Seq<char>, Ir)>,
    b: Seq<(Seq<char>, Ir)>,
    meta: (Seq<char>, Seq<char>, Seq<char>),
    k: Seq<char>,
    v1: Ir,
    v2: Ir,
)
    requires
        related(a, b, meta),
        v1.schema == v2.schema,
        v1.chapter == v2.chapter,
        meta_view(v1.chronicle) == meta,
    ensures
        related(map_insert(a, k, v1), map_insert(b, k, v2), meta),
    decreases a.len(),
{
    if a.len() > 0 {
        assert(a[0].0 == b[0].0);
        if a[0].0 != k && !crate::text::text_lt(k, a[0].0) {
            let ta = a.skip(1);
            let tb = b.skip(1);
            assert forall|i: int| 0 <= i < ta.len() implies {
                &&& (#[trigger] ta[i]).0 == tb[i].0
                &&& ta[i].1.schema == tb[i].1.schema
                &&& ta[i].1.chapter == tb[i].1.chapter
                &&& meta_view(ta[i].1.chronicle) == meta
            } by {
                assert(ta[i] == a[i + 1]);
                assert(tb[i] == b[i + 1]);
            }
            lemma_related_insert(ta, tb, meta, k, v1, v2);
            let ra = map_insert(ta, k, v1);
            let rb = map_insert(tb, k, v2);
            assert forall|i: int| 0 <= i < ra.len() + 1 implies {
                &&& (#[trigger] (seq![a[0]] + ra)[i]).0 == (seq![b[0]] + rb)[i].0
                &&& (seq![a[0]] + ra)[i].1.schema == (seq![b[0]] + rb)[i].1.schema
                &&& (seq![a[0]] + ra)[i].1.chapter == (seq![b[0]] + rb)[i].1.chapter
                &&& meta_view((seq![a[0]] + ra)[i].1.chronicle) == meta
            } by {
                if i > 0 {
                    assert((seq![a[0]] + ra)[i] == ra[i - 1]);
                    assert((seq![b[0]] + rb)[i] == rb[i - 1]);
                }
            }
        } else if a[0].0 == k {
            let ra = seq![(k, v1)] + a.skip(1);
            let rb = seq![(k, v2)] + b.skip(1);
            assert forall|i: int| 0 <= i < ra.len() implies {
                &&& (#[trigger] ra[i]).0 == rb[i].0
                &&& ra[i].1.schema == rb[i].1.schema
                &&& ra[i].1.chapter == rb[i].1.chapter
                &&& meta_view(ra[i].1.chronicle) == meta
            } by {
                if i > 0 {
                    assert(ra[i] == a[i]);
                    assert(rb[i] == b[i]);
                }
            }
        } else {
            let ra = seq![(k, v1)] + a;
            let rb = seq![(k, v2)] + b;
            assert forall|i: int| 0 <= i < ra.len() implies {
                &&& (#[trigger] ra[i]).0 == rb[i].0
                &&& ra[i].1.schema == rb[i].1.schema
                &&& ra[i].1.chapter == rb[i].1.chapter
                &&& meta_view(ra[i].1.chronicle) == meta
            } by {
                if i > 0 {
                    assert(ra[i] == a[i - 1]);
                    assert(rb[i] == b[i - 1]);
                }
            }
        }
    } else {
        let ra = map_insert(a, k, v1);
        let rb = map_insert(b, k, v2);
        assert(ra[0] == (k, v1));
        assert(rb[0] == (k, v2));
    }
}

proof fn lemma_related_get(
    a: Seq<(Seq<char>, Ir)>,
    b: Seq<(Seq<char>, Ir)>,
    meta: (Seq<char>, Seq<char>, Seq<char>),
    k: Seq<char>,
)
    requires
        related(a, b, meta),
    ensures
        (map_get(a, k) is Some) == (map_get(b, k) is Some),
    decreases a.len(),
{
    if a.len() > 0 {
        assert(a[0].0 == b[0].0);
        let ta = a.skip(1);
        let tb = b.skip(1);
        assert forall|i: int| 0 <= i < ta.len() implies {
            &&& (#[trigger] ta[i]).0 == tb[i].0
            &&& ta[i].1.schema == tb[i].1.schema
            &&& ta[i].1.chapter == tb[i].1.chapter
            &&& meta_view(ta[i].1.chronicle) == meta
        } by {
            assert(ta[i] == a[i + 1]);
            assert(tb[i] == b[i + 1]);
        }
        lemma_related_get(ta, tb, meta, k);
    }
}

proof fn lemma_first_where_ext(n: nat, p: spec_fn(int) -> bool, q: spec_fn(int) -> bool)
    requires
        forall|j: int| 0 <= j < n ==> #[trigger] p(j) == q(j),
    ensures
        first_where(n, p) == first_where(n, q),
    decreases n,
{
    if n > 0 {
        lemma_first_where_ext((n - 1) as nat, p, q);
    }
}

proof fn lemma_related_entry(
    a: Seq<(Seq<char>, Ir)>,
    b: Seq<(Seq<char>, Ir)>,
    meta: (Seq<char>, Seq<char>, Seq<char>),
)
    requires
        related(a, b, meta),
    ensures
        inferred_entry(a) == inferred_entry(b),
{
    assert forall|k: Seq<char>| is_target(a, k) == is_target(b, k) by {
        if is_target(a, k) {
            let j = choose|j: int| 0 <= j < a.len() && opt_view(a[j].1.chapter.next) == Some(k);
            assert(a[j].1.chapter == b[j].1.chapter);
        }
        if is_target(b, k) {
            let j = choose|j: int| 0 <= j < b.len() && opt_view(b[j].1.chapter.next) == Some(k);
            assert(a[j].1.chapter == b[j].1.chapter);
        }
    }
    assert forall|j: int| 0 <= j < a.len() implies #[trigger] untargeted_at(a)(j) == untargeted_at(b)(j) by {
        assert(a[j].0 == b[j].0);
    }
    lemma_first_where_ext(a.len(), untargeted_at(a), untargeted_at(b));
    if a.len() > 0 {
        assert(a[0].0 == b[0].0);
    }
    match first_where(a.len(), untargeted_at(a)) {
        Some(j) => {
            lemma_first_where(a.len(), untargeted_at(a));
            assert(a[j].0 == b[j].0);
        },
        None => {},
    }
}

/// Builds a campaign from its compiled chapter files (in path order) and its optional
/// `campagne.yaml`; `dir` names the directory in messages.
pub fn assemble_campaign(
    files: Vec<Result<Ir, DslError>>,
    campagne: Option<Result<CampagneFile, DslError>>,
    dir: &str,
) -> (r: Result<Campaign, DslError>)
    ensures
        match (r, assemble_spec(files@, campagne, dir@)) {
            (Ok(c), Ok((meta, entry))) => {
                &&& meta_view(c.meta) == meta
                &&& c.entry@ == entry
                &&& related(c.chapters@, chapter_model(compiled(files@)), meta)
            },
            (Err(e), Err(v)) => e@ == v,
            _ => false,
        },
{
    let ghost fs = files@;
    let nfiles = files.len();
    let mut rest = files;
    let mut irs: Vec<Ir> = Vec::new();
    let mut i: usize = 0;
    assert(fs.take(0) =~= Seq::<Result<Ir, DslError>>::empty());
    while rest.len() > 0
        invariant
            i <= fs.len(),
            fs.len() == nfiles,
            fs == files@,
            rest@ == fs.skip(i as int),
            irs@ == compiled(fs.take(i as int)),
            first_where(i as nat, fatal_at(fs)) is None,
        decreases rest.len(),
    {
        let r = rest.remove(0);
        assert(r == fs[i as int]);
        assert(fs.take(i + 1).drop_last() =~= fs.take(i as int));
        assert(fs.take(i + 1).last() == fs[i as int]);
        assert(rest@ =~= fs.skip(i + 1));
        match r {
            Ok(ir) => {
                irs.push(ir);
            },
            Err(e) => {
                let skip = match &e {
                    DslError::Message(m) => crate::text::contains_str(m.as_str(), "no yaml fence"),
                    _ => false,
                };
                if !skip {
                    assert(first_where((i + 1) as nat, fatal_at(fs)) == Some(i as int));
                    proof {
                        lemma_first_where_stable((i + 1) as nat, fs.len(), fatal_at(fs));
                    }
                    return Err(e);
                }
            },
        }
        i += 1;
    }
    assert(fs.take(i as int) =~= fs);
    if irs.len() == 0 {
        let mut m = owned("no playable chapters under ");
        push_str(&mut m, dir);
        return Err(DslError::Message(m));
    }
    let ghost all = irs@;
    let mut id = String::new();
    let mut title = String::new();
    let mut lieu = String::new();
    let mut k: usize = 0;
    assert(all.take(0) =~= Seq::<Ir>::empty());
    while k < irs.len()
        invariant
            k <= irs.len(),
            all == irs@,
            (id@, title@, lieu@) == meta_fold(all.take(k as int)),
        decreases irs.len() - k,
    {
        assert(all.take(k + 1).drop_last() =~= all.take(k as int));
        if id.as_str().unicode_len() == 0 {
            id = irs[k].chronicle.id.clone();
            title = irs[k].chronicle.title.clone();
            lieu = irs[k].chronicle.lieu.clone();
        }
        k += 1;
    }
    assert(all.take(k as int) =~= all);
    let mut entry = String::new();
    match campagne {
        Some(Err(e)) => return Err(e),
        Some(Ok(c)) => {
            if c.id.as_str().unicode_len() != 0 {
                id = c.id;
            }
            if c.title.as_str().unicode_len() != 0 {
                title = c.title;
            }
            if c.lieu.as_str().unicode_len() != 0 {
                lieu = c.lieu;
            }
            entry = c.entry;
        },
        None => {},
    }
    let ghost meta = (id@, title@, lieu@);
    let mut chapters: StrMap<Ir> = StrMap::new();
    let nirs = irs.len();
    let mut irs = irs;
    let mut j: usize = 0;
    assert(all.take(0) =~= Seq::<Ir>::empty());
    while irs.len() > 0
        invariant
            j <= all.len(),
            all.len() == nirs,
            irs@ == all.skip(j as int),
            meta == (id@, title@, lieu@),
            related(chapters@, chapter_model(all.take(j as int)), meta),
        decreases irs.len(),
    {
        let mut ir = irs.remove(0);
        assert(ir == all[j as int]);
        assert(all.take(j + 1).drop_last() =~= all.take(j as int));
        assert(all.take(j + 1).last() == all[j as int]);
        assert(irs@ =~= all.skip(j + 1));
        let ghost orig = ir;
        ir.chronicle = ChronicleMeta { id: id.clone(), title: title.clone(), lieu: lieu.clone() };
        proof {
            lemma_related_insert(chapters@, chapter_model(all.take(j as int)), meta, orig.chapter.id@, ir, orig);
        }
        chapters.insert(ir.chapter.id.clone(), ir);
        j += 1;
    }
    assert(all.take(j as int) =~= all);
    if entry.as_str().unicode_len() == 0 {
        entry = infer_entry(&chapters);
        proof {
            lemma_related_entry(chapters@, chapter_model(all), meta);
        }
    }
    proof {
        lemma_related_get(chapters@, chapter_model(all), meta, entry@);
    }
    if !chapters.contains_key(entry.as_str()) {
        let mut m = owned("entry `");
        push_str(&mut m, entry.as_str());
        push_str(&mut m, "` not in campaign");
        return Err(DslError::Message(m));
    }
    Ok(Campaign { meta: ChronicleMeta { id, title, lieu }, entry, chapters })
}

} // verus!
