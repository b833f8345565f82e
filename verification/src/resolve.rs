//! Resolution of a selector and a language against a catalog: for each
//! requested chapter, the first of its translations that is in the language
//! and is hosted where its pages can be fetched.
//!
//! Whether a translation qualifies is only known by asking for its metadata,
//! one identifier at a time. The [`Resolver`] decides which identifier to ask
//! about next and what to make of each answer; its caller does the asking.

use crate::catalog::{strictly_ascending, texts, Chapter};
use crate::selector::Selector;
use vstd::prelude::*;

verus! {

/// A chapter as resolution sees it: its ordinal and its translations.
pub type Entry = (u16, Seq<Seq<char>>);

/// A resolved chapter as resolution states it: its ordinal and the chosen
/// translation.
pub type Choice = (u16, Seq<char>);

/// For each identifier, whether the translation it names qualifies.
pub type Verdicts = spec_fn(Seq<char>) -> bool;

/// The entry of a chapter.
pub open spec fn entry_of(chapter: Chapter) -> Entry {
    (chapter.name, texts(chapter.ids@))
}

/// The entries of a list of chapters.
pub open spec fn entries_of(chapters: Seq<Chapter>) -> Seq<Entry> {
    Seq::new(chapters.len(), |i: int| entry_of(chapters[i]))
}

/// The entries that the selector asks for, in their order.
pub open spec fn wanted(entries: Seq<Entry>, selector: Selector) -> Seq<Entry>
    decreases entries.len(),
{
    if entries.len() == 0 {
        Seq::empty()
    } else if selector.selects(entries.last().0) {
        wanted(entries.drop_last(), selector).push(entries.last())
    } else {
        wanted(entries.drop_last(), selector)
    }
}

/// The position of the first translation at or after `from` that qualifies.
pub open spec fn first_qualified(ids: Seq<Seq<char>>, verdicts: Verdicts, from: int) -> Option<int>
    decreases ids.len() - from,
{
    if from >= ids.len() {
        None
    } else if verdicts(ids[from]) {
        Some(from)
    } else {
        first_qualified(ids, verdicts, from + 1)
    }
}

/// What one entry contributes: its first qualified translation, or nothing.
pub open spec fn contribution(entry: Entry, verdicts: Verdicts) -> Seq<Choice> {
    match first_qualified(entry.1, verdicts, 0) {
        Some(k) => seq![(entry.0, entry.1[k])],
        None => Seq::empty(),
    }
}

/// The contributions of the entries, in their order.
pub open spec fn choices(entries: Seq<Entry>, verdicts: Verdicts) -> Seq<Choice>
    decreases entries.len(),
{
    if entries.len() == 0 {
        Seq::empty()
    } else {
        choices(entries.drop_last(), verdicts) + contribution(entries.last(), verdicts)
    }
}

/// What resolving a selector against a catalog yields, given the verdict on
/// each translation.
pub open spec fn resolution(catalog: Seq<Entry>, selector: Selector, verdicts: Verdicts) -> Seq<
    Choice,
> {
    choices(wanted(catalog, selector), verdicts)
}

/// The first qualified translation qualifies, none before it does, and
/// there is none exactly when nothing at or after position `from` qualifies.
pub proof fn lemma_first_qualified(ids: Seq<Seq<char>>, verdicts: Verdicts, from: int)
    requires
        0 <= from,
    ensures
        match first_qualified(ids, verdicts, from) {
            Some(k) => {
                &&& from <= k < ids.len()
                &&& verdicts(ids[k])
                &&& forall|j: int| from <= j < k ==> !verdicts(#[trigger] ids[j])
            },
            None => forall|j: int| from <= j < ids.len() ==> !verdicts(#[trigger] ids[j]),
        },
    decreases ids.len() - from,
{
    if from < ids.len() && !verdicts(ids[from]) {
        lemma_first_qualified(ids, verdicts, from + 1);
    }
}

/// The wanted entries are entries of the catalog that the selector asks for,
/// in the catalog's order: each stands at a position of the catalog, and the
/// positions ascend.
pub proof fn lemma_wanted_positions(entries: Seq<Entry>, selector: Selector) -> (at: Seq<int>)
    ensures
        at.len() == wanted(entries, selector).len(),
        forall|i: int|
            0 <= i < at.len() ==> 0 <= #[trigger] at[i] < entries.len() && entries[at[i]] == wanted(
                entries,
                selector,
            )[i] && selector.selects(entries[at[i]].0),
        forall|i: int, j: int| 0 <= i < j < at.len() ==> at[i] < at[j],
        forall|p: int|
            0 <= p < entries.len() && selector.selects((#[trigger] entries[p]).0) ==> exists|
                i: int,
            |
                0 <= i < at.len() && #[trigger] at[i] == p,
    decreases entries.len(),
{
    if entries.len() == 0 {
        Seq::empty()
    } else {
        let before = lemma_wanted_positions(entries.drop_last(), selector);
        let last = entries.len() - 1;
        let at = if selector.selects(entries.last().0) {
            before.push(last)
        } else {
            before
        };
        assert forall|p: int|
            0 <= p < entries.len() && selector.selects((#[trigger] entries[p]).0) implies exists|
            i: int,
        |
            0 <= i < at.len() && #[trigger] at[i] == p by {
            if p < last {
                assert(entries.drop_last()[p] == entries[p]);
                let i = choose|i: int| 0 <= i < before.len() && #[trigger] before[i] == p;
                assert(at[i] == p);
            } else {
                assert(at[at.len() - 1] == p);
            }
        }
        at
    }
}

/// What the service reports of one translation. A field that the report
/// lacks, or holds in another shape, is `None`.
#[derive(Debug)]
pub struct ChapterMeta {
    /// The language of the translation.
    pub language: Option<String>,
    /// Where the translation is hosted, if it is hosted elsewhere; its pages
    /// cannot be fetched then.
    pub external_url: Option<String>,
}

impl ChapterMeta {
    /// Whether the translation qualifies for a request in `language`: it is
    /// reported to be in that language, and not to be hosted elsewhere.
    pub open spec fn qualifies(&self, language: Seq<char>) -> bool {
        &&& self.language matches Some(reported)
        &&& reported@ == language
        &&& self.external_url is None
    }

    /// Whether the translation qualifies for a request in `language`.
    pub fn is_qualified(&self, language: &String) -> (r: bool)
        ensures
            r == self.qualifies(language@),
    {
        match &self.language {
            Some(reported) => *reported == *language && self.external_url.is_none(),
            None => false,
        }
    }
}

/// A chapter that resolution settled on.
#[derive(Debug)]
pub struct ResolvedChapter {
    pub ordinal: u16,
    /// The chosen translation.
    pub id: String,
}

/// The selector matched no chapter with a qualified translation.
#[derive(Debug, PartialEq, Eq)]
pub struct EmptyResolutionError;

/// The choices that a list of resolved chapters stands for.
pub open spec fn choices_of(resolved: Seq<ResolvedChapter>) -> Seq<Choice> {
    Seq::new(resolved.len(), |i: int| (resolved[i].ordinal, resolved[i].id@))
}

/// Whether `verdicts` agrees with every answer in `asked`.
pub open spec fn agrees(verdicts: Verdicts, asked: Seq<(Seq<char>, bool)>) -> bool {
    forall|i: int| 0 <= i < asked.len() ==> verdicts((#[trigger] asked[i]).0) == asked[i].1
}

/// The first position at or after `from` whose entry has a translation; the
/// number of entries if there is none.
pub open spec fn skip_empty(entries: Seq<Entry>, from: int) -> int
    decreases entries.len() - from,
{
    if from >= entries.len() {
        entries.len() as int
    } else if entries[from].1.len() > 0 {
        from
    } else {
        skip_empty(entries, from + 1)
    }
}

/// How many translations the entries list in all.
pub open spec fn id_count(entries: Seq<Entry>) -> nat
    decreases entries.len(),
{
    if entries.len() == 0 {
        0
    } else {
        id_count(entries.drop_last()) + entries.last().1.len()
    }
}

/// The state of a resolution.
pub struct ResolverView {
    /// The language asked for.
    pub language: Seq<char>,
    /// The entries that the selector asks for.
    pub wanted: Seq<Entry>,
    /// The position of the entry being settled; the number of entries once
    /// all are settled.
    pub chapter: int,
    /// The position, in that entry, of the translation to ask about next.
    pub candidate: int,
    /// The chapters resolved so far.
    pub resolved: Seq<Choice>,
    /// Every answer received so far: the identifier asked about, and whether
    /// its translation qualified.
    pub asked: Seq<(Seq<char>, bool)>,
}

impl ResolverView {
    /// The state in which the resolution of `wanted` begins: at the first
    /// entry that has a translation, with nothing resolved and nothing asked.
    pub open spec fn start(language: Seq<char>, wanted: Seq<Entry>) -> ResolverView {
        ResolverView {
            language,
            wanted,
            chapter: skip_empty(wanted, 0),
            candidate: 0,
            resolved: Seq::empty(),
            asked: Seq::empty(),
        }
    }

    /// Whether every entry is settled.
    pub open spec fn finished(self) -> bool {
        self.chapter == self.wanted.len()
    }

    /// The identifier to ask about next.
    pub open spec fn pending(self) -> Option<Seq<char>> {
        if self.finished() {
            None
        } else {
            Some(self.wanted[self.chapter].1[self.candidate])
        }
    }

    /// Whether the state is what `verdicts` leads to: the settled entries
    /// have contributed what the verdicts say, and in the entry being settled
    /// no translation before the next candidate qualifies.
    pub open spec fn settled_under(self, verdicts: Verdicts) -> bool {
        &&& self.resolved == choices(self.wanted.take(self.chapter), verdicts)
        &&& !self.finished() ==> forall|j: int|
            0 <= j < self.candidate ==> !verdicts(#[trigger] self.wanted[self.chapter].1[j])
    }

    /// Whether the state is one that a resolution can be in.
    pub open spec fn wf(self) -> bool {
        &&& 0 <= self.chapter <= self.wanted.len()
        &&& !self.finished() ==> 0 <= self.candidate < self.wanted[self.chapter].1.len()
        &&& self.finished() ==> self.candidate == 0
        &&& self.asked.len() <= id_count(self.wanted.take(self.chapter)) + self.candidate
        &&& forall|verdicts: Verdicts|
            agrees(verdicts, self.asked) ==> #[trigger] self.settled_under(verdicts)
    }

    /// The state after the answer to the pending question: `qualified` says
    /// whether the translation asked about qualifies. A qualified translation
    /// resolves its chapter; otherwise the next translation of the chapter is
    /// tried, and a chapter without another one stays unresolved. A finished
    /// resolution takes no answer.
    pub open spec fn after(self, qualified: bool) -> ResolverView {
        if self.finished() {
            self
        } else {
            let entry = self.wanted[self.chapter];
            let id = entry.1[self.candidate];
            let asked = self.asked.push((id, qualified));
            if qualified {
                ResolverView {
                    chapter: skip_empty(self.wanted, self.chapter + 1),
                    candidate: 0,
                    resolved: self.resolved.push((entry.0, id)),
                    asked,
                    ..self
                }
            } else if self.candidate + 1 < entry.1.len() {
                ResolverView { candidate: self.candidate + 1, asked, ..self }
            } else {
                ResolverView {
                    chapter: skip_empty(self.wanted, self.chapter + 1),
                    candidate: 0,
                    asked,
                    ..self
                }
            }
        }
    }
}

/// The first entries list no more translations than a longer run of them.
pub proof fn lemma_id_count_grows(entries: Seq<Entry>, from: int, to: int)
    requires
        0 <= from <= to <= entries.len(),
    ensures
        id_count(entries.take(from)) <= id_count(entries.take(to)),
    decreases to - from,
{
    if from < to {
        lemma_id_count_grows(entries, from, to - 1);
        assert(entries.take(to).drop_last() =~= entries.take(to - 1));
    }
}

/// Entries without a translation contribute nothing, whatever the verdicts.
pub proof fn lemma_skip_empty(entries: Seq<Entry>, from: int, verdicts: Verdicts)
    requires
        0 <= from <= entries.len(),
    ensures
        from <= skip_empty(entries, from) <= entries.len(),
        skip_empty(entries, from) < entries.len() ==> entries[skip_empty(entries, from)].1.len()
            > 0,
        choices(entries.take(skip_empty(entries, from)), verdicts) == choices(
            entries.take(from),
            verdicts,
        ),
    decreases entries.len() - from,
{
    if from < entries.len() && entries[from].1.len() == 0 {
        lemma_skip_empty(entries, from + 1, verdicts);
        assert(entries.take(from + 1).drop_last() =~= entries.take(from));
    }
}

/// With no translation before `from` qualified, the first qualified one is
/// the first from `from` on.
pub proof fn lemma_first_qualified_from(ids: Seq<Seq<char>>, verdicts: Verdicts, from: int)
    requires
        0 <= from,
        forall|j: int| 0 <= j < from && j < ids.len() ==> !verdicts(#[trigger] ids[j]),
    ensures
        first_qualified(ids, verdicts, 0) == first_qualified(ids, verdicts, from),
    decreases from,
{
    if from > 0 {
        lemma_first_qualified_from(ids, verdicts, from - 1);
    }
}

/// A resolution stays well formed through every answer.
pub proof fn lemma_after_wf(s: ResolverView, qualified: bool)
    requires
        s.wf(),
    ensures
        s.after(qualified).wf(),
{
    let t = s.after(qualified);
    if !s.finished() {
        let entry = s.wanted[s.chapter];
        let id = entry.1[s.candidate];
        assert forall|verdicts: Verdicts| agrees(verdicts, t.asked) implies #[trigger]
            t.settled_under(verdicts) by {
            assert forall|i: int| 0 <= i < s.asked.len() implies verdicts(
                (#[trigger] s.asked[i]).0,
            ) == s.asked[i].1 by {
                assert(t.asked[i] == s.asked[i]);
            }
            assert(s.settled_under(verdicts));
            assert(t.asked[s.asked.len() as int] == (id, qualified));
            lemma_first_qualified_from(entry.1, verdicts, s.candidate);
            lemma_first_qualified(entry.1, verdicts, s.candidate);
            lemma_first_qualified(entry.1, verdicts, s.candidate + 1);
            assert(s.wanted.take(s.chapter + 1).drop_last() =~= s.wanted.take(s.chapter));
            lemma_skip_empty(s.wanted, s.chapter + 1, verdicts);
            if qualified {
                assert(t.resolved =~= s.resolved + contribution(entry, verdicts));
            } else if s.candidate + 1 < entry.1.len() {
                assert forall|j: int| 0 <= j < t.candidate implies !verdicts(
                    #[trigger] t.wanted[t.chapter].1[j],
                ) by {}
            }
        }
        lemma_skip_empty(s.wanted, s.chapter + 1, |id: Seq<char>| false);
        assert(s.wanted.take(s.chapter + 1).drop_last() =~= s.wanted.take(s.chapter));
        lemma_id_count_grows(s.wanted, s.chapter + 1, skip_empty(s.wanted, s.chapter + 1));
    }
}

/// The chapters of the catalog that the selector asks for, in the
/// catalog's order.
pub fn select_chapters(catalog: Vec<Chapter>, selector: &Selector) -> (chosen: Vec<Chapter>)
    ensures
        entries_of(chosen@) == wanted(entries_of(catalog@), *selector),
{
    let ghost all = entries_of(catalog@);
    let mut catalog = catalog;
    let mut reversed: Vec<Chapter> = Vec::new();
    // Taken from the back the chapters change owner without a copy; the
    // second pass puts them in order again.
    while catalog.len() > 0
        invariant
            catalog@.len() <= all.len(),
            entries_of(catalog@) == all.take(catalog@.len() as int),
            wanted(all, *selector) == wanted(entries_of(catalog@), *selector) + entries_of(
                reversed@,
            ).reverse(),
        decreases catalog.len(),
    {
        let ghost rest = entries_of(catalog@);
        let ghost kept = entries_of(reversed@);
        let chapter = catalog.pop().unwrap();
        proof {
            assert(entries_of(catalog@) =~= rest.drop_last());
        }
        if selector.contains(chapter.name) {
            reversed.push(chapter);
            proof {
                assert(wanted(rest, *selector) + kept.reverse() =~= wanted(
                    rest.drop_last(),
                    *selector,
                ) + entries_of(reversed@).reverse());
            }
        }
    }
    let ghost target = entries_of(reversed@).reverse();
    let mut chosen: Vec<Chapter> = Vec::new();
    while reversed.len() > 0
        invariant
            reversed@.len() <= target.len(),
            entries_of(reversed@).reverse() == target.skip(target.len() - reversed@.len()),
            entries_of(chosen@) == target.take(target.len() - reversed@.len()),
        decreases reversed.len(),
    {
        let ghost rest = entries_of(reversed@);
        let ghost done = entries_of(chosen@);
        let chapter = reversed.pop().unwrap();
        proof {
            assert(entries_of(reversed@) =~= rest.drop_last());
            assert(rest.reverse()[0] == rest.last());
            assert(rest.drop_last().reverse() =~= rest.reverse().skip(1));
        }
        chosen.push(chapter);
        proof {
            assert(entries_of(chosen@) =~= done.push(rest.last()));
            assert(entries_of(reversed@).reverse() =~= target.skip(
                target.len() - reversed@.len(),
            ));
        }
    }
    chosen
}

/// The first position at or after `from` whose chapter has a translation.
fn skip_without_ids(chapters: &Vec<Chapter>, from: usize) -> (at: usize)
    requires
        from <= chapters.len(),
    ensures
        at == skip_empty(entries_of(chapters@), from as int),
        from <= at <= chapters.len(),
{
    let mut at: usize = from;
    while at < chapters.len() && chapters[at].ids.len() == 0
        invariant
            from <= at <= chapters.len(),
            skip_empty(entries_of(chapters@), from as int) == skip_empty(
                entries_of(chapters@),
                at as int,
            ),
        decreases chapters.len() - at,
    {
        at = at + 1;
    }
    at
}

/// A resolution in progress. It names the identifier to ask about next
/// ([`Resolver::pending`]) and takes the answer ([`Resolver::observe`]), until
/// nothing is pending.
pub struct Resolver {
    language: String,
    wanted: Vec<Chapter>,
    chapter: usize,
    candidate: usize,
    resolved: Vec<ResolvedChapter>,
    asked: Ghost<Seq<(Seq<char>, bool)>>,
}

impl View for Resolver {
    type V = ResolverView;

    closed spec fn view(&self) -> ResolverView {
        ResolverView {
            language: self.language@,
            wanted: entries_of(self.wanted@),
            chapter: self.chapter as int,
            candidate: self.candidate as int,
            resolved: choices_of(self.resolved@),
            asked: self.asked@,
        }
    }
}

impl Resolver {
    /// Begins the resolution of `selector` and `language` against `catalog`.
    pub fn new(selector: &Selector, language: String, catalog: Vec<Chapter>) -> (r: Resolver)
        ensures
            r@.wf(),
            r@ == ResolverView::start(language@, wanted(entries_of(catalog@), *selector)),
    {
        let wanted = select_chapters(catalog, selector);
        let chapter = skip_without_ids(&wanted, 0);
        let r = Resolver {
            language,
            wanted,
            chapter,
            candidate: 0,
            resolved: Vec::new(),
            asked: Ghost(Seq::empty()),
        };
        proof {
            assert(r@.resolved =~= Seq::<Choice>::empty());
            assert forall|verdicts: Verdicts| agrees(verdicts, r@.asked) implies #[trigger]
                r@.settled_under(verdicts) by {
                lemma_skip_empty(r@.wanted, 0, verdicts);
            }
            lemma_skip_empty(r@.wanted, 0, |id: Seq<char>| false);
        }
        r
    }

    /// The language asked for.
    pub fn language(&self) -> (r: &String)
        ensures
            r@ == self@.language,
    {
        &self.language
    }

    /// Whether every requested chapter is settled.
    pub fn is_finished(&self) -> (r: bool)
        ensures
            r == self@.finished(),
    {
        self.chapter == self.wanted.len()
    }

    /// The identifier whose metadata is needed next; `None` once every
    /// requested chapter is settled.
    pub fn pending(&self) -> (r: Option<&String>)
        requires
            self@.wf(),
        ensures
            r is Some == self@.pending() is Some,
            r matches Some(id) ==> Some(id@) == self@.pending(),
    {
        if self.chapter < self.wanted.len() {
            Some(&self.wanted[self.chapter].ids[self.candidate])
        } else {
            None
        }
    }

    /// Takes the metadata of the pending identifier and moves on. Returns
    /// the ordinal of the chapter that this answer resolved, if it resolved
    /// one.
    pub fn observe(&mut self, meta: &ChapterMeta) -> (r: Option<u16>)
        requires
            old(self)@.wf(),
        ensures
            final(self)@ == old(self)@.after(meta.qualifies(old(self)@.language)),
            final(self)@.wf(),
            r == if !old(self)@.finished() && meta.qualifies(old(self)@.language) {
                Some(old(self)@.wanted[old(self)@.chapter].0)
            } else {
                None
            },
    {
        proof {
            lemma_after_wf(self@, meta.qualifies(self@.language));
        }
        if self.chapter >= self.wanted.len() {
            return None;
        }
        let ghost before = self@;
        let qualified = meta.is_qualified(&self.language);
        let chapter = &self.wanted[self.chapter];
        let id = chapter.ids[self.candidate].clone();
        let ordinal = chapter.name;
        let count = chapter.ids.len();
        let more = self.candidate + 1 < count;
        proof {
            self.asked@ = self.asked@.push((id@, qualified));
        }
        if qualified {
            self.resolved.push(ResolvedChapter { ordinal, id });
            self.chapter = skip_without_ids(&self.wanted, self.chapter + 1);
            self.candidate = 0;
            proof {
                assert(self@.resolved =~= before.resolved.push((ordinal, id@)));
            }
            Some(ordinal)
        } else if more {
            self.candidate = self.candidate + 1;
            None
        } else {
            self.chapter = skip_without_ids(&self.wanted, self.chapter + 1);
            self.candidate = 0;
            None
        }
    }

    /// The chapters resolved so far, in order.
    pub fn resolved(&self) -> (r: &Vec<ResolvedChapter>)
        ensures
            choices_of(r@) == self@.resolved,
    {
        &self.resolved
    }

    /// Ends the resolution and hands out the chosen identifiers, in order.
    /// A resolution that chose none is an error.
    pub fn into_ids(self) -> (r: Result<Vec<String>, EmptyResolutionError>)
        ensures
            r is Err <==> self@.resolved.len() == 0,
            r matches Ok(ids) ==> {
                &&& ids@.len() == self@.resolved.len()
                &&& forall|i: int| 0 <= i < ids@.len() ==> (#[trigger] ids@[i])@ == self@.resolved[i].1
            },
    {
        let mut resolved = self.resolved;
        let ghost all = choices_of(resolved@);
        if resolved.len() == 0 {
            return Err(EmptyResolutionError);
        }
        let mut reversed: Vec<String> = Vec::new();
        while resolved.len() > 0
            invariant
                resolved@.len() + reversed@.len() == all.len(),
                choices_of(resolved@) == all.take(resolved@.len() as int),
                forall|i: int|
                    0 <= i < reversed@.len() ==> (#[trigger] reversed@[i])@ == all[all.len() - 1
                        - i].1,
            decreases resolved.len(),
        {
            let ghost rest = choices_of(resolved@);
            let last = resolved.pop().unwrap();
            proof {
                assert(rest[rest.len() - 1] == (last.ordinal, last.id@));
            }
            reversed.push(last.id);
        }
        let mut ids: Vec<String> = Vec::new();
        while reversed.len() > 0
            invariant
                reversed@.len() + ids@.len() == all.len(),
                forall|i: int|
                    0 <= i < reversed@.len() ==> (#[trigger] reversed@[i])@ == all[all.len() - 1
                        - i].1,
                forall|i: int| 0 <= i < ids@.len() ==> (#[trigger] ids@[i])@ == all[i].1,
            decreases reversed.len(),
        {
            let id = reversed.pop().unwrap();
            ids.push(id);
        }
        Ok(ids)
    }
}

/// Whether the ordinals of the entries ascend strictly.
pub open spec fn ordinals_ascend(entries: Seq<Entry>) -> bool {
    forall|i: int, j: int| 0 <= i < j < entries.len() ==> entries[i].0 < entries[j].0
}

/// A catalog in strictly ascending order, as the catalog builder makes it,
/// has entries whose ordinals ascend: what the laws below ask of a catalog.
pub proof fn law_catalog_entries_ascend(chapters: Seq<Chapter>)
    requires
        strictly_ascending(chapters),
    ensures
        ordinals_ascend(entries_of(chapters)),
{
}

/// Where each choice comes from: the choices stand, in order, for exactly
/// the entries that have a qualified translation, and each is the first
/// qualified translation of its entry.
pub proof fn lemma_choices_origin(entries: Seq<Entry>, verdicts: Verdicts) -> (at: Seq<int>)
    ensures
        at.len() == choices(entries, verdicts).len(),
        forall|i: int|
            0 <= i < at.len() ==> {
                &&& 0 <= #[trigger] at[i] < entries.len()
                &&& first_qualified(entries[at[i]].1, verdicts, 0) is Some
                &&& choices(entries, verdicts)[i] == (
                    entries[at[i]].0,
                    entries[at[i]].1[first_qualified(entries[at[i]].1, verdicts, 0)->0],
                )
            },
        forall|i: int, j: int| 0 <= i < j < at.len() ==> at[i] < at[j],
        forall|p: int|
            0 <= p < entries.len() && first_qualified((#[trigger] entries[p]).1, verdicts, 0)
                is Some ==> exists|i: int| 0 <= i < at.len() && #[trigger] at[i] == p,
    decreases entries.len(),
{
    if entries.len() == 0 {
        Seq::empty()
    } else {
        let before = lemma_choices_origin(entries.drop_last(), verdicts);
        let last = entries.len() - 1;
        let at = if first_qualified(entries.last().1, verdicts, 0) is Some {
            before.push(last)
        } else {
            before
        };
        assert forall|p: int|
            0 <= p < entries.len() && first_qualified((#[trigger] entries[p]).1, verdicts, 0)
                is Some implies exists|i: int| 0 <= i < at.len() && #[trigger] at[i] == p by {
            if p < last {
                assert(entries.drop_last()[p] == entries[p]);
                let i = choose|i: int| 0 <= i < before.len() && #[trigger] before[i] == p;
                assert(at[i] == p);
            } else {
                assert(at[at.len() - 1] == p);
            }
        }
        at
    }
}

/// The ordinals of a resolution are ordinals of the catalog that the
/// selector asks for; and where the catalog ascends strictly, so does the
/// resolution, so that no ordinal is resolved twice.
pub proof fn law_resolved_ordinals(catalog: Seq<Entry>, selector: Selector, verdicts: Verdicts)
    ensures
        forall|i: int|
            0 <= i < resolution(catalog, selector, verdicts).len() ==> {
                &&& selector.selects((#[trigger] resolution(catalog, selector, verdicts)[i]).0)
                &&& exists|p: int|
                    0 <= p < catalog.len() && (#[trigger] catalog[p]).0 == resolution(
                        catalog,
                        selector,
                        verdicts,
                    )[i].0
            },
        ordinals_ascend(catalog) ==> forall|i: int, j: int|
            0 <= i < j < resolution(catalog, selector, verdicts).len() ==> resolution(
                catalog,
                selector,
                verdicts,
            )[i].0 < resolution(catalog, selector, verdicts)[j].0,
{
    let asked = wanted(catalog, selector);
    let r = resolution(catalog, selector, verdicts);
    let from = lemma_wanted_positions(catalog, selector);
    let at = lemma_choices_origin(asked, verdicts);
    assert forall|i: int| 0 <= i < r.len() implies {
        &&& selector.selects((#[trigger] r[i]).0)
        &&& exists|p: int| 0 <= p < catalog.len() && (#[trigger] catalog[p]).0 == r[i].0
    } by {
        let p = from[at[i]];
    }
    if ordinals_ascend(catalog) {
        assert forall|i: int, j: int| 0 <= i < j < r.len() implies r[i].0 < r[j].0 by {
            assert(from[at[i]] < from[at[j]]);
        }
    }
}

/// Whether `choice` is what `entry` contributes: the entry's ordinal with
/// its first qualified translation.
pub open spec fn is_first_choice(choice: Choice, entry: Entry, verdicts: Verdicts) -> bool {
    first_qualified(entry.1, verdicts, 0) matches Some(k) && choice == (entry.0, entry.1[k])
}

/// Every translation in a resolution qualifies and is the first of its
/// chapter that does; and every requested chapter with a qualified
/// translation is resolved to that first one.
pub proof fn law_first_qualified_chosen(catalog: Seq<Entry>, selector: Selector, verdicts: Verdicts)
    ensures
        forall|i: int|
            0 <= i < resolution(catalog, selector, verdicts).len() ==> verdicts(
                (#[trigger] resolution(catalog, selector, verdicts)[i]).1,
            ),
        forall|i: int|
            #![trigger resolution(catalog, selector, verdicts)[i]]
            0 <= i < resolution(catalog, selector, verdicts).len() ==> exists|p: int|
                0 <= p < catalog.len() && selector.selects((#[trigger] catalog[p]).0)
                    && is_first_choice(
                    resolution(catalog, selector, verdicts)[i],
                    catalog[p],
                    verdicts,
                ),
        forall|p: int|
            0 <= p < catalog.len() && selector.selects((#[trigger] catalog[p]).0)
                && first_qualified(catalog[p].1, verdicts, 0) is Some ==> exists|i: int|
                0 <= i < resolution(catalog, selector, verdicts).len() && is_first_choice(
                    #[trigger] resolution(catalog, selector, verdicts)[i],
                    catalog[p],
                    verdicts,
                ),
{
    let asked = wanted(catalog, selector);
    let r = resolution(catalog, selector, verdicts);
    let from = lemma_wanted_positions(catalog, selector);
    let at = lemma_choices_origin(asked, verdicts);
    assert forall|i: int| 0 <= i < r.len() implies verdicts((#[trigger] r[i]).1) by {
        lemma_first_qualified(asked[at[i]].1, verdicts, 0);
    }
    assert forall|i: int|
        #![trigger r[i]]
        0 <= i < r.len() implies exists|p: int|
        0 <= p < catalog.len() && selector.selects((#[trigger] catalog[p]).0) && is_first_choice(
            r[i],
            catalog[p],
            verdicts,
        ) by {
        let p = from[at[i]];
    }
    assert forall|p: int|
        0 <= p < catalog.len() && selector.selects((#[trigger] catalog[p]).0) && first_qualified(
            catalog[p].1,
            verdicts,
            0,
        ) is Some implies exists|i: int|
        0 <= i < r.len() && is_first_choice(#[trigger] r[i], catalog[p], verdicts) by {
        let w = choose|w: int| 0 <= w < from.len() && #[trigger] from[w] == p;
        let i = choose|i: int| 0 <= i < at.len() && #[trigger] at[i] == w;
    }
}

/// A chapter none of whose translations qualifies contributes nothing: in a
/// catalog whose ordinals ascend strictly, no choice bears its ordinal.
pub proof fn law_unqualified_chapter_absent(
    catalog: Seq<Entry>,
    selector: Selector,
    verdicts: Verdicts,
    p: int,
)
    requires
        ordinals_ascend(catalog),
        0 <= p < catalog.len(),
        forall|k: int| 0 <= k < catalog[p].1.len() ==> !verdicts(#[trigger] catalog[p].1[k]),
    ensures
        forall|i: int|
            0 <= i < resolution(catalog, selector, verdicts).len() ==> (#[trigger] resolution(
                catalog,
                selector,
                verdicts,
            )[i]).0 != catalog[p].0,
{
    let asked = wanted(catalog, selector);
    let r = resolution(catalog, selector, verdicts);
    let from = lemma_wanted_positions(catalog, selector);
    let at = lemma_choices_origin(asked, verdicts);
    assert forall|i: int| 0 <= i < r.len() implies (#[trigger] r[i]).0 != catalog[p].0 by {
        // The choice comes from the entry at some place `q`, which has a
        // qualified translation: so `q` is not `p`, and its ordinal differs.
        let q = from[at[i]];
        lemma_first_qualified(catalog[q].1, verdicts, 0);
    }
}

/// A finished resolution has resolved what the verdicts behind its answers
/// say: exactly the resolution of its entries.
pub proof fn law_finished_resolution(s: ResolverView, verdicts: Verdicts)
    requires
        s.wf(),
        s.finished(),
        agrees(verdicts, s.asked),
    ensures
        s.resolved == choices(s.wanted, verdicts),
{
    assert(s.settled_under(verdicts));
    assert(s.wanted.take(s.chapter) =~= s.wanted);
}

/// A resolution asks about each translation of a requested chapter at most
/// once, and stops asking about a chapter at its first qualified one: in
/// all it asks no more questions than the requested chapters list
/// translations.
pub proof fn law_questions_bounded(s: ResolverView)
    requires
        s.wf(),
    ensures
        s.asked.len() <= id_count(s.wanted),
{
    if s.finished() {
        assert(s.wanted.take(s.chapter) =~= s.wanted);
    } else {
        let settled = s.wanted.take(s.chapter + 1);
        lemma_id_count_grows(s.wanted, s.chapter + 1, s.wanted.len() as int);
        assert(s.wanted.take(s.wanted.len() as int) =~= s.wanted);
        assert(settled.drop_last() =~= s.wanted.take(s.chapter));
    }
}

/// Resolving again changes nothing: two finished resolutions of the same
/// entries, answered from the same verdicts, have resolved the same list.
pub proof fn law_resolution_repeats(first: ResolverView, second: ResolverView, verdicts: Verdicts)
    requires
        first.wf(),
        second.wf(),
        first.finished(),
        second.finished(),
        first.wanted == second.wanted,
        agrees(verdicts, first.asked),
        agrees(verdicts, second.asked),
    ensures
        first.resolved == second.resolved,
{
    law_finished_resolution(first, verdicts);
    law_finished_resolution(second, verdicts);
}

} // verus!
