//! The course of a run: catalog, resolution, page retrieval, output. The
//! [`Run`] decides what is to be requested next and what each answer leads
//! to; its caller makes the requests and writes the files.

use crate::assemble::{bind_pages, Assembler, BindError, Calibration};
use crate::catalog::{texts, CatalogFetchError, Chapter};
use crate::client::{
    image_file_name, is_catalog_of_answer, save_pages_as_images, Args, MDClient,
};
use crate::wire::{lemma_meta_qualifies, parsed, qualifies_in, read_meta};
use crate::pages::PageFetchError;
use crate::resolve::{
    entries_of, wanted, ChapterMeta, Choice, Resolver, ResolverView,
};
use crate::selector::{denotes, parse_selector, selector_tokens, warns_of, Selector, SelectorParseError};
use vstd::prelude::*;

verus! {

/// Why a run ended without output.
#[derive(Debug)]
pub enum RunError {
    /// The catalog of the work could not be built.
    CatalogAggregation(CatalogFetchError),
    /// The catalog of the work has no chapter.
    EmptyCatalog,
    /// The metadata of a translation could not be had.
    Resolution,
    /// The page bundle of a translation could not be had.
    PageRetrieval(PageFetchError),
    /// No chapter was resolved, or the resolved chapters have no page.
    NoPages,
    /// An image file could not be written.
    ImageDump,
    /// The document could not be bound.
    Binding(BindError),
}

impl RunError {
    /// The one line that tells the user which part of the run failed.
    pub open spec fn line(self) -> Seq<char> {
        match self {
            RunError::CatalogAggregation(_) =>
                "[!] Error aggregating all the chapters for this manga."@,
            RunError::EmptyCatalog => "[!] No manga chapters found. Likely an invalid ID."@,
            RunError::Resolution => "[!] Error finding chapter IDs for given language."@,
            RunError::PageRetrieval(_) | RunError::NoPages =>
                "[!] No pages were able to be retrieved based on your chapter and language input."@,
            RunError::ImageDump => "[!] Error while saving images."@,
            RunError::Binding(_) => "[!] Error while binding PDF."@,
        }
    }

    /// The one line that tells the user which part of the run failed.
    pub fn message(&self) -> (r: &'static str)
        ensures
            r@ == self.line(),
    {
        match self {
            RunError::CatalogAggregation(_) =>
                "[!] Error aggregating all the chapters for this manga.",
            RunError::EmptyCatalog => "[!] No manga chapters found. Likely an invalid ID.",
            RunError::Resolution => "[!] Error finding chapter IDs for given language.",
            RunError::PageRetrieval(_) | RunError::NoPages =>
                "[!] No pages were able to be retrieved based on your chapter and language input.",
            RunError::ImageDump => "[!] Error while saving images.",
            RunError::Binding(_) => "[!] Error while binding PDF.",
        }
    }
}

/// What a run needs next.
#[derive(Debug)]
pub enum Request {
    /// The aggregate of the work, from this address.
    Catalog(String),
    /// The metadata of a translation, from this address.
    Metadata(String),
    /// The page bundle of a translation, from this address.
    Pages(String),
    /// Nothing more: the pages are known, and the output can be made.
    Output,
    /// Nothing more: the run has failed.
    Nothing,
}

/// The bytes of an answer's body, where there is one.
pub open spec fn bytes_of(body: Option<&[u8]>) -> Option<Seq<u8>> {
    match body {
        Some(bytes) => Some(bytes@),
        None => None,
    }
}

/// The translations that a list of choices settled on.
pub open spec fn ids_of(resolved: Seq<Choice>) -> Seq<Seq<char>> {
    Seq::new(resolved.len(), |i: int| resolved[i].1)
}

/// Where a run stands.
pub enum StageView {
    /// The catalog is awaited.
    Catalog,
    /// Chapters are being resolved.
    Resolving(ResolverView),
    /// The pages of the resolved translations are being gathered: those of
    /// the first `next` translations are in `pages`.
    Paging { ids: Seq<Seq<char>>, next: int, pages: Seq<Seq<char>> },
    /// Every page is known.
    Ready { pages: Seq<Seq<char>> },
    /// The run has failed.
    Failed(RunError),
}

/// Where a resolution leads: on while an identifier is pending; then to the
/// gathering of pages, or to failure if no chapter was resolved.
pub open spec fn after_resolving(state: ResolverView) -> StageView {
    if !state.finished() {
        StageView::Resolving(state)
    } else if state.resolved.len() == 0 {
        StageView::Failed(RunError::NoPages)
    } else {
        StageView::Paging { ids: ids_of(state.resolved), next: 0, pages: Seq::empty() }
    }
}

/// Where the catalog leads: to failure if it could not be built or is
/// empty, else into the resolution of the selected chapters.
pub open spec fn after_catalog(
    catalog: Result<Vec<Chapter>, CatalogFetchError>,
    selector: Selector,
    language: Seq<char>,
) -> StageView {
    match catalog {
        Err(e) => StageView::Failed(RunError::CatalogAggregation(e)),
        Ok(chapters) => if chapters@.len() == 0 {
            StageView::Failed(RunError::EmptyCatalog)
        } else {
            after_resolving(
                ResolverView::start(language, wanted(entries_of(chapters@), selector)),
            )
        },
    }
}

/// Where the pages of one more translation lead: they join the pages
/// gathered, after them and in their own order; and with the last
/// translation the run is ready, or has failed if there is no page at all.
pub open spec fn after_pages(
    ids: Seq<Seq<char>>,
    next: int,
    pages: Seq<Seq<char>>,
    fetched: Result<Vec<String>, PageFetchError>,
) -> StageView {
    match fetched {
        Err(e) => StageView::Failed(RunError::PageRetrieval(e)),
        Ok(more) => {
            let all = pages + texts(more@);
            if next + 1 < ids.len() {
                StageView::Paging { ids, next: next + 1, pages: all }
            } else if all.len() == 0 {
                StageView::Failed(RunError::NoPages)
            } else {
                StageView::Ready { pages: all }
            }
        },
    }
}

impl StageView {
    /// Whether the stage is one that a run can be in.
    pub open spec fn wf(self) -> bool {
        match self {
            StageView::Catalog => true,
            StageView::Resolving(state) => state.wf() && !state.finished(),
            StageView::Paging { ids, next, pages } => 0 <= next < ids.len(),
            StageView::Ready { pages } => pages.len() > 0,
            StageView::Failed(_) => true,
        }
    }
}

enum Stage {
    Catalog,
    Resolving(Resolver),
    Paging { ids: Vec<String>, next: usize, pages: Vec<String> },
    Ready { pages: Vec<String> },
    Failed(RunError),
}

impl View for Stage {
    type V = StageView;

    closed spec fn view(&self) -> StageView {
        match self {
            Stage::Catalog => StageView::Catalog,
            Stage::Resolving(resolver) => StageView::Resolving(resolver@),
            Stage::Paging { ids, next, pages } => StageView::Paging {
                ids: texts(ids@),
                next: *next as int,
                pages: texts(pages@),
            },
            Stage::Ready { pages } => StageView::Ready { pages: texts(pages@) },
            Stage::Failed(e) => StageView::Failed(*e),
        }
    }
}

/// A run in progress.
pub struct Run {
    client: MDClient,
    selector: Selector,
    stage: Stage,
}

/// What a run makes in the end.
pub enum Output {
    /// A document, to be assembled from the pages and written to `path`.
    Document { assembler: Assembler, path: String },
    /// One image file per page: the page at `pages[i]` goes to `paths[i]`.
    Images { pages: Vec<String>, paths: Vec<String> },
}

/// Where a finished resolver leads.
fn settle(resolver: Resolver) -> (stage: Stage)
    requires
        resolver@.wf(),
    ensures
        stage@ == after_resolving(resolver@),
        stage@.wf(),
{
    if !resolver.is_finished() {
        return Stage::Resolving(resolver);
    }
    let ghost resolved = resolver@.resolved;
    match resolver.into_ids() {
        Ok(ids) => {
            let pages: Vec<String> = Vec::new();
            proof {
                assert(texts(ids@) =~= ids_of(resolved));
                assert(texts(pages@) =~= Seq::<Seq<char>>::empty());
            }
            Stage::Paging { ids, next: 0, pages }
        },
        Err(_) => Stage::Failed(RunError::NoPages),
    }
}

impl Run {
    /// The selector of the run, as read from its configuration.
    pub closed spec fn selector(&self) -> Selector {
        self.selector
    }

    /// The configuration of the run.
    pub closed spec fn args(&self) -> Args {
        self.client.args
    }

    /// Where the run stands.
    pub closed spec fn stage(&self) -> StageView {
        self.stage@
    }

    /// Whether the run is in a state that a run can be in.
    pub open spec fn wf(&self) -> bool {
        self.stage().wf()
    }

    /// Begins a run. The warnings name the selector tokens that denote no
    /// ordinal and were read as the fallback.
    pub fn new(args: Args) -> (r: (Run, Vec<SelectorParseError>))
        ensures
            r.0.wf(),
            r.0.args() == args,
            r.0.stage() == StageView::Catalog,
            denotes(r.0.selector(), args.chapter@),
            warns_of(r.1@, selector_tokens(args.chapter@)),
    {
        let parsed = parse_selector(args.chapter.as_str());
        (
            Run { client: MDClient::new(args), selector: parsed.selector, stage: Stage::Catalog },
            parsed.warnings,
        )
    }

    /// The configuration of the run.
    pub fn client(&self) -> (client: &MDClient)
        ensures
            client.args == self.args(),
    {
        &self.client
    }

    /// The failure of the run, if it has failed.
    pub fn failure(&self) -> (r: Option<&RunError>)
        ensures
            match self.stage() {
                StageView::Failed(e) => r == Some(&e),
                _ => r is None,
            },
    {
        match &self.stage {
            Stage::Failed(e) => Some(e),
            _ => None,
        }
    }

    /// What the run needs next.
    pub fn request(&self) -> (r: Request)
        requires
            self.wf(),
        ensures
            match self.stage() {
                StageView::Catalog => r matches Request::Catalog(url) && url@
                    == crate::client::request_url("/manga/"@, self.args().id@, "/aggregate"@),
                StageView::Resolving(state) => r matches Request::Metadata(url) && url@
                    == crate::client::request_url("/chapter/"@, state.pending()->0, ""@),
                StageView::Paging { ids, next, pages } => r matches Request::Pages(url) && url@
                    == crate::client::request_url("/at-home/server/"@, ids[next], ""@),
                StageView::Ready { pages } => r is Output,
                StageView::Failed(_) => r is Nothing,
            },
    {
        match &self.stage {
            Stage::Catalog => Request::Catalog(self.client.catalog_request()),
            Stage::Resolving(resolver) => {
                match resolver.pending() {
                    Some(id) => Request::Metadata(self.client.metadata_request(id.as_str())),
                    None => Request::Nothing,
                }
            },
            Stage::Paging { ids, next, pages } => {
                Request::Pages(self.client.pages_request(ids[*next].as_str()))
            },
            Stage::Ready { pages } => Request::Output,
            Stage::Failed(_) => Request::Nothing,
        }
    }

    /// Takes the catalog, or the reason why there is none. A run that does
    /// not await the catalog stays as it is.
    pub fn catalog_fetched(self, catalog: Result<Vec<Chapter>, CatalogFetchError>) -> (r: Run)
        requires
            self.wf(),
        ensures
            r.wf(),
            r.args() == self.args(),
            r.selector() == self.selector(),
            r.stage() == match self.stage() {
                StageView::Catalog => after_catalog(
                    catalog,
                    self.selector(),
                    self.args().language@,
                ),
                other => other,
            },
    {
        let Run { client, selector, stage } = self;
        let stage = match stage {
            Stage::Catalog => match catalog {
                Err(e) => Stage::Failed(RunError::CatalogAggregation(e)),
                Ok(chapters) => if chapters.len() == 0 {
                    Stage::Failed(RunError::EmptyCatalog)
                } else {
                    settle(Resolver::new(&selector, client.args.language.clone(), chapters))
                },
            },
            other => other,
        };
        Run { client, selector, stage }
    }

    /// Takes the answer to the catalog request: its body, or `None` where
    /// the request failed. A run that does not await the catalog stays as it
    /// is.
    pub fn catalog_answered(self, body: Option<&[u8]>) -> (r: Run)
        requires
            self.wf(),
        ensures
            r.wf(),
            r.args() == self.args(),
            r.selector() == self.selector(),
            !(self.stage() is Catalog) ==> r.stage() == self.stage(),
            self.stage() is Catalog ==> exists|catalog: Result<Vec<Chapter>, CatalogFetchError>|
                #[trigger] is_catalog_of_answer(catalog, bytes_of(body)) && r.stage() == after_catalog(catalog, self.selector(), self.args().language@),
    {
        let catalog = match body {
            Some(bytes) => self.client.catalog_of_body(bytes),
            None => Err(CatalogFetchError::Unavailable),
        };
        let ghost led = catalog;
        let r = self.catalog_fetched(catalog);
        proof {
            assert(is_catalog_of_answer(led, bytes_of(body)));
        }
        r
    }

    /// Takes the answer to the metadata request: its body, or `None` where
    /// the request failed. A failed request fails the run, and so does a
    /// body that is no JSON; any other body is read field for field. Returns
    /// the ordinal of the chapter that this answer resolved, if it resolved
    /// one. A run that is not resolving stays as it is.
    pub fn metadata_answered(self, body: Option<&[u8]>) -> (r: (Run, Option<u16>))
        requires
            self.wf(),
        ensures
            r.0.wf(),
            r.0.args() == self.args(),
            r.0.selector() == self.selector(),
            r.0.stage() == match self.stage() {
                StageView::Resolving(state) => match body {
                    Some(bytes) => match parsed(bytes@) {
                        Some(value) => after_resolving(
                            state.after(qualifies_in(value, state.language)),
                        ),
                        None => StageView::Failed(RunError::Resolution),
                    },
                    None => StageView::Failed(RunError::Resolution),
                },
                other => other,
            },
            r.1 == match (self.stage(), body) {
                (StageView::Resolving(state), Some(bytes)) => if parsed(bytes@) is Some
                    && qualifies_in(parsed(bytes@)->0, state.language) {
                    Some(state.wanted[state.chapter].0)
                } else {
                    None
                },
                _ => None,
            },
    {
        let meta = match body {
            Some(bytes) => read_meta(bytes),
            None => None,
        };
        proof {
            if meta is Some && self.stage() is Resolving {
                lemma_meta_qualifies(
                    meta->0,
                    parsed(body->0@)->0,
                    self.stage()->Resolving_0.language,
                );
            }
        }
        self.metadata_fetched(meta)
    }

    /// Takes the metadata of the translation asked about, or `None` where
    /// it could not be had, which fails the run. Returns the ordinal of the
    /// chapter that this answer resolved, if it resolved one. A run that is
    /// not resolving stays as it is.
    pub fn metadata_fetched(self, meta: Option<ChapterMeta>) -> (r: (Run, Option<u16>))
        requires
            self.wf(),
        ensures
            r.0.wf(),
            r.0.args() == self.args(),
            r.0.selector() == self.selector(),
            r.0.stage() == match self.stage() {
                StageView::Resolving(state) => match meta {
                    Some(m) => after_resolving(state.after(m.qualifies(state.language))),
                    None => StageView::Failed(RunError::Resolution),
                },
                other => other,
            },
            r.1 == match (self.stage(), meta) {
                (StageView::Resolving(state), Some(m)) => if m.qualifies(state.language) {
                    Some(state.wanted[state.chapter].0)
                } else {
                    None
                },
                _ => None,
            },
    {
        let Run { client, selector, stage } = self;
        let (stage, resolved) = match stage {
            Stage::Resolving(resolver) => match meta {
                Some(m) => {
                    let mut resolver = resolver;
                    let resolved = resolver.observe(&m);
                    (settle(resolver), resolved)
                },
                None => (Stage::Failed(RunError::Resolution), None),
            },
            other => (other, None),
        };
        (Run { client, selector, stage }, resolved)
    }

    /// Takes the page addresses of the translation asked about, or the
    /// reason why there are none, which fails the run. A run that is not
    /// gathering pages stays as it is.
    pub fn pages_fetched(self, fetched: Result<Vec<String>, PageFetchError>) -> (r: Run)
        requires
            self.wf(),
        ensures
            r.wf(),
            r.args() == self.args(),
            r.selector() == self.selector(),
            r.stage() == match self.stage() {
                StageView::Paging { ids, next, pages } => after_pages(ids, next, pages, fetched),
                other => other,
            },
    {
        let Run { client, selector, stage } = self;
        let stage = match stage {
            Stage::Paging { ids, next, pages } => match fetched {
                Err(e) => Stage::Failed(RunError::PageRetrieval(e)),
                Ok(more) => {
                    let mut pages = pages;
                    let mut more = more;
                    let ghost had = texts(pages@);
                    let ghost new = texts(more@);
                    pages.append(&mut more);
                    proof {
                        assert(texts(pages@) =~= had + new);
                    }
                    let count = ids.len();
                    if next + 1 < count {
                        Stage::Paging { ids, next: next + 1, pages }
                    } else if pages.len() == 0 {
                        Stage::Failed(RunError::NoPages)
                    } else {
                        Stage::Ready { pages }
                    }
                },
            },
            other => other,
        };
        Run { client, selector, stage }
    }

    /// Ends the run: hands back its configuration and, if the run is ready,
    /// says what to make: a document to assemble, or the image files to
    /// write, as the configuration asks. A run that is not ready makes
    /// nothing.
    pub fn into_output(self, calibration: Calibration) -> (r: (MDClient, Option<Output>))
        requires
            self.wf(),
        ensures
            r.0.args == self.args(),
            r.1 is Some <==> self.stage() is Ready,
            r.1 matches Some(Output::Document { assembler, path }) ==> {
                &&& !self.args().images
                &&& assembler.wf()
                &&& assembler@.urls == self.stage()->Ready_pages
                &&& assembler@.calibration == calibration
                &&& assembler@.laid.len() == 0
                &&& !assembler@.aborted
                &&& path@ == self.args().output@
            },
            r.1 matches Some(Output::Images { pages, paths }) ==> {
                &&& self.args().images
                &&& texts(pages@) == self.stage()->Ready_pages
                &&& paths@.len() == pages@.len()
                &&& forall|i: int|
                    0 <= i < paths@.len() ==> (#[trigger] paths@[i])@ == image_file_name(
                        self.args().output@,
                        i as nat,
                        pages@[i]@,
                    )
            },
    {
        let Run { client, selector, stage } = self;
        let output = match stage {
            Stage::Ready { pages } => {
                if client.args.images {
                    let paths = save_pages_as_images(&client, &pages);
                    Some(Output::Images { pages, paths })
                } else {
                    let path = client.document_path();
                    match bind_pages(pages, calibration) {
                        Ok(assembler) => Some(Output::Document { assembler, path }),
                        Err(_) => None,
                    }
                }
            },
            _ => None,
        };
        (client, output)
    }
}

} // verus!
