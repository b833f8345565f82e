//! The configuration of a run, and what follows from it alone: the requests
//! to make, the rendition to fetch, the names of the files to write.

use crate::catalog::{
    get_manga_chapters, is_catalog_result, Aggregate, CatalogFetchError, Chapter,
};
use crate::wire::{aggregate_reflects, parsed, read_aggregate};
use crate::pages::{page_url, page_urls, ChapterPagesData, Quality};
use crate::resolve::{entries_of, wanted, Resolver, ResolverView};
use crate::selector::{denotes, parse_selector, selector_tokens, warns_of, ParsedSelector};
use crate::text::{decimal, decimal_digits, extension, extension_of};
use vstd::prelude::*;
use vstd::string::*;

verus! {

/// What a run is asked to do.
#[derive(Debug)]
pub struct Args {
    /// The identifier of the work.
    pub id: String,
    /// The chapter selector: an ordinal, a list, or a closed range.
    pub chapter: String,
    /// The language of the translations wanted.
    pub language: String,
    /// Whether to fetch the recompressed images in place of the uploaded.
    pub fast: bool,
    /// Whether to write the pages as image files in place of a document.
    pub images: bool,
    /// Where to write.
    pub output: String,
    /// Whether to report progress in detail.
    pub verbose: bool,
}

impl Args {
    /// The request for a work when nothing else is said: its first chapter,
    /// in English, as uploaded, bound into `bound.pdf`, quietly.
    pub fn with_defaults(id: String) -> (args: Args)
        ensures
            args.id == id,
            args.chapter@ == "1"@,
            args.language@ == "en"@,
            !args.fast,
            !args.images,
            args.output@ == "bound.pdf"@,
            !args.verbose,
    {
        Args {
            id,
            chapter: String::from_str("1"),
            language: String::from_str("en"),
            fast: false,
            images: false,
            output: String::from_str("bound.pdf"),
            verbose: false,
        }
    }
}

/// The address of a request: the service, then `path`, then `id`, then
/// `suffix`.
pub open spec fn request_url(path: Seq<char>, id: Seq<char>, suffix: Seq<char>) -> Seq<char> {
    "https://api.mangadex.org"@ + path + id + suffix
}

/// The address of a request.
fn build_request(path: &str, id: &str, suffix: &str) -> (url: String)
    ensures
        url@ == request_url(path@, id@, suffix@),
{
    let mut url = String::from_str("https://api.mangadex.org");
    url.append(path);
    url.append(id);
    url.append(suffix);
    url
}

/// The name of the image file for the page at `index`, counted from zero:
/// the output name, an underscore, the page's number counted from one, a
/// dot, and the file extension of the page's address.
pub open spec fn image_file_name(output: Seq<char>, index: nat, url: Seq<char>) -> Seq<char> {
    output + "_"@ + decimal_digits(index + 1) + "."@ + extension(url)
}

/// Whether `catalog` is what the answer to the catalog request leads to.
/// `body` is the body of the answer, or `None` where the request failed. A
/// failed request and a body that is no JSON are no aggregate at all; any
/// other body leads to the catalog as the aggregate read from it does.
pub open spec fn is_catalog_of_answer(
    catalog: Result<Vec<Chapter>, CatalogFetchError>,
    body: Option<Seq<u8>>,
) -> bool {
    match body {
        Some(bytes) => match parsed(bytes) {
            Some(value) => exists|aggregate: Aggregate|
                #[trigger] aggregate_reflects(aggregate, value) && is_catalog_result(
                    catalog,
                    aggregate,
                ),
            None => catalog == Err::<Vec<Chapter>, CatalogFetchError>(
                CatalogFetchError::Unavailable,
            ),
        },
        None => catalog == Err::<Vec<Chapter>, CatalogFetchError>(CatalogFetchError::Unavailable),
    }
}

/// The run's configuration, with what it implies for each step of the run.
#[derive(Debug)]
pub struct MDClient {
    pub args: Args,
}

impl MDClient {
    /// A client for the run that `args` describes.
    pub fn new(args: Args) -> (client: MDClient)
        ensures
            client.args == args,
    {
        MDClient { args }
    }

    /// The rendition that the run fetches.
    pub open spec fn quality_spec(&self) -> Quality {
        if self.args.fast {
            Quality::Compressed
        } else {
            Quality::Standard
        }
    }

    /// The rendition that the run fetches.
    pub fn quality(&self) -> (q: Quality)
        ensures
            q == self.quality_spec(),
    {
        if self.args.fast {
            Quality::Compressed
        } else {
            Quality::Standard
        }
    }

    /// The address of the aggregate of the work.
    pub fn catalog_request(&self) -> (url: String)
        ensures
            url@ == request_url("/manga/"@, self.args.id@, "/aggregate"@),
    {
        build_request("/manga/", self.args.id.as_str(), "/aggregate")
    }

    /// The address of the metadata of the translation `id`.
    pub fn metadata_request(&self, id: &str) -> (url: String)
        ensures
            url@ == request_url("/chapter/"@, id@, ""@),
    {
        build_request("/chapter/", id, "")
    }

    /// The address of the page bundle of the translation `id`.
    pub fn pages_request(&self, id: &str) -> (url: String)
        ensures
            url@ == request_url("/at-home/server/"@, id@, ""@),
    {
        build_request("/at-home/server/", id, "")
    }

    /// Builds the catalog of the work from its aggregate response.
    pub fn get_manga_chapters(&self, aggregate: &Aggregate) -> (r: Result<
        Vec<Chapter>,
        CatalogFetchError,
    >)
        ensures
            is_catalog_result(r, *aggregate),
    {
        get_manga_chapters(aggregate)
    }

    /// Builds the catalog of the work from the body of the answer to the
    /// catalog request. A body that is no JSON is no aggregate at all; any
    /// other body is read field for field, and leads to the catalog as an
    /// aggregate does.
    pub fn catalog_of_body(&self, body: &[u8]) -> (r: Result<Vec<Chapter>, CatalogFetchError>)
        ensures
            parsed(body@) is None ==> r == Err::<Vec<Chapter>, CatalogFetchError>(
                CatalogFetchError::Unavailable,
            ),
            parsed(body@) matches Some(value) ==> exists|aggregate: Aggregate|
                #[trigger] aggregate_reflects(aggregate, value) && is_catalog_result(r, aggregate),
            is_catalog_of_answer(r, Some(body@)),
    {
        match read_aggregate(body) {
            Some(aggregate) => {
                let r = get_manga_chapters(&aggregate);
                proof {
                    assert(aggregate_reflects(aggregate, parsed(body@)->0));
                }
                r
            },
            None => Err(CatalogFetchError::Unavailable),
        }
    }

    /// Begins the resolution of the run's selector and language against the
    /// catalog, and hands out the selector as it was read. Its warnings name
    /// the selector tokens that denote no ordinal and were read as the
    /// fallback.
    pub fn get_chapter_lang_ids(&self, chapters: Vec<Chapter>) -> (r: (Resolver, ParsedSelector))
        ensures
            denotes(r.1.selector, self.args.chapter@),
            warns_of(r.1.warnings@, selector_tokens(self.args.chapter@)),
            r.0@.wf(),
            r.0@ == ResolverView::start(
                self.args.language@,
                wanted(entries_of(chapters@), r.1.selector),
            ),
    {
        let parsed = parse_selector(self.args.chapter.as_str());
        let resolver = Resolver::new(&parsed.selector, self.args.language.clone(), chapters);
        (resolver, parsed)
    }

    /// The addresses of the pages of a bundle, in the run's rendition.
    pub fn get_chapter_pages(&self, bundle: &ChapterPagesData) -> (urls: Vec<String>)
        ensures
            urls@.len() == bundle.chapter.files(self.quality_spec()).len(),
            forall|i: int|
                0 <= i < urls@.len() ==> (#[trigger] urls@[i])@ == page_url(
                    bundle.base_url@,
                    self.quality_spec(),
                    bundle.chapter.hash@,
                    bundle.chapter.files(self.quality_spec())[i]@,
                ),
    {
        page_urls(bundle, self.quality())
    }

    /// The progress message to show: `msg` in a verbose run, none otherwise.
    pub fn status(&self, msg: String) -> (shown: Option<String>)
        ensures
            shown == if self.args.verbose {
                Some(msg)
            } else {
                None
            },
    {
        if self.args.verbose {
            Some(msg)
        } else {
            None
        }
    }

    /// The path that the bound document is written to: the output path of
    /// the configuration, as it stands.
    pub fn document_path(&self) -> (path: String)
        ensures
            path@ == self.args.output@,
    {
        self.args.output.clone()
    }

    /// The name of the image file for the page at `index`, counted from
    /// zero, fetched from `url`.
    pub fn image_path(&self, index: usize, url: &str) -> (path: String)
        requires
            index < usize::MAX,
        ensures
            path@ == image_file_name(self.args.output@, index as nat, url@),
    {
        let mut path = self.args.output.clone();
        path.append("_");
        let number = decimal(index + 1);
        path.append(number.as_str());
        path.append(".");
        let extension = extension_of(url);
        path.append(extension.as_str());
        path
    }
}

/// The names of the image files to write, one per page, in order.
pub fn save_pages_as_images(client: &MDClient, pages: &Vec<String>) -> (paths: Vec<String>)
    ensures
        paths@.len() == pages@.len(),
        forall|i: int|
            0 <= i < paths@.len() ==> (#[trigger] paths@[i])@ == image_file_name(
                client.args.output@,
                i as nat,
                pages@[i]@,
            ),
{
    let mut paths: Vec<String> = Vec::new();
    let mut i: usize = 0;
    while i < pages.len()
        invariant
            i <= pages.len(),
            paths@.len() == i,
            forall|k: int|
                0 <= k < i ==> (#[trigger] paths@[k])@ == image_file_name(
                    client.args.output@,
                    k as nat,
                    pages@[k]@,
                ),
        decreases pages.len() - i,
    {
        let path = client.image_path(i, pages[i].as_str());
        paths.push(path);
        i = i + 1;
    }
    paths
}

} // verus!
