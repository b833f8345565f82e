//! The page images of a chapter: from the bundle that the service returns
//! for a translation to the addresses of its pages, in reading order.

use vstd::prelude::*;
use vstd::string::*;

verus! {

/// Which rendition of the page images to fetch.
#[derive(Debug, Clone, Copy, PartialEq, Eq, Structural)]
pub enum Quality {
    /// The images as uploaded.
    Standard,
    /// The smaller, recompressed images.
    Compressed,
}

/// The file names of a translation's pages, as uploaded and recompressed.
#[derive(Debug)]
pub struct ChapterPages {
    pub hash: String,
    pub data: Vec<String>,
    pub data_saver: Vec<String>,
}

/// The bundle that the service returns for a translation.
#[derive(Debug)]
pub struct ChapterPagesData {
    pub result: String,
    pub base_url: String,
    pub chapter: ChapterPages,
}

/// The bundle of a translation could not be had: the request failed, or its
/// answer was no bundle.
#[derive(Debug, PartialEq, Eq)]
pub struct PageFetchError;

impl Quality {
    /// The path segment under which the service keeps this rendition.
    pub open spec fn segment(self) -> Seq<char> {
        match self {
            Quality::Standard => "data"@,
            Quality::Compressed => "data-saver"@,
        }
    }

    /// The path segment under which the service keeps this rendition.
    pub fn segment_name(self) -> (r: &'static str)
        ensures
            r@ == self.segment(),
    {
        match self {
            Quality::Standard => "data",
            Quality::Compressed => "data-saver",
        }
    }
}

impl ChapterPages {
    /// The file names of the rendition.
    pub open spec fn files(&self, quality: Quality) -> Seq<String> {
        match quality {
            Quality::Standard => self.data@,
            Quality::Compressed => self.data_saver@,
        }
    }
}

/// The address of a page: base, rendition, hash and file name, joined by
/// slashes.
pub open spec fn page_url(
    base: Seq<char>,
    quality: Quality,
    hash: Seq<char>,
    file: Seq<char>,
) -> Seq<char> {
    base + "/"@ + quality.segment() + "/"@ + hash + "/"@ + file
}

/// The address of one page.
pub fn build_page_url(base: &str, quality: Quality, hash: &str, file: &str) -> (url: String)
    ensures
        url@ == page_url(base@, quality, hash@, file@),
{
    let mut url = String::from_str(base);
    url.append("/");
    url.append(quality.segment_name());
    url.append("/");
    url.append(hash);
    url.append("/");
    url.append(file);
    url
}

/// The addresses of the pages of a bundle in the chosen rendition, one per
/// file name, in the order the service listed them.
pub fn page_urls(bundle: &ChapterPagesData, quality: Quality) -> (urls: Vec<String>)
    ensures
        urls@.len() == bundle.chapter.files(quality).len(),
        forall|i: int|
            0 <= i < urls@.len() ==> (#[trigger] urls@[i])@ == page_url(
                bundle.base_url@,
                quality,
                bundle.chapter.hash@,
                bundle.chapter.files(quality)[i]@,
            ),
{
    let files = match quality {
        Quality::Standard => &bundle.chapter.data,
        Quality::Compressed => &bundle.chapter.data_saver,
    };
    let mut urls: Vec<String> = Vec::new();
    let mut i: usize = 0;
    while i < files.len()
        invariant
            i <= files.len(),
            files@ == bundle.chapter.files(quality),
            urls@.len() == i,
            forall|k: int|
                0 <= k < i ==> (#[trigger] urls@[k])@ == page_url(
                    bundle.base_url@,
                    quality,
                    bundle.chapter.hash@,
                    files@[k]@,
                ),
        decreases files.len() - i,
    {
        let url = build_page_url(
            bundle.base_url.as_str(),
            quality,
            bundle.chapter.hash.as_str(),
            files[i].as_str(),
        );
        urls.push(url);
        i = i + 1;
    }
    urls
}

} // verus!
