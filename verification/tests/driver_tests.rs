use manga_binder::assemble::{AssemblyState, BindError, Calibration};
use manga_binder::catalog::{
    Aggregate, CatalogFetchError, Chapter, ChapterRecord, VolumeRecord,
};
use manga_binder::client::{save_pages_as_images, Args, MDClient};
use manga_binder::driver::{Output, Request, Run, RunError};
use manga_binder::pages::{ChapterPages, ChapterPagesData, PageFetchError};
use manga_binder::resolve::ChapterMeta;
use manga_binder::selector::Selector;

fn args(chapter: &str, language: &str) -> Args {
    let mut a = Args::with_defaults("work-1".to_string());
    a.chapter = chapter.to_string();
    a.language = language.to_string();
    a
}

fn chapter(name: u16, ids: &[&str]) -> Chapter {
    Chapter { name, ids: ids.iter().map(|s| s.to_string()).collect() }
}

fn meta(language: &str, external: bool) -> Option<ChapterMeta> {
    Some(ChapterMeta {
        language: Some(language.to_string()),
        external_url: if external { Some("https://elsewhere.example".to_string()) } else { None },
    })
}

fn address(request: Request) -> (String, String) {
    match request {
        Request::Catalog(url) => ("catalog".to_string(), url),
        Request::Metadata(url) => ("metadata".to_string(), url),
        Request::Pages(url) => ("pages".to_string(), url),
        Request::Output => ("output".to_string(), String::new()),
        Request::Nothing => ("nothing".to_string(), String::new()),
    }
}

fn texts(list: &[&str]) -> Vec<String> {
    list.iter().map(|s| s.to_string()).collect()
}

#[test]
fn defaults_of_a_request() {
    let a = Args::with_defaults("abc".to_string());
    assert_eq!(a.id, "abc");
    assert_eq!(a.chapter, "1");
    assert_eq!(a.language, "en");
    assert!(!a.fast);
    assert!(!a.images);
    assert_eq!(a.output, "bound.pdf");
    assert!(!a.verbose);
}

#[test]
fn request_addresses() {
    let client = MDClient::new(Args::with_defaults("a-b-c".to_string()));
    assert_eq!(client.catalog_request(), "https://api.mangadex.org/manga/a-b-c/aggregate");
    assert_eq!(client.metadata_request("id-7"), "https://api.mangadex.org/chapter/id-7");
    assert_eq!(client.pages_request("id-7"), "https://api.mangadex.org/at-home/server/id-7");
}

#[test]
fn fast_selects_the_compressed_rendition() {
    let bundle = ChapterPagesData {
        result: "ok".to_string(),
        base_url: "https://u".to_string(),
        chapter: ChapterPages {
            hash: "h".to_string(),
            data: texts(&["a.png"]),
            data_saver: texts(&["b.jpg"]),
        },
    };
    let mut a = Args::with_defaults("w".to_string());
    assert_eq!(MDClient::new(a).get_chapter_pages(&bundle), texts(&["https://u/data/h/a.png"]));
    a = Args::with_defaults("w".to_string());
    a.fast = true;
    assert_eq!(
        MDClient::new(a).get_chapter_pages(&bundle),
        texts(&["https://u/data-saver/h/b.jpg"])
    );
}

#[test]
fn status_shows_only_when_verbose() {
    let quiet = MDClient::new(Args::with_defaults("w".to_string()));
    assert_eq!(quiet.status("working".to_string()), None);
    let mut a = Args::with_defaults("w".to_string());
    a.verbose = true;
    assert_eq!(MDClient::new(a).status("working".to_string()), Some("working".to_string()));
}

#[test]
fn output_file_names() {
    let mut a = Args::with_defaults("w".to_string());
    a.output = "out/book".to_string();
    let client = MDClient::new(a);
    assert_eq!(client.document_path(), "out/book");
    assert_eq!(client.image_path(0, "https://u/data/h/x1.png"), "out/book_1.png");
    assert_eq!(client.image_path(9, "https://u/data/h/x1.jpg"), "out/book_10.jpg");
    assert_eq!(client.image_path(2, "https://u/data/h/x1"), "out/book_3.");
    let pages = texts(&["https://u/a.png", "https://u/b.gif", "https://u/c.jpeg"]);
    assert_eq!(
        save_pages_as_images(&client, &pages),
        texts(&["out/book_1.png", "out/book_2.gif", "out/book_3.jpeg"])
    );
    let default = MDClient::new(Args::with_defaults("w".to_string()));
    assert_eq!(default.document_path(), "bound.pdf");
    assert_eq!(save_pages_as_images(&client, &Vec::new()), Vec::<String>::new());
}

#[test]
fn client_builds_the_catalog() {
    let client = MDClient::new(Args::with_defaults("w".to_string()));
    let agg = Aggregate {
        volumes: Some(vec![VolumeRecord {
            chapters: Some(vec![ChapterRecord {
                label: "2".to_string(),
                id: Some("p".to_string()),
                others: Some(texts(&["o"])),
            }]),
        }]),
    };
    let chapters = client.get_manga_chapters(&agg).unwrap();
    assert_eq!(chapters.len(), 1);
    assert_eq!(chapters[0].name, 2);
    assert_eq!(chapters[0].ids, texts(&["o", "p"]));
    assert_eq!(
        client.get_manga_chapters(&Aggregate { volumes: None }).err(),
        Some(CatalogFetchError::MissingVolumes)
    );
}

#[test]
fn client_begins_the_resolution() {
    let client = MDClient::new(args("x-2", "fr"));
    let (resolver, parsed) =
        client.get_chapter_lang_ids(vec![chapter(1, &["a"]), chapter(2, &["b"]), chapter(3, &["c"])]);
    match parsed.selector {
        Selector::Range { lo, hi } => assert_eq!((lo, hi), (1, 2)),
        Selector::List(_) => panic!("expected a range"),
    }
    assert_eq!(parsed.warnings.len(), 1);
    assert_eq!(parsed.warnings[0].position, 0);
    assert_eq!(resolver.language(), "fr");
    assert_eq!(resolver.pending(), Some(&"a".to_string()));
}

#[test]
fn failure_lines() {
    assert_eq!(
        RunError::CatalogAggregation(CatalogFetchError::Unavailable).message(),
        "[!] Error aggregating all the chapters for this manga."
    );
    assert_eq!(
        RunError::CatalogAggregation(CatalogFetchError::MissingVolumes).message(),
        "[!] Error aggregating all the chapters for this manga."
    );
    assert_eq!(
        RunError::EmptyCatalog.message(),
        "[!] No manga chapters found. Likely an invalid ID."
    );
    assert_eq!(
        RunError::Resolution.message(),
        "[!] Error finding chapter IDs for given language."
    );
    assert_eq!(
        RunError::PageRetrieval(PageFetchError).message(),
        "[!] No pages were able to be retrieved based on your chapter and language input."
    );
    assert_eq!(
        RunError::NoPages.message(),
        "[!] No pages were able to be retrieved based on your chapter and language input."
    );
    assert_eq!(RunError::ImageDump.message(), "[!] Error while saving images.");
    assert_eq!(
        RunError::Binding(BindError::Decode { page: 3 }).message(),
        "[!] Error while binding PDF."
    );
    assert_eq!(RunError::Binding(BindError::Unwritten).message(), "[!] Error while binding PDF.");
}

#[test]
fn run_from_catalog_to_document() {
    let (run, warnings) = Run::new(args("1-3", "en"));
    assert_eq!(warnings.len(), 0);
    assert_eq!(run.client().args.id, "work-1");
    assert!(run.failure().is_none());
    assert_eq!(
        address(run.request()),
        ("catalog".to_string(), "https://api.mangadex.org/manga/work-1/aggregate".to_string())
    );
    let catalog = vec![
        chapter(1, &["en-1"]),
        chapter(2, &["fr-2"]),
        chapter(3, &["xx-3", "en-3"]),
        chapter(4, &["en-4"]),
    ];
    let run = run.catalog_fetched(Ok(catalog));
    assert_eq!(address(run.request()).1, "https://api.mangadex.org/chapter/en-1");
    let (run, resolved) = run.metadata_fetched(meta("en", false));
    assert_eq!(resolved, Some(1));
    assert_eq!(address(run.request()).1, "https://api.mangadex.org/chapter/fr-2");
    let (run, resolved) = run.metadata_fetched(meta("fr", false));
    assert_eq!(resolved, None);
    assert_eq!(address(run.request()).1, "https://api.mangadex.org/chapter/xx-3");
    let (run, resolved) = run.metadata_fetched(meta("en", true));
    assert_eq!(resolved, None);
    assert_eq!(address(run.request()).1, "https://api.mangadex.org/chapter/en-3");
    let (run, resolved) = run.metadata_fetched(meta("en", false));
    assert_eq!(resolved, Some(3));
    assert_eq!(
        address(run.request()),
        ("pages".to_string(), "https://api.mangadex.org/at-home/server/en-1".to_string())
    );
    let run = run.pages_fetched(Ok(texts(&["u/1a", "u/1b"])));
    assert_eq!(address(run.request()).1, "https://api.mangadex.org/at-home/server/en-3");
    let run = run.pages_fetched(Ok(texts(&["u/3a"])));
    assert_eq!(address(run.request()).0, "output");
    assert!(run.failure().is_none());
    match run.into_output(Calibration::standard()).1 {
        Some(Output::Document { assembler, path }) => {
            assert_eq!(path, "bound.pdf");
            assert_eq!(assembler.state(), AssemblyState::Empty);
            assert_eq!(assembler.page_count(), 3);
            assert_eq!(assembler.next_url(), Some(&"u/1a".to_string()));
        }
        _ => panic!("expected a document"),
    }
}

#[test]
fn run_to_image_files() {
    let mut a = args("1", "en");
    a.images = true;
    a.output = "dump".to_string();
    let (run, _) = Run::new(a);
    let run = run.catalog_fetched(Ok(vec![chapter(1, &["en-1"])]));
    let (run, _) = run.metadata_fetched(meta("en", false));
    let run = run.pages_fetched(Ok(texts(&["https://u/p1.png", "https://u/p2.jpg"])));
    match run.into_output(Calibration::standard()).1 {
        Some(Output::Images { pages, paths }) => {
            assert_eq!(pages, texts(&["https://u/p1.png", "https://u/p2.jpg"]));
            assert_eq!(paths, texts(&["dump_1.png", "dump_2.jpg"]));
        }
        _ => panic!("expected image files"),
    }
}

#[test]
fn run_warns_of_malformed_selector() {
    let (_, warnings) = Run::new(args("abc-5", "en"));
    assert_eq!(warnings.len(), 1);
    assert_eq!(warnings[0].position, 0);
}

#[test]
fn run_fails_without_catalog() {
    let (run, _) = Run::new(args("1", "en"));
    let run = run.catalog_fetched(Err(CatalogFetchError::Unavailable));
    assert_eq!(address(run.request()).0, "nothing");
    assert_eq!(
        run.failure().unwrap().message(),
        "[!] Error aggregating all the chapters for this manga."
    );
    assert!(run.into_output(Calibration::standard()).1.is_none());
}

#[test]
fn run_fails_on_empty_catalog() {
    let (run, _) = Run::new(args("1", "en"));
    let run = run.catalog_fetched(Ok(Vec::new()));
    assert!(matches!(run.failure(), Some(RunError::EmptyCatalog)));
}

#[test]
fn run_fails_when_metadata_is_unavailable() {
    let (run, _) = Run::new(args("1", "en"));
    let run = run.catalog_fetched(Ok(vec![chapter(1, &["a", "b"])]));
    let (run, resolved) = run.metadata_fetched(None);
    assert_eq!(resolved, None);
    assert!(matches!(run.failure(), Some(RunError::Resolution)));
}

#[test]
fn run_fails_when_nothing_resolves() {
    let (run, _) = Run::new(args("1-2", "en"));
    let run = run.catalog_fetched(Ok(vec![chapter(1, &["a"]), chapter(2, &["b"])]));
    let (run, _) = run.metadata_fetched(meta("fr", false));
    assert!(run.failure().is_none());
    let (run, _) = run.metadata_fetched(meta("en", true));
    assert!(matches!(run.failure(), Some(RunError::NoPages)));

    let (run, _) = Run::new(args("9", "en"));
    let run = run.catalog_fetched(Ok(vec![chapter(1, &["a"])]));
    assert!(matches!(run.failure(), Some(RunError::NoPages)));
}

#[test]
fn run_fails_when_pages_are_unavailable() {
    let (run, _) = Run::new(args("1-2", "en"));
    let run = run.catalog_fetched(Ok(vec![chapter(1, &["a"]), chapter(2, &["b"])]));
    let (run, _) = run.metadata_fetched(meta("en", false));
    let (run, _) = run.metadata_fetched(meta("en", false));
    let run = run.pages_fetched(Ok(texts(&["p"])));
    let run = run.pages_fetched(Err(PageFetchError));
    assert!(matches!(run.failure(), Some(RunError::PageRetrieval(PageFetchError))));
    assert!(run.into_output(Calibration::standard()).1.is_none());
}

#[test]
fn run_fails_when_there_is_no_page() {
    let (run, _) = Run::new(args("1", "en"));
    let run = run.catalog_fetched(Ok(vec![chapter(1, &["a"])]));
    let (run, _) = run.metadata_fetched(meta("en", false));
    let run = run.pages_fetched(Ok(Vec::new()));
    assert!(matches!(run.failure(), Some(RunError::NoPages)));
}

#[test]
fn run_ignores_answers_it_did_not_ask_for() {
    let (run, _) = Run::new(args("1", "en"));
    let (run, resolved) = run.metadata_fetched(meta("en", false));
    assert_eq!(resolved, None);
    let run = run.pages_fetched(Ok(texts(&["p"])));
    assert_eq!(address(run.request()).0, "catalog");
    assert!(run.into_output(Calibration::standard()).1.is_none());

    let (run, _) = Run::new(args("1", "en"));
    let run = run.catalog_fetched(Ok(vec![chapter(1, &["a"])]));
    let run = run.catalog_fetched(Err(CatalogFetchError::Unavailable));
    let run = run.pages_fetched(Err(PageFetchError));
    assert_eq!(address(run.request()).1, "https://api.mangadex.org/chapter/a");
}

const AGGREGATE: &str = r#"{"volumes": {"1": {"chapters": {
    "1": {"id": "en-1", "others": ["fr-1"]},
    "2": {"id": "en-2", "others": []}
}}}}"#;

#[test]
fn catalog_of_a_body() {
    let client = MDClient::new(Args::with_defaults("w".to_string()));
    let chapters = client.catalog_of_body(AGGREGATE.as_bytes()).unwrap();
    assert_eq!(chapters.len(), 2);
    assert_eq!(chapters[0].name, 1);
    assert_eq!(chapters[0].ids, texts(&["fr-1", "en-1"]));
    assert_eq!(chapters[1].name, 2);
    assert_eq!(chapters[1].ids, texts(&["en-2"]));
}

#[test]
fn catalog_of_a_body_that_is_no_json() {
    let client = MDClient::new(Args::with_defaults("w".to_string()));
    assert_eq!(
        client.catalog_of_body(b"<html>502</html>").err(),
        Some(CatalogFetchError::Unavailable)
    );
    assert_eq!(client.catalog_of_body(b"").err(), Some(CatalogFetchError::Unavailable));
}

#[test]
fn catalog_of_a_body_with_a_defect() {
    let client = MDClient::new(Args::with_defaults("w".to_string()));
    assert_eq!(
        client.catalog_of_body(br#"{"result": "error"}"#).err(),
        Some(CatalogFetchError::MissingVolumes)
    );
    assert_eq!(
        client.catalog_of_body(br#"{"volumes": {"1": {"chapters": {"1": {"others": []}}}}}"#).err(),
        Some(CatalogFetchError::MissingId { volume: 0, chapter: 0 })
    );
}

#[test]
fn run_takes_raw_answers() {
    let (run, _) = Run::new(args("1-2", "en"));
    let run = run.catalog_answered(Some(AGGREGATE.as_bytes()));
    assert_eq!(address(run.request()).1, "https://api.mangadex.org/chapter/fr-1");
    let french = br#"{"data": {"attributes": {"translatedLanguage": "fr", "externalUrl": null}}}"#;
    let english = br#"{"data": {"attributes": {"translatedLanguage": "en", "externalUrl": null}}}"#;
    let elsewhere =
        br#"{"data": {"attributes": {"translatedLanguage": "en", "externalUrl": "https://x"}}}"#;
    let (run, resolved) = run.metadata_answered(Some(&french[..]));
    assert_eq!(resolved, None);
    assert_eq!(address(run.request()).1, "https://api.mangadex.org/chapter/en-1");
    let (run, resolved) = run.metadata_answered(Some(&english[..]));
    assert_eq!(resolved, Some(1));
    assert_eq!(address(run.request()).1, "https://api.mangadex.org/chapter/en-2");
    let (run, resolved) = run.metadata_answered(Some(&elsewhere[..]));
    assert_eq!(resolved, None);
    assert_eq!(
        address(run.request()),
        ("pages".to_string(), "https://api.mangadex.org/at-home/server/en-1".to_string())
    );
}

#[test]
fn run_fails_on_a_failed_or_unreadable_catalog_answer() {
    let (run, _) = Run::new(args("1", "en"));
    let run = run.catalog_answered(None);
    assert!(matches!(
        run.failure(),
        Some(RunError::CatalogAggregation(CatalogFetchError::Unavailable))
    ));
    let (run, _) = Run::new(args("1", "en"));
    let run = run.catalog_answered(Some(&b"not json"[..]));
    assert!(matches!(
        run.failure(),
        Some(RunError::CatalogAggregation(CatalogFetchError::Unavailable))
    ));
    let (run, _) = Run::new(args("1", "en"));
    let run = run.catalog_answered(Some(&b"{}"[..]));
    assert!(matches!(
        run.failure(),
        Some(RunError::CatalogAggregation(CatalogFetchError::MissingVolumes))
    ));
    let (run, _) = Run::new(args("1", "en"));
    let run = run.catalog_answered(Some(&br#"{"volumes": {}}"#[..]));
    assert!(matches!(run.failure(), Some(RunError::EmptyCatalog)));
}

#[test]
fn run_fails_on_a_failed_or_unreadable_metadata_answer() {
    let (run, _) = Run::new(args("1", "en"));
    let run = run.catalog_answered(Some(AGGREGATE.as_bytes()));
    let (run, resolved) = run.metadata_answered(None);
    assert_eq!(resolved, None);
    assert!(matches!(run.failure(), Some(RunError::Resolution)));

    let (run, _) = Run::new(args("1", "en"));
    let run = run.catalog_answered(Some(AGGREGATE.as_bytes()));
    let (run, _) = run.metadata_answered(Some(&b"<html>"[..]));
    assert!(matches!(run.failure(), Some(RunError::Resolution)));

    let (run, _) = Run::new(args("1", "en"));
    let run = run.catalog_answered(Some(AGGREGATE.as_bytes()));
    let (run, resolved) = run.metadata_answered(Some(&b"{}"[..]));
    assert_eq!(resolved, None);
    assert!(run.failure().is_none());
    assert_eq!(address(run.request()).1, "https://api.mangadex.org/chapter/en-1");
}

#[test]
fn run_ignores_raw_answers_it_did_not_ask_for() {
    let (run, _) = Run::new(args("1", "en"));
    let (run, resolved) = run.metadata_answered(Some(&b"{}"[..]));
    assert_eq!(resolved, None);
    assert_eq!(address(run.request()).0, "catalog");
    let run = run.catalog_answered(Some(AGGREGATE.as_bytes()));
    let run = run.catalog_answered(None);
    assert_eq!(address(run.request()).0, "metadata");
}
