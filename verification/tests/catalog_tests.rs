use manga_binder::catalog::{
    get_manga_chapters, insert_entry, Aggregate, CatalogFetchError, Chapter, ChapterRecord,
    VolumeRecord,
};

fn record(label: &str, id: &str, others: &[&str]) -> ChapterRecord {
    ChapterRecord {
        label: label.to_string(),
        id: Some(id.to_string()),
        others: Some(others.iter().map(|s| s.to_string()).collect()),
    }
}

fn volume(records: Vec<ChapterRecord>) -> VolumeRecord {
    VolumeRecord { chapters: Some(records) }
}

fn aggregate(volumes: Vec<VolumeRecord>) -> Aggregate {
    Aggregate { volumes: Some(volumes) }
}

fn summary(chapters: &Vec<Chapter>) -> Vec<(u16, Vec<String>)> {
    chapters.iter().map(|c| (c.name, c.ids.clone())).collect()
}

fn ids(list: &[&str]) -> Vec<String> {
    list.iter().map(|s| s.to_string()).collect()
}

#[test]
fn catalog_is_sorted_by_ordinal() {
    let agg = aggregate(vec![
        volume(vec![record("10", "j", &[]), record("2", "b", &[])]),
        volume(vec![record("1", "a", &[]), record("3", "c", &[])]),
    ]);
    let chapters = get_manga_chapters(&agg).unwrap();
    assert_eq!(
        summary(&chapters),
        vec![
            (1, ids(&["a"])),
            (2, ids(&["b"])),
            (3, ids(&["c"])),
            (10, ids(&["j"])),
        ]
    );
}

#[test]
fn catalog_lists_alternates_before_the_primary() {
    let agg = aggregate(vec![volume(vec![record("1", "primary", &["alt1", "alt2"])])]);
    let chapters = get_manga_chapters(&agg).unwrap();
    assert_eq!(summary(&chapters), vec![(1, ids(&["alt1", "alt2", "primary"]))]);
}

#[test]
fn catalog_merges_labels_of_one_ordinal() {
    let agg = aggregate(vec![
        volume(vec![record("1", "a", &["a2"]), record("2", "b", &[])]),
        volume(vec![record("01", "c", &["c2"]), record("+1", "d", &[])]),
    ]);
    let chapters = get_manga_chapters(&agg).unwrap();
    assert_eq!(
        summary(&chapters),
        vec![(1, ids(&["a2", "a", "c2", "c", "d"])), (2, ids(&["b"]))]
    );
}

#[test]
fn catalog_drops_labels_that_are_no_ordinal() {
    let agg = aggregate(vec![volume(vec![
        record("none", "x", &[]),
        record("1.5", "y", &[]),
        record("4", "z", &[]),
        record("70000", "w", &[]),
        record("", "v", &[]),
    ])]);
    let chapters = get_manga_chapters(&agg).unwrap();
    assert_eq!(summary(&chapters), vec![(4, ids(&["z"]))]);
}

#[test]
fn catalog_of_no_volumes_is_empty() {
    let chapters = get_manga_chapters(&aggregate(vec![])).unwrap();
    assert_eq!(chapters.len(), 0);
    let chapters = get_manga_chapters(&aggregate(vec![volume(vec![])])).unwrap();
    assert_eq!(chapters.len(), 0);
}

#[test]
fn catalog_fails_without_volumes() {
    let r = get_manga_chapters(&Aggregate { volumes: None });
    assert_eq!(r.err(), Some(CatalogFetchError::MissingVolumes));
}

#[test]
fn catalog_fails_without_chapters() {
    let agg = aggregate(vec![
        volume(vec![record("1", "a", &[])]),
        VolumeRecord { chapters: None },
    ]);
    assert_eq!(
        get_manga_chapters(&agg).err(),
        Some(CatalogFetchError::MissingChapters { volume: 1 })
    );
}

#[test]
fn catalog_fails_without_primary_id() {
    let agg = aggregate(vec![
        volume(vec![record("1", "a", &[])]),
        volume(vec![
            record("2", "b", &[]),
            ChapterRecord { label: "3".to_string(), id: None, others: Some(vec![]) },
        ]),
    ]);
    assert_eq!(
        get_manga_chapters(&agg).err(),
        Some(CatalogFetchError::MissingId { volume: 1, chapter: 1 })
    );
}

#[test]
fn catalog_fails_without_alternates() {
    let agg = aggregate(vec![volume(vec![ChapterRecord {
        label: "1".to_string(),
        id: Some("a".to_string()),
        others: None,
    }])]);
    assert_eq!(
        get_manga_chapters(&agg).err(),
        Some(CatalogFetchError::MissingOthers { volume: 0, chapter: 0 })
    );
}

#[test]
fn catalog_reports_the_first_defect() {
    let agg = aggregate(vec![
        volume(vec![ChapterRecord { label: "x".to_string(), id: None, others: None }]),
        VolumeRecord { chapters: None },
    ]);
    assert_eq!(
        get_manga_chapters(&agg).err(),
        Some(CatalogFetchError::MissingId { volume: 0, chapter: 0 })
    );
}

#[test]
fn catalog_defect_under_a_dropped_label_still_fails() {
    let agg = aggregate(vec![volume(vec![
        record("1", "a", &[]),
        ChapterRecord { label: "extra".to_string(), id: Some("e".to_string()), others: None },
    ])]);
    assert_eq!(
        get_manga_chapters(&agg).err(),
        Some(CatalogFetchError::MissingOthers { volume: 0, chapter: 1 })
    );
}

#[test]
fn insert_entry_keeps_order_and_merges() {
    let mut chapters: Vec<Chapter> = Vec::new();
    insert_entry(&mut chapters, 5, ids(&["e"]));
    insert_entry(&mut chapters, 1, ids(&["a"]));
    insert_entry(&mut chapters, 3, ids(&["c"]));
    insert_entry(&mut chapters, 5, ids(&["e2"]));
    insert_entry(&mut chapters, 9, ids(&[]));
    insert_entry(&mut chapters, 1, ids(&["a2", "a3"]));
    assert_eq!(
        summary(&chapters),
        vec![
            (1, ids(&["a", "a2", "a3"])),
            (3, ids(&["c"])),
            (5, ids(&["e", "e2"])),
            (9, ids(&[])),
        ]
    );
}
