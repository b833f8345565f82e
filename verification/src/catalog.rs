//! The catalog of a work: its chapters by ordinal, each with the identifiers
//! of its translations in trial order.

use crate::text::{ordinal_of, parse_ordinal};
use vstd::prelude::*;

verus! {

/// The texts of a sequence of strings.
pub open spec fn texts(v: Seq<String>) -> Seq<Seq<char>> {
    Seq::new(v.len(), |i: int| v[i]@)
}

/// One chapter of the catalog.
#[derive(Debug)]
pub struct Chapter {
    /// The chapter's ordinal.
    pub name: u16,
    /// The identifiers of its translations, in the order they are tried.
    pub ids: Vec<String>,
}

/// What the aggregate response says of one chapter label. A field that the
/// response lacks, or holds in another shape, is `None`.
#[derive(Debug)]
pub struct ChapterRecord {
    pub label: String,
    /// The primary translation.
    pub id: Option<String>,
    /// The alternate translations.
    pub others: Option<Vec<String>>,
}

/// What the aggregate response says of one volume.
#[derive(Debug)]
pub struct VolumeRecord {
    pub chapters: Option<Vec<ChapterRecord>>,
}

/// The aggregate response for a work. Its volumes, and the chapters of each
/// volume, stand in the order in which they were read: for a response in
/// JSON that is the order of their names, not the order of its text.
#[derive(Debug)]
pub struct Aggregate {
    pub volumes: Option<Vec<VolumeRecord>>,
}

/// Why no catalog could be built.
#[derive(Debug, PartialEq, Eq)]
pub enum CatalogFetchError {
    /// The request failed, or its answer was no aggregate at all.
    Unavailable,
    /// The response has no volumes.
    MissingVolumes,
    /// A volume has no chapters.
    MissingChapters { volume: usize },
    /// A chapter has no primary translation.
    MissingId { volume: usize, chapter: usize },
    /// A chapter has no list of alternate translations.
    MissingOthers { volume: usize, chapter: usize },
}

impl ChapterRecord {
    /// The defect of this record, if it has one. A missing primary
    /// translation is reported before a missing list of alternates.
    pub open spec fn defect(&self, volume: usize, chapter: usize) -> Option<CatalogFetchError> {
        if self.id is None {
            Some(CatalogFetchError::MissingId { volume, chapter })
        } else if self.others is None {
            Some(CatalogFetchError::MissingOthers { volume, chapter })
        } else {
            None
        }
    }

    /// The translations of a record without defect: the alternates in their
    /// order, then the primary.
    pub open spec fn translations(&self) -> Seq<Seq<char>> {
        texts(self.others->0@).push(self.id->0@)
    }
}

impl VolumeRecord {
    /// The first defect among the first `upto` chapters of this volume.
    pub open spec fn defect_before(&self, volume: usize, upto: int) -> Option<CatalogFetchError>
        decreases upto,
    {
        match self.chapters {
            None => Some(CatalogFetchError::MissingChapters { volume }),
            Some(records) => if upto <= 0 {
                None
            } else {
                match self.defect_before(volume, upto - 1) {
                    Some(e) => Some(e),
                    None => records[upto - 1].defect(volume, (upto - 1) as usize),
                }
            },
        }
    }

    /// The first defect of this volume.
    pub open spec fn defect(&self, volume: usize) -> Option<CatalogFetchError> {
        match self.chapters {
            None => Some(CatalogFetchError::MissingChapters { volume }),
            Some(records) => self.defect_before(volume, records.len() as int),
        }
    }

    /// The entries that the first `upto` chapters of a volume without defect
    /// contribute: one per label that denotes an ordinal, in order.
    pub open spec fn entries_before(&self, upto: int) -> Seq<(u16, Seq<Seq<char>>)>
        decreases upto,
    {
        if upto <= 0 {
            Seq::empty()
        } else {
            let record = self.chapters->0[upto - 1];
            let before = self.entries_before(upto - 1);
            match ordinal_of(record.label@) {
                Some(n) => before.push((n, record.translations())),
                None => before,
            }
        }
    }

    /// The entries of a volume without defect.
    pub open spec fn entries(&self) -> Seq<(u16, Seq<Seq<char>>)> {
        self.entries_before(self.chapters->0.len() as int)
    }
}

impl Aggregate {
    /// The first defect among the first `upto` volumes.
    pub open spec fn defect_before(&self, upto: int) -> Option<CatalogFetchError>
        decreases upto,
    {
        match self.volumes {
            None => Some(CatalogFetchError::MissingVolumes),
            Some(volumes) => if upto <= 0 {
                None
            } else {
                match self.defect_before(upto - 1) {
                    Some(e) => Some(e),
                    None => volumes[upto - 1].defect((upto - 1) as usize),
                }
            },
        }
    }

    /// The first defect of the response, in the order of its records, if it
    /// has one.
    pub open spec fn defect(&self) -> Option<CatalogFetchError> {
        match self.volumes {
            None => Some(CatalogFetchError::MissingVolumes),
            Some(volumes) => self.defect_before(volumes.len() as int),
        }
    }

    /// The entries of the first `upto` volumes of a response without defect.
    pub open spec fn entries_before(&self, upto: int) -> Seq<(u16, Seq<Seq<char>>)>
        decreases upto,
    {
        if upto <= 0 {
            Seq::empty()
        } else {
            self.entries_before(upto - 1) + self.volumes->0[upto - 1].entries()
        }
    }

    /// Every entry of a response without defect, in the order of its records:
    /// an ordinal
    /// and the translations listed under it.
    pub open spec fn entries(&self) -> Seq<(u16, Seq<Seq<char>>)> {
        self.entries_before(self.volumes->0.len() as int)
    }
}

/// Whether the chapters stand in strictly ascending order of ordinal, so
/// that no ordinal occurs twice.
pub open spec fn strictly_ascending(chapters: Seq<Chapter>) -> bool {
    forall|i: int, j: int| 0 <= i < j < chapters.len() ==> chapters[i].name < chapters[j].name
}

/// Whether some chapter has ordinal `n`.
pub open spec fn has_name(chapters: Seq<Chapter>, n: u16) -> bool {
    exists|i: int| 0 <= i < chapters.len() && (#[trigger] chapters[i]).name == n
}

/// The translations of the chapter with ordinal `n`; none if there is no
/// such chapter.
pub open spec fn ids_named(chapters: Seq<Chapter>, n: u16) -> Seq<Seq<char>> {
    if has_name(chapters, n) {
        let i = choose|i: int| 0 <= i < chapters.len() && (#[trigger] chapters[i]).name == n;
        texts(chapters[i].ids@)
    } else {
        Seq::empty()
    }
}

/// Whether some entry has ordinal `n`.
pub open spec fn occurs(entries: Seq<(u16, Seq<Seq<char>>)>, n: u16) -> bool {
    exists|i: int| 0 <= i < entries.len() && (#[trigger] entries[i]).0 == n
}

/// The translations of every entry with ordinal `n`, joined in the order
/// of the entries.
pub open spec fn ids_for(entries: Seq<(u16, Seq<Seq<char>>)>, n: u16) -> Seq<Seq<char>>
    decreases entries.len(),
{
    if entries.len() == 0 {
        Seq::empty()
    } else if entries.last().0 == n {
        ids_for(entries.drop_last(), n) + entries.last().1
    } else {
        ids_for(entries.drop_last(), n)
    }
}

/// Whether `chapters` is the catalog of `entries`: one chapter for each
/// ordinal that occurs, in strictly ascending order, with the translations of
/// all the entries of that ordinal in their order.
pub open spec fn is_catalog_of(chapters: Seq<Chapter>, entries: Seq<(u16, Seq<Seq<char>>)>) -> bool {
    &&& strictly_ascending(chapters)
    &&& forall|n: u16| #[trigger] has_name(chapters, n) <==> occurs(entries, n)
    &&& forall|n: u16| #[trigger] ids_named(chapters, n) == ids_for(entries, n)
}

/// Whether `catalog` is what the response `aggregate` leads to: the error
/// of its first defect if it has one, the catalog of its entries if not.
pub open spec fn is_catalog_result(
    catalog: Result<Vec<Chapter>, CatalogFetchError>,
    aggregate: Aggregate,
) -> bool {
    match aggregate.defect() {
        Some(e) => catalog == Err::<Vec<Chapter>, CatalogFetchError>(e),
        None => catalog is Ok && is_catalog_of(catalog->Ok_0@, aggregate.entries()),
    }
}

/// In a strictly ascending catalog the chapter at `i` is the one found under
/// its ordinal.
pub proof fn lemma_ids_named_at(chapters: Seq<Chapter>, i: int)
    requires
        strictly_ascending(chapters),
        0 <= i < chapters.len(),
    ensures
        has_name(chapters, chapters[i].name),
        ids_named(chapters, chapters[i].name) == texts(chapters[i].ids@),
{
    // Of two different places in ascending order one has the smaller
    // ordinal, so the place found under this ordinal is `i`.
    let n = chapters[i].name;
    let k = choose|k: int| 0 <= k < chapters.len() && (#[trigger] chapters[k]).name == n;
    assert(k == i);
}

/// Adds the translations `ids` to the chapter with ordinal `name`, making
/// that chapter at its place in the order if it is not there yet.
pub fn insert_entry(chapters: &mut Vec<Chapter>, name: u16, ids: Vec<String>)
    requires
        strictly_ascending(old(chapters)@),
    ensures
        strictly_ascending(final(chapters)@),
        forall|n: u16|
            #[trigger] has_name(final(chapters)@, n) <==> has_name(old(chapters)@, n) || n == name,
        forall|n: u16|
            #[trigger] ids_named(final(chapters)@, n) == if n == name {
                ids_named(old(chapters)@, n) + texts(ids@)
            } else {
                ids_named(old(chapters)@, n)
            },
{
    let ghost before = chapters@;
    let mut p: usize = 0;
    while p < chapters.len() && chapters[p].name < name
        invariant
            p <= chapters.len(),
            chapters@ == before,
            forall|k: int| 0 <= k < p ==> chapters@[k].name < name,
        decreases chapters.len() - p,
    {
        p = p + 1;
    }
    let mut ids = ids;
    let ghost added = texts(ids@);
    if p < chapters.len() && chapters[p].name == name {
        let mut found = chapters.remove(p);
        found.ids.append(&mut ids);
        chapters.insert(p, found);
        proof {
            // The chapters keep their places and ordinals; only the
            // translations of the one at `p` have grown.
            let after = chapters@;
            assert forall|k: int| 0 <= k < after.len() implies (#[trigger] after[k]).name
                == before[k].name by {}
            assert forall|k: int| 0 <= k < after.len() && k != p implies #[trigger] after[k]
                == before[k] by {}
            assert forall|n: u16| #[trigger]
                has_name(after, n) <==> has_name(before, n) || n == name by {
                if has_name(before, n) {
                    let k = choose|k: int|
                        0 <= k < before.len() && (#[trigger] before[k]).name == n;
                    assert(after[k].name == n);
                }
            }
            assert forall|n: u16| #[trigger]
                ids_named(after, n) == if n == name {
                    ids_named(before, n) + added
                } else {
                    ids_named(before, n)
                } by {
                if has_name(after, n) {
                    let k = choose|k: int| 0 <= k < after.len() && (#[trigger] after[k]).name == n;
                    lemma_ids_named_at(after, k);
                    lemma_ids_named_at(before, k);
                }
            }
        }
    } else {
        chapters.insert(p, Chapter { name, ids });
        proof {
            // The chapters before `p` keep their places, those from `p` on
            // move up by one, and the new chapter stands between them.
            let after = chapters@;
            assert forall|k: int| 0 <= k < p implies #[trigger] after[k] == before[k] by {}
            assert forall|k: int| p < k < after.len() implies #[trigger] after[k] == before[k
                - 1] by {}
            assert(after[p as int].name == name);
            assert forall|i: int, j: int| 0 <= i < j < after.len() implies after[i].name
                < after[j].name by {
                if i == p {
                    assert(before[j - 1].name != name);
                }
            }
            assert(!has_name(before, name));
            assert forall|n: u16| #[trigger]
                has_name(after, n) <==> has_name(before, n) || n == name by {
                if has_name(before, n) {
                    let k = choose|k: int|
                        0 <= k < before.len() && (#[trigger] before[k]).name == n;
                    if k < p {
                        assert(after[k].name == n);
                    } else {
                        assert(after[k + 1].name == n);
                    }
                }
            }
            assert forall|n: u16| #[trigger]
                ids_named(after, n) == if n == name {
                    ids_named(before, n) + added
                } else {
                    ids_named(before, n)
                } by {
                if has_name(after, n) {
                    let k = choose|k: int| 0 <= k < after.len() && (#[trigger] after[k]).name == n;
                    lemma_ids_named_at(after, k);
                    if n == name {
                        assert(k == p);
                    } else if k < p {
                        lemma_ids_named_at(before, k);
                    } else {
                        lemma_ids_named_at(before, k - 1);
                    }
                }
            }
        }
    }
}

/// A defect found among the first chapters of a volume is the defect of the
/// volume.
pub proof fn lemma_volume_defect_stays(vol: VolumeRecord, volume: usize, k: int, m: int)
    requires
        vol.chapters is Some,
        0 <= k <= m,
        vol.defect_before(volume, k) is Some,
    ensures
        vol.defect_before(volume, m) == vol.defect_before(volume, k),
    decreases m - k,
{
    if k < m {
        lemma_volume_defect_stays(vol, volume, k, m - 1);
    }
}

/// A defect found among the first volumes is the defect of the response.
pub proof fn lemma_defect_stays(aggregate: Aggregate, k: int, m: int)
    requires
        aggregate.volumes is Some,
        0 <= k <= m,
        aggregate.defect_before(k) is Some,
    ensures
        aggregate.defect_before(m) == aggregate.defect_before(k),
    decreases m - k,
{
    if k < m {
        lemma_defect_stays(aggregate, k, m - 1);
    }
}

/// The catalog of a list of entries, grown by one entry: what
/// [`insert_entry`] makes of the catalog of the list.
pub proof fn lemma_catalog_grows(
    before: Seq<Chapter>,
    after: Seq<Chapter>,
    entries: Seq<(u16, Seq<Seq<char>>)>,
    name: u16,
    ids: Seq<Seq<char>>,
)
    requires
        is_catalog_of(before, entries),
        strictly_ascending(after),
        forall|n: u16| #[trigger] has_name(after, n) <==> has_name(before, n) || n == name,
        forall|n: u16|
            #[trigger] ids_named(after, n) == if n == name {
                ids_named(before, n) + ids
            } else {
                ids_named(before, n)
            },
    ensures
        is_catalog_of(after, entries.push((name, ids))),
{
    let grown = entries.push((name, ids));
    assert(grown.drop_last() =~= entries);
    assert forall|n: u16| #[trigger] has_name(after, n) <==> occurs(grown, n) by {
        if occurs(entries, n) {
            let i = choose|i: int| 0 <= i < entries.len() && (#[trigger] entries[i]).0 == n;
            assert(grown[i].0 == n);
        }
        if n == name {
            assert(grown[entries.len() as int].0 == n);
        }
    }
}

/// The translations of a record: copies of the alternates in their order,
/// then of the primary.
fn translation_ids(others: &Vec<String>, id: &String) -> (ids: Vec<String>)
    ensures
        texts(ids@) == texts(others@).push(id@),
{
    let mut ids: Vec<String> = Vec::new();
    let mut i: usize = 0;
    while i < others.len()
        invariant
            i <= others.len(),
            ids@.len() == i,
            texts(ids@) == texts(others@).take(i as int),
        decreases others.len() - i,
    {
        let copy = others[i].clone();
        ids.push(copy);
        assert(texts(ids@) =~= texts(others@).take(i + 1));
        i = i + 1;
    }
    let copy = id.clone();
    ids.push(copy);
    assert(texts(others@).take(others@.len() as int) =~= texts(others@));
    assert(texts(ids@) =~= texts(others@).push(id@));
    ids
}

/// Builds the catalog of a work from its aggregate response.
///
/// A response with a defect gives no catalog at all, and the error names the
/// first defect in the order of its records. A response without defect gives
/// the chapters whose label denotes an ordinal, one chapter per ordinal in
/// ascending order; labels that denote the same ordinal share one chapter,
/// which lists their translations in the order of the records.
pub fn get_manga_chapters(aggregate: &Aggregate) -> (r: Result<Vec<Chapter>, CatalogFetchError>)
    ensures
        is_catalog_result(r, *aggregate),
{
    let volumes = match &aggregate.volumes {
        Some(volumes) => volumes,
        None => {
            return Err(CatalogFetchError::MissingVolumes);
        },
    };
    let mut chapters: Vec<Chapter> = Vec::new();
    let mut vi: usize = 0;
    while vi < volumes.len()
        invariant
            vi <= volumes.len(),
            aggregate.volumes == Some(*volumes),
            aggregate.defect_before(vi as int) is None,
            is_catalog_of(chapters@, aggregate.entries_before(vi as int)),
        decreases volumes.len() - vi,
    {
        let volume = &volumes[vi];
        let records = match &volume.chapters {
            Some(records) => records,
            None => {
                proof {
                    lemma_defect_stays(*aggregate, vi + 1, volumes.len() as int);
                }
                return Err(CatalogFetchError::MissingChapters { volume: vi });
            },
        };
        let mut ci: usize = 0;
        proof {
            assert(aggregate.entries_before(vi as int) + volume.entries_before(0)
                =~= aggregate.entries_before(vi as int));
        }
        while ci < records.len()
            invariant
                vi < volumes.len(),
                ci <= records.len(),
                aggregate.volumes == Some(*volumes),
                *volume == volumes[vi as int],
                volume.chapters == Some(*records),
                aggregate.defect_before(vi as int) is None,
                volume.defect_before(vi, ci as int) is None,
                is_catalog_of(
                    chapters@,
                    aggregate.entries_before(vi as int) + volume.entries_before(ci as int),
                ),
            decreases records.len() - ci,
        {
            let record = &records[ci];
            let id = match &record.id {
                Some(id) => id,
                None => {
                    proof {
                        lemma_volume_defect_stays(*volume, vi, ci + 1, records.len() as int);
                        lemma_defect_stays(*aggregate, vi + 1, volumes.len() as int);
                    }
                    return Err(CatalogFetchError::MissingId { volume: vi, chapter: ci });
                },
            };
            let others = match &record.others {
                Some(others) => others,
                None => {
                    proof {
                        lemma_volume_defect_stays(*volume, vi, ci + 1, records.len() as int);
                        lemma_defect_stays(*aggregate, vi + 1, volumes.len() as int);
                    }
                    return Err(CatalogFetchError::MissingOthers { volume: vi, chapter: ci });
                },
            };
            match parse_ordinal(record.label.as_str()) {
                Some(name) => {
                    let ids = translation_ids(others, id);
                    let ghost before = chapters@;
                    let ghost read = aggregate.entries_before(vi as int) + volume.entries_before(
                        ci as int,
                    );
                    insert_entry(&mut chapters, name, ids);
                    proof {
                        lemma_catalog_grows(before, chapters@, read, name, record.translations());
                        assert(read.push((name, record.translations()))
                            =~= aggregate.entries_before(vi as int) + volume.entries_before(
                            ci + 1,
                        ));
                    }
                },
                None => {},
            }
            ci = ci + 1;
        }
        proof {
            assert(aggregate.entries_before(vi + 1) == aggregate.entries_before(vi as int)
                + volume.entries());
        }
        vi = vi + 1;
    }
    Ok(chapters)
}

} // verus!
