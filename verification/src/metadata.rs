//! The durable ledger of archival facts: one record per archived entry,
//! keyed by the entry's identifier, never overwritten.

use crate::date::UtcDate;
use vstd::prelude::*;

verus! {

/// One persisted archival fact: which entry was archived, where its bytes
/// were stored relative to the archive root, and when.
#[derive(Debug)]
pub struct Media {
    id: String,
    file_path: String,
    creation_date: UtcDate,
    download_date: UtcDate,
}

/// The abstract value of a `Media` record.
#[verifier::ext_equal]
pub struct MediaView {
    pub id: Seq<char>,
    pub file_path: Seq<char>,
    pub creation_date: UtcDate,
    pub download_date: UtcDate,
}

impl View for Media {
    type V = MediaView;

    closed spec fn view(&self) -> MediaView {
        MediaView {
            id: self.id@,
            file_path: self.file_path@,
            creation_date: self.creation_date,
            download_date: self.download_date,
        }
    }
}

impl Media {
    /// Build the record for one archived entry.
    pub fn new(id: &str, file_path: &str, creation_time: UtcDate, download_time: UtcDate) -> (r:
        Media)
        ensures
            r@ == (MediaView {
                id: id@,
                file_path: file_path@,
                creation_date: creation_time,
                download_date: download_time,
            }),
    {
        Media {
            id: id.to_owned(),
            file_path: file_path.to_owned(),
            creation_date: creation_time,
            download_date: download_time,
        }
    }

    /// The archived entry's identifier.
    pub fn id(&self) -> (r: &String)
        ensures
            r@ == self@.id,
    {
        &self.id
    }

    /// The entry's storage path relative to the archive root.
    pub fn file_path(&self) -> (r: &String)
        ensures
            r@ == self@.file_path,
    {
        &self.file_path
    }

    /// The entry's creation timestamp.
    pub fn creation_date(&self) -> (r: UtcDate)
        ensures
            r == self@.creation_date,
    {
        self.creation_date
    }

    /// When the entry was archived.
    pub fn download_date(&self) -> (r: UtcDate)
        ensures
            r == self@.download_date,
    {
        self.download_date
    }
}

impl Clone for Media {
    fn clone(&self) -> (r: Self)
        ensures
            r == *self,
    {
        Media {
            id: self.id.clone(),
            file_path: self.file_path.clone(),
            creation_date: self.creation_date,
            download_date: self.download_date,
        }
    }
}

/// Why the ledger refused an insert: a record for that identifier already
/// exists, and records are never overwritten.
#[derive(Clone, Copy, Debug, PartialEq, Eq, Structural)]
pub enum StoreError {
    Duplicate,
}

/// No two records carry the same identifier.
pub open spec fn ids_unique(s: Seq<MediaView>) -> bool {
    forall|i: int, j: int| 0 <= i < j < s.len() ==> s[i].id != s[j].id
}

/// The abstract values of a sequence of records.
pub open spec fn media_views(s: Seq<Media>) -> Seq<MediaView> {
    s.map_values(|m: Media| m@)
}

/// The map a sequence of records denotes, each keyed by its identifier.
pub open spec fn records_map(s: Seq<MediaView>) -> Map<Seq<char>, MediaView>
    decreases s.len(),
{
    if s.len() == 0 {
        Map::<Seq<char>, MediaView>::empty()
    } else {
        records_map(s.drop_last()).insert(s.last().id, s.last())
    }
}

/// A key is in the map exactly where some record carries it.
proof fn lemma_records_map_contains(s: Seq<MediaView>, key: Seq<char>)
    ensures
        records_map(s).contains_key(key) <==> exists|i: int|
            0 <= i < s.len() && (#[trigger] s[i]).id == key,
    decreases s.len(),
{
    if s.len() > 0 {
        lemma_records_map_contains(s.drop_last(), key);
        if records_map(s).contains_key(key) {
            if s.last().id == key {
                assert(s[s.len() - 1].id == key);
            } else {
                let i = choose|i: int| 0 <= i < s.drop_last().len() && (#[trigger] s.drop_last()[i]).id == key;
                assert(s[i].id == key);
            }
        }
        if exists|i: int| 0 <= i < s.len() && (#[trigger] s[i]).id == key {
            let i = choose|i: int| 0 <= i < s.len() && (#[trigger] s[i]).id == key;
            if i < s.len() - 1 {
                assert(s.drop_last()[i].id == key);
            }
        }
    }
}

/// The record the map holds for a key is the record that carries it.
proof fn lemma_records_map_index(s: Seq<MediaView>, i: int)
    requires
        ids_unique(s),
        0 <= i < s.len(),
    ensures
        records_map(s).contains_key(s[i].id),
        records_map(s)[s[i].id] == s[i],
    decreases s.len(),
{
    if i == s.len() - 1 {
    } else {
        lemma_records_map_index(s.drop_last(), i);
        assert(s.drop_last()[i] == s[i]);
        assert(s.last().id != s[i].id);
    }
}

/// The durable record store: answers whether an identifier was already
/// archived, hands back its record, and accepts each identifier's record at
/// most once.
pub struct Metadata {
    records: Vec<Media>,
}

impl View for Metadata {
    type V = Map<Seq<char>, MediaView>;

    closed spec fn view(&self) -> Map<Seq<char>, MediaView> {
        records_map(media_views(self.records@))
    }
}

impl Metadata {
    /// The store's internal invariant: one record per identifier.
    pub closed spec fn wf(self) -> bool {
        ids_unique(media_views(self.records@))
    }

    /// A fresh, empty store.
    pub fn create() -> (r: Metadata)
        ensures
            r@ == Map::<Seq<char>, MediaView>::empty(),
            r.wf(),
    {
        let r = Metadata { records: Vec::new() };
        proof {
            assert(media_views(r.records@) =~= Seq::<MediaView>::empty());
        }
        r
    }

    /// The index of the record carrying `key`, if any.
    fn position(&self, key: &str) -> (r: Option<usize>)
        ensures
            match r {
                Some(i) => i < self.records@.len() && media_views(self.records@)[i as int].id
                    == key@,
                None => forall|i: int|
                    0 <= i < self.records@.len() ==> (#[trigger] media_views(self.records@)[i]).id
                        != key@,
            },
    {
        let k = key.to_owned();
        let n = self.records.len();
        for i in 0..n
            invariant
                n == self.records@.len(),
                k@ == key@,
                forall|j: int|
                    0 <= j < i ==> (#[trigger] media_views(self.records@)[j]).id != key@,
        {
            if *self.records[i].id() == k {
                return Some(i);
            }
            proof {
                assert(media_views(self.records@)[i as int] == self.records@[i as int]@);
            }
        }
        None
    }

    /// Look up the record for an identifier.
    pub fn find(&self, key: &str) -> (r: Option<&Media>)
        requires
            self.wf(),
        ensures
            match r {
                Some(m) => self@.contains_key(key@) && m@ == self@[key@],
                None => !self@.contains_key(key@),
            },
    {
        match self.position(key) {
            Some(i) => {
                proof {
                    lemma_records_map_index(media_views(self.records@), i as int);
                }
                Some(&self.records[i])
            },
            None => {
                proof {
                    lemma_records_map_contains(media_views(self.records@), key@);
                }
                None
            },
        }
    }

    /// Whether a record for an identifier exists.
    pub fn contains(&self, id: &str) -> (r: bool)
        requires
            self.wf(),
        ensures
            r == self@.contains_key(id@),
    {
        match self.find(id) {
            Some(_) => true,
            None => false,
        }
    }

    /// Record one archival fact. An identifier already present is refused:
    /// the store never overwrites.
    pub fn insert(&mut self, item: &Media) -> (r: Result<(), StoreError>)
        requires
            old(self).wf(),
        ensures
            final(self).wf(),
            old(self)@.contains_key(item@.id) ==> r == Err::<(), StoreError>(StoreError::Duplicate)
                && final(self)@ == old(self)@,
            !old(self)@.contains_key(item@.id) ==> r == Ok::<(), StoreError>(()) && final(self)@
                == old(self)@.insert(item@.id, item@),
    {
        if self.contains(item.id().as_str()) {
            Err(StoreError::Duplicate)
        } else {
            proof {
                lemma_records_map_contains(media_views(self.records@), item@.id);
            }
            self.records.push(item.clone());
            proof {
                let s = media_views(old(self).records@);
                assert(media_views(self.records@) =~= s.push(item@));
                assert(s.push(item@).drop_last() =~= s);
                assert(forall|i: int| 0 <= i < s.len() ==> (#[trigger] s[i]).id != item@.id);
            }
            Ok(())
        }
    }
}

} // verus!
