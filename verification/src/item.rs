//! One catalog entry: the fields the archiver reads from a remote media
//! record, normalized and validated.

use crate::date::UtcDate;
use crate::date::dec_digits;
use crate::date::dec_string_of;
use vstd::prelude::*;

verus! {

/// A catalog entry as the archiver sees it: a stable identifier, the
/// creation timestamp, the leaf file name, and the locator its bytes are
/// fetched from.
#[derive(Debug)]
pub struct Item {
    id: String,
    creation_time: UtcDate,
    filename: String,
    base_url: String,
}

/// The abstract value of an `Item`.
pub struct ItemView {
    pub id: Seq<char>,
    pub creation_time: UtcDate,
    pub filename: Seq<char>,
    pub base_url: Seq<char>,
}

impl View for Item {
    type V = ItemView;

    closed spec fn view(&self) -> ItemView {
        ItemView {
            id: self.id@,
            creation_time: self.creation_time,
            filename: self.filename@,
            base_url: self.base_url@,
        }
    }
}

/// Why a raw remote record could not become an `Item`: a required attribute
/// was absent, or its creation timestamp did not parse.
#[derive(Clone, Copy, Debug, PartialEq, Eq, Structural)]
pub enum ItemError {
    MissingId,
    MissingCreationTime,
    InvalidCreationTime,
    MissingFilename,
    MissingBaseUrl,
}

/// The abstract values of a sequence of entries.
pub open spec fn item_views(s: Seq<Item>) -> Seq<ItemView> {
    s.map_values(|i: Item| i@)
}

/// The relative path an entry is stored under: year, month and day of its
/// creation time as plain decimal components, then the file name.
pub open spec fn spec_storage_path(date: UtcDate, filename: Seq<char>) -> Seq<char> {
    dec_digits(date.year as int) + seq!['/'] + dec_digits(date.month as int) + seq!['/']
        + dec_digits(date.day as int) + seq!['/'] + filename
}

impl Item {
    /// The one internal fact an `Item` maintains: its timestamp is in range.
    pub open spec fn wf(self) -> bool {
        self@.creation_time.wf()
    }

    /// Build an entry from already-validated parts.
    pub fn new(id: String, creation_time: UtcDate, filename: String, base_url: String) -> (r: Item)
        requires
            creation_time.wf(),
        ensures
            r@ == (ItemView { id: id@, creation_time, filename: filename@, base_url: base_url@ }),
            r.wf(),
    {
        Item { id, creation_time, filename, base_url }
    }

    /// Normalize a raw remote record, failing closed: every required
    /// attribute must be present and the creation timestamp must parse.
    pub fn from_raw(
        id: Option<String>,
        creation_time: Option<String>,
        filename: Option<String>,
        base_url: Option<String>,
    ) -> (r: Result<Item, ItemError>)
        ensures
            r is Ok <==> {
                &&& id is Some
                &&& creation_time is Some
                &&& UtcDate::spec_parse_rfc3339(creation_time.unwrap()@) is Some
                &&& filename is Some
                &&& base_url is Some
            },
            r matches Ok(item) ==> {
                &&& item@.id == id.unwrap()@
                &&& Some(item@.creation_time) == UtcDate::spec_parse_rfc3339(
                    creation_time.unwrap()@,
                )
                &&& item@.filename == filename.unwrap()@
                &&& item@.base_url == base_url.unwrap()@
                &&& item.wf()
            },
            r == Err::<Item, ItemError>(ItemError::MissingId) <==> id is None,
            r == Err::<Item, ItemError>(ItemError::MissingCreationTime) <==> id is Some
                && creation_time is None,
            r == Err::<Item, ItemError>(ItemError::InvalidCreationTime) <==> id is Some
                && creation_time is Some && UtcDate::spec_parse_rfc3339(creation_time.unwrap()@)
                is None,
            r == Err::<Item, ItemError>(ItemError::MissingFilename) <==> id is Some
                && creation_time is Some && UtcDate::spec_parse_rfc3339(creation_time.unwrap()@)
                is Some && filename is None,
            r == Err::<Item, ItemError>(ItemError::MissingBaseUrl) <==> id is Some
                && creation_time is Some && UtcDate::spec_parse_rfc3339(creation_time.unwrap()@)
                is Some && filename is Some && base_url is None,
    {
        let id = match id {
            Some(id) => id,
            None => {
                return Err(ItemError::MissingId);
            },
        };
        let creation_time = match creation_time {
            Some(ct) => ct,
            None => {
                return Err(ItemError::MissingCreationTime);
            },
        };
        let date = match UtcDate::parse_rfc3339(creation_time.as_str()) {
            Some(date) => date,
            None => {
                return Err(ItemError::InvalidCreationTime);
            },
        };
        let filename = match filename {
            Some(f) => f,
            None => {
                return Err(ItemError::MissingFilename);
            },
        };
        let base_url = match base_url {
            Some(u) => u,
            None => {
                return Err(ItemError::MissingBaseUrl);
            },
        };
        Ok(Item { id, creation_time: date, filename, base_url })
    }

    /// The entry's identifier.
    pub fn id(&self) -> (r: String)
        ensures
            r@ == self@.id,
    {
        self.id.clone()
    }

    /// The entry's creation timestamp.
    pub fn creation_time(&self) -> (r: UtcDate)
        ensures
            r == self@.creation_time,
    {
        self.creation_time
    }

    /// The relative storage path derived from the creation time and file
    /// name: `<year>/<month>/<day>/<filename>`, numerals unpadded.
    pub fn fs_path(&self) -> (p: String)
        ensures
            p@ == spec_storage_path(self@.creation_time, self@.filename),
    {
        let mut p = dec_string_of(self.creation_time.year);
        p.append("/");
        let m = dec_string_of(self.creation_time.month);
        p.append(m.as_str());
        p.append("/");
        let d = dec_string_of(self.creation_time.day);
        p.append(d.as_str());
        p.append("/");
        p.append(self.filename.as_str());
        proof {
            reveal_strlit("/");
            assert(p@ =~= spec_storage_path(self@.creation_time, self@.filename));
        }
        p
    }

    /// The locator bytes are fetched from: the remote base locator with the
    /// download suffix appended.
    pub fn download_url(&self) -> (r: String)
        ensures
            r@ == self@.base_url + "=d"@,
    {
        let mut u = self.base_url.clone();
        u.append("=d");
        u
    }
}

} // verus!
