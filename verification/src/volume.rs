//! The data model: volumes, raw listing entries, planned asset files.

use vstd::prelude::*;

verus! {

/// The mathematical value of a [`Volume`].
pub ghost struct VolumeView {
    pub id: Seq<char>,
    pub title: Option<Seq<char>>,
    pub date: Option<Seq<char>>,
}

/// One discoverable content item, identified by a stable platform id.
///
/// `title` and `date` are populated by discovery from the listing, or left
/// absent in single-URL mode until the detail page defines them; `date`,
/// when present, is in the normalized `YYYYMMDD` form. A volume is
/// immutable after creation. Equality is defined solely on `id`.
#[derive(Debug)]
pub struct Volume {
    pub id: String,
    pub title: Option<String>,
    pub date: Option<String>,
}

impl View for Volume {
    type V = VolumeView;

    open spec fn view(&self) -> VolumeView {
        VolumeView {
            id: self.id@,
            title: match self.title {
                Some(t) => Some(t@),
                None => None,
            },
            date: match self.date {
                Some(d) => Some(d@),
                None => None,
            },
        }
    }
}

impl PartialEq for Volume {
    /// Two volumes are the same item exactly when their ids agree,
    /// whatever their title or date.
    fn eq(&self, other: &Volume) -> (r: bool) {
        self.id == other.id
    }
}

impl vstd::std_specs::cmp::PartialEqSpecImpl for Volume {
    open spec fn obeys_eq_spec() -> bool {
        true
    }

    open spec fn eq_spec(&self, other: &Volume) -> bool {
        self.id@ == other.id@
    }
}

/// One `li` entry of a listing page, as scraped: the volume id attribute
/// and the raw, uncleaned title and date texts, when present.
#[derive(Debug)]
pub struct ListingEntry {
    pub id: String,
    pub title: Option<String>,
    pub date: Option<String>,
}

impl View for ListingEntry {
    type V = (Seq<char>, Option<Seq<char>>, Option<Seq<char>>);

    open spec fn view(&self) -> (Seq<char>, Option<Seq<char>>, Option<Seq<char>>) {
        (
            self.id@,
            match self.title {
                Some(t) => Some(t@),
                None => None,
            },
            match self.date {
                Some(d) => Some(d@),
                None => None,
            },
        )
    }
}

/// The mathematical value of an [`AssetFile`].
pub ghost struct AssetFileView {
    pub name: Seq<char>,
    pub url: Seq<char>,
}

/// One planned asset download: the source URL and the destination
/// filename, fixed before any transfer starts.
#[derive(Debug)]
pub struct AssetFile {
    pub name: String,
    pub url: String,
}

impl View for AssetFile {
    type V = AssetFileView;

    open spec fn view(&self) -> AssetFileView {
        AssetFileView { name: self.name@, url: self.url@ }
    }
}

/// The views of a sequence of volumes.
pub open spec fn vol_views(s: Seq<Volume>) -> Seq<VolumeView> {
    s.map_values(|v: Volume| v@)
}

} // verus!
