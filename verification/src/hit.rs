//! Search results: a hit is either a filesystem entry whose name matched,
//! or a virtual entry inside a zip archive.  Each hit carries a display
//! string; an archive hit additionally carries the structured pair of
//! archive path and internal name, so that extraction never has to parse
//! the display string back apart.

use vstd::prelude::*;

verus! {

use crate::text::{append_str, push_char};

/// A single search match, immutable once created.
#[derive(Debug)]
pub enum Hit {
    /// A filesystem entry whose own name matched the query.
    Filesystem { display_path: String },
    /// A virtual entry inside a zip archive.
    Archive { display_label: String, archive_path: String, internal_name: String },
}

/// The mathematical content of a [`Hit`]: the same shape over character
/// sequences, used to state what a search returns.
pub enum HitModel {
    Filesystem { path: Seq<char> },
    Archive { label: Seq<char>, path: Seq<char>, name: Seq<char> },
}

/// The display label of an archive hit: the archive path, a colon and a
/// space, then the internal entry name.
pub open spec fn archive_label(path: Seq<char>, name: Seq<char>) -> Seq<char> {
    path + seq![':', ' '] + name
}

/// The model of the archive hit for internal entry `name` of the archive
/// at `path`.
pub open spec fn archive_model(path: Seq<char>, name: Seq<char>) -> HitModel {
    HitModel::Archive { label: archive_label(path, name), path: path, name: name }
}

/// The model of the filesystem hit for the entry at `path`.
pub open spec fn filesystem_model(path: Seq<char>) -> HitModel {
    HitModel::Filesystem { path: path }
}

/// The model of one hit.
pub open spec fn hit_model(h: Hit) -> HitModel {
    match h {
        Hit::Filesystem { display_path } => HitModel::Filesystem { path: display_path@ },
        Hit::Archive { display_label, archive_path, internal_name } => (HitModel::Archive {
            label: display_label@,
            path: archive_path@,
            name: internal_name@,
        }),
    }
}

/// The models of a hit collection, in order.
pub open spec fn models(hits: Seq<Hit>) -> Seq<HitModel> {
    hits.map_values(|h: Hit| hit_model(h))
}

/// Builds the archive hit for internal entry `internal_name` of the
/// archive at `archive_path`, with its display label.
pub fn make_archive_hit(archive_path: &str, internal_name: String) -> (h: Hit)
    ensures
        hit_model(h) == archive_model(archive_path@, internal_name@),
{
    let mut label = String::new();
    append_str(&mut label, archive_path);
    push_char(&mut label, ':');
    push_char(&mut label, ' ');
    append_str(&mut label, internal_name.as_str());
    proof {
        assert(label@ =~= archive_label(archive_path@, internal_name@));
    }
    Hit::Archive {
        display_label: label,
        archive_path: archive_path.to_owned(),
        internal_name: internal_name,
    }
}

/// Builds the filesystem hit for the entry at `path`.
pub fn make_filesystem_hit(path: &str) -> (h: Hit)
    ensures
        hit_model(h) == filesystem_model(path@),
{
    Hit::Filesystem { display_path: path.to_owned() }
}

} // verus!
