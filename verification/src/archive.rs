//! The archive inspector: opens a zip container held in memory, matches
//! its internal entry names against the query, and re-locates a named
//! entry for on-demand extraction.
//!
//! The zip container format is read through the `zip` crate behind the
//! trusted items below; everything done with the entry names and contents
//! is verified.

use vstd::prelude::*;

verus! {

use crate::hit::{Hit, HitModel, archive_model, hit_model, models, make_archive_hit};
use crate::matcher::zip_entry_matches;
use crate::text::{contains_sub, lowercase, norm_seq, normalize_separators};

/// Why an on-demand extraction produced no bytes.
#[derive(Clone, Copy, Debug, PartialEq, Eq, Structural)]
pub enum ExtractError {
    /// The bytes are not a readable zip container.
    BadArchive,
    /// No internal entry has the requested name, after normalization.
    NotFound,
    /// The entry exists but its contents could not be decoded.
    ReadFailed,
}

#[verifier::external_type_specification]
#[verifier::external_body]
#[verifier::reject_recursive_types(T)]
pub struct ExCursor<T>(std::io::Cursor<T>);

#[verifier::external_type_specification]
#[verifier::external_body]
#[verifier::reject_recursive_types(R)]
pub struct ExZipArchive<R>(zip::read::ZipArchive<R>);

/// Whether `zip::read::ZipArchive::new` accepts these bytes as a zip
/// container; parsing in-memory bytes depends on the bytes alone.
pub uninterp spec fn zip_parses(bytes: Seq<u8>) -> bool;

/// What an open archive holds: for each internal entry, its stored name
/// and its decompressed contents, in the order of the central directory.
pub uninterp spec fn zip_entries(a: zip::read::ZipArchive<std::io::Cursor<Vec<u8>>>) -> Seq<
    (Seq<char>, Seq<u8>),
>;

/// The entries that parsing `bytes` yields; a function of the bytes alone.
pub uninterp spec fn zip_entries_of(bytes: Seq<u8>) -> Seq<(Seq<char>, Seq<u8>)>;

/// Whether the entry at index `i` of the container `bytes` can be
/// decompressed; decoding an in-memory buffer depends on the bytes and
/// the index alone.
pub uninterp spec fn zip_entry_decodes(bytes: Seq<u8>, i: int) -> bool;

/// The internal names of a parsed entry list, in container order.
pub open spec fn entry_names(es: Seq<(Seq<char>, Seq<u8>)>) -> Seq<Seq<char>> {
    es.map_values(|e: (Seq<char>, Seq<u8>)| e.0)
}

/// Relies on zip::read::ZipArchive::new, reading from an in-memory
/// cursor: it parses the central directory of the byte buffer, and fails
/// exactly when the buffer is not a valid zip container.
#[verifier::external_body]
fn zip_open(bytes: &Vec<u8>) -> (r: Option<zip::read::ZipArchive<std::io::Cursor<Vec<u8>>>>)
    ensures
        r is Some <==> zip_parses(bytes@),
        r is Some ==> zip_entries(r->0) == zip_entries_of(bytes@),
{
    match zip::read::ZipArchive::new(std::io::Cursor::new(bytes.clone())) {
        Ok(a) => Some(a),
        Err(_) => None,
    }
}

/// Relies on zip::read::ZipArchive::len: the number of entries in the
/// archive's central directory.
#[verifier::external_body]
fn zip_len(a: &zip::read::ZipArchive<std::io::Cursor<Vec<u8>>>) -> (r: usize)
    ensures
        r == zip_entries(*a).len(),
{
    a.len()
}

/// Relies on zip::read::ZipArchive::name_for_index: for an index inside
/// the archive it returns the stored name of that entry, as the central
/// directory holds it.
#[verifier::external_body]
fn zip_name_at(a: &zip::read::ZipArchive<std::io::Cursor<Vec<u8>>>, i: usize) -> (r: String)
    requires
        i < zip_entries(*a).len(),
    ensures
        r@ == zip_entries(*a)[i as int].0,
{
    match a.name_for_index(i) {
        Some(n) => n.to_string(),
        None => String::new(),
    }
}

/// Relies on zip::read::ZipArchive::by_index and std::io::Read::read_to_end
/// over an in-memory cursor: the decompressed contents of the entry at
/// the index.  Whether an entry of a byte buffer decodes is a function
/// of the bytes and the index alone; success hands back exactly the
/// entry's contents, failure hands back no partial bytes.
#[verifier::external_body]
fn zip_read_entry(bytes: &Vec<u8>, i: usize) -> (r: Option<Vec<u8>>)
    requires
        zip_parses(bytes@),
        i < zip_entries_of(bytes@).len(),
    ensures
        r is Some <==> zip_entry_decodes(bytes@, i as int),
        r is Some ==> r->0@ == zip_entries_of(bytes@)[i as int].1,
{
    match zip::read::ZipArchive::new(std::io::Cursor::new(bytes.clone())) {
        Ok(mut a) => match a.by_index(i) {
            Ok(mut f) => {
                let mut buf: Vec<u8> = Vec::new();
                match std::io::Read::read_to_end(&mut f, &mut buf) {
                    Ok(_) => Some(buf),
                    Err(_) => None,
                }
            },
            Err(_) => None,
        },
        Err(_) => None,
    }
}

/// Whether `bytes` form a readable zip container, so that a caller can
/// report an unreadable archive instead of mistaking it for one that
/// merely holds no matches.
pub fn archive_is_readable(bytes: &Vec<u8>) -> (r: bool)
    ensures
        r == zip_parses(bytes@),
{
    zip_open(bytes).is_some()
}

/// The archive-hit models that inspecting the internal names `names` of
/// the archive at `ap` yields for the lower-cased query `ql`, in
/// container order.
pub open spec fn arch_hit_models(ap: Seq<char>, names: Seq<Seq<char>>, ql: Seq<char>) -> Seq<
    HitModel,
>
    decreases names.len(),
{
    if names.len() == 0 {
        Seq::empty()
    } else {
        arch_hit_models(ap, names.drop_last(), ql) + if zip_entry_matches(names.last(), ql) {
            seq![archive_model(ap, names.last())]
        } else {
            Seq::empty()
        }
    }
}

/// The hit models that inspecting the archive bytes at path `ap` yields
/// for the lower-cased query `ql`: none when the container does not
/// parse, else one archive hit per matching internal entry.
pub open spec fn zip_hit_models(ap: Seq<char>, bytes: Seq<u8>, ql: Seq<char>) -> Seq<HitModel> {
    if zip_parses(bytes) {
        arch_hit_models(ap, entry_names(zip_entries_of(bytes)), ql)
    } else {
        Seq::empty()
    }
}

/// Inspects the zip container in `bytes`, standing at `archive_path` on
/// the filesystem: yields one archive hit for every internal entry whose
/// separator-normalized, lower-cased name contains `query_lower`, in
/// container order.  An unreadable container yields no hits.
pub fn search_in_zip(archive_path: &str, bytes: Vec<u8>, query_lower: &str) -> (hits: Vec<Hit>)
    ensures
        models(hits@) == zip_hit_models(archive_path@, bytes@, query_lower@),
{
    let ghost bv = bytes@;
    let mut hits: Vec<Hit> = Vec::new();
    match zip_open(&bytes) {
        None => {
            proof {
                assert(models(hits@) =~= zip_hit_models(archive_path@, bv, query_lower@));
            }
            hits
        },
        Some(a) => {
            let n = zip_len(&a);
            let ghost names = entry_names(zip_entries_of(bv));
            let mut i: usize = 0;
            while i < n
                invariant
                    zip_parses(bv),
                    zip_entries(a) == zip_entries_of(bv),
                    names == entry_names(zip_entries_of(bv)),
                    n == names.len(),
                    i <= n,
                    models(hits@) == arch_hit_models(archive_path@, names.take(i as int),
                    query_lower@),
                decreases n - i,
            {
                let nm = zip_name_at(&a, i);
                let normd = normalize_separators(nm.as_str());
                let lowered = lowercase(normd.as_str());
                let ghost hits_before = hits@;
                if contains_sub(lowered.as_str(), query_lower) {
                    let h = make_archive_hit(archive_path, nm);
                    hits.push(h);
                    proof {
                        assert(models(hits@) =~= models(hits_before).push(hit_model(hits@.last())));
                    }
                }
                proof {
                    assert(names.take(i + 1).drop_last() =~= names.take(i as int));
                    assert(names.take(i + 1).last() == names[i as int]);
                    assert(models(hits@) =~= arch_hit_models(archive_path@, names.take(i + 1),
                    query_lower@));
                }
                i = i + 1;
            }
            proof {
                assert(names.take(n as int) =~= names);
            }
            hits
        },
    }
}

/// The index of the first entry whose canonical (separator-normalized)
/// name equals the canonical target, if any.
pub open spec fn find_index(names: Seq<Seq<char>>, target: Seq<char>) -> Option<int>
    decreases names.len(),
{
    if names.len() == 0 {
        Option::None
    } else if norm_seq(names.first()) == norm_seq(target) {
        Option::Some(0int)
    } else {
        match find_index(names.drop_first(), target) {
            Option::Some(i) => Option::Some(i + 1),
            Option::None => Option::None,
        }
    }
}

/// What `find_index` returns: the first canonical match when one exists,
/// nothing when none does.
pub proof fn lemma_find_index_spec(names: Seq<Seq<char>>, target: Seq<char>)
    ensures
        match find_index(names, target) {
            Option::Some(i) => {
                &&& 0 <= i < names.len()
                &&& norm_seq(names[i]) == norm_seq(target)
                &&& forall|k: int|
                    0 <= k < i ==> norm_seq(#[trigger] names[k]) != norm_seq(target)
            },
            Option::None => forall|k: int|
                0 <= k < names.len() ==> norm_seq(#[trigger] names[k]) != norm_seq(target),
        },
    decreases names.len(),
{
    if names.len() > 0 && norm_seq(names.first()) != norm_seq(target) {
        lemma_find_index_spec(names.drop_first(), target);
        assert(forall|k: int|
            1 <= k < names.len() ==> #[trigger] names[k] == names.drop_first()[k - 1]);
    }
}

/// A canonical match at some index means the locator finds one.
pub proof fn lemma_find_index_present(names: Seq<Seq<char>>, j: int)
    requires
        0 <= j < names.len(),
    ensures
        find_index(names, names[j]) is Some,
{
    lemma_find_index_spec(names, names[j]);
    if find_index(names, names[j]) is None {
        assert(norm_seq(names[j]) != norm_seq(names[j]));
    }
}

/// When the canonical names are pairwise distinct, each entry's own name
/// re-locates to exactly that entry.
pub proof fn lemma_find_index_exact(names: Seq<Seq<char>>, j: int)
    requires
        0 <= j < names.len(),
        forall|k1: int, k2: int|
            0 <= k1 < k2 < names.len() ==> norm_seq(#[trigger] names[k1]) != norm_seq(
                #[trigger] names[k2],
            ),
    ensures
        find_index(names, names[j]) == Option::Some(j),
{
    lemma_find_index_spec(names, names[j]);
    match find_index(names, names[j]) {
        Option::Some(i) => {
            if i < j {
                assert(norm_seq(names[i]) != norm_seq(names[j]));
            } else if j < i {
                assert(norm_seq(names[j]) != norm_seq(names[j]));
            }
        },
        Option::None => {
            assert(norm_seq(names[j]) != norm_seq(names[j]));
        },
    }
}

/// Finds the first entry of `entry_names` whose canonical name equals the
/// canonical form of `target`, as on-demand extraction must.
pub fn locate_entry(entry_names: &Vec<String>, target: &str) -> (r: Option<usize>)
    ensures
        match r {
            Option::Some(i) => find_index(names_view(entry_names@), target@) == Option::Some(
                i as int,
            ),
            Option::None => find_index(names_view(entry_names@), target@) is None,
        },
{
    let ghost names = names_view(entry_names@);
    let target_norm = normalize_separators(target);
    let n = entry_names.len();
    let mut i: usize = 0;
    while i < n
        invariant
            n == entry_names@.len(),
            names == names_view(entry_names@),
            target_norm@ == norm_seq(target@),
            i <= n,
            forall|k: int| 0 <= k < i ==> norm_seq(#[trigger] names[k]) != norm_seq(target@),
        decreases n - i,
    {
        let entry_norm = normalize_separators(entry_names[i].as_str());
        if entry_norm == target_norm {
            proof {
                lemma_find_index_spec(names, target@);
                match find_index(names, target@) {
                    Option::Some(fi) => {
                        if fi < i {
                            assert(norm_seq(names[fi]) != norm_seq(target@));
                        } else if (i as int) < fi {
                            assert(norm_seq(names[i as int]) != norm_seq(target@));
                        }
                    },
                    Option::None => {
                        assert(norm_seq(names[i as int]) != norm_seq(target@));
                    },
                }
            }
            return Some(i);
        }
        i = i + 1;
    }
    proof {
        lemma_find_index_spec(names, target@);
    }
    None
}

/// The views of a list of names.
pub open spec fn names_view(v: Seq<String>) -> Seq<Seq<char>> {
    v.map_values(|s: String| s@)
}

/// Re-locates the internal entry named `target` (compared by canonical
/// separator form, exactly) in the zip container `bytes` and hands back
/// its decompressed contents.  Fails with [`ExtractError::BadArchive`]
/// exactly when the container does not parse, [`ExtractError::NotFound`]
/// exactly when no entry has that name, and [`ExtractError::ReadFailed`]
/// exactly when the located entry cannot be decoded; success is owed
/// whenever it can, and a failure produces no bytes at all.
pub fn extract_entry(bytes: Vec<u8>, target: &str) -> (r: Result<Vec<u8>, ExtractError>)
    ensures
        !zip_parses(bytes@) ==> r == Result::<Vec<u8>, ExtractError>::Err(
            ExtractError::BadArchive,
        ),
        zip_parses(bytes@) ==> match find_index(entry_names(zip_entries_of(bytes@)), target@) {
            Option::None => r == Result::<Vec<u8>, ExtractError>::Err(ExtractError::NotFound),
            Option::Some(i) => if zip_entry_decodes(bytes@, i) {
                r matches Result::Ok(b) && b@ == zip_entries_of(bytes@)[i].1
            } else {
                r == Result::<Vec<u8>, ExtractError>::Err(ExtractError::ReadFailed)
            },
        },
{
    let ghost bv = bytes@;
    match zip_open(&bytes) {
        None => Err(ExtractError::BadArchive),
        Some(a) => {
            let ghost names = entry_names(zip_entries_of(bv));
            let target_norm = normalize_separators(target);
            let n = zip_len(&a);
            let mut i: usize = 0;
            while i < n
                invariant
                    bv == bytes@,
                    zip_parses(bv),
                    zip_entries(a) == zip_entries_of(bv),
                    names == entry_names(zip_entries_of(bv)),
                    n == names.len(),
                    target_norm@ == norm_seq(target@),
                    i <= n,
                    forall|k: int|
                        0 <= k < i ==> norm_seq(#[trigger] names[k]) != norm_seq(target@),
                decreases n - i,
            {
                let nm = zip_name_at(&a, i);
                let entry_norm = normalize_separators(nm.as_str());
                if entry_norm == target_norm {
                    proof {
                        lemma_find_index_spec(names, target@);
                        match find_index(names, target@) {
                            Option::Some(fi) => {
                                if fi < i {
                                    assert(norm_seq(names[fi]) != norm_seq(target@));
                                } else if (i as int) < fi {
                                    assert(norm_seq(names[i as int]) != norm_seq(target@));
                                }
                            },
                            Option::None => {
                                assert(norm_seq(names[i as int]) != norm_seq(target@));
                            },
                        }
                        assert(find_index(names, target@) == Option::Some(i as int));
                        assert(zip_entries_of(bv).len() == names.len());
                    }
                    return match zip_read_entry(&bytes, i) {
                        Some(b) => Ok(b),
                        None => Err(ExtractError::ReadFailed),
                    };
                }
                i = i + 1;
            }
            proof {
                lemma_find_index_spec(names, target@);
            }
            Err(ExtractError::NotFound)
        },
    }
}

/// Every hit the archive inspector yields is the archive hit of one of
/// the container's own internal names.
pub proof fn lemma_arch_hits_membership(ap: Seq<char>, names: Seq<Seq<char>>, ql: Seq<char>)
    ensures
        forall|k: int|
            0 <= k < arch_hit_models(ap, names, ql).len() ==> exists|j: int|
                0 <= j < names.len() && #[trigger] arch_hit_models(ap, names, ql)[k]
                    == archive_model(ap, names[j]),
    decreases names.len(),
{
    if names.len() > 0 {
        lemma_arch_hits_membership(ap, names.drop_last(), ql);
        let pre = arch_hit_models(ap, names.drop_last(), ql);
        let all = arch_hit_models(ap, names, ql);
        assert forall|k: int| 0 <= k < all.len() implies exists|j: int|
            0 <= j < names.len() && #[trigger] all[k] == archive_model(ap, names[j]) by {
            if k < pre.len() {
                let j = choose|j: int|
                    0 <= j < names.drop_last().len() && pre[k] == archive_model(
                        ap,
                        names.drop_last()[j],
                    );
                assert(names.drop_last()[j] == names[j]);
                assert(all[k] == archive_model(ap, names[j]));
            } else {
                assert(all[k] == archive_model(ap, names[names.len() - 1]));
            }
        }
    }
}

/// Archive round-trip: every hit the inspector yields for a container
/// whose canonical internal names are pairwise distinct re-locates, by
/// its own internal name, to exactly the entry it came from, so that
/// extraction hands back that entry's contents.
pub proof fn lemma_archive_round_trip(ap: Seq<char>, bytes: Seq<u8>, ql: Seq<char>, k: int)
    requires
        zip_parses(bytes),
        0 <= k < zip_hit_models(ap, bytes, ql).len(),
        forall|k1: int, k2: int|
            0 <= k1 < k2 < entry_names(zip_entries_of(bytes)).len() ==> norm_seq(
                #[trigger] entry_names(zip_entries_of(bytes))[k1],
            ) != norm_seq(#[trigger] entry_names(zip_entries_of(bytes))[k2]),
    ensures
        exists|j: int|
            {
                &&& 0 <= j < entry_names(zip_entries_of(bytes)).len()
                &&& zip_hit_models(ap, bytes, ql)[k] == archive_model(
                    ap,
                    #[trigger] entry_names(zip_entries_of(bytes))[j],
                )
                &&& find_index(
                    entry_names(zip_entries_of(bytes)),
                    entry_names(zip_entries_of(bytes))[j],
                ) == Option::Some(j)
            },
{
    let names = entry_names(zip_entries_of(bytes));
    lemma_arch_hits_membership(ap, names, ql);
    let j = choose|j: int|
        0 <= j < names.len() && zip_hit_models(ap, bytes, ql)[k] == archive_model(ap, names[j]);
    lemma_find_index_exact(names, j);
}

/// Separator insensitivity: two internal names with the same canonical
/// form match the same queries and re-locate to the same entry.
pub proof fn lemma_separator_insensitive(
    names: Seq<Seq<char>>,
    a: Seq<char>,
    b: Seq<char>,
    ql: Seq<char>,
)
    requires
        norm_seq(a) == norm_seq(b),
    ensures
        zip_entry_matches(a, ql) == zip_entry_matches(b, ql),
        find_index(names, a) == find_index(names, b),
    decreases names.len(),
{
    if names.len() > 0 && norm_seq(names.first()) != norm_seq(a) {
        lemma_separator_insensitive(names.drop_first(), a, b, ql);
    }
}

} // verus!
