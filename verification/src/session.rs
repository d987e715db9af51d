//! The search session: one end-to-end search as a state machine over
//! plain values, with its progress tracking and final statistics.
//!
//! A session walks the phases Idle, Counting, Processing, Done.  The
//! counting pass fixes the denominator of the progress fraction; the
//! processing pass matches every entry, inspects archive candidates and
//! grows the hit collection; completion freezes the statistics.  The
//! shell that drives a session performs the filesystem walk and hands
//! each visited entry in as a path, a name and, for an archive
//! candidate, the archive's bytes.

use vstd::prelude::*;

verus! {

use crate::archive::{search_in_zip, zip_hit_models};
use crate::hit::{Hit, HitModel, filesystem_model, hit_model, make_filesystem_hit, models};
use crate::matcher::{is_match_lowered, is_zip_candidate, name_matches, spec_is_zip_candidate};
use crate::text::{append_str, dec_rep, lower_of, lowercase, usize_to_string};

/// Where a session stands.
#[derive(Clone, Copy, Debug, PartialEq, Eq, Structural)]
pub enum Phase {
    /// No search has been started, or the last one is long gone.
    Idle,
    /// The counting pass is establishing the total entry count.
    Counting,
    /// The matching pass is visiting entries and collecting hits.
    Processing,
    /// The search ran to completion; statistics are available.
    Done,
}

/// Aggregate statistics of one completed search.
#[derive(Clone, Copy, Debug, PartialEq, Eq, Structural)]
pub struct SearchStats {
    /// Every entry the counting pass saw.
    pub total_files: usize,
    /// The size of the hit collection at completion.
    pub matched_files: usize,
    /// Wall-clock duration of the search, in milliseconds.
    pub elapsed_ms: u64,
}

/// A snapshot of the shared progress state, for a poller.
pub struct ProgressState {
    pub phase: Phase,
    pub total_entries: usize,
    pub processed_entries: usize,
    pub status_text: String,
}

/// One filesystem entry handed to the processing pass: its full path,
/// its base name, and, when the name denotes an archive candidate, the
/// archive's raw bytes.
pub struct EntryRecord {
    pub path: String,
    pub name: String,
    pub zip_bytes: Option<Vec<u8>>,
}

/// The view of an optional byte buffer.
pub open spec fn opt_bytes_view(o: Option<Vec<u8>>) -> Option<Seq<u8>> {
    match o {
        Option::Some(b) => Option::Some(b@),
        Option::None => Option::None,
    }
}

/// The hit models that processing one entry appends: the archive hits of
/// an inspected candidate, in container order, then the entry's own
/// filesystem hit when its name matches.
pub open spec fn entry_hit_models(
    path: Seq<char>,
    name: Seq<char>,
    zipb: Option<Seq<u8>>,
    ql: Seq<char>,
) -> Seq<HitModel> {
    (if spec_is_zip_candidate(name) && zipb is Some {
        zip_hit_models(path, zipb->0, ql)
    } else {
        Seq::empty()
    }) + (if name_matches(name, ql) {
        seq![filesystem_model(path)]
    } else {
        Seq::empty()
    })
}

/// The hit models of one entry record.
pub open spec fn record_hit_models(e: EntryRecord, ql: Seq<char>) -> Seq<HitModel> {
    entry_hit_models(e.path@, e.name@, opt_bytes_view(e.zip_bytes), ql)
}

/// The hit models of a whole processing pass over `entries`, in order.
pub open spec fn session_hit_models(entries: Seq<EntryRecord>, ql: Seq<char>) -> Seq<HitModel>
    decreases entries.len(),
{
    if entries.len() == 0 {
        Seq::empty()
    } else {
        record_hit_models(entries.first(), ql) + session_hit_models(entries.drop_first(), ql)
    }
}

/// How many hits a search over `entries` yields for the lower-cased
/// query `ql`.
pub open spec fn matched_count(entries: Seq<EntryRecord>, ql: Seq<char>) -> nat {
    session_hit_models(entries, ql).len()
}

/// The status text of the counting pass.
pub open spec fn counting_status(root: Seq<char>) -> Seq<char> {
    "Counting items in "@ + root + "..."@
}

/// The status text at the start of the processing pass.
pub open spec fn processing_status() -> Seq<char> {
    "Processing items..."@
}

/// The status text after a processed batch.
pub open spec fn batch_status(processed: nat, total: nat) -> Seq<char> {
    "Processing items: "@ + dec_rep(processed) + "/"@ + dec_rep(total)
        + " processed. Please wait..."@
}

/// The status text of a completed search.
pub open spec fn done_status() -> Seq<char> {
    "Search completed."@
}

/// The root a search falls back to when the caller supplies none.
pub fn default_root() -> (r: &'static str)
    ensures
        r@ == "C:/"@,
{
    "C:/"
}

/// One search session and its shared, poller-visible state.
pub struct Session {
    pub phase: Phase,
    pub query: String,
    pub query_lower: String,
    pub root: String,
    pub total_entries: usize,
    pub processed_entries: usize,
    pub status_text: String,
    pub hits: Vec<Hit>,
    pub stats: Option<SearchStats>,
}

impl Session {
    /// Well-formedness: the stored query is lower-cased once per search,
    /// and once counting completes the processed counter never exceeds
    /// the total fixed by the counting pass.
    pub open spec fn wf(self) -> bool {
        &&& self.query_lower@ == lower_of(self.query@)
        &&& (self.phase == Phase::Processing || self.phase == Phase::Done)
            ==> self.processed_entries <= self.total_entries
        &&& self.phase == Phase::Counting ==> self.processed_entries == 0
    }

    /// A search is in progress.
    pub open spec fn spec_searching(self) -> bool {
        self.phase == Phase::Counting || self.phase == Phase::Processing
    }

    /// A fresh, idle session with nothing counted and nothing found.
    pub fn new() -> (s: Session)
        ensures
            s.wf(),
            s.phase == Phase::Idle,
            s.query@.len() == 0,
            s.root@.len() == 0,
            s.total_entries == 0,
            s.processed_entries == 0,
            s.status_text@.len() == 0,
            s.hits@.len() == 0,
            s.stats is None,
    {
        let query = String::new();
        let query_lower = lowercase(query.as_str());
        Session {
            phase: Phase::Idle,
            query,
            query_lower,
            root: String::new(),
            total_entries: 0,
            processed_entries: 0,
            status_text: String::new(),
            hits: Vec::new(),
            stats: None,
        }
    }

    /// Is a search in progress right now?
    pub fn searching(&self) -> (r: bool)
        ensures
            r == self.spec_searching(),
    {
        self.phase == Phase::Counting || self.phase == Phase::Processing
    }

    /// Begins a new search over `root` for `query`, resetting the
    /// progress state and the hit collection.  While a search is already
    /// in progress the call is a no-op that changes nothing, so that at
    /// most one session is ever active.  An empty root falls back to the
    /// configured default root.
    pub fn start_search(&mut self, root: &str, query: &str) -> (started: bool)
        requires
            old(self).wf(),
        ensures
            final(self).wf(),
            started == !old(self).spec_searching(),
            !started ==> *final(self) == *old(self),
            started ==> {
                &&& final(self).phase == Phase::Counting
                &&& final(self).query@ == query@
                &&& final(self).query_lower@ == lower_of(query@)
                &&& final(self).root@ == if root@.len() == 0 {
                    "C:/"@
                } else {
                    root@
                }
                &&& final(self).total_entries == 0
                &&& final(self).processed_entries == 0
                &&& final(self).hits@.len() == 0
                &&& final(self).stats == old(self).stats
                &&& final(self).status_text@ == counting_status(final(self).root@)
            },
    {
        if self.phase == Phase::Counting || self.phase == Phase::Processing {
            return false;
        }
        self.phase = Phase::Counting;
        self.query = query.to_owned();
        self.query_lower = lowercase(query);
        self.root = if root.is_empty() {
            default_root().to_owned()
        } else {
            root.to_owned()
        };
        self.total_entries = 0;
        self.processed_entries = 0;
        self.hits = Vec::new();
        let mut st = String::new();
        append_str(&mut st, "Counting items in ");
        append_str(&mut st, self.root.as_str());
        append_str(&mut st, "...");
        proof {
            assert(st@ =~= counting_status(self.root@));
        }
        self.status_text = st;
        true
    }

    /// The counting pass saw one more entry.
    pub fn count_entry(&mut self)
        requires
            old(self).wf(),
            old(self).phase == Phase::Counting,
            old(self).total_entries < usize::MAX,
        ensures
            final(self).wf(),
            *final(self) == (Session {
                total_entries: (old(self).total_entries + 1) as usize,
                ..*old(self)
            }),
    {
        self.total_entries = self.total_entries + 1;
    }

    /// Ends the counting pass: the total is fixed from here on, and the
    /// processing pass begins.
    pub fn finish_counting(&mut self)
        requires
            old(self).wf(),
            old(self).phase == Phase::Counting,
        ensures
            final(self).wf(),
            final(self).phase == Phase::Processing,
            final(self).query == old(self).query,
            final(self).query_lower == old(self).query_lower,
            final(self).root == old(self).root,
            final(self).total_entries == old(self).total_entries,
            final(self).processed_entries == 0,
            final(self).hits == old(self).hits,
            final(self).stats == old(self).stats,
            final(self).status_text@ == processing_status(),
    {
        self.phase = Phase::Processing;
        self.status_text = "Processing items...".to_owned();
    }

    /// The processing pass visits one entry: an archive candidate's
    /// bytes are inspected for internal matches, the entry's own name is
    /// matched, and the processed counter advances (capped at the total,
    /// which stays fixed).  Every thousandth processed entry refreshes
    /// the status text.
    pub fn process_entry(&mut self, path: &str, name: &str, zip_bytes: Option<Vec<u8>>)
        requires
            old(self).wf(),
            old(self).phase == Phase::Processing,
        ensures
            final(self).wf(),
            final(self).phase == Phase::Processing,
            final(self).query == old(self).query,
            final(self).query_lower == old(self).query_lower,
            final(self).root == old(self).root,
            final(self).total_entries == old(self).total_entries,
            final(self).stats == old(self).stats,
            old(self).processed_entries <= final(self).processed_entries,
            final(self).processed_entries == if old(self).processed_entries < old(
                self,
            ).total_entries {
                old(self).processed_entries + 1
            } else {
                old(self).processed_entries as int
            },
            models(final(self).hits@) == models(old(self).hits@) + entry_hit_models(
                path@,
                name@,
                opt_bytes_view(zip_bytes),
                old(self).query_lower@,
            ),
            final(self).status_text@ == if final(self).processed_entries % 1000 == 0 {
                batch_status(final(self).processed_entries as nat, final(self).total_entries as nat)
            } else {
                old(self).status_text@
            },
    {
        let ghost hits0 = self.hits@;
        let ghost ql = self.query_lower@;
        let is_candidate = is_zip_candidate(name);
        match zip_bytes {
            Some(bytes) => {
                if is_candidate {
                    let mut found = search_in_zip(path, bytes, self.query_lower.as_str());
                    self.hits.append(&mut found);
                    proof {
                        assert(models(self.hits@) =~= models(hits0) + zip_hit_models(
                            path@,
                            bytes@,
                            ql,
                        ));
                    }
                }
            },
            None => {},
        }
        let ghost hits1 = self.hits@;
        if is_match_lowered(name, self.query_lower.as_str()) {
            let h = make_filesystem_hit(path);
            self.hits.push(h);
            proof {
                assert(models(self.hits@) =~= models(hits1).push(filesystem_model(path@)));
            }
        }
        proof {
            assert(models(self.hits@) =~= models(hits0) + entry_hit_models(
                path@,
                name@,
                opt_bytes_view(zip_bytes),
                ql,
            ));
        }
        if self.processed_entries < self.total_entries {
            self.processed_entries = self.processed_entries + 1;
        }
        if self.processed_entries % 1000 == 0 {
            let mut st = String::new();
            append_str(&mut st, "Processing items: ");
            let ps = usize_to_string(self.processed_entries);
            append_str(&mut st, ps.as_str());
            append_str(&mut st, "/");
            let ts = usize_to_string(self.total_entries);
            append_str(&mut st, ts.as_str());
            append_str(&mut st, " processed. Please wait...");
            proof {
                assert(st@ =~= batch_status(
                    self.processed_entries as nat,
                    self.total_entries as nat,
                ));
            }
            self.status_text = st;
        }
    }

    /// Completes the search: progress reaches the full total, the
    /// statistics are frozen from the session's state, and the phase
    /// becomes Done.
    pub fn finish_search(&mut self, elapsed_ms: u64)
        requires
            old(self).wf(),
            old(self).phase == Phase::Processing,
        ensures
            final(self).wf(),
            final(self).phase == Phase::Done,
            final(self).query == old(self).query,
            final(self).query_lower == old(self).query_lower,
            final(self).root == old(self).root,
            final(self).total_entries == old(self).total_entries,
            final(self).processed_entries == final(self).total_entries,
            final(self).hits == old(self).hits,
            final(self).status_text@ == done_status(),
            final(self).stats matches Some(st) && st.total_files == old(self).total_entries
                && st.matched_files == old(self).hits@.len() && st.elapsed_ms == elapsed_ms,
    {
        self.processed_entries = self.total_entries;
        let matched = self.hits.len();
        self.stats = Some(
            SearchStats { total_files: self.total_entries, matched_files: matched, elapsed_ms },
        );
        self.phase = Phase::Done;
        self.status_text = "Search completed.".to_owned();
    }

    /// A snapshot of the progress state.
    pub fn poll_progress(&self) -> (p: ProgressState)
        ensures
            p.phase == self.phase,
            p.total_entries == self.total_entries,
            p.processed_entries == self.processed_entries,
            p.status_text@ == self.status_text@,
    {
        ProgressState {
            phase: self.phase,
            total_entries: self.total_entries,
            processed_entries: self.processed_entries,
            status_text: self.status_text.clone(),
        }
    }

    /// The hit collection gathered so far.
    pub fn poll_results(&self) -> (r: &Vec<Hit>)
        ensures
            r@ == self.hits@,
    {
        &self.hits
    }

    /// The statistics of the last completed search, if any.
    pub fn poll_stats(&self) -> (r: Option<SearchStats>)
        ensures
            r == self.stats,
    {
        self.stats
    }
}

/// Appending one entry to a pass appends that entry's hits.
pub proof fn lemma_session_models_push(entries: Seq<EntryRecord>, e: EntryRecord, ql: Seq<char>)
    ensures
        session_hit_models(entries.push(e), ql) == session_hit_models(entries, ql)
            + record_hit_models(e, ql),
    decreases entries.len(),
{
    if entries.len() == 0 {
        assert(entries.push(e)[0] == e);
        assert(entries.push(e).drop_first() =~= Seq::<EntryRecord>::empty());
        assert(session_hit_models(entries.push(e), ql) == record_hit_models(e, ql)
            + session_hit_models(Seq::<EntryRecord>::empty(), ql));
        assert(record_hit_models(e, ql) + Seq::<HitModel>::empty() =~= record_hit_models(e, ql));
        assert(session_hit_models(entries, ql) + record_hit_models(e, ql) =~= record_hit_models(
            e,
            ql,
        ));
    } else {
        lemma_session_models_push(entries.drop_first(), e, ql);
        assert(entries.push(e).drop_first() =~= entries.drop_first().push(e));
        assert(entries.push(e).first() == entries.first());
        assert(session_hit_models(entries, ql) + record_hit_models(e, ql) =~= record_hit_models(
            entries.first(),
            ql,
        ) + (session_hit_models(entries.drop_first(), ql) + record_hit_models(e, ql)));
    }
}

/// Runs one whole search over a fixed list of entries: the counting
/// pass over all of them, then the processing pass, then completion.
/// What it finds and reports is a function of the entry list, the query
/// and the elapsed time alone.
pub fn run_search(root: &str, query: &str, entries: Vec<EntryRecord>, elapsed_ms: u64) -> (s:
    Session)
    ensures
        s.wf(),
        s.phase == Phase::Done,
        s.query@ == query@,
        s.root@ == if root@.len() == 0 {
            "C:/"@
        } else {
            root@
        },
        s.total_entries == entries@.len(),
        s.processed_entries == entries@.len(),
        models(s.hits@) == session_hit_models(entries@, lower_of(query@)),
        s.stats matches Some(st) && st.total_files == entries@.len() && st.matched_files
            == matched_count(entries@, lower_of(query@)) && st.elapsed_ms == elapsed_ms,
        s.status_text@ == done_status(),
{
    let ghost all = entries@;
    let mut s = Session::new();
    s.start_search(root, query);
    let n = entries.len();
    let mut i: usize = 0;
    while i < n
        invariant
            s.wf(),
            s.phase == Phase::Counting,
            s.query@ == query@,
            s.query_lower@ == lower_of(query@),
            s.root@ == if root@.len() == 0 {
                "C:/"@
            } else {
                root@
            },
            s.total_entries == i,
            s.processed_entries == 0,
            s.hits@.len() == 0,
            s.stats is None,
            i <= n,
            n == all.len(),
        decreases n - i,
    {
        s.count_entry();
        i = i + 1;
    }
    s.finish_counting();
    proof {
        assert(models(s.hits@) =~= session_hit_models(all.take(0int), lower_of(query@)));
    }
    let mut remaining = entries;
    let mut j: usize = 0;
    while j < n
        invariant
            s.wf(),
            s.phase == Phase::Processing,
            s.query@ == query@,
            s.query_lower@ == lower_of(query@),
            s.root@ == if root@.len() == 0 {
                "C:/"@
            } else {
                root@
            },
            s.total_entries == n,
            s.processed_entries == j,
            s.stats is None,
            j <= n,
            n == all.len(),
            remaining@ == all.skip(j as int),
            models(s.hits@) == session_hit_models(all.take(j as int), lower_of(query@)),
        decreases n - j,
    {
        let e = remaining.remove(0);
        proof {
            assert(all.skip(j as int)[0] == all[j as int]);
            assert(all.skip(j as int).remove(0) =~= all.skip(j + 1));
        }
        match e {
            EntryRecord { path, name, zip_bytes } => {
                s.process_entry(path.as_str(), name.as_str(), zip_bytes);
                proof {
                    lemma_session_models_push(all.take(j as int), all[j as int], lower_of(query@));
                    assert(all.take(j as int).push(all[j as int]) =~= all.take(j + 1));
                }
            },
        }
        j = j + 1;
    }
    proof {
        assert(all.take(n as int) =~= all);
    }
    s.finish_search(elapsed_ms);
    s
}

/// Progress stays bounded: once counting has completed, the processed
/// counter never exceeds the total that the counting pass fixed.
pub proof fn lemma_progress_bounded(s: Session)
    requires
        s.wf(),
        s.phase == Phase::Processing || s.phase == Phase::Done,
    ensures
        s.processed_entries <= s.total_entries,
{
}

/// Removing one entry from a pass removes exactly that entry's hits.
proof fn lemma_matched_count_remove(entries: Seq<EntryRecord>, ql: Seq<char>, j: int)
    requires
        0 <= j < entries.len(),
    ensures
        matched_count(entries.remove(j), ql) + record_hit_models(entries[j], ql).len()
            == matched_count(entries, ql),
    decreases entries.len(),
{
    if j == 0 {
        assert(entries.remove(0) =~= entries.drop_first());
    } else {
        lemma_matched_count_remove(entries.drop_first(), ql, j - 1);
        assert(entries.remove(j).first() == entries.first());
        assert(entries.remove(j).drop_first() =~= entries.drop_first().remove(j - 1));
        assert(entries.drop_first()[j - 1] == entries[j]);
    }
}

/// Idempotence and order-independence of the matched count: two entry
/// lists that hold the same entries, in any order, yield the same number
/// of hits for the same query.  Searching an unchanged tree twice
/// therefore reports the same matched count, however the traversal
/// happens to order its visits.
pub proof fn lemma_matched_count_permutation(
    e1: Seq<EntryRecord>,
    e2: Seq<EntryRecord>,
    ql: Seq<char>,
)
    requires
        e1.to_multiset() == e2.to_multiset(),
    ensures
        matched_count(e1, ql) == matched_count(e2, ql),
    decreases e1.len(),
{
    broadcast use vstd::seq_lib::group_to_multiset_ensures;

    e1.to_multiset_ensures();
    e2.to_multiset_ensures();
    if e1.len() == 0 {
        assert(e2.len() == e2.to_multiset().len());
    } else {
        let h = e1.first();
        assert(e1[0] == h);
        assert(e1.contains(h));
        assert(e2.to_multiset().count(h) > 0);
        assert(e2.contains(h));
        let j = choose|j: int| 0 <= j < e2.len() && e2[j] == h;
        assert(e1.remove(0).to_multiset() =~= e1.to_multiset().remove(h));
        assert(e2.remove(j).to_multiset() =~= e2.to_multiset().remove(h));
        lemma_matched_count_permutation(e1.remove(0), e2.remove(j), ql);
        lemma_matched_count_remove(e1, ql, 0);
        lemma_matched_count_remove(e2, ql, j);
    }
}

} // verus!
