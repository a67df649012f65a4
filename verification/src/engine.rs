use vstd::prelude::*;

verus! {

use vstd::utf8::is_ascii_chars;
use crate::fold::{folded, fold_to_ascii, lemma_folded_idempotent};
use crate::records::{Dataset, EngineInputData};

/// The fuzzy-scoring engine of the `nucleo` crate.  A value of it is opaque
/// here: everything the crate knows about one is said through the named
/// state below and the trusted wrappers that maintain it.
#[verifier::external_type_specification]
#[verifier::external_body]
#[verifier::reject_recursive_types(T)]
pub struct ExNucleo<T: Sync + Send + 'static>(nucleo::Nucleo<T>);

/// What an engine holds: the items injected into it so far, in injection
/// order, each a payload key and the one haystack column it is matched by.
pub uninterp spec fn engine_entries(e: nucleo::Nucleo<u32>) -> Seq<(u32, Seq<char>)>;

/// The text most recently reparsed into the engine's pattern; empty on
/// construction.
pub uninterp spec fn engine_pattern(e: nucleo::Nucleo<u32>) -> Seq<char>;

/// Whether the engine has finished scoring its items against its pattern,
/// so that its snapshot reflects them fully.
pub uninterp spec fn engine_settled(e: nucleo::Nucleo<u32>) -> bool;

/// The ranking a settled engine reports for the given items and pattern:
/// the payloads of the matched items, best first.  `nucleo` orders matches
/// by score, breaks ties by haystack length and then by injection order, so
/// the ranking is a function of the items and the pattern alone; its values
/// are only named here.
pub uninterp spec fn ranked_entries(
    entries: Seq<(u32, Seq<char>)>,
    pattern: Seq<char>,
) -> Seq<u32>;

/// Whether some entry carries payload `p`.
pub open spec fn payload_among(entries: Seq<(u32, Seq<char>)>, p: u32) -> bool {
    exists|k: int| 0 <= k < entries.len() && (#[trigger] entries[k]).0 == p
}

/// No payload appears twice: each ranked candidate is a distinct item.
pub open spec fn no_repeats(s: Seq<u32>) -> bool {
    forall|i: int, j: int|
        0 <= i < s.len() && 0 <= j < s.len() && i != j ==> #[trigger] s[i] != #[trigger] s[j]
}

/// No two entries carry the same payload — the engine is used as a keyed
/// collection.
pub open spec fn payloads_distinct(entries: Seq<(u32, Seq<char>)>) -> bool {
    forall|i: int, j: int|
        0 <= i < entries.len() && 0 <= j < entries.len() && i != j ==> (
        #[trigger] entries[i]).0 != (#[trigger] entries[j]).0
}

/// The ranking cut off after `limit` entries.
pub open spec fn top_ranked(
    entries: Seq<(u32, Seq<char>)>,
    pattern: Seq<char>,
    limit: int,
) -> Seq<u32> {
    let r = ranked_entries(entries, pattern);
    if r.len() <= limit {
        r
    } else {
        r.take(limit)
    }
}

/// Relies on `nucleo::Nucleo::new`: a fresh engine holds no items and an
/// empty pattern.  Configured as the service uses it: default scoring, one
/// worker thread, one match column.
#[verifier::external_body]
fn engine_new() -> (e: nucleo::Nucleo<u32>)
    ensures
        engine_entries(e) == Seq::<(u32, Seq<char>)>::empty(),
        engine_pattern(e) == Seq::<char>::empty(),
{
    nucleo::Nucleo::new(nucleo::Config::DEFAULT, std::sync::Arc::new(|| {}), None, 1)
}

/// Relies on `nucleo::Injector::push`: appends one item, with `key` as its
/// single haystack column.  The key must be ASCII because the column is
/// stored in `nucleo`'s ASCII representation.
#[verifier::external_body]
fn engine_push(e: &mut nucleo::Nucleo<u32>, payload: u32, key: &String)
    requires
        is_ascii_chars(key@),
    ensures
        engine_entries(*final(e)) == engine_entries(*old(e)).push((payload, key@)),
        engine_pattern(*final(e)) == engine_pattern(*old(e)),
{
    let k: Box<str> = key.clone().into_boxed_str();
    e.injector().push(payload, |_, cols| {
        cols[0] = nucleo::Utf32String::Ascii(k);
    });
}

/// Relies on `nucleo::pattern::MultiPattern::reparse`: replaces the pattern
/// text; items and their order are untouched.  Matching is case-insensitive
/// and applies no normalization of its own (queries are ASCII-folded before
/// they get here).  When `append` is passed the caller promises that the
/// previous pattern is the new one minus its last character and contains
/// neither `'$'` nor `'\'`; `nucleo` then only rescores its previous
/// matches, which equals a full rescore exactly because under that promise
/// the new pattern can only match a subset of the old one (appending after
/// a `'$'` or a `'\'` could widen the match set instead, and `nucleo`
/// itself falls back to a full rescore when the last atom is negated).
#[verifier::external_body]
fn engine_reparse(e: &mut nucleo::Nucleo<u32>, pattern: &String, append: bool)
    requires
        is_ascii_chars(pattern@),
        append ==> pattern@.len() >= 1 && engine_pattern(*old(e)) == pattern@.take(
            pattern@.len() - 1,
        ) && append_safe(engine_pattern(*old(e))),
    ensures
        engine_entries(*final(e)) == engine_entries(*old(e)),
        engine_pattern(*final(e)) == pattern@,
{
    e.pattern.reparse(
        0,
        pattern.as_str(),
        nucleo::pattern::CaseMatching::Ignore,
        nucleo::pattern::Normalization::Never,
        append,
    );
}

/// Relies on `nucleo::Nucleo::tick`: each call advances scoring for a
/// bounded time slice (10 ms) and reports whether work remains.  This runs
/// the engine to completion — termination is `nucleo`'s progress guarantee,
/// which no contract here can express.  Items and pattern are untouched;
/// afterwards the engine has settled.
#[verifier::external_body]
fn engine_settle(e: &mut nucleo::Nucleo<u32>)
    ensures
        engine_entries(*final(e)) == engine_entries(*old(e)),
        engine_pattern(*final(e)) == engine_pattern(*old(e)),
        engine_settled(*final(e)),
{
    while e.tick(10).running {}
}

/// Relies on `nucleo::Snapshot`: once the engine has settled, the snapshot
/// lists the matched items best first; every payload it yields was
/// injected, and each matched *item* appears exactly once.  A payload could
/// still come back twice if two items carried it, so the `requires` demands
/// pairwise-distinct payloads; only then are the returned payloads distinct
/// as the last clause says.  Returns the payloads of the first `limit`
/// matches.
#[verifier::external_body]
fn engine_top(e: &nucleo::Nucleo<u32>, limit: u32) -> (r: Vec<u32>)
    requires
        engine_settled(*e),
        payloads_distinct(engine_entries(*e)),
    ensures
        r@ == top_ranked(engine_entries(*e), engine_pattern(*e), limit as int),
        r@.len() <= ranked_entries(engine_entries(*e), engine_pattern(*e)).len(),
        forall|j: int| 0 <= j < r@.len() ==> payload_among(engine_entries(*e), #[trigger] r@[j]),
        forall|j1: int, j2: int|
            0 <= j1 < r@.len() && 0 <= j2 < r@.len() && j1 != j2 ==> #[trigger] r@[j1]
                != #[trigger] r@[j2],
{
    let snap = e.snapshot();
    let count = snap.matched_item_count().min(limit);
    snap.matched_items(0..count).map(|item| *item.data).collect()
}

/// The items a matcher built over `records` holds: record `i` keyed by
/// payload `i`, matched by its ASCII-folded string.
pub open spec fn entries_of(records: Seq<EngineInputData>) -> Seq<(u32, Seq<char>)> {
    Seq::new(records.len(), |i: int| (i as u32, folded(records[i].string@)))
}

/// What a matcher over `records` returns for query `q`: the ten best-ranked
/// records for the folded query.
pub open spec fn match_spec(records: Seq<EngineInputData>, q: Seq<char>) -> Seq<
    EngineInputData,
> {
    top_ranked(entries_of(records), folded(q), 10).map_values(
        |p: u32| records[p as int],
    )
}

/// What one query of a batch request yields: nothing for an empty query,
/// otherwise its ranked matches cut off after `limit` records.
pub open spec fn batch_match_spec(
    records: Seq<EngineInputData>,
    q: Seq<char>,
    limit: int,
) -> Seq<EngineInputData> {
    if q.len() == 0 {
        Seq::empty()
    } else {
        let m = match_spec(records, q);
        if m.len() <= limit {
            m
        } else {
            m.take(limit)
        }
    }
}

/// An autocomplete result never exceeds ten records.
pub proof fn lemma_match_bounded(records: Seq<EngineInputData>, q: Seq<char>)
    ensures
        match_spec(records, q).len() <= 10,
{
}

/// A batch result never exceeds the requested limit per query.
pub proof fn lemma_batch_match_bounded(records: Seq<EngineInputData>, q: Seq<char>, limit: int)
    requires
        limit >= 0,
    ensures
        batch_match_spec(records, q, limit).len() <= limit,
{
}

/// A query is matched exactly as its ASCII fold is: folding is idempotent,
/// and the engine only ever sees folded patterns.
pub proof fn lemma_ascii_fold_equivalence(records: Seq<EngineInputData>, q: Seq<char>)
    ensures
        match_spec(records, q) == match_spec(records, folded(q)),
{
    lemma_folded_idempotent(q);
}

/// A single-threaded incremental fuzzy-match worker: a scoring engine over
/// one dataset, plus the last pattern it matched.  Not shareable between
/// concurrent callers; pools and leases below hand each one out exclusively.
pub struct Matcher {
    engine: nucleo::Nucleo<u32>,
    prev_pattern: String,
    records: Vec<EngineInputData>,
    /// Ghost tag a pool stamps on each worker it creates, so that the pool
    /// invariants can say that no worker sits in two places at once.
    tag: Ghost<nat>,
}

impl Matcher {
    /// The records this matcher ranks.
    pub closed spec fn records_view(self) -> Seq<EngineInputData> {
        self.records@
    }

    /// The ghost tag the owning pool stamped on this worker.
    pub closed spec fn tag_view(self) -> nat {
        self.tag@
    }

    /// Stamps the ghost tag; everything the matcher does is untouched.
    pub(crate) fn set_tag(&mut self, tag: Ghost<nat>)
        ensures
            final(self).tag_view() == tag@,
            final(self).records_view() == old(self).records_view(),
            final(self).prev_pattern_view() == old(self).prev_pattern_view(),
            final(self).wf() == old(self).wf(),
    {
        self.tag = tag;
    }

    /// The last query this matcher matched, ASCII-folded; empty before the
    /// first match.
    pub closed spec fn prev_pattern_view(self) -> Seq<char> {
        self.prev_pattern@
    }

    /// The engine mirrors the records, entry by entry, and still holds the
    /// pattern of the last match.
    pub closed spec fn wf(self) -> bool {
        &&& self.records@.len() <= u32::MAX
        &&& engine_entries(self.engine) == entries_of(self.records@)
        &&& engine_pattern(self.engine) == self.prev_pattern@
        &&& is_ascii_chars(self.prev_pattern@)
    }

    /// Builds a worker for the dataset: injects every record into a fresh
    /// engine, keyed by its ASCII-folded string, in dataset order.
    pub fn new(dataset: &Dataset) -> (m: Matcher)
        requires
            dataset.wf(),
        ensures
            m.wf(),
            m.records_view() == dataset.records@,
            m.prev_pattern_view() == Seq::<char>::empty(),
    {
        let mut engine = engine_new();
        let n = dataset.records.len();
        proof {
            assert(entries_of(dataset.records@.take(0)) =~= Seq::<(u32, Seq<char>)>::empty());
        }
        for i in 0..n
            invariant
                n == dataset.records@.len(),
                n <= u32::MAX,
                engine_entries(engine) == entries_of(dataset.records@.take(i as int)),
                engine_pattern(engine) == Seq::<char>::empty(),
        {
            let key = fold_to_ascii(&dataset.records[i].string);
            engine_push(&mut engine, i as u32, &key);
            proof {
                assert(entries_of(dataset.records@.take(i + 1)) =~= entries_of(
                    dataset.records@.take(i as int),
                ).push((i as u32, folded(dataset.records@[i as int].string@))));
            }
        }
        proof {
            assert(dataset.records@.take(n as int) =~= dataset.records@);
        }
        Matcher {
            engine,
            prev_pattern: String::new(),
            records: dataset.duplicate().records,
            tag: Ghost(0),
        }
    }

    /// Matches `input` against the records and returns the ten best-ranked
    /// ones, best first.  The query is ASCII-folded first; when it extends
    /// the previous query by exactly one character the engine reuses its
    /// prior scoring state, with the same outcome as a full rescore.
    pub fn fuzzy_match(&mut self, input: &String) -> (r: Vec<EngineInputData>)
        requires
            old(self).wf(),
            input@.len() > 0,
        ensures
            final(self).wf(),
            final(self).records_view() == old(self).records_view(),
            final(self).tag_view() == old(self).tag_view(),
            final(self).prev_pattern_view() == folded(input@),
            r@ == match_spec(old(self).records_view(), input@),
            r@.len() <= 10,
            // every returned record is one of this matcher's records, and
            // no candidate appears twice
            forall|j: int|
                0 <= j < r@.len() ==> old(self).records_view().contains(#[trigger] r@[j]),
            no_repeats(
                top_ranked(entries_of(old(self).records_view()), folded(input@), 10),
            ),
    {
        let q = fold_to_ascii(input);
        let is_ext = is_one_char_extension(&q, &self.prev_pattern);
        engine_reparse(&mut self.engine, &q, is_ext);
        engine_settle(&mut self.engine);
        proof {
            assert forall|i: int, j: int|
                0 <= i < entries_of(self.records@).len() && 0 <= j < entries_of(
                    self.records@,
                ).len() && i != j implies (#[trigger] entries_of(self.records@)[i]).0 != (
            #[trigger] entries_of(self.records@)[j]).0 by {
                assert((entries_of(self.records@)[i]).0 == i as u32);
                assert((entries_of(self.records@)[j]).0 == j as u32);
            }
        }
        let tops = engine_top(&self.engine, 10);
        let mut out: Vec<EngineInputData> = Vec::new();
        let count = tops.len();
        for j in 0..count
            invariant
                count == tops@.len(),
                self.records@ == old(self).records@,
                self.records@.len() <= u32::MAX,
                self.prev_pattern == old(self).prev_pattern,
                engine_entries(self.engine) == entries_of(self.records@),
                engine_pattern(self.engine) == q@,
                engine_settled(self.engine),
                tops@ == top_ranked(entries_of(self.records@), q@, 10),
                forall|t: int|
                    0 <= t < tops@.len() ==> payload_among(
                        entries_of(self.records@),
                        #[trigger] tops@[t],
                    ),
                out@.len() == j,
                forall|t: int|
                    0 <= t < j ==> out@[t] == self.records@[#[trigger] tops@[t] as int],
                forall|t: int|
                    0 <= t < j ==> self.records@.contains(#[trigger] out@[t]),
        {
            proof {
                assert(payload_among(entries_of(self.records@), tops@[j as int]));
                let k = choose|k: int|
                    0 <= k < entries_of(self.records@).len() && (#[trigger] entries_of(
                        self.records@,
                    )[k]).0 == tops@[j as int];
                assert((entries_of(self.records@)[k]).0 == k as u32);
                assert(tops@[j as int] as int == k);
            }
            let idx = tops[j] as usize;
            out.push(self.records[idx].duplicate());
            proof {
                assert(self.records@.contains(self.records@[idx as int]));
            }
        }
        self.prev_pattern = q;
        proof {
            assert(out@ =~= match_spec(old(self).records@, input@));
            assert(no_repeats(top_ranked(entries_of(old(self).records@), folded(input@), 10)));
        }
        out
    }

    /// The number of records this matcher ranks.
    pub fn record_count(&self) -> (n: usize)
        ensures
            n == self.records_view().len(),
    {
        self.records.len()
    }
}

/// Whether appending characters to the pattern text `prev` can only narrow
/// its match set.  A `'$'` anchors the atom before it at the end of the
/// haystack, and a `'\'` escapes what follows, so appending after either
/// can rewrite what the previous pattern meant; after any other character
/// an appended character only lengthens a needle or starts a further atom,
/// both of which shrink the match set.
pub open spec fn append_safe(prev: Seq<char>) -> bool {
    forall|i: int| 0 <= i < prev.len() ==> #[trigger] prev[i] != '$' && prev[i] != '\\'
}

/// Whether `q` is `prev` with exactly one character appended, `prev` being
/// longer than one character and free of the two characters after which an
/// append could widen the match set — the condition under which the engine
/// may reuse its previous scoring state.
pub open spec fn is_extension(q: Seq<char>, prev: Seq<char>) -> bool {
    prev.len() > 1 && q.len() == prev.len() + 1 && q.take(q.len() - 1) == prev && append_safe(
        prev,
    )
}

/// Decides `is_extension(q@, prev@)`.
fn is_one_char_extension(q: &String, prev: &String) -> (r: bool)
    ensures
        r == is_extension(q@, prev@),
{
    let plen = prev.as_str().unicode_len();
    let qlen = q.as_str().unicode_len();
    if plen <= 1 || qlen <= plen || qlen - plen != 1 {
        proof {
            assert(!is_extension(q@, prev@));
        }
        return false;
    }
    for i in 0..plen
        invariant
            plen == prev@.len(),
            qlen == q@.len(),
            qlen == plen + 1,
            plen > 1,
            forall|t: int|
                0 <= t < i ==> q@[t] == #[trigger] prev@[t] && prev@[t] != '$' && prev@[t]
                    != '\\',
    {
        let pc = prev.as_str().get_char(i);
        if pc == '$' || pc == '\\' {
            proof {
                assert(!append_safe(prev@));
            }
            return false;
        }
        if q.as_str().get_char(i) != pc {
            proof {
                assert(q@.take(q@.len() - 1)[i as int] != prev@[i as int]);
            }
            return false;
        }
    }
    proof {
        assert(q@.take(q@.len() - 1) =~= prev@);
    }
    true
}

} // verus!
