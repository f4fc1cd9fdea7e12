//! One organization pass: scanning filter, duplicate detection, and the
//! destination decided for every hashed file.
//!
//! A pass owns a set of digests seen so far. Results arrive in any order;
//! for each one the pass decides its destination: the first file to arrive
//! with a given digest is placed under its category folder (with an optional
//! age subfolder), and every later file with the same digest goes to the
//! `duplicates` folder. The filesystem work itself — reading the directory,
//! hashing file bytes on worker threads, creating folders and renaming — is
//! done by an unverified front-end that follows these decisions.

use vstd::prelude::*;

use crate::classify::AgeBucket;
use crate::classify::Category;
use crate::classify::category_folder;
use crate::classify::bucket_folder;
use crate::classify::category_of_name;
use crate::classify::classify_file_age;
use crate::classify::spec_age_bucket;
use crate::classify::spec_bucket_folder;
use crate::classify::spec_category_folder;
use crate::classify::spec_category_of_name;
use crate::classify::str_eq;

verus! {

/// A file name is hidden when it starts with the hidden-file marker `.`.
pub open spec fn spec_is_hidden(name: Seq<char>) -> bool {
    name.len() > 0 && name[0] == '.'
}

/// Whether a file name starts with the hidden-file marker. Hidden files are
/// never hashed, classified, or moved: every stage of a pass starts from the
/// entries this predicate rejects.
pub fn is_hidden_file(name: &str) -> (r: bool)
    ensures
        r == spec_is_hidden(name@),
{
    name.unicode_len() > 0 && name.get_char(0) == '.'
}

/// The names a scan keeps: the given entries in order, with every hidden one
/// removed. Only these are ever handed to the hashing workers, so a hidden
/// file is never hashed, classified, or moved.
pub fn visible_entries(names: &Vec<String>) -> (r: Vec<String>)
    ensures
        r@ == names@.filter(|s: String| !spec_is_hidden(s@)),
        forall|i: int| 0 <= i < r@.len() ==> !spec_is_hidden(r@[i]@),
        forall|i: int|
            0 <= i < names@.len() && !spec_is_hidden(names@[i]@) ==> r@.contains(names@[i]),
{
    let mut r: Vec<String> = Vec::new();
    let mut i: usize = 0;
    while i < names.len()
        invariant
            i <= names@.len(),
            r@ == names@.take(i as int).filter(|s: String| !spec_is_hidden(s@)),
        decreases names@.len() - i,
    {
        let keep = !is_hidden_file(names[i].as_str());
        proof {
            reveal(Seq::filter);
            assert(names@.take(i + 1 as int).drop_last() =~= names@.take(i as int));
            assert(names@.take(i + 1 as int).last() == names@[i as int]);
        }
        if keep {
            r.push(names[i].clone());
        }
        i = i + 1;
    }
    proof {
        assert(names@.take(names@.len() as int) =~= names@);
        assert forall|j: int| 0 <= j < r@.len() implies !spec_is_hidden(r@[j]@) by {
            names@.lemma_filter_pred(|s: String| !spec_is_hidden(s@), j);
        }
        assert forall|j: int|
            0 <= j < names@.len() && !spec_is_hidden(names@[j]@) implies r@.contains(
            names@[j],
        ) by {
            names@.lemma_filter_contains(|s: String| !spec_is_hidden(s@), j);
        }
    }
    r
}

/// One completed hashing task: the digest of a file's bytes, the file's name,
/// and its last-modification time in seconds since the Unix epoch.
#[derive(Debug)]
pub struct HashResult {
    /// Hexadecimal content digest of the file's bytes.
    pub digest: String,
    /// Name of the file within the scanned directory.
    pub name: String,
    /// Last-modification time, in whole seconds since the Unix epoch.
    pub modified_secs: i64,
}

/// Where one file is to go, relative to the organized root.
#[derive(Clone, Copy, Debug, PartialEq, Eq)]
pub enum Decision {
    /// The file's content was already seen in this pass: it goes to the
    /// `duplicates` folder.
    Duplicate,
    /// First file of this pass with its content: it goes under its category
    /// folder, inside an age subfolder when it has an age bucket.
    Place { category: Category, bucket: Option<AgeBucket> },
}

/// The decision for a digest against the digests already seen: a known digest
/// marks a duplicate, a fresh one is placed by extension and age.
pub open spec fn spec_decision_for(
    seen: Seq<Seq<char>>,
    digest: Seq<char>,
    name: Seq<char>,
    now: int,
    modified: int,
) -> Decision {
    if seen.contains(digest) {
        Decision::Duplicate
    } else {
        Decision::Place {
            category: spec_category_of_name(name),
            bucket: spec_age_bucket(now, modified),
        }
    }
}

/// State of one organization pass: the digests seen so far (pairwise
/// distinct, since a digest is inserted at most once per pass) and the time
/// the whole pass is judged against.
pub struct Pass {
    seen: Vec<String>,
    now_secs: i64,
}

impl Pass {
    /// The digests inserted so far, in insertion order.
    pub closed spec fn seen_digests(self) -> Seq<Seq<char>> {
        self.seen@.map_values(|d: String| d@)
    }

    /// The moment this pass judges file ages against.
    pub closed spec fn now(self) -> int {
        self.now_secs as int
    }

    /// A digest is inserted at most once per pass.
    pub open spec fn wf(self) -> bool {
        forall|i: int, j: int|
            0 <= i < j < self.seen_digests().len() ==> self.seen_digests()[i]
                != self.seen_digests()[j]
    }

    /// A fresh pass: no digest seen yet, ages judged against `now_secs`.
    pub fn new(now_secs: i64) -> (p: Pass)
        ensures
            p.wf(),
            p.seen_digests() == Seq::<Seq<char>>::empty(),
            p.now() == now_secs as int,
    {
        let p = Pass { seen: Vec::new(), now_secs };
        proof {
            assert(p.seen_digests() =~= Seq::<Seq<char>>::empty());
        }
        p
    }

    /// Whether this pass has already seen the digest.
    fn contains_digest(&self, digest: &str) -> (r: bool)
        ensures
            r == self.seen_digests().contains(digest@),
    {
        let mut i: usize = 0;
        while i < self.seen.len()
            invariant
                i <= self.seen@.len(),
                forall|j: int| 0 <= j < i ==> self.seen_digests()[j] != digest@,
            decreases self.seen@.len() - i,
        {
            if str_eq(self.seen[i].as_str(), digest) {
                proof {
                    assert(self.seen_digests()[i as int] == digest@);
                }
                return true;
            }
            i = i + 1;
        }
        proof {
            assert forall|j: int| 0 <= j < self.seen_digests().len() implies self.seen_digests()[j]
                != digest@ by {}
        }
        false
    }

    /// Decide the destination of one hash result and record its digest.
    ///
    /// A digest already seen in this pass marks the file as a duplicate and
    /// leaves the seen set unchanged; a fresh digest is recorded, and the file
    /// is placed by its extension's category and its age bucket.
    pub fn process(&mut self, digest: String, name: &str, modified_secs: i64) -> (d: Decision)
        requires
            old(self).wf(),
        ensures
            final(self).wf(),
            final(self).now() == old(self).now(),
            d == spec_decision_for(
                old(self).seen_digests(),
                digest@,
                name@,
                old(self).now(),
                modified_secs as int,
            ),
            old(self).seen_digests().contains(digest@) ==> final(self).seen_digests() == old(
                self,
            ).seen_digests(),
            !old(self).seen_digests().contains(digest@) ==> final(self).seen_digests() == old(
                self,
            ).seen_digests().push(digest@),
    {
        if self.contains_digest(digest.as_str()) {
            Decision::Duplicate
        } else {
            let ghost old_seen = self.seen_digests();
            let ghost dv = digest@;
            self.seen.push(digest);
            proof {
                assert(self.seen_digests() =~= old_seen.push(dv));
                assert forall|i: int, j: int|
                    0 <= i < j < self.seen_digests().len() implies self.seen_digests()[i]
                    != self.seen_digests()[j] by {
                    if j == self.seen_digests().len() - 1 {
                        assert(old_seen.contains(old_seen[i]));
                    }
                }
            }
            Decision::Place {
                category: category_of_name(name),
                bucket: classify_file_age(self.now_secs, modified_secs),
            }
        }
    }
}

/// Whether an earlier result of the same pass carries the same digest: the
/// condition under which a result is treated as a duplicate.
pub open spec fn spec_is_duplicate_at(results: Seq<HashResult>, i: int) -> bool {
    exists|j: int| 0 <= j < i && results[j].digest@ == results[i].digest@
}

/// The decision a pass over `results` reaches for the result at position `i`,
/// with ages judged at `now`.
pub open spec fn spec_pass_decision(results: Seq<HashResult>, now: int, i: int) -> Decision {
    if spec_is_duplicate_at(results, i) {
        Decision::Duplicate
    } else {
        Decision::Place {
            category: spec_category_of_name(results[i].name@),
            bucket: spec_age_bucket(now, results[i].modified_secs as int),
        }
    }
}

/// Decide the destination of every result of one pass, in arrival order: the
/// first result with each digest is placed, every later one is a duplicate.
pub fn plan_pass(now_secs: i64, results: &Vec<HashResult>) -> (plan: Vec<Decision>)
    ensures
        plan@.len() == results@.len(),
        forall|i: int|
            0 <= i < results@.len() ==> plan@[i] == spec_pass_decision(
                results@,
                now_secs as int,
                i,
            ),
{
    let mut pass = Pass::new(now_secs);
    let mut plan: Vec<Decision> = Vec::new();
    let mut k: usize = 0;
    while k < results.len()
        invariant
            k <= results@.len(),
            pass.wf(),
            pass.now() == now_secs as int,
            plan@.len() == k,
            forall|i: int|
                0 <= i < k ==> plan@[i] == spec_pass_decision(results@, now_secs as int, i),
            forall|j: int|
                0 <= j < k ==> pass.seen_digests().contains(#[trigger] results@[j].digest@),
            forall|i: int|
                0 <= i < pass.seen_digests().len() ==> exists|j: int|
                    0 <= j < k && results@[j].digest@ == #[trigger] pass.seen_digests()[i],
        decreases results@.len() - k,
    {
        let res = &results[k];
        let ghost pre_seen = pass.seen_digests();
        proof {
            if pre_seen.contains(res.digest@) {
                assert(spec_is_duplicate_at(results@, k as int));
            }
            if spec_is_duplicate_at(results@, k as int) {
                let j = choose|j: int|
                    0 <= j < k && results@[j].digest@ == results@[k as int].digest@;
                assert(pre_seen.contains(results@[j].digest@));
            }
        }
        let d = pass.process(res.digest.clone(), res.name.as_str(), res.modified_secs);
        plan.push(d);
        proof {
            if !spec_is_duplicate_at(results@, k as int) {
                assert(pass.seen_digests() == pre_seen.push(results@[k as int].digest@));
                assert forall|j: int| 0 <= j < k + 1 implies pass.seen_digests().contains(
                    #[trigger] results@[j].digest@,
                ) by {
                    if j < k {
                        let m = choose|m: int|
                            0 <= m < pre_seen.len() && pre_seen[m] == results@[j].digest@;
                        assert(pass.seen_digests()[m] == results@[j].digest@);
                    } else {
                        assert(pass.seen_digests().last() == results@[j].digest@);
                    }
                }
            }
        }
        k = k + 1;
    }
    plan
}

/// For each group of results sharing one digest, exactly the earliest one is
/// placed in its category folder and every later one is marked a duplicate —
/// whichever order the group arrived in. Stated here for a whole pass whose
/// results are all byte-identical: the first is placed, the other N−1 are
/// duplicates.
pub proof fn lemma_duplicate_resolution(results: Seq<HashResult>, now: int)
    requires
        results.len() > 0,
        forall|i: int, j: int|
            0 <= i < results.len() && 0 <= j < results.len() ==> results[i].digest@
                == results[j].digest@,
    ensures
        spec_pass_decision(results, now, 0) matches Decision::Place { .. },
        forall|i: int| 1 <= i < results.len() ==> spec_pass_decision(results, now, i)
            == Decision::Duplicate,
{
    assert(!spec_is_duplicate_at(results, 0));
    assert forall|i: int| 1 <= i < results.len() implies spec_pass_decision(results, now, i)
        == Decision::Duplicate by {
        assert(results[0].digest@ == results[i].digest@);
    }
}

proof fn lemma_first_occurrence(results: Seq<HashResult>, i: int) -> (w: int)
    requires
        0 <= i < results.len(),
    ensures
        0 <= w <= i,
        results[w].digest@ == results[i].digest@,
        forall|j: int| 0 <= j < w ==> results[j].digest@ != results[i].digest@,
    decreases i,
{
    if spec_is_duplicate_at(results, i) {
        let j = choose|j: int| 0 <= j < i && results[j].digest@ == results[i].digest@;
        lemma_first_occurrence(results, j)
    } else {
        i
    }
}

/// Duplicate resolution in general: among all results of one pass that share
/// a content digest, exactly one — the earliest to arrive — is placed in its
/// category folder, and every other one is sent to `duplicates`, whatever
/// order the group arrived in. The returned index is that one winner for the
/// group of the result at `i`.
pub proof fn lemma_exactly_one_placed_per_content(
    results: Seq<HashResult>,
    now: int,
    i: int,
) -> (w: int)
    requires
        0 <= i < results.len(),
    ensures
        0 <= w <= i,
        results[w].digest@ == results[i].digest@,
        spec_pass_decision(results, now, w) matches Decision::Place { .. },
        forall|k: int|
            0 <= k < results.len() && results[k].digest@ == results[i].digest@ && k != w
                ==> spec_pass_decision(results, now, k) == Decision::Duplicate,
{
    let w = lemma_first_occurrence(results, i);
    assert(!spec_is_duplicate_at(results, w));
    assert forall|k: int|
        0 <= k < results.len() && results[k].digest@ == results[i].digest@ && k != w
        implies spec_pass_decision(results, now, k) == Decision::Duplicate by {
        assert(k > w);
        assert(results[w].digest@ == results[k].digest@);
        assert(spec_is_duplicate_at(results, k));
    }
    w
}

/// A result is marked a duplicate exactly when some earlier result of the
/// same pass carries the same digest: the first arrival with a digest always
/// wins, whatever the arrival order.
pub proof fn lemma_first_arrival_wins(results: Seq<HashResult>, now: int, i: int)
    requires
        0 <= i < results.len(),
    ensures
        (spec_pass_decision(results, now, i) == Decision::Duplicate) <==> spec_is_duplicate_at(
            results,
            i,
        ),
{
}

/// Destination of a decision, as path segments under the organized root: the
/// `duplicates` folder, or a category folder with an optional age subfolder.
pub open spec fn spec_destination(d: Decision) -> Seq<Seq<char>> {
    match d {
        Decision::Duplicate => seq!["duplicates"@],
        Decision::Place { category, bucket } => match bucket {
            Some(b) => seq![spec_category_folder(category), spec_bucket_folder(b)],
            None => seq![spec_category_folder(category)],
        },
    }
}

/// Destination folder segments of a decision, relative to the organized root.
pub fn destination_segments(d: &Decision) -> (r: Vec<String>)
    ensures
        r@.map_values(|s: String| s@) == spec_destination(*d),
{
    let mut r: Vec<String> = Vec::new();
    match *d {
        Decision::Duplicate => {
            r.push("duplicates".to_owned());
        },
        Decision::Place { category, bucket } => {
            r.push(category_folder(category));
            match bucket {
                Some(b) => {
                    r.push(bucket_folder(b));
                },
                None => {},
            }
        },
    }
    proof {
        assert(r@.map_values(|s: String| s@) =~= spec_destination(*d));
    }
    r
}

/// The Relocator's overwrite guard: a move is performed exactly when the
/// destination does not already hold a file of the same name. An occupied
/// destination makes the move a no-op — never an overwrite, never an error —
/// which is what makes a repeated pass over an already-organized directory
/// safe.
pub fn should_move(destination_exists: bool) -> (r: bool)
    ensures
        r == !destination_exists,
{
    !destination_exists
}

/// Relies on `num_cpus::get`: the number of available logical processors,
/// which is always at least one.
#[verifier::external_body]
fn available_processors() -> (n: usize)
    ensures
        n >= 1,
{
    num_cpus::get()
}

/// Default size of the hashing worker pool: one worker per available
/// processor, and never less than the one worker the pool requires.
pub fn default_worker_count() -> (n: usize)
    ensures
        n >= 1,
{
    available_processors()
}

/// Relies on `chrono::Local::now` and `chrono::DateTime::timestamp`: the
/// current moment, in whole seconds since the Unix epoch. Nothing is assumed
/// about the value, since it depends on the clock.
#[verifier::external_body]
fn current_unix_seconds() -> i64 {
    chrono::Local::now().timestamp()
}

/// A fresh pass whose file ages are judged against the wall clock of this
/// moment, as one organization run judges them.
pub fn begin_pass() -> (p: Pass)
    ensures
        p.wf(),
        p.seen_digests() == Seq::<Seq<char>>::empty(),
{
    let now = current_unix_seconds();
    Pass::new(now)
}

} // verus!
