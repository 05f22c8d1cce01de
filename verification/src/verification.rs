//! The verification sweep: compare each stored object's expected hash (its
//! own folder name, which the store's invariant makes a truncated content
//! hash) against a freshly computed remote hash.  The sweep never stops at
//! the first mismatch: it scans the whole selection, then reports all
//! failing entries at once.

use vstd::prelude::*;
use vstd::string::StrSliceExecFns;
use vstd::string::StringExecFns;
use crate::errors::StoreError;
use crate::file_listing::RemotePath;
use crate::hashing::hash_token_of;

verus! {

/// The result of verifying one stored object.
pub enum VerifyOutcome {
    /// Expected and actual hash agree.
    Verified,
    /// They differ: the token the folder name promises and the token the
    /// remote content hashes to.
    Mismatch { expected: String, actual: String },
}

impl VerifyOutcome {
    /// Whether this outcome reports agreement.
    pub fn is_verified(&self) -> (r: bool)
        ensures
            r == (self is Verified),
    {
        match self {
            VerifyOutcome::Verified => true,
            VerifyOutcome::Mismatch { .. } => false,
        }
    }
}

/// The outcome one entry earns: `Verified` exactly when the expected and
/// the actual token agree, a recorded mismatch otherwise.
pub open spec fn outcome_ok(expected: Seq<char>, actual: Seq<char>) -> bool {
    expected == actual
}

/// The expected hash token of a stored object: its folder name.  The store
/// is self-describing: at upload time the folder was named by the content's
/// truncated hash, at the folder name's own length.
pub fn expected_token(entry: &RemotePath) -> (r: String)
    ensures
        r@ == entry.folder@,
{
    entry.folder.clone()
}

/// The hash length to verify a stored object at: the character length of
/// its own folder name, clamped into the accepted range.  It is re-derived
/// per entry, so the digest algorithm the threshold selects always matches
/// the one that named the folder.
pub fn expected_length(entry: &RemotePath) -> (r: u8)
    ensures
        r as int == if entry.folder@.len() > 64 {
            64int
        } else if entry.folder@.len() < 1 {
            1int
        } else {
            entry.folder@.len() as int
        },
        crate::hashing::hash_len_valid(r),
{
    let len = entry.folder.as_str().unicode_len();
    if len > 64 {
        64
    } else if len < 1 {
        1
    } else {
        len as u8
    }
}

/// Compare expected against actual hash tokens, entry by entry.  The whole
/// selection is scanned; nothing short-circuits.
pub fn verify_outcomes(expected: &Vec<String>, actual: &Vec<String>) -> (r: Vec<VerifyOutcome>)
    requires
        expected@.len() == actual@.len(),
    ensures
        r@.len() == expected@.len(),
        forall|k: int|
            0 <= k < r@.len() ==> ((#[trigger] r@[k] is Verified) <==> outcome_ok(
                expected@[k]@,
                actual@[k]@,
            )),
        forall|k: int|
            0 <= k < r@.len() ==> ((#[trigger] r@[k]) matches VerifyOutcome::Mismatch {
                expected: e,
                actual: a,
            } ==> e@ == expected@[k]@ && a@ == actual@[k]@),
    {
    let mut r: Vec<VerifyOutcome> = Vec::new();
    let mut k: usize = 0;
    while k < expected.len()
        invariant
            k <= expected@.len(),
            expected@.len() == actual@.len(),
            r@.len() == k as int,
            forall|w: int|
                0 <= w < k ==> ((#[trigger] r@[w] is Verified) <==> outcome_ok(
                    expected@[w]@,
                    actual@[w]@,
                )),
            forall|w: int|
                0 <= w < k ==> ((#[trigger] r@[w]) matches VerifyOutcome::Mismatch {
                    expected: e,
                    actual: a,
                } ==> e@ == expected@[w]@ && a@ == actual@[w]@),
        decreases expected@.len() - k,
    {
        let e = &expected[k];
        let a = &actual[k];
        if *e == *a {
            r.push(VerifyOutcome::Verified);
        } else {
            r.push(VerifyOutcome::Mismatch { expected: e.clone(), actual: a.clone() });
        }
        k = k + 1;
    }
    r
}

/// How many of the first `k` outcomes report a mismatch.
pub open spec fn mismatch_count(outcomes: Seq<VerifyOutcome>, k: int) -> int
    decreases k,
{
    if k <= 0 {
        0
    } else {
        mismatch_count(outcomes, k - 1) + if outcomes[k - 1] is Verified {
            0int
        } else {
            1int
        }
    }
}

/// No more outcomes can mismatch than there are outcomes, and none
/// mismatch exactly when every entry verified.
proof fn lemma_mismatch_count_bounds(outcomes: Seq<VerifyOutcome>, k: int)
    requires
        k >= 0,
    ensures
        0 <= mismatch_count(outcomes, k) <= k,
        mismatch_count(outcomes, k) == 0 <==> (forall|w: int|
            0 <= w < k ==> #[trigger] outcomes[w] is Verified),
    decreases k,
{
    if k > 0 {
        lemma_mismatch_count_bounds(outcomes, k - 1);
    }
}

/// Close the sweep: succeed only when every entry verified, and report the
/// number of failing entries otherwise.
pub fn verify_report(outcomes: &Vec<VerifyOutcome>) -> (r: Result<(), StoreError>)
    ensures
        r is Ok <==> forall|w: int| 0 <= w < outcomes@.len() ==> #[trigger] outcomes@[w] is Verified,
        r is Err ==> (r->Err_0 matches StoreError::VerificationMismatch { failed } && failed
            == mismatch_count(outcomes@, outcomes@.len() as int)),
{
    let mut failed: usize = 0;
    let mut k: usize = 0;
    while k < outcomes.len()
        invariant
            k <= outcomes@.len(),
            failed as int == mismatch_count(outcomes@, k as int),
        decreases outcomes@.len() - k,
    {
        proof {
            lemma_mismatch_count_bounds(outcomes@, k as int);
        }
        if !outcomes[k].is_verified() {
            failed = failed + 1;
        }
        k = k + 1;
    }
    proof {
        lemma_mismatch_count_bounds(outcomes@, outcomes@.len() as int);
    }
    if failed == 0 {
        Ok(())
    } else {
        Err(StoreError::VerificationMismatch { failed })
    }
}

/// Split paths into remote hashing batches of at most `size` each, keeping
/// order: every batch but the last is full.
pub fn chunk_paths(paths: &Vec<String>, size: usize) -> (r: Vec<Vec<String>>)
    requires
        size > 0,
    ensures
        flatten_view(r.deep_view()) == paths.deep_view(),
        forall|b: int| 0 <= b < r@.len() ==> 0 < (#[trigger] r.deep_view()[b]).len() <= size,
        forall|b: int| 0 <= b < r@.len() - 1 ==> (#[trigger] r.deep_view()[b]).len() == size,
{
    let mut r: Vec<Vec<String>> = Vec::new();
    let mut batch: Vec<String> = Vec::new();
    let mut k: usize = 0;
    proof {
        assert(flatten_view(r.deep_view()) =~~= Seq::<Seq<char>>::empty());
        assert(paths.deep_view().take(0) =~~= Seq::<Seq<char>>::empty());
    }
    while k < paths.len()
        invariant
            k <= paths@.len(),
            batch@.len() < size,
            flatten_view(r.deep_view()) + batch.deep_view() == paths.deep_view().take(k as int),
            forall|b: int| 0 <= b < r@.len() ==> (#[trigger] r.deep_view()[b]).len() == size,
        decreases paths@.len() - k,
    {
        let ghost batch_before = batch.deep_view();
        let cloned = paths[k].clone();
        proof {
            assert(cloned.deep_view() == paths.deep_view()[k as int]);
        }
        batch.push(cloned);
        k = k + 1;
        proof {
            let flat = flatten_view(r.deep_view());
            let item = paths.deep_view()[k - 1];
            assert(batch.deep_view() =~~= batch_before.push(item));
            assert(flat + batch_before == paths.deep_view().take(k - 1));
            assert(paths.deep_view().take(k as int) =~~= paths.deep_view().take(k - 1).push(item));
            assert(flat + batch_before.push(item) =~~= (flat + batch_before).push(item));
            assert(flatten_view(r.deep_view()) + batch.deep_view() =~~= paths.deep_view().take(
                k as int,
            ));
        }
        if batch.len() == size {
            let full = batch;
            batch = Vec::new();
            let ghost r_before = r.deep_view();
            r.push(full);
            proof {
                lemma_flatten_push(r_before, r.deep_view());
                assert(batch.deep_view() =~~= Seq::<Seq<char>>::empty());
                assert(flatten_view(r.deep_view()) + batch.deep_view() =~~= paths.deep_view().take(
                    k as int,
                ));
                assert forall|b: int| 0 <= b < r@.len() implies (#[trigger] r.deep_view()[b]).len()
                    == size by {
                    if b < r@.len() - 1 {
                        assert(r.deep_view()[b] == r_before[b]);
                    }
                }
            }
        }
    }
    proof {
        assert(paths.deep_view().take(k as int) =~~= paths.deep_view());
    }
    if batch.len() > 0 {
        let ghost r_before = r.deep_view();
        r.push(batch);
        proof {
            lemma_flatten_push(r_before, r.deep_view());
            assert forall|b: int| 0 <= b < r@.len() implies 0 < (#[trigger] r.deep_view()[b]).len()
                <= size by {
                if b < r@.len() - 1 {
                    assert(r.deep_view()[b] == r_before[b]);
                }
            }
            assert forall|b: int|
                0 <= b < r@.len() - 1 implies (#[trigger] r.deep_view()[b]).len() == size by {
                assert(r.deep_view()[b] == r_before[b]);
            }
        }
    }
    proof {
        assert(flatten_view(r.deep_view()) =~~= paths.deep_view());
    }
    r
}

/// All batches, joined back in order.
pub open spec fn flatten_view(batches: Seq<Seq<Seq<char>>>) -> Seq<Seq<char>>
    decreases batches.len(),
{
    if batches.len() == 0 {
        Seq::empty()
    } else {
        flatten_view(batches.drop_last()) + batches.last()
    }
}

/// Joining one more batch appends its paths.
proof fn lemma_flatten_push(before: Seq<Seq<Seq<char>>>, after: Seq<Seq<Seq<char>>>)
    requires
        after.len() == before.len() + 1,
        forall|b: int| 0 <= b < before.len() ==> after[b] == #[trigger] before[b],
    ensures
        flatten_view(after) == flatten_view(before) + after.last(),
{
    assert(after.drop_last() =~~= before);
}

/// An untouched stored object always verifies: the remote side hashes the
/// same content at the folder name's length, so the actual token equals
/// the expected one, whatever that content is.
pub proof fn lemma_untouched_entry_verifies(content: Seq<u8>, length: u8)
    ensures
        outcome_ok(hash_token_of(content, length), hash_token_of(content, length)),
{
}

/// An altered stored object never verifies as long as its new content
/// hashes to a different token; the mismatch records the original expected
/// token and the new actual one.
pub proof fn lemma_altered_entry_mismatches(original: Seq<u8>, altered: Seq<u8>, length: u8)
    requires
        hash_token_of(original, length) != hash_token_of(altered, length),
    ensures
        !outcome_ok(hash_token_of(original, length), hash_token_of(altered, length)),
{
}

} // verus!
