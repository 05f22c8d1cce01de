//! The catalog of remotely stored objects and the selection pipeline over
//! it.  A listing is a snapshot: every stored object appears once, under a
//! stable positional index, and a selection is an ordered, duplicate-free
//! subset of those indices, grown and reshaped by chained operations.

use vstd::prelude::*;
use vstd::seq_lib::*;
use vstd::string::StringExecFns;
use crate::errors::StoreError;
use crate::hashing::{get_hash, hash_len_valid, hash_token_of, prefix_chars};

verus! {

/// A stored object's path relative to the store root: the hash-named
/// folder, then the chosen file name.
pub struct RemotePath {
    pub folder: String,
    pub name: String,
}

impl RemotePath {
    pub fn new(folder: String, name: String) -> (r: Self)
        ensures
            r.folder == folder,
            r.name == name,
    {
        RemotePath { folder, name }
    }
}

impl Clone for RemotePath {
    fn clone(&self) -> (r: Self)
        ensures
            r.folder@ == self.folder@,
            r.name@ == self.name@,
    {
        RemotePath { folder: self.folder.clone(), name: self.name.clone() }
    }
}

/// Remote metadata of one stored object: size in bytes and modification
/// time in epoch seconds.
#[derive(Clone, Copy, PartialEq, Eq, Structural, Debug)]
pub struct FileStat {
    pub size: u64,
    pub mtime: u64,
}

/// A local file handed to the selection pipeline: a display name and the
/// bytes of its content.
pub struct LocalFile {
    pub name: String,
    pub content: Vec<u8>,
}

/// An ordered selection of indices, first occurrences kept.
pub open spec fn sel_dedup(s: Seq<usize>) -> Seq<usize> {
    s.remove_duplicates(Seq::empty())
}

/// Where a signed index points in a catalog of `n` entries: negative values
/// count from the end.
pub open spec fn resolved_index(raw: i64, n: int) -> int {
    if raw < 0 {
        n + raw
    } else {
        raw as int
    }
}

/// Whether a signed index is inside `[-n, n)`.
pub open spec fn raw_index_ok(raw: i64, n: int) -> bool {
    -n <= raw < n
}

/// All signed indices of a batch, resolved against a catalog of `n`
/// entries.
pub open spec fn resolved_all(raws: Seq<i64>, n: int) -> Seq<usize> {
    raws.map_values(|raw: i64| resolved_index(raw, n) as usize)
}

/// The indices `0, 1, .., n-1`.
pub open spec fn all_indices(n: int) -> Seq<usize> {
    Seq::new(n as nat, |i: int| i as usize)
}

/// A snapshot of the remote store with a selection over it.
///
/// `num_files` is the catalog size; `indices` is the current selection, an
/// ordered duplicate-free list of catalog indices; `stats` is the memoized
/// per-entry metadata once it has been fetched.
pub struct FileListing {
    pub num_files: usize,
    pub all_files: Vec<RemotePath>,
    pub indices: Vec<usize>,
    pub stats: Option<Vec<Option<FileStat>>>,
}

impl FileListing {
    /// The catalog: entry `i` of this sequence is the stored object with
    /// index `i`.
    pub open spec fn catalog(&self) -> Seq<RemotePath> {
        self.all_files@
    }

    /// Everything the pipeline maintains: the catalog size, index bounds,
    /// a duplicate-free selection, and stats that cover the selection once
    /// fetched.
    pub open spec fn wf(&self) -> bool {
        &&& self.num_files == self.catalog().len()
        &&& self.num_files <= 0x7fff_ffff_ffff_ffffu64
        &&& forall|k: int|
            0 <= k < self.indices@.len() ==> #[trigger] self.indices@[k] < self.num_files
        &&& self.indices@.no_duplicates()
        &&& match self.stats {
            Some(st) => st@.len() == self.num_files,
            None => true,
        }
    }

    /// Whether fetched stats cover every currently selected index.  The
    /// operations that read sizes or times demand this; it holds from the
    /// point stats are provided, for every later shrinking or reordering of
    /// the selection.
    pub open spec fn stats_cover(&self) -> bool {
        match self.stats {
            Some(st) => forall|k: int|
                0 <= k < self.indices@.len() ==> #[trigger] st@[self.indices@[k] as int] is Some,
            None => false,
        }
    }

    /// Build the catalog from the listed relative paths, in listing order
    /// (the remote site lists oldest first).  The selection starts empty.
    pub fn new(files: Vec<RemotePath>) -> (r: Self)
        requires
            files@.len() <= 0x7fff_ffff_ffff_ffffu64,
        ensures
            r.wf(),
            r.catalog() == files@,
            r.num_files == files@.len(),
            r.indices@ == Seq::<usize>::empty(),
            r.stats is None,
    {
        let num_files = files.len();
        let r = FileListing { num_files, all_files: files, indices: Vec::new(), stats: None };
        proof {
            assert(r.indices@ =~= Seq::<usize>::empty());
        }
        r
    }

    /// The stored object at a catalog index.
    pub fn path_at(&self, idx: usize) -> (r: &RemotePath)
        requires
            idx < self.catalog().len(),
        ensures
            *r == self.catalog()[idx as int],
    {
        &self.all_files[idx]
    }

    /// Count of currently selected files.
    pub fn count(&self) -> (r: usize)
        ensures
            r == self.indices@.len(),
    {
        self.indices.len()
    }

    /// Whether stats have been fetched for this selection.
    pub fn has_stats(&self) -> (r: bool)
        ensures
            r == self.stats is Some,
    {
        self.stats.is_some()
    }

    /// Select all files with the given signed indices.
    ///
    /// Negative indices count from the end of the catalog.  Every index
    /// must lie in `[-N, N)`; otherwise the call fails with `InvalidIndex`
    /// and selects nothing.  Resolved indices are appended to the current
    /// selection, first occurrences kept.  An empty batch changes nothing.
    pub fn by_indices(self, indices: &Vec<i64>) -> (r: Result<Self, StoreError>)
        requires
            self.wf(),
        ensures
            r is Ok <==> forall|k: int|
                0 <= k < indices@.len() ==> raw_index_ok(
                    #[trigger] indices@[k],
                    self.num_files as int,
                ),
            r is Err ==> (r->Err_0 matches StoreError::InvalidIndex { index } && indices@.contains(
                index,
            ) && !raw_index_ok(index, self.num_files as int)),
            r is Ok ==> {
                let out = r->Ok_0;
                &&& out.wf()
                &&& out.catalog() == self.catalog()
                &&& out.num_files == self.num_files
                &&& out.stats == self.stats
                &&& out.indices@ == sel_dedup(
                    self.indices@ + resolved_all(indices@, self.num_files as int),
                )
            },
    {
        let n_signed: i64 = self.num_files as i64;
        let mut k: usize = 0;
        while k < indices.len()
            invariant
                k <= indices@.len(),
                n_signed == self.num_files as i64,
                self.num_files <= 0x7fff_ffff_ffff_ffffu64,
                forall|j: int| 0 <= j < k ==> raw_index_ok(#[trigger] indices@[j], n_signed as int),
            decreases indices@.len() - k,
        {
            let raw = indices[k];
            if raw < -n_signed || raw >= n_signed {
                return Err(StoreError::InvalidIndex { index: raw });
            }
            k = k + 1;
        }
        let mut combined = self.indices;
        let ghost sel0 = combined@;
        let mut k: usize = 0;
        while k < indices.len()
            invariant
                k <= indices@.len(),
                n_signed == self.num_files as i64,
                self.num_files <= 0x7fff_ffff_ffff_ffffu64,
                forall|j: int|
                    0 <= j < indices@.len() ==> raw_index_ok(#[trigger] indices@[j], n_signed as int),
                combined@ == sel0 + resolved_all(indices@.take(k as int), n_signed as int),
            decreases indices@.len() - k,
        {
            let raw = indices[k];
            let resolved: usize = if raw < 0 {
                (n_signed + raw) as usize
            } else {
                raw as usize
            };
            combined.push(resolved);
            k = k + 1;
            proof {
                assert(combined@ =~= sel0 + resolved_all(indices@.take(k as int), n_signed as int));
            }
        }
        proof {
            assert(indices@.take(k as int) =~= indices@);
        }
        let deduped = make_unique(combined);
        let out = FileListing {
            num_files: self.num_files,
            all_files: self.all_files,
            indices: deduped,
            stats: self.stats,
        };
        proof {
            let appended = resolved_all(indices@, self.num_files as int);
            lemma_sel_dedup_properties(sel0 + appended);
            assert forall|j: int| 0 <= j < out.indices@.len() implies #[trigger] out.indices@[j]
                < out.num_files by {
                let x = out.indices@[j];
                assert(out.indices@.contains(x));
                assert((sel0 + appended).contains(x));
                let w = choose|w: int| 0 <= w < (sel0 + appended).len() && (sel0 + appended)[w] == x;
                if w < sel0.len() {
                    assert(sel0[w] == x);
                } else {
                    assert(appended[w - sel0.len()] == x);
                    assert(raw_index_ok(indices@[w - sel0.len()], self.num_files as int));
                }
            }
        }
        Ok(out)
    }

    /// Select every catalog index if the flag is set.
    pub fn with_all(self, select_all: bool) -> (r: Self)
        requires
            self.wf(),
        ensures
            r.wf(),
            r.catalog() == self.catalog(),
            r.num_files == self.num_files,
            r.stats == self.stats,
            select_all ==> r.indices@ == sel_dedup(
                self.indices@ + all_indices(self.num_files as int),
            ),
            !select_all ==> r.indices@ == self.indices@,
    {
        if !select_all {
            return self;
        }
        let mut combined = self.indices;
        let ghost sel0 = combined@;
        let mut i: usize = 0;
        while i < self.num_files
            invariant
                i <= self.num_files,
                combined@ == sel0 + all_indices(i as int),
            decreases self.num_files - i,
        {
            combined.push(i);
            i = i + 1;
            proof {
                assert(combined@ =~= sel0 + all_indices(i as int));
            }
        }
        let deduped = make_unique(combined);
        let out = FileListing {
            num_files: self.num_files,
            all_files: self.all_files,
            indices: deduped,
            stats: self.stats,
        };
        proof {
            let appended = all_indices(self.num_files as int);
            lemma_sel_dedup_properties(sel0 + appended);
            assert forall|j: int| 0 <= j < out.indices@.len() implies #[trigger] out.indices@[j]
                < out.num_files by {
                let x = out.indices@[j];
                assert(out.indices@.contains(x));
                assert((sel0 + appended).contains(x));
                let w = choose|w: int| 0 <= w < (sel0 + appended).len() && (sel0 + appended)[w] == x;
                if w < sel0.len() {
                    assert(sel0[w] == x);
                } else {
                    assert(appended[w - sel0.len()] == x);
                }
            }
        }
        out
    }

    /// Select everything, but only when nothing has been selected so far
    /// and the flag is set.
    pub fn with_all_if_none(self, doit: bool) -> (r: Self)
        requires
            self.wf(),
        ensures
            r.wf(),
            r.catalog() == self.catalog(),
            r.num_files == self.num_files,
            r.stats == self.stats,
            doit && self.indices@.len() == 0 ==> r.indices@ == sel_dedup(
                self.indices@ + all_indices(self.num_files as int),
            ),
            !(doit && self.indices@.len() == 0) ==> r.indices@ == self.indices@,
    {
        if doit && self.indices.len() == 0 {
            self.with_all(true)
        } else {
            self
        }
    }

    /// Reverse the current selection order if the flag is set.
    pub fn revert(self, do_revert: bool) -> (r: Self)
        requires
            self.wf(),
        ensures
            r.wf(),
            r.catalog() == self.catalog(),
            r.num_files == self.num_files,
            r.stats == self.stats,
            do_revert ==> r.indices@ == self.indices@.reverse(),
            !do_revert ==> r.indices@ == self.indices@,
            self.stats_cover() ==> r.stats_cover(),
    {
        if !do_revert {
            return self;
        }
        let mut reversed: Vec<usize> = Vec::new();
        let total = self.indices.len();
        let mut i: usize = 0;
        while i < total
            invariant
                i <= total,
                total == self.indices@.len(),
                reversed@.len() == i as int,
                forall|j: int| 0 <= j < i ==> #[trigger] reversed@[j] == self.indices@[total - 1 - j],
            decreases total - i,
        {
            reversed.push(self.indices[total - 1 - i]);
            i = i + 1;
        }
        let out = FileListing {
            num_files: self.num_files,
            all_files: self.all_files,
            indices: reversed,
            stats: self.stats,
        };
        proof {
            assert(out.indices@ =~= self.indices@.reverse());
            assert forall|p: int, q: int|
                0 <= p < out.indices@.len() && 0 <= q < out.indices@.len() && p != q implies out.indices@[p]
                != out.indices@[q] by {
                assert(self.indices@[total - 1 - p] == out.indices@[p]);
                assert(self.indices@[total - 1 - q] == out.indices@[q]);
            }
        }
        out
    }

    /// Keep only the first `n` entries of the current order.
    pub fn first(self, n: Option<usize>) -> (r: Self)
        requires
            self.wf(),
        ensures
            r.wf(),
            r.catalog() == self.catalog(),
            r.num_files == self.num_files,
            r.stats == self.stats,
            match n {
                Some(limit) => r.indices@ == self.indices@.take(
                    if limit <= self.indices@.len() {
                        limit as int
                    } else {
                        self.indices@.len() as int
                    },
                ),
                None => r.indices@ == self.indices@,
            },
            self.stats_cover() ==> r.stats_cover(),
    {
        match n {
            None => self,
            Some(limit) => {
                let mut kept = self.indices;
                let ghost before = kept@;
                if limit < kept.len() {
                    kept.truncate(limit);
                }
                let out = FileListing {
                    num_files: self.num_files,
                    all_files: self.all_files,
                    indices: kept,
                    stats: self.stats,
                };
                proof {
                    let m = if limit <= before.len() {
                        limit as int
                    } else {
                        before.len() as int
                    };
                    assert(out.indices@ =~= before.take(m));
                    lemma_take_no_duplicates(before, m);
                }
                out
            },
        }
    }

    /// Keep only the last `n` entries of the current order.
    pub fn last(self, n: Option<usize>) -> (r: Self)
        requires
            self.wf(),
        ensures
            r.wf(),
            r.catalog() == self.catalog(),
            r.num_files == self.num_files,
            r.stats == self.stats,
            match n {
                Some(limit) => r.indices@ == self.indices@.skip(
                    if limit <= self.indices@.len() {
                        self.indices@.len() - limit as int
                    } else {
                        0
                    },
                ),
                None => r.indices@ == self.indices@,
            },
            self.stats_cover() ==> r.stats_cover(),
    {
        match n {
            None => self,
            Some(limit) => {
                let total = self.indices.len();
                let start: usize = if total > limit {
                    total - limit
                } else {
                    0
                };
                let mut kept: Vec<usize> = Vec::new();
                let mut i: usize = start;
                while i < total
                    invariant
                        start <= i <= total,
                        total == self.indices@.len(),
                        kept@ == self.indices@.subrange(start as int, i as int),
                    decreases total - i,
                {
                    kept.push(self.indices[i]);
                    i = i + 1;
                    proof {
                        assert(kept@ =~= self.indices@.subrange(start as int, i as int));
                    }
                }
                let out = FileListing {
                    num_files: self.num_files,
                    all_files: self.all_files,
                    indices: kept,
                    stats: self.stats,
                };
                proof {
                    assert(out.indices@ =~= self.indices@.skip(start as int));
                    lemma_skip_no_duplicates(self.indices@, start as int);
                }
                out
            },
        }
    }
}

/// Remove duplicate indices, keeping each first occurrence in place.
fn make_unique(indices: Vec<usize>) -> (r: Vec<usize>)
    ensures
        r@ == sel_dedup(indices@),
{
    let mut out: Vec<usize> = Vec::new();
    let mut i: usize = 0;
    proof {
        assert(indices@.take(0) =~= Seq::<usize>::empty());
        assert(Seq::<usize>::empty().remove_duplicates(Seq::empty()) =~= Seq::<usize>::empty());
    }
    while i < indices.len()
        invariant
            i <= indices@.len(),
            out@ == sel_dedup(indices@.take(i as int)),
        decreases indices@.len() - i,
    {
        let x = indices[i];
        let ghost prefix = indices@.take(i as int);
        proof {
            lemma_sel_dedup_properties(prefix);
            prefix.lemma_remove_duplicates_append(x, Seq::empty());
            assert(prefix + seq![x] =~= indices@.take(i + 1));
            assert((prefix + Seq::<usize>::empty()).contains(x) <==> prefix.contains(x)) by {
                assert(prefix + Seq::<usize>::empty() =~= prefix);
            }
        }
        if !contains_index(&out, x) {
            out.push(x);
        }
        i = i + 1;
    }
    proof {
        assert(indices@.take(i as int) =~= indices@);
    }
    out
}

/// Whether a vector of indices holds the given one.
fn contains_index(v: &Vec<usize>, x: usize) -> (r: bool)
    ensures
        r == v@.contains(x),
{
    let mut i: usize = 0;
    while i < v.len()
        invariant
            i <= v@.len(),
            forall|j: int| 0 <= j < i ==> v@[j] != x,
        decreases v@.len() - i,
    {
        if v[i] == x {
            return true;
        }
        i = i + 1;
    }
    false
}

/// A deduplicated selection holds an index exactly when the raw list did,
/// and holds no index twice.
pub proof fn lemma_sel_dedup_properties(s: Seq<usize>)
    ensures
        forall|x: usize| s.contains(x) <==> #[trigger] sel_dedup(s).contains(x),
        sel_dedup(s).no_duplicates(),
{
    s.lemma_remove_duplicates_properties(Seq::empty());
    assert forall|x: usize| s.contains(x) <==> #[trigger] sel_dedup(s).contains(x) by {
        assert((s + Seq::<usize>::empty()).contains(x) <==> s.contains(x)) by {
            assert(s + Seq::<usize>::empty() =~= s);
        }
    }
    lemma_remove_duplicates_no_dup(s, Seq::empty());
}

/// Removing duplicates from any sequence, over a duplicate-free seen list,
/// yields a duplicate-free sequence.
proof fn lemma_remove_duplicates_no_dup(s: Seq<usize>, seen: Seq<usize>)
    requires
        seen.no_duplicates(),
    ensures
        s.remove_duplicates(seen).no_duplicates(),
    decreases s.len(),
{
    if s.len() == 0 {
    } else if seen.contains(s[0]) {
        lemma_remove_duplicates_no_dup(s.skip(1), seen);
    } else {
        let seen2 = seen + seq![s[0]];
        assert(seen2.no_duplicates()) by {
            assert forall|p: int, q: int|
                0 <= p < seen2.len() && 0 <= q < seen2.len() && p != q implies seen2[p]
                != seen2[q] by {
                if p < seen.len() && q < seen.len() {
                } else if p < seen.len() {
                    assert(seen[p] == seen2[p]);
                    assert(seen2[q] == s[0]);
                    assert(seen.contains(seen[p]));
                } else {
                    assert(seen2[p] == s[0]);
                    assert(seen[q] == seen2[q]);
                    assert(seen.contains(seen[q]));
                }
            }
        }
        lemma_remove_duplicates_no_dup(s.skip(1), seen2);
    }
}

/// A deduplicated sequence that was already duplicate-free stays as it is.
pub proof fn lemma_sel_dedup_of_nodup(s: Seq<usize>)
    requires
        s.no_duplicates(),
    ensures
        sel_dedup(s) == s,
{
    lemma_remove_duplicates_of_nodup(s, Seq::empty());
    assert(Seq::<usize>::empty() + s =~= s);
}

/// Deduplication appends exactly the fresh elements of a duplicate-free
/// sequence to the seen list.
proof fn lemma_remove_duplicates_of_nodup(s: Seq<usize>, seen: Seq<usize>)
    requires
        s.no_duplicates(),
        forall|j: int| 0 <= j < s.len() ==> !seen.contains(#[trigger] s[j]),
    ensures
        s.remove_duplicates(seen) == seen + s,
    decreases s.len(),
{
    if s.len() == 0 {
        assert(seen + s =~= seen);
    } else {
        let seen2 = seen + seq![s[0]];
        let rest = s.skip(1);
        assert forall|j: int| 0 <= j < rest.len() implies !seen2.contains(#[trigger] rest[j]) by {
            assert(rest[j] == s[j + 1]);
            if seen2.contains(rest[j]) {
                let w = choose|w: int| 0 <= w < seen2.len() && seen2[w] == rest[j];
                if w < seen.len() {
                    assert(seen.contains(s[j + 1]));
                } else {
                    assert(s[0] == s[j + 1]);
                }
            }
        }
        lemma_remove_duplicates_of_nodup(rest, seen2);
        assert(seen2 + rest =~= seen + s);
    }
}

/// Deduplicating twice changes nothing beyond the first pass.
pub proof fn lemma_sel_dedup_idempotent(s: Seq<usize>)
    ensures
        sel_dedup(sel_dedup(s)) == sel_dedup(s),
{
    lemma_sel_dedup_properties(s);
    lemma_sel_dedup_of_nodup(sel_dedup(s));
}

/// A prefix of a duplicate-free sequence is duplicate-free.
proof fn lemma_take_no_duplicates(s: Seq<usize>, m: int)
    requires
        s.no_duplicates(),
        0 <= m <= s.len(),
    ensures
        s.take(m).no_duplicates(),
{
}

/// A suffix of a duplicate-free sequence is duplicate-free.
proof fn lemma_skip_no_duplicates(s: Seq<usize>, m: int)
    requires
        s.no_duplicates(),
        0 <= m <= s.len(),
    ensures
        s.skip(m).no_duplicates(),
{
}

/// The first position of an element in a sequence.
pub open spec fn first_pos(s: Seq<usize>, x: usize) -> int
    decreases s.len(),
{
    if s.len() == 0 {
        0
    } else if s[0] == x {
        0
    } else {
        1 + first_pos(s.skip(1), x)
    }
}

/// Where an element occurs, its first position is a real position: it is in
/// range, holds the element, and nothing before it does.
proof fn lemma_first_pos_found(s: Seq<usize>, x: usize)
    requires
        s.contains(x),
    ensures
        0 <= first_pos(s, x) < s.len(),
        s[first_pos(s, x)] == x,
        forall|j: int| 0 <= j < first_pos(s, x) ==> s[j] != x,
    decreases s.len(),
{
    if s[0] == x {
    } else {
        let rest = s.skip(1);
        assert(rest.contains(x)) by {
            let w = choose|w: int| 0 <= w < s.len() && s[w] == x;
            assert(rest[w - 1] == x);
        }
        lemma_first_pos_found(rest, x);
        assert forall|j: int| 0 <= j < first_pos(s, x) implies s[j] != x by {
            if j > 0 {
                assert(rest[j - 1] == s[j]);
            }
        }
    }
}

/// Extending a sequence to the right does not move the first position of
/// an element it already holds.
proof fn lemma_first_pos_extend(t: Seq<usize>, u: Seq<usize>, x: usize)
    requires
        t.contains(x),
    ensures
        first_pos(t + u, x) == first_pos(t, x),
    decreases t.len(),
{
    if t[0] == x {
        assert((t + u)[0] == x);
    } else {
        assert((t + u)[0] == t[0]);
        let rest = t.skip(1);
        assert(rest.contains(x)) by {
            let w = choose|w: int| 0 <= w < t.len() && t[w] == x;
            assert(rest[w - 1] == x);
        }
        lemma_first_pos_extend(rest, u, x);
        assert((t + u).skip(1) =~= rest + u);
    }
}

/// Appending a fresh element puts its first position at the end.
proof fn lemma_first_pos_appended(t: Seq<usize>, x: usize)
    requires
        !t.contains(x),
    ensures
        first_pos(t + seq![x], x) == t.len(),
    decreases t.len(),
{
    if t.len() == 0 {
        assert((t + seq![x])[0] == x);
    } else {
        assert(t[0] != x) by {
            assert(t.contains(t[0]) == false || true);
            if t[0] == x {
                assert(t.contains(x));
            }
        }
        assert((t + seq![x])[0] == t[0]);
        let rest = t.skip(1);
        assert(!rest.contains(x)) by {
            if rest.contains(x) {
                let w = choose|w: int| 0 <= w < rest.len() && rest[w] == x;
                assert(t[w + 1] == x);
                assert(t.contains(x));
            }
        }
        lemma_first_pos_appended(rest, x);
        assert((t + seq![x]).skip(1) =~= rest + seq![x]);
    }
}

/// Deduplication keeps first-seen order: in the deduplicated selection,
/// earlier entries first occurred earlier in the raw list.
pub proof fn lemma_sel_dedup_first_seen_order(s: Seq<usize>)
    ensures
        forall|p: int, q: int|
            0 <= p < q < sel_dedup(s).len() ==> first_pos(s, #[trigger] sel_dedup(s)[p])
                < first_pos(s, #[trigger] sel_dedup(s)[q]),
    decreases s.len(),
{
    if s.len() == 0 {
        assert(sel_dedup(s) =~= Seq::<usize>::empty());
    } else {
        let t = s.drop_last();
        let x = s.last();
        lemma_sel_dedup_first_seen_order(t);
        lemma_sel_dedup_properties(t);
        t.lemma_remove_duplicates_append(x, Seq::empty());
        assert(t + seq![x] =~= s);
        assert((t + Seq::<usize>::empty()) =~= t);
        if t.contains(x) {
            assert(sel_dedup(s) == sel_dedup(t));
            assert forall|p: int, q: int|
                0 <= p < q < sel_dedup(s).len() implies first_pos(s, #[trigger] sel_dedup(s)[p])
                < first_pos(s, #[trigger] sel_dedup(s)[q]) by {
                let ep = sel_dedup(t)[p];
                let eq = sel_dedup(t)[q];
                assert(sel_dedup(t).contains(ep));
                assert(sel_dedup(t).contains(eq));
                assert(t.contains(ep));
                assert(t.contains(eq));
                lemma_first_pos_extend(t, seq![x], ep);
                lemma_first_pos_extend(t, seq![x], eq);
            }
        } else {
            assert(sel_dedup(s) == sel_dedup(t) + seq![x]);
            assert forall|p: int, q: int|
                0 <= p < q < sel_dedup(s).len() implies first_pos(s, #[trigger] sel_dedup(s)[p])
                < first_pos(s, #[trigger] sel_dedup(s)[q]) by {
                if q < sel_dedup(t).len() {
                    let ep = sel_dedup(t)[p];
                    let eq = sel_dedup(t)[q];
                    assert(sel_dedup(s)[p] == ep);
                    assert(sel_dedup(s)[q] == eq);
                    assert(sel_dedup(t).contains(ep));
                    assert(sel_dedup(t).contains(eq));
                    assert(t.contains(ep));
                    assert(t.contains(eq));
                    lemma_first_pos_extend(t, seq![x], ep);
                    lemma_first_pos_extend(t, seq![x], eq);
                } else {
                    let ep = sel_dedup(t)[p];
                    assert(sel_dedup(s)[q] == x);
                    assert(sel_dedup(s)[p] == ep);
                    assert(sel_dedup(t).contains(ep));
                    assert(t.contains(ep));
                    lemma_first_pos_extend(t, seq![x], ep);
                    lemma_first_pos_found(t, ep);
                    lemma_first_pos_appended(t, x);
                }
            }
        }
    }
}

/// Selecting one in-range index from an empty selection selects exactly
/// that catalog entry; `-1` selects the last entry.
pub proof fn lemma_by_indices_singleton(n: int, raw: i64)
    requires
        n > 0,
        raw_index_ok(raw, n),
    ensures
        sel_dedup(Seq::<usize>::empty() + resolved_all(seq![raw], n)) == seq![
            resolved_index(raw, n) as usize,
        ],
        0 <= raw < n ==> resolved_index(raw, n) == raw as int,
        raw == -1 ==> resolved_index(raw, n) == n - 1,
{
    let resolved = resolved_all(seq![raw], n);
    assert(resolved =~= seq![resolved_index(raw, n) as usize]);
    let whole = Seq::<usize>::empty() + resolved;
    assert(whole =~= resolved);
    assert(resolved.no_duplicates());
    lemma_sel_dedup_of_nodup(resolved);
}

/// The compiled form of a filename filter, from the regex crate.
#[verifier::external_type_specification]
#[verifier::external_body]
pub struct ExRegex(regex::Regex);

/// The regex crate's compile error.
#[verifier::external_type_specification]
#[verifier::external_body]
pub struct ExRegexError(regex::Error);

/// Whether a pattern is a valid regular expression: compilation succeeds
/// exactly on these.
pub uninterp spec fn regex_valid(pattern: Seq<char>) -> bool;

/// The pattern a compiled regular expression was built from.
pub uninterp spec fn regex_chars(re: regex::Regex) -> Seq<char>;

/// Whether a pattern matches somewhere in a text.
pub uninterp spec fn regex_accepts(pattern: Seq<char>, text: Seq<char>) -> bool;

/// Relies on regex's Regex::new: compiling is a function of the pattern
/// alone, and the compiled value holds the pattern it was built from (its
/// as_str returns it).
#[verifier::external_body]
fn regex_new(pattern: &str) -> (r: Result<regex::Regex, regex::Error>)
    ensures
        r is Ok <==> regex_valid(pattern@),
        r is Ok ==> regex_chars(r->Ok_0) == pattern@,
{
    regex::Regex::new(pattern)
}

/// Relies on regex's Regex::is_match: whether the pattern matches anywhere
/// in the text, a function of pattern and text alone.
#[verifier::external_body]
fn regex_is_match(re: &regex::Regex, text: &str) -> (r: bool)
    ensures
        r == regex_accepts(regex_chars(*re), text@),
{
    re.is_match(text)
}

/// The catalog indices below `n` whose file name the pattern matches, in
/// catalog order.
pub open spec fn filter_matched(cat: Seq<RemotePath>, pattern: Seq<char>, n: int) -> Seq<usize>
    decreases n,
{
    if n <= 0 {
        Seq::empty()
    } else {
        let rest = filter_matched(cat, pattern, n - 1);
        if regex_accepts(pattern, cat[n - 1].name@) {
            rest.push((n - 1) as usize)
        } else {
            rest
        }
    }
}

/// Every index the filter picks lies below the bound it scanned to.
proof fn lemma_filter_matched_bound(cat: Seq<RemotePath>, pattern: Seq<char>, n: int)
    requires
        n >= 0,
    ensures
        forall|k: int|
            0 <= k < filter_matched(cat, pattern, n).len() ==> #[trigger] filter_matched(
                cat,
                pattern,
                n,
            )[k] < n,
    decreases n,
{
    if n > 0 {
        lemma_filter_matched_bound(cat, pattern, n - 1);
        let rest = filter_matched(cat, pattern, n - 1);
        assert forall|k: int|
            0 <= k < filter_matched(cat, pattern, n).len() implies #[trigger] filter_matched(
            cat,
            pattern,
            n,
        )[k] < n by {
            if regex_accepts(pattern, cat[n - 1].name@) {
                assert(filter_matched(cat, pattern, n) == rest.push((n - 1) as usize));
                if k < rest.len() {
                    assert(rest[k] < n - 1);
                }
            } else {
                assert(filter_matched(cat, pattern, n) == rest);
                assert(rest[k] < n - 1);
            }
        }
    }
}

/// Elements of a deduplicated concatenation come from one of its parts; in
/// particular a bound on both parts is a bound on the result.
proof fn lemma_sel_dedup_bound(a: Seq<usize>, b: Seq<usize>, n: usize)
    requires
        forall|k: int| 0 <= k < a.len() ==> #[trigger] a[k] < n,
        forall|k: int| 0 <= k < b.len() ==> #[trigger] b[k] < n,
    ensures
        forall|k: int| 0 <= k < sel_dedup(a + b).len() ==> #[trigger] sel_dedup(a + b)[k] < n,
        sel_dedup(a + b).no_duplicates(),
{
    lemma_sel_dedup_properties(a + b);
    assert forall|k: int| 0 <= k < sel_dedup(a + b).len() implies #[trigger] sel_dedup(a + b)[k]
        < n by {
        let x = sel_dedup(a + b)[k];
        assert(sel_dedup(a + b).contains(x));
        assert((a + b).contains(x));
        let w = choose|w: int| 0 <= w < (a + b).len() && (a + b)[w] == x;
        if w < a.len() {
            assert(a[w] == x);
        } else {
            assert(b[w - a.len()] == x);
        }
    }
}

impl FileListing {
    /// Select all files whose name matches the regular expression.
    ///
    /// Matching indices are appended in catalog order, first occurrences
    /// kept.  An absent filter changes nothing; an invalid pattern fails
    /// with `InvalidFilter`.
    pub fn by_filter(self, filter: Option<&str>) -> (r: Result<Self, StoreError>)
        requires
            self.wf(),
        ensures
            r is Ok <==> match filter {
                None => true,
                Some(pattern) => regex_valid(pattern@),
            },
            r is Err ==> (r->Err_0 matches StoreError::InvalidFilter { pattern } && filter is Some
                && pattern@ == filter->0@),
            r is Ok ==> {
                let out = r->Ok_0;
                &&& out.wf()
                &&& out.catalog() == self.catalog()
                &&& out.num_files == self.num_files
                &&& out.stats == self.stats
                &&& match filter {
                    None => out.indices@ == self.indices@,
                    Some(pattern) => out.indices@ == sel_dedup(
                        self.indices@ + filter_matched(
                            self.catalog(),
                            pattern@,
                            self.num_files as int,
                        ),
                    ),
                }
            },
    {
        let pattern = match filter {
            None => {
                return Ok(self);
            },
            Some(pattern) => pattern,
        };
        let re = match regex_new(pattern) {
            Ok(re) => re,
            Err(_) => {
                return Err(
                    StoreError::InvalidFilter { pattern: String::from_str(pattern) },
                );
            },
        };
        let mut additions: Vec<usize> = Vec::new();
        let mut i: usize = 0;
        while i < self.num_files
            invariant
                i <= self.num_files,
                self.wf(),
                regex_chars(re) == pattern@,
                additions@ == filter_matched(self.catalog(), pattern@, i as int),
            decreases self.num_files - i,
        {
            let entry = &self.all_files[i];
            if regex_is_match(&re, entry.name.as_str()) {
                additions.push(i);
            }
            i = i + 1;
        }
        let ghost sel0 = self.indices@;
        let mut combined = self.indices;
        combined.append(&mut additions);
        let deduped = make_unique(combined);
        let out = FileListing {
            num_files: self.num_files,
            all_files: self.all_files,
            indices: deduped,
            stats: self.stats,
        };
        proof {
            let matched = filter_matched(out.catalog(), pattern@, out.num_files as int);
            lemma_filter_matched_bound(out.catalog(), pattern@, out.num_files as int);
            lemma_sel_dedup_bound(sel0, matched, out.num_files);
        }
        Ok(out)
    }

    /// Select all files stored under the same content hash as the given
    /// local files.
    ///
    /// Each local file is hashed at `prefix_length` and looked up by the
    /// hash-named folder, truncated to the same length; both sides must use
    /// one length or nothing matches.  When several entries share a folder
    /// prefix the highest index wins.  A file without a match fails the
    /// call with `NoMatchingRemoteFile` when `bail_when_missing` is set,
    /// and is skipped otherwise.  An empty batch changes nothing.
    pub fn by_hash(
        self,
        files: &Vec<LocalFile>,
        prefix_length: u8,
        bail_when_missing: bool,
    ) -> (r: Result<Self, StoreError>)
        requires
            self.wf(),
        ensures
            files@.len() == 0 ==> (r is Ok && r->Ok_0 == self),
            files@.len() > 0 ==> (r is Ok <==> hash_len_valid(prefix_length) && (bail_when_missing
                ==> first_unmatched(
                self.catalog(),
                files@,
                prefix_length,
                files@.len() as int,
            ) is None)),
            files@.len() > 0 && !hash_len_valid(prefix_length) ==> (
            r->Err_0 matches StoreError::InvalidHashLength { length } && length == prefix_length),
            files@.len() > 0 && hash_len_valid(prefix_length) && r is Err ==> (
            r->Err_0 matches StoreError::NoMatchingRemoteFile { file } && {
                let j = first_unmatched(
                    self.catalog(),
                    files@,
                    prefix_length,
                    files@.len() as int,
                )->0;
                file@ == files@[j].name@
            }),
            r is Ok ==> {
                let out = r->Ok_0;
                &&& out.wf()
                &&& out.catalog() == self.catalog()
                &&& out.num_files == self.num_files
                &&& out.stats == self.stats
                &&& out.indices@ == if files@.len() == 0 {
                    self.indices@
                } else {
                    sel_dedup(
                        self.indices@ + hash_matches(
                            self.catalog(),
                            files@,
                            prefix_length,
                            files@.len() as int,
                        ),
                    )
                }
            },
    {
        if files.len() == 0 {
            return Ok(self);
        }
        if prefix_length == 0 || prefix_length > 64 {
            return Err(StoreError::InvalidHashLength { length: prefix_length });
        }
        let ghost cat = self.catalog();
        let ghost sel0 = self.indices@;
        let mut combined = self.indices;
        let mut j: usize = 0;
        while j < files.len()
            invariant
                j <= files@.len(),
                hash_len_valid(prefix_length),
                self.wf(),
                cat == self.catalog(),
                combined@ == sel0 + hash_matches(cat, files@, prefix_length, j as int),
                bail_when_missing ==> first_unmatched(cat, files@, prefix_length, j as int) is None,
            decreases files@.len() - j,
        {
            let file = &files[j];
            let token = match get_hash(&file.content, prefix_length) {
                Ok(token) => token,
                Err(_) => {
                    proof {
                        assert(false);
                    }
                    vstd::pervasive::unreached()
                },
            };
            let found = find_last_match(&self.all_files, &token, prefix_length);
            proof {
                assert(token@ == hash_token_of(file.content@, prefix_length));
                assert(found == last_match(
                    cat,
                    hash_token_of(files@[j as int].content@, prefix_length),
                    prefix_length,
                    cat.len() as int,
                ));
            }
            match found {
                Some(idx) => {
                    combined.push(idx);
                    proof {
                        assert(combined@ =~= sel0 + hash_matches(
                            cat,
                            files@,
                            prefix_length,
                            j + 1,
                        ));
                    }
                },
                None => {
                    if bail_when_missing {
                        proof {
                            assert(first_unmatched(cat, files@, prefix_length, j + 1) == Some(
                                j as int,
                            ));
                            lemma_first_unmatched_persists(
                                cat,
                                files@,
                                prefix_length,
                                j + 1,
                                files@.len() as int,
                            );
                        }
                        return Err(
                            StoreError::NoMatchingRemoteFile { file: file.name.clone() },
                        );
                    }
                    proof {
                        assert(combined@ =~= sel0 + hash_matches(
                            cat,
                            files@,
                            prefix_length,
                            j + 1,
                        ));
                    }
                },
            }
            j = j + 1;
        }
        let deduped = make_unique(combined);
        let out = FileListing {
            num_files: self.num_files,
            all_files: self.all_files,
            indices: deduped,
            stats: self.stats,
        };
        proof {
            let matched = hash_matches(cat, files@, prefix_length, files@.len() as int);
            lemma_hash_matches_bound(cat, files@, prefix_length, files@.len() as int);
            lemma_sel_dedup_bound(sel0, matched, out.num_files);
        }
        Ok(out)
    }
}

/// The folder name of a catalog entry, truncated to the requested prefix
/// length.
pub open spec fn folder_prefix(p: RemotePath, length: u8) -> Seq<char> {
    p.folder@.take(
        if length as int <= p.folder@.len() {
            length as int
        } else {
            p.folder@.len() as int
        },
    )
}

/// The highest catalog index below `n` whose truncated folder name equals
/// the token.
pub open spec fn last_match(cat: Seq<RemotePath>, token: Seq<char>, length: u8, n: int) -> Option<
    usize,
>
    decreases n,
{
    if n <= 0 {
        None
    } else if folder_prefix(cat[n - 1], length) == token {
        Some((n - 1) as usize)
    } else {
        last_match(cat, token, length, n - 1)
    }
}

/// The catalog indices matched by the first `k` local files, in file
/// order, files without a match skipped.
pub open spec fn hash_matches(
    cat: Seq<RemotePath>,
    files: Seq<LocalFile>,
    length: u8,
    k: int,
) -> Seq<usize>
    decreases k,
{
    if k <= 0 {
        Seq::empty()
    } else {
        let rest = hash_matches(cat, files, length, k - 1);
        match last_match(
            cat,
            hash_token_of(files[k - 1].content@, length),
            length,
            cat.len() as int,
        ) {
            Some(i) => rest.push(i),
            None => rest,
        }
    }
}

/// The first of the `k` local files whose hash matches no catalog entry.
pub open spec fn first_unmatched(
    cat: Seq<RemotePath>,
    files: Seq<LocalFile>,
    length: u8,
    k: int,
) -> Option<int>
    decreases k,
{
    if k <= 0 {
        None
    } else {
        match first_unmatched(cat, files, length, k - 1) {
            Some(j) => Some(j),
            None => {
                if last_match(
                    cat,
                    hash_token_of(files[k - 1].content@, length),
                    length,
                    cat.len() as int,
                ) is None {
                    Some(k - 1)
                } else {
                    None
                }
            },
        }
    }
}

/// Once one of the first `k` files is unmatched, scanning further files
/// reports the same first unmatched file.
proof fn lemma_first_unmatched_persists(
    cat: Seq<RemotePath>,
    files: Seq<LocalFile>,
    length: u8,
    k1: int,
    k2: int,
)
    requires
        0 <= k1 <= k2,
        first_unmatched(cat, files, length, k1) is Some,
    ensures
        first_unmatched(cat, files, length, k2) == first_unmatched(cat, files, length, k1),
    decreases k2 - k1,
{
    if k2 > k1 {
        lemma_first_unmatched_persists(cat, files, length, k1, k2 - 1);
    }
}

/// A matched index is a real catalog index.
proof fn lemma_last_match_bound(cat: Seq<RemotePath>, token: Seq<char>, length: u8, n: int)
    requires
        n <= cat.len(),
    ensures
        last_match(cat, token, length, n) is Some ==> last_match(cat, token, length, n)->0
            < cat.len(),
    decreases n,
{
    if n > 0 {
        lemma_last_match_bound(cat, token, length, n - 1);
    }
}

/// Every index a hash lookup picks is a real catalog index.
proof fn lemma_hash_matches_bound(cat: Seq<RemotePath>, files: Seq<LocalFile>, length: u8, k: int)
    ensures
        forall|w: int|
            0 <= w < hash_matches(cat, files, length, k).len() ==> #[trigger] hash_matches(
                cat,
                files,
                length,
                k,
            )[w] < cat.len(),
    decreases k,
{
    if k > 0 {
        lemma_hash_matches_bound(cat, files, length, k - 1);
        let token = hash_token_of(files[k - 1].content@, length);
        lemma_last_match_bound(cat, token, length, cat.len() as int);
        let rest = hash_matches(cat, files, length, k - 1);
        assert forall|w: int|
            0 <= w < hash_matches(cat, files, length, k).len() implies #[trigger] hash_matches(
            cat,
            files,
            length,
            k,
        )[w] < cat.len() by {
            match last_match(cat, token, length, cat.len() as int) {
                Some(i) => {
                    assert(hash_matches(cat, files, length, k) == rest.push(i));
                    if w < rest.len() {
                        assert(rest[w] < cat.len());
                    }
                },
                None => {
                    assert(hash_matches(cat, files, length, k) == rest);
                    assert(rest[w] < cat.len());
                },
            }
        }
    }
}

/// Find the highest catalog index whose truncated folder name equals the
/// token.
fn find_last_match(catalog: &Vec<RemotePath>, token: &String, length: u8) -> (r: Option<usize>)
    ensures
        r == last_match(catalog@, token@, length, catalog@.len() as int),
{
    let mut found: Option<usize> = None;
    let mut k: usize = 0;
    while k < catalog.len()
        invariant
            k <= catalog@.len(),
            found == last_match(catalog@, token@, length, k as int),
        decreases catalog@.len() - k,
    {
        let entry = &catalog[k];
        let prefix = prefix_chars(entry.folder.as_str(), length as usize);
        if prefix == *token {
            found = Some(k);
        }
        k = k + 1;
    }
    found
}

/// The parsed length of a time window in whole seconds, as the outside
/// parser reads it; `None` where the text is not a duration.
pub uninterp spec fn duration_secs_of(s: Seq<char>) -> Option<u64>;

/// Relies on humantime's parse_duration: the parse is a function of the
/// text alone.
#[verifier::external_body]
fn parse_duration_secs(s: &str) -> (r: Option<u64>)
    ensures
        r == duration_secs_of(s@),
{
    match humantime::parse_duration(s) {
        Ok(d) => Some(d.as_secs()),
        Err(_) => None,
    }
}

/// The stat key an index sorts under: its size, or its modification time.
pub open spec fn stat_key(st: Seq<Option<FileStat>>, by_time: bool, i: usize) -> u64
    recommends
        i < st.len(),
        st[i as int] is Some,
{
    if by_time {
        st[i as int]->0.mtime
    } else {
        st[i as int]->0.size
    }
}

/// Whether the selection's stat entry keeps an index inside the window:
/// at or before the cutoff when selecting older, at or after it when
/// selecting newer.
pub open spec fn time_keeps(
    st: Seq<Option<FileStat>>,
    cutoff: u64,
    select_older: bool,
    i: usize,
) -> bool {
    if select_older {
        st[i as int]->0.mtime <= cutoff
    } else {
        st[i as int]->0.mtime >= cutoff
    }
}

/// The selected indices that stay inside the time window, in selection
/// order.
pub open spec fn time_kept(
    indices: Seq<usize>,
    st: Seq<Option<FileStat>>,
    cutoff: u64,
    select_older: bool,
) -> Seq<usize>
    decreases indices.len(),
{
    if indices.len() == 0 {
        Seq::empty()
    } else {
        let rest = time_kept(indices.drop_last(), st, cutoff, select_older);
        if time_keeps(st, cutoff, select_older, indices.last()) {
            rest.push(indices.last())
        } else {
            rest
        }
    }
}

/// What the time filter keeps, it keeps from the selection.
proof fn lemma_time_kept_sub(
    indices: Seq<usize>,
    st: Seq<Option<FileStat>>,
    cutoff: u64,
    select_older: bool,
)
    ensures
        forall|w: int|
            0 <= w < time_kept(indices, st, cutoff, select_older).len() ==> indices.contains(
                #[trigger] time_kept(indices, st, cutoff, select_older)[w],
            ),
        indices.no_duplicates() ==> time_kept(indices, st, cutoff, select_older).no_duplicates(),
    decreases indices.len(),
{
    if indices.len() > 0 {
        let prefix = indices.drop_last();
        lemma_time_kept_sub(prefix, st, cutoff, select_older);
        let kept = time_kept(indices, st, cutoff, select_older);
        let rest = time_kept(prefix, st, cutoff, select_older);
        assert forall|w: int| 0 <= w < kept.len() implies indices.contains(#[trigger] kept[w]) by {
            if w < rest.len() {
                assert(prefix.contains(rest[w]));
                let v = choose|v: int| 0 <= v < prefix.len() && prefix[v] == rest[w];
                assert(indices[v] == kept[w]);
            } else {
                assert(kept[w] == indices.last());
                assert(indices[indices.len() - 1] == indices.last());
            }
        }
        if indices.no_duplicates() {
            assert(prefix.no_duplicates());
            if time_keeps(st, cutoff, select_older, indices.last()) {
                assert forall|p: int, q: int|
                    0 <= p < kept.len() && 0 <= q < kept.len() && p != q implies kept[p]
                    != kept[q] by {
                    if p < rest.len() && q < rest.len() {
                    } else if p < rest.len() {
                        assert(prefix.contains(rest[p]));
                        let v = choose|v: int| 0 <= v < prefix.len() && prefix[v] == rest[p];
                        assert(indices[v] != indices.last());
                    } else {
                        assert(prefix.contains(rest[q]));
                        let v = choose|v: int| 0 <= v < prefix.len() && prefix[v] == rest[q];
                        assert(indices[v] != indices.last());
                    }
                }
            }
        }
    }
}

impl FileListing {
    /// The relative paths of the current selection, in selection order:
    /// what a stat fetch must cover.
    pub fn stat_request(&self) -> (r: Vec<RemotePath>)
        requires
            self.wf(),
        ensures
            r@.len() == self.indices@.len(),
            forall|k: int|
                0 <= k < r@.len() ==> (#[trigger] r@[k]).folder@ == self.catalog()[self.indices@[k] as int].folder@
                    && r@[k].name@ == self.catalog()[self.indices@[k] as int].name@,
    {
        let mut r: Vec<RemotePath> = Vec::new();
        let mut k: usize = 0;
        while k < self.indices.len()
            invariant
                k <= self.indices@.len(),
                self.wf(),
                r@.len() == k as int,
                forall|w: int|
                    0 <= w < k ==> (#[trigger] r@[w]).folder@ == self.catalog()[self.indices@[w] as int].folder@
                        && r@[w].name@ == self.catalog()[self.indices@[w] as int].name@,
            decreases self.indices@.len() - k,
        {
            let idx = self.indices[k];
            r.push(self.all_files[idx].clone());
            k = k + 1;
        }
        r
    }

    /// Record fetched stats for the current selection.
    ///
    /// The fetch must answer the current selection in order, one stat per
    /// selected entry; any other cardinality is a protocol violation and
    /// fails with `StatCountMismatch`.  Stats already present are kept
    /// untouched: they are memoized for the selection's lifetime.
    pub fn provide_stats(self, fetched: &Vec<FileStat>) -> (r: Result<Self, StoreError>)
        requires
            self.wf(),
        ensures
            self.stats is Some ==> (r is Ok && r->Ok_0 == self),
            self.stats is None ==> (r is Ok <==> fetched@.len() == self.indices@.len()),
            self.stats is None && r is Err ==> (
            r->Err_0 matches StoreError::StatCountMismatch { expected, actual } && expected
                == self.indices@.len() && actual == fetched@.len()),
            r is Ok ==> {
                let out = r->Ok_0;
                &&& out.wf()
                &&& out.catalog() == self.catalog()
                &&& out.num_files == self.num_files
                &&& out.indices@ == self.indices@
                &&& (self.stats is None ==> out.stats_cover() && forall|k: int|
                    0 <= k < self.indices@.len()
                        ==> out.stats->0@[#[trigger] self.indices@[k] as int] == Some(
                        fetched@[k],
                    ))
            },
    {
        if self.stats.is_some() {
            return Ok(self);
        }
        if fetched.len() != self.indices.len() {
            return Err(
                StoreError::StatCountMismatch {
                    expected: self.indices.len(),
                    actual: fetched.len(),
                },
            );
        }
        let mut st: Vec<Option<FileStat>> = Vec::new();
        let mut i: usize = 0;
        while i < self.num_files
            invariant
                i <= self.num_files,
                st@.len() == i as int,
                forall|w: int| 0 <= w < i ==> #[trigger] st@[w] is None,
            decreases self.num_files - i,
        {
            st.push(None);
            i = i + 1;
        }
        let mut k: usize = 0;
        while k < self.indices.len()
            invariant
                k <= self.indices@.len(),
                self.wf(),
                fetched@.len() == self.indices@.len(),
                st@.len() == self.num_files,
                forall|w: int|
                    0 <= w < k ==> st@[#[trigger] self.indices@[w] as int] == Some(fetched@[w]),
            decreases self.indices@.len() - k,
        {
            let idx = self.indices[k];
            st[idx] = Some(fetched[k]);
            k = k + 1;
            proof {
                assert forall|w: int|
                    0 <= w < k implies st@[#[trigger] self.indices@[w] as int] == Some(
                    fetched@[w],
                ) by {
                    if w < k - 1 {
                        assert(self.indices@[w] != self.indices@[k - 1]);
                    }
                }
            }
        }
        let out = FileListing {
            num_files: self.num_files,
            all_files: self.all_files,
            indices: self.indices,
            stats: Some(st),
        };
        Ok(out)
    }

    /// Demand stats for the pipeline.  Fetching is the transport's part:
    /// the caller obtains the stats for `stat_request` and records them
    /// with `provide_stats` before operations that read sizes or times.
    pub fn with_stats(self, with_stats: bool) -> (r: Result<Self, StoreError>)
        requires
            self.wf(),
            with_stats ==> self.stats_cover(),
        ensures
            r is Ok && r->Ok_0 == self,
    {
        Ok(self)
    }

    /// Keep only files whose modification time falls at or after
    /// `now - duration` (newer).
    pub fn select_newer(self, user_duration: Option<&str>, now_secs: u64) -> (r: Result<
        Self,
        StoreError,
    >)
        requires
            self.wf(),
            user_duration is Some ==> self.stats_cover(),
        ensures
            time_filter_post(self, user_duration, false, now_secs, r),
    {
        self.filter_by_time(user_duration, false, now_secs)
    }

    /// Keep only files whose modification time falls at or before
    /// `now - duration` (older).
    pub fn select_older(self, user_duration: Option<&str>, now_secs: u64) -> (r: Result<
        Self,
        StoreError,
    >)
        requires
            self.wf(),
            user_duration is Some ==> self.stats_cover(),
        ensures
            time_filter_post(self, user_duration, true, now_secs, r),
    {
        self.filter_by_time(user_duration, true, now_secs)
    }

    /// Keep only the selected files on one side of `now - duration`.
    fn filter_by_time(
        self,
        user_duration: Option<&str>,
        select_older: bool,
        now_secs: u64,
    ) -> (r: Result<Self, StoreError>)
        requires
            self.wf(),
            user_duration is Some ==> self.stats_cover(),
        ensures
            time_filter_post(self, user_duration, select_older, now_secs, r),
    {
        let text = match user_duration {
            None => {
                return Ok(self);
            },
            Some(text) => text,
        };
        let secs = match parse_duration_secs(text) {
            None => {
                return Err(StoreError::InvalidDuration { duration: String::from_str(text) });
            },
            Some(secs) => secs,
        };
        if now_secs < secs {
            return Err(StoreError::InvalidDuration { duration: String::from_str(text) });
        }
        let cutoff: u64 = now_secs - secs;
        let st = match &self.stats {
            Some(st) => st,
            None => {
                proof {
                    assert(false);
                }
                vstd::pervasive::unreached()
            },
        };
        let mut kept: Vec<usize> = Vec::new();
        let mut k: usize = 0;
        proof {
            assert(self.indices@.take(0) =~= Seq::<usize>::empty());
        }
        while k < self.indices.len()
            invariant
                k <= self.indices@.len(),
                self.wf(),
                self.stats_cover(),
                self.stats == Some(*st),
                cutoff <= now_secs,
                kept@ == time_kept(self.indices@.take(k as int), st@, cutoff, select_older),
            decreases self.indices@.len() - k,
        {
            let idx = self.indices[k];
            let stat = match &st[idx] {
                Some(stat) => stat,
                None => {
                    proof {
                        assert(false);
                    }
                    vstd::pervasive::unreached()
                },
            };
            let keep = if select_older {
                stat.mtime <= cutoff
            } else {
                stat.mtime >= cutoff
            };
            proof {
                assert(self.indices@.take(k + 1).drop_last() =~= self.indices@.take(k as int));
                assert(self.indices@.take(k + 1).last() == self.indices@[k as int]);
            }
            if keep {
                kept.push(idx);
            }
            k = k + 1;
        }
        proof {
            assert(self.indices@.take(k as int) =~= self.indices@);
        }
        let out = FileListing {
            num_files: self.num_files,
            all_files: self.all_files,
            indices: kept,
            stats: self.stats,
        };
        proof {
            lemma_time_kept_sub(self.indices@, out.stats->0@, cutoff, select_older);
            assert forall|w: int| 0 <= w < out.indices@.len() implies #[trigger] out.indices@[w]
                < out.num_files by {
                assert(self.indices@.contains(out.indices@[w]));
                let v = choose|v: int|
                    0 <= v < self.indices@.len() && self.indices@[v] == out.indices@[w];
            }
            assert forall|w: int|
                0 <= w < out.indices@.len() implies #[trigger] out.stats->0@[out.indices@[w] as int]
                is Some by {
                assert(self.indices@.contains(out.indices@[w]));
                let v = choose|v: int|
                    0 <= v < self.indices@.len() && self.indices@[v] == out.indices@[w];
            }
        }
        Ok(out)
    }
}

/// What filtering by a time window promises: no window changes nothing; an
/// unparsable window, or one reaching before the epoch, fails with
/// `InvalidDuration`; otherwise exactly the selected entries on the right
/// side of `now - duration` stay, in order.
pub open spec fn time_filter_post(
    listing: FileListing,
    user_duration: Option<&str>,
    select_older: bool,
    now_secs: u64,
    r: Result<FileListing, StoreError>,
) -> bool {
    match user_duration {
        None => r == Result::<FileListing, StoreError>::Ok(listing),
        Some(text) => match duration_secs_of(text@) {
            None => r matches Err(StoreError::InvalidDuration { duration }) && duration@ == text@,
            Some(secs) => {
                if now_secs < secs {
                    r matches Err(StoreError::InvalidDuration { duration }) && duration@ == text@
                } else {
                    &&& r is Ok
                    &&& {
                        let out = r->Ok_0;
                        &&& out.wf()
                        &&& out.stats_cover()
                        &&& out.catalog() == listing.catalog()
                        &&& out.num_files == listing.num_files
                        &&& out.stats == listing.stats
                        &&& out.indices@ == time_kept(
                            listing.indices@,
                            listing.stats->0@,
                            (now_secs - secs) as u64,
                            select_older,
                        )
                    }
                }
            },
        },
    }
}

/// The stable position a new element takes in a run sorted by stat key:
/// directly before the first element with a strictly greater key, and so
/// after every earlier element with an equal key.
pub open spec fn insert_pos(t: Seq<usize>, st: Seq<Option<FileStat>>, by_time: bool, x: usize) -> int
    decreases t.len(),
{
    if t.len() == 0 {
        0
    } else if stat_key(st, by_time, t[0]) > stat_key(st, by_time, x) {
        0
    } else {
        1 + insert_pos(t.skip(1), st, by_time, x)
    }
}

/// A run with a new element placed at its stable position.
pub open spec fn placed(t: Seq<usize>, st: Seq<Option<FileStat>>, by_time: bool, x: usize) -> Seq<
    usize,
> {
    let p = insert_pos(t, st, by_time, x);
    t.take(p) + seq![x] + t.skip(p)
}

/// The selection sorted by stat key: each element, in selection order,
/// placed at its stable position among those before it.  This is a stable
/// insertion sort; ties keep their selection order.
pub open spec fn sort_spec(s: Seq<usize>, st: Seq<Option<FileStat>>, by_time: bool) -> Seq<usize>
    decreases s.len(),
{
    if s.len() == 0 {
        Seq::empty()
    } else {
        placed(sort_spec(s.drop_last(), st, by_time), st, by_time, s.last())
    }
}

/// Whether a selection is sorted by stat key, ascending.
pub open spec fn sorted_by_stat(s: Seq<usize>, st: Seq<Option<FileStat>>, by_time: bool) -> bool {
    forall|p: int, q: int|
        0 <= p < q < s.len() ==> stat_key(st, by_time, s[p]) <= stat_key(st, by_time, s[q])
}

/// The insert position is in range, every element before it has a key at
/// most the new key, and the element at it (if any) has a strictly greater
/// key.
proof fn lemma_insert_pos_props(t: Seq<usize>, st: Seq<Option<FileStat>>, by_time: bool, x: usize)
    ensures
        0 <= insert_pos(t, st, by_time, x) <= t.len(),
        forall|w: int|
            0 <= w < insert_pos(t, st, by_time, x) ==> stat_key(st, by_time, #[trigger] t[w])
                <= stat_key(st, by_time, x),
        insert_pos(t, st, by_time, x) < t.len() ==> stat_key(
            st,
            by_time,
            t[insert_pos(t, st, by_time, x)],
        ) > stat_key(st, by_time, x),
    decreases t.len(),
{
    if t.len() > 0 && !(stat_key(st, by_time, t[0]) > stat_key(st, by_time, x)) {
        let rest = t.skip(1);
        lemma_insert_pos_props(rest, st, by_time, x);
        let p = insert_pos(t, st, by_time, x);
        assert forall|w: int| 0 <= w < p implies stat_key(st, by_time, #[trigger] t[w]) <= stat_key(
            st,
            by_time,
            x,
        ) by {
            if w > 0 {
                assert(rest[w - 1] == t[w]);
            }
        }
        if p < t.len() {
            assert(rest[p - 1] == t[p]);
        }
    }
}

/// Placing into a sorted run keeps it sorted.
proof fn lemma_placed_sorted(t: Seq<usize>, st: Seq<Option<FileStat>>, by_time: bool, x: usize)
    requires
        sorted_by_stat(t, st, by_time),
    ensures
        sorted_by_stat(placed(t, st, by_time, x), st, by_time),
{
    lemma_insert_pos_props(t, st, by_time, x);
    let p = insert_pos(t, st, by_time, x);
    let out = placed(t, st, by_time, x);
    assert forall|a: int, b: int|
        0 <= a < b < out.len() implies stat_key(st, by_time, out[a]) <= stat_key(
        st,
        by_time,
        out[b],
    ) by {
        if a < p {
            assert(out[a] == t[a]);
        } else if a == p {
            assert(out[a] == x);
        } else {
            assert(out[a] == t[a - 1]);
        }
        if b < p {
            assert(out[b] == t[b]);
        } else if b == p {
            assert(out[b] == x);
        } else {
            assert(out[b] == t[b - 1]);
        }
        if b > p && p < t.len() {
            assert(stat_key(st, by_time, t[p]) > stat_key(st, by_time, x));
        }
    }
}

/// The sorted selection is sorted.
pub proof fn lemma_sort_spec_sorted(s: Seq<usize>, st: Seq<Option<FileStat>>, by_time: bool)
    ensures
        sorted_by_stat(sort_spec(s, st, by_time), st, by_time),
    decreases s.len(),
{
    if s.len() > 0 {
        lemma_sort_spec_sorted(s.drop_last(), st, by_time);
        lemma_placed_sorted(sort_spec(s.drop_last(), st, by_time), st, by_time, s.last());
    }
}

/// Sorting permutes the selection: same indices, same multiplicities.
pub proof fn lemma_sort_spec_multiset(s: Seq<usize>, st: Seq<Option<FileStat>>, by_time: bool)
    ensures
        sort_spec(s, st, by_time).to_multiset() == s.to_multiset(),
    decreases s.len(),
{
    broadcast use vstd::seq_lib::group_to_multiset_ensures;

    if s.len() > 0 {
        let prefix = s.drop_last();
        let x = s.last();
        let t = sort_spec(prefix, st, by_time);
        lemma_sort_spec_multiset(prefix, st, by_time);
        lemma_insert_pos_props(t, st, by_time, x);
        let p = insert_pos(t, st, by_time, x);
        lemma_multiset_commutative(t.take(p) + seq![x], t.skip(p));
        lemma_multiset_commutative(t.take(p), seq![x]);
        lemma_multiset_commutative(t.take(p), t.skip(p));
        assert(t.take(p) + t.skip(p) =~= t);
        assert(prefix.push(x) =~= s);
        assert(seq![x].to_multiset() =~= vstd::multiset::Multiset::empty().insert(x)) by {
            assert(seq![x].drop_first() =~= Seq::<usize>::empty());
        }
        assert(sort_spec(s, st, by_time).to_multiset() =~= s.to_multiset());
    } else {
        assert(sort_spec(s, st, by_time).to_multiset() =~= s.to_multiset());
    }
}

/// Sorting keeps exactly the selected indices, without duplicates.
pub proof fn lemma_sort_spec_elements(s: Seq<usize>, st: Seq<Option<FileStat>>, by_time: bool)
    requires
        s.no_duplicates(),
    ensures
        forall|x: usize| s.contains(x) <==> #[trigger] sort_spec(s, st, by_time).contains(x),
        sort_spec(s, st, by_time).no_duplicates(),
        sort_spec(s, st, by_time).len() == s.len(),
{
    broadcast use vstd::seq_lib::group_to_multiset_ensures;

    lemma_sort_spec_multiset(s, st, by_time);
    let out = sort_spec(s, st, by_time);
    s.lemma_multiset_has_no_duplicates();
    assert forall|x: usize|
        out.to_multiset().contains(x) implies out.to_multiset().count(x) == 1 by {
        assert(s.to_multiset().contains(x));
    }
    out.lemma_multiset_has_no_duplicates_conv();
    assert forall|x: usize| s.contains(x) <==> #[trigger] out.contains(x) by {
        assert(s.contains(x) <==> s.to_multiset().count(x) > 0);
        assert(out.contains(x) <==> out.to_multiset().count(x) > 0);
    }
    assert(out.len() == out.to_multiset().len());
    assert(s.len() == s.to_multiset().len());
}

/// Find the stat key of a selected index.
fn key_at(st: &Vec<Option<FileStat>>, by_time: bool, i: usize) -> (r: u64)
    requires
        i < st@.len(),
        st@[i as int] is Some,
    ensures
        r == stat_key(st@, by_time, i),
{
    match &st[i] {
        Some(stat) => {
            if by_time {
                stat.mtime
            } else {
                stat.size
            }
        },
        None => {
            proof {
                assert(false);
            }
            vstd::pervasive::unreached()
        },
    }
}

/// Sort a selection by stat key, stably: ties keep their selection order.
fn sort_indices(v: Vec<usize>, st: &Vec<Option<FileStat>>, by_time: bool) -> (r: Vec<usize>)
    requires
        forall|k: int|
            0 <= k < v@.len() ==> #[trigger] v@[k] < st@.len() && st@[v@[k] as int] is Some,
    ensures
        r@ == sort_spec(v@, st@, by_time),
{
    let mut out: Vec<usize> = Vec::new();
    let mut i: usize = 0;
    proof {
        assert(v@.take(0) =~= Seq::<usize>::empty());
    }
    while i < v.len()
        invariant
            i <= v@.len(),
            forall|k: int|
                0 <= k < v@.len() ==> #[trigger] v@[k] < st@.len() && st@[v@[k] as int] is Some,
            out@ == sort_spec(v@.take(i as int), st@, by_time),
            forall|k: int|
                0 <= k < out@.len() ==> #[trigger] out@[k] < st@.len() && st@[out@[k] as int]
                    is Some,
        decreases v@.len() - i,
    {
        let x = v[i];
        let keyx = key_at(st, by_time, x);
        let mut j: usize = 0;
        while j < out.len()
            invariant
                j <= out@.len(),
                keyx == stat_key(st@, by_time, x),
                forall|k: int|
                    0 <= k < out@.len() ==> #[trigger] out@[k] < st@.len() && st@[out@[k] as int]
                        is Some,
                j as int == insert_pos(out@.take(j as int), st@, by_time, x),
            ensures
                j <= out@.len(),
                j as int == insert_pos(out@.take(j as int), st@, by_time, x),
                j < out@.len() ==> stat_key(st@, by_time, out@[j as int]) > stat_key(
                    st@,
                    by_time,
                    x,
                ),
            decreases out@.len() - j,
        {
            let candidate = key_at(st, by_time, out[j]);
            if candidate > keyx {
                break ;
            }
            j = j + 1;
            proof {
                lemma_insert_pos_extend(out@, st@, by_time, x, j as int);
            }
        }
        proof {
            lemma_insert_pos_stops(out@, st@, by_time, x, j as int);
            assert(v@.take(i + 1).drop_last() =~= v@.take(i as int));
            assert(v@.take(i + 1).last() == v@[i as int]);
        }
        let ghost out_before = out@;
        out.insert(j, x);
        i = i + 1;
        proof {
            let p = insert_pos(out_before, st@, by_time, x);
            assert(out@ =~= out_before.take(p) + seq![x] + out_before.skip(p));
            assert(out@ =~= sort_spec(v@.take(i as int), st@, by_time));
        }
    }
    proof {
        assert(v@.take(i as int) =~= v@);
    }
    out
}

/// While every scanned element's key is at most the new key, the insert
/// position lies beyond the scanned prefix.
proof fn lemma_insert_pos_extend(
    t: Seq<usize>,
    st: Seq<Option<FileStat>>,
    by_time: bool,
    x: usize,
    j: int,
)
    requires
        0 < j <= t.len(),
        j - 1 == insert_pos(t.take(j - 1), st, by_time, x),
        stat_key(st, by_time, t[j - 1]) <= stat_key(st, by_time, x),
    ensures
        j == insert_pos(t.take(j), st, by_time, x),
    decreases j,
{
    assert(t.take(j).drop_last() =~= t.take(j - 1));
    assert(t.take(j).last() == t[j - 1]);
    lemma_insert_pos_take_step(t.take(j), st, by_time, x);
}

/// The insert position into a run whose last element's key is small enough
/// is past the end.
proof fn lemma_insert_pos_take_step(t: Seq<usize>, st: Seq<Option<FileStat>>, by_time: bool, x: usize)
    requires
        t.len() > 0,
        insert_pos(t.drop_last(), st, by_time, x) == t.len() - 1,
        stat_key(st, by_time, t.last()) <= stat_key(st, by_time, x),
    ensures
        insert_pos(t, st, by_time, x) == t.len(),
    decreases t.len(),
{
    if t.len() == 1 {
        assert(t[0] == t.last());
        assert(!(stat_key(st, by_time, t[0]) > stat_key(st, by_time, x)));
        assert(t.skip(1).len() == 0);
        assert(insert_pos(t.skip(1), st, by_time, x) == 0);
        assert(insert_pos(t, st, by_time, x) == 1);
    } else {
        assert(t.drop_last()[0] == t[0]);
        if stat_key(st, by_time, t[0]) > stat_key(st, by_time, x) {
            // contradicts the insert position of the shorter run
            assert(insert_pos(t.drop_last(), st, by_time, x) == 0);
            assert(false);
        } else {
            assert(t.skip(1).drop_last() =~= t.drop_last().skip(1));
            assert(t.skip(1).last() == t.last());
            assert(insert_pos(t.drop_last(), st, by_time, x) == 1 + insert_pos(
                t.drop_last().skip(1),
                st,
                by_time,
                x,
            ));
            lemma_insert_pos_take_step(t.skip(1), st, by_time, x);
            assert(insert_pos(t.skip(1), st, by_time, x) == t.len() - 1);
            assert(insert_pos(t, st, by_time, x) == 1 + insert_pos(t.skip(1), st, by_time, x));
        }
    }
}

/// When the scan stops, it stops exactly at the insert position of the
/// whole run.
proof fn lemma_insert_pos_stops(
    t: Seq<usize>,
    st: Seq<Option<FileStat>>,
    by_time: bool,
    x: usize,
    j: int,
)
    requires
        0 <= j <= t.len(),
        j == insert_pos(t.take(j), st, by_time, x),
        j < t.len() ==> stat_key(st, by_time, t[j]) > stat_key(st, by_time, x),
    ensures
        j == insert_pos(t, st, by_time, x),
    decreases t.len(),
{
    if j == t.len() {
        assert(t.take(j) =~= t);
    } else if j == 0 {
    } else {
        assert(stat_key(st, by_time, t[0]) <= stat_key(st, by_time, x)) by {
            assert(t.take(j)[0] == t[0]);
            lemma_insert_pos_props(t.take(j), st, by_time, x);
        }
        assert(t.skip(1).take(j - 1) =~= t.take(j).skip(1));
        assert(t.skip(1)[j - 1] == t[j]);
        lemma_insert_pos_stops(t.skip(1), st, by_time, x, j - 1);
    }
}

impl FileListing {
    /// Stable-sort the current selection ascending by file size, if the
    /// flag is set.
    pub fn sort_by_size(self, sort_by_size: bool) -> (r: Result<Self, StoreError>)
        requires
            self.wf(),
            sort_by_size ==> self.stats_cover(),
        ensures
            r is Ok,
            sort_post(self, false, sort_by_size, r->Ok_0),
    {
        self.sort_by_stat(sort_by_size, false)
    }

    /// Stable-sort the current selection ascending by modification time,
    /// if the flag is set.
    pub fn sort_by_time(self, sort_by_time: bool) -> (r: Result<Self, StoreError>)
        requires
            self.wf(),
            sort_by_time ==> self.stats_cover(),
        ensures
            r is Ok,
            sort_post(self, true, sort_by_time, r->Ok_0),
    {
        self.sort_by_stat(sort_by_time, true)
    }

    /// Stable-sort the current selection ascending by one stat key.
    fn sort_by_stat(self, doit: bool, by_time: bool) -> (r: Result<Self, StoreError>)
        requires
            self.wf(),
            doit ==> self.stats_cover(),
        ensures
            r is Ok,
            sort_post(self, by_time, doit, r->Ok_0),
    {
        if !doit {
            return Ok(self);
        }
        let st = match &self.stats {
            Some(st) => st,
            None => {
                proof {
                    assert(false);
                }
                vstd::pervasive::unreached()
            },
        };
        let ghost sel0 = self.indices@;
        let sorted = sort_indices(self.indices, st, by_time);
        let out = FileListing {
            num_files: self.num_files,
            all_files: self.all_files,
            indices: sorted,
            stats: self.stats,
        };
        proof {
            lemma_sort_spec_elements(sel0, out.stats->0@, by_time);
            assert forall|w: int| 0 <= w < out.indices@.len() implies #[trigger] out.indices@[w]
                < out.num_files by {
                let x = out.indices@[w];
                assert(out.indices@.contains(x));
                assert(sel0.contains(x));
                let v = choose|v: int| 0 <= v < sel0.len() && sel0[v] == x;
            }
            assert forall|w: int|
                0 <= w < out.indices@.len() implies #[trigger] out.stats->0@[out.indices@[w] as int]
                is Some by {
                let x = out.indices@[w];
                assert(out.indices@.contains(x));
                assert(sel0.contains(x));
                let v = choose|v: int| 0 <= v < sel0.len() && sel0[v] == x;
            }
        }
        Ok(out)
    }
}

/// What sorting promises: with the flag unset the selection is untouched;
/// set, it becomes the stable ascending reordering under the chosen key,
/// with catalog and stats unchanged and coverage kept.
pub open spec fn sort_post(
    listing: FileListing,
    by_time: bool,
    doit: bool,
    out: FileListing,
) -> bool {
    &&& out.wf()
    &&& out.catalog() == listing.catalog()
    &&& out.num_files == listing.num_files
    &&& out.stats == listing.stats
    &&& (doit ==> out.indices@ == sort_spec(listing.indices@, listing.stats->0@, by_time)
        && out.stats_cover())
    &&& (!doit ==> out.indices@ == listing.indices@)
}

/// Ascending order reversed is descending: after sorting by a key and
/// reverting, every earlier entry's key is at least every later one's.
pub proof fn lemma_sorted_reversed_descending(
    s: Seq<usize>,
    st: Seq<Option<FileStat>>,
    by_time: bool,
)
    requires
        sorted_by_stat(s, st, by_time),
    ensures
        forall|p: int, q: int|
            0 <= p < q < s.len() ==> stat_key(st, by_time, #[trigger] s.reverse()[p]) >= stat_key(
                st,
                by_time,
                #[trigger] s.reverse()[q],
            ),
{
}

/// After sorting ascending and reverting, keeping the last entry keeps
/// exactly one entry, whose key is minimal in the whole selection.
pub proof fn lemma_last_after_revert_is_minimum(
    s: Seq<usize>,
    st: Seq<Option<FileStat>>,
    by_time: bool,
)
    requires
        sorted_by_stat(s, st, by_time),
        s.len() > 0,
    ensures
        s.reverse().skip(s.len() - 1) == seq![s[0]],
        forall|k: int|
            0 <= k < s.len() ==> stat_key(st, by_time, s[0]) <= stat_key(
                st,
                by_time,
                #[trigger] s[k],
            ),
{
    assert(s.reverse().skip(s.len() - 1) =~= seq![s[0]]);
}

/// A lazily walked view of the selection: index, stored path and optional
/// stat of each selected entry, in selection order.  Walking does not
/// change the listing and can be restarted by taking a fresh iterator.
pub struct FileListingIter<'a> {
    pub listing: &'a FileListing,
    pub pos: usize,
}

impl<'a> FileListingIter<'a> {
    /// Which listing this iterator walks.
    pub open spec fn listing_spec(&self) -> FileListing {
        *self.listing
    }

    /// How far the walk has come.
    pub open spec fn pos_spec(&self) -> int {
        self.pos as int
    }

    fn new(listing: &'a FileListing) -> (r: Self)
        ensures
            r.listing_spec() == *listing,
            r.pos_spec() == 0,
    {
        FileListingIter { listing, pos: 0 }
    }

    /// The next selected entry, or `None` at the end of the selection.
    pub fn next(&mut self) -> (r: Option<(usize, &'a RemotePath, Option<FileStat>)>)
        requires
            old(self).listing_spec().wf(),
        ensures
            final(self).listing_spec() == old(self).listing_spec(),
            old(self).pos_spec() >= old(self).listing_spec().indices@.len() ==> (r is None
                && final(self).pos_spec() == old(self).pos_spec()),
            old(self).pos_spec() < old(self).listing_spec().indices@.len() ==> {
                let listing = old(self).listing_spec();
                let idx = listing.indices@[old(self).pos_spec()];
                &&& final(self).pos_spec() == old(self).pos_spec() + 1
                &&& r is Some
                &&& {
                    let triple = r->0;
                    &&& triple.0 == idx
                    &&& *triple.1 == listing.catalog()[idx as int]
                    &&& triple.2 == match listing.stats {
                        Some(st) => st@[idx as int],
                        None => None,
                    }
                }
            },
    {
        if self.pos >= self.listing.indices.len() {
            return None;
        }
        let idx = self.listing.indices[self.pos];
        let path = &self.listing.all_files[idx];
        let stat = match &self.listing.stats {
            Some(st) => st[idx],
            None => None,
        };
        self.pos = self.pos + 1;
        Some((idx, path, stat))
    }
}

impl FileListing {
    /// Walk the current selection from its start.
    pub fn iter<'a>(&'a self) -> (r: FileListingIter<'a>)
        ensures
            r.listing_spec() == *self,
            r.pos_spec() == 0,
    {
        FileListingIter::new(self)
    }
}

} // verus!
