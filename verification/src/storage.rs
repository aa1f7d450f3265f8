//! The volatile storage backend: an ordered, duplicate-free hostname
//! whitelist, a content-addressed artifact cache, and the latest pointer.
//!
//! The whitelist is kept strictly ascending at all times; `add_host` rejects
//! duplicates and `remove_host` rejects absent hosts, leaving the store
//! untouched on failure. The cache is an arena of immutable artifacts keyed
//! by content hash with idempotent uploads; the latest pointer is a single
//! optional hash, set only after the artifact it names has been stored.

use crate::error::AppError;
use crate::host_order::chars_lt;
use crate::host_order::lemma_chars_lt_connected;
use crate::host_order::lemma_chars_lt_irreflexive;
use crate::host_order::lemma_chars_lt_transitive;
use crate::host_order::str_eq;
use crate::host_order::str_lt;
use crate::host_order::strict_sorted;
use crate::pac::{pac_file_of, pac_hash_of, Pac, PacView};
use vstd::prelude::*;

verus! {

/// The whitelist after inserting `h` at its sorted position: entries below
/// `h` keep their places and `h` stands before the rest.
pub open spec fn ordered_insert(s: Seq<Seq<char>>, h: Seq<char>) -> Seq<Seq<char>>
    decreases s.len(),
{
    if s.len() == 0 {
        seq![h]
    } else if chars_lt(s[0], h) {
        seq![s[0]] + ordered_insert(s.drop_first(), h)
    } else {
        seq![h] + s
    }
}

/// The whitelist after removing the first occurrence of `h` (the only one,
/// on a strictly sorted sequence).
pub open spec fn ordered_remove(s: Seq<Seq<char>>, h: Seq<char>) -> Seq<Seq<char>>
    decreases s.len(),
{
    if s.len() == 0 {
        s
    } else if s[0] == h {
        s.drop_first()
    } else {
        seq![s[0]] + ordered_remove(s.drop_first(), h)
    }
}

/// The hash → body map held by a sequence of cached artifacts.
pub open spec fn cache_map_of(entries: Seq<PacView>) -> Map<Seq<char>, Seq<char>>
    decreases entries.len(),
{
    if entries.len() == 0 {
        Map::empty()
    } else {
        cache_map_of(entries.drop_last()).insert(entries.last().hash, entries.last().file)
    }
}

/// Cached artifacts carry pairwise distinct hashes.
pub open spec fn unique_hashes(entries: Seq<PacView>) -> bool {
    forall|i: int, j: int| 0 <= i < j < entries.len() ==> entries[i].hash != entries[j].hash
}

/// Hosts relate by `chars_lt` only when they differ.
proof fn lemma_chars_lt_neq(a: Seq<char>, b: Seq<char>)
    requires
        chars_lt(a, b),
    ensures
        a != b,
{
    if a == b {
        lemma_chars_lt_irreflexive(a);
    }
}

/// A strictly sorted sequence stays strictly sorted, and matches
/// `ordered_insert`, when a host is inserted at its partition point.
pub proof fn lemma_ordered_insert_at(s: Seq<Seq<char>>, h: Seq<char>, i: int)
    requires
        strict_sorted(s),
        0 <= i <= s.len(),
        forall|j: int| 0 <= j < i ==> chars_lt(s[j], h),
        forall|j: int| i <= j < s.len() ==> chars_lt(h, s[j]),
    ensures
        ordered_insert(s, h) == s.insert(i, h),
        strict_sorted(s.insert(i, h)),
    decreases s.len(),
{
    let t = s.insert(i, h);
    assert forall|k: int| 0 <= k < t.len() implies t[k] == (if k < i {
        s[k]
    } else if k == i {
        h
    } else {
        s[k - 1]
    }) by {}
    assert forall|a: int, b: int| 0 <= a < b < t.len() implies chars_lt(t[a], t[b]) by {}
    if s.len() == 0 {
        assert(ordered_insert(s, h) =~= t);
    } else if i == 0 {
        assert(chars_lt(h, s[0]));
        lemma_chars_lt_neq(h, s[0]);
        if chars_lt(s[0], h) {
            crate::host_order::lemma_chars_lt_asymmetric(s[0], h);
        }
        assert(ordered_insert(s, h) == seq![h] + s);
        assert(seq![h] + s =~= t);
    } else {
        assert(chars_lt(s[0], h));
        let d = s.drop_first();
        assert forall|j: int| 0 <= j < i - 1 implies chars_lt(d[j], h) by {
            assert(d[j] == s[j + 1]);
        }
        assert forall|j: int| i - 1 <= j < d.len() implies chars_lt(h, d[j]) by {
            assert(d[j] == s[j + 1]);
        }
        lemma_ordered_insert_at(d, h, i - 1);
        assert(ordered_insert(s, h) == seq![s[0]] + ordered_insert(d, h));
        assert(seq![s[0]] + d.insert(i - 1, h) =~= t);
    }
}

/// Removing the entry at index `i` of a strictly sorted sequence keeps it
/// strictly sorted and matches `ordered_remove` of that entry.
pub proof fn lemma_ordered_remove_at(s: Seq<Seq<char>>, i: int)
    requires
        strict_sorted(s),
        0 <= i < s.len(),
    ensures
        ordered_remove(s, s[i]) == s.remove(i),
        strict_sorted(s.remove(i)),
    decreases s.len(),
{
    let t = s.remove(i);
    assert forall|k: int| 0 <= k < t.len() implies t[k] == (if k < i {
        s[k]
    } else {
        s[k + 1]
    }) by {}
    assert forall|a: int, b: int| 0 <= a < b < t.len() implies chars_lt(t[a], t[b]) by {}
    if i == 0 {
        assert(s[0] == s[i]);
        assert(ordered_remove(s, s[i]) == s.drop_first());
        assert(s.drop_first() =~= t);
    } else {
        assert(chars_lt(s[0], s[i]));
        lemma_chars_lt_neq(s[0], s[i]);
        let d = s.drop_first();
        assert(d[i - 1] == s[i]);
        lemma_ordered_remove_at(d, i - 1);
        assert(ordered_remove(s, s[i]) == seq![s[0]] + ordered_remove(d, s[i]));
        assert(seq![s[0]] + d.remove(i - 1) =~= t);
    }
}

/// An inserted host is present afterwards: a second identical `add` must
/// therefore fail.
pub proof fn lemma_ordered_insert_contains(s: Seq<Seq<char>>, h: Seq<char>)
    ensures
        ordered_insert(s, h).contains(h),
    decreases s.len(),
{
    if s.len() == 0 {
        assert(ordered_insert(s, h)[0] == h);
    } else if chars_lt(s[0], h) {
        lemma_ordered_insert_contains(s.drop_first(), h);
        let r = ordered_insert(s.drop_first(), h);
        let k = choose|k: int| 0 <= k < r.len() && r[k] == h;
        assert(ordered_insert(s, h)[k + 1] == h);
    } else {
        assert(ordered_insert(s, h)[0] == h);
    }
}

/// Adding a host that is not yet present and then removing it restores the
/// prior whitelist exactly.
pub proof fn lemma_add_then_remove_roundtrip(s: Seq<Seq<char>>, h: Seq<char>)
    requires
        strict_sorted(s),
        !s.contains(h),
    ensures
        ordered_remove(ordered_insert(s, h), h) == s,
    decreases s.len(),
{
    if s.len() == 0 {
        let ins = ordered_insert(s, h);
        assert(ins == seq![h]);
        assert(ins[0] == h);
        assert(ordered_remove(ins, h) == ins.drop_first());
        assert(ins.drop_first() =~= s);
    } else if chars_lt(s[0], h) {
        let ins = ordered_insert(s, h);
        assert(ins == seq![s[0]] + ordered_insert(s.drop_first(), h));
        assert(ins.len() > 0);
        assert(ins[0] == s[0]);
        lemma_chars_lt_neq(s[0], h);
        assert(ordered_remove(ins, h) == seq![ins[0]] + ordered_remove(ins.drop_first(), h));
        assert(ins.drop_first() =~= ordered_insert(s.drop_first(), h));
        assert(!s.drop_first().contains(h)) by {
            if s.drop_first().contains(h) {
                let k = choose|k: int| 0 <= k < s.drop_first().len() && s.drop_first()[k] == h;
                assert(s[k + 1] == h);
            }
        }
        lemma_add_then_remove_roundtrip(s.drop_first(), h);
        assert(seq![s[0]] + s.drop_first() =~= s);
    } else {
        let ins = ordered_insert(s, h);
        assert(ins == seq![h] + s);
        assert(ins[0] == h);
        assert(ordered_remove(ins, h) == ins.drop_first());
        assert(ins.drop_first() =~= s);
    }
}

/// Every cached entry is found in the cache map, with its own body.
proof fn lemma_cache_map_index(entries: Seq<PacView>, i: int)
    requires
        unique_hashes(entries),
        0 <= i < entries.len(),
    ensures
        cache_map_of(entries).contains_key(entries[i].hash),
        cache_map_of(entries)[entries[i].hash] == entries[i].file,
    decreases entries.len(),
{
    if i == entries.len() - 1 {
        assert(entries.last() == entries[i]);
    } else {
        let d = entries.drop_last();
        assert(d[i] == entries[i]);
        lemma_cache_map_index(d, i);
        assert(entries.last().hash != entries[i].hash);
    }
}

/// A hash carried by no cached entry is absent from the cache map.
proof fn lemma_cache_map_absent(entries: Seq<PacView>, h: Seq<char>)
    requires
        forall|i: int| 0 <= i < entries.len() ==> entries[i].hash != h,
    ensures
        !cache_map_of(entries).contains_key(h),
    decreases entries.len(),
{
    if entries.len() > 0 {
        let d = entries.drop_last();
        assert(forall|i: int| 0 <= i < d.len() ==> #[trigger] d[i] == entries[i]);
        lemma_cache_map_absent(d, h);
    }
}

/// Overwriting the entry that already carries a hash updates the cache map
/// like a plain insert.
proof fn lemma_cache_map_update(entries: Seq<PacView>, i: int, v: PacView)
    requires
        unique_hashes(entries),
        0 <= i < entries.len(),
        v.hash == entries[i].hash,
    ensures
        cache_map_of(entries.update(i, v)) == cache_map_of(entries).insert(v.hash, v.file),
    decreases entries.len(),
{
    let u = entries.update(i, v);
    if i == entries.len() - 1 {
        assert(u.drop_last() =~= entries.drop_last());
        assert(u.last() == v);
        assert(cache_map_of(u) == cache_map_of(entries.drop_last()).insert(v.hash, v.file));
        assert(cache_map_of(entries.drop_last()).insert(v.hash, v.file) =~= cache_map_of(
            entries,
        ).insert(v.hash, v.file));
    } else {
        let d = entries.drop_last();
        assert(u.drop_last() =~= d.update(i, v));
        assert(u.last() == entries.last());
        assert(d[i] == entries[i]);
        lemma_cache_map_update(d, i, v);
        assert(cache_map_of(u) == cache_map_of(d).insert(v.hash, v.file).insert(
            entries.last().hash,
            entries.last().file,
        ));
        assert(entries.last().hash != v.hash);
        assert(cache_map_of(d).insert(v.hash, v.file).insert(entries.last().hash, entries.last().file)
            =~= cache_map_of(entries).insert(v.hash, v.file));
    }
}

/// The durable backend's `add` outcome under error-on-duplicate semantics:
/// an upsert-if-absent that affected no row means the host already existed.
pub fn insert_outcome(rows_affected: u64) -> (r: Result<(), AppError>)
    ensures
        rows_affected == 0 ==> (r matches Err(e) && e matches AppError::PreconditionFailed(m)
            && m@ == "Host already exists"@),
        rows_affected > 0 ==> r is Ok,
{
    if rows_affected == 0 {
        Err(AppError::PreconditionFailed(String::from_str("Host already exists")))
    } else {
        Ok(())
    }
}

/// The durable backend's `remove` outcome: an unconditional delete reports
/// `NotFound` exactly when no row was affected.
pub fn delete_outcome(rows_affected: u64) -> (r: Result<(), AppError>)
    ensures
        rows_affected == 0 ==> r == Err::<(), AppError>(AppError::NotFound),
        rows_affected > 0 ==> r is Ok,
{
    if rows_affected == 0 {
        Err(AppError::NotFound)
    } else {
        Ok(())
    }
}

/// In-memory storage: the whitelist, the artifact arena, and the latest
/// pointer, owned directly; callers serialize access from outside.
#[derive(Debug)]
pub struct MemoryStorage {
    hosts: Vec<String>,
    files: Vec<Pac>,
    latest: Option<String>,
}

impl MemoryStorage {
    /// The whitelist, as host views in storage order.
    pub closed spec fn hosts_view(&self) -> Seq<Seq<char>> {
        self.hosts.deep_view()
    }

    /// The artifact cache, as a map from content hash to body.
    pub closed spec fn cache(&self) -> Map<Seq<char>, Seq<char>> {
        cache_map_of(self.files.deep_view())
    }

    /// The latest pointer, if one has been set.
    pub closed spec fn latest_view(&self) -> Option<Seq<char>> {
        match self.latest {
            Some(h) => Some(h@),
            None => None,
        }
    }

    /// Well-formedness: the whitelist is strictly ascending (hence
    /// duplicate-free) and cached hashes are unique.
    pub closed spec fn wf(&self) -> bool {
        &&& strict_sorted(self.hosts_view())
        &&& unique_hashes(self.files.deep_view())
    }

    /// A snapshot of the whitelist, in strictly ascending order.
    pub fn all_hosts(&self) -> (r: Result<Vec<String>, AppError>)
        requires
            self.wf(),
        ensures
            r matches Ok(v) && v.deep_view() == self.hosts_view(),
            strict_sorted(self.hosts_view()),
    {
        let n = self.hosts.len();
        let mut out: Vec<String> = Vec::new();
        let mut i: usize = 0;
        while i < n
            invariant
                i <= n,
                n == self.hosts.len(),
                out@ == self.hosts@.take(i as int),
            decreases n - i,
        {
            out.push(self.hosts[i].clone());
            proof {
                assert(out@ =~= self.hosts@.take(i + 1));
            }
            i = i + 1;
        }
        proof {
            assert(out@ =~= self.hosts@);
            assert forall|k: int| 0 <= k < out.deep_view().len() implies out.deep_view()[k]
                == self.hosts_view()[k] by {
                assert(out@[k] == self.hosts@[k]);
            }
            assert(out.deep_view() =~= self.hosts_view());
        }
        Ok(out)
    }

    /// The partition point of `host` in the sorted whitelist: the index of
    /// the first entry not below `host`.
    fn lower_bound(&self, host: &str) -> (i: usize)
        requires
            self.wf(),
        ensures
            i <= self.hosts_view().len(),
            forall|j: int| 0 <= j < i ==> chars_lt(self.hosts_view()[j], host@),
            forall|j: int|
                i <= j < self.hosts_view().len() ==> !chars_lt(self.hosts_view()[j], host@),
    {
        let ghost hv = self.hosts_view();
        let mut lo: usize = 0;
        let mut hi: usize = self.hosts.len();
        while lo < hi
            invariant
                lo <= hi <= self.hosts.len(),
                hv == self.hosts_view(),
                self.wf(),
                forall|j: int| 0 <= j < lo ==> chars_lt(hv[j], host@),
                forall|j: int| hi <= j < hv.len() ==> !chars_lt(hv[j], host@),
            decreases hi - lo,
        {
            let mid = lo + (hi - lo) / 2;
            proof {
                assert(hv[mid as int] == self.hosts@[mid as int]@);
            }
            if str_lt(self.hosts[mid].as_str(), host) {
                proof {
                    assert forall|j: int| 0 <= j < mid + 1 implies chars_lt(hv[j], host@) by {
                        if j < mid {
                            lemma_chars_lt_transitive(hv[j], hv[mid as int], host@);
                        }
                    }
                }
                lo = mid + 1;
            } else {
                proof {
                    assert forall|j: int| mid <= j < hv.len() implies !chars_lt(hv[j], host@) by {
                        if j > mid && chars_lt(hv[j], host@) {
                            lemma_chars_lt_transitive(hv[mid as int], hv[j], host@);
                        }
                    }
                }
                hi = mid;
            }
        }
        lo
    }

    /// Inserts `host` at its sorted position; fails with
    /// `PreconditionFailed` when the host is already present, leaving the
    /// store untouched.
    pub fn add_host(&mut self, host: String) -> (r: Result<(), AppError>)
        requires
            old(self).wf(),
        ensures
            final(self).wf(),
            r is Ok <==> !old(self).hosts_view().contains(host@),
            r is Ok ==> final(self).hosts_view() == ordered_insert(
                old(self).hosts_view(),
                host@,
            ) && final(self).cache() == old(self).cache() && final(self).latest_view() == old(
                self,
            ).latest_view(),
            r is Err ==> *final(self) == *old(self),
            r matches Err(e) ==> e matches AppError::PreconditionFailed(m) && m@
                == "Host already exists"@,
    {
        let ghost hv = old(self).hosts_view();
        let i = self.lower_bound(host.as_str());
        if i < self.hosts.len() && !str_lt(host.as_str(), self.hosts[i].as_str()) {
            proof {
                assert(hv[i as int] == self.hosts@[i as int]@);
                lemma_chars_lt_connected(host@, hv[i as int]);
                assert(hv.contains(host@)) by {
                    assert(hv[i as int] == host@);
                }
            }
            return Err(AppError::PreconditionFailed(String::from_str("Host already exists")));
        }
        proof {
            assert forall|j: int| i <= j < hv.len() implies chars_lt(host@, hv[j]) by {
                assert(hv[i as int] == self.hosts@[i as int]@);
                if j == i {
                } else {
                    if !chars_lt(host@, hv[j]) {
                        lemma_chars_lt_connected(host@, hv[j]);
                        assert(chars_lt(hv[i as int], hv[j]));
                        assert(false);
                    }
                }
            }
            assert(!hv.contains(host@)) by {
                if hv.contains(host@) {
                    let k = choose|k: int| 0 <= k < hv.len() && hv[k] == host@;
                    if k < i {
                        lemma_chars_lt_neq(hv[k], host@);
                    } else {
                        lemma_chars_lt_neq(host@, hv[k]);
                    }
                }
            }
            lemma_ordered_insert_at(hv, host@, i as int);
        }
        let ghost hview = host@;
        self.hosts.insert(i, host);
        proof {
            assert(self.hosts_view() =~= hv.insert(i as int, hview));
        }
        Ok(())
    }

    /// Removes `host`; fails with `NotFound` when it is absent, leaving the
    /// store untouched.
    pub fn remove_host(&mut self, host: &str) -> (r: Result<(), AppError>)
        requires
            old(self).wf(),
        ensures
            final(self).wf(),
            r is Ok <==> old(self).hosts_view().contains(host@),
            r is Ok ==> final(self).hosts_view() == ordered_remove(
                old(self).hosts_view(),
                host@,
            ) && final(self).cache() == old(self).cache() && final(self).latest_view() == old(
                self,
            ).latest_view(),
            r is Err ==> *final(self) == *old(self) && r == Err::<(), AppError>(AppError::NotFound),
    {
        let ghost hv = old(self).hosts_view();
        let i = self.lower_bound(host);
        if i < self.hosts.len() && !str_lt(host, self.hosts[i].as_str()) {
            proof {
                assert(hv[i as int] == self.hosts@[i as int]@);
                lemma_chars_lt_connected(host@, hv[i as int]);
                assert(hv.contains(host@)) by {
                    assert(hv[i as int] == host@);
                }
                lemma_ordered_remove_at(hv, i as int);
            }
            self.hosts.remove(i);
            proof {
                assert(self.hosts_view() =~= hv.remove(i as int));
            }
            Ok(())
        } else {
            proof {
                assert(!hv.contains(host@)) by {
                    if hv.contains(host@) {
                        let k = choose|k: int| 0 <= k < hv.len() && hv[k] == host@;
                        if k < i {
                            lemma_chars_lt_neq(hv[k], host@);
                        } else {
                            assert(!chars_lt(hv[k], host@));
                            if i < hv.len() {
                                assert(hv[i as int] == self.hosts@[i as int]@);
                                if k == i {
                                    lemma_chars_lt_irreflexive(host@);
                                } else {
                                    assert(chars_lt(hv[i as int], hv[k]));
                                    lemma_chars_lt_connected(hv[k], host@);
                                }
                            }
                        }
                    }
                }
            }
            Err(AppError::NotFound)
        }
    }

    /// Looks an artifact body up by content hash; `NotFound` when the hash
    /// was never uploaded.
    pub fn get_file(&self, hash: &str) -> (r: Result<String, AppError>)
        requires
            self.wf(),
        ensures
            r is Ok <==> self.cache().contains_key(hash@),
            r matches Ok(f) ==> f@ == self.cache()[hash@],
            r is Err ==> r == Err::<String, AppError>(AppError::NotFound),
    {
        let ghost entries = self.files.deep_view();
        let n = self.files.len();
        let mut i: usize = 0;
        while i < n
            invariant
                i <= n,
                n == self.files.len(),
                entries == self.files.deep_view(),
                self.wf(),
                forall|j: int| 0 <= j < i ==> entries[j].hash != hash@,
            decreases n - i,
        {
            proof {
                assert(entries[i as int] == self.files@[i as int]@);
            }
            if str_eq(self.files[i].hash.as_str(), hash) {
                proof {
                    lemma_cache_map_index(entries, i as int);
                }
                return Ok(self.files[i].file.clone());
            }
            i = i + 1;
        }
        proof {
            lemma_cache_map_absent(entries, hash@);
        }
        Err(AppError::NotFound)
    }

    /// Stores an artifact under its hash. Idempotent: re-uploading an
    /// existing hash overwrites the entry and succeeds.
    pub fn upload_file(&mut self, pac: &Pac) -> (r: Result<(), AppError>)
        requires
            old(self).wf(),
        ensures
            final(self).wf(),
            r is Ok,
            final(self).cache() == old(self).cache().insert(pac@.hash, pac@.file),
            final(self).hosts_view() == old(self).hosts_view(),
            final(self).latest_view() == old(self).latest_view(),
    {
        let ghost entries = old(self).files.deep_view();
        let n = self.files.len();
        let mut i: usize = 0;
        while i < n
            invariant
                i <= n,
                n == self.files.len(),
                entries == self.files.deep_view(),
                self == old(self),
                self.wf(),
                forall|j: int| 0 <= j < i ==> entries[j].hash != pac@.hash,
            decreases n - i,
        {
            proof {
                assert(entries[i as int] == self.files@[i as int]@);
            }
            if str_eq(self.files[i].hash.as_str(), pac.hash.as_str()) {
                let replacement = Pac::new(pac.file.clone(), pac.hash.clone());
                proof {
                    assert(replacement@ == pac@);
                }
                self.files[i] = replacement;
                proof {
                    assert(self.files.deep_view() =~= entries.update(i as int, pac@));
                    lemma_cache_map_update(entries, i as int, pac@);
                    let u = entries.update(i as int, pac@);
                    assert forall|a: int, b: int| 0 <= a < b < u.len() implies u[a].hash
                        != u[b].hash by {
                        assert(entries[a].hash != entries[b].hash);
                        assert(pac@.hash == entries[i as int].hash);
                    }
                    assert(unique_hashes(self.files.deep_view()));
                }
                return Ok(());
            }
            i = i + 1;
        }
        let entry = Pac::new(pac.file.clone(), pac.hash.clone());
        proof {
            assert(entry@ == pac@);
        }
        self.files.push(entry);
        proof {
            let u = self.files.deep_view();
            assert(u =~= entries.push(pac@));
            assert(u.drop_last() =~= entries);
            assert(u.last() == pac@);
            assert forall|a: int, b: int| 0 <= a < b < u.len() implies u[a].hash != u[b].hash by {
                if b == entries.len() {
                    assert(entries[a].hash != pac@.hash);
                } else {
                    assert(entries[a].hash != entries[b].hash);
                }
            }
            assert(unique_hashes(u));
        }
        Ok(())
    }

    /// Unconditionally repoints the latest pointer at `hash`; the caller
    /// uploads the artifact first.
    pub fn set_latest(&mut self, hash: String) -> (r: Result<(), AppError>)
        requires
            old(self).wf(),
        ensures
            final(self).wf(),
            r is Ok,
            final(self).latest_view() == Some(hash@),
            final(self).hosts_view() == old(self).hosts_view(),
            final(self).cache() == old(self).cache(),
    {
        self.latest = Some(hash);
        Ok(())
    }

    /// The artifact the latest pointer names; `NotFound` when no pointer has
    /// been set or (defensively) when the pointed-to artifact is missing.
    pub fn get_file_latest(&self) -> (r: Result<Pac, AppError>)
        requires
            self.wf(),
        ensures
            r is Ok <==> (self.latest_view() matches Some(h) && self.cache().contains_key(h)),
            r matches Ok(p) ==> self.latest_view() == Some(p@.hash) && self.cache()[p@.hash]
                == p@.file,
            r is Err ==> r == Err::<Pac, AppError>(AppError::NotFound),
    {
        match &self.latest {
            None => Err(AppError::NotFound),
            Some(h) => {
                match self.get_file(h.as_str()) {
                    Ok(file) => Ok(Pac::new(file, h.clone())),
                    Err(_) => Err(AppError::NotFound),
                }
            },
        }
    }

    /// One regeneration pass: snapshot the whitelist, generate its artifact,
    /// upload it, then repoint the latest pointer at its hash.
    pub fn regenerate(&mut self) -> (r: Result<(), AppError>)
        requires
            old(self).wf(),
        ensures
            final(self).wf(),
            r is Ok,
            final(self).hosts_view() == old(self).hosts_view(),
            final(self).cache() == old(self).cache().insert(
                pac_hash_of(old(self).hosts_view()),
                pac_file_of(old(self).hosts_view()),
            ),
            final(self).latest_view() == Some(pac_hash_of(old(self).hosts_view())),
    {
        let hosts = match self.all_hosts() {
            Ok(v) => v,
            Err(e) => { return Err(e) },
        };
        let pac = Pac::generate(hosts);
        match self.upload_file(&pac) {
            Ok(_) => {},
            Err(e) => { return Err(e) },
        }
        match self.set_latest(pac.hash) {
            Ok(_) => {},
            Err(e) => { return Err(e) },
        }
        Ok(())
    }
}

impl Default for MemoryStorage {
    /// An empty store: no hosts, no artifacts, no latest pointer.
    fn default() -> (r: Self)
        ensures
            r.wf(),
            r.hosts_view() == Seq::<Seq<char>>::empty(),
            r.cache() == Map::<Seq<char>, Seq<char>>::empty(),
            r.latest_view() is None,
    {
        let r = MemoryStorage { hosts: Vec::new(), files: Vec::new(), latest: None };
        proof {
            assert(r.hosts_view() =~= Seq::<Seq<char>>::empty());
            assert(r.files.deep_view() =~= Seq::<PacView>::empty());
            assert(r.cache() =~= Map::<Seq<char>, Seq<char>>::empty());
        }
        r
    }
}

} // verus!
