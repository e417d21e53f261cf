//! In-memory models of the three independently owned stores the core talks
//! to: the ephemeral key-to-bytes cache with per-key TTL, the relational
//! ledger of per-folder asset rows, and the durable blob archive. Each
//! model carries an availability flag: an unavailable store degrades reads
//! into misses and makes writes fail, which is how the surrounding
//! application behaves when a backend is unconfigured or unreachable.

use vstd::prelude::*;
use crate::strutil::{str_eq, str_has_prefix};

verus! {

/// A store write failed because the store is not available.
#[derive(Debug, PartialEq)]
pub enum StoreError {
    Unavailable,
}

impl StoreError {
    /// A human-readable description, for result envelopes.
    pub fn message(&self) -> (r: String)
        ensures
            r@ == "storage not available"@,
    {
        "storage not available".to_owned()
    }
}

/// One cache entry: a key, an opaque serialized payload, and the logical
/// instant at which it expires.
#[derive(Debug, PartialEq)]
pub struct CacheEntry {
    pub key: String,
    pub payload: Vec<u8>,
    pub expires_at: u64,
}

/// Mathematical view of a [`CacheEntry`].
pub struct CacheEntryV {
    pub key: Seq<char>,
    pub payload: Seq<u8>,
    pub expires_at: int,
}

impl View for CacheEntry {
    type V = CacheEntryV;

    open spec fn view(&self) -> CacheEntryV {
        CacheEntryV { key: self.key@, payload: self.payload@, expires_at: self.expires_at as int }
    }
}

impl DeepView for CacheEntry {
    type V = CacheEntryV;

    open spec fn deep_view(&self) -> CacheEntryV {
        self.view()
    }
}

/// The ephemeral cache tier: entries with per-key TTL against a logical
/// clock.
pub struct CacheTier {
    pub entries: Vec<CacheEntry>,
    pub now: u64,
    pub available: bool,
}

/// The entry under a key, if any.
pub open spec fn spec_cache_find(entries: Seq<CacheEntryV>, key: Seq<char>) -> Option<CacheEntryV>
    decreases entries.len(),
{
    if entries.len() == 0 {
        None
    } else if entries[0].key == key {
        Some(entries[0])
    } else {
        spec_cache_find(entries.drop_first(), key)
    }
}

/// What a lookup returns: the payload under the key, provided the store is
/// available and the entry has not expired.
pub open spec fn spec_cache_get(c: &CacheTier, key: Seq<char>) -> Option<Seq<u8>> {
    if !c.available {
        None
    } else {
        match spec_cache_find(c.entries.deep_view(), key) {
            Some(e) => {
                if e.expires_at > c.now as int {
                    Some(e.payload)
                } else {
                    None
                }
            },
            None => None,
        }
    }
}

/// Keys are unique.
pub open spec fn cache_wf(c: &CacheTier) -> bool {
    forall|i: int, j: int|
        0 <= i < j < c.entries.deep_view().len() ==> c.entries.deep_view()[i].key
            != c.entries.deep_view()[j].key
}

/// The expiry instant, saturating at the top of the clock.
pub open spec fn spec_expiry(now: int, ttl: int) -> int {
    if now + ttl > u64::MAX {
        u64::MAX as int
    } else {
        now + ttl
    }
}

/// Glob matching as the cache's delete understands it: `*` matches any run
/// of characters, `?` matches any one character.
pub open spec fn glob_match(p: Seq<char>, s: Seq<char>) -> bool
    decreases p.len() + s.len(),
{
    if p.len() == 0 {
        s.len() == 0
    } else if p[0] == '*' {
        glob_match(p.drop_first(), s) || (s.len() > 0 && glob_match(p, s.drop_first()))
    } else {
        s.len() > 0 && (p[0] == '?' || p[0] == s[0]) && glob_match(p.drop_first(), s.drop_first())
    }
}

fn glob_match_at(p: &str, s: &str, i: usize, j: usize) -> (r: bool)
    requires
        i <= p@.len(),
        j <= s@.len(),
    ensures
        r == glob_match(
            p@.subrange(i as int, p@.len() as int),
            s@.subrange(j as int, s@.len() as int),
        ),
    decreases p@.len() - i + s@.len() - j,
{
    let plen = p.unicode_len();
    let slen = s.unicode_len();
    let ghost pv = p@.subrange(i as int, p@.len() as int);
    let ghost sv = s@.subrange(j as int, s@.len() as int);
    if i == plen {
        return j == slen;
    }
    let pc = p.get_char(i);
    proof {
        assert(pv[0] == p@[i as int]);
        assert(pv.drop_first() =~= p@.subrange(i + 1 as int, p@.len() as int));
        if j < s@.len() {
            assert(sv[0] == s@[j as int]);
            assert(sv.drop_first() =~= s@.subrange(j + 1 as int, s@.len() as int));
        }
    }
    if pc == '*' {
        if glob_match_at(p, s, i + 1, j) {
            return true;
        }
        if j < slen {
            return glob_match_at(p, s, i, j + 1);
        }
        false
    } else {
        if j == slen {
            return false;
        }
        let sc = s.get_char(j);
        if pc == '?' || pc == sc {
            glob_match_at(p, s, i + 1, j + 1)
        } else {
            false
        }
    }
}

/// Whether a key matches a glob pattern.
pub fn glob_matches(pattern: &str, key: &str) -> (r: bool)
    ensures
        r == glob_match(pattern@, key@),
{
    let r = glob_match_at(pattern, key, 0, 0);
    proof {
        assert(pattern@.subrange(0, pattern@.len() as int) =~= pattern@);
        assert(key@.subrange(0, key@.len() as int) =~= key@);
    }
    r
}

fn clone_bytes(v: &Vec<u8>) -> (r: Vec<u8>)
    ensures
        r@ == v@,
{
    let r = v.clone();
    proof {
        assert(r@ =~= v@);
    }
    r
}

impl CacheTier {
    /// An empty, available cache at the start of its clock.
    pub fn new() -> (r: CacheTier)
        ensures
            r.entries.deep_view() =~= Seq::<CacheEntryV>::empty(),
            r.now == 0,
            r.available,
            cache_wf(&r),
    {
        CacheTier { entries: Vec::new(), now: 0, available: true }
    }

    /// An unavailable cache: every read misses and every write is dropped.
    pub fn new_unavailable() -> (r: CacheTier)
        ensures
            r.entries.deep_view() =~= Seq::<CacheEntryV>::empty(),
            !r.available,
            cache_wf(&r),
    {
        CacheTier { entries: Vec::new(), now: 0, available: false }
    }

    /// Moves the logical clock forward, expiring nothing but time.
    pub fn advance(&mut self, dt: u64)
        requires
            old(self).now + dt <= u64::MAX,
        ensures
            final(self).now == old(self).now + dt,
            final(self).entries == old(self).entries,
            final(self).available == old(self).available,
    {
        self.now = self.now + dt;
    }

    /// Looks a key up: the stored payload when the store is available and
    /// the entry is fresh, a miss otherwise.
    pub fn get_from_cache(&self, key: &str) -> (r: Option<Vec<u8>>)
        requires
            cache_wf(self),
        ensures
            match r {
                Some(p) => spec_cache_get(self, key@) == Some(p@),
                None => spec_cache_get(self, key@) is None,
            },
    {
        if !self.available {
            return None;
        }
        let ghost dv = self.entries.deep_view();
        proof {
            assert(dv.skip(0) =~= dv);
        }
        let mut i: usize = 0;
        while i < self.entries.len()
            invariant
                self.available,
                dv == self.entries.deep_view(),
                dv.len() == self.entries.len(),
                i <= self.entries.len(),
                spec_cache_find(dv.skip(i as int), key@) == spec_cache_find(dv, key@),
                forall|k: int| 0 <= k < i ==> dv[k].key != key@,
            decreases self.entries.len() - i,
        {
            proof {
                assert(dv.skip(i as int)[0] == dv[i as int]);
                assert(dv.skip(i as int).drop_first() =~= dv.skip(i + 1 as int));
            }
            let e = &self.entries[i];
            if str_eq(e.key.as_str(), key) {
                proof {
                    assert(e@ == dv[i as int]);
                    assert(spec_cache_find(dv, key@) == Some(dv[i as int]));
                }
                if e.expires_at > self.now {
                    proof {
                        assert(spec_cache_get(self, key@) == Some(e.payload@));
                    }
                    return Some(clone_bytes(&e.payload));
                }
                return None;
            }
            i += 1;
        }
        proof {
            assert(dv.skip(dv.len() as int) =~= Seq::<CacheEntryV>::empty());
        }
        None
    }

    /// Stores a payload under a key with a TTL, overwriting any previous
    /// entry; when the store is unavailable the write is dropped, as a
    /// best-effort write against an unreachable backend is.
    pub fn save_to_cache(&mut self, key: &str, payload: Vec<u8>, ttl_seconds: u64)
        requires
            cache_wf(old(self)),
        ensures
            cache_wf(final(self)),
            final(self).now == old(self).now,
            final(self).available == old(self).available,
            !old(self).available ==> final(self).entries == old(self).entries,
            old(self).available ==> spec_cache_find(final(self).entries.deep_view(), key@)
                == Some(
                CacheEntryV {
                    key: key@,
                    payload: payload@,
                    expires_at: spec_expiry(old(self).now as int, ttl_seconds as int),
                },
            ),
            old(self).available ==> forall|k: Seq<char>|
                k != key@ ==> #[trigger] spec_cache_find(final(self).entries.deep_view(), k)
                    == spec_cache_find(old(self).entries.deep_view(), k),
    {
        if !self.available {
            return ;
        }
        let expires_at: u64 = if ttl_seconds > u64::MAX - self.now {
            u64::MAX
        } else {
            self.now + ttl_seconds
        };
        let ghost dv0 = self.entries.deep_view();
        let ghost ev = CacheEntryV { key: key@, payload: payload@, expires_at: expires_at as int };
        proof {
            assert(forall|p: int, q: int| 0 <= p < q < dv0.len() ==> dv0[p].key != dv0[q].key);
        }
        let mut i: usize = 0;
        while i < self.entries.len()
            invariant
                self.now == old(self).now,
                self.available == old(self).available,
                old(self).available,
                dv0 == self.entries.deep_view(),
                dv0 == old(self).entries.deep_view(),
                dv0.len() == self.entries.len(),
                i <= self.entries.len(),
                ev == (CacheEntryV { key: key@, payload: payload@, expires_at: expires_at as int }),
                ev.expires_at == spec_expiry(old(self).now as int, ttl_seconds as int),
                forall|p: int, q: int| 0 <= p < q < dv0.len() ==> dv0[p].key != dv0[q].key,
                forall|k: int| 0 <= k < i ==> dv0[k].key != key@,
            decreases self.entries.len() - i,
        {
            let hit = str_eq(self.entries[i].key.as_str(), key);
            if hit {
                let entry = CacheEntry { key: key.to_owned(), payload, expires_at };
                let ghost ge = entry@;
                let ghost xpre = self.entries@;
                self.entries.set(i, entry);
                proof {
                    assert(ge == ev);
                    assert forall|m: int| 0 <= m < self.entries.deep_view().len() implies
                        self.entries.deep_view()[m] == dv0.update(i as int, ev)[m] by {
                        if m == i as int {
                            assert(self.entries.deep_view()[m] == ge);
                        } else {
                            assert(self.entries@[m] == xpre[m]);
                            assert(self.entries.deep_view()[m] == dv0[m]);
                        }
                    }
                    assert(self.entries.deep_view() =~= dv0.update(i as int, ev));
                    lemma_cache_find_update(dv0, i as int, ev, key@);
                }
                return ;
            }
            i += 1;
        }
        let entry = CacheEntry { key: key.to_owned(), payload, expires_at };
        let ghost ge = entry@;
        let ghost xpre = self.entries@;
        self.entries.push(entry);
        proof {
            assert(ge == ev);
            assert forall|m: int| 0 <= m < self.entries.deep_view().len() implies
                self.entries.deep_view()[m] == dv0.push(ev)[m] by {
                if m == dv0.len() as int {
                    assert(self.entries.deep_view()[m] == ge);
                } else {
                    assert(self.entries@[m] == xpre[m]);
                    assert(self.entries.deep_view()[m] == dv0[m]);
                }
            }
            assert(self.entries.deep_view() =~= dv0.push(ev));
            lemma_cache_find_push(dv0, ev, key@);
        }
    }

    /// Deletes every entry whose key matches the glob pattern; dropped when
    /// the store is unavailable.
    pub fn clear_cache(&mut self, pattern: &str)
        requires
            cache_wf(old(self)),
        ensures
            cache_wf(final(self)),
            final(self).now == old(self).now,
            final(self).available == old(self).available,
            !old(self).available ==> final(self).entries == old(self).entries,
            old(self).available ==> final(self).entries.deep_view()
                == old(self).entries.deep_view().filter(
                |e: CacheEntryV| !glob_match(pattern@, e.key),
            ),
    {
        if !self.available {
            return ;
        }
        let ghost dv0 = self.entries.deep_view();
        let ghost keep = |e: CacheEntryV| !glob_match(pattern@, e.key);
        let mut out: Vec<CacheEntry> = Vec::new();
        let mut i: usize = 0;
        while i < self.entries.len()
            invariant
                dv0 == self.entries.deep_view(),
                dv0.len() == self.entries.len(),
                i <= self.entries.len(),
                keep == (|e: CacheEntryV| !glob_match(pattern@, e.key)),
                out.deep_view() =~= dv0.subrange(0, i as int).filter(keep),
            decreases self.entries.len() - i,
        {
            let e = &self.entries[i];
            let matched = glob_matches(pattern, e.key.as_str());
            proof {
                assert(dv0.subrange(0, i + 1 as int).drop_last() =~= dv0.subrange(0, i as int));
                assert(dv0.subrange(0, i + 1 as int).last() == dv0[i as int]);
                reveal(Seq::filter);
            }
            if !matched {
                let copy = CacheEntry {
                    key: e.key.clone(),
                    payload: clone_bytes(&e.payload),
                    expires_at: e.expires_at,
                };
                out.push(copy);
            }
            i += 1;
        }
        proof {
            assert(dv0.subrange(0, dv0.len() as int) =~= dv0);
            lemma_filter_subseq_unique(dv0, keep);
        }
        self.entries = out;
    }
}

proof fn lemma_cache_find_update(
    dv0: Seq<CacheEntryV>,
    i: int,
    e: CacheEntryV,
    key: Seq<char>,
)
    requires
        0 <= i < dv0.len(),
        e.key == key,
        dv0[i].key == key,
        forall|k: int| 0 <= k < i ==> dv0[k].key != key,
        forall|p: int, q: int| 0 <= p < q < dv0.len() ==> dv0[p].key != dv0[q].key,
    ensures
        spec_cache_find(dv0.update(i, e), key) == Some(e),
        forall|k: Seq<char>|
            k != key ==> #[trigger] spec_cache_find(dv0.update(i, e), k) == spec_cache_find(
                dv0,
                k,
            ),
        forall|p: int, q: int|
            0 <= p < q < dv0.update(i, e).len() ==> dv0.update(i, e)[p].key != dv0.update(
                i,
                e,
            )[q].key,
{
    let dv1 = dv0.update(i, e);
    assert forall|k: Seq<char>| k != key implies #[trigger] spec_cache_find(dv1, k)
        == spec_cache_find(dv0, k) by {
        assert forall|m: int| 0 <= m < dv0.len() implies (dv0[m].key == dv1[m].key && (dv0[m].key
            == k ==> dv0[m] == dv1[m])) by {
            if m != i {
                assert(dv1[m] == dv0[m]);
            }
        }
        lemma_cache_find_pointwise(dv0, dv1, k);
    }
    lemma_cache_find_at(dv1, i, key);
}

/// Finding a key is unchanged/// Finding a key is unchanged when every entry's key is unchanged and only
/// one entry, whose key is not the one sought, changed payload or expiry —
/// or more generally when the two sequences agree on the sought key.
proof fn lemma_cache_find_pointwise(a: Seq<CacheEntryV>, b: Seq<CacheEntryV>, k: Seq<char>)
    requires
        a.len() == b.len(),
        forall|i: int|
            0 <= i < a.len() ==> (a[i].key == b[i].key && (a[i].key == k ==> a[i] == b[i])),
    ensures
        spec_cache_find(a, k) == spec_cache_find(b, k),
    decreases a.len(),
{
    if a.len() > 0 {
        assert(a[0].key == b[0].key);
        if a[0].key == k {
            assert(a[0] == b[0]);
        } else {
            assert forall|i: int| 0 <= i < a.drop_first().len() implies (
                a.drop_first()[i].key == b.drop_first()[i].key && (a.drop_first()[i].key == k
                    ==> a.drop_first()[i] == b.drop_first()[i])) by {
                assert(a.drop_first()[i] == a[i + 1]);
                assert(b.drop_first()[i] == b[i + 1]);
            }
            lemma_cache_find_pointwise(a.drop_first(), b.drop_first(), k);
        }
    }
}

/// When the first occurrence of a key is at `i`, the find returns that
/// entry.
proof fn lemma_cache_find_at(dv: Seq<CacheEntryV>, i: int, key: Seq<char>)
    requires
        0 <= i < dv.len(),
        dv[i].key == key,
        forall|k: int| 0 <= k < i ==> dv[k].key != key,
    ensures
        spec_cache_find(dv, key) == Some(dv[i]),
    decreases i,
{
    if i > 0 {
        assert(dv.drop_first()[i - 1] == dv[i]);
        assert(forall|k: int| 0 <= k < i - 1 ==> dv.drop_first()[k] == dv[k + 1]);
        lemma_cache_find_at(dv.drop_first(), i - 1, key);
    }
}

proof fn lemma_cache_find_push(dv0: Seq<CacheEntryV>, e: CacheEntryV, key: Seq<char>)
    requires
        e.key == key,
        forall|k: int| 0 <= k < dv0.len() ==> dv0[k].key != key,
        forall|p: int, q: int| 0 <= p < q < dv0.len() ==> dv0[p].key != dv0[q].key,
    ensures
        spec_cache_find(dv0.push(e), key) == Some(e),
        forall|k: Seq<char>|
            k != key ==> #[trigger] spec_cache_find(dv0.push(e), k) == spec_cache_find(dv0, k),
        forall|p: int, q: int|
            0 <= p < q < dv0.push(e).len() ==> dv0.push(e)[p].key != dv0.push(e)[q].key,
{
    lemma_cache_find_at(dv0.push(e), dv0.len() as int, key);
    assert forall|k: Seq<char>| k != key implies #[trigger] spec_cache_find(dv0.push(e), k)
        == spec_cache_find(dv0, k) by {
        lemma_cache_find_snoc(dv0, e, k);
    }
}

/// Appending an entry with a different key/// Appending an entry with a different key does not change a find.
proof fn lemma_cache_find_snoc(dv: Seq<CacheEntryV>, e: CacheEntryV, k: Seq<char>)
    requires
        e.key != k,
    ensures
        spec_cache_find(dv.push(e), k) == spec_cache_find(dv, k),
    decreases dv.len(),
{
    if dv.len() == 0 {
        assert(dv.push(e)[0] == e);
        assert(dv.push(e).drop_first() =~= Seq::<CacheEntryV>::empty());
    } else {
        assert(dv.push(e)[0] == dv[0]);
        assert(dv.push(e).drop_first() =~= dv.drop_first().push(e));
        lemma_cache_find_snoc(dv.drop_first(), e, k);
    }
}

/// Filtering keeps pairwise-distinct keys pairwise distinct.
proof fn lemma_filter_subseq_unique(dv: Seq<CacheEntryV>, keep: spec_fn(CacheEntryV) -> bool)
    requires
        forall|p: int, q: int| 0 <= p < q < dv.len() ==> dv[p].key != dv[q].key,
    ensures
        forall|p: int, q: int|
            0 <= p < q < dv.filter(keep).len() ==> dv.filter(keep)[p].key != dv.filter(keep)[q].key,
    decreases dv.len(),
{
    reveal(Seq::filter);
    if dv.len() > 0 {
        let pre = dv.drop_last();
        assert(forall|p: int, q: int| 0 <= p < q < pre.len() ==> pre[p].key != pre[q].key);
        lemma_filter_subseq_unique(pre, keep);
        assert(forall|p: int|
            0 <= p < pre.filter(keep).len() ==> exists|q: int|
                0 <= q < pre.len() && pre[q] == #[trigger] pre.filter(keep)[p]) by {
            lemma_filter_membership(pre, keep);
        }
    }
}

/// One ledger row: an asset as the relational store keeps it, keyed by the
/// pair of external id and folder.
#[derive(Debug, PartialEq)]
pub struct LedgerRow {
    pub seven_tv_id: String,
    pub emote_name: String,
    pub file_name: String,
    pub url: String,
    pub owner_name: Option<String>,
    pub animated: bool,
    pub folder_name: String,
}

/// Mathematical view of a [`LedgerRow`].
pub struct LedgerRowV {
    pub seven_tv_id: Seq<char>,
    pub emote_name: Seq<char>,
    pub file_name: Seq<char>,
    pub url: Seq<char>,
    pub owner_name: Option<Seq<char>>,
    pub animated: bool,
    pub folder_name: Seq<char>,
}

impl View for LedgerRow {
    type V = LedgerRowV;

    open spec fn view(&self) -> LedgerRowV {
        LedgerRowV {
            seven_tv_id: self.seven_tv_id@,
            emote_name: self.emote_name@,
            file_name: self.file_name@,
            url: self.url@,
            owner_name: match self.owner_name {
                Some(ref s) => Some(s@),
                None => None,
            },
            animated: self.animated,
            folder_name: self.folder_name@,
        }
    }
}

impl DeepView for LedgerRow {
    type V = LedgerRowV;

    open spec fn deep_view(&self) -> LedgerRowV {
        self.view()
    }
}

/// The relational ledger: rows unique on (external id, folder).
pub struct Ledger {
    pub rows: Vec<LedgerRow>,
    pub available: bool,
}

/// Whether two rows collide on the (external id, folder) key.
pub open spec fn row_key_eq(a: LedgerRowV, b: LedgerRowV) -> bool {
    a.seven_tv_id == b.seven_tv_id && a.folder_name == b.folder_name
}

/// Whether some row with the key of `row` is present.
pub open spec fn spec_ledger_has(rows: Seq<LedgerRowV>, row: LedgerRowV) -> bool {
    exists|i: int| 0 <= i < rows.len() && row_key_eq(#[trigger] rows[i], row)
}

/// Rows are unique on (external id, folder).
pub open spec fn ledger_wf(l: &Ledger) -> bool {
    forall|i: int, j: int|
        0 <= i < j < l.rows.deep_view().len() ==> !row_key_eq(
            #[trigger] l.rows.deep_view()[i],
            #[trigger] l.rows.deep_view()[j],
        )
}

/// The rows of one folder, oldest first, up to a limit.
pub open spec fn spec_ledger_select(rows: Seq<LedgerRowV>, folder: Seq<char>, limit: int) -> Seq<
    LedgerRowV,
> {
    let all = rows.filter(|r: LedgerRowV| r.folder_name == folder);
    if all.len() <= limit {
        all
    } else {
        all.subrange(0, limit)
    }
}

fn clone_opt_string(o: &Option<String>) -> (r: Option<String>)
    ensures
        (match r {
            Some(ref s) => Some(s@),
            None => None,
        }) == (match o {
            Some(ref s) => Some(s@),
            None => None,
        }),
{
    match o {
        Some(s) => Some(s.clone()),
        None => None,
    }
}

fn clone_row(row: &LedgerRow) -> (r: LedgerRow)
    ensures
        r@ == row@,
{
    LedgerRow {
        seven_tv_id: row.seven_tv_id.clone(),
        emote_name: row.emote_name.clone(),
        file_name: row.file_name.clone(),
        url: row.url.clone(),
        owner_name: clone_opt_string(&row.owner_name),
        animated: row.animated,
        folder_name: row.folder_name.clone(),
    }
}

impl Ledger {
    /// An empty, available ledger.
    pub fn new() -> (r: Ledger)
        ensures
            r.rows.deep_view() =~= Seq::<LedgerRowV>::empty(),
            r.available,
            ledger_wf(&r),
    {
        Ledger { rows: Vec::new(), available: true }
    }

    /// An unavailable ledger: selects fail, writes are dropped.
    pub fn new_unavailable() -> (r: Ledger)
        ensures
            r.rows.deep_view() =~= Seq::<LedgerRowV>::empty(),
            !r.available,
            ledger_wf(&r),
    {
        Ledger { rows: Vec::new(), available: false }
    }

    /// Selects the rows of a folder, up to a limit; an unavailable store
    /// reports failure, which readers treat as they see fit.
    pub fn select_by_folder(&self, folder: &str, limit: usize) -> (r: Option<Vec<LedgerRow>>)
        requires
            ledger_wf(self),
        ensures
            (r is Some) == self.available,
            r matches Some(v) ==> v.deep_view() == spec_ledger_select(
                self.rows.deep_view(),
                folder@,
                limit as int,
            ),
    {
        if !self.available {
            return None;
        }
        let ghost dv = self.rows.deep_view();
        let ghost keep = |r: LedgerRowV| r.folder_name == folder@;
        let mut out: Vec<LedgerRow> = Vec::new();
        let mut i: usize = 0;
        while i < self.rows.len()
            invariant
                dv == self.rows.deep_view(),
                dv.len() == self.rows.len(),
                i <= self.rows.len(),
                keep == (|r: LedgerRowV| r.folder_name == folder@),
                out.len() <= limit,
                out.deep_view() =~= (if dv.subrange(0, i as int).filter(keep).len() <= limit {
                    dv.subrange(0, i as int).filter(keep)
                } else {
                    dv.subrange(0, i as int).filter(keep).subrange(0, limit as int)
                }),
            decreases self.rows.len() - i,
        {
            proof {
                assert(dv.subrange(0, i + 1 as int).drop_last() =~= dv.subrange(0, i as int));
                assert(dv.subrange(0, i + 1 as int).last() == dv[i as int]);
                reveal(Seq::filter);
            }
            let row = &self.rows[i];
            if out.len() < limit && str_eq(row.folder_name.as_str(), folder) {
                out.push(clone_row(row));
            }
            proof {
                let f0 = dv.subrange(0, i as int).filter(keep);
                let f1 = dv.subrange(0, i + 1 as int).filter(keep);
                if keep(dv[i as int]) {
                    assert(f1 =~= f0.push(dv[i as int]));
                    if f0.len() >= limit {
                        assert(f0.push(dv[i as int]).subrange(0, limit as int) =~= f0.subrange(
                            0,
                            limit as int,
                        ));
                    }
                } else {
                    assert(f1 =~= f0);
                }
            }
            i += 1;
        }
        proof {
            assert(dv.subrange(0, dv.len() as int) =~= dv);
        }
        Some(out)
    }

    /// Deletes every row of a folder; dropped when the store is
    /// unavailable.
    pub fn delete_by_folder(&mut self, folder: &str)
        requires
            ledger_wf(old(self)),
        ensures
            ledger_wf(final(self)),
            final(self).available == old(self).available,
            !old(self).available ==> final(self).rows == old(self).rows,
            old(self).available ==> final(self).rows.deep_view() == old(
                self,
            ).rows.deep_view().filter(|r: LedgerRowV| r.folder_name != folder@),
    {
        if !self.available {
            return ;
        }
        let ghost dv0 = self.rows.deep_view();
        let ghost keep = |r: LedgerRowV| r.folder_name != folder@;
        let mut out: Vec<LedgerRow> = Vec::new();
        let mut i: usize = 0;
        while i < self.rows.len()
            invariant
                dv0 == self.rows.deep_view(),
                dv0.len() == self.rows.len(),
                i <= self.rows.len(),
                keep == (|r: LedgerRowV| r.folder_name != folder@),
                out.deep_view() =~= dv0.subrange(0, i as int).filter(keep),
            decreases self.rows.len() - i,
        {
            proof {
                assert(dv0.subrange(0, i + 1 as int).drop_last() =~= dv0.subrange(0, i as int));
                assert(dv0.subrange(0, i + 1 as int).last() == dv0[i as int]);
                reveal(Seq::filter);
            }
            let row = &self.rows[i];
            if !str_eq(row.folder_name.as_str(), folder) {
                out.push(clone_row(row));
            }
            i += 1;
        }
        proof {
            assert(dv0.subrange(0, dv0.len() as int) =~= dv0);
            lemma_ledger_filter_unique(dv0, keep);
        }
        self.rows = out;
    }

    /// Inserts a row unless its (external id, folder) key is already
    /// present; a colliding insert is dropped, as the store's uniqueness
    /// constraint drops it. Dropped entirely when the store is unavailable.
    pub fn insert_row(&mut self, row: LedgerRow)
        requires
            ledger_wf(old(self)),
        ensures
            ledger_wf(final(self)),
            final(self).available == old(self).available,
            !old(self).available ==> final(self).rows == old(self).rows,
            old(self).available ==> final(self).rows.deep_view() == (if spec_ledger_has(
                old(self).rows.deep_view(),
                row@,
            ) {
                old(self).rows.deep_view()
            } else {
                old(self).rows.deep_view().push(row@)
            }),
    {
        if !self.available {
            return ;
        }
        let ghost dv0 = self.rows.deep_view();
        let ghost rv = row@;
        proof {
            assert(forall|p: int, q: int|
                0 <= p < q < dv0.len() ==> !row_key_eq(#[trigger] dv0[p], #[trigger] dv0[q]));
        }
        let mut i: usize = 0;
        while i < self.rows.len()
            invariant
                self.available == old(self).available,
                old(self).available,
                dv0 == self.rows.deep_view(),
                dv0 == old(self).rows.deep_view(),
                dv0.len() == self.rows.len(),
                i <= self.rows.len(),
                rv == row@,
                forall|p: int, q: int|
                    0 <= p < q < dv0.len() ==> !row_key_eq(#[trigger] dv0[p], #[trigger] dv0[q]),
                forall|k: int| 0 <= k < i ==> !row_key_eq(#[trigger] dv0[k], rv),
            decreases self.rows.len() - i,
        {
            let cur = &self.rows[i];
            let hit = str_eq(cur.seven_tv_id.as_str(), row.seven_tv_id.as_str()) && str_eq(
                cur.folder_name.as_str(),
                row.folder_name.as_str(),
            );
            if hit {
                proof {
                    assert(row_key_eq(dv0[i as int], rv));
                    assert(spec_ledger_has(dv0, rv));
                }
                return ;
            }
            i += 1;
        }
        let ghost xpre = self.rows@;
        let ghost ge = row@;
        self.rows.push(row);
        proof {
            assert(!spec_ledger_has(dv0, rv));
            assert forall|m: int| 0 <= m < self.rows.deep_view().len() implies
                self.rows.deep_view()[m] == dv0.push(rv)[m] by {
                if m < dv0.len() {
                    assert(self.rows@[m] == xpre[m]);
                    assert(self.rows.deep_view()[m] == dv0[m]);
                } else {
                    assert(self.rows.deep_view()[m] == ge);
                }
            }
            assert(self.rows.deep_view() =~= dv0.push(rv));
            assert forall|p: int, q: int|
                0 <= p < q < dv0.push(rv).len() implies !row_key_eq(
                #[trigger] dv0.push(rv)[p],
                #[trigger] dv0.push(rv)[q],
            ) by {
                if q == dv0.len() as int {
                    assert(dv0.push(rv)[p] == dv0[p]);
                    assert(!row_key_eq(dv0[p], rv));
                }
            }
        }
    }

    /// Inserts a row, or replaces the row with its (external id, folder)
    /// key in place. Dropped when the store is unavailable.
    pub fn upsert_row(&mut self, row: LedgerRow)
        requires
            ledger_wf(old(self)),
        ensures
            ledger_wf(final(self)),
            final(self).available == old(self).available,
            !old(self).available ==> final(self).rows == old(self).rows,
            old(self).available ==> final(self).rows.deep_view() == spec_upsert_fn(
                old(self).rows.deep_view(),
                row@,
            ),
    {
        if !self.available {
            return ;
        }
        let ghost dv0 = self.rows.deep_view();
        let ghost rv = row@;
        proof {
            assert(forall|p: int, q: int|
                0 <= p < q < dv0.len() ==> !row_key_eq(#[trigger] dv0[p], #[trigger] dv0[q]));
        }
        let mut i: usize = 0;
        while i < self.rows.len()
            invariant
                self.available == old(self).available,
                old(self).available,
                dv0 == self.rows.deep_view(),
                dv0 == old(self).rows.deep_view(),
                dv0.len() == self.rows.len(),
                i <= self.rows.len(),
                rv == row@,
                forall|p: int, q: int|
                    0 <= p < q < dv0.len() ==> !row_key_eq(#[trigger] dv0[p], #[trigger] dv0[q]),
                forall|k: int| 0 <= k < i ==> !row_key_eq(#[trigger] dv0[k], rv),
            decreases self.rows.len() - i,
        {
            let cur = &self.rows[i];
            let hit = str_eq(cur.seven_tv_id.as_str(), row.seven_tv_id.as_str()) && str_eq(
                cur.folder_name.as_str(),
                row.folder_name.as_str(),
            );
            if hit {
                let ghost ge = row@;
                let ghost xpre = self.rows@;
                self.rows.set(i, row);
                proof {
                    assert(row_key_eq(dv0[i as int], rv));
                    assert forall|m: int| 0 <= m < self.rows.deep_view().len() implies
                        self.rows.deep_view()[m] == dv0.update(i as int, rv)[m] by {
                        if m == i as int {
                            assert(self.rows.deep_view()[m] == ge);
                        } else {
                            assert(self.rows@[m] == xpre[m]);
                            assert(self.rows.deep_view()[m] == dv0[m]);
                        }
                    }
                    assert(self.rows.deep_view() =~= dv0.update(i as int, rv));
                    let dv1 = dv0.update(i as int, rv);
                    assert forall|p: int, q: int| 0 <= p < q < dv1.len() implies !row_key_eq(
                        #[trigger] dv1[p],
                        #[trigger] dv1[q],
                    ) by {
                        if p == i as int {
                            assert(dv1[q] == dv0[q]);
                            assert(!row_key_eq(dv0[i as int], dv0[q]));
                        } else if q == i as int {
                            assert(dv1[p] == dv0[p]);
                            assert(!row_key_eq(dv0[p], dv0[i as int]));
                        } else {
                            assert(dv1[p] == dv0[p]);
                            assert(dv1[q] == dv0[q]);
                        }
                    }
                    lemma_upsert_at(dv0, i as int, rv);
                }
                return ;
            }
            i += 1;
        }
        let ghost xpre = self.rows@;
        let ghost ge = row@;
        self.rows.push(row);
        proof {
            assert forall|m: int| 0 <= m < self.rows.deep_view().len() implies
                self.rows.deep_view()[m] == dv0.push(rv)[m] by {
                if m < dv0.len() {
                    assert(self.rows@[m] == xpre[m]);
                    assert(self.rows.deep_view()[m] == dv0[m]);
                } else {
                    assert(self.rows.deep_view()[m] == ge);
                }
            }
            assert(self.rows.deep_view() =~= dv0.push(rv));
            assert forall|p: int, q: int|
                0 <= p < q < dv0.push(rv).len() implies !row_key_eq(
                #[trigger] dv0.push(rv)[p],
                #[trigger] dv0.push(rv)[q],
            ) by {
                if q == dv0.len() as int {
                    assert(dv0.push(rv)[p] == dv0[p]);
                    assert(!row_key_eq(dv0[p], rv));
                }
            }
            lemma_upsert_absent(dv0, rv);
        }
    }
}

/// An upsert as a function: the first row with the same key is replaced in
/// place; when none exists the row is appended.
pub open spec fn spec_upsert_fn(rows: Seq<LedgerRowV>, row: LedgerRowV) -> Seq<LedgerRowV>
    decreases rows.len(),
{
    if rows.len() == 0 {
        seq![row]
    } else if row_key_eq(rows[0], row) {
        seq![row] + rows.drop_first()
    } else {
        seq![rows[0]] + spec_upsert_fn(rows.drop_first(), row)
    }
}

proof fn lemma_upsert_at(rows: Seq<LedgerRowV>, i: int, row: LedgerRowV)
    requires
        0 <= i < rows.len(),
        row_key_eq(rows[i], row),
        forall|k: int| 0 <= k < i ==> !row_key_eq(#[trigger] rows[k], row),
    ensures
        spec_upsert_fn(rows, row) == rows.update(i, row),
    decreases i,
{
    if i == 0 {
        assert(spec_upsert_fn(rows, row) == seq![row] + rows.drop_first());
        assert(seq![row] + rows.drop_first() =~= rows.update(0, row));
    } else {
        assert(!row_key_eq(rows[0], row));
        let rest = rows.drop_first();
        assert(rest[i - 1] == rows[i]);
        assert(forall|k: int| 0 <= k < i - 1 ==> rest[k] == rows[k + 1]);
        lemma_upsert_at(rest, i - 1, row);
        assert(seq![rows[0]] + rest.update(i - 1, row) =~= rows.update(i, row));
    }
}

proof fn lemma_upsert_absent(rows: Seq<LedgerRowV>, row: LedgerRowV)
    requires
        forall|k: int| 0 <= k < rows.len() ==> !row_key_eq(#[trigger] rows[k], row),
    ensures
        spec_upsert_fn(rows, row) == rows.push(row),
    decreases rows.len(),
{
    if rows.len() == 0 {
        assert(spec_upsert_fn(rows, row) =~= rows.push(row));
    } else {
        let rest = rows.drop_first();
        assert(forall|k: int| 0 <= k < rest.len() ==> rest[k] == rows[k + 1]);
        lemma_upsert_absent(rest, row);
        assert(seq![rows[0]] + rest.push(row) =~= rows.push(row));
    }
}

/// Filtering keeps pairwise-distinct row keys pairwise distinct.
proof fn lemma_ledger_filter_unique(dv: Seq<LedgerRowV>, keep: spec_fn(LedgerRowV) -> bool)
    requires
        forall|p: int, q: int| 0 <= p < q < dv.len() ==> !row_key_eq(#[trigger] dv[p], #[trigger] dv[q]),
    ensures
        forall|p: int, q: int|
            0 <= p < q < dv.filter(keep).len() ==> !row_key_eq(
                #[trigger] dv.filter(keep)[p],
                #[trigger] dv.filter(keep)[q],
            ),
    decreases dv.len(),
{
    reveal(Seq::filter);
    if dv.len() > 0 {
        let pre = dv.drop_last();
        assert(forall|p: int, q: int|
            0 <= p < q < pre.len() ==> !row_key_eq(#[trigger] pre[p], #[trigger] pre[q]));
        lemma_ledger_filter_unique(pre, keep);
        assert(forall|p: int|
            0 <= p < pre.filter(keep).len() ==> exists|q: int|
                0 <= q < pre.len() && pre[q] == #[trigger] pre.filter(keep)[p]) by {
            lemma_ledger_filter_membership(pre, keep);
        }
    }
}

/// Every element of a filtered row sequence occurs in the original.
proof fn lemma_ledger_filter_membership(dv: Seq<LedgerRowV>, keep: spec_fn(LedgerRowV) -> bool)
    ensures
        forall|p: int|
            0 <= p < dv.filter(keep).len() ==> exists|q: int|
                0 <= q < dv.len() && dv[q] == #[trigger] dv.filter(keep)[p],
    decreases dv.len(),
{
    reveal(Seq::filter);
    if dv.len() > 0 {
        lemma_ledger_filter_membership(dv.drop_last(), keep);
        assert forall|p: int| 0 <= p < dv.filter(keep).len() implies exists|q: int|
            0 <= q < dv.len() && dv[q] == #[trigger] dv.filter(keep)[p] by {
            let f = dv.filter(keep);
            let fpre = dv.drop_last().filter(keep);
            if p < fpre.len() {
                let q = choose|q: int|
                    0 <= q < dv.drop_last().len() && dv.drop_last()[q] == fpre[p];
                assert(dv[q] == f[p]);
            } else {
                assert(dv[dv.len() - 1] == f[p]);
            }
        }
    }
}

/// One stored blob: a name, its bytes, and a content type.
#[derive(Debug, PartialEq)]
pub struct Blob {
    pub name: String,
    pub content: Vec<u8>,
    pub content_type: String,
}

/// Mathematical view of a [`Blob`].
pub struct BlobV {
    pub name: Seq<char>,
    pub content: Seq<u8>,
    pub content_type: Seq<char>,
}

impl View for Blob {
    type V = BlobV;

    open spec fn view(&self) -> BlobV {
        BlobV { name: self.name@, content: self.content@, content_type: self.content_type@ }
    }
}

impl DeepView for Blob {
    type V = BlobV;

    open spec fn deep_view(&self) -> BlobV {
        self.view()
    }
}

/// The durable blob archive: named blobs under one account and container,
/// with put-if-new, list-by-prefix, delete-by-prefix and get-content.
pub struct BlobArchive {
    pub blobs: Vec<Blob>,
    pub account_name: String,
    pub container_name: String,
    pub available: bool,
}

/// Blob names are unique.
pub open spec fn archive_wf(a: &BlobArchive) -> bool {
    forall|i: int, j: int|
        0 <= i < j < a.blobs.deep_view().len() ==> a.blobs.deep_view()[i].name
            != a.blobs.deep_view()[j].name
}

/// The blob under a name, if any.
pub open spec fn spec_archive_find(blobs: Seq<BlobV>, name: Seq<char>) -> Option<BlobV>
    decreases blobs.len(),
{
    if blobs.len() == 0 {
        None
    } else if blobs[0].name == name {
        Some(blobs[0])
    } else {
        spec_archive_find(blobs.drop_first(), name)
    }
}

/// The base URL of the container.
pub open spec fn spec_container_url(account: Seq<char>, container: Seq<char>) -> Seq<char> {
    "https://"@ + account + ".blob.core.windows.net/"@ + container
}

/// The public URL of a blob: a pure function of account, container and
/// name, so re-uploading never changes it.
pub open spec fn spec_blob_url(account: Seq<char>, container: Seq<char>, name: Seq<char>) -> Seq<
    char,
> {
    spec_container_url(account, container) + "/"@ + name
}

/// The names of the blobs under a prefix, in storage order.
pub open spec fn spec_archive_list(blobs: Seq<BlobV>, prefix: Seq<char>) -> Seq<Seq<char>> {
    blobs.filter(|b: BlobV| prefix.is_prefix_of(b.name)).map_values(|b: BlobV| b.name)
}

impl BlobArchive {
    /// An empty, available archive.
    pub fn new(account_name: String, container_name: String) -> (r: BlobArchive)
        ensures
            r.blobs.deep_view() =~= Seq::<BlobV>::empty(),
            r.account_name@ == account_name@,
            r.container_name@ == container_name@,
            r.available,
            archive_wf(&r),
    {
        BlobArchive { blobs: Vec::new(), account_name, container_name, available: true }
    }

    /// An unavailable archive: reads miss, writes fail.
    pub fn new_unavailable() -> (r: BlobArchive)
        ensures
            r.blobs.deep_view() =~= Seq::<BlobV>::empty(),
            !r.available,
            archive_wf(&r),
    {
        BlobArchive {
            blobs: Vec::new(),
            account_name: String::new(),
            container_name: String::new(),
            available: false,
        }
    }

    /// Whether the archive is configured and reachable.
    pub fn is_available(&self) -> (r: bool)
        ensures
            r == self.available,
    {
        self.available
    }

    /// The base URL under which this container's blobs are served.
    pub fn get_container_url(&self) -> (r: String)
        ensures
            r@ == spec_container_url(self.account_name@, self.container_name@),
    {
        let mut s = "https://".to_owned();
        s.append(self.account_name.as_str());
        s.append(".blob.core.windows.net/");
        s.append(self.container_name.as_str());
        s
    }

    /// Uploads a blob if no blob of that name exists; an existing name
    /// skips the write and returns the same URL, which makes re-ingestion
    /// idempotent and never duplicates an asset.
    pub fn upload_blob(&mut self, data: Vec<u8>, blob_name: &str, content_type: &str) -> (r:
        Result<String, StoreError>)
        requires
            archive_wf(old(self)),
        ensures
            archive_wf(final(self)),
            final(self).available == old(self).available,
            final(self).account_name == old(self).account_name,
            final(self).container_name == old(self).container_name,
            (r is Err) <==> !old(self).available,
            !old(self).available ==> final(self).blobs == old(self).blobs,
            r matches Ok(url) ==> url@ == spec_blob_url(
                old(self).account_name@,
                old(self).container_name@,
                blob_name@,
            ),
            old(self).available ==> final(self).blobs.deep_view() == (if spec_archive_find(
                old(self).blobs.deep_view(),
                blob_name@,
            ) is Some {
                old(self).blobs.deep_view()
            } else {
                old(self).blobs.deep_view().push(
                    BlobV { name: blob_name@, content: data@, content_type: content_type@ },
                )
            }),
    {
        if !self.available {
            return Err(StoreError::Unavailable);
        }
        let url = {
            let mut s = self.get_container_url();
            s.append("/");
            s.append(blob_name);
            s
        };
        let ghost dv0 = self.blobs.deep_view();
        let ghost bv = BlobV { name: blob_name@, content: data@, content_type: content_type@ };
        proof {
            assert(dv0.skip(0) =~= dv0);
            assert(forall|p: int, q: int| 0 <= p < q < dv0.len() ==> dv0[p].name != dv0[q].name);
        }
        let mut i: usize = 0;
        while i < self.blobs.len()
            invariant
                self.available == old(self).available,
                old(self).available,
                self.account_name == old(self).account_name,
                self.container_name == old(self).container_name,
                dv0 == self.blobs.deep_view(),
                dv0 == old(self).blobs.deep_view(),
                dv0.len() == self.blobs.len(),
                i <= self.blobs.len(),
                url@ == spec_blob_url(
                    old(self).account_name@,
                    old(self).container_name@,
                    blob_name@,
                ),
                forall|p: int, q: int| 0 <= p < q < dv0.len() ==> dv0[p].name != dv0[q].name,
                spec_archive_find(dv0.skip(i as int), blob_name@) == spec_archive_find(
                    dv0,
                    blob_name@,
                ),
                forall|k: int| 0 <= k < i ==> dv0[k].name != blob_name@,
            decreases self.blobs.len() - i,
        {
            proof {
                assert(dv0.skip(i as int)[0] == dv0[i as int]);
                assert(dv0.skip(i as int).drop_first() =~= dv0.skip(i + 1 as int));
            }
            if str_eq(self.blobs[i].name.as_str(), blob_name) {
                proof {
                    assert(spec_archive_find(dv0, blob_name@) == Some(dv0[i as int]));
                }
                return Ok(url);
            }
            i += 1;
        }
        proof {
            assert(dv0.skip(dv0.len() as int) =~= Seq::<BlobV>::empty());
            assert(spec_archive_find(dv0, blob_name@) is None);
        }
        let blob = Blob { name: blob_name.to_owned(), content: data, content_type: content_type.to_owned() };
        let ghost ge = blob@;
        let ghost xpre = self.blobs@;
        self.blobs.push(blob);
        proof {
            assert(ge == bv);
            assert forall|m: int| 0 <= m < self.blobs.deep_view().len() implies
                self.blobs.deep_view()[m] == dv0.push(bv)[m] by {
                if m < dv0.len() {
                    assert(self.blobs@[m] == xpre[m]);
                    assert(self.blobs.deep_view()[m] == dv0[m]);
                } else {
                    assert(self.blobs.deep_view()[m] == ge);
                }
            }
            assert(self.blobs.deep_view() =~= dv0.push(bv));
        }
        Ok(url)
    }

    /// Deletes every blob whose name has the prefix; failure when the
    /// store is unavailable, so a resync can abort before mixing stale and
    /// fresh assets.
    pub fn delete_blobs_by_prefix(&mut self, prefix: &str) -> (r: Result<(), StoreError>)
        requires
            archive_wf(old(self)),
        ensures
            archive_wf(final(self)),
            final(self).available == old(self).available,
            final(self).account_name == old(self).account_name,
            final(self).container_name == old(self).container_name,
            (r is Err) <==> !old(self).available,
            !old(self).available ==> final(self).blobs == old(self).blobs,
            old(self).available ==> final(self).blobs.deep_view() == old(
                self,
            ).blobs.deep_view().filter(|b: BlobV| !prefix@.is_prefix_of(b.name)),
    {
        if !self.available {
            return Err(StoreError::Unavailable);
        }
        let ghost dv0 = self.blobs.deep_view();
        let ghost keep = |b: BlobV| !prefix@.is_prefix_of(b.name);
        let mut out: Vec<Blob> = Vec::new();
        let mut i: usize = 0;
        while i < self.blobs.len()
            invariant
                dv0 == self.blobs.deep_view(),
                dv0.len() == self.blobs.len(),
                i <= self.blobs.len(),
                keep == (|b: BlobV| !prefix@.is_prefix_of(b.name)),
                out.deep_view() =~= dv0.subrange(0, i as int).filter(keep),
            decreases self.blobs.len() - i,
        {
            proof {
                assert(dv0.subrange(0, i + 1 as int).drop_last() =~= dv0.subrange(0, i as int));
                assert(dv0.subrange(0, i + 1 as int).last() == dv0[i as int]);
                reveal(Seq::filter);
            }
            let b = &self.blobs[i];
            if !str_has_prefix(b.name.as_str(), prefix) {
                let copy = Blob {
                    name: b.name.clone(),
                    content: clone_bytes(&b.content),
                    content_type: b.content_type.clone(),
                };
                out.push(copy);
            }
            i += 1;
        }
        proof {
            assert(dv0.subrange(0, dv0.len() as int) =~= dv0);
            lemma_archive_filter_unique(dv0, keep);
        }
        self.blobs = out;
        Ok(())
    }

    /// Lists the names of the blobs under a prefix, in storage order; an
    /// unavailable store lists nothing.
    pub fn list_blobs_by_prefix(&self, prefix: &str) -> (r: Vec<String>)
        ensures
            self.available ==> r.deep_view() == spec_archive_list(self.blobs.deep_view(), prefix@),
            !self.available ==> r.deep_view() =~= Seq::<Seq<char>>::empty(),
    {
        let mut out: Vec<String> = Vec::new();
        if !self.available {
            return out;
        }
        let ghost dv = self.blobs.deep_view();
        let ghost keep = |b: BlobV| prefix@.is_prefix_of(b.name);
        let mut i: usize = 0;
        while i < self.blobs.len()
            invariant
                dv == self.blobs.deep_view(),
                dv.len() == self.blobs.len(),
                i <= self.blobs.len(),
                keep == (|b: BlobV| prefix@.is_prefix_of(b.name)),
                out.deep_view() =~= dv.subrange(0, i as int).filter(keep).map_values(
                    |b: BlobV| b.name,
                ),
            decreases self.blobs.len() - i,
        {
            proof {
                assert(dv.subrange(0, i + 1 as int).drop_last() =~= dv.subrange(0, i as int));
                assert(dv.subrange(0, i + 1 as int).last() == dv[i as int]);
                reveal(Seq::filter);
            }
            let b = &self.blobs[i];
            if str_has_prefix(b.name.as_str(), prefix) {
                out.push(b.name.clone());
                proof {
                    assert(dv.subrange(0, i + 1 as int).filter(keep) =~= dv.subrange(
                        0,
                        i as int,
                    ).filter(keep).push(dv[i as int]));
                }
            }
            proof {
                let m = |b: BlobV| b.name;
                if keep(dv[i as int]) {
                    assert(dv.subrange(0, i as int).filter(keep).push(dv[i as int]).map_values(m)
                        =~= dv.subrange(0, i as int).filter(keep).map_values(m).push(
                        dv[i as int].name,
                    ));
                }
            }
            i += 1;
        }
        proof {
            assert(dv.subrange(0, dv.len() as int) =~= dv);
        }
        out
    }

    /// Fetches a blob's bytes: a miss when the store is unavailable or no
    /// blob of that name exists.
    pub fn get_blob_content(&self, blob_name: &str) -> (r: Option<Vec<u8>>)
        requires
            archive_wf(self),
        ensures
            !self.available ==> r is None,
            self.available ==> (match r {
                Some(c) => spec_archive_find(self.blobs.deep_view(), blob_name@) matches Some(b)
                    && b.content == c@,
                None => spec_archive_find(self.blobs.deep_view(), blob_name@) is None,
            }),
    {
        if !self.available {
            return None;
        }
        let ghost dv = self.blobs.deep_view();
        proof {
            assert(dv.skip(0) =~= dv);
        }
        let mut i: usize = 0;
        while i < self.blobs.len()
            invariant
                self.available,
                dv == self.blobs.deep_view(),
                dv.len() == self.blobs.len(),
                i <= self.blobs.len(),
                spec_archive_find(dv.skip(i as int), blob_name@) == spec_archive_find(
                    dv,
                    blob_name@,
                ),
                forall|k: int| 0 <= k < i ==> dv[k].name != blob_name@,
            decreases self.blobs.len() - i,
        {
            proof {
                assert(dv.skip(i as int)[0] == dv[i as int]);
                assert(dv.skip(i as int).drop_first() =~= dv.skip(i + 1 as int));
            }
            let b = &self.blobs[i];
            if str_eq(b.name.as_str(), blob_name) {
                proof {
                    assert(b@ == dv[i as int]);
                    assert(spec_archive_find(dv, blob_name@) == Some(dv[i as int]));
                }
                return Some(clone_bytes(&b.content));
            }
            i += 1;
        }
        proof {
            assert(dv.skip(dv.len() as int) =~= Seq::<BlobV>::empty());
        }
        None
    }
}

/// Filtering keeps pairwise-distinct blob names pairwise distinct.
proof fn lemma_archive_filter_unique(dv: Seq<BlobV>, keep: spec_fn(BlobV) -> bool)
    requires
        forall|p: int, q: int| 0 <= p < q < dv.len() ==> dv[p].name != dv[q].name,
    ensures
        forall|p: int, q: int|
            0 <= p < q < dv.filter(keep).len() ==> dv.filter(keep)[p].name != dv.filter(
                keep,
            )[q].name,
    decreases dv.len(),
{
    reveal(Seq::filter);
    if dv.len() > 0 {
        let pre = dv.drop_last();
        assert(forall|p: int, q: int| 0 <= p < q < pre.len() ==> pre[p].name != pre[q].name);
        lemma_archive_filter_unique(pre, keep);
        assert(forall|p: int|
            0 <= p < pre.filter(keep).len() ==> exists|q: int|
                0 <= q < pre.len() && pre[q] == #[trigger] pre.filter(keep)[p]) by {
            lemma_archive_filter_membership(pre, keep);
        }
    }
}

/// Every element of a filtered blob sequence occurs in the original.
proof fn lemma_archive_filter_membership(dv: Seq<BlobV>, keep: spec_fn(BlobV) -> bool)
    ensures
        forall|p: int|
            0 <= p < dv.filter(keep).len() ==> exists|q: int|
                0 <= q < dv.len() && dv[q] == #[trigger] dv.filter(keep)[p],
    decreases dv.len(),
{
    reveal(Seq::filter);
    if dv.len() > 0 {
        lemma_archive_filter_membership(dv.drop_last(), keep);
        assert forall|p: int| 0 <= p < dv.filter(keep).len() implies exists|q: int|
            0 <= q < dv.len() && dv[q] == #[trigger] dv.filter(keep)[p] by {
            let f = dv.filter(keep);
            let fpre = dv.drop_last().filter(keep);
            if p < fpre.len() {
                let q = choose|q: int|
                    0 <= q < dv.drop_last().len() && dv.drop_last()[q] == fpre[p];
                assert(dv[q] == f[p]);
            } else {
                assert(dv[dv.len() - 1] == f[p]);
            }
        }
    }
}

/// Every element of a filtered sequence occurs in the original.
proof fn lemma_filter_membership(dv: Seq<CacheEntryV>, keep: spec_fn(CacheEntryV) -> bool)
    ensures
        forall|p: int|
            0 <= p < dv.filter(keep).len() ==> exists|q: int|
                0 <= q < dv.len() && dv[q] == #[trigger] dv.filter(keep)[p],
    decreases dv.len(),
{
    reveal(Seq::filter);
    if dv.len() > 0 {
        lemma_filter_membership(dv.drop_last(), keep);
        assert forall|p: int| 0 <= p < dv.filter(keep).len() implies exists|q: int|
            0 <= q < dv.len() && dv[q] == #[trigger] dv.filter(keep)[p] by {
            let f = dv.filter(keep);
            let fpre = dv.drop_last().filter(keep);
            if p < fpre.len() {
                let q = choose|q: int|
                    0 <= q < dv.drop_last().len() && dv.drop_last()[q] == fpre[p];
                assert(dv[q] == f[p]);
            } else {
                assert(dv[dv.len() - 1] == f[p]);
            }
        }
    }
}

} // verus!
