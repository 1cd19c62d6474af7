//! The supplier-name cache: a read-through, cache-aside store keyed by tax
//! identifier, in front of the supplier-name lookup.
//!
//! Entries are created lazily on a successful miss, never evicted, expired
//! or invalidated: the backing data is taken to be effectively immutable
//! for the deployment's lifetime, so staleness is an accepted risk of the
//! design, not a fault.  A missed key with no matching supplier is not
//! cached, so a supplier written later can still be discovered.  Callers
//! that share one cache across tasks guard it with a concurrency-safe
//! container; two racing misses may both store the same value, which the
//! store operation absorbs harmlessly.

use vstd::prelude::*;
use crate::model::Database;
use crate::outcome::{AppError, ErrorKind};
use crate::queries::{SupplierName, get_supplier_name_by_tax, spec_supplier_name};

verus! {

/// One cached association of a tax identifier with a supplier name.
struct CacheEntry {
    tax_id: String,
    name: String,
}

/// The tax identifiers of the entries are pairwise distinct.
spec fn entries_unique(s: Seq<CacheEntry>) -> bool {
    forall|a: int, b: int|
        0 <= a < b < s.len() ==> (#[trigger] s[a]).tax_id@ != (#[trigger] s[b]).tax_id@
}

/// The association the entries stand for, as a map of views.
spec fn map_of(s: Seq<CacheEntry>) -> Map<Seq<char>, Seq<char>>
    decreases s.len(),
{
    if s.len() == 0 {
        Map::empty()
    } else {
        map_of(s.drop_last()).insert(s.last().tax_id@, s.last().name@)
    }
}

/// A key is in the association exactly when some entry carries it.
proof fn lemma_map_of_contains(s: Seq<CacheEntry>, k: Seq<char>)
    ensures
        map_of(s).contains_key(k) <==> exists|i: int|
            0 <= i < s.len() && (#[trigger] s[i]).tax_id@ == k,
    decreases s.len(),
{
    if s.len() > 0 {
        lemma_map_of_contains(s.drop_last(), k);
        if s.last().tax_id@ == k {
            assert((#[trigger] s[s.len() - 1]).tax_id@ == k);
        } else {
            if map_of(s).contains_key(k) {
                let i = choose|i: int|
                    0 <= i < s.drop_last().len() && (#[trigger] s.drop_last()[i]).tax_id@ == k;
                assert((#[trigger] s[i]).tax_id@ == k);
            }
            if exists|i: int| 0 <= i < s.len() && (#[trigger] s[i]).tax_id@ == k {
                let i = choose|i: int| 0 <= i < s.len() && (#[trigger] s[i]).tax_id@ == k;
                assert(s.drop_last()[i].tax_id@ == k);
            }
        }
    }
}

/// With pairwise distinct keys, the entry carrying a key names its value.
proof fn lemma_map_of_value(s: Seq<CacheEntry>, k: Seq<char>, i: int)
    requires
        entries_unique(s),
        0 <= i < s.len(),
        s[i].tax_id@ == k,
    ensures
        map_of(s).contains_key(k),
        map_of(s)[k] == s[i].name@,
    decreases s.len(),
{
    if i < s.len() - 1 {
        assert forall|a: int, b: int|
            0 <= a < b < s.drop_last().len() implies (#[trigger] s.drop_last()[a]).tax_id@ != (
        #[trigger] s.drop_last()[b]).tax_id@ by {
            assert(s.drop_last()[a] == s[a]);
            assert(s.drop_last()[b] == s[b]);
        }
        assert(s.drop_last()[i] == s[i]);
        lemma_map_of_value(s.drop_last(), k, i);
        assert(s[i].tax_id@ != s[s.len() - 1].tax_id@);
    }
}

/// The concurrent-safe container around this type belongs to the caller;
/// the cache itself is the sequential lookup/store-on-miss core.
pub struct SupplierNameCache {
    entries: Vec<CacheEntry>,
}

impl View for SupplierNameCache {
    type V = Map<Seq<char>, Seq<char>>;

    closed spec fn view(&self) -> Map<Seq<char>, Seq<char>> {
        map_of(self.entries@)
    }
}

/// Every cached association agrees with the supplier table: the cache
/// holds only names the underlying lookup would itself return.
pub open spec fn cache_consistent(m: Map<Seq<char>, Seq<char>>, db: Database) -> bool {
    forall|k: Seq<char>|
        #[trigger] m.contains_key(k) ==> (spec_supplier_name(db.suppliers@, k) matches Some(n)
            && n.name@ == m[k])
}

impl SupplierNameCache {
    /// Internal well-formedness: one entry per tax identifier.
    pub closed spec fn wf(self) -> bool {
        entries_unique(self.entries@)
    }

    /// An empty cache.
    pub fn new() -> (c: SupplierNameCache)
        ensures
            c.wf(),
            c@ == Map::<Seq<char>, Seq<char>>::empty(),
    {
        SupplierNameCache { entries: Vec::new() }
    }

    /// Returns the cached name for a tax identifier, or nothing on a miss.
    pub fn lookup(&self, tax_id: &str) -> (r: Option<String>)
        requires
            self.wf(),
        ensures
            r is Some <==> self@.contains_key(tax_id@),
            r matches Some(n) ==> n@ == self@[tax_id@],
    {
        let key: String = tax_id.to_owned();
        let mut i: usize = 0;
        while i < self.entries.len()
            invariant
                i <= self.entries@.len(),
                key@ == tax_id@,
                self.wf(),
                forall|j: int| 0 <= j < i ==> (#[trigger] self.entries@[j]).tax_id@ != tax_id@,
            decreases self.entries@.len() - i,
        {
            if self.entries[i].tax_id.eq(&key) {
                proof {
                    lemma_map_of_value(self.entries@, tax_id@, i as int);
                }
                return Some(self.entries[i].name.clone());
            }
            i += 1;
        }
        proof {
            lemma_map_of_contains(self.entries@, tax_id@);
        }
        None
    }

    /// Records a name for a tax identifier.  A key already present keeps
    /// its entry unchanged, which makes racing double-stores of the same
    /// association harmless.
    pub fn store(&mut self, tax_id: &str, name: &str)
        requires
            old(self).wf(),
        ensures
            final(self).wf(),
            old(self)@.contains_key(tax_id@) ==> final(self)@ == old(self)@,
            !old(self)@.contains_key(tax_id@) ==> final(self)@ == old(self)@.insert(
                tax_id@,
                name@,
            ),
    {
        let key: String = tax_id.to_owned();
        let mut i: usize = 0;
        while i < self.entries.len()
            invariant
                i <= self.entries@.len(),
                key@ == tax_id@,
                self.wf(),
                forall|j: int| 0 <= j < i ==> (#[trigger] self.entries@[j]).tax_id@ != tax_id@,
            decreases self.entries@.len() - i,
        {
            if self.entries[i].tax_id.eq(&key) {
                proof {
                    lemma_map_of_contains(self.entries@, tax_id@);
                    assert((#[trigger] self.entries@[i as int]).tax_id@ == tax_id@);
                }
                return ;
            }
            i += 1;
        }
        proof {
            lemma_map_of_contains(self.entries@, tax_id@);
        }
        let ghost prev = self.entries@;
        self.entries.push(CacheEntry { tax_id: key, name: name.to_owned() });
        proof {
            assert(self.entries@.drop_last() =~= prev);
            assert forall|a: int, b: int|
                0 <= a < b < self.entries@.len() implies (#[trigger] self.entries@[a]).tax_id@ != (
            #[trigger] self.entries@[b]).tax_id@ by {
                if b < self.entries@.len() - 1 {
                    assert(prev[a] == self.entries@[a]);
                    assert(prev[b] == self.entries@[b]);
                } else {
                    assert(prev[a] == self.entries@[a]);
                }
            }
        }
    }
}

/// Cache-aside lookup of a supplier name by tax identifier against a
/// snapshot of the base tables.  A hit answers from the cache alone; a
/// miss consults the underlying lookup and stores a successful answer
/// before returning it; a miss with no matching supplier stores nothing.
/// The second component reports whether the underlying catalog was
/// consulted, which a hit never does.
pub fn get_supplier_name_cached(
    cache: &mut SupplierNameCache,
    db: &Database,
    tax_id: &str,
) -> (r: (Result<SupplierName, AppError>, bool))
    requires
        old(cache).wf(),
    ensures
        final(cache).wf(),
        old(cache)@.contains_key(tax_id@) ==> (!r.1 && final(cache)@ == old(cache)@ && (r.0
            matches Ok(n) && n.name@ == old(cache)@[tax_id@])),
        !old(cache)@.contains_key(tax_id@) ==> r.1,
        !old(cache)@.contains_key(tax_id@) ==> (spec_supplier_name(db.suppliers@, tax_id@)
            matches Some(n) ==> (r.0 matches Ok(got) && got == n
            && final(cache)@ == old(cache)@.insert(tax_id@, n.name@))),
        !old(cache)@.contains_key(tax_id@) && spec_supplier_name(db.suppliers@, tax_id@) is None
            ==> ((r.0 matches Err(e) && e.kind == ErrorKind::NotFound)
            && final(cache)@ == old(cache)@),
        cache_consistent(old(cache)@, *db) ==> cache_consistent(final(cache)@, *db),
{
    match cache.lookup(tax_id) {
        Some(name) => (Ok(SupplierName { name }), false),
        None => {
            let res = get_supplier_name_by_tax(db, tax_id);
            match res {
                Ok(n) => {
                    cache.store(tax_id, n.name.as_str());
                    proof {
                        if cache_consistent(old(cache)@, *db) {
                            assert forall|k2: Seq<char>| #[trigger] cache@.contains_key(
                                k2,
                            ) implies (spec_supplier_name(db.suppliers@, k2) matches Some(m2)
                                && m2.name@ == cache@[k2]) by {
                                if k2 != tax_id@ {
                                    assert(old(cache)@.contains_key(k2));
                                }
                            }
                        }
                    }
                    (Ok(n), true)
                },
                Err(e) => (Err(e), true),
            }
        },
    }
}

/// The cache-aside decision applied to an underlying store's answer for a
/// missed key: a successful answer is recorded and returned; a failure of
/// any kind leaves the cache exactly as it was and passes through, so a
/// key with no matching supplier is never cached.
pub fn fill_from_store(
    cache: &mut SupplierNameCache,
    tax_id: &str,
    store_result: Result<SupplierName, AppError>,
) -> (r: Result<SupplierName, AppError>)
    requires
        old(cache).wf(),
    ensures
        final(cache).wf(),
        store_result matches Ok(n) ==> (r matches Ok(m) && m == n
            && (old(cache)@.contains_key(tax_id@) ==> final(cache)@ == old(cache)@)
            && (!old(cache)@.contains_key(tax_id@)
                ==> final(cache)@ == old(cache)@.insert(tax_id@, n.name@))),
        store_result matches Err(e) ==> (r matches Err(f) && f == e
            && final(cache)@ == old(cache)@),
{
    match store_result {
        Ok(n) => {
            cache.store(tax_id, n.name.as_str());
            Ok(n)
        },
        Err(e) => Err(e),
    }
}

/// Law: a successful miss populates the cache for its key.  After the
/// cache absorbs the name that the underlying lookup returned for a
/// previously unseen identifier, that identifier is present and maps to
/// exactly that name, so a second lookup of it is a hit that answers the
/// identical name without another round-trip.
pub proof fn lemma_miss_then_hit(m: Map<Seq<char>, Seq<char>>, db: Database, key: Seq<char>)
    requires
        spec_supplier_name(db.suppliers@, key) is Some,
    ensures
        m.insert(key, spec_supplier_name(db.suppliers@, key).unwrap().name@).contains_key(key),
        m.insert(key, spec_supplier_name(db.suppliers@, key).unwrap().name@)[key]
            == spec_supplier_name(db.suppliers@, key).unwrap().name@,
{
}

/// Law: a cache hit agrees with the store.  When every cached entry came
/// from the supplier table, the name answered on a hit is identical to
/// the name a fresh lookup of the same identifier would return, so a
/// second lookup of a cached key needs no second round-trip.
pub proof fn lemma_cache_hit_matches_store(
    m: Map<Seq<char>, Seq<char>>,
    db: Database,
    key: Seq<char>,
)
    requires
        cache_consistent(m, db),
        m.contains_key(key),
    ensures
        spec_supplier_name(db.suppliers@, key) matches Some(n) && n.name@ == m[key],
{
}

} // verus!
