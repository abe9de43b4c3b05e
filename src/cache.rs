//! A capacity-bounded, least-recently-used cache of compiled tables, keyed by
//! a hash of the specification text. An entry also keeps its text, and a hit
//! is only taken when the texts are equal, so a hash collision costs a
//! recompilation, never a wrong table.
use crate::config::ConfigError;
use crate::machine::share;
use crate::model::same_text;
use crate::parse::{compile_outcome, compile_text, compiled_from_text};
use crate::table::CompiledSpec;
use std::sync::Arc;
use vstd::prelude::*;

verus! {

/// Capacity used when none, or zero, is configured.
pub const DEFAULT_CACHE_SIZE: usize = 100;

/// The value of a run of decimal digits.
pub open spec fn digits_value(s: Seq<char>) -> int
    decreases s.len(),
{
    if s.len() == 0 {
        0
    } else {
        digits_value(s.drop_last()) * 10 + (s.last() as int - '0' as int)
    }
}

/// The unsigned integer a text denotes: an optional `+`, then one or more
/// ASCII digits, with a value that fits in `usize`.
pub open spec fn decimal_of(s: Seq<char>) -> Option<usize> {
    let body = if s.len() > 0 && s[0] == '+' {
        s.drop_first()
    } else {
        s
    };
    if body.len() > 0 && (forall|i: int| 0 <= i < body.len() ==> '0' <= #[trigger] body[i] <= '9')
        && digits_value(body) <= usize::MAX {
        Some(digits_value(body) as usize)
    } else {
        None
    }
}

/// Relies on `str::parse::<usize>`: an optional `+` and decimal digits whose
/// value fits, else an error.
#[verifier::external_body]
fn parse_usize(s: &str) -> (r: Option<usize>)
    ensures
        r == decimal_of(s@),
{
    s.parse::<usize>().ok()
}

/// The cache capacity a setting asks for: a positive decimal number, or else
/// (absent, not a number, or zero) the default.
pub fn get_cache_size(setting: Option<&str>) -> (r: usize)
    ensures
        r == match setting {
            Some(s) => match decimal_of(s@) {
                Some(n) => if n > 0 {
                    n
                } else {
                    DEFAULT_CACHE_SIZE
                },
                None => DEFAULT_CACHE_SIZE,
            },
            None => DEFAULT_CACHE_SIZE,
        },
        r > 0,
{
    match setting {
        Some(s) => match parse_usize(s) {
            Some(n) => if n > 0 {
                n
            } else {
                DEFAULT_CACHE_SIZE
            },
            None => DEFAULT_CACHE_SIZE,
        },
        None => DEFAULT_CACHE_SIZE,
    }
}

/// A compiled table together with the text it was compiled from.
pub struct CacheEntry {
    source: String,
    table: Arc<CompiledSpec>,
}

impl CacheEntry {
    #[verifier::type_invariant]
    spec fn inv(&self) -> bool {
        compiled_from_text(*self.table, self.source@)
    }

    pub closed spec fn spec_source(&self) -> Seq<char> {
        self.source@
    }

    pub closed spec fn spec_table(&self) -> CompiledSpec {
        *self.table
    }
}

/// `lru::LruCache`, held opaquely; its contents are named by [`lru_contents`].
#[verifier::external_type_specification]
#[verifier::external_body]
#[verifier::reject_recursive_types(K)]
#[verifier::reject_recursive_types(V)]
#[verifier::reject_recursive_types(S)]
pub struct ExLruCache<K, V, S>(lru::LruCache<K, V, S>);

/// The hash builder that `lru::LruCache` uses by default, held opaquely.
#[verifier::external_type_specification]
#[verifier::external_body]
pub struct ExLruHasher(lru::DefaultHasher);

/// The LRU cache that holds the entries.
pub type EntryCache = lru::LruCache<u64, Arc<CacheEntry>>;

/// The entries an LRU cache holds, by key.
pub uninterp spec fn lru_contents(c: EntryCache) -> Map<u64, CacheEntry>;

/// The capacity an LRU cache was made with.
pub uninterp spec fn lru_capacity(c: EntryCache) -> nat;

/// The hash of a text under std's `DefaultHasher`.
pub uninterp spec fn text_hash(s: Seq<char>) -> u64;

/// Relies on `lru::LruCache::new`: an empty cache of capacity `cap`.
#[verifier::external_body]
fn lru_new(cap: usize) -> (r: EntryCache)
    requires
        cap > 0,
    ensures
        lru_contents(r).is_empty(),
        lru_capacity(r) == cap,
{
    lru::LruCache::new(std::num::NonZeroUsize::new(cap).unwrap())
}

/// Relies on `lru::LruCache::get`: the entry under `k`, if any; a hit only
/// makes the entry the most recently used.
#[verifier::external_body]
fn lru_get(c: &mut EntryCache, k: u64) -> (r: Option<Arc<CacheEntry>>)
    ensures
        lru_contents(*final(c)) == lru_contents(*old(c)),
        lru_capacity(*final(c)) == lru_capacity(*old(c)),
        match r {
            Some(e) => lru_contents(*old(c)).contains_key(k) && *e == lru_contents(*old(c))[k],
            None => !lru_contents(*old(c)).contains_key(k),
        },
{
    c.get(&k).cloned()
}

/// Relies on `lru::LruCache::put`: stores `v` under `k`; when `k` is new and
/// the cache is full, the least recently used entry leaves.
#[verifier::external_body]
fn lru_put(c: &mut EntryCache, k: u64, v: Arc<CacheEntry>)
    ensures
        lru_capacity(*final(c)) == lru_capacity(*old(c)),
        lru_contents(*old(c)).contains_key(k) || lru_contents(*old(c)).len() < lru_capacity(*old(c))
            ==> lru_contents(*final(c)) == lru_contents(*old(c)).insert(k, *v),
        !lru_contents(*old(c)).contains_key(k) && lru_contents(*old(c)).len() >= lru_capacity(
            *old(c),
        ) ==> exists|gone: u64|
            lru_contents(*old(c)).contains_key(gone) && lru_contents(*final(c)) == lru_contents(
                *old(c),
            ).remove(gone).insert(k, *v),
{
    c.put(k, v);
}

/// Relies on `BuildHasher::hash_one` with std's `DefaultHasher`, whose
/// instances made by `default` all hash alike.
#[verifier::external_body]
fn hash_text(text: &str) -> (r: u64)
    ensures
        r == text_hash(text@),
{
    std::hash::BuildHasher::hash_one(&std::hash::BuildHasherDefault::<std::collections::hash_map::DefaultHasher>::default(), text)
}

/// The specification cache.
pub struct SpecCache {
    entries: EntryCache,
}

impl SpecCache {
    /// The entries held, by key.
    pub closed spec fn contents(&self) -> Map<u64, CacheEntry> {
        lru_contents(self.entries)
    }

    pub closed spec fn capacity(&self) -> nat {
        lru_capacity(self.entries)
    }

    /// A cache has room for at least one table.
    pub open spec fn wf(&self) -> bool {
        self.capacity() > 0
    }

    /// Whether the cache holds a table for `text`.
    pub open spec fn holds(&self, text: Seq<char>) -> bool {
        self.contents().contains_key(text_hash(text)) && self.contents()[text_hash(
            text,
        )].spec_source() == text
    }

    /// An empty cache holding up to `capacity` tables; a capacity of zero
    /// means the default.
    pub fn new(capacity: usize) -> (r: SpecCache)
        ensures
            r.wf(),
            r.contents().is_empty(),
            r.capacity() == if capacity == 0 {
                DEFAULT_CACHE_SIZE
            } else {
                capacity
            },
    {
        let cap = if capacity == 0 {
            DEFAULT_CACHE_SIZE
        } else {
            capacity
        };
        SpecCache { entries: lru_new(cap) }
    }

    /// The compiled table for `text`: the cached one when the cache holds
    /// this text, else a fresh compilation, which is cached when it succeeds.
    pub fn get_or_compile(&mut self, text: &str) -> (r: Result<Arc<CompiledSpec>, ConfigError>)
        requires
            old(self).wf(),
        ensures
            final(self).wf(),
            match r {
                Ok(t) => compile_outcome(text@, Ok(*t)),
                Err(e) => compile_outcome(text@, Err(e)),
            },
            r matches Ok(t) ==> final(self).holds(text@)
                && final(self).contents()[text_hash(text@)].spec_table() == *t,
            old(self).holds(text@) ==> (r matches Ok(t) && *t == old(self).contents()[text_hash(
                text@,
            )].spec_table()),
            final(self).capacity() == old(self).capacity(),
            r is Err ==> final(self).contents() == old(self).contents(),
    {
        let key = hash_text(text);
        match lru_get(&mut self.entries, key) {
            Some(entry) => {
                proof {
                    use_type_invariant(&*entry);
                }
                if same_text(entry.source.as_str(), text) {
                    let t = share(&entry.table);
                    assert(crate::decode::decodes_config(
                        crate::parse::parsed_json(text@)->Ok_0,
                        (*t).source(),
                    ));
                    return Ok(t);
                }
            },
            None => {},
        }
        match compile_text(text) {
            Ok(t) => {
                let table = Arc::new(t);
                let entry = CacheEntry { source: text.to_owned(), table: share(&table) };
                lru_put(&mut self.entries, key, Arc::new(entry));
                Ok(table)
            },
            Err(e) => Err(e),
        }
    }
}

} // verus!
