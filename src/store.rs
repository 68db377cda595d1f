//! Key layout of the key-value store, and the cache refresh that reads prices
//! back from it.

use vstd::prelude::*;
use crate::naming::normalized;
use crate::pricing::{key_is, price_for, PriceCache, PriceInfo};
use crate::text::{chars_of, starts_with, starts_with_chars, string_of};

verus! {

/// Seconds an idle chat history is kept (24 hours); every append renews it.
pub const CHAT_HISTORY_TTL_SECS: u64 = 86400;

/// The store key of the prices of a normalised model name.
pub open spec fn price_key_text(k: Seq<char>) -> Seq<char> {
    "price:"@ + k
}

/// The store key of the chat history of a session.
pub open spec fn chat_key_text(session_id: Seq<char>) -> Seq<char> {
    "sentinel:chat:"@ + session_id
}

/// `prefix` followed by `rest`.
fn joined(prefix: &str, rest: &str) -> (r: String)
    ensures
        r@ == prefix@ + rest@,
{
    let mut v = chars_of(prefix);
    let mut w = chars_of(rest);
    v.append(&mut w);
    string_of(&v)
}

/// The store key under which the prices of `model_key` are kept.
pub fn price_key(model_key: &str) -> (r: String)
    ensures
        r@ == price_key_text(model_key@),
{
    joined("price:", model_key)
}

/// The store key under which the chat history of `session_id` is kept.
pub fn chat_key(session_id: &str) -> (r: String)
    ensures
        r@ == chat_key_text(session_id@),
{
    joined("sentinel:chat:", session_id)
}

/// The model name that a price key stands for: what follows `price:`.
pub open spec fn model_of_key(store_key: Seq<char>) -> Option<Seq<char>> {
    if starts_with(store_key, "price:"@) {
        Some(store_key.subrange("price:"@.len() as int, store_key.len() as int))
    } else {
        None
    }
}

/// The model name that a price key stands for, or `None` for another key.
pub fn model_of_price_key(store_key: &str) -> (r: Option<String>)
    ensures
        r.is_some() == model_of_key(store_key@).is_some(),
        r.is_some() ==> r.unwrap()@ == model_of_key(store_key@).unwrap(),
{
    let v = chars_of(store_key);
    let prefix = chars_of("price:");
    if !starts_with_chars(&v, &prefix) {
        return None;
    }
    let mut rest: Vec<char> = Vec::new();
    let mut i: usize = prefix.len();
    while i < v.len()
        invariant
            prefix@.len() <= i <= v@.len(),
            rest@ == v@.subrange(prefix@.len() as int, i as int),
        decreases v@.len() - i,
    {
        rest.push(v[i]);
        i = i + 1;
        assert(rest@ =~= v@.subrange(prefix@.len() as int, i as int));
    }
    Some(string_of(&rest))
}

/// A price record read from the store, under its store key.
#[derive(Clone, Debug)]
pub struct StoredPrice {
    pub store_key: String,
    pub price: PriceInfo,
}

/// The cache that a refresh builds from records read in this order: each price
/// key gives its model name the record's prices, a later record of the same
/// name replacing an earlier one; other keys are passed over.
pub open spec fn store_map(records: Seq<StoredPrice>) -> Map<Seq<char>, PriceInfo>
    decreases records.len(),
{
    if records.len() == 0 {
        Map::empty()
    } else {
        let last = records.last();
        let rest = store_map(records.drop_last());
        match model_of_key(last.store_key@) {
            Some(k) => rest.insert(k, last.price),
            None => rest,
        }
    }
}

/// Builds the price cache from the price records read from the store.
pub fn cache_from_store(records: &Vec<StoredPrice>) -> (r: PriceCache)
    ensures
        r.wf(),
        r.as_map() == store_map(records@),
{
    let mut cache = PriceCache::new();
    proof {
        assert(cache.as_map() =~= Map::<Seq<char>, PriceInfo>::empty());
        assert(records@.subrange(0, 0) =~= Seq::<StoredPrice>::empty());
    }
    let mut i: usize = 0;
    while i < records.len()
        invariant
            i <= records@.len(),
            cache.wf(),
            cache.as_map() == store_map(records@.subrange(0, i as int)),
        decreases records@.len() - i,
    {
        proof {
            assert(records@.subrange(0, i + 1).drop_last() =~= records@.subrange(0, i as int));
        }
        match model_of_price_key(records[i].store_key.as_str()) {
            Some(k) => {
                cache.insert(k, records[i].price);
            },
            None => {},
        }
        i = i + 1;
    }
    assert(records@.subrange(0, i as int) =~= records@);
    cache
}

/// `records` lists each price record of `store` once: every price key of the
/// store with its prices, and nothing else.
pub open spec fn scan_of(records: Seq<StoredPrice>, store: Map<Seq<char>, PriceInfo>) -> bool {
    &&& forall|i: int, j: int|
        0 <= i < j < records.len() ==> records[i].store_key@ != records[j].store_key@
    &&& forall|i: int|
        0 <= i < records.len() ==> store.contains_key(#[trigger] records[i].store_key@)
            && store[records[i].store_key@] == records[i].price && starts_with(
            records[i].store_key@,
            "price:"@,
        )
    &&& forall|key: Seq<char>|
        store.contains_key(key) && starts_with(key, "price:"@) ==> exists|i: int|
            0 <= i < records.len() && #[trigger] records[i].store_key@ == key
}

proof fn lemma_price_key_parts(k: Seq<char>)
    ensures
        starts_with(price_key_text(k), "price:"@),
        model_of_key(price_key_text(k)) == Some(k),
{
    let t = price_key_text(k);
    assert(t.subrange(0, "price:"@.len() as int) =~= "price:"@);
    assert(t.subrange("price:"@.len() as int, t.len() as int) =~= k);
}

proof fn lemma_store_map_finds(records: Seq<StoredPrice>, i: int, k: Seq<char>)
    requires
        forall|a: int, b: int|
            0 <= a < b < records.len() ==> records[a].store_key@ != records[b].store_key@,
        forall|a: int| 0 <= a < records.len() ==> starts_with(#[trigger] records[a].store_key@, "price:"@),
        0 <= i < records.len(),
        records[i].store_key@ == price_key_text(k),
    ensures
        store_map(records).contains_key(k),
        store_map(records)[k] == records[i].price,
    decreases records.len(),
{
    lemma_price_key_parts(k);
    let n = records.len() - 1;
    let last = records.last();
    if i == n {
    } else {
        let front = records.drop_last();
        assert(front[i] == records[i]);
        lemma_store_map_finds(front, i, k);
        let lk = last.store_key@;
        assert(lk != price_key_text(k));
        assert(starts_with(lk, "price:"@));
        let m = lk.subrange("price:"@.len() as int, lk.len() as int);
        if m == k {
            assert(lk =~= "price:"@ + m) by {
                assert(lk.subrange(0, "price:"@.len() as int) == "price:"@);
            }
        }
    }
}

/// A price that a sync cycle writes under a normalised model name is, after the
/// cache is refreshed from the store, what a lookup of that name finds.
pub proof fn lemma_price_round_trip(
    store: Map<Seq<char>, PriceInfo>,
    k: Seq<char>,
    p: PriceInfo,
    records: Seq<StoredPrice>,
    cache: PriceCache,
)
    requires
        normalized(k) == k,
        scan_of(records, store.insert(price_key_text(k), p)),
        cache.wf(),
        cache.as_map() == store_map(records),
    ensures
        price_for(cache@, k) == p,
{
    let written = store.insert(price_key_text(k), p);
    lemma_price_key_parts(k);
    assert(written.contains_key(price_key_text(k)));
    let i = choose|i: int| 0 <= i < records.len() && #[trigger] records[i].store_key@ == price_key_text(k);
    assert(records[i].price == p);
    lemma_store_map_finds(records, i, k);
    assert(cache.as_map().dom().contains(k));
    let j = choose|j: int| 0 <= j < cache@.len() && cache@[j].0 == k;
    crate::pricing::lemma_first_where_bounds(cache@, key_is(k));
    assert(key_is(k)(cache@[j]));
}

} // verus!
