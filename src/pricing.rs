//! Unit prices, the in-memory price cache and the cost of a request.
//!
//! Money is counted in pico-units: 10^-12 of a unit of the display currency.
//! A price is the cost of one token in pico-units.

use vstd::prelude::*;
use crate::naming::{lower_of, lowercase, normalize_model_name, normalized};
use crate::text::{chars_of, contains_chars, occurs_in, same_chars, str_contains};

verus! {

/// Pico-units in one unit of currency.
pub const PICOS_PER_UNIT: u64 = 1_000_000_000_000;

/// The price used for both directions when no cache entry matches a model
/// (0.00001 per token).
pub const FALLBACK_PRICE: u64 = 10_000_000;

/// An input price above this (0.01 per token) is taken to be quoted in CNY.
pub const CNY_INPUT_PRICE_FLOOR: u64 = 10_000_000_000;

/// Whether DeepSeek costs, kept in USD by the catalogue, are reported in CNY.
pub const FORCE_CNY_FOR_CHINESE_MODELS: bool = true;

/// The USD to CNY factor applied to DeepSeek costs, in tenths (7.2).
pub const DEEPSEEK_FX_TENTHS: u64 = 72;

/// Unit prices of one model, in pico-units per token.
#[derive(Clone, Copy, Debug, PartialEq, Eq, Structural)]
pub struct PriceInfo {
    pub input_price: u64,
    pub output_price: u64,
}

/// The display currency of a cost.
#[derive(Clone, Copy, Debug, PartialEq, Eq, Structural)]
pub enum Currency {
    Usd,
    Cny,
}

impl Currency {
    /// The ISO code of the currency.
    pub fn code(&self) -> (r: &'static str)
        ensures
            *self == Currency::Usd ==> r@ == "USD"@,
            *self == Currency::Cny ==> r@ == "CNY"@,
    {
        match self {
            Currency::Usd => "USD",
            Currency::Cny => "CNY",
        }
    }
}

/// `x` limited to what a `u64` holds.
pub open spec fn cap(x: int) -> int {
    if x > u64::MAX {
        u64::MAX as int
    } else {
        x
    }
}

/// The fallback price entry.
pub open spec fn fallback_price() -> PriceInfo {
    PriceInfo { input_price: FALLBACK_PRICE, output_price: FALLBACK_PRICE }
}

/// The lowercased model name names a vendor whose prices are kept in CNY.
pub open spec fn is_chinese_family(l: Seq<char>) -> bool {
    occurs_in(l, "qwen"@) || occurs_in(l, "glm"@) || occurs_in(l, "zhipu"@) || occurs_in(
        l,
        "yi-"@,
    ) || occurs_in(l, "deepseek"@)
}

/// The currency in which a cost for `model` at `price` is reported.
pub open spec fn currency_for(model: Seq<char>, price: PriceInfo) -> Currency {
    if is_chinese_family(lower_of(model)) || price.input_price > CNY_INPUT_PRICE_FLOOR {
        Currency::Cny
    } else {
        Currency::Usd
    }
}

/// Costs for `model` are converted from USD to CNY before they are reported.
pub open spec fn fx_applies(model: Seq<char>) -> bool {
    FORCE_CNY_FOR_CHINESE_MODELS && occurs_in(lower_of(model), "deepseek"@)
}

/// The cost of `prompt` input and `completion` output tokens at `price`, before
/// any conversion.
pub open spec fn raw_cost(prompt: int, completion: int, price: PriceInfo) -> int {
    prompt * price.input_price + completion * price.output_price
}

/// The reported cost, in pico-units, of `prompt` input and `completion` output
/// tokens of `model` at `price`: the raw cost, times 7.2 (rounded down) for
/// DeepSeek models, limited to what a `u64` holds.
pub open spec fn billed_cost(model: Seq<char>, prompt: int, completion: int, price: PriceInfo) -> int {
    if fx_applies(model) {
        cap(raw_cost(prompt, completion, price) * DEEPSEEK_FX_TENTHS / 10)
    } else {
        cap(raw_cost(prompt, completion, price))
    }
}

/// `a * b`, limited to what a `u64` holds.
fn capped_mul(a: u64, b: u64) -> (r: u64)
    ensures
        r == cap(a * b),
{
    assert((a as int) * (b as int) <= (u64::MAX as int) * (u64::MAX as int)) by (nonlinear_arith)
        requires
            a <= u64::MAX,
            b <= u64::MAX,
            0 <= a,
            0 <= b,
    ;
    let p: u128 = (a as u128) * (b as u128);
    if p > u64::MAX as u128 {
        u64::MAX
    } else {
        p as u64
    }
}

/// The lowercased model name names a vendor whose prices are kept in CNY.
fn chinese_family(l: &str) -> (r: bool)
    ensures
        r == is_chinese_family(l@),
{
    str_contains(l, "qwen") || str_contains(l, "glm") || str_contains(l, "zhipu") || str_contains(
        l,
        "yi-",
    ) || str_contains(l, "deepseek")
}

/// The currency in which a cost for `model` at `price` is reported.
pub fn currency_of(model: &str, price: &PriceInfo) -> (r: Currency)
    ensures
        r == currency_for(model@, *price),
{
    let l = lowercase(model);
    if chinese_family(l.as_str()) || price.input_price > CNY_INPUT_PRICE_FLOOR {
        Currency::Cny
    } else {
        Currency::Usd
    }
}

/// The reported cost, in pico-units, and its currency for `prompt` input and
/// `completion` output tokens of `model` at `price`.
pub fn priced_cost(model: &str, prompt: u64, completion: u64, price: &PriceInfo) -> (r: (
    u64,
    Currency,
))
    ensures
        r.0 == billed_cost(model@, prompt as int, completion as int, *price),
        r.1 == currency_for(model@, *price),
{
    let a = capped_mul(prompt, price.input_price);
    let b = capped_mul(completion, price.output_price);
    let ghost x = prompt * price.input_price;
    let ghost y = completion * price.output_price;
    assert(x >= 0 && y >= 0) by (nonlinear_arith)
        requires
            x == prompt * price.input_price,
            y == completion * price.output_price,
    ;
    let sum: u128 = a as u128 + b as u128;
    let raw: u64 = if sum > u64::MAX as u128 {
        u64::MAX
    } else {
        sum as u64
    };
    assert(raw == cap(x + y));
    let l = lowercase(model);
    let deepseek = str_contains(l.as_str(), "deepseek");
    let cost: u64 = if FORCE_CNY_FOR_CHINESE_MODELS && deepseek {
        let scaled: u128 = raw as u128 * DEEPSEEK_FX_TENTHS as u128 / 10;
        assert(raw * 72 / 10 >= raw) by (nonlinear_arith)
            requires
                raw >= 0,
        ;
        proof {
            if x + y > u64::MAX {
                assert((x + y) * 72 / 10 >= x + y) by (nonlinear_arith)
                    requires
                        x + y >= 0,
                ;
            }
        }
        if scaled > u64::MAX as u128 {
            u64::MAX
        } else {
            scaled as u64
        }
    } else {
        raw
    };
    (cost, currency_of(model, price))
}

/// One model's prices in the cache, under its normalised name.
#[derive(Clone, Debug)]
pub struct CacheEntry {
    pub key: String,
    pub price: PriceInfo,
}

/// The view of cache entries: pairs of key text and prices, in order.
pub open spec fn entries_view(es: Seq<CacheEntry>) -> Seq<(Seq<char>, PriceInfo)> {
    es.map_values(|e: CacheEntry| (e.key@, e.price))
}

/// The first index of `es` whose entry satisfies `p`, or -1.
pub open spec fn first_where(
    es: Seq<(Seq<char>, PriceInfo)>,
    p: spec_fn((Seq<char>, PriceInfo)) -> bool,
) -> int
    decreases es.len(),
{
    if es.len() == 0 {
        -1
    } else {
        let f = first_where(es.drop_last(), p);
        if f >= 0 {
            f
        } else if p(es.last()) {
            es.len() - 1
        } else {
            -1
        }
    }
}

/// No key occurs twice.
pub open spec fn keys_distinct(es: Seq<(Seq<char>, PriceInfo)>) -> bool {
    forall|i: int, j: int| 0 <= i < j < es.len() ==> es[i].0 != es[j].0
}

/// The key of a cache entry and a normalised model name contain one another,
/// ignoring case.
pub open spec fn similar(key: Seq<char>, model: Seq<char>) -> bool {
    occurs_in(lower_of(key), lower_of(model)) || occurs_in(lower_of(model), lower_of(key))
}

/// The entry is under key `k`.
pub open spec fn key_is(k: Seq<char>) -> spec_fn((Seq<char>, PriceInfo)) -> bool {
    |x: (Seq<char>, PriceInfo)| x.0 == k
}

/// The entry's key is similar to the normalised model name `n`.
pub open spec fn similar_to(n: Seq<char>) -> spec_fn((Seq<char>, PriceInfo)) -> bool {
    |x: (Seq<char>, PriceInfo)| similar(x.0, n)
}

/// The prices that a lookup of `model` finds among `es`: the entry under its
/// normalised name; else the first entry whose key is similar to that name; else
/// the fallback price.
pub open spec fn price_for(es: Seq<(Seq<char>, PriceInfo)>, model: Seq<char>) -> PriceInfo {
    let n = normalized(model);
    let e = first_where(es, key_is(n));
    let s = first_where(es, similar_to(n));
    if e >= 0 {
        es[e].1
    } else if s >= 0 {
        es[s].1
    } else {
        fallback_price()
    }
}

proof fn lemma_first_where_step(
    es: Seq<(Seq<char>, PriceInfo)>,
    p: spec_fn((Seq<char>, PriceInfo)) -> bool,
    i: int,
)
    requires
        0 <= i < es.len(),
        first_where(es.subrange(0, i), p) == -1,
    ensures
        first_where(es.subrange(0, i + 1), p) == (if p(es[i]) {
            i
        } else {
            -1
        }),
{
    assert(es.subrange(0, i + 1).drop_last() =~= es.subrange(0, i));
}

pub proof fn lemma_first_where_bounds(
    es: Seq<(Seq<char>, PriceInfo)>,
    p: spec_fn((Seq<char>, PriceInfo)) -> bool,
)
    ensures
        -1 <= first_where(es, p) < es.len(),
        first_where(es, p) >= 0 ==> p(es[first_where(es, p)]),
        first_where(es, p) == -1 ==> forall|i: int| 0 <= i < es.len() ==> !p(#[trigger] es[i]),
        forall|i: int| 0 <= i < es.len() && p(#[trigger] es[i]) ==> first_where(es, p) <= i,
    decreases es.len(),
{
    if es.len() > 0 {
        lemma_first_where_bounds(es.drop_last(), p);
        assert forall|i: int| 0 <= i < es.len() - 1 implies es.drop_last()[i] == es[i] by {}
    }
}

/// A snapshot of model prices keyed by normalised model name, in the order in
/// which the keys were first inserted.
pub struct PriceCache {
    entries: Vec<CacheEntry>,
}

impl View for PriceCache {
    type V = Seq<(Seq<char>, PriceInfo)>;

    closed spec fn view(&self) -> Seq<(Seq<char>, PriceInfo)> {
        entries_view(self.entries@)
    }
}

impl PriceCache {
    /// No key occurs twice.
    pub open spec fn wf(&self) -> bool {
        keys_distinct(self@)
    }

    /// The cache as a map from key to prices.
    pub open spec fn as_map(&self) -> Map<Seq<char>, PriceInfo> {
        Map::new(
            |k: Seq<char>| exists|i: int| 0 <= i < self@.len() && self@[i].0 == k,
            |k: Seq<char>| self@[first_where(self@, key_is(k))].1,
        )
    }

    /// An empty cache.
    pub fn new() -> (r: PriceCache)
        ensures
            r.wf(),
            r@ == Seq::<(Seq<char>, PriceInfo)>::empty(),
    {
        let r = PriceCache { entries: Vec::new() };
        assert(r@ =~= Seq::<(Seq<char>, PriceInfo)>::empty());
        r
    }

    /// The number of models in the cache.
    pub fn len(&self) -> (r: usize)
        ensures
            r == self@.len(),
    {
        self.entries.len()
    }

    /// The entry at position `i`.
    pub fn entry(&self, i: usize) -> (r: &CacheEntry)
        requires
            i < self@.len(),
        ensures
            (r.key@, r.price) == self@[i as int],
    {
        &self.entries[i]
    }

    /// The position of `key` in the cache, if it is there.
    pub fn position(&self, key: &str) -> (r: Option<usize>)
        ensures
            r.is_none() ==> first_where(self@, key_is(key@)) == -1,
            r.is_some() ==> r.unwrap() < self@.len(),
            r.is_some() ==> r.unwrap() == first_where(
                self@,
                key_is(key@),
            ),
    {
        let ghost p = key_is(key@);
        let kc = chars_of(key);
        let mut i: usize = 0;
        assert(self@.subrange(0, 0) =~= Seq::<(Seq<char>, PriceInfo)>::empty());
        while i < self.entries.len()
            invariant
                i <= self@.len(),
                self@.len() == self.entries@.len(),
                kc@ == key@,
                p == key_is(key@),
                first_where(self@.subrange(0, i as int), p) == -1,
            decreases self@.len() - i,
        {
            let kv = chars_of(self.entries[i].key.as_str());
            proof {
                lemma_first_where_step(self@, p, i as int);
            }
            if same_chars(&kv, &kc) {
                proof {
                    assert(self@[i as int].0 == kv@);
                    assert(p(self@[i as int]));
                    lemma_first_where_prefix(self@, p, i + 1);
                }
                return Some(i);
            }
            i = i + 1;
        }
        assert(self@.subrange(0, i as int) =~= self@);
        None
    }

    /// Puts `price` under `key`: replaces the prices of a key already present,
    /// else appends the key.
    pub fn insert(&mut self, key: String, price: PriceInfo)
        requires
            old(self).wf(),
        ensures
            final(self).wf(),
            final(self).as_map() == old(self).as_map().insert(key@, price),
    {
        match self.position(key.as_str()) {
            Some(i) => {
                proof {
                    lemma_first_where_bounds(self@, key_is(key@));
                }
                let ghost before = self@;
                self.entries.set(i, CacheEntry { key, price });
                assert(self@ =~= before.update(i as int, (key@, price)));
                proof {
                    self.lemma_map_after_update(before, i as int, key@, price);
                }
            },
            None => {
                proof {
                    lemma_first_where_bounds(self@, key_is(key@));
                }
                let ghost before = self@;
                self.entries.push(CacheEntry { key, price });
                assert(self@ =~= before.push((key@, price)));
                proof {
                    self.lemma_map_after_push(before, key@, price);
                }
            },
        }
    }

    proof fn lemma_map_after_update(
        &self,
        before: Seq<(Seq<char>, PriceInfo)>,
        i: int,
        k: Seq<char>,
        price: PriceInfo,
    )
        requires
            keys_distinct(before),
            0 <= i < before.len(),
            before[i].0 == k,
            self@ == before.update(i, (k, price)),
        ensures
            self.wf(),
            self.as_map() == Map::new(
                |q: Seq<char>| exists|j: int| 0 <= j < before.len() && before[j].0 == q,
                |q: Seq<char>| before[first_where(before, key_is(q))].1,
            ).insert(k, price),
    {
        let now = self@;
        assert(keys_distinct(now));
        let m_old = Map::new(
            |q: Seq<char>| exists|j: int| 0 <= j < before.len() && before[j].0 == q,
            |q: Seq<char>| before[first_where(before, key_is(q))].1,
        );
        assert forall|q: Seq<char>| #[trigger] self.as_map().dom().contains(q) == m_old.insert(
            k,
            price,
        ).dom().contains(q) by {
            if exists|j: int| 0 <= j < before.len() && before[j].0 == q {
                let j = choose|j: int| 0 <= j < before.len() && before[j].0 == q;
                assert(now[j].0 == q);
            }
            if exists|j: int| 0 <= j < now.len() && now[j].0 == q {
                let j = choose|j: int| 0 <= j < now.len() && now[j].0 == q;
                assert(before[j].0 == q);
            }
        }
        assert forall|q: Seq<char>| #[trigger]
            self.as_map().dom().contains(q) implies self.as_map()[q] == m_old.insert(
            k,
            price,
        )[q] by {
            let pq = key_is(q);
            lemma_first_where_bounds(now, pq);
            lemma_first_where_bounds(before, pq);
            let j = choose|j: int| 0 <= j < now.len() && now[j].0 == q;
            assert(pq(now[j]));
            assert(pq(before[j]));
            let fa = first_where(now, pq);
            let fb = first_where(before, pq);
            assert(fa == j);
            assert(fb == j);
        }
        assert(self.as_map() =~= m_old.insert(k, price));
    }

    proof fn lemma_map_after_push(
        &self,
        before: Seq<(Seq<char>, PriceInfo)>,
        k: Seq<char>,
        price: PriceInfo,
    )
        requires
            keys_distinct(before),
            forall|j: int| 0 <= j < before.len() ==> before[j].0 != k,
            self@ == before.push((k, price)),
        ensures
            self.wf(),
            self.as_map() == Map::new(
                |q: Seq<char>| exists|j: int| 0 <= j < before.len() && before[j].0 == q,
                |q: Seq<char>| before[first_where(before, key_is(q))].1,
            ).insert(k, price),
    {
        let now = self@;
        assert(keys_distinct(now));
        let m_old = Map::new(
            |q: Seq<char>| exists|j: int| 0 <= j < before.len() && before[j].0 == q,
            |q: Seq<char>| before[first_where(before, key_is(q))].1,
        );
        assert forall|q: Seq<char>| #[trigger] self.as_map().dom().contains(q) == m_old.insert(
            k,
            price,
        ).dom().contains(q) by {
            if exists|j: int| 0 <= j < before.len() && before[j].0 == q {
                let j = choose|j: int| 0 <= j < before.len() && before[j].0 == q;
                assert(now[j].0 == q);
            }
            if q == k {
                assert(now[before.len() as int].0 == q);
            }
            if exists|j: int| 0 <= j < now.len() && now[j].0 == q {
                let j = choose|j: int| 0 <= j < now.len() && now[j].0 == q;
                if j < before.len() {
                    assert(before[j].0 == q);
                }
            }
        }
        assert forall|q: Seq<char>| #[trigger]
            self.as_map().dom().contains(q) implies self.as_map()[q] == m_old.insert(
            k,
            price,
        )[q] by {
            let pq = key_is(q);
            lemma_first_where_bounds(now, pq);
            lemma_first_where_bounds(before, pq);
            let j = choose|j: int| 0 <= j < now.len() && now[j].0 == q;
            assert(pq(now[j]));
            let fa = first_where(now, pq);
            assert(fa == j);
            if j < before.len() {
                assert(pq(before[j]));
                assert(first_where(before, pq) == j);
            }
        }
        assert(self.as_map() =~= m_old.insert(k, price));
    }

    /// The prices of `model`: the entry under its normalised name; else the first
    /// entry whose key contains that name or is contained in it, ignoring case;
    /// else the fallback price.
    pub fn lookup(&self, model: &str) -> (r: PriceInfo)
        ensures
            r == price_for(self@, model@),
    {
        let n = normalize_model_name(model);
        let ghost pe = key_is(n@);
        let ghost ps = similar_to(n@);
        match self.position(n.as_str()) {
            Some(i) => {
                return self.entries[i].price;
            },
            None => {},
        }
        let model_lower = chars_of(lowercase(n.as_str()).as_str());
        let mut i: usize = 0;
        assert(self@.subrange(0, 0) =~= Seq::<(Seq<char>, PriceInfo)>::empty());
        while i < self.entries.len()
            invariant
                i <= self@.len(),
                self@.len() == self.entries@.len(),
                model_lower@ == lower_of(n@),
                ps == similar_to(n@),
                n@ == normalized(model@),
                pe == key_is(n@),
                first_where(self@.subrange(0, i as int), ps) == -1,
                first_where(self@, pe) == -1,
            decreases self@.len() - i,
        {
            let key_lower = chars_of(lowercase(self.entries[i].key.as_str()).as_str());
            assert(self@[i as int].0 == self.entries@[i as int].key@);
            proof {
                lemma_first_where_step(self@, ps, i as int);
            }
            if contains_chars(&key_lower, &model_lower) || contains_chars(&model_lower, &key_lower) {
                proof {
                    assert(ps(self@[i as int]));
                    lemma_first_where_prefix(self@, ps, i + 1);
                    assert(first_where(self@, ps) == i);
                    assert(self@[i as int].1 == self.entries@[i as int].price);
                }
                return self.entries[i].price;
            }
            i = i + 1;
        }
        assert(self@.subrange(0, i as int) =~= self@);
        PriceInfo { input_price: FALLBACK_PRICE, output_price: FALLBACK_PRICE }
    }
}

/// A first match within a prefix is the first match of the whole.
proof fn lemma_first_where_prefix(
    es: Seq<(Seq<char>, PriceInfo)>,
    p: spec_fn((Seq<char>, PriceInfo)) -> bool,
    n: int,
)
    requires
        0 <= n <= es.len(),
        first_where(es.subrange(0, n), p) >= 0,
    ensures
        first_where(es, p) == first_where(es.subrange(0, n), p),
    decreases es.len() - n,
{
    if n < es.len() {
        let s = es.subrange(0, n + 1);
        assert(s.drop_last() =~= es.subrange(0, n));
        assert(first_where(s, p) == first_where(es.subrange(0, n), p));
        lemma_first_where_prefix(es, p, n + 1);
    } else {
        assert(es.subrange(0, n) =~= es);
    }
}

} // verus!
