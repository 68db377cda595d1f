//! The price catalogue: which entries of a public price table are written to
//! the price store, and under which key.

use vstd::prelude::*;
use crate::naming::{normalize_model_name, normalized};
use crate::pricing::PriceInfo;
use crate::text::{ends_with, str_ends_with};

verus! {

/// Whether the regular expression `pattern` compiles and matches somewhere in
/// `text`.
pub uninterp spec fn regex_finds(pattern: Seq<char>, text: Seq<char>) -> bool;

/// Relies on `regex::Regex::new` and `Regex::is_match`: whether the pattern
/// compiles and matches somewhere in the text; a pattern that does not compile
/// matches nothing.
#[verifier::external_body]
fn regex_is_match(pattern: &str, text: &str) -> (r: bool)
    ensures
        r == regex_finds(pattern@, text@),
{
    match regex::Regex::new(pattern) {
        Ok(re) => re.is_match(text),
        Err(_) => false,
    }
}

/// The number of dated-variant patterns.
pub const DATE_PATTERN_COUNT: usize = 10;

/// The dated-variant patterns: yearly and monthly suffixes, `@YYYYMMDD`,
/// `-preview-MM-DD`, `-YYYY-MM-DD`.
pub open spec fn date_pattern_text(i: int) -> Seq<char> {
    if i == 0 {
        "-20\\d{6}"@
    } else if i == 1 {
        "-20\\d{8}"@
    } else if i == 2 {
        "-250\\d"@
    } else if i == 3 {
        "-23\\d{2}"@
    } else if i == 4 {
        "-24\\d{2}"@
    } else if i == 5 {
        "-25\\d{2}"@
    } else if i == 6 {
        "@20\\d{6}"@
    } else if i == 7 {
        "@20\\d{8}"@
    } else if i == 8 {
        "-preview-\\d{2}-\\d{2}"@
    } else {
        "-\\d{4}-\\d{2}-\\d{2}"@
    }
}

/// The dated-variant pattern number `i`.
pub fn date_pattern(i: usize) -> (r: &'static str)
    requires
        i < DATE_PATTERN_COUNT,
    ensures
        r@ == date_pattern_text(i as int),
{
    if i == 0 {
        "-20\\d{6}"
    } else if i == 1 {
        "-20\\d{8}"
    } else if i == 2 {
        "-250\\d"
    } else if i == 3 {
        "-23\\d{2}"
    } else if i == 4 {
        "-24\\d{2}"
    } else if i == 5 {
        "-25\\d{2}"
    } else if i == 6 {
        "@20\\d{6}"
    } else if i == 7 {
        "@20\\d{8}"
    } else if i == 8 {
        "-preview-\\d{2}-\\d{2}"
    } else {
        "-\\d{4}-\\d{2}-\\d{2}"
    }
}

/// A model identifier names a dated variant: a dated-variant pattern matches it.
pub open spec fn is_dated(id: Seq<char>) -> bool {
    exists|i: int| 0 <= i < DATE_PATTERN_COUNT && #[trigger] regex_finds(date_pattern_text(i), id)
}

/// Whether a dated-variant pattern matches the model identifier.
pub fn has_date_suffix(model_id: &str) -> (r: bool)
    ensures
        r == is_dated(model_id@),
{
    let mut i: usize = 0;
    while i < DATE_PATTERN_COUNT
        invariant
            i <= DATE_PATTERN_COUNT,
            forall|j: int| 0 <= j < i ==> !#[trigger] regex_finds(date_pattern_text(j), model_id@),
        decreases DATE_PATTERN_COUNT - i,
    {
        if regex_is_match(date_pattern(i), model_id) {
            return true;
        }
        i = i + 1;
    }
    false
}

/// A model identifier ends with a suffix of the variants that are not priced on
/// their own.
pub open spec fn has_variant_suffix(id: Seq<char>) -> bool {
    ends_with(id, "instruct"@) || ends_with(id, "chat"@) || ends_with(id, "-latest"@) || ends_with(
        id,
        "-v1:0"@,
    ) || ends_with(id, ":0"@)
}

/// Whether the model identifier ends with `instruct`, `chat`, `-latest`,
/// `-v1:0` or `:0`.
pub fn has_variant_suffix_of(model_id: &str) -> (r: bool)
    ensures
        r == has_variant_suffix(model_id@),
{
    str_ends_with(model_id, "instruct") || str_ends_with(model_id, "chat") || str_ends_with(
        model_id,
        "-latest",
    ) || str_ends_with(model_id, "-v1:0") || str_ends_with(model_id, ":0")
}

/// One entry of the public price table, with its prices in pico-units per token
/// (zero where the table gives none).
#[derive(Clone, Debug)]
pub struct CatalogueEntry {
    pub model_id: String,
    pub input_price: u64,
    pub output_price: u64,
}

/// Why an entry of the table is not written.
#[derive(Clone, Copy, Debug, PartialEq, Eq, Structural)]
pub enum SkipReason {
    /// Both prices are zero.
    ZeroPrice,
    /// The identifier ends with a variant suffix.
    VariantSuffix,
    /// The identifier names a dated variant.
    Dated,
    /// The normalised name is on the protected list.
    Protected,
}

/// A write of prices to the store, under a normalised model name.
#[derive(Clone, Debug)]
pub struct PriceWrite {
    pub key: String,
    pub price: PriceInfo,
}

/// What becomes of one entry of the table.
#[derive(Clone, Debug)]
pub enum CatalogueDecision {
    Skip(SkipReason),
    Upsert(PriceWrite),
}

/// The list holds the text `k`.
pub open spec fn listed(list: Seq<String>, k: Seq<char>) -> bool {
    exists|j: int| 0 <= j < list.len() && #[trigger] list[j]@ == k
}

/// Why an entry is skipped, given whether its identifier names a dated variant;
/// `None` where it is written.
pub open spec fn skip_reason(
    id: Seq<char>,
    input: u64,
    output: u64,
    dated: bool,
    protected: Seq<String>,
) -> Option<SkipReason> {
    if input == 0 && output == 0 {
        Some(SkipReason::ZeroPrice)
    } else if has_variant_suffix(id) {
        Some(SkipReason::VariantSuffix)
    } else if dated {
        Some(SkipReason::Dated)
    } else if listed(protected, normalized(id)) {
        Some(SkipReason::Protected)
    } else {
        None
    }
}

/// `d` is the decision that `skip_reason` and the normalised name give.
pub open spec fn decision_is(
    d: CatalogueDecision,
    id: Seq<char>,
    input: u64,
    output: u64,
    dated: bool,
    protected: Seq<String>,
) -> bool {
    match skip_reason(id, input, output, dated, protected) {
        Some(reason) => d == CatalogueDecision::Skip(reason),
        None => match d {
            CatalogueDecision::Upsert(w) => w.key@ == normalized(id) && w.price == PriceInfo {
                input_price: input,
                output_price: output,
            },
            CatalogueDecision::Skip(_) => false,
        },
    }
}

/// Whether the list holds the text `k`.
pub fn is_listed(list: &Vec<String>, k: &String) -> (r: bool)
    ensures
        r == listed(list@, k@),
{
    let mut j: usize = 0;
    while j < list.len()
        invariant
            j <= list@.len(),
            forall|i: int| 0 <= i < j ==> list@[i]@ != k@,
        decreases list@.len() - j,
    {
        if list[j] == *k {
            return true;
        }
        j = j + 1;
    }
    false
}

/// What becomes of an entry whose identifier is known to name a dated variant
/// or not: skipped where both prices are zero, where the identifier ends with a
/// variant suffix, where it is dated, or where its normalised name is protected;
/// else written under its normalised name.
pub fn decide_entry(
    model_id: &str,
    input_price: u64,
    output_price: u64,
    dated: bool,
    protected: &Vec<String>,
) -> (r: CatalogueDecision)
    ensures
        decision_is(r, model_id@, input_price, output_price, dated, protected@),
{
    if input_price == 0 && output_price == 0 {
        return CatalogueDecision::Skip(SkipReason::ZeroPrice);
    }
    if has_variant_suffix_of(model_id) {
        return CatalogueDecision::Skip(SkipReason::VariantSuffix);
    }
    if dated {
        return CatalogueDecision::Skip(SkipReason::Dated);
    }
    let key = normalize_model_name(model_id);
    if is_listed(protected, &key) {
        return CatalogueDecision::Skip(SkipReason::Protected);
    }
    CatalogueDecision::Upsert(
        PriceWrite { key, price: PriceInfo { input_price, output_price } },
    )
}

/// What becomes of one entry of the price table.
pub fn catalogue_decision(entry: &CatalogueEntry, protected: &Vec<String>) -> (r:
    CatalogueDecision)
    ensures
        decision_is(
            r,
            entry.model_id@,
            entry.input_price,
            entry.output_price,
            is_dated(entry.model_id@),
            protected@,
        ),
{
    let dated = if entry.input_price == 0 && entry.output_price == 0 {
        false
    } else if has_variant_suffix_of(entry.model_id.as_str()) {
        false
    } else {
        has_date_suffix(entry.model_id.as_str())
    };
    decide_entry(entry.model_id.as_str(), entry.input_price, entry.output_price, dated, protected)
}

/// The writes one sync cycle makes for a table, in the table's order: one per
/// entry that is not skipped.
pub open spec fn plan_of(entries: Seq<CatalogueEntry>, protected: Seq<String>) -> Seq<
    (Seq<char>, PriceInfo),
>
    decreases entries.len(),
{
    if entries.len() == 0 {
        Seq::empty()
    } else {
        let e = entries.last();
        let rest = plan_of(entries.drop_last(), protected);
        if skip_reason(
            e.model_id@,
            e.input_price,
            e.output_price,
            is_dated(e.model_id@),
            protected,
        ).is_none() {
            rest.push(
                (normalized(e.model_id@), PriceInfo { input_price: e.input_price, output_price: e.output_price }),
            )
        } else {
            rest
        }
    }
}

/// The key and prices of each write.
pub open spec fn writes_view(ws: Seq<PriceWrite>) -> Seq<(Seq<char>, PriceInfo)> {
    ws.map_values(|w: PriceWrite| (w.key@, w.price))
}

/// The writes of one sync cycle over a price table. No write has both prices
/// zero, and none is under a protected name.
pub fn sync_plan(entries: &Vec<CatalogueEntry>, protected: &Vec<String>) -> (r: Vec<PriceWrite>)
    ensures
        writes_view(r@) == plan_of(entries@, protected@),
        forall|i: int|
            0 <= i < r@.len() ==> !(#[trigger] r@[i].price.input_price == 0
                && r@[i].price.output_price == 0),
        forall|i: int| 0 <= i < r@.len() ==> !listed(protected@, #[trigger] r@[i].key@),
{
    let mut out: Vec<PriceWrite> = Vec::new();
    let mut i: usize = 0;
    assert(entries@.subrange(0, 0) =~= Seq::<CatalogueEntry>::empty());
    while i < entries.len()
        invariant
            i <= entries@.len(),
            writes_view(out@) == plan_of(entries@.subrange(0, i as int), protected@),
            forall|j: int|
                0 <= j < out@.len() ==> !(#[trigger] out@[j].price.input_price == 0
                    && out@[j].price.output_price == 0),
            forall|j: int| 0 <= j < out@.len() ==> !listed(protected@, #[trigger] out@[j].key@),
        decreases entries@.len() - i,
    {
        let ghost before = writes_view(out@);
        proof {
            assert(entries@.subrange(0, i + 1).drop_last() =~= entries@.subrange(0, i as int));
        }
        match catalogue_decision(&entries[i], protected) {
            CatalogueDecision::Upsert(w) => {
                out.push(w);
                assert(writes_view(out@) =~= before.push((out@.last().key@, out@.last().price)));
            },
            CatalogueDecision::Skip(_) => {},
        }
        i = i + 1;
    }
    assert(entries@.subrange(0, i as int) =~= entries@);
    out
}

/// The writes of a sync that takes the entries of a table as they are: each
/// entry under its normalised name, but for protected names and entries whose
/// prices are both zero.
pub open spec fn plain_plan_of(entries: Seq<CatalogueEntry>, protected: Seq<String>) -> Seq<
    (Seq<char>, PriceInfo),
>
    decreases entries.len(),
{
    if entries.len() == 0 {
        Seq::empty()
    } else {
        let e = entries.last();
        let rest = plain_plan_of(entries.drop_last(), protected);
        if (e.input_price == 0 && e.output_price == 0) || listed(protected, normalized(e.model_id@)) {
            rest
        } else {
            rest.push(
                (normalized(e.model_id@), PriceInfo { input_price: e.input_price, output_price: e.output_price }),
            )
        }
    }
}

/// The writes of a sync that applies no name filter: each entry under its
/// normalised name, in the table's order, but for protected names and entries
/// whose prices are both zero.
pub fn vendor_sync_plan(entries: &Vec<CatalogueEntry>, protected: &Vec<String>) -> (r: Vec<
    PriceWrite,
>)
    ensures
        writes_view(r@) == plain_plan_of(entries@, protected@),
        forall|i: int| 0 <= i < r@.len() ==> !listed(protected@, #[trigger] r@[i].key@),
        forall|i: int|
            0 <= i < r@.len() ==> !(#[trigger] r@[i].price.input_price == 0
                && r@[i].price.output_price == 0),
{
    let mut out: Vec<PriceWrite> = Vec::new();
    let mut i: usize = 0;
    assert(entries@.subrange(0, 0) =~= Seq::<CatalogueEntry>::empty());
    while i < entries.len()
        invariant
            i <= entries@.len(),
            writes_view(out@) == plain_plan_of(entries@.subrange(0, i as int), protected@),
            forall|j: int| 0 <= j < out@.len() ==> !listed(protected@, #[trigger] out@[j].key@),
            forall|j: int|
                0 <= j < out@.len() ==> !(#[trigger] out@[j].price.input_price == 0
                    && out@[j].price.output_price == 0),
        decreases entries@.len() - i,
    {
        let ghost before = writes_view(out@);
        proof {
            assert(entries@.subrange(0, i + 1).drop_last() =~= entries@.subrange(0, i as int));
        }
        let key = normalize_model_name(entries[i].model_id.as_str());
        let zero = entries[i].input_price == 0 && entries[i].output_price == 0;
        if !zero && !is_listed(protected, &key) {
            out.push(
                PriceWrite {
                    key,
                    price: PriceInfo {
                        input_price: entries[i].input_price,
                        output_price: entries[i].output_price,
                    },
                },
            );
            assert(writes_view(out@) =~= before.push((out@.last().key@, out@.last().price)));
        }
        i = i + 1;
    }
    assert(entries@.subrange(0, i as int) =~= entries@);
    out
}

} // verus!
