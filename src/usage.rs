//! Token usage reported by a vendor, and the cost it comes to.

use vstd::prelude::*;
use crate::json::{member, Json};
use crate::pricing::{billed_cost, currency_for, price_for, priced_cost, Currency, PriceCache};

verus! {

/// Token counts of one completed request; a missing count is `None`.
#[derive(Clone, Copy, Debug, PartialEq, Eq, Structural)]
pub struct Usage {
    pub prompt_tokens: Option<u64>,
    pub completion_tokens: Option<u64>,
    pub total_tokens: Option<u64>,
}

/// A failure to read a request or a usage record, with a message for people.
#[derive(Clone, Debug)]
pub struct ParseError {
    pub message: String,
}

impl ParseError {
    /// The message of the error.
    pub fn to_string(&self) -> (r: String)
        ensures
            r@ == self.message@,
    {
        self.message.clone()
    }
}

/// What a usage record holds under one field name.
#[derive(Clone, Copy, Debug, PartialEq, Eq, Structural)]
pub enum UsageField {
    /// The name does not occur.
    Absent,
    /// The value is `null`.
    Null,
    /// The value is an integer that fits in `u64`.
    Count(u64),
    /// Any other value.
    Invalid,
}

/// A count read from one field: `Some(count)` where the value is acceptable
/// (`None` for `null`), `None` where it is not.
pub open spec fn field_count(f: UsageField) -> Option<Option<u64>> {
    match f {
        UsageField::Absent => Some(None),
        UsageField::Null => Some(None),
        UsageField::Count(n) => Some(Some(n)),
        UsageField::Invalid => None,
    }
}

/// A count that may be given under its name or under an alias: given under
/// both it is a duplicate and is refused.
pub open spec fn aliased_count(name: UsageField, alias: UsageField) -> Option<Option<u64>> {
    if name != UsageField::Absent && alias != UsageField::Absent {
        None
    } else if name != UsageField::Absent {
        field_count(name)
    } else {
        field_count(alias)
    }
}

/// The usage read from its fields, or `None` where a field is refused.
pub open spec fn usage_of(
    prompt: UsageField,
    input: UsageField,
    completion: UsageField,
    output: UsageField,
    total: UsageField,
) -> Option<Usage> {
    let p = aliased_count(prompt, input);
    let c = aliased_count(completion, output);
    let t = field_count(total);
    if p.is_some() && c.is_some() && t.is_some() {
        Some(
            Usage { prompt_tokens: p.unwrap(), completion_tokens: c.unwrap(), total_tokens: t.unwrap() },
        )
    } else {
        None
    }
}

fn field_count_of(f: UsageField) -> (r: Option<Option<u64>>)
    ensures
        r == field_count(f),
{
    match f {
        UsageField::Absent => Some(None),
        UsageField::Null => Some(None),
        UsageField::Count(n) => Some(Some(n)),
        UsageField::Invalid => None,
    }
}

fn aliased_count_of(name: UsageField, alias: UsageField) -> (r: Option<Option<u64>>)
    ensures
        r == aliased_count(name, alias),
{
    if name != UsageField::Absent && alias != UsageField::Absent {
        None
    } else if name != UsageField::Absent {
        field_count_of(name)
    } else {
        field_count_of(alias)
    }
}

/// Reads a usage record from what it holds under each field name:
/// `input_tokens` stands for `prompt_tokens` and `output_tokens` for
/// `completion_tokens`; a count given under both names, or a value that is
/// neither `null` nor an unsigned integer, is refused.
pub fn usage_from_fields(
    prompt: UsageField,
    input: UsageField,
    completion: UsageField,
    output: UsageField,
    total: UsageField,
) -> (r: Result<Usage, ParseError>)
    ensures
        r.is_ok() == usage_of(prompt, input, completion, output, total).is_some(),
        r.is_ok() ==> r.unwrap() == usage_of(prompt, input, completion, output, total).unwrap(),
{
    let p = aliased_count_of(prompt, input);
    let c = aliased_count_of(completion, output);
    let t = field_count_of(total);
    match (p, c, t) {
        (Some(p), Some(c), Some(t)) => Ok(
            Usage { prompt_tokens: p, completion_tokens: c, total_tokens: t },
        ),
        _ => Err(ParseError { message: "invalid usage record".to_string() }),
    }
}

/// What a member that may be missing holds, as a usage field.
pub open spec fn field_of(o: Option<Json>) -> UsageField {
    match o {
        None => UsageField::Absent,
        Some(Json::Null) => UsageField::Null,
        Some(Json::Unsigned(n)) => UsageField::Count(n),
        Some(_) => UsageField::Invalid,
    }
}

/// The usage record that a JSON value holds: an object whose fields are read as
/// by `usage_of`; `None` for any other value or a refused field.
pub open spec fn usage_in(u: Json) -> Option<Usage> {
    match u {
        Json::Object(_) => usage_of(
            field_of(member(u, "prompt_tokens"@)),
            field_of(member(u, "input_tokens"@)),
            field_of(member(u, "completion_tokens"@)),
            field_of(member(u, "output_tokens"@)),
            field_of(member(u, "total_tokens"@)),
        ),
        _ => None,
    }
}

/// What a JSON object holds under `key`, as a usage field.
pub fn usage_field(v: &Json, key: &str) -> (r: UsageField)
    ensures
        r == field_of(member(*v, key@)),
{
    match v.get(key) {
        None => UsageField::Absent,
        Some(Json::Null) => UsageField::Null,
        Some(Json::Unsigned(n)) => UsageField::Count(*n),
        Some(_) => UsageField::Invalid,
    }
}

/// Reads a usage record from a JSON value (see `usage_from_fields`); a value
/// that is not an object is refused.
pub fn parse_usage(v: &Json) -> (r: Result<Usage, ParseError>)
    ensures
        r.is_ok() == usage_in(*v).is_some(),
        r.is_ok() ==> r.unwrap() == usage_in(*v).unwrap(),
{
    match v {
        Json::Object(_) => {},
        _ => {
            return Err(ParseError { message: "usage is not an object".to_string() });
        },
    }
    usage_from_fields(
        usage_field(v, "prompt_tokens"),
        usage_field(v, "input_tokens"),
        usage_field(v, "completion_tokens"),
        usage_field(v, "output_tokens"),
        usage_field(v, "total_tokens"),
    )
}

/// The prompt and completion counts of a chunk's `usage` record (either under
/// its name or its alias), where the record is readable and gives both.
pub open spec fn chunk_counts(chunk: Json) -> Option<(u64, u64)> {
    match member(chunk, "usage"@) {
        Some(u) => match usage_in(u) {
            Some(us) => if us.prompt_tokens.is_some() && us.completion_tokens.is_some() {
                Some((us.prompt_tokens.unwrap(), us.completion_tokens.unwrap()))
            } else {
                None
            },
            None => None,
        },
        None => None,
    }
}

/// The prompt and completion counts of a chunk's `usage` record.
pub fn extract_usage_from_chunk(chunk: &Json) -> (r: Option<(u64, u64)>)
    ensures
        r == chunk_counts(*chunk),
{
    match chunk.get("usage") {
        Some(u) => match parse_usage(u) {
            Ok(us) => match (us.prompt_tokens, us.completion_tokens) {
                (Some(p), Some(c)) => Some((p, c)),
                _ => None,
            },
            Err(_) => None,
        },
        None => None,
    }
}

/// The reported cost and currency of `prompt` input and `completion` output
/// tokens of `model`, at the prices the cache gives the model.
pub fn calculate_actual_cost_with_tokens(
    model: &str,
    prompt_tokens: u64,
    completion_tokens: u64,
    price_cache: &PriceCache,
) -> (r: (u64, Currency))
    ensures
        r.0 == billed_cost(
            model@,
            prompt_tokens as int,
            completion_tokens as int,
            price_for(price_cache@, model@),
        ),
        r.1 == currency_for(model@, price_for(price_cache@, model@)),
{
    let price = price_cache.lookup(model);
    priced_cost(model, prompt_tokens, completion_tokens, &price)
}

/// The count, zero where it is missing.
pub open spec fn count_or_zero(c: Option<u64>) -> int {
    match c {
        Some(n) => n as int,
        None => 0,
    }
}

/// The reported cost and currency of a usage record of `model` (a missing
/// count is zero).
pub fn calculate_actual_cost(model: &str, usage: &Usage, price_cache: &PriceCache) -> (r: (
    u64,
    Currency,
))
    ensures
        r.0 == billed_cost(
            model@,
            count_or_zero(usage.prompt_tokens),
            count_or_zero(usage.completion_tokens),
            price_for(price_cache@, model@),
        ),
        r.1 == currency_for(model@, price_for(price_cache@, model@)),
{
    let p = match usage.prompt_tokens {
        Some(n) => n,
        None => 0,
    };
    let c = match usage.completion_tokens {
        Some(n) => n,
        None => 0,
    };
    calculate_actual_cost_with_tokens(model, p, c, price_cache)
}

} // verus!
