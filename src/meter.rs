//! The streaming meter: per-request state that prices generated text as it
//! streams, throttles billing events and trips the budget breaker.

use vstd::prelude::*;
use crate::budget::{saturating_total, BudgetController};
use crate::json::{
    first_in, first_of, get_of, json_text, member, member_of, parse_json, parsed_json, text_in,
    text_of, Json,
};
use crate::pricing::{billed_cost, currency_for, price_for, priced_cost, Currency, PriceCache, PriceInfo};
use crate::sse::{data_payloads, sse_payloads, texts_of};
use crate::tokenizer::{delta_tokens, Tokenizer};
use crate::usage::{count_or_zero, parse_usage, usage_in};

verus! {

/// Tokens since the last billing event after which the next delta is billed.
pub const EMIT_TOKEN_THRESHOLD: u64 = 10;

/// Change of the running cost since the last billing event (in pico-units,
/// 0.0001 of a unit) after which the next delta is billed.
pub const EMIT_COST_THRESHOLD: u64 = 100_000_000;

/// Milliseconds since the last billing event after which the next delta is billed.
pub const EMIT_INTERVAL_MS: u64 = 200;

/// The kind of an event on the billing bus.
#[derive(Clone, Copy, Debug, PartialEq, Eq, Structural)]
pub enum EventKind {
    /// The running cost (`type: "billing"`).
    Billing,
    /// The budget was exceeded (`type: "error"`, `reason: "budget_exceeded"`).
    BudgetExceeded,
}

/// An event for the billing bus.
#[derive(Clone, Debug)]
pub struct BillingEvent {
    pub kind: EventKind,
    pub model: String,
    /// A cost in pico-units.
    pub cost: u64,
    pub currency: Currency,
    /// The breaker tripped with this event.
    pub fused: bool,
}

/// `e` is the event with these fields.
pub open spec fn is_event(
    e: BillingEvent,
    kind: EventKind,
    model: Seq<char>,
    cost: int,
    currency: Currency,
    fused: bool,
) -> bool {
    e.kind == kind && e.model@ == model && e.cost == cost && e.currency == currency && e.fused
        == fused
}

/// `a + b`, held at the largest `u64`.
pub open spec fn sat_add(a: u64, b: u64) -> u64 {
    if a + b > u64::MAX {
        u64::MAX
    } else {
        (a + b) as u64
    }
}

/// The distance between two amounts.
pub open spec fn distance(a: u64, b: u64) -> int {
    if a >= b {
        a - b
    } else {
        b - a
    }
}

/// The state one request's meter keeps.
#[derive(Clone, Copy, Debug, PartialEq, Eq, Structural)]
pub struct StreamMeter {
    /// Tokens of generated text counted so far.
    pub completion_tokens: u64,
    /// Tokens counted since the last billing event.
    pub tokens_since_emit: u64,
    /// Clock reading (ms) of the last billing event, or of the start.
    pub last_emit_ms: u64,
    /// Running cost that the last billing event reported.
    pub last_emitted_total: u64,
    /// The budget was exceeded: nothing more is forwarded or billed.
    pub fused: bool,
    /// What this request has put on the running cost so far.
    pub metered_cost: u64,
}

/// A billing event is due after a delta that cost `cost` and brought the running
/// cost to `total` at clock reading `now`: the delta cost something, and enough
/// tokens, cost or time have passed since the last event.
pub open spec fn emit_due(m: StreamMeter, n: u64, cost: int, total: u64, now: u64) -> bool {
    cost > 0 && (sat_add(m.tokens_since_emit, n) >= EMIT_TOKEN_THRESHOLD || distance(
        total,
        m.last_emitted_total,
    ) >= EMIT_COST_THRESHOLD || (now >= m.last_emit_ms && now - m.last_emit_ms
        >= EMIT_INTERVAL_MS))
}

/// The running cost after a delta of `n` tokens of `model` at `price`.
pub open spec fn delta_total(total: u64, model: Seq<char>, price: PriceInfo, n: u64) -> u64 {
    saturating_total(total, billed_cost(model, 0, n as int, price) as u64)
}

/// The costs that the events of a delta report (see `StreamMeter::on_delta`).
pub open spec fn delta_events(
    m: StreamMeter,
    total: u64,
    limit: u64,
    model: Seq<char>,
    price: PriceInfo,
    n: u64,
    now: u64,
    may_emit: bool,
) -> Seq<int> {
    let cost = billed_cost(model, 0, n as int, price);
    let t = delta_total(total, model, price, n);
    if t >= limit {
        seq![t as int, t as int]
    } else if may_emit && emit_due(m, n, cost, t, now) {
        seq![t as int]
    } else {
        Seq::empty()
    }
}

/// The meter after a delta (see `StreamMeter::on_delta`).
pub open spec fn delta_meter(
    m: StreamMeter,
    total: u64,
    limit: u64,
    model: Seq<char>,
    price: PriceInfo,
    n: u64,
    now: u64,
    may_emit: bool,
) -> StreamMeter {
    let cost = billed_cost(model, 0, n as int, price);
    let t = delta_total(total, model, price, n);
    let completion = sat_add(m.completion_tokens, n);
    let metered = sat_add(m.metered_cost, cost as u64);
    if t >= limit {
        StreamMeter {
            completion_tokens: completion,
            tokens_since_emit: sat_add(m.tokens_since_emit, n),
            fused: true,
            metered_cost: metered,
            ..m
        }
    } else if may_emit && emit_due(m, n, cost, t, now) {
        StreamMeter {
            completion_tokens: completion,
            tokens_since_emit: 0,
            last_emit_ms: now,
            last_emitted_total: t,
            metered_cost: metered,
            ..m
        }
    } else {
        StreamMeter {
            completion_tokens: completion,
            tokens_since_emit: sat_add(m.tokens_since_emit, n),
            metered_cost: metered,
            ..m
        }
    }
}

/// The costs that events report.
pub open spec fn event_costs(es: Seq<BillingEvent>) -> Seq<int> {
    es.map_values(|e: BillingEvent| e.cost as int)
}

/// A request's deltas `(tokens, clock reading)` metered one per chunk from meter
/// `m` and running cost `total`, until the breaker trips: the meter, the
/// running cost, the costs the events report, and the sum of the costs of the
/// deltas billed.
pub open spec fn run_deltas(
    m: StreamMeter,
    total: u64,
    limit: u64,
    model: Seq<char>,
    price: PriceInfo,
    deltas: Seq<(u64, u64)>,
) -> (StreamMeter, u64, Seq<int>, int)
    decreases deltas.len(),
{
    if deltas.len() == 0 {
        (m, total, Seq::empty(), 0)
    } else {
        let prev = run_deltas(m, total, limit, model, price, deltas.drop_last());
        if prev.0.fused {
            prev
        } else {
            let n = deltas.last().0;
            let now = deltas.last().1;
            (
                delta_meter(prev.0, prev.1, limit, model, price, n, now, true),
                delta_total(prev.1, model, price, n),
                prev.2 + delta_events(prev.0, prev.1, limit, model, price, n, now, true),
                prev.3 + billed_cost(model, 0, n as int, price),
            )
        }
    }
}

/// Within one request, as long as nothing resets the running cost, the costs
/// that the meter's events report never decrease: each reports the running
/// cost after its delta, which only grows.
pub proof fn lemma_event_costs_nondecreasing(
    m: StreamMeter,
    total: u64,
    limit: u64,
    model: Seq<char>,
    price: PriceInfo,
    deltas: Seq<(u64, u64)>,
)
    ensures
        ({
            let r = run_deltas(m, total, limit, model, price, deltas);
            &&& total <= r.1
            &&& forall|i: int| 0 <= i < r.2.len() ==> total <= #[trigger] r.2[i] <= r.1
            &&& forall|i: int, j: int| 0 <= i <= j < r.2.len() ==> r.2[i] <= r.2[j]
        }),
    decreases deltas.len(),
{
    if deltas.len() > 0 {
        lemma_event_costs_nondecreasing(m, total, limit, model, price, deltas.drop_last());
        let prev = run_deltas(m, total, limit, model, price, deltas.drop_last());
        if !prev.0.fused {
            let r = run_deltas(m, total, limit, model, price, deltas);
            let new = delta_events(prev.0, prev.1, limit, model, price, deltas.last().0, deltas.last().1, true);
            assert(forall|i: int| 0 <= i < new.len() ==> new[i] == r.1);
            assert(r.2 == prev.2 + new);
            assert forall|i: int| 0 <= i < r.2.len() implies total <= #[trigger] r.2[i] <= r.1 by {
                if i >= prev.2.len() {
                    assert(r.2[i] == new[i - prev.2.len()]);
                }
            }
            assert forall|i: int, j: int| 0 <= i <= j < r.2.len() implies r.2[i] <= r.2[j] by {
                if j >= prev.2.len() {
                    assert(r.2[j] == new[j - prev.2.len()]);
                    assert(r.2[i] <= r.1);
                }
            }
        }
    }
}

/// After the running cost is reset to zero, what the events of the next
/// request report is that request's own cost: the running cost is the sum of
/// the costs of the deltas it billed (held at the largest `u64`), and the events
/// of each delta report exactly that.
pub proof fn lemma_after_reset_events_report_request_cost(
    m: StreamMeter,
    limit: u64,
    model: Seq<char>,
    price: PriceInfo,
    deltas: Seq<(u64, u64)>,
)
    ensures
        ({
            let r = run_deltas(m, 0, limit, model, price, deltas);
            &&& r.1 == crate::pricing::cap(r.3)
            &&& deltas.len() > 0 ==> ({
                let prev = run_deltas(m, 0, limit, model, price, deltas.drop_last());
                forall|i: int| prev.2.len() <= i < r.2.len() ==> #[trigger] r.2[i] == r.1
            })
        }),
    decreases deltas.len(),
{
    if deltas.len() > 0 {
        lemma_after_reset_events_report_request_cost(m, limit, model, price, deltas.drop_last());
        let prev = run_deltas(m, 0, limit, model, price, deltas.drop_last());
        lemma_spent_nonnegative(m, 0, limit, model, price, deltas.drop_last());
        if !prev.0.fused {
            let r = run_deltas(m, 0, limit, model, price, deltas);
            let new = delta_events(prev.0, prev.1, limit, model, price, deltas.last().0, deltas.last().1, true);
            assert forall|i: int| prev.2.len() <= i < r.2.len() implies #[trigger] r.2[i] == r.1 by {
                assert(r.2[i] == new[i - prev.2.len()]);
            }
        }
    }
}

proof fn lemma_spent_nonnegative(
    m: StreamMeter,
    total: u64,
    limit: u64,
    model: Seq<char>,
    price: PriceInfo,
    deltas: Seq<(u64, u64)>,
)
    ensures
        run_deltas(m, total, limit, model, price, deltas).3 >= 0,
    decreases deltas.len(),
{
    if deltas.len() > 0 {
        lemma_spent_nonnegative(m, total, limit, model, price, deltas.drop_last());
    }
}

/// The tokens of all deltas.
pub open spec fn sum_tokens(deltas: Seq<(u64, u64)>) -> int
    decreases deltas.len(),
{
    if deltas.len() == 0 {
        0
    } else {
        sum_tokens(deltas.drop_last()) + deltas.last().0
    }
}

/// The cost of `prompt` input and `completion` output tokens, converted where
/// the model's costs are, before it is limited to a `u64`.
pub open spec fn converted_cost(model: Seq<char>, prompt: int, completion: int, price: PriceInfo) -> int {
    if crate::pricing::fx_applies(model) {
        crate::pricing::raw_cost(prompt, completion, price) * crate::pricing::DEEPSEEK_FX_TENTHS / 10
    } else {
        crate::pricing::raw_cost(prompt, completion, price)
    }
}

proof fn lemma_sum_tokens_nonnegative(deltas: Seq<(u64, u64)>)
    ensures
        sum_tokens(deltas) >= 0,
    decreases deltas.len(),
{
    if deltas.len() > 0 {
        lemma_sum_tokens_nonnegative(deltas.drop_last());
    }
}

proof fn lemma_converted_cost_grows(model: Seq<char>, c: int, n: int, price: PriceInfo)
    requires
        c >= 0,
        n >= 0,
    ensures
        converted_cost(model, 0, c, price) + converted_cost(model, 0, n, price) <= converted_cost(
            model,
            0,
            c + n,
            price,
        ),
        converted_cost(model, 0, n, price) >= 0,
{
    let o = price.output_price as int;
    assert(c * o + n * o == (c + n) * o) by (nonlinear_arith);
    assert(c * o >= 0 && n * o >= 0) by (nonlinear_arith)
        requires
            c >= 0,
            n >= 0,
            o >= 0,
    ;
    assert(0 * (price.input_price as int) == 0);
    let x = c * o;
    let y = n * o;
    assert(x * 72 / 10 + y * 72 / 10 <= (x + y) * 72 / 10) by (nonlinear_arith)
        requires
            x >= 0,
            y >= 0,
    ;
}

proof fn lemma_run_spent_bounded(
    m: StreamMeter,
    total: u64,
    limit: u64,
    model: Seq<char>,
    price: PriceInfo,
    deltas: Seq<(u64, u64)>,
)
    requires
        m.completion_tokens == 0,
        sum_tokens(deltas) <= u64::MAX,
    ensures
        ({
            let r = run_deltas(m, total, limit, model, price, deltas);
            &&& 0 <= r.0.completion_tokens <= sum_tokens(deltas)
            &&& 0 <= r.3 <= converted_cost(model, 0, r.0.completion_tokens as int, price)
        }),
    decreases deltas.len(),
{
    if deltas.len() == 0 {
        assert(converted_cost(model, 0, 0, price) == 0) by {
            assert(0 * (price.input_price as int) + 0 * (price.output_price as int) == 0);
        }
    } else {
        let front = deltas.drop_last();
        lemma_sum_tokens_nonnegative(front);
        lemma_run_spent_bounded(m, total, limit, model, price, front);
        let prev = run_deltas(m, total, limit, model, price, front);
        if !prev.0.fused {
            let n = deltas.last().0;
            let c = prev.0.completion_tokens;
            assert(c + n <= u64::MAX);
            lemma_converted_cost_grows(model, c as int, n as int, price);
            assert(billed_cost(model, 0, n as int, price) <= converted_cost(model, 0, n as int, price));
        }
    }
}

/// The final bill of a request whose running cost started from zero is at
/// least every cost that its earlier events reported, when its deltas' token
/// counts fit the counter: the running cost is the sum of its delta costs, and
/// the final bill counts all those tokens, plus the prompt.
pub proof fn lemma_final_bill_covers_events(
    m: StreamMeter,
    limit: u64,
    model: Seq<char>,
    price: PriceInfo,
    deltas: Seq<(u64, u64)>,
    prompt: u64,
)
    requires
        m.completion_tokens == 0,
        sum_tokens(deltas) <= u64::MAX,
    ensures
        ({
            let r = run_deltas(m, 0, limit, model, price, deltas);
            forall|i: int|
                0 <= i < r.2.len() ==> #[trigger] r.2[i] <= billed_cost(
                    model,
                    prompt as int,
                    r.0.completion_tokens as int,
                    price,
                )
        }),
{
    let r = run_deltas(m, 0, limit, model, price, deltas);
    lemma_event_costs_nondecreasing(m, 0, limit, model, price, deltas);
    lemma_after_reset_events_report_request_cost(m, limit, model, price, deltas);
    lemma_run_spent_bounded(m, 0, limit, model, price, deltas);
    let c = r.0.completion_tokens as int;
    let pi = prompt as int * price.input_price as int;
    assert(pi >= 0) by (nonlinear_arith)
        requires
            pi == prompt as int * price.input_price as int,
    ;
    assert(converted_cost(model, 0, c, price) <= converted_cost(model, prompt as int, c, price)) by {
        let x = crate::pricing::raw_cost(0, c, price);
        let y = crate::pricing::raw_cost(prompt as int, c, price);
        assert(0 * (price.input_price as int) == 0);
        assert(y == x + pi);
        assert(x * 72 / 10 <= y * 72 / 10) by (nonlinear_arith)
            requires
                x <= y,
        ;
    }
}

/// `count` deltas of one token each, `d` ms apart, the first `d` ms after clock
/// reading `t0`.
pub open spec fn uniform_deltas(t0: u64, d: u64, count: nat) -> Seq<(u64, u64)> {
    Seq::new(count, |i: int| (1u64, (t0 + (i + 1) * d) as u64))
}

/// A meter as `StreamMeter::new(t0)` makes it.
pub open spec fn fresh_meter(m: StreamMeter, t0: u64) -> bool {
    m.completion_tokens == 0 && m.tokens_since_emit == 0 && m.last_emit_ms == t0
        && m.last_emitted_total == 0 && !m.fused
}

proof fn lemma_uniform_prefix(t0: u64, d: u64, count: nat)
    requires
        count > 0,
    ensures
        uniform_deltas(t0, d, count).drop_last() == uniform_deltas(t0, d, (count - 1) as nat),
        uniform_deltas(t0, d, count).last() == (1u64, (t0 + count * d) as u64),
{
    assert(uniform_deltas(t0, d, count).drop_last() =~= uniform_deltas(t0, d, (count - 1) as nat));
}

/// The state of a throttled run of uniform deltas after `count` of them: the
/// position `a` of the last billing event (0 for the start), and the bound on
/// the number of events that the spacing of events gives.
proof fn lemma_uniform_run(
    m: StreamMeter,
    limit: u64,
    model: Seq<char>,
    price: PriceInfo,
    t0: u64,
    d: u64,
    count: nat,
) -> (a: int)
    requires
        fresh_meter(m, t0),
        billed_cost(model, 0, 1, price) * EMIT_TOKEN_THRESHOLD <= EMIT_COST_THRESHOLD,
        count * billed_cost(model, 0, 1, price) < limit,
        t0 + count * d <= u64::MAX,
        count < u64::MAX,
    ensures
        ({
            let c = billed_cost(model, 0, 1, price);
            let r = run_deltas(m, 0, limit, model, price, uniform_deltas(t0, d, count));
            let k = r.2.len();
            &&& 0 <= a <= count
            &&& !r.0.fused
            &&& r.1 == count * c
            &&& r.0.tokens_since_emit == count - a
            &&& r.0.last_emit_ms == t0 + a * d
            &&& r.0.last_emitted_total == a * c
            &&& (d <= 20 ==> 10 * k <= a)
            &&& (d > 20 ==> 200 * k <= a * d)
        }),
    decreases count,
{
    let c = billed_cost(model, 0, 1, price);
    assert(c >= 0) by {
        assert(0 * price.input_price + 1 * price.output_price >= 0);
    }
    if count == 0 {
        assert(uniform_deltas(t0, d, 0) =~= Seq::<(u64, u64)>::empty());
        assert(0 * c == 0 && 0 * (d as int) == 0);
        0
    } else {
        let i = (count - 1) as nat;
        assert(i * c <= count * c) by (nonlinear_arith)
            requires
                i <= count,
                c >= 0,
        ;
        assert(i * d <= count * d) by (nonlinear_arith)
            requires
                i <= count,
        ;
        let a = lemma_uniform_run(m, limit, model, price, t0, d, i);
        lemma_uniform_prefix(t0, d, count);
        let prev = run_deltas(m, 0, limit, model, price, uniform_deltas(t0, d, i));
        let now = (t0 + count * d) as u64;
        let pm = prev.0;
        let t = delta_total(prev.1, model, price, 1);
        assert(count * c == i * c + c) by (nonlinear_arith)
            requires
                count == i + 1,
        ;
        assert(t == count * c);
        assert(t < limit);
        let g = count - a;
        assert(sat_add(pm.tokens_since_emit, 1) == g);
        assert(distance(t, pm.last_emitted_total) == g * c) by (nonlinear_arith)
            requires
                t == count * c,
                pm.last_emitted_total == a * c,
                g == count - a,
                0 <= a <= count,
                c >= 0,
        ;
        assert(now - pm.last_emit_ms == g * d) by (nonlinear_arith)
            requires
                now == t0 + count * d,
                pm.last_emit_ms == t0 + a * d,
                g == count - a,
        ;
        assert(now >= pm.last_emit_ms) by (nonlinear_arith)
            requires
                now == t0 + count * d,
                pm.last_emit_ms == t0 + a * d,
                a <= count,
        ;
        let k = prev.2.len();
        if emit_due(pm, 1, c, t, now) {
            if d <= 20 {
                assert(g >= 10) by (nonlinear_arith)
                    requires
                        g >= 10 || g * c >= 100_000_000 || g * d >= 200,
                        c * 10 <= 100_000_000,
                        d <= 20,
                        g >= 0,
                        c >= 0,
                ;
            } else {
                assert(g * d >= 200) by (nonlinear_arith)
                    requires
                        g >= 10 || g * c >= 100_000_000 || g * d >= 200,
                        c * 10 <= 100_000_000,
                        d > 20,
                        g >= 0,
                        c >= 0,
                ;
                assert(a * d + g * d == count * d) by (nonlinear_arith)
                    requires
                        g == count - a,
                ;
            }
            count as int
        } else {
            a
        }
    }
}

/// Emit throttling: from the start of a request whose deltas are one token
/// each, evenly spaced, and each cost at most a tenth of the cost threshold,
/// the number of billing events is at most the larger of one more than the
/// elapsed milliseconds over the time threshold and the tokens over the token
/// threshold (before the budget is reached and with no other request adding to
/// the running cost).
pub proof fn lemma_emit_throttle_bound(
    m: StreamMeter,
    limit: u64,
    model: Seq<char>,
    price: PriceInfo,
    t0: u64,
    d: u64,
    count: nat,
)
    requires
        fresh_meter(m, t0),
        billed_cost(model, 0, 1, price) * EMIT_TOKEN_THRESHOLD <= EMIT_COST_THRESHOLD,
        count * billed_cost(model, 0, 1, price) < limit,
        t0 + count * d <= u64::MAX,
        count < u64::MAX,
    ensures
        ({
            let k = run_deltas(m, 0, limit, model, price, uniform_deltas(t0, d, count)).2.len() as int;
            let window_ms = (count * d) as int;
            k <= 1 + window_ms / (EMIT_INTERVAL_MS as int) || k <= (count as int) / (
            EMIT_TOKEN_THRESHOLD as int)
        }),
{
    let a = lemma_uniform_run(m, limit, model, price, t0, d, count);
    let k = run_deltas(m, 0, limit, model, price, uniform_deltas(t0, d, count)).2.len();
    if d <= 20 {
        assert(k <= count / 10) by (nonlinear_arith)
            requires
                10 * k <= a,
                a <= count,
        ;
    } else {
        assert(a * d <= count * d) by (nonlinear_arith)
            requires
                a <= count,
                d > 20,
        ;
        assert(k <= count * d / 200) by (nonlinear_arith)
            requires
                200 * k <= count * d,
        ;
    }
}

/// The text of `choices[0].delta.content` of a payload.
pub open spec fn delta_content(doc: Json) -> Option<Seq<char>> {
    text_of(member_of(member_of(first_of(member(doc, "choices"@)), "delta"@), "content"@))
}

/// The authoritative cost of a streamed request: the prompt and the meter's own
/// completion count.
pub open spec fn final_cost(m: StreamMeter, model: Seq<char>, prompt: u64, price: PriceInfo) -> int {
    billed_cost(model, prompt as int, m.completion_tokens as int, price)
}

/// What the final bill adds to the running cost: the part of the
/// authoritative cost that the request has not put on yet.
pub open spec fn usage_extra(m: StreamMeter, model: Seq<char>, prompt: u64, price: PriceInfo) -> u64 {
    if final_cost(m, model, prompt, price) > m.metered_cost {
        (final_cost(m, model, prompt, price) - m.metered_cost) as u64
    } else {
        0
    }
}

/// The meter after the final bill.
pub open spec fn usage_meter(m: StreamMeter, model: Seq<char>, prompt: u64, price: PriceInfo) -> StreamMeter {
    if final_cost(m, model, prompt, price) > m.metered_cost {
        StreamMeter { metered_cost: final_cost(m, model, prompt, price) as u64, ..m }
    } else {
        m
    }
}

/// The state a chunk's metering carries from payload to payload: the meter,
/// the running cost, the costs of the events so far, whether a throttled event
/// went out, and whether the final usage record came.
pub open spec fn document_step(
    s: (StreamMeter, u64, Seq<int>, bool, bool),
    limit: u64,
    model: Seq<char>,
    price: PriceInfo,
    doc: Json,
    now: u64,
) -> (StreamMeter, u64, Seq<int>, bool, bool) {
    let s1 = match delta_content(doc) {
        Some(t) => {
            let n = delta_tokens(t);
            let evs = delta_events(s.0, s.1, limit, model, price, n, now, !s.3);
            let m1 = delta_meter(s.0, s.1, limit, model, price, n, now, !s.3);
            (m1, delta_total(s.1, model, price, n), s.2 + evs, s.3 || (evs.len() > 0 && !m1.fused), s.4)
        },
        None => s,
    };
    if s1.0.fused {
        s1
    } else {
        match member(doc, "usage"@) {
            Some(u) => match usage_in(u) {
                Some(us) => {
                    let prompt = count_or_zero(us.prompt_tokens) as u64;
                    let t2 = saturating_total(s1.1, usage_extra(s1.0, model, prompt, price));
                    (usage_meter(s1.0, model, prompt, price), t2, s1.2.push(t2 as int), s1.3, true)
                },
                None => s1,
            },
            None => s1,
        }
    }
}

/// One payload of a chunk: skipped once the breaker has tripped or where it is
/// no JSON document; else metered as `document_step`.
pub open spec fn payload_step(
    s: (StreamMeter, u64, Seq<int>, bool, bool),
    limit: u64,
    model: Seq<char>,
    price: PriceInfo,
    p: Seq<char>,
    now: u64,
) -> (StreamMeter, u64, Seq<int>, bool, bool) {
    if s.0.fused {
        s
    } else {
        match parsed_json(p) {
            Some(doc) => document_step(s, limit, model, price, doc, now),
            None => s,
        }
    }
}

/// The payloads of a chunk metered in order.
pub open spec fn chunk_fold(
    s: (StreamMeter, u64, Seq<int>, bool, bool),
    limit: u64,
    model: Seq<char>,
    price: PriceInfo,
    ps: Seq<Seq<char>>,
    now: u64,
) -> (StreamMeter, u64, Seq<int>, bool, bool)
    decreases ps.len(),
{
    if ps.len() == 0 {
        s
    } else {
        payload_step(
            chunk_fold(s, limit, model, price, ps.drop_last(), now),
            limit,
            model,
            price,
            ps.last(),
            now,
        )
    }
}

/// What a chunk of the upstream stream comes to.
pub struct ChunkOutcome {
    /// The chunk goes on to the client unchanged.
    pub forward: bool,
    /// Events for the billing bus, in order.
    pub events: Vec<BillingEvent>,
    /// The chunk carried the final usage record.
    pub terminal: bool,
    /// The JSON text of the assistant message of the final chunk, if it has one.
    pub reply: Option<String>,
}

impl StreamMeter {
    /// A meter for a request that starts at clock reading `now_ms`.
    pub fn new(now_ms: u64) -> (r: StreamMeter)
        ensures
            r.completion_tokens == 0,
            r.tokens_since_emit == 0,
            r.last_emit_ms == now_ms,
            r.last_emitted_total == 0,
            !r.fused,
            r.metered_cost == 0,
    {
        StreamMeter {
            completion_tokens: 0,
            tokens_since_emit: 0,
            last_emit_ms: now_ms,
            last_emitted_total: 0,
            fused: false,
            metered_cost: 0,
        }
    }

    /// Bills `n_tokens` tokens of generated text of `model` at `price` at clock
    /// reading `now_ms`: their cost goes onto the running cost; where that reaches
    /// the limit the breaker trips and a fused billing event and a budget event
    /// follow; else a billing event follows where one is due and `may_emit` allows
    /// it (one per chunk).
    pub fn on_delta(
        &mut self,
        budget: &mut BudgetController,
        model: &str,
        price: &PriceInfo,
        n_tokens: u64,
        now_ms: u64,
        may_emit: bool,
    ) -> (events: Vec<BillingEvent>)
        ensures
            event_costs(events@) == delta_events(
                *old(self),
                old(budget).total,
                old(budget).limit,
                model@,
                *price,
                n_tokens,
                now_ms,
                may_emit,
            ),
            *final(self) == delta_meter(
                *old(self),
                old(budget).total,
                old(budget).limit,
                model@,
                *price,
                n_tokens,
                now_ms,
                may_emit,
            ),
            ({
                let cost = billed_cost(model@, 0, n_tokens as int, *price);
                let total = saturating_total(old(budget).total, cost as u64);
                let currency = currency_for(model@, *price);
                &&& final(budget).total == total
                &&& final(budget).limit == old(budget).limit
                &&& final(self).completion_tokens == sat_add(
                    old(self).completion_tokens,
                    n_tokens,
                )
                &&& if total >= old(budget).limit {
                    &&& final(self).fused
                    &&& final(self).tokens_since_emit == sat_add(
                        old(self).tokens_since_emit,
                        n_tokens,
                    )
                    &&& final(self).last_emit_ms == old(self).last_emit_ms
                    &&& final(self).last_emitted_total == old(self).last_emitted_total
                    &&& events@.len() == 2
                    &&& is_event(events@[0], EventKind::Billing, model@, total as int, currency, true)
                    &&& is_event(
                        events@[1],
                        EventKind::BudgetExceeded,
                        model@,
                        total as int,
                        currency,
                        true,
                    )
                } else if may_emit && emit_due(*old(self), n_tokens, cost, total, now_ms) {
                    &&& final(self).fused == old(self).fused
                    &&& final(self).tokens_since_emit == 0
                    &&& final(self).last_emit_ms == now_ms
                    &&& final(self).last_emitted_total == total
                    &&& events@.len() == 1
                    &&& is_event(events@[0], EventKind::Billing, model@, total as int, currency, false)
                } else {
                    &&& final(self).fused == old(self).fused
                    &&& final(self).tokens_since_emit == sat_add(
                        old(self).tokens_since_emit,
                        n_tokens,
                    )
                    &&& final(self).last_emit_ms == old(self).last_emit_ms
                    &&& final(self).last_emitted_total == old(self).last_emitted_total
                    &&& events@.len() == 0
                }
            }),
    {
        let (cost, currency) = priced_cost(model, 0, n_tokens, price);
        self.completion_tokens = if n_tokens > u64::MAX - self.completion_tokens {
            u64::MAX
        } else {
            self.completion_tokens + n_tokens
        };
        let since: u64 = if n_tokens > u64::MAX - self.tokens_since_emit {
            u64::MAX
        } else {
            self.tokens_since_emit + n_tokens
        };
        budget.add_picos(cost);
        self.metered_cost = if cost > u64::MAX - self.metered_cost {
            u64::MAX
        } else {
            self.metered_cost + cost
        };
        let total = budget.current();
        let mut events: Vec<BillingEvent> = Vec::new();
        if total >= budget.limit() {
            self.fused = true;
            self.tokens_since_emit = since;
            events.push(
                BillingEvent {
                    kind: EventKind::Billing,
                    model: model.to_string(),
                    cost: total,
                    currency,
                    fused: true,
                },
            );
            events.push(
                BillingEvent {
                    kind: EventKind::BudgetExceeded,
                    model: model.to_string(),
                    cost: total,
                    currency,
                    fused: true,
                },
            );
            assert(event_costs(events@) =~= seq![total as int, total as int]);
            return events;
        }
        let by_tokens = since >= EMIT_TOKEN_THRESHOLD;
        let moved: u64 = if total >= self.last_emitted_total {
            total - self.last_emitted_total
        } else {
            self.last_emitted_total - total
        };
        let by_cost = moved >= EMIT_COST_THRESHOLD;
        let by_time = now_ms >= self.last_emit_ms && now_ms - self.last_emit_ms >= EMIT_INTERVAL_MS;
        if may_emit && cost > 0 && (by_tokens || by_cost || by_time) {
            events.push(
                BillingEvent {
                    kind: EventKind::Billing,
                    model: model.to_string(),
                    cost: total,
                    currency,
                    fused: false,
                },
            );
            self.tokens_since_emit = 0;
            self.last_emit_ms = now_ms;
            self.last_emitted_total = total;
            assert(event_costs(events@) =~= seq![total as int]);
        } else {
            self.tokens_since_emit = since;
            assert(event_costs(events@) =~= Seq::<int>::empty());
        }
        events
    }

    /// The final, authoritative bill of a streamed request of `model`: the
    /// vendor's prompt count and the meter's own completion count at the cache's
    /// prices. Where that is more than the request has put on the running cost,
    /// the difference goes on too; the event reports the running cost, so it is
    /// never below an earlier event of the request.
    pub fn on_usage(
        &mut self,
        budget: &mut BudgetController,
        model: &str,
        prompt_tokens: u64,
        price_cache: &PriceCache,
    ) -> (r: BillingEvent)
        ensures
            ({
                let price = price_for(price_cache@, model@);
                &&& *final(self) == usage_meter(*old(self), model@, prompt_tokens, price)
                &&& final(budget).total == saturating_total(
                    old(budget).total,
                    usage_extra(*old(self), model@, prompt_tokens, price),
                )
                &&& final(budget).limit == old(budget).limit
                &&& is_event(
                    r,
                    EventKind::Billing,
                    model@,
                    final(budget).total as int,
                    currency_for(model@, price),
                    false,
                )
            }),
    {
        let price = price_cache.lookup(model);
        let (cost, currency) = priced_cost(model, prompt_tokens, self.completion_tokens, &price);
        if cost > self.metered_cost {
            budget.add_picos(cost - self.metered_cost);
            self.metered_cost = cost;
        } else {
            budget.add_picos(0);
        }
        BillingEvent {
            kind: EventKind::Billing,
            model: model.to_string(),
            cost: budget.current(),
            currency,
            fused: false,
        }
    }

    /// Meters one chunk of the upstream stream of a request for `model`, read at
    /// clock reading `now_ms`. Once the breaker has tripped nothing more is
    /// forwarded or billed. Else the chunk is forwarded unchanged, and its
    /// `data:` payloads are metered in turn as `chunk_fold` states: the tokens
    /// of `choices[0].delta.content` are billed (see `on_delta`; at most one
    /// throttled event per chunk), and a readable `usage` record ends the request
    /// with its final bill (see `on_usage`). The costs the chunk's events report
    /// never decrease and lie between the running cost before and after it.
    pub fn on_chunk(
        &mut self,
        budget: &mut BudgetController,
        price_cache: &PriceCache,
        tokenizer: &Tokenizer,
        model: &str,
        chunk: &str,
        now_ms: u64,
    ) -> (r: ChunkOutcome)
        ensures
            r.forward == !old(self).fused,
            old(self).fused ==> *final(self) == *old(self) && *final(budget) == *old(budget)
                && r.events@.len() == 0 && !r.terminal,
            !old(self).fused ==> ({
                let st = chunk_fold(
                    (*old(self), old(budget).total, Seq::<int>::empty(), false, false),
                    old(budget).limit,
                    model@,
                    price_for(price_cache@, model@),
                    data_payloads(chunk@),
                    now_ms,
                );
                &&& *final(self) == st.0
                &&& final(budget).total == st.1
                &&& event_costs(r.events@) == st.2
                &&& r.terminal == st.4
            }),
            final(budget).limit == old(budget).limit,
            old(budget).total <= final(budget).total,
            forall|k: int|
                0 <= k < r.events@.len() ==> old(budget).total <= #[trigger] r.events@[k].cost
                    <= final(budget).total,
            forall|k: int, l: int|
                0 <= k <= l < r.events@.len() ==> r.events@[k].cost <= r.events@[l].cost,
    {
        let mut out = ChunkOutcome { forward: !self.fused, events: Vec::new(), terminal: false, reply: None };
        if self.fused {
            return out;
        }
        let ghost m0 = *self;
        let ghost t0 = budget.total;
        let ghost limit = budget.limit;
        let payloads = sse_payloads(chunk);
        let price = price_cache.lookup(model);
        let ghost ps = data_payloads(chunk@);
        let mut emitted = false;
        let mut i: usize = 0;
        assert(ps.subrange(0, 0) =~= Seq::<Seq<char>>::empty());
        assert(event_costs(out.events@) =~= Seq::<int>::empty());
        while i < payloads.len()
            invariant
                i <= payloads@.len(),
                texts_of(payloads@) == ps,
                ps == data_payloads(chunk@),
                price == price_for(price_cache@, model@),
                budget.limit == limit,
                limit == old(budget).limit,
                m0 == *old(self),
                t0 == old(budget).total,
                !m0.fused,
                out.forward,
                (*self, budget.total, event_costs(out.events@), emitted, out.terminal) == chunk_fold(
                    (m0, t0, Seq::<int>::empty(), false, false),
                    limit,
                    model@,
                    price,
                    ps.subrange(0, i as int),
                    now_ms,
                ),
                t0 <= budget.total,
                forall|k: int|
                    0 <= k < out.events@.len() ==> t0 <= #[trigger] out.events@[k].cost
                        <= budget.total,
                forall|k: int, l: int|
                    0 <= k <= l < out.events@.len() ==> out.events@[k].cost <= out.events@[l].cost,
            decreases payloads@.len() - i,
        {
            let ghost before = (*self, budget.total, event_costs(out.events@), emitted, out.terminal);
            let ghost p = ps[i as int];
            assert(payloads@[i as int]@ == p);
            proof {
                assert(ps.subrange(0, i + 1).drop_last() =~= ps.subrange(0, i as int));
            }
            if !self.fused {
                match parse_json(payloads[i].as_str()) {
                    Ok(doc) => {
                        self.meter_document(
                            budget,
                            price_cache,
                            tokenizer,
                            model,
                            &price,
                            &doc,
                            now_ms,
                            &mut emitted,
                            &mut out,
                        );
                    },
                    Err(_) => {},
                }
            }
            i = i + 1;
        }
        assert(ps.subrange(0, i as int) =~= ps);
        out
    }

    /// Meters one parsed payload of a chunk (see `document_step`).
    fn meter_document(
        &mut self,
        budget: &mut BudgetController,
        price_cache: &PriceCache,
        tokenizer: &Tokenizer,
        model: &str,
        price: &PriceInfo,
        doc: &Json,
        now_ms: u64,
        emitted: &mut bool,
        out: &mut ChunkOutcome,
    )
        requires
            !old(self).fused,
            *price == price_for(price_cache@, model@),
            forall|k: int|
                0 <= k < old(out).events@.len() ==> #[trigger] old(out).events@[k].cost
                    <= old(budget).total,
            forall|k: int, l: int|
                0 <= k <= l < old(out).events@.len() ==> old(out).events@[k].cost
                    <= old(out).events@[l].cost,
        ensures
            (
                *final(self),
                final(budget).total,
                event_costs(final(out).events@),
                *final(emitted),
                final(out).terminal,
            ) == document_step(
                (
                    *old(self),
                    old(budget).total,
                    event_costs(old(out).events@),
                    *old(emitted),
                    old(out).terminal,
                ),
                old(budget).limit,
                model@,
                *price,
                *doc,
                now_ms,
            ),
            final(budget).limit == old(budget).limit,
            final(out).forward == old(out).forward,
            old(budget).total <= final(budget).total,
            final(out).events@.len() >= old(out).events@.len(),
            forall|k: int|
                0 <= k < old(out).events@.len() ==> final(out).events@[k] == old(out).events@[k],
            forall|k: int|
                old(out).events@.len() <= k < final(out).events@.len() ==> old(budget).total
                    <= #[trigger] final(out).events@[k].cost <= final(budget).total,
            forall|k: int|
                0 <= k < final(out).events@.len() ==> #[trigger] final(out).events@[k].cost
                    <= final(budget).total,
            forall|k: int, l: int|
                0 <= k <= l < final(out).events@.len() ==> final(out).events@[k].cost
                    <= final(out).events@[l].cost,
    {
        let content = text_in(get_of(get_of(first_in(doc.get("choices")), "delta"), "content"));
        match content {
            Some(text) => {
                let n = tokenizer.count_delta_tokens(text.as_str());
                let ghost evs_before = out.events@;
                let mut events = self.on_delta(budget, model, price, n, now_ms, !*emitted);
                if events.len() > 0 && !self.fused {
                    *emitted = true;
                }
                let ghost new_events = events@;
                out.events.append(&mut events);
                proof {
                    assert(out.events@ =~= evs_before + new_events);
                    assert(event_costs(out.events@) =~= event_costs(evs_before) + event_costs(
                        new_events,
                    ));
                    assert forall|k: int| 0 <= k < new_events.len() implies #[trigger] new_events[k].cost
                        == budget.total by {
                        assert(event_costs(new_events)[k] == new_events[k].cost);
                    }
                }
            },
            None => {},
        }
        if !self.fused {
            match doc.get("usage") {
                Some(u) => match parse_usage(u) {
                    Ok(usage) => {
                        let prompt = match usage.prompt_tokens {
                            Some(p) => p,
                            None => 0,
                        };
                        let ghost evs_before = out.events@;
                        let e = self.on_usage(budget, model, prompt, price_cache);
                        out.events.push(e);
                        proof {
                            assert(event_costs(out.events@) =~= event_costs(evs_before).push(
                                budget.total as int,
                            ));
                        }
                        out.terminal = true;
                        out.reply = assistant_message(doc);
                    },
                    Err(_) => {},
                },
                None => {},
            }
        }
    }
}

/// The JSON text of `choices[0].message` of a response or final chunk.
pub fn assistant_message(doc: &Json) -> (r: Option<String>)
    ensures
        r.is_some() == member_of(first_of(member(*doc, "choices"@)), "message"@).is_some(),
{
    match get_of(first_in(doc.get("choices")), "message") {
        Some(m) => Some(json_text(m)),
        None => None,
    }
}

} // verus!
