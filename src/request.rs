//! Reading chat requests and vendor responses, and billing what they report.

use vstd::prelude::*;
use crate::dispatch::{stream_options_edit, StreamOptionsEdit};
use crate::json::{
    bool_of, first_in, first_of, get_of, json_text, last_in, last_of, member, member_of, parse_json,
    put_member, take_member,
    parsed_json, text_in, text_of, Json,
};
use crate::meter::{assistant_message, delta_content, is_event, BillingEvent, EventKind};
use crate::naming::{lower_of, lowercase, trim_text, trimmed};
use crate::pricing::{billed_cost, cap, currency_for, price_for, priced_cost, Currency, PriceCache};
use crate::text::{chars_of, occurs_in, same_text, str_contains, string_of};
use crate::tokenizer::{delta_tokens, Tokenizer};
use crate::usage::{calculate_actual_cost, count_or_zero, parse_usage, usage_in, ParseError, Usage};

verus! {

/// A chat request: its model, its conversation as text, and the request itself.
pub struct ParsedRequest {
    pub model: String,
    pub prompt: String,
    pub original_request: Json,
}

/// `role: content` for one message.
pub open spec fn message_line(role: Seq<char>, content: Seq<char>) -> Seq<char> {
    role + ": "@ + content
}

/// The conversation as text: one `role: content` line per message, joined by
/// line feeds.
pub open spec fn conversation_text(messages: Seq<(Seq<char>, Seq<char>)>) -> Seq<char>
    decreases messages.len(),
{
    if messages.len() == 0 {
        Seq::empty()
    } else if messages.len() == 1 {
        message_line(messages[0].0, messages[0].1)
    } else {
        conversation_text(messages.drop_last()) + "\n"@ + message_line(
            messages.last().0,
            messages.last().1,
        )
    }
}

/// The role and content texts of each message.
pub open spec fn pairs_view(v: Seq<(String, String)>) -> Seq<(Seq<char>, Seq<char>)> {
    v.map_values(|p: (String, String)| (p.0@, p.1@))
}

/// The conversation as text: `role: content` per message, one per line.
pub fn conversation_of(messages: &Vec<(String, String)>) -> (r: String)
    ensures
        r@ == conversation_text(pairs_view(messages@)),
{
    let mut out: Vec<char> = Vec::new();
    let mut i: usize = 0;
    let sep = chars_of(": ");
    let nl = chars_of("\n");
    while i < messages.len()
        invariant
            i <= messages@.len(),
            sep@ == ": "@,
            nl@ == "\n"@,
            out@ == conversation_text(pairs_view(messages@.subrange(0, i as int))),
        decreases messages@.len() - i,
    {
        let ghost before = out@;
        if i > 0 {
            let mut n2 = nl.clone();
            out.append(&mut n2);
        }
        let mut role = chars_of(messages[i].0.as_str());
        let mut s2 = sep.clone();
        let mut content = chars_of(messages[i].1.as_str());
        out.append(&mut role);
        out.append(&mut s2);
        out.append(&mut content);
        proof {
            let pv = pairs_view(messages@.subrange(0, i + 1));
            assert(pv.drop_last() =~= pairs_view(messages@.subrange(0, i as int)));
            assert(pv.last() == (messages@[i as int].0@, messages@[i as int].1@));
            if i == 0 {
                assert(out@ =~= message_line(pv[0].0, pv[0].1));
            } else {
                assert(out@ =~= before + "\n"@ + message_line(pv.last().0, pv.last().1));
            }
        }
        i = i + 1;
    }
    assert(messages@.subrange(0, i as int) =~= messages@);
    string_of(&out)
}

/// The role (default `user`) and text content (default empty) of a message.
pub open spec fn message_pair(m: Json) -> (Seq<char>, Seq<char>) {
    (
        match text_of(member(m, "role"@)) {
            Some(r) => r,
            None => "user"@,
        },
        match text_of(member(m, "content"@)) {
            Some(c) => c,
            None => Seq::empty(),
        },
    )
}

/// The non-empty `messages` array of a value.
pub open spec fn messages_in(o: Option<Json>) -> Option<Seq<Json>> {
    match member_of(o, "messages"@) {
        Some(Json::Array(a)) => if a@.len() > 0 {
            Some(a@)
        } else {
            None
        },
        _ => None,
    }
}

/// The conversation of a request as text: from `messages`, else from
/// `input.messages`, else empty.
pub open spec fn prompt_of(doc: Json) -> Seq<char> {
    match messages_in(Some(doc)) {
        Some(ms) => conversation_text(ms.map_values(|m: Json| message_pair(m))),
        None => match messages_in(member(doc, "input"@)) {
            Some(ms) => conversation_text(ms.map_values(|m: Json| message_pair(m))),
            None => Seq::empty(),
        },
    }
}

/// The role and content of a message.
fn message_pair_of(m: &Json) -> (r: (String, String))
    ensures
        (r.0@, r.1@) == message_pair(*m),
{
    let role = match text_in(m.get("role")) {
        Some(r) => r,
        None => "user".to_string(),
    };
    let content = match text_in(m.get("content")) {
        Some(c) => c,
        None => {
            let e = String::new();
            assert(e@ =~= Seq::<char>::empty());
            e
        },
    };
    (role, content)
}

/// The conversation text of the non-empty `messages` array of a value.
fn conversation_in(o: Option<&Json>) -> (r: Option<String>)
    ensures
        forall|oo: Option<Json>|
            refers_opt(o, oo) ==> match r {
                Some(t) => messages_in(oo).is_some() && t@ == conversation_text(
                    messages_in(oo).unwrap().map_values(|m: Json| message_pair(m)),
                ),
                None => messages_in(oo).is_none(),
            },
{
    match get_of(o, "messages") {
        Some(Json::Array(a)) => {
            if a.len() == 0 {
                return None;
            }
            let mut pairs: Vec<(String, String)> = Vec::new();
            let mut i: usize = 0;
            while i < a.len()
                invariant
                    i <= a@.len(),
                    pairs_view(pairs@) == a@.subrange(0, i as int).map_values(
                        |m: Json| message_pair(m),
                    ),
                decreases a@.len() - i,
            {
                let p = message_pair_of(&a[i]);
                let ghost before = pairs@;
                pairs.push(p);
                assert(pairs@ == before.push(p));
                assert(pairs_view(pairs@) =~= pairs_view(before).push((p.0@, p.1@)));
                assert(a@.subrange(0, i + 1) =~= a@.subrange(0, i as int).push(a@[i as int]));
                assert(pairs_view(pairs@) =~= a@.subrange(0, i + 1).map_values(
                    |m: Json| message_pair(m),
                ));
                i = i + 1;
            }
            assert(a@.subrange(0, i as int) =~= a@);
            Some(conversation_of(&pairs))
        },
        _ => None,
    }
}

/// `r` is the reference form of `o`.
pub open spec fn refers_opt(r: Option<&Json>, o: Option<Json>) -> bool {
    crate::json::refers(r, o)
}

/// Reads a chat request: its `model` (a string, required) and its
/// conversation, taken from `messages`, or else from `input.messages`.
pub fn parse_request(request_body: &str) -> (r: Result<ParsedRequest, ParseError>)
    ensures
        r.is_ok() == (parsed_json(request_body@).is_some() && text_of(
            member(parsed_json(request_body@).unwrap(), "model"@),
        ).is_some()),
        parsed_json(request_body@).is_some() && text_of(
            member(parsed_json(request_body@).unwrap(), "model"@),
        ).is_none() ==> r.is_err() && r->Err_0.message@ == "Missing 'model' field"@,
        r.is_ok() ==> ({
            let doc = parsed_json(request_body@).unwrap();
            &&& r.unwrap().original_request == doc
            &&& Some(r.unwrap().model@) == text_of(member(doc, "model"@))
            &&& r.unwrap().prompt@ == prompt_of(doc)
        }),
{
    let original_request = match parse_json(request_body) {
        Ok(v) => v,
        Err(e) => {
            return Err(ParseError { message: e });
        },
    };
    let model = match text_in(original_request.get("model")) {
        Some(m) => m,
        None => {
            return Err(ParseError { message: "Missing 'model' field".to_string() });
        },
    };
    assert(refers_opt(Some(&original_request), Some(original_request)));
    let input = original_request.get("input");
    assert(refers_opt(input, member(original_request, "input"@)));
    let prompt = match conversation_in(Some(&original_request)) {
        Some(t) => t,
        None => match conversation_in(input) {
            Some(t) => t,
            None => String::new(),
        },
    };
    Ok(ParsedRequest { model, prompt, original_request })
}

/// The part is of the given `type`.
pub open spec fn part_is(part: Json, t: Seq<char>) -> bool {
    text_of(member(part, "type"@)) == Some(t)
}

/// The first index of a part of type `text`, or -1.
pub open spec fn first_text_index(parts: Seq<Json>) -> int
    decreases parts.len(),
{
    if parts.len() == 0 {
        -1
    } else {
        let f = first_text_index(parts.drop_last());
        if f >= 0 {
            f
        } else if part_is(parts.last(), "text"@) {
            parts.len() - 1
        } else {
            -1
        }
    }
}

proof fn lemma_first_text_bounds(parts: Seq<Json>)
    ensures
        -1 <= first_text_index(parts) < parts.len(),
        first_text_index(parts) >= 0 ==> part_is(parts[first_text_index(parts)], "text"@),
        first_text_index(parts) == -1 ==> forall|i: int|
            0 <= i < parts.len() ==> !part_is(#[trigger] parts[i], "text"@),
    decreases parts.len(),
{
    if parts.len() > 0 {
        lemma_first_text_bounds(parts.drop_last());
        assert forall|i: int| 0 <= i < parts.len() - 1 implies parts.drop_last()[i] == parts[i] by {}
    }
}

proof fn lemma_first_text_prefix(parts: Seq<Json>, n: int)
    requires
        0 <= n <= parts.len(),
        first_text_index(parts.subrange(0, n)) >= 0,
    ensures
        first_text_index(parts) == first_text_index(parts.subrange(0, n)),
    decreases parts.len() - n,
{
    if n < parts.len() {
        let s = parts.subrange(0, n + 1);
        assert(s.drop_last() =~= parts.subrange(0, n));
        lemma_first_text_prefix(parts, n + 1);
    } else {
        assert(parts.subrange(0, n) =~= parts);
    }
}

/// The index of the first `text` part of a list, if any.
fn first_text_of(parts: &Vec<Json>) -> (r: Option<usize>)
    ensures
        match r {
            Some(i) => i as int == first_text_index(parts@),
            None => first_text_index(parts@) == -1,
        },
{
    let mut i: usize = 0;
    assert(parts@.subrange(0, 0) =~= Seq::<Json>::empty());
    while i < parts.len()
        invariant
            i <= parts@.len(),
            first_text_index(parts@.subrange(0, i as int)) == -1,
        decreases parts@.len() - i,
    {
        proof {
            assert(parts@.subrange(0, i + 1).drop_last() =~= parts@.subrange(0, i as int));
        }
        let is_text = match text_in(parts[i].get("type")) {
            Some(t) => same_text(t.as_str(), "text"),
            None => false,
        };
        if is_text {
            proof {
                lemma_first_text_prefix(parts@, i + 1);
            }
            return Some(i);
        }
        i = i + 1;
    }
    assert(parts@.subrange(0, i as int) =~= parts@);
    None
}

/// The text of a message's content: the content itself where it is a string,
/// else the `text` of the first `text` part of a list (empty where it has none).
pub open spec fn content_text(m: Json) -> Option<Seq<char>> {
    match member(m, "content"@) {
        Some(Json::Str(s)) => Some(s@),
        Some(Json::Array(parts)) => if first_text_index(parts@) >= 0 {
            match text_of(member(parts@[first_text_index(parts@)], "text"@)) {
                Some(t) => Some(t),
                None => Some(Seq::empty()),
            }
        } else {
            None
        },
        _ => None,
    }
}

/// The text of the last message of a request, from `messages`, else from
/// `input.messages`; empty where there is none.
pub open spec fn prompt_text(doc: Json) -> Seq<char> {
    match content_text_of(last_of(member(doc, "messages"@))) {
        Some(t) => t,
        None => match content_text_of(last_of(member_of(member(doc, "input"@), "messages"@))) {
            Some(t) => t,
            None => Seq::empty(),
        },
    }
}

/// The content text of a message that may be missing.
pub open spec fn content_text_of(o: Option<Json>) -> Option<Seq<char>> {
    match o {
        Some(m) => content_text(m),
        None => None,
    }
}

fn content_text_in(o: Option<&Json>) -> (r: Option<String>)
    ensures
        forall|oo: Option<Json>|
            refers_opt(o, oo) ==> match r {
                Some(t) => content_text_of(oo) == Some(t@),
                None => content_text_of(oo).is_none(),
            },
{
    let m = match o {
        Some(m) => m,
        None => {
            return None;
        },
    };
    match m.get("content") {
        Some(Json::Str(s)) => Some(s.clone()),
        Some(Json::Array(parts)) => match first_text_of(parts) {
            Some(i) => {
                proof {
                    lemma_first_text_bounds(parts@);
                }
                match text_in(parts[i].get("text")) {
                    Some(t) => Some(t),
                    None => {
                        let e = String::new();
                        assert(e@ =~= Seq::<char>::empty());
                        Some(e)
                    },
                }
            },
            None => None,
        },
        _ => None,
    }
}

/// The text of the last message of a request, from `messages`, else from
/// `input.messages`; empty where there is none.
pub fn extract_prompt(json: &Json) -> (r: String)
    ensures
        r@ == prompt_text(*json),
{
    let msgs = json.get("messages");
    let last = last_in(msgs);
    assert(refers_opt(last, last_of(member(*json, "messages"@))));
    match content_text_in(last) {
        Some(t) => {
            return t;
        },
        None => {},
    }
    let input = json.get("input");
    let imsgs = get_of(input, "messages");
    assert(refers_opt(imsgs, member_of(member(*json, "input"@), "messages"@)));
    let ilast = last_in(imsgs);
    assert(refers_opt(ilast, last_of(member_of(member(*json, "input"@), "messages"@))));
    match content_text_in(ilast) {
        Some(t) => {
            return t;
        },
        None => {},
    }
    let e = String::new();
    assert(e@ =~= Seq::<char>::empty());
    e
}

/// The text length of the last `text` part and the number of `image_url`
/// parts of a content list.
pub open spec fn part_counts(parts: Seq<Json>) -> (int, int)
    decreases parts.len(),
{
    if parts.len() == 0 {
        (0, 0)
    } else {
        let c = part_counts(parts.drop_last());
        let p = parts.last();
        if part_is(p, "text"@) {
            match text_of(member(p, "text"@)) {
                Some(t) => (t.len() as int, c.1),
                None => c,
            }
        } else if part_is(p, "image_url"@) {
            (c.0, c.1 + 1)
        } else {
            c
        }
    }
}

/// The text length (in characters) and the number of images of the last
/// message of a request.
pub open spec fn prompt_counts(doc: Json) -> (int, int) {
    match last_of(member(doc, "messages"@)) {
        Some(m) => match member(m, "content"@) {
            Some(Json::Str(s)) => (s@.len() as int, 0),
            Some(Json::Array(parts)) => part_counts(parts@),
            _ => (0, 0),
        },
        None => (0, 0),
    }
}

proof fn lemma_part_counts_bounds(parts: Seq<Json>)
    ensures
        0 <= part_counts(parts).1 <= parts.len(),
        0 <= part_counts(parts).0,
    decreases parts.len(),
{
    if parts.len() > 0 {
        lemma_part_counts_bounds(parts.drop_last());
    }
}

/// Whether a part is of the given type.
fn part_is_of(part: &Json, t: &str) -> (r: bool)
    ensures
        r == part_is(*part, t@),
{
    match text_in(part.get("type")) {
        Some(x) => same_text(x.as_str(), t),
        None => false,
    }
}

/// The text length, in characters, of the last message of a request (the last
/// `text` part of a multimodal list), and the number of its `image_url` parts.
pub fn extract_tokens_and_images(payload: &Json) -> (r: (u64, u64))
    ensures
        r.0 as int == prompt_counts(*payload).0,
        r.1 as int == prompt_counts(*payload).1,
{
    let last = last_in(payload.get("messages"));
    let m = match last {
        Some(m) => m,
        None => {
            return (0, 0);
        },
    };
    match m.get("content") {
        Some(Json::Str(s)) => (s.as_str().unicode_len() as u64, 0),
        Some(Json::Array(parts)) => {
            let mut text_len: u64 = 0;
            let mut images: u64 = 0;
            let mut i: usize = 0;
            assert(parts@.subrange(0, 0) =~= Seq::<Json>::empty());
            while i < parts.len()
                invariant
                    i <= parts@.len(),
                    text_len as int == part_counts(parts@.subrange(0, i as int)).0,
                    images as int == part_counts(parts@.subrange(0, i as int)).1,
                decreases parts@.len() - i,
            {
                proof {
                    assert(parts@.subrange(0, i + 1).drop_last() =~= parts@.subrange(0, i as int));
                    lemma_part_counts_bounds(parts@.subrange(0, i as int));
                }
                if part_is_of(&parts[i], "text") {
                    match parts[i].get("text") {
                        Some(Json::Str(x)) => {
                            text_len = x.as_str().unicode_len() as u64;
                        },
                        _ => {},
                    }
                } else if part_is_of(&parts[i], "image_url") {
                    images = images + 1;
                }
                i = i + 1;
            }
            assert(parts@.subrange(0, i as int) =~= parts@);
            (text_len, images)
        },
        _ => (0, 0),
    }
}

/// Pico-units per character of text for a visual model (0.003 per 1000).
pub const VISUAL_PICOS_PER_CHAR: u64 = 3_000_000;

/// Characters of text that one image counts as for a visual model.
pub const CHARS_PER_IMAGE: u64 = 1000;

/// Pico-units per character of text for other models (1.3 tokens per character at 0.8
/// per 1000 tokens).
pub const TEXT_PICOS_PER_CHAR: u64 = 1_040_000_000;

/// The rough cost of a prompt before it is sent: for a model whose lowercased
/// name contains `vl`, text characters plus 1000 per image at 0.003 per 1000; for
/// others 1.3 tokens per character at 0.8 per 1000 tokens.
pub open spec fn estimated_cost(model: Seq<char>, text_len: int, images: int) -> int {
    if occurs_in(lower_of(model), "vl"@) {
        cap((text_len + images * CHARS_PER_IMAGE) * VISUAL_PICOS_PER_CHAR)
    } else {
        cap(text_len * TEXT_PICOS_PER_CHAR)
    }
}

/// The rough cost, in pico-units, of a prompt of `text_len` characters and `images`
/// images for `model`.
pub fn estimate_from_counts(model: &str, text_len: u64, images: u64) -> (r: u64)
    ensures
        r == estimated_cost(model@, text_len as int, images as int),
{
    let l = lowercase(model);
    if str_contains(l.as_str(), "vl") {
        let units: u128 = text_len as u128 + images as u128 * CHARS_PER_IMAGE as u128;
        assert(units * 3_000_000 <= u128::MAX) by (nonlinear_arith)
            requires
                units == text_len + images * 1000,
                text_len <= u64::MAX,
                images <= u64::MAX,
        ;
        let c: u128 = units * VISUAL_PICOS_PER_CHAR as u128;
        if c > u64::MAX as u128 {
            u64::MAX
        } else {
            c as u64
        }
    } else {
        let c: u128 = text_len as u128 * TEXT_PICOS_PER_CHAR as u128;
        if c > u64::MAX as u128 {
            u64::MAX
        } else {
            c as u64
        }
    }
}

/// The rough cost, in pico-units, of the last message of a request for `model`.
pub fn estimate_cost(model: &str, payload: &Json) -> (r: u64)
    ensures
        r == estimated_cost(model@, prompt_counts(*payload).0, prompt_counts(*payload).1),
{
    let (text_len, images) = extract_tokens_and_images(payload);
    estimate_from_counts(model, text_len, images)
}

/// What a chat request asks for beyond the vendor's own fields.
#[derive(Clone, Debug)]
pub struct RequestOptions {
    pub model: String,
    pub session_id: String,
    pub load_history: bool,
    pub stream: bool,
}

/// A text member, or `default`.
pub open spec fn text_or_default(o: Option<Json>) -> Seq<char> {
    match text_of(o) {
        Some(t) => t,
        None => "default"@,
    }
}

/// A boolean member, or false.
pub open spec fn flag(o: Option<Json>) -> bool {
    match bool_of(o) {
        Some(b) => b,
        None => false,
    }
}

fn text_or_default_of(o: Option<&Json>) -> (r: String)
    ensures
        forall|oo: Option<Json>| refers_opt(o, oo) ==> r@ == text_or_default(oo),
{
    match text_in(o) {
        Some(t) => t,
        None => "default".to_string(),
    }
}

fn flag_of(o: Option<&Json>) -> (r: bool)
    ensures
        forall|oo: Option<Json>| refers_opt(o, oo) ==> r == flag(oo),
{
    match o {
        Some(j) => match j.as_bool() {
            Some(b) => b,
            None => false,
        },
        None => false,
    }
}

/// The options of a request: `model` and `session_id` (default `default`),
/// `load_history` and `stream` (default false).
pub fn request_options(payload: &Json) -> (r: RequestOptions)
    ensures
        r.model@ == text_or_default(member(*payload, "model"@)),
        r.session_id@ == text_or_default(member(*payload, "session_id"@)),
        r.load_history == flag(member(*payload, "load_history"@)),
        r.stream == flag(member(*payload, "stream"@)),
{
    RequestOptions {
        model: text_or_default_of(payload.get("model")),
        session_id: text_or_default_of(payload.get("session_id")),
        load_history: flag_of(payload.get("load_history")),
        stream: flag_of(payload.get("stream")),
    }
}

/// The edit that `stream_options_edit` makes.
pub open spec fn edit_for(stream: bool, has_options: bool) -> StreamOptionsEdit {
    if stream {
        if has_options {
            StreamOptionsEdit::Keep
        } else {
            StreamOptionsEdit::Inject
        }
    } else {
        StreamOptionsEdit::Remove
    }
}

/// Edits a request body before it is forwarded (see `stream_options_edit`): a
/// streamed request without `stream_options` gets
/// `stream_options.include_usage = true`; a request that is not streamed loses
/// its `stream_options`. No other member changes. Returns the edit made.
pub fn apply_stream_options(payload: &mut Json) -> (r: StreamOptionsEdit)
    ensures
        r == edit_for(flag(member(*old(payload), "stream"@)), member(*old(payload), "stream_options"@).is_some()),
        r == StreamOptionsEdit::Keep ==> *final(payload) == *old(payload),
        r == StreamOptionsEdit::Remove ==> member(*final(payload), "stream_options"@).is_none(),
        r == StreamOptionsEdit::Inject ==> ({
            let o = member(*final(payload), "stream_options"@);
            o.is_some() && bool_of(member(o.unwrap(), "include_usage"@)) == Some(true)
        }),
        forall|k: Seq<char>|
            k != "stream_options"@ ==> #[trigger] member(*final(payload), k) == member(*old(payload), k),
{
    let stream = flag_of(payload.get("stream"));
    let has_options = payload.get("stream_options").is_some();
    let edit = stream_options_edit(stream, has_options);
    match edit {
        StreamOptionsEdit::Inject => {
            let mut options = Json::Object(Vec::new());
            put_member(&mut options, "include_usage", Json::Bool(true));
            put_member(payload, "stream_options", options);
        },
        StreamOptionsEdit::Remove => {
            let _ = take_member(payload, "stream_options");
        },
        StreamOptionsEdit::Keep => {},
    }
    edit
}

/// The parts of a content list but its `image_url` parts, in order.
pub open spec fn without_images(parts: Seq<Json>) -> Seq<Json>
    decreases parts.len(),
{
    if parts.len() == 0 {
        parts
    } else if part_is(parts.last(), "image_url"@) {
        without_images(parts.drop_last())
    } else {
        without_images(parts.drop_last()).push(parts.last())
    }
}

/// `new` is the message `old` sent to a model that is not visual: a multimodal
/// content list becomes the `text` of its first `text` part (`null` where that
/// part has none), or, without such a part, loses its `image_url` parts; every
/// other member stays.
pub open spec fn collapsed(old: Json, new: Json) -> bool {
    &&& forall|k: Seq<char>| k != "content"@ ==> #[trigger] member(new, k) == member(old, k)
    &&& match member(old, "content"@) {
        Some(Json::Array(parts)) => if first_text_index(parts@) >= 0 {
            member(new, "content"@) == Some(
                match member(parts@[first_text_index(parts@)], "text"@) {
                    Some(t) => t,
                    None => Json::Null,
                },
            )
        } else {
            match member(new, "content"@) {
                Some(Json::Array(kept)) => kept@ == without_images(parts@),
                _ => false,
            }
        },
        other => member(new, "content"@) == other,
    }
}

/// The parts but the `image_url` ones.
fn drop_images(parts: Vec<Json>) -> (r: Vec<Json>)
    ensures
        r@ == without_images(parts@),
{
    let ghost orig = parts@;
    let n = parts.len();
    let mut rest = parts;
    let mut kept: Vec<Json> = Vec::new();
    let mut i: usize = 0;
    assert(orig.subrange(0, 0) =~= Seq::<Json>::empty());
    assert(orig.subrange(0, n as int) =~= orig);
    while rest.len() > 0
        invariant
            i <= n == orig.len(),
            rest@ == orig.subrange(i as int, n as int),
            kept@ == without_images(orig.subrange(0, i as int)),
        decreases rest@.len(),
    {
        let p = rest.remove(0);
        proof {
            assert(orig.subrange(0, i + 1).drop_last() =~= orig.subrange(0, i as int));
            assert(orig.subrange(i + 1, n as int) =~= orig.subrange(i as int, n as int).drop_first());
        }
        if !part_is_of(&p, "image_url") {
            kept.push(p);
        }
        i = i + 1;
    }
    assert(orig.subrange(0, i as int) =~= orig);
    kept
}

/// The message as a model that is not visual gets it (see `collapsed`).
pub fn collapse_message(msg: Json) -> (r: Json)
    ensures
        collapsed(msg, r),
{
    let ghost orig = msg;
    let mut m = msg;
    match take_member(&mut m, "content") {
        Some(Json::Array(parts)) => {
            match first_text_of(&parts) {
                Some(ti) => {
                    proof {
                        lemma_first_text_bounds(parts@);
                    }
                    let mut parts = parts;
                    let mut part = parts.remove(ti);
                    let text = match take_member(&mut part, "text") {
                        Some(t) => t,
                        None => Json::Null,
                    };
                    put_member(&mut m, "content", text);
                },
                None => {
                    let kept = drop_images(parts);
                    put_member(&mut m, "content", Json::Array(kept));
                },
            }
        },
        Some(other) => {
            put_member(&mut m, "content", other);
        },
        None => {},
    }
    m
}

/// `new` is the `messages` array that a request with `old` messages carries
/// upstream: `history` first, in order, then the old messages; for a model that
/// is not visual each message collapsed (see `collapsed`).
pub open spec fn prepared(old: Seq<Json>, history: Seq<Json>, visual: bool, new: Seq<Json>) -> bool {
    let all = history + old;
    &&& new.len() == all.len()
    &&& forall|i: int|
        0 <= i < all.len() ==> if visual {
            #[trigger] new[i] == all[i]
        } else {
            collapsed(all[i], new[i])
        }
}

/// Prepares the `messages` of a request body: `history` goes first, in order;
/// for a model that is not visual, each message is collapsed (see `collapsed`).
/// A body without a `messages` array keeps its messages; no other member
/// changes.
pub fn prepare_messages(payload: &mut Json, history: Vec<Json>, visual: bool)
    ensures
        forall|k: Seq<char>| k != "messages"@ ==> #[trigger] member(*final(payload), k) == member(*old(payload), k),
        match member(*old(payload), "messages"@) {
            Some(Json::Array(ms)) => match member(*final(payload), "messages"@) {
                Some(Json::Array(new)) => prepared(ms@, history@, visual, new@),
                _ => false,
            },
            other => member(*final(payload), "messages"@) == other,
        },
{
    match take_member(payload, "messages") {
        Some(Json::Array(ms)) => {
            let ghost old_ms = ms@;
            let mut all = history;
            let ghost hist = all@;
            let mut rest = ms;
            all.append(&mut rest);
            assert(all@ == hist + old_ms);
            if visual {
                put_member(payload, "messages", Json::Array(all));
            } else {
                let ghost whole = all@;
                let n = all.len();
                let mut out: Vec<Json> = Vec::new();
                let mut i: usize = 0;
                while all.len() > 0
                    invariant
                        i <= n == whole.len(),
                        all@ == whole.subrange(i as int, n as int),
                        out@.len() == i,
                        forall|j: int| 0 <= j < i ==> collapsed(whole[j], #[trigger] out@[j]),
                    decreases all@.len(),
                {
                    let m = all.remove(0);
                    assert(m == whole[i as int]);
                    out.push(collapse_message(m));
                    proof {
                        assert(whole.subrange(i + 1, n as int) =~= whole.subrange(i as int, n as int).drop_first());
                    }
                    i = i + 1;
                }
                put_member(payload, "messages", Json::Array(out));
            }
        },
        Some(other) => {
            put_member(payload, "messages", other);
        },
        None => {},
    }
}

/// The JSON text of the last message of a request, which is remembered with
/// the reply.
pub fn last_message_text(payload: &Json) -> (r: Option<String>)
    ensures
        r.is_some() == last_of(member(*payload, "messages"@)).is_some(),
{
    match last_in(payload.get("messages")) {
        Some(m) => Some(json_text(m)),
        None => None,
    }
}

/// The messages of a stored chat history: the entries that parse, in order;
/// the others are dropped.
pub open spec fn history_of(raw: Seq<String>) -> Seq<Json>
    decreases raw.len(),
{
    if raw.len() == 0 {
        Seq::empty()
    } else {
        match parsed_json(raw.last()@) {
            Some(j) => history_of(raw.drop_last()).push(j),
            None => history_of(raw.drop_last()),
        }
    }
}

/// The messages of a stored chat history, in order; entries that are not JSON
/// are dropped.
pub fn parse_history(raw: &Vec<String>) -> (r: Vec<Json>)
    ensures
        r@ == history_of(raw@),
{
    let mut out: Vec<Json> = Vec::new();
    let mut i: usize = 0;
    assert(raw@.subrange(0, 0) =~= Seq::<String>::empty());
    while i < raw.len()
        invariant
            i <= raw@.len(),
            out@ == history_of(raw@.subrange(0, i as int)),
        decreases raw@.len() - i,
    {
        proof {
            assert(raw@.subrange(0, i + 1).drop_last() =~= raw@.subrange(0, i as int));
        }
        match parse_json(raw[i].as_str()) {
            Ok(v) => out.push(v),
            Err(_) => {},
        }
        i = i + 1;
    }
    assert(raw@.subrange(0, i as int) =~= raw@);
    out
}

/// The name under which a whole (not streamed) response is priced: the
/// lowercased model name without surrounding white space.
pub open spec fn response_model_key(model: Seq<char>) -> Seq<char> {
    trimmed(lower_of(model))
}

/// The cost of a usage record of a whole response for `model` at the prices of
/// cache entries `es`.
pub open spec fn response_cost(
    model: Seq<char>,
    usage: Usage,
    es: Seq<(Seq<char>, crate::pricing::PriceInfo)>,
) -> int {
    let key = response_model_key(model);
    billed_cost(
        key,
        count_or_zero(usage.prompt_tokens),
        count_or_zero(usage.completion_tokens),
        price_for(es, key),
    )
}

/// The currency of a whole response's bill for `model`.
pub open spec fn response_currency(
    model: Seq<char>,
    es: Seq<(Seq<char>, crate::pricing::PriceInfo)>,
) -> Currency {
    currency_for(response_model_key(model), price_for(es, response_model_key(model)))
}

/// The bill of a usage record of a whole response for `model`: one billing
/// event with the cost of the vendor's prompt and completion counts.
pub fn bill_usage(model: &str, usage: &Usage, price_cache: &PriceCache) -> (r: BillingEvent)
    ensures
        is_event(
            r,
            EventKind::Billing,
            model@,
            response_cost(model@, *usage, price_cache@),
            response_currency(model@, price_cache@),
            false,
        ),
{
    let lower = lowercase(model);
    let key = trim_text(lower.as_str());
    let (cost, currency) = calculate_actual_cost(key.as_str(), usage, price_cache);
    BillingEvent { kind: EventKind::Billing, model: model.to_string(), cost, currency, fused: false }
}

/// What a whole response comes to: its bill, if it reports usage, and the JSON
/// text of the assistant message to remember.
pub struct ResponseBill {
    pub event: Option<BillingEvent>,
    pub reply: Option<String>,
}

/// Reads a whole response body for `model` and bills its `usage` record (see
/// `bill_usage`). A body that is not JSON, or a usage record that cannot be
/// read, is an error; a body without usage has no bill.
pub fn bill_response(model: &str, body: &str, price_cache: &PriceCache) -> (r: Result<
    ResponseBill,
    ParseError,
>)
    ensures
        r.is_ok() == (parsed_json(body@).is_some() && match member(
            parsed_json(body@).unwrap(),
            "usage"@,
        ) {
            Some(u) => usage_in(u).is_some(),
            None => true,
        }),
        r.is_ok() ==> match member(parsed_json(body@).unwrap(), "usage"@) {
            Some(u) => r.unwrap().event.is_some() && is_event(
                r.unwrap().event.unwrap(),
                EventKind::Billing,
                model@,
                response_cost(model@, usage_in(u).unwrap(), price_cache@),
                response_currency(model@, price_cache@),
                false,
            ),
            None => r.unwrap().event.is_none(),
        },
{
    let doc = match parse_json(body) {
        Ok(d) => d,
        Err(e) => {
            return Err(ParseError { message: e });
        },
    };
    let reply = assistant_message(&doc);
    let event = match doc.get("usage") {
        Some(u) => match parse_usage(u) {
            Ok(usage) => Some(bill_usage(model, &usage, price_cache)),
            Err(e) => {
                return Err(e);
            },
        },
        None => None,
    };
    Ok(ResponseBill { event, reply })
}

/// An unsigned count under `key` of a value, or zero.
pub open spec fn count_in(u: Json, key: Seq<char>) -> u64 {
    match member(u, key) {
        Some(Json::Unsigned(n)) => n,
        _ => 0,
    }
}

/// The token counts of a chunk's `usage` record: as a usage record where it
/// reads as one, else the plain `prompt_tokens` and `completion_tokens` counts.
pub open spec fn fallback_counts(u: Json) -> (u64, u64) {
    match usage_in(u) {
        Some(us) => (count_or_zero(us.prompt_tokens) as u64, count_or_zero(us.completion_tokens) as u64),
        None => (count_in(u, "prompt_tokens"@), count_in(u, "completion_tokens"@)),
    }
}

/// The cost and currency of one chunk: the tokens of
/// `choices[0].delta.content` at the output price; else, for a non-null `usage`
/// record with some tokens, the cost of its counts; else nothing, in USD.
pub open spec fn chunk_cost(chunk: Json, model: Seq<char>, es: Seq<(Seq<char>, crate::pricing::PriceInfo)>) -> (int, Currency) {
    let price = price_for(es, model);
    match delta_content(chunk) {
        Some(t) => (billed_cost(model, 0, delta_tokens(t) as int, price), currency_for(model, price)),
        None => match member(chunk, "usage"@) {
            Some(Json::Null) => (0, Currency::Usd),
            Some(u) => {
                let c = fallback_counts(u);
                if c.0 > 0 || c.1 > 0 {
                    (billed_cost(model, c.0 as int, c.1 as int, price), currency_for(model, price))
                } else {
                    (0, Currency::Usd)
                }
            },
            None => (0, Currency::Usd),
        },
    }
}

fn count_in_of(u: &Json, key: &str) -> (r: u64)
    ensures
        r == count_in(*u, key@),
{
    match u.get(key) {
        Some(Json::Unsigned(n)) => *n,
        _ => 0,
    }
}

/// The cost and currency of one chunk of a stream (see `chunk_cost`).
pub fn calculate_real_time_cost(
    chunk: &Json,
    model_id: &str,
    price_cache: &PriceCache,
    bpe: &Tokenizer,
) -> (r: (u64, Currency))
    ensures
        r.0 as int == chunk_cost(*chunk, model_id@, price_cache@).0,
        r.1 == chunk_cost(*chunk, model_id@, price_cache@).1,
{
    let content = text_in(get_of(get_of(first_in(chunk.get("choices")), "delta"), "content"));
    match content {
        Some(text) => {
            let n = bpe.count_delta_tokens(text.as_str());
            let price = price_cache.lookup(model_id);
            return priced_cost(model_id, 0, n, &price);
        },
        None => {},
    }
    match chunk.get("usage") {
        Some(Json::Null) => (0, Currency::Usd),
        Some(u) => {
            let (prompt, completion) = match parse_usage(u) {
                Ok(usage) => (
                    match usage.prompt_tokens {
                        Some(p) => p,
                        None => 0,
                    },
                    match usage.completion_tokens {
                        Some(c) => c,
                        None => 0,
                    },
                ),
                Err(_) => (count_in_of(u, "prompt_tokens"), count_in_of(u, "completion_tokens")),
            };
            if prompt > 0 || completion > 0 {
                let total = if completion > u64::MAX - prompt {
                    None
                } else {
                    Some(prompt + completion)
                };
                let usage = Usage {
                    prompt_tokens: Some(prompt),
                    completion_tokens: Some(completion),
                    total_tokens: total,
                };
                calculate_actual_cost(model_id, &usage, price_cache)
            } else {
                (0, Currency::Usd)
            }
        },
        None => (0, Currency::Usd),
    }
}

} // verus!
