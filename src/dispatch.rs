//! Choosing the upstream vendor of a request, and the request edits it needs.

use vstd::prelude::*;
use crate::naming::{last_segment, lower_of, lowercase, trimmed};
use crate::text::{chars_of, occurs_in, starts_with, str_contains, string_of};

verus! {

/// `s` with every occurrence of `pat` removed, scanning from the left.
pub open spec fn remove_all(s: Seq<char>, pat: Seq<char>) -> Seq<char>
    decreases s.len(),
{
    if pat.len() == 0 || s.len() < pat.len() {
        s
    } else if starts_with(s, pat) {
        remove_all(s.subrange(pat.len() as int, s.len() as int), pat)
    } else {
        seq![s[0]] + remove_all(s.drop_first(), pat)
    }
}

/// `v[i..]` with every occurrence of `pat` removed.
fn remove_all_of(v: &Vec<char>, pat: &Vec<char>) -> (r: Vec<char>)
    ensures
        r@ == remove_all(v@, pat@),
{
    let n = v.len();
    let m = pat.len();
    let mut out: Vec<char> = Vec::new();
    let mut i: usize = 0;
    assert(v@.subrange(0, n as int) =~= v@);
    while i < n
        invariant
            i <= n == v@.len(),
            m == pat@.len(),
            remove_all(v@, pat@) == out@ + remove_all(v@.subrange(i as int, n as int), pat@),
        decreases n - i,
    {
        let ghost s = v@.subrange(i as int, n as int);
        if m == 0 || n - i < m {
            proof {
                assert(remove_all(s, pat@) == s);
            }
            while i < n
                invariant
                    i <= n == v@.len(),
                    remove_all(v@, pat@) == out@ + v@.subrange(i as int, n as int),
                decreases n - i,
            {
                let ghost before = out@;
                out.push(v[i]);
                proof {
                    assert(v@.subrange(i as int, n as int) =~= seq![v@[i as int]] + v@.subrange(
                        i + 1,
                        n as int,
                    ));
                    assert(before + v@.subrange(i as int, n as int) =~= out@ + v@.subrange(
                        i + 1,
                        n as int,
                    ));
                }
                i = i + 1;
            }
            assert(v@.subrange(n as int, n as int) =~= Seq::<char>::empty());
            assert(out@ + Seq::<char>::empty() =~= out@);
            return out;
        }
        let mut k: usize = 0;
        let mut hit = true;
        while k < m
            invariant
                k <= m == pat@.len(),
                i + m <= n == v@.len(),
                hit == (forall|j: int| 0 <= j < k ==> v@[i + j] == pat@[j]),
            decreases m - k,
        {
            if v[i + k] != pat[k] {
                hit = false;
            }
            k = k + 1;
        }
        if hit {
            proof {
                assert(s.subrange(0, m as int) =~= pat@);
                assert(s.subrange(m as int, s.len() as int) =~= v@.subrange(i + m, n as int));
            }
            i = i + m;
        } else {
            let ghost before = out@;
            out.push(v[i]);
            proof {
                if s.subrange(0, m as int) == pat@ {
                    let j = choose|j: int| 0 <= j < m && v@[i + j] != pat@[j];
                    assert(s.subrange(0, m as int)[j] == v@[i + j]);
                }
                assert(s.drop_first() =~= v@.subrange(i + 1, n as int));
                assert(before + (seq![v@[i as int]] + remove_all(s.drop_first(), pat@)) =~= out@
                    + remove_all(s.drop_first(), pat@));
            }
            i = i + 1;
        }
    }
    assert(v@.subrange(n as int, n as int) =~= Seq::<char>::empty());
    assert(out@ + Seq::<char>::empty() =~= out@);
    out
}

/// The canonical name of a model family, or the base name with the
/// `-chat`, `-latest`, `-2024` and `-instruct` markers removed.
pub open spec fn simplified(model: Seq<char>) -> Seq<char> {
    let base = last_segment(trimmed(lower_of(model)));
    if occurs_in(base, "deepseek-r1"@) {
        "deepseek-r1"@
    } else if occurs_in(base, "deepseek-v3"@) {
        "deepseek-v3"@
    } else if occurs_in(base, "qwen-max"@) {
        "qwen-max"@
    } else if occurs_in(base, "qwen-plus"@) {
        "qwen-plus"@
    } else if occurs_in(base, "glm-4v"@) {
        "glm-4v"@
    } else if occurs_in(base, "glm-4"@) {
        "glm-4"@
    } else {
        remove_all(
            remove_all(remove_all(remove_all(base, "-chat"@), "-latest"@), "-2024"@),
            "-instruct"@,
        )
    }
}

/// The name under which a model is routed: lowercased and trimmed, cut to the
/// part after the last `/`, then reduced to its family name where it names a
/// known family, else stripped of the `-chat`, `-latest`, `-2024` and
/// `-instruct` markers.
pub fn simplify_model_id(model_id: &str) -> (r: String)
    ensures
        r@ == simplified(model_id@),
{
    let lower = lowercase(model_id);
    let t = crate::naming::trim_text(lower.as_str());
    let base_chars = crate::naming::last_segment_chars(&chars_of(t.as_str()));
    let base = string_of(&base_chars);
    let b = base.as_str();
    if str_contains(b, "deepseek-r1") {
        "deepseek-r1".to_string()
    } else if str_contains(b, "deepseek-v3") {
        "deepseek-v3".to_string()
    } else if str_contains(b, "qwen-max") {
        "qwen-max".to_string()
    } else if str_contains(b, "qwen-plus") {
        "qwen-plus".to_string()
    } else if str_contains(b, "glm-4v") {
        "glm-4v".to_string()
    } else if str_contains(b, "glm-4") {
        "glm-4".to_string()
    } else {
        let a1 = remove_all_of(&base_chars, &chars_of("-chat"));
        let a2 = remove_all_of(&a1, &chars_of("-latest"));
        let a3 = remove_all_of(&a2, &chars_of("-2024"));
        let a4 = remove_all_of(&a3, &chars_of("-instruct"));
        string_of(&a4)
    }
}

/// An upstream vendor.
#[derive(Clone, Copy, Debug, PartialEq, Eq, Structural)]
pub enum Vendor {
    DashScope,
    Zhipu,
    DeepSeek,
}

/// Why a request cannot be dispatched.
#[derive(Clone, Copy, Debug, PartialEq, Eq, Structural)]
pub enum DispatchError {
    /// No vendor serves the model.
    UnsupportedModel,
    /// The chosen vendor has no credential.
    MissingCredential,
}

/// The vendor of a lowercased model name: `qwen` or `qwq` goes to DashScope,
/// else `glm` to Zhipu, else `deepseek` to DeepSeek.
pub open spec fn vendor_of(s: Seq<char>) -> Option<Vendor> {
    if occurs_in(s, "qwen"@) || occurs_in(s, "qwq"@) {
        Some(Vendor::DashScope)
    } else if occurs_in(s, "glm"@) {
        Some(Vendor::Zhipu)
    } else if occurs_in(s, "deepseek"@) {
        Some(Vendor::DeepSeek)
    } else {
        None
    }
}

/// The vendor that serves `model`, by its (lowercased) name.
pub fn vendor_for(model: &str) -> (r: Option<Vendor>)
    ensures
        r == vendor_of(lower_of(model@)),
{
    let s = lowercase(model);
    let t = s.as_str();
    if str_contains(t, "qwen") || str_contains(t, "qwq") {
        Some(Vendor::DashScope)
    } else if str_contains(t, "glm") {
        Some(Vendor::Zhipu)
    } else if str_contains(t, "deepseek") {
        Some(Vendor::DeepSeek)
    } else {
        None
    }
}

impl Vendor {
    /// The chat-completions endpoint of the vendor.
    pub fn endpoint(&self) -> (r: &'static str)
        ensures
            *self == Vendor::DashScope ==> r@
                == "https://dashscope.aliyuncs.com/compatible-mode/v1/chat/completions"@,
            *self == Vendor::Zhipu ==> r@ == "https://open.bigmodel.cn/api/paas/v4/chat/completions"@,
            *self == Vendor::DeepSeek ==> r@ == "https://api.deepseek.com/chat/completions"@,
    {
        match self {
            Vendor::DashScope => "https://dashscope.aliyuncs.com/compatible-mode/v1/chat/completions",
            Vendor::Zhipu => "https://open.bigmodel.cn/api/paas/v4/chat/completions",
            Vendor::DeepSeek => "https://api.deepseek.com/chat/completions",
        }
    }
}

/// The credential of each vendor (empty where none is configured).
#[derive(Clone, Debug)]
pub struct Credentials {
    pub dashscope_api_key: String,
    pub zhipu_ai_key: String,
    pub deepseek_api_key: String,
}

impl Credentials {
    /// The credential of a vendor.
    pub open spec fn key_of(&self, v: Vendor) -> Seq<char> {
        match v {
            Vendor::DashScope => self.dashscope_api_key@,
            Vendor::Zhipu => self.zhipu_ai_key@,
            Vendor::DeepSeek => self.deepseek_api_key@,
        }
    }
}

/// Where a request for `model` goes: its vendor, chosen by substring tests on
/// the lowercased name, and that vendor's credential.
/// `UnsupportedModel` where no vendor serves the model; `MissingCredential`
/// where the vendor's credential is empty.
pub fn route(model: &str, credentials: &Credentials) -> (r: Result<(Vendor, String), DispatchError>)
    ensures
        vendor_of(lower_of(model@)).is_none() ==> r == Err::<(Vendor, String), DispatchError>(
            DispatchError::UnsupportedModel,
        ),
        vendor_of(lower_of(model@)).is_some() && credentials.key_of(
            vendor_of(lower_of(model@)).unwrap(),
        ).len() == 0 ==> r == Err::<(Vendor, String), DispatchError>(
            DispatchError::MissingCredential,
        ),
        r.is_ok() ==> vendor_of(lower_of(model@)) == Some(r.unwrap().0) && r.unwrap().1@
            == credentials.key_of(r.unwrap().0) && r.unwrap().1@.len() > 0,
{
    let vendor = match vendor_for(model) {
        Some(v) => v,
        None => {
            return Err(DispatchError::UnsupportedModel);
        },
    };
    let key = match vendor {
        Vendor::DashScope => credentials.dashscope_api_key.clone(),
        Vendor::Zhipu => credentials.zhipu_ai_key.clone(),
        Vendor::DeepSeek => credentials.deepseek_api_key.clone(),
    };
    if key.as_str().is_empty() {
        return Err(DispatchError::MissingCredential);
    }
    Ok((vendor, key))
}

/// The edit a request body needs before it is forwarded.
#[derive(Clone, Copy, Debug, PartialEq, Eq, Structural)]
pub enum StreamOptionsEdit {
    /// Add `stream_options.include_usage = true`.
    Inject,
    /// Remove `stream_options`.
    Remove,
    /// Leave the body as it is.
    Keep,
}

/// A streamed request without `stream_options` gets `include_usage` so that the
/// upstream sends a final usage chunk; a request that is not streamed loses its
/// `stream_options`, which strict vendors refuse.
pub fn stream_options_edit(stream: bool, has_stream_options: bool) -> (r: StreamOptionsEdit)
    ensures
        stream && !has_stream_options ==> r == StreamOptionsEdit::Inject,
        stream && has_stream_options ==> r == StreamOptionsEdit::Keep,
        !stream ==> r == StreamOptionsEdit::Remove,
{
    if stream {
        if has_stream_options {
            StreamOptionsEdit::Keep
        } else {
            StreamOptionsEdit::Inject
        }
    } else {
        StreamOptionsEdit::Remove
    }
}

/// A model is visual where its normalised name contains `vl`; images in the
/// history sent to any other model are reduced to their text.
pub fn is_visual_model(model: &str) -> (r: bool)
    ensures
        r == occurs_in(crate::naming::normalized(model@), "vl"@),
{
    let s = crate::naming::normalize_model_name(model);
    str_contains(s.as_str(), "vl")
}

} // verus!
