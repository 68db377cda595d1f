//! Model-name normalisation: the key under which prices are stored and found.

use vstd::prelude::*;
use crate::text::{chars_of, string_of};

verus! {

/// The Unicode lowercase form of a text.
pub uninterp spec fn lower_of(s: Seq<char>) -> Seq<char>;

/// Relies on `str::to_lowercase`: the lowercase form, which depends on the text alone.
#[verifier::external_body]
pub(crate) fn lowercase(s: &str) -> (r: String)
    ensures
        r@ == lower_of(s@),
{
    s.to_lowercase()
}

/// The characters with the Unicode `White_Space` property, which `str::trim` removes.
pub open spec fn is_white_space(c: char) -> bool {
    let u = c as u32;
    (0x9 <= u && u <= 0xd) || u == 0x20 || u == 0x85 || u == 0xa0 || u == 0x1680 || (0x2000 <= u
        && u <= 0x200a) || u == 0x2028 || u == 0x2029 || u == 0x202f || u == 0x205f || u == 0x3000
}

/// `s` without its leading white space.
pub open spec fn trim_front(s: Seq<char>) -> Seq<char>
    decreases s.len(),
{
    if s.len() > 0 && is_white_space(s[0]) {
        trim_front(s.drop_first())
    } else {
        s
    }
}

/// `s` without its trailing white space.
pub open spec fn trim_back(s: Seq<char>) -> Seq<char>
    decreases s.len(),
{
    if s.len() > 0 && is_white_space(s.last()) {
        trim_back(s.drop_last())
    } else {
        s
    }
}

/// `s` without leading and trailing white space.
pub open spec fn trimmed(s: Seq<char>) -> Seq<char> {
    trim_back(trim_front(s))
}

/// The part of `s` after its last `/` (all of `s` where it has none).
pub open spec fn last_segment(s: Seq<char>) -> Seq<char>
    decreases s.len(),
{
    if s.len() == 0 {
        s
    } else if s.last() == '/' {
        Seq::empty()
    } else {
        last_segment(s.drop_last()).push(s.last())
    }
}

/// `s` with every `@` written as `-`.
pub open spec fn at_to_dash(s: Seq<char>) -> Seq<char> {
    s.map_values(|c: char| if c == '@' { '-' } else { c })
}

/// The normal form of an already lowercased model name.
pub open spec fn normal_of_lower(l: Seq<char>) -> Seq<char> {
    trimmed(at_to_dash(last_segment(l)))
}

/// The normalised model name: lowercased, cut to the part after the last `/`,
/// `@` written as `-`, surrounding white space removed.
pub open spec fn normalized(s: Seq<char>) -> Seq<char> {
    normal_of_lower(lower_of(s))
}

fn is_space(c: char) -> (r: bool)
    ensures
        r == is_white_space(c),
{
    let u = c as u32;
    (0x9 <= u && u <= 0xd) || u == 0x20 || u == 0x85 || u == 0xa0 || u == 0x1680 || (0x2000 <= u
        && u <= 0x200a) || u == 0x2028 || u == 0x2029 || u == 0x202f || u == 0x205f || u == 0x3000
}

proof fn lemma_trim_front_step(s: Seq<char>, i: int)
    requires
        0 <= i < s.len(),
        is_white_space(s[i]),
    ensures
        trim_front(s.subrange(i, s.len() as int)) == trim_front(s.subrange(i + 1, s.len() as int)),
{
    assert(s.subrange(i, s.len() as int).drop_first() =~= s.subrange(i + 1, s.len() as int));
}

proof fn lemma_trim_back_step(s: Seq<char>, j: int)
    requires
        0 < j <= s.len(),
        is_white_space(s[j - 1]),
    ensures
        trim_back(s.subrange(0, j)) == trim_back(s.subrange(0, j - 1)),
{
    assert(s.subrange(0, j).drop_last() =~= s.subrange(0, j - 1));
}

proof fn lemma_last_segment_step(s: Seq<char>, j: int)
    requires
        0 < j <= s.len(),
        s[j - 1] != '/',
    ensures
        last_segment(s.subrange(0, j)) == last_segment(s.subrange(0, j - 1)).push(s[j - 1]),
{
    assert(s.subrange(0, j).drop_last() =~= s.subrange(0, j - 1));
}

/// The part of `v` after its last `/`.
pub fn last_segment_chars(v: &Vec<char>) -> (r: Vec<char>)
    ensures
        r@ == last_segment(v@),
{
    let n = v.len();
    let mut start: usize = n;
    assert(v@.subrange(start as int, n as int) =~= Seq::<char>::empty());
    assert(v@.subrange(0, n as int) =~= v@);
    while start > 0 && v[start - 1] != '/'
        invariant
            start <= n == v@.len(),
            last_segment(v@) == last_segment(v@.subrange(0, start as int)) + v@.subrange(
                start as int,
                n as int,
            ),
        decreases start,
    {
        proof {
            lemma_last_segment_step(v@, start as int);
            assert(v@.subrange(start - 1, n as int) =~= seq![v@[start - 1]] + v@.subrange(
                start as int,
                n as int,
            ));
            assert(last_segment(v@.subrange(0, start - 1)).push(v@[start - 1]) + v@.subrange(
                start as int,
                n as int,
            ) =~= last_segment(v@.subrange(0, start - 1)) + v@.subrange(start - 1, n as int));
        }
        start = start - 1;
    }
    proof {
        if start == 0 {
            assert(v@.subrange(0, 0) =~= Seq::<char>::empty());
        } else {
            assert(v@.subrange(0, start as int).drop_last() =~= v@.subrange(0, start - 1));
        }
        assert(last_segment(v@.subrange(0, start as int)) =~= Seq::<char>::empty());
    }
    let mut r: Vec<char> = Vec::new();
    let mut i: usize = start;
    while i < n
        invariant
            start <= i <= n == v@.len(),
            r@ == v@.subrange(start as int, i as int),
        decreases n - i,
    {
        r.push(v[i]);
        i = i + 1;
        assert(r@ =~= v@.subrange(start as int, i as int));
    }
    assert(v@.subrange(start as int, n as int) =~= r@);
    assert(last_segment(v@) =~= r@);
    r
}

/// `v` with every `@` written as `-`.
fn at_to_dash_of(v: &Vec<char>) -> (r: Vec<char>)
    ensures
        r@ == at_to_dash(v@),
{
    let mut r: Vec<char> = Vec::new();
    let mut i: usize = 0;
    while i < v.len()
        invariant
            i <= v@.len(),
            r@ == at_to_dash(v@.subrange(0, i as int)),
        decreases v@.len() - i,
    {
        let c = v[i];
        r.push(if c == '@' { '-' } else { c });
        i = i + 1;
        assert(r@ =~= at_to_dash(v@.subrange(0, i as int)));
    }
    assert(v@.subrange(0, v@.len() as int) =~= v@);
    r
}

/// `v` without leading and trailing white space.
fn trimmed_of(v: &Vec<char>) -> (r: Vec<char>)
    ensures
        r@ == trimmed(v@),
{
    let n = v.len();
    let mut i: usize = 0;
    assert(v@.subrange(0, n as int) =~= v@);
    while i < n && is_space(v[i])
        invariant
            i <= n == v@.len(),
            trim_front(v@) == trim_front(v@.subrange(i as int, n as int)),
        decreases n - i,
    {
        proof {
            lemma_trim_front_step(v@, i as int);
        }
        i = i + 1;
    }
    let ghost t = v@.subrange(i as int, n as int);
    assert(trim_front(v@) == t) by {
        assert(v@.subrange(0, n as int) =~= v@);
    }
    let mut j: usize = n;
    assert(t.subrange(0, j - i) =~= t);
    while j > i && is_space(v[j - 1])
        invariant
            i <= j <= n == v@.len(),
            t == v@.subrange(i as int, n as int),
            trim_back(t) == trim_back(t.subrange(0, j - i)),
        decreases j,
    {
        proof {
            lemma_trim_back_step(t, j - i);
        }
        j = j - 1;
    }
    proof {
        if j > i {
            assert(!is_white_space(t.subrange(0, j - i).last()));
        }
        assert(t.subrange(0, t.len() as int) =~= t);
    }
    let mut r: Vec<char> = Vec::new();
    let mut k: usize = i;
    while k < j
        invariant
            i <= k <= j <= n == v@.len(),
            r@ == v@.subrange(i as int, k as int),
        decreases j - k,
    {
        r.push(v[k]);
        k = k + 1;
        assert(r@ =~= v@.subrange(i as int, k as int));
    }
    assert(r@ =~= t.subrange(0, j - i));
    r
}

proof fn lemma_last_segment_has_no_slash(s: Seq<char>)
    ensures
        forall|i: int| 0 <= i < last_segment(s).len() ==> last_segment(s)[i] != '/',
    decreases s.len(),
{
    if s.len() > 0 && s.last() != '/' {
        lemma_last_segment_has_no_slash(s.drop_last());
        let p = last_segment(s.drop_last());
        assert forall|i: int| 0 <= i < last_segment(s).len() implies last_segment(s)[i] != '/' by {
            if i < p.len() {
                assert(last_segment(s)[i] == p[i]);
            }
        }
    }
}

proof fn lemma_last_segment_of_plain(s: Seq<char>)
    requires
        forall|i: int| 0 <= i < s.len() ==> s[i] != '/',
    ensures
        last_segment(s) == s,
    decreases s.len(),
{
    if s.len() > 0 {
        lemma_last_segment_of_plain(s.drop_last());
        assert(s.drop_last().push(s.last()) =~= s);
    }
}

proof fn lemma_trim_front_is_suffix(s: Seq<char>) -> (k: int)
    ensures
        0 <= k <= s.len(),
        trim_front(s) == s.subrange(k, s.len() as int),
        trim_front(s).len() > 0 ==> !is_white_space(trim_front(s)[0]),
    decreases s.len(),
{
    if s.len() > 0 && is_white_space(s[0]) {
        let k0 = lemma_trim_front_is_suffix(s.drop_first());
        assert(s.drop_first().subrange(k0, s.len() - 1) =~= s.subrange(k0 + 1, s.len() as int));
        k0 + 1
    } else {
        assert(s.subrange(0, s.len() as int) =~= s);
        0
    }
}

proof fn lemma_trim_back_is_prefix(s: Seq<char>) -> (k: int)
    ensures
        0 <= k <= s.len(),
        trim_back(s) == s.subrange(0, k),
        trim_back(s).len() > 0 ==> !is_white_space(trim_back(s).last()),
    decreases s.len(),
{
    if s.len() > 0 && is_white_space(s.last()) {
        let k0 = lemma_trim_back_is_prefix(s.drop_last());
        assert(s.drop_last().subrange(0, k0) =~= s.subrange(0, k0));
        k0
    } else {
        assert(s.subrange(0, s.len() as int) =~= s);
        s.len() as int
    }
}

/// Trimming an already trimmed text changes nothing.
proof fn lemma_trimmed_idempotent(s: Seq<char>)
    ensures
        trimmed(trimmed(s)) == trimmed(s),
        exists|a: int, b: int| 0 <= a <= b <= s.len() && trimmed(s) == s.subrange(a, b),
{
    let f = trim_front(s);
    let a = lemma_trim_front_is_suffix(s);
    let b = lemma_trim_back_is_prefix(f);
    let t = trimmed(s);
    assert(t == s.subrange(a, a + b)) by {
        assert(f.subrange(0, b) =~= s.subrange(a, a + b));
    }
    if t.len() > 0 {
        assert(t[0] == f[0]);
        assert(!is_white_space(t[0]));
    }
    assert(trim_front(t) == t);
    assert(trim_back(t) == t);
}

/// Normalising an already lowercased name twice gives the key of normalising it once.
pub proof fn lemma_normal_of_lower_idempotent(l: Seq<char>)
    ensures
        normal_of_lower(normal_of_lower(l)) == normal_of_lower(l),
        forall|i: int|
            0 <= i < normal_of_lower(l).len() ==> normal_of_lower(l)[i] != '/'
                && normal_of_lower(l)[i] != '@',
{
    let seg = last_segment(l);
    let d = at_to_dash(seg);
    let r = trimmed(d);
    lemma_last_segment_has_no_slash(l);
    assert(forall|i: int| 0 <= i < d.len() ==> d[i] != '/' && d[i] != '@');
    lemma_trimmed_idempotent(d);
    let (a, b) = choose|a: int, b: int| 0 <= a <= b <= d.len() && r == d.subrange(a, b);
    assert(forall|i: int| 0 <= i < r.len() ==> r[i] == d[a + i]);
    lemma_last_segment_of_plain(r);
    assert(at_to_dash(r) =~= r);
}

/// Normalising a model name twice gives the same key as normalising it once.
/// Lowercasing is known here only as a function of its text, so the law is stated
/// for the names whose key lowercasing leaves unchanged, which every key made of
/// characters whose lowercase form is themselves satisfies.
pub proof fn lemma_normalize_idempotent(s: Seq<char>)
    requires
        lower_of(normalized(s)) == normalized(s),
    ensures
        normalized(normalized(s)) == normalized(s),
{
    lemma_normal_of_lower_idempotent(lower_of(s));
}

/// The text without leading and trailing white space.
pub fn trim_text(s: &str) -> (r: String)
    ensures
        r@ == trimmed(s@),
{
    string_of(&trimmed_of(&chars_of(s)))
}

/// The normalised form of a model name, the key of the price store and cache.
pub fn normalize_model_name(model: &str) -> (r: String)
    ensures
        r@ == normalized(model@),
{
    let lower = lowercase(model);
    let segment = last_segment_chars(&chars_of(lower.as_str()));
    let dashed = at_to_dash_of(&segment);
    string_of(&trimmed_of(&dashed))
}

} // verus!
