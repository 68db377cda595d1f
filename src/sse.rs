//! The data payloads of a Server-Sent-Events chunk.

use vstd::prelude::*;
use crate::text::{chars_of, starts_with, starts_with_chars, string_of};

verus! {

/// The number of characters before the first line feed of `s` (all of them where
/// there is none).
pub open spec fn newline_at(s: Seq<char>) -> int
    decreases s.len(),
{
    if s.len() == 0 {
        0
    } else if s[0] == '\n' {
        0
    } else {
        1 + newline_at(s.drop_first())
    }
}

/// A line without the carriage return that may end it.
pub open spec fn strip_cr(l: Seq<char>) -> Seq<char> {
    if l.len() > 0 && l.last() == '\r' {
        l.drop_last()
    } else {
        l
    }
}

/// The payload of one line: what follows `data: `, unless that is the `[DONE]`
/// marker.
pub open spec fn payload_of(line: Seq<char>) -> Option<Seq<char>> {
    if starts_with(line, "data: "@) {
        let p = line.subrange("data: "@.len() as int, line.len() as int);
        if p == "[DONE]"@ {
            None
        } else {
            Some(p)
        }
    } else {
        None
    }
}

/// The payloads of the `data: ` lines of a chunk, in order. Lines end at a line
/// feed, and a carriage return before it is not part of the line.
pub open spec fn data_payloads(s: Seq<char>) -> Seq<Seq<char>>
    decreases s.len(),
{
    if s.len() == 0 {
        Seq::empty()
    } else {
        let i = newline_at(s);
        let line = strip_cr(s.subrange(0, i));
        let rest = if 0 <= i && i < s.len() {
            data_payloads(s.subrange(i + 1, s.len() as int))
        } else {
            Seq::empty()
        };
        match payload_of(line) {
            Some(p) => seq![p] + rest,
            None => rest,
        }
    }
}

proof fn lemma_newline_at_bounds(s: Seq<char>)
    ensures
        0 <= newline_at(s) <= s.len(),
        newline_at(s) < s.len() ==> s[newline_at(s)] == '\n',
        forall|j: int| 0 <= j < newline_at(s) ==> s[j] != '\n',
    decreases s.len(),
{
    if s.len() > 0 && s[0] != '\n' {
        lemma_newline_at_bounds(s.drop_first());
        assert forall|j: int| 0 <= j < newline_at(s) implies s[j] != '\n' by {
            if j > 0 {
                assert(s[j] == s.drop_first()[j - 1]);
            }
        }
    }
}

proof fn lemma_newline_at_is(s: Seq<char>, k: int)
    requires
        0 <= k <= s.len(),
        k < s.len() ==> s[k] == '\n',
        forall|j: int| 0 <= j < k ==> s[j] != '\n',
    ensures
        newline_at(s) == k,
    decreases k,
{
    if k > 0 {
        lemma_newline_at_is(s.drop_first(), k - 1);
    }
}

/// The texts of a sequence of strings.
pub open spec fn texts_of(v: Seq<String>) -> Seq<Seq<char>> {
    v.map_values(|x: String| x@)
}

/// The payload of the line `v[start..end]`.
fn line_payload(v: &Vec<char>, start: usize, end: usize) -> (r: Option<Vec<char>>)
    requires
        start <= end <= v@.len(),
    ensures
        r.is_some() == payload_of(strip_cr(v@.subrange(start as int, end as int))).is_some(),
        r.is_some() ==> r.unwrap()@ == payload_of(
            strip_cr(v@.subrange(start as int, end as int)),
        ).unwrap(),
{
    let ghost raw = v@.subrange(start as int, end as int);
    let mut stop: usize = end;
    if end > start && v[end - 1] == '\r' {
        stop = end - 1;
    }
    let mut line: Vec<char> = Vec::new();
    let mut i: usize = start;
    while i < stop
        invariant
            start <= i <= stop <= end <= v@.len(),
            line@ == v@.subrange(start as int, i as int),
        decreases stop - i,
    {
        line.push(v[i]);
        i = i + 1;
        assert(line@ =~= v@.subrange(start as int, i as int));
    }
    assert(line@ =~= strip_cr(raw));
    let prefix = chars_of("data: ");
    if !starts_with_chars(&line, &prefix) {
        return None;
    }
    let mut p: Vec<char> = Vec::new();
    let mut k: usize = prefix.len();
    while k < line.len()
        invariant
            prefix@.len() <= k <= line@.len(),
            p@ == line@.subrange(prefix@.len() as int, k as int),
        decreases line@.len() - k,
    {
        p.push(line[k]);
        k = k + 1;
        assert(p@ =~= line@.subrange(prefix@.len() as int, k as int));
    }
    let done = chars_of("[DONE]");
    if crate::text::ends_with_chars(&p, &done) && p.len() == done.len() {
        assert(p@ =~= done@) by {
            assert(p@.subrange(0, p@.len() as int) =~= p@);
        }
        return None;
    }
    proof {
        if p@ == done@ {
            assert(p@.subrange(0, p@.len() as int) =~= p@);
        }
    }
    Some(p)
}

/// The payloads of the `data: ` lines of `text`, in order, without the `[DONE]`
/// marker.
pub fn sse_payloads(text: &str) -> (r: Vec<String>)
    ensures
        texts_of(r@) == data_payloads(text@),
{
    let v = chars_of(text);
    let n = v.len();
    let mut out: Vec<String> = Vec::new();
    let mut start: usize = 0;
    assert(v@.subrange(0, n as int) =~= v@);
    while start < n
        invariant
            start <= n == v@.len(),
            v@ == text@,
            data_payloads(v@) == texts_of(out@) + data_payloads(v@.subrange(start as int, n as int)),
        decreases n - start,
    {
        let ghost s = v@.subrange(start as int, n as int);
        let mut end: usize = start;
        while end < n && v[end] != '\n'
            invariant
                start <= end <= n == v@.len(),
                forall|j: int| start <= j < end ==> v@[j] != '\n',
            decreases n - end,
        {
            end = end + 1;
        }
        proof {
            lemma_newline_at_is(s, end - start);
            assert(s.subrange(0, end - start) =~= v@.subrange(start as int, end as int));
            if end < n {
                assert(s.subrange(end - start + 1, s.len() as int) =~= v@.subrange(
                    end + 1,
                    n as int,
                ));
            }
        }
        let ghost rest = if end < n {
            data_payloads(v@.subrange(end + 1, n as int))
        } else {
            Seq::<Seq<char>>::empty()
        };
        let ghost before = texts_of(out@);
        match line_payload(&v, start, end) {
            Some(p) => {
                let t = string_of(&p);
                out.push(t);
                proof {
                    lemma_newline_at_bounds(s);
                    assert(data_payloads(s) == seq![p@] + rest);
                    assert(texts_of(out@) =~= before.push(p@));
                    assert(before + (seq![p@] + rest) =~= before.push(p@) + rest);
                }
            },
            None => {
                proof {
                    lemma_newline_at_bounds(s);
                    assert(data_payloads(s) == rest);
                }
            },
        }
        if end < n {
            start = end + 1;
        } else {
            start = n;
            assert(v@.subrange(n as int, n as int) =~= Seq::<char>::empty());
        }
        proof {
            assert(data_payloads(v@.subrange(start as int, n as int)) == rest);
        }
    }
    assert(data_payloads(v@.subrange(start as int, n as int)) =~= Seq::<Seq<char>>::empty());
    assert(texts_of(out@) + Seq::<Seq<char>>::empty() =~= texts_of(out@));
    out
}

} // verus!
