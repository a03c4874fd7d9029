//! Splitting a path at its first or last separator.

use vstd::prelude::*;
use vstd::std_specs::iter::IteratorSpec;

verus! {

/// Position of the first `pat` in `s`, or `s.len()` where `s` holds none.
pub open spec fn first_position(s: Seq<char>, pat: char) -> int
    decreases s.len(),
{
    if s.len() == 0 || s[0] == pat {
        0
    } else {
        1 + first_position(s.drop_first(), pat)
    }
}

/// Position of the last `pat` in `s`, or `-1` where `s` holds none.
pub open spec fn last_position(s: Seq<char>, pat: char) -> int
    decreases s.len(),
{
    if s.len() == 0 {
        -1
    } else if s.last() == pat {
        s.len() - 1
    } else {
        last_position(s.drop_last(), pat)
    }
}

/// `first_position` is the least index that holds `pat`.
pub proof fn lemma_first_position(s: Seq<char>, pat: char)
    ensures
        0 <= first_position(s, pat) <= s.len(),
        forall|j: int| 0 <= j < first_position(s, pat) ==> s[j] != pat,
        first_position(s, pat) < s.len() ==> s[first_position(s, pat)] == pat,
        s.contains(pat) <==> first_position(s, pat) < s.len(),
    decreases s.len(),
{
    if s.len() == 0 || s[0] == pat {
    } else {
        let t = s.drop_first();
        lemma_first_position(t, pat);
        assert forall|j: int| 0 <= j < first_position(s, pat) implies s[j] != pat by {
            if j > 0 {
                assert(s[j] == t[j - 1]);
            }
        }
        if first_position(s, pat) < s.len() {
            assert(s[first_position(s, pat)] == t[first_position(t, pat)]);
        }
    }
}

/// `last_position` is the greatest index that holds `pat`.
pub proof fn lemma_last_position(s: Seq<char>, pat: char)
    ensures
        -1 <= last_position(s, pat) < s.len(),
        forall|j: int| last_position(s, pat) < j < s.len() ==> s[j] != pat,
        0 <= last_position(s, pat) ==> s[last_position(s, pat)] == pat,
        s.contains(pat) <==> 0 <= last_position(s, pat),
    decreases s.len(),
{
    if s.len() == 0 {
    } else if s.last() == pat {
    } else {
        let t = s.drop_last();
        lemma_last_position(t, pat);
        assert forall|j: int| last_position(s, pat) < j < s.len() implies s[j] != pat by {
            if j < s.len() - 1 {
                assert(s[j] == t[j]);
            }
        }
        if 0 <= last_position(s, pat) {
            assert(s[last_position(s, pat)] == t[last_position(t, pat)]);
        }
        if s.contains(pat) {
            let i = choose|i: int| 0 <= i < s.len() && s[i] == pat;
            assert(t[i] == pat);
        }
    }
}

/// An index that holds `pat` and has none before it is the first position.
pub proof fn lemma_first_position_is(s: Seq<char>, pat: char, i: int)
    requires
        0 <= i <= s.len(),
        forall|j: int| 0 <= j < i ==> s[j] != pat,
        i < s.len() ==> s[i] == pat,
    ensures
        first_position(s, pat) == i,
{
    lemma_first_position(s, pat);
}

/// An index that holds `pat` and has none after it is the last position.
pub proof fn lemma_last_position_is(s: Seq<char>, pat: char, i: int)
    requires
        -1 <= i < s.len(),
        forall|j: int| i < j < s.len() ==> s[j] != pat,
        0 <= i ==> s[i] == pat,
    ensures
        last_position(s, pat) == i,
{
    lemma_last_position(s, pat);
}

/// The part of `s` before its first `pat`; all of `s` where it holds none.
pub open spec fn before_first(s: Seq<char>, pat: char) -> Seq<char> {
    s.subrange(0, first_position(s, pat))
}

/// The part of `s` after its first `pat`. Meant for an `s` that holds one.
pub open spec fn after_first(s: Seq<char>, pat: char) -> Seq<char> {
    s.subrange(first_position(s, pat) + 1, s.len() as int)
}

/// The part of `s` before its last `pat`. Meant for an `s` that holds one.
pub open spec fn before_last(s: Seq<char>, pat: char) -> Seq<char> {
    s.subrange(0, last_position(s, pat))
}

/// The part of `s` after its last `pat`; all of `s` where it holds none.
pub open spec fn after_last(s: Seq<char>, pat: char) -> Seq<char> {
    s.subrange(last_position(s, pat) + 1, s.len() as int)
}

/// The part before the first `pat` holds no `pat`; with that `pat` and the
/// part after it, it makes up `s`.
pub proof fn lemma_first_split(s: Seq<char>, pat: char)
    ensures
        0 <= first_position(s, pat) <= s.len(),
        s.contains(pat) <==> first_position(s, pat) < s.len(),
        !before_first(s, pat).contains(pat),
        s.contains(pat) ==> s == before_first(s, pat) + seq![pat] + after_first(s, pat),
        !s.contains(pat) ==> s == before_first(s, pat),
{
    lemma_first_position(s, pat);
    let head = before_first(s, pat);
    if head.contains(pat) {
        let j = choose|j: int| 0 <= j < head.len() && head[j] == pat;
        assert(s[j] == pat);
    }
    if s.contains(pat) {
        assert(s =~= head + seq![pat] + after_first(s, pat));
    } else {
        assert(s =~= head);
    }
}

/// The part after the last `pat` holds no `pat`; with that `pat` and the
/// part before it, it makes up `s`.
pub proof fn lemma_last_split(s: Seq<char>, pat: char)
    ensures
        -1 <= last_position(s, pat) < s.len(),
        s.contains(pat) <==> 0 <= last_position(s, pat),
        !after_last(s, pat).contains(pat),
        s.contains(pat) ==> s == before_last(s, pat) + seq![pat] + after_last(s, pat),
        !s.contains(pat) ==> s == after_last(s, pat),
{
    lemma_last_position(s, pat);
    let tail = after_last(s, pat);
    if tail.contains(pat) {
        let j = choose|j: int| 0 <= j < tail.len() && tail[j] == pat;
        assert(s[last_position(s, pat) + 1 + j] == pat);
    }
    if s.contains(pat) {
        assert(s =~= before_last(s, pat) + seq![pat] + tail);
    } else {
        assert(s =~= tail);
    }
}

/// Number of characters of `s` and the positions of its first and last `pat`.
///
/// The positions are those of `first_position` and `last_position`: where `s`
/// holds no `pat`, the first is the length and the last is `None`.
fn scan(s: &str, pat: char) -> (r: (usize, usize, Option<usize>))
    ensures
        r.0 == s@.len(),
        r.1 == first_position(s@, pat),
        match r.2 {
            Some(i) => i == last_position(s@, pat),
            None => last_position(s@, pat) == -1,
        },
{
    let len = s.unicode_len();
    let mut it = s.chars();
    let mut n: usize = 0;
    let mut first: usize = len;
    let mut last: Option<usize> = None;
    loop
        invariant
            it.obeys_prophetic_iter_laws(),
            it.decrease() is Some,
            len == s@.len(),
            n <= len,
            it.remaining() == s@.subrange(n as int, len as int),
            first <= len,
            first < len ==> first < n && s@[first as int] == pat,
            forall|j: int| 0 <= j < n && j < first ==> s@[j] != pat,
            match last {
                Some(i) => i < n && s@[i as int] == pat && forall|j: int|
                    i < j < n ==> s@[j] != pat,
                None => forall|j: int| 0 <= j < n ==> s@[j] != pat,
            },
        ensures
            n == len,
        decreases it.decrease()->0,
    {
        match it.next() {
            Some(c) => {
                if c == pat {
                    if first == len {
                        first = n;
                    }
                    last = Some(n);
                }
                n += 1;
            },
            None => {
                break;
            },
        }
    }
    proof {
        lemma_first_position_is(s@, pat, first as int);
        lemma_last_position_is(s@, pat, match last { Some(i) => i as int, None => -1 });
    }
    (len, first, last)
}

/// Splits `in_string` at its first `pat`.
///
/// The first part is what stands before that `pat`, the second what stands
/// after it. Where `in_string` holds no `pat`, the first part is all of it and
/// there is no second.
pub fn split_once(in_string: &str, pat: char) -> (r: (String, Option<String>))
    ensures
        r.0@ == before_first(in_string@, pat),
        !r.0@.contains(pat),
        match r.1 {
            Some(rest) => {
                &&& in_string@.contains(pat)
                &&& rest@ == after_first(in_string@, pat)
                &&& in_string@ == r.0@ + seq![pat] + rest@
            },
            None => !in_string@.contains(pat) && r.0@ == in_string@,
        },
{
    let (len, first, _) = scan(in_string, pat);
    proof {
        lemma_first_split(in_string@, pat);
    }
    if first == len {
        (in_string.to_owned(), None)
    } else {
        let head = in_string.substring_char(0, first);
        let rest = in_string.substring_char(first + 1, len);
        (head.to_owned(), Some(rest.to_owned()))
    }
}

/// Splits `in_string` at its last `pat`.
///
/// The first part is what stands before that `pat`, the second what stands
/// after it. Where `in_string` holds no `pat`, there is no first part and the
/// second is all of it.
pub fn rsplit_once(in_string: &str, pat: char) -> (r: (Option<String>, String))
    ensures
        r.1@ == after_last(in_string@, pat),
        !r.1@.contains(pat),
        match r.0 {
            Some(front) => {
                &&& in_string@.contains(pat)
                &&& front@ == before_last(in_string@, pat)
                &&& in_string@ == front@ + seq![pat] + r.1@
            },
            None => !in_string@.contains(pat) && r.1@ == in_string@,
        },
{
    let (len, _, last) = scan(in_string, pat);
    proof {
        lemma_last_split(in_string@, pat);
    }
    match last {
        None => (None, in_string.to_owned()),
        Some(i) => {
            let front = in_string.substring_char(0, i);
            let back = in_string.substring_char(i + 1, len);
            (Some(front.to_owned()), back.to_owned())
        },
    }
}

} // verus!
