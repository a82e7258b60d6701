//! Small verified string utilities shared by the parsing modules:
//! character-wise equality, suffix and substring tests, and joining
//! tokens with single spaces.

use vstd::prelude::*;

verus! {

/// True when `s` ends with the suffix `suf`.
pub open spec fn spec_ends_with(s: Seq<char>, suf: Seq<char>) -> bool {
    suf.len() <= s.len() && s.subrange(s.len() - suf.len(), s.len() as int) == suf
}

/// True when `needle` occurs as a contiguous run inside `hay`.
pub open spec fn spec_contains(hay: Seq<char>, needle: Seq<char>) -> bool {
    exists|i: int|
        0 <= i <= hay.len() - needle.len() && #[trigger] hay.subrange(i, i + needle.len())
            == needle
}

/// `t` without a single leading `@` sigil, if it carries one.
pub open spec fn spec_strip_at(t: Seq<char>) -> Seq<char> {
    if t.len() > 0 && t[0] == '@' {
        t.subrange(1, t.len() as int)
    } else {
        t
    }
}

/// The tokens joined with single spaces.
pub open spec fn spec_join_spaces(toks: Seq<Seq<char>>) -> Seq<char>
    decreases toks.len(),
{
    if toks.len() == 0 {
        Seq::empty()
    } else if toks.len() == 1 {
        toks[0]
    } else {
        spec_join_spaces(toks.drop_last()) + seq![' '] + toks.last()
    }
}

/// True for the characters trimmed off the ends of a file-list line.
pub open spec fn spec_is_blank(c: char) -> bool {
    c == ' ' || c == '\t' || c == '\r'
}

/// `s` with its leading blanks removed.
pub open spec fn spec_trim_front(s: Seq<char>) -> Seq<char>
    decreases s.len(),
{
    if s.len() > 0 && spec_is_blank(s[0]) {
        spec_trim_front(s.drop_first())
    } else {
        s
    }
}

/// `s` with its trailing blanks removed.
pub open spec fn spec_trim_back(s: Seq<char>) -> Seq<char>
    decreases s.len(),
{
    if s.len() > 0 && spec_is_blank(s.last()) {
        spec_trim_back(s.drop_last())
    } else {
        s
    }
}

/// `s` with blanks removed from both ends.
pub open spec fn spec_trim(s: Seq<char>) -> Seq<char> {
    spec_trim_back(spec_trim_front(s))
}

/// Removes blanks from both ends of `s`.
pub fn trim(s: &str) -> (r: String)
    ensures
        r@ == spec_trim(s@),
{
    let n = s.unicode_len();
    let mut start: usize = 0;
    proof {
        assert(s@.subrange(0, n as int) =~= s@);
    }
    while start < n
        invariant
            n == s@.len(),
            start <= n,
            spec_trim_front(s@.subrange(start as int, n as int)) == spec_trim_front(s@),
        ensures
            start <= n,
            spec_trim_front(s@) == s@.subrange(start as int, n as int),
        decreases n - start,
    {
        let ghost pre = s@.subrange(start as int, n as int);
        let c = s.get_char(start);
        if !(c == ' ' || c == '\t' || c == '\r') {
            proof {
                assert(pre[0] == s@[start as int]);
                assert(!spec_is_blank(pre[0]));
            }
            break ;
        }
        proof {
            assert(pre.drop_first() =~= s@.subrange(start as int + 1, n as int));
        }
        start = start + 1;
    }
    proof {
        assert(s@.subrange(n as int, n as int) =~= Seq::<char>::empty());
    }
    let ghost front = spec_trim_front(s@);
    let mut end: usize = n;
    while end > start
        invariant
            n == s@.len(),
            start <= end <= n,
            front == spec_trim_front(s@),
            spec_trim_back(s@.subrange(start as int, end as int)) == spec_trim_back(front),
        ensures
            start <= end <= n,
            spec_trim(s@) == s@.subrange(start as int, end as int),
        decreases end,
    {
        let ghost pre = s@.subrange(start as int, end as int);
        let c = s.get_char(end - 1);
        if !(c == ' ' || c == '\t' || c == '\r') {
            proof {
                assert(pre.last() == s@[end as int - 1]);
                assert(!spec_is_blank(pre.last()));
            }
            break ;
        }
        proof {
            assert(pre.drop_last() =~= s@.subrange(start as int, end as int - 1));
        }
        end = end - 1;
    }
    String::from_str(s.substring_char(start, end))
}

/// Membership in a sequence extended by one element.
pub proof fn lemma_contains_push<T>(s: Seq<T>, x: T, t: T)
    ensures
        s.push(x).contains(t) <==> (s.contains(t) || t == x),
{
    if s.contains(t) {
        let k = choose|k: int| 0 <= k < s.len() && s[k] == t;
        assert(s.push(x)[k] == t);
    }
    assert(s.push(x)[s.len() as int] == x);
    if s.push(x).contains(t) {
        let k = choose|k: int| 0 <= k < s.push(x).len() && s.push(x)[k] == t;
        if k < s.len() {
            assert(s[k] == t);
        }
    }
}

/// Character-wise equality of two string slices.
pub fn str_eq(a: &str, b: &str) -> (r: bool)
    ensures
        r == (a@ == b@),
{
    let na = a.unicode_len();
    let nb = b.unicode_len();
    if na != nb {
        return false;
    }
    let mut i: usize = 0;
    while i < na
        invariant
            na == a@.len(),
            na == b@.len(),
            i <= na,
            forall|k: int| 0 <= k < i ==> a@[k] == b@[k],
        decreases na - i,
    {
        let ca = a.get_char(i);
        let cb = b.get_char(i);
        if ca != cb {
            return false;
        }
        i = i + 1;
    }
    proof {
        assert(a@ =~= b@);
    }
    true
}

/// True when `s` ends with the characters of `suf`.
pub fn str_ends_with(s: &str, suf: &str) -> (r: bool)
    ensures
        r == spec_ends_with(s@, suf@),
{
    let n = s.unicode_len();
    let m = suf.unicode_len();
    if m > n {
        return false;
    }
    let tail = s.substring_char(n - m, n);
    str_eq(tail, suf)
}

/// True when the characters of `needle` occur contiguously inside `hay`,
/// starting at position `i`.
fn match_at(hay: &str, needle: &str, i: usize) -> (r: bool)
    requires
        i + needle@.len() <= hay@.len(),
        hay@.len() <= usize::MAX,
    ensures
        r == (hay@.subrange(i as int, i + needle@.len()) == needle@),
{
    let nn = needle.unicode_len();
    let mut j: usize = 0;
    while j < nn
        invariant
            nn == needle@.len(),
            i + nn <= hay@.len(),
            hay@.len() <= usize::MAX,
            j <= nn,
            forall|l: int| 0 <= l < j ==> hay@[i + l] == needle@[l],
        decreases nn - j,
    {
        if hay.get_char(i + j) != needle.get_char(j) {
            proof {
                assert(hay@.subrange(i as int, i + nn as int)[j as int] == hay@[i + j]);
            }
            return false;
        }
        j = j + 1;
    }
    proof {
        assert(hay@.subrange(i as int, i + nn as int) =~= needle@);
    }
    true
}

/// True when the characters of `needle` occur contiguously inside `hay`.
pub fn str_contains(hay: &str, needle: &str) -> (r: bool)
    ensures
        r == spec_contains(hay@, needle@),
{
    let nh = hay.unicode_len();
    let nn = needle.unicode_len();
    if nn == 0 {
        proof {
            assert(hay@.subrange(0, 0 + needle@.len() as int) =~= needle@);
            assert(spec_contains(hay@, needle@));
        }
        return true;
    }
    if nn > nh {
        return false;
    }
    let mut i: usize = 0;
    while i <= nh - nn
        invariant
            nh == hay@.len(),
            nn == needle@.len(),
            1 <= nn <= nh,
            i <= nh - nn + 1,
            forall|k: int| 0 <= k < i ==> #[trigger] hay@.subrange(k, k + nn as int) != needle@,
        decreases nh - nn - i + 1,
    {
        if match_at(hay, needle, i) {
            return true;
        }
        i = i + 1;
    }
    false
}

/// `t` with one leading `@` removed, if present.
pub fn strip_at(t: &str) -> (r: String)
    ensures
        r@ == spec_strip_at(t@),
{
    let n = t.unicode_len();
    if n > 0 && t.get_char(0) == '@' {
        String::from_str(t.substring_char(1, n))
    } else {
        String::from_str(t)
    }
}

/// Joins the tokens with single spaces.
pub fn join_spaces(toks: &Vec<String>) -> (r: String)
    ensures
        r@ == spec_join_spaces(toks.deep_view()),
{
    let mut r = String::new();
    let mut i: usize = 0;
    while i < toks.len()
        invariant
            i <= toks.len(),
            r@ == spec_join_spaces(toks.deep_view().subrange(0, i as int)),
        decreases toks.len() - i,
    {
        if i > 0 {
            r.append(" ");
        }
        r.append(toks[i].as_str());
        proof {
            reveal_strlit(" ");
            let dv = toks.deep_view();
            let pre = dv.subrange(0, i as int);
            let cur = dv.subrange(0, i + 1 as int);
            assert(cur.drop_last() =~= pre);
            assert(cur.last() == dv[i as int]);
            if i == 0 {
                assert(r@ =~= spec_join_spaces(cur));
            } else {
                assert(" "@ =~= seq![' ']);
                assert(r@ =~= spec_join_spaces(pre) + seq![' '] + dv[i as int]);
            }
        }
        i = i + 1;
    }
    proof {
        assert(toks.deep_view().subrange(0, toks.len() as int) =~= toks.deep_view());
    }
    r
}

} // verus!
