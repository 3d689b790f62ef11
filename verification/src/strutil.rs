//! Character-level string helpers: conversion between `&str` and `Vec<char>`,
//! whitespace trimming and splitting, substring search, and decimal rendering
//! of integers. All logic here is verified against spec functions over
//! `Seq<char>`; the one trusted item is the conversion from characters back
//! to a `String`.

use vstd::prelude::*;

verus! {

/// The characters that `str::trim` and `str::split_whitespace` treat as
/// whitespace: the Unicode `White_Space` set.
pub open spec fn is_space(c: char) -> bool {
    c == ' ' || c == '\t' || c == '\n' || c == '\r' || c == '\u{000B}' || c == '\u{000C}'
        || c == '\u{0085}' || c == '\u{00A0}' || c == '\u{1680}' || c == '\u{2000}'
        || c == '\u{2001}' || c == '\u{2002}' || c == '\u{2003}' || c == '\u{2004}'
        || c == '\u{2005}' || c == '\u{2006}' || c == '\u{2007}' || c == '\u{2008}'
        || c == '\u{2009}' || c == '\u{200A}' || c == '\u{2028}' || c == '\u{2029}'
        || c == '\u{202F}' || c == '\u{205F}' || c == '\u{3000}'
}

pub fn is_space_char(c: char) -> (r: bool)
    ensures
        r == is_space(c),
{
    c == ' ' || c == '\t' || c == '\n' || c == '\r' || c == '\u{000B}' || c == '\u{000C}'
        || c == '\u{0085}' || c == '\u{00A0}' || c == '\u{1680}' || c == '\u{2000}'
        || c == '\u{2001}' || c == '\u{2002}' || c == '\u{2003}' || c == '\u{2004}'
        || c == '\u{2005}' || c == '\u{2006}' || c == '\u{2007}' || c == '\u{2008}'
        || c == '\u{2009}' || c == '\u{200A}' || c == '\u{2028}' || c == '\u{2029}'
        || c == '\u{202F}' || c == '\u{205F}' || c == '\u{3000}'
}

/// Length of the longest whitespace prefix of `s`.
pub open spec fn space_prefix_len(s: Seq<char>) -> int
    decreases s.len(),
{
    if s.len() == 0 || !is_space(s[0]) {
        0
    } else {
        1 + space_prefix_len(s.drop_first())
    }
}

pub proof fn lemma_space_prefix_len(s: Seq<char>)
    ensures
        0 <= space_prefix_len(s) <= s.len(),
        forall|j: int| 0 <= j < space_prefix_len(s) ==> is_space(s[j]),
        space_prefix_len(s) < s.len() ==> !is_space(s[space_prefix_len(s)]),
    decreases s.len(),
{
    if s.len() == 0 || !is_space(s[0]) {
    } else {
        lemma_space_prefix_len(s.drop_first());
        assert forall|j: int| 0 <= j < space_prefix_len(s) implies is_space(s[j]) by {
            if j > 0 {
                assert(s.drop_first()[j - 1] == s[j]);
            }
        }
        if space_prefix_len(s) < s.len() {
            assert(s.drop_first()[space_prefix_len(s) - 1] == s[space_prefix_len(s)]);
        }
    }
}

/// Length of the longest whitespace suffix of `s`.
pub open spec fn space_suffix_len(s: Seq<char>) -> int
    decreases s.len(),
{
    if s.len() == 0 || !is_space(s.last()) {
        0
    } else {
        1 + space_suffix_len(s.drop_last())
    }
}

pub proof fn lemma_space_suffix_len(s: Seq<char>)
    ensures
        0 <= space_suffix_len(s) <= s.len(),
        forall|j: int| s.len() - space_suffix_len(s) <= j < s.len() ==> is_space(s[j]),
        space_suffix_len(s) < s.len() ==> !is_space(s[s.len() - space_suffix_len(s) - 1]),
    decreases s.len(),
{
    if s.len() == 0 || !is_space(s.last()) {
    } else {
        let d = s.drop_last();
        lemma_space_suffix_len(d);
        assert forall|j: int| s.len() - space_suffix_len(s) <= j < s.len() implies is_space(
            s[j],
        ) by {
            if j < s.len() - 1 {
                assert(d[j] == s[j]);
            } else {
                assert(s[j] == s.last());
            }
        }
        if space_suffix_len(s) < s.len() {
            assert(d[d.len() - space_suffix_len(d) - 1] == s[s.len() - space_suffix_len(s) - 1]);
        }
    }
}

/// What `str::trim` returns: `s` without its whitespace prefix and suffix.
pub open spec fn trim_spec(s: Seq<char>) -> Seq<char> {
    let rest = s.skip(space_prefix_len(s));
    rest.take(rest.len() - space_suffix_len(rest))
}

/// What `str::trim_end` returns: `s` without its whitespace suffix.
pub open spec fn trim_end_spec(s: Seq<char>) -> Seq<char> {
    s.take(s.len() - space_suffix_len(s))
}

fn find_space_prefix_len(v: &Vec<char>, from: usize) -> (r: usize)
    requires
        from <= v@.len(),
    ensures
        from <= r <= v@.len(),
        r - from == space_prefix_len(v@.skip(from as int)),
        forall|j: int| from <= j < r ==> is_space(v@[j]),
        r == v@.len() || !is_space(v@[r as int]),
{
    let mut i = from;
    loop
        invariant
            from <= i <= v@.len(),
            forall|j: int| from <= j < i ==> is_space(v@[j]),
        ensures
            from <= i <= v@.len(),
            forall|j: int| from <= j < i ==> is_space(v@[j]),
            i == v@.len() || !is_space(v@[i as int]),
        decreases v@.len() - i,
    {
        if i < v.len() && is_space_char(v[i]) {
            i += 1;
        } else {
            break;
        }
    }
    proof {
        lemma_space_prefix_len(v@.skip(from as int));
        let p = space_prefix_len(v@.skip(from as int));
        if i - from < p {
            assert(is_space(v@.skip(from as int)[i - from]));
            assert(v@.skip(from as int)[i - from] == v@[i as int]);
            assert(false);
        }
        if i - from > p {
            assert(v@.skip(from as int)[p] == v@[from + p]);
            assert(is_space(v@[from + p]));
            assert(false);
        }
    }
    i
}

/// `space_suffix_len` of `v[..upto]`, computed by scanning from the right.

fn find_space_suffix_len(v: &Vec<char>, upto: usize) -> (r: usize)
    requires
        upto <= v@.len(),
    ensures
        r <= upto,
        r == space_suffix_len(v@.take(upto as int)),
{
    let mut i = upto;
    loop
        invariant
            i <= upto <= v@.len(),
            forall|j: int| i <= j < upto ==> is_space(v@[j]),
        ensures
            i <= upto <= v@.len(),
            forall|j: int| i <= j < upto ==> is_space(v@[j]),
            i == 0 || !is_space(v@[i - 1]),
        decreases i,
    {
        if i > 0 && is_space_char(v[i - 1]) {
            i -= 1;
        } else {
            break;
        }
    }
    proof {
        let t = v@.take(upto as int);
        lemma_space_suffix_len(t);
        let p = space_suffix_len(t);
        assert(forall|j: int| 0 <= j < upto ==> t[j] == v@[j]);
        if upto - i < p {
            // then i > upto - p >= 1, and position i - 1 lies in the
            // whitespace suffix of t, contradicting where the scan stopped
            assert(is_space(t[i - 1]));
            assert(false);
        }
        if upto - i > p {
            assert(!is_space(t[upto as int - p - 1]));
            assert(is_space(v@[upto as int - p - 1]));
            assert(false);
        }
    }
    upto - i
}

/// Copy of `v[from..upto]`.
pub fn subvec(v: &Vec<char>, from: usize, upto: usize) -> (r: Vec<char>)
    requires
        from <= upto <= v@.len(),
    ensures
        r@ == v@.subrange(from as int, upto as int),
{
    let mut r: Vec<char> = Vec::new();
    let mut i = from;
    while i < upto
        invariant
            from <= i <= upto <= v@.len(),
            r@ == v@.subrange(from as int, i as int),
        decreases upto - i,
    {
        r.push(v[i]);
        i += 1;
        proof {
            assert(r@ =~= v@.subrange(from as int, i as int));
        }
    }
    r
}

/// `str::trim` on a character vector.
pub fn trim_chars(v: &Vec<char>) -> (r: Vec<char>)
    ensures
        r@ == trim_spec(v@),
{
    let start = find_space_prefix_len(v, 0);
    proof {
        assert(v@.skip(0) =~= v@);
    }
    let end_rel = find_space_suffix_len(&subvec(v, start, v.len()), v.len() - start);
    proof {
        let rest = v@.skip(start as int);
        assert(rest.take(rest.len() as int) =~= rest);
        assert(v@.subrange(start as int, v@.len() as int) =~= rest);
    }
    let r = subvec(v, start, v.len() - end_rel);
    proof {
        let rest = v@.skip(start as int);
        assert(r@ =~= rest.take(rest.len() - space_suffix_len(rest)));
    }
    r
}

/// `str::trim_end` on a character vector.
pub fn trim_end_chars(v: &Vec<char>) -> (r: Vec<char>)
    ensures
        r@ == trim_end_spec(v@),
{
    let end = find_space_suffix_len(v, v.len());
    proof {
        assert(v@.take(v@.len() as int) =~= v@);
    }
    subvec(v, 0, v.len() - end)
}

/// Length of the longest non-whitespace prefix of `s`.
pub open spec fn token_len(s: Seq<char>) -> int
    decreases s.len(),
{
    if s.len() == 0 || is_space(s[0]) {
        0
    } else {
        1 + token_len(s.drop_first())
    }
}

pub proof fn lemma_token_len(s: Seq<char>)
    ensures
        0 <= token_len(s) <= s.len(),
        forall|j: int| 0 <= j < token_len(s) ==> !is_space(s[j]),
        token_len(s) < s.len() ==> is_space(s[token_len(s)]),
    decreases s.len(),
{
    if s.len() == 0 || is_space(s[0]) {
    } else {
        lemma_token_len(s.drop_first());
        assert forall|j: int| 0 <= j < token_len(s) implies !is_space(s[j]) by {
            if j > 0 {
                assert(s.drop_first()[j - 1] == s[j]);
            }
        }
        if token_len(s) < s.len() {
            assert(s.drop_first()[token_len(s) - 1] == s[token_len(s)]);
        }
    }
}

/// The whitespace-delimited tokens of `s`, as `str::split_whitespace` yields
/// them.
pub open spec fn tokens_spec(s: Seq<char>) -> Seq<Seq<char>>
    decreases s.len(),
    via tokens_spec_decreases
{
    if s.len() == 0 {
        Seq::empty()
    } else if is_space(s[0]) {
        tokens_spec(s.drop_first())
    } else {
        seq![s.take(token_len(s))] + tokens_spec(s.skip(token_len(s)))
    }
}

#[via_fn]
proof fn tokens_spec_decreases(s: Seq<char>) {
    if s.len() > 0 && !is_space(s[0]) {
        lemma_token_len(s);
    }
}

proof fn lemma_tokens_skip_space(s: Seq<char>, k: int)
    requires
        0 <= k <= s.len(),
        forall|j: int| 0 <= j < k ==> is_space(s[j]),
    ensures
        tokens_spec(s) == tokens_spec(s.skip(k)),
    decreases k,
{
    if k > 0 {
        assert(tokens_spec(s) == tokens_spec(s.drop_first()));
        lemma_tokens_skip_space(s.drop_first(), k - 1);
        assert(s.drop_first().skip(k - 1) =~= s.skip(k));
    } else {
        assert(s.skip(0) =~= s);
    }
}

proof fn lemma_token_len_from(s: Seq<char>, k: int)
    requires
        0 <= k <= s.len(),
        forall|j: int| 0 <= j < k ==> !is_space(s[j]),
        k < s.len() ==> is_space(s[k]),
    ensures
        token_len(s) == k,
    decreases s.len(),
{
    if s.len() == 0 || is_space(s[0]) {
    } else {
        lemma_token_len_from(s.drop_first(), k - 1);
    }
}

fn find_token_end(v: &Vec<char>, from: usize) -> (r: usize)
    requires
        from <= v@.len(),
    ensures
        from <= r <= v@.len(),
        r - from == token_len(v@.skip(from as int)),
{
    let mut i = from;
    loop
        invariant
            from <= i <= v@.len(),
            forall|j: int| from <= j < i ==> !is_space(v@[j]),
        ensures
            from <= i <= v@.len(),
            forall|j: int| from <= j < i ==> !is_space(v@[j]),
            i == v@.len() || is_space(v@[i as int]),
        decreases v@.len() - i,
    {
        if i < v.len() && !is_space_char(v[i]) {
            i += 1;
        } else {
            break;
        }
    }
    proof {
        let s = v@.skip(from as int);
        assert(forall|j: int| 0 <= j < i - from ==> s[j] == v@[from + j]);
        if (i as int) < v@.len() {
            assert(s[i - from] == v@[i as int]);
        }
        lemma_token_len_from(s, i - from);
    }
    i
}

/// The views of a sequence of character vectors.
pub open spec fn views_of(vs: Seq<Vec<char>>) -> Seq<Seq<char>> {
    Seq::new(vs.len(), |i: int| vs[i]@)
}

/// The tokens of `v`, split on whitespace.
pub fn split_ws(v: &Vec<char>) -> (r: Vec<Vec<char>>)
    ensures
        views_of(r@) == tokens_spec(v@),
{
    let mut r: Vec<Vec<char>> = Vec::new();
    let mut i: usize = 0;
    proof {
        assert(v@.skip(0) =~= v@);
        assert(views_of(r@) =~= Seq::<Seq<char>>::empty());
    }
    loop
        invariant
            i <= v@.len(),
            tokens_spec(v@) == views_of(r@) + tokens_spec(v@.skip(i as int)),
        decreases v@.len() - i,
    {
        let start = find_space_prefix_len(v, i);
        proof {
            assert(forall|j: int|
                0 <= j < start - i ==> v@.skip(i as int)[j] == v@[i + j]);
            lemma_tokens_skip_space(v@.skip(i as int), start - i);
            assert(v@.skip(i as int).skip(start - i) =~= v@.skip(start as int));
        }
        if start == v.len() {
            proof {
                assert(v@.skip(start as int).len() == 0);
                assert(tokens_spec(v@) =~= views_of(r@));
            }
            return r;
        }
        let end = find_token_end(v, start);
        let ghost old_r = views_of(r@);
        let tok = subvec(v, start, end);
        r.push(tok);
        proof {
            let s = v@.skip(start as int);
            assert(s[0] == v@[start as int]);
            assert(!is_space(s[0]));
            assert(tokens_spec(s) == seq![s.take(token_len(s))] + tokens_spec(
                s.skip(token_len(s)),
            ));
            assert(s.take(end - start) =~= v@.subrange(start as int, end as int));
            assert(s.skip(end - start) =~= v@.skip(end as int));
            assert(views_of(r@) =~= old_r + seq![tok@]);
        }
        i = end;
    }
}

/// The separator-prefixed concatenation of `parts`: what follows the first
/// part in a join.
pub open spec fn join_tail(parts: Seq<Seq<char>>, sep: Seq<char>) -> Seq<char>
    decreases parts.len(),
{
    if parts.len() == 0 {
        Seq::empty()
    } else {
        sep + parts[0] + join_tail(parts.drop_first(), sep)
    }
}

/// The parts joined by a separator, as `[String]::join` renders them.
pub open spec fn join_spec(parts: Seq<Seq<char>>, sep: Seq<char>) -> Seq<char> {
    if parts.len() == 0 {
        Seq::empty()
    } else {
        parts[0] + join_tail(parts.drop_first(), sep)
    }
}

/// Joins character vectors with a separator, as `[String]::join` does.
pub fn join_chars(parts: &Vec<Vec<char>>, sep: &Vec<char>) -> (r: Vec<char>)
    ensures
        r@ == join_spec(views_of(parts@), sep@),
{
    proof {
        assert(views_of(parts@).skip(0) =~= views_of(parts@));
    }
    join_chars_from(parts, 0, sep)
}

/// Joins the character vectors from index `from` on with a separator.
pub fn join_chars_from(parts: &Vec<Vec<char>>, from: usize, sep: &Vec<char>) -> (r: Vec<char>)
    requires
        from <= parts@.len(),
    ensures
        r@ == join_spec(views_of(parts@).skip(from as int), sep@),
{
    let ghost dv = views_of(parts@).skip(from as int);
    let mut r: Vec<char> = Vec::new();
    let mut i: usize = from;
    while i < parts.len()
        invariant
            from <= i <= parts@.len(),
            dv == views_of(parts@).skip(from as int),
            i == from ==> r@ == Seq::<char>::empty(),
            i > from ==> join_spec(dv, sep@) == r@ + join_tail(dv.skip(i - from), sep@),
        decreases parts@.len() - i,
    {
        let ghost pre = r@;
        if i > from {
            append_chars(&mut r, sep);
        }
        append_chars(&mut r, &parts[i]);
        proof {
            assert(dv[i - from] == views_of(parts@)[i as int]);
            assert(views_of(parts@)[i as int] == parts@[i as int]@);
            if i == from {
                assert(dv.skip(1) =~= dv.drop_first());
                assert(r@ =~= dv[0]);
            } else {
                let rest = dv.skip(i - from);
                assert(rest[0] == dv[i - from]);
                assert(rest.drop_first() =~= dv.skip(i + 1 - from));
                assert(join_tail(rest, sep@) == sep@ + rest[0] + join_tail(
                    dv.skip(i + 1 - from),
                    sep@,
                ));
                assert(r@ =~= pre + sep@ + rest[0]);
            }
        }
        i += 1;
    }
    proof {
        if i > from {
            assert(dv.skip(i - from) =~= Seq::<Seq<char>>::empty());
            assert(r@ =~= join_spec(dv, sep@));
        }
    }
    r
}

/// Appends all of `src` to `dst`.
pub fn append_chars(dst: &mut Vec<char>, src: &Vec<char>)
    ensures
        final(dst)@ == old(dst)@ + src@,
{
    let mut i: usize = 0;
    while i < src.len()
        invariant
            i <= src@.len(),
            dst@ == old(dst)@ + src@.take(i as int),
        decreases src@.len() - i,
    {
        dst.push(src[i]);
        i += 1;
        proof {
            assert(old(dst)@ + src@.take(i as int) =~= dst@);
        }
    }
    proof {
        assert(old(dst)@ + src@.take(i as int) =~= old(dst)@ + src@);
    }
}

/// Whether `needle` occurs as a contiguous run inside `hay`.
pub open spec fn contains_seq(hay: Seq<char>, needle: Seq<char>) -> bool {
    exists|i: int|
        0 <= i <= hay.len() - needle.len() && #[trigger] hay.subrange(i, i + needle.len())
            == needle
}

fn match_at(hay: &Vec<char>, needle: &Vec<char>, at: usize) -> (r: bool)
    requires
        at + needle@.len() <= hay@.len(),
    ensures
        r == (hay@.subrange(at as int, at + needle@.len()) == needle@),
{
    let hay_len = hay.len();
    let mut j: usize = 0;
    while j < needle.len()
        invariant
            hay_len == hay@.len(),
            at + needle@.len() <= hay@.len(),
            j <= needle@.len(),
            forall|t: int| 0 <= t < j ==> hay@[at + t] == needle@[t],
        decreases needle@.len() - j,
    {
        if hay[at + j] != needle[j] {
            proof {
                if hay@.subrange(at as int, at + needle@.len()) == needle@ {
                    assert(hay@.subrange(at as int, at + needle@.len())[j as int] == hay@[at
                        + j]);
                    assert(false);
                }
            }
            return false;
        }
        j += 1;
    }
    proof {
        assert(hay@.subrange(at as int, at + needle@.len()) =~= needle@);
    }
    true
}

/// Substring search, as `str::contains` decides it.
pub fn contains_chars(hay: &Vec<char>, needle: &Vec<char>) -> (r: bool)
    ensures
        r == contains_seq(hay@, needle@),
{
    if needle.len() > hay.len() {
        return false;
    }
    let limit = hay.len() - needle.len();
    let mut i: usize = 0;
    loop
        invariant
            needle@.len() <= hay@.len(),
            limit == hay@.len() - needle@.len(),
            i <= limit,
            forall|k: int|
                0 <= k < i ==> #[trigger] hay@.subrange(k, k + needle@.len()) != needle@,
        ensures
            forall|k: int|
                0 <= k <= limit ==> #[trigger] hay@.subrange(k, k + needle@.len()) != needle@,
        decreases limit - i,
    {
        if match_at(hay, needle, i) {
            return true;
        }
        if i == limit {
            break;
        }
        i += 1;
    }
    proof {
        if contains_seq(hay@, needle@) {
            let w = choose|k: int|
                0 <= k <= hay@.len() - needle@.len() && #[trigger] hay@.subrange(
                    k,
                    k + needle@.len(),
                ) == needle@;
            assert(hay@.subrange(w, w + needle@.len()) != needle@);
        }
    }
    false
}

/// Equality of two character vectors.
pub fn chars_eq(a: &Vec<char>, b: &Vec<char>) -> (r: bool)
    ensures
        r == (a@ == b@),
{
    if a.len() != b.len() {
        return false;
    }
    let mut i: usize = 0;
    while i < a.len()
        invariant
            a@.len() == b@.len(),
            i <= a@.len(),
            forall|j: int| 0 <= j < i ==> a@[j] == b@[j],
        decreases a@.len() - i,
    {
        if a[i] != b[i] {
            return false;
        }
        i += 1;
    }
    proof {
        assert(a@ =~= b@);
    }
    true
}

/// Whether `p` is a prefix of `v`.
pub fn starts_with_chars(v: &Vec<char>, p: &Vec<char>) -> (r: bool)
    ensures
        r == p@.is_prefix_of(v@),
{
    if p.len() > v.len() {
        return false;
    }
    let mut i: usize = 0;
    while i < p.len()
        invariant
            p@.len() <= v@.len(),
            i <= p@.len(),
            forall|j: int| 0 <= j < i ==> v@[j] == p@[j],
        decreases p@.len() - i,
    {
        if v[i] != p[i] {
            proof {
                assert(p@.is_prefix_of(v@) ==> p@ =~= v@.take(p@.len() as int));
                if p@.is_prefix_of(v@) {
                    assert(v@.take(p@.len() as int)[i as int] == v@[i as int]);
                }
            }
            return false;
        }
        i += 1;
    }
    proof {
        assert(p@ =~= v@.take(p@.len() as int));
    }
    true
}

/// Equality of two string slices, decided character by character.
pub fn eq_str(a: &str, b: &str) -> (r: bool)
    ensures
        r == (a@ == b@),
{
    let na = a.unicode_len();
    let nb = b.unicode_len();
    if na != nb {
        return false;
    }
    let mut i: usize = 0;
    while i < na
        invariant
            na == a@.len() == b@.len(),
            i <= na,
            forall|j: int| 0 <= j < i ==> a@[j] == b@[j],
        decreases na - i,
    {
        if a.get_char(i) != b.get_char(i) {
            return false;
        }
        i += 1;
    }
    proof {
        assert(a@ =~= b@);
    }
    true
}

/// The characters of `s`, in order.
pub fn str_to_chars(s: &str) -> (r: Vec<char>)
    ensures
        r@ == s@,
{
    let n = s.unicode_len();
    let mut r: Vec<char> = Vec::new();
    let mut i: usize = 0;
    while i < n
        invariant
            n == s@.len(),
            i <= n,
            r@ == s@.take(i as int),
        decreases n - i,
    {
        r.push(s.get_char(i));
        i += 1;
        proof {
            assert(r@ =~= s@.take(i as int));
        }
    }
    proof {
        assert(s@.take(i as int) =~= s@);
    }
    r
}

/// Relies on `std::iter::Iterator::collect` for `String`: the collected
/// string holds exactly the characters of `v`, in order.
#[verifier::external_body]
pub(crate) fn chars_to_string(v: &Vec<char>) -> (r: String)
    ensures
        r@ == v@,
{
    v.iter().collect()
}

/// The decimal digit character for `d`.
pub open spec fn digit_char(d: int) -> char {
    if d == 0 {
        '0'
    } else if d == 1 {
        '1'
    } else if d == 2 {
        '2'
    } else if d == 3 {
        '3'
    } else if d == 4 {
        '4'
    } else if d == 5 {
        '5'
    } else if d == 6 {
        '6'
    } else if d == 7 {
        '7'
    } else if d == 8 {
        '8'
    } else {
        '9'
    }
}

/// The decimal rendering of a nonnegative integer, without sign or leading
/// zeros.
pub open spec fn dec_digits(n: int) -> Seq<char>
    decreases n,
{
    if n < 10 {
        seq![digit_char(n)]
    } else {
        dec_digits(n / 10).push(digit_char(n % 10))
    }
}

/// The decimal rendering of an integer, as `i64::to_string` formats it.
pub open spec fn dec_int(n: int) -> Seq<char> {
    if n < 0 {
        seq!['-'] + dec_digits(-n)
    } else {
        dec_digits(n)
    }
}

fn digit_char_exec(d: u64) -> (r: char)
    requires
        d < 10,
    ensures
        r == digit_char(d as int),
{
    match d {
        0 => '0',
        1 => '1',
        2 => '2',
        3 => '3',
        4 => '4',
        5 => '5',
        6 => '6',
        7 => '7',
        8 => '8',
        _ => '9',
    }
}

pub fn push_dec_u64(n: u64, out: &mut Vec<char>)
    ensures
        final(out)@ == old(out)@ + dec_digits(n as int),
    decreases n,
{
    if n < 10 {
        out.push(digit_char_exec(n));
        proof {
            assert(out@ =~= old(out)@ + dec_digits(n as int));
        }
    } else {
        push_dec_u64(n / 10, out);
        out.push(digit_char_exec(n % 10));
        proof {
            assert(out@ =~= old(out)@ + dec_digits(n as int));
        }
    }
}

/// Decimal rendering of an `i64`.
pub fn i64_to_dec_chars(n: i64) -> (r: Vec<char>)
    ensures
        r@ == dec_int(n as int),
{
    let mut out: Vec<char> = Vec::new();
    if n < 0 {
        out.push('-');
        let mag: u64 = (-(n as i128)) as u64;
        push_dec_u64(mag, &mut out);
        proof {
            assert(out@ =~= dec_int(n as int));
        }
    } else {
        push_dec_u64(n as u64, &mut out);
        proof {
            assert(out@ =~= dec_int(n as int));
        }
    }
    out
}

} // verus!
