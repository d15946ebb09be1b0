//! Character-level text utilities: conversion between `str` and character
//! vectors, whitespace, trimming, prefixes, substrings and line splitting,
//! each specified over `Seq<char>`.

use vstd::prelude::*;

verus! {

/// Collects the characters of `s`.
pub fn chars_of(s: &str) -> (out: Vec<char>)
    ensures
        out@ == s@,
{
    let mut out: Vec<char> = Vec::new();
    for c in it: s.chars()
        invariant
            out@ == it.seq().take(it.index() as int),
            it.seq() == s@,
    {
        out.push(c);
    }
    out
}

/// Appends one character to a `String` (`String::push`).
#[verifier::external_body]
fn push_char(s: &mut String, c: char)
    ensures
        final(s)@ == old(s)@.push(c),
{
    s.push(c);
}

/// Builds a `String` holding exactly the characters of `v`.
pub fn string_of(v: &[char]) -> (out: String)
    ensures
        out@ == v@,
{
    let mut out = String::new();
    for i in 0..v.len()
        invariant
            out@ == v@.take(i as int),
    {
        push_char(&mut out, v[i]);
        assert(v@.take(i as int).push(v@[i as int]) =~= v@.take(i + 1));
    }
    assert(v@.take(v@.len() as int) =~= v@);
    out
}

/// Copies `v[lo..hi]`.
pub fn copy_range(v: &[char], lo: usize, hi: usize) -> (out: Vec<char>)
    requires
        lo <= hi <= v@.len(),
    ensures
        out@ == v@.subrange(lo as int, hi as int),
{
    let mut out: Vec<char> = Vec::new();
    let mut i = lo;
    while i < hi
        invariant
            lo <= i <= hi <= v@.len(),
            out@ == v@.subrange(lo as int, i as int),
        decreases hi - i,
    {
        out.push(v[i]);
        assert(v@.subrange(lo as int, i as int).push(v@[i as int]) =~= v@.subrange(
            lo as int,
            i + 1,
        ));
        i += 1;
    }
    out
}

/// Appends `w` to the end of `v`.
pub fn append_chars(v: &mut Vec<char>, w: &[char])
    ensures
        final(v)@ == old(v)@ + w@,
{
    let ghost start = v@;
    for i in 0..w.len()
        invariant
            v@ == start + w@.take(i as int),
    {
        v.push(w[i]);
        assert(start + w@.take(i as int) + seq![w@[i as int]] =~= start + w@.take(i + 1));
    }
    assert(w@.take(w@.len() as int) =~= w@);
}

/// Whether two character sequences are equal.
pub fn chars_eq(a: &[char], b: &[char]) -> (r: bool)
    ensures
        r == (a@ == b@),
{
    if a.len() != b.len() {
        return false;
    }
    for i in 0..a.len()
        invariant
            a@.len() == b@.len(),
            forall|j: int| 0 <= j < i ==> a@[j] == b@[j],
    {
        if a[i] != b[i] {
            return false;
        }
    }
    assert(a@ =~= b@);
    true
}

/// Unicode `White_Space`, the property that `char::is_whitespace` tests.
pub open spec fn is_ws(c: char) -> bool {
    let u = c as u32;
    ||| 0x9 <= u && u <= 0xD
    ||| u == 0x20
    ||| u == 0x85
    ||| u == 0xA0
    ||| u == 0x1680
    ||| 0x2000 <= u && u <= 0x200A
    ||| u == 0x2028
    ||| u == 0x2029
    ||| u == 0x202F
    ||| u == 0x205F
    ||| u == 0x3000
}

/// `char::is_whitespace`.
pub fn is_whitespace(c: char) -> (b: bool)
    ensures
        b == is_ws(c),
{
    let u = c as u32;
    (0x9 <= u && u <= 0xD) || u == 0x20 || u == 0x85 || u == 0xA0 || u == 0x1680 || (0x2000 <= u
        && u <= 0x200A) || u == 0x2028 || u == 0x2029 || u == 0x202F || u == 0x205F || u == 0x3000
}

/// `str::trim_start`: drops leading whitespace.
pub open spec fn trim_start(s: Seq<char>) -> Seq<char>
    decreases s.len(),
{
    if s.len() > 0 && is_ws(s[0]) {
        trim_start(s.drop_first())
    } else {
        s
    }
}

/// `str::trim_end`: drops trailing whitespace.
pub open spec fn trim_end(s: Seq<char>) -> Seq<char>
    decreases s.len(),
{
    if s.len() > 0 && is_ws(s.last()) {
        trim_end(s.drop_last())
    } else {
        s
    }
}

/// `str::trim`: drops whitespace at both ends.
pub open spec fn trim(s: Seq<char>) -> Seq<char> {
    trim_end(trim_start(s))
}

/// Whether every character of `s` is whitespace.
pub open spec fn all_ws(s: Seq<char>) -> bool {
    forall|i: int| 0 <= i < s.len() ==> is_ws(#[trigger] s[i])
}

/// Index of the first character of `v[lo..hi]` that is not whitespace (or
/// `hi`): `v[k..hi]` is `v[lo..hi]` with leading whitespace trimmed.
pub fn skip_ws(v: &[char], lo: usize, hi: usize) -> (k: usize)
    requires
        lo <= hi <= v@.len(),
    ensures
        lo <= k <= hi,
        trim_start(v@.subrange(lo as int, hi as int)) == v@.subrange(k as int, hi as int),
        all_ws(v@.subrange(lo as int, k as int)),
{
    let mut k = lo;
    while k < hi && is_whitespace(v[k])
        invariant
            lo <= k <= hi <= v@.len(),
            trim_start(v@.subrange(lo as int, hi as int)) == trim_start(
                v@.subrange(k as int, hi as int),
            ),
            all_ws(v@.subrange(lo as int, k as int)),
        decreases hi - k,
    {
        assert(v@.subrange(k as int, hi as int).drop_first() =~= v@.subrange(k + 1, hi as int));
        assert(v@.subrange(lo as int, k + 1) =~= v@.subrange(lo as int, k as int).push(
            v@[k as int],
        ));
        k += 1;
    }
    k
}

/// Index just after the last character of `v[lo..hi]` that is not
/// whitespace (or `lo`): `v[lo..k]` is `v[lo..hi]` with trailing whitespace
/// trimmed.
pub fn skip_ws_back(v: &[char], lo: usize, hi: usize) -> (k: usize)
    requires
        lo <= hi <= v@.len(),
    ensures
        lo <= k <= hi,
        trim_end(v@.subrange(lo as int, hi as int)) == v@.subrange(lo as int, k as int),
        all_ws(v@.subrange(k as int, hi as int)),
{
    let mut k = hi;
    while k > lo && is_whitespace(v[k - 1])
        invariant
            lo <= k <= hi <= v@.len(),
            trim_end(v@.subrange(lo as int, hi as int)) == trim_end(
                v@.subrange(lo as int, k as int),
            ),
            all_ws(v@.subrange(k as int, hi as int)),
        decreases k - lo,
    {
        assert(v@.subrange(lo as int, k as int).drop_last() =~= v@.subrange(lo as int, k - 1));
        assert(v@.subrange(k - 1, hi as int) =~= seq![v@[k - 1]] + v@.subrange(
            k as int,
            hi as int,
        ));
        k -= 1;
    }
    k
}

/// Bounds of `trim(v[lo..hi])` inside `v`.
pub fn trim_bounds(v: &[char], lo: usize, hi: usize) -> (r: (usize, usize))
    requires
        lo <= hi <= v@.len(),
    ensures
        lo <= r.0 <= r.1 <= hi,
        trim(v@.subrange(lo as int, hi as int)) == v@.subrange(r.0 as int, r.1 as int),
{
    let a = skip_ws(v, lo, hi);
    let b = skip_ws_back(v, a, hi);
    (a, b)
}

/// `s.trim()` as a new character vector.
pub fn trimmed(v: &[char]) -> (out: Vec<char>)
    ensures
        out@ == trim(v@),
{
    assert(v@.subrange(0, v@.len() as int) =~= v@);
    let (a, b) = trim_bounds(v, 0, v.len());
    copy_range(v, a, b)
}

/// Trimming an all-whitespace sequence leaves nothing.
pub proof fn lemma_trim_start_all_ws(s: Seq<char>)
    requires
        all_ws(s),
    ensures
        trim_start(s) == Seq::<char>::empty(),
    decreases s.len(),
{
    if s.len() > 0 {
        assert(all_ws(s.drop_first()));
        lemma_trim_start_all_ws(s.drop_first());
    } else {
        assert(s =~= Seq::<char>::empty());
    }
}

/// A trimmed-start sequence is empty exactly when the whole is whitespace.
pub proof fn lemma_trim_start_empty(s: Seq<char>)
    ensures
        (trim_start(s).len() == 0) == all_ws(s),
        trim_start(s).len() > 0 ==> !is_ws(trim_start(s)[0]),
    decreases s.len(),
{
    if s.len() > 0 {
        if is_ws(s[0]) {
            lemma_trim_start_empty(s.drop_first());
            if all_ws(s.drop_first()) {
                assert forall|i: int| 0 <= i < s.len() implies is_ws(#[trigger] s[i]) by {
                    if i > 0 {
                        assert(s[i] == s.drop_first()[i - 1]);
                    }
                }
            } else {
                let j = choose|j: int| 0 <= j < s.drop_first().len() && !is_ws(
                    #[trigger] s.drop_first()[j],
                );
                assert(s[j + 1] == s.drop_first()[j]);
            }
        } else {
            assert(!is_ws(s[0]));
        }
    }
}

/// `trim_end` keeps a non-whitespace first character.
pub proof fn lemma_trim_end_keeps_first(s: Seq<char>)
    requires
        s.len() > 0 ==> !is_ws(s[0]),
    ensures
        (trim_end(s).len() == 0) == (s.len() == 0),
    decreases s.len(),
{
    if s.len() > 0 && is_ws(s.last()) {
        assert(s.len() > 1);
        assert(s.drop_last()[0] == s[0]);
        lemma_trim_end_keeps_first(s.drop_last());
    }
}

/// `p` is a prefix of `s` (`str::starts_with`).
pub open spec fn has_prefix(s: Seq<char>, p: Seq<char>) -> bool {
    p.len() <= s.len() && s.take(p.len() as int) == p
}

/// Whether `v[lo..hi]` starts with `p`.
pub fn starts_with_at(v: &[char], lo: usize, hi: usize, p: &[char]) -> (r: bool)
    requires
        lo <= hi <= v@.len(),
    ensures
        r == has_prefix(v@.subrange(lo as int, hi as int), p@),
{
    if p.len() > hi - lo {
        return false;
    }
    for i in 0..p.len()
        invariant
            lo + p@.len() <= hi <= v@.len(),
            forall|j: int| 0 <= j < i ==> v@[lo + j] == p@[j],
    {
        if v[lo + i] != p[i] {
            assert(v@.subrange(lo as int, hi as int).take(p@.len() as int)[i as int] != p@[i as int]);
            return false;
        }
    }
    assert(v@.subrange(lo as int, hi as int).take(p@.len() as int) =~= p@);
    true
}

/// `needle` occurs in `hay` starting at `i`.
pub open spec fn occurs_at(hay: Seq<char>, needle: Seq<char>, i: int) -> bool {
    0 <= i && i + needle.len() <= hay.len() && hay.subrange(i, i + needle.len()) == needle
}

/// `str::contains` with a string pattern.
pub open spec fn contains_seq(hay: Seq<char>, needle: Seq<char>) -> bool {
    exists|i: int| occurs_at(hay, needle, i)
}

/// Whether `needle` occurs in `hay`.
pub fn contains(hay: &[char], needle: &[char]) -> (r: bool)
    ensures
        r == contains_seq(hay@, needle@),
{
    if needle.len() > hay.len() {
        assert forall|i: int| !occurs_at(hay@, needle@, i) by {}
        return false;
    }
    let last = hay.len() - needle.len();
    let mut i: usize = 0;
    while i < last
        invariant
            i <= last,
            last + needle@.len() == hay@.len(),
            forall|j: int| 0 <= j < i ==> !occurs_at(hay@, needle@, j),
        decreases last - i,
    {
        assert(hay@.subrange(i as int, hay@.len() as int).take(needle@.len() as int)
            =~= hay@.subrange(i as int, i + needle@.len()));
        if starts_with_at(hay, i, hay.len(), needle) {
            assert(occurs_at(hay@, needle@, i as int));
            return true;
        }
        i += 1;
    }
    assert(hay@.subrange(last as int, hay@.len() as int).take(needle@.len() as int)
        =~= hay@.subrange(last as int, last + needle@.len()));
    if starts_with_at(hay, last, hay.len(), needle) {
        assert(occurs_at(hay@, needle@, last as int));
        return true;
    }
    assert forall|j: int| !occurs_at(hay@, needle@, j) by {
        if 0 <= j < i {
        }
    }
    false
}

/// ASCII lowercase of one character (`char::to_ascii_lowercase`).
pub open spec fn ascii_lower(c: char) -> char {
    if 'A' <= c && c <= 'Z' {
        ((c as u32) + 32) as char
    } else {
        c
    }
}

/// `char::to_ascii_lowercase`.
pub fn to_ascii_lower(c: char) -> (r: char)
    ensures
        r == ascii_lower(c),
{
    if 'A' <= c && c <= 'Z' {
        let u = (c as u32) + 32;
        assert(0x61 <= u <= 0x7a);
        // The lowercase ASCII letters sit in the ASCII block.
        char_from_ascii(u)
    } else {
        c
    }
}

/// The character with code point `u` in the ASCII block.
fn char_from_ascii(u: u32) -> (c: char)
    requires
        u < 0x80,
    ensures
        c == u as char,
        c as u32 == u,
{
    let b = u as u8;
    let c = b as char;
    assert(c as u32 == u);
    c
}

/// `str::eq_ignore_ascii_case`.
pub open spec fn eq_ignore_ascii_case_spec(a: Seq<char>, b: Seq<char>) -> bool {
    a.len() == b.len() && forall|i: int| 0 <= i < a.len() ==> ascii_lower(#[trigger] a[i])
        == ascii_lower(b[i])
}

/// Whether `v[lo..hi]` equals `b` ignoring ASCII case.
pub fn eq_ignore_ascii_case_at(v: &[char], lo: usize, hi: usize, b: &[char]) -> (r: bool)
    requires
        lo <= hi <= v@.len(),
    ensures
        r == eq_ignore_ascii_case_spec(v@.subrange(lo as int, hi as int), b@),
{
    if hi - lo != b.len() {
        return false;
    }
    for i in 0..b.len()
        invariant
            lo + b@.len() == hi <= v@.len(),
            forall|j: int|
                0 <= j < i ==> ascii_lower(#[trigger] v@[lo + j]) == ascii_lower(b@[j]),
    {
        if to_ascii_lower(v[lo + i]) != to_ascii_lower(b[i]) {
            assert(v@.subrange(lo as int, hi as int)[i as int] == v@[lo + i]);
            return false;
        }
    }
    assert forall|i: int| 0 <= i < b@.len() implies ascii_lower(
        #[trigger] v@.subrange(lo as int, hi as int)[i],
    ) == ascii_lower(b@[i]) by {
        assert(v@.subrange(lo as int, hi as int)[i] == v@[lo + i]);
    }
    true
}

/// Length of the first line of `s`: the index of its first `'\n'`, or its
/// whole length.
pub open spec fn line_len(s: Seq<char>) -> nat
    decreases s.len(),
{
    if s.len() == 0 || s[0] == '\n' {
        0
    } else {
        1 + line_len(s.drop_first())
    }
}

/// Drops one trailing `'\r'`.
pub open spec fn strip_cr(s: Seq<char>) -> Seq<char> {
    if s.len() > 0 && s.last() == '\r' {
        s.drop_last()
    } else {
        s
    }
}

/// `str::lines`: the pieces between `'\n'` characters, each without the
/// `'\r'` of a `"\r\n"` ending; a final `'\n'` ends the last line rather than
/// starting an empty one.
pub open spec fn lines(s: Seq<char>) -> Seq<Seq<char>>
    decreases s.len(),
{
    if s.len() == 0 {
        seq![]
    } else {
        let k = line_len(s);
        if k < s.len() {
            seq![strip_cr(s.take(k as int))] + lines(s.skip(k as int + 1))
        } else {
            seq![s]
        }
    }
}

/// What `line_len` measures.
pub proof fn lemma_line_len(s: Seq<char>)
    ensures
        line_len(s) <= s.len(),
        forall|j: int| 0 <= j < line_len(s) ==> s[j] != '\n',
        line_len(s) < s.len() ==> s[line_len(s) as int] == '\n',
    decreases s.len(),
{
    if s.len() > 0 && s[0] != '\n' {
        lemma_line_len(s.drop_first());
        assert forall|j: int| 0 <= j < line_len(s) implies s[j] != '\n' by {
            if j > 0 {
                assert(s[j] == s.drop_first()[j - 1]);
            }
        }
    }
}

/// `line_len` is pinned by the first newline.
pub proof fn lemma_line_len_is(s: Seq<char>, k: int)
    requires
        0 <= k <= s.len(),
        forall|j: int| 0 <= j < k ==> s[j] != '\n',
        k < s.len() ==> s[k] == '\n',
    ensures
        line_len(s) == k,
    decreases k,
{
    if k > 0 {
        assert(s[0] != '\n');
        assert forall|j: int| 0 <= j < k - 1 implies s.drop_first()[j] != '\n' by {
            assert(s.drop_first()[j] == s[j + 1]);
        }
        if k < s.len() {
            assert(s.drop_first()[k - 1] == s[k]);
        }
        lemma_line_len_is(s.drop_first(), k - 1);
    }
}

/// The lines of `v`, as `(start, end)` bounds: `v[start..end]` is each line.
pub open spec fn bounds_lines(v: Seq<char>, b: Seq<(usize, usize)>) -> Seq<Seq<char>> {
    Seq::new(b.len(), |k: int| v.subrange(b[k].0 as int, b[k].1 as int))
}

/// Bounds well inside `v`.
pub open spec fn bounds_ok(v: Seq<char>, b: Seq<(usize, usize)>) -> bool {
    forall|k: int| 0 <= k < b.len() ==> #[trigger] b[k].0 <= b[k].1 && b[k].1 <= v.len()
}

/// Splits `v` into lines (`str::lines`), giving each line's bounds.
pub fn line_bounds(v: &[char]) -> (out: Vec<(usize, usize)>)
    ensures
        bounds_ok(v@, out@),
        bounds_lines(v@, out@) == lines(v@),
{
    let n = v.len();
    let mut out: Vec<(usize, usize)> = Vec::new();
    let mut start: usize = 0;
    let mut i: usize = 0;
    assert(v@.skip(0) =~= v@);
    while i < n
        invariant
            n == v@.len(),
            start <= i <= n,
            bounds_ok(v@, out@),
            bounds_lines(v@, out@) + lines(v@.skip(start as int)) == lines(v@),
            forall|j: int| start <= j < i ==> v@[j] != '\n',
        decreases n - i,
    {
        if v[i] == '\n' {
            let ghost rest = v@.skip(start as int);
            proof {
                assert forall|j: int| 0 <= j < i - start implies rest[j] != '\n' by {
                    assert(rest[j] == v@[start + j]);
                }
                assert(rest[i - start] == v@[i as int]);
                lemma_line_len_is(rest, i - start);
                assert(rest.skip(i - start + 1) =~= v@.skip(i + 1));
                assert(rest.take(i - start) =~= v@.subrange(start as int, i as int));
            }
            let end = if i > start && v[i - 1] == '\r' {
                i - 1
            } else {
                i
            };
            proof {
                let t = v@.subrange(start as int, i as int);
                if i > start && v@[i - 1] == '\r' {
                    assert(t.drop_last() =~= v@.subrange(start as int, end as int));
                } else {
                    assert(t =~= v@.subrange(start as int, end as int));
                }
            }
            let ghost old_out = out@;
            out.push((start, end));
            assert(bounds_lines(v@, out@) =~= bounds_lines(v@, old_out).push(
                v@.subrange(start as int, end as int),
            ));
            assert(bounds_lines(v@, out@) + lines(v@.skip(i + 1)) =~= bounds_lines(v@, old_out)
                + lines(rest));
            start = i + 1;
        }
        i += 1;
    }
    if start < n {
        let ghost rest = v@.skip(start as int);
        proof {
            assert forall|j: int| 0 <= j < rest.len() implies rest[j] != '\n' by {
                assert(rest[j] == v@[start + j]);
            }
            lemma_line_len_is(rest, rest.len() as int);
            assert(rest =~= v@.subrange(start as int, n as int));
        }
        let ghost old_out = out@;
        out.push((start, n));
        assert(bounds_lines(v@, out@) =~= bounds_lines(v@, old_out).push(rest));
        assert(bounds_lines(v@, out@) =~= bounds_lines(v@, old_out) + lines(rest));
    } else {
        assert(v@.skip(start as int) =~= Seq::<char>::empty());
        assert(bounds_lines(v@, out@) + Seq::<Seq<char>>::empty() =~= bounds_lines(v@, out@));
    }
    out
}

/// `parts.join(sep)`.
pub open spec fn join(parts: Seq<Seq<char>>, sep: Seq<char>) -> Seq<char>
    decreases parts.len(),
{
    if parts.len() == 0 {
        seq![]
    } else if parts.len() == 1 {
        parts[0]
    } else {
        join(parts.drop_last(), sep) + sep + parts.last()
    }
}

/// The character sequences held by a vector of character vectors.
pub open spec fn views(parts: Seq<Vec<char>>) -> Seq<Seq<char>> {
    Seq::new(parts.len(), |i: int| parts[i]@)
}

/// Joins `parts` with `sep` between consecutive parts.
pub fn join_chars(parts: &Vec<Vec<char>>, sep: &[char]) -> (out: Vec<char>)
    ensures
        out@ == join(views(parts@), sep@),
{
    let mut out: Vec<char> = Vec::new();
    for i in 0..parts.len()
        invariant
            out@ == join(views(parts@).take(i as int), sep@),
    {
        let ghost before = out@;
        if i > 0 {
            append_chars(&mut out, sep);
        }
        append_chars(&mut out, &parts[i]);
        proof {
            let t = views(parts@).take(i + 1);
            assert(t.drop_last() =~= views(parts@).take(i as int));
            assert(t.last() == parts@[i as int]@);
            if i == 0 {
                assert(before =~= Seq::<char>::empty());
                assert(out@ =~= t[0]);
            }
        }
    }
    assert(views(parts@).take(parts@.len() as int) =~= views(parts@));
    out
}

/// The first `n` characters of `s` (`s.chars().take(n)`).
pub open spec fn take_chars(s: Seq<char>, n: nat) -> Seq<char> {
    if n < s.len() {
        s.take(n as int)
    } else {
        s
    }
}

/// Keeps at most `max` characters of `v`; reports whether any were dropped
/// (the character count exceeded `max`).
pub fn truncate_chars(v: &[char], max: usize) -> (r: (Vec<char>, bool))
    ensures
        r.0@ == take_chars(v@, max as nat),
        r.1 == (v@.len() > max),
{
    if v.len() > max {
        (copy_range(v, 0, max), true)
    } else {
        assert(v@.subrange(0, v@.len() as int) =~= v@);
        (copy_range(v, 0, v.len()), false)
    }
}

/// Joins lines `lo..hi` of `v`, given by their bounds, with `sep`.
pub fn join_line_range(v: &[char], b: &[(usize, usize)], lo: usize, hi: usize, sep: &[char]) -> (out: Vec<char>)
    requires
        lo <= hi <= b@.len(),
        bounds_ok(v@, b@),
    ensures
        out@ == join(bounds_lines(v@, b@).subrange(lo as int, hi as int), sep@),
{
    let mut parts: Vec<Vec<char>> = Vec::new();
    let mut i = lo;
    while i < hi
        invariant
            lo <= i <= hi <= b@.len(),
            bounds_ok(v@, b@),
            views(parts@) == bounds_lines(v@, b@).subrange(lo as int, i as int),
        decreases hi - i,
    {
        let (x, y) = b[i];
        assert(b@[i as int].0 <= b@[i as int].1 <= v@.len());
        let part = copy_range(v, x, y);
        let ghost prev = views(parts@);
        parts.push(part);
        assert(views(parts@) =~= prev.push(part@));
        assert(bounds_lines(v@, b@).subrange(lo as int, i + 1) =~= bounds_lines(v@, b@).subrange(
            lo as int,
            i as int,
        ).push(bounds_lines(v@, b@)[i as int]));
        i += 1;
    }
    join_chars(&parts, sep)
}

/// Unicode lowercase mapping of a string, as `str::to_lowercase` applies it.
pub uninterp spec fn unicode_lowercase(s: Seq<char>) -> Seq<char>;

/// `str::to_lowercase`: its result is the lowercase mapping of the argument,
/// a function of the argument alone.
#[verifier::external_body]
pub(crate) fn to_lowercase(s: &str) -> (r: String)
    ensures
        r@ == unicode_lowercase(s@),
{
    s.to_lowercase()
}

} // verus!
