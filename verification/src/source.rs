//! Published crate sources: path hygiene for requested files, extraction of
//! a declaration from a rustdoc span, windows of lines, and text search.

use vstd::prelude::*;
use crate::errors::Error;
use crate::glob::{glob_matches, glob_spec};
use crate::text::append_chars;
use crate::text::{
    line_len, bounds_lines, bounds_ok, chars_of, contains, contains_seq, copy_range, has_prefix, join,
    join_chars, join_line_range, line_bounds, lines, skip_ws_back, string_of, take_chars,
    to_lowercase, trim, trim_end, trimmed, truncate_chars, unicode_lowercase, views,
};

verus! {

/// `s[i..i + 2]` is a `..` path segment.
pub open spec fn dotdot_at(s: Seq<char>, i: int) -> bool {
    &&& 0 <= i && i + 2 <= s.len()
    &&& s[i] == '.' && s[i + 1] == '.'
    &&& (i == 0 || s[i - 1] == '/')
    &&& (i + 2 == s.len() || s[i + 2] == '/')
}

/// A relative path whose components (as `Path::components` splits them on
/// Unix) are all plain names: it does not start at the root, does not start
/// with a `.` component, and has no `..` component.
pub open spec fn is_plain_relative(s: Seq<char>) -> bool {
    &&& !(s.len() > 0 && s[0] == '/')
    &&& !(s == seq!['.'] || has_prefix(s, seq!['.', '/']))
    &&& forall|i: int| !dotdot_at(s, i)
}

/// Accepts a path relative to a crate root that cannot leave it; refuses
/// absolute paths and paths with `.`/`..` components.
pub fn safe_relative_path(path: &str) -> (r: Result<String, Error>)
    ensures
        r is Ok <==> is_plain_relative(path@),
        r matches Ok(p) ==> p@ == path@,
        r matches Err(e) ==> e matches Error::ResourceNotFound(m) && m@ == "source file "@ + path_debug_text(path@),
{
    let v = chars_of(path);
    let n = v.len();
    let mut ok = !(n > 0 && v[0] == '/');
    if n == 1 && v[0] == '.' {
        assert(v@ =~= seq!['.']);
        ok = false;
    }
    if n >= 2 && v[0] == '.' && v[1] == '/' {
        assert(v@.take(2) =~= seq!['.', '/']);
        ok = false;
    }
    if ok {
        proof {
            if v@ == seq!['.'] {
                assert(v@.len() == 1);
            }
            if has_prefix(v@, seq!['.', '/']) {
                assert(v@.take(2)[0] == '.');
                assert(v@.take(2)[1] == '/');
            }
        }
        let mut i: usize = 0;
        while i < n
            invariant
                n == v@.len(),
                v@ == path@,
                forall|j: int| 0 <= j < i ==> !dotdot_at(v@, j),
                !(v@.len() > 0 && v@[0] == '/'),
                !(v@ == seq!['.'] || has_prefix(v@, seq!['.', '/'])),
                ok,
            decreases n - i,
        {
            if n - i >= 2 && v[i] == '.' && v[i + 1] == '.' && (i == 0 || v[i - 1] == '/') && (i
                + 2 == n || v[i + 2] == '/') {
                assert(dotdot_at(v@, i as int));
                assert(!is_plain_relative(v@));
                return Err(resource_not_found_source(path));
            }
            i += 1;
        }
        assert forall|j: int| !dotdot_at(v@, j) by {
            if 0 <= j < n {
            }
        }
        Ok(string_of(&v))
    } else {
        Err(resource_not_found_source(path))
    }
}

/// The text `Debug` writes for the path: quoted, with quotes, backslashes
/// and characters that do not print escaped.
pub uninterp spec fn path_debug_text(s: Seq<char>) -> Seq<char>;

/// Formats `std::path::Path::new(s)` with `{:?}`; claims that the result is
/// `path_debug_text` of `s`, and nothing of how the escaping goes.
#[verifier::external_body]
fn path_debug(s: &str) -> (r: String)
    ensures
        r@ == path_debug_text(s@),
{
    format!("{:?}", std::path::Path::new(s))
}

/// The error for a refused source path, which names the path as `Debug`
/// writes it.
fn resource_not_found_source(path: &str) -> (e: Error)
    ensures
        e matches Error::ResourceNotFound(m) && m@ == "source file "@ + path_debug_text(path@),
{
    let mut m = String::from_str("source file ");
    let d = path_debug(path);
    m.append(d.as_str());
    Error::ResourceNotFound(m)
}

/// First column (0-based) taken from line `ln` of a span.
pub open spec fn span_start(bl: nat, bc: nat, ln: nat) -> int {
    if ln == bl {
        bc - 1
    } else {
        0
    }
}

/// Column (0-based) just after the last one taken from line `ln`, whose
/// length is `len`.
pub open spec fn span_finish(el: nat, ec: nat, ln: nat, len: nat) -> int {
    if ln == el {
        let e: int = if ec >= 1 {
            ec - 1
        } else {
            0
        };
        if e < len {
            e
        } else {
            len as int
        }
    } else {
        len as int
    }
}

/// The part of line `ln` (1-based) that a span covers.
pub open spec fn span_piece(ls: Seq<Seq<char>>, bl: nat, bc: nat, el: nat, ec: nat, ln: nat) -> Seq<
    char,
> {
    let line = ls[ln - 1];
    line.subrange(span_start(bl, bc, ln), span_finish(el, ec, ln, line.len()))
}

/// Line `ln` admits the span's columns.
pub open spec fn span_piece_ok(ls: Seq<Seq<char>>, bl: nat, bc: nat, el: nat, ec: nat, ln: nat) -> bool {
    let line = ls[ln - 1];
    span_start(bl, bc, ln) <= span_finish(el, ec, ln, line.len()) && span_start(bl, bc, ln)
        <= line.len()
}

/// The text a rustdoc span `(line, column)` to `(line, column)` covers, both
/// 1-based, end column exclusive; `None` where the span does not fit `s`.
pub open spec fn slice_span_spec(s: Seq<char>, bl: nat, bc: nat, el: nat, ec: nat) -> Option<
    Seq<char>,
> {
    let ls = lines(s);
    if bl == 0 || bc == 0 || el < bl || el > ls.len() {
        None
    } else if exists|ln: nat| bl <= ln <= el && !span_piece_ok(ls, bl, bc, el, ec, ln) {
        None
    } else {
        Some(
            join(
                Seq::new((el - bl + 1) as nat, |k: int| span_piece(ls, bl, bc, el, ec, (bl + k) as nat)),
                seq!['\n'],
            ),
        )
    }
}

/// Extracts the text between two span positions of `content`.
pub fn slice_span(content: &str, begin: (usize, usize), end: (usize, usize)) -> (r: Option<String>)
    ensures
        (r is Some) == (slice_span_spec(content@, begin.0 as nat, begin.1 as nat, end.0 as nat, end.1 as nat) is Some),
        r matches Some(t) ==> Some(t@) == slice_span_spec(
            content@,
            begin.0 as nat,
            begin.1 as nat,
            end.0 as nat,
            end.1 as nat,
        ),
{
    let v = chars_of(content);
    let b = line_bounds(&v);
    let ghost ls = lines(v@);
    let (bl, bc) = begin;
    let (el, ec) = end;
    assert(b@.len() == ls.len());
    assert(content@ == v@);
    if bl == 0 || bc == 0 || el < bl || el > b.len() {
        return None;
    }
    let mut pieces: Vec<Vec<char>> = Vec::new();
    let count = el - bl + 1;
    let mut k: usize = 0;
    while k < count
        invariant
            k <= count,
            content@ == v@,
            begin == (bl, bc),
            end == (el, ec),
            count == el - bl + 1,
            1 <= bl <= el <= b@.len(),
            bc >= 1,
            ls == lines(v@),
            bounds_ok(v@, b@),
            bounds_lines(v@, b@) == ls,
            pieces@.len() == k,
            forall|ln: nat|
                bl <= ln < bl + k ==> #[trigger] span_piece_ok(ls, bl as nat, bc as nat, el as nat, ec as nat, ln),
            views(pieces@) == Seq::new(
                k as nat,
                |j: int| span_piece(ls, bl as nat, bc as nat, el as nat, ec as nat, (bl + j) as nat),
            ),
        decreases count - k,
    {
        let ln = bl + k;
        let (lo, hi) = b[ln - 1];
        assert(ls[ln - 1] == v@.subrange(lo as int, hi as int));
        let piece = match line_piece(&v, lo, hi, bl, bc, el, ec, ln) {
            Some(p) => p,
            None => {
                assert(!span_piece_ok(ls, bl as nat, bc as nat, el as nat, ec as nat, ln as nat));
                assert(bl <= ln <= el);
                assert(exists|l: nat| bl <= l <= el && !span_piece_ok(ls, bl as nat, bc as nat, el as nat, ec as nat, l));
                assert(slice_span_spec(content@, bl as nat, bc as nat, el as nat, ec as nat) is None);
                return None;
            },
        };
        assert(span_piece_ok(ls, bl as nat, bc as nat, el as nat, ec as nat, ln as nat));
        assert(piece@ =~= span_piece(ls, bl as nat, bc as nat, el as nat, ec as nat, ln as nat));
        let ghost prev = views(pieces@);
        pieces.push(piece);
        assert(views(pieces@) =~= prev.push(piece@));
        k += 1;
    }
    let ghost want = Seq::new(
        (el - bl + 1) as nat,
        |k: int| span_piece(ls, bl as nat, bc as nat, el as nat, ec as nat, (bl + k) as nat),
    );
    assert(views(pieces@) =~= want);
    let sep = vec!['\n'];
    assert(sep@ =~= seq!['\n']);
    let joined = join_chars(&pieces, &sep);
    assert(!exists|l: nat| bl <= l <= el && !span_piece_ok(ls, bl as nat, bc as nat, el as nat, ec as nat, l));
    assert(slice_span_spec(content@, bl as nat, bc as nat, el as nat, ec as nat) == Some(join(want, seq!['\n'])));
    Some(string_of(&joined))
}

/// The columns of the line `v[lo..hi]` (line number `ln`) that a span covers.
fn line_piece(
    v: &[char],
    lo: usize,
    hi: usize,
    bl: usize,
    bc: usize,
    el: usize,
    ec: usize,
    ln: usize,
) -> (r: Option<Vec<char>>)
    requires
        lo <= hi <= v@.len(),
        bc >= 1,
    ensures
        (r is Some) == (span_start(bl as nat, bc as nat, ln as nat) <= span_finish(
            el as nat,
            ec as nat,
            ln as nat,
            (hi - lo) as nat,
        ) && span_start(bl as nat, bc as nat, ln as nat) <= hi - lo),
        r matches Some(p) ==> p@ == v@.subrange(lo as int, hi as int).subrange(
            span_start(bl as nat, bc as nat, ln as nat),
            span_finish(el as nat, ec as nat, ln as nat, (hi - lo) as nat),
        ),
{
    let len = hi - lo;
    let start = if ln == bl {
        bc - 1
    } else {
        0
    };
    let finish = if ln == el {
        let e = if ec >= 1 {
            ec - 1
        } else {
            0
        };
        if e < len {
            e
        } else {
            len
        }
    } else {
        len
    };
    if start > finish || start > len {
        return None;
    }
    let piece = copy_range(v, lo + start, lo + finish);
    assert(piece@ =~= v@.subrange(lo as int, hi as int).subrange(start as int, finish as int));
    Some(piece)
}

/// Bracket depths `(parens, brackets, angles)` after one more character;
/// closing brackets never go below zero.
pub open spec fn depth_step(d: (nat, nat, nat), c: char) -> (nat, nat, nat) {
    if c == '(' {
        (d.0 + 1, d.1, d.2)
    } else if c == ')' {
        ((if d.0 > 0 { d.0 - 1 } else { 0 }) as nat, d.1, d.2)
    } else if c == '[' {
        (d.0, d.1 + 1, d.2)
    } else if c == ']' {
        (d.0, (if d.1 > 0 { d.1 - 1 } else { 0 }) as nat, d.2)
    } else if c == '<' {
        (d.0, d.1, d.2 + 1)
    } else if c == '>' {
        (d.0, d.1, (if d.2 > 0 { d.2 - 1 } else { 0 }) as nat)
    } else {
        d
    }
}

/// Index of the first `{` from `i` on that stands outside every bracket,
/// given the depths `d` before `i`.
pub open spec fn body_brace(s: Seq<char>, i: nat, d: (nat, nat, nat)) -> Option<nat>
    decreases s.len() - i,
{
    if i >= s.len() {
        None
    } else if s[i as int] == '{' && d == (0nat, 0nat, 0nat) {
        Some(i)
    } else {
        body_brace(s, i + 1, depth_step(d, s[i as int]))
    }
}

/// The declaration part of an item's source: everything before the body's
/// opening brace, without trailing whitespace; the whole text, trimmed, when
/// there is no such brace.
pub open spec fn declaration_prefix_spec(s: Seq<char>) -> Seq<char> {
    match body_brace(s, 0, (0, 0, 0)) {
        Some(i) => trim_end(s.take(i as int)),
        None => trim(s),
    }
}

/// Cuts an item's source down to its declaration.
pub fn declaration_prefix(source: &str) -> (r: String)
    ensures
        r@ == declaration_prefix_spec(source@),
{
    let v = chars_of(source);
    let n = v.len();
    let mut parens: usize = 0;
    let mut brackets: usize = 0;
    let mut angles: usize = 0;
    let mut i: usize = 0;
    while i < n
        invariant
            n == v@.len(),
            v@ == source@,
            i <= n,
            parens <= i && brackets <= i && angles <= i,
            body_brace(v@, 0, (0, 0, 0)) == body_brace(
                v@,
                i as nat,
                (parens as nat, brackets as nat, angles as nat),
            ),
        decreases n - i,
    {
        let c = v[i];
        if c == '{' && parens == 0 && brackets == 0 && angles == 0 {
            assert((parens as nat, brackets as nat, angles as nat) == (0nat, 0nat, 0nat));
            assert(body_brace(v@, i as nat, (0, 0, 0)) == Some(i as nat));
            assert(body_brace(v@, 0, (0, 0, 0)) == Some(i as nat));
            let k = skip_ws_back(&v, 0, i);
            assert(v@.subrange(0, i as int) =~= v@.take(i as int));
            let out = copy_range(&v, 0, k);
            assert(source@ == v@);
            return string_of(&out);
        }
        if c == '(' {
            parens += 1;
        } else if c == ')' {
            if parens > 0 {
                parens -= 1;
            }
        } else if c == '[' {
            brackets += 1;
        } else if c == ']' {
            if brackets > 0 {
                brackets -= 1;
            }
        } else if c == '<' {
            angles += 1;
        } else if c == '>' {
            if angles > 0 {
                angles -= 1;
            }
        }
        i += 1;
    }
    let out = trimmed(&v);
    string_of(&out)
}

/// A window of a source file's lines, as returned to the reader.
pub struct SourceWindow {
    /// First line shown (1-based).
    pub start_line: usize,
    /// Last line shown (1-based, inclusive).
    pub end_line: usize,
    /// The lines shown, joined with `'\n'`, cut to the character budget.
    pub content: String,
    /// Whether the character budget cut the content.
    pub content_truncated: bool,
}

/// First line of a window: at least 1.
pub open spec fn window_start(start_line: nat) -> nat {
    if start_line < 1 {
        1
    } else {
        start_line
    }
}

/// Last line of a window over `n` lines: the requested end (by default 199
/// lines after the start), at most `n`, and at least the line before the
/// start.
pub open spec fn window_end(n: nat, start_line: nat, end_line: Option<usize>) -> nat {
    let start = window_start(start_line);
    let requested: nat = match end_line {
        Some(e) => e as nat,
        None => if start + 199 > usize::MAX {
            usize::MAX as nat
        } else {
            start + 199
        },
    };
    let capped = if requested < n {
        requested
    } else {
        n
    };
    if capped < start - 1 {
        (start - 1) as nat
    } else {
        capped
    }
}

/// The text a window shows before the character budget: its lines joined
/// with `'\n'`, or nothing when it starts past the end.
pub open spec fn window_text(c: Seq<char>, start_line: nat, end_line: Option<usize>) -> Seq<char> {
    let ls = lines(c);
    let start = window_start(start_line);
    if start > ls.len() {
        seq![]
    } else {
        join(ls.subrange(start - 1, window_end(ls.len(), start_line, end_line) as int), seq!['\n'])
    }
}

/// Selects lines `start_line..=end_line` (1-based) of a file's content, at
/// most `max_chars` characters of them.
pub fn source_window(content: &str, start_line: usize, end_line: Option<usize>, max_chars: usize) -> (w:
    SourceWindow)
    ensures
        w.start_line == window_start(start_line as nat),
        w.end_line == window_end(lines(content@).len(), start_line as nat, end_line),
        w.content@ == take_chars(window_text(content@, start_line as nat, end_line), max_chars as nat),
        w.content_truncated == (window_text(content@, start_line as nat, end_line).len() > max_chars),
{
    let v = chars_of(content);
    let b = line_bounds(&v);
    let n = b.len();
    assert(n == lines(v@).len());
    let start = if start_line < 1 {
        1
    } else {
        start_line
    };
    let requested = match end_line {
        Some(e) => e,
        None => start.saturating_add(199),
    };
    let capped = if requested < n {
        requested
    } else {
        n
    };
    let end = if capped < start - 1 {
        start - 1
    } else {
        capped
    };
    let sep = vec!['\n'];
    assert(sep@ =~= seq!['\n']);
    let selected = if start > n {
        Vec::new()
    } else {
        join_line_range(&v, &b, start - 1, end, &sep)
    };
    assert(selected@ == window_text(content@, start_line as nat, end_line));
    let (cut, truncated) = truncate_chars(&selected, max_chars);
    SourceWindow { start_line: start, end_line: end, content: string_of(&cut), content_truncated: truncated }
}

/// A line of a source file that matched a search.
pub struct SourceMatch {
    /// Path of the file relative to the crate root.
    pub path: String,
    /// Line number (1-based).
    pub line: usize,
    /// The matching line with up to `context_lines` lines around it.
    pub snippet: String,
}

/// Whether line `line` contains `query` once both are lowercased.
pub open spec fn line_hits(line: Seq<char>, query: Seq<char>) -> bool {
    contains_seq(unicode_lowercase(line), unicode_lowercase(query))
}

/// Indices of the lines among the first `n` that hit the query, in order.
pub open spec fn hit_lines(ls: Seq<Seq<char>>, query: Seq<char>, n: nat) -> Seq<int>
    decreases n,
{
    if n == 0 {
        seq![]
    } else {
        let prev = hit_lines(ls, query, (n - 1) as nat);
        if line_hits(ls[n - 1], query) {
            prev.push(n - 1)
        } else {
            prev
        }
    }
}

/// Line `i` with `c` lines of context on either side, joined with `'\n'`.
pub open spec fn snippet_of(ls: Seq<Seq<char>>, i: int, c: nat) -> Seq<char> {
    let start = if i >= c {
        i - c
    } else {
        0
    };
    let end = if i + c + 1 < ls.len() {
        i + c + 1
    } else {
        ls.len() as int
    };
    join(ls.subrange(start, end), seq!['\n'])
}

/// Indices of the lines of `content` that hit the query, in order.
pub open spec fn file_hits(content: Seq<char>, query: Seq<char>) -> Seq<int> {
    hit_lines(lines(content), query, lines(content).len())
}

/// Whether a search that already holds `prior` matches stops in a file
/// with `hits` hitting lines: it stops when its count reaches `limit`.
pub open spec fn search_stops(prior: nat, limit: nat, hits: nat) -> bool {
    prior < limit && prior + hits >= limit
}

/// How many of a file's `hits` a search that already holds `prior` matches
/// takes.
pub open spec fn search_takes(prior: nat, limit: nat, hits: nat) -> nat {
    if search_stops(prior, limit, hits) {
        (limit - prior) as nat
    } else {
        hits
    }
}

/// Searches one file's lines for `query` (case-insensitively), appending a
/// match per hitting line to `matches`; returns `true` once `matches` holds
/// `limit` entries, which ends the search.
pub fn search_file(
    matches: &mut Vec<SourceMatch>,
    path: &str,
    content: &str,
    query: &str,
    context_lines: usize,
    limit: usize,
) -> (done: bool)
    requires
        content@.len() + context_lines + 1 <= usize::MAX,
    ensures
        done == search_stops(old(matches)@.len(), limit as nat, file_hits(content@, query@).len()),
        final(matches)@.len() == old(matches)@.len() + search_takes(
            old(matches)@.len(),
            limit as nat,
            file_hits(content@, query@).len(),
        ),
        forall|j: int| 0 <= j < old(matches)@.len() ==> final(matches)@[j] == old(matches)@[j],
        forall|j: int|
            0 <= j < search_takes(old(matches)@.len(), limit as nat, file_hits(content@, query@).len())
                ==> {
                let m = #[trigger] final(matches)@[old(matches)@.len() + j];
                &&& m.path@ == path@
                &&& m.line == file_hits(content@, query@)[j] + 1
                &&& m.snippet@ == snippet_of(
                    lines(content@),
                    file_hits(content@, query@)[j],
                    context_lines as nat,
                )
            },
{
    let ghost prior = matches@.len();
    let ghost start = matches@;
    let v = chars_of(content);
    let b = line_bounds(&v);
    let ghost ls = lines(v@);
    let q = to_lowercase(query);
    let qv = chars_of(q.as_str());
    let n = b.len();
    let sep = vec!['\n'];
    assert(sep@ =~= seq!['\n']);
    proof {
        lemma_lines_len(v@);
    }
    let mut index: usize = 0;
    while index < n
        invariant
            prior == old(matches)@.len(),
            start == old(matches)@,
            n == b@.len(),
            n <= v@.len(),
            v@ == content@,
            ls == lines(v@),
            bounds_ok(v@, b@),
            bounds_lines(v@, b@) == ls,
            qv@ == unicode_lowercase(query@),
            sep@ == seq!['\n'],
            content@.len() + context_lines + 1 <= usize::MAX,
            index <= n,
            matches@.len() == prior + hit_lines(ls, query@, index as nat).len(),
            !search_stops(prior, limit as nat, hit_lines(ls, query@, index as nat).len()),
            forall|j: int| 0 <= j < prior ==> matches@[j] == start[j],
            forall|j: int|
                0 <= j < hit_lines(ls, query@, index as nat).len() ==> {
                    let m = #[trigger] matches@[prior + j];
                    &&& m.path@ == path@
                    &&& m.line == hit_lines(ls, query@, index as nat)[j] + 1
                    &&& m.snippet@ == snippet_of(
                        ls,
                        hit_lines(ls, query@, index as nat)[j],
                        context_lines as nat,
                    )
                },
        decreases n - index,
    {
        let (lo, hi) = b[index];
        assert(b@[index as int].0 <= b@[index as int].1 <= v@.len());
        let line = copy_range(&v, lo, hi);
        assert(line@ == ls[index as int]);
        let line_text = string_of(&line);
        let lowered = to_lowercase(line_text.as_str());
        let lowered_v = chars_of(lowered.as_str());
        let ghost prev_hits = hit_lines(ls, query@, index as nat);
        if contains(&lowered_v, &qv) {
            let start_l = index.saturating_sub(context_lines);
            let end_l = if index + context_lines + 1 < n {
                index + context_lines + 1
            } else {
                n
            };
            let snippet = join_line_range(&v, &b, start_l, end_l, &sep);
            let path_s = String::from_str(path);
            let ghost before = matches@;
            matches.push(SourceMatch { path: path_s, line: index + 1, snippet: string_of(&snippet) });
            assert(hit_lines(ls, query@, (index + 1) as nat) == prev_hits.push(index as int));
            assert forall|j: int|
                0 <= j < hit_lines(ls, query@, (index + 1) as nat).len() implies {
                    let m = #[trigger] matches@[prior + j];
                    &&& m.path@ == path@
                    &&& m.line == hit_lines(ls, query@, (index + 1) as nat)[j] + 1
                    &&& m.snippet@ == snippet_of(
                        ls,
                        hit_lines(ls, query@, (index + 1) as nat)[j],
                        context_lines as nat,
                    )
                } by {
                if j < prev_hits.len() {
                    assert(matches@[prior + j] == before[prior + j]);
                }
            }
            if matches.len() == limit {
                proof {
                    lemma_hit_lines_grow(ls, query@, (index + 1) as nat, ls.len());
                    let h1 = hit_lines(ls, query@, (index + 1) as nat);
                    let total = hit_lines(ls, query@, ls.len());
                    assert forall|j: int| 0 <= j < h1.len() implies total[j] == h1[j] by {
                        assert(total.take(h1.len() as int)[j] == total[j]);
                    }
                }
                return true;
            }
        } else {
            assert(hit_lines(ls, query@, (index + 1) as nat) == prev_hits);
        }
        index += 1;
    }
    assert(index == ls.len());
    false
}

/// The hits among more lines extend the hits among fewer.
pub proof fn lemma_hit_lines_grow(ls: Seq<Seq<char>>, query: Seq<char>, m: nat, n: nat)
    requires
        m <= n <= ls.len(),
    ensures
        hit_lines(ls, query, m).len() <= hit_lines(ls, query, n).len(),
        hit_lines(ls, query, n).take(hit_lines(ls, query, m).len() as int) == hit_lines(ls, query, m),
    decreases n - m,
{
    if m < n {
        lemma_hit_lines_grow(ls, query, m, (n - 1) as nat);
        let a = hit_lines(ls, query, m);
        let b = hit_lines(ls, query, (n - 1) as nat);
        if line_hits(ls[n - 1], query) {
            assert(b.push(n - 1).take(a.len() as int) =~= b.take(a.len() as int));
        }
    } else {
        assert(hit_lines(ls, query, n).take(hit_lines(ls, query, n).len() as int) =~= hit_lines(ls, query, n));
    }
}

/// There are no more lines than characters.
pub proof fn lemma_lines_len(s: Seq<char>)
    ensures
        lines(s).len() <= s.len(),
    decreases s.len(),
{
    if s.len() > 0 {
        let k = line_len(s);
        crate::text::lemma_line_len(s);
        if k < s.len() {
            lemma_lines_len(s.skip(k as int + 1));
        }
    }
}

/// The path of a crate's source archive on crates.io.
pub open spec fn crate_url_spec(krate: Seq<char>, version: Seq<char>) -> Seq<char> {
    "/crates/"@ + krate + "/"@ + krate + "-"@ + version + ".crate"@
}

/// The path of a crate's source archive on crates.io.
pub fn build_download_url(krate: &str, version: &str) -> (r: String)
    ensures
        r@ == crate_url_spec(krate@, version@),
{
    let k = chars_of(krate);
    let mut v = chars_of("/crates/");
    append_chars(&mut v, &k);
    append_chars(&mut v, &chars_of("/"));
    append_chars(&mut v, &k);
    append_chars(&mut v, &chars_of("-"));
    append_chars(&mut v, &chars_of(version));
    append_chars(&mut v, &chars_of(".crate"));
    let r = string_of(&v);
    assert(r@ =~= crate_url_spec(krate@, version@));
    r
}

/// The line a source file is read from unless told otherwise.
pub fn default_start_line() -> (r: usize)
    ensures
        r == 1,
{
    1
}

/// How many characters of a source file are read unless told otherwise.
pub fn default_max_chars() -> (r: usize)
    ensures
        r == 30000,
{
    30000
}

/// How many matches a source search returns unless told otherwise.
pub fn default_limit() -> (r: usize)
    ensures
        r == 20,
{
    20
}

/// How many lines around a match a source search shows unless told otherwise.
pub fn default_context_lines() -> (r: usize)
    ensures
        r == 2,
{
    2
}

/// The files a source search looks in unless told otherwise.
pub fn default_glob() -> (r: String)
    ensures
        r@ == "**/*.rs"@,
{
    String::from_str("**/*.rs")
}

/// The declaration of the item a span of `content` covers: the span's text
/// up to its body; `None` when the span lies outside the file.
pub fn source_signature(content: &str, begin: (usize, usize), end: (usize, usize)) -> (r: Option<String>)
    ensures
        (r is Some) == (slice_span_spec(content@, begin.0 as nat, begin.1 as nat, end.0 as nat, end.1 as nat) is Some),
        r matches Some(t) ==> t@ == declaration_prefix_spec(
            slice_span_spec(content@, begin.0 as nat, begin.1 as nat, end.0 as nat, end.1 as nat)->0,
        ),
{
    match slice_span(content, begin, end) {
        Some(source) => Some(declaration_prefix(source.as_str())),
        None => None,
    }
}

/// A match as plain values: path, line number, snippet.
pub open spec fn source_match_view(m: SourceMatch) -> (Seq<char>, int, Seq<char>) {
    (m.path@, m.line as int, m.snippet@)
}

/// The views of a list of matches.
pub open spec fn source_match_views(ms: Seq<SourceMatch>) -> Seq<(Seq<char>, int, Seq<char>)> {
    Seq::new(ms.len(), |i: int| source_match_view(ms[i]))
}

/// Source files as plain values: relative path and content.
pub open spec fn file_views(files: Seq<(String, String)>) -> Seq<(Seq<char>, Seq<char>)> {
    Seq::new(files.len(), |i: int| (files[i].0@, files[i].1@))
}

/// The matches of one file, one per hitting line, in line order.
pub open spec fn file_matches(path: Seq<char>, content: Seq<char>, query: Seq<char>, context_lines: nat) -> Seq<
    (Seq<char>, int, Seq<char>),
> {
    let hits = file_hits(content, query);
    Seq::new(hits.len(), |j: int| (path, hits[j] + 1, snippet_of(lines(content), hits[j], context_lines)))
}

/// The matches of the first `n` files whose path passes the glob, file
/// after file.
pub open spec fn passing_matches(
    files: Seq<(Seq<char>, Seq<char>)>,
    glob: Seq<char>,
    query: Seq<char>,
    context_lines: nat,
    n: nat,
) -> Seq<(Seq<char>, int, Seq<char>)>
    decreases n,
{
    if n == 0 {
        seq![]
    } else {
        let prev = passing_matches(files, glob, query, context_lines, (n - 1) as nat);
        let f = files[n - 1];
        if glob_spec(glob, f.0) {
            prev + file_matches(f.0, f.1, query, context_lines)
        } else {
            prev
        }
    }
}

/// The first `limit` of `s`, or all of `s` when `limit` is zero.
pub open spec fn capped<T>(s: Seq<T>, limit: nat) -> Seq<T> {
    if limit > 0 && s.len() > limit {
        s.take(limit as int)
    } else {
        s
    }
}

proof fn lemma_passing_prefix(
    files: Seq<(Seq<char>, Seq<char>)>,
    glob: Seq<char>,
    query: Seq<char>,
    context_lines: nat,
    i: nat,
    n: nat,
)
    requires
        i <= n,
    ensures
        passing_matches(files, glob, query, context_lines, i).len() <= passing_matches(
            files,
            glob,
            query,
            context_lines,
            n,
        ).len(),
        passing_matches(files, glob, query, context_lines, n).take(
            passing_matches(files, glob, query, context_lines, i).len() as int,
        ) == passing_matches(files, glob, query, context_lines, i),
    decreases n - i,
{
    let pi = passing_matches(files, glob, query, context_lines, i);
    if i < n {
        lemma_passing_prefix(files, glob, query, context_lines, i + 1, n);
        let pi1 = passing_matches(files, glob, query, context_lines, i + 1);
        let pn = passing_matches(files, glob, query, context_lines, n);
        assert(pi1.take(pi.len() as int) =~= pi);
        assert(pn.take(pi.len() as int) =~= pn.take(pi1.len() as int).take(pi.len() as int));
    } else {
        assert(pi.take(pi.len() as int) =~= pi);
    }
}

/// Searches source files for `query` (case-insensitively): the files whose
/// path passes `glob`, in the order given, each line by line, stopping once
/// `limit` matches are found (a `limit` of zero means no limit).
pub fn search_source(
    files: &Vec<(String, String)>,
    glob: &str,
    query: &str,
    context_lines: usize,
    limit: usize,
) -> (out: Vec<SourceMatch>)
    requires
        forall|i: int| 0 <= i < files@.len() ==> #[trigger] files@[i].1@.len() + context_lines + 1 <= usize::MAX,
    ensures
        source_match_views(out@) == capped(
            passing_matches(file_views(files@), glob@, query@, context_lines as nat, files@.len()),
            limit as nat,
        ),
{
    let ghost fv = file_views(files@);
    let ghost c = context_lines as nat;
    let mut out: Vec<SourceMatch> = Vec::new();
    let mut i: usize = 0;
    assert(source_match_views(out@) =~= capped(passing_matches(fv, glob@, query@, c, 0), limit as nat));
    while i < files.len() && (limit == 0 || out.len() < limit)
        invariant
            fv == file_views(files@),
            c == context_lines as nat,
            i <= files@.len(),
            forall|k: int| 0 <= k < files@.len() ==> #[trigger] files@[k].1@.len() + context_lines + 1 <= usize::MAX,
            source_match_views(out@) == capped(passing_matches(fv, glob@, query@, c, i as nat), limit as nat),
        decreases files@.len() - i,
    {
        let ghost p = passing_matches(fv, glob@, query@, c, i as nat);
        proof {
            if limit > 0 && p.len() > limit {
                assert(source_match_views(out@).len() == limit);
            }
            assert(capped(p, limit as nat) == p);
        }
        let path = files[i].0.as_str();
        let content = files[i].1.as_str();
        assert(fv[i as int] == (path@, content@));
        if glob_matches(glob, path) {
            let ghost before = out@;
            let _ = search_file(&mut out, path, content, query, context_lines, limit);
            proof {
                let f = file_matches(path@, content@, query@, c);
                let hits = file_hits(content@, query@);
                let prior = before.len();
                let takes = search_takes(prior, limit as nat, hits.len());
                let next = passing_matches(fv, glob@, query@, c, (i + 1) as nat);
                assert(next == p + f);
                assert(source_match_views(out@) =~= p + f.take(takes as int)) by {
                    assert forall|j: int| 0 <= j < out@.len() implies source_match_views(out@)[j] == (p
                        + f.take(takes as int))[j] by {
                        if j < prior {
                            assert(out@[j] == before[j]);
                            assert(source_match_views(before)[j] == p[j]);
                        } else {
                            let k = j - prior;
                            assert(out@[prior + k] == out@[j]);
                        }
                    }
                }
                if limit > 0 && (p + f).len() > limit {
                    assert(capped(next, limit as nat) =~= p + f.take(takes as int));
                } else {
                    assert(f.take(takes as int) =~= f);
                    assert(capped(next, limit as nat) =~= p + f.take(takes as int));
                }
            }
        } else {
            assert(passing_matches(fv, glob@, query@, c, (i + 1) as nat) == p);
        }
        i += 1;
    }
    proof {
        let n = files@.len();
        let pi = passing_matches(fv, glob@, query@, c, i as nat);
        let pn = passing_matches(fv, glob@, query@, c, n);
        if i < n {
            lemma_passing_prefix(fv, glob@, query@, c, i as nat, n);
            assert(limit > 0 && out@.len() >= limit);
            assert(pi.len() >= limit);
            assert(capped(pn, limit as nat) =~= capped(pi, limit as nat));
        }
    }
    out
}

/// A path with every backslash turned into `/`.
pub open spec fn forward_slashes(p: Seq<char>) -> Seq<char> {
    Seq::new(p.len(), |i: int| if p[i] == '\\' { '/' } else { p[i] })
}

/// `path` with every backslash turned into `/`.
pub fn to_forward_slashes(path: &str) -> (r: String)
    ensures
        r@ == forward_slashes(path@),
{
    let v = chars_of(path);
    let mut out: Vec<char> = Vec::new();
    for i in 0..v.len()
        invariant
            v@ == path@,
            out@ == forward_slashes(path@).take(i as int),
    {
        let ch = if v[i] == '\\' {
            '/'
        } else {
            v[i]
        };
        out.push(ch);
        assert(out@ =~= forward_slashes(path@).take(i + 1));
    }
    assert(out@ =~= forward_slashes(path@));
    string_of(&out)
}

/// Lines of one source file, as a source read returns them.
pub struct SourceFile {
    /// The requested path, with `/` as separator.
    pub path: String,
    /// The selected lines, as `source_window` selects them.
    pub window: SourceWindow,
}

/// Reads lines `start_line..=end_line` of the file at `path` with content
/// `content`, at most `max_chars` characters of them; the path comes back
/// with `/` as separator.
pub fn read_source_file(path: &str, content: &str, start_line: usize, end_line: Option<usize>, max_chars: usize) -> (f:
    SourceFile)
    ensures
        f.path@ == forward_slashes(path@),
        f.window.start_line == window_start(start_line as nat),
        f.window.end_line == window_end(lines(content@).len(), start_line as nat, end_line),
        f.window.content@ == take_chars(window_text(content@, start_line as nat, end_line), max_chars as nat),
        f.window.content_truncated == (window_text(content@, start_line as nat, end_line).len() > max_chars),
{
    SourceFile { path: to_forward_slashes(path), window: source_window(content, start_line, end_line, max_chars) }
}

/// Asked for lines `start..=end` that the file has, a window ends at `end`
/// and shows exactly those lines, joined with `'\n'`.
pub proof fn law_window_honours_end_line(content: Seq<char>, start: usize, end: usize)
    requires
        1 <= start <= end <= lines(content).len(),
    ensures
        window_start(start as nat) == start,
        window_end(lines(content).len(), start as nat, Some(end)) == end,
        window_text(content, start as nat, Some(end)) == join(
            lines(content).subrange(start - 1, end as int),
            seq!['\n'],
        ),
{
}

/// Without an end, a window starting at a line the file has shows 200
/// lines, or up to the last line when fewer remain.
pub proof fn law_window_default_length(content: Seq<char>, start: usize)
    requires
        1 <= start <= lines(content).len(),
        start + 199 <= usize::MAX,
    ensures
        window_end(lines(content).len(), start as nat, None) == if start + 199 < lines(content).len() {
            start + 199
        } else {
            lines(content).len() as int
        },
{
}

proof fn lemma_hit_lines_hit(ls: Seq<Seq<char>>, query: Seq<char>, n: nat)
    requires
        n <= ls.len(),
    ensures
        forall|k: int|
            0 <= k < hit_lines(ls, query, n).len() ==> 0 <= #[trigger] hit_lines(ls, query, n)[k] < n && line_hits(
                ls[hit_lines(ls, query, n)[k]],
                query,
            ),
    decreases n,
{
    if n > 0 {
        lemma_hit_lines_hit(ls, query, (n - 1) as nat);
        let prev = hit_lines(ls, query, (n - 1) as nat);
        let cur = hit_lines(ls, query, n);
        assert forall|k: int| 0 <= k < cur.len() implies 0 <= #[trigger] cur[k] < n && line_hits(ls[cur[k]], query) by {
            if k < prev.len() {
                assert(cur[k] == prev[k]);
            }
        }
    }
}

/// The match lies in file `f`: the file's path passes the glob, and the
/// match's line (counted from 1) is a line of the file whose lowercased text
/// contains the lowercased query.
pub open spec fn hit_in_file(
    files: Seq<(Seq<char>, Seq<char>)>,
    glob: Seq<char>,
    query: Seq<char>,
    m: (Seq<char>, int, Seq<char>),
    f: int,
) -> bool {
    &&& 0 <= f < files.len()
    &&& m.0 == files[f].0
    &&& glob_spec(glob, files[f].0)
    &&& 1 <= m.1 <= lines(files[f].1).len()
    &&& contains_seq(unicode_lowercase(lines(files[f].1)[m.1 - 1]), unicode_lowercase(query))
}

/// The match lies in one of the files, as `hit_in_file` says.
pub open spec fn hit_in_some_file(
    files: Seq<(Seq<char>, Seq<char>)>,
    glob: Seq<char>,
    query: Seq<char>,
    m: (Seq<char>, int, Seq<char>),
) -> bool {
    exists|f: int| #[trigger] hit_in_file(files, glob, query, m, f)
}

proof fn lemma_hit_witness(
    files: Seq<(Seq<char>, Seq<char>)>,
    glob: Seq<char>,
    query: Seq<char>,
    context_lines: nat,
    n: nat,
    i: int,
) -> (f: int)
    requires
        n <= files.len(),
        0 <= i < passing_matches(files, glob, query, context_lines, n).len(),
    ensures
        hit_in_file(files, glob, query, passing_matches(files, glob, query, context_lines, n)[i], f),
    decreases n,
{
    let prev = passing_matches(files, glob, query, context_lines, (n - 1) as nat);
    let cur = passing_matches(files, glob, query, context_lines, n);
    let fl = files[n - 1];
    if i < prev.len() {
        assert(cur[i] == prev[i]);
        lemma_hit_witness(files, glob, query, context_lines, (n - 1) as nat, i)
    } else {
        let fm = file_matches(fl.0, fl.1, query, context_lines);
        let k = i - prev.len();
        assert(cur == prev + fm);
        assert(cur[i] == fm[k]);
        let ls = lines(fl.1);
        lemma_hit_lines_hit(ls, query, ls.len());
        let h = file_hits(fl.1, query)[k];
        assert(0 <= h < ls.len() && line_hits(ls[h], query));
        assert(fm[k] == (fl.0, h + 1, snippet_of(ls, h, context_lines)));
        n - 1
    }
}

/// Every match a source search returns lies in a file whose path passes
/// the glob, on a line of that file (counted from 1) whose lowercased text
/// contains the lowercased query; a limit above zero bounds the matches.
pub proof fn law_source_matches_are_hits(
    files: Seq<(Seq<char>, Seq<char>)>,
    glob: Seq<char>,
    query: Seq<char>,
    context_lines: nat,
    limit: nat,
    out: Seq<(Seq<char>, int, Seq<char>)>,
)
    requires
        out == capped(passing_matches(files, glob, query, context_lines, files.len()), limit),
    ensures
        limit > 0 ==> out.len() <= limit,
        forall|i: int| 0 <= i < out.len() ==> hit_in_some_file(files, glob, query, #[trigger] out[i]),
{
    let all = passing_matches(files, glob, query, context_lines, files.len());
    assert forall|i: int| 0 <= i < out.len() implies hit_in_some_file(files, glob, query, #[trigger] out[i]) by {
        assert(out.len() <= all.len());
        assert(out[i] == all[i]);
        let f = lemma_hit_witness(files, glob, query, context_lines, files.len(), i);
        assert(hit_in_file(files, glob, query, out[i], f));
    }
}

/// Which source paths are refused: a path from the root, and a path with a
/// `..` component (`../x`, `a/../b`, `a/..`), are refused; a path that
/// does not start with `/` and has no `.` at all is accepted.
pub proof fn law_source_path_safety(dir: Seq<char>, rest: Seq<char>)
    ensures
        !is_plain_relative(seq!['/'] + rest),
        !is_plain_relative(seq!['.', '.'] + rest) <== (rest.len() == 0 || rest[0] == '/'),
        !is_plain_relative(dir + seq!['/', '.', '.'] + rest) <== (rest.len() == 0 || rest[0] == '/'),
        (forall|i: int| 0 <= i < rest.len() ==> rest[i] != '.') && !(rest.len() > 0 && rest[0] == '/')
            ==> is_plain_relative(rest),
{
    let a = seq!['/'] + rest;
    assert(a[0] == '/');
    if rest.len() == 0 || rest[0] == '/' {
        let b = seq!['.', '.'] + rest;
        assert(dotdot_at(b, 0));
        let c = dir + seq!['/', '.', '.'] + rest;
        assert(c[dir.len() as int] == '/');
        assert(c[dir.len() as int + 1] == '.');
        assert(c[dir.len() as int + 2] == '.');
        if rest.len() > 0 {
            assert(c[dir.len() as int + 3] == rest[0]);
        }
        assert(dotdot_at(c, dir.len() as int + 1));
    }
    if (forall|i: int| 0 <= i < rest.len() ==> rest[i] != '.') && !(rest.len() > 0 && rest[0] == '/') {
        if rest == seq!['.'] {
            assert(rest[0] == '.');
        }
        if has_prefix(rest, seq!['.', '/']) {
            assert(rest.take(2)[0] == rest[0]);
        }
        assert forall|i: int| !dotdot_at(rest, i) by {
            if 0 <= i < rest.len() {
                assert(rest[i] != '.');
            }
        }
    }
}

} // verus!
