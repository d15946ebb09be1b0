//! Markdown and doc-comment text: README headings and sections, and the
//! one-paragraph summary of a doc comment.

use vstd::prelude::*;
use crate::errors::Error;
use crate::text::{bounds_lines, bounds_ok, chars_of, copy_range, eq_ignore_ascii_case_at, eq_ignore_ascii_case_spec, join, join_line_range, line_bounds, lines, skip_ws, string_of, take_chars, trim, trim_bounds, trim_start, trimmed, truncate_chars};

verus! {

/// Number of `'#'` characters that start `s`.
pub open spec fn leading_hashes(s: Seq<char>) -> nat
    decreases s.len(),
{
    if s.len() > 0 && s[0] == '#' {
        1 + leading_hashes(s.drop_first())
    } else {
        0
    }
}

/// Heading level of a line: the `'#'`s after its indentation.
pub open spec fn heading_level(line: Seq<char>) -> nat {
    leading_hashes(trim_start(line))
}

/// Heading text of a line: what follows its `'#'`s, trimmed.
pub open spec fn heading_text(line: Seq<char>) -> Seq<char> {
    trim(trim_start(line).skip(heading_level(line) as int))
}

/// The heading a line holds, if it is a heading with a non-empty title.
pub open spec fn heading_of(line: Seq<char>) -> Option<Seq<char>> {
    if heading_level(line) > 0 && heading_text(line).len() > 0 {
        Some(heading_text(line))
    } else {
        None
    }
}

/// The headings among the first `n` lines, in order.
pub open spec fn headings_in(ls: Seq<Seq<char>>, n: nat) -> Seq<Seq<char>>
    decreases n,
{
    if n == 0 {
        seq![]
    } else {
        let prev = headings_in(ls, (n - 1) as nat);
        match heading_of(ls[n - 1]) {
            Some(h) => prev.push(h),
            None => prev,
        }
    }
}

proof fn lemma_leading_hashes(s: Seq<char>)
    ensures
        leading_hashes(s) <= s.len(),
        forall|j: int| 0 <= j < leading_hashes(s) ==> s[j] == '#',
        leading_hashes(s) < s.len() ==> s[leading_hashes(s) as int] != '#',
    decreases s.len(),
{
    if s.len() > 0 && s[0] == '#' {
        lemma_leading_hashes(s.drop_first());
        assert forall|j: int| 0 <= j < leading_hashes(s) implies s[j] == '#' by {
            if j > 0 {
                assert(s[j] == s.drop_first()[j - 1]);
            }
        }
    }
}

proof fn lemma_leading_hashes_is(s: Seq<char>, k: int)
    requires
        0 <= k <= s.len(),
        forall|j: int| 0 <= j < k ==> s[j] == '#',
        k < s.len() ==> s[k] != '#',
    ensures
        leading_hashes(s) == k,
    decreases k,
{
    if k > 0 {
        assert forall|j: int| 0 <= j < k - 1 implies s.drop_first()[j] == '#' by {
            assert(s.drop_first()[j] == s[j + 1]);
        }
        if k < s.len() {
            assert(s.drop_first()[k - 1] == s[k]);
        }
        lemma_leading_hashes_is(s.drop_first(), k - 1);
    }
}

/// Level and title bounds of the line `v[lo..hi]`: `(level, title_lo,
/// title_hi)`.
fn heading_parts(v: &[char], lo: usize, hi: usize) -> (r: (usize, usize, usize))
    requires
        lo <= hi <= v@.len(),
    ensures
        r.0 == heading_level(v@.subrange(lo as int, hi as int)),
        r.1 <= r.2 <= hi,
        v@.subrange(r.1 as int, r.2 as int) == heading_text(v@.subrange(lo as int, hi as int)),
{
    let ghost line = v@.subrange(lo as int, hi as int);
    let a = skip_ws(v, lo, hi);
    let mut k = a;
    while k < hi && v[k] == '#'
        invariant
            lo <= a <= k <= hi <= v@.len(),
            forall|j: int| a <= j < k ==> v@[j] == '#',
        decreases hi - k,
    {
        k += 1;
    }
    let ghost t = v@.subrange(a as int, hi as int);
    proof {
        assert(trim_start(line) == t);
        assert forall|j: int| 0 <= j < k - a implies t[j] == '#' by {
            assert(t[j] == v@[a + j]);
        }
        if k < hi {
            assert(t[k - a] == v@[k as int]);
        }
        lemma_leading_hashes_is(t, k - a);
        assert(t.skip(k - a) =~= v@.subrange(k as int, hi as int));
    }
    let (x, y) = trim_bounds(v, k, hi);
    (k - a, x, y)
}

/// The titles of a Markdown text's headings, in order.
pub fn markdown_headings(content: &str) -> (out: Vec<String>)
    ensures
        out@.len() == headings_in(lines(content@), lines(content@).len()).len(),
        forall|i: int|
            0 <= i < out@.len() ==> #[trigger] out@[i]@ == headings_in(
                lines(content@),
                lines(content@).len(),
            )[i],
{
    let v = chars_of(content);
    let b = line_bounds(&v);
    let ghost ls = lines(v@);
    let mut out: Vec<String> = Vec::new();
    for i in 0..b.len()
        invariant
            ls == lines(v@),
            v@ == content@,
            bounds_ok(v@, b@),
            bounds_lines(v@, b@) == ls,
            out@.len() == headings_in(ls, i as nat).len(),
            forall|j: int| 0 <= j < out@.len() ==> #[trigger] out@[j]@ == headings_in(ls, i as nat)[j],
    {
        let (lo, hi) = b[i];
        assert(b@[i as int].0 <= b@[i as int].1 <= v@.len());
        assert(ls[i as int] == v@.subrange(lo as int, hi as int));
        let (level, x, y) = heading_parts(&v, lo, hi);
        if level > 0 && x < y {
            let ghost before = out@;
            out.push(string_of(&copy_range(&v, x, y)));
            assert forall|j: int| 0 <= j < out@.len() implies #[trigger] out@[j]@ == headings_in(
                ls,
                (i + 1) as nat,
            )[j] by {
                if j < before.len() {
                    assert(out@[j] == before[j]);
                }
            }
        }
    }
    out
}

/// Whether a line is a heading whose title matches `req` ignoring ASCII
/// case.
pub open spec fn is_heading_for(line: Seq<char>, req: Seq<char>) -> bool {
    heading_level(line) > 0 && eq_ignore_ascii_case_spec(heading_text(line), req)
}

/// Index of the first line at or after `i` that is a heading for `req`.
pub open spec fn first_heading_for(ls: Seq<Seq<char>>, req: Seq<char>, i: nat) -> nat
    decreases ls.len() - i,
{
    if i >= ls.len() {
        ls.len()
    } else if is_heading_for(ls[i as int], req) {
        i
    } else {
        first_heading_for(ls, req, i + 1)
    }
}

/// Index of the first line at or after `j` that is a heading of level at
/// most `level` (which ends a section of that level).
pub open spec fn section_end(ls: Seq<Seq<char>>, level: nat, j: nat) -> nat
    decreases ls.len() - j,
{
    if j >= ls.len() {
        ls.len()
    } else if heading_level(ls[j as int]) > 0 && heading_level(ls[j as int]) <= level {
        j
    } else {
        section_end(ls, level, j + 1)
    }
}

/// The section of a Markdown text under the first heading titled `req`
/// (ignoring ASCII case): that heading line and the lines after it up to the
/// next heading of the same or a higher level, joined with `'\n'`.
pub open spec fn markdown_section_spec(content: Seq<char>, req: Seq<char>) -> Option<Seq<char>> {
    let ls = lines(content);
    let h = first_heading_for(ls, req, 0);
    if h >= ls.len() {
        None
    } else {
        let e = section_end(ls, heading_level(ls[h as int]), h + 1);
        Some(join(ls.subrange(h as int, e as int), seq!['\n']))
    }
}

proof fn lemma_first_heading_for(ls: Seq<Seq<char>>, req: Seq<char>, i: nat, j: nat)
    requires
        i <= j <= ls.len(),
        forall|t: int| i <= t < j ==> !is_heading_for(#[trigger] ls[t], req),
    ensures
        first_heading_for(ls, req, i) == first_heading_for(ls, req, j),
    decreases j - i,
{
    if i < j {
        lemma_first_heading_for(ls, req, i + 1, j);
    }
}

proof fn lemma_section_end(ls: Seq<Seq<char>>, level: nat, i: nat, j: nat)
    requires
        i <= j <= ls.len(),
        forall|t: int|
            i <= t < j ==> !(heading_level(#[trigger] ls[t]) > 0 && heading_level(ls[t]) <= level),
    ensures
        section_end(ls, level, i) == section_end(ls, level, j),
    decreases j - i,
{
    if i < j {
        lemma_section_end(ls, level, i + 1, j);
    }
}

/// The section of `content` under the heading `requested`; a
/// `ResourceNotFound` error when no heading has that title.
pub fn markdown_section(content: &str, requested: &str) -> (r: Result<String, Error>)
    ensures
        (r is Ok) == (markdown_section_spec(content@, requested@) is Some),
        r matches Ok(s) ==> Some(s@) == markdown_section_spec(content@, requested@),
        r matches Err(e) ==> e matches Error::ResourceNotFound(m) && m@ == "README heading "@ + requested@,
{
    let v = chars_of(content);
    let req = chars_of(requested);
    let b = line_bounds(&v);
    let ghost ls = lines(v@);
    let n = b.len();
    let mut h: usize = 0;
    while h < n
        invariant
            n == b@.len(),
            v@ == content@,
            req@ == requested@,
            ls == lines(v@),
            bounds_ok(v@, b@),
            bounds_lines(v@, b@) == ls,
            h <= n,
            forall|t: int| 0 <= t < h ==> !is_heading_for(#[trigger] ls[t], req@),
        ensures
            h <= n,
            forall|t: int| 0 <= t < h ==> !is_heading_for(#[trigger] ls[t], req@),
            h < n ==> is_heading_for(ls[h as int], req@),
        decreases n - h,
    {
        let (lo, hi) = b[h];
        assert(b@[h as int].0 <= b@[h as int].1 <= v@.len());
        assert(ls[h as int] == v@.subrange(lo as int, hi as int));
        let (level, x, y) = heading_parts(&v, lo, hi);
        if level > 0 && eq_ignore_ascii_case_at(&v, x, y, &req) {
            break;
        }
        h += 1;
    }
    proof {
        lemma_first_heading_for(ls, req@, 0, h as nat);
    }
    if h == n {
        let m = chars_of("README heading ");
        proof {
            reveal_strlit("README heading ");
        }
        let mut msg = m;
        crate::text::append_chars(&mut msg, &req);
        return Err(Error::ResourceNotFound(string_of(&msg)));
    }
    let (lo, hi) = b[h];
    assert(b@[h as int].0 <= b@[h as int].1 <= v@.len());
    assert(ls[h as int] == v@.subrange(lo as int, hi as int));
    let (level, _, _) = heading_parts(&v, lo, hi);
    let mut e = h + 1;
    while e < n
        invariant
            n == b@.len(),
            ls == lines(v@),
            bounds_ok(v@, b@),
            bounds_lines(v@, b@) == ls,
            h < e <= n,
            forall|t: int|
                h + 1 <= t < e ==> !(heading_level(#[trigger] ls[t]) > 0 && heading_level(ls[t])
                    <= level),
        ensures
            h < e <= n,
            forall|t: int|
                h + 1 <= t < e ==> !(heading_level(#[trigger] ls[t]) > 0 && heading_level(ls[t])
                    <= level),
            e < n ==> heading_level(ls[e as int]) > 0 && heading_level(ls[e as int]) <= level,
        decreases n - e,
    {
        let (lo2, hi2) = b[e];
        assert(b@[e as int].0 <= b@[e as int].1 <= v@.len());
        assert(ls[e as int] == v@.subrange(lo2 as int, hi2 as int));
        let (lv, _, _) = heading_parts(&v, lo2, hi2);
        if lv > 0 && lv <= level {
            break;
        }
        e += 1;
    }
    proof {
        lemma_section_end(ls, level as nat, (h + 1) as nat, e as nat);
    }
    let sep = vec!['\n'];
    assert(sep@ =~= seq!['\n']);
    let joined = join_line_range(&v, &b, h, e, &sep);
    Ok(string_of(&joined))
}

/// Number of leading lines that hold more than whitespace.
pub open spec fn leading_nonblank(ls: Seq<Seq<char>>, i: nat) -> nat
    decreases ls.len() - i,
{
    if i >= ls.len() || trim(ls[i as int]).len() == 0 {
        0
    } else {
        1 + leading_nonblank(ls, i + 1)
    }
}

/// The first paragraph of a text: its lines up to the first blank one,
/// joined with `sep`, trimmed.
pub open spec fn first_paragraph(s: Seq<char>, sep: Seq<char>) -> Seq<char> {
    let ls = lines(s);
    trim(join(ls.take(leading_nonblank(ls, 0) as int), sep))
}

/// The summary of a doc comment: its first paragraph on one line; `None`
/// for a missing, blank or empty-summary comment.
pub open spec fn summary_spec(docs: Option<Seq<char>>) -> Option<Seq<char>> {
    match docs {
        None => None,
        Some(d) => {
            let t = trim(d);
            if t.len() == 0 {
                None
            } else {
                let s = first_paragraph(t, seq![' ']);
                if s.len() == 0 {
                    None
                } else {
                    Some(s)
                }
            }
        },
    }
}

proof fn lemma_leading_nonblank(ls: Seq<Seq<char>>, i: nat, j: nat)
    requires
        i <= j <= ls.len(),
        forall|t: int| i <= t < j ==> trim(#[trigger] ls[t]).len() > 0,
        j < ls.len() ==> trim(ls[j as int]).len() == 0,
    ensures
        leading_nonblank(ls, i) == j - i,
    decreases j - i,
{
    if i < j {
        lemma_leading_nonblank(ls, i + 1, j);
    }
}

/// Lines of `v` from the start up to the first blank one, joined with `sep`.
pub fn paragraph_lines(v: &[char], sep: &[char]) -> (out: Vec<char>)
    ensures
        out@ == join(lines(v@).take(leading_nonblank(lines(v@), 0) as int), sep@),
{
    let b = line_bounds(v);
    let ghost ls = lines(v@);
    let n = b.len();
    let mut k: usize = 0;
    while k < n
        invariant
            n == b@.len(),
            ls == lines(v@),
            bounds_ok(v@, b@),
            bounds_lines(v@, b@) == ls,
            k <= n,
            forall|t: int| 0 <= t < k ==> trim(#[trigger] ls[t]).len() > 0,
        ensures
            k <= n,
            forall|t: int| 0 <= t < k ==> trim(#[trigger] ls[t]).len() > 0,
            k < n ==> trim(ls[k as int]).len() == 0,
        decreases n - k,
    {
        let (lo, hi) = b[k];
        assert(b@[k as int].0 <= b@[k as int].1 <= v@.len());
        assert(ls[k as int] == v@.subrange(lo as int, hi as int));
        let (x, y) = trim_bounds(v, lo, hi);
        if x == y {
            break;
        }
        k += 1;
    }
    proof {
        lemma_leading_nonblank(ls, 0, k as nat);
        assert(ls.take(k as int) =~= ls.subrange(0, k as int));
    }
    join_line_range(v, &b, 0, k, sep)
}

/// The first paragraph of `v`, trimmed, its lines joined with `sep`.
pub fn first_paragraph_of(v: &[char], sep: &[char]) -> (out: Vec<char>)
    ensures
        out@ == first_paragraph(v@, sep@),
{
    let p = paragraph_lines(v, sep);
    trimmed(&p)
}

/// The one-line summary of an item's doc comment.
pub fn summary_of(docs: Option<&str>) -> (r: Option<String>)
    ensures
        r is Some == summary_spec(
            match docs {
                Some(d) => Some(d@),
                None => None,
            },
        ) is Some,
        r matches Some(s) ==> summary_spec(
            match docs {
                Some(d) => Some(d@),
                None => None,
            },
        ) == Some(s@),
{
    match docs {
        None => None,
        Some(d) => {
            let v = chars_of(d);
            let t = trimmed(&v);
            if t.len() == 0 {
                return None;
            }
            let sep = vec![' '];
            assert(sep@ =~= seq![' ']);
            let s = first_paragraph_of(&t, &sep);
            if s.len() == 0 {
                None
            } else {
                Some(string_of(&s))
            }
        },
    }
}

/// What a README request returns besides the file name.
pub struct ReadmeBody {
    /// Titles of all headings of the file.
    pub headings: Vec<String>,
    /// The selected text, cut to the character budget; absent when only
    /// headings were asked for.
    pub content: Option<String>,
    /// Whether the budget cut the selected text.
    pub content_truncated: bool,
}

/// Selects from a README's text: the headings, and the whole text or the
/// section under `heading`, cut to `max_chars` characters unless only
/// headings are asked for. Fails as `markdown_section` does when the
/// heading is absent.
pub fn readme_body(full: &str, heading: Option<&str>, headings_only: bool, max_chars: usize) -> (r:
    Result<ReadmeBody, Error>)
    ensures
        (r is Ok) == (match heading {
            Some(h) => markdown_section_spec(full@, h@) is Some,
            None => true,
        }),
        r matches Ok(body) ==> {
            let selected = match heading {
                Some(h) => markdown_section_spec(full@, h@).unwrap(),
                None => full@,
            };
            &&& body.headings@.len() == headings_in(lines(full@), lines(full@).len()).len()
            &&& forall|i: int|
                0 <= i < body.headings@.len() ==> #[trigger] body.headings@[i]@ == headings_in(
                    lines(full@),
                    lines(full@).len(),
                )[i]
            &&& body.content_truncated == (!headings_only && selected.len() > max_chars)
            &&& (body.content is Some) == !headings_only
            &&& body.content matches Some(c) ==> c@ == take_chars(selected, max_chars as nat)
        },
        r matches Err(e) ==> heading matches Some(h) && e matches Error::ResourceNotFound(m) && m@
            == "README heading "@ + h@,
{
    let headings = markdown_headings(full);
    let selected = match heading {
        Some(h) => match markdown_section(full, h) {
            Ok(s) => s,
            Err(e) => return Err(e),
        },
        None => String::from_str(full),
    };
    let sv = chars_of(selected.as_str());
    let (cut, over) = truncate_chars(&sv, max_chars);
    let content_truncated = !headings_only && over;
    let content = if headings_only {
        None
    } else {
        Some(string_of(&cut))
    };
    Ok(ReadmeBody { headings, content, content_truncated })
}

/// How many characters of a README are returned unless told otherwise.
pub fn default_max_chars() -> (r: usize)
    ensures
        r == 30000,
{
    30000
}

proof fn lemma_first_heading_props(ls: Seq<Seq<char>>, req: Seq<char>, i: nat)
    requires
        i <= ls.len(),
    ensures
        i <= first_heading_for(ls, req, i) <= ls.len(),
        first_heading_for(ls, req, i) < ls.len() ==> is_heading_for(ls[first_heading_for(ls, req, i) as int], req),
        forall|t: int| i <= t < first_heading_for(ls, req, i) ==> !is_heading_for(#[trigger] ls[t], req),
    decreases ls.len() - i,
{
    if i < ls.len() && !is_heading_for(ls[i as int], req) {
        lemma_first_heading_props(ls, req, i + 1);
    }
}

proof fn lemma_section_end_props(ls: Seq<Seq<char>>, level: nat, j: nat)
    requires
        j <= ls.len(),
    ensures
        j <= section_end(ls, level, j) <= ls.len(),
        section_end(ls, level, j) < ls.len() ==> heading_level(ls[section_end(ls, level, j) as int]) > 0
            && heading_level(ls[section_end(ls, level, j) as int]) <= level,
        forall|t: int|
            j <= t < section_end(ls, level, j) ==> !(heading_level(#[trigger] ls[t]) > 0 && heading_level(ls[t])
                <= level),
    decreases ls.len() - j,
{
    if j < ls.len() && !(heading_level(ls[j as int]) > 0 && heading_level(ls[j as int]) <= level) {
        lemma_section_end_props(ls, level, j + 1);
    }
}

/// Lines `h..e` of `ls` form the section under `req`: line `h` is the first
/// heading titled `req` (ignoring ASCII case), no line after it and before
/// `e` is a heading of its level or higher, and `e` is the end of the text
/// or such a heading.
pub open spec fn section_at(ls: Seq<Seq<char>>, req: Seq<char>, h: int, e: int) -> bool {
    &&& 0 <= h < e <= ls.len()
    &&& heading_level(ls[h]) > 0 && eq_ignore_ascii_case_spec(heading_text(ls[h]), req)
    &&& forall|t: int| 0 <= t < h ==> !(heading_level(#[trigger] ls[t]) > 0 && eq_ignore_ascii_case_spec(heading_text(ls[t]), req))
    &&& forall|t: int| h < t < e ==> !(heading_level(#[trigger] ls[t]) > 0 && heading_level(ls[t]) <= heading_level(ls[h]))
    &&& (e == ls.len() || (heading_level(ls[e]) > 0 && heading_level(ls[e]) <= heading_level(ls[h])))
}

/// A README section is found exactly when some line is a heading titled as
/// asked (ignoring ASCII case); it is then the first such heading line and
/// the lines after it up to the next heading of the same or a higher level
/// (or the end), joined with `'\n'`.
pub proof fn law_markdown_section(content: Seq<char>, req: Seq<char>)
    ensures
        markdown_section_spec(content, req) is None <==> forall|t: int|
            0 <= t < lines(content).len() ==> !(heading_level(#[trigger] lines(content)[t]) > 0
                && eq_ignore_ascii_case_spec(heading_text(lines(content)[t]), req)),
        markdown_section_spec(content, req) is Some ==> exists|h: int, e: int|
            #[trigger] section_at(lines(content), req, h, e) && markdown_section_spec(content, req)->0 == join(
                lines(content).subrange(h, e),
                seq!['\n'],
            ),
{
    let ls = lines(content);
    lemma_first_heading_props(ls, req, 0);
    let h = first_heading_for(ls, req, 0);
    if h < ls.len() {
        let lv = heading_level(ls[h as int]);
        lemma_section_end_props(ls, lv, h + 1);
        let e = section_end(ls, lv, h + 1);
        assert(section_at(ls, req, h as int, e as int));
    }
}

} // verus!
