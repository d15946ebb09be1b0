//! Rust code examples in doc comments: fenced blocks whose info string
//! names Rust (or only rustdoc's own attributes).

use vstd::prelude::*;
use crate::text::{append_chars, bounds_lines, bounds_ok, chars_eq, chars_of, copy_range, has_prefix, is_whitespace, is_ws, line_bounds, lines, skip_ws, starts_with_at, string_of, trim, trim_bounds, trim_start};

verus! {

/// Separates tokens of an info string: a comma or whitespace.
pub open spec fn is_info_sep(c: char) -> bool {
    c == ',' || is_ws(c)
}

/// Length of the leading token of `s` (up to the first separator).
pub open spec fn token_len(s: Seq<char>) -> nat
    decreases s.len(),
{
    if s.len() == 0 || is_info_sep(s[0]) {
        0
    } else {
        1 + token_len(s.drop_first())
    }
}

/// The non-empty runs of non-separators in `s`, in order (what
/// `s.split(sep).filter(|t| !t.is_empty())` yields).
pub open spec fn info_tokens(s: Seq<char>) -> Seq<Seq<char>>
    decreases s.len(),
{
    if s.len() == 0 {
        seq![]
    } else if is_info_sep(s[0]) {
        info_tokens(s.drop_first())
    } else {
        let k = token_len(s);
        proof {
            lemma_token_len(s);
        }
        seq![s.take(k as int)] + info_tokens(s.skip(k as int))
    }
}

/// Per-block rustdoc attributes that leave the language Rust.
pub open spec fn is_rustdoc_attr(t: Seq<char>) -> bool {
    ||| t == "ignore"@
    ||| t == "no_run"@
    ||| t == "should_panic"@
    ||| t == "compile_fail"@
    ||| t == "test_harness"@
    ||| t == "edition2015"@
    ||| t == "edition2018"@
    ||| t == "edition2021"@
    ||| t == "edition2024"@
    ||| t == "standalone_crate"@
    ||| t == "standalone"@
}

/// A fence info string marks a Rust block when it is empty, names `rust`,
/// or holds only rustdoc attributes.
pub open spec fn is_rust_info(info: Seq<char>) -> bool {
    let t = trim(info);
    let toks = info_tokens(t);
    ||| t.len() == 0
    ||| toks.contains("rust"@)
    ||| forall|i: int| 0 <= i < toks.len() ==> is_rustdoc_attr(#[trigger] toks[i])
}

pub proof fn lemma_token_len(s: Seq<char>)
    ensures
        token_len(s) <= s.len(),
        forall|j: int| 0 <= j < token_len(s) ==> !is_info_sep(#[trigger] s[j]),
        token_len(s) < s.len() ==> is_info_sep(s[token_len(s) as int]),
    decreases s.len(),
{
    if s.len() > 0 && !is_info_sep(s[0]) {
        lemma_token_len(s.drop_first());
        assert forall|j: int| 0 <= j < token_len(s) implies !is_info_sep(#[trigger] s[j]) by {
            if j > 0 {
                assert(s[j] == s.drop_first()[j - 1]);
            }
        }
    }
}

proof fn lemma_token_len_is(s: Seq<char>, k: int)
    requires
        0 <= k <= s.len(),
        forall|j: int| 0 <= j < k ==> !is_info_sep(#[trigger] s[j]),
        k < s.len() ==> is_info_sep(s[k]),
    ensures
        token_len(s) == k,
    decreases k,
{
    if k > 0 {
        assert(!is_info_sep(s[0]));
        assert forall|j: int| 0 <= j < k - 1 implies !is_info_sep(#[trigger] s.drop_first()[j]) by {
            assert(s.drop_first()[j] == s[j + 1]);
        }
        if k < s.len() {
            assert(s.drop_first()[k - 1] == s[k]);
        }
        lemma_token_len_is(s.drop_first(), k - 1);
    } else if s.len() > 0 {
        assert(is_info_sep(s[0]));
    }
}

fn is_info_separator(c: char) -> (r: bool)
    ensures
        r == is_info_sep(c),
{
    c == ',' || is_whitespace(c)
}

/// The tokens of `v[lo..hi]`.
fn tokens_of(v: &[char], lo: usize, hi: usize) -> (out: Vec<Vec<char>>)
    requires
        lo <= hi <= v@.len(),
    ensures
        crate::text::views(out@) == info_tokens(v@.subrange(lo as int, hi as int)),
{
    let mut out: Vec<Vec<char>> = Vec::new();
    let mut i = lo;
    while i < hi
        invariant
            lo <= i <= hi <= v@.len(),
            crate::text::views(out@) + info_tokens(v@.subrange(i as int, hi as int)) == info_tokens(
                v@.subrange(lo as int, hi as int),
            ),
        decreases hi - i,
    {
        let ghost rest = v@.subrange(i as int, hi as int);
        if is_info_separator(v[i]) {
            assert(rest.drop_first() =~= v@.subrange(i + 1, hi as int));
            i += 1;
        } else {
            let mut j = i + 1;
            while j < hi && !is_info_separator(v[j])
                invariant
                    i < j <= hi <= v@.len(),
                    forall|t: int| i <= t < j ==> !is_info_sep(#[trigger] v@[t]),
                decreases hi - j,
            {
                j += 1;
            }
            proof {
                assert forall|t: int| 0 <= t < j - i implies !is_info_sep(#[trigger] rest[t]) by {
                    assert(rest[t] == v@[i + t]);
                }
                if j < hi {
                    assert(rest[j - i] == v@[j as int]);
                }
                lemma_token_len_is(rest, j - i);
                assert(rest.take(j - i) =~= v@.subrange(i as int, j as int));
                assert(rest.skip(j - i) =~= v@.subrange(j as int, hi as int));
            }
            let tok = copy_range(v, i, j);
            let ghost prev = crate::text::views(out@);
            out.push(tok);
            assert(crate::text::views(out@) =~= prev.push(tok@));
            assert(crate::text::views(out@) + info_tokens(v@.subrange(j as int, hi as int)) =~= prev
                + info_tokens(rest));
            i = j;
        }
    }
    assert(v@.subrange(hi as int, hi as int) =~= Seq::<char>::empty());
    assert(crate::text::views(out@) + Seq::<Seq<char>>::empty() =~= crate::text::views(out@));
    out
}

/// Whether `t` is one of rustdoc's per-block attributes.
fn is_rustdoc_attribute(t: &[char]) -> (r: bool)
    ensures
        r == is_rustdoc_attr(t@),
{
    chars_eq(t, &chars_of("ignore")) || chars_eq(t, &chars_of("no_run")) || chars_eq(
        t,
        &chars_of("should_panic"),
    ) || chars_eq(t, &chars_of("compile_fail")) || chars_eq(t, &chars_of("test_harness"))
        || chars_eq(t, &chars_of("edition2015")) || chars_eq(t, &chars_of("edition2018")) || chars_eq(
        t,
        &chars_of("edition2021"),
    ) || chars_eq(t, &chars_of("edition2024")) || chars_eq(t, &chars_of("standalone_crate"))
        || chars_eq(t, &chars_of("standalone"))
}

/// Whether a fence's info string marks a Rust block.
pub fn is_rust_info_string(info: &str) -> (r: bool)
    ensures
        r == is_rust_info(info@),
{
    let v = chars_of(info);
    assert(v@.subrange(0, v@.len() as int) =~= v@);
    is_rust_info_chars(&v, 0, v.len())
}

/// `is_rust_info_string` on `v[lo..hi]`.
fn is_rust_info_chars(v: &[char], lo: usize, hi: usize) -> (r: bool)
    requires
        lo <= hi <= v@.len(),
    ensures
        r == is_rust_info(v@.subrange(lo as int, hi as int)),
{
    let (a, b) = trim_bounds(v, lo, hi);
    if a == b {
        assert(v@.subrange(a as int, b as int).len() == 0);
        return true;
    }
    let toks = tokens_of(v, a, b);
    let ghost ts = crate::text::views(toks@);
    let rust = chars_of("rust");
    let mut all_attrs = true;
    for i in 0..toks.len()
        invariant
            ts == crate::text::views(toks@),
            ts == info_tokens(trim(v@.subrange(lo as int, hi as int))),
            trim(v@.subrange(lo as int, hi as int)).len() > 0,
            rust@ == "rust"@,
            forall|j: int| 0 <= j < i ==> ts[j] != "rust"@,
            all_attrs == forall|j: int| 0 <= j < i ==> is_rustdoc_attr(#[trigger] ts[j]),
    {
        assert(ts[i as int] == toks@[i as int]@);
        if chars_eq(&toks[i], &rust) {
            assert(ts.contains("rust"@));
            return true;
        }
        let is_attr = is_rustdoc_attribute(&toks[i]);
        proof {
            if !is_attr {
                assert(!is_rustdoc_attr(ts[i as int]));
            }
        }
        all_attrs = all_attrs && is_attr;
    }
    assert(!ts.contains("rust"@));
    all_attrs
}

/// A line opening or closing a fenced block.
pub open spec fn is_fence(line: Seq<char>) -> bool {
    has_prefix(trim_start(line), "```"@)
}

/// The info string after a fence's backticks.
pub open spec fn fence_info(line: Seq<char>) -> Seq<char> {
    trim_start(line).skip(3)
}

/// Index of the first fence line at or after `i` (`ls.len()` if none).
pub open spec fn next_fence(ls: Seq<Seq<char>>, i: nat) -> nat
    decreases ls.len() - i,
{
    if i >= ls.len() {
        ls.len()
    } else if is_fence(ls[i as int]) {
        i
    } else {
        next_fence(ls, i + 1)
    }
}

/// Lines `a..b`, each followed by `'\n'`.
pub open spec fn block_text(ls: Seq<Seq<char>>, a: nat, b: nat) -> Seq<char>
    decreases b - a,
{
    if a >= b {
        seq![]
    } else {
        block_text(ls, a, (b - 1) as nat) + ls[b - 1] + seq!['\n']
    }
}

/// The Rust code blocks among the lines from `i` on: each fence line opens a
/// block that the next fence line closes; a block is kept when its info
/// string marks Rust and it holds more than whitespace; an unclosed block
/// is dropped.
pub open spec fn code_blocks_from(ls: Seq<Seq<char>>, i: nat) -> Seq<Seq<char>>
    decreases ls.len() - i,
{
    let f = next_fence(ls, i);
    proof {
        lemma_next_fence(ls, i);
    }
    if f >= ls.len() {
        seq![]
    } else {
        let c = next_fence(ls, f + 1);
        proof {
            lemma_next_fence(ls, f + 1);
        }
        if c >= ls.len() {
            seq![]
        } else {
            let blk = block_text(ls, f + 1, c);
            let kept: Seq<Seq<char>> = if is_rust_info(fence_info(ls[f as int])) && trim(blk).len() > 0 {
                seq![blk]
            } else {
                seq![]
            };
            kept + code_blocks_from(ls, c + 1)
        }
    }
}

pub proof fn lemma_next_fence(ls: Seq<Seq<char>>, i: nat)
    ensures
        i <= ls.len() ==> i <= next_fence(ls, i) <= ls.len(),
        i > ls.len() ==> next_fence(ls, i) == ls.len(),
        next_fence(ls, i) < ls.len() ==> is_fence(ls[next_fence(ls, i) as int]),
        forall|j: int| i <= j < next_fence(ls, i) ==> !is_fence(#[trigger] ls[j]),
    decreases ls.len() - i,
{
    if i < ls.len() && !is_fence(ls[i as int]) {
        lemma_next_fence(ls, i + 1);
    }
}

proof fn lemma_next_fence_skip(ls: Seq<Seq<char>>, i: nat, j: nat)
    requires
        i <= j <= ls.len(),
        forall|t: int| i <= t < j ==> !is_fence(#[trigger] ls[t]),
    ensures
        next_fence(ls, i) == next_fence(ls, j),
    decreases j - i,
{
    if i < j {
        lemma_next_fence_skip(ls, i + 1, j);
    }
}

/// Whether `v[lo..hi]` is a fence line; if so, also the start of its info.
fn fence_at(v: &[char], lo: usize, hi: usize, ticks: &[char]) -> (r: Option<usize>)
    requires
        lo <= hi <= v@.len(),
        ticks@ == "```"@,
        ticks@.len() == 3,
    ensures
        (r is Some) == is_fence(v@.subrange(lo as int, hi as int)),
        r matches Some(k) ==> k <= hi && v@.subrange(k as int, hi as int) == fence_info(
            v@.subrange(lo as int, hi as int),
        ),
{
    let k = skip_ws(v, lo, hi);
    if starts_with_at(v, k, hi, ticks) {
        assert(v@.subrange(k as int, hi as int).skip(3) =~= v@.subrange(k + 3, hi as int));
        Some(k + 3)
    } else {
        None
    }
}

/// The Rust code blocks of a doc comment, each as the text between its
/// fences with every line followed by `'\n'`.
pub fn extract_rust_code_blocks(docs: &str) -> (out: Vec<String>)
    ensures
        out@.len() == code_blocks_from(lines(docs@), 0).len(),
        forall|i: int| 0 <= i < out@.len() ==> #[trigger] out@[i]@ == code_blocks_from(lines(docs@), 0)[i],
{
    let v = chars_of(docs);
    let b = line_bounds(&v);
    let ghost ls = lines(v@);
    let ticks = chars_of("```");
    proof {
        reveal_strlit("```");
    }
    let n = b.len();
    let mut out: Vec<String> = Vec::new();
    let mut i: usize = 0;
    while i < n
        invariant
            n == b@.len(),
            ls == lines(v@),
            v@ == docs@,
            bounds_ok(v@, b@),
            bounds_lines(v@, b@) == ls,
            ticks@ == "```"@,
            ticks@.len() == 3,
            i <= n,
            out@.len() + code_blocks_from(ls, i as nat).len() == code_blocks_from(ls, 0).len(),
            forall|j: int| 0 <= j < out@.len() ==> #[trigger] out@[j]@ == code_blocks_from(ls, 0)[j],
            code_blocks_from(ls, 0).subrange(out@.len() as int, code_blocks_from(ls, 0).len() as int)
                == code_blocks_from(ls, i as nat),
        decreases n - i,
    {
        let (lo, hi) = b[i];
        assert(b@[i as int].0 <= b@[i as int].1 <= v@.len());
        assert(ls[i as int] == v@.subrange(lo as int, hi as int));
        match fence_at(&v, lo, hi, &ticks) {
            None => {
                proof {
                    lemma_next_fence_skip(ls, i as nat, (i + 1) as nat);
                }
                assert(code_blocks_from(ls, i as nat) == code_blocks_from(ls, (i + 1) as nat));
                i += 1;
            },
            Some(k) => {
                let is_rust = is_rust_info_chars(&v, k, hi);
                let mut block: Vec<char> = Vec::new();
                let mut j = i + 1;
                let mut closed = false;
                while j < n
                    invariant_except_break
                        n == b@.len(),
                        ls == lines(v@),
                        bounds_ok(v@, b@),
                        bounds_lines(v@, b@) == ls,
                        ticks@ == "```"@,
                        ticks@.len() == 3,
                        i < j <= n,
                        block@ == block_text(ls, (i + 1) as nat, j as nat),
                        forall|t: int| i + 1 <= t < j ==> !is_fence(#[trigger] ls[t]),
                        !closed,
                    ensures
                        i < j <= n,
                        block@ == block_text(ls, (i + 1) as nat, j as nat),
                        forall|t: int| i + 1 <= t < j ==> !is_fence(#[trigger] ls[t]),
                        closed ==> j < n && is_fence(ls[j as int]),
                        !closed ==> j == n,
                    decreases n - j,
                {
                    let (lo2, hi2) = b[j];
                    assert(b@[j as int].0 <= b@[j as int].1 <= v@.len());
                    assert(ls[j as int] == v@.subrange(lo2 as int, hi2 as int));
                    if fence_at(&v, lo2, hi2, &ticks).is_some() {
                        closed = true;
                        break;
                    }
                    let ghost before = block@;
                    append_chars(&mut block, &copy_range(&v, lo2, hi2));
                    block.push('\n');
                    assert(block@ =~= before + ls[j as int] + seq!['\n']);
                    j += 1;
                }
                proof {
                    lemma_next_fence(ls, i as nat);
                    lemma_next_fence_skip(ls, (i + 1) as nat, j as nat);
                    lemma_next_fence(ls, j as nat);
                }
                if closed {
                    let ghost rest = code_blocks_from(ls, i as nat);
                    let (ta, tb) = trim_bounds(&block, 0, block.len());
                    assert(block@.subrange(0, block@.len() as int) =~= block@);
                    if is_rust && ta < tb {
                        let ghost before = out@;
                        out.push(string_of(&block));
                        assert(rest =~= seq![block@] + code_blocks_from(ls, (j + 1) as nat));
                        assert(code_blocks_from(ls, 0)[before.len() as int] == rest[0]);
                        assert(code_blocks_from(ls, 0).subrange(out@.len() as int, code_blocks_from(ls, 0).len() as int)
                            =~= rest.subrange(1, rest.len() as int));
                    } else {
                        assert(rest =~= code_blocks_from(ls, (j + 1) as nat));
                    }
                    i = j + 1;
                } else {
                    assert(code_blocks_from(ls, i as nat) =~= Seq::<Seq<char>>::empty());
                    i = n;
                    assert(code_blocks_from(ls, i as nat) =~= Seq::<Seq<char>>::empty());
                }
            },
        }
    }
    assert(code_blocks_from(ls, i as nat) =~= Seq::<Seq<char>>::empty());
    out
}

/// rustdoc's per-block attributes, which leave a block's language Rust.
pub open spec fn rustdoc_attribute_names() -> Seq<Seq<char>> {
    seq![
        "ignore"@,
        "no_run"@,
        "should_panic"@,
        "compile_fail"@,
        "test_harness"@,
        "edition2015"@,
        "edition2018"@,
        "edition2021"@,
        "edition2024"@,
        "standalone_crate"@,
        "standalone"@,
    ]
}

/// An info string made only of rustdoc attributes (such as `no_run` or
/// `should_panic, edition2021`) marks a Rust block.
pub proof fn law_rustdoc_attributes_mark_rust(info: Seq<char>)
    requires
        forall|i: int|
            0 <= i < info_tokens(trim(info)).len() ==> rustdoc_attribute_names().contains(
                #[trigger] info_tokens(trim(info))[i],
            ),
    ensures
        is_rust_info(info),
{
    let toks = info_tokens(trim(info));
    let names = rustdoc_attribute_names();
    assert forall|i: int| 0 <= i < toks.len() implies is_rustdoc_attr(#[trigger] toks[i]) by {
        assert(names.contains(toks[i]));
        let k = choose|k: int| 0 <= k < names.len() && names[k] == toks[i];
        assert(names[k] == toks[i]);
    }
}

proof fn lemma_tokens_of_empty(s: Seq<char>)
    requires
        s.len() == 0,
    ensures
        info_tokens(s).len() == 0,
{
}

/// An info string with a word that is neither `rust` nor a rustdoc
/// attribute, and no `rust`, marks a block of another language.
pub proof fn law_other_words_mark_another_language(info: Seq<char>, word: Seq<char>)
    requires
        info_tokens(trim(info)).contains(word),
        !rustdoc_attribute_names().contains(word),
        !info_tokens(trim(info)).contains("rust"@),
    ensures
        !is_rust_info(info),
{
    let t = trim(info);
    let toks = info_tokens(t);
    let names = rustdoc_attribute_names();
    if t.len() == 0 {
        lemma_tokens_of_empty(t);
    }
    let k = choose|k: int| 0 <= k < toks.len() && toks[k] == word;
    assert(names[0] == "ignore"@);
    assert(names[1] == "no_run"@);
    assert(names[2] == "should_panic"@);
    assert(names[3] == "compile_fail"@);
    assert(names[4] == "test_harness"@);
    assert(names[5] == "edition2015"@);
    assert(names[6] == "edition2018"@);
    assert(names[7] == "edition2021"@);
    assert(names[8] == "edition2024"@);
    assert(names[9] == "standalone_crate"@);
    assert(names[10] == "standalone"@);
    assert(!is_rustdoc_attr(toks[k]));
}

/// The first fenced block of a doc comment, when its info string marks Rust
/// and it holds more than whitespace, is its first example: the lines
/// between the fences, each followed by `'\n'`.
pub proof fn law_first_rust_block_is_extracted(docs: Seq<char>, open: nat, close: nat)
    requires
        open < close < lines(docs).len(),
        is_fence(lines(docs)[open as int]),
        is_fence(lines(docs)[close as int]),
        forall|j: int| 0 <= j < open ==> !is_fence(#[trigger] lines(docs)[j]),
        forall|j: int| open < j < close ==> !is_fence(#[trigger] lines(docs)[j]),
        is_rust_info(fence_info(lines(docs)[open as int])),
        trim(block_text(lines(docs), open + 1, close)).len() > 0,
    ensures
        code_blocks_from(lines(docs), 0).len() > 0,
        code_blocks_from(lines(docs), 0)[0] == block_text(lines(docs), open + 1, close),
{
    let ls = lines(docs);
    lemma_next_fence_skip(ls, 0, open);
    lemma_next_fence_skip(ls, open + 1, close);
    assert(next_fence(ls, open) == open);
    assert(next_fence(ls, close) == close);
    assert(next_fence(ls, 0) == open);
    assert(next_fence(ls, open + 1) == close);
}

} // verus!
