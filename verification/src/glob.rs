//! Wildcard path matching: `*` matches any run of characters (including
//! `/`), `?` matches exactly one character, anything else matches itself.

use vstd::prelude::*;
use crate::text::chars_of;

verus! {

/// Whether `p[pi..]` matches `t[ti..]`.
pub open spec fn glob_from(p: Seq<char>, t: Seq<char>, pi: nat, ti: nat) -> bool
    decreases p.len() - pi, t.len() - ti,
{
    if pi >= p.len() {
        ti >= t.len()
    } else if p[pi as int] == '*' {
        glob_from(p, t, pi + 1, ti) || (ti < t.len() && glob_from(p, t, pi, ti + 1))
    } else if ti < t.len() && (p[pi as int] == '?' || p[pi as int] == t[ti as int]) {
        glob_from(p, t, pi + 1, ti + 1)
    } else {
        false
    }
}

/// Whether the whole of `t` matches the pattern `p`.
pub open spec fn glob_spec(p: Seq<char>, t: Seq<char>) -> bool {
    glob_from(p, t, 0, 0)
}

/// Whether `text` matches the wildcard `pattern`.
pub fn glob_matches(pattern: &str, text: &str) -> (r: bool)
    ensures
        r == glob_spec(pattern@, text@),
{
    let p = chars_of(pattern);
    let t = chars_of(text);
    let np = p.len();
    let nt = t.len();
    // `next[ti]` holds `glob_from(p, t, pi + 1, ti)`; it starts as the row
    // for the exhausted pattern.
    let mut next: Vec<bool> = Vec::new();
    for k in 0..nt
        invariant
            np == p@.len(),
            nt == t@.len(),
            next@.len() == k,
            forall|j: int| 0 <= j < k ==> next@[j] == glob_from(p@, t@, np as nat, j as nat),
    {
        next.push(false);
    }
    next.push(true);
    let mut pi = np;
    while pi > 0
        invariant
            np == p@.len(),
            nt == t@.len(),
            pi <= np,
            next@.len() == nt + 1,
            forall|j: int| 0 <= j <= nt ==> next@[j] == glob_from(p@, t@, pi as nat, j as nat),
        decreases pi,
    {
        pi -= 1;
        let star = p[pi] == '*';
        let mut cur: Vec<bool> = Vec::new();
        for k in 0..nt
            invariant
                cur@.len() == k,
        {
            cur.push(false);
        }
        cur.push(star && next[nt]);
        let mut ti = nt;
        while ti > 0
            invariant
                np == p@.len(),
                nt == t@.len(),
                pi < np,
                star == (p@[pi as int] == '*'),
                ti <= nt,
                next@.len() == nt + 1,
                cur@.len() == nt + 1,
                forall|j: int|
                    0 <= j <= nt ==> next@[j] == glob_from(p@, t@, (pi + 1) as nat, j as nat),
                forall|j: int|
                    ti <= j <= nt ==> cur@[j] == glob_from(p@, t@, pi as nat, j as nat),
            decreases ti,
        {
            ti -= 1;
            let v = if star {
                next[ti] || cur[ti + 1]
            } else if p[pi] == '?' || p[pi] == t[ti] {
                next[ti + 1]
            } else {
                false
            };
            cur.set(ti, v);
        }
        next = cur;
    }
    next[0]
}

/// The pattern has no `*` and no `?`.
pub open spec fn is_literal(p: Seq<char>) -> bool {
    forall|i: int| 0 <= i < p.len() ==> p[i] != '*' && p[i] != '?'
}

proof fn lemma_star_from(p: Seq<char>, t: Seq<char>, ti: nat)
    requires
        p == seq!['*'],
        ti <= t.len(),
    ensures
        glob_from(p, t, 0, ti),
    decreases t.len() - ti,
{
    assert(p[0] == '*');
    if ti < t.len() {
        lemma_star_from(p, t, ti + 1);
    } else {
        assert(glob_from(p, t, 1, ti));
    }
}

/// `*` alone matches every text, `/` included.
pub proof fn law_star_matches_everything(t: Seq<char>)
    ensures
        glob_spec(seq!['*'], t),
{
    lemma_star_from(seq!['*'], t, 0);
}

proof fn lemma_literal_from(p: Seq<char>, t: Seq<char>, pi: nat, ti: nat)
    requires
        is_literal(p),
        pi <= p.len(),
        ti <= t.len(),
    ensures
        glob_from(p, t, pi, ti) <==> p.skip(pi as int) == t.skip(ti as int),
    decreases p.len() - pi,
{
    if pi < p.len() {
        if ti < t.len() {
            lemma_literal_from(p, t, pi + 1, ti + 1);
            if p.skip(pi as int) == t.skip(ti as int) {
                assert(p.skip(pi as int)[0] == t.skip(ti as int)[0]);
                assert(p.skip(pi + 1int) =~= p.skip(pi as int).skip(1));
                assert(t.skip(ti + 1int) =~= t.skip(ti as int).skip(1));
            }
            if p[pi as int] == t[ti as int] && p.skip(pi + 1int) == t.skip(ti + 1int) {
                assert(p.skip(pi as int) =~= seq![p[pi as int]] + p.skip(pi + 1int));
                assert(t.skip(ti as int) =~= seq![t[ti as int]] + t.skip(ti + 1int));
            }
        } else {
            assert(p.skip(pi as int).len() > 0);
            assert(t.skip(ti as int).len() == 0);
        }
    } else {
        assert(p.skip(pi as int).len() == 0);
        if ti < t.len() {
            assert(t.skip(ti as int).len() > 0);
        } else {
            assert(t.skip(ti as int) =~= p.skip(pi as int));
        }
    }
}

/// A pattern without wildcards matches exactly itself.
pub proof fn law_literal_pattern_matches_itself(p: Seq<char>, t: Seq<char>)
    requires
        is_literal(p),
    ensures
        glob_spec(p, t) <==> p == t,
{
    lemma_literal_from(p, t, 0, 0);
    assert(p.skip(0) =~= p);
    assert(t.skip(0) =~= t);
}

proof fn lemma_star_skip(p: Seq<char>, t: Seq<char>, ti: nat, j: nat)
    requires
        p.len() > 0,
        p[0] == '*',
        ti <= j <= t.len(),
        glob_from(p, t, 1, j),
    ensures
        glob_from(p, t, 0, ti),
    decreases j - ti,
{
    if ti < j {
        lemma_star_skip(p, t, ti + 1, j);
    }
}

/// `*` followed by a literal suffix matches every text that ends with the
/// suffix, whatever comes before it (such as `*.rs` and `src/lib.rs`).
pub proof fn law_star_suffix(suffix: Seq<char>, prefix: Seq<char>)
    requires
        is_literal(suffix),
    ensures
        glob_spec(seq!['*'] + suffix, prefix + suffix),
{
    let p = seq!['*'] + suffix;
    let t = prefix + suffix;
    assert forall|i: int| 0 <= i < p.skip(1).len() implies p.skip(1)[i] != '*' && p.skip(1)[i] != '?' by {
        assert(p.skip(1)[i] == suffix[i]);
    }
    lemma_literal_from(p.skip(1), t, 0, prefix.len());
    assert(p.skip(1).skip(0) =~= t.skip(prefix.len() as int));
    lemma_shift_pattern(p, t, prefix.len());
    lemma_star_skip(p, t, 0, prefix.len());
}

proof fn lemma_shift_pattern(p: Seq<char>, t: Seq<char>, ti: nat)
    requires
        p.len() > 0,
        ti <= t.len(),
        glob_from(p.skip(1), t, 0, ti),
    ensures
        glob_from(p, t, 1, ti),
{
    lemma_shift_from(p, t, 0, ti);
}

proof fn lemma_shift_from(p: Seq<char>, t: Seq<char>, qi: nat, ti: nat)
    requires
        p.len() > 0,
        qi <= p.len() - 1,
        ti <= t.len(),
    ensures
        glob_from(p.skip(1), t, qi, ti) == glob_from(p, t, qi + 1, ti),
    decreases p.len() - 1 - qi, t.len() - ti,
{
    let q = p.skip(1);
    if qi < q.len() {
        assert(q[qi as int] == p[qi + 1int]);
        if q[qi as int] == '*' {
            lemma_shift_from(p, t, qi + 1, ti);
            if ti < t.len() {
                lemma_shift_from(p, t, qi, ti + 1);
            }
        } else if ti < t.len() {
            lemma_shift_from(p, t, qi + 1, ti + 1);
        }
    }
}

/// `?` alone matches exactly the texts of one character.
pub proof fn law_question_mark_matches_one_char(t: Seq<char>)
    ensures
        glob_spec(seq!['?'], t) <==> t.len() == 1,
{
    let p = seq!['?'];
    assert(glob_from(p, t, 1, 1) <==> 1 >= t.len());
}

} // verus!
