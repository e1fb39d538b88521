//! Shell-style globs over names.

use crate::text;
use vstd::prelude::*;

verus! {

/// Whether `text` matches `pattern`: `*` stands for any run of characters,
/// including none, `?` for any single character, and every other character for
/// itself.
pub open spec fn globs(pattern: Seq<char>, text: Seq<char>) -> bool
    decreases pattern.len(), text.len(),
{
    if pattern.len() == 0 {
        text.len() == 0
    } else if pattern[0] == '*' {
        ||| globs(pattern.drop_first(), text)
        ||| text.len() > 0 && globs(pattern, text.drop_first())
    } else {
        &&& text.len() > 0
        &&& pattern[0] == '?' || pattern[0] == text[0]
        &&& globs(pattern.drop_first(), text.drop_first())
    }
}

/// Whether the rest of the text from `ti` matches the rest of the pattern from
/// `pi`.
spec fn from(p: Seq<char>, t: Seq<char>, pi: int, ti: int) -> bool {
    globs(p.skip(pi), t.skip(ti))
}

proof fn lemma_step(p: Seq<char>, t: Seq<char>, pi: int, ti: int)
    requires
        0 <= pi <= p.len(),
        0 <= ti <= t.len(),
    ensures
        pi == p.len() ==> (from(p, t, pi, ti) <==> ti == t.len()),
        pi < p.len() && p[pi] == '*' ==> (from(p, t, pi, ti) <==> from(p, t, pi + 1, ti) || (ti
            < t.len() && from(p, t, pi, ti + 1))),
        pi < p.len() && p[pi] != '*' ==> (from(p, t, pi, ti) <==> ti < t.len() && (p[pi] == '?'
            || p[pi] == t[ti]) && from(p, t, pi + 1, ti + 1)),
{
    if pi < p.len() {
        assert(p.skip(pi)[0] == p[pi]);
        assert(p.skip(pi).drop_first() == p.skip(pi + 1));
    }
    if ti < t.len() {
        assert(t.skip(ti)[0] == t[ti]);
        assert(t.skip(ti).drop_first() == t.skip(ti + 1));
    }
}

/// A `*` that matches from `x` on also matches from any earlier place.
proof fn lemma_star_reaches_back(p: Seq<char>, t: Seq<char>, pi: int, y: int, x: int)
    requires
        0 <= pi < p.len(),
        p[pi] == '*',
        0 <= y <= x <= t.len(),
        from(p, t, pi, x),
    ensures
        from(p, t, pi, y),
    decreases x - y,
{
    if y < x {
        lemma_star_reaches_back(p, t, pi, y + 1, x);
        lemma_step(p, t, pi, y);
    }
}

/// A `*` matches exactly where the pattern after it matches at some later place.
proof fn lemma_star_unrolls(p: Seq<char>, t: Seq<char>, s: int, m: int) -> (k: int)
    requires
        0 <= s < p.len(),
        p[s] == '*',
        0 <= m <= t.len(),
        from(p, t, s, m),
    ensures
        m <= k <= t.len(),
        from(p, t, s + 1, k),
    decreases t.len() - m,
{
    lemma_step(p, t, s, m);
    if from(p, t, s + 1, m) {
        m
    } else {
        lemma_star_unrolls(p, t, s, m + 1)
    }
}

/// A stretch of the pattern without `*` consumes as many characters as it has.
proof fn lemma_literal_run(p: Seq<char>, t: Seq<char>, pi: int, ti: int, n: int)
    requires
        0 <= n,
        0 <= pi,
        pi + n <= p.len(),
        0 <= ti <= t.len(),
        forall|j: int| pi <= j < pi + n ==> p[j] != '*',
        from(p, t, pi, ti),
    ensures
        ti + n <= t.len(),
        from(p, t, pi + n, ti + n),
    decreases n,
{
    if n > 0 {
        lemma_step(p, t, pi, ti);
        lemma_literal_run(p, t, pi + 1, ti + 1, n - 1);
    }
}

/// Shell-style glob match supporting `*` (any run, including empty) and `?` (any
/// single character); every other character is literal. A two-pointer matcher
/// that backtracks only to the last `*`.
pub fn glob_match(pattern: &str, text: &str) -> (r: bool)
    ensures
        r == globs(pattern@, text@),
{
    let p: Vec<char> = text::chars_of(pattern);
    let t: Vec<char> = text::chars_of(text);
    let mut pi: usize = 0;
    let mut ti: usize = 0;
    // `star` remembers the place after the last `*` so we can backtrack (0 while
    // there is none); `mark` is where in the text that `*` is currently assumed
    // to stop consuming.
    let mut star: usize = 0;
    let mut mark: usize = 0;
    assert(p@.skip(0) == p@ && t@.skip(0) == t@);

    while ti < t.len()
        invariant
            p@ == pattern@,
            t@ == text@,
            star <= pi <= p.len(),
            mark <= ti <= t.len(),
            pi - star == ti - mark,
            forall|j: int| star <= j < pi ==> p@[j] != '*',
            star > 0 ==> p@[star - 1] == '*',
            star == 0 ==> mark == 0,
            // What is left to match from here decides whether the last `*` may stop
            // at `mark`.
            from(p@, t@, star as int, mark as int) == from(p@, t@, pi as int, ti as int),
            globs(p@, t@) == (if star > 0 {
                from(p@, t@, star - 1, mark as int)
            } else {
                from(p@, t@, 0, 0)
            }),
        decreases p.len() - star, t.len() - mark, t.len() - ti,
    {
        proof {
            lemma_step(p@, t@, pi as int, ti as int);
        }
        if pi < p.len() && p[pi] == '*' {
            proof {
                if star > 0 {
                    if globs(p@, t@) {
                        let k = lemma_star_unrolls(p@, t@, star - 1, mark as int);
                        lemma_literal_run(p@, t@, star as int, k, pi - star);
                        lemma_star_reaches_back(p@, t@, pi as int, ti as int, k + (pi - star));
                    }
                    lemma_step(p@, t@, star - 1, mark as int);
                }
            }
            pi = pi + 1;
            star = pi;
            mark = ti;
        } else if pi < p.len() && (p[pi] == '?' || p[pi] == t[ti]) {
            pi = pi + 1;
            ti = ti + 1;
        } else if star > 0 {
            // Mismatch under a `*`: let the `*` swallow one more character.
            proof {
                lemma_step(p@, t@, star - 1, mark as int);
            }
            pi = star;
            mark = mark + 1;
            ti = mark;
        } else {
            return false;
        }
    }
    // Trailing `*`s in the pattern can still match the empty remainder.
    let ghost whole = globs(p@, t@);
    proof {
        // Nothing of the text is left, so a longer stop of the last `*` leaves
        // too little of it for the pattern in between.
        if star > 0 {
            if whole {
                let k = lemma_star_unrolls(p@, t@, star - 1, mark as int);
                lemma_literal_run(p@, t@, star as int, k, pi - star);
            }
            lemma_step(p@, t@, star - 1, mark as int);
        }
    }
    while pi < p.len() && p[pi] == '*'
        invariant
            pi <= p.len(),
            ti == t.len(),
            whole == from(p@, t@, pi as int, ti as int),
        decreases p.len() - pi,
    {
        proof {
            lemma_step(p@, t@, pi as int, ti as int);
        }
        pi = pi + 1;
    }
    proof {
        lemma_step(p@, t@, pi as int, ti as int);
    }
    pi == p.len()
}

/// A pattern without `*` and `?` matches itself and nothing else.
pub proof fn law_literal_pattern_matches_itself(pattern: Seq<char>, text: Seq<char>)
    requires
        forall|i: int| 0 <= i < pattern.len() ==> pattern[i] != '*' && pattern[i] != '?',
    ensures
        globs(pattern, text) <==> pattern == text,
    decreases pattern.len(),
{
    if pattern.len() > 0 {
        if text.len() > 0 {
            law_literal_pattern_matches_itself(pattern.drop_first(), text.drop_first());
            assert(pattern == seq![pattern[0]] + pattern.drop_first());
            assert(text == seq![text[0]] + text.drop_first());
        }
    } else {
        assert(text.len() == 0 ==> pattern == text);
    }
}

/// The pattern `*` matches every name.
pub proof fn law_star_matches_everything(text: Seq<char>)
    ensures
        globs(seq!['*'], text),
    decreases text.len(),
{
    let star = seq!['*'];
    assert(star.drop_first().len() == 0);
    if text.len() > 0 {
        law_star_matches_everything(text.drop_first());
    } else {
        assert(globs(star.drop_first(), text));
    }
}

/// `*` before a suffix matches exactly the names that end with what the suffix
/// matches.
pub proof fn law_star_prefix_matches_endings(pattern: Seq<char>, text: Seq<char>)
    ensures
        globs(seq!['*'] + pattern, text) <==> exists|k: int|
            0 <= k <= text.len() && globs(pattern, #[trigger] text.skip(k)),
{
    let p = seq!['*'] + pattern;
    assert(p.skip(0) == p && text.skip(0) == text);
    assert(p.skip(1) == pattern);
    if globs(p, text) {
        let k = lemma_star_unrolls(p, text, 0, 0);
        assert(globs(pattern, text.skip(k)));
    }
    if exists|k: int| 0 <= k <= text.len() && globs(pattern, #[trigger] text.skip(k)) {
        let k = choose|k: int| 0 <= k <= text.len() && globs(pattern, #[trigger] text.skip(k));
        lemma_step(p, text, 0, k);
        lemma_star_reaches_back(p, text, 0, 0, k);
    }
}

/// A pattern is read from the left: a plain character stands for itself, `?` for
/// any one character, and `*` for any stretch, be it empty. A pattern without
/// anything left matches only where the text has nothing left.
pub proof fn law_a_pattern_is_read_from_the_left(c: char, rest: Seq<char>, text: Seq<char>)
    ensures
        globs(Seq::empty(), text) <==> text.len() == 0,
        c != '*' && c != '?' ==> (globs(seq![c] + rest, text) <==> text.len() > 0 && text[0] == c
            && globs(rest, text.skip(1))),
        globs(seq!['?'] + rest, text) <==> text.len() > 0 && globs(rest, text.skip(1)),
        globs(seq!['*'] + rest, text) <==> exists|k: int|
            0 <= k <= text.len() && globs(rest, #[trigger] text.skip(k)),
{
    law_star_prefix_matches_endings(rest, text);
    assert((seq![c] + rest).drop_first() =~= rest);
    assert((seq!['?'] + rest).drop_first() =~= rest);
    if text.len() > 0 {
        assert(text.drop_first() =~= text.skip(1));
    }
}

} // verus!
