//! The `LIKE` pattern match that the store's text search uses.
//!
//! In a pattern, `%` stands for any run of characters (possibly empty) and
//! `_` for exactly one character; other characters match themselves, ASCII
//! letters without regard to case. There is no escape character.

use vstd::prelude::*;

use crate::text::{ascii_lower, chars_of, to_ascii_lower};

verus! {

/// Whether pattern `p` matches all of text `t`.
pub open spec fn like_match(p: Seq<char>, t: Seq<char>) -> bool
    decreases p.len(), t.len(),
{
    if p.len() == 0 {
        t.len() == 0
    } else if p[0] == '%' {
        like_match(p.drop_first(), t) || (t.len() > 0 && like_match(p, t.drop_first()))
    } else if t.len() == 0 {
        false
    } else if p[0] == '_' || ascii_lower(p[0]) == ascii_lower(t[0]) {
        like_match(p.drop_first(), t.drop_first())
    } else {
        false
    }
}

/// The pattern `%query%`: `query` anywhere in a text.
pub open spec fn contains_pattern(query: Seq<char>) -> Seq<char> {
    seq!['%'] + query + seq!['%']
}

/// Whether text `t` contains `query` in the sense of `LIKE '%query%'`.
pub open spec fn like_contains(t: Seq<char>, query: Seq<char>) -> bool {
    like_match(contains_pattern(query), t)
}

proof fn lemma_skip_first<A>(s: Seq<A>, i: int)
    requires
        0 <= i < s.len(),
    ensures
        s.skip(i).drop_first() == s.skip(i + 1),
        s.skip(i)[0] == s[i],
        s.skip(i).len() > 0,
{
    assert(s.skip(i).drop_first() =~= s.skip(i + 1));
}

/// Whether pattern `p` matches all of `t`.
pub fn like_match_chars(p: &Vec<char>, t: &Vec<char>) -> (r: bool)
    ensures
        r == like_match(p@, t@),
{
    let m = p.len();
    let n = t.len();
    // `next[j]` holds the answer for the pattern from position `i + 1` on
    // and the text from position `j` on.
    let mut next: Vec<bool> = Vec::new();
    let mut j: usize = 0;
    while j < n
        invariant
            n == t.len(),
            m == p.len(),
            j <= n,
            next@.len() == j,
            forall|k: int| 0 <= k < j ==> #[trigger] next@[k] == like_match(p@.skip(m as int), t@.skip(k)),
        decreases n - j,
    {
        assert(p@.skip(m as int).len() == 0);
        next.push(false);
        j = j + 1;
    }
    assert(p@.skip(m as int).len() == 0);
    assert(t@.skip(n as int).len() == 0);
    next.push(true);
    let mut i: usize = m;
    while i > 0
        invariant
            n == t.len(),
            m == p.len(),
            i <= m,
            next@.len() == n + 1,
            forall|k: int| 0 <= k <= n ==> #[trigger] next@[k] == like_match(p@.skip(i as int), t@.skip(k)),
        decreases i,
    {
        let pi = i - 1;
        let pc = p[pi];
        proof {
            lemma_skip_first(p@, pi as int);
        }
        // Fill the row for pattern position `pi`, from the end of the text.
        let mut cur: Vec<bool> = Vec::new();
        let mut k: usize = 0;
        while k < n
            invariant
                k <= n,
                cur@.len() == k,
            decreases n - k,
        {
            cur.push(false);
            k = k + 1;
        }
        // The end of the text: only `%` matches there, and only if the rest
        // of the pattern does.
        assert(t@.skip(n as int).len() == 0);
        if pc == '%' {
            cur.push(next[n]);
        } else {
            cur.push(false);
        }
        assert(cur@[n as int] == like_match(p@.skip(pi as int), t@.skip(n as int)));
        let mut jj: usize = n;
        while jj > 0
            invariant
                n == t.len(),
                m == p.len(),
                pi < m,
                pc == p@[pi as int],
                p@.skip(pi as int).drop_first() == p@.skip(pi + 1),
                p@.skip(pi as int)[0] == pc,
                p@.skip(pi as int).len() > 0,
                jj <= n,
                cur@.len() == n + 1,
                next@.len() == n + 1,
                forall|q: int| 0 <= q <= n ==> #[trigger] next@[q] == like_match(p@.skip(pi + 1), t@.skip(q)),
                forall|q: int| jj <= q <= n ==> #[trigger] cur@[q] == like_match(p@.skip(pi as int), t@.skip(q)),
            decreases jj,
        {
            let q = jj - 1;
            let ghost ps = p@.skip(pi as int);
            let ghost ts = t@.skip(q as int);
            proof {
                lemma_skip_first(t@, q as int);
            }
            let v: bool;
            if pc == '%' {
                v = next[q] || cur[q + 1];
            } else if pc == '_' || to_ascii_lower(pc) == to_ascii_lower(t[q]) {
                v = next[q + 1];
            } else {
                v = false;
            }
            assert(v == like_match(ps, ts));
            cur.set(q, v);
            jj = q;
        }
        next = cur;
        i = pi;
    }
    assert(p@.skip(0) == p@);
    assert(t@.skip(0) == t@);
    next[0]
}

/// Whether `text` contains `query` in the sense of `LIKE '%query%'`.
pub fn text_like(text: &str, query: &Vec<char>) -> (r: bool)
    ensures
        r == like_contains(text@, query@),
{
    let mut p: Vec<char> = Vec::new();
    p.push('%');
    let mut i: usize = 0;
    while i < query.len()
        invariant
            i <= query.len(),
            p@ == seq!['%'] + query@.take(i as int),
        decreases query.len() - i,
    {
        p.push(query[i]);
        assert(query@.take(i + 1) == query@.take(i as int).push(query@[i as int]));
        i = i + 1;
    }
    p.push('%');
    assert(query@.take(query.len() as int) == query@);
    assert(p@ == contains_pattern(query@));
    let t = chars_of(text);
    like_match_chars(&p, &t)
}

/// Whether an optional text contains `query` (a missing text contains
/// nothing).
pub open spec fn opt_like_contains(t: Option<Seq<char>>, query: Seq<char>) -> bool {
    match t {
        Some(s) => like_contains(s, query),
        None => false,
    }
}

} // verus!
