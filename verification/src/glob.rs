//! Wildcard matching inside one path component: `*` for any run of
//! characters, `?` for exactly one.

use vstd::prelude::*;

verus! {

/// Whether `p[i..]` matches `t[j..]`.
pub open spec fn glob_at(p: Seq<char>, t: Seq<char>, i: int, j: int) -> bool
    decreases p.len() - i, t.len() - j,
{
    if i >= p.len() {
        j >= t.len()
    } else if p[i] == '*' {
        glob_at(p, t, i + 1, j) || (j < t.len() && glob_at(p, t, i, j + 1))
    } else {
        j < t.len() && (p[i] == '?' || p[i] == t[j]) && glob_at(p, t, i + 1, j + 1)
    }
}

/// Whether the whole of `t` matches the pattern `p`.
pub open spec fn glob(p: Seq<char>, t: Seq<char>) -> bool {
    glob_at(p, t, 0, 0)
}

/// `p[a..b]` holds no `*` and matches `t[j..j + (b - a)]` character for character.
pub open spec fn literal_run(p: Seq<char>, t: Seq<char>, a: int, b: int, j: int) -> bool {
    &&& 0 <= a <= b <= p.len()
    &&& 0 <= j
    &&& j + (b - a) <= t.len()
    &&& forall|q: int|
        a <= q < b ==> #[trigger] p[q] != '*' && (p[q] == '?' || p[q] == t[j + (q - a)])
}

/// A matched literal run can be stepped over.
proof fn lemma_literal_run(p: Seq<char>, t: Seq<char>, a: int, b: int, j: int)
    requires
        literal_run(p, t, a, b, j),
    ensures
        glob_at(p, t, a, j) == glob_at(p, t, b, j + (b - a)),
    decreases b - a,
{
    if a < b {
        assert(p[a] != '*');
        lemma_literal_run(p, t, a + 1, b, j + 1);
    }
}

/// A pattern stretch without `*` consumes exactly its own length.
proof fn lemma_starless_consumes(p: Seq<char>, t: Seq<char>, a: int, b: int, r: int)
    requires
        0 <= a <= b <= p.len(),
        0 <= r <= t.len(),
        forall|q: int| a <= q < b ==> #[trigger] p[q] != '*',
        glob_at(p, t, a, r),
    ensures
        r + (b - a) <= t.len(),
        glob_at(p, t, b, r + (b - a)),
    decreases b - a,
{
    if a < b {
        assert(p[a] != '*');
        assert(glob_at(p, t, a + 1, r + 1));
        lemma_starless_consumes(p, t, a + 1, b, r + 1);
    }
}

/// A `*` that matches from some position also matches from any earlier one.
proof fn lemma_star_absorbs(p: Seq<char>, t: Seq<char>, k: int, j1: int, j2: int)
    requires
        0 <= k < p.len(),
        p[k] == '*',
        0 <= j1 <= j2 <= t.len(),
        glob_at(p, t, k, j2),
    ensures
        glob_at(p, t, k, j1),
    decreases j2 - j1,
{
    if j1 < j2 {
        lemma_star_absorbs(p, t, k, j1 + 1, j2);
    }
}

/// Past the end of the text, only stars can remain.
proof fn lemma_any_end(p: Seq<char>, t: Seq<char>, i: int, j: int)
    requires
        0 <= i <= p.len(),
        j >= t.len(),
    ensures
        glob_at(p, t, i, j) == (forall|q: int| i <= q < p.len() ==> p[q] == '*'),
    decreases p.len() - i,
{
    if i < p.len() {
        lemma_any_end(p, t, i + 1, j);
        if p[i] == '*' {
            assert(glob_at(p, t, i, j) == glob_at(p, t, i + 1, j));
        }
    }
}

/// A `*` matching from `j` hands over to what follows at some later position.
proof fn lemma_star_witness(p: Seq<char>, t: Seq<char>, k: int, j: int) -> (r: int)
    requires
        0 <= k < p.len(),
        p[k] == '*',
        0 <= j <= t.len(),
        glob_at(p, t, k, j),
    ensures
        j <= r <= t.len(),
        glob_at(p, t, k + 1, r),
    decreases t.len() - j,
{
    if glob_at(p, t, k + 1, j) {
        j
    } else {
        lemma_star_witness(p, t, k, j + 1)
    }
}

/// Wildcard match over two character sequences, with backtracking limited to
/// the most recent `*`.
pub fn glob_chars(p: &[char], t: &[char]) -> (r: bool)
    ensures
        r == glob(p@, t@),
{
    let m = p.len();
    let n = t.len();
    let mut i: usize = 0;
    let mut j: usize = 0;
    let mut star: Option<usize> = None;
    let mut resume: usize = 0;

    while j < n
        invariant
            m == p@.len(),
            n == t@.len(),
            i <= m,
            j <= n,
            resume <= j,
            star is None ==> glob(p@, t@) == glob_at(p@, t@, i as int, j as int),
            star matches Some(k) ==> {
                &&& k < i
                &&& p@[k as int] == '*'
                &&& literal_run(p@, t@, k + 1, i as int, resume as int)
                &&& j - resume == i - (k + 1)
                &&& glob(p@, t@) == glob_at(p@, t@, k as int, resume as int)
            },
        decreases n - resume, n - j, m - i,
    {
        if i < m && p[i] == '*' {
            proof {
                if let Some(k) = star {
                    let pp = p@;
                    let tt = t@;
                    lemma_literal_run(pp, tt, k + 1, i as int, resume as int);
                    if glob_at(pp, tt, k as int, resume as int) {
                        let r = lemma_star_witness(pp, tt, k as int, resume as int);
                        lemma_starless_consumes(pp, tt, k + 1, i as int, r);
                        lemma_star_absorbs(pp, tt, i as int, j as int, r + (i - (k + 1)));
                    }
                }
            }
            star = Some(i);
            resume = j;
            i += 1;
        } else if i < m && (p[i] == '?' || p[i] == t[j]) {
            i += 1;
            j += 1;
        } else if let Some(k) = star {
            proof {
                lemma_literal_run(p@, t@, k + 1, i as int, resume as int);
            }
            i = k + 1;
            resume += 1;
            j = resume;
        } else {
            return false;
        }
    }

    proof {
        lemma_any_end(p@, t@, i as int, j as int);
        if let Some(k) = star {
            lemma_end_with_star(p@, t@, k as int, i as int, resume as int);
        }
    }
    let mut q = i;
    while q < m
        invariant
            i <= q <= m,
            m == p@.len(),
            forall|x: int| i <= x < q ==> p@[x] == '*',
            glob(p@, t@) == (forall|x: int| i <= x < m ==> p@[x] == '*'),
        decreases m - q,
    {
        if p[q] != '*' {
            return false;
        }
        q += 1;
    }
    true
}

/// When the text is used up behind a `*` and a literal run, the match is
/// decided by what is left of the pattern.
proof fn lemma_end_with_star(p: Seq<char>, t: Seq<char>, k: int, i: int, resume: int)
    requires
        0 <= k < i <= p.len(),
        p[k] == '*',
        literal_run(p, t, k + 1, i, resume),
        t.len() - resume == i - (k + 1),
    ensures
        glob_at(p, t, k, resume) == glob_at(p, t, i, t.len() as int),
{
    lemma_literal_run(p, t, k + 1, i, resume);
    if glob_at(p, t, k, resume) && !glob_at(p, t, k + 1, resume) {
        assert(resume < t.len());
        assert(glob_at(p, t, k, resume + 1));
        let r = lemma_star_witness(p, t, k, resume + 1);
        lemma_starless_consumes(p, t, k + 1, i, r);
    }
}

} // verus!
