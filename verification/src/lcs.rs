//! Longest common subsequence of two line sequences, with the backtrace that
//! the line diff renders.
use vstd::prelude::*;

verus! {

/// Length of a longest common subsequence of `a` and `b`.
pub open spec fn lcs_len<A>(a: Seq<A>, b: Seq<A>) -> nat
    decreases a.len() + b.len(),
{
    if a.len() == 0 || b.len() == 0 {
        0
    } else if a.last() == b.last() {
        lcs_len(a.drop_last(), b.drop_last()) + 1
    } else {
        let up = lcs_len(a.drop_last(), b);
        let left = lcs_len(a, b.drop_last());
        if up >= left { up } else { left }
    }
}

/// The common subsequence, as index pairs, that the backtrace picks: a match
/// of the last elements is taken, otherwise the shorter prefix of `a` is
/// preferred when it keeps the longest length.
pub open spec fn lcs_path<A>(a: Seq<A>, b: Seq<A>) -> Seq<(int, int)>
    decreases a.len() + b.len(),
{
    if a.len() == 0 || b.len() == 0 {
        seq![]
    } else if a.last() == b.last() {
        lcs_path(a.drop_last(), b.drop_last()).push((a.len() - 1, b.len() - 1))
    } else if lcs_len(a.drop_last(), b) >= lcs_len(a, b.drop_last()) {
        lcs_path(a.drop_last(), b)
    } else {
        lcs_path(a, b.drop_last())
    }
}

pub open spec fn swap_pairs(p: Seq<(int, int)>) -> Seq<(int, int)> {
    p.map_values(|q: (int, int)| (q.1, q.0))
}

/// The index pairs that `lcs_indices` returns: the backtrace is run with the
/// shorter sequence first, and the pairs are given as (index in `a`, index in `b`).
pub open spec fn lcs_pairs<A>(a: Seq<A>, b: Seq<A>) -> Seq<(int, int)> {
    if a.len() == 0 || b.len() == 0 {
        seq![]
    } else if a.len() < b.len() {
        lcs_path(a, b)
    } else {
        swap_pairs(lcs_path(b, a))
    }
}

/// `p` lists matching positions of `a` and `b`, strictly increasing in both.
pub open spec fn is_common_subsequence<A>(a: Seq<A>, b: Seq<A>, p: Seq<(int, int)>) -> bool {
    &&& forall|k: int| 0 <= k < p.len() ==> 0 <= #[trigger] p[k].0 < a.len() && 0 <= p[k].1 < b.len()
    &&& forall|k: int| 0 <= k < p.len() ==> a[#[trigger] p[k].0] == b[p[k].1]
    &&& forall|k: int, l: int| 0 <= k < l < p.len() ==> #[trigger] p[k].0 < #[trigger] p[l].0 && p[k].1 < p[l].1
}

/// A common subsequence is no longer than either sequence.
pub proof fn lemma_lcs_len_bounds<A>(a: Seq<A>, b: Seq<A>)
    ensures
        lcs_len(a, b) <= a.len(),
        lcs_len(a, b) <= b.len(),
    decreases a.len() + b.len(),
{
    if a.len() == 0 || b.len() == 0 {
    } else if a.last() == b.last() {
        lemma_lcs_len_bounds(a.drop_last(), b.drop_last());
    } else {
        lemma_lcs_len_bounds(a.drop_last(), b);
        lemma_lcs_len_bounds(a, b.drop_last());
    }
}

/// The backtrace is a common subsequence and has the longest length.
#[verifier::spinoff_prover]
#[verifier::rlimit(30)]
pub proof fn lemma_lcs_path_valid<A>(a: Seq<A>, b: Seq<A>)
    ensures
        is_common_subsequence(a, b, lcs_path(a, b)),
        lcs_path(a, b).len() == lcs_len(a, b),
    decreases a.len() + b.len(),
{
    if a.len() == 0 || b.len() == 0 {
    } else if a.last() == b.last() {
        let a1 = a.drop_last();
        let b1 = b.drop_last();
        lemma_lcs_path_valid(a1, b1);
        let p = lcs_path(a1, b1);
        let q = p.push((a.len() - 1, b.len() - 1));
        assert forall|k: int| 0 <= k < q.len() implies 0 <= #[trigger] q[k].0 < a.len() && 0 <= q[k].1 < b.len() by {
            if k < p.len() { assert(q[k] == p[k]); }
        }
        assert forall|k: int| 0 <= k < q.len() implies a[#[trigger] q[k].0] == b[q[k].1] by {
            if k < p.len() {
                assert(q[k] == p[k]);
                assert(0 <= p[k].0 < a1.len() && 0 <= p[k].1 < b1.len());
                assert(a1[p[k].0] == b1[p[k].1]);
                assert(a1[p[k].0] == a[p[k].0]);
                assert(b1[p[k].1] == b[p[k].1]);
            }
        }
        assert forall|k: int, l: int| 0 <= k < l < q.len() implies #[trigger] q[k].0 < #[trigger] q[l].0 && q[k].1 < q[l].1 by {
            assert(q[k] == p[k]);
            if l < p.len() { assert(q[l] == p[l]); }
        }
    } else {
        let a1 = a.drop_last();
        let b1 = b.drop_last();
        if lcs_len(a1, b) >= lcs_len(a, b1) {
            lemma_lcs_path_valid(a1, b);
            let p = lcs_path(a1, b);
            assert forall|k: int| 0 <= k < p.len() implies 0 <= #[trigger] p[k].0 < a.len() && 0 <= p[k].1 < b.len() by {
                assert(0 <= p[k].0 < a1.len());
            }
            assert forall|k: int| 0 <= k < p.len() implies a[#[trigger] p[k].0] == b[p[k].1] by {
                assert(0 <= p[k].0 < a1.len());
                assert(a1[p[k].0] == b[p[k].1]);
                assert(a1[p[k].0] == a[p[k].0]);
            }
        } else {
            lemma_lcs_path_valid(a, b1);
            let p = lcs_path(a, b1);
            assert forall|k: int| 0 <= k < p.len() implies 0 <= #[trigger] p[k].0 < a.len() && 0 <= p[k].1 < b.len() by {
                assert(0 <= p[k].0 < a.len() && 0 <= p[k].1 < b1.len());
            }
            assert forall|k: int| 0 <= k < p.len() implies a[#[trigger] p[k].0] == b[p[k].1] by {
                assert(0 <= p[k].0 < a.len() && 0 <= p[k].1 < b1.len());
                assert(a[p[k].0] == b1[p[k].1]);
                assert(b1[p[k].1] == b[p[k].1]);
            }
        }
    }
}

/// No common subsequence is longer than `lcs_len`: the length it gives is
/// the longest.
pub proof fn lemma_lcs_len_is_max<A>(a: Seq<A>, b: Seq<A>, p: Seq<(int, int)>)
    requires
        is_common_subsequence(a, b, p),
    ensures
        p.len() <= lcs_len(a, b),
    decreases a.len() + b.len(),
{
    if p.len() == 0 {
    } else if a.len() == 0 || b.len() == 0 {
        assert(0 <= p[0].0 < a.len() && 0 <= p[0].1 < b.len());
    } else {
        let a1 = a.drop_last();
        let b1 = b.drop_last();
        let n = p.len() - 1;
        let last = p[n];
        assert(0 <= last.0 < a.len() && 0 <= last.1 < b.len());
        assert(a[last.0] == b[last.1]);
        if a.last() == b.last() {
            let q = p.drop_last();
            assert forall|k: int| 0 <= k < q.len() implies 0 <= #[trigger] q[k].0 < a1.len() && 0 <= q[k].1 < b1.len() by {
                assert(q[k] == p[k]);
                assert(p[k].0 < p[n].0 && p[k].1 < p[n].1);
                assert(0 <= p[k].0 < a.len() && 0 <= p[k].1 < b.len());
            }
            assert forall|k: int| 0 <= k < q.len() implies a1[#[trigger] q[k].0] == b1[q[k].1] by {
                assert(q[k] == p[k]);
                assert(p[k].0 < p[n].0 && p[k].1 < p[n].1);
                assert(0 <= p[k].0 < a.len() && 0 <= p[k].1 < b.len());
                assert(a[p[k].0] == b[p[k].1]);
            }
            assert forall|k: int, l: int| 0 <= k < l < q.len() implies #[trigger] q[k].0 < #[trigger] q[l].0 && q[k].1 < q[l].1 by {
                assert(q[k] == p[k] && q[l] == p[l]);
            }
            lemma_lcs_len_is_max(a1, b1, q);
        } else if last.0 < a.len() - 1 {
            assert forall|k: int| 0 <= k < p.len() implies 0 <= #[trigger] p[k].0 < a1.len() && 0 <= p[k].1 < b.len() by {
                if k < n { assert(p[k].0 < p[n].0); }
            }
            assert forall|k: int| 0 <= k < p.len() implies a1[#[trigger] p[k].0] == b[p[k].1] by {
                if k < n { assert(p[k].0 < p[n].0); }
            }
            lemma_lcs_len_is_max(a1, b, p);
        } else {
            assert(last.1 < b.len() - 1);
            assert forall|k: int| 0 <= k < p.len() implies 0 <= #[trigger] p[k].0 < a.len() && 0 <= p[k].1 < b1.len() by {
                if k < n { assert(p[k].0 < p[n].0 && p[k].1 < p[n].1); }
            }
            assert forall|k: int| 0 <= k < p.len() implies a[#[trigger] p[k].0] == b1[p[k].1] by {
                if k < n { assert(p[k].0 < p[n].0 && p[k].1 < p[n].1); }
            }
            lemma_lcs_len_is_max(a, b1, p);
        }
    }
}

/// The longest common subsequence has the same length either way round.
pub proof fn lemma_lcs_len_symmetric<A>(a: Seq<A>, b: Seq<A>)
    ensures
        lcs_len(a, b) == lcs_len(b, a),
    decreases a.len() + b.len(),
{
    if a.len() == 0 || b.len() == 0 {
    } else if a.last() == b.last() {
        lemma_lcs_len_symmetric(a.drop_last(), b.drop_last());
    } else {
        lemma_lcs_len_symmetric(a.drop_last(), b);
        lemma_lcs_len_symmetric(a, b.drop_last());
    }
}

/// The pairs `lcs_indices` returns form a longest common subsequence.
pub proof fn lemma_lcs_pairs_valid<A>(a: Seq<A>, b: Seq<A>)
    ensures
        is_common_subsequence(a, b, lcs_pairs(a, b)),
        lcs_pairs(a, b).len() == lcs_len(a, b),
{
    if a.len() == 0 || b.len() == 0 {
    } else if a.len() < b.len() {
        lemma_lcs_path_valid(a, b);
    } else {
        lemma_lcs_path_valid(b, a);
        lemma_lcs_len_symmetric(a, b);
        let p = lcs_path(b, a);
        let q = swap_pairs(p);
        assert forall|k: int| 0 <= k < q.len() implies 0 <= #[trigger] q[k].0 < a.len() && 0 <= q[k].1 < b.len() by {
            assert(q[k] == (p[k].1, p[k].0));
        }
        assert forall|k: int| 0 <= k < q.len() implies a[#[trigger] q[k].0] == b[q[k].1] by {
            assert(q[k] == (p[k].1, p[k].0));
        }
        assert forall|k: int, l: int| 0 <= k < l < q.len() implies #[trigger] q[k].0 < #[trigger] q[l].0 && q[k].1 < q[l].1 by {
            assert(q[k] == (p[k].1, p[k].0));
            assert(q[l] == (p[l].1, p[l].0));
        }
    }
}

pub open spec fn strs(v: Seq<String>) -> Seq<Seq<char>> {
    v.map_values(|s: String| s@)
}

pub open spec fn pairs_view(v: Seq<(usize, usize)>) -> Seq<(int, int)> {
    v.map_values(|p: (usize, usize)| (p.0 as int, p.1 as int))
}

spec fn choice_of(a: Seq<Seq<char>>, b: Seq<Seq<char>>, i: int, j: int) -> u8 {
    if a[i - 1] == b[j - 1] {
        1
    } else if lcs_len(a.take(i - 1), b.take(j)) >= lcs_len(a.take(i), b.take(j - 1)) {
        2
    } else {
        3
    }
}

proof fn lemma_take_shapes<A>(a: Seq<A>, i: int)
    requires
        1 <= i <= a.len(),
    ensures
        a.take(i).drop_last() == a.take(i - 1),
        a.take(i).last() == a[i - 1],
{
    assert(a.take(i).drop_last() =~= a.take(i - 1));
}

/// Backtrace of the dynamic program over `a` and `b`.
fn lcs_core(a: &Vec<String>, b: &Vec<String>) -> (r: Vec<(usize, usize)>)
    requires
        a@.len() > 0,
        b@.len() > 0,
    ensures
        pairs_view(r@) == lcs_path(strs(a@), strs(b@)),
{
    let ghost sa = strs(a@);
    let ghost sb = strs(b@);
    let n = a.len();
    let m = b.len();
    // choice[i][j]: 1 = diagonal, 2 = up, 3 = left; row 0 and column 0 are unused.
    let mut choice: Vec<Vec<u8>> = Vec::new();
    let mut row0: Vec<u8> = Vec::new();
    row0.push(0);
    let mut j: usize = 0;
    while j < m
        invariant
            j <= m,
            row0@.len() == j + 1,
            m == b@.len(),
        decreases m - j,
    {
        row0.push(0);
        j = j + 1;
    }
    choice.push(row0);
    let mut prev: Vec<usize> = Vec::new();
    prev.push(0);
    j = 0;
    while j < m
        invariant
            j <= m,
            prev@.len() == j + 1,
            forall|k: int| 0 <= k <= j ==> prev@[k] == 0,
            m == b@.len(),
        decreases m - j,
    {
        prev.push(0);
        j = j + 1;
    }
    proof {
        assert forall|k: int| 0 <= k <= m implies prev@[k] == lcs_len(sa.take(0), sb.take(k)) by {}
    }
    let mut i0: usize = 0;
    while i0 < n
        invariant
            0 <= i0 <= n,
            n == a@.len(),
            m == b@.len(),
            sa == strs(a@),
            sb == strs(b@),
            prev@.len() == m + 1,
            forall|k: int| 0 <= k <= m ==> prev@[k] == lcs_len(sa.take(i0 as int), sb.take(k)),
            choice@.len() == i0 + 1,
            forall|r: int| 0 <= r <= i0 ==> (#[trigger] choice@[r])@.len() == m + 1,
            forall|r: int, c: int| 1 <= r <= i0 && 1 <= c <= m ==> #[trigger] choice@[r]@[c] == choice_of(sa, sb, r, c),
        decreases n - i0,
    {
        let i = i0 + 1;
        let mut curr: Vec<usize> = Vec::new();
        curr.push(0);
        let mut crow: Vec<u8> = Vec::new();
        crow.push(0);
        proof {
            assert(curr@[0] == lcs_len(sa.take(i as int), sb.take(0)));
        }
        let mut j0: usize = 0;
        while j0 < m
            invariant
                1 <= i <= n,
                i == i0 + 1,
                0 <= j0 <= m,
                n == a@.len(),
                m == b@.len(),
                sa == strs(a@),
                sb == strs(b@),
                prev@.len() == m + 1,
                forall|k: int| 0 <= k <= m ==> prev@[k] == lcs_len(sa.take(i - 1), sb.take(k)),
                curr@.len() == j0 + 1,
                crow@.len() == j0 + 1,
                forall|k: int| 0 <= k <= j0 ==> curr@[k] == lcs_len(sa.take(i as int), sb.take(k)),
                forall|k: int| 1 <= k <= j0 ==> crow@[k] == choice_of(sa, sb, i as int, k),
            decreases m - j0,
        {
            let j = j0 + 1;
            proof {
                lemma_take_shapes(sa, i as int);
                lemma_take_shapes(sb, j as int);
                lemma_lcs_len_bounds(sa.take(i - 1), sb.take(j - 1));
                assert(sa[i - 1] == a@[i - 1]@);
                assert(sb[j - 1] == b@[j - 1]@);
            }
            if a[i - 1] == b[j - 1] {
                let v = prev[j - 1] + 1;
                curr.push(v);
                crow.push(1);
            } else if prev[j] >= curr[j - 1] {
                let v = prev[j];
                curr.push(v);
                crow.push(2);
            } else {
                let v = curr[j - 1];
                curr.push(v);
                crow.push(3);
            }
            j0 = j0 + 1;
        }
        choice.push(crow);
        prev = curr;
        i0 = i0 + 1;
    }
    // Reconstruct in reverse.
    let mut rev: Vec<(usize, usize)> = Vec::new();
    let mut i: usize = n;
    let mut j: usize = m;
    proof {
        assert(sa.take(n as int) =~= sa);
        assert(sb.take(m as int) =~= sb);
    }
    while i > 0 && j > 0
        invariant
            i <= n,
            j <= m,
            n == a@.len(),
            m == b@.len(),
            sa == strs(a@),
            sb == strs(b@),
            choice@.len() == n + 1,
            forall|r: int| 0 <= r <= n ==> (#[trigger] choice@[r])@.len() == m + 1,
            forall|r: int, c: int| 1 <= r <= n && 1 <= c <= m ==> #[trigger] choice@[r]@[c] == choice_of(sa, sb, r, c),
            lcs_path(sa, sb) == lcs_path(sa.take(i as int), sb.take(j as int)) + pairs_view(rev@).reverse(),
        decreases i + j,
    {
        proof {
            lemma_take_shapes(sa, i as int);
            lemma_take_shapes(sb, j as int);
        }
        let c = choice[i][j];
        if c == 1 {
            let ghost old_rev = pairs_view(rev@);
            rev.push((i - 1, j - 1));
            proof {
                assert(pairs_view(rev@) =~= old_rev.push(((i - 1) as int, (j - 1) as int)));
                assert(old_rev.push(((i - 1) as int, (j - 1) as int)).reverse() =~= seq![((i - 1) as int, (j - 1) as int)] + old_rev.reverse());
                let p1 = lcs_path(sa.take(i - 1), sb.take(j - 1));
                assert(lcs_path(sa.take(i as int), sb.take(j as int)) == p1.push(((i - 1) as int, (j - 1) as int)));
                assert(p1.push(((i - 1) as int, (j - 1) as int)) + old_rev.reverse() =~= p1 + (seq![((i - 1) as int, (j - 1) as int)] + old_rev.reverse()));
            }
            i = i - 1;
            j = j - 1;
        } else if c == 2 {
            i = i - 1;
        } else {
            j = j - 1;
        }
    }
    proof {
        assert(lcs_path(sa.take(i as int), sb.take(j as int)) == Seq::<(int, int)>::empty());
        assert(lcs_path(sa, sb) =~= pairs_view(rev@).reverse());
    }
    let mut out: Vec<(usize, usize)> = Vec::new();
    let len = rev.len();
    let mut k: usize = 0;
    while k < len
        invariant
            k <= len,
            len == rev@.len(),
            out@.len() == k,
            forall|t: int| 0 <= t < k ==> out@[t] == rev@[len - 1 - t],
        decreases len - k,
    {
        out.push(rev[len - 1 - k]);
        k = k + 1;
    }
    proof {
        assert(pairs_view(out@) =~= pairs_view(rev@).reverse());
    }
    out
}

/// Index pairs of a longest common subsequence of `a` and `b`.
pub fn lcs_indices(a: &Vec<String>, b: &Vec<String>) -> (r: Vec<(usize, usize)>)
    ensures
        pairs_view(r@) == lcs_pairs(strs(a@), strs(b@)),
{
    if a.len() == 0 || b.len() == 0 {
        return Vec::new();
    }
    if a.len() < b.len() {
        lcs_core(a, b)
    } else {
        let p = lcs_core(b, a);
        let mut out: Vec<(usize, usize)> = Vec::new();
        let mut k: usize = 0;
        while k < p.len()
            invariant
                k <= p@.len(),
                out@.len() == k,
                forall|t: int| 0 <= t < k ==> out@[t] == (p@[t].1, p@[t].0),
            decreases p@.len() - k,
        {
            out.push((p[k].1, p[k].0));
            k = k + 1;
        }
        proof {
            assert(pairs_view(out@) =~= swap_pairs(pairs_view(p@)));
        }
        out
    }
}

} // verus!
