//! Line-level text diff: line splitting, edit operations from a longest
//! common subsequence, and the single-hunk rendering used by Osmosis.
use vstd::prelude::*;
use crate::lcs::{lcs_indices, lcs_len, lcs_pairs, pairs_view, strs, is_common_subsequence, lemma_lcs_pairs_valid};
use crate::text::{chars_of, string_from, string_from_prefix, owned};
use crate::types::osmosis::{diff_lines_view, hunks_view, files_view, DiffLineView, FileDiffView, HunkView, OsmosisDiffLine, OsmosisFileDiff, OsmosisHunk, OsmosisStructuredDiff};

verus! {



// ─── Lines ──────────────────────────────────────────────────────────────────

/// Pieces of `s` between newline characters (always at least one piece).
pub open spec fn split_nl(s: Seq<char>) -> Seq<Seq<char>>
    decreases s.len(),
{
    if s.len() == 0 {
        seq![seq![]]
    } else {
        let p = split_nl(s.drop_last());
        if s.last() == '\n' {
            p.push(seq![])
        } else {
            p.update(p.len() - 1, p.last().push(s.last()))
        }
    }
}

pub open spec fn strip_cr(l: Seq<char>) -> Seq<char> {
    if l.len() > 0 && l.last() == '\r' { l.drop_last() } else { l }
}

/// The lines of `s`: split at `\n`, a `\r` before the `\n` removed, and no
/// empty line after a final line ending.
pub open spec fn lines_of(s: Seq<char>) -> Seq<Seq<char>> {
    let p = split_nl(s);
    let n = p.len() as int;
    let cnt = if p[n - 1].len() == 0 { n - 1 } else { n };
    Seq::new(cnt as nat, |k: int| if k < n - 1 { strip_cr(p[k]) } else { p[k] })
}

proof fn lemma_split_nl_size(s: Seq<char>)
    ensures
        split_nl(s).len() >= 1,
        split_nl(s).len() + split_nl(s).last().len() <= s.len() + 1,
    decreases s.len(),
{
    if s.len() > 0 {
        lemma_split_nl_size(s.drop_last());
    }
}

/// A text has no more lines than characters.
pub proof fn lemma_lines_len(s: Seq<char>)
    ensures
        lines_of(s).len() <= s.len(),
{
    lemma_split_nl_size(s);
}

/// The lines of `s`, as `str::lines` gives them.
pub fn text_lines(s: &str) -> (r: Vec<String>)
    ensures
        strs(r@) == lines_of(s@),
        r@.len() <= s@.len(),
{
    let cs = chars_of(s);
    let mut lines: Vec<String> = Vec::new();
    let ghost mut raw: Seq<Seq<char>> = seq![];
    let mut cur: Vec<char> = Vec::new();
    let mut i: usize = 0;
    while i < cs.len()
        invariant
            i <= cs@.len(),
            cs@ == s@,
            split_nl(cs@.take(i as int)) == raw.push(cur@),
            lines@.len() == raw.len(),
            forall|k: int| 0 <= k < raw.len() ==> (#[trigger] lines@[k])@ == strip_cr(raw[k]),
        decreases cs@.len() - i,
    {
        let c = cs[i];
        proof {
            assert(cs@.take(i + 1).drop_last() == cs@.take(i as int));
            assert(cs@.take(i + 1).last() == c);
        }
        if c == '\n' {
            let n = cur.len();
            let line = if n > 0 && cur[n - 1] == '\r' {
                string_from_prefix(&cur, n - 1)
            } else {
                string_from(&cur)
            };
            proof {
                assert(line@ == strip_cr(cur@));
                raw = raw.push(cur@);
            }
            lines.push(line);
            cur = Vec::new();
            proof {
                assert(split_nl(cs@.take(i + 1)) =~= raw.push(cur@));
            }
        } else {
            proof {
                let p = split_nl(cs@.take(i as int));
                assert(p == raw.push(cur@));
                assert(p.update(p.len() - 1, p.last().push(c)) =~= raw.push(cur@.push(c)));
            }
            cur.push(c);
        }
        i = i + 1;
    }
    proof {
        assert(cs@.take(cs@.len() as int) == cs@);
        lemma_split_nl_size(s@);
    }
    if cur.len() > 0 {
        let line = string_from(&cur);
        lines.push(line);
    }
    proof {
        assert(strs(lines@) =~= lines_of(s@));
    }
    lines
}

// ─── Edit operations ────────────────────────────────────────────────────────

/// An edit operation, by line index: a line kept in both texts (index in the
/// old and in the new text), a line of the old text removed, a line of the
/// new text added.
pub enum OpV {
    Context(int, int),
    Remove(int),
    Add(int),
}

#[derive(Clone, Copy)]
pub enum DiffOp {
    Context(usize, usize),
    Remove(usize),
    Add(usize),
}

impl View for DiffOp {
    type V = OpV;

    open spec fn view(&self) -> OpV {
        match self {
            DiffOp::Context(o, n) => OpV::Context(*o as int, *n as int),
            DiffOp::Remove(o) => OpV::Remove(*o as int),
            DiffOp::Add(n) => OpV::Add(*n as int),
        }
    }
}

pub open spec fn ops_view(v: Seq<DiffOp>) -> Seq<OpV> {
    v.map_values(|o: DiffOp| o@)
}

pub open spec fn removes(a: int, b: int) -> Seq<OpV> {
    Seq::new((b - a) as nat, |k: int| OpV::Remove(a + k))
}

pub open spec fn adds(a: int, b: int) -> Seq<OpV> {
    Seq::new((b - a) as nat, |k: int| OpV::Add(a + k))
}

/// Operations that walk the common subsequence `pairs`, starting at old line
/// `oi` and new line `ni`: lines before each matched pair are removed (old)
/// and added (new), the pair itself is kept.
pub open spec fn ops_from(pairs: Seq<(int, int)>, oi: int, ni: int, olen: int, nlen: int) -> Seq<OpV>
    decreases pairs.len(),
{
    if pairs.len() == 0 {
        removes(oi, olen) + adds(ni, nlen)
    } else {
        let p = pairs[0];
        removes(oi, p.0) + adds(ni, p.1) + seq![OpV::Context(p.0, p.1)]
            + ops_from(pairs.drop_first(), p.0 + 1, p.1 + 1, olen, nlen)
    }
}

pub open spec fn spec_ops(pairs: Seq<(int, int)>, olen: int, nlen: int) -> Seq<OpV> {
    ops_from(pairs, 0, 0, olen, nlen)
}

pub open spec fn pairs_fit(pairs: Seq<(int, int)>, olen: int, nlen: int) -> bool {
    &&& forall|k: int| 0 <= k < pairs.len() ==> 0 <= #[trigger] pairs[k].0 < olen && 0 <= pairs[k].1 < nlen
    &&& forall|k: int, l: int| 0 <= k < l < pairs.len() ==> #[trigger] pairs[k].0 < #[trigger] pairs[l].0 && pairs[k].1 < pairs[l].1
}

/// Edit operations along the common subsequence `lcs`.
pub fn build_ops(old_len: usize, new_len: usize, lcs: &Vec<(usize, usize)>) -> (r: Vec<DiffOp>)
    requires
        pairs_fit(pairs_view(lcs@), old_len as int, new_len as int),
    ensures
        ops_view(r@) == spec_ops(pairs_view(lcs@), old_len as int, new_len as int),
{
    let ghost pv = pairs_view(lcs@);
    let mut ops: Vec<DiffOp> = Vec::new();
    let mut oi: usize = 0;
    let mut ni: usize = 0;
    let mut k: usize = 0;
    proof {
        assert(pv.skip(0) =~= pv);
        assert(ops_view(ops@) =~= Seq::<OpV>::empty());
    }
    while k < lcs.len()
        invariant
            k <= lcs@.len(),
            pv == pairs_view(lcs@),
            pairs_fit(pv, old_len as int, new_len as int),
            oi <= old_len,
            ni <= new_len,
            k < lcs@.len() ==> oi <= pv[k as int].0 && ni <= pv[k as int].1,
            ops_view(ops@) + ops_from(pv.skip(k as int), oi as int, ni as int, old_len as int, new_len as int)
                == spec_ops(pv, old_len as int, new_len as int),
        decreases lcs@.len() - k,
    {
        let (omi, nmi) = lcs[k];
        let ghost base = ops_view(ops@);
        let ghost oi0 = oi as int;
        let ghost ni0 = ni as int;
        proof {
            assert(pv[k as int] == (omi as int, nmi as int));
        }
        while oi < omi
            invariant
                oi0 <= oi <= omi,
                ops_view(ops@) == base + removes(oi0, oi as int),
            decreases omi - oi,
        {
            let ghost prev = ops_view(ops@);
            ops.push(DiffOp::Remove(oi));
            proof {
                assert(removes(oi0, oi + 1) =~= removes(oi0, oi as int).push(OpV::Remove(oi as int)));
                assert(ops_view(ops@) =~= prev.push(OpV::Remove(oi as int)));
            }
            oi = oi + 1;
        }
        let ghost base2 = ops_view(ops@);
        while ni < nmi
            invariant
                ni0 <= ni <= nmi,
                ops_view(ops@) == base2 + adds(ni0, ni as int),
            decreases nmi - ni,
        {
            let ghost prev = ops_view(ops@);
            ops.push(DiffOp::Add(ni));
            proof {
                assert(adds(ni0, ni + 1) =~= adds(ni0, ni as int).push(OpV::Add(ni as int)));
                assert(ops_view(ops@) =~= prev.push(OpV::Add(ni as int)));
            }
            ni = ni + 1;
        }
        ops.push(DiffOp::Context(oi, ni));
        proof {
            let rest = pv.skip(k as int);
            assert(rest[0] == (omi as int, nmi as int));
            assert(rest.drop_first() =~= pv.skip(k + 1));
            assert(ops_view(ops@) =~= base + removes(oi0, omi as int) + adds(ni0, nmi as int) + seq![OpV::Context(omi as int, nmi as int)]);
            assert(ops_from(rest, oi0, ni0, old_len as int, new_len as int) ==
                removes(oi0, omi as int) + adds(ni0, nmi as int) + seq![OpV::Context(omi as int, nmi as int)]
                + ops_from(pv.skip(k + 1), omi + 1, nmi + 1, old_len as int, new_len as int));
            assert(ops_view(ops@) + ops_from(pv.skip(k + 1), omi + 1, nmi + 1, old_len as int, new_len as int)
                =~= base + ops_from(rest, oi0, ni0, old_len as int, new_len as int));
            if k + 1 < lcs@.len() {
                assert(pv[k as int].0 < pv[k + 1].0);
            }
        }
        oi = omi + 1;
        ni = nmi + 1;
        k = k + 1;
    }
    let ghost base3 = ops_view(ops@);
    let ghost oi0 = oi as int;
    let ghost ni0 = ni as int;
    proof {
        assert(pv.skip(k as int).len() == 0);
    }
    while oi < old_len
        invariant
            oi0 <= oi <= old_len,
            ops_view(ops@) == base3 + removes(oi0, oi as int),
        decreases old_len - oi,
    {
        let ghost prev = ops_view(ops@);
        ops.push(DiffOp::Remove(oi));
        proof {
            assert(removes(oi0, oi + 1) =~= removes(oi0, oi as int).push(OpV::Remove(oi as int)));
            assert(ops_view(ops@) =~= prev.push(OpV::Remove(oi as int)));
        }
        oi = oi + 1;
    }
    let ghost base4 = ops_view(ops@);
    while ni < new_len
        invariant
            ni0 <= ni <= new_len,
            ops_view(ops@) == base4 + adds(ni0, ni as int),
        decreases new_len - ni,
    {
        let ghost prev = ops_view(ops@);
        ops.push(DiffOp::Add(ni));
        proof {
            assert(adds(ni0, ni + 1) =~= adds(ni0, ni as int).push(OpV::Add(ni as int)));
            assert(ops_view(ops@) =~= prev.push(OpV::Add(ni as int)));
        }
        ni = ni + 1;
    }
    proof {
        assert(ops_view(ops@) =~= base3 + (removes(oi0, old_len as int) + adds(ni0, new_len as int)));
    }
    ops
}

// ─── Sides of an edit script ────────────────────────────────────────────────

/// Old-text line indices that the operations walk (kept and removed lines).
pub open spec fn old_side(ops: Seq<OpV>) -> Seq<int>
    decreases ops.len(),
{
    if ops.len() == 0 {
        seq![]
    } else {
        let rest = old_side(ops.drop_first());
        match ops[0] {
            OpV::Context(o, _) => seq![o] + rest,
            OpV::Remove(o) => seq![o] + rest,
            OpV::Add(_) => rest,
        }
    }
}

/// New-text line indices that the operations walk (kept and added lines).
pub open spec fn new_side(ops: Seq<OpV>) -> Seq<int>
    decreases ops.len(),
{
    if ops.len() == 0 {
        seq![]
    } else {
        let rest = new_side(ops.drop_first());
        match ops[0] {
            OpV::Context(_, n) => seq![n] + rest,
            OpV::Remove(_) => rest,
            OpV::Add(n) => seq![n] + rest,
        }
    }
}

pub open spec fn range(a: int, b: int) -> Seq<int> {
    Seq::new((b - a) as nat, |k: int| a + k)
}

pub open spec fn is_change(op: OpV) -> bool {
    !(op is Context)
}

pub open spec fn all_context(ops: Seq<OpV>) -> bool {
    forall|k: int| 0 <= k < ops.len() ==> !is_change(#[trigger] ops[k])
}

/// Every index of the operations is a line of its text, and every kept line
/// is the same in both texts.
pub open spec fn ops_valid(ops: Seq<OpV>, o: Seq<Seq<char>>, n: Seq<Seq<char>>) -> bool {
    forall|k: int| 0 <= k < ops.len() ==> match #[trigger] ops[k] {
        OpV::Context(i, j) => 0 <= i < o.len() && 0 <= j < n.len() && o[i] == n[j],
        OpV::Remove(i) => 0 <= i < o.len(),
        OpV::Add(j) => 0 <= j < n.len(),
    }
}

/// The old and new sides of joined operations are the joined sides.
pub proof fn lemma_old_side_concat(x: Seq<OpV>, y: Seq<OpV>)
    ensures
        old_side(x + y) == old_side(x) + old_side(y),
        new_side(x + y) == new_side(x) + new_side(y),
    decreases x.len(),
{
    if x.len() == 0 {
        assert(x + y =~= y);
    } else {
        assert((x + y).drop_first() =~= x.drop_first() + y);
        lemma_old_side_concat(x.drop_first(), y);
        assert(old_side(x + y) =~= old_side(x) + old_side(y));
        assert(new_side(x + y) =~= new_side(x) + new_side(y));
    }
}

proof fn lemma_sides_removes(a: int, b: int)
    requires
        a <= b,
    ensures
        old_side(removes(a, b)) == range(a, b),
        new_side(removes(a, b)) == Seq::<int>::empty(),
    decreases b - a,
{
    if a < b {
        assert(removes(a, b).drop_first() =~= removes(a + 1, b));
        lemma_sides_removes(a + 1, b);
        assert(range(a, b) =~= seq![a] + range(a + 1, b));
    } else {
        assert(removes(a, b) =~= Seq::<OpV>::empty());
        assert(range(a, b) =~= Seq::<int>::empty());
    }
}

proof fn lemma_sides_adds(a: int, b: int)
    requires
        a <= b,
    ensures
        new_side(adds(a, b)) == range(a, b),
        old_side(adds(a, b)) == Seq::<int>::empty(),
    decreases b - a,
{
    if a < b {
        assert(adds(a, b).drop_first() =~= adds(a + 1, b));
        lemma_sides_adds(a + 1, b);
        assert(range(a, b) =~= seq![a] + range(a + 1, b));
    } else {
        assert(adds(a, b) =~= Seq::<OpV>::empty());
        assert(range(a, b) =~= Seq::<int>::empty());
    }
}

/// The operations walk every line of the old text and every line of the new
/// text, in order, and keep only lines that the two texts share.
pub proof fn lemma_ops_from_sides(
    pairs: Seq<(int, int)>,
    oi: int,
    ni: int,
    o: Seq<Seq<char>>,
    n: Seq<Seq<char>>,
)
    requires
        is_common_subsequence(o, n, pairs),
        0 <= oi <= o.len(),
        0 <= ni <= n.len(),
        pairs.len() > 0 ==> oi <= pairs[0].0 && ni <= pairs[0].1,
    ensures
        old_side(ops_from(pairs, oi, ni, o.len() as int, n.len() as int)) == range(oi, o.len() as int),
        new_side(ops_from(pairs, oi, ni, o.len() as int, n.len() as int)) == range(ni, n.len() as int),
        ops_valid(ops_from(pairs, oi, ni, o.len() as int, n.len() as int), o, n),
    decreases pairs.len(),
{
    let olen = o.len() as int;
    let nlen = n.len() as int;
    if pairs.len() == 0 {
        lemma_sides_removes(oi, olen);
        lemma_sides_adds(ni, nlen);
        lemma_old_side_concat(removes(oi, olen), adds(ni, nlen));
        assert(range(oi, olen) + Seq::<int>::empty() =~= range(oi, olen));
        assert(Seq::<int>::empty() + range(ni, nlen) =~= range(ni, nlen));
        let ops = removes(oi, olen) + adds(ni, nlen);
        assert forall|k: int| 0 <= k < ops.len() implies match #[trigger] ops[k] {
            OpV::Context(i, j) => 0 <= i < o.len() && 0 <= j < n.len() && o[i] == n[j],
            OpV::Remove(i) => 0 <= i < o.len(),
            OpV::Add(j) => 0 <= j < n.len(),
        } by {
            if k < olen - oi {
                assert(ops[k] == OpV::Remove(oi + k));
            } else {
                assert(ops[k] == OpV::Add(ni + (k - (olen - oi))));
            }
        }
    } else {
        let p = pairs[0];
        let rest = pairs.drop_first();
        assert(is_common_subsequence(o, n, rest)) by {
            assert forall|k: int| 0 <= k < rest.len() implies 0 <= #[trigger] rest[k].0 < o.len() && 0 <= rest[k].1 < n.len() by {
                assert(rest[k] == pairs[k + 1]);
            }
            assert forall|k: int| 0 <= k < rest.len() implies o[#[trigger] rest[k].0] == n[rest[k].1] by {
                assert(rest[k] == pairs[k + 1]);
            }
            assert forall|k: int, l: int| 0 <= k < l < rest.len() implies #[trigger] rest[k].0 < #[trigger] rest[l].0 && rest[k].1 < rest[l].1 by {
                assert(rest[k] == pairs[k + 1]);
                assert(rest[l] == pairs[l + 1]);
            }
        }
        assert(0 <= p.0 < olen && 0 <= p.1 < nlen);
        assert(o[p.0] == n[p.1]);
        if rest.len() > 0 {
            assert(rest[0] == pairs[1]);
            assert(pairs[0].0 < pairs[1].0 && pairs[0].1 < pairs[1].1);
        }
        lemma_ops_from_sides(rest, p.0 + 1, p.1 + 1, o, n);
        let tail = ops_from(rest, p.0 + 1, p.1 + 1, olen, nlen);
        let ctx = seq![OpV::Context(p.0, p.1)];
        lemma_sides_removes(oi, p.0);
        lemma_sides_adds(ni, p.1);
        lemma_old_side_concat(removes(oi, p.0), adds(ni, p.1));
        lemma_old_side_concat(removes(oi, p.0) + adds(ni, p.1), ctx);
        lemma_old_side_concat(removes(oi, p.0) + adds(ni, p.1) + ctx, tail);
        assert(old_side(ctx) =~= seq![p.0]) by {
            assert(ctx.drop_first() =~= Seq::<OpV>::empty());
            assert(ctx[0] == OpV::Context(p.0, p.1));
            assert(old_side(ctx.drop_first()) =~= Seq::<int>::empty());
        }
        assert(new_side(ctx) =~= seq![p.1]) by {
            assert(ctx.drop_first() =~= Seq::<OpV>::empty());
            assert(ctx[0] == OpV::Context(p.0, p.1));
            assert(new_side(ctx.drop_first()) =~= Seq::<int>::empty());
        }
        assert(range(oi, p.0) + Seq::<int>::empty() + seq![p.0] + range(p.0 + 1, olen) =~= range(oi, olen));
        assert(Seq::<int>::empty() + range(ni, p.1) + seq![p.1] + range(p.1 + 1, nlen) =~= range(ni, nlen));
        let head = removes(oi, p.0) + adds(ni, p.1) + ctx;
        let ops = head + tail;
        assert forall|k: int| 0 <= k < ops.len() implies match #[trigger] ops[k] {
            OpV::Context(i, j) => 0 <= i < o.len() && 0 <= j < n.len() && o[i] == n[j],
            OpV::Remove(i) => 0 <= i < o.len(),
            OpV::Add(j) => 0 <= j < n.len(),
        } by {
            if k < p.0 - oi {
                assert(ops[k] == OpV::Remove(oi + k));
            } else if k < p.0 - oi + p.1 - ni {
                assert(ops[k] == OpV::Add(ni + (k - (p.0 - oi))));
            } else if k == p.0 - oi + p.1 - ni {
                assert(ops[k] == OpV::Context(p.0, p.1));
            } else {
                assert(ops[k] == tail[k - head.len()]);
            }
        }
    }
}

// ─── The rendered hunk ──────────────────────────────────────────────────────

pub open spec fn kind_context() -> Seq<char> {
    seq!['c', 'o', 'n', 't', 'e', 'x', 't']
}

pub open spec fn kind_remove() -> Seq<char> {
    seq!['r', 'e', 'm', 'o', 'v', 'e']
}

pub open spec fn kind_add() -> Seq<char> {
    seq!['a', 'd', 'd']
}

pub open spec fn status_modified() -> Seq<char> {
    seq!['M', 'o', 'd', 'i', 'f', 'i', 'e', 'd']
}

pub open spec fn status_unchanged() -> Seq<char> {
    seq!['U', 'n', 'c', 'h', 'a', 'n', 'g', 'e', 'd']
}

/// Diff lines for the operations, numbered from old line `ol` and new line `nl`.
pub open spec fn render(ops: Seq<OpV>, o: Seq<Seq<char>>, n: Seq<Seq<char>>, ol: int, nl: int) -> Seq<DiffLineView>
    decreases ops.len(),
{
    if ops.len() == 0 {
        seq![]
    } else {
        let rest = ops.drop_first();
        match ops[0] {
            OpV::Context(i, _) => seq![DiffLineView {
                kind: kind_context(),
                content: o[i],
                old_line: Some(ol as usize),
                new_line: Some(nl as usize),
            }] + render(rest, o, n, ol + 1, nl + 1),
            OpV::Remove(i) => seq![DiffLineView {
                kind: kind_remove(),
                content: o[i],
                old_line: Some(ol as usize),
                new_line: None,
            }] + render(rest, o, n, ol + 1, nl),
            OpV::Add(j) => seq![DiffLineView {
                kind: kind_add(),
                content: n[j],
                old_line: None,
                new_line: Some(nl as usize),
            }] + render(rest, o, n, ol, nl + 1),
        }
    }
}

#[verifier::opaque]
pub open spec fn first_change(ops: Seq<OpV>) -> int {
    choose|k: int| 0 <= k < ops.len() && is_change(ops[k]) && forall|j: int| 0 <= j < k ==> !is_change(#[trigger] ops[j])
}

#[verifier::opaque]
pub open spec fn last_change(ops: Seq<OpV>) -> int {
    choose|k: int| 0 <= k < ops.len() && is_change(ops[k]) && forall|j: int| k < j < ops.len() ==> !is_change(#[trigger] ops[j])
}

/// Operations shown in the hunk: three operations of context around the
/// first and the last change.
pub open spec fn hunk_start(ops: Seq<OpV>) -> int {
    let f = first_change(ops);
    if f >= 3 { f - 3 } else { 0 }
}

pub open spec fn hunk_end(ops: Seq<OpV>) -> int {
    let l = last_change(ops);
    if l + 4 <= ops.len() { l + 4 } else { ops.len() as int }
}

pub open spec fn spec_file_diff(ops: Seq<OpV>, o: Seq<Seq<char>>, n: Seq<Seq<char>>) -> FileDiffView {
    let start = hunk_start(ops);
    let mid = ops.subrange(start, hunk_end(ops));
    let os = old_side(ops.take(start)).len() + 1;
    let ns = new_side(ops.take(start)).len() + 1;
    FileDiffView {
        old_path: None,
        new_path: None,
        status: status_modified(),
        hunks: seq![HunkView {
            old_start: os as usize,
            old_lines: old_side(mid).len() as usize,
            new_start: ns as usize,
            new_lines: new_side(mid).len() as usize,
            lines: render(mid, o, n, os as int, ns as int),
        }],
    }
}

pub open spec fn unchanged_file() -> FileDiffView {
    FileDiffView { old_path: None, new_path: None, status: status_unchanged(), hunks: seq![] }
}

/// The structured diff of two texts: one file, unchanged when every
/// operation keeps a line, otherwise one hunk around the changes.
pub open spec fn spec_diff_text(old: Seq<char>, new: Seq<char>) -> Seq<FileDiffView> {
    let o = lines_of(old);
    let n = lines_of(new);
    let ops = spec_ops(lcs_pairs(o, n), o.len() as int, n.len() as int);
    if all_context(ops) {
        seq![unchanged_file()]
    } else {
        seq![spec_file_diff(ops, o, n)]
    }
}

proof fn lemma_side_len(x: Seq<OpV>)
    ensures
        old_side(x).len() <= x.len(),
        new_side(x).len() <= x.len(),
    decreases x.len(),
{
    if x.len() > 0 {
        lemma_side_len(x.drop_first());
    }
}

proof fn lemma_side_split3(x: Seq<OpV>, a: int, b: int)
    requires
        0 <= a <= b <= x.len(),
    ensures
        old_side(x) == old_side(x.take(a)) + old_side(x.subrange(a, b)) + old_side(x.skip(b)),
        new_side(x) == new_side(x.take(a)) + new_side(x.subrange(a, b)) + new_side(x.skip(b)),
{
    assert(x =~= x.take(a) + x.subrange(a, b) + x.skip(b));
    lemma_old_side_concat(x.take(a), x.subrange(a, b));
    lemma_old_side_concat(x.take(a) + x.subrange(a, b), x.skip(b));
}

proof fn lemma_side_single(op: OpV)
    ensures
        old_side(seq![op]) == (if op is Add { Seq::<int>::empty() } else { seq![match op { OpV::Context(i, _) => i, OpV::Remove(i) => i, OpV::Add(j) => j }] }),
        new_side(seq![op]) == (if op is Remove { Seq::<int>::empty() } else { seq![match op { OpV::Context(_, j) => j, OpV::Remove(i) => i, OpV::Add(j) => j }] }),
{
    assert(seq![op].drop_first() =~= Seq::<OpV>::empty());
    assert(seq![op][0] == op);
    assert(old_side(Seq::<OpV>::empty()) =~= Seq::<int>::empty());
    assert(new_side(Seq::<OpV>::empty()) =~= Seq::<int>::empty());
    match op {
        OpV::Context(i, j) => {
            assert(old_side(seq![op]) =~= seq![i]);
            assert(new_side(seq![op]) =~= seq![j]);
        }
        OpV::Remove(i) => {
            assert(old_side(seq![op]) =~= seq![i]);
            assert(new_side(seq![op]) =~= Seq::<int>::empty());
        }
        OpV::Add(j) => {
            assert(old_side(seq![op]) =~= Seq::<int>::empty());
            assert(new_side(seq![op]) =~= seq![j]);
        }
    }
}

fn op_is_change(op: &DiffOp) -> (b: bool)
    ensures
        b == is_change(op@),
{
    match op {
        DiffOp::Context(_, _) => false,
        _ => true,
    }
}

/// Number of operations in `ops[from..to]` that walk an old line.
fn count_old_lines(ops: &Vec<DiffOp>, from: usize, to: usize) -> (c: usize)
    requires
        from <= to <= ops@.len(),
    ensures
        c == old_side(ops_view(ops@).subrange(from as int, to as int)).len(),
{
    let ghost ov = ops_view(ops@);
    let mut c: usize = 0;
    let mut k: usize = from;
    while k < to
        invariant
            from <= k <= to <= ops@.len(),
            ov == ops_view(ops@),
            c == old_side(ov.subrange(from as int, k as int)).len(),
            c <= k - from,
        decreases to - k,
    {
        proof {
            assert(ov.subrange(from as int, k + 1) =~= ov.subrange(from as int, k as int) + seq![ov[k as int]]);
            lemma_old_side_concat(ov.subrange(from as int, k as int), seq![ov[k as int]]);
            lemma_side_single(ov[k as int]);
        }
        match ops[k] {
            DiffOp::Add(_) => {}
            _ => { c = c + 1; }
        }
        k = k + 1;
    }
    c
}

/// Number of operations in `ops[from..to]` that walk a new line.
fn count_new_lines(ops: &Vec<DiffOp>, from: usize, to: usize) -> (c: usize)
    requires
        from <= to <= ops@.len(),
    ensures
        c == new_side(ops_view(ops@).subrange(from as int, to as int)).len(),
{
    let ghost ov = ops_view(ops@);
    let mut c: usize = 0;
    let mut k: usize = from;
    while k < to
        invariant
            from <= k <= to <= ops@.len(),
            ov == ops_view(ops@),
            c == new_side(ov.subrange(from as int, k as int)).len(),
            c <= k - from,
        decreases to - k,
    {
        proof {
            assert(ov.subrange(from as int, k + 1) =~= ov.subrange(from as int, k as int) + seq![ov[k as int]]);
            lemma_old_side_concat(ov.subrange(from as int, k as int), seq![ov[k as int]]);
            lemma_side_single(ov[k as int]);
        }
        match ops[k] {
            DiffOp::Remove(_) => {}
            _ => { c = c + 1; }
        }
        k = k + 1;
    }
    c
}


fn kind_text(op: &DiffOp) -> (r: String)
    ensures
        r@ == (match op@ {
            OpV::Context(_, _) => kind_context(),
            OpV::Remove(_) => kind_remove(),
            OpV::Add(_) => kind_add(),
        }),
{
    match op {
        DiffOp::Context(_, _) => {
            proof { reveal_strlit("context"); }
            owned("context")
        }
        DiffOp::Remove(_) => {
            proof { reveal_strlit("remove"); }
            owned("remove")
        }
        DiffOp::Add(_) => {
            proof { reveal_strlit("add"); }
            owned("add")
        }
    }
}

fn find_first_change(ops: &Vec<DiffOp>) -> (f: usize)
    requires
        !all_context(ops_view(ops@)),
    ensures
        f == first_change(ops_view(ops@)),
        0 <= f < ops@.len(),
        is_change(ops_view(ops@)[f as int]),
{
    let ghost ov = ops_view(ops@);
    let len = ops.len();
    let mut f: usize = 0;
    while f < len && !op_is_change(&ops[f])
        invariant
            f <= len,
            len == ops@.len(),
            ov == ops_view(ops@),
            forall|j: int| 0 <= j < f ==> !is_change(#[trigger] ov[j]),
        decreases len - f,
    {
        f = f + 1;
    }
    proof {
        reveal(first_change);
        if f == len {
            assert(all_context(ov));
        }
        assert(is_change(ov[f as int]));
        let c = first_change(ov);
        assert(0 <= c < ov.len() && is_change(ov[c]) && forall|j: int| 0 <= j < c ==> !is_change(#[trigger] ov[j]));
        if c < f { assert(!is_change(ov[c])); }
        if c > f { assert(!is_change(ov[f as int])); }
    }
    f
}

fn find_last_change(ops: &Vec<DiffOp>, f: usize) -> (l: usize)
    requires
        0 <= f < ops@.len(),
        is_change(ops_view(ops@)[f as int]),
    ensures
        l == last_change(ops_view(ops@)),
        f <= l < ops@.len(),
{
    let ghost ov = ops_view(ops@);
    let len = ops.len();
    let mut l: usize = len - 1;
    while !op_is_change(&ops[l])
        invariant
            f <= l < len,
            len == ops@.len(),
            ov == ops_view(ops@),
            is_change(ov[f as int]),
            forall|j: int| l < j < len ==> !is_change(#[trigger] ov[j]),
        decreases l,
    {
        l = l - 1;
    }
    proof {
        reveal(last_change);
        assert(0 <= l < ov.len() && is_change(ov[l as int]) && forall|j: int| l < j < ov.len() ==> !is_change(#[trigger] ov[j]));
        let c = last_change(ov);
        assert(0 <= c < ov.len() && is_change(ov[c]) && forall|j: int| c < j < ov.len() ==> !is_change(#[trigger] ov[j]));
        if c < l { assert(!is_change(ov[l as int])); }
        if c > l { assert(!is_change(ov[c])); }
    }
    l
}

/// The diff lines for `ops[start..end]`, numbered from `old_start` and `new_start`.
#[verifier::rlimit(40)]
fn render_lines(
    ops: &Vec<DiffOp>,
    old: &Vec<String>,
    new: &Vec<String>,
    start: usize,
    end: usize,
    old_start: usize,
    new_start: usize,
) -> (r: Vec<OsmosisDiffLine>)
    requires
        start <= end <= ops@.len(),
        ops_valid(ops_view(ops@), strs(old@), strs(new@)),
        old_side(ops_view(ops@)).len() == old@.len(),
        new_side(ops_view(ops@)).len() == new@.len(),
        old@.len() < usize::MAX,
        new@.len() < usize::MAX,
        old_start == old_side(ops_view(ops@).take(start as int)).len() + 1,
        new_start == new_side(ops_view(ops@).take(start as int)).len() + 1,
    ensures
        diff_lines_view(r@) == render(ops_view(ops@).subrange(start as int, end as int), strs(old@), strs(new@), old_start as int, new_start as int),
{
    let ghost ov = ops_view(ops@);
    let ghost so = strs(old@);
    let ghost sn = strs(new@);
    let ghost mid = ov.subrange(start as int, end as int);
    let mut lines: Vec<OsmosisDiffLine> = Vec::new();
    let mut ol: usize = old_start;
    let mut nl: usize = new_start;
    let mut k: usize = start;
    proof {
        assert(ov.subrange(start as int, start as int) =~= Seq::<OpV>::empty());
        assert(mid.skip(0) =~= mid);
    }
    while k < end
        invariant
            start <= k <= end <= ops@.len(),
            ov == ops_view(ops@),
            so == strs(old@),
            sn == strs(new@),
            mid == ov.subrange(start as int, end as int),
            ops_valid(ov, so, sn),
            old_side(ov).len() == old@.len(),
            new_side(ov).len() == new@.len(),
            old@.len() < usize::MAX,
            new@.len() < usize::MAX,
            old_start == old_side(ov.take(start as int)).len() + 1,
            new_start == new_side(ov.take(start as int)).len() + 1,
            ol == old_start + old_side(ov.subrange(start as int, k as int)).len(),
            nl == new_start + new_side(ov.subrange(start as int, k as int)).len(),
            diff_lines_view(lines@) + render(mid.skip(k - start), so, sn, ol as int, nl as int)
                == render(mid, so, sn, old_start as int, new_start as int),
        decreases end - k,
    {
        let op = ops[k];
        proof {
            lemma_side_split3(ov, start as int, k + 1);
            assert(ov.subrange(start as int, k + 1) =~= ov.subrange(start as int, k as int) + seq![ov[k as int]]);
            lemma_old_side_concat(ov.subrange(start as int, k as int), seq![ov[k as int]]);
            lemma_side_single(ov[k as int]);
            assert(mid.skip(k - start)[0] == ov[k as int]);
            assert(mid.skip(k - start).drop_first() =~= mid.skip(k + 1 - start));
            assert(ops_view(ops@)[k as int] == op@);
        }
        let kind = kind_text(&op);
        let ghost before = diff_lines_view(lines@);
        let ghost rest = render(mid.skip(k + 1 - start), so, sn, ol as int, nl as int);
        match op {
            DiffOp::Context(i, _) => {
                let content = old[i].clone();
                let line = OsmosisDiffLine { kind, content, old_line: Some(ol), new_line: Some(nl) };
                lines.push(line);
                proof {
                    assert(diff_lines_view(lines@) =~= before.push(line@));
                    assert(before.push(line@) + render(mid.skip(k + 1 - start), so, sn, ol + 1, nl + 1)
                        =~= before + render(mid.skip(k - start), so, sn, ol as int, nl as int));
                }
                ol = ol + 1;
                nl = nl + 1;
            }
            DiffOp::Remove(i) => {
                let content = old[i].clone();
                let line = OsmosisDiffLine { kind, content, old_line: Some(ol), new_line: None };
                lines.push(line);
                proof {
                    assert(diff_lines_view(lines@) =~= before.push(line@));
                    assert(before.push(line@) + render(mid.skip(k + 1 - start), so, sn, ol + 1, nl as int)
                        =~= before + render(mid.skip(k - start), so, sn, ol as int, nl as int));
                }
                ol = ol + 1;
            }
            DiffOp::Add(j) => {
                let content = new[j].clone();
                let line = OsmosisDiffLine { kind, content, old_line: None, new_line: Some(nl) };
                lines.push(line);
                proof {
                    assert(diff_lines_view(lines@) =~= before.push(line@));
                    assert(before.push(line@) + render(mid.skip(k + 1 - start), so, sn, ol as int, nl + 1)
                        =~= before + render(mid.skip(k - start), so, sn, ol as int, nl as int));
                }
                nl = nl + 1;
            }
        }
        k = k + 1;
    }
    proof {
        assert(mid.skip(end - start) =~= Seq::<OpV>::empty());
        assert(diff_lines_view(lines@) =~= diff_lines_view(lines@) + Seq::<DiffLineView>::empty());
    }
    lines
}

/// The single-hunk file diff for operations that hold at least one change.
fn build_file_diff(ops: &Vec<DiffOp>, old: &Vec<String>, new: &Vec<String>) -> (r: OsmosisFileDiff)
    requires
        !all_context(ops_view(ops@)),
        ops_valid(ops_view(ops@), strs(old@), strs(new@)),
        old_side(ops_view(ops@)).len() == old@.len(),
        new_side(ops_view(ops@)).len() == new@.len(),
        old@.len() < usize::MAX,
        new@.len() < usize::MAX,
    ensures
        r@ == spec_file_diff(ops_view(ops@), strs(old@), strs(new@)),
{
    let ghost ov = ops_view(ops@);
    let len = ops.len();
    let f = find_first_change(ops);
    let l = find_last_change(ops, f);
    let start: usize = if f >= 3 { f - 3 } else { 0 };
    let end: usize = if len - l >= 4 { l + 4 } else { len };
    assert(start == hunk_start(ov) && end == hunk_end(ov));
    let pre_old = count_old_lines(ops, 0, start);
    let pre_new = count_new_lines(ops, 0, start);
    let old_lines = count_old_lines(ops, start, end);
    let new_lines = count_new_lines(ops, start, end);
    assert(ov.subrange(0, start as int) =~= ov.take(start as int));
    assert(pre_old <= old@.len() && pre_new <= new@.len()) by {
        lemma_side_split3(ov, start as int, end as int);
    }
    let old_start = pre_old + 1;
    let new_start = pre_new + 1;
    let lines = render_lines(ops, old, new, start, end, old_start, new_start);
    let hunk = OsmosisHunk { old_start, old_lines, new_start, new_lines, lines };
    let mut hunks: Vec<OsmosisHunk> = Vec::new();
    hunks.push(hunk);
    proof { reveal_strlit("Modified"); }
    let r = OsmosisFileDiff { old_path: None, new_path: None, status: owned("Modified"), hunks };
    proof {
        let mid = ov.subrange(start as int, end as int);
        assert("Modified"@ =~= status_modified());
        assert(r@.status == status_modified());
        assert(old_start as int == old_side(ov.take(start as int)).len() + 1);
        assert(old_lines as int == old_side(mid).len());
        assert(new_lines as int == new_side(mid).len());
        assert(hunk@.lines == render(mid, strs(old@), strs(new@), old_start as int, new_start as int));
        assert(hunks_view(hunks@) =~= seq![hunk@]);
    }
    r
}

fn unchanged_file_diff() -> (r: OsmosisFileDiff)
    ensures
        r@ == unchanged_file(),
{
    proof { reveal_strlit("Unchanged"); }
    let r = OsmosisFileDiff { old_path: None, new_path: None, status: owned("Unchanged"), hunks: Vec::new() };
    proof {
        assert("Unchanged"@ =~= status_unchanged());
        assert(hunks_view(r.hunks@) =~= Seq::<HunkView>::empty());
    }
    r
}

/// Compute a structured line-level diff between two text blobs.
pub fn diff_text(old_text: &str, new_text: &str) -> (r: OsmosisStructuredDiff)
    requires
        old_text@.len() < usize::MAX,
        new_text@.len() < usize::MAX,
    ensures
        r@ == spec_diff_text(old_text@, new_text@),
{
    let old_lines = text_lines(old_text);
    let new_lines = text_lines(new_text);
    let lcs = lcs_indices(&old_lines, &new_lines);
    let ghost o = strs(old_lines@);
    let ghost n = strs(new_lines@);
    proof {
        lemma_lcs_pairs_valid(o, n);
        lemma_ops_from_sides(lcs_pairs(o, n), 0, 0, o, n);
    }
    let ops = build_ops(old_lines.len(), new_lines.len(), &lcs);
    let ghost ov = ops_view(ops@);
    let mut all_ctx = true;
    let mut k: usize = 0;
    while k < ops.len()
        invariant
            k <= ops@.len(),
            ov == ops_view(ops@),
            all_ctx == (forall|j: int| 0 <= j < k ==> !is_change(#[trigger] ov[j])),
        decreases ops@.len() - k,
    {
        proof { assert(ov[k as int] == ops@[k as int]@); }
        if op_is_change(&ops[k]) {
            all_ctx = false;
        }
        k = k + 1;
    }
    let file = if all_ctx {
        unchanged_file_diff()
    } else {
        build_file_diff(&ops, &old_lines, &new_lines)
    };
    let mut files: Vec<OsmosisFileDiff> = Vec::new();
    files.push(file);
    let r = OsmosisStructuredDiff { files };
    proof {
        assert(files_view(r.files@) =~= seq![file@]);
    }
    r
}

// ─── Laws of the diff ───────────────────────────────────────────────────────

/// Lines at the given indices.
pub open spec fn pick(l: Seq<Seq<char>>, idx: Seq<int>) -> Seq<Seq<char>> {
    idx.map_values(|i: int| l[i])
}

/// Contents of the diff lines that belong to the old text (not additions).
pub open spec fn old_content(lines: Seq<DiffLineView>) -> Seq<Seq<char>>
    decreases lines.len(),
{
    if lines.len() == 0 {
        seq![]
    } else if lines[0].kind == kind_add() {
        old_content(lines.drop_first())
    } else {
        seq![lines[0].content] + old_content(lines.drop_first())
    }
}

/// Contents of the diff lines that belong to the new text (not removals).
pub open spec fn new_content(lines: Seq<DiffLineView>) -> Seq<Seq<char>>
    decreases lines.len(),
{
    if lines.len() == 0 {
        seq![]
    } else if lines[0].kind == kind_remove() {
        new_content(lines.drop_first())
    } else {
        seq![lines[0].content] + new_content(lines.drop_first())
    }
}

proof fn lemma_render_content(ops: Seq<OpV>, o: Seq<Seq<char>>, n: Seq<Seq<char>>, ol: int, nl: int)
    requires
        ops_valid(ops, o, n),
    ensures
        old_content(render(ops, o, n, ol, nl)) == pick(o, old_side(ops)),
        new_content(render(ops, o, n, ol, nl)) == pick(n, new_side(ops)),
    decreases ops.len(),
{
    if ops.len() > 0 {
        let rest = ops.drop_first();
        assert(ops_valid(rest, o, n)) by {
            assert forall|k: int| 0 <= k < rest.len() implies match #[trigger] rest[k] {
                OpV::Context(i, j) => 0 <= i < o.len() && 0 <= j < n.len() && o[i] == n[j],
                OpV::Remove(i) => 0 <= i < o.len(),
                OpV::Add(j) => 0 <= j < n.len(),
            } by {
                assert(rest[k] == ops[k + 1]);
            }
        }
        let op0 = ops[0];
        assert(match op0 {
            OpV::Context(i, j) => 0 <= i < o.len() && 0 <= j < n.len() && o[i] == n[j],
            OpV::Remove(i) => 0 <= i < o.len(),
            OpV::Add(j) => 0 <= j < n.len(),
        });
        match op0 {
            OpV::Context(i, j) => {
                lemma_render_content(rest, o, n, ol + 1, nl + 1);
                let r = render(ops, o, n, ol, nl);
                assert(r.drop_first() =~= render(rest, o, n, ol + 1, nl + 1));
                assert(pick(o, old_side(ops)) =~= seq![o[i]] + pick(o, old_side(rest)));
                assert(pick(n, new_side(ops)) =~= seq![n[j]] + pick(n, new_side(rest)));
            }
            OpV::Remove(i) => {
                lemma_render_content(rest, o, n, ol + 1, nl);
                let r = render(ops, o, n, ol, nl);
                assert(r.drop_first() =~= render(rest, o, n, ol + 1, nl));
                assert(pick(o, old_side(ops)) =~= seq![o[i]] + pick(o, old_side(rest)));
                assert(pick(n, new_side(ops)) =~= pick(n, new_side(rest)));
            }
            OpV::Add(j) => {
                lemma_render_content(rest, o, n, ol, nl + 1);
                let r = render(ops, o, n, ol, nl);
                assert(r.drop_first() =~= render(rest, o, n, ol, nl + 1));
                assert(pick(o, old_side(ops)) =~= pick(o, old_side(rest)));
                assert(pick(n, new_side(ops)) =~= seq![n[j]] + pick(n, new_side(rest)));
            }
        }
    }
}

/// Kept lines read the same in both texts.
proof fn lemma_pick_context(ops: Seq<OpV>, o: Seq<Seq<char>>, n: Seq<Seq<char>>)
    requires
        ops_valid(ops, o, n),
        all_context(ops),
    ensures
        pick(o, old_side(ops)) == pick(n, new_side(ops)),
    decreases ops.len(),
{
    if ops.len() > 0 {
        let rest = ops.drop_first();
        assert(ops_valid(rest, o, n)) by {
            assert forall|k: int| 0 <= k < rest.len() implies match #[trigger] rest[k] {
                OpV::Context(i, j) => 0 <= i < o.len() && 0 <= j < n.len() && o[i] == n[j],
                OpV::Remove(i) => 0 <= i < o.len(),
                OpV::Add(j) => 0 <= j < n.len(),
            } by {
                assert(rest[k] == ops[k + 1]);
            }
        }
        assert(all_context(rest)) by {
            assert forall|k: int| 0 <= k < rest.len() implies !is_change(#[trigger] rest[k]) by {
                assert(rest[k] == ops[k + 1]);
            }
        }
        lemma_pick_context(rest, o, n);
        assert(!is_change(ops[0]));
        let op0 = ops[0];
        assert(match op0 {
            OpV::Context(i, j) => 0 <= i < o.len() && 0 <= j < n.len() && o[i] == n[j],
            OpV::Remove(i) => 0 <= i < o.len(),
            OpV::Add(j) => 0 <= j < n.len(),
        });
        if let OpV::Context(i, j) = op0 {
            assert(pick(o, old_side(ops)) =~= seq![o[i]] + pick(o, old_side(rest)));
            assert(pick(n, new_side(ops)) =~= seq![n[j]] + pick(n, new_side(rest)));
        }
    }
}

proof fn lemma_pick_range(l: Seq<Seq<char>>, a: int, b: int)
    requires
        0 <= a <= b <= l.len(),
    ensures
        pick(l, range(a, b)) == l.subrange(a, b),
{
    assert(pick(l, range(a, b)) =~= l.subrange(a, b));
}

proof fn lemma_pick_concat(l: Seq<Seq<char>>, x: Seq<int>, y: Seq<int>)
    ensures
        pick(l, x + y) == pick(l, x) + pick(l, y),
{
    assert(pick(l, x + y) =~= pick(l, x) + pick(l, y));
}

proof fn lemma_valid_subrange(ops: Seq<OpV>, o: Seq<Seq<char>>, n: Seq<Seq<char>>, a: int, b: int)
    requires
        ops_valid(ops, o, n),
        0 <= a <= b <= ops.len(),
    ensures
        ops_valid(ops.subrange(a, b), o, n),
{
    let x = ops.subrange(a, b);
    assert forall|k: int| 0 <= k < x.len() implies match #[trigger] x[k] {
        OpV::Context(i, j) => 0 <= i < o.len() && 0 <= j < n.len() && o[i] == n[j],
        OpV::Remove(i) => 0 <= i < o.len(),
        OpV::Add(j) => 0 <= j < n.len(),
    } by {
        assert(x[k] == ops[a + k]);
    }
}

proof fn lemma_first_change(ops: Seq<OpV>)
    requires
        !all_context(ops),
    ensures
        0 <= first_change(ops) < ops.len(),
        is_change(ops[first_change(ops)]),
        forall|j: int| 0 <= j < first_change(ops) ==> !is_change(#[trigger] ops[j]),
{
    reveal(first_change);
    let w = choose|k: int| 0 <= k < ops.len() && is_change(#[trigger] ops[k]);
    lemma_least_change(ops, w);
}

proof fn lemma_last_change(ops: Seq<OpV>)
    requires
        !all_context(ops),
    ensures
        0 <= last_change(ops) < ops.len(),
        is_change(ops[last_change(ops)]),
        forall|j: int| last_change(ops) < j < ops.len() ==> !is_change(#[trigger] ops[j]),
{
    reveal(last_change);
    let w = choose|k: int| 0 <= k < ops.len() && is_change(#[trigger] ops[k]);
    lemma_greatest_change(ops, w);
}

proof fn lemma_first_last_change(ops: Seq<OpV>)
    requires
        !all_context(ops),
    ensures
        0 <= first_change(ops) <= last_change(ops) < ops.len(),
        forall|j: int| 0 <= j < first_change(ops) ==> !is_change(#[trigger] ops[j]),
        forall|j: int| last_change(ops) < j < ops.len() ==> !is_change(#[trigger] ops[j]),
{
    lemma_first_change(ops);
    lemma_last_change(ops);
    let f = first_change(ops);
    let l = last_change(ops);
    if f > l {
        assert(!is_change(ops[f]));
    }
}

proof fn lemma_least_change(ops: Seq<OpV>, w: int)
    requires
        0 <= w < ops.len(),
        is_change(ops[w]),
    ensures
        exists|k: int| 0 <= k < ops.len() && is_change(ops[k]) && forall|j: int| 0 <= j < k ==> !is_change(#[trigger] ops[j]),
    decreases w,
{
    if exists|j: int| 0 <= j < w && is_change(#[trigger] ops[j]) {
        let j = choose|j: int| 0 <= j < w && is_change(#[trigger] ops[j]);
        lemma_least_change(ops, j);
    } else {
        assert(forall|j: int| 0 <= j < w ==> !is_change(#[trigger] ops[j]));
    }
}

proof fn lemma_greatest_change(ops: Seq<OpV>, w: int)
    requires
        0 <= w < ops.len(),
        is_change(ops[w]),
    ensures
        exists|k: int| 0 <= k < ops.len() && is_change(ops[k]) && forall|j: int| k < j < ops.len() ==> !is_change(#[trigger] ops[j]),
    decreases ops.len() - w,
{
    if exists|j: int| w < j < ops.len() && is_change(#[trigger] ops[j]) {
        let j = choose|j: int| w < j < ops.len() && is_change(#[trigger] ops[j]);
        lemma_greatest_change(ops, j);
    } else {
        assert(forall|j: int| w < j < ops.len() ==> !is_change(#[trigger] ops[j]));
    }
}

proof fn lemma_range_split3(x: Seq<int>, y: Seq<int>, z: Seq<int>, len: int)
    requires
        x + y + z == range(0, len),
        0 <= len,
    ensures
        x == range(0, x.len() as int),
        y == range(x.len() as int, (x.len() + y.len()) as int),
        z == range((x.len() + y.len()) as int, len),
        x.len() + y.len() + z.len() == len,
{
    let s = x + y + z;
    assert(s.len() == len);
    assert forall|k: int| 0 <= k < x.len() implies x[k] == k by {
        assert(s[k] == x[k]);
    }
    assert forall|k: int| 0 <= k < y.len() implies y[k] == x.len() + k by {
        assert(s[x.len() + k] == y[k]);
    }
    assert forall|k: int| 0 <= k < z.len() implies z[k] == x.len() + y.len() + k by {
        assert(s[x.len() + y.len() + k] == z[k]);
    }
    assert(x =~= range(0, x.len() as int));
    assert(y =~= range(x.len() as int, (x.len() + y.len()) as int));
    assert(z =~= range((x.len() + y.len()) as int, len));
}

/// Operations that walk both texts with only kept lines before `start` and
/// after `end` turn the old text into the new one through `ops[start..end]`.
proof fn lemma_applies_core(ops: Seq<OpV>, o: Seq<Seq<char>>, n: Seq<Seq<char>>, start: int, end: int)
    requires
        ops_valid(ops, o, n),
        old_side(ops) == range(0, o.len() as int),
        new_side(ops) == range(0, n.len() as int),
        0 <= start <= end <= ops.len(),
        all_context(ops.take(start)),
        all_context(ops.skip(end)),
    ensures
        ({
            let mid = ops.subrange(start, end);
            let a = old_side(ops.take(start)).len() as int;
            let ol = old_side(mid).len() as int;
            let b = new_side(ops.take(start)).len() as int;
            let lines = render(mid, o, n, a + 1, b + 1);
            &&& a + ol <= o.len()
            &&& o.subrange(a, a + ol) == old_content(lines)
            &&& n == o.take(a) + new_content(lines) + o.skip(a + ol)
            &&& n.take(b) == o.take(a)
        }),
{
    let pre = ops.take(start);
    let mid = ops.subrange(start, end);
    let post = ops.skip(end);
    lemma_side_split3(ops, start, end);
    lemma_range_split3(old_side(pre), old_side(mid), old_side(post), o.len() as int);
    lemma_range_split3(new_side(pre), new_side(mid), new_side(post), n.len() as int);
    assert(pre == ops.subrange(0, start));
    assert(post == ops.subrange(end, ops.len() as int));
    lemma_valid_subrange(ops, o, n, 0, start);
    lemma_valid_subrange(ops, o, n, start, end);
    lemma_valid_subrange(ops, o, n, end, ops.len() as int);
    let a = old_side(pre).len() as int;
    let ol = old_side(mid).len() as int;
    let b = new_side(pre).len() as int;
    let nl = new_side(mid).len() as int;
    lemma_pick_range(o, 0, a);
    lemma_pick_range(o, a, a + ol);
    lemma_pick_range(o, a + ol, o.len() as int);
    lemma_pick_range(n, 0, b);
    lemma_pick_range(n, 0, n.len() as int);
    lemma_pick_context(pre, o, n);
    lemma_pick_context(post, o, n);
    lemma_render_content(mid, o, n, a + 1, b + 1);
    lemma_pick_concat(n, new_side(pre), new_side(mid));
    lemma_pick_concat(n, new_side(pre) + new_side(mid), new_side(post));
    assert(n.subrange(0, n.len() as int) =~= n);
    assert(o.subrange(0, a) =~= o.take(a));
    assert(o.subrange(a + ol, o.len() as int) =~= o.skip(a + ol));
    assert(n.subrange(0, b) =~= n.take(b));
}

proof fn lemma_outside_hunk(ops: Seq<OpV>)
    requires
        !all_context(ops),
    ensures
        0 <= hunk_start(ops) <= hunk_end(ops) <= ops.len(),
        all_context(ops.take(hunk_start(ops))),
        all_context(ops.skip(hunk_end(ops))),
{
    lemma_first_last_change(ops);
    let start = hunk_start(ops);
    let end = hunk_end(ops);
    let pre = ops.take(start);
    let post = ops.skip(end);
    assert forall|k: int| 0 <= k < pre.len() implies !is_change(#[trigger] pre[k]) by {
        assert(pre[k] == ops[k]);
    }
    assert forall|k: int| 0 <= k < post.len() implies !is_change(#[trigger] post[k]) by {
        assert(post[k] == ops[end + k]);
    }
}

/// Applying the diff to the old text gives the new text: outside the hunk the
/// two texts agree, inside it the old text holds exactly the kept and removed
/// lines and the new text exactly the kept and added lines.
pub proof fn lemma_diff_applies(old: Seq<char>, new: Seq<char>)
    requires
        old.len() < usize::MAX,
        new.len() < usize::MAX,
    ensures
        ({
            let d = spec_diff_text(old, new);
            let o = lines_of(old);
            let n = lines_of(new);
            &&& d.len() == 1
            &&& d[0].status == status_modified() ==> {
                &&& d[0].hunks.len() == 1
                &&& {
                    let h = d[0].hunks[0];
                    let a = h.old_start - 1;
                    let b = h.new_start - 1;
                    &&& 0 <= a && a + h.old_lines <= o.len()
                    &&& o.subrange(a, a + h.old_lines) == old_content(h.lines)
                    &&& n == o.take(a) + new_content(h.lines) + o.skip(a + h.old_lines)
                    &&& n.take(b) == o.take(a)
                }
            }
        }),
{
    let o = lines_of(old);
    let n = lines_of(new);
    let pairs = lcs_pairs(o, n);
    let ops = spec_ops(pairs, o.len() as int, n.len() as int);
    if !all_context(ops) {
        lemma_lcs_pairs_valid(o, n);
        lemma_ops_from_sides(pairs, 0, 0, o, n);
        lemma_outside_hunk(ops);
        lemma_applies_core(ops, o, n, hunk_start(ops), hunk_end(ops));
        lemma_side_split3(ops, hunk_start(ops), hunk_end(ops));
        lemma_lines_len(old);
        lemma_lines_len(new);
        let mid = ops.subrange(hunk_start(ops), hunk_end(ops));
        let a = old_side(ops.take(hunk_start(ops))).len() as int;
        let b = new_side(ops.take(hunk_start(ops))).len() as int;
        let ol = old_side(mid).len() as int;
        lemma_side_len(ops.take(hunk_start(ops)));
        lemma_side_len(mid);
        let h = spec_diff_text(old, new)[0].hunks[0];
        assert(h.old_start - 1 == a);
        assert(b <= n.len()) by {
            assert(new_side(ops).len() == n.len());
        }
        assert(h.new_start - 1 == b);
        assert(h.old_lines == ol);
        assert(h.lines == render(mid, o, n, a + 1, b + 1));
    } else {
        assert(status_unchanged() != status_modified()) by {
            assert(status_unchanged().len() != status_modified().len());
        }
    }
}

proof fn lemma_lcs_len_self<A>(a: Seq<A>)
    ensures
        lcs_len(a, a) == a.len(),
    decreases a.len(),
{
    if a.len() > 0 {
        lemma_lcs_len_self(a.drop_last());
    }
}

proof fn lemma_increasing_lower(p: Seq<(int, int)>, k: int)
    requires
        0 <= k < p.len(),
        forall|i: int| 0 <= i < p.len() ==> 0 <= #[trigger] p[i].0 && 0 <= p[i].1,
        forall|i: int, j: int| 0 <= i < j < p.len() ==> #[trigger] p[i].0 < #[trigger] p[j].0 && p[i].1 < p[j].1,
    ensures
        p[k].0 >= k,
        p[k].1 >= k,
    decreases k,
{
    if k > 0 {
        lemma_increasing_lower(p, k - 1);
        assert(p[k - 1].0 < p[k].0);
    }
}

proof fn lemma_increasing_upper(p: Seq<(int, int)>, k: int, bound: int)
    requires
        0 <= k < p.len(),
        forall|i: int| 0 <= i < p.len() ==> #[trigger] p[i].0 < bound && p[i].1 < bound,
        forall|i: int, j: int| 0 <= i < j < p.len() ==> #[trigger] p[i].0 < #[trigger] p[j].0 && p[i].1 < p[j].1,
    ensures
        p[k].0 <= bound - (p.len() - k),
        p[k].1 <= bound - (p.len() - k),
    decreases p.len() - k,
{
    if k + 1 < p.len() {
        lemma_increasing_upper(p, k + 1, bound);
        assert(p[k].0 < p[k + 1].0);
    }
}

proof fn lemma_diagonal_ops(pairs: Seq<(int, int)>, oi: int)
    requires
        forall|k: int| 0 <= k < pairs.len() ==> #[trigger] pairs[k] == (oi + k, oi + k),
    ensures
        all_context(ops_from(pairs, oi, oi, oi + pairs.len(), oi + pairs.len())),
    decreases pairs.len(),
{
    let end = oi + pairs.len();
    if pairs.len() == 0 {
        assert(removes(oi, end) + adds(oi, end) =~= Seq::<OpV>::empty());
    } else {
        let rest = pairs.drop_first();
        assert forall|k: int| 0 <= k < rest.len() implies #[trigger] rest[k] == (oi + 1 + k, oi + 1 + k) by {
            assert(rest[k] == pairs[k + 1]);
        }
        lemma_diagonal_ops(rest, oi + 1);
        assert(pairs[0] == (oi, oi));
        let tail = ops_from(rest, oi + 1, oi + 1, end, end);
        let ops = ops_from(pairs, oi, oi, end, end);
        assert(ops =~= seq![OpV::Context(oi, oi)] + tail);
        assert forall|k: int| 0 <= k < ops.len() implies !is_change(#[trigger] ops[k]) by {
            if k > 0 {
                assert(ops[k] == tail[k - 1]);
            }
        }
    }
}

proof fn lemma_context_same_lines(o: Seq<Seq<char>>, n: Seq<Seq<char>>)
    requires
        all_context(spec_ops(lcs_pairs(o, n), o.len() as int, n.len() as int)),
    ensures
        o == n,
{
    let pairs = lcs_pairs(o, n);
    let ops = spec_ops(pairs, o.len() as int, n.len() as int);
    lemma_lcs_pairs_valid(o, n);
    lemma_ops_from_sides(pairs, 0, 0, o, n);
    lemma_pick_context(ops, o, n);
    lemma_pick_range(o, 0, o.len() as int);
    lemma_pick_range(n, 0, n.len() as int);
    assert(o.subrange(0, o.len() as int) =~= o);
    assert(n.subrange(0, n.len() as int) =~= n);
}

proof fn lemma_same_lines_context(o: Seq<Seq<char>>)
    ensures
        all_context(spec_ops(lcs_pairs(o, o), o.len() as int, o.len() as int)),
{
    let pairs = lcs_pairs(o, o);
    lemma_lcs_pairs_valid(o, o);
    lemma_lcs_len_self(o);
    assert forall|k: int| 0 <= k < pairs.len() implies #[trigger] pairs[k] == (0 + k, 0 + k) by {
        lemma_increasing_lower(pairs, k);
        lemma_increasing_upper(pairs, k, o.len() as int);
    }
    lemma_diagonal_ops(pairs, 0);
}

/// The diff reports the file as unchanged exactly when both texts have the
/// same lines.
pub proof fn lemma_diff_unchanged_iff_same_lines(old: Seq<char>, new: Seq<char>)
    ensures
        (spec_diff_text(old, new)[0].status == status_unchanged()) <==> (lines_of(old) == lines_of(new)),
{
    let o = lines_of(old);
    let n = lines_of(new);
    assert(status_unchanged() != status_modified()) by {
        assert(status_unchanged().len() != status_modified().len());
    }
    if all_context(spec_ops(lcs_pairs(o, n), o.len() as int, n.len() as int)) {
        lemma_context_same_lines(o, n);
    }
    if o == n {
        lemma_same_lines_context(o);
    }
}


proof fn lemma_kinds_distinct()
    ensures
        kind_context() != kind_remove(),
        kind_context() != kind_add(),
        kind_remove() != kind_add(),
{
    assert(kind_context().len() != kind_remove().len());
    assert(kind_context().len() != kind_add().len());
    assert(kind_remove().len() != kind_add().len());
}

proof fn lemma_content_concat(x: Seq<DiffLineView>, y: Seq<DiffLineView>)
    ensures
        old_content(x + y) == old_content(x) + old_content(y),
        new_content(x + y) == new_content(x) + new_content(y),
    decreases x.len(),
{
    if x.len() == 0 {
        assert(x + y =~= y);
        assert(old_content(x) =~= Seq::<Seq<char>>::empty());
        assert(new_content(x) =~= Seq::<Seq<char>>::empty());
        assert(old_content(x) + old_content(y) =~= old_content(y));
        assert(new_content(x) + new_content(y) =~= new_content(y));
    } else {
        assert((x + y).drop_first() =~= x.drop_first() + y);
        assert((x + y)[0] == x[0]);
        lemma_content_concat(x.drop_first(), y);
        assert(old_content(x + y) =~= old_content(x) + old_content(y));
        assert(new_content(x + y) =~= new_content(x) + new_content(y));
    }
}

proof fn lemma_content_single(l: DiffLineView)
    ensures
        old_content(seq![l]) == (if l.kind == kind_add() { Seq::<Seq<char>>::empty() } else { seq![l.content] }),
        new_content(seq![l]) == (if l.kind == kind_remove() { Seq::<Seq<char>>::empty() } else { seq![l.content] }),
{
    assert(seq![l].drop_first() =~= Seq::<DiffLineView>::empty());
    assert(seq![l][0] == l);
    assert(old_content(Seq::<DiffLineView>::empty()) =~= Seq::<Seq<char>>::empty());
    assert(new_content(Seq::<DiffLineView>::empty()) =~= Seq::<Seq<char>>::empty());
    assert(old_content(seq![l]) =~= (if l.kind == kind_add() { Seq::<Seq<char>>::empty() } else { seq![l.content] }));
    assert(new_content(seq![l]) =~= (if l.kind == kind_remove() { Seq::<Seq<char>>::empty() } else { seq![l.content] }));
}

/// A line that the new (old) text holds is the new (old) text's line at
/// its position among such lines.
proof fn lemma_content_at(lines: Seq<DiffLineView>, i: int)
    requires
        0 <= i < lines.len(),
    ensures
        lines[i].kind != kind_remove() ==> new_content(lines.take(i)).len() < new_content(lines).len()
            && new_content(lines)[new_content(lines.take(i)).len() as int] == lines[i].content,
        lines[i].kind != kind_add() ==> old_content(lines.take(i)).len() < old_content(lines).len()
            && old_content(lines)[old_content(lines.take(i)).len() as int] == lines[i].content,
{
    let l = lines[i];
    assert(lines =~= lines.take(i) + seq![l] + lines.skip(i + 1));
    lemma_content_concat(lines.take(i), seq![l]);
    lemma_content_concat(lines.take(i) + seq![l], lines.skip(i + 1));
    lemma_content_single(l);
}

/// Rendered lines are numbered from `ol` and `nl`: a kept line carries both
/// numbers, a removed line only its old one, an added line only its new
/// one, and each number counts the lines of that text before it.
proof fn lemma_render_numbers(ops: Seq<OpV>, o: Seq<Seq<char>>, n: Seq<Seq<char>>, ol: int, nl: int)
    ensures
        render(ops, o, n, ol, nl).len() == ops.len(),
        forall|i: int| #![trigger render(ops, o, n, ol, nl)[i]] 0 <= i < ops.len() ==> {
            let r = render(ops, o, n, ol, nl);
            let l = r[i];
            &&& (l.kind == kind_context() || l.kind == kind_remove() || l.kind == kind_add())
            &&& (l.kind == kind_remove() <==> ops[i] is Remove)
            &&& (l.kind == kind_add() <==> ops[i] is Add)
            &&& (l.kind == kind_remove() ==> l.new_line is None)
            &&& (l.kind != kind_remove() ==> l.new_line == Some((nl + new_content(r.take(i)).len()) as usize))
            &&& (l.kind == kind_add() ==> l.old_line is None)
            &&& (l.kind != kind_add() ==> l.old_line == Some((ol + old_content(r.take(i)).len()) as usize))
        },
    decreases ops.len(),
{
    lemma_kinds_distinct();
    if ops.len() > 0 {
        let rest = ops.drop_first();
        let r = render(ops, o, n, ol, nl);
        let f = r[0];
        let (ol2, nl2) = match ops[0] {
            OpV::Context(_, _) => (ol + 1, nl + 1),
            OpV::Remove(_) => (ol + 1, nl),
            OpV::Add(_) => (ol, nl + 1),
        };
        let rr = render(rest, o, n, ol2, nl2);
        lemma_render_numbers(rest, o, n, ol2, nl2);
        assert(r == seq![f] + rr);
        lemma_content_single(f);
        assert forall|i: int| 0 <= i < ops.len() implies {
            let l = #[trigger] r[i];
            &&& (l.kind == kind_context() || l.kind == kind_remove() || l.kind == kind_add())
            &&& (l.kind == kind_remove() <==> ops[i] is Remove)
            &&& (l.kind == kind_add() <==> ops[i] is Add)
            &&& (l.kind == kind_remove() ==> l.new_line is None)
            &&& (l.kind != kind_remove() ==> l.new_line == Some((nl + new_content(r.take(i)).len()) as usize))
            &&& (l.kind == kind_add() ==> l.old_line is None)
            &&& (l.kind != kind_add() ==> l.old_line == Some((ol + old_content(r.take(i)).len()) as usize))
        } by {
            if i == 0 {
                assert(r.take(0) =~= Seq::<DiffLineView>::empty());
                assert(old_content(r.take(0)) =~= Seq::<Seq<char>>::empty());
                assert(new_content(r.take(0)) =~= Seq::<Seq<char>>::empty());
            } else {
                assert(r[i] == rr[i - 1]);
                assert(ops[i] == rest[i - 1]);
                assert(r.take(i) =~= seq![f] + rr.take(i - 1));
                lemma_content_concat(seq![f], rr.take(i - 1));
            }
        }
    }
}

/// The hunk's numbering, checked against the texts: every line that the new
/// text holds (kept or added) carries as new line number the hunk's new
/// start plus the kept and added lines before it, and the new text's line
/// at that number is its content; likewise every line that the old text
/// holds (kept or removed) against the old text. A removed line has no new
/// number, an added line no old one, and the hunk's line counts are the
/// numbers of such lines.
pub proof fn lemma_diff_line_numbers(old: Seq<char>, new: Seq<char>)
    requires
        old.len() < usize::MAX,
        new.len() < usize::MAX,
    ensures
        ({
            let d = spec_diff_text(old, new);
            let o = lines_of(old);
            let n = lines_of(new);
            d[0].status == status_modified() ==> {
                let h = d[0].hunks[0];
                &&& h.old_lines == old_content(h.lines).len()
                &&& h.new_lines == new_content(h.lines).len()
                &&& forall|i: int| #![trigger spec_diff_text(old, new)[0].hunks[0].lines[i]] 0 <= i < h.lines.len() ==> {
                    let l = h.lines[i];
                    let nc = new_content(h.lines.take(i)).len() as int;
                    let oc = old_content(h.lines.take(i)).len() as int;
                    &&& (l.kind == kind_context() || l.kind == kind_remove() || l.kind == kind_add())
                    &&& (l.kind == kind_remove() ==> l.new_line is None)
                    &&& (l.kind != kind_remove() ==> l.new_line == Some((h.new_start + nc) as usize)
                        && 1 <= h.new_start + nc <= n.len() && n[h.new_start + nc - 1] == l.content)
                    &&& (l.kind == kind_add() ==> l.old_line is None)
                    &&& (l.kind != kind_add() ==> l.old_line == Some((h.old_start + oc) as usize)
                        && 1 <= h.old_start + oc <= o.len() && o[h.old_start + oc - 1] == l.content)
                }
            }
        }),
{
    let o = lines_of(old);
    let n = lines_of(new);
    let pairs = lcs_pairs(o, n);
    let ops = spec_ops(pairs, o.len() as int, n.len() as int);
    lemma_diff_applies(old, new);
    if !all_context(ops) {
        lemma_lcs_pairs_valid(o, n);
        lemma_ops_from_sides(pairs, 0, 0, o, n);
        lemma_outside_hunk(ops);
        lemma_side_split3(ops, hunk_start(ops), hunk_end(ops));
        lemma_lines_len(old);
        lemma_lines_len(new);
        let start = hunk_start(ops);
        let end = hunk_end(ops);
        let mid = ops.subrange(start, end);
        let a = old_side(ops.take(start)).len() as int;
        let b = new_side(ops.take(start)).len() as int;
        lemma_side_len(ops.take(start));
        lemma_side_len(mid);
        lemma_valid_subrange(ops, o, n, start, end);
        lemma_render_content(mid, o, n, a + 1, b + 1);
        lemma_render_numbers(mid, o, n, a + 1, b + 1);
        let h = spec_diff_text(old, new)[0].hunks[0];
        assert(new_side(ops).len() == n.len());
        assert(old_side(ops).len() == o.len());
        assert(h.old_start == a + 1);
        assert(h.new_start == b + 1);
        assert(h.lines == render(mid, o, n, a + 1, b + 1));
        assert(h.old_lines == old_side(mid).len());
        assert(h.new_lines == new_side(mid).len());
        assert(o.take(a).len() == a);
        assert(n.take(b).len() == b);
        assert(a == b);
        let oc_all = old_content(h.lines);
        let nc_all = new_content(h.lines);
        assert forall|i: int| 0 <= i < h.lines.len() implies {
            let l = #[trigger] h.lines[i];
            let nc = new_content(h.lines.take(i)).len() as int;
            let oc = old_content(h.lines.take(i)).len() as int;
            &&& (l.kind == kind_context() || l.kind == kind_remove() || l.kind == kind_add())
            &&& (l.kind == kind_remove() ==> l.new_line is None)
            &&& (l.kind != kind_remove() ==> l.new_line == Some((h.new_start + nc) as usize)
                && 1 <= h.new_start + nc <= n.len() && n[h.new_start + nc - 1] == l.content)
            &&& (l.kind == kind_add() ==> l.old_line is None)
            &&& (l.kind != kind_add() ==> l.old_line == Some((h.old_start + oc) as usize)
                && 1 <= h.old_start + oc <= o.len() && o[h.old_start + oc - 1] == l.content)
        } by {
            lemma_content_at(h.lines, i);
            let l = h.lines[i];
            let nc = new_content(h.lines.take(i)).len() as int;
            let oc = old_content(h.lines.take(i)).len() as int;
            if l.kind != kind_remove() {
                assert(n == o.take(a) + nc_all + o.skip(a + h.old_lines));
                assert(n[b + nc] == nc_all[nc]);
            }
            if l.kind != kind_add() {
                assert(o.subrange(a, a + h.old_lines) == oc_all);
                assert(o[a + oc] == oc_all[oc]);
            }
        }
    }
}

} // verus!
