//! Osmosis: unified rendering of a structured diff, workspace path
//! resolution, and the decisions of the merge and reject operations. Reading
//! and writing the workspace files is left to the caller.
use vstd::prelude::*;
use vstd::string::StringSliceAdditionalSpecFns;
use crate::diff::{diff_text, kind_add, kind_remove, spec_diff_text, old_content, new_content, status_modified, lemma_diff_line_numbers, lemma_diff_applies};
use crate::text::{chars_of, owned, push_char, push_str, split_by, split_char, str_eq, string_views, decimal, usize_to_decimal};
use crate::types::osmosis::{
    diff_lines_view, hunks_view, files_view, opt_str_view, DiffLineView, FileDiffView, HunkView,
    OsmosisArtifactRef, OsmosisDiffFormat, OsmosisDiffLine, OsmosisDiffRequest, OsmosisDiffResult,
    OsmosisFileDiff, OsmosisHunk, OsmosisMergeResult, OsmosisMergeStrategy, OsmosisRejectResult,
    OsmosisStructuredDiff,
};

verus! {

broadcast use vstd::string::group_string_axioms;

// ─── Unified rendering ──────────────────────────────────────────────────────

pub open spec fn unified_prefix(kind: Seq<char>) -> char {
    if kind == kind_add() {
        '+'
    } else if kind == kind_remove() {
        '-'
    } else {
        ' '
    }
}

pub open spec fn unified_line(l: DiffLineView) -> Seq<char> {
    seq![unified_prefix(l.kind)] + l.content + seq!['\n']
}

pub open spec fn unified_lines(ls: Seq<DiffLineView>) -> Seq<char>
    decreases ls.len(),
{
    if ls.len() == 0 {
        seq![]
    } else {
        unified_lines(ls.drop_last()) + unified_line(ls.last())
    }
}

/// `@@ -old_start,old_lines +new_start,new_lines @@` and a newline.
pub open spec fn hunk_header(h: HunkView) -> Seq<char> {
    seq!['@', '@', ' ', '-'] + decimal(h.old_start as nat) + seq![','] + decimal(h.old_lines as nat)
        + seq![' ', '+'] + decimal(h.new_start as nat) + seq![','] + decimal(h.new_lines as nat)
        + seq![' ', '@', '@', '\n']
}

pub open spec fn unified_hunks(hs: Seq<HunkView>) -> Seq<char>
    decreases hs.len(),
{
    if hs.len() == 0 {
        seq![]
    } else {
        unified_hunks(hs.drop_last()) + hunk_header(hs.last()) + unified_lines(hs.last().lines)
    }
}

pub open spec fn default_old_path() -> Seq<char> {
    seq!['a', '/', 'f', 'i', 'l', 'e']
}

pub open spec fn default_new_path() -> Seq<char> {
    seq!['b', '/', 'f', 'i', 'l', 'e']
}

pub open spec fn path_or(p: Option<Seq<char>>, d: Seq<char>) -> Seq<char> {
    match p {
        Some(s) => s,
        None => d,
    }
}

/// `--- old`, `+++ new`, then the hunks.
pub open spec fn unified_file(f: FileDiffView) -> Seq<char> {
    seq!['-', '-', '-', ' '] + path_or(f.old_path, default_old_path()) + seq!['\n']
        + seq!['+', '+', '+', ' '] + path_or(f.new_path, default_new_path()) + seq!['\n']
        + unified_hunks(f.hunks)
}

/// The unified diff text of the files of a structured diff.
pub open spec fn unified(files: Seq<FileDiffView>) -> Seq<char>
    decreases files.len(),
{
    if files.len() == 0 {
        seq![]
    } else {
        unified(files.drop_last()) + unified_file(files.last())
    }
}

fn push_chars(out: &mut String, cs: &Vec<char>)
    ensures
        final(out)@ == old(out)@ + cs@,
{
    let mut i: usize = 0;
    while i < cs.len()
        invariant
            i <= cs@.len(),
            out@ == old(out)@ + cs@.take(i as int),
        decreases cs@.len() - i,
    {
        push_char(out, cs[i]);
        proof { assert(cs@.take(i + 1) =~= cs@.take(i as int).push(cs@[i as int])); }
        i = i + 1;
    }
    assert(cs@.take(cs@.len() as int) =~= cs@);
}

fn append_lines(out: &mut String, lines: &Vec<OsmosisDiffLine>)
    ensures
        final(out)@ == old(out)@ + unified_lines(diff_lines_view(lines@)),
{
    let ghost lv = diff_lines_view(lines@);
    let mut i: usize = 0;
    while i < lines.len()
        invariant
            i <= lines@.len(),
            lv == diff_lines_view(lines@),
            out@ == old(out)@ + unified_lines(lv.take(i as int)),
        decreases lines@.len() - i,
    {
        let line = &lines[i];
        let prefix = if str_eq(line.kind.as_str(), "add") {
            '+'
        } else if str_eq(line.kind.as_str(), "remove") {
            '-'
        } else {
            ' '
        };
        proof {
            reveal_strlit("add");
            reveal_strlit("remove");
            assert("add"@ =~= kind_add());
            assert("remove"@ =~= kind_remove());
            assert(lv[i as int] == line@);
            assert(prefix == unified_prefix(line.kind@));
        }
        let ghost before = out@;
        push_char(out, prefix);
        push_str(out, line.content.as_str());
        push_char(out, '\n');
        proof {
            assert(lv.take(i + 1).drop_last() =~= lv.take(i as int));
            assert(out@ =~= before + unified_line(lv[i as int]));
        }
        i = i + 1;
    }
    assert(lv.take(lv.len() as int) =~= lv);
}

fn append_hunk(out: &mut String, h: &OsmosisHunk)
    ensures
        final(out)@ == old(out)@ + hunk_header(h@) + unified_lines(h@.lines),
{
    let ghost before = out@;
    let mut head: Vec<char> = Vec::new();
    head.push('@');
    head.push('@');
    head.push(' ');
    head.push('-');
    push_chars(out, &head);
    let a = usize_to_decimal(h.old_start);
    push_str(out, a.as_str());
    push_char(out, ',');
    let b = usize_to_decimal(h.old_lines);
    push_str(out, b.as_str());
    push_char(out, ' ');
    push_char(out, '+');
    let c = usize_to_decimal(h.new_start);
    push_str(out, c.as_str());
    push_char(out, ',');
    let d = usize_to_decimal(h.new_lines);
    push_str(out, d.as_str());
    let mut tail: Vec<char> = Vec::new();
    tail.push(' ');
    tail.push('@');
    tail.push('@');
    tail.push('\n');
    push_chars(out, &tail);
    proof {
        assert(head@ =~= seq!['@', '@', ' ', '-']);
        assert(tail@ =~= seq![' ', '@', '@', '\n']);
        assert(out@ =~= before + hunk_header(h@));
    }
    append_lines(out, &h.lines);
}

fn append_path(out: &mut String, p: &Option<String>, fallback: &Vec<char>)
    ensures
        final(out)@ == old(out)@ + path_or(opt_str_view(*p), fallback@),
{
    match p {
        Some(s) => push_str(out, s.as_str()),
        None => push_chars(out, fallback),
    }
}

fn append_file(out: &mut String, f: &OsmosisFileDiff)
    ensures
        final(out)@ == old(out)@ + unified_file(f@),
{
    let ghost before = out@;
    let mut minus: Vec<char> = Vec::new();
    minus.push('-');
    minus.push('-');
    minus.push('-');
    minus.push(' ');
    let mut plus: Vec<char> = Vec::new();
    plus.push('+');
    plus.push('+');
    plus.push('+');
    plus.push(' ');
    let mut a_file: Vec<char> = Vec::new();
    a_file.push('a');
    a_file.push('/');
    a_file.push('f');
    a_file.push('i');
    a_file.push('l');
    a_file.push('e');
    let mut b_file: Vec<char> = Vec::new();
    b_file.push('b');
    b_file.push('/');
    b_file.push('f');
    b_file.push('i');
    b_file.push('l');
    b_file.push('e');
    proof {
        assert(minus@ =~= seq!['-', '-', '-', ' ']);
        assert(plus@ =~= seq!['+', '+', '+', ' ']);
        assert(a_file@ =~= default_old_path());
        assert(b_file@ =~= default_new_path());
    }
    push_chars(out, &minus);
    append_path(out, &f.old_path, &a_file);
    push_char(out, '\n');
    push_chars(out, &plus);
    append_path(out, &f.new_path, &b_file);
    push_char(out, '\n');
    let ghost mid = out@;
    let ghost hv = hunks_view(f.hunks@);
    let mut i: usize = 0;
    while i < f.hunks.len()
        invariant
            i <= f.hunks@.len(),
            hv == hunks_view(f.hunks@),
            out@ == mid + unified_hunks(hv.take(i as int)),
        decreases f.hunks@.len() - i,
    {
        let ghost pre = out@;
        append_hunk(out, &f.hunks[i]);
        proof {
            assert(hv.take(i + 1).drop_last() =~= hv.take(i as int));
            assert(hv[i as int] == f.hunks@[i as int]@);
            assert(out@ =~= pre + hunk_header(hv[i as int]) + unified_lines(hv[i as int].lines));
        }
        i = i + 1;
    }
    proof {
        assert(hv.take(hv.len() as int) =~= hv);
        assert(out@ =~= before + unified_file(f@));
    }
}

/// Convert a structured diff into a unified diff string.
pub fn structured_to_unified(diff: &OsmosisStructuredDiff) -> (r: String)
    ensures
        r@ == unified(diff@),
{
    let mut out = String::new();
    let ghost fv = files_view(diff.files@);
    let mut i: usize = 0;
    while i < diff.files.len()
        invariant
            i <= diff.files@.len(),
            fv == files_view(diff.files@),
            out@ == unified(fv.take(i as int)),
        decreases diff.files@.len() - i,
    {
        let ghost pre = out@;
        append_file(&mut out, &diff.files[i]);
        proof {
            assert(fv.take(i + 1).drop_last() =~= fv.take(i as int));
            assert(fv[i as int] == diff.files@[i as int]@);
            assert(out@ =~= pre + unified_file(fv[i as int]));
        }
        i = i + 1;
    }
    assert(fv.take(fv.len() as int) =~= fv);
    out
}


/// The unified text of the diff of two texts: the `--- a/file` and
/// `+++ b/file` lines, then, when the texts differ, the header
/// `@@ -old_start,old_count +new_start,new_count @@` whose counts are the
/// numbers of the hunk's lines that the old text holds (kept and removed)
/// and that the new text holds (kept and added), followed by those lines.
pub proof fn lemma_unified_diff_text(old: Seq<char>, new: Seq<char>)
    requires
        old.len() < usize::MAX,
        new.len() < usize::MAX,
    ensures
        ({
            let d = spec_diff_text(old, new);
            let head = seq!['-', '-', '-', ' '] + default_old_path() + seq!['\n'] + seq!['+', '+', '+', ' '] + default_new_path() + seq!['\n'];
            &&& d[0].status == status_modified() ==> {
                let h = d[0].hunks[0];
                unified(d) == head + seq!['@', '@', ' ', '-'] + decimal(h.old_start as nat) + seq![',']
                    + decimal(old_content(h.lines).len()) + seq![' ', '+'] + decimal(h.new_start as nat) + seq![',']
                    + decimal(new_content(h.lines).len()) + seq![' ', '@', '@', '\n'] + unified_lines(h.lines)
            }
            &&& d[0].status != status_modified() ==> unified(d) == head
        }),
{
    let d = spec_diff_text(old, new);
    assert(d.len() == 1) by {
        lemma_diff_applies(old, new);
    }
    let f = d[0];
    lemma_unified_one_file(f);
    assert(f.old_path is None && f.new_path is None);
    if f.status == status_modified() {
        let h = f.hunks[0];
        assert(f.hunks.len() == 1 && h.old_lines == old_content(h.lines).len() && h.new_lines == new_content(h.lines).len()) by {
            lemma_diff_applies(old, new);
            lemma_diff_line_numbers(old, new);
        }
        lemma_unified_one_hunk(h);
        assert(f.hunks =~= seq![h]);
    } else {
        assert(f.hunks =~= Seq::<HunkView>::empty());
    }
}

proof fn lemma_unified_one_file(f: FileDiffView)
    ensures
        unified(seq![f]) == unified_file(f),
{
    assert(seq![f].drop_last() =~= Seq::<FileDiffView>::empty());
    assert(unified(Seq::<FileDiffView>::empty()) =~= Seq::<char>::empty());
    assert(unified(seq![f]) =~= unified_file(f));
}

proof fn lemma_unified_one_hunk(h: HunkView)
    ensures
        unified_hunks(seq![h]) == hunk_header(h) + unified_lines(h.lines),
{
    assert(seq![h].drop_last() =~= Seq::<HunkView>::empty());
    assert(unified_hunks(Seq::<HunkView>::empty()) =~= Seq::<char>::empty());
    assert(unified_hunks(seq![h]) =~= hunk_header(h) + unified_lines(h.lines));
}

// ─── Workspace paths ────────────────────────────────────────────────────────

pub open spec fn dot() -> Seq<char> {
    seq!['.']
}

pub open spec fn dotdot() -> Seq<char> {
    seq!['.', '.']
}

/// One path component applied to the stack of resolved components: empty
/// pieces and `.` are dropped, `..` removes the last named component (or is
/// kept when there is none), anything else is pushed.
pub open spec fn resolve_step(stack: Seq<Seq<char>>, piece: Seq<char>) -> Seq<Seq<char>> {
    if piece.len() == 0 || piece == dot() {
        stack
    } else if piece == dotdot() {
        if stack.len() > 0 && stack.last() != dotdot() {
            stack.drop_last()
        } else {
            stack.push(dotdot())
        }
    } else {
        stack.push(piece)
    }
}

pub open spec fn resolve_pieces(pieces: Seq<Seq<char>>) -> Seq<Seq<char>>
    decreases pieces.len(),
{
    if pieces.len() == 0 {
        seq![]
    } else {
        resolve_step(resolve_pieces(pieces.drop_last()), pieces.last())
    }
}

/// The components joined by `/`.
pub open spec fn join_slash(parts: Seq<Seq<char>>) -> Seq<char>
    decreases parts.len(),
{
    if parts.len() == 0 {
        seq![]
    } else if parts.len() == 1 {
        parts[0]
    } else {
        join_slash(parts.drop_last()) + seq!['/'] + parts.last()
    }
}

/// `root` joined with a relative path, as `Path::join` does it.
pub open spec fn path_join(root: Seq<char>, rel: Seq<char>) -> Seq<char> {
    if root.len() > 0 && root.last() != '/' {
        root + seq!['/'] + rel
    } else {
        root + rel
    }
}

/// `target` resolved against `root`, lexically.
pub open spec fn spec_normalize_path(root: Seq<char>, target: Seq<char>) -> Seq<char> {
    path_join(root, join_slash(resolve_pieces(split_char(target, '/'))))
}

fn is_dot(p: &String) -> (b: bool)
    ensures
        b == (p@ == dot()),
{
    let cs = chars_of(p.as_str());
    let r = cs.len() == 1 && cs[0] == '.';
    proof {
        if cs@.len() == 1 && cs@[0] == '.' {
            assert(cs@ =~= dot());
        }
    }
    r
}

fn is_dotdot(p: &String) -> (b: bool)
    ensures
        b == (p@ == dotdot()),
{
    let cs = chars_of(p.as_str());
    let r = cs.len() == 2 && cs[0] == '.' && cs[1] == '.';
    proof {
        if cs@.len() == 2 && cs@[0] == '.' && cs@[1] == '.' {
            assert(cs@ =~= dotdot());
        }
    }
    r
}

/// The components a target path resolves to, `.`, `..` and repeated
/// separators taken into account.
fn resolve_target(target: &str) -> (stack: Vec<String>)
    ensures
        string_views(stack@) == resolve_pieces(split_char(target@, '/')),
{
    let pieces = split_by(target, '/');
    let ghost pv = string_views(pieces@);
    let mut stack: Vec<String> = Vec::new();
    let mut i: usize = 0;
    while i < pieces.len()
        invariant
            i <= pieces@.len(),
            pv == string_views(pieces@),
            string_views(stack@) == resolve_pieces(pv.take(i as int)),
        decreases pieces@.len() - i,
    {
        let piece = &pieces[i];
        let ghost before = string_views(stack@);
        proof {
            assert(pv.take(i + 1).drop_last() =~= pv.take(i as int));
            assert(pv[i as int] == piece@);
        }
        if piece.as_str().is_empty() || is_dot(piece) {
        } else if is_dotdot(piece) {
            let n = stack.len();
            if n > 0 && !is_dotdot(&stack[n - 1]) {
                stack.pop();
                proof { assert(string_views(stack@) =~= before.drop_last()); }
            } else {
                stack.push(piece.clone());
                proof { assert(string_views(stack@) =~= before.push(dotdot())); }
            }
        } else {
            stack.push(piece.clone());
            proof {
                assert(string_views(stack@) =~= before.push(piece@));
            }
        }
        i = i + 1;
    }
    proof {
        assert(pv.take(pv.len() as int) =~= pv);
    }
    stack
}

/// Whether a target path climbs above the directory it is resolved in: a
/// `..` meets no named component left to drop.
pub open spec fn spec_climbs(target: Seq<char>) -> bool {
    resolve_pieces(split_char(target, '/')).contains(dotdot())
}

pub fn climbs_above_root(target: &str) -> (b: bool)
    ensures
        b == spec_climbs(target@),
{
    let stack = resolve_target(target);
    let ghost sv = string_views(stack@);
    let mut k: usize = 0;
    while k < stack.len()
        invariant
            k <= stack@.len(),
            sv == string_views(stack@),
            sv == resolve_pieces(split_char(target@, '/')),
            forall|j: int| 0 <= j < k ==> sv[j] != dotdot(),
        decreases stack@.len() - k,
    {
        if is_dotdot(&stack[k]) {
            proof {
                assert(sv.len() == stack@.len());
                assert(sv[k as int] == stack@[k as int]@);
                assert(sv[k as int] == dotdot());
                assert(sv.contains(dotdot()));
                assert(sv == resolve_pieces(split_char(target@, '/')));
            }
            return true;
        }
        proof { assert(sv[k as int] == stack@[k as int]@); }
        k = k + 1;
    }
    proof { assert(sv.len() == stack@.len()); }
    false
}

/// Resolve `target` relative to `root`, normalising `.`, `..` and repeated
/// separators without requiring the path to exist. A leading `/` in the
/// target is ignored.
pub fn normalize_path(root: &str, target: &str) -> (r: String)
    ensures
        r@ == spec_normalize_path(root@, target@),
{
    let stack = resolve_target(target);
    let ghost sv = string_views(stack@);
    let mut rel = String::new();
    let mut k: usize = 0;
    while k < stack.len()
        invariant
            k <= stack@.len(),
            sv == string_views(stack@),
            rel@ == join_slash(sv.take(k as int)),
        decreases stack@.len() - k,
    {
        proof {
            assert(sv.take(k + 1).drop_last() =~= sv.take(k as int));
            assert(sv[k as int] == stack@[k as int]@);
        }
        if k > 0 {
            push_char(&mut rel, '/');
        }
        push_str(&mut rel, stack[k].as_str());
        proof {
            if k == 0 {
                assert(sv.take(1) =~= seq![sv[0]]);
                assert(rel@ =~= sv[0]);
            }
        }
        k = k + 1;
    }
    proof { assert(sv.take(sv.len() as int) =~= sv); }
    let rc = chars_of(root);
    let mut out = owned(root);
    if rc.len() > 0 && rc[rc.len() - 1] != '/' {
        push_char(&mut out, '/');
    }
    push_str(&mut out, rel.as_str());
    out
}

/// What `Path::starts_with` answers: whether the components of `base` are a
/// prefix of the components of `path`.
pub uninterp spec fn path_starts_with(path: Seq<char>, base: Seq<char>) -> bool;

/// `std::path::Path::starts_with`, component-wise prefix test. Its answer is
/// given the name `path_starts_with` and nothing more is claimed of it.
#[verifier::external_body]
fn std_path_starts_with(path: &str, base: &str) -> (b: bool)
    ensures
        b == path_starts_with(path@, base@),
{
    std::path::Path::new(path).starts_with(base)
}

/// A named path component: neither empty nor `.` nor `..`.
pub open spec fn is_named(c: Seq<char>) -> bool {
    c.len() > 0 && c != dot() && c != dotdot()
}

/// Resolution leaves no empty or `.` component; without a climb above the
/// root, every component is named.
pub proof fn lemma_resolved_components(pieces: Seq<Seq<char>>)
    ensures
        forall|i: int| 0 <= i < resolve_pieces(pieces).len() ==> {
            &&& (#[trigger] resolve_pieces(pieces)[i]).len() > 0
            &&& resolve_pieces(pieces)[i] != dot()
        },
        !resolve_pieces(pieces).contains(dotdot()) ==> forall|i: int| 0 <= i < resolve_pieces(pieces).len() ==> is_named(#[trigger] resolve_pieces(pieces)[i]),
    decreases pieces.len(),
{
    if pieces.len() > 0 {
        lemma_resolved_components(pieces.drop_last());
        let st = resolve_pieces(pieces.drop_last());
        let r = resolve_pieces(pieces);
        assert(r == resolve_step(st, pieces.last()));
        assert forall|i: int| 0 <= i < r.len() implies (#[trigger] r[i]).len() > 0 && r[i] != dot() by {
            if i < st.len() {
                assert(r[i] == st[i]);
            }
        }
        if !r.contains(dotdot()) {
            assert forall|i: int| 0 <= i < r.len() implies is_named(#[trigger] r[i]) by {
                if r[i] == dotdot() {
                    assert(r.contains(dotdot()));
                }
            }
        }
    }
}

/// Resolve a workspace-relative path and refuse one that climbs above the
/// project root, or whose resolution does not start with it. An accepted
/// path is the root joined with named components only.
pub fn resolve_workspace_path(project_root: Option<&str>, target: &str) -> (r: Result<String, String>)
    ensures
        match project_root {
            None => r is Err && r->Err_0@ == "No project workspace is open"@,
            Some(root) => {
                let full = spec_normalize_path(root@, target@);
                if !spec_climbs(target@) && path_starts_with(full, root@) {
                    &&& r is Ok && r->Ok_0@ == full
                    &&& exists|parts: Seq<Seq<char>>| r->Ok_0@ == path_join(root@, join_slash(parts))
                        && forall|i: int| 0 <= i < parts.len() ==> is_named(#[trigger] parts[i])
                } else {
                    r is Err && r->Err_0@ == "Target path escapes project root: "@ + target@
                }
            },
        },
{
    match project_root {
        None => Err(owned("No project workspace is open")),
        Some(root) => {
            let full = normalize_path(root, target);
            if climbs_above_root(target) || !std_path_starts_with(full.as_str(), root) {
                let mut msg = owned("Target path escapes project root: ");
                push_str(&mut msg, target);
                Err(msg)
            } else {
                proof {
                    let parts = resolve_pieces(split_char(target@, '/'));
                    lemma_resolved_components(split_char(target@, '/'));
                    assert(full@ == path_join(root@, join_slash(parts)));
                }
                Ok(full)
            }
        },
    }
}

// ─── Merge and reject ───────────────────────────────────────────────────────

pub open spec fn spec_merge_content(existing: Seq<char>, source: Seq<char>, strategy: OsmosisMergeStrategy) -> Seq<char> {
    match strategy {
        OsmosisMergeStrategy::Overwrite => source,
        OsmosisMergeStrategy::Append => existing + seq!['\n'] + source,
    }
}

/// The content a merge writes: the source itself, or the existing content, a
/// newline and the source. A missing file counts as empty.
pub fn merge_content(existing: Option<&str>, source: &str, strategy: OsmosisMergeStrategy) -> (r: String)
    ensures
        r@ == spec_merge_content(
            match existing { Some(e) => e@, None => Seq::<char>::empty() },
            source@,
            strategy,
        ),
{
    match strategy {
        OsmosisMergeStrategy::Overwrite => owned(source),
        OsmosisMergeStrategy::Append => {
            let mut out = match existing {
                Some(e) => owned(e),
                None => String::new(),
            };
            push_char(&mut out, '\n');
            push_str(&mut out, source);
            out
        },
    }
}

pub open spec fn strategy_label(strategy: OsmosisMergeStrategy) -> Seq<char> {
    match strategy {
        OsmosisMergeStrategy::Overwrite => "overwrite"@,
        OsmosisMergeStrategy::Append => "append"@,
    }
}

/// The result of a merge that wrote `content` to `target_path`.
pub fn merge_result(target_path: &String, content: &str, strategy: OsmosisMergeStrategy) -> (r: OsmosisMergeResult)
    ensures
        r.target_path@ == target_path@,
        r.bytes_written == content.spec_bytes().len() as usize,
        r.strategy@ == strategy_label(strategy),
{
    let name = match strategy {
        OsmosisMergeStrategy::Overwrite => owned("overwrite"),
        OsmosisMergeStrategy::Append => owned("append"),
    };
    OsmosisMergeResult { target_path: target_path.clone(), bytes_written: content.len(), strategy: name }
}

/// Whether a reject with no base removes the file: only when the file could
/// be read, the rejected source resolved, and both hold the same text.
pub fn reject_removes_file(current: Option<&str>, source: Option<&str>) -> (b: bool)
    ensures
        b == (current is Some && source is Some && current->Some_0@ == source->Some_0@),
{
    match (current, source) {
        (Some(c), Some(s)) => str_eq(c, s),
        _ => false,
    }
}

/// The result of a reject of `target_path`.
pub fn reject_result(target_path: &String, restored: bool, reason: &Option<String>) -> (r: OsmosisRejectResult)
    ensures
        r.target_path@ == target_path@,
        r.restored == restored,
        opt_str_view(r.reason) == opt_str_view(*reason),
{
    let reason_copy = match reason {
        Some(s) => Some(s.clone()),
        None => None,
    };
    OsmosisRejectResult { target_path: target_path.clone(), restored, reason: reason_copy }
}

// ─── Diff ───────────────────────────────────────────────────────────────────

/// Where the right-hand side of a diff comes from.
pub enum DiffRight {
    Artifact(OsmosisArtifactRef),
    Workspace(String),
}

/// The right-hand side of a diff: the right artifact when one is given, else
/// the workspace file at `target_path`; a request with neither is refused.
pub fn diff_right(req: &OsmosisDiffRequest) -> (r: Result<DiffRight, String>)
    ensures
        match req.right {
            Some(a) => r matches Ok(DiffRight::Artifact(b)) && b.execution_id@ == a.execution_id@
                && opt_str_view(b.artifact_id) == opt_str_view(a.artifact_id),
            None => match req.target_path {
                Some(t) => r matches Ok(DiffRight::Workspace(p)) && p@ == t@,
                None => r is Err && r->Err_0@ == "Osmosis diff requires either right artifact or target_path"@,
            },
        },
{
    match &req.right {
        Some(a) => {
            let artifact_id = match &a.artifact_id {
                Some(s) => Some(s.clone()),
                None => None,
            };
            Ok(DiffRight::Artifact(OsmosisArtifactRef { execution_id: a.execution_id.clone(), artifact_id }))
        },
        None => match &req.target_path {
            Some(t) => Ok(DiffRight::Workspace(t.clone())),
            None => Err(owned("Osmosis diff requires either right artifact or target_path")),
        },
    }
}

/// The result of diffing `left` (from execution `left_execution_id`) against
/// `right`: the structured diff, and its unified text when asked for.
pub fn diff_result(
    left_execution_id: &String,
    right_path: Option<String>,
    left: &str,
    right: &str,
    format: Option<OsmosisDiffFormat>,
) -> (r: OsmosisDiffResult)
    requires
        left@.len() < usize::MAX,
        right@.len() < usize::MAX,
    ensures
        opt_str_view(r.left_path) == Some(left_execution_id@),
        opt_str_view(r.right_path) == opt_str_view(right_path),
        r.structured@ == spec_diff_text(left@, right@),
        format == Some(OsmosisDiffFormat::Unified) ==> r.unified is Some && r.unified->Some_0@ == unified(spec_diff_text(left@, right@)),
        format != Some(OsmosisDiffFormat::Unified) ==> r.unified is None,
{
    let structured = diff_text(left, right);
    let unified_text = match format {
        Some(OsmosisDiffFormat::Unified) => Some(structured_to_unified(&structured)),
        _ => None,
    };
    OsmosisDiffResult {
        left_path: Some(left_execution_id.clone()),
        right_path,
        structured,
        unified: unified_text,
    }
}

} // verus!
