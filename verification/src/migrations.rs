//! Schema migrations: which numbered migrations run, in which direction and
//! order, to bring a database from its current version to a target one.
//! Running the SQL and recording the applied versions is left to the caller.
use vstd::prelude::*;
use crate::text::{contains, owned, push_str, str_contains};

verus! {

broadcast use vstd::string::group_string_axioms;

/// A single numbered schema migration.
#[derive(Debug, Clone)]
pub struct Migration {
    pub version: i64,
    pub name: String,
    pub sql: String,
    pub down_sql: Option<String>,
}

/// A migration set, kept in the order it was given.
#[derive(Debug, Clone)]
pub struct Runner {
    pub migrations: Vec<Migration>,
}

/// What bringing a database to a target version takes: the migrations to
/// apply, or to revert, by position in the set, in the order to run them.
#[derive(Debug, Clone)]
pub enum MigrationPlan {
    Up(Vec<usize>),
    Down(Vec<usize>),
    Nothing,
}

pub open spec fn versions(ms: Seq<Migration>) -> Seq<i64> {
    ms.map_values(|m: Migration| m.version)
}

/// The positions `k` of `vs` below `n` whose version lies in `(lo, hi]`, in
/// order.
pub open spec fn in_window(vs: Seq<i64>, lo: i64, hi: i64, n: int) -> Seq<usize>
    decreases n,
{
    if n <= 0 {
        seq![]
    } else if lo < vs[n - 1] && vs[n - 1] <= hi {
        in_window(vs, lo, hi, n - 1).push((n - 1) as usize)
    } else {
        in_window(vs, lo, hi, n - 1)
    }
}

/// The direction (1 up, 2 down, 0 none) and the positions to run.
pub open spec fn spec_plan(vs: Seq<i64>, current: i64, target: i64) -> (int, Seq<usize>) {
    if target > current {
        (1, in_window(vs, current, target, vs.len() as int))
    } else if target < current {
        (2, in_window(vs, target, current, vs.len() as int).reverse())
    } else {
        (0, seq![])
    }
}

fn window(ms: &Vec<Migration>, lo: i64, hi: i64) -> (r: Vec<usize>)
    ensures
        r@ == in_window(versions(ms@), lo, hi, ms@.len() as int),
{
    let mut out: Vec<usize> = Vec::new();
    let mut k: usize = 0;
    while k < ms.len()
        invariant
            k <= ms@.len(),
            out@ == in_window(versions(ms@), lo, hi, k as int),
        decreases ms@.len() - k,
    {
        let v = ms[k].version;
        if lo < v && v <= hi {
            out.push(k);
        }
        k = k + 1;
    }
    out
}

fn reversed(v: &Vec<usize>) -> (r: Vec<usize>)
    ensures
        r@ == v@.reverse(),
{
    let mut out: Vec<usize> = Vec::new();
    let mut k: usize = v.len();
    while k > 0
        invariant
            k <= v@.len(),
            out@ == v@.subrange(k as int, v@.len() as int).reverse(),
        decreases k,
    {
        k = k - 1;
        out.push(v[k]);
        proof {
            assert(v@.subrange(k as int, v@.len() as int).reverse() =~= v@.subrange(k + 1, v@.len() as int).reverse().push(v@[k as int]));
        }
    }
    assert(v@.subrange(0, v@.len() as int) =~= v@);
    out
}

impl Runner {
    pub fn new(migrations: Vec<Migration>) -> (r: Runner)
        ensures
            r.migrations@ == migrations@,
    {
        Runner { migrations }
    }

    /// The latest version of the set, or 0 for an empty set.
    pub fn latest_version(&self) -> (r: i64)
        ensures
            self.migrations@.len() == 0 ==> r == 0,
            self.migrations@.len() > 0 ==> (exists|k: int| 0 <= k < self.migrations@.len() && r == #[trigger] self.migrations@[k].version),
            forall|k: int| 0 <= k < self.migrations@.len() ==> #[trigger] self.migrations@[k].version <= r,
    {
        let mut best: i64 = 0;
        let mut k: usize = 0;
        while k < self.migrations.len()
            invariant
                k <= self.migrations@.len(),
                k == 0 ==> best == 0,
                k > 0 ==> (exists|j: int| 0 <= j < k && best == #[trigger] self.migrations@[j].version),
                forall|j: int| 0 <= j < k ==> #[trigger] self.migrations@[j].version <= best,
            decreases self.migrations@.len() - k,
        {
            let v = self.migrations[k].version;
            if k == 0 || v > best {
                best = v;
            }
            k = k + 1;
        }
        best
    }

    /// The migrations to run to go from `current` to `target`: those above
    /// `current` and up to `target`, in set order, when moving forward; those
    /// above `target` and up to `current`, in reverse set order, when moving
    /// back; none when the versions agree.
    pub fn plan(&self, current: i64, target: i64) -> (r: MigrationPlan)
        ensures
            ({
                let (d, w) = spec_plan(versions(self.migrations@), current, target);
                match r {
                    MigrationPlan::Up(v) => d == 1 && v@ == w,
                    MigrationPlan::Down(v) => d == 2 && v@ == w,
                    MigrationPlan::Nothing => d == 0,
                }
            }),
    {
        if target > current {
            MigrationPlan::Up(window(&self.migrations, current, target))
        } else if target < current {
            let w = window(&self.migrations, target, current);
            MigrationPlan::Down(reversed(&w))
        } else {
            MigrationPlan::Nothing
        }
    }
}

/// An error from an up migration that only says the change is already
/// there: its lower-cased text mentions "already exists" or "duplicate
/// column name". Such a step is taken as applied.
pub fn already_applied(lower_error: &str) -> (r: bool)
    ensures
        r == (contains(lower_error@, "already exists"@) || contains(lower_error@, "duplicate column name"@)),
{
    str_contains(lower_error, "already exists") || str_contains(lower_error, "duplicate column name")
}

/// A planned migration lies in the window it was planned for.
pub proof fn lemma_window_members(vs: Seq<i64>, lo: i64, hi: i64, n: int)
    requires
        0 <= n <= vs.len(),
        vs.len() <= usize::MAX,
    ensures
        forall|i: int| 0 <= i < in_window(vs, lo, hi, n).len() ==> {
            let k = #[trigger] in_window(vs, lo, hi, n)[i];
            &&& k < n
            &&& lo < vs[k as int] <= hi
        },
        forall|i: int, j: int| 0 <= i < j < in_window(vs, lo, hi, n).len() ==> #[trigger] in_window(vs, lo, hi, n)[i] < #[trigger] in_window(vs, lo, hi, n)[j],
    decreases n,
{
    if n > 0 {
        lemma_window_members(vs, lo, hi, n - 1);
        let p = in_window(vs, lo, hi, n - 1);
        let w = in_window(vs, lo, hi, n);
        if lo < vs[n - 1] && vs[n - 1] <= hi {
            assert(w == p.push((n - 1) as usize));
            assert forall|i: int| 0 <= i < w.len() implies {
                let k = #[trigger] w[i];
                &&& k < n
                &&& lo < vs[k as int] <= hi
            } by {
                if i < p.len() {
                    assert(w[i] == p[i]);
                }
            }
            assert forall|i: int, j: int| 0 <= i < j < w.len() implies #[trigger] w[i] < #[trigger] w[j] by {
                assert(w[i] == p[i]);
                if j < p.len() {
                    assert(w[j] == p[j]);
                }
            }
        }
    }
}


/// Reverting from `current` down to `target` and applying from `target` back
/// up to `current` run the same migrations, the one in the reverse order of
/// the other; between equal versions nothing runs.
pub proof fn lemma_down_then_up(vs: Seq<i64>, current: i64, target: i64)
    ensures
        target < current ==> {
            &&& spec_plan(vs, current, target).0 == 2
            &&& spec_plan(vs, target, current).0 == 1
            &&& spec_plan(vs, current, target).1 == spec_plan(vs, target, current).1.reverse()
        },
        target == current ==> spec_plan(vs, current, target) == (0int, Seq::<usize>::empty()),
{
}

/// The versions named by a list of positions in the set.
pub open spec fn step_versions(vs: Seq<i64>, steps: Seq<usize>) -> Set<i64> {
    Set::new(|v: i64| exists|i: int| 0 <= i < steps.len() && vs[steps[i] as int] == v)
}

/// The versions among the first `n` of the set that lie in `(lo, hi]`.
pub open spec fn versions_between(vs: Seq<i64>, lo: i64, hi: i64, n: int) -> Set<i64> {
    Set::new(|v: i64| exists|k: int| 0 <= k < n && vs[k] == v && lo < v <= hi)
}

/// The versions of the set.
pub open spec fn all_versions(vs: Seq<i64>) -> Set<i64> {
    Set::new(|v: i64| exists|k: int| 0 <= k < vs.len() && vs[k] == v)
}

/// The versions recorded as applied once a plan has run: an up plan records
/// each migration it applies, a down plan forgets each one it reverts.
pub open spec fn recorded_after(vs: Seq<i64>, applied: Set<i64>, plan: (int, Seq<usize>)) -> Set<i64> {
    if plan.0 == 1 {
        applied.union(step_versions(vs, plan.1))
    } else if plan.0 == 2 {
        applied.difference(step_versions(vs, plan.1))
    } else {
        applied
    }
}

proof fn lemma_window_versions(vs: Seq<i64>, lo: i64, hi: i64, n: int)
    requires
        0 <= n <= vs.len(),
        vs.len() <= usize::MAX,
    ensures
        step_versions(vs, in_window(vs, lo, hi, n)) == versions_between(vs, lo, hi, n),
    decreases n,
{
    lemma_window_members(vs, lo, hi, n);
    if n > 0 {
        lemma_window_versions(vs, lo, hi, n - 1);
        let p = in_window(vs, lo, hi, n - 1);
        let w = in_window(vs, lo, hi, n);
        assert forall|v: i64| step_versions(vs, w).contains(v) <==> versions_between(vs, lo, hi, n).contains(v) by {
            if lo < vs[n - 1] && vs[n - 1] <= hi {
                assert(w == p.push((n - 1) as usize));
                if step_versions(vs, w).contains(v) {
                    let i = choose|i: int| 0 <= i < w.len() && vs[w[i] as int] == v;
                    if i < p.len() {
                        assert(step_versions(vs, p).contains(v));
                    }
                }
                if versions_between(vs, lo, hi, n).contains(v) {
                    let k = choose|k: int| 0 <= k < n && vs[k] == v && lo < v <= hi;
                    if k < n - 1 {
                        assert(versions_between(vs, lo, hi, n - 1).contains(v));
                        let i = choose|i: int| 0 <= i < p.len() && vs[p[i] as int] == v;
                        assert(w[i] == p[i]);
                    } else {
                        assert(w[p.len() as int] == (n - 1) as usize);
                    }
                }
            } else {
                assert(w == p);
                if versions_between(vs, lo, hi, n).contains(v) {
                    let k = choose|k: int| 0 <= k < n && vs[k] == v && lo < v <= hi;
                    assert(k != n - 1);
                    assert(versions_between(vs, lo, hi, n - 1).contains(v));
                }
                if versions_between(vs, lo, hi, n - 1).contains(v) {
                    let k = choose|k: int| 0 <= k < n - 1 && vs[k] == v && lo < v <= hi;
                    assert(versions_between(vs, lo, hi, n).contains(v));
                }
            }
        }
        assert(step_versions(vs, w) =~= versions_between(vs, lo, hi, n));
    } else {
        assert(step_versions(vs, in_window(vs, lo, hi, n)) =~= versions_between(vs, lo, hi, n));
    }
}

proof fn lemma_reverse_versions(vs: Seq<i64>, steps: Seq<usize>)
    ensures
        step_versions(vs, steps.reverse()) == step_versions(vs, steps),
{
    let r = steps.reverse();
    assert forall|v: i64| step_versions(vs, r).contains(v) <==> step_versions(vs, steps).contains(v) by {
        if step_versions(vs, r).contains(v) {
            let i = choose|i: int| 0 <= i < r.len() && vs[r[i] as int] == v;
            assert(steps[steps.len() - 1 - i] == r[i]);
        }
        if step_versions(vs, steps).contains(v) {
            let i = choose|i: int| 0 <= i < steps.len() && vs[steps[i] as int] == v;
            assert(r[steps.len() - 1 - i] == steps[i]);
        }
    }
    assert(step_versions(vs, r) =~= step_versions(vs, steps));
}

/// Running a plan from `current` to `target` over applied versions that are
/// versions of the set, none above `current`, leaves recorded exactly the
/// applied versions up to `target` and the versions of the set above
/// `current` and up to `target`.
pub proof fn lemma_run_effect(vs: Seq<i64>, applied: Set<i64>, current: i64, target: i64)
    requires
        vs.len() <= usize::MAX,
        applied.subset_of(all_versions(vs)),
        forall|v: i64| applied.contains(v) ==> v <= current,
    ensures
        recorded_after(vs, applied, spec_plan(vs, current, target))
            == applied.filter(|v: i64| v <= target).union(versions_between(vs, current, target, vs.len() as int)),
{
    let n = vs.len() as int;
    let want = applied.filter(|v: i64| v <= target).union(versions_between(vs, current, target, n));
    if target > current {
        lemma_window_versions(vs, current, target, n);
        assert(recorded_after(vs, applied, spec_plan(vs, current, target)) =~= want);
    } else if target < current {
        lemma_window_versions(vs, target, current, n);
        lemma_reverse_versions(vs, in_window(vs, target, current, n));
        assert forall|v: i64| applied.contains(v) && target < v implies versions_between(vs, target, current, n).contains(v) by {
            assert(all_versions(vs).contains(v));
            let k = choose|k: int| 0 <= k < vs.len() && vs[k] == v;
        }
        assert(recorded_after(vs, applied, spec_plan(vs, current, target)) =~= want);
    } else {
        assert(recorded_after(vs, applied, spec_plan(vs, current, target)) =~= want);
    }
}

/// Running again to the same target changes nothing: when the recorded
/// versions are the set's versions up to `target`, and also up to the
/// recorded current version `current`, the plan from `current` to `target`
/// neither records nor forgets any version.
pub proof fn lemma_rerun_changes_nothing(vs: Seq<i64>, recorded: Set<i64>, current: i64, target: i64)
    requires
        vs.len() <= usize::MAX,
        recorded == all_versions(vs).filter(|v: i64| v <= target),
        recorded == all_versions(vs).filter(|v: i64| v <= current),
    ensures
        recorded_after(vs, recorded, spec_plan(vs, current, target)) == recorded,
{
    let n = vs.len() as int;
    if target > current {
        lemma_window_versions(vs, current, target, n);
        assert forall|v: i64| versions_between(vs, current, target, n).contains(v) implies recorded.contains(v) by {
            let k = choose|k: int| 0 <= k < n && vs[k] == v && current < v <= target;
            assert(all_versions(vs).contains(v));
            assert(all_versions(vs).filter(|v: i64| v <= target).contains(v));
        }
        assert(recorded_after(vs, recorded, spec_plan(vs, current, target)) =~= recorded);
    } else if target < current {
        lemma_window_versions(vs, target, current, n);
        lemma_reverse_versions(vs, in_window(vs, target, current, n));
        assert forall|v: i64| versions_between(vs, target, current, n).contains(v) implies !recorded.contains(v) by {
            assert(!all_versions(vs).filter(|v: i64| v <= target).contains(v));
        }
        assert(recorded_after(vs, recorded, spec_plan(vs, current, target)) =~= recorded);
    }
}

} // verus!
