//! The Landlock and resource-limit layers of the sandbox as plans: which
//! accesses the ruleset handles, which access each path is given, and which
//! limits are set. Making the system calls is left to the caller.
use vstd::prelude::*;
use crate::text::owned;
use crate::types::budget::ExecutionBudget;
use crate::types::capability::clone_strings;

verus! {

// Landlock access rights (from linux/landlock.h)
pub const LANDLOCK_ACCESS_FS_EXECUTE: u64 = 1u64 << 0u64;
pub const LANDLOCK_ACCESS_FS_WRITE_FILE: u64 = 1u64 << 1u64;
pub const LANDLOCK_ACCESS_FS_READ_FILE: u64 = 1u64 << 2u64;
pub const LANDLOCK_ACCESS_FS_READ_DIR: u64 = 1u64 << 3u64;
pub const LANDLOCK_ACCESS_FS_REMOVE_DIR: u64 = 1u64 << 4u64;
pub const LANDLOCK_ACCESS_FS_REMOVE_FILE: u64 = 1u64 << 5u64;
pub const LANDLOCK_ACCESS_FS_MAKE_DIR: u64 = 1u64 << 7u64;
pub const LANDLOCK_ACCESS_FS_MAKE_REG: u64 = 1u64 << 8u64;

/// The rule type of a path-beneath rule.
pub const LANDLOCK_RULE_PATH_BENEATH: u32 = 1;

/// The accesses the ruleset handles: all others stay allowed.
pub const HANDLED_ACCESS: u64 = 0x1bf;

/// Read-write access for the working directory.
pub const RW_ACCESS: u64 = 0x1be;

/// Access for the output directory: list it, write and create files and
/// directories.
pub const OUT_ACCESS: u64 = 0x18a;

/// Read-only access for input paths.
pub const RO_ACCESS: u64 = 0xc;

/// Read and execute access for executable paths.
pub const RX_ACCESS: u64 = 0xd;

/// Each access mask is the union of the access flags it stands for.
pub proof fn lemma_access_values()
    ensures
        HANDLED_ACCESS == LANDLOCK_ACCESS_FS_EXECUTE | LANDLOCK_ACCESS_FS_WRITE_FILE | LANDLOCK_ACCESS_FS_READ_FILE
            | LANDLOCK_ACCESS_FS_READ_DIR | LANDLOCK_ACCESS_FS_REMOVE_DIR | LANDLOCK_ACCESS_FS_REMOVE_FILE
            | LANDLOCK_ACCESS_FS_MAKE_DIR | LANDLOCK_ACCESS_FS_MAKE_REG,
        RW_ACCESS == LANDLOCK_ACCESS_FS_READ_FILE | LANDLOCK_ACCESS_FS_WRITE_FILE | LANDLOCK_ACCESS_FS_READ_DIR
            | LANDLOCK_ACCESS_FS_MAKE_DIR | LANDLOCK_ACCESS_FS_MAKE_REG | LANDLOCK_ACCESS_FS_REMOVE_FILE
            | LANDLOCK_ACCESS_FS_REMOVE_DIR,
        OUT_ACCESS == LANDLOCK_ACCESS_FS_READ_DIR | LANDLOCK_ACCESS_FS_WRITE_FILE | LANDLOCK_ACCESS_FS_MAKE_DIR
            | LANDLOCK_ACCESS_FS_MAKE_REG,
        RO_ACCESS == LANDLOCK_ACCESS_FS_READ_FILE | LANDLOCK_ACCESS_FS_READ_DIR,
        RX_ACCESS == LANDLOCK_ACCESS_FS_READ_FILE | LANDLOCK_ACCESS_FS_READ_DIR | LANDLOCK_ACCESS_FS_EXECUTE,
{
    assert(0x1bfu64 == (1u64 << 0u64) | (1u64 << 1u64) | (1u64 << 2u64) | (1u64 << 3u64) | (1u64 << 4u64)
        | (1u64 << 5u64) | (1u64 << 7u64) | (1u64 << 8u64)) by (bit_vector);
    assert(0x1beu64 == (1u64 << 2u64) | (1u64 << 1u64) | (1u64 << 3u64) | (1u64 << 7u64) | (1u64 << 8u64)
        | (1u64 << 5u64) | (1u64 << 4u64)) by (bit_vector);
    assert(0x18au64 == (1u64 << 3u64) | (1u64 << 1u64) | (1u64 << 7u64) | (1u64 << 8u64)) by (bit_vector);
    assert(0xcu64 == (1u64 << 2u64) | (1u64 << 3u64)) by (bit_vector);
    assert(0xdu64 == (1u64 << 2u64) | (1u64 << 3u64) | (1u64 << 0u64)) by (bit_vector);
}

/// Access to one path.
#[derive(Debug, Clone)]
pub struct PathRule {
    pub path: String,
    pub access: u64,
    /// Whether failing to add the rule fails the layer; otherwise it is
    /// only reported.
    pub required: bool,
}

/// A Landlock ruleset to install.
#[derive(Debug, Clone)]
pub struct LandlockPlan {
    pub handled_access: u64,
    pub rules: Vec<PathRule>,
}

/// A path rule as plain values.
pub open spec fn rule_view(r: PathRule) -> (Seq<char>, u64, bool) {
    (r.path@, r.access, r.required)
}

/// The rules of a plan: read-write on the working directory and output
/// access on the output directory, both required; then read-only on each
/// input path and read-execute on each executable path, both best-effort.
pub open spec fn planned_rules(
    work_dir: Seq<char>,
    output_dir: Seq<char>,
    input_paths: Seq<Seq<char>>,
    executable_paths: Seq<Seq<char>>,
) -> Seq<(Seq<char>, u64, bool)> {
    seq![(work_dir, RW_ACCESS, true), (output_dir, OUT_ACCESS, true)]
        + input_paths.map_values(|p: Seq<char>| (p, RO_ACCESS, false))
        + executable_paths.map_values(|p: Seq<char>| (p, RX_ACCESS, false))
}

fn push_rules(rules: &mut Vec<PathRule>, paths: &Vec<String>, access: u64)
    ensures
        final(rules)@.map_values(|r: PathRule| rule_view(r))
            == old(rules)@.map_values(|r: PathRule| rule_view(r))
            + crate::text::string_views(paths@).map_values(|p: Seq<char>| (p, access, false)),
{
    let ghost start = rules@.map_values(|r: PathRule| rule_view(r));
    let ghost ps = crate::text::string_views(paths@);
    let mut i: usize = 0;
    while i < paths.len()
        invariant
            i <= paths@.len(),
            ps == crate::text::string_views(paths@),
            rules@.map_values(|r: PathRule| rule_view(r))
                == start + ps.take(i as int).map_values(|p: Seq<char>| (p, access, false)),
        decreases paths@.len() - i,
    {
        let ghost before = rules@.map_values(|r: PathRule| rule_view(r));
        rules.push(PathRule { path: owned(paths[i].as_str()), access, required: false });
        proof {
            assert(rules@.map_values(|r: PathRule| rule_view(r)) =~= before.push((paths@[i as int]@, access, false)));
            assert(ps.take(i + 1).map_values(|p: Seq<char>| (p, access, false))
                =~= ps.take(i as int).map_values(|p: Seq<char>| (p, access, false)).push((ps[i as int], access, false)));
        }
        i = i + 1;
    }
    assert(ps.take(ps.len() as int) =~= ps);
}

/// The Landlock ruleset for a sandbox. Every rule gives only accesses that
/// the ruleset handles.
pub fn landlock_plan(
    work_dir: &str,
    output_dir: &str,
    input_paths: &Vec<String>,
    executable_paths: &Vec<String>,
) -> (r: LandlockPlan)
    ensures
        r.handled_access == HANDLED_ACCESS,
        r.rules@.map_values(|x: PathRule| rule_view(x)) == planned_rules(
            work_dir@,
            output_dir@,
            crate::text::string_views(input_paths@),
            crate::text::string_views(executable_paths@),
        ),
        forall|i: int| 0 <= i < r.rules@.len() ==> #[trigger] r.rules@[i].access & !r.handled_access == 0,
{
    let mut rules: Vec<PathRule> = Vec::new();
    rules.push(PathRule { path: owned(work_dir), access: RW_ACCESS, required: true });
    rules.push(PathRule { path: owned(output_dir), access: OUT_ACCESS, required: true });
    proof {
        assert(rules@.map_values(|x: PathRule| rule_view(x)) =~= seq![(work_dir@, RW_ACCESS, true), (output_dir@, OUT_ACCESS, true)]);
    }
    push_rules(&mut rules, input_paths, RO_ACCESS);
    push_rules(&mut rules, executable_paths, RX_ACCESS);
    let r = LandlockPlan { handled_access: HANDLED_ACCESS, rules };
    proof {
        let views = r.rules@.map_values(|x: PathRule| rule_view(x));
        assert forall|i: int| 0 <= i < r.rules@.len() implies #[trigger] r.rules@[i].access & !r.handled_access == 0 by {
            assert(views[i].1 == r.rules@[i].access);
            let a = r.rules@[i].access;
            assert(a == RW_ACCESS || a == OUT_ACCESS || a == RO_ACCESS || a == RX_ACCESS) by {
                let ins = crate::text::string_views(input_paths@).map_values(|p: Seq<char>| (p, RO_ACCESS, false));
                let exs = crate::text::string_views(executable_paths@).map_values(|p: Seq<char>| (p, RX_ACCESS, false));
                let head = seq![(work_dir@, RW_ACCESS, true), (output_dir@, OUT_ACCESS, true)];
                assert(views == head + ins + exs);
                assert(views.len() == r.rules@.len());
                assert(views.len() == 2 + ins.len() + exs.len());
                if i < 2 {
                    assert(views[i] == head[i]);
                } else if i < 2 + ins.len() {
                    assert(views[i] == ins[i - 2]);
                } else {
                    assert(views[i] == exs[i - 2 - ins.len()]);
                }
            }
            assert(0x1beu64 & !0x1bfu64 == 0) by (bit_vector);
            assert(0x18au64 & !0x1bfu64 == 0) by (bit_vector);
            assert(0xcu64 & !0x1bfu64 == 0) by (bit_vector);
            assert(0xdu64 & !0x1bfu64 == 0) by (bit_vector);
        }
    }
    r
}

// ─── Resource limits ────────────────────────────────────────────────────────

/// A soft and a hard limit.
#[derive(Debug, Clone, Copy, PartialEq, Eq, Structural)]
pub struct Limit {
    pub soft: u64,
    pub hard: u64,
}

/// The resource limits a budget sets.
#[derive(Debug, Clone, Copy, PartialEq, Eq, Structural)]
pub struct RlimitPlan {
    /// CPU seconds; the hard limit five seconds above.
    pub cpu: Limit,
    /// Address space in bytes; the hard limit 50 MiB above.
    pub address_space: Limit,
    /// File size in bytes.
    pub file_size: Limit,
    /// Open files.
    pub open_files: Limit,
}

/// One mebibyte.
pub const MIB: u64 = 1024 * 1024;

/// Whether a budget's limits can be computed: none of them overflows.
pub open spec fn budget_fits(b: ExecutionBudget) -> bool {
    &&& b.cpu_seconds + 5 <= u64::MAX
    &&& b.memory_mb * MIB + 50 * MIB <= u64::MAX
    &&& b.disk_mb * MIB <= u64::MAX
}

/// Whether a budget's limits can be computed, tested without overflow.
pub fn limits_fit(b: &ExecutionBudget) -> (r: bool)
    ensures
        r == budget_fits(*b),
{
    let max_mem: u64 = (u64::MAX - 50 * MIB) / MIB;
    let max_disk: u64 = u64::MAX / MIB;
    proof {
        let m = b.memory_mb as int;
        let d = b.disk_mb as int;
        let big = u64::MAX as int;
        let mib = MIB as int;
        assert(mib == 1048576);
        assert((m <= (big - 50 * mib) / mib) == (m * mib + 50 * mib <= big)) by (nonlinear_arith)
            requires mib > 0, m >= 0, big - 50 * mib >= 0;
        assert((d <= big / mib) == (d * mib <= big)) by (nonlinear_arith)
            requires mib > 0, d >= 0, big >= 0;
    }
    b.cpu_seconds <= u64::MAX - 5 && b.memory_mb <= max_mem && b.disk_mb <= max_disk
}

/// The resource limits for a budget: CPU time, address space, file size
/// and open files.
pub fn rlimit_plan(budget: &ExecutionBudget) -> (r: RlimitPlan)
    requires
        budget_fits(*budget),
    ensures
        r.cpu == (Limit { soft: budget.cpu_seconds, hard: (budget.cpu_seconds + 5) as u64 }),
        r.address_space == (Limit {
            soft: (budget.memory_mb * MIB) as u64,
            hard: (budget.memory_mb * MIB + 50 * MIB) as u64,
        }),
        r.file_size == (Limit { soft: (budget.disk_mb * MIB) as u64, hard: (budget.disk_mb * MIB) as u64 }),
        r.open_files == (Limit { soft: 4096, hard: 4096 }),
{
    let mem = budget.memory_mb * MIB;
    let disk = budget.disk_mb * MIB;
    RlimitPlan {
        cpu: Limit { soft: budget.cpu_seconds, hard: budget.cpu_seconds + 5 },
        address_space: Limit { soft: mem, hard: mem + 50 * MIB },
        file_size: Limit { soft: disk, hard: disk },
        open_files: Limit { soft: 4096, hard: 4096 },
    }
}

} // verus!
