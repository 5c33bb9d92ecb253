//! The seccomp filter of the sandbox: a BPF program that lets through an
//! allowlist of system calls (and, unless network access is blocked, the
//! socket calls) and kills the process on any other call. Installing the
//! program is left to the caller.
use vstd::prelude::*;

verus! {

/// One BPF instruction.
#[derive(Debug, Clone, Copy, PartialEq, Eq, Structural)]
pub struct SockFilter {
    pub code: u16,
    pub jt: u8,
    pub jf: u8,
    pub k: u32,
}

pub const BPF_LD: u16 = 0x00;
pub const BPF_W: u16 = 0x00;
pub const BPF_ABS: u16 = 0x20;
pub const BPF_JMP: u16 = 0x05;
pub const BPF_JEQ: u16 = 0x10;
pub const BPF_K: u16 = 0x00;
pub const BPF_RET: u16 = 0x06;
pub const BPF_ALLOW: u32 = 0x7fff_0000;
pub const BPF_KILL: u32 = 0x0000_0000;

/// A BPF statement.
pub fn bpf_stmt(code: u16, k: u32) -> (r: SockFilter)
    ensures
        r == (SockFilter { code, jt: 0, jf: 0, k }),
{
    SockFilter { code, jt: 0, jf: 0, k }
}

/// A BPF jump.
pub fn bpf_jump(code: u16, k: u32, jt: u8, jf: u8) -> (r: SockFilter)
    ensures
        r == (SockFilter { code, jt, jf, k }),
{
    SockFilter { code, jt, jf, k }
}

/// The system calls (x86_64 numbers) every sandboxed process may make.
pub open spec fn allowed_syscalls() -> Seq<u32> {
    seq![0u32, 1u32, 2u32, 257u32, 3u32, 4u32, 5u32, 262u32, 137u32, 138u32, 81u32, 8u32, 9u32, 10u32, 11u32, 12u32, 13u32, 14u32, 15u32, 16u32, 17u32, 18u32, 19u32, 20u32, 21u32, 22u32, 293u32, 32u32, 33u32, 292u32, 35u32, 230u32, 39u32, 186u32, 110u32, 102u32, 107u32, 104u32, 108u32, 60u32, 231u32, 63u32, 72u32, 74u32, 75u32, 79u32, 80u32, 82u32, 264u32, 83u32, 258u32, 84u32, 85u32, 87u32, 263u32, 89u32, 267u32, 96u32, 97u32, 98u32, 100u32, 78u32, 217u32, 202u32, 218u32, 219u32, 302u32, 99u32, 28u32, 221u32, 24u32, 57u32, 56u32, 58u32, 59u32, 322u32, 61u32, 158u32, 273u32, 274u32, 157u32, 317u32, 318u32, 319u32, 326u32, 269u32, 439u32, 332u32, 435u32, 437u32, 327u32, 328u32, 334u32]
}

/// The socket system calls (x86_64 numbers), allowed unless network access
/// is blocked.
pub open spec fn network_syscalls() -> Seq<u32> {
    seq![41u32, 42u32, 43u32, 288u32, 44u32, 45u32, 46u32, 47u32, 48u32, 49u32, 50u32, 51u32, 52u32, 53u32, 54u32, 55u32]
}

pub fn allowed_syscall_list() -> (v: Vec<u32>)
    ensures
        v@ == allowed_syscalls(),
{
    let v: Vec<u32> = vec![0, 1, 2, 257, 3, 4, 5, 262, 137, 138, 81, 8, 9, 10, 11, 12, 13, 14, 15, 16, 17, 18, 19, 20, 21, 22, 293, 32, 33, 292, 35, 230, 39, 186, 110, 102, 107, 104, 108, 60, 231, 63, 72, 74, 75, 79, 80, 82, 264, 83, 258, 84, 85, 87, 263, 89, 267, 96, 97, 98, 100, 78, 217, 202, 218, 219, 302, 99, 28, 221, 24, 57, 56, 58, 59, 322, 61, 158, 273, 274, 157, 317, 318, 319, 326, 269, 439, 332, 435, 437, 327, 328, 334];
    assert(v@ =~= allowed_syscalls());
    v
}

pub fn network_syscall_list() -> (v: Vec<u32>)
    ensures
        v@ == network_syscalls(),
{
    let v: Vec<u32> = vec![41, 42, 43, 288, 44, 45, 46, 47, 48, 49, 50, 51, 52, 53, 54, 55];
    assert(v@ =~= network_syscalls());
    v
}

/// The instructions that let `nr` through: compare, and allow on a match.
pub open spec fn allow_pair(nr: u32) -> Seq<SockFilter> {
    seq![
        SockFilter { code: 0x15, jt: 0, jf: 1, k: nr },
        SockFilter { code: 0x06, jt: 0, jf: 0, k: 0x7fff_0000 },
    ]
}

pub open spec fn allow_pairs(nrs: Seq<u32>) -> Seq<SockFilter>
    decreases nrs.len(),
{
    if nrs.len() == 0 {
        seq![]
    } else {
        allow_pairs(nrs.drop_last()) + allow_pair(nrs.last())
    }
}

/// The system calls a filter lets through.
pub open spec fn permitted(block_network: bool) -> Seq<u32> {
    if block_network { allowed_syscalls() } else { allowed_syscalls() + network_syscalls() }
}

/// The filter program: load the call number, one compare-and-allow pair per
/// permitted call, then kill.
pub open spec fn spec_filter(block_network: bool) -> Seq<SockFilter> {
    seq![SockFilter { code: 0x20, jt: 0, jf: 0, k: 0 }] + allow_pairs(permitted(block_network))
        + seq![SockFilter { code: 0x06, jt: 0, jf: 0, k: 0 }]
}

fn push_pairs(filter: &mut Vec<SockFilter>, nrs: &Vec<u32>)
    ensures
        final(filter)@ == old(filter)@ + allow_pairs(nrs@),
{
    let mut i: usize = 0;
    while i < nrs.len()
        invariant
            i <= nrs@.len(),
            filter@ == old(filter)@ + allow_pairs(nrs@.take(i as int)),
        decreases nrs@.len() - i,
    {
        let ghost before = filter@;
        filter.push(bpf_jump(BPF_JMP | BPF_JEQ | BPF_K, nrs[i], 0, 1));
        filter.push(bpf_stmt(BPF_RET | BPF_K, BPF_ALLOW));
        proof {
            assert(nrs@.take(i + 1).drop_last() =~= nrs@.take(i as int));
            assert((BPF_JMP | BPF_JEQ | BPF_K) == 0x15u16) by (bit_vector);
            assert((BPF_RET | BPF_K) == 0x06u16) by (bit_vector);
            assert(filter@ =~= before + allow_pair(nrs@[i as int]));
        }
        i = i + 1;
    }
    assert(nrs@.take(nrs@.len() as int) =~= nrs@);
}

/// The seccomp filter program for a sandboxed process.
pub fn build_seccomp_filter(block_network: bool) -> (r: Vec<SockFilter>)
    ensures
        r@ == spec_filter(block_network),
{
    let mut filter: Vec<SockFilter> = Vec::new();
    filter.push(bpf_stmt(BPF_LD | BPF_W | BPF_ABS, 0));
    proof { assert((BPF_LD | BPF_W | BPF_ABS) == 0x20u16) by (bit_vector); }
    let allowed = allowed_syscall_list();
    push_pairs(&mut filter, &allowed);
    if !block_network {
        let net = network_syscall_list();
        push_pairs(&mut filter, &net);
        proof { lemma_allow_pairs_concat(allowed_syscalls(), network_syscalls()); }
    }
    filter.push(bpf_stmt(BPF_RET | BPF_K, BPF_KILL));
    proof {
        assert((BPF_RET | BPF_K) == 0x06u16) by (bit_vector);
        assert(filter@ =~= spec_filter(block_network));
    }
    filter
}

proof fn lemma_allow_pairs_concat(a: Seq<u32>, b: Seq<u32>)
    ensures
        allow_pairs(a + b) == allow_pairs(a) + allow_pairs(b),
    decreases b.len(),
{
    if b.len() == 0 {
        assert(a + b =~= a);
        assert(allow_pairs(a) + allow_pairs(b) =~= allow_pairs(a));
    } else {
        assert((a + b).drop_last() =~= a + b.drop_last());
        lemma_allow_pairs_concat(a, b.drop_last());
        assert(allow_pairs(a + b) =~= allow_pairs(a) + allow_pairs(b));
    }
}

// ─── What the program does ──────────────────────────────────────────────────

/// The value a BPF program returns for system call `nr`, run from
/// instruction `pc` with accumulator `acc`: loads of the call number,
/// compare-and-jump on a constant, and returns; anything else, or running
/// off the end, kills.
pub open spec fn bpf_run(prog: Seq<SockFilter>, pc: int, acc: u32, nr: u32) -> u32
    decreases prog.len() - pc,
{
    if pc < 0 || pc >= prog.len() {
        0
    } else {
        let ins = prog[pc];
        if ins.code == 0x20 && ins.k == 0 {
            bpf_run(prog, pc + 1, nr, nr)
        } else if ins.code == 0x15 {
            let next = if acc == ins.k { pc + 1 + ins.jt } else { pc + 1 + ins.jf };
            if next > prog.len() {
                0
            } else {
                bpf_run(prog, next, acc, nr)
            }
        } else if ins.code == 0x06 {
            ins.k
        } else {
            0
        }
    }
}

proof fn lemma_pairs_run(prefix: Seq<SockFilter>, nrs: Seq<u32>, tail: Seq<SockFilter>, nr: u32)
    requires
        tail.len() > 0,
        tail[0] == (SockFilter { code: 0x06, jt: 0, jf: 0, k: 0 }),
    ensures
        bpf_run(prefix + allow_pairs(nrs) + tail, prefix.len() as int, nr, nr)
            == if nrs.contains(nr) { 0x7fff_0000u32 } else { 0u32 },
    decreases nrs.len(),
{
    if nrs.len() == 0 {
        assert(prefix + allow_pairs(nrs) + tail =~= prefix + tail);
        assert((prefix + tail)[prefix.len() as int] == tail[0]);
    } else {
        let first = nrs[0];
        let rest = nrs.drop_first();
        lemma_allow_pairs_front(nrs);
        let p2 = prefix + allow_pair(first);
        assert(prefix + allow_pairs(nrs) + tail =~= p2 + allow_pairs(rest) + tail);
        lemma_pairs_run(p2, rest, tail, nr);
        let prog = prefix + allow_pairs(nrs) + tail;
        let pc = prefix.len() as int;
        assert(prog[pc] == allow_pair(first)[0]);
        assert(prog[pc + 1] == allow_pair(first)[1]);
        assert(prog.len() >= pc + 2);
        assert(bpf_run(prog, pc + 1, nr, nr) == 0x7fff_0000u32);
        if nr == first {
            assert(nrs.contains(nr)) by { assert(nrs[0] == nr); }
            assert(bpf_run(prog, pc, nr, nr) == 0x7fff_0000u32);
        } else {
            assert(nrs.contains(nr) == rest.contains(nr)) by {
                if nrs.contains(nr) {
                    let k = choose|k: int| 0 <= k < nrs.len() && nrs[k] == nr;
                    assert(k != 0);
                    assert(rest[k - 1] == nr);
                }
                if rest.contains(nr) {
                    let k = choose|k: int| 0 <= k < rest.len() && rest[k] == nr;
                    assert(nrs[k + 1] == nr);
                }
            }
            assert(p2.len() == pc + 2);
            assert(bpf_run(prog, pc, nr, nr) == bpf_run(prog, pc + 2, nr, nr));
        }
    }
}

proof fn lemma_allow_pairs_front(nrs: Seq<u32>)
    requires
        nrs.len() > 0,
    ensures
        allow_pairs(nrs) == allow_pair(nrs[0]) + allow_pairs(nrs.drop_first()),
    decreases nrs.len(),
{
    if nrs.len() == 1 {
        assert(nrs.drop_first() =~= Seq::<u32>::empty());
        assert(nrs.drop_last() =~= Seq::<u32>::empty());
        assert(allow_pairs(nrs) =~= allow_pair(nrs[0]) + allow_pairs(nrs.drop_first()));
    } else {
        lemma_allow_pairs_front(nrs.drop_last());
        assert(nrs.drop_last().drop_first() =~= nrs.drop_first().drop_last());
        assert(nrs.drop_first().last() == nrs.last());
        assert(allow_pairs(nrs) =~= allow_pair(nrs[0]) + allow_pairs(nrs.drop_first()));
    }
}

/// The filter lets a system call through exactly when it is permitted, and
/// kills the process on every other call.
pub proof fn lemma_filter_allows_exactly_permitted(block_network: bool, nr: u32)
    ensures
        bpf_run(spec_filter(block_network), 0, 0, nr)
            == if permitted(block_network).contains(nr) { BPF_ALLOW } else { BPF_KILL },
{
    let load = seq![SockFilter { code: 0x20, jt: 0, jf: 0, k: 0 }];
    let kill = seq![SockFilter { code: 0x06, jt: 0, jf: 0, k: 0 }];
    let prog = spec_filter(block_network);
    assert(prog =~= load + allow_pairs(permitted(block_network)) + kill);
    assert(prog[0] == load[0]);
    lemma_pairs_run(load, permitted(block_network), kill, nr);
}

} // verus!
