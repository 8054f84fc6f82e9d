//! Execution policy for Linux hosts and bounded restart budgets. Policies
//! come from the operator, never from a component's manifest.

use vstd::prelude::*;
use vstd::string::*;
use vstd::utf8::*;
use crate::text;
use crate::text::Text;
use crate::time::Instant;

verus! {

// ---- tokens -----------------------------------------------------------

/// The digit of a number below sixteen.
pub open spec fn hex_digit(n: u8) -> char {
    if n < 10 {
        (n + 48) as char
    } else {
        (n + 87) as char
    }
}

/// Two digits per byte.
pub open spec fn hex(b: Seq<u8>) -> Text
    decreases b.len(),
{
    if b.len() == 0 {
        Seq::empty()
    } else {
        hex(b.drop_last()).push(hex_digit((b.last() / 16) as u8)).push(
            hex_digit((b.last() % 16) as u8),
        )
    }
}

fn digit(n: u8) -> (r: &'static str)
    requires
        n < 16,
    ensures
        r@ == seq![hex_digit(n)],
{
    proof {
        reveal_strlit("0");
        reveal_strlit("1");
        reveal_strlit("2");
        reveal_strlit("3");
        reveal_strlit("4");
        reveal_strlit("5");
        reveal_strlit("6");
        reveal_strlit("7");
        reveal_strlit("8");
        reveal_strlit("9");
        reveal_strlit("a");
        reveal_strlit("b");
        reveal_strlit("c");
        reveal_strlit("d");
        reveal_strlit("e");
        reveal_strlit("f");
    }
    let r = match n {
        0 => "0",
        1 => "1",
        2 => "2",
        3 => "3",
        4 => "4",
        5 => "5",
        6 => "6",
        7 => "7",
        8 => "8",
        9 => "9",
        10 => "a",
        11 => "b",
        12 => "c",
        13 => "d",
        14 => "e",
        _ => "f",
    };
    assert(r@ =~= seq![hex_digit(n)]);
    r
}

/// The launch token that random bytes give.
pub fn token_of(b: &Vec<u8>) -> (r: String)
    ensures
        r@ == hex(b@),
{
    let mut out = String::new();
    let mut i: usize = 0;
    proof {
        assert(b@.take(0) =~= Seq::<u8>::empty());
        assert(out@ =~= Seq::<char>::empty());
    }
    while i < b.len()
        invariant
            i <= b.len(),
            out@ == hex(b@.take(i as int)),
        decreases b.len() - i,
    {
        let ghost before = out@;
        out.append(digit(b[i] / 16));
        out.append(digit(b[i] % 16));
        proof {
            assert(b@.take(i + 1).drop_last() =~= b@.take(i as int));
            assert(out@ =~= before.push(hex_digit((b[i as int] / 16) as u8)).push(
                hex_digit((b[i as int] % 16) as u8),
            ));
        }
        i += 1;
    }
    proof {
        assert(b@.take(b@.len() as int) =~= b@);
    }
    out
}

proof fn difference_grows(n: u8, x: u8, y: u8)
    ensures
        n | (x ^ y) == 0 <==> n == 0 && x == y,
{
    assert(n | (x ^ y) == 0 <==> n == 0 && x == y) by (bit_vector);
}

/// Whether two tokens are equal. Tokens of one length take one time: every
/// byte is looked at.
pub fn token_eq(a: &str, b: &str) -> (r: bool)
    ensures
        r == (a@ == b@),
{
    broadcast use encode_utf8_decode_utf8;

    let x = a.as_bytes();
    let y = b.as_bytes();
    if x.len() != y.len() {
        return false;
    }
    let mut n: u8 = 0;
    let mut i: usize = 0;
    proof {
        assert(x@.take(0) =~= y@.take(0));
    }
    while i < x.len()
        invariant
            i <= x.len(),
            x.len() == y.len(),
            n == 0 <==> x@.take(i as int) == y@.take(i as int),
        decreases x.len() - i,
    {
        proof {
            difference_grows(n, x[i as int], y[i as int]);
            let p = x@.take(i + 1);
            let q = y@.take(i + 1);
            assert(p =~= x@.take(i as int).push(x[i as int]));
            assert(q =~= y@.take(i as int).push(y[i as int]));
            if p == q {
                assert(p.drop_last() =~= x@.take(i as int));
                assert(q.drop_last() =~= y@.take(i as int));
                assert(p.last() == q.last());
            }
        }
        n = n | (x[i] ^ y[i]);
        i += 1;
    }
    proof {
        assert(x@.take(x@.len() as int) =~= x@);
        assert(y@.take(y@.len() as int) =~= y@);
        assert(decode_utf8(encode_utf8(a@)) == a@);
        assert(decode_utf8(encode_utf8(b@)) == b@);
    }
    n == 0
}

// ---- sandbox ----------------------------------------------------------

/// The least memory of a sandbox.
pub const MIN_MEMORY_BYTES: u64 = 67_108_864;

/// The fewest open files of a sandbox.
pub const MIN_OPEN_FILES: u64 = 16;

#[derive(Debug)]
pub struct Sandbox {
    /// Only this directory is writable outside the private ephemeral /tmp.
    pub workspace: String,
    /// Paths that the operator selected, read-only at their own location.
    pub read_only: Vec<String>,
    pub memory_bytes: u64,
    pub cpu_seconds: u64,
    pub file_bytes: u64,
    pub open_files: u64,
}

pub struct SandboxV {
    pub workspace: Text,
    pub read_only: Seq<Text>,
    pub memory_bytes: u64,
    pub cpu_seconds: u64,
    pub file_bytes: u64,
    pub open_files: u64,
}

impl View for Sandbox {
    type V = SandboxV;

    open spec fn view(&self) -> SandboxV {
        SandboxV {
            workspace: self.workspace@,
            read_only: self.read_only.deep_view(),
            memory_bytes: self.memory_bytes,
            cpu_seconds: self.cpu_seconds,
            file_bytes: self.file_bytes,
            open_files: self.open_files,
        }
    }
}

/// Whether a path starts at the root.
pub open spec fn absolute(p: Text) -> bool {
    p.len() > 0 && p[0] == '/'
}

fn is_absolute(p: &str) -> (r: bool)
    ensures
        r == absolute(p@),
{
    p.unicode_len() > 0 && p.get_char(0) == '/'
}

impl SandboxV {
    /// Whether every limit is finite and usable.
    pub open spec fn limited(self) -> bool {
        &&& self.memory_bytes >= MIN_MEMORY_BYTES
        &&& self.cpu_seconds > 0
        &&& self.file_bytes > 0
        &&& self.open_files >= MIN_OPEN_FILES
    }

    /// Whether the read-only path `i` can be mounted, given which exist.
    pub open spec fn mountable(self, i: int, exists_at: Seq<bool>) -> bool {
        absolute(self.read_only[i]) && i < exists_at.len() && exists_at[i]
    }

    /// What is wrong with the policy, given what is on disk.
    pub open spec fn fault(self, workspace_is_dir: bool, exists_at: Seq<bool>) -> Option<Text> {
        if !self.limited() {
            Some("invalid finite sandbox limits"@)
        } else if !absolute(self.workspace) || !workspace_is_dir {
            Some("workspace must be an existing absolute private directory"@)
        } else if exists|i: int|
            0 <= i < self.read_only.len() && !(#[trigger] self.mountable(i, exists_at)) {
            Some("invalid read-only mount"@)
        } else {
            None
        }
    }
}

/// What the kernel limits for a sandboxed process.
#[derive(Debug, Clone, Copy, PartialEq, Eq, Structural)]
pub enum Limit {
    AddressSpace,
    CpuTime,
    FileSize,
    OpenFiles,
    CoreSize,
}

impl Sandbox {
    /// Checks the policy, given whether the workspace is a directory and
    /// which of the read-only paths exist.
    pub fn validate(&self, workspace_is_dir: bool, exists_at: &Vec<bool>) -> (r: Result<
        (),
        &'static str,
    >)
        ensures
            match self@.fault(workspace_is_dir, exists_at@) {
                Some(e) => r matches Err(m) && m@ == e,
                None => r is Ok,
            },
    {
        if self.memory_bytes < MIN_MEMORY_BYTES || self.cpu_seconds == 0 || self.file_bytes == 0
            || self.open_files < MIN_OPEN_FILES {
            return Err("invalid finite sandbox limits");
        }
        if !is_absolute(&self.workspace) || !workspace_is_dir {
            return Err("workspace must be an existing absolute private directory");
        }
        let mut i: usize = 0;
        while i < self.read_only.len()
            invariant
                i <= self.read_only.len(),
                self@.limited(),
                absolute(self@.workspace) && workspace_is_dir,
                forall|j: int| 0 <= j < i ==> #[trigger] self@.mountable(j, exists_at@),
            decreases self.read_only.len() - i,
        {
            assert(self@.read_only[i as int] == self.read_only[i as int]@);
            let there = i < exists_at.len() && exists_at[i];
            if !is_absolute(&self.read_only[i]) || !there {
                assert(!self@.mountable(i as int, exists_at@));
                return Err("invalid read-only mount");
            }
            assert(self@.mountable(i as int, exists_at@));
            i += 1;
        }
        Ok(())
    }

    /// The limits that the process starts under; it leaves no core file.
    pub fn limits(&self) -> (r: Vec<(Limit, u64)>)
        ensures
            r@ == seq![
                (Limit::AddressSpace, self.memory_bytes),
                (Limit::CpuTime, self.cpu_seconds),
                (Limit::FileSize, self.file_bytes),
                (Limit::OpenFiles, self.open_files),
                (Limit::CoreSize, 0u64),
            ],
    {
        let mut r: Vec<(Limit, u64)> = Vec::new();
        r.push((Limit::AddressSpace, self.memory_bytes));
        r.push((Limit::CpuTime, self.cpu_seconds));
        r.push((Limit::FileSize, self.file_bytes));
        r.push((Limit::OpenFiles, self.open_files));
        r.push((Limit::CoreSize, 0));
        assert(r@ =~= seq![
            (Limit::AddressSpace, self.memory_bytes),
            (Limit::CpuTime, self.cpu_seconds),
            (Limit::FileSize, self.file_bytes),
            (Limit::OpenFiles, self.open_files),
            (Limit::CoreSize, 0u64),
        ]);
        r
    }
}

// ---- system call filter -----------------------------------------------

/// One instruction of a classic packet filter program.
#[derive(Debug, Clone, Copy, PartialEq, Eq, Structural)]
pub struct Insn {
    pub code: u16,
    pub jt: u8,
    pub jf: u8,
    pub k: u32,
}

/// Load a word of the call's description.
pub const LOAD: u16 = 0x20;

/// Jump by equality with a constant.
pub const JUMP_EQ: u16 = 0x15;

/// Jump by a common bit with a constant.
pub const JUMP_SET: u16 = 0x45;

/// Return a verdict.
pub const RETURN: u16 = 0x06;

/// Offset of the number of the call.
pub const AT_NUMBER: u32 = 0;

/// Offset of the architecture of the caller.
pub const AT_ARCH: u32 = 4;

/// Offset of the low half of the first argument.
pub const AT_FIRST_ARG: u32 = 16;

/// The only architecture that is let through.
pub const ARCH_X86_64: u32 = 0xc000_003e;

/// Marks a call through the narrow pointer interface.
pub const NARROW_BIT: u32 = 0x4000_0000;

pub const VERDICT_KILL: u32 = 0x8000_0000;

pub const VERDICT_ALLOW: u32 = 0x7fff_0000;

/// Refuse with an error number, which is added to this.
pub const VERDICT_ERROR: u32 = 0x0005_0000;

/// The numbers of the host that the filter is made of.
#[derive(Debug)]
pub struct Numbers {
    /// The calls that are refused: new processes, namespaces, tracing,
    /// mounts, kernel programs and keys.
    pub refused: Vec<u32>,
    pub clone3: u32,
    pub clone: u32,
    /// The flag with which a clone is a thread.
    pub thread_flag: u32,
    /// Not permitted.
    pub eperm: u32,
    /// No such call.
    pub enosys: u32,
}

pub struct NumbersV {
    pub refused: Seq<u32>,
    pub clone3: u32,
    pub clone: u32,
    pub thread_flag: u32,
    pub eperm: u32,
    pub enosys: u32,
}

impl View for Numbers {
    type V = NumbersV;

    open spec fn view(&self) -> NumbersV {
        NumbersV {
            refused: self.refused@,
            clone3: self.clone3,
            clone: self.clone,
            thread_flag: self.thread_flag,
            eperm: self.eperm,
            enosys: self.enosys,
        }
    }
}

pub open spec fn stmt(code: u16, k: u32) -> Insn {
    Insn { code, jt: 0, jf: 0, k }
}

pub open spec fn jump_eq(k: u32, jt: u8, jf: u8) -> Insn {
    Insn { code: JUMP_EQ, jt, jf, k }
}

pub open spec fn jump_set(k: u32, jt: u8, jf: u8) -> Insn {
    Insn { code: JUMP_SET, jt, jf, k }
}

pub open spec fn refuse(errno: u32) -> Insn {
    stmt(RETURN, VERDICT_ERROR | errno)
}

/// The tests for refused calls.
pub open spec fn refusals(ns: Seq<u32>, eperm: u32) -> Seq<Insn>
    decreases ns.len(),
{
    if ns.len() == 0 {
        Seq::empty()
    } else {
        refusals(ns.drop_last(), eperm) + seq![jump_eq(ns.last(), 0, 1), refuse(eperm)]
    }
}

/// The tests of the architecture and of the interface.
pub open spec fn gate_part(eperm: u32) -> Seq<Insn> {
    seq![
        stmt(LOAD, AT_ARCH),
        jump_eq(ARCH_X86_64, 1, 0),
        stmt(RETURN, VERDICT_KILL),
        stmt(LOAD, AT_NUMBER),
        jump_set(NARROW_BIT, 0, 1),
        refuse(eperm),
    ]
}

/// The tests of clones: threads pass, processes do not. The newer call does
/// not exist here, so that callers fall back to the older one.
pub open spec fn clone_part(n: NumbersV) -> Seq<Insn> {
    seq![
        jump_eq(n.clone3, 0, 1),
        refuse(n.enosys),
        jump_eq(n.clone, 0, 3),
        stmt(LOAD, AT_FIRST_ARG),
        jump_set(n.thread_flag, 1, 0),
        refuse(n.eperm),
        stmt(RETURN, VERDICT_ALLOW),
    ]
}

/// The filter: threads are let through, new processes are not.
pub open spec fn program(n: NumbersV) -> Seq<Insn> {
    gate_part(n.eperm) + refusals(n.refused, n.eperm) + clone_part(n)
}

fn ins(code: u16, jt: u8, jf: u8, k: u32) -> (r: Insn)
    ensures
        r == (Insn { code, jt, jf, k }),
{
    Insn { code, jt, jf, k }
}

/// The filter for a host with the numbers `n`.
pub fn filter_program(n: &Numbers) -> (r: Vec<Insn>)
    ensures
        r@ == program(n@),
{
    let deny = ins(RETURN, 0, 0, VERDICT_ERROR | n.eperm);
    let mut p: Vec<Insn> = Vec::new();
    p.push(ins(LOAD, 0, 0, AT_ARCH));
    p.push(ins(JUMP_EQ, 1, 0, ARCH_X86_64));
    p.push(ins(RETURN, 0, 0, VERDICT_KILL));
    p.push(ins(LOAD, 0, 0, AT_NUMBER));
    p.push(ins(JUMP_SET, 0, 1, NARROW_BIT));
    p.push(deny);
    let ghost base = gate_part(n.eperm);
    proof {
        assert(p@ =~= base);
        assert(n.refused@.take(0) =~= Seq::<u32>::empty());
        assert(base + refusals(n.refused@.take(0), n.eperm) =~= base);
    }
    let mut i: usize = 0;
    while i < n.refused.len()
        invariant
            i <= n.refused.len(),
            deny == refuse(n.eperm),
            p@ == base + refusals(n.refused@.take(i as int), n.eperm),
        decreases n.refused.len() - i,
    {
        p.push(ins(JUMP_EQ, 0, 1, n.refused[i]));
        p.push(deny);
        proof {
            assert(n.refused@.take(i + 1).drop_last() =~= n.refused@.take(i as int));
            assert(p@ =~= base + refusals(n.refused@.take(i + 1), n.eperm));
        }
        i += 1;
    }
    assert(n.refused@.take(n.refused@.len() as int) =~= n.refused@);
    let ghost before = p@;
    p.push(ins(JUMP_EQ, 0, 1, n.clone3));
    p.push(ins(RETURN, 0, 0, VERDICT_ERROR | n.enosys));
    p.push(ins(JUMP_EQ, 0, 3, n.clone));
    p.push(ins(LOAD, 0, 0, AT_FIRST_ARG));
    p.push(ins(JUMP_SET, 1, 0, n.thread_flag));
    p.push(deny);
    p.push(ins(RETURN, 0, 0, VERDICT_ALLOW));
    assert(p@ =~= before + clone_part(n@));
    p
}

/// The constants of the host that the filter uses, under their own names.
pub struct HostConstants {
    pub fork: u32,
    pub vfork: u32,
    pub unshare: u32,
    pub setns: u32,
    pub ptrace: u32,
    pub mount: u32,
    pub bpf: u32,
    pub keyctl: u32,
    pub clone3: u32,
    pub clone: u32,
    pub clone_thread: u32,
    pub eperm: u32,
    pub enosys: u32,
}

impl HostConstants {
    /// The numbers that the filter is made of: new processes, namespaces,
    /// tracing, mounts, kernel programs and keys are refused.
    pub open spec fn chosen(self) -> NumbersV {
        NumbersV {
            refused: seq![
                self.fork,
                self.vfork,
                self.unshare,
                self.setns,
                self.ptrace,
                self.mount,
                self.bpf,
                self.keyctl,
            ],
            clone3: self.clone3,
            clone: self.clone,
            thread_flag: self.clone_thread,
            eperm: self.eperm,
            enosys: self.enosys,
        }
    }

    /// The numbers that the filter is made of.
    pub fn choose_numbers(&self) -> (r: Numbers)
        ensures
            r@ == self.chosen(),
    {
        let mut refused: Vec<u32> = Vec::new();
        refused.push(self.fork);
        refused.push(self.vfork);
        refused.push(self.unshare);
        refused.push(self.setns);
        refused.push(self.ptrace);
        refused.push(self.mount);
        refused.push(self.bpf);
        refused.push(self.keyctl);
        assert(refused@ =~= self.chosen().refused);
        Numbers {
            refused,
            clone3: self.clone3,
            clone: self.clone,
            thread_flag: self.clone_thread,
            eperm: self.eperm,
            enosys: self.enosys,
        }
    }
}

/// The constants of Linux on x86_64, the only architecture that the filter
/// lets through.
pub open spec fn linux_x86_64() -> HostConstants {
    HostConstants {
        fork: 57,
        vfork: 58,
        unshare: 272,
        setns: 308,
        ptrace: 101,
        mount: 165,
        bpf: 321,
        keyctl: 250,
        clone3: 435,
        clone: 56,
        clone_thread: 0x10000,
        eperm: 1,
        enosys: 38,
    }
}

/// The numbers that the filter of this host is made of.
pub open spec fn host() -> NumbersV {
    linux_x86_64().chosen()
}

/// The constants of this host as `libc` has them: `SYS_fork`, `SYS_vfork`,
/// `SYS_unshare`, `SYS_setns`, `SYS_ptrace`, `SYS_mount`, `SYS_bpf`,
/// `SYS_keyctl`, `SYS_clone3`, `SYS_clone`, `CLONE_THREAD`, `EPERM` and
/// `ENOSYS`. Their values are those that `libc` gives them for Linux on
/// x86_64.
#[verifier::external_body]
fn host_constants() -> (r: HostConstants)
    ensures
        r == linux_x86_64(),
{
    HostConstants {
        fork: libc::SYS_fork as u32, vfork: libc::SYS_vfork as u32,
        unshare: libc::SYS_unshare as u32, setns: libc::SYS_setns as u32,
        ptrace: libc::SYS_ptrace as u32, mount: libc::SYS_mount as u32,
        bpf: libc::SYS_bpf as u32, keyctl: libc::SYS_keyctl as u32,
        clone3: libc::SYS_clone3 as u32, clone: libc::SYS_clone as u32,
        clone_thread: libc::CLONE_THREAD as u32,
        eperm: libc::EPERM as u32, enosys: libc::ENOSYS as u32,
    }
}

/// The filter for this host.
pub fn filter() -> (r: Vec<Insn>)
    ensures
        r@ == program(host()),
{
    let h = host_constants();
    let n = h.choose_numbers();
    filter_program(&n)
}

/// The bytes of an instruction, as the kernel takes them.
pub open spec fn insn_bytes(x: Insn) -> Seq<u8> {
    seq![
        (x.code % 256) as u8,
        (x.code / 256) as u8,
        x.jt,
        x.jf,
        (x.k % 256) as u8,
        (x.k / 256 % 256) as u8,
        (x.k / 65536 % 256) as u8,
        (x.k / 16777216) as u8,
    ]
}

pub open spec fn program_bytes(p: Seq<Insn>) -> Seq<u8>
    decreases p.len(),
{
    if p.len() == 0 {
        Seq::empty()
    } else {
        program_bytes(p.drop_last()) + insn_bytes(p.last())
    }
}

/// The bytes of a filter, as the kernel takes them.
pub fn filter_bytes(p: &Vec<Insn>) -> (r: Vec<u8>)
    ensures
        r@ == program_bytes(p@),
{
    let mut out: Vec<u8> = Vec::new();
    let mut i: usize = 0;
    proof {
        assert(p@.take(0) =~= Seq::<Insn>::empty());
        assert(out@ =~= Seq::<u8>::empty());
    }
    while i < p.len()
        invariant
            i <= p.len(),
            out@ == program_bytes(p@.take(i as int)),
        decreases p.len() - i,
    {
        let x = p[i];
        let ghost before = out@;
        out.push((x.code % 256) as u8);
        out.push((x.code / 256) as u8);
        out.push(x.jt);
        out.push(x.jf);
        out.push((x.k % 256) as u8);
        out.push((x.k / 256 % 256) as u8);
        out.push((x.k / 65536 % 256) as u8);
        out.push((x.k / 16777216) as u8);
        proof {
            assert(p@.take(i + 1).drop_last() =~= p@.take(i as int));
            assert(out@ =~= before + insn_bytes(x));
        }
        i += 1;
    }
    assert(p@.take(p@.len() as int) =~= p@);
    out
}

/// A call as a filter sees it.
pub struct SysCall {
    pub arch: u32,
    pub number: u32,
    pub first_arg: u32,
}

impl SysCall {
    pub open spec fn word(self, at: u32) -> u32 {
        if at == AT_NUMBER {
            self.number
        } else if at == AT_ARCH {
            self.arch
        } else if at == AT_FIRST_ARG {
            self.first_arg
        } else {
            0
        }
    }
}

/// The verdict that a program reaches from `pc` with `acc` loaded; none where
/// it runs off its end or holds an unknown instruction.
pub open spec fn verdict_from(p: Seq<Insn>, c: SysCall, pc: nat, acc: u32) -> Option<u32>
    decreases
        if pc < p.len() {
            p.len() - pc
        } else {
            0
        },
{
    if pc >= p.len() {
        None
    } else {
        let x = p[pc as int];
        if x.code == LOAD {
            verdict_from(p, c, pc + 1, c.word(x.k))
        } else if x.code == JUMP_EQ {
            verdict_from(
                p,
                c,
                pc + 1 + (if acc == x.k {
                    x.jt
                } else {
                    x.jf
                }) as nat,
                acc,
            )
        } else if x.code == JUMP_SET {
            verdict_from(
                p,
                c,
                pc + 1 + (if acc & x.k != 0 {
                    x.jt
                } else {
                    x.jf
                }) as nat,
                acc,
            )
        } else if x.code == RETURN {
            Some(x.k)
        } else {
            None
        }
    }
}

/// The verdict of a program on a call.
pub open spec fn verdict(p: Seq<Insn>, c: SysCall) -> Option<u32> {
    verdict_from(p, c, 0, 0)
}

/// What the filter decides: another architecture is killed; the narrow
/// interface and the refused calls get `EPERM`; the newer clone does not
/// exist; a clone passes as a thread only; every other call passes.
pub open spec fn decision(n: NumbersV, c: SysCall) -> u32 {
    if c.arch != ARCH_X86_64 {
        VERDICT_KILL
    } else if c.number & NARROW_BIT != 0 || n.refused.contains(c.number) {
        VERDICT_ERROR | n.eperm
    } else if c.number == n.clone3 {
        VERDICT_ERROR | n.enosys
    } else if c.number == n.clone && c.first_arg & n.thread_flag == 0 {
        VERDICT_ERROR | n.eperm
    } else {
        VERDICT_ALLOW
    }
}

proof fn refusals_len(ns: Seq<u32>, eperm: u32)
    ensures
        refusals(ns, eperm).len() == 2 * ns.len(),
        forall|i: int|
            0 <= i < ns.len() ==> refusals(ns, eperm)[2 * i] == jump_eq(#[trigger] ns[i], 0, 1)
                && refusals(ns, eperm)[2 * i + 1] == refuse(eperm),
    decreases ns.len(),
{
    if ns.len() > 0 {
        let a = ns.drop_last();
        refusals_len(a, eperm);
        assert forall|i: int| 0 <= i < ns.len() implies refusals(ns, eperm)[2 * i] == jump_eq(
            #[trigger] ns[i],
            0,
            1,
        ) && refusals(ns, eperm)[2 * i + 1] == refuse(eperm) by {
            if i < a.len() {
                assert(a[i] == ns[i]);
            }
        }
    }
}

/// The verdict from the test of the refused call `i` on.
proof fn refusals_decide(n: NumbersV, c: SysCall, i: int)
    requires
        0 <= i <= n.refused.len(),
        forall|j: int| 0 <= j < i ==> n.refused[j] != c.number,
        c.arch == ARCH_X86_64,
        c.number & NARROW_BIT == 0,
    ensures
        verdict_from(program(n), c, (6 + 2 * i) as nat, c.number) == Some(decision(n, c)),
    decreases n.refused.len() - i,
{
    let p = program(n);
    let m: int = n.refused.len() as int;
    refusals_len(n.refused, n.eperm);
    assert(p.len() == 13 + 2 * m);
    if i < m {
        assert(p[6 + 2 * i] == jump_eq(n.refused[i], 0, 1));
        assert(p[7 + 2 * i] == refuse(n.eperm));
        if n.refused[i] == c.number {
            assert(n.refused.contains(c.number));
            assert(verdict_from(p, c, (7 + 2 * i) as nat, c.number) == Some(
                VERDICT_ERROR | n.eperm,
            ));
            assert(verdict_from(p, c, (6 + 2 * i) as nat, c.number) == verdict_from(
                p,
                c,
                (7 + 2 * i) as nat,
                c.number,
            ));
        } else {
            refusals_decide(n, c, i + 1);
            assert(verdict_from(p, c, (6 + 2 * i) as nat, c.number) == verdict_from(
                p,
                c,
                (6 + 2 * (i + 1)) as nat,
                c.number,
            ));
        }
    } else {
        assert(!n.refused.contains(c.number));
        let b: int = 6 + 2 * m;
        assert(p[b] == jump_eq(n.clone3, 0, 1));
        assert(p[b + 1] == refuse(n.enosys));
        assert(p[b + 2] == jump_eq(n.clone, 0, 3));
        assert(p[b + 3] == stmt(LOAD, AT_FIRST_ARG));
        assert(p[b + 4] == jump_set(n.thread_flag, 1, 0));
        assert(p[b + 5] == refuse(n.eperm));
        assert(p[b + 6] == stmt(RETURN, VERDICT_ALLOW));
        let a = c.first_arg;
        assert(verdict_from(p, c, (b + 6) as nat, a) == Some(VERDICT_ALLOW));
        assert(verdict_from(p, c, (b + 6) as nat, c.number) == Some(VERDICT_ALLOW));
        assert(verdict_from(p, c, (b + 5) as nat, a) == Some(VERDICT_ERROR | n.eperm));
        assert(verdict_from(p, c, (b + 4) as nat, a) == Some(
            if a & n.thread_flag == 0 {
                VERDICT_ERROR | n.eperm
            } else {
                VERDICT_ALLOW
            },
        ));
        assert(verdict_from(p, c, (b + 3) as nat, c.number) == verdict_from(
            p,
            c,
            (b + 4) as nat,
            a,
        ));
        assert(verdict_from(p, c, (b + 2) as nat, c.number) == if c.number == n.clone {
            verdict_from(p, c, (b + 3) as nat, c.number)
        } else {
            verdict_from(p, c, (b + 6) as nat, c.number)
        });
        assert(verdict_from(p, c, (b + 1) as nat, c.number) == Some(VERDICT_ERROR | n.enosys));
        assert(verdict_from(p, c, b as nat, c.number) == if c.number == n.clone3 {
            verdict_from(p, c, (b + 1) as nat, c.number)
        } else {
            verdict_from(p, c, (b + 2) as nat, c.number)
        });
    }
}

/// The filter reaches its decision on every call, whatever the numbers of the
/// host are.
pub proof fn filter_decides(n: NumbersV, c: SysCall)
    ensures
        verdict(program(n), c) == Some(decision(n, c)),
{
    let p = program(n);
    refusals_len(n.refused, n.eperm);
    assert(p[0] == stmt(LOAD, AT_ARCH));
    assert(p[1] == jump_eq(ARCH_X86_64, 1, 0));
    assert(p[2] == stmt(RETURN, VERDICT_KILL));
    assert(p[3] == stmt(LOAD, AT_NUMBER));
    assert(p[4] == jump_set(NARROW_BIT, 0, 1));
    assert(p[5] == refuse(n.eperm));
    assert(verdict_from(p, c, 2, c.arch) == Some(VERDICT_KILL));
    assert(verdict_from(p, c, 5, c.number) == Some(VERDICT_ERROR | n.eperm));
    if c.arch == ARCH_X86_64 && c.number & NARROW_BIT == 0 {
        refusals_decide(n, c, 0);
    }
    assert(verdict_from(p, c, 4, c.number) == if c.number & NARROW_BIT != 0 {
        Some(VERDICT_ERROR | n.eperm)
    } else {
        verdict_from(p, c, 6, c.number)
    });
    assert(verdict_from(p, c, 3, c.arch) == verdict_from(p, c, 4, c.number));
    assert(verdict_from(p, c, 1, c.arch) == if c.arch == ARCH_X86_64 {
        verdict_from(p, c, 3, c.arch)
    } else {
        verdict_from(p, c, 2, c.arch)
    });
}

/// The filter of this host reaches its decision on every call.
pub proof fn host_filter_decides(c: SysCall)
    ensures
        verdict(program(host()), c) == Some(decision(host(), c)),
{
    filter_decides(host(), c);
}

// ---- launch -----------------------------------------------------------

/// The namespaces and mounts of every sandbox.
pub open spec fn base_args() -> Seq<Text> {
    seq![
        "--unshare-all"@,
        "--die-with-parent"@,
        "--new-session"@,
        "--cap-drop"@,
        "ALL"@,
        "--clearenv"@,
        "--ro-bind"@,
        "/usr"@,
        "/usr"@,
        "--symlink"@,
        "usr/bin"@,
        "/bin"@,
        "--symlink"@,
        "usr/lib"@,
        "/lib"@,
        "--symlink"@,
        "usr/lib"@,
        "/lib64"@,
        "--proc"@,
        "/proc"@,
        "--dev"@,
        "/dev"@,
        "--tmpfs"@,
        "/tmp"@,
    ]
}

/// Whether an absolute path without `.` and `..` lies in /usr.
pub open spec fn in_usr(p: Text) -> bool {
    p == "/usr"@ || "/usr/"@.is_prefix_of(p)
}

/// A path mounted read-only at its own location.
pub open spec fn ro_bind(p: Text) -> Seq<Text> {
    seq!["--ro-bind"@, p, p]
}

pub open spec fn ro_binds(ps: Seq<Text>) -> Seq<Text>
    decreases ps.len(),
{
    if ps.len() == 0 {
        Seq::empty()
    } else {
        ro_binds(ps.drop_last()) + ro_bind(ps.last())
    }
}

/// The environment and the filter of a sandbox.
pub open spec fn env_args(token: Text, filter_fd: u64) -> Seq<Text> {
    seq![
        "--chdir"@,
        "/workspace"@,
        "--setenv"@,
        "PATH"@,
        "/usr/bin"@,
        "--setenv"@,
        "HOME"@,
        "/workspace"@,
        "--setenv"@,
        "MATRIX_LAUNCH_TOKEN"@,
        token,
        "--seccomp"@,
        text::dec(filter_fd as nat),
        "--"@,
    ]
}

/// The arguments of the sandbox launcher for a component: it sees its
/// workspace, the socket of the host, its own executable and the selected
/// read-only paths, and nothing else of the host.
pub open spec fn sandbox_args(
    s: SandboxV,
    sock: Text,
    executable: Text,
    args: Seq<Text>,
    token: Text,
    filter_fd: u64,
) -> Seq<Text> {
    base_args() + seq!["--bind"@, s.workspace, "/workspace"@] + ro_bind(sock) + (if in_usr(
        executable,
    ) {
        Seq::empty()
    } else {
        ro_bind(executable)
    }) + ro_binds(s.read_only) + env_args(token, filter_fd) + seq![executable] + args
}

fn put(v: &mut Vec<String>, s: &str)
    ensures
        final(v).deep_view() == old(v).deep_view().push(s@),
{
    let ghost before = v.deep_view();
    v.push(s.to_owned());
    assert(v.deep_view() =~= before.push(s@));
}

fn put_ro_bind(v: &mut Vec<String>, p: &str)
    ensures
        final(v).deep_view() == old(v).deep_view() + ro_bind(p@),
{
    put(v, "--ro-bind");
    put(v, p);
    put(v, p);
    assert(v.deep_view() =~= old(v).deep_view() + ro_bind(p@));
}

fn put_base(v: &mut Vec<String>)
    ensures
        final(v).deep_view() == old(v).deep_view() + base_args(),
{
    put(v, "--unshare-all");
    put(v, "--die-with-parent");
    put(v, "--new-session");
    put(v, "--cap-drop");
    put(v, "ALL");
    put(v, "--clearenv");
    put(v, "--ro-bind");
    put(v, "/usr");
    put(v, "/usr");
    put(v, "--symlink");
    put(v, "usr/bin");
    put(v, "/bin");
    put(v, "--symlink");
    put(v, "usr/lib");
    put(v, "/lib");
    put(v, "--symlink");
    put(v, "usr/lib");
    put(v, "/lib64");
    put(v, "--proc");
    put(v, "/proc");
    put(v, "--dev");
    put(v, "/dev");
    put(v, "--tmpfs");
    put(v, "/tmp");
    assert(v.deep_view() =~= old(v).deep_view() + base_args());
}

fn put_env(v: &mut Vec<String>, token: &str, filter_fd: u64)
    ensures
        final(v).deep_view() == old(v).deep_view() + env_args(token@, filter_fd),
{
    put(v, "--chdir");
    put(v, "/workspace");
    put(v, "--setenv");
    put(v, "PATH");
    put(v, "/usr/bin");
    put(v, "--setenv");
    put(v, "HOME");
    put(v, "/workspace");
    put(v, "--setenv");
    put(v, "MATRIX_LAUNCH_TOKEN");
    put(v, token);
    put(v, "--seccomp");
    let fd = text::dec_text(filter_fd);
    put(v, &fd);
    put(v, "--");
    assert(v.deep_view() =~= old(v).deep_view() + env_args(token@, filter_fd));
}

fn put_all(v: &mut Vec<String>, args: &Vec<String>)
    ensures
        final(v).deep_view() == old(v).deep_view() + args.deep_view(),
{
    let ghost start = v.deep_view();
    let ghost s = args.deep_view();
    let mut i: usize = 0;
    assert(start + s.take(0) =~= start);
    while i < args.len()
        invariant
            i <= args.len(),
            s == args.deep_view(),
            v.deep_view() == start + s.take(i as int),
        decreases args.len() - i,
    {
        put(v, &args[i]);
        proof {
            assert(start + s.take(i + 1) =~= (start + s.take(i as int)).push(args[i as int]@));
        }
        i += 1;
    }
    assert(s.take(s.len() as int) =~= s);
}

fn put_ro_binds(v: &mut Vec<String>, ps: &Vec<String>)
    ensures
        final(v).deep_view() == old(v).deep_view() + ro_binds(ps.deep_view()),
{
    let ghost start = v.deep_view();
    let ghost s = ps.deep_view();
    let mut i: usize = 0;
    proof {
        assert(s.take(0) =~= Seq::<Text>::empty());
        assert(start + ro_binds(s.take(0)) =~= start);
    }
    while i < ps.len()
        invariant
            i <= ps.len(),
            s == ps.deep_view(),
            v.deep_view() == start + ro_binds(s.take(i as int)),
        decreases ps.len() - i,
    {
        put_ro_bind(v, &ps[i]);
        proof {
            assert(s.take(i + 1).drop_last() =~= s.take(i as int));
            assert(s.take(i + 1).last() == ps[i as int]@);
            assert(start + ro_binds(s.take(i + 1)) =~= start + ro_binds(s.take(i as int))
                + ro_bind(ps[i as int]@));
        }
        i += 1;
    }
    assert(s.take(s.len() as int) =~= s);
}

/// The arguments of the sandbox launcher for a component.
pub fn launch_args(
    s: &Sandbox,
    sock: &str,
    executable: &str,
    args: &Vec<String>,
    token: &str,
    filter_fd: u64,
) -> (r: Vec<String>)
    ensures
        r.deep_view() == sandbox_args(
            s@,
            sock@,
            executable@,
            args.deep_view(),
            token@,
            filter_fd,
        ),
{
    let mut v: Vec<String> = Vec::new();
    put_base(&mut v);
    put(&mut v, "--bind");
    put(&mut v, &s.workspace);
    put(&mut v, "/workspace");
    proof {
        assert(v.deep_view() =~= base_args() + seq!["--bind"@, s@.workspace, "/workspace"@]);
    }
    put_ro_bind(&mut v, sock);
    let usr = text::same(executable, "/usr") || text::starts_with(executable, "/usr/");
    if !usr {
        put_ro_bind(&mut v, executable);
    } else {
        assert(v.deep_view() + Seq::<Text>::empty() =~= v.deep_view());
    }
    put_ro_binds(&mut v, &s.read_only);
    put_env(&mut v, token, filter_fd);
    let ghost before = v.deep_view();
    put(&mut v, executable);
    assert(v.deep_view() =~= before + seq![executable@]);
    put_all(&mut v, args);
    v
}

/// The environment of a component without a sandbox.
pub fn plain_env(token: &str) -> (r: Vec<(String, String)>)
    ensures
        r.deep_view() == seq![
            ("PATH"@, "/usr/bin:/bin"@),
            ("MATRIX_LAUNCH_TOKEN"@, token@),
        ],
{
    let mut r: Vec<(String, String)> = Vec::new();
    r.push(("PATH".to_owned(), "/usr/bin:/bin".to_owned()));
    r.push(("MATRIX_LAUNCH_TOKEN".to_owned(), token.to_owned()));
    assert(r.deep_view() =~= seq![
        ("PATH"@, "/usr/bin:/bin"@),
        ("MATRIX_LAUNCH_TOKEN"@, token@),
    ]);
    r
}

// ---- restarts ---------------------------------------------------------

/// The most restarts that a policy may allow.
pub const MAX_RESTARTS: usize = 100;

/// The longest delay before a restart.
pub const MAX_DELAY_MS: u64 = 60_000;

#[derive(Debug, Clone, Copy)]
pub struct RestartPolicy {
    pub max_restarts: usize,
    pub window_ms: u64,
    pub backoff_ms: u64,
}

impl Default for RestartPolicy {
    fn default() -> (r: Self)
        ensures
            r == (RestartPolicy { max_restarts: 5, window_ms: 10_000, backoff_ms: 100 }),
    {
        RestartPolicy { max_restarts: 5, window_ms: 10_000, backoff_ms: 100 }
    }
}

pub struct RestartBudget {
    attempts: Vec<Instant>,
    next: Option<Instant>,
}

pub struct BudgetV {
    /// The restarts within the window, oldest first.
    pub attempts: Seq<Instant>,
    /// When the last reserved restart is due.
    pub next: Option<Instant>,
}

/// Whether an attempt left the window.
pub open spec fn aged(t: Instant, now: Instant, window_ms: u64) -> bool {
    (if now.nanos > t.nanos {
        now.nanos - t.nanos
    } else {
        0
    }) >= window_ms * 1_000_000
}

fn is_aged(t: Instant, now: Instant, window_ms: u64) -> (r: bool)
    ensures
        r == aged(t, now, window_ms),
{
    let age: u128 = if now.nanos > t.nanos {
        now.nanos - t.nanos
    } else {
        0
    };
    age >= window_ms as u128 * 1_000_000u128
}

/// The attempts from the first one that is within the window.
pub open spec fn live(ts: Seq<Instant>, now: Instant, window_ms: u64) -> Seq<Instant>
    decreases ts.len(),
{
    if ts.len() > 0 && aged(ts[0], now, window_ms) {
        live(ts.drop_first(), now, window_ms)
    } else {
        ts
    }
}

/// Two to the power of `n`.
pub open spec fn doubled(n: nat) -> nat
    decreases n,
{
    if n == 0 {
        1
    } else {
        2 * doubled((n - 1) as nat)
    }
}

/// The delay before the restart after `n` others: doubling from the base,
/// with a spread, up to a minute.
pub open spec fn delay_ms(p: RestartPolicy, n: nat) -> u64
    recommends
        p.backoff_ms > 0,
{
    let d = p.backoff_ms * doubled(
        if n < 10 {
            n
        } else {
            10
        },
    ) + (n * 37) % (p.backoff_ms as nat);
    if d < MAX_DELAY_MS {
        d as u64
    } else {
        MAX_DELAY_MS
    }
}

impl BudgetV {
    /// A restart reserved at `now`, if the policy is valid and the budget
    /// has one left.
    pub open spec fn reserve(self, now: Instant, p: RestartPolicy) -> (BudgetV, Option<Instant>) {
        if p.window_ms == 0 || p.backoff_ms == 0 || p.max_restarts > MAX_RESTARTS {
            (self, None)
        } else {
            let ts = live(self.attempts, now, p.window_ms);
            if ts.len() >= p.max_restarts {
                (BudgetV { attempts: ts, ..self }, None)
            } else {
                let due = now.later(delay_ms(p, ts.len()));
                (BudgetV { attempts: ts.push(now), next: Some(due) }, Some(due))
            }
        }
    }
}

impl View for RestartBudget {
    type V = BudgetV;

    closed spec fn view(&self) -> BudgetV {
        BudgetV { attempts: self.attempts@, next: self.next }
    }
}

impl Default for RestartBudget {
    fn default() -> (r: Self)
        ensures
            r@ == (BudgetV { attempts: Seq::empty(), next: None }),
    {
        let r = RestartBudget { attempts: Vec::new(), next: None };
        assert(r@.attempts =~= Seq::empty());
        r
    }
}

fn power(n: usize) -> (r: u64)
    requires
        n <= 10,
    ensures
        r == doubled(n as nat),
        1 <= r <= 1024,
{
    let mut r: u64 = 1;
    let mut i: usize = 0;
    proof {
        reveal_with_fuel(doubled, 11);
        assert(doubled(10) == 1024);
    }
    while i < n
        invariant
            i <= n <= 10,
            r == doubled(i as nat),
            r <= 512 || i == 10,
            r >= 1,
            r <= 1024,
        decreases n - i,
    {
        proof {
            reveal_with_fuel(doubled, 11);
        }
        r = r * 2;
        i += 1;
    }
    r
}

impl RestartBudget {
    /// Reserves a restart for one observed failure: when it is due, or
    /// `None` where the budget is used up or the policy is invalid.
    pub fn reserve(&mut self, now: Instant, p: &RestartPolicy) -> (r: Option<Instant>)
        ensures
            (final(self)@, r) == old(self)@.reserve(now, *p),
    {
        if p.window_ms == 0 || p.backoff_ms == 0 || p.max_restarts > MAX_RESTARTS {
            return None;
        }
        let ghost all = self.attempts@;
        let mut gone: usize = 0;
        let mut kept: Vec<Instant> = Vec::new();
        proof {
            assert(all.skip(0) =~= all);
        }
        while gone < self.attempts.len() && is_aged(self.attempts[gone], now, p.window_ms)
            invariant
                gone <= self.attempts.len(),
                all == self.attempts@,
                live(all.skip(gone as int), now, p.window_ms) == live(all, now, p.window_ms),
            decreases self.attempts.len() - gone,
        {
            proof {
                assert(all.skip(gone as int).drop_first() =~= all.skip(gone + 1));
            }
            gone += 1;
        }
        let mut i: usize = gone;
        proof {
            assert(kept@ =~= all.subrange(gone as int, gone as int));
        }
        while i < self.attempts.len()
            invariant
                gone <= i <= self.attempts.len(),
                all == self.attempts@,
                kept@ == all.subrange(gone as int, i as int),
            decreases self.attempts.len() - i,
        {
            kept.push(self.attempts[i]);
            proof {
                assert(kept@ =~= all.subrange(gone as int, i + 1));
            }
            i += 1;
        }
        proof {
            assert(all.skip(gone as int) =~= all.subrange(gone as int, all.len() as int));
        }
        assert(kept@ == live(all, now, p.window_ms));
        let n: usize = kept.len();
        self.attempts = kept;
        if n >= p.max_restarts {
            return None;
        }
        let exp: u64 = power(
            if n < 10 {
                n
            } else {
                10
            },
        );
        let jitter: u64 = (n as u64 * 37) % p.backoff_ms;
        proof {
            assert(p.backoff_ms * exp <= u64::MAX * 1024) by (nonlinear_arith)
                requires
                    exp <= 1024,
                    p.backoff_ms <= u64::MAX,
            ;
        }
        let base: u128 = p.backoff_ms as u128 * exp as u128;
        let d: u128 = base + jitter as u128;
        let delay: u64 = if d < MAX_DELAY_MS as u128 {
            d as u64
        } else {
            MAX_DELAY_MS
        };
        let due = now.after_ms(delay);
        self.attempts.push(now);
        self.next = Some(due);
        Some(due)
    }
}

proof fn live_shrinks(ts: Seq<Instant>, now: Instant, window_ms: u64)
    ensures
        live(ts, now, window_ms).len() <= ts.len(),
    decreases ts.len(),
{
    if ts.len() > 0 && aged(ts[0], now, window_ms) {
        live_shrinks(ts.drop_first(), now, window_ms);
    }
}

proof fn doubled_positive(n: nat)
    ensures
        doubled(n) >= 1,
    decreases n,
{
    if n > 0 {
        doubled_positive((n - 1) as nat);
    }
}

/// A budget never holds more restarts than its policy allows, and a restart
/// that it grants is due after its base delay or a minute, and within a
/// minute.
pub proof fn budget_is_bounded(b: BudgetV, now: Instant, p: RestartPolicy)
    requires
        now.nanos + 60_000_000_000 <= u128::MAX,
    ensures
        b.reserve(now, p).1 matches Some(due) ==> {
            &&& b.reserve(now, p).0.attempts.len() <= p.max_restarts
            &&& due.nanos <= now.nanos + 60_000_000_000
            &&& due.nanos >= now.nanos + p.backoff_ms * 1_000_000 || due.nanos == now.nanos
                + 60_000_000_000
        },
        b.reserve(now, p).1 is None ==> b.reserve(now, p).0.next == b.next,
{
    if b.reserve(now, p).1 is Some {
        let n = live(b.attempts, now, p.window_ms).len();
        let k: nat = if n < 10 {
            n
        } else {
            10
        };
        doubled_positive(k);
        assert(p.backoff_ms * doubled(k) >= p.backoff_ms) by (nonlinear_arith)
            requires
                doubled(k) >= 1,
                p.backoff_ms >= 0,
        ;
        assert((n * 37) % (p.backoff_ms as nat) >= 0);
    }
}

/// The budget after reservations at `times`, from a new one, and the times at
/// which a restart was granted.
pub open spec fn reserved(times: Seq<Instant>, p: RestartPolicy) -> (BudgetV, Seq<Instant>)
    decreases times.len(),
{
    if times.len() == 0 {
        (BudgetV { attempts: Seq::empty(), next: None }, Seq::empty())
    } else {
        let (b, granted) = reserved(times.drop_last(), p);
        let (b2, r) = b.reserve(times.last(), p);
        (
            b2,
            if r is Some {
                granted.push(times.last())
            } else {
                granted
            },
        )
    }
}

/// Whether a clock was read in this order.
pub open spec fn in_time(times: Seq<Instant>) -> bool {
    forall|i: int, j: int|
        0 <= i <= j < times.len() ==> (#[trigger] times[i]).nanos <= (#[trigger] times[j]).nanos
}

proof fn live_cuts(ts: Seq<Instant>, now: Instant, window_ms: u64) -> (cut: int)
    ensures
        0 <= cut <= ts.len(),
        live(ts, now, window_ms) == ts.skip(cut),
        forall|i: int| 0 <= i < cut ==> aged(#[trigger] ts[i], now, window_ms),
    decreases ts.len(),
{
    if ts.len() > 0 && aged(ts[0], now, window_ms) {
        let rest = ts.drop_first();
        let c = live_cuts(rest, now, window_ms);
        assert(rest.skip(c) =~= ts.skip(c + 1));
        assert forall|i: int| 0 <= i < c + 1 implies aged(#[trigger] ts[i], now, window_ms) by {
            if i > 0 {
                assert(rest[i - 1] == ts[i]);
            }
        }
        c + 1
    } else {
        assert(ts.skip(0) =~= ts);
        0
    }
}

proof fn reserved_history(times: Seq<Instant>, p: RestartPolicy)
    requires
        in_time(times),
    ensures
        ({
            let (b, granted) = reserved(times, p);
            let gone = granted.len() - b.attempts.len();
            &&& gone >= 0
            &&& b.attempts == granted.skip(gone)
            &&& forall|i: int|
                0 <= i < gone ==> aged(#[trigger] granted[i], times.last(), p.window_ms)
            &&& forall|i: int, j: int|
                0 <= i && i + p.max_restarts <= j < granted.len() ==> aged(
                    #[trigger] granted[i],
                    #[trigger] granted[j],
                    p.window_ms,
                )
        }),
    decreases times.len(),
{
    if times.len() == 0 {
        let g = Seq::<Instant>::empty();
        assert(g.skip(0) =~= g);
    } else {
        let before = times.drop_last();
        let now = times.last();
        reserved_history(before, p);
        let (b, g) = reserved(before, p);
        let gone = g.len() - b.attempts.len();
        assert forall|i: int| 0 <= i < gone implies aged(#[trigger] g[i], now, p.window_ms) by {
            assert(before.len() > 0);
            assert(times[before.len() - 1] == before.last());
            assert(times[times.len() - 1] == now);
        }
        if !(p.window_ms == 0 || p.backoff_ms == 0 || p.max_restarts > MAX_RESTARTS) {
            let cut = live_cuts(b.attempts, now, p.window_ms);
            let ts = live(b.attempts, now, p.window_ms);
            assert(ts =~= g.skip(gone + cut));
            assert forall|i: int| 0 <= i < gone + cut implies aged(
                #[trigger] g[i],
                now,
                p.window_ms,
            ) by {
                if i >= gone {
                    assert(b.attempts[i - gone] == g[i]);
                }
            }
            let (b2, g2) = reserved(times, p);
            if ts.len() < p.max_restarts {
                assert(g2 == g.push(now));
                assert(b2.attempts =~= g2.skip(gone + cut));
                assert forall|i: int, j: int|
                    0 <= i && i + p.max_restarts <= j < g2.len() implies aged(
                    #[trigger] g2[i],
                    #[trigger] g2[j],
                    p.window_ms,
                ) by {
                    assert(g2[i] == g[i]);
                    if j < g.len() {
                        assert(g2[j] == g[j]);
                    }
                }
                assert forall|i: int| 0 <= i < gone + cut implies aged(
                    #[trigger] g2[i],
                    now,
                    p.window_ms,
                ) by {
                    assert(g2[i] == g[i]);
                }
            }
        }
    }
}

/// Over any sequence of reservations at most `max_restarts` are granted
/// within a window: that many grants apart, two of them lie at least a window
/// apart.
pub proof fn restarts_stay_in_budget(times: Seq<Instant>, p: RestartPolicy, i: int, j: int)
    requires
        in_time(times),
        0 <= i,
        i + p.max_restarts <= j < reserved(times, p).1.len(),
    ensures
        ({
            let granted = reserved(times, p).1;
            granted[j].nanos - granted[i].nanos >= p.window_ms * 1_000_000
        }),
{
    reserved_history(times, p);
    let granted = reserved(times, p).1;
    assert(aged(granted[i], granted[j], p.window_ms));
    if p.window_ms == 0 {
        invalid_policies_grant_nothing(times, p);
    }
}

proof fn invalid_policies_grant_nothing(times: Seq<Instant>, p: RestartPolicy)
    requires
        p.window_ms == 0,
    ensures
        reserved(times, p).1.len() == 0,
    decreases times.len(),
{
    if times.len() > 0 {
        invalid_policies_grant_nothing(times.drop_last(), p);
    }
}

} // verus!
