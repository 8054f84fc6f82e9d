//! What a launched component is held to: its token, its limits, the calls it
//! may make, what it sees of the host, and how often it is restarted.

use vstd::prelude::*;
use vstd::string::*;
use crate::guard;
use crate::guard::{BudgetV, Insn, RestartPolicy, SandboxV, SysCall};
use crate::text;
use crate::text::Text;
use crate::time::Instant;

verus! {

// ---- tokens -----------------------------------------------------------

/// The number that a hexadecimal digit stands for.
pub open spec fn worth(c: char) -> int {
    if '0' <= c <= '9' {
        c as int - '0' as int
    } else {
        c as int - 'a' as int + 10
    }
}

/// A token gives its bytes back: byte `i` is what its two digits are worth,
/// the higher one first.
pub proof fn tokens_tell_their_bytes(b: Seq<u8>, i: int)
    requires
        0 <= i < b.len(),
    ensures
        guard::hex(b).len() == 2 * b.len(),
        ({
            let high = guard::hex(b)[2 * i];
            let low = guard::hex(b)[2 * i + 1];
            &&& '0' <= high <= '9' || 'a' <= high <= 'f'
            &&& '0' <= low <= '9' || 'a' <= low <= 'f'
            &&& 16 * worth(high) + worth(low) == b[i]
        }),
    decreases b.len(),
{
    digits_pair_up(b.drop_last());
    if i < b.len() - 1 {
        tokens_tell_their_bytes(b.drop_last(), i);
    }
}

proof fn digits_pair_up(b: Seq<u8>)
    ensures
        guard::hex(b).len() == 2 * b.len(),
    decreases b.len(),
{
    if b.len() > 0 {
        digits_pair_up(b.drop_last());
    }
}

/// Two launches have one token only where they drew the same bytes.
pub proof fn tokens_are_distinct(a: Seq<u8>, b: Seq<u8>)
    requires
        guard::hex(a) == guard::hex(b),
    ensures
        a == b,
{
    digits_pair_up(a);
    digits_pair_up(b);
    assert forall|i: int| 0 <= i < a.len() implies a[i] == b[i] by {
        tokens_tell_their_bytes(a, i);
        tokens_tell_their_bytes(b, i);
    }
    assert(a =~= b);
}

// ---- policy -----------------------------------------------------------

/// Whether the read-only path `i` starts at the root and exists.
pub open spec fn is_there(s: SandboxV, exists_at: Seq<bool>, i: int) -> bool {
    exists_at[i] && s.read_only[i].len() > 0 && s.read_only[i][0] == '/'
}

/// A policy is accepted exactly where it gives at least 64 MiB, some
/// processor time, some file size and sixteen open files, its workspace is a
/// directory under a path from the root, and each of its read-only paths is
/// one from the root and exists.
pub proof fn usable_policies_are_accepted(s: SandboxV, workspace_is_dir: bool, exists_at: Seq<bool>)
    requires
        exists_at.len() == s.read_only.len(),
    ensures
        s.fault(workspace_is_dir, exists_at) is None <==> {
            &&& s.memory_bytes >= 67_108_864
            &&& s.cpu_seconds >= 1
            &&& s.file_bytes >= 1
            &&& s.open_files >= 16
            &&& workspace_is_dir
            &&& s.workspace.len() > 0 && s.workspace[0] == '/'
            &&& forall|i: int| 0 <= i < s.read_only.len() ==> #[trigger] is_there(s, exists_at, i)
        },
{
    assert forall|i: int| 0 <= i < s.read_only.len() implies #[trigger] s.mountable(i, exists_at)
        == is_there(s, exists_at, i) by {}
    if forall|i: int| 0 <= i < s.read_only.len() ==> #[trigger] is_there(s, exists_at, i) {
        assert forall|i: int| 0 <= i < s.read_only.len() implies #[trigger] s.mountable(
            i,
            exists_at,
        ) by {
            assert(is_there(s, exists_at, i));
        }
    } else {
        let i = choose|i: int|
            0 <= i < s.read_only.len() && !(#[trigger] is_there(s, exists_at, i));
        assert(!s.mountable(i, exists_at));
    }
}

// ---- system calls -----------------------------------------------------

/// Whether a call of 64-bit Linux makes a process, changes namespaces, traces,
/// mounts, loads a kernel program or handles keys.
pub open spec fn is_refused(number: u32) -> bool {
    ||| number == 57
    ||| number == 58
    ||| number == 272
    ||| number == 308
    ||| number == 101
    ||| number == 165
    ||| number == 321
    ||| number == 250
}

/// The filter of this host on a call of another architecture kills the caller.
pub proof fn foreign_callers_are_killed(c: SysCall)
    requires
        c.arch != 0xc000_003e,
    ensures
        guard::verdict(guard::program(guard::host()), c) == Some(0x8000_0000u32),
{
    guard::host_filter_decides(c);
}

/// The filter of this host on a native call: what is refused, or comes through
/// the narrow pointer interface, is not permitted; the newer clone does not
/// exist; a clone passes with the flag of a thread and is not permitted
/// without it; every other call passes.
pub proof fn native_calls_are_decided(c: SysCall)
    requires
        c.arch == 0xc000_003e,
    ensures
        ({
            let r = guard::verdict(guard::program(guard::host()), c);
            let narrow = c.number & 0x4000_0000 != 0;
            let thread = c.first_arg & 0x1_0000 != 0;
            &&& narrow || is_refused(c.number) ==> r == Some(0x0005_0001u32)
            &&& !narrow && c.number == 435 ==> r == Some(0x0005_0026u32)
            &&& !narrow && c.number == 56 && !thread ==> r == Some(0x0005_0001u32)
            &&& !narrow && c.number == 56 && thread ==> r == Some(0x7fff_0000u32)
            &&& !narrow && !is_refused(c.number) && c.number != 435 && c.number != 56 ==> r == Some(
                0x7fff_0000u32,
            )
        }),
{
    guard::host_filter_decides(c);
    let refused = guard::host().refused;
    assert(0x0005_0000u32 | 1u32 == 0x0005_0001u32) by (bit_vector);
    assert(0x0005_0000u32 | 38u32 == 0x0005_0026u32) by (bit_vector);
    assert(refused[0] == 57 && refused[1] == 58 && refused[2] == 272 && refused[3] == 308);
    assert(refused[4] == 101 && refused[5] == 165 && refused[6] == 321 && refused[7] == 250);
    assert(refused.contains(c.number) <==> is_refused(c.number));
}

/// The bytes of a filter are eight for each instruction: its code, its two
/// jumps and its constant, the lowest byte of each first.
pub proof fn filters_are_laid_out(p: Seq<Insn>, i: int)
    requires
        0 <= i < p.len(),
    ensures
        guard::program_bytes(p).len() == 8 * p.len(),
        ({
            let b = guard::program_bytes(p);
            let at = 8 * i;
            &&& b[at] + 256 * b[at + 1] == p[i].code
            &&& b[at + 2] == p[i].jt
            &&& b[at + 3] == p[i].jf
            &&& b[at + 4] + 256 * b[at + 5] + 65_536 * b[at + 6] + 16_777_216 * b[at + 7] == p[i].k
        }),
    decreases p.len(),
{
    bytes_come_in_eights(p.drop_last());
    if i < p.len() - 1 {
        filters_are_laid_out(p.drop_last(), i);
    }
}

proof fn bytes_come_in_eights(p: Seq<Insn>)
    ensures
        guard::program_bytes(p).len() == 8 * p.len(),
    decreases p.len(),
{
    if p.len() > 0 {
        bytes_come_in_eights(p.drop_last());
    }
}

// ---- launch -----------------------------------------------------------

/// Whether the words `ws` stand in `args` from `at` on.
pub open spec fn stands(args: Seq<Text>, at: int, ws: Seq<Text>) -> bool {
    0 <= at && at + ws.len() <= args.len() && args.subrange(at, at + ws.len()) == ws
}

proof fn binds_come_in_threes(ps: Seq<Text>)
    ensures
        guard::ro_binds(ps).len() == 3 * ps.len(),
    decreases ps.len(),
{
    if ps.len() > 0 {
        binds_come_in_threes(ps.drop_last());
    }
}

proof fn each_is_bound(ps: Seq<Text>, i: int)
    requires
        0 <= i < ps.len(),
    ensures
        guard::ro_binds(ps)[3 * i] == "--ro-bind"@,
        guard::ro_binds(ps)[3 * i + 1] == ps[i],
        guard::ro_binds(ps)[3 * i + 2] == ps[i],
    decreases ps.len(),
{
    binds_come_in_threes(ps.drop_last());
    if i < ps.len() - 1 {
        each_is_bound(ps.drop_last(), i);
    }
}

/// A sandboxed component is started in namespaces of its own, without
/// capabilities and without the environment of the host; of the host it can
/// write to its workspace only, and see /usr, the socket, its executable and
/// the selected paths; it gets its token and its filter; and its own words
/// come last, behind its executable.
pub proof fn sandboxes_are_closed(
    s: SandboxV,
    sock: Text,
    executable: Text,
    args: Seq<Text>,
    token: Text,
    filter_fd: u64,
    i: int,
)
    ensures
        ({
            let all = guard::sandbox_args(s, sock, executable, args, token, filter_fd);
            let own: int = if executable == "/usr"@ || "/usr/"@.is_prefix_of(executable) {
                0
            } else {
                3
            };
            let after = 30 + own + 3 * s.read_only.len();
            &&& all.len() == after + 15 + args.len()
            &&& stands(all, 0, seq!["--unshare-all"@, "--die-with-parent"@, "--new-session"@])
            &&& stands(all, 3, seq!["--cap-drop"@, "ALL"@, "--clearenv"@])
            &&& stands(all, 6, seq!["--ro-bind"@, "/usr"@, "/usr"@])
            &&& stands(all, 24, seq!["--bind"@, s.workspace, "/workspace"@])
            &&& stands(all, 27, seq!["--ro-bind"@, sock, sock])
            &&& own == 3 ==> stands(all, 30, seq!["--ro-bind"@, executable, executable])
            &&& 0 <= i < s.read_only.len() ==> stands(
                all,
                30 + own + 3 * i,
                seq!["--ro-bind"@, s.read_only[i], s.read_only[i]],
            )
            &&& stands(all, after, seq!["--chdir"@, "/workspace"@])
            &&& stands(all, after + 8, seq!["--setenv"@, "MATRIX_LAUNCH_TOKEN"@, token])
            &&& stands(all, after + 11, seq!["--seccomp"@, text::dec(filter_fd as nat)])
            &&& stands(all, after + 13, seq!["--"@, executable] + args)
        }),
{
    let all = guard::sandbox_args(s, sock, executable, args, token, filter_fd);
    let own: int = if guard::in_usr(executable) {
        0
    } else {
        3
    };
    let after = 30 + own + 3 * s.read_only.len();
    binds_come_in_threes(s.read_only);
    let front = guard::base_args() + seq!["--bind"@, s.workspace, "/workspace"@] + guard::ro_bind(
        sock,
    ) + (if guard::in_usr(executable) {
        Seq::empty()
    } else {
        guard::ro_bind(executable)
    });
    assert(front.len() == 30 + own);
    let mounts = guard::ro_binds(s.read_only);
    let env = guard::env_args(token, filter_fd);
    assert(all == front + mounts + env + seq![executable] + args);
    assert(all.subrange(0, 3) =~= seq!["--unshare-all"@, "--die-with-parent"@, "--new-session"@]);
    assert(all.subrange(3, 6) =~= seq!["--cap-drop"@, "ALL"@, "--clearenv"@]);
    assert(all.subrange(6, 9) =~= seq!["--ro-bind"@, "/usr"@, "/usr"@]);
    assert(all.subrange(24, 27) =~= seq!["--bind"@, s.workspace, "/workspace"@]);
    assert(all.subrange(27, 30) =~= seq!["--ro-bind"@, sock, sock]);
    if own == 3 {
        assert(all.subrange(30, 33) =~= seq!["--ro-bind"@, executable, executable]);
    }
    if 0 <= i < s.read_only.len() {
        let p = s.read_only[i];
        each_is_bound(s.read_only, i);
        let at = 30 + own + 3 * i;
        assert(all[at] == mounts[3 * i]);
        assert(all[at + 1] == mounts[3 * i + 1]);
        assert(all[at + 2] == mounts[3 * i + 2]);
        assert(all.subrange(at, at + 3) =~= seq!["--ro-bind"@, p, p]);
    }
    assert forall|j: int| 0 <= j < 14 implies all[after + j] == #[trigger] env[j] by {}
    assert(all.subrange(after, after + 2) =~= seq![env[0], env[1]]);
    assert(all.subrange(after + 8, after + 11) =~= seq![env[8], env[9], env[10]]);
    assert(all.subrange(after + 11, after + 13) =~= seq![env[11], env[12]]);
    assert(all.subrange(after + 13, after + 15 + args.len()) =~= seq![env[13], executable] + args);
}

// ---- restarts ---------------------------------------------------------

/// Two to the power of `n`, up to ten.
proof fn powers(n: nat)
    requires
        n <= 10,
    ensures
        guard::doubled(n) == vstd::arithmetic::power2::pow2(n),
        1 <= guard::doubled(n) <= 1024,
{
    vstd::arithmetic::power2::lemma2_to64();
    reveal_with_fuel(guard::doubled, 11);
}

/// Whether `t` lies within `ms` milliseconds before `now`.
pub open spec fn within(t: Instant, now: Instant, ms: u64) -> bool {
    now.nanos - t.nanos < ms * 1_000_000
}

proof fn live_are_within(ts: Seq<Instant>, now: Instant, window_ms: u64) -> (cut: int)
    requires
        guard::in_time(ts),
        forall|i: int| 0 <= i < ts.len() ==> (#[trigger] ts[i]).nanos <= now.nanos,
        window_ms > 0,
    ensures
        0 <= cut <= ts.len(),
        guard::live(ts, now, window_ms) == ts.skip(cut),
        forall|i: int| 0 <= i < ts.len() ==> (i >= cut <==> within(#[trigger] ts[i], now, window_ms)),
    decreases ts.len(),
{
    if ts.len() > 0 && guard::aged(ts[0], now, window_ms) {
        let rest = ts.drop_first();
        assert(guard::in_time(rest)) by {
            assert forall|i: int, j: int| 0 <= i <= j < rest.len() implies (#[trigger] rest[i]).nanos
                <= (#[trigger] rest[j]).nanos by {
                assert(rest[i] == ts[i + 1] && rest[j] == ts[j + 1]);
            }
        }
        let c = live_are_within(rest, now, window_ms);
        assert(rest.skip(c) =~= ts.skip(c + 1));
        assert forall|i: int| 0 <= i < ts.len() implies (i >= c + 1 <==> within(
            #[trigger] ts[i],
            now,
            window_ms,
        )) by {
            if i > 0 {
                assert(rest[i - 1] == ts[i]);
            }
        }
        c + 1
    } else {
        assert(ts.skip(0) =~= ts);
        if ts.len() > 0 {
            assert forall|i: int| 0 <= i < ts.len() implies within(#[trigger] ts[i], now, window_ms) by {
                assert(ts[0].nanos <= ts[i].nanos);
            }
        }
        0
    }
}

/// A restart is granted exactly where the policy is valid and fewer restarts
/// than it allows were granted within its window; the ones before the window
/// are forgotten, the others and the new one are remembered.
pub proof fn restarts_are_owed(b: BudgetV, now: Instant, p: RestartPolicy, cut: int)
    requires
        guard::in_time(b.attempts),
        forall|i: int| 0 <= i < b.attempts.len() ==> (#[trigger] b.attempts[i]).nanos <= now.nanos,
        0 < p.window_ms && 0 < p.backoff_ms && p.max_restarts <= 100,
        0 <= cut <= b.attempts.len(),
        forall|i: int|
            0 <= i < b.attempts.len() ==> (i >= cut <==> within(
                #[trigger] b.attempts[i],
                now,
                p.window_ms,
            )),
    ensures
        b.reserve(now, p).1 is Some <==> b.attempts.len() - cut < p.max_restarts,
        b.reserve(now, p).1 is Some ==> b.reserve(now, p).0.attempts == b.attempts.skip(cut).push(now),
        b.reserve(now, p).1 is None ==> b.reserve(now, p).0.attempts == b.attempts.skip(cut),
        b.reserve(now, p).1 is Some ==> b.reserve(now, p).0.next == b.reserve(now, p).1,
{
    let c = live_are_within(b.attempts, now, p.window_ms);
    if c < cut {
        assert(within(b.attempts[c], now, p.window_ms));
    }
    if cut < c {
        assert(within(b.attempts[cut], now, p.window_ms));
    }
}

/// A policy without a window or a delay, or one that allows more than a
/// hundred restarts, grants none and changes nothing.
pub proof fn invalid_policies_grant_none(b: BudgetV, now: Instant, p: RestartPolicy)
    requires
        p.window_ms == 0 || p.backoff_ms == 0 || p.max_restarts > 100,
    ensures
        b.reserve(now, p) == (b, None::<Instant>),
{
}

/// Each restart within the window doubles the delay of the next: after `n`
/// others it is the base delay times two to the power of `n`, ten at most,
/// with 37 milliseconds for each of them on top, less than one base delay, and
/// never over a minute.
pub proof fn delays_double(b: BudgetV, now: Instant, p: RestartPolicy, n: nat)
    requires
        now.nanos + 60_000_000_000 <= u128::MAX,
        b.reserve(now, p).1 is Some,
        b.reserve(now, p).0.attempts.len() == n + 1,
    ensures
        ({
            let due = b.reserve(now, p).1->0;
            let base = p.backoff_ms * vstd::arithmetic::power2::pow2(
                if n < 10 {
                    n
                } else {
                    10
                },
            );
            &&& base >= 60_000 ==> due.nanos == now.nanos + 60_000_000_000
            &&& base < 60_000 ==> {
                &&& due.nanos - now.nanos >= base * 1_000_000
                &&& due.nanos - now.nanos < (base + p.backoff_ms) * 1_000_000
                &&& due.nanos - now.nanos <= 60_000_000_000
            }
            &&& due.nanos < now.nanos + 60_000_000_000 ==> due.nanos == now.nanos + (base + (n * 37)
                % (p.backoff_ms as nat)) * 1_000_000
        }),
{
    let k: nat = if n < 10 {
        n
    } else {
        10
    };
    powers(k);
    let j = (n * 37) % (p.backoff_ms as nat);
    assert(0 <= j < p.backoff_ms);
    assert(guard::live(b.attempts, now, p.window_ms).len() == n);
    assert(b.reserve(now, p).1->0 == now.later(guard::delay_ms(p, n)));
}

/// The first restart within a window is due after the base delay.
pub proof fn first_restarts_are_prompt(b: BudgetV, now: Instant, p: RestartPolicy)
    requires
        now.nanos + 60_000_000_000 <= u128::MAX,
        b.reserve(now, p).1 is Some,
        b.reserve(now, p).0.attempts.len() == 1,
        p.backoff_ms < 60_000,
    ensures
        b.reserve(now, p).1->0.nanos == now.nanos + p.backoff_ms * 1_000_000,
{
    let n = guard::live(b.attempts, now, p.window_ms).len();
    assert(n == 0);
    let m = p.backoff_ms as nat;
    assert(guard::doubled(0) == 1);
    assert(m * 1 == m) by (nonlinear_arith);
    assert((0nat * 37) % m == 0) by {
        vstd::arithmetic::div_mod::lemma_small_mod(0, m);
    }
    assert(p.backoff_ms * guard::doubled(0) == p.backoff_ms);
    assert(guard::delay_ms(p, 0) == p.backoff_ms);
    assert(b.reserve(now, p).1->0 == now.later(p.backoff_ms));
}

} // verus!
