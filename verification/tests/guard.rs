use matrix_core::guard::{
    filter, filter_bytes, filter_program, launch_args, plain_env, token_eq, token_of, HostConstants, Insn, Limit, Numbers,
    RestartBudget, RestartPolicy, Sandbox,
};
use matrix_core::Instant;

#[test]
fn c15_restart_budget_and_backoff_are_finite() {
    let now = Instant::from_millis(50_000);
    let p = RestartPolicy {
        max_restarts: 2,
        window_ms: 1000,
        backoff_ms: 10,
    };
    let mut b = RestartBudget::default();
    let a = b.reserve(now, &p).unwrap();
    let c = b.reserve(now, &p).unwrap();
    assert!(c.nanos > a.nanos);
    assert!(b.reserve(now, &p).is_none());
    assert!(b.reserve(now.after_ms(2000), &p).is_some());
}

fn ms(b: &mut RestartBudget, now: u64, p: &RestartPolicy) -> Option<u128> {
    let t = Instant::from_millis(now);
    b.reserve(t, p).map(|at| at.millis_since(t))
}

#[test]
fn restart_delays_double_with_jitter() {
    let p = RestartPolicy::default();
    assert_eq!((p.max_restarts, p.window_ms, p.backoff_ms), (5, 10_000, 100));
    let mut b = RestartBudget::default();
    assert_eq!(ms(&mut b, 1000, &p), Some(100));
    assert_eq!(ms(&mut b, 1000, &p), Some(237));
    assert_eq!(ms(&mut b, 1000, &p), Some(474));
    assert_eq!(ms(&mut b, 1000, &p), Some(811));
    assert_eq!(ms(&mut b, 1000, &p), Some(1648));
    assert_eq!(ms(&mut b, 1000, &p), None);
    // The window moves on.
    assert_eq!(ms(&mut b, 10_999, &p), None);
    assert_eq!(ms(&mut b, 11_000, &p), Some(100));
}

#[test]
fn restart_delay_is_capped() {
    let p = RestartPolicy { max_restarts: 100, window_ms: 1_000_000, backoff_ms: 50_000 };
    let mut b = RestartBudget::default();
    assert_eq!(ms(&mut b, 0, &p), Some(50_000));
    assert_eq!(ms(&mut b, 0, &p), Some(60_000));
    let tiny = RestartPolicy { max_restarts: 20, window_ms: 1_000_000, backoff_ms: 1 };
    let mut b = RestartBudget::default();
    for k in 0..20u32 {
        assert_eq!(ms(&mut b, 0, &tiny), Some(1u128 << k.min(10)));
    }
}

#[test]
fn unusable_restart_policies_reserve_nothing() {
    for (max_restarts, window_ms, backoff_ms) in [(5, 0, 100), (5, 1000, 0), (101, 1000, 100), (0, 1000, 100)] {
        let mut b = RestartBudget::default();
        let p = RestartPolicy { max_restarts, window_ms, backoff_ms };
        assert!(b.reserve(Instant::from_millis(5), &p).is_none());
    }
}

#[test]
fn tokens_are_hexadecimal() {
    assert_eq!(token_of(&vec![0, 1, 0x9a, 0xff]), "00019aff");
    assert_eq!(token_of(&vec![]), "");
    assert!(token_eq("00019aff", "00019aff"));
    assert!(!token_eq("00019aff", "00019afe"));
    assert!(!token_eq("00019aff", "00019af"));
    assert!(token_eq("", ""));
}

fn sandbox() -> Sandbox {
    Sandbox {
        workspace: "/srv/w".to_string(),
        read_only: vec!["/opt/a".to_string(), "/opt/b".to_string()],
        memory_bytes: 64 * 1024 * 1024,
        cpu_seconds: 1,
        file_bytes: 1,
        open_files: 16,
    }
}

#[test]
fn sandbox_needs_finite_limits_and_existing_paths() {
    assert!(sandbox().validate(true, &vec![true, true]).is_ok());
    let limits = Err("invalid finite sandbox limits");
    let mut s = sandbox();
    s.memory_bytes -= 1;
    assert_eq!(s.validate(true, &vec![true, true]), limits);
    let mut s = sandbox();
    s.cpu_seconds = 0;
    assert_eq!(s.validate(true, &vec![true, true]), limits);
    let mut s = sandbox();
    s.file_bytes = 0;
    assert_eq!(s.validate(true, &vec![true, true]), limits);
    let mut s = sandbox();
    s.open_files = 15;
    assert_eq!(s.validate(true, &vec![true, true]), limits);
    let place = Err("workspace must be an existing absolute private directory");
    assert_eq!(sandbox().validate(false, &vec![true, true]), place);
    let mut s = sandbox();
    s.workspace = "srv/w".to_string();
    assert_eq!(s.validate(true, &vec![true, true]), place);
    let mount = Err("invalid read-only mount");
    assert_eq!(sandbox().validate(true, &vec![true, false]), mount);
    let mut s = sandbox();
    s.read_only[0] = "opt/a".to_string();
    assert_eq!(s.validate(true, &vec![true, true]), mount);
}

#[test]
fn sandbox_limits_leave_no_core_file() {
    assert_eq!(
        sandbox().limits(),
        vec![
            (Limit::AddressSpace, 67_108_864),
            (Limit::CpuTime, 1),
            (Limit::FileSize, 1),
            (Limit::OpenFiles, 16),
            (Limit::CoreSize, 0),
        ]
    );
}

#[test]
fn launch_arguments_expose_what_the_policy_names() {
    let v = launch_args(&sandbox(), "/run/h.sock", "/srv/bin/x", &vec!["--id".to_string()], "tok", 7);
    let line = v.join(" ");
    assert_eq!(
        line,
        "--unshare-all --die-with-parent --new-session --cap-drop ALL --clearenv --ro-bind /usr /usr \
         --symlink usr/bin /bin --symlink usr/lib /lib --symlink usr/lib /lib64 --proc /proc --dev /dev \
         --tmpfs /tmp --bind /srv/w /workspace --ro-bind /run/h.sock /run/h.sock \
         --ro-bind /srv/bin/x /srv/bin/x --ro-bind /opt/a /opt/a --ro-bind /opt/b /opt/b \
         --chdir /workspace --setenv PATH /usr/bin --setenv HOME /workspace \
         --setenv MATRIX_LAUNCH_TOKEN tok --seccomp 7 -- /srv/bin/x --id"
    );
    // What lies under /usr is there already.
    let v = launch_args(&sandbox(), "/run/h.sock", "/usr/bin/x", &vec![], "tok", 7);
    assert_eq!(v.iter().filter(|a| *a == "/usr/bin/x").count(), 1);
    let v = launch_args(&sandbox(), "/run/h.sock", "/usrlocal/x", &vec![], "tok", 7);
    assert_eq!(v.iter().filter(|a| *a == "/usrlocal/x").count(), 3);
}

#[test]
fn plain_environment_holds_the_token() {
    assert_eq!(
        plain_env("tok"),
        vec![
            ("PATH".to_string(), "/usr/bin:/bin".to_string()),
            ("MATRIX_LAUNCH_TOKEN".to_string(), "tok".to_string()),
        ]
    );
}

/// Runs a filter on one call.
fn run(p: &[Insn], arch: u32, number: u32, first_arg: u32) -> u32 {
    let (mut pc, mut acc) = (0usize, 0u32);
    loop {
        let i = p[pc];
        pc += 1;
        match i.code {
            0x20 => {
                acc = match i.k {
                    0 => number,
                    4 => arch,
                    16 => first_arg,
                    other => panic!("no word at {}", other),
                }
            }
            0x15 => pc += if acc == i.k { i.jt } else { i.jf } as usize,
            0x45 => pc += if acc & i.k != 0 { i.jt } else { i.jf } as usize,
            0x06 => return i.k,
            other => panic!("no instruction {}", other),
        }
    }
}

#[test]
fn filter_allows_threads_and_refuses_processes() {
    let n = Numbers {
        refused: vec![57, 58, 272],
        clone3: 435,
        clone: 56,
        thread_flag: 0x0001_0000,
        eperm: 1,
        enosys: 38,
    };
    let p = filter_program(&n);
    assert_eq!(p.len(), 4 + 2 + 6 + 2 + 5);
    let x86 = 0xc000_003e;
    assert_eq!(run(&p, 0x4000_0003, 1, 0), 0x8000_0000);
    assert_eq!(run(&p, x86, 1, 0), 0x7fff_0000);
    assert_eq!(run(&p, x86, 0x4000_0001, 0), 0x0005_0001);
    for r in [57, 58, 272] {
        assert_eq!(run(&p, x86, r, 0), 0x0005_0001);
    }
    assert_eq!(run(&p, x86, 435, 0), 0x0005_0026);
    assert_eq!(run(&p, x86, 56, 0), 0x0005_0001);
    assert_eq!(run(&p, x86, 56, 0x0001_0011), 0x7fff_0000);
}

#[test]
fn filter_bytes_are_little_endian() {
    let p = vec![
        Insn { code: 0x20, jt: 0, jf: 0, k: 4 },
        Insn { code: 0x0115, jt: 1, jf: 2, k: 0xc000_003e },
    ];
    assert_eq!(
        filter_bytes(&p),
        vec![0x20, 0, 0, 0, 4, 0, 0, 0, 0x15, 0x01, 1, 2, 0x3e, 0x00, 0x00, 0xc0]
    );
}

#[test]
fn host_filter_knows_the_host() {
    let p = filter();
    assert_eq!(p.len(), 29);
    let x86 = 0xc000_003e;
    for call in [
        libc::SYS_fork,
        libc::SYS_vfork,
        libc::SYS_unshare,
        libc::SYS_setns,
        libc::SYS_ptrace,
        libc::SYS_mount,
        libc::SYS_bpf,
        libc::SYS_keyctl,
    ] {
        assert_eq!(run(&p, x86, call as u32, 0), 0x0005_0000 | libc::EPERM as u32);
    }
    assert_eq!(run(&p, x86, libc::SYS_clone3 as u32, 0), 0x0005_0000 | libc::ENOSYS as u32);
    assert_eq!(run(&p, x86, libc::SYS_clone as u32, libc::CLONE_THREAD as u32), 0x7fff_0000);
    assert_eq!(run(&p, x86, libc::SYS_clone as u32, 0), 0x0005_0000 | libc::EPERM as u32);
    assert_eq!(run(&p, x86, libc::SYS_read as u32, 0), 0x7fff_0000);
}

#[test]
fn host_filter_is_the_one_for_its_numbers() {
    let n = Numbers {
        refused: vec![57, 58, 272, 308, 101, 165, 321, 250],
        clone3: 435,
        clone: 56,
        thread_flag: 0x10000,
        eperm: 1,
        enosys: 38,
    };
    assert_eq!(filter(), filter_program(&n));
}

#[test]
fn constants_are_chosen_by_name() {
    let h = HostConstants {
        fork: 1,
        vfork: 2,
        unshare: 3,
        setns: 4,
        ptrace: 5,
        mount: 6,
        bpf: 7,
        keyctl: 8,
        clone3: 9,
        clone: 10,
        clone_thread: 11,
        eperm: 12,
        enosys: 13,
    };
    let n = h.choose_numbers();
    assert_eq!(n.refused, vec![1, 2, 3, 4, 5, 6, 7, 8]);
    assert_eq!((n.clone3, n.clone, n.thread_flag, n.eperm, n.enosys), (9, 10, 11, 12, 13));
}

#[test]
fn grants_keep_a_window_apart() {
    let p = RestartPolicy { max_restarts: 3, window_ms: 1000, backoff_ms: 10 };
    let mut b = RestartBudget::default();
    let mut granted: Vec<u64> = vec![];
    for i in 0..400u64 {
        let now = 5_000 + i * 37;
        if ms(&mut b, now, &p).is_some() {
            granted.push(now);
        }
    }
    assert!(granted.len() > 6);
    for i in 3..granted.len() {
        assert!(granted[i] - granted[i - 3] >= 1000);
    }
}
