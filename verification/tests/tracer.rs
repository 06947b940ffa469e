use std::collections::HashMap;
use strace_lite::handler::syscall::Registers;
use strace_lite::tracer::{keeps_tracing, Stop, Tracer};

fn regs(nr: u64, args: &[u64]) -> Registers {
    let mut r = [0u64; 31];
    r[..args.len()].copy_from_slice(args);
    r[8] = nr;
    Registers { regs: r }
}

fn stop(t: &mut Tracer, r: &Registers, mem: &HashMap<u64, u64>) -> Vec<String> {
    let mut reads = Vec::new();
    loop {
        match t.on_stop(r, &reads) {
            Stop::Peek(a) => reads.push(mem.get(&a).copied()),
            Stop::Overflow => panic!("address overflow"),
            Stop::Proceed(lines) => return lines,
        }
    }
}

#[test]
fn entry_then_exit_prints_one_line() {
    let mem = HashMap::new();
    let mut t = Tracer::new();
    assert!(stop(&mut t, &regs(57, &[3]), &mem).is_empty());
    assert_eq!(stop(&mut t, &regs(57, &[0]), &mem), vec!["close(3) = 0".to_string()]);
    assert_eq!(t.syscall_count(), 1);
}

#[test]
fn read_exit_uses_the_entry_arguments() {
    let mut mem = HashMap::new();
    mem.insert(0x4000, u64::from_le_bytes(*b"abc\0\0\0\0\0"));
    let mut t = Tracer::new();
    assert!(stop(&mut t, &regs(63, &[3, 0x4000, 10]), &mem).is_empty());
    // at exit x0 holds the result and x1/x2 may have changed
    assert_eq!(stop(&mut t, &regs(63, &[3, 0, 0]), &mem), vec!["read(3\"abc\", 10) = 3".to_string()]);
}

#[test]
fn out_of_sync_stop_closes_pending_call() {
    let mem = HashMap::new();
    let mut t = Tracer::new();
    assert!(stop(&mut t, &regs(57, &[3]), &mem).is_empty());
    // a stop for another call: the close is unfinished, the new stop is an entry
    assert_eq!(stop(&mut t, &regs(214, &[0]), &mem), vec!["close(3) = <unfinished ...>".to_string()]);
    assert_eq!(stop(&mut t, &regs(214, &[0x5000]), &mem), vec!["brk(NULL) = 20480".to_string()]);
    assert_eq!(t.syscall_count(), 2);
}

#[test]
fn execve_exec_stop_is_skipped() {
    let mut mem = HashMap::new();
    mem.insert(0x7000, u64::from_le_bytes(*b"/bin/ls\0"));
    let mut t = Tracer::new();
    assert!(stop(&mut t, &regs(221, &[0x7000, 0x10, 0x20]), &mem).is_empty());
    // the exec stop: a result that looks like a pointer
    assert!(stop(&mut t, &regs(221, &[0x7fff_0000]), &mem).is_empty());
    assert_eq!(
        stop(&mut t, &regs(221, &[0]), &mem),
        vec!["execve(\"/bin/ls\", 0x10, 0x20) = 0".to_string()]
    );
    assert_eq!(t.syscall_count(), 1);
}

#[test]
fn tracing_goes_on_while_stopped() {
    assert!(keeps_tracing(0x857f));
    assert!(keeps_tracing(0x137f));
    assert!(!keeps_tracing(0));
    assert!(!keeps_tracing(9));
}

#[test]
fn report_exit_and_signal() {
    let mem = HashMap::new();
    let mut t = Tracer::new();
    stop(&mut t, &regs(57, &[3]), &mem);
    stop(&mut t, &regs(57, &[0]), &mem);
    assert_eq!(t.final_report(1 << 8, false), vec!["+++ exited with 1 +++".to_string()]);
    assert_eq!(
        t.final_report(0, true),
        vec!["+++ exited with 0 +++".to_string(), "strace: Total syscalls traced: 1".to_string()]
    );
    assert_eq!(t.final_report(9, false), vec!["+++ killed by signal 9 +++".to_string()]);
    assert_eq!(t.final_report(0x137f, true), Vec::<String>::new());
}
