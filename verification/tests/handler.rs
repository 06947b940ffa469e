use std::collections::HashMap;
use strace_lite::handler::syscall::{
    format_syscall_entry, format_syscall_exit, handle_syscall_entry, handle_syscall_exit, Registers,
};
use strace_lite::ptrace::mm::Probe;

fn regs(nr: u64, args: &[u64]) -> Registers {
    let mut r = [0u64; 31];
    r[..args.len()].copy_from_slice(args);
    r[8] = nr;
    Registers { regs: r }
}

fn memory_with(mem: &mut HashMap<u64, u64>, addr: u64, bytes: &[u8]) {
    let mut padded = bytes.to_vec();
    while padded.len() % 8 != 0 {
        padded.push(0);
    }
    for (k, chunk) in padded.chunks(8).enumerate() {
        let mut w = [0u8; 8];
        w.copy_from_slice(chunk);
        mem.insert(addr + 8 * k as u64, u64::from_le_bytes(w));
    }
}

fn drive(mem: &HashMap<u64, u64>, step: impl Fn(&Vec<Option<u64>>) -> Probe) -> String {
    let mut reads = Vec::new();
    loop {
        match step(&reads) {
            Probe::Peek(a) => reads.push(mem.get(&a).copied()),
            Probe::Overflow => panic!("address overflow"),
            Probe::Done(s) => return s,
        }
    }
}

fn entry(r: &Registers, mem: &HashMap<u64, u64>) -> String {
    drive(mem, |reads| handle_syscall_entry(r, reads))
}

#[test]
fn entry_close() {
    assert_eq!(entry(&regs(57, &[3]), &HashMap::new()), "close(3)");
}

#[test]
fn entry_read_is_left_open() {
    assert_eq!(entry(&regs(63, &[0, 0x1000, 4096]), &HashMap::new()), "read(0");
}

#[test]
fn entry_write_shows_buffer() {
    let mut mem = HashMap::new();
    memory_with(&mut mem, 0x5000, b"hi\n");
    assert_eq!(entry(&regs(64, &[1, 0x5000, 3]), &mem), "write(1, \"hi\\n\", 3)");
}

#[test]
fn entry_openat_decodes_everything() {
    let mut mem = HashMap::new();
    memory_with(&mut mem, 0x6000, b"/tmp/x\0");
    assert_eq!(
        entry(&regs(56, &[0xffff_ffff_ffff_ff9c, 0x6000, 0x80241]), &mem),
        "openat(AT_FDCWD, \"/tmp/x\", O_WRONLY|O_CREAT|O_NOCTTY|O_CLOEXEC)"
    );
}

#[test]
fn entry_execve() {
    let mut mem = HashMap::new();
    memory_with(&mut mem, 0x7000, b"/bin/ls\0");
    assert_eq!(entry(&regs(221, &[0x7000, 0x7100, 0x7200]), &mem), "execve(\"/bin/ls\", 0x7100, 0x7200)");
}

#[test]
fn entry_newfstatat() {
    let mut mem = HashMap::new();
    memory_with(&mut mem, 0x6000, b"a\0");
    assert_eq!(
        entry(&regs(79, &[3, 0x6000, 0xbeef, 256]), &mem),
        "newfstatat(3, \"a\", 0xbeef, 256)"
    );
}

#[test]
fn entry_writev_shows_first_three_iovecs() {
    let mut mem = HashMap::new();
    // four iovecs at 0x8000; the first three are shown
    mem.insert(0x8000, 0x9000);
    mem.insert(0x8008, 2);
    mem.insert(0x8010, 0x9100);
    mem.insert(0x8018, 3);
    mem.insert(0x8020, 0x9200);
    mem.insert(0x8028, 1);
    memory_with(&mut mem, 0x9000, b"ab");
    memory_with(&mut mem, 0x9100, b"cde");
    memory_with(&mut mem, 0x9200, b"f");
    assert_eq!(
        entry(&regs(66, &[1, 0x8000, 4]), &mem),
        "writev(1, [{iov_base=\"ab\", iov_len=2}, {iov_base=\"cde\", iov_len=3}, {iov_base=\"f\", iov_len=1}], 4)"
    );
}

#[test]
fn entry_writev_skips_unreadable_iovecs() {
    let mut mem = HashMap::new();
    mem.insert(0x8010, 0x9100);
    mem.insert(0x8018, 1);
    memory_with(&mut mem, 0x9100, b"z");
    assert_eq!(
        entry(&regs(66, &[2, 0x8000, 2]), &mem),
        "writev(2, [{iov_base=\"z\", iov_len=1}], 2)"
    );
}

#[test]
fn entry_writev_without_readable_iovecs() {
    assert_eq!(entry(&regs(66, &[2, 0x8000, 2]), &HashMap::new()), "writev(2, 0x8000, 2)");
}

#[test]
fn entry_ioctl_and_fcntl_names() {
    let mem = HashMap::new();
    assert_eq!(entry(&regs(29, &[1, 0x5413, 0x10]), &mem), "ioctl(1, TIOCGWINSZ, 0x10)");
    assert_eq!(entry(&regs(29, &[1, 0x1234, 0x10]), &mem), "ioctl(1, 0x1234, 0x10)");
    assert_eq!(entry(&regs(25, &[3, 2, 1]), &mem), "fcntl(3, F_SETFD, FD_CLOEXEC)");
    assert_eq!(entry(&regs(25, &[3, 3, 0]), &mem), "fcntl(3, F_GETFL, 0x0)");
    assert_eq!(entry(&regs(25, &[3, 1030, 5]), &mem), "fcntl(3, 1030, 0x5)");
}

#[test]
fn entry_lseek_mmap_and_friends() {
    let mem = HashMap::new();
    assert_eq!(entry(&regs(62, &[3, u64::MAX, 1]), &mem), "lseek(3, -1, SEEK_CUR)");
    assert_eq!(entry(&regs(62, &[3, 10, 9]), &mem), "lseek(3, 10, SEEK_UNKNOWN)");
    assert_eq!(
        entry(&regs(222, &[0, 4096, 3, 0x22, u64::MAX, 0]), &mem),
        "mmap(NULL, 4096, PROT_READ|PROT_WRITE, MAP_PRIVATE|MAP_ANONYMOUS, -1, 0)"
    );
    assert_eq!(entry(&regs(226, &[0x1000, 8192, 1]), &mem), "mprotect(0x1000, 8192, PROT_READ)");
    assert_eq!(entry(&regs(215, &[0x1000, 8192]), &mem), "munmap(0x1000, 8192)");
    assert_eq!(entry(&regs(214, &[0]), &mem), "brk(NULL)");
    assert_eq!(entry(&regs(214, &[0xabc000]), &mem), "brk(0xabc000)");
    assert_eq!(entry(&regs(61, &[3, 0x2000, 32768]), &mem), "getdents64(3, 0x2000, 32768)");
}

#[test]
fn entry_other_named_call_shows_three_hex_args() {
    assert_eq!(entry(&regs(94, &[1, 2, 3]), &HashMap::new()), "exit_group(0x1, 0x2, 0x3)");
}

#[test]
fn entry_unknown_number() {
    assert_eq!(entry(&regs(1000, &[1, 2, 3]), &HashMap::new()), "syscall_1000(0x1, 0x2, 0x3)");
    assert_eq!(entry(&regs(u64::MAX, &[0, 0, 0]), &HashMap::new()), "syscall_-1(0x0, 0x0, 0x0)");
}

#[test]
fn entry_with_a_given_name() {
    let r = regs(1000, &[7]);
    let s = drive(&HashMap::new(), |reads| format_syscall_entry(&r, Some("close"), reads));
    assert_eq!(s, "close(7)");
    let s = drive(&HashMap::new(), |reads| format_syscall_entry(&r, None, reads));
    assert_eq!(s, "syscall_1000(0x7, 0x0, 0x0)");
}

#[test]
fn exit_plain_result() {
    let r = regs(57, &[0]);
    assert_eq!(drive(&HashMap::new(), |reads| handle_syscall_exit(&r, (0, 0, 0), reads)), " = 0");
    let r = regs(57, &[u64::MAX - 8]);
    assert_eq!(drive(&HashMap::new(), |reads| handle_syscall_exit(&r, (0, 0, 0), reads)), " = -9");
}

#[test]
fn exit_read_shows_what_was_read() {
    let mut mem = HashMap::new();
    memory_with(&mut mem, 0x4000, b"data");
    let r = regs(63, &[4]);
    assert_eq!(
        drive(&mem, |reads| handle_syscall_exit(&r, (3, 0x4000, 100), reads)),
        "\"data\", 100) = 4"
    );
}

#[test]
fn exit_read_of_nothing_shows_address() {
    let r = regs(63, &[0]);
    assert_eq!(
        drive(&HashMap::new(), |reads| handle_syscall_exit(&r, (3, 0x4000, 100), reads)),
        "0x4000, 100) = 0"
    );
    let r = regs(63, &[u64::MAX]);
    assert_eq!(
        drive(&HashMap::new(), |reads| format_syscall_exit(&r, Some("read"), (3, 0x4000, 100), reads)),
        "0x4000, 100) = -1"
    );
}
