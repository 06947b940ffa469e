use std::collections::HashMap;
use strace_lite::ptrace::mm::{escape_string, read_buffer, read_string, Probe};

/// Tracee memory: the words that can be read, by address.
fn memory_with(addr: u64, bytes: &[u8]) -> HashMap<u64, u64> {
    let mut mem = HashMap::new();
    let mut padded = bytes.to_vec();
    while padded.len() % 8 != 0 {
        padded.push(0xee);
    }
    for (k, chunk) in padded.chunks(8).enumerate() {
        let mut w = [0u8; 8];
        w.copy_from_slice(chunk);
        mem.insert(addr + 8 * k as u64, u64::from_le_bytes(w));
    }
    mem
}

/// Drives a renderer as the tracer does, and counts the reads it asks for.
fn drive(mem: &HashMap<u64, u64>, step: impl Fn(&Vec<Option<u64>>) -> Probe) -> (Option<String>, usize) {
    let mut reads = Vec::new();
    loop {
        match step(&reads) {
            Probe::Peek(a) => reads.push(mem.get(&a).copied()),
            Probe::Overflow => return (None, reads.len()),
            Probe::Done(s) => return (Some(s), reads.len()),
        }
    }
}

#[test]
fn string_up_to_its_zero() {
    let mem = memory_with(0x1000, b"/etc/passwd\0");
    let (s, n) = drive(&mem, |r| read_string(0x1000, 256, r));
    assert_eq!(s.unwrap(), "\"/etc/passwd\"");
    assert_eq!(n, 2);
}

#[test]
fn string_null_pointer() {
    let mem = HashMap::new();
    let (s, n) = drive(&mem, |r| read_string(0, 256, r));
    assert_eq!(s.unwrap(), "NULL");
    assert_eq!(n, 0);
}

#[test]
fn string_empty() {
    let mem = memory_with(0x2000, b"\0abc");
    assert_eq!(drive(&mem, |r| read_string(0x2000, 256, r)).0.unwrap(), "\"\"");
}

#[test]
fn string_unreadable() {
    let mem = HashMap::new();
    let (s, n) = drive(&mem, |r| read_string(0x1000, 256, r));
    assert_eq!(s.unwrap(), "<invalid-ptr-0x1000>");
    assert_eq!(n, 1);
}

#[test]
fn string_unreadable_after_first_word() {
    let mem = memory_with(0x1000, b"abcdefgh");
    assert_eq!(drive(&mem, |r| read_string(0x1000, 256, r)).0.unwrap(), "<invalid-ptr-0x1000>");
}

#[test]
fn string_cut_at_max_len() {
    let mem = memory_with(0x1000, b"abcdefghijklmnop\0");
    assert_eq!(drive(&mem, |r| read_string(0x1000, 4, r)).0.unwrap(), "\"abcd\"...");
    assert_eq!(drive(&mem, |r| read_string(0x1000, 9, r)).0.unwrap(), "\"abcdefghi\"...");
}

#[test]
fn string_max_len_zero_takes_one_byte() {
    let mem = memory_with(0x1000, b"abc\0");
    assert_eq!(drive(&mem, |r| read_string(0x1000, 0, r)).0.unwrap(), "\"a\"...");
}

#[test]
fn string_reads_at_most_max_len_over_eight_plus_one_words() {
    let mem = memory_with(0x1000, &[b'x'; 400]);
    let (s, n) = drive(&mem, |r| read_string(0x1000, 256, r));
    assert_eq!(s.unwrap(), format!("\"{}\"...", "x".repeat(256)));
    assert!(n <= 256 / 8 + 1);
}

#[test]
fn string_invalid_utf8_is_replaced() {
    let mem = memory_with(0x1000, &[b'a', 0xff, b'b', 0]);
    assert_eq!(drive(&mem, |r| read_string(0x1000, 256, r)).0.unwrap(), "\"a\u{fffd}b\"");
}

#[test]
fn string_address_overflow() {
    let addr = u64::MAX - 3;
    let mut mem = HashMap::new();
    mem.insert(addr, u64::from_le_bytes(*b"abcdefgh"));
    let (s, n) = drive(&mem, |r| read_string(addr, 256, r));
    assert!(s.is_none());
    assert_eq!(n, 1);
}

#[test]
fn escape_printable_and_special_bytes() {
    assert_eq!(escape_string(b"hello"), "hello");
    assert_eq!(escape_string(b"a\nb\rc\td"), "a\\nb\\rc\\td");
    assert_eq!(escape_string(b"\"q\" \\"), "\\\"q\\\" \\\\");
    assert_eq!(escape_string(&[0, 1, 0x7f, 0xff]), "\\0\\x01\\x7f\\xff");
    assert_eq!(escape_string(b""), "");
}

#[test]
fn escape_output_is_printable_ascii() {
    let all: Vec<u8> = (0..=255u8).collect();
    let s = escape_string(&all);
    assert!(s.chars().all(|c| (' '..='~').contains(&c)));
}

#[test]
fn buffer_short() {
    let mem = memory_with(0x3000, b"hello\n");
    let (s, n) = drive(&mem, |r| read_buffer(0x3000, 6, r));
    assert_eq!(s.unwrap(), "\"hello\\n\"");
    assert_eq!(n, 1);
}

#[test]
fn buffer_long_is_cut_at_64_bytes() {
    let mem = memory_with(0x3000, &[b'a'; 100]);
    let (s, n) = drive(&mem, |r| read_buffer(0x3000, 100, r));
    assert_eq!(s.unwrap(), format!("\"{}\"... (100 bytes)", "a".repeat(64)));
    assert_eq!(n, 8);
}

#[test]
fn buffer_exactly_64_bytes() {
    let mem = memory_with(0x3000, &[b'z'; 64]);
    assert_eq!(drive(&mem, |r| read_buffer(0x3000, 64, r)).0.unwrap(), format!("\"{}\"", "z".repeat(64)));
}

#[test]
fn buffer_empty_reads_nothing() {
    let mem = HashMap::new();
    let (s, n) = drive(&mem, |r| read_buffer(0x3000, 0, r));
    assert_eq!(s.unwrap(), "\"\"");
    assert_eq!(n, 0);
}

#[test]
fn buffer_null_and_unreadable() {
    let mem = HashMap::new();
    assert_eq!(drive(&mem, |r| read_buffer(0, 10, r)).0.unwrap(), "NULL");
    assert_eq!(drive(&mem, |r| read_buffer(0x40, 10, r)).0.unwrap(), "<invalid-ptr-0x40>");
}

#[test]
fn buffer_zero_bytes_are_shown() {
    let mem = memory_with(0x3000, &[b'a', 0, b'b']);
    assert_eq!(drive(&mem, |r| read_buffer(0x3000, 3, r)).0.unwrap(), "\"a\\0b\"");
}

#[test]
fn buffer_address_overflow_after_last_word() {
    let addr = u64::MAX - 7;
    let mut mem = HashMap::new();
    mem.insert(addr, 0x4141_4141_4141_4141);
    let (s, n) = drive(&mem, |r| read_buffer(addr, 4, r));
    assert!(s.is_none());
    assert_eq!(n, 1);
}

#[test]
fn escape_is_lossless_on_look_alike_inputs() {
    assert_ne!(escape_string(b"\\n"), escape_string(b"\n"));
    assert_ne!(escape_string(b"\\x41"), escape_string(b"A"));
    assert_ne!(escape_string(&[0x5c, b'0']), escape_string(&[0]));
    let mut seen = std::collections::HashSet::new();
    for a in 0..=255u8 {
        for b in [0u8, b'0', b'n', b'x', b'\\', 0xff] {
            assert!(seen.insert(escape_string(&[a, b])));
        }
    }
}
