use strace_lite::decoder::syscalls::{decode_dirfd, decode_mmap_flags, decode_open_flags, decode_prot_flags};

#[test]
fn open_flags_read_only_is_zero() {
    assert_eq!(decode_open_flags(0), "O_RDONLY");
}

#[test]
fn open_flags_lists_mode_then_flags_in_order() {
    assert_eq!(decode_open_flags(0x241), "O_WRONLY|O_CREAT|O_NOCTTY");
    assert_eq!(decode_open_flags(0x80002), "O_RDWR|O_CLOEXEC");
    assert_eq!(
        decode_open_flags(0x2 | 0x40 | 0x80 | 0x400 | 0x800 | 0x1000 | 0x8000 | 0x10000 | 0x20000),
        "O_RDWR|O_CREAT|O_EXCL|O_TRUNC|O_APPEND|O_NONBLOCK|O_LARGEFILE|O_DIRECTORY|O_NOFOLLOW"
    );
}

#[test]
fn open_flags_without_names_show_in_hex() {
    assert_eq!(decode_open_flags(3), "0x3");
    assert_eq!(decode_open_flags(0x100003), "0x100003");
}

#[test]
fn open_flags_mode_three_keeps_other_names() {
    assert_eq!(decode_open_flags(3 | 0x40), "O_CREAT");
}

#[test]
fn dirfd_current_directory() {
    assert_eq!(decode_dirfd(0xffff_ffff_ffff_ff9c), "AT_FDCWD");
    assert_eq!(decode_dirfd(0x0000_0000_ffff_ff9c), "AT_FDCWD");
    assert_eq!(decode_dirfd(0x1234_5678_ffff_ff9c), "AT_FDCWD");
}

#[test]
fn dirfd_plain_descriptors_are_signed_32_bit() {
    assert_eq!(decode_dirfd(3), "3");
    assert_eq!(decode_dirfd(0), "0");
    assert_eq!(decode_dirfd(0xffff_ffff), "-1");
    assert_eq!(decode_dirfd(0x1_0000_0005), "5");
    assert_eq!(decode_dirfd(0x8000_0000), "-2147483648");
}

#[test]
fn prot_flags_names() {
    assert_eq!(decode_prot_flags(0), "PROT_NONE");
    assert_eq!(decode_prot_flags(1), "PROT_READ");
    assert_eq!(decode_prot_flags(3), "PROT_READ|PROT_WRITE");
    assert_eq!(decode_prot_flags(7), "PROT_READ|PROT_WRITE|PROT_EXEC");
    assert_eq!(decode_prot_flags(5), "PROT_READ|PROT_EXEC");
}

#[test]
fn prot_flags_unknown_bits_in_hex() {
    assert_eq!(decode_prot_flags(8), "0x8");
    assert_eq!(decode_prot_flags(0x1000000), "0x1000000");
}

#[test]
fn mmap_flags_names() {
    assert_eq!(decode_mmap_flags(0x22), "MAP_PRIVATE|MAP_ANONYMOUS");
    assert_eq!(decode_mmap_flags(0x11), "MAP_SHARED|MAP_FIXED");
    assert_eq!(decode_mmap_flags(0x33), "MAP_SHARED|MAP_PRIVATE|MAP_FIXED|MAP_ANONYMOUS");
}

#[test]
fn mmap_flags_unknown_in_hex() {
    assert_eq!(decode_mmap_flags(0), "0x0");
    assert_eq!(decode_mmap_flags(0x100), "0x100");
    assert_eq!(decode_mmap_flags(u64::MAX & !0x33), "0xffffffffffffffcc");
}
