//! Symbolic names for the flag words and descriptors that system calls take.
use vstd::prelude::*;
use crate::text::{append_i64, dec_text, hex_string, hex_text, join, join_strs, lemma_join_starts_with_first, views};

verus! {

/// A one-element sequence holding `name` when `cond` holds, else empty.
pub open spec fn name_if(cond: bool, name: Seq<char>) -> Seq<Seq<char>> {
    if cond { seq![name] } else { Seq::empty() }
}

/// The name of the access mode in the low two bits of an `openat` flag word;
/// none for the value 3, which has no name.
pub open spec fn access_mode_names(flags: u64) -> Seq<Seq<char>> {
    if flags & 3 == 0 {
        seq!["O_RDONLY"@]
    } else if flags & 3 == 1 {
        seq!["O_WRONLY"@]
    } else if flags & 3 == 2 {
        seq!["O_RDWR"@]
    } else {
        Seq::empty()
    }
}

/// The names that an `openat` flag word carries, in the order they are shown:
/// the access mode, then each known flag whose bit is set.
pub open spec fn open_flag_names(flags: u64) -> Seq<Seq<char>> {
    access_mode_names(flags)
        + name_if(flags & 0x40 != 0, "O_CREAT"@)
        + name_if(flags & 0x80 != 0, "O_EXCL"@)
        + name_if(flags & 0x200 != 0, "O_NOCTTY"@)
        + name_if(flags & 0x400 != 0, "O_TRUNC"@)
        + name_if(flags & 0x800 != 0, "O_APPEND"@)
        + name_if(flags & 0x1000 != 0, "O_NONBLOCK"@)
        + name_if(flags & 0x8000 != 0, "O_LARGEFILE"@)
        + name_if(flags & 0x10000 != 0, "O_DIRECTORY"@)
        + name_if(flags & 0x20000 != 0, "O_NOFOLLOW"@)
        + name_if(flags & 0x80000 != 0, "O_CLOEXEC"@)
}

/// The names that an `mmap`/`mprotect` protection word carries.
pub open spec fn prot_flag_names(prot: u64) -> Seq<Seq<char>> {
    name_if(prot & 0x1 != 0, "PROT_READ"@)
        + name_if(prot & 0x2 != 0, "PROT_WRITE"@)
        + name_if(prot & 0x4 != 0, "PROT_EXEC"@)
}

/// The names that an `mmap` flag word carries.
pub open spec fn mmap_flag_names(flags: u64) -> Seq<Seq<char>> {
    name_if(flags & 0x01 != 0, "MAP_SHARED"@)
        + name_if(flags & 0x02 != 0, "MAP_PRIVATE"@)
        + name_if(flags & 0x10 != 0, "MAP_FIXED"@)
        + name_if(flags & 0x20 != 0, "MAP_ANONYMOUS"@)
}

/// The names joined with `|`, or the word in hexadecimal when there is none.
pub open spec fn names_or_hex(names: Seq<Seq<char>>, word: u64) -> Seq<char> {
    if names.len() == 0 {
        hex_text(word as nat)
    } else {
        join(names, "|"@)
    }
}

/// How `decode_open_flags` shows a flag word.
pub open spec fn open_flags_text(flags: u64) -> Seq<char> {
    names_or_hex(open_flag_names(flags), flags)
}

/// How `decode_prot_flags` shows a protection word.
pub open spec fn prot_flags_text(prot: u64) -> Seq<char> {
    if prot == 0 {
        "PROT_NONE"@
    } else {
        names_or_hex(prot_flag_names(prot), prot)
    }
}

/// How `decode_mmap_flags` shows a flag word.
pub open spec fn mmap_flags_text(flags: u64) -> Seq<char> {
    names_or_hex(mmap_flag_names(flags), flags)
}

/// Whether a directory descriptor argument means "the current directory":
/// the full 64-bit `-100`, or a word whose low 32 bits read as `-100`.
pub open spec fn is_at_fdcwd(dfd: u64) -> bool {
    dfd == 0xffffffffffffff9c || dfd as i32 == -100
}

/// How `decode_dirfd` shows a directory descriptor.
pub open spec fn dirfd_text(dfd: u64) -> Seq<char> {
    if is_at_fdcwd(dfd) {
        "AT_FDCWD"@
    } else {
        dec_text((dfd as i32) as int)
    }
}

/// Pushes `name` when `cond` holds.
fn push_if<'a>(parts: &mut Vec<&'a str>, cond: bool, name: &'a str)
    ensures
        views(final(parts)@) == views(old(parts)@) + name_if(cond, name@),
{
    if cond {
        parts.push(name);
    }
    assert(views(parts@) =~= views(old(parts)@) + name_if(cond, name@));
}

/// The names joined with `|`, or the word in hexadecimal when there is none.
fn render_names(parts: &Vec<&str>, word: u64) -> (s: String)
    ensures
        s@ == names_or_hex(views(parts@), word),
{
    if parts.len() == 0 {
        hex_string(word)
    } else {
        join_strs(parts, "|")
    }
}

/// Shows an `openat` flag word: the access mode and each known flag, joined
/// with `|`, or the word in hexadecimal when no name applies.
pub fn decode_open_flags(flags: u64) -> (s: String)
    ensures
        s@ == open_flags_text(flags),
{
    let mut parts: Vec<&str> = Vec::new();
    let access_mode = flags & 0x3;
    if access_mode == 0 {
        parts.push("O_RDONLY");
    } else if access_mode == 1 {
        parts.push("O_WRONLY");
    } else if access_mode == 2 {
        parts.push("O_RDWR");
    }
    assert(views(parts@) =~= access_mode_names(flags));
    push_if(&mut parts, flags & 0x40 != 0, "O_CREAT");
    push_if(&mut parts, flags & 0x80 != 0, "O_EXCL");
    push_if(&mut parts, flags & 0x200 != 0, "O_NOCTTY");
    push_if(&mut parts, flags & 0x400 != 0, "O_TRUNC");
    push_if(&mut parts, flags & 0x800 != 0, "O_APPEND");
    push_if(&mut parts, flags & 0x1000 != 0, "O_NONBLOCK");
    push_if(&mut parts, flags & 0x8000 != 0, "O_LARGEFILE");
    push_if(&mut parts, flags & 0x10000 != 0, "O_DIRECTORY");
    push_if(&mut parts, flags & 0x20000 != 0, "O_NOFOLLOW");
    push_if(&mut parts, flags & 0x80000 != 0, "O_CLOEXEC");
    render_names(&parts, flags)
}

/// Shows a directory descriptor: `AT_FDCWD` for the current directory,
/// else the descriptor as a signed 32-bit number.
pub fn decode_dirfd(dfd: u64) -> (s: String)
    ensures
        s@ == dirfd_text(dfd),
{
    #[verifier::truncate]
    let low: i32 = dfd as i32;
    if dfd == 0xffffffffffffff9c || low == -100 {
        "AT_FDCWD".to_owned()
    } else {
        let mut s = String::new();
        append_i64(&mut s, low as i64);
        assert(s@ =~= dirfd_text(dfd));
        s
    }
}

/// Shows a memory protection word: `PROT_NONE` for zero, else the known
/// flags joined with `|`, or the word in hexadecimal when none is known.
pub fn decode_prot_flags(prot: u64) -> (s: String)
    ensures
        s@ == prot_flags_text(prot),
{
    let mut parts: Vec<&str> = Vec::new();
    assert(views(parts@) =~= Seq::<Seq<char>>::empty());
    push_if(&mut parts, prot & 0x1 != 0, "PROT_READ");
    push_if(&mut parts, prot & 0x2 != 0, "PROT_WRITE");
    push_if(&mut parts, prot & 0x4 != 0, "PROT_EXEC");
    assert(views(parts@) =~= prot_flag_names(prot));
    if prot == 0 {
        return "PROT_NONE".to_owned();
    }
    render_names(&parts, prot)
}

/// Shows an `mmap` flag word: the known flags joined with `|`, or the word
/// in hexadecimal when none is known.
pub fn decode_mmap_flags(flags: u64) -> (s: String)
    ensures
        s@ == mmap_flags_text(flags),
{
    let mut parts: Vec<&str> = Vec::new();
    assert(views(parts@) =~= Seq::<Seq<char>>::empty());
    push_if(&mut parts, flags & 0x01 != 0, "MAP_SHARED");
    push_if(&mut parts, flags & 0x02 != 0, "MAP_PRIVATE");
    push_if(&mut parts, flags & 0x10 != 0, "MAP_FIXED");
    push_if(&mut parts, flags & 0x20 != 0, "MAP_ANONYMOUS");
    assert(views(parts@) =~= mmap_flag_names(flags));
    render_names(&parts, flags)
}

/// A directory descriptor shows as `AT_FDCWD` exactly when its low 32
/// bits are those of `-100`; the other 32 bits do not matter.
pub proof fn lemma_at_fdcwd_low_bits(dfd: u64)
    ensures
        is_at_fdcwd(dfd) == ((dfd & 0xffff_ffff) == 0xffff_ff9c),
        is_at_fdcwd(dfd) ==> dirfd_text(dfd) == "AT_FDCWD"@,
{
    assert(((dfd as i32) == -100) == ((dfd & 0xffff_ffff) == 0xffff_ff9c)) by (bit_vector);
    assert(dfd == 0xffffffffffffff9c ==> (dfd & 0xffff_ffff) == 0xffff_ff9c) by (bit_vector);
}

/// Whether two texts are the same.
pub open spec fn same_text(a: Seq<char>, b: Seq<char>) -> bool {
    a == b
}

/// A sequence holds `x` exactly when it is among the names that
/// `name_if` adds.
pub broadcast proof fn lemma_name_if_contains(cond: bool, name: Seq<char>, x: Seq<char>)
    ensures
        #[trigger] name_if(cond, name).contains(x) == (cond && same_text(name, x)),
{
    if cond && name == x {
        assert(name_if(cond, name)[0] == x);
    }
}

proof fn lemma_access_mode_contains(flags: u64, x: Seq<char>)
    ensures
        access_mode_names(flags).contains(x) == ((flags & 3 == 0 && same_text(x, "O_RDONLY"@))
            || (flags & 3 == 1 && same_text(x, "O_WRONLY"@)) || (flags & 3 == 2 && same_text(x, "O_RDWR"@))),
{
    let a = access_mode_names(flags);
    if a.len() > 0 && a[0] == x {
        assert(a.contains(x));
    }
}

#[verifier::rlimit(100)]
proof fn lemma_open_names_contains(flags: u64, x: Seq<char>)
    ensures
        open_flag_names(flags).contains(x) == ((flags & 3 == 0 && same_text(x, "O_RDONLY"@))
            || (flags & 3 == 1 && same_text(x, "O_WRONLY"@)) || (flags & 3 == 2 && same_text(x, "O_RDWR"@))
            || (flags & 0x40 != 0 && same_text(x, "O_CREAT"@)) || (flags & 0x80 != 0 && same_text(x, "O_EXCL"@)) || (flags & 0x200 != 0 && same_text(x, "O_NOCTTY"@)) || (flags & 0x400 != 0 && same_text(x, "O_TRUNC"@)) || (flags & 0x800 != 0 && same_text(x, "O_APPEND"@)) || (flags & 0x1000 != 0 && same_text(x, "O_NONBLOCK"@)) || (flags & 0x8000 != 0 && same_text(x, "O_LARGEFILE"@)) || (flags & 0x10000 != 0 && same_text(x, "O_DIRECTORY"@)) || (flags & 0x20000 != 0 && same_text(x, "O_NOFOLLOW"@)) || (flags & 0x80000 != 0 && same_text(x, "O_CLOEXEC"@))),
{
    lemma_access_mode_contains(flags, x);
    let p1 = access_mode_names(flags) + name_if(flags & 0x40 != 0, "O_CREAT"@);
    vstd::seq_lib::lemma_seq_concat_contains_all_elements(access_mode_names(flags), name_if(flags & 0x40 != 0, "O_CREAT"@), x);
    lemma_name_if_contains(flags & 0x40 != 0, "O_CREAT"@, x);
    let p2 = p1 + name_if(flags & 0x80 != 0, "O_EXCL"@);
    vstd::seq_lib::lemma_seq_concat_contains_all_elements(p1, name_if(flags & 0x80 != 0, "O_EXCL"@), x);
    lemma_name_if_contains(flags & 0x80 != 0, "O_EXCL"@, x);
    let p3 = p2 + name_if(flags & 0x200 != 0, "O_NOCTTY"@);
    vstd::seq_lib::lemma_seq_concat_contains_all_elements(p2, name_if(flags & 0x200 != 0, "O_NOCTTY"@), x);
    lemma_name_if_contains(flags & 0x200 != 0, "O_NOCTTY"@, x);
    let p4 = p3 + name_if(flags & 0x400 != 0, "O_TRUNC"@);
    vstd::seq_lib::lemma_seq_concat_contains_all_elements(p3, name_if(flags & 0x400 != 0, "O_TRUNC"@), x);
    lemma_name_if_contains(flags & 0x400 != 0, "O_TRUNC"@, x);
    let p5 = p4 + name_if(flags & 0x800 != 0, "O_APPEND"@);
    vstd::seq_lib::lemma_seq_concat_contains_all_elements(p4, name_if(flags & 0x800 != 0, "O_APPEND"@), x);
    lemma_name_if_contains(flags & 0x800 != 0, "O_APPEND"@, x);
    let p6 = p5 + name_if(flags & 0x1000 != 0, "O_NONBLOCK"@);
    vstd::seq_lib::lemma_seq_concat_contains_all_elements(p5, name_if(flags & 0x1000 != 0, "O_NONBLOCK"@), x);
    lemma_name_if_contains(flags & 0x1000 != 0, "O_NONBLOCK"@, x);
    let p7 = p6 + name_if(flags & 0x8000 != 0, "O_LARGEFILE"@);
    vstd::seq_lib::lemma_seq_concat_contains_all_elements(p6, name_if(flags & 0x8000 != 0, "O_LARGEFILE"@), x);
    lemma_name_if_contains(flags & 0x8000 != 0, "O_LARGEFILE"@, x);
    let p8 = p7 + name_if(flags & 0x10000 != 0, "O_DIRECTORY"@);
    vstd::seq_lib::lemma_seq_concat_contains_all_elements(p7, name_if(flags & 0x10000 != 0, "O_DIRECTORY"@), x);
    lemma_name_if_contains(flags & 0x10000 != 0, "O_DIRECTORY"@, x);
    let p9 = p8 + name_if(flags & 0x20000 != 0, "O_NOFOLLOW"@);
    vstd::seq_lib::lemma_seq_concat_contains_all_elements(p8, name_if(flags & 0x20000 != 0, "O_NOFOLLOW"@), x);
    lemma_name_if_contains(flags & 0x20000 != 0, "O_NOFOLLOW"@, x);
    let p10 = p9 + name_if(flags & 0x80000 != 0, "O_CLOEXEC"@);
    vstd::seq_lib::lemma_seq_concat_contains_all_elements(p9, name_if(flags & 0x80000 != 0, "O_CLOEXEC"@), x);
    lemma_name_if_contains(flags & 0x80000 != 0, "O_CLOEXEC"@, x);
}

proof fn lemma_open_flag_literals()
    ensures
        "O_RDONLY"@.len() == 8,
        "O_RDONLY"@[2] == 'R',
        "O_WRONLY"@.len() == 8,
        "O_WRONLY"@[2] == 'W',
        "O_RDWR"@.len() == 6,
        "O_RDWR"@[2] == 'R',
        "O_CREAT"@.len() == 7,
        "O_CREAT"@[2] == 'C',
        "O_EXCL"@.len() == 6,
        "O_EXCL"@[2] == 'E',
        "O_NOCTTY"@.len() == 8,
        "O_NOCTTY"@[2] == 'N',
        "O_TRUNC"@.len() == 7,
        "O_TRUNC"@[2] == 'T',
        "O_APPEND"@.len() == 8,
        "O_APPEND"@[2] == 'A',
        "O_NONBLOCK"@.len() == 10,
        "O_NONBLOCK"@[4] == 'N',
        "O_LARGEFILE"@.len() == 11,
        "O_LARGEFILE"@[2] == 'L',
        "O_DIRECTORY"@.len() == 11,
        "O_DIRECTORY"@[2] == 'D',
        "O_NOFOLLOW"@.len() == 10,
        "O_NOFOLLOW"@[4] == 'F',
        "O_CLOEXEC"@.len() == 9,
{
    reveal_strlit("O_RDONLY");
    reveal_strlit("O_WRONLY");
    reveal_strlit("O_RDWR");
    reveal_strlit("O_CREAT");
    reveal_strlit("O_EXCL");
    reveal_strlit("O_NOCTTY");
    reveal_strlit("O_TRUNC");
    reveal_strlit("O_APPEND");
    reveal_strlit("O_NONBLOCK");
    reveal_strlit("O_LARGEFILE");
    reveal_strlit("O_DIRECTORY");
    reveal_strlit("O_NOFOLLOW");
    reveal_strlit("O_CLOEXEC");
}

proof fn lemma_open_contains_o_rdonly(flags: u64)
    ensures
        open_flag_names(flags).contains("O_RDONLY"@) == (flags & 3 == 0),
{
    lemma_open_flag_literals();
    lemma_open_names_contains(flags, "O_RDONLY"@);
}

proof fn lemma_open_contains_o_wronly(flags: u64)
    ensures
        open_flag_names(flags).contains("O_WRONLY"@) == (flags & 3 == 1),
{
    lemma_open_flag_literals();
    lemma_open_names_contains(flags, "O_WRONLY"@);
}

proof fn lemma_open_contains_o_rdwr(flags: u64)
    ensures
        open_flag_names(flags).contains("O_RDWR"@) == (flags & 3 == 2),
{
    lemma_open_flag_literals();
    lemma_open_names_contains(flags, "O_RDWR"@);
}

proof fn lemma_open_contains_o_creat(flags: u64)
    ensures
        open_flag_names(flags).contains("O_CREAT"@) == (flags & 0x40 != 0),
{
    lemma_open_flag_literals();
    lemma_open_names_contains(flags, "O_CREAT"@);
}

proof fn lemma_open_contains_o_excl(flags: u64)
    ensures
        open_flag_names(flags).contains("O_EXCL"@) == (flags & 0x80 != 0),
{
    lemma_open_flag_literals();
    lemma_open_names_contains(flags, "O_EXCL"@);
}

proof fn lemma_open_contains_o_noctty(flags: u64)
    ensures
        open_flag_names(flags).contains("O_NOCTTY"@) == (flags & 0x200 != 0),
{
    lemma_open_flag_literals();
    lemma_open_names_contains(flags, "O_NOCTTY"@);
}

proof fn lemma_open_contains_o_trunc(flags: u64)
    ensures
        open_flag_names(flags).contains("O_TRUNC"@) == (flags & 0x400 != 0),
{
    lemma_open_flag_literals();
    lemma_open_names_contains(flags, "O_TRUNC"@);
}

proof fn lemma_open_contains_o_append(flags: u64)
    ensures
        open_flag_names(flags).contains("O_APPEND"@) == (flags & 0x800 != 0),
{
    lemma_open_flag_literals();
    lemma_open_names_contains(flags, "O_APPEND"@);
}

proof fn lemma_open_contains_o_nonblock(flags: u64)
    ensures
        open_flag_names(flags).contains("O_NONBLOCK"@) == (flags & 0x1000 != 0),
{
    lemma_open_flag_literals();
    lemma_open_names_contains(flags, "O_NONBLOCK"@);
}

proof fn lemma_open_contains_o_largefile(flags: u64)
    ensures
        open_flag_names(flags).contains("O_LARGEFILE"@) == (flags & 0x8000 != 0),
{
    lemma_open_flag_literals();
    lemma_open_names_contains(flags, "O_LARGEFILE"@);
}

proof fn lemma_open_contains_o_directory(flags: u64)
    ensures
        open_flag_names(flags).contains("O_DIRECTORY"@) == (flags & 0x10000 != 0),
{
    lemma_open_flag_literals();
    lemma_open_names_contains(flags, "O_DIRECTORY"@);
}

proof fn lemma_open_contains_o_nofollow(flags: u64)
    ensures
        open_flag_names(flags).contains("O_NOFOLLOW"@) == (flags & 0x20000 != 0),
{
    lemma_open_flag_literals();
    lemma_open_names_contains(flags, "O_NOFOLLOW"@);
}

proof fn lemma_open_contains_o_cloexec(flags: u64)
    ensures
        open_flag_names(flags).contains("O_CLOEXEC"@) == (flags & 0x80000 != 0),
{
    lemma_open_flag_literals();
    lemma_open_names_contains(flags, "O_CLOEXEC"@);
}

/// The access mode is named from the low two bits alone, first, whatever
/// the other bits; each known flag is named exactly when its own bit is set.
pub proof fn lemma_open_flag_names(flags: u64)
    ensures
        flags & 3 == 0 ==> open_flag_names(flags)[0] == "O_RDONLY"@,
        flags & 3 == 1 ==> open_flag_names(flags)[0] == "O_WRONLY"@,
        flags & 3 == 2 ==> open_flag_names(flags)[0] == "O_RDWR"@,
        open_flag_names(flags).contains("O_RDONLY"@) == (flags & 3 == 0),
        open_flag_names(flags).contains("O_WRONLY"@) == (flags & 3 == 1),
        open_flag_names(flags).contains("O_RDWR"@) == (flags & 3 == 2),
        open_flag_names(flags).contains("O_CREAT"@) == (flags & 0x40 != 0),
        open_flag_names(flags).contains("O_EXCL"@) == (flags & 0x80 != 0),
        open_flag_names(flags).contains("O_NOCTTY"@) == (flags & 0x200 != 0),
        open_flag_names(flags).contains("O_TRUNC"@) == (flags & 0x400 != 0),
        open_flag_names(flags).contains("O_APPEND"@) == (flags & 0x800 != 0),
        open_flag_names(flags).contains("O_NONBLOCK"@) == (flags & 0x1000 != 0),
        open_flag_names(flags).contains("O_LARGEFILE"@) == (flags & 0x8000 != 0),
        open_flag_names(flags).contains("O_DIRECTORY"@) == (flags & 0x10000 != 0),
        open_flag_names(flags).contains("O_NOFOLLOW"@) == (flags & 0x20000 != 0),
        open_flag_names(flags).contains("O_CLOEXEC"@) == (flags & 0x80000 != 0),
{
    lemma_open_contains_o_rdonly(flags);
    lemma_open_contains_o_wronly(flags);
    lemma_open_contains_o_rdwr(flags);
    lemma_open_contains_o_creat(flags);
    lemma_open_contains_o_excl(flags);
    lemma_open_contains_o_noctty(flags);
    lemma_open_contains_o_trunc(flags);
    lemma_open_contains_o_append(flags);
    lemma_open_contains_o_nonblock(flags);
    lemma_open_contains_o_largefile(flags);
    lemma_open_contains_o_directory(flags);
    lemma_open_contains_o_nofollow(flags);
    lemma_open_contains_o_cloexec(flags);
    lemma_open_first_name(flags);
}

proof fn lemma_open_first_name(flags: u64)
    ensures
        flags & 3 == 0 ==> same_text(open_flag_names(flags)[0], "O_RDONLY"@),
        flags & 3 == 1 ==> same_text(open_flag_names(flags)[0], "O_WRONLY"@),
        flags & 3 == 2 ==> same_text(open_flag_names(flags)[0], "O_RDWR"@),
{
    let a = access_mode_names(flags);
    if flags & 3 == 0 {
        assert(same_text(a[0], "O_RDONLY"@));
    } else if flags & 3 == 1 {
        assert(same_text(a[0], "O_WRONLY"@));
    } else if flags & 3 == 2 {
        assert(same_text(a[0], "O_RDWR"@));
    }
}

/// How `decode_open_flags` shows a flag word starts with the name of its
/// access mode, when it has one.
pub proof fn lemma_open_flags_text_starts_with_mode(flags: u64)
    ensures
        flags & 3 == 0 ==> open_flags_text(flags).take(8) == "O_RDONLY"@,
        flags & 3 == 1 ==> open_flags_text(flags).take(8) == "O_WRONLY"@,
        flags & 3 == 2 ==> open_flags_text(flags).take(6) == "O_RDWR"@,
{
    reveal_strlit("O_RDONLY");
    reveal_strlit("O_WRONLY");
    reveal_strlit("O_RDWR");
    lemma_open_flag_names(flags);
    assert(flags & 3 <= 3) by (bit_vector);
    if flags & 3 != 3 {
        assert(open_flag_names(flags).len() >= 1);
        lemma_join_starts_with_first(open_flag_names(flags), "|"@);
    }
}

/// Each protection flag is named exactly when its own bit is set; a zero
/// word is `PROT_NONE`.
pub proof fn lemma_prot_flag_names(prot: u64)
    ensures
        prot_flag_names(prot).contains("PROT_READ"@) == (prot & 0x1 != 0),
        prot_flag_names(prot).contains("PROT_WRITE"@) == (prot & 0x2 != 0),
        prot_flag_names(prot).contains("PROT_EXEC"@) == (prot & 0x4 != 0),
        prot == 0 ==> prot_flags_text(prot) == "PROT_NONE"@,
        prot != 0 && prot_flag_names(prot).len() > 0 ==> prot_flags_text(prot) == join(prot_flag_names(prot), "|"@),
{
    broadcast use vstd::seq_lib::lemma_seq_concat_contains_all_elements, lemma_name_if_contains;
    reveal_strlit("PROT_READ");
    reveal_strlit("PROT_WRITE");
    reveal_strlit("PROT_EXEC");
    assert("PROT_READ"@.len() == 9);
    assert("PROT_READ"@[5] == 'R');
    assert("PROT_WRITE"@.len() == 10);
    assert("PROT_EXEC"@.len() == 9);
    assert("PROT_EXEC"@[5] == 'E');
}

proof fn lemma_mmap_names_contains(flags: u64, x: Seq<char>)
    ensures
        mmap_flag_names(flags).contains(x) == ((flags & 0x01 != 0 && same_text(x, "MAP_SHARED"@)) || (flags & 0x02 != 0 && same_text(x, "MAP_PRIVATE"@)) || (flags & 0x10 != 0 && same_text(x, "MAP_FIXED"@)) || (flags & 0x20 != 0 && same_text(x, "MAP_ANONYMOUS"@))),
{
    lemma_name_if_contains(flags & 0x01 != 0, "MAP_SHARED"@, x);
    let q1 = name_if(flags & 0x01 != 0, "MAP_SHARED"@) + name_if(flags & 0x02 != 0, "MAP_PRIVATE"@);
    vstd::seq_lib::lemma_seq_concat_contains_all_elements(name_if(flags & 0x01 != 0, "MAP_SHARED"@), name_if(flags & 0x02 != 0, "MAP_PRIVATE"@), x);
    lemma_name_if_contains(flags & 0x02 != 0, "MAP_PRIVATE"@, x);
    let q2 = q1 + name_if(flags & 0x10 != 0, "MAP_FIXED"@);
    vstd::seq_lib::lemma_seq_concat_contains_all_elements(q1, name_if(flags & 0x10 != 0, "MAP_FIXED"@), x);
    lemma_name_if_contains(flags & 0x10 != 0, "MAP_FIXED"@, x);
    let q3 = q2 + name_if(flags & 0x20 != 0, "MAP_ANONYMOUS"@);
    vstd::seq_lib::lemma_seq_concat_contains_all_elements(q2, name_if(flags & 0x20 != 0, "MAP_ANONYMOUS"@), x);
    lemma_name_if_contains(flags & 0x20 != 0, "MAP_ANONYMOUS"@, x);
}

/// Each `mmap` flag is named exactly when its own bit is set, whatever the
/// other bits.
pub proof fn lemma_mmap_flag_names(flags: u64)
    ensures
        mmap_flag_names(flags).contains("MAP_SHARED"@) == (flags & 0x01 != 0),
        mmap_flag_names(flags).contains("MAP_PRIVATE"@) == (flags & 0x02 != 0),
        mmap_flag_names(flags).contains("MAP_FIXED"@) == (flags & 0x10 != 0),
        mmap_flag_names(flags).contains("MAP_ANONYMOUS"@) == (flags & 0x20 != 0),
        mmap_flag_names(flags).len() > 0 ==> mmap_flags_text(flags) == join(mmap_flag_names(flags), "|"@),
{
    assert(mmap_flag_names(flags).contains("MAP_SHARED"@) == (flags & 0x01 != 0)) by {
        reveal_strlit("MAP_SHARED");
        assert("MAP_SHARED"@.len() == 10);
        reveal_strlit("MAP_PRIVATE");
        assert("MAP_PRIVATE"@.len() == 11);
        reveal_strlit("MAP_FIXED");
        assert("MAP_FIXED"@.len() == 9);
        reveal_strlit("MAP_ANONYMOUS");
        assert("MAP_ANONYMOUS"@.len() == 13);
        lemma_mmap_names_contains(flags, "MAP_SHARED"@);
    }
    assert(mmap_flag_names(flags).contains("MAP_PRIVATE"@) == (flags & 0x02 != 0)) by {
        reveal_strlit("MAP_SHARED");
        assert("MAP_SHARED"@.len() == 10);
        reveal_strlit("MAP_PRIVATE");
        assert("MAP_PRIVATE"@.len() == 11);
        reveal_strlit("MAP_FIXED");
        assert("MAP_FIXED"@.len() == 9);
        reveal_strlit("MAP_ANONYMOUS");
        assert("MAP_ANONYMOUS"@.len() == 13);
        lemma_mmap_names_contains(flags, "MAP_PRIVATE"@);
    }
    assert(mmap_flag_names(flags).contains("MAP_FIXED"@) == (flags & 0x10 != 0)) by {
        reveal_strlit("MAP_SHARED");
        assert("MAP_SHARED"@.len() == 10);
        reveal_strlit("MAP_PRIVATE");
        assert("MAP_PRIVATE"@.len() == 11);
        reveal_strlit("MAP_FIXED");
        assert("MAP_FIXED"@.len() == 9);
        reveal_strlit("MAP_ANONYMOUS");
        assert("MAP_ANONYMOUS"@.len() == 13);
        lemma_mmap_names_contains(flags, "MAP_FIXED"@);
    }
    assert(mmap_flag_names(flags).contains("MAP_ANONYMOUS"@) == (flags & 0x20 != 0)) by {
        reveal_strlit("MAP_SHARED");
        assert("MAP_SHARED"@.len() == 10);
        reveal_strlit("MAP_PRIVATE");
        assert("MAP_PRIVATE"@.len() == 11);
        reveal_strlit("MAP_FIXED");
        assert("MAP_FIXED"@.len() == 9);
        reveal_strlit("MAP_ANONYMOUS");
        assert("MAP_ANONYMOUS"@.len() == 13);
        lemma_mmap_names_contains(flags, "MAP_ANONYMOUS"@);
    }
}

/// A flag word shows in hexadecimal exactly when it carries no name: an
/// `openat` word with access mode 3 and none of the known flags, an `mmap`
/// word with none of its four known flags, a nonzero protection word with
/// none of its three.
#[verifier::rlimit(50)]
pub proof fn lemma_flags_shown_in_hex(flags: u64)
    ensures
        (open_flag_names(flags).len() == 0) == (flags & 3 == 3 && flags & 0xb9ec0 == 0),
        flags & 3 == 3 && flags & 0xb9ec0 == 0 ==> open_flags_text(flags) == hex_text(flags as nat),
        (mmap_flag_names(flags).len() == 0) == (flags & 0x33 == 0),
        flags & 0x33 == 0 ==> mmap_flags_text(flags) == hex_text(flags as nat),
        (prot_flag_names(flags).len() == 0) == (flags & 0x7 == 0),
        flags != 0 && flags & 0x7 == 0 ==> prot_flags_text(flags) == hex_text(flags as nat),
{
    assert(flags & 3 <= 3) by (bit_vector);
    assert(access_mode_names(flags).len() == 0 <==> flags & 3 == 3);
    assert((flags & 3 == 3 && flags & 0xb9ec0 == 0) == (flags & 3 == 3 && flags & 0x40 == 0 && flags & 0x80 == 0
        && flags & 0x200 == 0 && flags & 0x400 == 0 && flags & 0x800 == 0 && flags & 0x1000 == 0
        && flags & 0x8000 == 0 && flags & 0x10000 == 0 && flags & 0x20000 == 0 && flags & 0x80000 == 0))
        by (bit_vector);
    assert((flags & 0x33 == 0) == (flags & 0x01 == 0 && flags & 0x02 == 0 && flags & 0x10 == 0 && flags & 0x20
        == 0)) by (bit_vector);
    assert((flags & 0x7 == 0) == (flags & 0x1 == 0 && flags & 0x2 == 0 && flags & 0x4 == 0)) by (bit_vector);
}

} // verus!
