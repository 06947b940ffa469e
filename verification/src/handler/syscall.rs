//! The line shown for a system call: its name and decoded arguments at
//! entry, and its result at exit.
//!
//! Some arguments point into the tracee's memory; those are rendered
//! through the word-read protocol of [`crate::ptrace::mm`], so the functions
//! here answer with a [`Probe`] too.
use vstd::prelude::*;
use crate::decoder::syscalls::{
    decode_dirfd, decode_mmap_flags, decode_open_flags, decode_prot_flags, dirfd_text,
    mmap_flags_text, open_flags_text, prot_flags_text,
};
use crate::ptrace::mm::{
    buffer_outcome, buffer_step, buffer_words, c_string_outcome, c_string_step, lemma_buffer_reads_bounded,
    lemma_c_string_reads_bounded, Probe, ProbeView,
};
use crate::text::{
    append_hex, append_i64, append_str, append_u64, dec_text, hex_text, join, join_strings, lemma_dec_text_value,
    signed_decimal_value,
};

verus! {

/// The general-purpose registers `x0`–`x30` of a tracee stopped at a
/// system call: `x8` holds the call's number, `x0`–`x5` its arguments,
/// and `x0` its result at exit.
pub struct Registers {
    pub regs: [u64; 31],
}

/// The name that the AArch64 table of `syscall-numbers` gives a system
/// call number, if any.
pub uninterp spec fn aarch64_syscall_name(nr: i64) -> Option<Seq<char>>;

/// `syscall_numbers::aarch64::sys_call_name`: the name of a system call
/// number in the crate's AArch64 table. Its result is named by
/// `aarch64_syscall_name`; the table itself is left unsaid.
#[verifier::external_body]
pub(crate) fn sys_call_name(nr: i64) -> (name: Option<&'static str>)
    ensures
        name.deep_view() == aarch64_syscall_name(nr),
{
    syscall_numbers::aarch64::sys_call_name(nr)
}

/// Whether two string slices hold the same text.
fn str_eq(a: &str, b: &str) -> (r: bool)
    ensures
        r == (a@ == b@),
{
    a.to_owned() == b.to_owned()
}

/// The system call number held in `x8`, read as signed.
pub open spec fn syscall_number(regs: Seq<u64>) -> i64 {
    regs[8] as i64
}

/// The first three arguments in hexadecimal, separated by `, `.
pub open spec fn three_hex_args(regs: Seq<u64>) -> Seq<char> {
    hex_text(regs[0] as nat) + ", "@ + hex_text(regs[1] as nat) + ", "@ + hex_text(regs[2] as nat)
}

/// The entry line of a call whose number has no name.
pub open spec fn unknown_entry_text(regs: Seq<u64>) -> Seq<char> {
    "syscall_"@ + dec_text(syscall_number(regs) as int) + "("@ + three_hex_args(regs) + ")"@
}

/// An address argument: `NULL` for zero, else hexadecimal.
pub open spec fn null_or_hex(x: u64) -> Seq<char> {
    if x == 0 { "NULL"@ } else { hex_text(x as nat) }
}

/// An `ioctl` request: its name for the terminal requests known here, else
/// hexadecimal.
pub open spec fn ioctl_request_text(request: u64) -> Seq<char> {
    if request == 0x5413 {
        "TIOCGWINSZ"@
    } else if request == 0x5401 {
        "TCGETS"@
    } else if request == 0x5402 {
        "TCSETS"@
    } else {
        hex_text(request as nat)
    }
}

/// An `fcntl` command: its name for commands 0 to 4, else decimal.
pub open spec fn fcntl_cmd_text(cmd: u64) -> Seq<char> {
    if cmd == 0 {
        "F_DUPFD"@
    } else if cmd == 1 {
        "F_GETFD"@
    } else if cmd == 2 {
        "F_SETFD"@
    } else if cmd == 3 {
        "F_GETFL"@
    } else if cmd == 4 {
        "F_SETFL"@
    } else {
        dec_text(cmd as int)
    }
}

/// An `fcntl` argument: `FD_CLOEXEC` when `F_SETFD` sets it, else hexadecimal.
pub open spec fn fcntl_arg_text(cmd: u64, arg: u64) -> Seq<char> {
    if cmd == 2 && arg == 1 { "FD_CLOEXEC"@ } else { hex_text(arg as nat) }
}

/// An `lseek` origin.
pub open spec fn whence_text(whence: u64) -> Seq<char> {
    if whence == 0 {
        "SEEK_SET"@
    } else if whence == 1 {
        "SEEK_CUR"@
    } else if whence == 2 {
        "SEEK_END"@
    } else {
        "SEEK_UNKNOWN"@
    }
}

/// The entry line of a named call that needs no memory read.
pub open spec fn plain_entry_text(regs: Seq<u64>, name: Seq<char>) -> Seq<char> {
    if name == "read"@ {
        "read("@ + dec_text(regs[0] as int)
    } else if name == "getdents64"@ {
        "getdents64("@ + dec_text(regs[0] as int) + ", "@ + hex_text(regs[1] as nat) + ", "@
            + dec_text(regs[2] as int) + ")"@
    } else if name == "ioctl"@ {
        "ioctl("@ + dec_text(regs[0] as int) + ", "@ + ioctl_request_text(regs[1]) + ", "@
            + hex_text(regs[2] as nat) + ")"@
    } else if name == "fcntl"@ {
        "fcntl("@ + dec_text(regs[0] as int) + ", "@ + fcntl_cmd_text(regs[1]) + ", "@
            + fcntl_arg_text(regs[1], regs[2]) + ")"@
    } else if name == "close"@ {
        "close("@ + dec_text(regs[0] as int) + ")"@
    } else if name == "lseek"@ {
        "lseek("@ + dec_text(regs[0] as int) + ", "@ + dec_text((regs[1] as i64) as int) + ", "@
            + whence_text(regs[2]) + ")"@
    } else if name == "mmap"@ {
        "mmap("@ + null_or_hex(regs[0]) + ", "@ + dec_text(regs[1] as int) + ", "@
            + prot_flags_text(regs[2]) + ", "@ + mmap_flags_text(regs[3]) + ", "@
            + dec_text((regs[4] as i32) as int) + ", "@ + dec_text(regs[5] as int) + ")"@
    } else if name == "mprotect"@ {
        "mprotect("@ + hex_text(regs[0] as nat) + ", "@ + dec_text(regs[1] as int) + ", "@
            + prot_flags_text(regs[2]) + ")"@
    } else if name == "munmap"@ {
        "munmap("@ + hex_text(regs[0] as nat) + ", "@ + dec_text(regs[1] as int) + ")"@
    } else if name == "brk"@ {
        "brk("@ + null_or_hex(regs[0]) + ")"@
    } else {
        name + "("@ + three_hex_args(regs) + ")"@
    }
}

/// A finished rendering put between `before` and `after`; a request for a
/// read passes through.
pub open spec fn wrap(p: ProbeView, before: Seq<char>, after: Seq<char>) -> ProbeView {
    match p {
        ProbeView::Done(s) => ProbeView::Done(before + s + after),
        ProbeView::Peek(a) => ProbeView::Peek(a),
        ProbeView::Overflow => ProbeView::Overflow,
    }
}

/// The outcome of rendering a list of pieces from memory.
pub enum ListView {
    Peek(u64),
    Overflow,
    Done(Seq<Seq<char>>),
}

/// `pieces` put in front of a finished list.
pub open spec fn prepend_all(pieces: Seq<Seq<char>>, l: ListView) -> ListView {
    match l {
        ListView::Done(rest) => ListView::Done(pieces + rest),
        ListView::Peek(a) => ListView::Peek(a),
        ListView::Overflow => ListView::Overflow,
    }
}

/// How one `iovec` shows.
pub open spec fn iovec_text(content: Seq<char>, len: u64) -> Seq<char> {
    "{iov_base="@ + content + ", iov_len="@ + dec_text(len as int) + "}"@
}

/// The `iovec` entries `i` to `n - 1` of the array at `iov`, from the word
/// reads `reads`.
///
/// Entry `i` lies 16 bytes after entry `i - 1`; its base and length are
/// read from its first and second word, then the buffer it describes. An
/// entry whose base or length cannot be read is left out.
pub open spec fn iovecs_from(iov: u64, n: nat, i: nat, reads: Seq<Option<u64>>) -> ListView
    decreases n - i,
{
    if i >= n {
        ListView::Done(Seq::empty())
    } else if iov + 16 * i > u64::MAX {
        ListView::Overflow
    } else if reads.len() == 0 {
        ListView::Peek((iov + 16 * i) as u64)
    } else if reads[0] is None {
        iovecs_from(iov, n, i + 1, reads.drop_first())
    } else if iov + 16 * i + 8 > u64::MAX {
        ListView::Overflow
    } else if reads.len() == 1 {
        ListView::Peek((iov + 16 * i + 8) as u64)
    } else if reads[1] is None {
        iovecs_from(iov, n, i + 1, reads.skip(2))
    } else {
        let base = reads[0]->0;
        let len = reads[1]->0;
        let (p, used) = buffer_outcome(base, len as nat, reads.skip(2));
        match p {
            ProbeView::Done(content) => prepend_all(
                seq![iovec_text(content, len)],
                iovecs_from(iov, n, i + 1, reads.skip(2 + used as int)),
            ),
            ProbeView::Peek(a) => ListView::Peek(a),
            ProbeView::Overflow => ListView::Overflow,
        }
    }
}

/// The entry outcome of `writev`: at most its first three `iovec`s, or the
/// array's address when none of them could be read.
pub open spec fn writev_outcome(regs: Seq<u64>, reads: Seq<Option<u64>>) -> ProbeView {
    let n: nat = if regs[2] < 3 { regs[2] as nat } else { 3 };
    match iovecs_from(regs[1], n, 0, reads) {
        ListView::Done(entries) => ProbeView::Done(
            if entries.len() > 0 {
                "writev("@ + dec_text(regs[0] as int) + ", ["@ + join(entries, ", "@) + "], "@
                    + dec_text(regs[2] as int) + ")"@
            } else {
                "writev("@ + dec_text(regs[0] as int) + ", "@ + hex_text(regs[1] as nat) + ", "@
                    + dec_text(regs[2] as int) + ")"@
            },
        ),
        ListView::Peek(a) => ProbeView::Peek(a),
        ListView::Overflow => ProbeView::Overflow,
    }
}

/// The outcome of rendering the entry line of a system call, given the
/// name of its number and the word reads made so far.
pub open spec fn entry_outcome(regs: Seq<u64>, name: Option<Seq<char>>, reads: Seq<Option<u64>>) -> ProbeView {
    match name {
        None => ProbeView::Done(unknown_entry_text(regs)),
        Some(n) => if n == "write"@ {
            wrap(
                buffer_outcome(regs[1], regs[2] as nat, reads).0,
                "write("@ + dec_text(regs[0] as int) + ", "@,
                ", "@ + dec_text(regs[2] as int) + ")"@,
            )
        } else if n == "writev"@ {
            writev_outcome(regs, reads)
        } else if n == "execve"@ {
            wrap(
                c_string_outcome(regs[0], 256, reads).0,
                "execve("@,
                ", "@ + hex_text(regs[1] as nat) + ", "@ + hex_text(regs[2] as nat) + ")"@,
            )
        } else if n == "openat"@ {
            wrap(
                c_string_outcome(regs[1], 256, reads).0,
                "openat("@ + dirfd_text(regs[0]) + ", "@,
                ", "@ + open_flags_text(regs[2]) + ")"@,
            )
        } else if n == "newfstatat"@ {
            wrap(
                c_string_outcome(regs[1], 256, reads).0,
                "newfstatat("@ + dirfd_text(regs[0]) + ", "@,
                ", "@ + hex_text(regs[2] as nat) + ", "@ + dec_text(regs[3] as int) + ")"@,
            )
        } else {
            ProbeView::Done(plain_entry_text(regs, n))
        },
    }
}

/// The outcome of rendering the exit part of a system call line, given the
/// name of its number, the arguments kept from a `read` entry
/// (descriptor, buffer, count), and the word reads made so far.
///
/// A `read` shows the buffer it filled, or the buffer's address when
/// nothing was read; every call then shows ` = ` and its result.
pub open spec fn exit_outcome(
    regs: Seq<u64>,
    name: Option<Seq<char>>,
    read_params: (u64, u64, u64),
    reads: Seq<Option<u64>>,
) -> ProbeView {
    let retval = regs[0] as i64;
    if name == Some("read"@) {
        if retval > 0 {
            wrap(
                buffer_outcome(read_params.1, retval as nat, reads).0,
                Seq::empty(),
                ", "@ + dec_text(read_params.2 as int) + ") = "@ + dec_text(retval as int),
            )
        } else {
            ProbeView::Done(
                hex_text(read_params.1 as nat) + ", "@ + dec_text(read_params.2 as int) + ") = "@
                    + dec_text(retval as int),
            )
        }
    } else {
        ProbeView::Done(" = "@ + dec_text(retval as int))
    }
}

/// A finished rendering put between `before` and `after`.
fn wrap_probe(p: Probe, before: String, after: String) -> (r: Probe)
    ensures
        r@ == wrap(p@, before@, after@),
{
    match p {
        Probe::Done(s) => {
            let mut out = before;
            append_str(&mut out, s.as_str());
            append_str(&mut out, after.as_str());
            Probe::Done(out)
        },
        Probe::Peek(a) => Probe::Peek(a),
        Probe::Overflow => Probe::Overflow,
    }
}

/// Appends `NULL` for zero, else the address in hexadecimal.
fn append_null_or_hex(out: &mut String, x: u64)
    ensures
        final(out)@ == old(out)@ + null_or_hex(x),
{
    if x == 0 {
        append_str(out, "NULL");
    } else {
        append_hex(out, x);
    }
}

/// Appends the first three arguments in hexadecimal.
fn append_three_hex_args(out: &mut String, regs: &Registers)
    ensures
        final(out)@ == old(out)@ + three_hex_args(regs.regs@),
{
    append_hex(out, regs.regs[0]);
    append_str(out, ", ");
    append_hex(out, regs.regs[1]);
    append_str(out, ", ");
    append_hex(out, regs.regs[2]);
    assert(out@ =~= old(out)@ + three_hex_args(regs.regs@));
}

/// Appends an `ioctl` request.
fn append_ioctl_request(out: &mut String, request: u64)
    ensures
        final(out)@ == old(out)@ + ioctl_request_text(request),
{
    if request == 0x5413 {
        append_str(out, "TIOCGWINSZ");
    } else if request == 0x5401 {
        append_str(out, "TCGETS");
    } else if request == 0x5402 {
        append_str(out, "TCSETS");
    } else {
        append_hex(out, request);
    }
}

/// Appends an `fcntl` command.
fn append_fcntl_cmd(out: &mut String, cmd: u64)
    ensures
        final(out)@ == old(out)@ + fcntl_cmd_text(cmd),
{
    if cmd == 0 {
        append_str(out, "F_DUPFD");
    } else if cmd == 1 {
        append_str(out, "F_GETFD");
    } else if cmd == 2 {
        append_str(out, "F_SETFD");
    } else if cmd == 3 {
        append_str(out, "F_GETFL");
    } else if cmd == 4 {
        append_str(out, "F_SETFL");
    } else {
        append_u64(out, cmd);
    }
}

/// Appends an `lseek` origin.
fn append_whence(out: &mut String, whence: u64)
    ensures
        final(out)@ == old(out)@ + whence_text(whence),
{
    if whence == 0 {
        append_str(out, "SEEK_SET");
    } else if whence == 1 {
        append_str(out, "SEEK_CUR");
    } else if whence == 2 {
        append_str(out, "SEEK_END");
    } else {
        append_str(out, "SEEK_UNKNOWN");
    }
}

/// The entry line of a named call that needs no memory read.
fn plain_entry(regs: &Registers, name: &str) -> (s: String)
    ensures
        s@ == plain_entry_text(regs.regs@, name@),
{
    let r = &regs.regs;
    let mut s = String::new();
    if str_eq(name, "read") {
        append_str(&mut s, "read(");
        append_u64(&mut s, r[0]);
    } else if str_eq(name, "getdents64") {
        append_str(&mut s, "getdents64(");
        append_u64(&mut s, r[0]);
        append_str(&mut s, ", ");
        append_hex(&mut s, r[1]);
        append_str(&mut s, ", ");
        append_u64(&mut s, r[2]);
        append_str(&mut s, ")");
    } else if str_eq(name, "ioctl") {
        append_str(&mut s, "ioctl(");
        append_u64(&mut s, r[0]);
        append_str(&mut s, ", ");
        append_ioctl_request(&mut s, r[1]);
        append_str(&mut s, ", ");
        append_hex(&mut s, r[2]);
        append_str(&mut s, ")");
    } else if str_eq(name, "fcntl") {
        append_str(&mut s, "fcntl(");
        append_u64(&mut s, r[0]);
        append_str(&mut s, ", ");
        append_fcntl_cmd(&mut s, r[1]);
        append_str(&mut s, ", ");
        if r[1] == 2 && r[2] == 1 {
            append_str(&mut s, "FD_CLOEXEC");
        } else {
            append_hex(&mut s, r[2]);
        }
        append_str(&mut s, ")");
    } else if str_eq(name, "close") {
        append_str(&mut s, "close(");
        append_u64(&mut s, r[0]);
        append_str(&mut s, ")");
    } else if str_eq(name, "lseek") {
        append_str(&mut s, "lseek(");
        append_u64(&mut s, r[0]);
        append_str(&mut s, ", ");
        #[verifier::truncate]
        let offset: i64 = r[1] as i64;
        append_i64(&mut s, offset);
        append_str(&mut s, ", ");
        append_whence(&mut s, r[2]);
        append_str(&mut s, ")");
    } else if str_eq(name, "mmap") {
        append_str(&mut s, "mmap(");
        append_null_or_hex(&mut s, r[0]);
        append_str(&mut s, ", ");
        append_u64(&mut s, r[1]);
        append_str(&mut s, ", ");
        let prot = decode_prot_flags(r[2]);
        append_str(&mut s, prot.as_str());
        append_str(&mut s, ", ");
        let flags = decode_mmap_flags(r[3]);
        append_str(&mut s, flags.as_str());
        append_str(&mut s, ", ");
        #[verifier::truncate]
        let fd: i32 = r[4] as i32;
        append_i64(&mut s, fd as i64);
        append_str(&mut s, ", ");
        append_u64(&mut s, r[5]);
        append_str(&mut s, ")");
    } else if str_eq(name, "mprotect") {
        append_str(&mut s, "mprotect(");
        append_hex(&mut s, r[0]);
        append_str(&mut s, ", ");
        append_u64(&mut s, r[1]);
        append_str(&mut s, ", ");
        let prot = decode_prot_flags(r[2]);
        append_str(&mut s, prot.as_str());
        append_str(&mut s, ")");
    } else if str_eq(name, "munmap") {
        append_str(&mut s, "munmap(");
        append_hex(&mut s, r[0]);
        append_str(&mut s, ", ");
        append_u64(&mut s, r[1]);
        append_str(&mut s, ")");
    } else if str_eq(name, "brk") {
        append_str(&mut s, "brk(");
        append_null_or_hex(&mut s, r[0]);
        append_str(&mut s, ")");
    } else {
        append_str(&mut s, name);
        append_str(&mut s, "(");
        append_three_hex_args(&mut s, regs);
        append_str(&mut s, ")");
    }
    assert(s@ =~= plain_entry_text(regs.regs@, name@));
    s
}

/// The outcome of rendering a list of pieces from memory.
enum Listing {
    Peek(u64),
    Overflow,
    Done(Vec<String>),
}

impl View for Listing {
    type V = ListView;

    closed spec fn view(&self) -> ListView {
        match self {
            Listing::Peek(a) => ListView::Peek(*a),
            Listing::Overflow => ListView::Overflow,
            Listing::Done(v) => ListView::Done(v@.map_values(|p: String| p@)),
        }
    }
}

proof fn lemma_prepend_all_assoc(a: Seq<Seq<char>>, b: Seq<Seq<char>>, l: ListView)
    ensures
        prepend_all(a, prepend_all(b, l)) == prepend_all(a + b, l),
{
    if let ListView::Done(rest) = l {
        assert(a + (b + rest) =~= (a + b) + rest);
    }
}

/// How one `iovec` shows.
fn iovec_entry(content: &str, len: u64) -> (s: String)
    ensures
        s@ == iovec_text(content@, len),
{
    let mut s = String::new();
    append_str(&mut s, "{iov_base=");
    append_str(&mut s, content);
    append_str(&mut s, ", iov_len=");
    append_u64(&mut s, len);
    append_str(&mut s, "}");
    assert(s@ =~= iovec_text(content@, len));
    s
}

/// What reading one `iovec` entry comes to.
enum IovecRead {
    Peek(u64),
    Overflow,
    /// The entry is left out; the reads for the next one start here.
    Skip(usize),
    /// The entry's text; the reads for the next one start here.
    Entry(String, usize),
}

/// Reads entry `i` of the `iovec` array at `iov` from the reads from
/// position `pos` on.
fn iovec_at(iov: u64, n: u64, i: u64, reads: &Vec<Option<u64>>, pos: usize) -> (r: IovecRead)
    requires
        i < n,
        pos <= reads.len(),
    ensures
        match r {
            IovecRead::Peek(a) => iovecs_from(iov, n as nat, i as nat, reads@.skip(pos as int))
                == ListView::Peek(a),
            IovecRead::Overflow => iovecs_from(iov, n as nat, i as nat, reads@.skip(pos as int))
                == ListView::Overflow,
            IovecRead::Skip(next) => pos < next <= reads.len()
                && iovecs_from(iov, n as nat, i as nat, reads@.skip(pos as int))
                == iovecs_from(iov, n as nat, (i + 1) as nat, reads@.skip(next as int)),
            IovecRead::Entry(e, next) => pos < next <= reads.len()
                && iovecs_from(iov, n as nat, i as nat, reads@.skip(pos as int))
                == prepend_all(seq![e@], iovecs_from(iov, n as nat, (i + 1) as nat, reads@.skip(next as int))),
        },
{
    let ghost rest = reads@.skip(pos as int);
    let entry_at = (iov as u128) + 16 * (i as u128);
    if entry_at > u64::MAX as u128 {
        return IovecRead::Overflow;
    }
    let entry_addr = entry_at as u64;
    if pos == reads.len() {
        return IovecRead::Peek(entry_addr);
    }
    assert(rest[0] == reads@[pos as int]);
    match reads[pos] {
        None => {
            assert(rest.drop_first() =~= reads@.skip(pos + 1));
            IovecRead::Skip(pos + 1)
        },
        Some(base) => {
            if entry_at + 8 > u64::MAX as u128 {
                return IovecRead::Overflow;
            }
            if pos + 1 == reads.len() {
                return IovecRead::Peek(entry_addr + 8);
            }
            assert(rest[1] == reads@[pos + 1]);
            assert(rest.skip(2) =~= reads@.skip(pos + 2));
            match reads[pos + 1] {
                None => IovecRead::Skip(pos + 2),
                Some(len) => {
                    let (p, used) = buffer_step(base, len, reads, pos + 2);
                    match p {
                        Probe::Done(content) => {
                            assert(rest.skip(2 + used as int) =~= reads@.skip(pos + 2 + used));
                            IovecRead::Entry(iovec_entry(content.as_str(), len), pos + 2 + used)
                        },
                        Probe::Peek(a) => IovecRead::Peek(a),
                        Probe::Overflow => IovecRead::Overflow,
                    }
                },
            }
        },
    }
}

/// The first `n` `iovec` entries of the array at `iov`, from the word
/// reads made so far.
fn iovecs(iov: u64, n: u64, reads: &Vec<Option<u64>>) -> (l: Listing)
    ensures
        l@ == iovecs_from(iov, n as nat, 0, reads@),
{
    let mut entries: Vec<String> = Vec::new();
    let mut i: u64 = 0;
    let mut pos: usize = 0;
    assert(reads@.skip(0) =~= reads@);
    assert(entries@.map_values(|p: String| p@) =~= Seq::<Seq<char>>::empty());
    while i < n
        invariant
            i <= n,
            pos <= reads.len(),
            iovecs_from(iov, n as nat, 0, reads@) == prepend_all(
                entries@.map_values(|p: String| p@),
                iovecs_from(iov, n as nat, i as nat, reads@.skip(pos as int)),
            ),
        decreases n - i,
    {
        let ghost done = entries@.map_values(|p: String| p@);
        match iovec_at(iov, n, i, reads, pos) {
            IovecRead::Peek(a) => {
                return Listing::Peek(a);
            },
            IovecRead::Overflow => {
                return Listing::Overflow;
            },
            IovecRead::Skip(next) => {
                pos = next;
            },
            IovecRead::Entry(e, next) => {
                let ghost text = e@;
                proof {
                    lemma_prepend_all_assoc(
                        done,
                        seq![text],
                        iovecs_from(iov, n as nat, (i + 1) as nat, reads@.skip(next as int)),
                    );
                }
                entries.push(e);
                assert(entries@.map_values(|p: String| p@) =~= done + seq![text]);
                pos = next;
            },
        }
        i = i + 1;
    }
    assert(entries@.map_values(|p: String| p@) + Seq::<Seq<char>>::empty() =~= entries@.map_values(|p: String| p@));
    Listing::Done(entries)
}

/// The entry outcome of `writev`.
fn writev_entry(regs: &Registers, reads: &Vec<Option<u64>>) -> (p: Probe)
    ensures
        p@ == writev_outcome(regs.regs@, reads@),
{
    let r = &regs.regs;
    let n: u64 = if r[2] < 3 { r[2] } else { 3 };
    match iovecs(r[1], n, reads) {
        Listing::Done(entries) => {
            let mut s = String::new();
            append_str(&mut s, "writev(");
            append_u64(&mut s, r[0]);
            append_str(&mut s, ", ");
            if entries.len() > 0 {
                append_str(&mut s, "[");
                let joined = join_strings(&entries, ", ");
                append_str(&mut s, joined.as_str());
                append_str(&mut s, "]");
            } else {
                append_hex(&mut s, r[1]);
            }
            append_str(&mut s, ", ");
            append_u64(&mut s, r[2]);
            append_str(&mut s, ")");
            proof {
                reveal_strlit(", [");
                reveal_strlit(", ");
                reveal_strlit("[");
                reveal_strlit("], ");
                reveal_strlit("]");
            }
            assert(s@ =~= match writev_outcome(regs.regs@, reads@) { ProbeView::Done(t) => t, _ => s@ });
            Probe::Done(s)
        },
        Listing::Peek(a) => Probe::Peek(a),
        Listing::Overflow => Probe::Overflow,
    }
}

/// Renders the entry line of a system call whose number has the name
/// `name` (none when the number has no name), from the results of the word
/// reads made so far.
///
/// Unnamed calls show as `syscall_<number>(a, b, c)` with the first three
/// arguments in hexadecimal. `write`, `writev`, `execve`, `openat` and
/// `newfstatat` show the buffers and paths they point to; the flags of
/// `openat`, `mmap` and `mprotect`, the requests of `ioctl` and `fcntl`,
/// the origin of `lseek` and the directory of `openat` and `newfstatat`
/// show by name; every other named call shows its first three arguments in
/// hexadecimal.
pub fn format_syscall_entry(regs: &Registers, name: Option<&str>, reads: &Vec<Option<u64>>) -> (p: Probe)
    ensures
        p@ == entry_outcome(regs.regs@, name.deep_view(), reads@),
{
    let r = &regs.regs;
    match name {
        None => {
            let mut s = String::new();
            append_str(&mut s, "syscall_");
            #[verifier::truncate]
            let nr: i64 = r[8] as i64;
            append_i64(&mut s, nr);
            append_str(&mut s, "(");
            append_three_hex_args(&mut s, regs);
            append_str(&mut s, ")");
            assert(s@ =~= unknown_entry_text(regs.regs@));
            Probe::Done(s)
        },
        Some(n) => {
            if str_eq(n, "write") {
                let (content, _) = buffer_step(r[1], r[2], reads, 0);
                assert(reads@.skip(0) =~= reads@);
                let mut before = String::new();
                append_str(&mut before, "write(");
                append_u64(&mut before, r[0]);
                append_str(&mut before, ", ");
                let mut after = String::new();
                append_str(&mut after, ", ");
                append_u64(&mut after, r[2]);
                append_str(&mut after, ")");
                assert(before@ =~= "write("@ + dec_text(r[0] as int) + ", "@);
                assert(after@ =~= ", "@ + dec_text(r[2] as int) + ")"@);
                wrap_probe(content, before, after)
            } else if str_eq(n, "writev") {
                writev_entry(regs, reads)
            } else if str_eq(n, "execve") {
                let (path, _) = c_string_step(r[0], 256, reads, 0);
                assert(reads@.skip(0) =~= reads@);
                let before = "execve(".to_owned();
                let mut after = String::new();
                append_str(&mut after, ", ");
                append_hex(&mut after, r[1]);
                append_str(&mut after, ", ");
                append_hex(&mut after, r[2]);
                append_str(&mut after, ")");
                assert(after@ =~= ", "@ + hex_text(r[1] as nat) + ", "@ + hex_text(r[2] as nat) + ")"@);
                wrap_probe(path, before, after)
            } else if str_eq(n, "openat") {
                let (path, _) = c_string_step(r[1], 256, reads, 0);
                assert(reads@.skip(0) =~= reads@);
                let mut before = String::new();
                append_str(&mut before, "openat(");
                let dfd = decode_dirfd(r[0]);
                append_str(&mut before, dfd.as_str());
                append_str(&mut before, ", ");
                let mut after = String::new();
                append_str(&mut after, ", ");
                let flags = decode_open_flags(r[2]);
                append_str(&mut after, flags.as_str());
                append_str(&mut after, ")");
                assert(before@ =~= "openat("@ + dirfd_text(r[0]) + ", "@);
                assert(after@ =~= ", "@ + open_flags_text(r[2]) + ")"@);
                wrap_probe(path, before, after)
            } else if str_eq(n, "newfstatat") {
                let (path, _) = c_string_step(r[1], 256, reads, 0);
                assert(reads@.skip(0) =~= reads@);
                let mut before = String::new();
                append_str(&mut before, "newfstatat(");
                let dfd = decode_dirfd(r[0]);
                append_str(&mut before, dfd.as_str());
                append_str(&mut before, ", ");
                let mut after = String::new();
                append_str(&mut after, ", ");
                append_hex(&mut after, r[2]);
                append_str(&mut after, ", ");
                append_u64(&mut after, r[3]);
                append_str(&mut after, ")");
                assert(before@ =~= "newfstatat("@ + dirfd_text(r[0]) + ", "@);
                assert(after@ =~= ", "@ + hex_text(r[2] as nat) + ", "@ + dec_text(r[3] as int) + ")"@);
                wrap_probe(path, before, after)
            } else {
                Probe::Done(plain_entry(regs, n))
            }
        },
    }
}

/// Renders the entry line of the system call whose number is in `x8`,
/// looking its name up in the AArch64 table, from the results of the word
/// reads made so far.
pub fn handle_syscall_entry(regs: &Registers, reads: &Vec<Option<u64>>) -> (p: Probe)
    ensures
        p@ == entry_outcome(regs.regs@, aarch64_syscall_name(syscall_number(regs.regs@)), reads@),
{
    #[verifier::truncate]
    let nr: i64 = regs.regs[8] as i64;
    let name = sys_call_name(nr);
    format_syscall_entry(regs, name, reads)
}

/// Renders the exit part of a system call line (what follows the entry
/// line) for a call whose number has the name `name`, given the arguments
/// kept from a `read` entry and the results of the word reads made so far.
pub fn format_syscall_exit(
    regs: &Registers,
    name: Option<&str>,
    read_params: (u64, u64, u64),
    reads: &Vec<Option<u64>>,
) -> (p: Probe)
    ensures
        p@ == exit_outcome(regs.regs@, name.deep_view(), read_params, reads@),
{
    #[verifier::truncate]
    let retval: i64 = regs.regs[0] as i64;
    let is_read = match name {
        Some(n) => str_eq(n, "read"),
        None => false,
    };
    assert(is_read == (name.deep_view() == Some("read"@)));
    if is_read {
        let (_fd, buf_addr, count) = read_params;
        let mut tail = String::new();
        append_str(&mut tail, ", ");
        append_u64(&mut tail, count);
        append_str(&mut tail, ") = ");
        append_i64(&mut tail, retval);
        if retval > 0 {
            let (content, _) = buffer_step(buf_addr, retval as u64, reads, 0);
            assert(reads@.skip(0) =~= reads@);
            let empty = String::new();
            assert(empty@ =~= Seq::<char>::empty());
            assert(tail@ =~= ", "@ + dec_text(read_params.2 as int) + ") = "@ + dec_text(retval as int));
            wrap_probe(content, empty, tail)
        } else {
            let mut s = String::new();
            append_hex(&mut s, buf_addr);
            append_str(&mut s, tail.as_str());
            assert(s@ =~= hex_text(read_params.1 as nat) + ", "@ + dec_text(read_params.2 as int) + ") = "@
                + dec_text(retval as int));
            Probe::Done(s)
        }
    } else {
        let mut s = String::new();
        append_str(&mut s, " = ");
        append_i64(&mut s, retval);
        assert(s@ =~= " = "@ + dec_text(retval as int));
        Probe::Done(s)
    }
}

/// Renders the exit part of the line of the system call whose number is
/// in `x8`, looking its name up in the AArch64 table.
pub fn handle_syscall_exit(regs: &Registers, read_params: (u64, u64, u64), reads: &Vec<Option<u64>>) -> (p: Probe)
    ensures
        p@ == exit_outcome(regs.regs@, aarch64_syscall_name(syscall_number(regs.regs@)), read_params, reads@),
{
    #[verifier::truncate]
    let nr: i64 = regs.regs[8] as i64;
    let name = sys_call_name(nr);
    format_syscall_exit(regs, name, read_params, reads)
}

/// For every call but `read`, the exit part is ` = ` and the decimal text
/// of the whole 64-bit `x0` read as a signed number: the number read back
/// after ` = ` is `x0` as `i64`, for every value of the register.
pub proof fn lemma_exit_shows_whole_result(
    regs: Seq<u64>,
    name: Option<Seq<char>>,
    read_params: (u64, u64, u64),
    reads: Seq<Option<u64>>,
)
    requires
        name != Some("read"@),
    ensures
        exit_outcome(regs, name, read_params, reads) == ProbeView::Done(" = "@ + dec_text((regs[0] as i64) as int)),
        exit_outcome(regs, name, read_params, reads) matches ProbeView::Done(t) && t.take(3) == " = "@
            && signed_decimal_value(t.skip(3)) == regs[0] as i64,
{
    reveal_strlit(" = ");
    let d = dec_text((regs[0] as i64) as int);
    lemma_dec_text_value((regs[0] as i64) as int);
    assert((" = "@ + d).take(3) =~= " = "@);
    assert((" = "@ + d).skip(3) =~= d);
}

/// Whatever the call, a finished exit part ends with ` = ` and the decimal
/// text of the whole 64-bit `x0` read as a signed number.
pub proof fn lemma_exit_ends_with_result(
    regs: Seq<u64>,
    name: Option<Seq<char>>,
    read_params: (u64, u64, u64),
    reads: Seq<Option<u64>>,
)
    ensures
        exit_outcome(regs, name, read_params, reads) matches ProbeView::Done(t) ==> {
            let suffix = " = "@ + dec_text((regs[0] as i64) as int);
            &&& t.len() >= suffix.len()
            &&& t.skip(t.len() - suffix.len()) == suffix
        },
{
    reveal_strlit(" = ");
    reveal_strlit(") = ");
    let v = regs[0] as i64;
    let d = dec_text(v as int);
    let suffix = " = "@ + d;
    if name == Some("read"@) {
        if let ProbeView::Done(t) = exit_outcome(regs, name, read_params, reads) {
            let x: Seq<char> = if v > 0 {
                let c = buffer_outcome(read_params.1, v as nat, reads).0->Done_0;
                Seq::<char>::empty() + c + ", "@ + dec_text(read_params.2 as int)
            } else {
                hex_text(read_params.1 as nat) + ", "@ + dec_text(read_params.2 as int)
            };
            assert(t =~= x + ") = "@ + d);
            assert(t.skip(t.len() - suffix.len()) =~= suffix);
        }
    } else {
        assert(suffix.skip(0) =~= suffix);
    }
}

/// The `ioctl` requests that show by name are the terminal requests in the
/// kernel's numbering: `TCGETS` is 0x5401, `TCSETS` 0x5402 and
/// `TIOCGWINSZ` 0x5413; every other request shows in hexadecimal.
pub proof fn lemma_ioctl_request_names(request: u64)
    ensures
        request == 0x5401 ==> ioctl_request_text(request) == "TCGETS"@,
        request == 0x5402 ==> ioctl_request_text(request) == "TCSETS"@,
        request == 0x5413 ==> ioctl_request_text(request) == "TIOCGWINSZ"@,
        request != 0x5401 && request != 0x5402 && request != 0x5413 ==> ioctl_request_text(request) == hex_text(
            request as nat,
        ),
{
}

proof fn lemma_ioctl_is_plain()
    ensures
        "ioctl"@ != "write"@,
        "ioctl"@ != "writev"@,
        "ioctl"@ != "execve"@,
        "ioctl"@ != "openat"@,
        "ioctl"@ != "newfstatat"@,
        "ioctl"@ != "read"@,
        "ioctl"@ != "getdents64"@,
{
    reveal_strlit("ioctl");
    reveal_strlit("write");
    reveal_strlit("writev");
    reveal_strlit("execve");
    reveal_strlit("openat");
    reveal_strlit("newfstatat");
    reveal_strlit("read");
    reveal_strlit("getdents64");
    assert("ioctl"@[0] != "write"@[0]);
    assert("ioctl"@.len() != "writev"@.len());
    assert("ioctl"@.len() != "execve"@.len());
    assert("ioctl"@.len() != "openat"@.len());
    assert("ioctl"@.len() != "newfstatat"@.len());
    assert("ioctl"@.len() != "read"@.len());
    assert("ioctl"@.len() != "getdents64"@.len());
}

/// The entry line of `ioctl`: the descriptor in decimal, the request by
/// name where it is a known terminal request, and the argument in
/// hexadecimal; `TCGETS` for 0x5401 and `TCSETS` for 0x5402 whatever the
/// other registers hold.
pub proof fn lemma_ioctl_entry(regs: Seq<u64>, reads: Seq<Option<u64>>)
    ensures
        entry_outcome(regs, Some("ioctl"@), reads) == ProbeView::Done(
            "ioctl("@ + dec_text(regs[0] as int) + ", "@ + ioctl_request_text(regs[1]) + ", "@ + hex_text(
                regs[2] as nat,
            ) + ")"@,
        ),
        regs[1] == 0x5401 ==> entry_outcome(regs, Some("ioctl"@), reads) == ProbeView::Done(
            "ioctl("@ + dec_text(regs[0] as int) + ", TCGETS, "@ + hex_text(regs[2] as nat) + ")"@,
        ),
        regs[1] == 0x5402 ==> entry_outcome(regs, Some("ioctl"@), reads) == ProbeView::Done(
            "ioctl("@ + dec_text(regs[0] as int) + ", TCSETS, "@ + hex_text(regs[2] as nat) + ")"@,
        ),
{
    lemma_ioctl_is_plain();
    let head = "ioctl("@ + dec_text(regs[0] as int);
    lemma_request_between_commas(head, hex_text(regs[2] as nat));
}

proof fn lemma_request_between_commas(head: Seq<char>, arg: Seq<char>)
    ensures
        head + ", "@ + "TCGETS"@ + ", "@ + arg + ")"@ == head + ", TCGETS, "@ + arg + ")"@,
        head + ", "@ + "TCSETS"@ + ", "@ + arg + ")"@ == head + ", TCSETS, "@ + arg + ")"@,
{
    reveal_strlit(", ");
    reveal_strlit("TCGETS");
    reveal_strlit("TCSETS");
    reveal_strlit(", TCGETS, ");
    reveal_strlit(", TCSETS, ");
    assert(head + ", "@ + "TCGETS"@ + ", "@ + arg + ")"@ =~= head + ", TCGETS, "@ + arg + ")"@);
    assert(head + ", "@ + "TCSETS"@ + ", "@ + arg + ")"@ =~= head + ", TCSETS, "@ + arg + ")"@);
}

/// The `fcntl` commands 0 to 4 show by name in the kernel's numbering, any
/// other in decimal; the argument of `F_SETFD` shows as `FD_CLOEXEC` when
/// it is 1, every other argument in hexadecimal.
pub proof fn lemma_fcntl_names(cmd: u64, arg: u64)
    ensures
        cmd == 0 ==> fcntl_cmd_text(cmd) == "F_DUPFD"@,
        cmd == 1 ==> fcntl_cmd_text(cmd) == "F_GETFD"@,
        cmd == 2 ==> fcntl_cmd_text(cmd) == "F_SETFD"@,
        cmd == 3 ==> fcntl_cmd_text(cmd) == "F_GETFL"@,
        cmd == 4 ==> fcntl_cmd_text(cmd) == "F_SETFL"@,
        cmd > 4 ==> fcntl_cmd_text(cmd) == dec_text(cmd as int),
        cmd == 2 && arg == 1 ==> fcntl_arg_text(cmd, arg) == "FD_CLOEXEC"@,
        !(cmd == 2 && arg == 1) ==> fcntl_arg_text(cmd, arg) == hex_text(arg as nat),
{
}

/// The `lseek` origins 0, 1 and 2 are `SEEK_SET`, `SEEK_CUR` and
/// `SEEK_END`; any other shows as `SEEK_UNKNOWN`.
pub proof fn lemma_whence_names(whence: u64)
    ensures
        whence == 0 ==> whence_text(whence) == "SEEK_SET"@,
        whence == 1 ==> whence_text(whence) == "SEEK_CUR"@,
        whence == 2 ==> whence_text(whence) == "SEEK_END"@,
        whence > 2 ==> whence_text(whence) == "SEEK_UNKNOWN"@,
{
}

/// The exit part asks for memory only for a `read` that returned a
/// positive count, and then only from the buffer kept at its entry: the
/// word asked for lies within the bytes that the call filled, at most 64 of
/// them, rounded up to a whole word.
pub proof fn lemma_exit_reads_only_filled_buffer(
    regs: Seq<u64>,
    name: Option<Seq<char>>,
    read_params: (u64, u64, u64),
    reads: Seq<Option<u64>>,
)
    ensures
        exit_outcome(regs, name, read_params, reads) matches ProbeView::Peek(a) ==> {
            &&& name == Some("read"@)
            &&& regs[0] as i64 > 0
            &&& read_params.1 <= a
            &&& a + 8 <= read_params.1 + 8 * buffer_words((regs[0] as i64) as nat)
            &&& a + 8 <= read_params.1 + 64
        },
{
    let v = regs[0] as i64;
    if name == Some("read"@) && v > 0 {
        lemma_buffer_reads_bounded(read_params.1, v as nat, reads);
    }
}

/// The entry line of `write` is `write(`, the descriptor in decimal, the
/// buffer, and the count in decimal; to show the buffer it asks only for
/// words among the first 64 bytes at the address in `x1`.
pub proof fn lemma_write_entry(regs: Seq<u64>, reads: Seq<Option<u64>>)
    ensures
        entry_outcome(regs, Some("write"@), reads) matches ProbeView::Peek(a) ==> regs[1] <= a && a + 8 <= regs[1]
            + 64,
        entry_outcome(regs, Some("write"@), reads) matches ProbeView::Done(t) ==> {
            let head = "write("@ + dec_text(regs[0] as int) + ", "@;
            let tail = ", "@ + dec_text(regs[2] as int) + ")"@;
            &&& t.len() >= head.len() + tail.len()
            &&& t.take(head.len() as int) == head
            &&& t.skip(t.len() - tail.len()) == tail
        },
{
    lemma_buffer_reads_bounded(regs[1], regs[2] as nat, reads);
    let head = "write("@ + dec_text(regs[0] as int) + ", "@;
    let tail = ", "@ + dec_text(regs[2] as int) + ")"@;
    if let ProbeView::Done(c) = buffer_outcome(regs[1], regs[2] as nat, reads).0 {
        let t = head + c + tail;
        assert(t.take(head.len() as int) =~= head);
        assert(t.skip(t.len() - tail.len()) =~= tail);
    }
}

proof fn lemma_openat_is_third()
    ensures
        "openat"@ != "write"@,
        "openat"@ != "writev"@,
        "openat"@ != "execve"@,
{
    reveal_strlit("openat");
    reveal_strlit("write");
    reveal_strlit("writev");
    reveal_strlit("execve");
    assert("openat"@.len() != "write"@.len());
    assert("openat"@[0] != "writev"@[0]);
    assert("openat"@[0] != "execve"@[0]);
}

/// The entry line of `openat` starts with `openat(` and the directory, and
/// ends with the flags as `decode_open_flags` shows them; to show the path
/// it asks only for words among the first 264 bytes at the address in `x1`.
pub proof fn lemma_openat_entry(regs: Seq<u64>, reads: Seq<Option<u64>>)
    ensures
        entry_outcome(regs, Some("openat"@), reads) matches ProbeView::Peek(a) ==> regs[1] <= a && a + 8 <= regs[1]
            + 264,
        entry_outcome(regs, Some("openat"@), reads) matches ProbeView::Done(t) ==> {
            let head = "openat("@ + dirfd_text(regs[0]) + ", "@;
            let tail = ", "@ + open_flags_text(regs[2]) + ")"@;
            &&& t.len() >= head.len() + tail.len()
            &&& t.take(head.len() as int) == head
            &&& t.skip(t.len() - tail.len()) == tail
        },
{
    lemma_openat_is_third();
    lemma_c_string_reads_bounded(regs[1], 256, reads);
    let head = "openat("@ + dirfd_text(regs[0]) + ", "@;
    let tail = ", "@ + open_flags_text(regs[2]) + ")"@;
    if let ProbeView::Done(c) = c_string_outcome(regs[1], 256, reads).0 {
        let t = head + c + tail;
        assert(t.take(head.len() as int) =~= head);
        assert(t.skip(t.len() - tail.len()) =~= tail);
    }
}

} // verus!
