//! Rendering of the tracee's memory: C strings and byte buffers.
//!
//! Memory is read one 64-bit word at a time, and whether the next word is
//! needed depends on the words read so far. So each renderer here is a
//! decision step: it takes the results of the word reads made so far, in
//! order (`None` for a read that failed), and answers with the address of
//! the next word to read, or with the finished text.
use vstd::prelude::*;
use vstd::utf8::{decode_utf8, valid_utf8};
use crate::text::{append_hex, append_str, append_u64, dec_text, digit_char, hex_digit, hex_text, push_char};

verus! {

/// What a renderer asks for next.
pub enum Probe {
    /// Read the word at this address, append the result, and ask again.
    Peek(u64),
    /// The next address to read lies beyond the 64-bit address space.
    Overflow,
    /// The rendering is finished.
    Done(String),
}

/// The mathematical form of a [`Probe`].
pub enum ProbeView {
    Peek(u64),
    Overflow,
    Done(Seq<char>),
}

impl View for Probe {
    type V = ProbeView;

    open spec fn view(&self) -> ProbeView {
        match self {
            Probe::Peek(a) => ProbeView::Peek(*a),
            Probe::Overflow => ProbeView::Overflow,
            Probe::Done(s) => ProbeView::Done(s@),
        }
    }
}

/// What `String::from_utf8_lossy` makes of a byte sequence.
pub uninterp spec fn utf8_lossy(bytes: Seq<u8>) -> Seq<char>;

/// `String::from_utf8_lossy`, made owned. The result is named by
/// `utf8_lossy`; on valid UTF-8 it is the decoded text, as the standard
/// library documents. Which replacement characters stand for invalid
/// sequences is left unsaid.
#[verifier::external_body]
fn from_utf8_lossy(bytes: &[u8]) -> (s: String)
    ensures
        s@ == utf8_lossy(bytes@),
        valid_utf8(bytes@) ==> s@ == decode_utf8(bytes@),
{
    String::from_utf8_lossy(bytes).into_owned()
}

/// The number of leading reads that succeeded.
pub open spec fn ok_prefix(reads: Seq<Option<u64>>) -> nat
    decreases reads.len(),
{
    if reads.len() == 0 || reads[0] is None {
        0
    } else {
        1 + ok_prefix(reads.drop_first())
    }
}

/// The words of the leading reads that succeeded.
pub open spec fn ok_words(reads: Seq<Option<u64>>) -> Seq<u64> {
    Seq::new(ok_prefix(reads), |k: int| reads[k]->0)
}

/// Byte `k` (0 to 7) of a word in little-endian order.
pub open spec fn le_byte(w: u64, k: u64) -> u8 {
    ((w >> (8 * k)) & 0xff) as u8
}

/// The bytes of a sequence of words, each word in little-endian order.
pub open spec fn word_bytes(words: Seq<u64>) -> Seq<u8> {
    Seq::new(8 * words.len(), |i: int| le_byte(words[i / 8], (i % 8) as u64))
}

/// `s` between double quotes.
pub open spec fn quoted(s: Seq<char>) -> Seq<char> {
    seq!['"'] + s + seq!['"']
}

/// The text shown for a pointer that could not be read.
pub open spec fn invalid_ptr_text(addr: u64) -> Seq<char> {
    "<invalid-ptr-"@ + hex_text(addr as nat) + ">"@
}

/// Whether a C string read ends at byte `j`: at its terminating zero, or
/// because `max_len` bytes have been taken.
pub open spec fn stops_at(b: Seq<u8>, max_len: nat, j: int) -> bool {
    b[j] == 0 || j + 1 >= max_len
}

/// The first index from `i` on at which the string read ends, or the
/// length of `b` when it does not end within `b`.
pub open spec fn first_stop_from(b: Seq<u8>, max_len: nat, i: nat) -> nat
    decreases b.len() - i,
{
    if i >= b.len() {
        b.len()
    } else if stops_at(b, max_len, i as int) {
        i
    } else {
        first_stop_from(b, max_len, i + 1)
    }
}

/// The index at which the string read ends, or the length of `b`.
pub open spec fn first_stop(b: Seq<u8>, max_len: nat) -> nat {
    first_stop_from(b, max_len, 0)
}

/// The text of a C string whose read ends at byte `j`: the bytes before a
/// terminating zero, quoted (just the quotes for an empty string); or the
/// first `j + 1` bytes, quoted and followed by `...`, when the length limit
/// cut it.
pub open spec fn c_string_text(b: Seq<u8>, j: int) -> Seq<char> {
    if b[j] == 0 && j == 0 {
        quoted(Seq::empty())
    } else if b[j] == 0 {
        quoted(utf8_lossy(b.take(j)))
    } else {
        quoted(utf8_lossy(b.take(j + 1))) + "..."@
    }
}

/// The outcome of rendering the C string at `addr`, of at most `max_len`
/// bytes, from the word reads `reads`, together with the number of reads it
/// uses.
///
/// Words are read from `addr` on, eight bytes apart; the string ends at its
/// first zero byte or after `max_len` bytes. A null pointer shows as
/// `NULL`, and a failed read as an invalid pointer.
pub open spec fn c_string_outcome(addr: u64, max_len: nat, reads: Seq<Option<u64>>) -> (ProbeView, nat) {
    if addr == 0 {
        (ProbeView::Done("NULL"@), 0)
    } else {
        let m = ok_prefix(reads);
        let b = word_bytes(ok_words(reads));
        let j = first_stop(b, max_len);
        // the words that were passed over entirely, each followed by an
        // advance of the address
        let passed = if j < b.len() { j / 8 } else { m };
        if addr + 8 * passed > u64::MAX {
            (ProbeView::Overflow, passed)
        } else if j < b.len() {
            (ProbeView::Done(c_string_text(b, j as int)), j / 8 + 1)
        } else if m < reads.len() {
            (ProbeView::Done(invalid_ptr_text(addr)), m + 1)
        } else {
            (ProbeView::Peek((addr + 8 * m) as u64), m)
        }
    }
}

/// How one byte shows in an escaped buffer.
pub open spec fn escape_byte(b: u8) -> Seq<char> {
    if b == 0x0a {
        seq!['\\', 'n']
    } else if b == 0x0d {
        seq!['\\', 'r']
    } else if b == 0x09 {
        seq!['\\', 't']
    } else if b == 0x5c {
        seq!['\\', '\\']
    } else if b == 0x22 {
        seq!['\\', '"']
    } else if b == 0 {
        seq!['\\', '0']
    } else if 0x20 <= b <= 0x7e {
        seq![b as char]
    } else {
        seq!['\\', 'x', hex_digit((b / 16) as nat), hex_digit((b % 16) as nat)]
    }
}

/// The bytes of `bytes`, each shown as `escape_byte` shows it.
pub open spec fn escaped(bytes: Seq<u8>) -> Seq<char>
    decreases bytes.len(),
{
    if bytes.len() == 0 {
        Seq::empty()
    } else {
        escaped(bytes.drop_last()) + escape_byte(bytes.last())
    }
}

/// The number of bytes of a buffer that are shown.
pub open spec fn shown_len(len: nat) -> nat {
    if len < 64 { len } else { 64 }
}

/// The number of words read to show a buffer.
pub open spec fn buffer_words(len: nat) -> nat {
    (shown_len(len) + 7) / 8
}

/// The text of a buffer of length `len` whose shown bytes are `shown`:
/// escaped and quoted, then `... (len bytes)` when not all of it is shown.
pub open spec fn buffer_text(shown: Seq<u8>, len: nat) -> Seq<char> {
    if len > shown_len(len) {
        quoted(escaped(shown)) + "... ("@ + dec_text(len as int) + " bytes)"@
    } else {
        quoted(escaped(shown))
    }
}

/// The outcome of rendering the buffer of `len` bytes at `addr` from the
/// word reads `reads`, together with the number of reads it uses.
///
/// At most 64 bytes are shown; the words holding them are read from `addr`
/// on, eight bytes apart, and the address advances after each word. A null
/// pointer shows as `NULL`, and a failed read as an invalid pointer.
pub open spec fn buffer_outcome(addr: u64, len: nat, reads: Seq<Option<u64>>) -> (ProbeView, nat) {
    if addr == 0 {
        (ProbeView::Done("NULL"@), 0)
    } else {
        let w = buffer_words(len);
        let m = if ok_prefix(reads) < w { ok_prefix(reads) } else { w };
        if addr + 8 * m > u64::MAX {
            (ProbeView::Overflow, m)
        } else if m == w {
            (ProbeView::Done(buffer_text(word_bytes(ok_words(reads)).take(shown_len(len) as int), len)), w)
        } else if m < reads.len() {
            (ProbeView::Done(invalid_ptr_text(addr)), m + 1)
        } else {
            (ProbeView::Peek((addr + 8 * m) as u64), m)
        }
    }
}

proof fn lemma_ok_prefix(reads: Seq<Option<u64>>, n: nat)
    requires
        n <= reads.len(),
        forall|k: int| 0 <= k < n ==> reads[k] is Some,
        n == reads.len() || reads[n as int] is None,
    ensures
        ok_prefix(reads) == n,
    decreases n,
{
    if n > 0 {
        let rest = reads.drop_first();
        assert forall|k: int| 0 <= k < n - 1 implies rest[k] is Some by {
            assert(rest[k] == reads[k + 1]);
        }
        if n < reads.len() {
            assert(rest[n - 1] == reads[n as int]);
        }
        lemma_ok_prefix(rest, (n - 1) as nat);
    }
}

proof fn lemma_ok_prefix_bound(reads: Seq<Option<u64>>)
    ensures
        ok_prefix(reads) <= reads.len(),
        forall|k: int| 0 <= k < ok_prefix(reads) ==> reads[k] is Some,
        ok_prefix(reads) == reads.len() || reads[ok_prefix(reads) as int] is None,
    decreases reads.len(),
{
    if reads.len() > 0 && reads[0] is Some {
        let rest = reads.drop_first();
        lemma_ok_prefix_bound(rest);
        assert forall|k: int| 0 <= k < ok_prefix(reads) implies reads[k] is Some by {
            if k > 0 {
                assert(reads[k] == rest[k - 1]);
            }
        }
        if ok_prefix(reads) < reads.len() {
            assert(reads[ok_prefix(reads) as int] == rest[ok_prefix(rest) as int]);
        }
    }
}

/// The number of leading successful reads from position `start` on.
fn count_ok(reads: &Vec<Option<u64>>, start: usize) -> (m: usize)
    requires
        start <= reads.len(),
    ensures
        m == ok_prefix(reads@.skip(start as int)),
        start + m <= reads.len(),
{
    let mut i = start;
    while i < reads.len()
        invariant
            start <= i <= reads.len(),
            forall|k: int| start <= k < i ==> reads@[k] is Some,
        ensures
            start <= i <= reads.len(),
            forall|k: int| start <= k < i ==> reads@[k] is Some,
            i == reads.len() || reads@[i as int] is None,
        decreases reads.len() - i,
    {
        if reads[i].is_none() {
            break;
        }
        i = i + 1;
    }
    proof {
        let rest = reads@.skip(start as int);
        assert forall|k: int| 0 <= k < i - start implies rest[k] is Some by {
            assert(rest[k] == reads@[start + k]);
        }
        if i < reads.len() {
            assert(rest[i - start] == reads@[i as int]);
        }
        lemma_ok_prefix(rest, (i - start) as nat);
    }
    i - start
}

/// The bytes of the first `m` successful reads from position `start` on.
fn collect_bytes(reads: &Vec<Option<u64>>, start: usize, m: usize) -> (bytes: Vec<u8>)
    requires
        start <= reads.len(),
        m == ok_prefix(reads@.skip(start as int)),
    ensures
        bytes@ == word_bytes(ok_words(reads@.skip(start as int))),
{
    let ghost rest = reads@.skip(start as int);
    let ghost words = ok_words(rest);
    proof {
        lemma_ok_prefix_bound(rest);
    }
    let mut bytes: Vec<u8> = Vec::new();
    let mut i: usize = 0;
    while i < m
        invariant
            start <= reads.len(),
            rest == reads@.skip(start as int),
            m == ok_prefix(rest),
            m <= rest.len(),
            forall|k: int| 0 <= k < m ==> rest[k] is Some,
            words == ok_words(rest),
            i <= m,
            bytes@.len() == 8 * i,
            forall|t: int| 0 <= t < bytes@.len() ==> bytes@[t] == le_byte(words[t / 8], (t % 8) as u64),
        decreases m - i,
    {
        assert(rest[i as int] == reads@[start + i]);
        let w: u64 = match reads[start + i] {
            Some(w) => w,
            None => 0,
        };
        assert(w == words[i as int]);
        let mut k: u64 = 0;
        while k < 8
            invariant
                i < m,
                w == words[i as int],
                k <= 8,
                bytes@.len() == 8 * i + k,
                forall|t: int| 0 <= t < bytes@.len() ==> bytes@[t] == le_byte(words[t / 8], (t % 8) as u64),
            decreases 8 - k,
        {
            let ghost t = bytes@.len() as int;
            bytes.push(((w >> (8 * k)) & 0xff) as u8);
            assert(t / 8 == i && t % 8 == k);
            k = k + 1;
        }
        i = i + 1;
    }
    assert(bytes@ =~= word_bytes(words));
    bytes
}

/// The index at which a string read over `bytes` ends, or their length.
fn find_stop(bytes: &Vec<u8>, max_len: usize) -> (j: usize)
    ensures
        j == first_stop(bytes@, max_len as nat),
        j <= bytes.len(),
        j < bytes.len() ==> stops_at(bytes@, max_len as nat, j as int),
{
    let mut j: usize = 0;
    while j < bytes.len()
        invariant
            j <= bytes.len(),
            first_stop(bytes@, max_len as nat) == first_stop_from(bytes@, max_len as nat, j as nat),
        decreases bytes.len() - j,
    {
        if bytes[j] == 0 || j + 1 >= max_len {
            return j;
        }
        j = j + 1;
    }
    j
}

/// Whether `addr + 8 * words` lies beyond the 64-bit address space.
fn past_end(addr: u64, words: usize) -> (b: bool)
    ensures
        b == (addr + 8 * words > u64::MAX),
{
    (addr as u128) + 8 * (words as u128) > u64::MAX as u128
}

/// The text of an unreadable pointer.
fn invalid_ptr(addr: u64) -> (s: String)
    ensures
        s@ == invalid_ptr_text(addr),
{
    let mut s = String::new();
    append_str(&mut s, "<invalid-ptr-");
    append_hex(&mut s, addr);
    append_str(&mut s, ">");
    assert(s@ =~= invalid_ptr_text(addr));
    s
}

/// Renders the C string at `addr` from the reads from position `start`
/// on, and says how many of them it used.
pub(crate) fn c_string_step(addr: u64, max_len: usize, reads: &Vec<Option<u64>>, start: usize) -> (r: (Probe, usize))
    requires
        start <= reads.len(),
    ensures
        (r.0@, r.1 as nat) == c_string_outcome(addr, max_len as nat, reads@.skip(start as int)),
        start + r.1 <= reads.len(),
{
    if addr == 0 {
        return (Probe::Done("NULL".to_owned()), 0);
    }
    let m = count_ok(reads, start);
    let mut bytes = collect_bytes(reads, start, m);
    let j = find_stop(&bytes, max_len);
    let passed = if j < bytes.len() { j / 8 } else { m };
    if past_end(addr, passed) {
        return (Probe::Overflow, passed);
    }
    if j < bytes.len() {
        let ghost b = bytes@;
        let mut s = String::new();
        if bytes[j] == 0 {
            bytes.truncate(j);
            assert(bytes@ =~= b.take(j as int));
            if j == 0 {
                proof {
                    reveal_strlit("\"\"");
                }
                append_str(&mut s, "\"\"");
                assert(s@ =~= c_string_text(b, j as int));
            } else {
                let text = from_utf8_lossy(bytes.as_slice());
                push_char(&mut s, '"');
                append_str(&mut s, text.as_str());
                push_char(&mut s, '"');
                assert(s@ =~= c_string_text(b, j as int));
            }
        } else {
            bytes.truncate(j + 1);
            assert(bytes@ =~= b.take(j + 1));
            let text = from_utf8_lossy(bytes.as_slice());
            push_char(&mut s, '"');
            append_str(&mut s, text.as_str());
            push_char(&mut s, '"');
            append_str(&mut s, "...");
            assert(s@ =~= c_string_text(b, j as int));
        }
        return (Probe::Done(s), j / 8 + 1);
    }
    if start + m < reads.len() {
        (Probe::Done(invalid_ptr(addr)), m + 1)
    } else {
        (Probe::Peek(addr + 8 * (m as u64)), m)
    }
}

/// Renders the C string at `addr`, of at most `max_len` bytes, from the
/// results of the word reads made so far.
///
/// The string is shown quoted, up to its terminating zero; when `max_len`
/// bytes are reached first, it is cut there and followed by `...`. A null
/// pointer shows as `NULL`, and a failed read as `<invalid-ptr-0x…>`.
pub fn read_string(addr: u64, max_len: usize, reads: &Vec<Option<u64>>) -> (p: Probe)
    ensures
        p@ == c_string_outcome(addr, max_len as nat, reads@).0,
{
    let (p, _) = c_string_step(addr, max_len, reads, 0);
    assert(reads@.skip(0) =~= reads@);
    p
}

/// Shows bytes as text: printable ASCII as itself; newline, carriage
/// return, tab, backslash, double quote and zero as `\n`, `\r`, `\t`,
/// `\\`, `\"`, `\0`; every other byte as `\x` and two lowercase hex digits.
pub fn escape_string(bytes: &[u8]) -> (s: String)
    ensures
        s@ == escaped(bytes@),
{
    let mut s = String::new();
    let mut i: usize = 0;
    while i < bytes.len()
        invariant
            i <= bytes@.len(),
            s@ == escaped(bytes@.take(i as int)),
        decreases bytes@.len() - i,
    {
        let byte = bytes[i];
        let ghost before = s@;
        if byte == 0x0a {
            push_char(&mut s, '\\');
            push_char(&mut s, 'n');
        } else if byte == 0x0d {
            push_char(&mut s, '\\');
            push_char(&mut s, 'r');
        } else if byte == 0x09 {
            push_char(&mut s, '\\');
            push_char(&mut s, 't');
        } else if byte == 0x5c {
            push_char(&mut s, '\\');
            push_char(&mut s, '\\');
        } else if byte == 0x22 {
            push_char(&mut s, '\\');
            push_char(&mut s, '"');
        } else if byte == 0 {
            push_char(&mut s, '\\');
            push_char(&mut s, '0');
        } else if 0x20 <= byte && byte <= 0x7e {
            push_char(&mut s, byte as char);
        } else {
            push_char(&mut s, '\\');
            push_char(&mut s, 'x');
            push_char(&mut s, digit_char((byte / 16) as u64));
            push_char(&mut s, digit_char((byte % 16) as u64));
        }
        proof {
            let next = bytes@.take(i + 1);
            assert(next.drop_last() =~= bytes@.take(i as int));
            assert(next.last() == byte);
            assert(s@ =~= before + escape_byte(byte));
        }
        i = i + 1;
    }
    assert(bytes@.take(bytes@.len() as int) =~= bytes@);
    s
}

/// Renders the buffer of `len` bytes at `addr` from the reads from
/// position `start` on, and says how many of them it used.
pub(crate) fn buffer_step(addr: u64, len: u64, reads: &Vec<Option<u64>>, start: usize) -> (r: (Probe, usize))
    requires
        start <= reads.len(),
    ensures
        (r.0@, r.1 as nat) == buffer_outcome(addr, len as nat, reads@.skip(start as int)),
        start + r.1 <= reads.len(),
{
    if addr == 0 {
        return (Probe::Done("NULL".to_owned()), 0);
    }
    let shown: usize = if len < 64 { len as usize } else { 64 };
    let w: usize = (shown + 7) / 8;
    let ok = count_ok(reads, start);
    let m = if ok < w { ok } else { w };
    if past_end(addr, m) {
        return (Probe::Overflow, m);
    }
    if m == w {
        let mut bytes = collect_bytes(reads, start, ok);
        let ghost all = bytes@;
        assert(all.len() == 8 * ok);
        bytes.truncate(shown);
        assert(bytes@ =~= all.take(shown as int));
        let esc = escape_string(bytes.as_slice());
        let mut s = String::new();
        push_char(&mut s, '"');
        append_str(&mut s, esc.as_str());
        push_char(&mut s, '"');
        if len > shown as u64 {
            append_str(&mut s, "... (");
            append_u64(&mut s, len);
            append_str(&mut s, " bytes)");
        }
        assert(s@ =~= buffer_text(all.take(shown as int), len as nat));
        return (Probe::Done(s), w);
    }
    if start + m < reads.len() {
        (Probe::Done(invalid_ptr(addr)), m + 1)
    } else {
        (Probe::Peek(addr + 8 * (m as u64)), m)
    }
}

/// Renders the buffer of `len` bytes at `addr` from the results of the
/// word reads made so far.
///
/// At most its first 64 bytes are shown, escaped as `escape_string` does
/// and quoted; a longer buffer is followed by `... (len bytes)`. A null
/// pointer shows as `NULL`, and a failed read as `<invalid-ptr-0x…>`.
pub fn read_buffer(addr: u64, len: usize, reads: &Vec<Option<u64>>) -> (p: Probe)
    ensures
        p@ == buffer_outcome(addr, len as nat, reads@).0,
{
    let (p, _) = buffer_step(addr, len as u64, reads, 0);
    assert(reads@.skip(0) =~= reads@);
    p
}

/// Whether a character is printable ASCII (space to tilde).
pub open spec fn is_printable_ascii(c: char) -> bool {
    ' ' <= c && c <= '~'
}

proof fn lemma_escape_byte_printable(b: u8)
    ensures
        forall|i: int| 0 <= i < escape_byte(b).len() ==> is_printable_ascii(#[trigger] escape_byte(b)[i]),
{
    if 0x20 <= b <= 0x7e && b != 0x5c && b != 0x22 {
        assert((b as char) as u32 == b as u32);
    }
}

/// Escaping leaves only printable ASCII: every byte, whatever it is, shows
/// as characters between space and tilde.
pub proof fn lemma_escaped_printable(bytes: Seq<u8>)
    ensures
        forall|i: int| 0 <= i < escaped(bytes).len() ==> is_printable_ascii(#[trigger] escaped(bytes)[i]),
    decreases bytes.len(),
{
    if bytes.len() > 0 {
        lemma_escaped_printable(bytes.drop_last());
        lemma_escape_byte_printable(bytes.last());
        let head = escaped(bytes.drop_last());
        let tail = escape_byte(bytes.last());
        assert forall|i: int| 0 <= i < escaped(bytes).len() implies is_printable_ascii(#[trigger] escaped(bytes)[i]) by {
            if i < head.len() {
                assert(escaped(bytes)[i] == head[i]);
            } else {
                assert(escaped(bytes)[i] == tail[i - head.len()]);
            }
        }
    }
}

proof fn lemma_first_stop_from(b: Seq<u8>, max_len: nat, i: nat)
    ensures
        i <= first_stop_from(b, max_len, i) <= b.len() || (i > b.len() && first_stop_from(b, max_len, i) == b.len()),
        first_stop_from(b, max_len, i) < b.len() ==> stops_at(b, max_len, first_stop_from(b, max_len, i) as int),
        forall|k: int| i <= k < first_stop_from(b, max_len, i) ==> !stops_at(b, max_len, k),
    decreases b.len() - i,
{
    if i < b.len() && !stops_at(b, max_len, i as int) {
        lemma_first_stop_from(b, max_len, i + 1);
    }
}

/// A C string read stops at its first zero byte and takes at most
/// `max_len` bytes (one, when `max_len` is zero); when the bytes at hand
/// reach that limit, the read has stopped within them.
pub proof fn lemma_c_string_bounded(b: Seq<u8>, max_len: nat)
    ensures
        forall|k: int| 0 <= k < first_stop(b, max_len) ==> b[k] != 0,
        first_stop(b, max_len) < b.len() ==> first_stop(b, max_len) + 1 <= (if max_len == 0 { 1 } else { max_len }),
        b.len() >= (if max_len == 0 { 1 } else { max_len }) ==> first_stop(b, max_len) < b.len(),
{
    lemma_first_stop_from(b, max_len, 0);
    let j = first_stop(b, max_len);
    let limit: int = if max_len == 0 { 1 } else { max_len as int };
    if b.len() >= limit && j >= b.len() {
        assert(!stops_at(b, max_len, limit - 1));
    }
    if j < b.len() && j + 1 > limit {
        assert(!stops_at(b, max_len, limit - 1));
    }
    assert forall|k: int| 0 <= k < j implies b[k] != 0 by {
        assert(!stops_at(b, max_len, k));
    }
}

/// A C string is read word after word from its address on, and never
/// needs more than `max_len / 8 + 1` words: each read asked for is of the
/// word just after those already read, and once that many words have been
/// read the rendering asks for no further read.
pub proof fn lemma_c_string_reads_bounded(addr: u64, max_len: nat, reads: Seq<Option<u64>>)
    ensures
        ok_prefix(reads) >= max_len / 8 + 1 ==> !(c_string_outcome(addr, max_len, reads).0 is Peek),
        c_string_outcome(addr, max_len, reads).0 is Peek ==> {
            &&& c_string_outcome(addr, max_len, reads).0->Peek_0 == addr + 8 * reads.len()
            &&& reads.len() <= max_len / 8
        },
{
    let b = word_bytes(ok_words(reads));
    assert(b.len() == 8 * ok_prefix(reads));
    lemma_c_string_bounded(b, max_len);
    lemma_ok_prefix_bound(reads);
}

/// A buffer shows at most 64 bytes, read word after word from its address
/// on, from at most eight words: each read asked for is of the word just
/// after those already read, and once the words that hold the shown bytes
/// have been read the rendering asks for no further read.
pub proof fn lemma_buffer_reads_bounded(addr: u64, len: nat, reads: Seq<Option<u64>>)
    ensures
        shown_len(len) <= 64,
        buffer_words(len) <= 8,
        8 * buffer_words(len) >= shown_len(len),
        ok_prefix(reads) >= buffer_words(len) ==> !(buffer_outcome(addr, len, reads).0 is Peek),
        buffer_outcome(addr, len, reads).0 is Peek ==> {
            &&& buffer_outcome(addr, len, reads).0->Peek_0 == addr + 8 * reads.len()
            &&& reads.len() < buffer_words(len)
        },
{
    lemma_ok_prefix_bound(reads);
}

/// The value of a lowercase hexadecimal digit.
pub open spec fn hex_value(c: char) -> int {
    if '0' <= c && c <= '9' {
        c as u32 - '0' as u32
    } else {
        c as u32 - 'a' as u32 + 10
    }
}

/// The byte that the escape code at the start of `s` stands for, and the
/// length of that code: how escaped text is read back.
pub open spec fn unescape_first(s: Seq<char>) -> (int, nat) {
    if s[0] != '\\' {
        (s[0] as u32 as int, 1)
    } else if s[1] == 'n' {
        (0x0a, 2)
    } else if s[1] == 'r' {
        (0x0d, 2)
    } else if s[1] == 't' {
        (0x09, 2)
    } else if s[1] == '\\' {
        (0x5c, 2)
    } else if s[1] == '"' {
        (0x22, 2)
    } else if s[1] == '0' {
        (0, 2)
    } else {
        (hex_value(s[2]) * 16 + hex_value(s[3]), 4)
    }
}

proof fn lemma_hex_value(d: nat)
    requires
        d < 16,
    ensures
        hex_value(hex_digit(d)) == d,
        hex_digit(d) != 'n' && hex_digit(d) != 'r' && hex_digit(d) != 't',
{
    assert('0' as u32 == 48);
    assert('9' as u32 == 57);
    assert('a' as u32 == 97);
    if d == 0 { assert('0' as u32 == 48); }
    else if d == 1 { assert('1' as u32 == 49); }
    else if d == 2 { assert('2' as u32 == 50); }
    else if d == 3 { assert('3' as u32 == 51); }
    else if d == 4 { assert('4' as u32 == 52); }
    else if d == 5 { assert('5' as u32 == 53); }
    else if d == 6 { assert('6' as u32 == 54); }
    else if d == 7 { assert('7' as u32 == 55); }
    else if d == 8 { assert('8' as u32 == 56); }
    else if d == 9 { assert('9' as u32 == 57); }
    else if d == 10 { assert('a' as u32 == 97); }
    else if d == 11 { assert('b' as u32 == 98); }
    else if d == 12 { assert('c' as u32 == 99); }
    else if d == 13 { assert('d' as u32 == 100); }
    else if d == 14 { assert('e' as u32 == 101); }
    else { assert('f' as u32 == 102); }
}

/// Every escape code is read back as the byte it stands for, whatever
/// follows it.
proof fn lemma_unescape_first(b: u8, rest: Seq<char>)
    ensures
        unescape_first(escape_byte(b) + rest) == (b as int, escape_byte(b).len()),
        escape_byte(b).len() >= 1,
{
    let e = escape_byte(b);
    let s = e + rest;
    assert(s[0] == e[0]);
    if e.len() >= 2 {
        assert(s[1] == e[1]);
    }
    if e.len() >= 4 {
        assert(s[2] == e[2]);
        assert(s[3] == e[3]);
    }
    if b == 0x0a || b == 0x0d || b == 0x09 || b == 0x5c || b == 0x22 || b == 0 {
    } else if 0x20 <= b <= 0x7e {
        assert((b as char) as u32 == b as u32);
        assert('\\' as u32 == 0x5c);
    } else {
        lemma_hex_value((b / 16) as nat);
        lemma_hex_value((b % 16) as nat);
        assert(b == (b / 16) * 16 + b % 16);
        assert('x' != 'n' && 'x' != 'r' && 'x' != 't' && 'x' != '\\' && 'x' != '"' && 'x' != '0');
    }
}

/// Escaping goes byte by byte: the text of two buffers one after the other
/// is the text of the first followed by the text of the second.
pub proof fn lemma_escaped_concat(a: Seq<u8>, b: Seq<u8>)
    ensures
        escaped(a + b) == escaped(a) + escaped(b),
    decreases b.len(),
{
    if b.len() == 0 {
        assert(a + b =~= a);
        assert(escaped(a) + escaped(b) =~= escaped(a));
    } else {
        lemma_escaped_concat(a, b.drop_last());
        assert((a + b).drop_last() =~= a + b.drop_last());
        assert((a + b).last() == b.last());
        assert(escaped(a) + escaped(b) =~= (escaped(a) + escaped(b.drop_last())) + escape_byte(b.last()));
    }
}

/// Escaped text starts with the code of the first byte.
proof fn lemma_escaped_first(a: Seq<u8>)
    requires
        a.len() > 0,
    ensures
        escaped(a) == escape_byte(a[0]) + escaped(a.drop_first()),
{
    lemma_escaped_concat(seq![a[0]], a.drop_first());
    assert(seq![a[0]] + a.drop_first() =~= a);
    let one = seq![a[0]];
    assert(one.drop_last() =~= Seq::<u8>::empty());
    assert(one.last() == a[0]);
    assert(escaped(Seq::<u8>::empty()) == Seq::<char>::empty());
    assert(escaped(one.drop_last()) == Seq::<char>::empty());
    assert(escaped(one) =~= escape_byte(a[0]));
}

/// Escaping loses nothing: different byte sequences show as different
/// text.
pub proof fn lemma_escaped_injective(a: Seq<u8>, b: Seq<u8>)
    requires
        escaped(a) == escaped(b),
    ensures
        a == b,
    decreases a.len(),
{
    if a.len() == 0 {
        if b.len() > 0 {
            lemma_escaped_first(b);
            lemma_unescape_first(b[0], escaped(b.drop_first()));
        }
        assert(a =~= b);
    } else {
        lemma_escaped_first(a);
        lemma_unescape_first(a[0], escaped(a.drop_first()));
        if b.len() == 0 {
            assert(false);
        }
        lemma_escaped_first(b);
        lemma_unescape_first(b[0], escaped(b.drop_first()));
        let ea = escape_byte(a[0]);
        let s = escaped(a);
        assert(a[0] == b[0]);
        assert(escaped(a.drop_first()) =~= s.skip(ea.len() as int));
        assert(escaped(b.drop_first()) =~= s.skip(ea.len() as int));
        lemma_escaped_injective(a.drop_first(), b.drop_first());
        assert(a =~= seq![a[0]] + a.drop_first());
        assert(b =~= seq![b[0]] + b.drop_first());
    }
}

/// How a single byte shows: printable ASCII other than backslash and
/// double quote as itself; newline, carriage return, tab, backslash, double
/// quote and zero as a backslash code; every other byte as `\x` and two
/// lowercase hexadecimal digits.
pub proof fn lemma_escaped_one_byte(b: u8)
    ensures
        0x20 <= b <= 0x7e && b != 0x5c && b != 0x22 ==> escaped(seq![b]) == seq![b as char],
        b == 0x0a ==> escaped(seq![b]) == seq!['\\', 'n'],
        b == 0x0d ==> escaped(seq![b]) == seq!['\\', 'r'],
        b == 0x09 ==> escaped(seq![b]) == seq!['\\', 't'],
        b == 0x5c ==> escaped(seq![b]) == seq!['\\', '\\'],
        b == 0x22 ==> escaped(seq![b]) == seq!['\\', '"'],
        b == 0 ==> escaped(seq![b]) == seq!['\\', '0'],
        (b < 0x20 || b > 0x7e) && b != 0 && b != 0x09 && b != 0x0a && b != 0x0d
            ==> escaped(seq![b]) == seq!['\\', 'x', hex_digit((b / 16) as nat), hex_digit((b % 16) as nat)],
{
    let one = seq![b];
    assert(one.drop_last() =~= Seq::<u8>::empty());
    assert(one.last() == b);
    assert(escaped(Seq::<u8>::empty()) == Seq::<char>::empty());
    assert(escaped(one) =~= escape_byte(b));
}

/// A buffer of printable ASCII without backslash or double quote shows as
/// its own characters, one for each byte.
pub proof fn lemma_escaped_plain_text(bytes: Seq<u8>)
    requires
        forall|i: int| 0 <= i < bytes.len() ==> 0x20 <= #[trigger] bytes[i] <= 0x7e && bytes[i] != 0x5c
            && bytes[i] != 0x22,
    ensures
        escaped(bytes) == bytes.map_values(|c: u8| c as char),
    decreases bytes.len(),
{
    if bytes.len() == 0 {
        assert(escaped(bytes) =~= bytes.map_values(|c: u8| c as char));
    } else {
        let init = bytes.drop_last();
        assert forall|i: int| 0 <= i < init.len() implies 0x20 <= #[trigger] init[i] <= 0x7e && init[i] != 0x5c
            && init[i] != 0x22 by {
            assert(init[i] == bytes[i]);
        }
        lemma_escaped_plain_text(init);
        let b = bytes.last();
        assert(0x20 <= b <= 0x7e && b != 0x5c && b != 0x22);
        assert(escape_byte(b) =~= seq![b as char]);
        assert(escaped(bytes) =~= bytes.map_values(|c: u8| c as char));
    }
}

} // verus!
