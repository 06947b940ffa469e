//! Plain-text building blocks: integers in decimal and `0x` hexadecimal,
//! and joining pieces with a separator.
use vstd::prelude::*;
use vstd::string::*;

verus! {

/// The lowercase hexadecimal digit of a value below sixteen.
pub open spec fn hex_digit(d: nat) -> char {
    if d == 0 { '0' }
    else if d == 1 { '1' }
    else if d == 2 { '2' }
    else if d == 3 { '3' }
    else if d == 4 { '4' }
    else if d == 5 { '5' }
    else if d == 6 { '6' }
    else if d == 7 { '7' }
    else if d == 8 { '8' }
    else if d == 9 { '9' }
    else if d == 10 { 'a' }
    else if d == 11 { 'b' }
    else if d == 12 { 'c' }
    else if d == 13 { 'd' }
    else if d == 14 { 'e' }
    else { 'f' }
}

/// Digits of `n` in base 16, most significant first, without leading zeros
/// (a single `0` for zero).
pub open spec fn hex_digits(n: nat) -> Seq<char>
    decreases n,
{
    if n < 16 {
        seq![hex_digit(n)]
    } else {
        hex_digits(n / 16).push(hex_digit(n % 16))
    }
}

/// Digits of `n` in base 10, most significant first, without leading zeros.
pub open spec fn dec_digits(n: nat) -> Seq<char>
    decreases n,
{
    if n < 10 {
        seq![hex_digit(n)]
    } else {
        dec_digits(n / 10).push(hex_digit(n % 10))
    }
}

/// The alternate hexadecimal form of `n`: `0x` then its hexadecimal digits.
pub open spec fn hex_text(n: nat) -> Seq<char> {
    seq!['0', 'x'] + hex_digits(n)
}

/// The decimal form of an integer, with a leading `-` when it is negative.
pub open spec fn dec_text(i: int) -> Seq<char> {
    if i < 0 {
        seq!['-'] + dec_digits((-i) as nat)
    } else {
        dec_digits(i as nat)
    }
}

/// The pieces of `parts` in order, with `sep` between each two of them.
pub open spec fn join(parts: Seq<Seq<char>>, sep: Seq<char>) -> Seq<char>
    decreases parts.len(),
{
    if parts.len() == 0 {
        Seq::empty()
    } else if parts.len() == 1 {
        parts[0]
    } else {
        join(parts.drop_last(), sep) + sep + parts.last()
    }
}

/// The text of each string slice of a sequence.
pub open spec fn views(parts: Seq<&str>) -> Seq<Seq<char>> {
    parts.map_values(|p: &str| p@)
}

/// `String::push`: appends one character.
#[verifier::external_body]
pub(crate) fn push_char(s: &mut String, c: char)
    ensures
        final(s)@ == old(s)@.push(c),
{
    s.push(c);
}

/// The digit character of a value below sixteen.
pub(crate) fn digit_char(d: u64) -> (c: char)
    requires
        d < 16,
    ensures
        c == hex_digit(d as nat),
{
    if d == 0 { '0' }
    else if d == 1 { '1' }
    else if d == 2 { '2' }
    else if d == 3 { '3' }
    else if d == 4 { '4' }
    else if d == 5 { '5' }
    else if d == 6 { '6' }
    else if d == 7 { '7' }
    else if d == 8 { '8' }
    else if d == 9 { '9' }
    else if d == 10 { 'a' }
    else if d == 11 { 'b' }
    else if d == 12 { 'c' }
    else if d == 13 { 'd' }
    else if d == 14 { 'e' }
    else { 'f' }
}

/// Appends the hexadecimal digits of `n` to `out`.
fn append_hex_digits(out: &mut String, n: u64)
    ensures
        final(out)@ == old(out)@ + hex_digits(n as nat),
    decreases n,
{
    if n >= 16 {
        append_hex_digits(out, n / 16);
    }
    push_char(out, digit_char(n % 16));
    assert(out@ =~= old(out)@ + hex_digits(n as nat));
}

/// Appends the decimal digits of `n` to `out`.
fn append_dec_digits(out: &mut String, n: u64)
    ensures
        final(out)@ == old(out)@ + dec_digits(n as nat),
    decreases n,
{
    if n >= 10 {
        append_dec_digits(out, n / 10);
    }
    push_char(out, digit_char(n % 10));
    proof {
        assert(out@ =~= old(out)@ + dec_digits(n as nat));
    }
}

/// Appends `n` in the form `0x1f`.
pub fn append_hex(out: &mut String, n: u64)
    ensures
        final(out)@ == old(out)@ + hex_text(n as nat),
{
    push_char(out, '0');
    push_char(out, 'x');
    append_hex_digits(out, n);
    assert(out@ =~= old(out)@ + hex_text(n as nat));
}

/// Appends an unsigned integer in decimal.
pub fn append_u64(out: &mut String, n: u64)
    ensures
        final(out)@ == old(out)@ + dec_text(n as int),
{
    append_dec_digits(out, n);
}

/// Appends a signed integer in decimal.
pub fn append_i64(out: &mut String, n: i64)
    ensures
        final(out)@ == old(out)@ + dec_text(n as int),
{
    if n < 0 {
        push_char(out, '-');
        let m: u64 = ((-(n + 1)) as u64) + 1;
        assert(m == -n);
        append_dec_digits(out, m);
        assert(out@ =~= old(out)@ + dec_text(n as int));
    } else {
        append_dec_digits(out, n as u64);
    }
}

/// `n` in the form `0x1f`.
pub fn hex_string(n: u64) -> (s: String)
    ensures
        s@ == hex_text(n as nat),
{
    let mut s = String::new();
    append_hex(&mut s, n);
    assert(s@ =~= hex_text(n as nat));
    s
}

/// Appends a string slice.
pub fn append_str(out: &mut String, piece: &str)
    ensures
        final(out)@ == old(out)@ + piece@,
{
    out.append(piece);
}

/// The pieces joined with `sep` between each two of them.
pub fn join_strs(parts: &Vec<&str>, sep: &str) -> (s: String)
    ensures
        s@ == join(views(parts@), sep@),
{
    let mut s = String::new();
    let mut i: usize = 0;
    while i < parts.len()
        invariant
            i <= parts.len(),
            s@ == join(views(parts@.take(i as int)), sep@),
        decreases parts.len() - i,
    {
        let ghost prev = parts@.take(i as int);
        if i > 0 {
            s.append(sep);
        }
        s.append(parts[i]);
        proof {
            let next = parts@.take(i + 1);
            assert(next.drop_last() =~= prev);
            assert(views(next).drop_last() =~= views(prev));
            assert(s@ =~= join(views(next), sep@));
        }
        i = i + 1;
    }
    assert(parts@.take(parts.len() as int) =~= parts@);
    s
}

/// The pieces joined with `sep` between each two of them.
pub fn join_strings(parts: &Vec<String>, sep: &str) -> (s: String)
    ensures
        s@ == join(parts@.map_values(|p: String| p@), sep@),
{
    let mut s = String::new();
    let mut i: usize = 0;
    let ghost all = parts@.map_values(|p: String| p@);
    while i < parts.len()
        invariant
            i <= parts.len(),
            all == parts@.map_values(|p: String| p@),
            s@ == join(all.take(i as int), sep@),
        decreases parts.len() - i,
    {
        if i > 0 {
            s.append(sep);
        }
        s.append(parts[i].as_str());
        proof {
            assert(all.take(i + 1).drop_last() =~= all.take(i as int));
            assert(s@ =~= join(all.take(i + 1), sep@));
        }
        i = i + 1;
    }
    assert(all.take(parts.len() as int) =~= all);
    s
}

/// The value of a digit character: `0`–`9`, then `a`–`f` for ten to fifteen.
pub open spec fn char_digit(c: char) -> int {
    if '0' <= c && c <= '9' {
        c as u32 - '0' as u32
    } else {
        c as u32 - 'a' as u32 + 10
    }
}

/// The number that a sequence of digits writes in base `base`, most
/// significant digit first.
pub open spec fn digits_in_base(s: Seq<char>, base: nat) -> int
    decreases s.len(),
{
    if s.len() == 0 {
        0
    } else {
        digits_in_base(s.drop_last(), base) * base + char_digit(s.last())
    }
}

/// The digits are `0`–`9` and then the lowercase letters `a`–`f`.
pub proof fn lemma_hex_digit_table()
    ensures
        hex_digit(0) == '0' && hex_digit(1) == '1' && hex_digit(2) == '2' && hex_digit(3) == '3',
        hex_digit(4) == '4' && hex_digit(5) == '5' && hex_digit(6) == '6' && hex_digit(7) == '7',
        hex_digit(8) == '8' && hex_digit(9) == '9' && hex_digit(10) == 'a' && hex_digit(11) == 'b',
        hex_digit(12) == 'c' && hex_digit(13) == 'd' && hex_digit(14) == 'e' && hex_digit(15) == 'f',
{
}

proof fn lemma_digit_value(d: nat)
    requires
        d < 16,
    ensures
        char_digit(hex_digit(d)) == d,
        ('0' <= hex_digit(d) && hex_digit(d) <= '9') || ('a' <= hex_digit(d) && hex_digit(d) <= 'f'),
        d < 10 ==> '0' <= hex_digit(d) && hex_digit(d) <= '9',
{
    assert('0' as u32 == 48);
    assert('a' as u32 == 97);
    if d == 0 { assert('0' as u32 == 48); }
    else if d == 1 { assert('1' as u32 == 49); }
    else if d == 2 { assert('2' as u32 == 50); }
    else if d == 3 { assert('3' as u32 == 51); }
    else if d == 4 { assert('4' as u32 == 52); }
    else if d == 5 { assert('5' as u32 == 53); }
    else if d == 6 { assert('6' as u32 == 54); }
    else if d == 7 { assert('7' as u32 == 55); }
    else if d == 8 { assert('8' as u32 == 56); }
    else if d == 9 { assert('9' as u32 == 57); }
    else if d == 10 { assert('a' as u32 == 97); }
    else if d == 11 { assert('b' as u32 == 98); }
    else if d == 12 { assert('c' as u32 == 99); }
    else if d == 13 { assert('d' as u32 == 100); }
    else if d == 14 { assert('e' as u32 == 101); }
    else { assert('f' as u32 == 102); }
}

/// The decimal digits of `n` are decimal digits, read back as `n`, and have
/// no leading zero.
pub proof fn lemma_dec_digits_read_back(n: nat)
    ensures
        dec_digits(n).len() >= 1,
        forall|k: int| 0 <= k < dec_digits(n).len() ==> '0' <= #[trigger] dec_digits(n)[k] && dec_digits(n)[k] <= '9',
        digits_in_base(dec_digits(n), 10) == n,
        dec_digits(n)[0] == '0' ==> n == 0,
    decreases n,
{
    let d = dec_digits(n);
    lemma_digit_value(n % 10);
    assert(n == (n / 10) * 10 + n % 10);
    if n < 10 {
        assert(d.drop_last() =~= Seq::<char>::empty());
        assert(digits_in_base(d.drop_last(), 10) == 0);
        assert(d[0] == hex_digit(n));
        if hex_digit(n) == '0' {
            assert(char_digit(hex_digit(n)) == 0);
        }
    } else {
        lemma_dec_digits_read_back(n / 10);
        assert(d.drop_last() =~= dec_digits(n / 10));
        assert(digits_in_base(d.drop_last(), 10) == n / 10);
        assert(d[0] == dec_digits(n / 10)[0]);
        assert forall|k: int| 0 <= k < d.len() implies '0' <= #[trigger] d[k] && d[k] <= '9' by {
            if k < d.len() - 1 {
                assert(d[k] == dec_digits(n / 10)[k]);
            }
        }
    }
}

/// The hexadecimal digits of `n` read back as `n`, and have no leading zero.
pub proof fn lemma_hex_digits_read_back(n: nat)
    ensures
        hex_digits(n).len() >= 1,
        digits_in_base(hex_digits(n), 16) == n,
        hex_digits(n)[0] == '0' ==> n == 0,
    decreases n,
{
    let d = hex_digits(n);
    lemma_digit_value(n % 16);
    assert(n == (n / 16) * 16 + n % 16);
    if n < 16 {
        assert(d.drop_last() =~= Seq::<char>::empty());
        assert(digits_in_base(d.drop_last(), 16) == 0);
        assert(d[0] == hex_digit(n));
        if hex_digit(n) == '0' {
            assert(char_digit(hex_digit(n)) == 0);
        }
    } else {
        lemma_hex_digits_read_back(n / 16);
        assert(d.drop_last() =~= hex_digits(n / 16));
        assert(digits_in_base(d.drop_last(), 16) == n / 16);
        assert(d[0] == hex_digits(n / 16)[0]);
    }
}

/// The decimal text of an integer reads back as the integer: a `-` for a
/// negative one, then the digits of its magnitude.
pub proof fn lemma_dec_text_read_back(i: int)
    ensures
        i >= 0 ==> dec_text(i) == dec_digits(i as nat) && digits_in_base(dec_text(i), 10) == i,
        i < 0 ==> dec_text(i)[0] == '-' && digits_in_base(dec_text(i).drop_first(), 10) == -i,
        i < 0 ==> dec_text(i).drop_first() == dec_digits((-i) as nat),
{
    if i >= 0 {
        lemma_dec_digits_read_back(i as nat);
    } else {
        lemma_dec_digits_read_back((-i) as nat);
        assert(dec_text(i).drop_first() =~= dec_digits((-i) as nat));
    }
}

/// The hexadecimal text of `n` is `0x` followed by digits that read back
/// as `n`.
pub proof fn lemma_hex_text_read_back(n: nat)
    ensures
        hex_text(n).take(2) == seq!['0', 'x'],
        digits_in_base(hex_text(n).skip(2), 16) == n,
{
    lemma_hex_digits_read_back(n);
    assert(hex_text(n).take(2) =~= seq!['0', 'x']);
    assert(hex_text(n).skip(2) =~= hex_digits(n));
}

/// Joined text starts with the first piece.
pub proof fn lemma_join_starts_with_first(parts: Seq<Seq<char>>, sep: Seq<char>)
    requires
        parts.len() >= 1,
    ensures
        join(parts, sep).len() >= parts[0].len(),
        join(parts, sep).take(parts[0].len() as int) == parts[0],
    decreases parts.len(),
{
    if parts.len() > 1 {
        lemma_join_starts_with_first(parts.drop_last(), sep);
        let j = join(parts.drop_last(), sep);
        assert(parts.drop_last()[0] == parts[0]);
        assert((j + sep + parts.last()).take(parts[0].len() as int) =~= j.take(parts[0].len() as int));
    } else {
        assert(join(parts, sep).take(parts[0].len() as int) =~= parts[0]);
    }
}

/// The integer that a decimal text writes: digits, with a leading `-` for
/// a negative one.
pub open spec fn signed_decimal_value(s: Seq<char>) -> int {
    if s.len() > 0 && s[0] == '-' {
        -digits_in_base(s.drop_first(), 10)
    } else {
        digits_in_base(s, 10)
    }
}

/// The decimal text of every integer reads back as that integer.
pub proof fn lemma_dec_text_value(i: int)
    ensures
        signed_decimal_value(dec_text(i)) == i,
{
    lemma_dec_text_read_back(i);
    if i >= 0 {
        lemma_dec_digits_read_back(i as nat);
        assert('0' <= dec_digits(i as nat)[0]);
    }
}

} // verus!
