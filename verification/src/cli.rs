//! The command line: options, process ids to attach to, and the command to
//! run under the tracer.
use vstd::prelude::*;
use vstd::string::*;
use crate::text::{dec_digits, dec_text, hex_digit, join};

verus! {

/// Whether a character has the Unicode `White_Space` property, which is
/// what `char::is_whitespace` tests.
pub open spec fn is_white_space(c: char) -> bool {
    let u = c as u32;
    (0x09 <= u <= 0x0d) || u == 0x20 || u == 0x85 || u == 0xa0 || u == 0x1680 || (0x2000 <= u
        <= 0x200a) || u == 0x2028 || u == 0x2029 || u == 0x202f || u == 0x205f || u == 0x3000
}

/// Whether a character separates process ids: a comma or white space.
pub open spec fn is_pid_separator(c: char) -> bool {
    c == ',' || is_white_space(c)
}

/// The pieces of `s` between separators, empty ones included: one more
/// than there are separators.
pub open spec fn split_pieces(s: Seq<char>) -> Seq<Seq<char>>
    decreases s.len(),
{
    if s.len() == 0 {
        seq![Seq::empty()]
    } else {
        let p = split_pieces(s.drop_last());
        if is_pid_separator(s.last()) {
            p.push(Seq::empty())
        } else {
            p.update(p.len() - 1, p.last().push(s.last()))
        }
    }
}

/// Whether a character is an ASCII decimal digit.
pub open spec fn is_digit(c: char) -> bool {
    '0' <= c && c <= '9'
}

/// Whether every character of `d` is a decimal digit.
pub open spec fn all_digits(d: Seq<char>) -> bool {
    forall|k: int| 0 <= k < d.len() ==> is_digit(d[k])
}

/// The value of a sequence of decimal digits.
pub open spec fn digits_value(d: Seq<char>) -> int
    decreases d.len(),
{
    if d.len() == 0 {
        0
    } else {
        digits_value(d.drop_last()) * 10 + (d.last() as u32 - '0' as u32)
    }
}

/// What `str::parse::<i32>` makes of a text: an optional `+` or `-` sign,
/// then at least one decimal digit and nothing else, with a value that fits
/// in 32 bits.
pub open spec fn parse_i32(s: Seq<char>) -> Option<i32> {
    let negative = s.len() > 0 && s[0] == '-';
    let digits = if s.len() > 0 && (s[0] == '-' || s[0] == '+') { s.drop_first() } else { s };
    let value = if negative { -digits_value(digits) } else { digits_value(digits) };
    if digits.len() > 0 && all_digits(digits) && i32::MIN <= value <= i32::MAX {
        Some(value as i32)
    } else {
        None
    }
}

/// The process id a piece stands for, if it parses as one.
pub open spec fn piece_pids(piece: Seq<char>) -> Seq<i32> {
    match parse_i32(piece) {
        Some(v) => seq![v],
        None => Seq::empty(),
    }
}

/// The process ids of the pieces that parse as one, in order.
pub open spec fn pieces_pids(pieces: Seq<Seq<char>>) -> Seq<i32>
    decreases pieces.len(),
{
    if pieces.len() == 0 {
        Seq::empty()
    } else {
        pieces_pids(pieces.drop_last()) + piece_pids(pieces.last())
    }
}

/// The process ids written in `s`: the pieces between commas and white
/// space that parse as 32-bit integers, in order; the others are skipped.
pub open spec fn pids_in(s: Seq<char>) -> Seq<i32> {
    pieces_pids(split_pieces(s))
}

proof fn lemma_split_pieces_len(s: Seq<char>)
    ensures
        split_pieces(s).len() >= 1,
    decreases s.len(),
{
    if s.len() > 0 {
        lemma_split_pieces_len(s.drop_last());
    }
}

/// Whether a character has the Unicode `White_Space` property.
fn white_space(c: char) -> (r: bool)
    ensures
        r == is_white_space(c),
{
    let u = c as u32;
    (0x09 <= u && u <= 0x0d) || u == 0x20 || u == 0x85 || u == 0xa0 || u == 0x1680 || (0x2000 <= u
        && u <= 0x200a) || u == 0x2028 || u == 0x2029 || u == 0x202f || u == 0x205f || u == 0x3000
}

/// The larger value a prefix of digits can have before it surely does not
/// fit: one above the magnitude of `i32::MIN`.
const DIGITS_CAP: i64 = 2147483649;

/// Parses a piece as `str::parse::<i32>` does.
pub fn parse_i32_chars(s: &Vec<char>) -> (r: Option<i32>)
    ensures
        r == parse_i32(s@),
{
    let ghost text = s@;
    let negative = s.len() > 0 && s[0] == '-';
    let start: usize = if s.len() > 0 && (s[0] == '-' || s[0] == '+') { 1 } else { 0 };
    let ghost digits = if s.len() > 0 && (s[0] == '-' || s[0] == '+') { text.drop_first() } else { text };
    assert(digits =~= text.skip(start as int));
    if start == s.len() {
        return None;
    }
    // the value of the digits so far, capped at DIGITS_CAP
    let mut acc: i64 = 0;
    let mut i: usize = start;
    while i < s.len()
        invariant
            start <= i <= s.len(),
            digits == text.skip(start as int),
            digits == (if text.len() > 0 && (text[0] == '-' || text[0] == '+') { text.drop_first() } else { text }),
            start == (if text.len() > 0 && (text[0] == '-' || text[0] == '+') { 1int } else { 0int }),
            negative == (text.len() > 0 && text[0] == '-'),
            text == s@,
            forall|k: int| start <= k < i ==> is_digit(text[k]),
            0 <= acc <= DIGITS_CAP,
            acc == (if digits_value(text.subrange(start as int, i as int)) < DIGITS_CAP {
                digits_value(text.subrange(start as int, i as int))
            } else {
                DIGITS_CAP as int
            }),
            digits_value(text.subrange(start as int, i as int)) >= 0,
        decreases s.len() - i,
    {
        let c = s[i];
        if !('0' <= c && c <= '9') {
            assert(digits[i - start] == text[i as int]);
            assert(!is_digit(digits[i - start]));
            assert(!all_digits(digits));
            return None;
        }
        let d = (c as u32 - '0' as u32) as i64;
        let ghost prev = text.subrange(start as int, i as int);
        let ghost next = text.subrange(start as int, i + 1);
        assert(next.drop_last() =~= prev);
        assert(digits_value(next) == digits_value(prev) * 10 + d);
        let wide = acc * 10 + d;
        acc = if wide < DIGITS_CAP { wide } else { DIGITS_CAP };
        i = i + 1;
    }
    assert(text.subrange(start as int, s.len() as int) =~= digits);
    assert forall|k: int| 0 <= k < digits.len() implies is_digit(digits[k]) by {
        assert(digits[k] == text[start + k]);
    }
    assert(all_digits(digits));
    if negative {
        if acc <= 2147483648 {
            Some((-acc) as i32)
        } else {
            None
        }
    } else {
        if acc <= 2147483647 {
            Some(acc as i32)
        } else {
            None
        }
    }
}

/// Parses process ids written between commas and white space, skipping the
/// pieces that are not 32-bit integers.
pub fn parse_pids(pid_str: &str) -> (pids: Vec<i32>)
    ensures
        pids@ == pids_in(pid_str@),
{
    let ghost s = pid_str@;
    let n = pid_str.unicode_len();
    let mut pids: Vec<i32> = Vec::new();
    let mut piece: Vec<char> = Vec::new();
    let mut i: usize = 0;
    proof {
        assert(s.take(0) =~= Seq::<char>::empty());
    }
    while i < n
        invariant
            n == s.len(),
            s == pid_str@,
            i <= n,
            split_pieces(s.take(i as int)).len() >= 1,
            split_pieces(s.take(i as int)).last() == piece@,
            pids@ == pieces_pids(split_pieces(s.take(i as int)).drop_last()),
        decreases n - i,
    {
        let c = pid_str.get_char(i);
        let ghost before = split_pieces(s.take(i as int));
        let ghost after = split_pieces(s.take(i + 1));
        assert(s.take(i + 1).drop_last() =~= s.take(i as int));
        assert(s.take(i + 1).last() == c);
        if c == ',' || white_space(c) {
            let parsed = parse_i32_chars(&piece);
            match parsed {
                Some(v) => pids.push(v),
                None => {},
            }
            assert(after == before.push(Seq::<char>::empty()));
            assert(after.drop_last() =~= before);
            assert(before =~= before.drop_last().push(before.last()));
            assert(pids@ =~= pieces_pids(after.drop_last()));
            piece = Vec::new();
        } else {
            piece.push(c);
            assert(after == before.update(before.len() - 1, before.last().push(c)));
            assert(after.drop_last() =~= before.drop_last());
        }
        i = i + 1;
    }
    proof {
        let all = split_pieces(s.take(n as int));
        assert(s.take(n as int) =~= s);
        assert(all =~= all.drop_last().push(all.last()));
    }
    let parsed = parse_i32_chars(&piece);
    match parsed {
        Some(v) => pids.push(v),
        None => {},
    }
    pids
}

/// What the command line asks for.
pub enum CommandLine {
    /// Too few arguments: print the usage.
    Usage,
    /// `-p` came last, without a process id.
    MissingPid,
    /// The argument of a `-p` held no process id.
    InvalidPids(String),
    /// Trace these processes, in verbose mode or not.
    Attach(Vec<i32>, bool),
    /// Neither processes nor a command were given.
    NoCommand,
    /// Run the command that starts at this argument, in verbose mode or not.
    Run(usize, bool),
}

/// The mathematical form of a [`CommandLine`].
pub enum CommandLineView {
    Usage,
    MissingPid,
    InvalidPids(Seq<char>),
    Attach(Seq<i32>, bool),
    NoCommand,
    Run(nat, bool),
}

impl View for CommandLine {
    type V = CommandLineView;

    open spec fn view(&self) -> CommandLineView {
        match self {
            CommandLine::Usage => CommandLineView::Usage,
            CommandLine::MissingPid => CommandLineView::MissingPid,
            CommandLine::InvalidPids(a) => CommandLineView::InvalidPids(a@),
            CommandLine::Attach(pids, verbose) => CommandLineView::Attach(pids@, *verbose),
            CommandLine::NoCommand => CommandLineView::NoCommand,
            CommandLine::Run(i, verbose) => CommandLineView::Run(*i as nat, *verbose),
        }
    }
}

/// What the options from argument `i` on ask for, given the verbose mode
/// and the process ids gathered before `i`.
///
/// `-v` and `--verbose` set verbose mode; `-p` and `--attach` take the next
/// argument as a list of process ids. The first other argument starts the
/// command, which is run unless processes are to be attached to.
pub open spec fn scan_options(args: Seq<Seq<char>>, i: nat, verbose: bool, pids: Seq<i32>) -> CommandLineView
    decreases args.len() - i,
{
    if i < args.len() && (args[i as int] == "-v"@ || args[i as int] == "--verbose"@) {
        scan_options(args, i + 1, true, pids)
    } else if i < args.len() && (args[i as int] == "-p"@ || args[i as int] == "--attach"@) {
        if i + 1 >= args.len() {
            CommandLineView::MissingPid
        } else if pids_in(args[i + 1 as int]).len() == 0 {
            CommandLineView::InvalidPids(args[i + 1 as int])
        } else {
            scan_options(args, i + 2, verbose, pids + pids_in(args[i + 1 as int]))
        }
    } else if pids.len() > 0 {
        CommandLineView::Attach(pids, verbose)
    } else if i >= args.len() {
        CommandLineView::NoCommand
    } else {
        CommandLineView::Run(i, verbose)
    }
}

/// What a command line (program name first) asks for.
pub open spec fn command_line(args: Seq<Seq<char>>) -> CommandLineView {
    if args.len() < 2 {
        CommandLineView::Usage
    } else {
        scan_options(args, 1, false, Seq::empty())
    }
}

/// Reads the command line (program name first): `[-v] [-p pids]...
/// [command args...]`.
pub fn parse_command_line(args: &Vec<String>) -> (c: CommandLine)
    ensures
        c@ == command_line(args@.map_values(|a: String| a@)),
{
    let ghost a = args@.map_values(|a: String| a@);
    if args.len() < 2 {
        return CommandLine::Usage;
    }
    let mut verbose = false;
    let mut attach_pids: Vec<i32> = Vec::new();
    let mut i: usize = 1;
    while i < args.len()
        invariant
            1 <= i,
            a == args@.map_values(|a: String| a@),
            args.len() >= 2,
            command_line(a) == scan_options(a, i as nat, verbose, attach_pids@),
        ensures
            1 <= i,
            command_line(a) == scan_options(a, i as nat, verbose, attach_pids@),
            i >= args.len() || !(a[i as int] == "-v"@ || a[i as int] == "--verbose"@ || a[i as int] == "-p"@
                || a[i as int] == "--attach"@),
        decreases args.len() - i,
    {
        assert(a[i as int] == args[i as int]@);
        if args[i] == "-v".to_owned() || args[i] == "--verbose".to_owned() {
            verbose = true;
            i = i + 1;
        } else if args[i] == "-p".to_owned() || args[i] == "--attach".to_owned() {
            if i + 1 >= args.len() {
                return CommandLine::MissingPid;
            }
            i = i + 1;
            assert(a[i as int] == args[i as int]@);
            let mut pids = parse_pids(args[i].as_str());
            if pids.len() == 0 {
                return CommandLine::InvalidPids(args[i].clone());
            }
            attach_pids.append(&mut pids);
            i = i + 1;
        } else {
            break;
        }
    }
    if attach_pids.len() > 0 {
        CommandLine::Attach(attach_pids, verbose)
    } else if i >= args.len() {
        CommandLine::NoCommand
    } else {
        CommandLine::Run(i, verbose)
    }
}

/// Process ids written in decimal and separated by commas.
pub open spec fn pids_text(pids: Seq<i32>) -> Seq<char> {
    join(pids.map_values(|p: i32| dec_text(p as int)), seq![','])
}

proof fn lemma_decimal_digit(k: nat)
    requires
        k < 10,
    ensures
        is_digit(hex_digit(k)),
        hex_digit(k) as u32 - '0' as u32 == k,
{
    assert('0' as u32 == 48);
    if k == 0 { assert('0' as u32 == 48); }
    else if k == 1 { assert('1' as u32 == 49); }
    else if k == 2 { assert('2' as u32 == 50); }
    else if k == 3 { assert('3' as u32 == 51); }
    else if k == 4 { assert('4' as u32 == 52); }
    else if k == 5 { assert('5' as u32 == 53); }
    else if k == 6 { assert('6' as u32 == 54); }
    else if k == 7 { assert('7' as u32 == 55); }
    else if k == 8 { assert('8' as u32 == 56); }
    else { assert('9' as u32 == 57); }
}

proof fn lemma_dec_digits(n: nat)
    ensures
        dec_digits(n).len() > 0,
        all_digits(dec_digits(n)),
        digits_value(dec_digits(n)) == n,
    decreases n,
{
    let d = dec_digits(n);
    lemma_decimal_digit((n % 10) as nat);
    assert(n == (n / 10) * 10 + n % 10);
    if n < 10 {
        assert(d.drop_last() =~= Seq::<char>::empty());
        assert(d.last() == hex_digit(n));
        assert(digits_value(d.drop_last()) == 0);
        assert(digits_value(d) == digits_value(d.drop_last()) * 10 + (d.last() as u32 - '0' as u32));
    } else {
        lemma_dec_digits(n / 10);
        assert(d.last() == hex_digit((n % 10) as nat));
        assert(d.drop_last() =~= dec_digits(n / 10));
        assert(digits_value(d.drop_last()) == n / 10);
        assert(digits_value(d) == digits_value(d.drop_last()) * 10 + (d.last() as u32 - '0' as u32));
        assert(d.drop_last() =~= dec_digits(n / 10));
        assert forall|k: int| 0 <= k < d.len() implies is_digit(d[k]) by {
            if k < d.len() - 1 {
                assert(d[k] == dec_digits(n / 10)[k]);
            }
        }
    }
}

/// Reading back the decimal text of a 32-bit integer gives the integer.
proof fn lemma_parse_dec_text(v: i32)
    ensures
        parse_i32(dec_text(v as int)) == Some(v),
        forall|k: int| 0 <= k < dec_text(v as int).len() ==> !is_pid_separator(#[trigger] dec_text(v as int)[k]),
{
    let t = dec_text(v as int);
    if v < 0 {
        let m = (-(v as int)) as nat;
        lemma_dec_digits(m);
        assert(t.drop_first() =~= dec_digits(m));
        assert forall|k: int| 0 <= k < t.len() implies !is_pid_separator(#[trigger] t[k]) by {
            if k > 0 {
                assert(t[k] == dec_digits(m)[k - 1]);
                assert(is_digit(dec_digits(m)[k - 1]));
            }
        }
    } else {
        lemma_dec_digits(v as nat);
        assert(is_digit(t[0]));
        assert forall|k: int| 0 <= k < t.len() implies !is_pid_separator(#[trigger] t[k]) by {
            assert(is_digit(t[k]));
        }
    }
}

/// Splitting text that ends with a piece free of separators extends the
/// last piece by it.
proof fn lemma_split_extend(s: Seq<char>, t: Seq<char>)
    requires
        forall|k: int| 0 <= k < t.len() ==> !is_pid_separator(#[trigger] t[k]),
    ensures
        split_pieces(s + t) == split_pieces(s).update(
            split_pieces(s).len() - 1,
            split_pieces(s).last() + t,
        ),
    decreases t.len(),
{
    lemma_split_pieces_len(s);
    let p = split_pieces(s);
    if t.len() == 0 {
        assert(s + t =~= s);
        assert(p.last() + t =~= p.last());
        assert(p.update(p.len() - 1, p.last() + t) =~= p);
    } else {
        let t0 = t.drop_last();
        assert forall|k: int| 0 <= k < t0.len() implies !is_pid_separator(#[trigger] t0[k]) by {
            assert(t0[k] == t[k]);
        }
        lemma_split_extend(s, t0);
        assert((s + t).drop_last() =~= s + t0);
        assert((s + t).last() == t.last());
        let q = p.update(p.len() - 1, p.last() + t0);
        assert(q.last() == p.last() + t0);
        assert(q.last().push(t.last()) =~= p.last() + t);
        assert(q.update(q.len() - 1, q.last().push(t.last())) =~= p.update(p.len() - 1, p.last() + t));
    }
}

/// Splitting text joined with commas gives back its pieces, when none of
/// them holds a separator.
proof fn lemma_split_join(parts: Seq<Seq<char>>)
    requires
        parts.len() >= 1,
        forall|i: int, k: int| 0 <= i < parts.len() && 0 <= k < parts[i].len() ==> !is_pid_separator(
            #[trigger] parts[i][k],
        ),
    ensures
        split_pieces(join(parts, seq![','])) == parts,
    decreases parts.len(),
{
    let sep = seq![','];
    if parts.len() == 1 {
        lemma_split_extend(Seq::empty(), parts[0]);
        assert(Seq::<char>::empty() + parts[0] =~= parts[0]);
        assert(split_pieces(Seq::<char>::empty()) =~= seq![Seq::<char>::empty()]);
        assert(Seq::<char>::empty() + parts[0] =~= parts[0]);
        assert(seq![Seq::<char>::empty()].update(0, Seq::<char>::empty() + parts[0]) =~= parts);
    } else {
        let front = parts.drop_last();
        assert forall|i: int, k: int| 0 <= i < front.len() && 0 <= k < front[i].len() implies !is_pid_separator(
            #[trigger] front[i][k],
        ) by {
            assert(front[i] == parts[i]);
        }
        lemma_split_join(front);
        let head = join(front, sep) + sep;
        assert(head.drop_last() =~= join(front, sep));
        assert(head.last() == ',');
        assert(split_pieces(head) == front.push(Seq::<char>::empty()));
        let last = parts.last();
        assert forall|k: int| 0 <= k < last.len() implies !is_pid_separator(#[trigger] last[k]) by {
            assert(last[k] == parts[parts.len() - 1][k]);
        }
        lemma_split_extend(head, last);
        assert(join(parts, sep) == head + last);
        let p = front.push(Seq::<char>::empty());
        assert(p.last() + last =~= last);
        assert(p.update(p.len() - 1, p.last() + last) =~= parts);
    }
}

/// Process ids written in decimal and separated by commas are read back as
/// they were written.
pub proof fn lemma_pids_round_trip(pids: Seq<i32>)
    ensures
        pids_in(pids_text(pids)) == pids,
    decreases pids.len(),
{
    let parts = pids.map_values(|p: i32| dec_text(p as int));
    if pids.len() == 0 {
        assert(pids_text(pids) =~= Seq::<char>::empty());
        assert(split_pieces(Seq::<char>::empty()) =~= seq![Seq::<char>::empty()]);
        assert(seq![Seq::<char>::empty()].drop_last() =~= Seq::<Seq<char>>::empty());
        let e = Seq::<char>::empty();
        let one = seq![e];
        assert(parse_i32(e) is None);
        assert(one.last() == e);
        assert(one.drop_last() =~= Seq::<Seq<char>>::empty());
        assert(pieces_pids(one.drop_last()) == Seq::<i32>::empty());
        assert(piece_pids(e) == Seq::<i32>::empty());
        assert(pieces_pids(one) =~= Seq::<i32>::empty());
        assert(pids_in(pids_text(pids)) =~= pids);
    } else {
        assert forall|i: int, k: int| 0 <= i < parts.len() && 0 <= k < parts[i].len() implies !is_pid_separator(
            #[trigger] parts[i][k],
        ) by {
            lemma_parse_dec_text(pids[i]);
            assert(parts[i] == dec_text(pids[i] as int));
        }
        lemma_split_join(parts);
        lemma_pieces_pids(pids);
    }
}

proof fn lemma_pieces_pids(pids: Seq<i32>)
    ensures
        pieces_pids(pids.map_values(|p: i32| dec_text(p as int))) == pids,
    decreases pids.len(),
{
    let parts = pids.map_values(|p: i32| dec_text(p as int));
    if pids.len() > 0 {
        lemma_pieces_pids(pids.drop_last());
        assert(parts.drop_last() =~= pids.drop_last().map_values(|p: i32| dec_text(p as int)));
        lemma_parse_dec_text(pids.last());
        assert(pids =~= pids.drop_last() + seq![pids.last()]);
    } else {
        assert(parts =~= Seq::<Seq<char>>::empty());
    }
}

/// Splitting text made of two parts joined by a comma gives the pieces of
/// the first part, then those of the second.
proof fn lemma_split_comma_concat(a: Seq<char>, b: Seq<char>)
    ensures
        split_pieces(a + seq![','] + b) == split_pieces(a) + split_pieces(b),
    decreases b.len(),
{
    lemma_split_pieces_len(a);
    lemma_split_pieces_len(b);
    let whole = a + seq![','] + b;
    if b.len() == 0 {
        assert(whole.drop_last() =~= a);
        assert(whole.last() == ',');
        assert(split_pieces(b) =~= seq![Seq::<char>::empty()]);
        assert(split_pieces(a).push(Seq::<char>::empty()) =~= split_pieces(a) + split_pieces(b));
    } else {
        let b0 = b.drop_last();
        lemma_split_comma_concat(a, b0);
        lemma_split_pieces_len(b0);
        assert(whole.drop_last() =~= a + seq![','] + b0);
        assert(whole.last() == b.last());
        let pa = split_pieces(a);
        let pb0 = split_pieces(b0);
        let p = pa + pb0;
        if is_pid_separator(b.last()) {
            assert(p.push(Seq::<char>::empty()) =~= pa + pb0.push(Seq::<char>::empty()));
        } else {
            assert(p.last() == pb0.last());
            assert(p.update(p.len() - 1, p.last().push(b.last())) =~= pa + pb0.update(
                pb0.len() - 1,
                pb0.last().push(b.last()),
            ));
        }
    }
}

proof fn lemma_pieces_pids_concat(p: Seq<Seq<char>>, q: Seq<Seq<char>>)
    ensures
        pieces_pids(p + q) == pieces_pids(p) + pieces_pids(q),
    decreases q.len(),
{
    if q.len() == 0 {
        assert(p + q =~= p);
        assert(pieces_pids(p) + pieces_pids(q) =~= pieces_pids(p));
    } else {
        lemma_pieces_pids_concat(p, q.drop_last());
        assert((p + q).drop_last() =~= p + q.drop_last());
        assert((p + q).last() == q.last());
        assert(pieces_pids(p) + pieces_pids(q) =~= (pieces_pids(p) + pieces_pids(q.drop_last()))
            + piece_pids(q.last()));
    }
}

/// A comma ends a piece: the process ids of two texts joined by a comma
/// are those of the first text, then those of the second.
pub proof fn lemma_pids_comma_concat(a: Seq<char>, b: Seq<char>)
    ensures
        pids_in(a + seq![','] + b) == pids_in(a) + pids_in(b),
{
    lemma_split_comma_concat(a, b);
    lemma_pieces_pids_concat(split_pieces(a), split_pieces(b));
}

} // verus!
