//! The decisions of the tracing loop: pairing each system call's entry stop
//! with its exit stop, and what to print at each stop and at the end.
//!
//! The loop itself (resuming the tracee, waiting for it, reading its
//! registers and memory) is the caller's; at each stop it hands the
//! registers to [`Tracer::on_stop`], and when the tracee is no longer
//! stopped it asks [`Tracer::final_report`] what to print.
use vstd::prelude::*;
use crate::handler::syscall::{
    aarch64_syscall_name, sys_call_name, entry_outcome, exit_outcome, format_syscall_entry, format_syscall_exit, syscall_number,
    Registers,
};
use crate::ptrace::mm::{Probe, ProbeView};
use crate::text::{append_i64, append_str, append_u64, dec_text};

verus! {

/// What the tracer makes of the stop it was handed.
pub enum Stop {
    /// Read the tracee's word at this address, append the result to the
    /// reads, and hand the same stop again.
    Peek(u64),
    /// The next address to read lies beyond the 64-bit address space.
    Overflow,
    /// The stop is dealt with: print these lines and resume the tracee.
    Proceed(Vec<String>),
}

/// The mathematical form of a [`Stop`].
pub enum StopView {
    Peek(u64),
    Overflow,
    Proceed(Seq<Seq<char>>),
}

impl View for Stop {
    type V = StopView;

    open spec fn view(&self) -> StopView {
        match self {
            Stop::Peek(a) => StopView::Peek(*a),
            Stop::Overflow => StopView::Overflow,
            Stop::Proceed(lines) => StopView::Proceed(lines@.map_values(|l: String| l@)),
        }
    }
}

/// The state of the tracing loop between two stops.
pub struct Tracer {
    is_entry: bool,
    pending_output: String,
    current_syscall: String,
    current_syscall_nr: i64,
    read_params: (u64, u64, u64),
    syscall_count: u64,
}

/// The mathematical form of a [`Tracer`].
pub struct TracerView {
    /// Whether the next stop is expected to be a system call entry.
    pub is_entry: bool,
    /// The entry line of the call in progress, printed at its exit.
    pub pending: Seq<char>,
    /// The name of the call in progress.
    pub current: Seq<char>,
    /// The number of the call in progress.
    pub current_nr: i64,
    /// The descriptor, buffer and count of the last `read` entered.
    pub read_params: (u64, u64, u64),
    /// The number of system call entries seen.
    pub count: nat,
}

impl View for Tracer {
    type V = TracerView;

    closed spec fn view(&self) -> TracerView {
        TracerView {
            is_entry: self.is_entry,
            pending: self.pending_output@,
            current: self.current_syscall@,
            current_nr: self.current_syscall_nr,
            read_params: self.read_params,
            count: self.syscall_count as nat,
        }
    }
}

/// The state with no call in progress and an entry expected next.
pub open spec fn cleared(t: TracerView) -> TracerView {
    TracerView { is_entry: true, pending: Seq::empty(), current: Seq::empty(), ..t }
}

/// Whether a stop with call number `nr` breaks the pairing: an exit was
/// expected, but for another call.
pub open spec fn out_of_sync(t: TracerView, nr: i64) -> bool {
    !t.is_entry && nr != t.current_nr
}

/// The line for a call whose exit was never seen, if there is one.
pub open spec fn unfinished_lines(t: TracerView, nr: i64) -> Seq<Seq<char>> {
    if out_of_sync(t, nr) && t.pending.len() > 0 {
        seq![t.pending + " = <unfinished ...>"@]
    } else {
        Seq::empty()
    }
}

/// What a stop with registers `regs` does to the tracer state `t`, given the
/// name of the stop's call number and the word reads made so far: what to
/// do next, and the new state.
///
/// A stop that breaks the pairing first closes the pending call as
/// unfinished. At an entry the entry line is kept and the call becomes the
/// one in progress. At an exit the entry line is printed with the exit
/// part; an exit of `execve` whose result looks like a pointer is the
/// exec stop, which neither prints nor counts as the exit. While memory is
/// still to be read the state stays as it was.
pub open spec fn stop_step(
    t: TracerView,
    regs: Seq<u64>,
    name: Option<Seq<char>>,
    reads: Seq<Option<u64>>,
) -> (StopView, TracerView) {
    let nr = syscall_number(regs);
    let u = if out_of_sync(t, nr) { cleared(t) } else { t };
    let lines = unfinished_lines(t, nr);
    if u.is_entry {
        match entry_outcome(regs, name, reads) {
            ProbeView::Peek(a) => (StopView::Peek(a), t),
            ProbeView::Overflow => (StopView::Overflow, t),
            ProbeView::Done(text) => (
                StopView::Proceed(lines),
                TracerView {
                    is_entry: false,
                    pending: text,
                    current: match name {
                        Some(n) => n,
                        None => u.current,
                    },
                    current_nr: nr,
                    read_params: if name == Some("read"@) {
                        (regs[0], regs[1], regs[2])
                    } else {
                        u.read_params
                    },
                    count: u.count + 1,
                },
            ),
        }
    } else {
        let retval = regs[0] as i64;
        if u.current == "execve"@ {
            if retval > 0x10000 {
                (StopView::Proceed(lines), u)
            } else {
                (StopView::Proceed(lines + seq![u.pending + " = "@ + dec_text(retval as int)]), cleared(u))
            }
        } else {
            match exit_outcome(regs, name, u.read_params, reads) {
                ProbeView::Peek(a) => (StopView::Peek(a), t),
                ProbeView::Overflow => (StopView::Overflow, t),
                ProbeView::Done(text) => (StopView::Proceed(lines + seq![u.pending + text]), cleared(u)),
            }
        }
    }
}

/// Whether a wait status reports a stopped child (`WIFSTOPPED`).
pub open spec fn status_stopped(status: i32) -> bool {
    (status & 0xff) == 0x7f
}

/// Whether a wait status reports a child that exited (`WIFEXITED`).
pub open spec fn status_exited(status: i32) -> bool {
    (status & 0x7f) == 0
}

/// Whether a wait status reports a child killed by a signal (`WIFSIGNALED`).
pub open spec fn status_signaled(status: i32) -> bool {
    (((status & 0x7f) + 1) as i8) >= 2
}

/// `libc::WIFSTOPPED`: the low byte of the status is `0x7f`.
#[verifier::external_body]
fn wifstopped(status: i32) -> (r: bool)
    ensures
        r == status_stopped(status),
{
    libc::WIFSTOPPED(status)
}

/// `libc::WIFEXITED`: the low seven bits of the status are zero.
#[verifier::external_body]
fn wifexited(status: i32) -> (r: bool)
    ensures
        r == status_exited(status),
{
    libc::WIFEXITED(status)
}

/// `libc::WEXITSTATUS`: the second byte of the status.
#[verifier::external_body]
fn wexitstatus(status: i32) -> (r: i32)
    ensures
        r == (status >> 8) & 0xff,
{
    libc::WEXITSTATUS(status)
}

/// `libc::WIFSIGNALED`: the low seven bits plus one, as a signed byte, are
/// at least two.
#[verifier::external_body]
fn wifsignaled(status: i32) -> (r: bool)
    ensures
        r == status_signaled(status),
{
    libc::WIFSIGNALED(status)
}

/// `libc::WTERMSIG`: the low seven bits of the status.
#[verifier::external_body]
fn wtermsig(status: i32) -> (r: i32)
    ensures
        r == status & 0x7f,
{
    libc::WTERMSIG(status)
}

/// The lines printed when the tracee is no longer stopped: how it ended,
/// and in verbose mode how many calls were traced.
pub open spec fn report_lines(status: i32, verbose: bool, count: nat) -> Seq<Seq<char>> {
    let total = if verbose {
        seq!["strace: Total syscalls traced: "@ + dec_text(count as int)]
    } else {
        Seq::empty()
    };
    if status_exited(status) {
        seq!["+++ exited with "@ + dec_text(((status >> 8) & 0xff) as int) + " +++"@] + total
    } else if status_signaled(status) {
        seq!["+++ killed by signal "@ + dec_text((status & 0x7f) as int) + " +++"@] + total
    } else {
        Seq::empty()
    }
}

/// Whether the loop goes on after a wait that reported `status`: as long
/// as the tracee is stopped.
pub fn keeps_tracing(status: i32) -> (r: bool)
    ensures
        r == status_stopped(status),
{
    wifstopped(status)
}

impl Tracer {
    /// The state before the first stop: an entry is expected, nothing is in
    /// progress, nothing has been counted.
    pub fn new() -> (t: Tracer)
        ensures
            t@ == (TracerView {
                is_entry: true,
                pending: Seq::empty(),
                current: Seq::empty(),
                current_nr: -1i64,
                read_params: (0u64, 0u64, 0u64),
                count: 0nat,
            }),
            well_paired(t@),
    {
        Tracer {
            is_entry: true,
            pending_output: String::new(),
            current_syscall: String::new(),
            current_syscall_nr: -1,
            read_params: (0, 0, 0),
            syscall_count: 0,
        }
    }

    /// The number of system call entries seen.
    pub fn syscall_count(&self) -> (n: u64)
        ensures
            n == self@.count,
    {
        self.syscall_count
    }

    /// Deals with a stop whose call number has the name `name`, given the
    /// results of the word reads made so far at this stop.
    pub fn on_stop_named(&mut self, regs: &Registers, name: Option<&str>, reads: &Vec<Option<u64>>) -> (s: Stop)
        requires
            old(self)@.count < u64::MAX,
        ensures
            (s@, final(self)@) == stop_step(old(self)@, regs.regs@, name.deep_view(), reads@),
            well_paired(old(self)@) ==> well_paired(final(self)@),
    {
        let ghost t = self@;
        proof {
            if well_paired(t) {
                lemma_stop_keeps_pairing(t, regs.regs@, name.deep_view(), reads@);
            }
        }
        #[verifier::truncate]
        let nr: i64 = regs.regs[8] as i64;
        let mut lines: Vec<String> = Vec::new();
        let resync = !self.is_entry && nr != self.current_syscall_nr;
        if resync && !self.pending_output.as_str().is_empty() {
            let mut line = self.pending_output.clone();
            append_str(&mut line, " = <unfinished ...>");
            lines.push(line);
        }
        assert(lines@.map_values(|l: String| l@) =~= unfinished_lines(t, nr));
        if self.is_entry || resync {
            match format_syscall_entry(regs, name, reads) {
                Probe::Peek(a) => Stop::Peek(a),
                Probe::Overflow => Stop::Overflow,
                Probe::Done(text) => {
                    if resync {
                        self.current_syscall = String::new();
                    }
                    match name {
                        Some(n) => {
                            self.current_syscall = n.to_owned();
                            if n.to_owned() == "read".to_owned() {
                                self.read_params = (regs.regs[0], regs.regs[1], regs.regs[2]);
                            }
                        },
                        None => {},
                    }
                    self.is_entry = false;
                    self.pending_output = text;
                    self.current_syscall_nr = nr;
                    self.syscall_count = self.syscall_count + 1;
                    Stop::Proceed(lines)
                },
            }
        } else {
            #[verifier::truncate]
            let retval: i64 = regs.regs[0] as i64;
            let line;
            if self.current_syscall == "execve".to_owned() {
                if retval > 0x10000 {
                    return Stop::Proceed(lines);
                }
                let mut l = self.pending_output.clone();
                append_str(&mut l, " = ");
                append_i64(&mut l, retval);
                line = l;
            } else {
                match format_syscall_exit(regs, name, self.read_params, reads) {
                    Probe::Peek(a) => {
                        return Stop::Peek(a);
                    },
                    Probe::Overflow => {
                        return Stop::Overflow;
                    },
                    Probe::Done(text) => {
                        let mut l = self.pending_output.clone();
                        append_str(&mut l, text.as_str());
                        line = l;
                    },
                }
            }
            let ghost before = lines@.map_values(|l: String| l@);
            lines.push(line);
            assert(lines@.map_values(|l: String| l@) =~= before + seq![line@]);
            self.pending_output = String::new();
            self.current_syscall = String::new();
            self.is_entry = true;
            Stop::Proceed(lines)
        }
    }

    /// Deals with a stop, looking the name of its call number up in the
    /// AArch64 table, given the results of the word reads made so far at
    /// this stop.
    pub fn on_stop(&mut self, regs: &Registers, reads: &Vec<Option<u64>>) -> (s: Stop)
        requires
            old(self)@.count < u64::MAX,
        ensures
            (s@, final(self)@) == stop_step(
                old(self)@,
                regs.regs@,
                aarch64_syscall_name(syscall_number(regs.regs@)),
                reads@,
            ),
            well_paired(old(self)@) ==> well_paired(final(self)@),
    {
        #[verifier::truncate]
        let nr: i64 = regs.regs[8] as i64;
        let name = sys_call_name(nr);
        self.on_stop_named(regs, name, reads)
    }

    /// The lines to print once a wait reports `status` for a tracee that is
    /// no longer stopped.
    pub fn final_report(&self, status: i32, verbose: bool) -> (lines: Vec<String>)
        ensures
            lines@.map_values(|l: String| l@) == report_lines(status, verbose, self@.count),
    {
        let mut lines: Vec<String> = Vec::new();
        let mut total = String::new();
        append_str(&mut total, "strace: Total syscalls traced: ");
        append_u64(&mut total, self.syscall_count);
        if wifexited(status) {
            let mut l = String::new();
            append_str(&mut l, "+++ exited with ");
            append_i64(&mut l, wexitstatus(status) as i64);
            append_str(&mut l, " +++");
            lines.push(l);
            if verbose {
                lines.push(total);
            }
        } else if wifsignaled(status) {
            let mut l = String::new();
            append_str(&mut l, "+++ killed by signal ");
            append_i64(&mut l, wtermsig(status) as i64);
            append_str(&mut l, " +++");
            lines.push(l);
            if verbose {
                lines.push(total);
            }
        }
        assert(lines@.map_values(|l: String| l@) =~= report_lines(status, verbose, self@.count));
        lines
    }
}

/// Whether entries and exits are paired up: while an entry is expected, no
/// call is in progress.
pub open spec fn well_paired(t: TracerView) -> bool {
    t.is_entry ==> t.pending.len() == 0 && t.current.len() == 0
}

/// The tracer starts paired up, and every stop keeps it so.
pub proof fn lemma_stop_keeps_pairing(
    t: TracerView,
    regs: Seq<u64>,
    name: Option<Seq<char>>,
    reads: Seq<Option<u64>>,
)
    requires
        well_paired(t),
    ensures
        well_paired(stop_step(t, regs, name, reads).1),
        well_paired(TracerView {
            is_entry: true,
            pending: Seq::empty(),
            current: Seq::empty(),
            current_nr: -1i64,
            read_params: (0u64, 0u64, 0u64),
            count: 0nat,
        }),
{
}

/// A stop changes the state only when it is dealt with, and counts a call
/// exactly when it is taken as an entry.
pub proof fn lemma_stop_counts_entries(
    t: TracerView,
    regs: Seq<u64>,
    name: Option<Seq<char>>,
    reads: Seq<Option<u64>>,
)
    ensures
        !(stop_step(t, regs, name, reads).0 is Proceed) ==> stop_step(t, regs, name, reads).1 == t,
        stop_step(t, regs, name, reads).0 is Proceed ==> stop_step(t, regs, name, reads).1.count == t.count
            + (if t.is_entry || out_of_sync(t, syscall_number(regs)) { 1int } else { 0int }),
{
}

/// The exit of the call in progress prints one line, which begins with the
/// call's entry line, and leaves no call in progress; an exit that is not
/// the exec stop of `execve` is such an exit.
pub proof fn lemma_exit_completes_entry(
    t: TracerView,
    regs: Seq<u64>,
    name: Option<Seq<char>>,
    reads: Seq<Option<u64>>,
)
    requires
        !t.is_entry,
        syscall_number(regs) == t.current_nr,
        stop_step(t, regs, name, reads).0 is Proceed,
        stop_step(t, regs, name, reads).1.is_entry,
    ensures
        ({
            let lines = stop_step(t, regs, name, reads).0->Proceed_0;
            &&& lines.len() == 1
            &&& lines[0].take(t.pending.len() as int) == t.pending
        }),
        stop_step(t, regs, name, reads).1 == cleared(t),
{
    let (stop, next) = stop_step(t, regs, name, reads);
    let lines = stop->Proceed_0;
    assert(unfinished_lines(t, syscall_number(regs)) =~= Seq::<Seq<char>>::empty());
    if t.current == "execve"@ && (regs[0] as i64) <= 0x10000 {
        assert(lines[0].take(t.pending.len() as int) =~= t.pending);
    } else if t.current != "execve"@ {
        assert(lines[0].take(t.pending.len() as int) =~= t.pending);
    }
}

/// The state after an entry stop: the entry line is pending, the call is in
/// progress, and it is counted.
pub open spec fn after_entry(
    t: TracerView,
    regs: Seq<u64>,
    name: Option<Seq<char>>,
    text: Seq<char>,
) -> TracerView {
    TracerView {
        is_entry: false,
        pending: text,
        current: match name {
            Some(n) => n,
            None => t.current,
        },
        current_nr: syscall_number(regs),
        read_params: if name == Some("read"@) { (regs[0], regs[1], regs[2]) } else { t.read_params },
        count: t.count + 1,
    }
}

/// An entry stop followed by the exit stop of the same call (other than
/// `execve`) prints exactly one line, the entry text followed by the exit
/// text, and the stop after it is taken as an entry. The exit text is
/// rendered with the arguments kept from the latest `read` entry.
pub proof fn lemma_entry_then_exit(
    t: TracerView,
    e: Seq<u64>,
    x: Seq<u64>,
    name: Option<Seq<char>>,
    entry_reads: Seq<Option<u64>>,
    exit_reads: Seq<Option<u64>>,
    entry_text: Seq<char>,
    exit_text: Seq<char>,
)
    requires
        t.is_entry,
        well_paired(t),
        name != Some("execve"@),
        syscall_number(x) == syscall_number(e),
        entry_outcome(e, name, entry_reads) == ProbeView::Done(entry_text),
        exit_outcome(x, name, after_entry(t, e, name, entry_text).read_params, exit_reads)
            == ProbeView::Done(exit_text),
    ensures
        stop_step(t, e, name, entry_reads) == (
            StopView::Proceed(Seq::empty()),
            after_entry(t, e, name, entry_text),
        ),
        stop_step(after_entry(t, e, name, entry_text), x, name, exit_reads) == (
            StopView::Proceed(seq![entry_text + exit_text]),
            cleared(after_entry(t, e, name, entry_text)),
        ),
        cleared(after_entry(t, e, name, entry_text)).is_entry,
{
    reveal_strlit("execve");
    let t1 = after_entry(t, e, name, entry_text);
    assert(unfinished_lines(t, syscall_number(e)) =~= Seq::<Seq<char>>::empty());
    assert(unfinished_lines(t1, syscall_number(x)) =~= Seq::<Seq<char>>::empty());
    assert(t1.current != "execve"@);
    assert(Seq::<Seq<char>>::empty() + seq![t1.pending + exit_text] =~= seq![entry_text + exit_text]);
}

/// A stop for another call where the exit of the pending call was expected
/// closes the pending call: its entry text, if any, is printed followed by
/// ` = <unfinished ...>`, and the stop is taken as a new entry, which is
/// counted and whose text becomes the pending one.
pub proof fn lemma_lost_exit(
    t: TracerView,
    e: Seq<u64>,
    x: Seq<u64>,
    name_e: Option<Seq<char>>,
    name_x: Option<Seq<char>>,
    entry_reads: Seq<Option<u64>>,
    next_reads: Seq<Option<u64>>,
    entry_text: Seq<char>,
    next_text: Seq<char>,
)
    requires
        t.is_entry,
        well_paired(t),
        syscall_number(x) != syscall_number(e),
        entry_outcome(e, name_e, entry_reads) == ProbeView::Done(entry_text),
        entry_outcome(x, name_x, next_reads) == ProbeView::Done(next_text),
    ensures
        ({
            let t1 = after_entry(t, e, name_e, entry_text);
            let (stop, t2) = stop_step(t1, x, name_x, next_reads);
            &&& stop == StopView::Proceed(
                if entry_text.len() > 0 {
                    seq![entry_text + " = <unfinished ...>"@]
                } else {
                    Seq::empty()
                },
            )
            &&& t2 == after_entry(cleared(t1), x, name_x, next_text)
            &&& !t2.is_entry
            &&& t2.pending == next_text
            &&& t2.count == t.count + 2
        }),
{
    let t1 = after_entry(t, e, name_e, entry_text);
    assert(stop_step(t, e, name_e, entry_reads).1 == t1);
}

/// When the pending call is `execve`, an exit stop of it whose result looks
/// like a pointer is the exec stop: nothing is printed and an exit is still
/// expected. The exit stop with a result of at most `0x10000` prints the
/// entry text followed by ` = ` and the result, and an entry is expected
/// next.
pub proof fn lemma_execve_exec_stop(
    t: TracerView,
    e: Seq<u64>,
    x: Seq<u64>,
    y: Seq<u64>,
    name_x: Option<Seq<char>>,
    name_y: Option<Seq<char>>,
    entry_reads: Seq<Option<u64>>,
    reads_x: Seq<Option<u64>>,
    reads_y: Seq<Option<u64>>,
    entry_text: Seq<char>,
)
    requires
        t.is_entry,
        well_paired(t),
        entry_outcome(e, Some("execve"@), entry_reads) == ProbeView::Done(entry_text),
        syscall_number(x) == syscall_number(e),
        syscall_number(y) == syscall_number(e),
        (x[0] as i64) > 0x10000,
        (y[0] as i64) <= 0x10000,
    ensures
        ({
            let t1 = after_entry(t, e, Some("execve"@), entry_text);
            &&& stop_step(t, e, Some("execve"@), entry_reads) == (StopView::Proceed(Seq::empty()), t1)
            &&& stop_step(t1, x, name_x, reads_x) == (StopView::Proceed(Seq::empty()), t1)
            &&& !t1.is_entry
            &&& stop_step(t1, y, name_y, reads_y) == (
                StopView::Proceed(seq![entry_text + " = "@ + dec_text((y[0] as i64) as int)]),
                cleared(t1),
            )
        }),
{
    let t1 = after_entry(t, e, Some("execve"@), entry_text);
    assert(unfinished_lines(t, syscall_number(e)) =~= Seq::<Seq<char>>::empty());
    assert(unfinished_lines(t1, syscall_number(x)) =~= Seq::<Seq<char>>::empty());
    assert(unfinished_lines(t1, syscall_number(y)) =~= Seq::<Seq<char>>::empty());
    assert(Seq::<Seq<char>>::empty() + seq![entry_text + " = "@ + dec_text((y[0] as i64) as int)]
        =~= seq![entry_text + " = "@ + dec_text((y[0] as i64) as int)]);
}

} // verus!
