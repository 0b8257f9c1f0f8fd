//! Names and sizes of a pseudo-console.
use crate::pty::types::WindowSize;
use crate::text::{string_of, utf16_from};
#[allow(unused_imports)]
use crate::text::utf16_of;
use vstd::prelude::*;

verus! {

/// The size of a pipe's buffers.
pub const PIPE_CAPACITY: u32 = 0x2_0000;

/// A pipe that another end was connected to already.
pub const ERROR_PIPE_CONNECTED: u32 = 535;

/// A size in columns and lines.
#[derive(Clone, Copy, Debug, PartialEq, Eq, Structural)]
pub struct Coord {
    pub x: i16,
    pub y: i16,
}

/// The columns and lines of a window. Numbers beyond the range wrap around.
pub fn coord_of(size: WindowSize) -> (coord: Coord)
    ensures
        coord.x == size.num_cols as i16,
        coord.y == size.num_lines as i16,
{
    Coord { x: size.num_cols as i16, y: size.num_lines as i16 }
}

/// A text in UTF-16 with a zero at its end.
pub fn win32_string(value: &str) -> (units: Vec<u16>)
    ensures
        units@ == utf16_of(value@, value@.len() as int).push(0),
{
    let mut units = utf16_from(value);
    units.push(0);
    units
}

/// The character of a digit.
pub open spec fn digit_char(d: int) -> char {
    if d < 10 {
        (0x30 + d) as char
    } else {
        (0x57 + d) as char
    }
}

/// A number in a base.
pub open spec fn digits(n: int, base: int) -> Seq<char>
    decreases n,
{
    if n < base || base < 2 || n <= 0 {
        seq![digit_char(n)]
    } else {
        proof {
            assert(0 <= n / base < n) by (nonlinear_arith)
                requires
                    base >= 2,
                    n >= base,
            ;
        }
        digits(n / base, base).push(digit_char(n % base))
    }
}

fn push_number(out: &mut Vec<char>, n: u128, base: u128)
    requires
        2 <= base <= 16,
    ensures
        final(out)@ == old(out)@ + digits(n as int, base as int),
    decreases n,
{
    let ghost before = out@;
    if n >= base {
        proof {
            assert(0 <= n / base < n) by (nonlinear_arith)
                requires
                    base >= 2,
                    n >= base,
            ;
        }
        push_number(out, n / base, base);
    }
    let d: u32 = (n % base) as u32;
    let c = if d < 10 {
        char_of(0x30 + d)
    } else {
        char_of(0x57 + d)
    };
    proof {
        if n < base {
            vstd::arithmetic::div_mod::lemma_small_mod(n as nat, base as nat);
        }
    }
    out.push(c);
    assert(out@ =~= before + digits(n as int, base as int));
}

fn char_of(value: u32) -> (c: char)
    requires
        value < 0x80,
    ensures
        c == value as char,
{
    match char::from_u32(value) {
        Some(c) => c,
        None => '?',
    }
}

/// The name of a pipe: it tells the process, a running number and the time.
pub open spec fn name_of_pipe(pid: u32, seq_number: u32, nonce: u128) -> Seq<char> {
    "\\\\.\\pipe\\rustty-conpty-"@ + digits(pid as int, 10) + seq!['-'] + digits(
        seq_number as int,
        10,
    ) + seq!['-'] + digits(nonce as int, 16)
}

/// The name of a pipe from what makes it unique.
pub fn unique_pipe_name(pid: u32, seq_number: u32, nonce: u128) -> (name: String)
    ensures
        name@ == name_of_pipe(pid, seq_number, nonce),
{
    let mut out = crate::text::chars_of("\\\\.\\pipe\\rustty-conpty-");
    push_number(&mut out, pid as u128, 10);
    out.push('-');
    push_number(&mut out, seq_number as u128, 10);
    out.push('-');
    push_number(&mut out, nonce, 16);
    assert(out@ =~= name_of_pipe(pid, seq_number, nonce));
    string_of(&out)
}

/// Whether a pipe's other end is there: the call said so, or the error says
/// that it was already.
pub fn pipe_is_connected(connected: bool, last_error: u32) -> (yes: bool)
    ensures
        yes == (connected || last_error == ERROR_PIPE_CONNECTED),
{
    connected || last_error == ERROR_PIPE_CONNECTED
}

/// What holds a pseudo-console.
#[derive(Clone, Copy, Debug)]
pub struct PtySession {
    handle: Option<isize>,
    closing: bool,
}

/// A session at one moment.
#[verifier::ext_equal]
pub struct SessionModel {
    /// The handle, unless it was given up.
    pub held: Option<isize>,
    /// Whether it is being closed in the background.
    pub closing: bool,
}

impl SessionModel {
    /// What is given up for closing.
    pub open spec fn given_up(self) -> Option<isize> {
        if self.closing {
            None
        } else {
            self.held
        }
    }

    /// The session after it was closed.
    pub open spec fn closed(self) -> SessionModel {
        if self.closing {
            self
        } else {
            SessionModel { held: None, closing: self.held is Some }
        }
    }
}

impl View for PtySession {
    type V = SessionModel;

    closed spec fn view(&self) -> SessionModel {
        SessionModel { held: self.handle, closing: self.closing }
    }
}

impl PtySession {
    /// A session that holds a console.
    pub fn new(handle: isize) -> (session: PtySession)
        ensures
            session@ == (SessionModel { held: Some(handle), closing: false }),
    {
        PtySession { handle: Some(handle), closing: false }
    }

    /// The handle, 0 if it was given up.
    pub fn raw_hpcon(&self) -> (handle: isize)
        ensures
            handle == match self@.held {
                Some(handle) => handle,
                None => 0,
            },
    {
        match self.handle {
            Some(handle) => handle,
            None => 0,
        }
    }

    /// Gives the handle up for closing in the background.
    pub fn close_async(&mut self) -> (handle: Option<isize>)
        ensures
            handle == old(self)@.given_up(),
            final(self)@ == old(self)@.closed(),
    {
        if self.closing {
            return None;
        }
        let handle = self.handle;
        self.handle = None;
        self.closing = handle.is_some();
        handle
    }
}

/// A console is closed once: of a session that was closed nothing is given up
/// any more, and it stays as it is.
pub proof fn law_console_closes_once(session: SessionModel)
    ensures
        session.closed().given_up() is None,
        session.closed().closed() == session.closed(),
{
}

/// A session that holds a console gives up that console, and does not hold it any
/// more. One that holds none gives up none.
pub proof fn law_what_is_given_up(session: SessionModel, handle: isize)
    ensures
        session.held == Some(handle) && !session.closing ==> {
            &&& session.given_up() == Some(handle)
            &&& session.closed().held is None
            &&& session.closed().closing
        },
        session.held is None ==> session.given_up() is None && session.closed() == session,
{
}

/// What a digit stands for.
pub open spec fn digit_value(c: char) -> int {
    if '0' <= c <= '9' {
        c as int - '0' as int
    } else if 'a' <= c <= 'f' {
        c as int - 'a' as int + 10
    } else {
        -1
    }
}

/// The number that digits stand for.
pub open spec fn number_read(text: Seq<char>, base: int) -> int
    decreases text.len(),
{
    if text.len() == 0 {
        0
    } else {
        number_read(text.drop_last(), base) * base + digit_value(text.last())
    }
}

/// A number reads back from its digits, in any base up to 16; there are no zeros
/// before it, and its digits are small.
pub proof fn law_number_reads_back(n: int, base: int)
    requires
        n >= 0,
        2 <= base <= 16,
    ensures
        number_read(digits(n, base), base) == n,
        digits(n, base).len() > 0,
        forall|i: int|
            0 <= i < digits(n, base).len() ==> 0 <= digit_value(#[trigger] digits(n, base)[i])
                < base,
        n > 0 ==> digits(n, base)[0] != '0',
    decreases n,
{
    let text = digits(n, base);
    if n < base {
        assert(text.drop_last() =~= Seq::empty());
        reveal_with_fuel(number_read, 2);
        assert(digit_value(digit_char(n)) == n);
        if n < 10 {
            assert(0x30 + n == (0x30 + n) as char as int);
        }
    } else {
        assert(0 < n / base < n && n / base * base + n % base == n && 0 <= n % base < base)
            by (nonlinear_arith)
            requires
                base >= 2,
                n >= base,
        ;
        law_number_reads_back(n / base, base);
        let before = digits(n / base, base);
        assert(text.drop_last() =~= before);
        assert(digit_value(digit_char(n % base)) == n % base);
        assert forall|i: int| 0 <= i < text.len() implies 0 <= digit_value(#[trigger] text[i])
            < base by {
            if i < before.len() {
                assert(text[i] == before[i]);
            }
        }
        assert(text[0] == before[0]);
    }
}

/// A pipe's name is unique to the process, the number and the time that made it.
pub proof fn law_pipe_names_differ(
    pid: u32,
    seq_number: u32,
    nonce: u128,
    other_pid: u32,
    other_number: u32,
    other_nonce: u128,
)
    requires
        name_of_pipe(pid, seq_number, nonce) == name_of_pipe(other_pid, other_number, other_nonce),
    ensures
        pid == other_pid,
        seq_number == other_number,
        nonce == other_nonce,
{
    let head = "\\\\.\\pipe\\rustty-conpty-"@;
    let a = name_of_pipe(pid, seq_number, nonce);
    let b = name_of_pipe(other_pid, other_number, other_nonce);
    let (p, q, r) = (digits(pid as int, 10), digits(seq_number as int, 10), digits(nonce as int, 16));
    let (s, t, u) = (
        digits(other_pid as int, 10),
        digits(other_number as int, 10),
        digits(other_nonce as int, 16),
    );
    law_number_reads_back(pid as int, 10);
    law_number_reads_back(seq_number as int, 10);
    law_number_reads_back(nonce as int, 16);
    law_number_reads_back(other_pid as int, 10);
    law_number_reads_back(other_number as int, 10);
    law_number_reads_back(other_nonce as int, 16);
    let h = head.len() as int;
    assert(a.skip(h) =~= p + seq!['-'] + q + seq!['-'] + r);
    assert(b.skip(h) =~= s + seq!['-'] + t + seq!['-'] + u);
    assert(a.skip(h) =~= p + seq!['-'] + (q + seq!['-'] + r));
    assert(b.skip(h) =~= s + seq!['-'] + (t + seq!['-'] + u));
    lemma_parted_alike(p, q + seq!['-'] + r, s, t + seq!['-'] + u);
    lemma_parted_alike(q, r, t, u);
}

proof fn lemma_parted_alike(p: Seq<char>, q: Seq<char>, s: Seq<char>, t: Seq<char>)
    requires
        p + seq!['-'] + q == s + seq!['-'] + t,
        forall|i: int| 0 <= i < p.len() ==> 0 <= digit_value(#[trigger] p[i]),
        forall|i: int| 0 <= i < s.len() ==> 0 <= digit_value(#[trigger] s[i]),
    ensures
        p == s,
        q == t,
{
    let a = p + seq!['-'] + q;
    let b = s + seq!['-'] + t;
    assert(a[p.len() as int] == '-');
    assert(b[s.len() as int] == '-');
    if p.len() < s.len() {
        assert(s[p.len() as int] == '-');
    }
    if s.len() < p.len() {
        assert(p[s.len() as int] == '-');
    }
    assert(p =~= a.take(p.len() as int));
    assert(s =~= a.take(p.len() as int));
    assert(q =~= a.skip(p.len() as int + 1));
    assert(t =~= a.skip(p.len() as int + 1));
}

/// A pipe holds 128 KiB, and an end that is there already has the system's number.
pub proof fn law_numbers_of_a_pipe()
    ensures
        PIPE_CAPACITY == 128 * 1024,
        ERROR_PIPE_CONNECTED == 0x217,
{
}

} // verus!
