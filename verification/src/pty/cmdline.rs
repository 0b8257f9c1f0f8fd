//! The command line of a child process.
use crate::pty::types::{Options, Shell};
use crate::text::chars_of;
#[allow(unused_imports)]
use crate::text::texts;
use vstd::prelude::*;

verus! {

/// Whether a character separates arguments.
pub open spec fn is_blank(c: char) -> bool {
    c == ' ' || c == '\t'
}

/// So many backslashes.
pub open spec fn slashes(n: nat) -> Seq<char> {
    Seq::new(n, |i: int| '\\')
}

/// Whether an argument has to stand in quotes.
pub open spec fn needs_quotes(arg: Seq<char>) -> bool {
    arg.len() == 0 || exists|i: int| 0 <= i < arg.len() && is_blank(#[trigger] arg[i])
}

/// The rest of an argument from place `i` on, after `n` backslashes: a quote
/// inside gets one backslash more than stand before it, and so many again; so
/// does the end, if it is followed by a quote.
pub open spec fn escaped_from(arg: Seq<char>, i: int, n: nat, quoted: bool) -> Seq<char>
    decreases arg.len() - i,
{
    if i < 0 || i >= arg.len() {
        if quoted {
            slashes(n)
        } else {
            Seq::empty()
        }
    } else if arg[i] == '\\' {
        seq!['\\'] + escaped_from(arg, i + 1, n + 1, quoted)
    } else if arg[i] == '"' {
        slashes(n + 1) + (seq!['"'] + escaped_from(arg, i + 1, 0, quoted))
    } else {
        seq![arg[i]] + escaped_from(arg, i + 1, 0, quoted)
    }
}

/// An argument as it stands in a command line.
pub open spec fn escaped(arg: Seq<char>) -> Seq<char> {
    if needs_quotes(arg) {
        seq!['"'] + escaped_from(arg, 0, 0, true) + seq!['"']
    } else {
        escaped_from(arg, 0, 0, false)
    }
}

fn push_slashes(cmd: &mut String, n: usize)
    ensures
        final(cmd)@ == old(cmd)@ + slashes(n as nat),
{
    let mut k: usize = 0;
    assert(cmd@ =~= old(cmd)@ + slashes(0));
    while k < n
        invariant
            k <= n,
            cmd@ == old(cmd)@ + slashes(k as nat),
        decreases n - k,
    {
        cmd.push('\\');
        k += 1;
        assert(cmd@ =~= old(cmd)@ + slashes(k as nat));
    }
}

fn has_blank(chars: &Vec<char>) -> (any: bool)
    ensures
        any == exists|i: int| 0 <= i < chars@.len() && is_blank(#[trigger] chars@[i]),
{
    let mut i: usize = 0;
    while i < chars.len()
        invariant
            i <= chars@.len(),
            forall|j: int| 0 <= j < i ==> !is_blank(#[trigger] chars@[j]),
        decreases chars@.len() - i,
    {
        if chars[i] == ' ' || chars[i] == '\t' {
            assert(is_blank(chars@[i as int]));
            return true;
        }
        i += 1;
    }
    false
}

/// Adds an argument to a command line.
pub fn push_escaped_arg(cmd: &mut String, arg: &str)
    ensures
        final(cmd)@ == old(cmd)@ + escaped(arg@),
{
    let ghost before = cmd@;
    let chars = chars_of(arg);
    let quote: bool = chars.len() == 0 || has_blank(&chars);
    assert(quote == needs_quotes(arg@));
    if quote {
        cmd.push('"');
    }
    let ghost start = cmd@;
    let mut backslashes: usize = 0;
    let mut i: usize = 0;
    let ghost all = escaped_from(arg@, 0, 0, quote);
    assert(cmd@ + escaped_from(arg@, 0, 0, quote) == start + all);
    while i < chars.len()
        invariant
            i <= chars@.len(),
            chars@ == arg@,
            backslashes <= i,
            all == escaped_from(arg@, 0, 0, quote),
            cmd@ + escaped_from(arg@, i as int, backslashes as nat, quote) == start + all,
        decreases chars@.len() - i,
    {
        let x: char = chars[i];
        let ghost now = cmd@;
        let ghost n = backslashes as nat;
        if x == '\\' {
            backslashes += 1;
        } else {
            if x == '"' {
                assert(i < chars.len());
                push_slashes(cmd, backslashes + 1);
            }
            backslashes = 0;
        }
        cmd.push(x);
        i += 1;
        proof {
            let rest = escaped_from(arg@, i as int, backslashes as nat, quote);
            if x == '"' {
                assert(cmd@ + rest =~= now + (slashes(n + 1) + (seq!['"'] + rest)));
            } else {
                assert(cmd@ + rest =~= now + (seq![x] + rest));
            }
        }
    }
    if quote {
        push_slashes(cmd, backslashes);
        cmd.push('"');
        assert(cmd@ =~= before + (seq!['"'] + all + seq!['"']));
    } else {
        assert(cmd@ =~= before + all);
    }
}

/// The program that is started where none is given.
pub open spec fn program_of(options: &Options) -> Seq<char> {
    match options.shell {
        Some(shell) => shell.program@,
        None => "powershell"@,
    }
}

/// The arguments that a program is started with.
pub open spec fn args_of(options: &Options) -> Seq<Seq<char>> {
    match options.shell {
        Some(shell) => texts(shell.args@),
        None => Seq::empty(),
    }
}

/// The first `n` arguments of a command line, each after a blank.
pub open spec fn line_of(args: Seq<Seq<char>>, escape: bool, n: int) -> Seq<char>
    decreases n,
{
    if n <= 0 {
        Seq::empty()
    } else {
        line_of(args, escape, n - 1) + (seq![' '] + if escape {
            escaped(args[n - 1])
        } else {
            args[n - 1]
        })
    }
}

fn push_text(cmd: &mut String, text: &str)
    ensures
        final(cmd)@ == old(cmd)@ + text@,
{
    let chars = chars_of(text);
    let mut i: usize = 0;
    assert(cmd@ =~= old(cmd)@ + text@.take(0));
    while i < chars.len()
        invariant
            chars@ == text@,
            i <= chars@.len(),
            cmd@ == old(cmd)@ + text@.take(i as int),
        decreases chars@.len() - i,
    {
        cmd.push(chars[i]);
        i += 1;
        assert(cmd@ =~= old(cmd)@ + text@.take(i as int));
    }
    assert(text@.take(i as int) =~= text@);
}

fn push_args(cmd: &mut String, args: &Vec<String>, escape: bool)
    ensures
        final(cmd)@ == old(cmd)@ + line_of(texts(args@), escape, args@.len() as int),
{
    let ghost all = texts(args@);
    let mut i: usize = 0;
    assert(cmd@ =~= old(cmd)@ + line_of(all, escape, 0));
    while i < args.len()
        invariant
            i <= args@.len(),
            all == texts(args@),
            cmd@ == old(cmd)@ + line_of(all, escape, i as int),
        decreases args@.len() - i,
    {
        let ghost now = cmd@;
        cmd.push(' ');
        assert(all[i as int] == args@[i as int]@);
        if escape {
            push_escaped_arg(cmd, args[i].as_str());
        } else {
            push_text(cmd, args[i].as_str());
        }
        i += 1;
        assert(cmd@ =~= old(cmd)@ + line_of(all, escape, i as int));
    }
}

/// The command line: the program, then its arguments, each after a blank.
pub fn cmdline(options: &Options) -> (line: String)
    ensures
        line@ == program_of(options) + line_of(
            args_of(options),
            options.escape_args,
            args_of(options).len() as int,
        ),
{
    let mut cmd = String::new();
    match &options.shell {
        Some(shell) => {
            push_text(&mut cmd, shell.program.as_str());
            assert(cmd@ =~= shell.program@);
            push_args(&mut cmd, &shell.args, options.escape_args);
        },
        None => {
            let shell = Shell::new("powershell".to_string(), Vec::new());
            push_text(&mut cmd, shell.program.as_str());
            assert(cmd@ =~= program_of(options) + line_of(
                args_of(options),
                options.escape_args,
                0,
            ));
        },
    }
    cmd
}

/// Reads an argument the way programs on Windows do, up to a blank outside
/// quotes. `quoted` says whether a quote is open, `n` how many backslashes were
/// just read. Backslashes stand for themselves unless a quote follows: then two
/// of them are one, and the quote is a character if one is left over. The
/// result is the argument and what comes after it.
pub open spec fn read_arg(s: Seq<char>, quoted: bool, n: nat) -> (Seq<char>, Seq<char>)
    decreases s.len(),
{
    if s.len() == 0 || (is_blank(s[0]) && !quoted) {
        (slashes(n), s)
    } else if s[0] == '\\' {
        read_arg(s.drop_first(), quoted, n + 1)
    } else if s[0] == '"' && n % 2 == 0 {
        let (arg, rest) = read_arg(s.drop_first(), !quoted, 0);
        (slashes(n / 2) + arg, rest)
    } else if s[0] == '"' {
        let (arg, rest) = read_arg(s.drop_first(), quoted, 0);
        (slashes(n / 2) + seq!['"'] + arg, rest)
    } else {
        let (arg, rest) = read_arg(s.drop_first(), quoted, 0);
        (slashes(n) + seq![s[0]] + arg, rest)
    }
}

/// Reads arguments, each after a blank.
pub open spec fn read_args(s: Seq<char>) -> Seq<Seq<char>>
    decreases s.len(),
{
    if s.len() == 0 {
        Seq::empty()
    } else {
        let (arg, rest) = read_arg(s.drop_first(), false, 0);
        if rest.len() < s.len() {
            seq![arg] + read_args(rest)
        } else {
            seq![arg]
        }
    }
}

proof fn lemma_read_slashes(k: nat, s: Seq<char>, quoted: bool, n: nat)
    ensures
        read_arg(slashes(k) + s, quoted, n) == read_arg(s, quoted, n + k),
    decreases k,
{
    let all = slashes(k) + s;
    if k == 0 {
        assert(all =~= s);
    } else {
        assert(all[0] == '\\');
        assert(all.drop_first() =~= slashes((k - 1) as nat) + s);
        lemma_read_slashes((k - 1) as nat, s, quoted, n + 1);
    }
}

/// What ends an argument: its closing quote, if it has one.
spec fn closing(quoted: bool) -> Seq<char> {
    if quoted {
        seq!['"']
    } else {
        Seq::empty()
    }
}

proof fn lemma_reads_back_from(arg: Seq<char>, i: int, n: nat, quoted: bool, tail: Seq<char>)
    requires
        0 <= i <= arg.len(),
        quoted || forall|j: int| 0 <= j < arg.len() ==> !is_blank(#[trigger] arg[j]),
        tail.len() == 0 || is_blank(tail[0]),
    ensures
        read_arg(escaped_from(arg, i, n, quoted) + closing(quoted) + tail, quoted, n) == (
            slashes(n) + arg.skip(i),
            tail,
        ),
    decreases arg.len() - i,
{
    let line = escaped_from(arg, i, n, quoted) + closing(quoted) + tail;
    if i == arg.len() {
        assert(arg.skip(i) =~= Seq::<char>::empty());
        if quoted {
            let end = seq!['"'] + tail;
            assert(line =~= slashes(n) + end);
            lemma_read_slashes(n, end, quoted, n);
            assert(end.drop_first() =~= tail);
            assert((n + n) % 2 == 0 && (n + n) / 2 == n);
            assert(read_arg(tail, false, 0) == (slashes(0), tail));
            assert(slashes(n) + slashes(0) =~= slashes(n) + arg.skip(i));
        } else {
            assert(line =~= tail);
            assert(slashes(n) =~= slashes(n) + arg.skip(i));
        }
    } else if arg[i] == '\\' {
        lemma_reads_back_from(arg, i + 1, n + 1, quoted, tail);
        assert(line.drop_first() =~= escaped_from(arg, i + 1, n + 1, quoted) + closing(quoted)
            + tail);
        assert(slashes(n + 1) + arg.skip(i + 1) =~= slashes(n) + arg.skip(i));
    } else if arg[i] == '"' {
        let rest = escaped_from(arg, i + 1, 0, quoted) + closing(quoted) + tail;
        let end = seq!['"'] + rest;
        lemma_reads_back_from(arg, i + 1, 0, quoted, tail);
        assert(line =~= slashes(n + 1) + end);
        lemma_read_slashes(n + 1, end, quoted, n);
        assert(end.drop_first() =~= rest);
        assert((n + (n + 1)) % 2 == 1 && (n + (n + 1)) / 2 == n);
        assert(slashes(n) + seq!['"'] + (slashes(0) + arg.skip(i + 1)) =~= slashes(n) + arg.skip(
            i,
        ));
    } else {
        let rest = escaped_from(arg, i + 1, 0, quoted) + closing(quoted) + tail;
        lemma_reads_back_from(arg, i + 1, 0, quoted, tail);
        assert(line[0] == arg[i]);
        assert(line.drop_first() =~= rest);
        assert(slashes(n) + seq![arg[i]] + (slashes(0) + arg.skip(i + 1)) =~= slashes(n) + arg.skip(
            i,
        ));
    }
}

/// An argument that was added to a command line is read back as it was, and
/// what follows it is left.
pub proof fn law_escaped_arg_reads_back(arg: Seq<char>, tail: Seq<char>)
    requires
        tail.len() == 0 || is_blank(tail[0]),
    ensures
        read_arg(escaped(arg) + tail, false, 0) == (arg, tail),
{
    assert(arg.skip(0) =~= arg);
    assert(slashes(0) + arg =~= arg);
    if needs_quotes(arg) {
        lemma_reads_back_from(arg, 0, 0, true, tail);
        let inner = escaped_from(arg, 0, 0, true) + closing(true) + tail;
        let line = escaped(arg) + tail;
        assert(line.drop_first() =~= inner);
        assert(slashes(0) + arg =~= arg);
    } else {
        lemma_reads_back_from(arg, 0, 0, false, tail);
        assert(escaped(arg) + tail =~= escaped_from(arg, 0, 0, false) + closing(false) + tail);
    }
}

/// The arguments from place `i` on, each after a blank.
spec fn line_from(args: Seq<Seq<char>>, i: int) -> Seq<char>
    decreases args.len() - i,
{
    if i < 0 || i >= args.len() {
        Seq::empty()
    } else {
        seq![' '] + escaped(args[i]) + line_from(args, i + 1)
    }
}

proof fn lemma_line(args: Seq<Seq<char>>, n: int)
    requires
        0 <= n <= args.len(),
    ensures
        line_of(args, true, n) + line_from(args, n) == line_from(args, 0),
    decreases n,
{
    if n > 0 {
        lemma_line(args, n - 1);
        assert(line_of(args, true, n) + line_from(args, n) =~= line_of(args, true, n - 1) + (
        seq![' '] + escaped(args[n - 1]) + line_from(args, n)));
    } else {
        assert(line_of(args, true, 0) + line_from(args, 0) =~= line_from(args, 0));
    }
}

proof fn lemma_line_reads_back(args: Seq<Seq<char>>, i: int)
    requires
        0 <= i <= args.len(),
    ensures
        read_args(line_from(args, i)) == args.skip(i),
    decreases args.len() - i,
{
    if i < args.len() {
        let s = line_from(args, i);
        let tail = line_from(args, i + 1);
        assert(tail.len() == 0 || tail[0] == ' ');
        assert(s.drop_first() =~= escaped(args[i]) + tail);
        law_escaped_arg_reads_back(args[i], tail);
        lemma_line_reads_back(args, i + 1);
        assert(tail.len() < s.len());
        assert(seq![args[i]] + args.skip(i + 1) =~= args.skip(i));
    } else {
        assert(args.skip(i) =~= Seq::<Seq<char>>::empty());
    }
}

/// The arguments of an escaped command line are read back as they were given.
pub proof fn law_command_line_reads_back(args: Seq<Seq<char>>)
    ensures
        read_args(line_of(args, true, args.len() as int)) == args,
{
    let n = args.len() as int;
    lemma_line(args, n);
    lemma_line_reads_back(args, 0);
    assert(args.skip(0) =~= args);
    assert(line_of(args, true, n) + line_from(args, n) =~= line_of(args, true, n));
}

proof fn lemma_plain_from(arg: Seq<char>, i: int, n: nat)
    requires
        0 <= i <= arg.len(),
        forall|j: int| 0 <= j < arg.len() ==> #[trigger] arg[j] != '"',
    ensures
        escaped_from(arg, i, n, false) == arg.skip(i),
    decreases arg.len() - i,
{
    if i == arg.len() {
        assert(arg.skip(i) =~= Seq::empty());
    } else {
        let after = if arg[i] == '\\' {
            n + 1
        } else {
            0
        };
        lemma_plain_from(arg, i + 1, after);
        assert(seq![arg[i]] + arg.skip(i + 1) =~= arg.skip(i));
    }
}

/// An argument stands in quotes only if it is empty or has a blank; if it has no
/// quote either, it stands as it is.
pub proof fn law_plain_args_stay_plain(arg: Seq<char>)
    ensures
        ({
            let has_blank = exists|i: int| 0 <= i < arg.len() && (#[trigger] arg[i] == ' ' || arg[i]
                == '\t');
            &&& escaped(arg).len() > 0
            &&& escaped(arg)[0] == '"' <==> arg.len() == 0 || has_blank
            &&& arg.len() > 0 && !has_blank && (forall|i: int|
                0 <= i < arg.len() ==> #[trigger] arg[i] != '"') ==> escaped(arg) == arg
        }),
{
    if needs_quotes(arg) {
        if arg.len() > 0 {
            let i = choose|i: int| 0 <= i < arg.len() && is_blank(#[trigger] arg[i]);
            assert(arg[i] == ' ' || arg[i] == '\t');
        }
    } else {
        assert forall|i: int| 0 <= i < arg.len() implies !(#[trigger] arg[i] == ' ' || arg[i]
            == '\t') by {
            assert(!is_blank(arg[i]));
        }
        if forall|i: int| 0 <= i < arg.len() ==> #[trigger] arg[i] != '"' {
            lemma_plain_from(arg, 0, 0);
            assert(arg.skip(0) =~= arg);
        }
        assert(escaped(arg)[0] != '"') by {
            if arg[0] == '"' {
                assert(slashes(1)[0] == '\\');
            }
        }
    }
}

/// An argument that is not to be escaped is added after a blank, as it is.
pub proof fn law_raw_args_are_added(args: Seq<Seq<char>>, arg: Seq<char>)
    ensures
        line_of(Seq::empty(), false, 0) == Seq::<char>::empty(),
        line_of(args.push(arg), false, args.len() as int + 1) == line_of(args, false, args.len() as int)
            + seq![' '] + arg,
{
    let n = args.len() as int;
    lemma_line_prefix(args, args.push(arg), false, n);
    assert(line_of(args.push(arg), false, n + 1) =~= line_of(args, false, n) + seq![' '] + arg);
}

proof fn lemma_line_prefix(a: Seq<Seq<char>>, b: Seq<Seq<char>>, escape: bool, n: int)
    requires
        0 <= n <= a.len(),
        n <= b.len(),
        forall|i: int| 0 <= i < n ==> a[i] == b[i],
    ensures
        line_of(a, escape, n) == line_of(b, escape, n),
    decreases n,
{
    if n > 0 {
        lemma_line_prefix(a, b, escape, n - 1);
    }
}

/// The program is the one that was given, with its arguments; else it is the
/// system's shell, without any.
pub proof fn law_what_is_started(options: Options)
    ensures
        options.shell matches Some(shell) ==> {
            &&& program_of(&options) == shell.program@
            &&& args_of(&options).len() == shell.args@.len()
            &&& forall|i: int|
                0 <= i < shell.args@.len() ==> #[trigger] args_of(&options)[i] == shell.args@[i]@
        },
        options.shell is None ==> program_of(&options) == seq![
            'p',
            'o',
            'w',
            'e',
            'r',
            's',
            'h',
            'e',
            'l',
            'l',
        ] && args_of(&options).len() == 0,
{
    reveal_strlit("powershell");
    assert("powershell"@ =~= seq!['p', 'o', 'w', 'e', 'r', 's', 'h', 'e', 'l', 'l']);
}

} // verus!
