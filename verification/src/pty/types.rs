//! What a pseudo-console is asked for and what it tells.
use vstd::prelude::*;

verus! {

/// What became of the child process.
#[derive(Clone, Copy, Debug, PartialEq, Eq)]
pub enum ChildEvent {
    /// It exited, with this code if that is known.
    Exited(Option<u32>),
}

/// The size of a terminal in cells, and of a cell in pixels.
#[derive(Clone, Copy, Debug, PartialEq, Eq, Structural)]
pub struct WindowSize {
    pub num_lines: u16,
    pub num_cols: u16,
    pub cell_width: u16,
    pub cell_height: u16,
}

/// The program to start.
#[derive(Debug)]
pub struct Shell {
    pub program: String,
    pub args: Vec<String>,
}

impl Shell {
    pub fn new(program: String, args: Vec<String>) -> (shell: Shell)
        ensures
            shell.program == program,
            shell.args == args,
    {
        Shell { program, args }
    }
}

impl Default for Shell {
    fn default() -> (shell: Shell)
        ensures
            shell.program@.len() == 0,
            shell.args@.len() == 0,
    {
        Shell { program: String::new(), args: Vec::new() }
    }
}

/// How to start it. The environment is a list of names and values.
#[derive(Debug)]
pub struct Options {
    pub shell: Option<Shell>,
    pub working_directory: Option<String>,
    pub env: Vec<(String, String)>,
    /// Whether arguments are quoted where that is needed.
    pub escape_args: bool,
}

impl Default for Options {
    fn default() -> (options: Options)
        ensures
            options.shell is None,
            options.working_directory is None,
            options.env@.len() == 0,
            !options.escape_args,
    {
        Options { shell: None, working_directory: None, env: Vec::new(), escape_args: false }
    }
}

/// What is asked of a running pseudo-console.
#[derive(Debug)]
pub enum PtyCommand {
    Write(Vec<u8>),
    Resize(WindowSize),
    Close,
}

/// What a channel of child events gave.
#[derive(Clone, Copy, Debug)]
pub enum ChildReport {
    Event(ChildEvent),
    Empty,
    Disconnected,
}

/// The next event of the child. Nobody left to tell counts as an exit without
/// a code.
pub fn next_child_event(report: ChildReport) -> (event: Option<ChildEvent>)
    ensures
        event == match report {
            ChildReport::Event(event) => Some(event),
            ChildReport::Empty => None,
            ChildReport::Disconnected => Some(ChildEvent::Exited(None)),
        },
{
    match report {
        ChildReport::Event(event) => Some(event),
        ChildReport::Empty => None,
        ChildReport::Disconnected => Some(ChildEvent::Exited(None)),
    }
}

/// The exit code of a process that runs.
pub const STILL_ACTIVE: u32 = 259;

/// The event of a child whose exit code was asked for, if it could be had.
pub fn try_wait_event(exit_code: Option<u32>) -> (event: Option<ChildEvent>)
    ensures
        event == match exit_code {
            Some(code) => if code == STILL_ACTIVE {
                None
            } else {
                Some(ChildEvent::Exited(Some(code)))
            },
            None => None,
        },
{
    match exit_code {
        Some(code) => if code == STILL_ACTIVE {
            None
        } else {
            Some(ChildEvent::Exited(Some(code)))
        },
        None => None,
    }
}

/// The code of a process that runs is the one that the system has for it.
pub proof fn law_code_of_a_running_process()
    ensures
        STILL_ACTIVE == 0x103,
{
}

} // verus!
