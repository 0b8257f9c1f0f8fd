use rustty::pty::buffer_pool::BufferPool;
use rustty::pty::cmdline::{cmdline, push_escaped_arg};
use rustty::pty::conpty::{
    coord_of, pipe_is_connected, unique_pipe_name, win32_string, Coord, PtySession,
};
use rustty::pty::env::{convert_custom_env, omitted_vars, EnvVar};
use rustty::pty::types::{
    next_child_event, try_wait_event, ChildEvent, ChildReport, Options, PtyCommand, Shell,
    WindowSize,
};
use rustty::pty::worker::{
    reports_error, wake_of, OverlappedStart, ReadEnd, Wake, Worker, WriteEnd, INFINITE,
    MAX_WRITE_CHUNK,
};

#[test]
fn test_escape() {
    let test_set = vec![
        ("abc", "abc"),
        ("", "\"\""),
        (" ", "\" \""),
        ("ab c", "\"ab c\""),
        ("ab\tc", "\"ab\tc\""),
        ("ab\\c", "ab\\c"),
        ("ab\"c", "ab\\\"c"),
        ("\"", "\\\""),
        ("a\"b\"c", "a\\\"b\\\"c"),
        ("ab \"c", "\"ab \\\"c\""),
        ("a \"b\" c", "\"a \\\"b\\\" c\""),
        ("C:\\Program Files\\", "\"C:\\Program Files\\\\\""),
        ("C:\\Program Files\\a.txt", "\"C:\\Program Files\\a.txt\""),
    ];

    for (input, expected) in test_set {
        let mut escaped_arg = String::new();
        push_escaped_arg(&mut escaped_arg, input);
        assert_eq!(escaped_arg, expected, "Failed for input: {}", input);
    }
}

#[test]
fn test_cmdline() {
    let mut options = Options {
        shell: Some(Shell {
            program: "echo".to_string(),
            args: vec!["hello world".to_string()],
        }),
        working_directory: None,
        env: Default::default(),
        escape_args: false,
    };
    assert_eq!(cmdline(&options), "echo hello world");

    options.escape_args = true;
    assert_eq!(cmdline(&options), "echo \"hello world\"");
}

#[test]
fn without_a_shell_powershell_is_started() {
    assert_eq!(cmdline(&Options::default()), "powershell");
}

#[test]
fn backslashes_before_a_quote_are_doubled() {
    let mut line = String::new();
    push_escaped_arg(&mut line, "a\\\\\"b");
    assert_eq!(line, "a\\\\\\\\\\\"b");
}

fn var(key: &str, value: &str) -> EnvVar {
    EnvVar {
        key: key.encode_utf16().collect(),
        value: value.encode_utf16().collect(),
    }
}

fn text(block: &[u16]) -> String {
    String::from_utf16(block).unwrap()
}

#[test]
fn environment_names_count_once() {
    let own = vec![var("Path", "x"), var("PATH", "y"), var("A", "1")];
    let inherited = vec![var("path", "z"), var("B", "2")];
    assert_eq!(omitted_vars(&own), vec![1]);
    let block = convert_custom_env(own, inherited).unwrap();
    assert_eq!(text(&block), "Path=x\0A=1\0B=2\0\0");
}

#[test]
fn an_empty_environment_is_inherited() {
    assert_eq!(convert_custom_env(vec![], vec![var("A", "1")]), None);
}

#[test]
fn sizes_and_names_of_a_console() {
    let size = WindowSize {
        num_lines: 24,
        num_cols: 80,
        cell_width: 8,
        cell_height: 16,
    };
    assert_eq!(coord_of(size), Coord { x: 80, y: 24 });
    let wide = WindowSize { num_cols: 40_000, ..size };
    assert_eq!(coord_of(wide).x, -25_536);
    assert_eq!(win32_string("h\u{1F34E}"), vec![0x68, 0xD83C, 0xDF4E, 0]);
    assert_eq!(
        unique_pipe_name(1204, 0, 0x1_0af9_u128),
        "\\\\.\\pipe\\rustty-conpty-1204-0-10af9"
    );
    assert!(pipe_is_connected(true, 0));
    assert!(pipe_is_connected(false, 535));
    assert!(!pipe_is_connected(false, 2));
}

#[test]
fn a_console_is_closed_once() {
    let mut session = PtySession::new(77);
    assert_eq!(session.raw_hpcon(), 77);
    assert_eq!(session.close_async(), Some(77));
    assert_eq!(session.close_async(), None);
    assert_eq!(session.raw_hpcon(), 0);
}

#[test]
fn a_running_child_has_no_event() {
    assert_eq!(try_wait_event(None), None);
    assert_eq!(try_wait_event(Some(259)), None);
    assert_eq!(try_wait_event(Some(3)), Some(ChildEvent::Exited(Some(3))));
    assert_eq!(next_child_event(ChildReport::Empty), None);
    assert_eq!(
        next_child_event(ChildReport::Disconnected),
        Some(ChildEvent::Exited(None))
    );
    let event = ChildEvent::Exited(Some(1));
    assert_eq!(next_child_event(ChildReport::Event(event)), Some(event));
}

#[test]
fn buffers_come_back_blank() {
    let mut pool = BufferPool::new(8, 1);
    let mut buf = pool.acquire();
    assert_eq!(buf, vec![0; 8]);
    buf[0] = 9;
    let output = pool.wrap(buf, 3);
    assert_eq!(output.bytes(), &[9, 0, 0]);
    pool.release(output.into_buffer());
    assert_eq!(pool.acquire(), vec![0; 8]);
    // None is left: a new one is made.
    assert_eq!(pool.acquire(), vec![0; 8]);
    // One that is too small is not kept.
    pool.release(vec![1, 2]);
    pool.release_with(vec![1, 2], 2);
}

#[test]
fn bytes_are_written_in_order() {
    let mut worker = Worker::new();
    assert!(!worker.begin_write());
    let first: Vec<u8> = (0..MAX_WRITE_CHUNK + 10).map(|i| (i % 251) as u8).collect();
    worker.handle_commands(
        vec![PtyCommand::Write(first.clone()), PtyCommand::Write(vec![1, 2, 3])],
        0,
    );
    let mut sent: Vec<u8> = Vec::new();
    let mut now = 0;
    while worker.begin_write() {
        assert!(worker.inflight().len() <= MAX_WRITE_CHUNK);
        let n = (worker.inflight().len() / 2).max(1);
        sent.extend_from_slice(&worker.inflight()[..n]);
        now += 1;
        worker.write_started(OverlappedStart::Completed(n), now);
    }
    let mut all = first;
    all.extend_from_slice(&[1, 2, 3]);
    assert_eq!(sent, all);
}

#[test]
fn a_pending_write_is_waited_for() {
    let mut worker = Worker::new();
    worker.handle_commands(vec![PtyCommand::Write(vec![5, 6])], 0);
    assert_eq!(worker.handle_count(), 3);
    assert!(worker.begin_write());
    worker.write_started(OverlappedStart::Pending, 0);
    assert_eq!(worker.handle_count(), 4);
    assert!(!worker.begin_write());
    assert!(worker.wants_write_end());
    worker.write_completed(Some(WriteEnd::Written(1)), 0);
    assert_eq!(worker.inflight(), &[6]);
    worker.write_completed(Some(WriteEnd::Incomplete), 0);
    assert_eq!(worker.inflight(), &[6]);
    worker.write_completed(Some(WriteEnd::Failed), 0);
    assert!(worker.is_closing());
    assert!(!worker.wants_write_end());
    worker.write_completed(None, 0);
}

#[test]
fn only_the_last_size_counts_and_closing_begins_once() {
    let size = |cols: u16| WindowSize {
        num_lines: 1,
        num_cols: cols,
        cell_width: 1,
        cell_height: 1,
    };
    let mut worker = Worker::new();
    let outcome = worker.handle_commands(
        vec![
            PtyCommand::Resize(size(10)),
            PtyCommand::Close,
            PtyCommand::Resize(size(20)),
            PtyCommand::Close,
        ],
        5_000_000,
    );
    assert_eq!(outcome.resize, Some(size(20)));
    assert!(outcome.start_shutdown);
    let again = worker.handle_commands(vec![PtyCommand::Close], 900_000_000);
    assert!(!again.start_shutdown);
    assert_eq!(again.resize, None);
    // The deadline is that of the first close.
    assert_eq!(worker.wait_timeout(5_000_000), 1000);
    assert_eq!(worker.wait_timeout(1_004_000_000), 1);
    assert_eq!(worker.wait_timeout(9_000_000_000), 0);
    assert!(!worker.deadline_passed(1_004_999_999));
    assert!(worker.deadline_passed(1_005_000_000));
    assert!(worker.is_done());
    assert!(!worker.deadline_passed(2_000_000_000));
    assert!(!worker.end().report_exit);
}

#[test]
fn reads_go_on_until_there_is_nothing_more() {
    let mut worker = Worker::new();
    assert_eq!(worker.wait_timeout(0), INFINITE);
    assert!(worker.wants_read());
    assert_eq!(worker.read_queued(OverlappedStart::Pending, 0), None);
    assert!(!worker.wants_read());
    assert!(worker.end().cancel_read);
    assert_eq!(worker.read_completed(ReadEnd::Read(7), 0), Some(7));
    assert!(worker.wants_read());
    assert_eq!(worker.read_queued(OverlappedStart::Completed(4), 0), Some(4));
    assert!(!worker.is_closing());
    assert_eq!(worker.read_queued(OverlappedStart::Completed(0), 0), None);
    assert!(worker.is_closing());
    assert!(!worker.wants_read());
    for end in [ReadEnd::Read(0), ReadEnd::Incomplete, ReadEnd::Failed] {
        let mut other = Worker::new();
        assert_eq!(other.read_completed(end, 0), None);
        assert!(other.is_closing());
    }
    let mut failed = Worker::new();
    assert_eq!(failed.read_queued(OverlappedStart::Failed, 0), None);
    assert!(failed.is_closing());
}

#[test]
fn the_exit_is_told_once() {
    let mut worker = Worker::new();
    assert_eq!(worker.child_signaled(None), None);
    assert!(worker.end().report_exit);
    assert_eq!(worker.child_signaled(Some(ChildEvent::Exited(Some(4)))), Some(Some(4)));
    assert!(worker.is_done());
    assert!(!worker.end().report_exit);
}

#[test]
fn waiting_tells_what_happened() {
    assert_eq!(wake_of(0), Wake::Commands);
    assert_eq!(wake_of(1), Wake::Child);
    assert_eq!(wake_of(2), Wake::Read);
    assert_eq!(wake_of(3), Wake::Write);
    assert_eq!(wake_of(258), Wake::Timeout);
    assert_eq!(wake_of(0xffff_ffff), Wake::Failed);
    assert!(reports_error(false));
    assert!(!reports_error(true));
}
