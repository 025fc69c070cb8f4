//! Persisting the log of a running process: what each message of its stream
//! calls for, how lines are framed in the log file, and the progress lines
//! of the one-time move of stored logs into files.
use vstd::prelude::*;
use crate::text::{decimal, ends_with_str, has_suffix, is_blank, push_char, trim, usize_to_decimal};

verus! {

/// The kind of a message of a process's log stream.
#[derive(Clone, Copy, Debug, PartialEq, Eq, Structural)]
pub enum StreamMessage {
    Stdout,
    Stderr,
    JsonPatch,
    SessionId,
    MessageId,
    Ready,
    Finished,
}

/// What storing one message of the stream does.
#[derive(Clone, Copy, Debug, PartialEq, Eq, Structural)]
pub struct StorageStep {
    /// Sub-agent spawns reported on standard output update the jobs.
    pub scan_stdout: bool,
    /// Sub-agent tool calls in a conversation patch update the jobs.
    pub scan_patch: bool,
    /// The message is appended to the log file.
    pub append_line: bool,
    /// The agent's session id is recorded on the turn.
    pub record_session_id: bool,
    /// The agent's message id is recorded on the turn.
    pub record_message_id: bool,
    /// The stream is done.
    pub stop: bool,
}

/// What storing each kind of message does: output is appended to the file
/// (standard output scanned for sub-agent spawns first), patches are
/// scanned for sub-agent tool calls, the agent's ids are recorded, and the
/// end of the stream stops the storage.
pub open spec fn storage_step_spec(m: StreamMessage) -> StorageStep {
    let none = StorageStep {
        scan_stdout: false,
        scan_patch: false,
        append_line: false,
        record_session_id: false,
        record_message_id: false,
        stop: false,
    };
    match m {
        StreamMessage::Stdout => StorageStep { scan_stdout: true, append_line: true, ..none },
        StreamMessage::Stderr => StorageStep { append_line: true, ..none },
        StreamMessage::JsonPatch => StorageStep { scan_patch: true, ..none },
        StreamMessage::SessionId => StorageStep { record_session_id: true, ..none },
        StreamMessage::MessageId => StorageStep { record_message_id: true, ..none },
        StreamMessage::Ready => none,
        StreamMessage::Finished => StorageStep { stop: true, ..none },
    }
}

/// What storing a message of the given kind does, as [`storage_step_spec`]
/// says.
pub fn storage_step(m: StreamMessage) -> (r: StorageStep)
    ensures
        r == storage_step_spec(m),
{
    let none = StorageStep {
        scan_stdout: false,
        scan_patch: false,
        append_line: false,
        record_session_id: false,
        record_message_id: false,
        stop: false,
    };
    match m {
        StreamMessage::Stdout => StorageStep { scan_stdout: true, append_line: true, ..none },
        StreamMessage::Stderr => StorageStep { append_line: true, ..none },
        StreamMessage::JsonPatch => StorageStep { scan_patch: true, ..none },
        StreamMessage::SessionId => StorageStep { record_session_id: true, ..none },
        StreamMessage::MessageId => StorageStep { record_message_id: true, ..none },
        StreamMessage::Ready => none,
        StreamMessage::Finished => StorageStep { stop: true, ..none },
    }
}

/// A line of a JSON-lines log file: the text, ended by a newline where it
/// has none.
pub open spec fn jsonl_line_spec(line: Seq<char>) -> Seq<char> {
    if has_suffix(line, seq!['\n']) {
        line
    } else {
        line.push('\n')
    }
}

/// Frames a line for the log file, as [`jsonl_line_spec`] says.
pub fn jsonl_line(line: String) -> (r: String)
    ensures
        r@ == jsonl_line_spec(line@),
{
    proof {
        reveal_strlit("\n");
        assert("\n"@ =~= seq!['\n']);
    }
    if ends_with_str(line.as_str(), "\n") {
        line
    } else {
        let mut out = line;
        push_char(&mut out, '\n');
        out
    }
}

/// The progress line printed (where no progress bar is shown) after the
/// `completed`-th process's log was moved, out of `total`: every hundredth
/// one, with the percentage done, or `?` while the total is not known.
pub open spec fn migration_progress_spec(completed: usize, total: usize) -> Option<Seq<char>> {
    if completed % 100 == 0 {
        Some(
            "sqlite-migration:"@ + if total > 0 {
                decimal(((completed * 100) / (total as int)) as nat)
            } else {
                "?"@
            },
        )
    } else {
        None
    }
}

/// The progress line after a move, as [`migration_progress_spec`] says.
pub fn migration_progress(completed: usize, total: usize) -> (r: Option<String>)
    requires
        completed * 100 <= usize::MAX,
    ensures
        match (r, migration_progress_spec(completed, total)) {
            (Some(s), Some(t)) => s@ == t,
            (None, None) => true,
            _ => false,
        },
{
    if completed % 100 != 0 {
        return None;
    }
    let value = if total > 0 {
        usize_to_decimal(completed * 100 / total)
    } else {
        "?".to_string()
    };
    Some("sqlite-migration:".to_string().concat(value.as_str()))
}

/// What becomes of a line read back from a log file.
#[derive(Clone, Copy, Debug, PartialEq, Eq, Structural)]
pub enum LineOutcome {
    /// A blank line, or an unparsable one past the first three: dropped.
    Skip,
    /// An unparsable line among the first three: dropped with a warning.
    SkipAndWarn,
    /// The parsed message is streamed.
    Emit,
}

/// What becomes of a line read back from a log file, given whether it
/// parsed as a log message and how many unparsable lines came before; and
/// the count of unparsable lines after it.
pub open spec fn scan_line_spec(line: Seq<char>, parsed: bool, bad_lines: usize) -> (LineOutcome, int) {
    if trim(line).len() == 0 {
        (LineOutcome::Skip, bad_lines as int)
    } else if parsed {
        (LineOutcome::Emit, bad_lines as int)
    } else if bad_lines + 1 <= 3 {
        (LineOutcome::SkipAndWarn, bad_lines + 1)
    } else {
        (LineOutcome::Skip, bad_lines + 1)
    }
}

/// Reads back one line, as [`scan_line_spec`] says.
pub fn scan_log_line(line: &str, parsed: bool, bad_lines: usize) -> (r: (LineOutcome, usize))
    requires
        bad_lines < usize::MAX,
    ensures
        (r.0, r.1 as int) == scan_line_spec(line@, parsed, bad_lines),
{
    if is_blank(line) {
        (LineOutcome::Skip, bad_lines)
    } else if parsed {
        (LineOutcome::Emit, bad_lines)
    } else if bad_lines + 1 <= 3 {
        (LineOutcome::SkipAndWarn, bad_lines + 1)
    } else {
        (LineOutcome::Skip, bad_lines + 1)
    }
}

} // verus!
