//! Running one shell command in a remote Jupyter terminal: the command line
//! sent to the terminal's stdin, and how the terminal's output is read until
//! a marker that the command line prints when it is done.

use vstd::prelude::*;
use crate::client::{opt_views, opt_view};
use crate::json::{encode_string_pair, json_layout, json_string_pair, spaced_string_pair};
use crate::text::{is_last_occurrence, occurs_at, rfind};

verus! {

/// The `terminal` command's arguments.
#[derive(Debug, Clone)]
pub struct TerminalArgs {
    pub command: TerminalCommand,
}

/// What to do in a remote terminal.
#[derive(Debug, Clone)]
pub enum TerminalCommand {
    /// Execute a shell command in a remote Jupyter terminal.
    Exec { command: String },
}

/// The name of the terminal opened for one run, from a fresh identifier.
pub fn terminal_name(id: &str) -> (r: String)
    ensures
        r@ == "codex"@ + id@,
{
    let mut name = String::from_str("codex");
    name.append(id);
    name
}

/// The marker that tells the end of a command's output, from a fresh
/// identifier: `__NB_DONE_{id}__`.
pub fn done_marker(id: &str) -> (r: String)
    ensures
        r@ == "__NB_DONE_"@ + id@ + "__"@,
{
    let mut marker = String::from_str("__NB_DONE_");
    marker.append(id);
    marker.append("__");
    marker
}

/// The line typed into the terminal: the command, then a `printf` that
/// prints a newline, the marker and the command's exit status, ended by a
/// carriage return.
pub open spec fn command_line(command: Seq<char>, marker: Seq<char>) -> Seq<char> {
    command + "; printf '\\n"@ + marker + "%s\\n' \"$?\"\r"@
}

/// The line typed into the terminal for `command`, ending with `marker`.
pub fn stdin_text(command: &str, marker: &str) -> (r: String)
    ensures
        r@ == command_line(command@, marker@),
{
    let mut line = String::from_str(command);
    line.append("; printf '\\n");
    line.append(marker);
    line.append("%s\\n' \"$?\"\r");
    line
}

/// Why a terminal message could not be made.
#[derive(Debug, Clone, Copy, PartialEq, Eq)]
pub enum TerminalError {
    /// The JSON encoder refused the message.
    Encode,
    /// A text message from the terminal is not a JSON array.
    InvalidMessage,
}

/// The WebSocket text message that types `command` into the terminal:
/// the JSON array `["stdin", line]`. Encoding strings always succeeds.
pub fn stdin_message(command: &str, marker: &str) -> (r: Result<String, TerminalError>)
    ensures
        r matches Ok(m) && m@ == json_string_pair("stdin"@, command_line(command@, marker@)),
{
    let line = stdin_text(command, marker);
    match encode_string_pair("stdin", line.as_str()) {
        Ok(m) => Ok(m),
        Err(_) => Err(TerminalError::Encode),
    }
}

/// What to do with one message from the terminal.
#[derive(Debug)]
pub enum TerminalStep {
    /// The message is not an output pair: nothing to print.
    Skip,
    /// Print this output and keep reading.
    Print(String),
    /// Print this output (what came before the marker) and stop.
    Finish(String),
}

/// The output carried by the second item of a message; an item that is not
/// a string carries none.
pub open spec fn output_of(item: Option<Seq<char>>) -> Seq<char> {
    match item {
        Some(s) => s,
        None => Seq::empty(),
    }
}

/// Where the last occurrence of `marker` in `out` starts, if it occurs.
pub open spec fn last_occurrence(out: Seq<char>, marker: Seq<char>) -> Option<int> {
    if exists|i: int| is_last_occurrence(out, marker, i) {
        Some(choose|i: int| is_last_occurrence(out, marker, i))
    } else {
        None
    }
}

/// What a terminal message, decoded as a JSON array whose items are
/// `Some(text)` for strings and `None` otherwise, asks for.
pub open spec fn step_of(frame: Seq<Option<Seq<char>>>, marker: Seq<char>) -> Option<(bool, Seq<char>)> {
    if frame.len() != 2 {
        None
    } else {
        let out = output_of(frame[1]);
        match last_occurrence(out, marker) {
            Some(i) => Some((true, out.take(i))),
            None => Some((false, out)),
        }
    }
}

/// `step` does what `s` (from `step_of`) asks for.
pub open spec fn step_is(step: TerminalStep, s: Option<(bool, Seq<char>)>) -> bool {
    match s {
        None => step is Skip,
        Some((true, p)) => step matches TerminalStep::Finish(t) && t@ == p,
        Some((false, p)) => step matches TerminalStep::Print(t) && t@ == p,
    }
}

/// The items of `text` as serde_json reads it into a `Vec<serde_json::Value>`:
/// each item's text where the item is a string and `None` for other items;
/// `None` as a whole where `text` is not a JSON array.
pub uninterp spec fn json_array_items(text: Seq<char>) -> Option<Seq<Option<Seq<char>>>>;

/// Reads `text` with `serde_json::from_str::<Vec<serde_json::Value>>` and
/// takes each item's `Value::as_str`. The contract claims that the result is
/// what `json_array_items` names, and that a JSON array of two strings (as
/// serde_json writes them, with any JSON whitespace between the tokens)
/// decodes to exactly those two strings.
#[verifier::external_body]
pub fn decode_frame(text: &str) -> (r: Option<Vec<Option<String>>>)
    ensures
        match json_array_items(text@) {
            None => r is None,
            Some(items) => r matches Some(v) && opt_views(v@) == items,
        },
        forall|a: Seq<char>, b: Seq<char>, w: Seq<Seq<char>>|
            #[trigger] spaced_string_pair(a, b, w) == text@ && json_layout(w) ==> match r {
                Some(v) => opt_views(v@) == seq![Some(a), Some(b)],
                None => false,
            },
{
    match serde_json::from_str::<Vec<serde_json::Value>>(text) {
        Ok(items) => Some(items.iter().map(|item| item.as_str().map(str::to_string)).collect()),
        Err(_) => None,
    }
}

/// Reads one text message of the terminal: a message that is not a JSON
/// array is an error; otherwise it asks for what `terminal_step` gives for
/// its items.
pub fn read_message(text: &str, marker: &str) -> (r: Result<TerminalStep, TerminalError>)
    ensures
        match json_array_items(text@) {
            None => r == Err::<TerminalStep, TerminalError>(TerminalError::InvalidMessage),
            Some(items) => r matches Ok(step) && step_is(step, step_of(items, marker@)),
        },
        forall|kind: Seq<char>, out: Seq<char>, w: Seq<Seq<char>>|
            #[trigger] spaced_string_pair(kind, out, w) == text@ && json_layout(w) ==> {
                &&& (forall|j: int| !occurs_at(out, marker@, j)) ==> (r matches Ok(TerminalStep::Print(s))
                    && s@ == out)
                &&& forall|i: int| is_last_occurrence(out, marker@, i) ==> (r matches Ok(
                    TerminalStep::Finish(s),
                ) && s@ == out.take(i))
            },
{
    proof {
        assert forall|kind: Seq<char>, out: Seq<char>, w: Seq<Seq<char>>|
            #[trigger] spaced_string_pair(kind, out, w) == text@ && json_layout(w) implies {
                &&& (forall|j: int| !occurs_at(out, marker@, j)) ==> last_occurrence(out, marker@) is None
                &&& forall|i: int| is_last_occurrence(out, marker@, i) ==> last_occurrence(out, marker@) == Some(i)
            } by {
            assert forall|i: int| is_last_occurrence(out, marker@, i) implies last_occurrence(out, marker@) == Some(i) by {
                lemma_last_occurrence_unique(out, marker@, i);
            }
        }
    }
    match decode_frame(text) {
        None => Err(TerminalError::InvalidMessage),
        Some(frame) => Ok(terminal_step(&frame, marker)),
    }
}

/// There is only one last occurrence.
pub proof fn lemma_last_occurrence_unique(out: Seq<char>, marker: Seq<char>, i: int)
    requires
        is_last_occurrence(out, marker, i),
    ensures
        last_occurrence(out, marker) == Some(i),
{
    let j = choose|j: int| is_last_occurrence(out, marker, j);
    assert(is_last_occurrence(out, marker, j));
    if j < i {
        assert(!occurs_at(out, marker, i));
    } else if i < j {
        assert(!occurs_at(out, marker, j));
    }
}

/// Reads one message of the terminal `[kind, output]`: a message that is not
/// a pair is skipped; output that holds the marker is printed up to its last
/// occurrence and ends the run; other output is printed.
pub fn terminal_step(frame: &Vec<Option<String>>, marker: &str) -> (r: TerminalStep)
    ensures
        step_is(r, step_of(opt_views(frame@), marker@)),
{
    if frame.len() != 2 {
        return TerminalStep::Skip;
    }
    let out = match &frame[1] {
        Some(s) => s.clone(),
        None => String::new(),
    };
    assert(out@ == output_of(opt_views(frame@)[1]));
    match rfind(out.as_str(), marker) {
        Some(i) => {
            proof {
                lemma_last_occurrence_unique(out@, marker@, i as int);
            }
            let before = out.as_str().substring_char(0, i);
            assert(before@ =~= out@.take(i as int));
            TerminalStep::Finish(String::from_str(before))
        },
        None => TerminalStep::Print(out),
    }
}

/// Output that ends a run is exactly what precedes the marker: the output
/// is that text, the marker, and text in which the marker does not start.
pub proof fn lemma_finish_splits_output(out: Seq<char>, marker: Seq<char>, i: int)
    requires
        last_occurrence(out, marker) == Some(i),
    ensures
        out == out.take(i) + marker + out.skip(i + marker.len()),
        forall|j: int| i < j ==> !occurs_at(out, marker, j),
{
    assert(exists|k: int| is_last_occurrence(out, marker, k));
    assert(is_last_occurrence(out, marker, i));
    assert(out.subrange(i, i + marker.len()) == marker);
    assert(out =~= out.take(i) + out.subrange(i, i + marker.len()) + out.skip(i + marker.len()));
}

} // verus!
