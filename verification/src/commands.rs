//! Running command-line tools: how a command is shown, and what its end means.
use vstd::prelude::*;

use crate::events::{job_event, JobEvent};
use crate::find::{contains, join};
use crate::number::push_decimal;
use crate::text::chars_of;
use crate::trim::trim;
#[allow(unused_imports)]
use crate::events::event;
#[allow(unused_imports)]
use crate::find::{contains_text, joined};
#[allow(unused_imports)]
use crate::number::decimal;
#[allow(unused_imports)]
use crate::text::{alphanumeric, lemma_texts_push, text_view, texts};
#[allow(unused_imports)]
use crate::trim::trimmed;
#[allow(unused_imports)]
use vstd::utf8::{decode_utf8, valid_utf8};

verus! {

// ---------------------------------------------------------------------------
// Showing a command
// ---------------------------------------------------------------------------

/// The character is printable ASCII, and neither a double quote nor a backslash.
pub open spec fn needs_no_escape(c: char) -> bool {
    ' ' <= c <= '~' && c != '"' && c != '\\'
}

/// No character of the text is escaped in its `Debug` form.
pub open spec fn stands_for_itself(s: Seq<char>) -> bool {
    forall|i: int| 0 <= i < s.len() ==> needs_no_escape(#[trigger] s[i])
}

/// What stands between the quotes of the `Debug` form of a text with other characters than those
/// that stand for themselves.
pub uninterp spec fn debug_escaped(s: Seq<char>) -> Seq<char>;

/// The `Debug` form of a text: in double quotes, as it is or with escapes.
pub open spec fn debug_form(s: Seq<char>) -> Seq<char> {
    seq!['"'] + (if stands_for_itself(s) {
        s
    } else {
        debug_escaped(s)
    }) + seq!['"']
}

/// The `Debug` form of a `str`, as the formatter writes it: a double quote, the text, a double
/// quote. Printable ASCII text without double quotes and backslashes stands between them as it is;
/// of any other text what stands there is named `debug_escaped`.
#[verifier::external_body]
pub(crate) fn debug_text(s: &str) -> (r: String)
    ensures
        r@ == seq!['"'] + (if stands_for_itself(s@) {
            s@
        } else {
            debug_escaped(s@)
        }) + seq!['"'],
{
    format!("{:?}", s)
}

/// The character needs no quotes in a command: a letter, a digit, or one of `./_-=:`.
pub open spec fn is_plain(c: char) -> bool {
    alphanumeric(c) || c == '.' || c == '/' || c == '_' || c == '-' || c == '=' || c == ':'
}

/// An argument as it is shown: as it is if no character needs quotes, else in its `Debug` form.
pub open spec fn shown_argument(value: Seq<char>) -> Seq<char> {
    if forall|i: int| 0 <= i < value.len() ==> is_plain(#[trigger] value[i]) {
        value
    } else {
        debug_form(value)
    }
}

/// An argument as it is shown.
pub fn shell_quote(value: &str) -> (r: String)
    ensures
        r@ == shown_argument(value@),
{
    let v = chars_of(value);
    let mut i: usize = 0;
    while i < v.len()
        invariant
            i <= v@.len(),
            v@ == value@,
            forall|k: int| 0 <= k < i ==> is_plain(#[trigger] v@[k]),
        decreases v@.len() - i,
    {
        let c = v[i];
        if !(c.is_alphanumeric() || c == '.' || c == '/' || c == '_' || c == '-' || c == '=' || c
            == ':') {
            assert(!is_plain(value@[i as int]));
            return debug_text(value);
        }
        i += 1;
    }
    value.to_string()
}

/// An argument that needs quotes is shown in them, and one of printable ASCII characters, none of
/// them a quote or a backslash, with nothing else changed.
pub proof fn law_argument_is_shown_in_quotes(value: Seq<char>, k: int)
    requires
        0 <= k < value.len(),
        !is_plain(value[k]),
    ensures
        shown_argument(value).len() >= 2,
        shown_argument(value)[0] == '"',
        shown_argument(value).last() == '"',
        stands_for_itself(value) ==> shown_argument(value) == seq!['"'] + value + seq!['"'],
{
}

/// A command as it is shown: the program and its arguments, with spaces between them.
pub open spec fn shown_command(program: Seq<char>, args: Seq<Seq<char>>) -> Seq<char> {
    program + " "@ + joined(args.map_values(|a: Seq<char>| shown_argument(a)), " "@)
}

/// A command as it is shown.
pub fn command_line(program: &str, args: &[String]) -> (r: String)
    ensures
        r@ == shown_command(program@, texts(args@)),
{
    let mut shown: Vec<String> = Vec::new();
    let mut i: usize = 0;
    while i < args.len()
        invariant
            i <= args@.len(),
            shown@.len() == i,
            forall|k: int| 0 <= k < i ==> (#[trigger] shown@[k])@ == shown_argument(args@[k]@),
        decreases args@.len() - i,
    {
        shown.push(shell_quote(args[i].as_str()));
        i += 1;
    }
    assert(texts(shown@) =~= texts(args@).map_values(|a: Seq<char>| shown_argument(a)));
    let mut out = program.to_string();
    out.append(" ");
    out.append(join(&shown, " ").as_str());
    out
}

/// The notice of a command that is run.
pub fn command_event(stage: &str, program: &str, args: &[String]) -> (r: JobEvent)
    ensures
        r@ == event("command"@, stage@, shown_command(program@, texts(args@))),
{
    let text = command_line(program, args);
    job_event("command", stage, text.as_str())
}

/// The notice of a line that a command printed.
pub fn stdout_event(stage: &str, line: &str) -> (r: JobEvent)
    ensures
        r@ == event("stdout"@, stage@, line@),
{
    job_event("stdout", stage, line)
}

/// The notice of a line that a command wrote to its error output.
pub fn stderr_event(stage: &str, line: &str) -> (r: JobEvent)
    ensures
        r@ == event("stderr"@, stage@, line@),
{
    job_event("stderr", stage, line)
}

// ---------------------------------------------------------------------------
// How a command ends
// ---------------------------------------------------------------------------

/// How many lines of a failing command are reported.
pub const TAIL: usize = 20;

/// The last lines, as many as are reported.
pub open spec fn last_lines(lines: Seq<Seq<char>>) -> Seq<Seq<char>> {
    if lines.len() > TAIL {
        lines.skip(lines.len() - TAIL)
    } else {
        lines
    }
}

/// The last lines that a command wrote to its error output.
#[derive(Debug)]
pub struct ErrorTail {
    lines: Vec<String>,
}

impl View for ErrorTail {
    type V = Seq<Seq<char>>;

    closed spec fn view(&self) -> Seq<Seq<char>> {
        texts(self.lines@)
    }
}

impl ErrorTail {
    /// Nothing was written yet.
    pub fn new() -> (r: ErrorTail)
        ensures
            r@ == Seq::<Seq<char>>::empty(),
    {
        let r = ErrorTail { lines: Vec::new() };
        assert(texts(r.lines@) =~= Seq::empty());
        r
    }

    /// One more line was written.
    pub fn push(&mut self, line: String)
        ensures
            final(self)@ == last_lines(old(self)@.push(line@)),
    {
        proof {
            lemma_texts_push(self.lines@, line);
        }
        self.lines.push(line);
        let n: usize = self.lines.len();
        if n > TAIL {
            let ghost all = self.lines@;
            let kept = self.lines.split_off(n - TAIL);
            assert(texts(kept@) =~= texts(all).skip(n - TAIL));
            self.lines = kept;
        }
    }

    /// The lines, with line feeds between them.
    pub fn text(&self) -> (r: String)
        ensures
            r@ == joined(self@, "\n"@),
    {
        join(&self.lines, "\n")
    }
}

/// What a new tail holds after these lines were written, one after the other.
pub open spec fn tail_after(lines: Seq<Seq<char>>) -> Seq<Seq<char>>
    decreases lines.len(),
{
    if lines.len() == 0 {
        Seq::empty()
    } else {
        last_lines(tail_after(lines.drop_last()).push(lines.last()))
    }
}

/// Line after line, the tail is the end of all that was written.
pub proof fn law_tail_is_the_end(lines: Seq<Seq<char>>)
    ensures
        tail_after(lines) == last_lines(lines),
    decreases lines.len(),
{
    if lines.len() > 0 {
        law_tail_is_the_end(lines.drop_last());
    }
    assert(tail_after(lines) =~= last_lines(lines));
}

/// A whole number in decimal.
pub open spec fn signed_decimal(n: int) -> Seq<char> {
    if n < 0 {
        "-"@ + decimal((-n) as nat)
    } else {
        decimal(n as nat)
    }
}

/// Appends a whole number in decimal.
pub fn push_signed(out: &mut String, n: i32)
    ensures
        final(out)@ == old(out)@ + signed_decimal(n as int),
{
    let ghost before = out@;
    let wide: i64 = n as i64;
    if wide < 0 {
        out.append("-");
        let size: i64 = -wide;
        push_decimal(out, size as u128);
        assert(final(out)@ =~= before + signed_decimal(n as int));
    } else {
        push_decimal(out, wide as u128);
    }
}

/// What is said of a command that failed: its exit code, -1 if it has none, and the end of what it
/// wrote to its error output.
pub open spec fn failure_text(code: Option<i32>, tail: Seq<Seq<char>>) -> Seq<char> {
    let number = match code {
        Some(n) => n as int,
        None => -1,
    };
    "Command failed with exit code "@ + signed_decimal(number) + ".\n"@ + joined(tail, "\n"@)
}

/// What the end of a command means.
pub fn command_result(success: bool, code: Option<i32>, tail: &ErrorTail) -> (r: Result<
    (),
    String,
>)
    ensures
        match r {
            Ok(_) => success,
            Err(e) => !success && e@ == failure_text(code, tail@),
        },
{
    if success {
        return Ok(());
    }
    let number: i32 = match code {
        Some(n) => n,
        None => -1,
    };
    let mut out = "Command failed with exit code ".to_string();
    push_signed(&mut out, number);
    out.append(".\n");
    out.append(tail.text().as_str());
    Err(out)
}

/// What is said of a command that did not start.
pub fn start_failure(program: &str, error: &str) -> (r: String)
    ensures
        r@ == "Failed to start "@ + program@ + ": "@ + error@,
{
    let mut out = "Failed to start ".to_string();
    out.append(program);
    out.append(": ");
    out.append(error);
    out
}

/// What is said of a command that could not be waited for.
pub fn wait_failure(error: &str) -> (r: String)
    ensures
        r@ == "Failed while waiting for command: "@ + error@,
{
    let mut out = "Failed while waiting for command: ".to_string();
    out.append(error);
    out
}

// ---------------------------------------------------------------------------
// What a command prints
// ---------------------------------------------------------------------------

/// The text that `String::from_utf8_lossy` makes of bytes that are not valid UTF-8.
pub uninterp spec fn repaired_text(bytes: Seq<u8>) -> Seq<char>;

/// The text of bytes: what they encode if they are valid UTF-8, else with replacements.
pub open spec fn lossy_text(bytes: Seq<u8>) -> Seq<char> {
    if valid_utf8(bytes) {
        decode_utf8(bytes)
    } else {
        repaired_text(bytes)
    }
}

/// `String::from_utf8_lossy`: bytes that are valid UTF-8 give the text that they encode; of any
/// others the result is named `repaired_text`.
#[verifier::external_body]
pub(crate) fn text_from_bytes(bytes: &[u8]) -> (r: String)
    ensures
        r@ == (if valid_utf8(bytes@) {
            decode_utf8(bytes@)
        } else {
            repaired_text(bytes@)
        }),
{
    String::from_utf8_lossy(bytes).into_owned()
}

/// What a command that was run for its output gives: its output if it succeeded, else what it
/// wrote to its error output, both trimmed.
pub fn output_text(success: bool, stdout: &str, stderr: &str) -> (r: Result<String, String>)
    ensures
        match r {
            Ok(s) => success && s@ == trimmed(stdout@),
            Err(e) => !success && e@ == trimmed(stderr@),
        },
{
    if success {
        Ok(trim(stdout))
    } else {
        Err(trim(stderr))
    }
}

/// What a command that was run for its output gives, by the bytes that it printed.
pub fn command_output(success: bool, stdout: &[u8], stderr: &[u8]) -> (r: Result<String, String>)
    ensures
        match r {
            Ok(s) => success && s@ == trimmed(lossy_text(stdout@)),
            Err(e) => !success && e@ == trimmed(lossy_text(stderr@)),
        },
{
    let out = text_from_bytes(stdout);
    let err = text_from_bytes(stderr);
    output_text(success, out.as_str(), err.as_str())
}

/// What is said of a command that was to be run for its output and did not run.
pub fn run_failure(program: &str, error: &str) -> (r: String)
    ensures
        r@ == "Failed to run "@ + program@ + ": "@ + error@,
{
    let mut out = "Failed to run ".to_string();
    out.append(program);
    out.append(": ");
    out.append(error);
    out
}

/// Whether what ffmpeg says of a file speaks of sound.
pub fn mentions_audio(report: &str) -> (r: bool)
    ensures
        r == contains_text(report@, "Audio:"@),
{
    contains(report, "Audio:")
}

/// Whether a file has sound, by the bytes that ffmpeg wrote to its error output, if it ran.
pub fn media_has_audio(stderr: Option<&[u8]>) -> (r: bool)
    ensures
        r == match stderr {
            Some(bytes) => contains_text(lossy_text(bytes@), "Audio:"@),
            None => false,
        },
{
    match stderr {
        Some(bytes) => {
            let report = text_from_bytes(bytes);
            mentions_audio(report.as_str())
        },
        None => false,
    }
}

/// The path of a file that a job needs: it has to be given, and to be a file.
pub fn require_path(value: Option<String>, is_file: bool, label: &str) -> (r: Result<
    String,
    String,
>)
    ensures
        match (value, r) {
            (None, Err(e)) => e@ == label@ + " is required"@,
            (Some(v), Err(e)) => !is_file && e@ == label@ + " was not found: "@ + v@,
            (Some(v), Ok(path)) => is_file && path == v,
            (None, Ok(_)) => false,
        },
{
    match value {
        None => {
            let mut out = label.to_string();
            out.append(" is required");
            Err(out)
        },
        Some(v) => {
            if is_file {
                Ok(v)
            } else {
                let mut out = label.to_string();
                out.append(" was not found: ");
                out.append(v.as_str());
                Err(out)
            }
        },
    }
}

/// The path of the model that Whisper is run with.
pub fn require_model(value: Option<String>, is_file: bool) -> (r: Result<String, String>)
    ensures
        match (value, r) {
            (None, Err(e)) => e@ == "Whisper model"@ + " is required"@,
            (Some(v), Err(e)) => !is_file && e@ == "Whisper model"@ + " was not found: "@ + v@,
            (Some(v), Ok(path)) => is_file && path == v,
            (None, Ok(_)) => false,
        },
{
    require_path(value, is_file, "Whisper model")
}

} // verus!
