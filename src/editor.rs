//! The editing session: the buffer, its path, the unsaved-changes flag and
//! the current line, and what each input line does to them.
//!
//! The session never reads or writes anything itself. It takes each input
//! line (or the end of input) as an argument and returns a [`Step`]: whether
//! to go on, a diagnostic or report to show, text to print and, for a write,
//! the path and the text to put there.

use crate::command::{
    command_spec, parse_message, Address, DOT, Command, CommandView, Location, LocationView, ParseError, Verb,
};
use crate::text::{
    char_at, empty_rope, insert, len_bytes, len_chars, len_lines, line_count_of, line_start_of,
    line_to_char, push_char, push_str, rope_chars, text_between, trim, trimmed_of,
};
use ropey::Rope;
use vstd::prelude::*;
use vstd::utf8::encode_utf8;

verus! {

/// Whether the session goes on after a step.
#[derive(Clone, Copy, Debug, PartialEq, Eq, Structural)]
pub enum Flow {
    Continue,
    Stop,
}

/// What a diagnostic is about.
#[derive(Clone, Copy, Debug, PartialEq, Eq, Structural)]
pub enum Diagnostic {
    UnsavedChanges,
    NoPath,
    OpenFailed,
    WriteFailed,
    NoTrailingNewline,
    DiscardingChanges,
    ReadFailed,
    Parse(ParseError),
}

/// Something a step has to tell the user, besides printed text.
#[derive(Clone, Copy, Debug, PartialEq, Eq, Structural)]
pub enum Report {
    Error(Diagnostic),
    Warning(Diagnostic),
    Info { lines: usize, code_points: usize, bytes: usize, all_ascii: bool },
}

/// A write that the session asks for: `text` is to replace the file at `path`.
pub struct WriteRequest {
    pub path: String,
    pub text: String,
    pub quit: bool,
}

/// The outcome of one step of the session.
pub struct Step {
    pub flow: Flow,
    pub report: Option<Report>,
    pub output: String,
    pub write: Option<WriteRequest>,
}

pub struct WriteView {
    pub path: Seq<char>,
    pub text: Seq<char>,
    pub quit: bool,
}

pub struct StepView {
    pub flow: Flow,
    pub report: Option<Report>,
    pub output: Seq<char>,
    pub write: Option<WriteView>,
}

impl View for Step {
    type V = StepView;

    open spec fn view(&self) -> StepView {
        StepView {
            flow: self.flow,
            report: self.report,
            output: self.output@,
            write: match self.write {
                Some(w) => Some(WriteView { path: w.path@, text: w.text@, quit: w.quit }),
                None => None,
            },
        }
    }
}

/// Text being captured by the append command, to go in at char `at`, after
/// line `after`.
struct Insertion {
    at: usize,
    after: usize,
    text: String,
    lines: usize,
}

impl View for Insertion {
    type V = InsertionView;

    closed spec fn view(&self) -> InsertionView {
        InsertionView {
            at: self.at as nat,
            after: self.after as nat,
            text: self.text@,
            lines: self.lines as nat,
        }
    }
}

pub struct InsertionView {
    pub at: nat,
    pub after: nat,
    pub text: Seq<char>,
    pub lines: nat,
}

/// An editing session.
pub struct Editor {
    text: Rope,
    path: Option<String>,
    has_unsaved_changes: bool,
    current: usize,
    insertion: Option<Insertion>,
}

pub struct EditorView {
    pub text: Seq<char>,
    pub path: Option<Seq<char>>,
    pub dirty: bool,
    pub current: nat,
    pub insertion: Option<InsertionView>,
}

impl View for Editor {
    type V = EditorView;

    closed spec fn view(&self) -> EditorView {
        EditorView {
            text: rope_chars(self.text),
            path: match self.path {
                Some(p) => Some(p@),
                None => None,
            },
            dirty: self.has_unsaved_changes,
            current: self.current as nat,
            insertion: match self.insertion {
                Some(i) => Some(i.view()),
                None => None,
            },
        }
    }
}

// ---------------------------------------------------------------------------
// What each step does, over the session's view.

/// The step that neither stops nor says anything.
pub open spec fn quiet() -> StepView {
    StepView { flow: Flow::Continue, report: None, output: Seq::empty(), write: None }
}

/// The step that stops the session.
pub open spec fn stopping() -> StepView {
    StepView { flow: Flow::Stop, report: None, output: Seq::empty(), write: None }
}

/// The step that reports an error and goes on.
pub open spec fn failing(d: Diagnostic) -> StepView {
    StepView { report: Some(Report::Error(d)), ..quiet() }
}

/// The number of the last line of a text.
pub open spec fn last_line(t: Seq<char>) -> int {
    line_count_of(t) - 1
}

/// The line number an address stands for.
pub open spec fn resolve(a: Address, current: int, last: int) -> int {
    match a {
        Address::Absolute(n) => n as int,
        Address::Relative(k) => current + k,
        Address::Last => last,
    }
}

/// The first and last line that a location stands for, where both exist
/// and are in order; with no location, the whole buffer.
pub open spec fn span_of(loc: LocationView, current: int, last: int) -> Option<(int, int)> {
    match loc {
        LocationView::Unspecified => Some((1, last)),
        LocationView::Single(a) => {
            let n = resolve(a, current, last);
            if 1 <= n <= last {
                Some((n, n))
            } else {
                None
            }
        },
        LocationView::Range(_, a, b) => {
            let x = resolve(a, current, last);
            let y = resolve(b, current, last);
            if 1 <= x <= y <= last {
                Some((x, y))
            } else {
                None
            }
        },
    }
}

/// The chars from the start of line `x` to the end of line `y`.
pub open spec fn lines_text(t: Seq<char>, x: int, y: int) -> Seq<char> {
    let a = line_start_of(t, (x - 1) as nat);
    let b = line_start_of(t, y as nat);
    if a <= b <= t.len() {
        t.subrange(a as int, b as int)
    } else {
        Seq::empty()
    }
}

pub open spec fn digit_char(d: nat) -> char {
    ((d + 48) as u8) as char
}

/// The decimal digits of `n`.
pub open spec fn decimal_text(n: nat) -> Seq<char>
    decreases n,
{
    if n < 10 {
        seq![digit_char(n)]
    } else {
        decimal_text(n / 10).push(digit_char(n % 10))
    }
}

/// What printing lines `x` to `y` shows: each line, after its number and a
/// tab where `numbered` holds.
pub open spec fn printed(t: Seq<char>, x: int, y: int, numbered: bool) -> Seq<char>
    decreases y - x + 1,
{
    if y < x {
        Seq::empty()
    } else {
        printed(t, x, y - 1, numbered) + (if numbered {
            decimal_text(y as nat).push('\t')
        } else {
            Seq::empty()
        }) + lines_text(t, y, y)
    }
}

/// The text that a write of `loc` puts in the file: the whole buffer with
/// no location.
pub open spec fn written_text(t: Seq<char>, loc: LocationView, current: int) -> Option<
    Seq<char>,
> {
    match loc {
        LocationView::Unspecified => Some(t),
        _ => match span_of(loc, current, last_line(t)) {
            None => None,
            Some((x, y)) => Some(lines_text(t, x, y)),
        },
    }
}

/// Where appended text goes: the char index and the line it follows. With
/// no location, the end of the buffer.
pub open spec fn append_target(e: EditorView, loc: LocationView) -> Option<(nat, nat)> {
    match loc {
        LocationView::Unspecified => Some((e.text.len(), last_line(e.text) as nat)),
        _ => match span_of(loc, e.current as int, last_line(e.text)) {
            None => None,
            Some((x, y)) => Some((line_start_of(e.text, y as nat), y as nat)),
        },
    }
}

/// The counts that `Info` reports on a text.
pub open spec fn info_of(t: Seq<char>) -> Report {
    Report::Info {
        lines: (line_count_of(t) - 1) as usize,
        code_points: t.len() as usize,
        bytes: encode_utf8(t).len() as usize,
        all_ascii: t.len() == encode_utf8(t).len(),
    }
}

/// What running a command does.
pub open spec fn command_step(e: EditorView, c: CommandView) -> (EditorView, StepView) {
    let last = last_line(e.text);
    match c.verb {
        Verb::Quit { force } => if !e.dirty {
            (e, stopping())
        } else if force {
            (e, StepView { report: Some(Report::Warning(Diagnostic::DiscardingChanges)), ..stopping() })
        } else {
            (e, failing(Diagnostic::UnsavedChanges))
        },
        Verb::Write { quit } => match e.path {
            None => (e, failing(Diagnostic::NoPath)),
            Some(p) => match written_text(e.text, c.location, e.current as int) {
                None => (e, failing(Diagnostic::Parse(ParseError::AddressOutOfBounds))),
                Some(w) => (e, StepView { write: Some(WriteView { path: p, text: w, quit }), ..quiet() }),
            },
        },
        Verb::Print { numbered } => match span_of(c.location, e.current as int, last) {
            None => (e, failing(Diagnostic::Parse(ParseError::AddressOutOfBounds))),
            Some((x, y)) => (e, StepView { output: printed(e.text, x, y, numbered), ..quiet() }),
        },
        Verb::Info => (e, StepView { report: Some(info_of(e.text)), ..quiet() }),
        Verb::Append => match append_target(e, c.location) {
            None => (e, failing(Diagnostic::Parse(ParseError::AddressOutOfBounds))),
            Some((at, after)) => (
                EditorView {
                    insertion: Some(InsertionView { at, after, text: Seq::empty(), lines: 0 }),
                    ..e
                },
                quiet(),
            ),
        },
    }
}

/// The line that ends insertion: a single `.`.
pub open spec fn is_terminator(l: Seq<char>) -> bool {
    encode_utf8(l) == seq![DOT]
}

/// The session after captured text has gone into the buffer.
pub open spec fn inserted(e: EditorView, ins: InsertionView) -> EditorView {
    EditorView {
        text: e.text.subrange(0, ins.at as int) + ins.text + e.text.subrange(
            ins.at as int,
            e.text.len() as int,
        ),
        dirty: true,
        current: if ins.after + ins.lines <= usize::MAX {
            ins.after + ins.lines
        } else {
            usize::MAX as nat
        },
        insertion: None,
        ..e
    }
}

/// What one input line (or the end of input) does while text is captured:
/// a line is kept with its line break; the terminator puts the text in the
/// buffer; the end of input does so too and stops the session.
pub open spec fn insertion_step(e: EditorView, ins: InsertionView, input: Option<Seq<char>>) -> (
    EditorView,
    StepView,
) {
    match input {
        None => (inserted(e, ins), stopping()),
        Some(l) => if is_terminator(l) {
            (inserted(e, ins), quiet())
        } else {
            (
                EditorView {
                    insertion: Some(
                        InsertionView {
                            text: ins.text + l.push('\n'),
                            lines: if ins.lines < usize::MAX {
                                ins.lines + 1
                            } else {
                                ins.lines
                            },
                            ..ins
                        },
                    ),
                    ..e
                },
                quiet(),
            )
        },
    }
}

/// What a command line, already trimmed, does: nothing when empty, an
/// error when it does not parse, else the command.
pub open spec fn line_step(e: EditorView, line: Seq<char>) -> (EditorView, StepView) {
    if line.len() == 0 {
        (e, quiet())
    } else {
        match command_spec(encode_utf8(line)) {
            Err(err) => (e, failing(Diagnostic::Parse(err))),
            Ok(c) => command_step(e, c),
        }
    }
}

/// What one input line, or the end of input (`None`), does.
pub open spec fn input_step(e: EditorView, input: Option<Seq<char>>) -> (EditorView, StepView) {
    match e.insertion {
        Some(ins) => insertion_step(e, ins, input),
        None => match input {
            None => (e, stopping()),
            Some(l) => line_step(e, trimmed_of(l)),
        },
    }
}

/// `t` is empty or ends with a line break.
pub open spec fn ends_with_line_break(t: Seq<char>) -> bool {
    t.len() == 0 || t.last() == '\n'
}

/// A loaded text with a line break added at its end where it lacks one.
pub open spec fn normalized(t: Seq<char>) -> Seq<char> {
    if t.len() > 0 && t.last() != '\n' {
        t.push('\n')
    } else {
        t
    }
}

/// What opening a file does, given its text or `None` where it could not
/// be read.
pub open spec fn open_step(e: EditorView, path: Seq<char>, loaded: Option<Seq<char>>) -> (
    EditorView,
    Option<Report>,
) {
    if e.dirty {
        (e, Some(Report::Error(Diagnostic::UnsavedChanges)))
    } else {
        match loaded {
            None => (e, Some(Report::Error(Diagnostic::OpenFailed))),
            Some(t) => (
                EditorView {
                    text: normalized(t),
                    path: Some(path),
                    dirty: false,
                    current: last_line(normalized(t)) as nat,
                    insertion: None,
                },
                if normalized(t) != t {
                    Some(Report::Warning(Diagnostic::NoTrailingNewline))
                } else {
                    None
                },
            ),
        }
    }
}

/// What the outcome of a requested write does.
pub open spec fn write_done_step(e: EditorView, written: bool, quit: bool) -> (EditorView, StepView) {
    if written {
        (EditorView { dirty: false, ..e }, if quit {
            stopping()
        } else {
            quiet()
        })
    } else {
        (e, failing(Diagnostic::WriteFailed))
    }
}

pub open spec fn text_of(input: Option<&str>) -> Option<Seq<char>> {
    match input {
        Some(s) => Some(s@),
        None => None,
    }
}

// ---------------------------------------------------------------------------
// Executable parts.

fn quiet_step() -> (r: Step)
    ensures
        r@ == quiet(),
{
    Step { flow: Flow::Continue, report: None, output: String::new(), write: None }
}

fn stop_step() -> (r: Step)
    ensures
        r@ == stopping(),
{
    Step { flow: Flow::Stop, report: None, output: String::new(), write: None }
}

fn error_step(d: Diagnostic) -> (r: Step)
    ensures
        r@ == failing(d),
{
    Step { flow: Flow::Continue, report: Some(Report::Error(d)), output: String::new(), write: None }
}

/// The line number an address stands for, in a type wide enough for any.
fn resolve_line(a: Address, current: usize, last: usize) -> (r: i128)
    ensures
        r == resolve(a, current as int, last as int),
{
    match a {
        Address::Absolute(n) => n as i128,
        Address::Relative(k) => current as i128 + k as i128,
        Address::Last => last as i128,
    }
}

/// The lines a location stands for; see `span_of`.
fn span(loc: &Location, current: usize, last: usize) -> (r: Option<(usize, usize)>)
    ensures
        match span_of(loc@, current as int, last as int) {
            Some((x, y)) => r == Some((x as usize, y as usize)),
            None => r is None,
        },
{
    match loc {
        Location::Unspecified => Some((1, last)),
        Location::Single(a) => {
            let n = resolve_line(*a, current, last);
            if 1 <= n && n <= last as i128 {
                Some((n as usize, n as usize))
            } else {
                None
            }
        },
        Location::Range(_, r) => {
            let x = resolve_line(*r.start(), current, last);
            let y = resolve_line(*r.end(), current, last);
            if 1 <= x && x <= y && y <= last as i128 {
                Some((x as usize, y as usize))
            } else {
                None
            }
        },
    }
}

/// Appends the decimal digits of `n`.
fn push_decimal(out: &mut String, n: usize)
    ensures
        final(out)@ == old(out)@ + decimal_text(n as nat),
    decreases n,
{
    if n >= 10 {
        push_decimal(out, n / 10);
    }
    let d = (n % 10) as u8;
    push_char(out, (d + 48) as char);
}

impl Editor {
    /// The session's own invariant: the buffer is empty or ends with a line
    /// break, and text being captured is made of whole lines and goes in
    /// within the buffer.
    pub open spec fn wf(&self) -> bool {
        &&& ends_with_line_break(self@.text)
        &&& (self@.insertion matches Some(ins) ==> ins.at <= self@.text.len()
            && ends_with_line_break(ins.text))
    }

    /// A session with an empty buffer, no path and nothing unsaved.
    pub fn new() -> (r: Editor)
        ensures
            r.wf(),
            r@ == (EditorView {
                text: Seq::empty(),
                path: None,
                dirty: false,
                current: 0,
                insertion: None,
            }),
    {
        Editor {
            text: empty_rope(),
            path: None,
            has_unsaved_changes: false,
            current: 0,
            insertion: None,
        }
    }

    /// Replaces the buffer with a file's text, `loaded`, or `None` where the
    /// file could not be read. Refused while changes are unsaved. A text
    /// without a final line break gets one, with a warning.
    pub fn open(&mut self, path: String, loaded: Option<Rope>) -> (r: Option<Report>)
        requires
            old(self).wf(),
        ensures
            final(self).wf(),
            (final(self)@, r) == open_step(
                old(self)@,
                path@,
                match loaded {
                    Some(t) => Some(rope_chars(t)),
                    None => None,
                },
            ),
    {
        if self.has_unsaved_changes {
            return Some(Report::Error(Diagnostic::UnsavedChanges));
        }
        let mut text = match loaded {
            Some(t) => t,
            None => {
                return Some(Report::Error(Diagnostic::OpenFailed));
            },
        };
        let ghost t0 = rope_chars(text);
        let n = len_chars(&text);
        let mut report = None;
        if n > 0 && char_at(&text, n - 1) != '\n' {
            insert(&mut text, n, "\n");
            proof {
                reveal_strlit("\n");
                assert(rope_chars(text) =~= t0.push('\n'));
            }
            report = Some(Report::Warning(Diagnostic::NoTrailingNewline));
        }
        let last = len_lines(&text) - 1;
        self.text = text;
        self.path = Some(path);
        self.has_unsaved_changes = false;
        self.current = last;
        self.insertion = None;
        proof {
            if report is None {
                assert(normalized(t0) == t0);
            } else {
                assert(normalized(t0).len() != t0.len());
            }
        }
        report
    }

    /// The chars of lines `x` to `y`; see `lines_text`.
    fn lines_between(&self, x: usize, y: usize) -> (r: String)
        requires
            1 <= x <= y,
            y < line_count_of(self@.text),
        ensures
            r@ == lines_text(self@.text, x as int, y as int),
    {
        let a = line_to_char(&self.text, x - 1);
        let b = line_to_char(&self.text, y);
        if a <= b {
            text_between(&self.text, a, b)
        } else {
            String::new()
        }
    }

    /// What printing lines `x` to `y` shows; see `printed`.
    fn print_lines(&self, x: usize, y: usize, numbered: bool) -> (r: String)
        requires
            1 <= x,
            y < line_count_of(self@.text) <= usize::MAX,
        ensures
            r@ == printed(self@.text, x as int, y as int, numbered),
    {
        let mut out = String::new();
        let mut k: usize = x;
        while k <= y
            invariant
                1 <= x <= k,
                k <= y + 1 || x > y,
                x > y ==> k == x,
                y < line_count_of(self@.text) <= usize::MAX,
                out@ == printed(self@.text, x as int, k - 1, numbered),
            decreases y + 1 - k,
        {
            if numbered {
                push_decimal(&mut out, k);
                push_char(&mut out, '\t');
            }
            let line = self.lines_between(k, k);
            push_str(&mut out, line.as_str());
            proof {
                assert(out@ =~= printed(self@.text, x as int, k as int, numbered));
            }
            k = k + 1;
        }
        out
    }

    /// Puts captured text into the buffer; see `inserted`.
    fn finish_insertion(&mut self, ins: Insertion)
        requires
            ins@.at <= old(self)@.text.len(),
            ends_with_line_break(old(self)@.text),
            ends_with_line_break(ins@.text),
        ensures
            final(self).wf(),
            final(self)@ == inserted(old(self)@, ins@),
    {
        let ghost t0 = self@.text;
        insert(&mut self.text, ins.at, ins.text.as_str());
        proof {
            let t1 = rope_chars(self.text);
            let tail = t0.subrange(ins.at as int, t0.len() as int);
            if tail.len() > 0 {
                assert(t1.last() == tail.last());
            } else if ins.text@.len() > 0 {
                assert(t1 =~= t0.subrange(0, ins.at as int) + ins.text@);
            } else {
                assert(t1 =~= t0);
            }
        }
        self.has_unsaved_changes = true;
        self.current = if ins.after <= usize::MAX - ins.lines {
            ins.after + ins.lines
        } else {
            usize::MAX
        };
        self.insertion = None;
    }

    /// Takes one input line while text is being captured; see
    /// `insertion_step`.
    fn continue_insertion(&mut self, input: Option<&str>) -> (r: Step)
        requires
            old(self).wf(),
            old(self)@.insertion is Some,
        ensures
            final(self).wf(),
            (final(self)@, r@) == insertion_step(
                old(self)@,
                old(self)@.insertion->Some_0,
                text_of(input),
            ),
    {
        let mut ins = self.insertion.take().unwrap();
        match input {
            Some(l) => {
                let b = l.as_bytes();
                let ends = b.len() == 1 && b[0] == DOT;
                proof {
                    assert(ends == (b@ =~= seq![DOT]));
                }
                if ends {
                    self.finish_insertion(ins);
                    quiet_step()
                } else {
                    push_str(&mut ins.text, l);
                    push_char(&mut ins.text, '\n');
                    if ins.lines < usize::MAX {
                        ins.lines = ins.lines + 1;
                    }
                    self.insertion = Some(ins);
                    quiet_step()
                }
            },
            None => {
                self.finish_insertion(ins);
                stop_step()
            },
        }
    }

    /// Runs one command line, already trimmed; see `line_step`.
    pub fn run_line(&mut self, line: &str) -> (r: Step)
        requires
            old(self).wf(),
        ensures
            final(self).wf(),
            (final(self)@, r@) == line_step(old(self)@, line@),
    {
        if line.is_empty() {
            return quiet_step();
        }
        match Command::parse(line) {
            Ok(c) => self.run_command(c),
            Err(e) => error_step(Diagnostic::Parse(e)),
        }
    }

    /// Takes one input line, or the end of input (`None`): a command line,
    /// or a line of text while an append captures text; see `input_step`.
    pub fn read_and_run_command(&mut self, input: Option<&str>) -> (r: Step)
        requires
            old(self).wf(),
        ensures
            final(self).wf(),
            (final(self)@, r@) == input_step(old(self)@, text_of(input)),
    {
        if self.insertion.is_some() {
            return self.continue_insertion(input);
        }
        match input {
            None => stop_step(),
            Some(l) => {
                let t = trim(l);
                self.run_line(t)
            },
        }
    }

    /// Takes the outcome of a requested write; see `write_done_step`.
    pub fn finish_write(&mut self, written: bool, quit: bool) -> (r: Step)
        requires
            old(self).wf(),
        ensures
            final(self).wf(),
            (final(self)@, r@) == write_done_step(old(self)@, written, quit),
    {
        if written {
            self.has_unsaved_changes = false;
            if quit {
                stop_step()
            } else {
                quiet_step()
            }
        } else {
            error_step(Diagnostic::WriteFailed)
        }
    }

    /// The path of the file being edited, if any.
    pub fn path(&self) -> (r: Option<&str>)
        ensures
            match self@.path {
                Some(p) => r is Some && r->Some_0@ == p,
                None => r is None,
            },
    {
        match &self.path {
            Some(p) => Some(p.as_str()),
            None => None,
        }
    }

    /// Whether the buffer has changes that were not written.
    pub fn has_unsaved_changes(&self) -> (r: bool)
        ensures
            r == self@.dirty,
    {
        self.has_unsaved_changes
    }

    /// The current line.
    pub fn current_line(&self) -> (r: usize)
        ensures
            r == self@.current,
    {
        self.current
    }

    /// Whether an append is capturing text.
    pub fn is_inserting(&self) -> (r: bool)
        ensures
            r == self@.insertion is Some,
    {
        self.insertion.is_some()
    }

    /// The whole buffer.
    pub fn contents(&self) -> (r: String)
        ensures
            r@ == self@.text,
    {
        let n = len_chars(&self.text);
        proof {
            assert(self@.text.subrange(0, n as int) =~= self@.text);
        }
        text_between(&self.text, 0, n)
    }

    /// Runs one command; see `command_step`.
    pub fn run_command(&mut self, c: Command) -> (r: Step)
        requires
            old(self).wf(),
        ensures
            final(self).wf(),
            (final(self)@, r@) == command_step(old(self)@, c@),
    {
        let last = len_lines(&self.text) - 1;
        match c {
            Command::Quit { force } => {
                if !self.has_unsaved_changes {
                    stop_step()
                } else if force {
                    Step {
                        flow: Flow::Stop,
                        report: Some(Report::Warning(Diagnostic::DiscardingChanges)),
                        output: String::new(),
                        write: None,
                    }
                } else {
                    error_step(Diagnostic::UnsavedChanges)
                }
            },
            Command::Write { location, quit } => {
                let path = match &self.path {
                    None => {
                        return error_step(Diagnostic::NoPath);
                    },
                    Some(p) => p.clone(),
                };
                let text = match location {
                    Location::Unspecified => {
                        let n = len_chars(&self.text);
                        proof {
                            assert(self@.text.subrange(0, n as int) =~= self@.text);
                        }
                        text_between(&self.text, 0, n)
                    },
                    _ => match span(&location, self.current, last) {
                        None => {
                            return error_step(Diagnostic::Parse(ParseError::AddressOutOfBounds));
                        },
                        Some((x, y)) => self.lines_between(x, y),
                    },
                };
                Step {
                    flow: Flow::Continue,
                    report: None,
                    output: String::new(),
                    write: Some(WriteRequest { path, text, quit }),
                }
            },
            Command::Print { location, numbered } => match span(&location, self.current, last) {
                None => error_step(Diagnostic::Parse(ParseError::AddressOutOfBounds)),
                Some((x, y)) => {
                    let output = self.print_lines(x, y, numbered);
                    Step { flow: Flow::Continue, report: None, output, write: None }
                },
            },
            Command::Info => {
                let code_points = len_chars(&self.text);
                let bytes = len_bytes(&self.text);
                Step {
                    flow: Flow::Continue,
                    report: Some(
                        Report::Info {
                            lines: last,
                            code_points,
                            bytes,
                            all_ascii: code_points == bytes,
                        },
                    ),
                    output: String::new(),
                    write: None,
                }
            },
            Command::Append { location } => {
                let target = match location {
                    Location::Unspecified => Some((len_chars(&self.text), last)),
                    _ => match span(&location, self.current, last) {
                        None => None,
                        Some((_, y)) => Some((line_to_char(&self.text, y), y)),
                    },
                };
                match target {
                    None => error_step(Diagnostic::Parse(ParseError::AddressOutOfBounds)),
                    Some((at, after)) => {
                        self.insertion = Some(
                            Insertion { at, after, text: String::new(), lines: 0 },
                        );
                        quiet_step()
                    },
                }
            },
        }
    }
}

/// The suffix that makes a count's noun plural: none for one.
pub fn plural_s(count: usize) -> (r: &'static str)
    ensures
        count == 1 ==> r@ == ""@,
        count != 1 ==> r@ == "s"@,
{
    if count == 1 {
        ""
    } else {
        "s"
    }
}

impl Diagnostic {
    /// The words that describe the diagnostic to a user.
    pub fn message(&self) -> (r: &'static str)
        ensures
            *self == Diagnostic::UnsavedChanges ==> r@ == "current file has unsaved changes"@,
            *self == Diagnostic::NoPath ==> r@ == "no path provided"@,
            *self == Diagnostic::OpenFailed ==> r@ == "failed to open file"@,
            *self == Diagnostic::WriteFailed ==> r@ == "failed to write file"@,
            *self == Diagnostic::NoTrailingNewline ==> r@ == "file had no trailing new line"@,
            *self == Diagnostic::DiscardingChanges ==> r@ == "discarding unsaved changes"@,
            *self == Diagnostic::ReadFailed ==> r@ == "failed to read input"@,
            forall|e: ParseError|
                *self == Diagnostic::Parse(e) ==> r@ == #[trigger] parse_message(e),
    {
        match self {
            Diagnostic::UnsavedChanges => "current file has unsaved changes",
            Diagnostic::NoPath => "no path provided",
            Diagnostic::OpenFailed => "failed to open file",
            Diagnostic::WriteFailed => "failed to write file",
            Diagnostic::NoTrailingNewline => "file had no trailing new line",
            Diagnostic::DiscardingChanges => "discarding unsaved changes",
            Diagnostic::ReadFailed => "failed to read input",
            Diagnostic::Parse(e) => e.message(),
        }
    }
}

/// The command line `w` reads as a write of the whole buffer.
proof fn lemma_w_line(e: EditorView)
    ensures
        line_step(e, seq!['w']) == command_step(
            e,
            CommandView { verb: Verb::Write { quit: false }, location: LocationView::Unspecified },
        ),
{
    let b = seq!['w'];
    assert(b.drop_first() =~= Seq::<char>::empty());
    assert((119u32 & 0x7F) as u8 == 119u8) by (bit_vector);
    assert(encode_utf8(b) =~= seq![119u8]) by {
        assert(('w' as u32) == 119);
        assert(encode_utf8(b.drop_first()) == Seq::<u8>::empty());
    }
    let u = seq![119u8];
    assert(u.subrange(0, 1) =~= u);
}

/// Opening a text that lacks a final line break and then entering `w`,
/// with no edit between, writes that text with one line break added: it
/// ends in exactly one line break.
pub proof fn lemma_open_then_write(e: EditorView, path: Seq<char>, t: Seq<char>)
    requires
        !e.dirty,
        t.len() > 0,
        t.last() != '\n',
    ensures
        ({
            let opened = open_step(e, path, Some(t)).0;
            let step = line_step(opened, seq!['w']).1;
            &&& step.write is Some
            &&& step.write->Some_0.path == path
            &&& step.write->Some_0.text == t.push('\n')
            &&& step.write->Some_0.text.last() == '\n'
            &&& step.write->Some_0.text[step.write->Some_0.text.len() - 2] != '\n'
        }),
{
    let opened = open_step(e, path, Some(t)).0;
    lemma_w_line(opened);
    let w = t.push('\n');
    assert(w[w.len() - 2] == t.last());
}

/// The command line `?` reads as `Info`.
proof fn lemma_question_mark_line(e: EditorView)
    ensures
        line_step(e, seq!['?']) == command_step(
            e,
            CommandView { verb: Verb::Info, location: LocationView::Unspecified },
        ),
{
    let b = seq!['?'];
    assert(b.drop_first() =~= Seq::<char>::empty());
    assert((63u32 & 0x7F) as u8 == 63u8) by (bit_vector);
    assert(encode_utf8(b) =~= seq![63u8]) by {
        assert(('?' as u32) == 63);
        assert(encode_utf8(b.drop_first()) == Seq::<u8>::empty());
    }
    let u = seq![63u8];
    assert(u.subrange(0, 1) =~= u);
}

/// `?` changes nothing, so entering it twice in a row reports the same
/// counts both times: those of the buffer.
pub proof fn lemma_info_twice(e: EditorView)
    ensures
        ({
            let (e1, s1) = line_step(e, seq!['?']);
            let (e2, s2) = line_step(e1, seq!['?']);
            &&& e1 == e
            &&& e2 == e
            &&& s2 == s1
            &&& s1.report == Some(info_of(e.text))
        }),
{
    lemma_question_mark_line(e);
}

} // verus!
