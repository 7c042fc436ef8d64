use vstd::prelude::*;
use crate::text::{decimal, pad_left, push_chars, push_str, push_usize, push_padded, chars_of, chars_eq_str, u64_decimal, owned};

verus! {
/// A position in a source file (1-based line and column).
#[derive(Debug, Clone, PartialEq)]
pub struct Location {
    pub line: usize,
    pub column: usize,
    pub file: String,
}

/// The mathematical content of a location.
pub struct LocView {
    pub line: nat,
    pub column: nat,
    pub file: Seq<char>,
}

impl View for Location {
    type V = LocView;

    open spec fn view(&self) -> LocView {
        LocView { line: self.line as nat, column: self.column as nat, file: self.file@ }
    }
}

/// The file name that marks a location as unknown.
pub open spec fn unknown_file() -> Seq<char> {
    "<unknown>"@
}

/// How a location is shown to the user: `file:line:column`, or `<unknown>`.
pub open spec fn location_text(l: LocView) -> Seq<char> {
    if l.file == unknown_file() {
        unknown_file()
    } else {
        l.file + ":"@ + decimal(l.line) + ":"@ + decimal(l.column)
    }
}

impl Location {
    pub fn new(line: usize, column: usize, file: String) -> (r: Self)
        ensures
            r.line == line,
            r.column == column,
            r.file == file,
    {
        Location { line, column, file }
    }

    /// The location of something whose origin is not known.
    pub fn unknown() -> (r: Self)
        ensures
            r@ == (LocView { line: 0, column: 0, file: unknown_file() }),
    {
        Location { line: 0, column: 0, file: owned("<unknown>") }
    }

    /// A copy of this location.
    pub fn duplicate(&self) -> (r: Self)
        ensures
            r@ == self@,
    {
        Location { line: self.line, column: self.column, file: self.file.clone() }
    }

    pub fn format(&self) -> (r: String)
        ensures
            r@ == location_text(self@),
    {
        let f = chars_of(self.file.as_str());
        if chars_eq_str(&f, "<unknown>") {
            owned("<unknown>")
        } else {
            let mut out = self.file.clone();
            push_str(&mut out, ":");
            push_usize(&mut out, self.line);
            push_str(&mut out, ":");
            push_usize(&mut out, self.column);
            out
        }
    }
}

/// An error found while compiling, with where it was found.
#[derive(Debug, Clone)]
pub struct CompileError {
    pub message: String,
    pub location: Location,
}

/// Drops one trailing carriage return.
pub open spec fn strip_cr(l: Seq<char>) -> Seq<char> {
    if l.len() > 0 && l.last() == '\r' {
        l.drop_last()
    } else {
        l
    }
}

/// Splits the rest `s` of a text into lines, given the lines `done` already
/// complete and the characters `cur` of the line being read.
pub open spec fn lines_from(s: Seq<char>, done: Seq<Seq<char>>, cur: Seq<char>) -> Seq<Seq<char>>
    decreases s.len(),
{
    if s.len() == 0 {
        if cur.len() == 0 {
            done
        } else {
            done.push(cur)
        }
    } else if s[0] == '\n' {
        lines_from(s.drop_first(), done.push(strip_cr(cur)), Seq::empty())
    } else {
        lines_from(s.drop_first(), done, cur.push(s[0]))
    }
}

/// The lines of a text, as `str::lines` gives them: split at "\n" or "\r\n",
/// without the line endings; a final line ending adds no empty line.
pub open spec fn source_lines(s: Seq<char>) -> Seq<Seq<char>> {
    lines_from(s, Seq::empty(), Seq::empty())
}

proof fn lemma_lines_from_step(s: Seq<char>, i: int, done: Seq<Seq<char>>, cur: Seq<char>)
    requires
        0 <= i < s.len(),
    ensures
        lines_from(s.subrange(i, s.len() as int), done, cur) == (if s[i] == '\n' {
            lines_from(s.subrange(i + 1, s.len() as int), done.push(strip_cr(cur)), Seq::empty())
        } else {
            lines_from(s.subrange(i + 1, s.len() as int), done, cur.push(s[i]))
        }),
{
    assert(s.subrange(i, s.len() as int).drop_first() =~= s.subrange(i + 1, s.len() as int));
}

/// The lines of `src`.
pub fn split_lines(src: &str) -> (r: Vec<Vec<char>>)
    ensures
        r@.len() == source_lines(src@).len(),
        forall|i: int| 0 <= i < r@.len() ==> #[trigger] r@[i]@ == source_lines(src@)[i],
{
    let s = chars_of(src);
    let mut done: Vec<Vec<char>> = Vec::new();
    let mut cur: Vec<char> = Vec::new();
    let mut i: usize = 0;
    let ghost dv = Seq::<Seq<char>>::empty();
    assert(s@.subrange(0, s@.len() as int) =~= s@);
    while i < s.len()
        invariant
            i <= s.len(),
            s@ == src@,
            dv.len() == done@.len(),
            forall|k: int| 0 <= k < dv.len() ==> #[trigger] done@[k]@ == dv[k],
            lines_from(s@.subrange(i as int, s@.len() as int), dv, cur@) == source_lines(src@),
        decreases s.len() - i,
    {
        proof {
            lemma_lines_from_step(s@, i as int, dv, cur@);
        }
        if s[i] == '\n' {
            if cur.len() > 0 && cur[cur.len() - 1] == '\r' {
                cur.pop();
            }
            proof {
                dv = dv.push(cur@);
            }
            done.push(cur);
            cur = Vec::new();
        } else {
            cur.push(s[i]);
        }
        i = i + 1;
    }
    assert(s@.subrange(i as int, s@.len() as int) =~= Seq::<char>::empty());
    if cur.len() > 0 {
        proof {
            dv = dv.push(cur@);
        }
        done.push(cur);
    }
    done
}

pub open spec fn rule_line() -> Seq<char> {
    "├─────────────────────────────────────────────\n"@
}

pub open spec fn bottom_line() -> Seq<char> {
    "╰─────────────────────────────────────────────\n"@
}

/// One numbered source line of an error report: `│ nnnn │ text`.
pub open spec fn numbered_line(n: nat, text: Seq<char>) -> Seq<char> {
    "│ "@ + pad_left(decimal(n), 4) + " │ "@ + text + "\n"@
}

/// The numbered line before the error line, when there is one.
pub open spec fn line_before(loc: LocView, lines: Seq<Seq<char>>) -> Seq<char> {
    if loc.line > 1 { numbered_line((loc.line - 1) as nat, lines[loc.line - 2]) } else { Seq::empty() }
}

/// The numbered line after the error line, when there is one.
pub open spec fn line_after(loc: LocView, lines: Seq<Seq<char>>) -> Seq<char> {
    if loc.line < lines.len() { numbered_line(loc.line + 1, lines[loc.line as int]) } else { Seq::empty() }
}

/// The line that points at the error column with a caret.
pub open spec fn caret_line(column: nat) -> Seq<char> {
    "│      │ "@ + Seq::new((if column > 0 { column - 1 } else { 0 }) as nat, |_i: int| ' ') + "^\n"@
}

/// The source excerpt of a compile error report: the line before, the line
/// itself with a caret under the column, and the line after.
pub open spec fn source_context(loc: LocView, lines: Seq<Seq<char>>) -> Seq<char> {
    if loc.line > 0 && loc.line <= lines.len() {
        rule_line() + line_before(loc, lines) + numbered_line(loc.line, lines[loc.line - 1])
            + caret_line(loc.column) + line_after(loc, lines)
    } else {
        Seq::empty()
    }
}

/// The full report of a compile error, with source context when the source is given.
pub open spec fn compile_error_report(message: Seq<char>, loc: LocView, source: Option<Seq<char>>) -> Seq<char> {
    "\n╭─ Compile Error ─────────────────────────────\n"@
        + "│ "@ + location_text(loc) + "\n"@
        + rule_line()
        + "│ "@ + message + "\n"@
        + (match source {
            Some(src) => source_context(loc, source_lines(src)),
            None => Seq::empty(),
        })
        + bottom_line()
}

fn push_numbered_line(out: &mut String, n: usize, text: &Vec<char>)
    ensures
        final(out)@ == old(out)@ + numbered_line(n as nat, text@),
{
    push_str(out, "│ ");
    let d = u64_decimal(n as u64);
    push_padded(out, &d, 4);
    push_str(out, " │ ");
    push_chars(out, text);
    push_str(out, "\n");
}

fn push_caret_line(out: &mut String, column: usize)
    ensures
        final(out)@ == old(out)@ + caret_line(column as nat),
{
    push_str(out, "│      │ ");
    let pad: usize = if column > 0 { column - 1 } else { 0 };
    let mut k: usize = 0;
    let ghost mid = out@;
    while k < pad
        invariant
            k <= pad,
            out@ == mid + Seq::new(k as nat, |_i: int| ' '),
        decreases pad - k,
    {
        crate::text::push_char(out, ' ');
        k = k + 1;
        assert(out@ =~= mid + Seq::new(k as nat, |_i: int| ' '));
    }
    push_str(out, "^\n");
    assert(out@ =~= old(out)@ + "│      │ "@ + Seq::new(pad as nat, |_i: int| ' ') + "^\n"@);
}

fn push_source_context(out: &mut String, loc: &Location, src: &str)
    ensures
        final(out)@ == old(out)@ + source_context(loc@, source_lines(src@)),
{
    let lines = split_lines(src);
    let line = loc.line;
    let ghost ls = source_lines(src@);
    let ghost lv = loc@;
    if line > 0 && line <= lines.len() {
        let ghost p0 = out@;
        push_str(out, "├─────────────────────────────────────────────\n");
        let ghost p1 = out@;
        if line > 1 {
            push_numbered_line(out, line - 1, &lines[line - 2]);
            assert(lines@[line - 2]@ == ls[line - 2]);
        }
        assert(out@ == p1 + line_before(lv, ls));
        let ghost p2 = out@;
        push_numbered_line(out, line, &lines[line - 1]);
        assert(lines@[line - 1]@ == ls[line - 1]);
        let ghost p3 = out@;
        push_caret_line(out, loc.column);
        let ghost p4 = out@;
        if line < lines.len() {
            push_numbered_line(out, line + 1, &lines[line]);
            assert(lines@[line as int]@ == ls[line as int]);
        }
        assert(out@ == p4 + line_after(lv, ls));
        assert(out@ =~= p0 + source_context(lv, ls));
    }
}

impl CompileError {
    pub fn new(message: String, location: Location) -> (r: Self)
        ensures
            r.message == message,
            r.location == location,
    {
        CompileError { message, location }
    }

    /// The error report; with `source` (the whole source text) it shows the
    /// lines around the error and points at its column.
    pub fn format(&self, source: Option<&str>) -> (r: String)
        ensures
            r@ == compile_error_report(
                self.message@,
                self.location@,
                match source {
                    Some(s) => Some(s@),
                    None => None,
                },
            ),
    {
        let mut out = String::new();
        push_str(&mut out, "\n╭─ Compile Error ─────────────────────────────\n");
        push_str(&mut out, "│ ");
        let lt = self.location.format();
        push_str(&mut out, lt.as_str());
        push_str(&mut out, "\n");
        push_str(&mut out, "├─────────────────────────────────────────────\n");
        push_str(&mut out, "│ ");
        push_str(&mut out, self.message.as_str());
        push_str(&mut out, "\n");
        match source {
            Some(src) => push_source_context(&mut out, &self.location, src),
            None => {},
        }
        push_str(&mut out, "╰─────────────────────────────────────────────\n");
        assert(out@ =~= compile_error_report(
            self.message@,
            self.location@,
            match source {
                Some(s) => Some(s@),
                None => None,
            },
        ));
        out
    }

    /// A one-line report: `Compile error at <location>: <message>`.
    pub fn format_simple(&self) -> (r: String)
        ensures
            r@ == "Compile error at "@ + location_text(self.location@) + ": "@ + self.message@,
    {
        let mut out = owned("Compile error at ");
        let lt = self.location.format();
        push_str(&mut out, lt.as_str());
        push_str(&mut out, ": ");
        push_str(&mut out, self.message.as_str());
        out
    }
}

/// An error raised while running a program.
#[derive(Debug, Clone)]
pub struct RuntimeError {
    pub message: String,
    pub call_stack: Vec<String>,
    pub location: Option<Location>,
}

/// The call-stack lines of a runtime error report, innermost call first,
/// for the frames `stack[0..n]`, numbered from `k` on.
pub open spec fn stack_lines(stack: Seq<Seq<char>>, n: int, k: nat) -> Seq<char>
    decreases n,
{
    if n <= 0 {
        Seq::empty()
    } else {
        "│ #"@ + decimal(k) + ": "@ + stack[n - 1] + "\n"@ + stack_lines(stack, n - 1, k + 1)
    }
}

/// The full report of a runtime error.
pub open spec fn runtime_error_report(message: Seq<char>, stack: Seq<Seq<char>>, loc: Option<LocView>) -> Seq<char> {
    "\n╭─ Runtime Error ─────────────────────────────\n"@
        + (match loc {
            Some(l) => "│ "@ + location_text(l) + "\n"@ + rule_line(),
            None => Seq::empty(),
        })
        + "│ "@ + message + "\n"@
        + (if stack.len() > 0 {
            "├─ Call Stack ────────────────────────────────\n"@ + stack_lines(stack, stack.len() as int, 0)
        } else {
            Seq::empty()
        })
        + bottom_line()
}

pub open spec fn opt_loc_view(l: Option<Location>) -> Option<LocView> {
    match l {
        Some(x) => Some(x@),
        None => None,
    }
}

pub open spec fn strings_view(v: Seq<String>) -> Seq<Seq<char>> {
    Seq::new(v.len(), |i: int| v[i]@)
}

impl RuntimeError {
    pub fn new(message: String) -> (r: Self)
        ensures
            r.message == message,
            r.call_stack@.len() == 0,
            r.location.is_none(),
    {
        RuntimeError { message, call_stack: Vec::new(), location: None }
    }

    pub fn with_stack(message: String, call_stack: Vec<String>) -> (r: Self)
        ensures
            r.message == message,
            r.call_stack == call_stack,
            r.location.is_none(),
    {
        RuntimeError { message, call_stack, location: None }
    }

    pub fn with_location(message: String, location: Location) -> (r: Self)
        ensures
            r.message == message,
            r.call_stack@.len() == 0,
            r.location == Some(location),
    {
        RuntimeError { message, call_stack: Vec::new(), location: Some(location) }
    }

    pub fn with_stack_and_location(
        message: String,
        call_stack: Vec<String>,
        location: Option<Location>,
    ) -> (r: Self)
        ensures
            r.message == message,
            r.call_stack == call_stack,
            r.location == location,
    {
        RuntimeError { message, call_stack, location }
    }

    /// The error report, with the location when known and the call stack
    /// (innermost call first) when not empty.
    pub fn format(&self) -> (r: String)
        ensures
            r@ == runtime_error_report(
                self.message@,
                strings_view(self.call_stack@),
                opt_loc_view(self.location),
            ),
    {
        let mut out = owned("\n╭─ Runtime Error ─────────────────────────────\n");
        let ghost start = out@;
        match &self.location {
            Some(loc) => {
                push_str(&mut out, "│ ");
                let lt = loc.format();
                push_str(&mut out, lt.as_str());
                push_str(&mut out, "\n");
                push_str(&mut out, "├─────────────────────────────────────────────\n");
            },
            None => {},
        }
        push_str(&mut out, "│ ");
        push_str(&mut out, self.message.as_str());
        push_str(&mut out, "\n");
        let ghost mid = out@;
        let ghost sv = strings_view(self.call_stack@);
        let n = self.call_stack.len();
        if n > 0 {
            push_str(&mut out, "├─ Call Stack ────────────────────────────────\n");
            let ghost mid2 = out@;
            let mut k: usize = 0;
            while k < n
                invariant
                    k <= n,
                    n == self.call_stack@.len(),
                    sv == strings_view(self.call_stack@),
                    out@ + stack_lines(sv, (n - k) as int, k as nat) == mid2 + stack_lines(sv, n as int, 0),
                decreases n - k,
            {
                let ghost prev = out@;
                push_str(&mut out, "│ #");
                push_usize(&mut out, k);
                push_str(&mut out, ": ");
                push_str(&mut out, self.call_stack[n - 1 - k].as_str());
                push_str(&mut out, "\n");
                assert(out@ == prev + ("│ #"@ + decimal(k as nat) + ": "@ + sv[n - 1 - k] + "\n"@));
                assert(stack_lines(sv, (n - k) as int, k as nat) == ("│ #"@ + decimal(k as nat) + ": "@ + sv[n - k - 1] + "\n"@) + stack_lines(sv, (n - k - 1) as int, (k + 1) as nat));
                assert(out@ + stack_lines(sv, (n - (k + 1)) as int, (k + 1) as nat) =~= prev + stack_lines(sv, (n - k) as int, k as nat));
                k = k + 1;
            }
            assert(stack_lines(sv, 0, n as nat) == Seq::<char>::empty());
            assert(out@ =~= mid2 + stack_lines(sv, n as int, 0));
        }
        push_str(&mut out, "╰─────────────────────────────────────────────\n");
        assert(out@ =~= runtime_error_report(self.message@, sv, opt_loc_view(self.location)));
        out
    }

    /// A one-line report: `Runtime error[ at <location>]: <message>`.
    pub fn format_simple(&self) -> (r: String)
        ensures
            r@ == "Runtime error"@ + (match self.location {
                Some(l) => " at "@ + location_text(l@),
                None => Seq::empty(),
            }) + ": "@ + self.message@,
    {
        let mut out = owned("Runtime error");
        match &self.location {
            Some(l) => {
                push_str(&mut out, " at ");
                let lt = l.format();
                push_str(&mut out, lt.as_str());
            },
            None => {},
        }
        push_str(&mut out, ": ");
        push_str(&mut out, self.message.as_str());
        out
    }
}
} // verus!
