//! Validation of command lines as they come from a client.
use crate::bytes::{ends_with, has_suffix};
use crate::protocol::{crlf, crlf_bytes};
use crate::text::text_prefix;
use vstd::prelude::*;
use vstd::string::*;

verus! {

/// Longest command line, its line ending counted.
pub const MAX_COMMAND_LINE_OCTETS: usize = 512;

/// Why a line is no command line.
#[derive(Clone, Copy, Debug, PartialEq, Eq, Structural)]
pub enum CommandLineError {
    TooLong,
    MissingCrLf,
    BareLf,
    BareCr,
    MixedLineEnding,
    Empty,
    WhitespaceOnly,
    SurroundingWhitespace,
}

impl CommandLineError {
    pub open spec fn text(self) -> Seq<char> {
        match self {
            CommandLineError::TooLong => "command line exceeds 512 octets"@,
            CommandLineError::MissingCrLf => "command line must end with CRLF"@,
            CommandLineError::BareLf => "command line used bare LF"@,
            CommandLineError::BareCr => "command line used bare CR"@,
            CommandLineError::MixedLineEnding =>
                "command line used mixed or embedded line endings"@,
            CommandLineError::Empty => "command line was empty"@,
            CommandLineError::WhitespaceOnly => "command line was whitespace only"@,
            CommandLineError::SurroundingWhitespace =>
                "command line had leading or trailing whitespace"@,
        }
    }

    pub fn message(&self) -> (r: &'static str)
        ensures
            r@ == self.text(),
    {
        match self {
            CommandLineError::TooLong => "command line exceeds 512 octets",
            CommandLineError::MissingCrLf => "command line must end with CRLF",
            CommandLineError::BareLf => "command line used bare LF",
            CommandLineError::BareCr => "command line used bare CR",
            CommandLineError::MixedLineEnding => "command line used mixed or embedded line endings",
            CommandLineError::Empty => "command line was empty",
            CommandLineError::WhitespaceOnly => "command line was whitespace only",
            CommandLineError::SurroundingWhitespace =>
                "command line had leading or trailing whitespace",
        }
    }
}

pub open spec fn is_line_break(b: u8) -> bool {
    b == 0x0d || b == 0x0a
}

pub open spec fn is_blank_byte(b: u8) -> bool {
    b == 0x20 || b == 0x09
}

/// Some byte of `s` is part of a line ending.
pub open spec fn breaks_line(s: Seq<u8>) -> bool {
    exists|i: int| 0 <= i < s.len() && is_line_break(#[trigger] s[i])
}

/// Every byte of `s` is a space or a tab.
pub open spec fn all_blank(s: Seq<u8>) -> bool {
    forall|i: int| 0 <= i < s.len() ==> is_blank_byte(#[trigger] s[i])
}

/// Why a line with these bytes is no command line, if it is none.
pub open spec fn line_refusal(line: Seq<u8>) -> Option<CommandLineError> {
    if line.len() > MAX_COMMAND_LINE_OCTETS {
        Some(CommandLineError::TooLong)
    } else if !has_suffix(line, crlf()) {
        if line.len() == 0 {
            Some(CommandLineError::MissingCrLf)
        } else if breaks_line(line.subrange(0, line.len() - 1)) {
            Some(CommandLineError::MixedLineEnding)
        } else if line[line.len() - 1] == 0x0a {
            Some(CommandLineError::BareLf)
        } else if line[line.len() - 1] == 0x0d {
            Some(CommandLineError::BareCr)
        } else {
            Some(CommandLineError::MissingCrLf)
        }
    } else {
        let content = line.subrange(0, line.len() - 2);
        if content.len() == 0 {
            Some(CommandLineError::Empty)
        } else if breaks_line(content) {
            Some(CommandLineError::MixedLineEnding)
        } else if all_blank(content) {
            Some(CommandLineError::WhitespaceOnly)
        } else if is_blank_byte(content[0]) || is_blank_byte(content[content.len() - 1]) {
            Some(CommandLineError::SurroundingWhitespace)
        } else {
            None
        }
    }
}

fn any_line_break(s: &[u8]) -> (r: bool)
    ensures
        r == breaks_line(s@),
{
    for i in 0..s.len()
        invariant
            forall|j: int| 0 <= j < i ==> !is_line_break(#[trigger] s@[j]),
    {
        if s[i] == 0x0d || s[i] == 0x0a {
            assert(is_line_break(s@[i as int]));
            return true;
        }
    }
    false
}

fn only_blanks(s: &[u8]) -> (r: bool)
    ensures
        r == all_blank(s@),
{
    for i in 0..s.len()
        invariant
            forall|j: int| 0 <= j < i ==> is_blank_byte(#[trigger] s@[j]),
    {
        if s[i] != 0x20 && s[i] != 0x09 {
            assert(!is_blank_byte(s@[i as int]));
            return false;
        }
    }
    true
}

/// A command line that may be read as a command.
#[derive(Clone, Copy, Debug, PartialEq, Eq)]
pub struct ValidatedCommandLine<'a> {
    raw: &'a str,
    content: &'a str,
}

impl<'a> ValidatedCommandLine<'a> {
    pub closed spec fn spec_raw(&self) -> Seq<char> {
        self.raw@
    }

    pub closed spec fn spec_content(&self) -> Seq<u8> {
        self.content.spec_bytes()
    }

    /// Validates a line as it came from a client.
    pub fn new(raw: &'a str) -> (r: Result<Self, CommandLineError>)
        ensures
            match r {
                Ok(line) => {
                    &&& line_refusal(raw.spec_bytes()) is None
                    &&& line.spec_raw() == raw@
                    &&& line.spec_content() == raw.spec_bytes().subrange(
                        0,
                        raw.spec_bytes().len() - 2,
                    )
                },
                Err(e) => line_refusal(raw.spec_bytes()) == Some(e),
            },
    {
        let bytes = raw.as_bytes();
        if bytes.len() > MAX_COMMAND_LINE_OCTETS {
            return Err(CommandLineError::TooLong);
        }
        let n = bytes.len();
        if !ends_with(bytes, crlf_bytes()) {
            if n == 0 {
                return Err(CommandLineError::MissingCrLf);
            }
            if any_line_break(&bytes[0..n - 1]) {
                return Err(CommandLineError::MixedLineEnding);
            }
            let last = bytes[n - 1];
            if last == 0x0a {
                return Err(CommandLineError::BareLf);
            }
            if last == 0x0d {
                return Err(CommandLineError::BareCr);
            }
            return Err(CommandLineError::MissingCrLf);
        }
        assert(bytes@[n - 2] == 0x0d) by {
            assert(crlf()[0] == 0x0d);
            assert(bytes@.subrange(n - 2, n as int)[0] == bytes@[n - 2]);
        }
        let content_bytes = &bytes[0..n - 2];
        if content_bytes.len() == 0 {
            return Err(CommandLineError::Empty);
        }
        if any_line_break(content_bytes) {
            return Err(CommandLineError::MixedLineEnding);
        }
        if only_blanks(content_bytes) {
            return Err(CommandLineError::WhitespaceOnly);
        }
        let first = content_bytes[0];
        let last = content_bytes[content_bytes.len() - 1];
        if first == 0x20 || first == 0x09 || last == 0x20 || last == 0x09 {
            return Err(CommandLineError::SurroundingWhitespace);
        }
        let content = text_prefix(raw, n - 2);
        Ok(ValidatedCommandLine { raw, content })
    }

    /// The line with its line ending.
    pub fn raw(self) -> (r: &'a str)
        ensures
            r@ == self.spec_raw(),
    {
        self.raw
    }

    /// The line without its line ending.
    pub fn content(self) -> (r: &'a str)
        ensures
            r.spec_bytes() == self.spec_content(),
    {
        self.content
    }
}

// ---------------------------------------------------------------------------
// Laws
// ---------------------------------------------------------------------------

/// No byte of a text is part of a line ending.
pub open spec fn unbroken(s: Seq<u8>) -> bool {
    forall|i: int| 0 <= i < s.len() ==> #[trigger] s[i] != 0x0d && s[i] != 0x0a
}

/// The byte is a space or a tab.
pub open spec fn spacing(b: u8) -> bool {
    b == 0x20 || b == 0x09
}

/// A text of one line, with something other than blanks at both ends, makes a
/// command line with a carriage return and a line feed after it, up to 512 bytes
/// in all; nothing else does.
pub proof fn law_command_lines(line: Seq<u8>)
    ensures
        (line_refusal(line) is None) == ({
            &&& 3 <= line.len() <= 512
            &&& line[line.len() - 2] == 0x0d
            &&& line[line.len() - 1] == 0x0a
            &&& unbroken(line.subrange(0, line.len() - 2))
            &&& !spacing(line[0])
            &&& !spacing(line[line.len() - 3])
        }),
        line.len() > 512 ==> line_refusal(line) == Some(CommandLineError::TooLong),
{
    let n = line.len() as int;
    if n >= 2 {
        let end = line.subrange(n - 2, n);
        assert(end[0] == line[n - 2] && end[1] == line[n - 1]);
        if line[n - 2] == 0x0d && line[n - 1] == 0x0a {
            assert(end =~= crlf());
        }
        assert(has_suffix(line, crlf()) == (line[n - 2] == 0x0d && line[n - 1] == 0x0a));
        if n >= 3 {
            let content = line.subrange(0, n - 2);
            lemma_unbroken(content);
            assert(content[0] == line[0] && content[content.len() - 1] == line[n - 3]);
            if all_blank(content) {
                assert(is_blank_byte(content[0]));
            }
        }
    }
}

proof fn lemma_unbroken(s: Seq<u8>)
    ensures
        breaks_line(s) == !unbroken(s),
{
    if !unbroken(s) {
        let i = choose|i: int| 0 <= i < s.len() && !(#[trigger] s[i] != 0x0d && s[i] != 0x0a);
        assert(is_line_break(s[i]));
    }
}

/// What is wrong with a line is told by what it lacks: nothing between the line
/// ending, nothing but blanks, a blank at an end, a line feed or a carriage return
/// alone, no line ending, or one more of them inside.
pub proof fn law_line_faults(text: Seq<u8>)
    requires
        text.len() <= 510,
    ensures
        ({
            let full = text + seq![0x0du8, 0x0a];
            &&& text.len() == 0 ==> line_refusal(full) == Some(CommandLineError::Empty)
            &&& !unbroken(text) ==> line_refusal(full) == Some(CommandLineError::MixedLineEnding)
            &&& text.len() > 0 && unbroken(text) && (forall|i: int|
                0 <= i < text.len() ==> spacing(#[trigger] text[i])) ==> line_refusal(full) == Some(
                CommandLineError::WhitespaceOnly,
            )
            &&& text.len() > 0 && unbroken(text) && !(forall|i: int|
                0 <= i < text.len() ==> spacing(#[trigger] text[i])) && (spacing(text[0])
                || spacing(text[text.len() - 1])) ==> line_refusal(full) == Some(
                CommandLineError::SurroundingWhitespace,
            )
        }),
        unbroken(text) ==> {
            &&& line_refusal(text + seq![0x0au8]) == Some(CommandLineError::BareLf)
            &&& line_refusal(text + seq![0x0du8]) == Some(CommandLineError::BareCr)
            &&& line_refusal(text) == Some(CommandLineError::MissingCrLf)
        },
{
    let full = text + seq![0x0du8, 0x0a];
    assert(full.subrange(full.len() - 2, full.len() as int) =~= crlf());
    assert(full.subrange(0, full.len() - 2) =~= text);
    lemma_unbroken(text);
    if all_blank(text) {
        assert forall|i: int| 0 <= i < text.len() implies spacing(#[trigger] text[i]) by {
            assert(is_blank_byte(text[i]));
        }
    } else {
        let i = choose|i: int| 0 <= i < text.len() && !is_blank_byte(#[trigger] text[i]);
        assert(!spacing(text[i]));
    }
    if unbroken(text) {
        lemma_no_full_ending(text, 0x0a);
        lemma_no_full_ending(text, 0x0d);
        if text.len() > 0 {
            let front = text.subrange(0, text.len() - 1);
            assert forall|i: int| 0 <= i < front.len() implies #[trigger] front[i] != 0x0d
                && front[i] != 0x0a by {
                assert(front[i] == text[i]);
            }
            lemma_unbroken(front);
            assert(text[text.len() - 1] != 0x0a && text[text.len() - 1] != 0x0d);
            if has_suffix(text, crlf()) {
                assert(text.subrange(text.len() - 2, text.len() as int)[1] == crlf()[1]);
            }
        }
    }
}

proof fn lemma_no_full_ending(text: Seq<u8>, b: u8)
    requires
        unbroken(text),
        b == 0x0a || b == 0x0d,
    ensures
        !has_suffix(text + seq![b], crlf()),
        (text + seq![b]).subrange(0, (text + seq![b]).len() - 1) == text,
        (text + seq![b])[(text + seq![b]).len() - 1] == b,
{
    let line = text + seq![b];
    assert(line.subrange(0, line.len() - 1) =~= text);
    if has_suffix(line, crlf()) {
        let end = line.subrange(line.len() - 2, line.len() as int);
        assert(end[0] == crlf()[0]);
        assert(line[line.len() - 2] == text[text.len() - 1]);
    }
}

/// The words for a fault of a command line say of the line what is wrong with it.
pub proof fn law_words_for_line_faults(e: CommandLineError)
    ensures
        e.text() == "command line"@ + (match e {
            CommandLineError::TooLong => " exceeds 512 octets"@,
            CommandLineError::MissingCrLf => " must end with CRLF"@,
            CommandLineError::BareLf => " used bare LF"@,
            CommandLineError::BareCr => " used bare CR"@,
            CommandLineError::MixedLineEnding => " used mixed or embedded line endings"@,
            CommandLineError::Empty => " was empty"@,
            CommandLineError::WhitespaceOnly => " was whitespace only"@,
            CommandLineError::SurroundingWhitespace => " had leading or trailing whitespace"@,
        }),
{
    reveal_strlit("command line");
    reveal_strlit(" exceeds 512 octets");
    reveal_strlit("command line exceeds 512 octets");
    reveal_strlit(" must end with CRLF");
    reveal_strlit("command line must end with CRLF");
    reveal_strlit(" used bare LF");
    reveal_strlit("command line used bare LF");
    reveal_strlit(" used bare CR");
    reveal_strlit("command line used bare CR");
    reveal_strlit(" used mixed or embedded line endings");
    reveal_strlit("command line used mixed or embedded line endings");
    reveal_strlit(" was empty");
    reveal_strlit("command line was empty");
    reveal_strlit(" was whitespace only");
    reveal_strlit("command line was whitespace only");
    reveal_strlit(" had leading or trailing whitespace");
    reveal_strlit("command line had leading or trailing whitespace");
}

} // verus!
