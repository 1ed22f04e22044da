//! Classification of client commands for routing.
//!
//! Command words are matched in capitals, in small letters, and with a capital
//! first letter. Any other mixture of case is an unknown word.
use crate::bytes::{
    ascii_lower, find_first, first_byte, lemma_first_byte, lower_byte, lower_bytes,
};
use crate::protocol::lemma_names_differ;
use crate::text::{
    ascii_chars, blank, is_white_space, law_white_space_around_is_dropped, lemma_ascii_bytes,
    lemma_ascii_text, lemma_encode_ascii_front, lemma_encode_injective, lemma_first_of_text,
    lemma_trim_end_behind, lemma_trim_end_is_front, same_letter, same_letters, trim_str, trim_text,
    trim_text_end,
};
use vstd::prelude::*;
use vstd::string::*;
use vstd::utf8::*;

verus! {

/// How a command is routed.
#[derive(Clone, Copy, Debug, PartialEq, Eq, Structural)]
pub enum NntpCommand {
    /// `AUTHINFO USER`.
    AuthUser,
    /// `AUTHINFO PASS`.
    AuthPass,
    /// Needs the state of a selected group.
    Stateful,
    /// Cannot be routed command by command.
    NonRoutable,
    /// Any backend may serve it.
    Stateless,
    /// Names an article by its message identifier.
    ArticleByMessageId,
}

/// A word in small letters but for its first letter.
pub open spec fn titled(name: Seq<u8>) -> Seq<u8> {
    if name.len() == 0 {
        name
    } else {
        seq![name[0]] + lower_bytes(name.subrange(1, name.len() as int))
    }
}

/// The word is `name`, which is in capitals, in one of the usual cases.
pub open spec fn usual_case(word: Seq<u8>, name: &str) -> bool {
    ||| word == name.spec_bytes()
    ||| word == lower_bytes(name.spec_bytes())
    ||| word == titled(name.spec_bytes())
}

/// The line is the command `name` followed by something that starts like a
/// message identifier.
pub open spec fn asks_by_id(line: Seq<u8>, name: &str) -> bool {
    let k = name.spec_bytes().len() as int;
    &&& line.len() > k + 1
    &&& usual_case(line.subrange(0, k), name)
    &&& line[k] == 0x20
    &&& line[k + 1] == 0x3c
}

/// Class of an `AUTHINFO` line, by the first four bytes of its arguments.
pub open spec fn authinfo_class(args: Seq<u8>) -> NntpCommand {
    if args.len() < 4 {
        NntpCommand::Stateless
    } else if usual_case(args.subrange(0, 4), "USER") {
        NntpCommand::AuthUser
    } else if usual_case(args.subrange(0, 4), "PASS") {
        NntpCommand::AuthPass
    } else {
        NntpCommand::Stateless
    }
}

/// What follows the command word and one space.
pub open spec fn after_word(line: Seq<u8>, n: int) -> Seq<u8> {
    if n + 1 >= line.len() {
        Seq::empty()
    } else {
        line.subrange(n + 1, line.len() as int)
    }
}

/// Class of a line without white space around it. An unknown command is left to
/// a backend.
pub open spec fn line_class(line: Seq<u8>) -> NntpCommand {
    let n = first_byte(line, 0x20) as int;
    let word = line.subrange(0, n);
    if line.len() >= 7 && (asks_by_id(line, "BODY") || asks_by_id(line, "HEAD") || asks_by_id(
        line,
        "STAT",
    ) || asks_by_id(line, "ARTICLE")) {
        NntpCommand::ArticleByMessageId
    } else if usual_case(word, "ARTICLE") || usual_case(word, "BODY") || usual_case(word, "HEAD")
        || usual_case(word, "STAT") || usual_case(word, "GROUP") {
        NntpCommand::Stateful
    } else if usual_case(word, "AUTHINFO") {
        authinfo_class(after_word(line, n))
    } else if usual_case(word, "LIST") || usual_case(word, "DATE") || usual_case(
        word,
        "CAPABILITIES",
    ) || usual_case(word, "MODE") || usual_case(word, "HELP") || usual_case(word, "QUIT") {
        NntpCommand::Stateless
    } else if usual_case(word, "XOVER") || usual_case(word, "OVER") || usual_case(word, "XHDR")
        || usual_case(word, "HDR") || usual_case(word, "NEXT") || usual_case(word, "LAST")
        || usual_case(word, "LISTGROUP") {
        NntpCommand::Stateful
    } else if usual_case(word, "POST") || usual_case(word, "IHAVE") || usual_case(word, "NEWGROUPS")
        || usual_case(word, "NEWNEWS") {
        NntpCommand::NonRoutable
    } else {
        NntpCommand::Stateless
    }
}

/// Class of a line.
pub open spec fn class_of(text: Seq<char>) -> NntpCommand {
    line_class(encode_utf8(trim_text(text)))
}

/// Is the word `name` in one of the usual cases?
fn matches_any(word: &[u8], name: &str) -> (r: bool)
    ensures
        r == usual_case(word@, name),
{
    let wanted = name.as_bytes();
    if word.len() != wanted.len() {
        return false;
    }
    let mut capitals: bool = true;
    let mut small: bool = true;
    let mut title: bool = true;
    let ghost low = lower_bytes(wanted@);
    let ghost tit = titled(wanted@);
    for i in 0..word.len()
        invariant
            word@.len() == wanted@.len(),
            low == lower_bytes(wanted@),
            tit == titled(wanted@),
            capitals == (forall|j: int| 0 <= j < i ==> word@[j] == wanted@[j]),
            small == (forall|j: int| 0 <= j < i ==> word@[j] == low[j]),
            title == (forall|j: int| 0 <= j < i ==> word@[j] == tit[j]),
    {
        let b = word[i];
        let w = wanted[i];
        let l = lower_byte(w);
        assert(low[i as int] == l);
        assert(tit[i as int] == if i == 0 {
            w
        } else {
            l
        });
        capitals = capitals && b == w;
        small = small && b == l;
        title = title && b == (if i == 0 {
            w
        } else {
            l
        });
    }
    proof {
        assert(capitals == (word@ =~= wanted@));
        assert(small == (word@ =~= low));
        assert(title == (word@ =~= tit));
    }
    capitals || small || title
}

fn is_cmd_with_msgid(line: &[u8], name: &str) -> (r: bool)
    ensures
        r == asks_by_id(line@, name),
{
    let k = name.as_bytes().len();
    if line.len() <= k || line.len() - k <= 1 {
        return false;
    }
    matches_any(&line[0..k], name) && line[k] == 0x20 && line[k + 1] == 0x3c
}

fn is_article_cmd_with_msgid(line: &[u8]) -> (r: bool)
    ensures
        r == (line@.len() >= 7 && (asks_by_id(line@, "BODY") || asks_by_id(line@, "HEAD")
            || asks_by_id(line@, "STAT") || asks_by_id(line@, "ARTICLE"))),
{
    if line.len() < 7 {
        return false;
    }
    is_cmd_with_msgid(line, "BODY") || is_cmd_with_msgid(line, "HEAD") || is_cmd_with_msgid(
        line,
        "STAT",
    ) || is_cmd_with_msgid(line, "ARTICLE")
}

impl NntpCommand {
    /// Does the command need a connection of its own?
    pub fn is_stateful(&self) -> (r: bool)
        ensures
            r == (*self == NntpCommand::Stateful),
    {
        matches!(self, NntpCommand::Stateful)
    }

    /// Classifies a command line.
    pub fn classify(command: &str) -> (r: Self)
        ensures
            r == class_of(command@),
    {
        let trimmed = trim_str(command);
        Self::classify_line(trimmed.as_bytes())
    }

    /// Classifies a command line without white space around it.
    pub fn classify_line(line: &[u8]) -> (r: Self)
        ensures
            r == line_class(line@),
    {
        if is_article_cmd_with_msgid(line) {
            return NntpCommand::ArticleByMessageId;
        }
        let n = find_first(0x20, line);
        let word = &line[0..n];
        if matches_any(word, "ARTICLE") || matches_any(word, "BODY") || matches_any(word, "HEAD")
            || matches_any(word, "STAT") {
            return NntpCommand::Stateful;
        }
        if matches_any(word, "GROUP") {
            return NntpCommand::Stateful;
        }
        if matches_any(word, "AUTHINFO") {
            return Self::classify_authinfo(line, n);
        }
        if matches_any(word, "LIST") || matches_any(word, "DATE") || matches_any(
            word,
            "CAPABILITIES",
        ) || matches_any(word, "MODE") || matches_any(word, "HELP") || matches_any(word, "QUIT") {
            return NntpCommand::Stateless;
        }
        if matches_any(word, "XOVER") || matches_any(word, "OVER") || matches_any(word, "XHDR")
            || matches_any(word, "HDR") {
            return NntpCommand::Stateful;
        }
        if matches_any(word, "NEXT") || matches_any(word, "LAST") || matches_any(
            word,
            "LISTGROUP",
        ) {
            return NntpCommand::Stateful;
        }
        if matches_any(word, "POST") || matches_any(word, "IHAVE") || matches_any(
            word,
            "NEWGROUPS",
        ) || matches_any(word, "NEWNEWS") {
            return NntpCommand::NonRoutable;
        }
        NntpCommand::Stateless
    }

    fn classify_authinfo(line: &[u8], n: usize) -> (r: Self)
        requires
            n <= line@.len(),
        ensures
            r == authinfo_class(after_word(line@, n as int)),
    {
        if line.len() - n <= 1 {
            return NntpCommand::Stateless;
        }
        let args = &line[n + 1..line.len()];
        if args.len() < 4 {
            return NntpCommand::Stateless;
        }
        if matches_any(&args[0..4], "USER") {
            NntpCommand::AuthUser
        } else if matches_any(&args[0..4], "PASS") {
            NntpCommand::AuthPass
        } else {
            NntpCommand::Stateless
        }
    }
}

// ---------------------------------------------------------------------------
// Laws
// ---------------------------------------------------------------------------

/// A word of capital letters.
pub open spec fn capitals(word: Seq<u8>) -> bool {
    word.len() > 0 && forall|i: int| 0 <= i < word.len() ==> 0x41 <= #[trigger] word[i] <= 0x5a
}

/// A command word of the protocol, in capitals.
spec fn command_name(name: &str) -> bool {
    name.spec_bytes().len() > 1 && capitals(name.spec_bytes())
}

proof fn lemma_command_name(name: &str)
    requires
        name@.len() > 1,
        forall|i: int| 0 <= i < name@.len() ==> 'A' <= #[trigger] name@[i] <= 'Z',
    ensures
        command_name(name),
{
    assert(is_ascii_chars(name@));
    is_ascii_chars_encode_utf8(name@);
    let b = name.spec_bytes();
    assert forall|i: int| 0 <= i < b.len() implies 0x41 <= #[trigger] b[i] <= 0x5a by {
        assert(name@[i] as u8 == b[i]);
    }
}

proof fn lemma_command_names()
    ensures
        command_name("BODY"),
        command_name("HEAD"),
        command_name("STAT"),
        command_name("ARTICLE"),
        command_name("GROUP"),
        command_name("AUTHINFO"),
        command_name("LIST"),
        command_name("DATE"),
        command_name("CAPABILITIES"),
        command_name("MODE"),
        command_name("HELP"),
        command_name("QUIT"),
        command_name("XOVER"),
        command_name("OVER"),
        command_name("XHDR"),
        command_name("HDR"),
        command_name("NEXT"),
        command_name("LAST"),
        command_name("LISTGROUP"),
        command_name("POST"),
        command_name("IHAVE"),
        command_name("NEWGROUPS"),
        command_name("NEWNEWS"),
{
    reveal_strlit("BODY");
    lemma_command_name("BODY");
    reveal_strlit("HEAD");
    lemma_command_name("HEAD");
    reveal_strlit("STAT");
    lemma_command_name("STAT");
    reveal_strlit("ARTICLE");
    lemma_command_name("ARTICLE");
    reveal_strlit("GROUP");
    lemma_command_name("GROUP");
    reveal_strlit("AUTHINFO");
    lemma_command_name("AUTHINFO");
    reveal_strlit("LIST");
    lemma_command_name("LIST");
    reveal_strlit("DATE");
    lemma_command_name("DATE");
    reveal_strlit("CAPABILITIES");
    lemma_command_name("CAPABILITIES");
    reveal_strlit("MODE");
    lemma_command_name("MODE");
    reveal_strlit("HELP");
    lemma_command_name("HELP");
    reveal_strlit("QUIT");
    lemma_command_name("QUIT");
    reveal_strlit("XOVER");
    lemma_command_name("XOVER");
    reveal_strlit("OVER");
    lemma_command_name("OVER");
    reveal_strlit("XHDR");
    lemma_command_name("XHDR");
    reveal_strlit("HDR");
    lemma_command_name("HDR");
    reveal_strlit("NEXT");
    lemma_command_name("NEXT");
    reveal_strlit("LAST");
    lemma_command_name("LAST");
    reveal_strlit("LISTGROUP");
    lemma_command_name("LISTGROUP");
    reveal_strlit("POST");
    lemma_command_name("POST");
    reveal_strlit("IHAVE");
    lemma_command_name("IHAVE");
    reveal_strlit("NEWGROUPS");
    lemma_command_name("NEWGROUPS");
    reveal_strlit("NEWNEWS");
    lemma_command_name("NEWNEWS");
}

/// A word in capitals, in small letters, or with a capital first letter.
pub open spec fn in_usual_case(word: Seq<u8>, name: Seq<u8>) -> bool {
    word == name || word == lower_bytes(name) || word == titled(name)
}

/// A word in a usual case is one command word at most: the one that it is in
/// capitals.
proof fn lemma_usual_case(word: Seq<u8>, capital: Seq<u8>, name: &str)
    requires
        capitals(capital),
        in_usual_case(word, capital),
        command_name(name),
    ensures
        usual_case(word, name) == (capital == name.spec_bytes()),
{
    let b = name.spec_bytes();
    if usual_case(word, name) {
        assert(word.len() == b.len() && word.len() == capital.len());
        let low = lower_bytes(b);
        let low_capital = lower_bytes(capital);
        assert forall|i: int| 0 <= i < b.len() implies capital[i] == b[i] by {
            assert(0x41 <= b[i] <= 0x5a && 0x41 <= capital[i] <= 0x5a);
            assert(0x41 <= b[1] <= 0x5a && 0x41 <= capital[1] <= 0x5a);
            assert(0x41 <= b[0] <= 0x5a && 0x41 <= capital[0] <= 0x5a);
            assert(low[i] == ascii_lower(b[i]) && low_capital[i] == ascii_lower(capital[i]));
            assert(low[0] == ascii_lower(b[0]) && low_capital[0] == ascii_lower(capital[0]));
            assert(low[1] == ascii_lower(b[1]) && low_capital[1] == ascii_lower(capital[1]));
            lemma_titled_at(b, i);
            lemma_titled_at(b, 0);
            lemma_titled_at(b, 1);
            lemma_titled_at(capital, i);
            lemma_titled_at(capital, 0);
            lemma_titled_at(capital, 1);
        }
        assert(capital =~= b);
    }
}

proof fn lemma_titled_at(name: Seq<u8>, i: int)
    requires
        0 <= i < name.len(),
    ensures
        titled(name).len() == name.len(),
        titled(name)[i] == (if i == 0 {
            name[0]
        } else {
            ascii_lower(name[i])
        }),
{
}

/// A word in a usual case is of letters alone.
proof fn lemma_letters(word: Seq<u8>, capital: Seq<u8>)
    requires
        capitals(capital),
        in_usual_case(word, capital),
    ensures
        word.len() == capital.len(),
        forall|i: int|
            0 <= i < word.len() ==> 0x41 <= #[trigger] word[i] <= 0x7a && (word[i] <= 0x5a
                || word[i] >= 0x61),
{
    assert forall|i: int| 0 <= i < capital.len() implies 0x41 <= #[trigger] word[i] <= 0x7a && (
    word[i] <= 0x5a || word[i] >= 0x61) by {
        assert(0x41 <= capital[i] <= 0x5a);
        assert(lower_bytes(capital)[i] == ascii_lower(capital[i]));
        lemma_titled_at(capital, i);
    }
    lemma_titled_at(capital, 0);
}

/// A line of a command word and what follows it asks for an article by its
/// identifier where the word is the one, and what follows starts so.
proof fn lemma_asks_by_id(word: Seq<u8>, capital: Seq<u8>, rest: Seq<u8>, name: &str)
    requires
        capitals(capital),
        in_usual_case(word, capital),
        command_name(name),
        rest.len() > 0 ==> rest[0] == 0x20,
    ensures
        asks_by_id(word + rest, name) == (capital == name.spec_bytes() && rest.len() > 1 && rest[1]
            == 0x3c),
{
    let line = word + rest;
    let b = name.spec_bytes();
    let k = b.len() as int;
    lemma_letters(word, capital);
    lemma_usual_case(word, capital, name);
    assert(word =~= line.subrange(0, word.len() as int));
    if asks_by_id(line, name) {
        let front = line.subrange(0, k);
        lemma_letters(front, b);
        if k < word.len() {
            assert(line[k] == word[k]);
        } else if k > word.len() {
            assert(front[word.len() as int] == rest[0]);
        }
        assert(k == word.len());
        assert(line[k + 1] == rest[1]);
    } else if capital == b && rest.len() > 1 && rest[1] == 0x3c {
        assert(line[k] == rest[0] && line[k + 1] == rest[1]);
    }
}

/// The class of a line of a command word and what follows it does not depend on
/// which of the usual cases the word is in.
proof fn lemma_line_class_in_case(word: Seq<u8>, capital: Seq<u8>, rest: Seq<u8>)
    requires
        capitals(capital),
        in_usual_case(word, capital),
        rest.len() > 0 ==> rest[0] == 0x20,
    ensures
        line_class(word + rest) == line_class(capital + rest),
{
    let a = word + rest;
    let b = capital + rest;
    lemma_letters(word, capital);
    lemma_letters(capital, capital);
    let n = word.len() as int;
    lemma_first_byte(a, 0x20, n);
    lemma_first_byte(b, 0x20, n);
    assert(a.subrange(0, n) =~= word);
    assert(b.subrange(0, n) =~= capital);
    assert(after_word(a, n) =~= after_word(b, n));
    lemma_command_names();
    assert forall|name: &str| command_name(name) implies #[trigger] usual_case(word, name)
        == usual_case(capital, name) by {
        lemma_usual_case(word, capital, name);
        lemma_usual_case(capital, capital, name);
    }
    assert forall|name: &str| command_name(name) implies #[trigger] asks_by_id(a, name)
        == asks_by_id(b, name) by {
        lemma_asks_by_id(word, capital, rest, name);
        lemma_asks_by_id(capital, capital, rest, name);
    }
}

/// A line that starts with a command word is trimmed at its end alone.
proof fn lemma_class_of_word(word: Seq<u8>, capital: Seq<u8>, rest: Seq<char>)
    requires
        capitals(capital),
        in_usual_case(word, capital),
        rest.len() > 0 ==> rest[0] == ' ',
    ensures
        class_of(ascii_chars(word) + rest) == line_class(word + encode_utf8(trim_text_end(rest))),
        encode_utf8(trim_text_end(rest)).len() > 0 ==> encode_utf8(trim_text_end(rest))[0] == 0x20,
{
    lemma_letters(word, capital);
    let front = ascii_chars(word);
    let text = front + rest;
    assert(front[0] == word[0] as char);
    assert(front[front.len() - 1] == word[word.len() - 1] as char);
    assert(!is_white_space(text[0]));
    lemma_trim_end_behind(front, rest);
    let end = trim_text_end(rest);
    assert(trim_text(text) == front + end);
    lemma_encode_ascii_front(word, end);
    if end.len() > 0 {
        let space = seq![0x20u8];
        assert(ascii_chars(space) + end.drop_first() =~= end);
        lemma_encode_ascii_front(space, end.drop_first());
    } else {
        assert(encode_utf8(end) =~= Seq::<u8>::empty());
    }
}

/// Class of a command word in capitals and the bytes that follow it.
spec fn class_of_name(name: Seq<char>, end: Seq<u8>) -> NntpCommand {
    if (name == "BODY"@ || name == "HEAD"@ || name == "STAT"@ || name == "ARTICLE"@) && end.len() > 1
        && end[1] == 0x3c && name.len() + end.len() >= 7 {
        NntpCommand::ArticleByMessageId
    } else if name == "ARTICLE"@ || name == "BODY"@ || name == "HEAD"@ || name == "STAT"@ || name
        == "GROUP"@ {
        NntpCommand::Stateful
    } else if name == "AUTHINFO"@ {
        authinfo_class(after_word(end, 0))
    } else if name == "LIST"@ || name == "DATE"@ || name == "CAPABILITIES"@ || name == "MODE"@
        || name == "HELP"@ || name == "QUIT"@ {
        NntpCommand::Stateless
    } else if name == "XOVER"@ || name == "OVER"@ || name == "XHDR"@ || name == "HDR"@ || name
        == "NEXT"@ || name == "LAST"@ || name == "LISTGROUP"@ {
        NntpCommand::Stateful
    } else if name == "POST"@ || name == "IHAVE"@ || name == "NEWGROUPS"@ || name == "NEWNEWS"@ {
        NntpCommand::NonRoutable
    } else {
        NntpCommand::Stateless
    }
}

proof fn lemma_class_of_name(name: &str, rest: Seq<char>)
    requires
        command_name(name),
        rest.len() > 0 ==> rest[0] == ' ',
    ensures
        class_of(name@ + rest) == class_of_name(name@, encode_utf8(trim_text_end(rest))),
{
    let word = name.spec_bytes();
    let end = encode_utf8(trim_text_end(rest));
    assert forall|i: int| 0 <= i < word.len() implies #[trigger] word[i] < 0x80 by {
        assert(0x41 <= word[i] <= 0x5a);
    }
    lemma_ascii_text(name@);
    lemma_ascii_bytes(name@);
    assert(ascii_chars(word) == name@);
    lemma_class_of_word(word, word, rest);
    lemma_letters(word, word);
    let line = word + end;
    let n = word.len() as int;
    lemma_first_byte(line, 0x20, n);
    assert(line.subrange(0, n) =~= word);
    assert(after_word(line, n) =~= after_word(end, 0));
    lemma_command_names();
    assert forall|other: &str| command_name(other) implies #[trigger] usual_case(word, other) == (
    name@ == other@) by {
        lemma_usual_case(word, word, other);
        lemma_encode_injective(name@, other@);
    }
    assert forall|other: &str| command_name(other) implies #[trigger] asks_by_id(line, other) == (
    name@ == other@ && end.len() > 1 && end[1] == 0x3c) by {
        lemma_asks_by_id(word, word, end, other);
        lemma_encode_injective(name@, other@);
    }
}

/// Any backend may serve these commands, whatever follows their word.
pub proof fn law_any_backend_serves(rest: Seq<char>)
    requires
        rest.len() > 0 ==> rest[0] == ' ',
    ensures
        class_of("LIST"@ + rest) == NntpCommand::Stateless,
        class_of("DATE"@ + rest) == NntpCommand::Stateless,
        class_of("CAPABILITIES"@ + rest) == NntpCommand::Stateless,
        class_of("MODE"@ + rest) == NntpCommand::Stateless,
        class_of("HELP"@ + rest) == NntpCommand::Stateless,
        class_of("QUIT"@ + rest) == NntpCommand::Stateless,
{
    lemma_names_differ();
    lemma_command_names();
    lemma_class_of_name("LIST", rest);
    lemma_class_of_name("DATE", rest);
    lemma_class_of_name("CAPABILITIES", rest);
    lemma_class_of_name("MODE", rest);
    lemma_class_of_name("HELP", rest);
    lemma_class_of_name("QUIT", rest);
}

/// These commands need the state of a selected group, whatever follows their
/// word.
pub proof fn law_group_is_needed(rest: Seq<char>)
    requires
        rest.len() > 0 ==> rest[0] == ' ',
    ensures
        class_of("GROUP"@ + rest) == NntpCommand::Stateful,
        class_of("NEXT"@ + rest) == NntpCommand::Stateful,
        class_of("LAST"@ + rest) == NntpCommand::Stateful,
        class_of("LISTGROUP"@ + rest) == NntpCommand::Stateful,
        class_of("OVER"@ + rest) == NntpCommand::Stateful,
        class_of("XOVER"@ + rest) == NntpCommand::Stateful,
        class_of("HDR"@ + rest) == NntpCommand::Stateful,
        class_of("XHDR"@ + rest) == NntpCommand::Stateful,
{
    lemma_names_differ();
    lemma_command_names();
    lemma_class_of_name("GROUP", rest);
    lemma_class_of_name("NEXT", rest);
    lemma_class_of_name("LAST", rest);
    lemma_class_of_name("LISTGROUP", rest);
    lemma_class_of_name("OVER", rest);
    lemma_class_of_name("XOVER", rest);
    lemma_class_of_name("HDR", rest);
    lemma_class_of_name("XHDR", rest);
}

/// These commands cannot be routed one by one, whatever follows their word.
pub proof fn law_cannot_be_routed(rest: Seq<char>)
    requires
        rest.len() > 0 ==> rest[0] == ' ',
    ensures
        class_of("POST"@ + rest) == NntpCommand::NonRoutable,
        class_of("IHAVE"@ + rest) == NntpCommand::NonRoutable,
        class_of("NEWGROUPS"@ + rest) == NntpCommand::NonRoutable,
        class_of("NEWNEWS"@ + rest) == NntpCommand::NonRoutable,
{
    lemma_names_differ();
    lemma_command_names();
    lemma_class_of_name("POST", rest);
    lemma_class_of_name("IHAVE", rest);
    lemma_class_of_name("NEWGROUPS", rest);
    lemma_class_of_name("NEWNEWS", rest);
}

/// A request for an article names it by its identifier where an opening angle
/// bracket and something more follow the word and a space.
pub proof fn law_article_by_identifier(inner: Seq<char>, after: Seq<char>)
    requires
        inner.len() > 0,
        !is_white_space(inner[inner.len() - 1]),
        blank(after),
    ensures
        class_of("ARTICLE <"@ + inner + after) == NntpCommand::ArticleByMessageId,
        class_of("BODY <"@ + inner + after) == NntpCommand::ArticleByMessageId,
        class_of("HEAD <"@ + inner + after) == NntpCommand::ArticleByMessageId,
        class_of("STAT <"@ + inner + after) == NntpCommand::ArticleByMessageId,
{
    let rest = seq![' ', '<'] + inner;
    reveal_strlit("ARTICLE <");
    reveal_strlit("BODY <");
    reveal_strlit("HEAD <");
    reveal_strlit("STAT <");
    reveal_strlit("ARTICLE");
    reveal_strlit("BODY");
    reveal_strlit("HEAD");
    reveal_strlit("STAT");
    let nothing = Seq::<char>::empty();
    assert(blank(nothing));
    assert(nothing + ("ARTICLE"@ + rest) + after =~= "ARTICLE <"@ + inner + after);
    assert(nothing + ("BODY"@ + rest) + after =~= "BODY <"@ + inner + after);
    assert(nothing + ("HEAD"@ + rest) + after =~= "HEAD <"@ + inner + after);
    assert(nothing + ("STAT"@ + rest) + after =~= "STAT <"@ + inner + after);
    law_white_space_around_a_command(nothing, "ARTICLE"@ + rest, after);
    law_white_space_around_a_command(nothing, "BODY"@ + rest, after);
    law_white_space_around_a_command(nothing, "HEAD"@ + rest, after);
    law_white_space_around_a_command(nothing, "STAT"@ + rest, after);
    assert(rest[rest.len() - 1] == inner[inner.len() - 1]);
    assert(trim_text_end(rest) == rest);
    let front = seq![0x20u8, 0x3c];
    assert(ascii_chars(front) =~= seq![' ', '<']);
    lemma_encode_ascii_front(front, inner);
    lemma_first_of_text(inner);
    let end = encode_utf8(rest);
    assert(end[1] == 0x3c && end.len() >= 3);
    lemma_command_names();
    lemma_class_of_name("ARTICLE", rest);
    lemma_class_of_name("BODY", rest);
    lemma_class_of_name("HEAD", rest);
    lemma_class_of_name("STAT", rest);
}

/// A request for an article needs the state of a group where no angle bracket
/// follows the word and a space.
pub proof fn law_article_of_the_group(rest: Seq<char>)
    requires
        rest.len() > 0 ==> rest[0] == ' ',
        rest.len() > 1 ==> rest[1] != '<',
    ensures
        class_of("ARTICLE"@ + rest) == NntpCommand::Stateful,
        class_of("BODY"@ + rest) == NntpCommand::Stateful,
        class_of("HEAD"@ + rest) == NntpCommand::Stateful,
        class_of("STAT"@ + rest) == NntpCommand::Stateful,
{
    let kept = trim_text_end(rest);
    let end = encode_utf8(kept);
    lemma_trim_end_is_front(rest);
    if kept.len() > 0 {
        assert(kept[0] == rest[0]);
        let space = seq![0x20u8];
        assert(ascii_chars(space) + kept.drop_first() =~= kept);
        lemma_encode_ascii_front(space, kept.drop_first());
        if kept.len() > 1 {
            assert(kept[1] == rest[1]);
            lemma_first_of_text(kept.drop_first());
            assert(end[1] == encode_utf8(kept.drop_first())[0]);
        } else {
            assert(kept.drop_first() =~= Seq::<char>::empty());
            assert(encode_utf8(kept.drop_first()) =~= Seq::<u8>::empty());
        }
    } else {
        assert(end =~= Seq::<u8>::empty());
    }
    assert(end.len() > 1 ==> end[1] != 0x3c);
    lemma_names_differ();
    lemma_command_names();
    lemma_class_of_name("ARTICLE", rest);
    lemma_class_of_name("BODY", rest);
    lemma_class_of_name("HEAD", rest);
    lemma_class_of_name("STAT", rest);
}

/// The first four bytes of the arguments of `AUTHINFO`.
proof fn lemma_authinfo(args: Seq<u8>, tail: Seq<char>)
    requires
        args.len() == 4,
        forall|i: int| 0 <= i < 4 ==> 0x41 <= #[trigger] args[i] <= 0x7a && (args[i] <= 0x5a
            || args[i] >= 0x61),
    ensures
        class_of("AUTHINFO "@ + ascii_chars(args) + tail) == (if usual_case(args, "USER") {
            NntpCommand::AuthUser
        } else if usual_case(args, "PASS") {
            NntpCommand::AuthPass
        } else {
            NntpCommand::Stateless
        }),
{
    reveal_strlit("AUTHINFO ");
    reveal_strlit("AUTHINFO");
    let front = seq![' '] + ascii_chars(args);
    let rest = front + tail;
    assert("AUTHINFO"@ + rest =~= "AUTHINFO "@ + ascii_chars(args) + tail);
    assert(front[4] == args[3] as char);
    assert(!is_white_space(front[4]));
    lemma_trim_end_behind(front, tail);
    let bytes = seq![0x20u8] + args;
    assert(ascii_chars(bytes) =~= front);
    lemma_encode_ascii_front(bytes, trim_text_end(tail));
    let end = encode_utf8(trim_text_end(rest));
    assert(end == bytes + encode_utf8(trim_text_end(tail)));
    lemma_names_differ();
    lemma_command_names();
    lemma_class_of_name("AUTHINFO", rest);
    let given = after_word(end, 0);
    assert(given.subrange(0, 4) =~= args);
}

proof fn lemma_user_and_pass()
    ensures
        "USER".spec_bytes() == seq![0x55u8, 0x53, 0x45, 0x52],
        lower_bytes("USER".spec_bytes()) == seq![0x75u8, 0x73, 0x65, 0x72],
        titled("USER".spec_bytes()) == seq![0x55u8, 0x73, 0x65, 0x72],
        "PASS".spec_bytes() == seq![0x50u8, 0x41, 0x53, 0x53],
        lower_bytes("PASS".spec_bytes()) == seq![0x70u8, 0x61, 0x73, 0x73],
        titled("PASS".spec_bytes()) == seq![0x50u8, 0x61, 0x73, 0x73],
        forall|w: Seq<u8>| #[trigger] usual_case(w, "USER") ==> w[0] == 0x55 || w[0] == 0x75,
        forall|w: Seq<u8>| #[trigger] usual_case(w, "PASS") ==> w[0] == 0x50 || w[0] == 0x70,
{
    reveal_strlit("USER");
    reveal_strlit("PASS");
    lemma_ascii_bytes("USER"@);
    lemma_ascii_bytes("PASS"@);
    let u = "USER".spec_bytes();
    let p = "PASS".spec_bytes();
    assert(u =~= seq![0x55u8, 0x53, 0x45, 0x52]);
    assert(p =~= seq![0x50u8, 0x41, 0x53, 0x53]);
    assert(lower_bytes(u) =~= seq![0x75u8, 0x73, 0x65, 0x72]);
    assert(lower_bytes(p) =~= seq![0x70u8, 0x61, 0x73, 0x73]);
    assert(titled(u) =~= seq![0x55u8, 0x73, 0x65, 0x72]);
    assert(titled(p) =~= seq![0x50u8, 0x61, 0x73, 0x73]);
}

proof fn lemma_login_user(tail: Seq<char>)
    ensures
        class_of("AUTHINFO USER"@ + tail) == NntpCommand::AuthUser,
        class_of("AUTHINFO user"@ + tail) == NntpCommand::AuthUser,
        class_of("AUTHINFO User"@ + tail) == NntpCommand::AuthUser,
{
    reveal_strlit("AUTHINFO ");
    reveal_strlit("AUTHINFO USER");
    reveal_strlit("AUTHINFO user");
    reveal_strlit("AUTHINFO User");
    lemma_user_and_pass();
    let w = "USER".spec_bytes();
    let low = lower_bytes(w);
    let tit = titled(w);
    lemma_authinfo(w, tail);
    lemma_authinfo(low, tail);
    lemma_authinfo(tit, tail);
    assert("AUTHINFO "@ + ascii_chars(w) + tail =~= "AUTHINFO USER"@ + tail);
    assert("AUTHINFO "@ + ascii_chars(low) + tail =~= "AUTHINFO user"@ + tail);
    assert("AUTHINFO "@ + ascii_chars(tit) + tail =~= "AUTHINFO User"@ + tail);
}

proof fn lemma_login_pass(tail: Seq<char>)
    ensures
        class_of("AUTHINFO PASS"@ + tail) == NntpCommand::AuthPass,
        class_of("AUTHINFO pass"@ + tail) == NntpCommand::AuthPass,
        class_of("AUTHINFO Pass"@ + tail) == NntpCommand::AuthPass,
{
    reveal_strlit("AUTHINFO ");
    reveal_strlit("AUTHINFO PASS");
    reveal_strlit("AUTHINFO pass");
    reveal_strlit("AUTHINFO Pass");
    lemma_user_and_pass();
    let w = "PASS".spec_bytes();
    let low = lower_bytes(w);
    let tit = titled(w);
    lemma_authinfo(w, tail);
    lemma_authinfo(low, tail);
    lemma_authinfo(tit, tail);
    assert("AUTHINFO "@ + ascii_chars(w) + tail =~= "AUTHINFO PASS"@ + tail);
    assert("AUTHINFO "@ + ascii_chars(low) + tail =~= "AUTHINFO pass"@ + tail);
    assert("AUTHINFO "@ + ascii_chars(tit) + tail =~= "AUTHINFO Pass"@ + tail);
}

/// A login is told by `USER` and `PASS` behind `AUTHINFO`, in capitals, in small
/// letters or with a capital first letter.
pub proof fn law_logins(tail: Seq<char>)
    ensures
        class_of("AUTHINFO USER"@ + tail) == NntpCommand::AuthUser,
        class_of("AUTHINFO user"@ + tail) == NntpCommand::AuthUser,
        class_of("AUTHINFO User"@ + tail) == NntpCommand::AuthUser,
        class_of("AUTHINFO PASS"@ + tail) == NntpCommand::AuthPass,
        class_of("AUTHINFO pass"@ + tail) == NntpCommand::AuthPass,
        class_of("AUTHINFO Pass"@ + tail) == NntpCommand::AuthPass,
{
    lemma_login_user(tail);
    lemma_login_pass(tail);
}

/// What else follows `AUTHINFO` is left to a backend: another word of four
/// letters in capitals, or nothing.
pub proof fn law_other_logins_are_left_to_a_backend(word: Seq<u8>, tail: Seq<char>)
    requires
        word.len() == 4,
        capitals(word),
        ascii_chars(word) != "USER"@,
        ascii_chars(word) != "PASS"@,
    ensures
        class_of("AUTHINFO "@ + ascii_chars(word) + tail) == NntpCommand::Stateless,
        class_of("AUTHINFO"@) == NntpCommand::Stateless,
{
    lemma_user_and_pass();
    lemma_authinfo(word, tail);
    reveal_strlit("USER");
    reveal_strlit("PASS");
    lemma_command_name("USER");
    lemma_command_name("PASS");
    lemma_usual_case(word, word, "USER");
    lemma_usual_case(word, word, "PASS");
    lemma_ascii_bytes("USER"@);
    lemma_ascii_bytes("PASS"@);
    let nothing = Seq::<char>::empty();
    lemma_names_differ();
    lemma_command_names();
    lemma_class_of_name("AUTHINFO", nothing);
    assert("AUTHINFO"@ + nothing =~= "AUTHINFO"@);
    assert(trim_text_end(nothing) =~= nothing);
    assert(encode_utf8(nothing) =~= Seq::<u8>::empty());
}

/// A word of ASCII letters alone.
pub open spec fn letters(word: Seq<u8>) -> bool {
    word.len() > 0 && forall|i: int|
        0 <= i < word.len() ==> 0x41 <= #[trigger] word[i] <= 0x5a || 0x61 <= word[i] <= 0x7a
}

/// The word is one of those that are not left to any backend, in some letter
/// case.
pub open spec fn special_word(word: Seq<char>) -> bool {
    ||| same_letters(word, "BODY"@)
    ||| same_letters(word, "HEAD"@)
    ||| same_letters(word, "STAT"@)
    ||| same_letters(word, "ARTICLE"@)
    ||| same_letters(word, "GROUP"@)
    ||| same_letters(word, "AUTHINFO"@)
    ||| same_letters(word, "XOVER"@)
    ||| same_letters(word, "OVER"@)
    ||| same_letters(word, "XHDR"@)
    ||| same_letters(word, "HDR"@)
    ||| same_letters(word, "NEXT"@)
    ||| same_letters(word, "LAST"@)
    ||| same_letters(word, "LISTGROUP"@)
    ||| same_letters(word, "POST"@)
    ||| same_letters(word, "IHAVE"@)
    ||| same_letters(word, "NEWGROUPS"@)
    ||| same_letters(word, "NEWNEWS"@)
}

/// A line asks for an article by its identifier only where its word is one for
/// that.
proof fn lemma_not_by_id(word: Seq<u8>, end: Seq<u8>, name: &str)
    requires
        letters(word),
        command_name(name),
        !usual_case(word, name),
        end.len() > 0 ==> end[0] == 0x20,
    ensures
        !asks_by_id(word + end, name),
{
    let line = word + end;
    let k = name.spec_bytes().len() as int;
    if asks_by_id(line, name) {
        let front = line.subrange(0, k);
        lemma_letters(front, name.spec_bytes());
        if k < word.len() {
            assert(line[k] == word[k]);
        } else if k > word.len() {
            assert(front[word.len() as int] == end[0]);
        } else {
            assert(front =~= word);
        }
    }
}

proof fn lemma_other_word(word: Seq<u8>, rest: Seq<char>)
    requires
        letters(word),
        rest.len() > 0 ==> rest[0] == ' ',
        !usual_case(word, "BODY"),
        !usual_case(word, "HEAD"),
        !usual_case(word, "STAT"),
        !usual_case(word, "ARTICLE"),
        !usual_case(word, "GROUP"),
        !usual_case(word, "AUTHINFO"),
        !usual_case(word, "XOVER"),
        !usual_case(word, "OVER"),
        !usual_case(word, "XHDR"),
        !usual_case(word, "HDR"),
        !usual_case(word, "NEXT"),
        !usual_case(word, "LAST"),
        !usual_case(word, "LISTGROUP"),
        !usual_case(word, "POST"),
        !usual_case(word, "IHAVE"),
        !usual_case(word, "NEWGROUPS"),
        !usual_case(word, "NEWNEWS"),
    ensures
        class_of(ascii_chars(word) + rest) == NntpCommand::Stateless,
{
    let front = ascii_chars(word);
    let text = front + rest;
    assert(front[0] == word[0] as char);
    assert(front[front.len() - 1] == word[word.len() - 1] as char);
    assert(!is_white_space(text[0]));
    lemma_trim_end_behind(front, rest);
    let kept = trim_text_end(rest);
    assert(trim_text(text) == front + kept);
    lemma_encode_ascii_front(word, kept);
    let end = encode_utf8(kept);
    if kept.len() > 0 {
        let space = seq![0x20u8];
        assert(ascii_chars(space) + kept.drop_first() =~= kept);
        lemma_encode_ascii_front(space, kept.drop_first());
    } else {
        assert(end =~= Seq::<u8>::empty());
    }
    let line = word + end;
    lemma_first_byte(line, 0x20, word.len() as int);
    assert(line.subrange(0, word.len() as int) =~= word);
    lemma_command_names();
    lemma_not_by_id(word, end, "BODY");
    lemma_not_by_id(word, end, "HEAD");
    lemma_not_by_id(word, end, "STAT");
    lemma_not_by_id(word, end, "ARTICLE");
}

proof fn lemma_usual_case_letters(word: Seq<u8>, name: &str)
    requires
        usual_case(word, name),
        command_name(name),
    ensures
        same_letters(ascii_chars(word), name@),
        word.len() == name.spec_bytes().len(),
        capitals(word) || forall|i: int| 1 <= i < word.len() ==> #[trigger] word[i] >= 0x61,
{
    let b = name.spec_bytes();
    assert forall|i: int| 0 <= i < b.len() implies #[trigger] b[i] < 0x80 by {
        assert(0x41 <= b[i] <= 0x5a);
    }
    lemma_ascii_text(name@);
    lemma_ascii_bytes(name@);
    lemma_titled_at(b, 0);
    assert forall|i: int| 0 <= i < word.len() implies same_letter(
        #[trigger] ascii_chars(word)[i],
        name@[i],
    ) by {
        assert(0x41 <= b[i] <= 0x5a);
        assert(lower_bytes(b)[i] == ascii_lower(b[i]));
        lemma_titled_at(b, i);
        assert(ascii_chars(word)[i] == word[i] as char && name@[i] == b[i] as char);
    }
    if !capitals(word) {
        assert forall|i: int| 1 <= i < word.len() implies #[trigger] word[i] >= 0x61 by {
            assert(0x41 <= b[i] <= 0x5a);
            assert(lower_bytes(b)[i] == ascii_lower(b[i]));
            lemma_titled_at(b, i);
        }
    }
}

/// A command that is not known is left to a backend.
pub proof fn law_unknown_words_are_left_to_a_backend(word: Seq<u8>, rest: Seq<char>)
    requires
        letters(word),
        !special_word(ascii_chars(word)),
        rest.len() > 0 ==> rest[0] == ' ',
    ensures
        class_of(ascii_chars(word) + rest) == NntpCommand::Stateless,
{
    lemma_command_names();
    assert forall|name: &str| command_name(name) && #[trigger] usual_case(word, name) implies
        same_letters(ascii_chars(word), name@) by {
        lemma_usual_case_letters(word, name);
    }
    lemma_other_word(word, rest);
}

/// A word in mixed letter case is not known, whichever it is: one that has a
/// capital after its first letter and is not in capitals throughout.
pub proof fn law_mixed_case_is_left_to_a_backend(word: Seq<u8>, rest: Seq<char>, i: int)
    requires
        letters(word),
        !capitals(word),
        1 <= i < word.len(),
        0x41 <= word[i] <= 0x5a,
        rest.len() > 0 ==> rest[0] == ' ',
    ensures
        class_of(ascii_chars(word) + rest) == NntpCommand::Stateless,
{
    lemma_command_names();
    assert forall|name: &str| command_name(name) implies !#[trigger] usual_case(word, name) by {
        if usual_case(word, name) {
            lemma_usual_case_letters(word, name);
        }
    }
    lemma_other_word(word, rest);
}

/// A command is classified alike whether its word is in capitals, in small
/// letters, or in small letters but for the first; what follows the word starts
/// with a space where there is anything.
pub proof fn law_case_of_the_word(word: Seq<u8>, rest: Seq<char>)
    requires
        capitals(word),
        rest.len() > 0 ==> rest[0] == ' ',
    ensures
        class_of(ascii_chars(lower_bytes(word)) + rest) == class_of(ascii_chars(word) + rest),
        class_of(ascii_chars(titled(word)) + rest) == class_of(ascii_chars(word) + rest),
{
    let low = lower_bytes(word);
    let tit = titled(word);
    lemma_class_of_word(word, word, rest);
    lemma_class_of_word(low, word, rest);
    lemma_class_of_word(tit, word, rest);
    let end = encode_utf8(trim_text_end(rest));
    lemma_line_class_in_case(low, word, end);
    lemma_line_class_in_case(tit, word, end);
}

/// White space around a command does not change its class.
pub proof fn law_white_space_around_a_command(
    before: Seq<char>,
    text: Seq<char>,
    after: Seq<char>,
)
    requires
        blank(before),
        blank(after),
    ensures
        class_of(before + text + after) == class_of(text),
{
    law_white_space_around_is_dropped(before, text, after);
}

} // verus!
