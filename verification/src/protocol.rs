//! NNTP requests and responses as far as the proxy reads and writes them.
use crate::bytes::{
    ends_with, eq_ignore_case, has_suffix, is_ascii_space, is_digit, is_space_byte,
    lower_bytes, to_vec, trim, trim_end_spec, trim_spec, trim_start_spec,
};
use crate::text::{concat3, law_letter_case, same_letter, same_letters};
use vstd::prelude::*;
use vstd::string::*;
use vstd::utf8::*;

verus! {

/// Most octets that a command line has, its line ending included.
pub const MAX_REQUEST_OCTETS: usize = 512;

/// Status for a feature that is not supported.
pub const FEATURE_NOT_SUPPORTED: u16 = 503;

// ---------------------------------------------------------------------------
// Responses
// ---------------------------------------------------------------------------

/// A three-digit response status.
#[derive(Clone, Copy, Debug, PartialEq, Eq, PartialOrd, Ord, Hash, Structural)]
pub struct StatusCode {
    pub code: u16,
}

/// The status that starts a response: three decimal digits.
pub open spec fn status_of(response: Seq<u8>) -> Option<StatusCode> {
    if response.len() >= 3 && is_digit(response[0]) && is_digit(response[1]) && is_digit(
        response[2],
    ) {
        Some(
            StatusCode {
                code: ((response[0] - 0x30) * 100 + (response[1] - 0x30) * 10 + (response[2]
                    - 0x30)) as u16,
            },
        )
    } else {
        None
    }
}

impl StatusCode {
    pub fn new(code: u16) -> (r: Self)
        ensures
            r.code == code,
    {
        StatusCode { code }
    }

    pub fn as_u16(self) -> (r: u16)
        ensures
            r == self.code,
    {
        self.code
    }

    /// The status that starts a response.
    pub fn parse(response: &[u8]) -> (r: Option<Self>)
        ensures
            r == status_of(response@),
    {
        if response.len() < 3 {
            return None;
        }
        let (a, b, c): (u8, u8, u8) = (response[0], response[1], response[2]);
        if a < 0x30 || a > 0x39 || b < 0x30 || b > 0x39 || c < 0x30 || c > 0x39 {
            return None;
        }
        Some(
            StatusCode {
                code: (a - 0x30) as u16 * 100 + (b - 0x30) as u16 * 10 + (c - 0x30) as u16,
            },
        )
    }
}

/// Length of a response on the wire.
#[derive(Clone, Copy, Debug, PartialEq, Eq, PartialOrd, Ord, Hash, Structural)]
pub struct ResponseWireLen {
    pub value: usize,
}

impl ResponseWireLen {
    pub fn new(value: usize) -> (r: Self)
        ensures
            r.value == value,
    {
        ResponseWireLen { value }
    }

    pub fn get(self) -> (r: usize)
        ensures
            r == self.value,
    {
        self.value
    }
}

/// Status and length of a response that the proxy gives itself.
#[derive(Clone, Copy, Debug, PartialEq, Eq, Structural)]
pub struct RequestResponseMetadata {
    pub status: StatusCode,
    pub wire_len: ResponseWireLen,
}

/// The five bytes that end a multiline response.
pub open spec fn terminator() -> Seq<u8> {
    seq![0x0du8, 0x0a, 0x2e, 0x0d, 0x0a]
}

/// A line ending.
pub open spec fn crlf() -> Seq<u8> {
    seq![0x0du8, 0x0a]
}

/// The blank line between headers and body, with the line ending before it.
pub open spec fn blank_line() -> Seq<u8> {
    seq![0x0du8, 0x0a, 0x0d, 0x0a]
}

/// A multiline response without any line in it.
pub open spec fn lone_terminator() -> Seq<u8> {
    seq![0x2eu8, 0x0d, 0x0a]
}

pub fn terminator_bytes() -> (r: &'static [u8])
    ensures
        r@ == terminator(),
{
    let a: &'static [u8; 5] = &[0x0du8, 0x0a, 0x2e, 0x0d, 0x0a];
    let r: &'static [u8] = a;
    assert(r@ =~= terminator());
    r
}

pub fn crlf_bytes() -> (r: &'static [u8])
    ensures
        r@ == crlf(),
{
    let a: &'static [u8; 2] = &[0x0du8, 0x0a];
    let r: &'static [u8] = a;
    assert(r@ =~= crlf());
    r
}

pub fn blank_line_bytes() -> (r: &'static [u8])
    ensures
        r@ == blank_line(),
{
    let a: &'static [u8; 4] = &[0x0du8, 0x0a, 0x0d, 0x0a];
    let r: &'static [u8] = a;
    assert(r@ =~= blank_line());
    r
}

pub fn lone_terminator_bytes() -> (r: &'static [u8])
    ensures
        r@ == lone_terminator(),
{
    let a: &'static [u8; 3] = &[0x2eu8, 0x0d, 0x0a];
    let r: &'static [u8] = a;
    assert(r@ =~= lone_terminator());
    r
}

/// Reads of responses that decide on their status alone.
pub struct ResponseParser;

/// The response starts with status `code`.
pub open spec fn has_status(response: Seq<u8>, code: u16) -> bool {
    status_of(response) == Some(StatusCode { code })
}

impl ResponseParser {
    fn has_status(response: &[u8], code: u16) -> (r: bool)
        ensures
            r == has_status(response@, code),
    {
        match StatusCode::parse(response) {
            Some(s) => s.code == code,
            None => false,
        }
    }

    /// Was the login accepted?
    pub fn is_auth_success(response: &[u8]) -> (r: bool)
        ensures
            r == has_status(response@, 281),
    {
        Self::has_status(response, 281)
    }

    /// Does the server want a password?
    pub fn is_auth_required(response: &[u8]) -> (r: bool)
        ensures
            r == has_status(response@, 381),
    {
        Self::has_status(response, 381)
    }

    /// Does the server greet a new connection?
    pub fn is_greeting(response: &[u8]) -> (r: bool)
        ensures
            r == (has_status(response@, 200) || has_status(response@, 201)),
    {
        Self::has_status(response, 200) || Self::has_status(response, 201)
    }
}

/// Asks a client for the password.
pub fn auth_required() -> (r: &'static [u8])
    ensures
        r@ == "381 Password required\r\n".spec_bytes(),
{
    "381 Password required\r\n".as_bytes()
}

/// Accepts a login.
pub fn auth_accepted() -> (r: &'static [u8])
    ensures
        r@ == "281 Authentication accepted\r\n".spec_bytes(),
{
    "281 Authentication accepted\r\n".as_bytes()
}

/// Refuses a login.
pub fn auth_failed() -> (r: &'static [u8])
    ensures
        r@ == "481 Authentication failed\r\n".spec_bytes(),
{
    "481 Authentication failed\r\n".as_bytes()
}

/// The command that names an account.
pub open spec fn user_command(username: Seq<char>) -> Seq<char> {
    "AUTHINFO USER "@ + username + "\r\n"@
}

/// The command that gives a password.
pub open spec fn pass_command(password: Seq<char>) -> Seq<char> {
    "AUTHINFO PASS "@ + password + "\r\n"@
}

/// The command that names the account on a backend.
pub fn authinfo_user(username: &str) -> (r: String)
    ensures
        r@ == user_command(username@),
{
    concat3("AUTHINFO USER ", username, "\r\n")
}

/// The command that gives the password on a backend.
pub fn authinfo_pass(password: &str) -> (r: String)
    ensures
        r@ == pass_command(password@),
{
    concat3("AUTHINFO PASS ", password, "\r\n")
}

// ---------------------------------------------------------------------------
// Requests
// ---------------------------------------------------------------------------

/// The verb of a request.
#[derive(Clone, Copy, Debug, PartialEq, Eq, Hash, Structural)]
pub enum RequestKind {
    Article,
    Head,
    Body,
    Stat,
    Group,
    Listgroup,
    Next,
    Last,
    Over,
    Xover,
    Hdr,
    Xhdr,
    List,
    Date,
    Help,
    Quit,
    Mode,
    Capabilities,
    AuthInfo,
    Post,
    Ihave,
    Newgroups,
    Newnews,
    Unknown,
}

/// What a request needs of the connection that serves it.
#[derive(Clone, Copy, Debug, PartialEq, Eq, Hash, Structural)]
pub enum RequestRouteClass {
    /// Names an article by its message identifier; any backend may serve it.
    ArticleByMessageId,
    /// Any backend may serve it.
    Stateless,
    /// Needs the state of one connection.
    Stateful,
    /// Is not served at all.
    Reject,
    /// Is answered by the proxy.
    Local,
}

/// `verb` is `name` up to letter case.
pub open spec fn verb_is(verb: Seq<u8>, name: &str) -> bool {
    lower_bytes(verb) == lower_bytes(name.spec_bytes())
}

/// The verb that a command word names.
pub open spec fn kind_of(verb: Seq<u8>) -> RequestKind {
    if verb_is(verb, "ARTICLE") {
        RequestKind::Article
    } else if verb_is(verb, "HEAD") {
        RequestKind::Head
    } else if verb_is(verb, "BODY") {
        RequestKind::Body
    } else if verb_is(verb, "STAT") {
        RequestKind::Stat
    } else if verb_is(verb, "GROUP") {
        RequestKind::Group
    } else if verb_is(verb, "LISTGROUP") {
        RequestKind::Listgroup
    } else if verb_is(verb, "NEXT") {
        RequestKind::Next
    } else if verb_is(verb, "LAST") {
        RequestKind::Last
    } else if verb_is(verb, "OVER") {
        RequestKind::Over
    } else if verb_is(verb, "XOVER") {
        RequestKind::Xover
    } else if verb_is(verb, "HDR") {
        RequestKind::Hdr
    } else if verb_is(verb, "XHDR") {
        RequestKind::Xhdr
    } else if verb_is(verb, "LIST") {
        RequestKind::List
    } else if verb_is(verb, "DATE") {
        RequestKind::Date
    } else if verb_is(verb, "HELP") {
        RequestKind::Help
    } else if verb_is(verb, "QUIT") {
        RequestKind::Quit
    } else if verb_is(verb, "MODE") {
        RequestKind::Mode
    } else if verb_is(verb, "CAPABILITIES") {
        RequestKind::Capabilities
    } else if verb_is(verb, "AUTHINFO") {
        RequestKind::AuthInfo
    } else if verb_is(verb, "POST") {
        RequestKind::Post
    } else if verb_is(verb, "IHAVE") {
        RequestKind::Ihave
    } else if verb_is(verb, "NEWGROUPS") {
        RequestKind::Newgroups
    } else if verb_is(verb, "NEWNEWS") {
        RequestKind::Newnews
    } else {
        RequestKind::Unknown
    }
}

fn named(verb: &[u8], name: &str) -> (r: bool)
    ensures
        r == verb_is(verb@, name),
{
    eq_ignore_case(verb, name.as_bytes())
}

fn kind_of_verb(verb: &[u8]) -> (r: RequestKind)
    ensures
        r == kind_of(verb@),
{
    if named(verb, "ARTICLE") {
        RequestKind::Article
    } else if named(verb, "HEAD") {
        RequestKind::Head
    } else if named(verb, "BODY") {
        RequestKind::Body
    } else if named(verb, "STAT") {
        RequestKind::Stat
    } else if named(verb, "GROUP") {
        RequestKind::Group
    } else if named(verb, "LISTGROUP") {
        RequestKind::Listgroup
    } else if named(verb, "NEXT") {
        RequestKind::Next
    } else if named(verb, "LAST") {
        RequestKind::Last
    } else if named(verb, "OVER") {
        RequestKind::Over
    } else if named(verb, "XOVER") {
        RequestKind::Xover
    } else if named(verb, "HDR") {
        RequestKind::Hdr
    } else if named(verb, "XHDR") {
        RequestKind::Xhdr
    } else if named(verb, "LIST") {
        RequestKind::List
    } else if named(verb, "DATE") {
        RequestKind::Date
    } else if named(verb, "HELP") {
        RequestKind::Help
    } else if named(verb, "QUIT") {
        RequestKind::Quit
    } else if named(verb, "MODE") {
        RequestKind::Mode
    } else if named(verb, "CAPABILITIES") {
        RequestKind::Capabilities
    } else if named(verb, "AUTHINFO") {
        RequestKind::AuthInfo
    } else if named(verb, "POST") {
        RequestKind::Post
    } else if named(verb, "IHAVE") {
        RequestKind::Ihave
    } else if named(verb, "NEWGROUPS") {
        RequestKind::Newgroups
    } else if named(verb, "NEWNEWS") {
        RequestKind::Newnews
    } else {
        RequestKind::Unknown
    }
}

/// Text between angle brackets, as bytes.
pub open spec fn names_article(args: Seq<u8>) -> bool {
    args.len() >= 2 && args[0] == 0x3c && args[args.len() - 1] == 0x3e
}

/// What a request with this verb and these arguments needs.
pub open spec fn route_of(kind: RequestKind, args: Seq<u8>) -> RequestRouteClass {
    match kind {
        RequestKind::Article | RequestKind::Head | RequestKind::Body | RequestKind::Stat => {
            if names_article(args) {
                RequestRouteClass::ArticleByMessageId
            } else {
                RequestRouteClass::Stateful
            }
        },
        RequestKind::List
        | RequestKind::Date
        | RequestKind::Help
        | RequestKind::Quit
        | RequestKind::Mode
        | RequestKind::Newgroups
        | RequestKind::Newnews => RequestRouteClass::Stateless,
        RequestKind::Capabilities | RequestKind::AuthInfo => RequestRouteClass::Local,
        RequestKind::Post | RequestKind::Ihave => RequestRouteClass::Reject,
        _ => RequestRouteClass::Stateful,
    }
}

/// A command line without its line ending: a carriage return and a line feed,
/// or a line feed alone.
pub open spec fn without_line_end(line: Seq<u8>) -> Seq<u8> {
    if has_suffix(line, crlf()) {
        line.subrange(0, line.len() - 2)
    } else if line.len() > 0 && line[line.len() - 1] == 0x0a {
        line.subrange(0, line.len() - 1)
    } else {
        line
    }
}

/// Length of the command word that starts `s`.
pub open spec fn word_len(s: Seq<u8>) -> nat
    decreases s.len(),
{
    if s.len() == 0 || is_ascii_space(s[0]) {
        0
    } else {
        1 + word_len(s.subrange(1, s.len() as int))
    }
}

/// Verb and arguments of a command line. A line that is empty, too long, or
/// starts with white space is no request.
pub open spec fn request_of(line: Seq<u8>) -> Option<(RequestKind, Seq<u8>)> {
    let s = without_line_end(line);
    if line.len() > MAX_REQUEST_OCTETS || word_len(s) == 0 {
        None
    } else {
        Some(
            (
                kind_of(s.subrange(0, word_len(s) as int)),
                trim_spec(s.subrange(word_len(s) as int, s.len() as int)),
            ),
        )
    }
}

pub proof fn lemma_word_len(s: Seq<u8>)
    ensures
        word_len(s) <= s.len(),
    decreases s.len(),
{
    if s.len() > 0 && !is_ascii_space(s[0]) {
        lemma_word_len(s.subrange(1, s.len() as int));
    }
}

/// Length of the command word that starts `s`.
pub fn word_length(s: &[u8]) -> (r: usize)
    ensures
        r == word_len(s@),
        r <= s@.len(),
{
    let mut i: usize = 0;
    assert(s@.subrange(0, s@.len() as int) =~= s@);
    while i < s.len() && !is_space_byte(s[i])
        invariant
            i <= s.len(),
            word_len(s@) == i + word_len(s@.subrange(i as int, s@.len() as int)),
        decreases s.len() - i,
    {
        let ghost rest = s@.subrange(i as int, s@.len() as int);
        assert(rest.subrange(1, rest.len() as int) =~= s@.subrange(i + 1, s@.len() as int));
        i += 1;
    }
    i
}

/// A request that was read from a command line.
#[derive(Debug)]
pub struct RequestContext {
    kind: RequestKind,
    args: Vec<u8>,
}

impl RequestContext {
    pub closed spec fn spec_kind(&self) -> RequestKind {
        self.kind
    }

    pub closed spec fn spec_args(&self) -> Seq<u8> {
        self.args@
    }

    /// Reads a command line.
    pub fn parse(line: &[u8]) -> (r: Option<Self>)
        ensures
            match r {
                Some(q) => request_of(line@) == Some((q.spec_kind(), q.spec_args())),
                None => request_of(line@) is None,
            },
    {
        if line.len() > MAX_REQUEST_OCTETS {
            return None;
        }
        let s: &[u8] = if ends_with(line, crlf_bytes()) {
            &line[0..line.len() - 2]
        } else if line.len() > 0 && line[line.len() - 1] == 0x0a {
            &line[0..line.len() - 1]
        } else {
            line
        };
        assert(s@ == without_line_end(line@));
        let n = word_length(s);
        if n == 0 {
            return None;
        }
        let kind = kind_of_verb(&s[0..n]);
        let args = to_vec(trim(&s[n..s.len()]));
        Some(RequestContext { kind, args })
    }

    pub fn kind(&self) -> (r: RequestKind)
        ensures
            r == self.spec_kind(),
    {
        self.kind
    }

    pub fn args(&self) -> (r: &[u8])
        ensures
            r@ == self.spec_args(),
    {
        self.args.as_slice()
    }

    pub fn route_class(&self) -> (r: RequestRouteClass)
        ensures
            r == route_of(self.spec_kind(), self.spec_args()),
    {
        match self.kind {
            RequestKind::Article | RequestKind::Head | RequestKind::Body | RequestKind::Stat => {
                let n = self.args.len();
                if n >= 2 && self.args[0] == 0x3c && self.args[n - 1] == 0x3e {
                    RequestRouteClass::ArticleByMessageId
                } else {
                    RequestRouteClass::Stateful
                }
            },
            RequestKind::List
            | RequestKind::Date
            | RequestKind::Help
            | RequestKind::Quit
            | RequestKind::Mode
            | RequestKind::Newgroups
            | RequestKind::Newnews => RequestRouteClass::Stateless,
            RequestKind::Capabilities | RequestKind::AuthInfo => RequestRouteClass::Local,
            RequestKind::Post | RequestKind::Ihave => RequestRouteClass::Reject,
            _ => RequestRouteClass::Stateful,
        }
    }
}

// ---------------------------------------------------------------------------
// Laws
// ---------------------------------------------------------------------------

/// The line starts with the three digits of a status.
pub open spec fn starts_with_status(line: Seq<u8>, code: int) -> bool {
    &&& 0 <= code <= 999
    &&& line.len() >= 3
    &&& line[0] == 0x30 + code / 100
    &&& line[1] == 0x30 + code / 10 % 10
    &&& line[2] == 0x30 + code % 10
}

/// The status of a response is the number that its first three digits write.
pub proof fn law_status_is_read(line: Seq<u8>, code: int)
    requires
        starts_with_status(line, code),
    ensures
        status_of(line) == Some(StatusCode { code: code as u16 }),
{
    let (a, b, c): (int, int, int) = (code / 100, code / 10 % 10, code % 10);
    assert(a * 100 + b * 10 + c == code);
}

/// A response that does not start with three digits has no status.
pub proof fn law_no_status_without_digits(line: Seq<u8>, i: int)
    requires
        0 <= i < 3,
        i < line.len() ==> line[i] < 0x30 || line[i] > 0x39,
    ensures
        status_of(line) is None,
{
}

/// The letters by which the command words differ.
pub(crate) proof fn lemma_names_differ()
    ensures
        "BODY"@.len() == 4 && "BODY"@[0] == 'B' && "BODY"@[1] == 'O' && "BODY"@[2] == 'D',
        "HEAD"@.len() == 4 && "HEAD"@[0] == 'H' && "HEAD"@[1] == 'E' && "HEAD"@[2] == 'A',
        "STAT"@.len() == 4 && "STAT"@[0] == 'S' && "STAT"@[1] == 'T' && "STAT"@[2] == 'A',
        "ARTICLE"@.len() == 7 && "ARTICLE"@[0] == 'A' && "ARTICLE"@[1] == 'R' && "ARTICLE"@[2] == 'T',
        "GROUP"@.len() == 5 && "GROUP"@[0] == 'G' && "GROUP"@[1] == 'R' && "GROUP"@[2] == 'O',
        "AUTHINFO"@.len() == 8 && "AUTHINFO"@[0] == 'A' && "AUTHINFO"@[1] == 'U' && "AUTHINFO"@[2] == 'T',
        "LIST"@.len() == 4 && "LIST"@[0] == 'L' && "LIST"@[1] == 'I' && "LIST"@[2] == 'S',
        "DATE"@.len() == 4 && "DATE"@[0] == 'D' && "DATE"@[1] == 'A' && "DATE"@[2] == 'T',
        "CAPABILITIES"@.len() == 12 && "CAPABILITIES"@[0] == 'C' && "CAPABILITIES"@[1] == 'A' && "CAPABILITIES"@[2] == 'P',
        "MODE"@.len() == 4 && "MODE"@[0] == 'M' && "MODE"@[1] == 'O' && "MODE"@[2] == 'D',
        "HELP"@.len() == 4 && "HELP"@[0] == 'H' && "HELP"@[1] == 'E' && "HELP"@[2] == 'L',
        "QUIT"@.len() == 4 && "QUIT"@[0] == 'Q' && "QUIT"@[1] == 'U' && "QUIT"@[2] == 'I',
        "XOVER"@.len() == 5 && "XOVER"@[0] == 'X' && "XOVER"@[1] == 'O' && "XOVER"@[2] == 'V',
        "OVER"@.len() == 4 && "OVER"@[0] == 'O' && "OVER"@[1] == 'V' && "OVER"@[2] == 'E',
        "XHDR"@.len() == 4 && "XHDR"@[0] == 'X' && "XHDR"@[1] == 'H' && "XHDR"@[2] == 'D',
        "HDR"@.len() == 3 && "HDR"@[0] == 'H' && "HDR"@[1] == 'D' && "HDR"@[2] == 'R',
        "NEXT"@.len() == 4 && "NEXT"@[0] == 'N' && "NEXT"@[1] == 'E' && "NEXT"@[2] == 'X',
        "LAST"@.len() == 4 && "LAST"@[0] == 'L' && "LAST"@[1] == 'A' && "LAST"@[2] == 'S',
        "LISTGROUP"@.len() == 9 && "LISTGROUP"@[0] == 'L' && "LISTGROUP"@[1] == 'I' && "LISTGROUP"@[2] == 'S',
        "POST"@.len() == 4 && "POST"@[0] == 'P' && "POST"@[1] == 'O' && "POST"@[2] == 'S',
        "IHAVE"@.len() == 5 && "IHAVE"@[0] == 'I' && "IHAVE"@[1] == 'H' && "IHAVE"@[2] == 'A',
        "NEWGROUPS"@.len() == 9 && "NEWGROUPS"@[0] == 'N' && "NEWGROUPS"@[1] == 'E' && "NEWGROUPS"@[2] == 'W',
        "NEWNEWS"@.len() == 7 && "NEWNEWS"@[0] == 'N' && "NEWNEWS"@[1] == 'E' && "NEWNEWS"@[2] == 'W',
{
    reveal_strlit("BODY");
    reveal_strlit("HEAD");
    reveal_strlit("STAT");
    reveal_strlit("ARTICLE");
    reveal_strlit("GROUP");
    reveal_strlit("AUTHINFO");
    reveal_strlit("LIST");
    reveal_strlit("DATE");
    reveal_strlit("CAPABILITIES");
    reveal_strlit("MODE");
    reveal_strlit("HELP");
    reveal_strlit("QUIT");
    reveal_strlit("XOVER");
    reveal_strlit("OVER");
    reveal_strlit("XHDR");
    reveal_strlit("HDR");
    reveal_strlit("NEXT");
    reveal_strlit("LAST");
    reveal_strlit("LISTGROUP");
    reveal_strlit("POST");
    reveal_strlit("IHAVE");
    reveal_strlit("NEWGROUPS");
    reveal_strlit("NEWNEWS");
}

/// The letters of the command words are capitals.
pub(crate) open spec fn capital_text(name: Seq<char>) -> bool {
    forall|i: int| 0 <= i < name.len() ==> 'A' <= #[trigger] name[i] <= 'Z'
}

pub(crate) proof fn lemma_capital_names()
    ensures
        capital_text("ARTICLE"@),
        capital_text("HEAD"@),
        capital_text("BODY"@),
        capital_text("STAT"@),
        capital_text("GROUP"@),
        capital_text("LISTGROUP"@),
        capital_text("NEXT"@),
        capital_text("LAST"@),
        capital_text("OVER"@),
        capital_text("XOVER"@),
        capital_text("HDR"@),
        capital_text("XHDR"@),
        capital_text("LIST"@),
        capital_text("DATE"@),
        capital_text("HELP"@),
        capital_text("QUIT"@),
        capital_text("MODE"@),
        capital_text("CAPABILITIES"@),
        capital_text("AUTHINFO"@),
        capital_text("POST"@),
        capital_text("IHAVE"@),
        capital_text("NEWGROUPS"@),
        capital_text("NEWNEWS"@),
{
    reveal_strlit("ARTICLE");
    reveal_strlit("HEAD");
    reveal_strlit("BODY");
    reveal_strlit("STAT");
    reveal_strlit("GROUP");
    reveal_strlit("LISTGROUP");
    reveal_strlit("NEXT");
    reveal_strlit("LAST");
    reveal_strlit("OVER");
    reveal_strlit("XOVER");
    reveal_strlit("HDR");
    reveal_strlit("XHDR");
    reveal_strlit("LIST");
    reveal_strlit("DATE");
    reveal_strlit("HELP");
    reveal_strlit("QUIT");
    reveal_strlit("MODE");
    reveal_strlit("CAPABILITIES");
    reveal_strlit("AUTHINFO");
    reveal_strlit("POST");
    reveal_strlit("IHAVE");
    reveal_strlit("NEWGROUPS");
    reveal_strlit("NEWNEWS");
}

/// The verb that a word in capitals names.
spec fn kind_of_name(name: Seq<char>) -> RequestKind {
    if name == "ARTICLE"@ {
        RequestKind::Article
    } else if name == "HEAD"@ {
        RequestKind::Head
    } else if name == "BODY"@ {
        RequestKind::Body
    } else if name == "STAT"@ {
        RequestKind::Stat
    } else if name == "GROUP"@ {
        RequestKind::Group
    } else if name == "LISTGROUP"@ {
        RequestKind::Listgroup
    } else if name == "NEXT"@ {
        RequestKind::Next
    } else if name == "LAST"@ {
        RequestKind::Last
    } else if name == "OVER"@ {
        RequestKind::Over
    } else if name == "XOVER"@ {
        RequestKind::Xover
    } else if name == "HDR"@ {
        RequestKind::Hdr
    } else if name == "XHDR"@ {
        RequestKind::Xhdr
    } else if name == "LIST"@ {
        RequestKind::List
    } else if name == "DATE"@ {
        RequestKind::Date
    } else if name == "HELP"@ {
        RequestKind::Help
    } else if name == "QUIT"@ {
        RequestKind::Quit
    } else if name == "MODE"@ {
        RequestKind::Mode
    } else if name == "CAPABILITIES"@ {
        RequestKind::Capabilities
    } else if name == "AUTHINFO"@ {
        RequestKind::AuthInfo
    } else if name == "POST"@ {
        RequestKind::Post
    } else if name == "IHAVE"@ {
        RequestKind::Ihave
    } else if name == "NEWGROUPS"@ {
        RequestKind::Newgroups
    } else if name == "NEWNEWS"@ {
        RequestKind::Newnews
    } else {
        RequestKind::Unknown
    }
}

/// A word is one word in capitals at most.
proof fn lemma_one_name(verb: Seq<char>, name: Seq<char>, other: Seq<char>)
    requires
        same_letters(verb, name),
        capital_text(name),
        capital_text(other),
    ensures
        same_letters(verb, other) == (name == other),
{
    if same_letters(verb, other) {
        assert forall|i: int| 0 <= i < name.len() implies name[i] == other[i] by {
            assert(same_letter(verb[i], name[i]) && same_letter(verb[i], other[i]));
            assert('A' <= name[i] <= 'Z' && 'A' <= other[i] <= 'Z');
        }
        assert(name =~= other);
    }
}

pub(crate) proof fn lemma_verb_is(verb: Seq<char>, name: &str)
    requires
        capital_text(name@),
    ensures
        verb_is(encode_utf8(verb), name) == same_letters(verb, name@),
{
    assert(is_ascii_chars(name@)) by {
        assert forall|i: int| 0 <= i < name@.len() implies '\0' <= #[trigger] name@[i]
            <= '\u{7f}' by {
            assert('A' <= name@[i] <= 'Z');
        }
    }
    law_letter_case(verb, name@);
}

proof fn lemma_kind_of_name(verb: Seq<char>, name: Seq<char>)
    requires
        same_letters(verb, name),
        capital_text(name),
    ensures
        kind_of(encode_utf8(verb)) == kind_of_name(name),
{
    lemma_capital_names();
    assert forall|other: &str| capital_text(other@) implies #[trigger] verb_is(
        encode_utf8(verb),
        other,
    ) == (name == other@) by {
        lemma_verb_is(verb, other);
        lemma_one_name(verb, name, other@);
    }
}

/// The command words of the protocol are told apart in any letter case.
pub proof fn law_verbs(verb: Seq<char>)
    ensures
        same_letters(verb, "ARTICLE"@) ==> kind_of(encode_utf8(verb)) == RequestKind::Article,
        same_letters(verb, "HEAD"@) ==> kind_of(encode_utf8(verb)) == RequestKind::Head,
        same_letters(verb, "BODY"@) ==> kind_of(encode_utf8(verb)) == RequestKind::Body,
        same_letters(verb, "STAT"@) ==> kind_of(encode_utf8(verb)) == RequestKind::Stat,
        same_letters(verb, "GROUP"@) ==> kind_of(encode_utf8(verb)) == RequestKind::Group,
        same_letters(verb, "LISTGROUP"@) ==> kind_of(encode_utf8(verb)) == RequestKind::Listgroup,
        same_letters(verb, "NEXT"@) ==> kind_of(encode_utf8(verb)) == RequestKind::Next,
        same_letters(verb, "LAST"@) ==> kind_of(encode_utf8(verb)) == RequestKind::Last,
        same_letters(verb, "OVER"@) ==> kind_of(encode_utf8(verb)) == RequestKind::Over,
        same_letters(verb, "XOVER"@) ==> kind_of(encode_utf8(verb)) == RequestKind::Xover,
        same_letters(verb, "HDR"@) ==> kind_of(encode_utf8(verb)) == RequestKind::Hdr,
        same_letters(verb, "XHDR"@) ==> kind_of(encode_utf8(verb)) == RequestKind::Xhdr,
        same_letters(verb, "LIST"@) ==> kind_of(encode_utf8(verb)) == RequestKind::List,
        same_letters(verb, "DATE"@) ==> kind_of(encode_utf8(verb)) == RequestKind::Date,
        same_letters(verb, "HELP"@) ==> kind_of(encode_utf8(verb)) == RequestKind::Help,
        same_letters(verb, "QUIT"@) ==> kind_of(encode_utf8(verb)) == RequestKind::Quit,
        same_letters(verb, "MODE"@) ==> kind_of(encode_utf8(verb)) == RequestKind::Mode,
        same_letters(verb, "CAPABILITIES"@) ==> kind_of(encode_utf8(verb)) == RequestKind::Capabilities,
        same_letters(verb, "AUTHINFO"@) ==> kind_of(encode_utf8(verb)) == RequestKind::AuthInfo,
        same_letters(verb, "POST"@) ==> kind_of(encode_utf8(verb)) == RequestKind::Post,
        same_letters(verb, "IHAVE"@) ==> kind_of(encode_utf8(verb)) == RequestKind::Ihave,
        same_letters(verb, "NEWGROUPS"@) ==> kind_of(encode_utf8(verb)) == RequestKind::Newgroups,
        same_letters(verb, "NEWNEWS"@) ==> kind_of(encode_utf8(verb)) == RequestKind::Newnews,
        !known_verb(verb) ==> kind_of(encode_utf8(verb)) == RequestKind::Unknown,
{
    lemma_names_differ();
    lemma_capital_names();
    if same_letters(verb, "ARTICLE"@) {
        lemma_kind_of_name(verb, "ARTICLE"@);
    }
    if same_letters(verb, "HEAD"@) {
        lemma_kind_of_name(verb, "HEAD"@);
    }
    if same_letters(verb, "BODY"@) {
        lemma_kind_of_name(verb, "BODY"@);
    }
    if same_letters(verb, "STAT"@) {
        lemma_kind_of_name(verb, "STAT"@);
    }
    if same_letters(verb, "GROUP"@) {
        lemma_kind_of_name(verb, "GROUP"@);
    }
    if same_letters(verb, "LISTGROUP"@) {
        lemma_kind_of_name(verb, "LISTGROUP"@);
    }
    if same_letters(verb, "NEXT"@) {
        lemma_kind_of_name(verb, "NEXT"@);
    }
    if same_letters(verb, "LAST"@) {
        lemma_kind_of_name(verb, "LAST"@);
    }
    if same_letters(verb, "OVER"@) {
        lemma_kind_of_name(verb, "OVER"@);
    }
    if same_letters(verb, "XOVER"@) {
        lemma_kind_of_name(verb, "XOVER"@);
    }
    if same_letters(verb, "HDR"@) {
        lemma_kind_of_name(verb, "HDR"@);
    }
    if same_letters(verb, "XHDR"@) {
        lemma_kind_of_name(verb, "XHDR"@);
    }
    if same_letters(verb, "LIST"@) {
        lemma_kind_of_name(verb, "LIST"@);
    }
    if same_letters(verb, "DATE"@) {
        lemma_kind_of_name(verb, "DATE"@);
    }
    if same_letters(verb, "HELP"@) {
        lemma_kind_of_name(verb, "HELP"@);
    }
    if same_letters(verb, "QUIT"@) {
        lemma_kind_of_name(verb, "QUIT"@);
    }
    if same_letters(verb, "MODE"@) {
        lemma_kind_of_name(verb, "MODE"@);
    }
    if same_letters(verb, "CAPABILITIES"@) {
        lemma_kind_of_name(verb, "CAPABILITIES"@);
    }
    if same_letters(verb, "AUTHINFO"@) {
        lemma_kind_of_name(verb, "AUTHINFO"@);
    }
    if same_letters(verb, "POST"@) {
        lemma_kind_of_name(verb, "POST"@);
    }
    if same_letters(verb, "IHAVE"@) {
        lemma_kind_of_name(verb, "IHAVE"@);
    }
    if same_letters(verb, "NEWGROUPS"@) {
        lemma_kind_of_name(verb, "NEWGROUPS"@);
    }
    if same_letters(verb, "NEWNEWS"@) {
        lemma_kind_of_name(verb, "NEWNEWS"@);
    }
    if !known_verb(verb) {
        assert forall|other: &str| capital_text(other@) implies #[trigger] verb_is(
            encode_utf8(verb),
            other,
        ) == same_letters(verb, other@) by {
            lemma_verb_is(verb, other);
        }
    }
}

/// The word is a command word of the protocol, in some letter case.
pub open spec fn known_verb(verb: Seq<char>) -> bool {
    ||| same_letters(verb, "ARTICLE"@)
    ||| same_letters(verb, "HEAD"@)
    ||| same_letters(verb, "BODY"@)
    ||| same_letters(verb, "STAT"@)
    ||| same_letters(verb, "GROUP"@)
    ||| same_letters(verb, "LISTGROUP"@)
    ||| same_letters(verb, "NEXT"@)
    ||| same_letters(verb, "LAST"@)
    ||| same_letters(verb, "OVER"@)
    ||| same_letters(verb, "XOVER"@)
    ||| same_letters(verb, "HDR"@)
    ||| same_letters(verb, "XHDR"@)
    ||| same_letters(verb, "LIST"@)
    ||| same_letters(verb, "DATE"@)
    ||| same_letters(verb, "HELP"@)
    ||| same_letters(verb, "QUIT"@)
    ||| same_letters(verb, "MODE"@)
    ||| same_letters(verb, "CAPABILITIES"@)
    ||| same_letters(verb, "AUTHINFO"@)
    ||| same_letters(verb, "POST"@)
    ||| same_letters(verb, "IHAVE"@)
    ||| same_letters(verb, "NEWGROUPS"@)
    ||| same_letters(verb, "NEWNEWS"@)
}

/// No byte is ASCII white space.
pub open spec fn unspaced(s: Seq<u8>) -> bool {
    forall|i: int| 0 <= i < s.len() ==> !is_ascii_space(#[trigger] s[i])
}

proof fn lemma_word_len_is(word: Seq<u8>, rest: Seq<u8>)
    requires
        unspaced(word),
        rest.len() > 0 ==> is_ascii_space(rest[0]),
    ensures
        word_len(word + rest) == word.len(),
    decreases word.len(),
{
    let all = word + rest;
    if word.len() == 0 {
        assert(all =~= rest);
    } else {
        assert(all[0] == word[0] && !is_ascii_space(word[0]));
        let tail = word.subrange(1, word.len() as int);
        assert(all.subrange(1, all.len() as int) =~= tail + rest);
        assert forall|i: int| 0 <= i < tail.len() implies !is_ascii_space(#[trigger] tail[i]) by {
            assert(tail[i] == word[i + 1]);
        }
        lemma_word_len_is(tail, rest);
    }
}

/// A word, a space and arguments without white space around them are taken apart
/// again.
pub(crate) proof fn lemma_word_and_args(word: Seq<u8>, args: Seq<u8>)
    requires
        word.len() > 0,
        unspaced(word),
        args.len() > 0 ==> !is_ascii_space(args[0]) && !is_ascii_space(args[args.len() - 1]),
    ensures
        ({
            let line = word + seq![0x20u8] + args;
            &&& word_len(line) == word.len()
            &&& line.subrange(0, word.len() as int) == word
            &&& trim_spec(line.subrange(word.len() as int, line.len() as int)) == args
        }),
        word_len(word) == word.len(),
        trim_spec(Seq::<u8>::empty()) == Seq::<u8>::empty(),
        trim_spec(args) == args,
{
    let rest = seq![0x20u8] + args;
    let line = word + seq![0x20u8] + args;
    assert(line =~= word + rest);
    lemma_word_len_is(word, rest);
    lemma_word_len_is(word, Seq::empty());
    assert(word + Seq::<u8>::empty() =~= word);
    assert(line.subrange(0, word.len() as int) =~= word);
    assert(line.subrange(word.len() as int, line.len() as int) =~= rest);
    assert(rest.subrange(1, rest.len() as int) =~= args);
    assert(trim_start_spec(rest) == trim_start_spec(args));
    assert(trim_start_spec(args) == args);
    assert(trim_end_spec(args) == args);
}

/// A command line is read as its first word and what follows it, with either line
/// ending. One of more than 512 bytes is no request.
pub proof fn law_request_is_word_and_arguments(word: Seq<u8>, args: Seq<u8>)
    requires
        word.len() > 0,
        unspaced(word),
        args.len() > 0,
        !is_ascii_space(args[0]),
        !is_ascii_space(args[args.len() - 1]),
    ensures
        ({
            let line = word + seq![0x20u8] + args;
            let read = Some((kind_of(word), args));
            &&& line.len() + 2 <= 512 ==> request_of(line + seq![0x0du8, 0x0a]) == read
            &&& line.len() + 1 <= 512 ==> request_of(line + seq![0x0au8]) == read
            &&& line.len() <= 512 ==> request_of(line) == read
            &&& line.len() > 512 ==> request_of(line) is None
            &&& line.len() + 2 > 512 ==> request_of(line + seq![0x0du8, 0x0a]) is None
        }),
        word.len() + 2 <= 512 ==> request_of(word + seq![0x0du8, 0x0a]) == Some(
            (kind_of(word), Seq::<u8>::empty()),
        ),
{
    let line = word + seq![0x20u8] + args;
    lemma_word_and_args(word, args);
    lemma_line_end(line);
    lemma_line_end(word);
    assert(line[line.len() - 1] == args[args.len() - 1]);
    assert(word.subrange(0, word.len() as int) =~= word);
    assert(word.subrange(word.len() as int, word.len() as int) =~= Seq::<u8>::empty());
}

proof fn lemma_line_end(line: Seq<u8>)
    requires
        line.len() > 0,
        !is_ascii_space(line[line.len() - 1]),
    ensures
        without_line_end(line + seq![0x0du8, 0x0a]) == line,
        without_line_end(line + seq![0x0au8]) == line,
        without_line_end(line) == line,
{
    let full = line + seq![0x0du8, 0x0a];
    assert(full.subrange(full.len() - 2, full.len() as int) =~= crlf());
    assert(full.subrange(0, full.len() - 2) =~= line);
    let bare = line + seq![0x0au8];
    assert(bare[bare.len() - 2] == line[line.len() - 1]);
    assert(!has_suffix(bare, crlf())) by {
        if has_suffix(bare, crlf()) {
            assert(bare.subrange(bare.len() - 2, bare.len() as int)[0] == crlf()[0]);
        }
    }
    assert(bare.subrange(0, bare.len() - 1) =~= line);
    assert(!has_suffix(line, crlf())) by {
        if has_suffix(line, crlf()) {
            assert(line.subrange(line.len() - 2, line.len() as int)[1] == crlf()[1]);
        }
    }
}

/// A line that is empty or starts with white space is no request.
pub proof fn law_no_request_without_a_word(line: Seq<u8>)
    requires
        line.len() == 0 || is_ascii_space(line[0]),
    ensures
        request_of(line) is None,
{
    let s = without_line_end(line);
    if s.len() > 0 {
        assert(s[0] == line[0]);
    }
}

/// What each verb needs: an article is asked of any backend where an identifier
/// in angle brackets names it, and needs state where it does not.
pub proof fn law_routes(kind: RequestKind, args: Seq<u8>)
    ensures
        kind == RequestKind::Article || kind == RequestKind::Head || kind == RequestKind::Body
            || kind == RequestKind::Stat ==> route_of(kind, args) == (if args.len() >= 2 && args[0]
            == 0x3c && args[args.len() - 1] == 0x3e {
            RequestRouteClass::ArticleByMessageId
        } else {
            RequestRouteClass::Stateful
        }),
        kind == RequestKind::List || kind == RequestKind::Date || kind == RequestKind::Help || kind
            == RequestKind::Quit || kind == RequestKind::Mode || kind == RequestKind::Newgroups
            || kind == RequestKind::Newnews ==> route_of(kind, args)
            == RequestRouteClass::Stateless,
        kind == RequestKind::Group || kind == RequestKind::Listgroup || kind == RequestKind::Next
            || kind == RequestKind::Last || kind == RequestKind::Over || kind == RequestKind::Xover
            || kind == RequestKind::Hdr || kind == RequestKind::Xhdr || kind
            == RequestKind::Unknown ==> route_of(kind, args) == RequestRouteClass::Stateful,
        kind == RequestKind::Capabilities || kind == RequestKind::AuthInfo ==> route_of(kind, args)
            == RequestRouteClass::Local,
        kind == RequestKind::Post || kind == RequestKind::Ihave ==> route_of(kind, args)
            == RequestRouteClass::Reject,
{
}

} // verus!
