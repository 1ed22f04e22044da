//! A client session that answers from the article cache where it can.
//!
//! The session decides; its caller reads and writes. Each event is answered by
//! a step: what to write, what to store, and which event to bring next.
use crate::bytes::{bytes_eq, find_first, first_byte, push_bytes, to_vec};
use crate::command::classifier::{class_of, line_class, NntpCommand};
use crate::protocol::{
    auth_accepted, auth_required, law_status_is_read, starts_with_status, status_of, StatusCode,
};
use crate::text::{string_of, text_slice, trim_text};
use vstd::prelude::*;
use vstd::string::*;
use vstd::utf8::*;

verus! {

// ---------------------------------------------------------------------------
// Lines
// ---------------------------------------------------------------------------

/// The message identifier in a command line: from the first opening angle
/// bracket to the next closing one.
pub open spec fn message_id_in(line: Seq<u8>) -> Option<Seq<u8>> {
    let a = first_byte(line, 0x3c) as int;
    let rest = line.subrange(a, line.len() as int);
    let n = first_byte(rest, 0x3e) as int;
    if a < line.len() && n < rest.len() {
        Some(rest.subrange(0, n + 1))
    } else {
        None
    }
}

/// The message identifier in a command line.
pub fn extract_message_id(line: &str) -> (r: Option<&str>)
    ensures
        match r {
            Some(id) => message_id_in(line.spec_bytes()) == Some(id.spec_bytes()),
            None => message_id_in(line.spec_bytes()) is None,
        },
{
    let bytes = line.as_bytes();
    let a = find_first(0x3c, bytes);
    if a >= bytes.len() {
        return None;
    }
    let rest = &bytes[a..bytes.len()];
    let n = find_first(0x3e, rest);
    if n >= rest.len() {
        return None;
    }
    proof {
        crate::bytes::lemma_first_byte_found(bytes@, 0x3c);
        crate::bytes::lemma_first_byte_found(rest@, 0x3e);
        assert(bytes@[a as int] == 0x3c);
        assert(rest@[n as int] == 0x3e);
        assert(n > 0);
        assert(rest@.subrange(0, n + 1) =~= bytes@.subrange(a as int, a + n + 1));
    }
    Some(text_slice(line, a, a + n + 1))
}

/// Does a response of this status have more lines after the first?
pub open spec fn is_multiline(status: Option<StatusCode>) -> bool {
    match status {
        Some(s) => {
            ||| 100 <= s.code <= 199
            ||| s.code == 215
            ||| 220 <= s.code <= 222
            ||| s.code == 224
            ||| s.code == 225
            ||| s.code == 230
            ||| s.code == 231
            ||| s.code == 282
        },
        None => false,
    }
}

fn multiline(status: Option<StatusCode>) -> (r: bool)
    ensures
        r == is_multiline(status),
{
    match status {
        Some(s) => {
            let c = s.code;
            (100 <= c && c <= 199) || c == 215 || (220 <= c && c <= 222) || c == 224 || c == 225
                || c == 230 || c == 231 || c == 282
        },
        None => false,
    }
}

/// Did the request succeed?
pub open spec fn is_success(status: Option<StatusCode>) -> bool {
    match status {
        Some(s) => 200 <= s.code <= 299,
        None => false,
    }
}

/// Does the backend close the connection?
pub open spec fn is_disconnect(response: Seq<u8>) -> bool {
    status_of(response) == Some(StatusCode { code: 205 })
}

/// The line ends a multiline response.
pub open spec fn is_end_line(line: Seq<u8>) -> bool {
    line == seq![0x2eu8, 0x0d, 0x0a] || line == seq![0x2eu8, 0x0a]
}

fn end_line(line: &[u8]) -> (r: bool)
    ensures
        r == is_end_line(line@),
{
    let full: Vec<u8> = vec![0x2e, 0x0d, 0x0a];
    let bare: Vec<u8> = vec![0x2e, 0x0a];
    assert(full@ =~= seq![0x2eu8, 0x0d, 0x0a]);
    assert(bare@ =~= seq![0x2eu8, 0x0a]);
    bytes_eq(line, full.as_slice()) || bytes_eq(line, bare.as_slice())
}

// ---------------------------------------------------------------------------
// The session
// ---------------------------------------------------------------------------

/// What a session waits for.
#[derive(Debug)]
pub enum Phase {
    /// A command line.
    Command,
    /// What the cache has for the command.
    Cached,
    /// The first line of the response to the command.
    FirstLine,
    /// A further line of a response of this status.
    MoreLines(StatusCode, Vec<u8>),
    /// Nothing more.
    Over,
}

/// A phase as contracts speak of it.
#[verifier::ext_equal]
pub enum PhaseModel {
    Command,
    Cached,
    FirstLine,
    MoreLines(StatusCode, Seq<u8>),
    Over,
}

impl View for Phase {
    type V = PhaseModel;

    open spec fn view(&self) -> PhaseModel {
        match self {
            Phase::Command => PhaseModel::Command,
            Phase::Cached => PhaseModel::Cached,
            Phase::FirstLine => PhaseModel::FirstLine,
            Phase::MoreLines(s, r) => PhaseModel::MoreLines(*s, r@),
            Phase::Over => PhaseModel::Over,
        }
    }
}

/// Which event to bring next.
#[derive(Clone, Copy, Debug, PartialEq, Eq, Structural)]
pub enum Wanted {
    ClientLine,
    CacheAnswer,
    BackendLine,
    /// The session is over.
    Nothing,
}

/// What to do after an event, in this order: write to the backend, store a
/// response under a message identifier, look a message identifier up, write to
/// the client; then bring the event that is wanted.
#[derive(Debug)]
pub struct SessionStep {
    pub to_backend: Vec<u8>,
    pub store: Option<(String, Vec<u8>)>,
    pub look_up: Option<String>,
    pub to_client: Vec<u8>,
    pub wanted: Wanted,
}

/// A step as contracts speak of it.
#[verifier::ext_equal]
pub struct StepModel {
    pub to_backend: Seq<u8>,
    pub store: Option<(Seq<u8>, Seq<u8>)>,
    pub look_up: Option<Seq<u8>>,
    pub to_client: Seq<u8>,
    pub wanted: Wanted,
}

impl View for SessionStep {
    type V = StepModel;

    open spec fn view(&self) -> StepModel {
        StepModel {
            to_backend: self.to_backend@,
            store: match self.store {
                Some((id, response)) => Some((encode_utf8(id@), response@)),
                None => None,
            },
            look_up: match self.look_up {
                Some(id) => Some(encode_utf8(id@)),
                None => None,
            },
            to_client: self.to_client@,
            wanted: self.wanted,
        }
    }
}

/// A session: the command at hand, what is waited for, and the bytes that went
/// either way.
#[verifier::ext_equal]
pub struct SessionModel {
    pub line: Seq<u8>,
    pub class: NntpCommand,
    pub phase: PhaseModel,
    pub to_backend: u64,
    pub to_client: u64,
}

/// A count of bytes after `n` more; it stops at its largest value.
pub open spec fn bytes_after(count: u64, n: nat) -> u64 {
    if count + n > u64::MAX {
        u64::MAX
    } else {
        (count + n) as u64
    }
}

pub open spec fn quiet(wanted: Wanted) -> StepModel {
    StepModel {
        to_backend: Seq::empty(),
        store: None,
        look_up: None,
        to_client: Seq::empty(),
        wanted,
    }
}

impl SessionModel {
    /// The article that the command at hand names.
    pub open spec fn article(self) -> Option<Seq<u8>> {
        if self.class == NntpCommand::ArticleByMessageId {
            message_id_in(self.line)
        } else {
            None
        }
    }

    /// The session writes to the client and waits for the next command.
    pub open spec fn replied(self, response: Seq<u8>) -> (SessionModel, StepModel) {
        (
            SessionModel {
                phase: PhaseModel::Command,
                to_client: bytes_after(self.to_client, response.len()),
                ..self
            },
            StepModel { to_client: response, ..quiet(Wanted::ClientLine) },
        )
    }

    /// The session handles the command at hand without the cache: it answers a
    /// login, refuses what needs state or cannot be routed, and forwards the
    /// rest.
    pub open spec fn handled(self) -> (SessionModel, StepModel) {
        match self.class {
            NntpCommand::AuthUser => self.replied("381 Password required\r\n".spec_bytes()),
            NntpCommand::AuthPass => self.replied("281 Authentication accepted\r\n".spec_bytes()),
            NntpCommand::Stateful | NntpCommand::NonRoutable => self.replied(
                "503 Feature not supported in stateless proxy mode\r\n".spec_bytes(),
            ),
            NntpCommand::Stateless | NntpCommand::ArticleByMessageId => (
                SessionModel {
                    phase: PhaseModel::FirstLine,
                    to_backend: bytes_after(self.to_backend, self.line.len()),
                    ..self
                },
                StepModel { to_backend: self.line, ..quiet(Wanted::BackendLine) },
            ),
        }
    }

    /// A client sent a command line. One that names an article is looked up
    /// first.
    pub open spec fn after_client_line(self, line: Seq<char>) -> (SessionModel, StepModel) {
        let next = SessionModel {
            line: encode_utf8(line),
            class: line_class(encode_utf8(trim_text(line))),
            ..self
        };
        match next.article() {
            Some(id) => (
                SessionModel { phase: PhaseModel::Cached, ..next },
                StepModel { look_up: Some(id), ..quiet(Wanted::CacheAnswer) },
            ),
            None => next.handled(),
        }
    }

    /// The cache answered.
    pub open spec fn after_cached(self, found: Option<Seq<u8>>) -> (SessionModel, StepModel) {
        match found {
            Some(response) => self.replied(response),
            None => self.handled(),
        }
    }

    /// The response is complete: a successful one to a command that names an
    /// article is stored, and the client gets it.
    pub open spec fn completed(self, status: Option<StatusCode>, response: Seq<u8>) -> (
        SessionModel,
        StepModel,
    ) {
        let (next, step) = self.replied(response);
        (
            next,
            StepModel {
                store: if is_success(status) && self.article() is Some {
                    Some((self.article()->0, response))
                } else {
                    None
                },
                ..step
            },
        )
    }

    /// The session is over.
    pub open spec fn ended(self) -> (SessionModel, StepModel) {
        (SessionModel { phase: PhaseModel::Over, ..self }, quiet(Wanted::Nothing))
    }

    /// A backend sent a line; an empty one stands for a closed connection.
    pub open spec fn after_backend_line(self, line: Seq<u8>) -> (SessionModel, StepModel) {
        match self.phase {
            PhaseModel::MoreLines(status, response) => if line.len() == 0 || is_end_line(line) {
                self.completed(Some(status), response + line)
            } else {
                (
                    SessionModel {
                        phase: PhaseModel::MoreLines(status, response + line),
                        ..self
                    },
                    quiet(Wanted::BackendLine),
                )
            },
            _ => if line.len() == 0 {
                self.ended()
            } else if is_disconnect(line) {
                (
                    SessionModel {
                        phase: PhaseModel::Over,
                        to_client: bytes_after(self.to_client, line.len()),
                        ..self
                    },
                    StepModel { to_client: line, ..quiet(Wanted::Nothing) },
                )
            } else if is_multiline(status_of(line)) {
                (
                    SessionModel {
                        phase: PhaseModel::MoreLines(status_of(line)->0, line),
                        ..self
                    },
                    quiet(Wanted::BackendLine),
                )
            } else {
                self.completed(status_of(line), line)
            },
        }
    }
}

/// A client session with an article cache before its backend.
#[derive(Debug)]
pub struct CachingSession {
    line: String,
    class: NntpCommand,
    phase: Phase,
    to_backend: u64,
    to_client: u64,
}

impl View for CachingSession {
    type V = SessionModel;

    closed spec fn view(&self) -> SessionModel {
        SessionModel {
            line: encode_utf8(self.line@),
            class: self.class,
            phase: self.phase@,
            to_backend: self.to_backend,
            to_client: self.to_client,
        }
    }
}

fn nothing(wanted: Wanted) -> (r: SessionStep)
    ensures
        r@ == quiet(wanted),
{
    let r = SessionStep {
        to_backend: Vec::new(),
        store: None,
        look_up: None,
        to_client: Vec::new(),
        wanted,
    };
    assert(r@ =~= quiet(wanted));
    r
}

impl CachingSession {
    pub fn new() -> (r: Self)
        ensures
            r@.phase == PhaseModel::Command,
            r@.to_backend == 0,
            r@.to_client == 0,
    {
        CachingSession {
            line: String::new(),
            class: NntpCommand::Stateless,
            phase: Phase::Command,
            to_backend: 0,
            to_client: 0,
        }
    }

    fn reply(&mut self, response: Vec<u8>) -> (r: SessionStep)
        ensures
            (final(self)@, r@) == old(self)@.replied(response@),
    {
        self.phase = Phase::Command;
        self.to_client = self.to_client.saturating_add(response.len() as u64);
        let mut step = nothing(Wanted::ClientLine);
        step.to_client = response;
        assert(step@ =~= old(self)@.replied(response@).1);
        step
    }

    fn handle(&mut self) -> (r: SessionStep)
        ensures
            (final(self)@, r@) == old(self)@.handled(),
    {
        match self.class {
            NntpCommand::AuthUser => {
                let response = to_vec(auth_required());
                self.reply(response)
            },
            NntpCommand::AuthPass => {
                let response = to_vec(auth_accepted());
                self.reply(response)
            },
            NntpCommand::Stateful | NntpCommand::NonRoutable => {
                let response = to_vec(
                    "503 Feature not supported in stateless proxy mode\r\n".as_bytes(),
                );
                self.reply(response)
            },
            NntpCommand::Stateless | NntpCommand::ArticleByMessageId => {
                self.phase = Phase::FirstLine;
                let bytes = to_vec(self.line.as_str().as_bytes());
                self.to_backend = self.to_backend.saturating_add(bytes.len() as u64);
                let mut step = nothing(Wanted::BackendLine);
                step.to_backend = bytes;
                assert(step@ =~= old(self)@.handled().1);
                step
            },
        }
    }

    fn article(&self) -> (r: Option<String>)
        ensures
            match r {
                Some(id) => self@.article() == Some(encode_utf8(id@)),
                None => self@.article() is None,
            },
    {
        match self.class {
            NntpCommand::ArticleByMessageId => match extract_message_id(self.line.as_str()) {
                Some(id) => Some(string_of(id)),
                None => None,
            },
            _ => None,
        }
    }

    /// A client sent a command line.
    pub fn on_client_line(&mut self, line: String) -> (r: SessionStep)
        requires
            old(self)@.phase == PhaseModel::Command,
        ensures
            (final(self)@, r@) == old(self)@.after_client_line(line@),
    {
        let ghost before = self@;
        let ghost text = line@;
        self.class = NntpCommand::classify(line.as_str());
        self.line = line;
        match self.article() {
            Some(id) => {
                self.phase = Phase::Cached;
                let mut step = nothing(Wanted::CacheAnswer);
                step.look_up = Some(id);
                assert(step@ =~= before.after_client_line(text).1);
                step
            },
            None => self.handle(),
        }
    }

    /// The client closed its connection, or reading from it failed.
    pub fn on_client_gone(&mut self) -> (r: SessionStep)
        ensures
            (final(self)@, r@) == old(self)@.ended(),
    {
        self.phase = Phase::Over;
        nothing(Wanted::Nothing)
    }

    /// The cache answered with a response, or with nothing.
    pub fn on_cached(&mut self, found: Option<Vec<u8>>) -> (r: SessionStep)
        requires
            old(self)@.phase == PhaseModel::Cached,
        ensures
            (final(self)@, r@) == old(self)@.after_cached(
                match found {
                    Some(v) => Some(v@),
                    None => None,
                },
            ),
    {
        match found {
            Some(response) => self.reply(response),
            None => self.handle(),
        }
    }

    fn complete(&mut self, status: Option<StatusCode>, response: Vec<u8>) -> (r: SessionStep)
        ensures
            (final(self)@, r@) == old(self)@.completed(status, response@),
    {
        let ghost before = self@;
        let ghost bytes = response@;
        let success = match status {
            Some(s) => 200 <= s.code && s.code <= 299,
            None => false,
        };
        let store = if success {
            match self.article() {
                Some(id) => Some((id, to_vec(response.as_slice()))),
                None => None,
            }
        } else {
            None
        };
        let mut step = self.reply(response);
        step.store = store;
        assert(step@ =~= before.completed(status, bytes).1);
        step
    }

    /// A backend sent a line, its line ending included; an empty one stands for
    /// a closed connection.
    pub fn on_backend_line(&mut self, line: Vec<u8>) -> (r: SessionStep)
        requires
            old(self)@.phase is FirstLine || old(self)@.phase is MoreLines,
        ensures
            (final(self)@, r@) == old(self)@.after_backend_line(line@),
    {
        let ghost before = self@;
        let ghost text = line@;
        let mut phase = Phase::Over;
        std::mem::swap(&mut phase, &mut self.phase);
        match phase {
            Phase::MoreLines(status, response) => {
                let mut response = response;
                let ghost so_far = response@;
                let done = line.len() == 0 || end_line(line.as_slice());
                push_bytes(&mut response, line.as_slice());
                assert(response@ == so_far + text);
                if done {
                    self.complete(Some(status), response)
                } else {
                    self.phase = Phase::MoreLines(status, response);
                    nothing(Wanted::BackendLine)
                }
            },
            _ => {
                if line.len() == 0 {
                    return nothing(Wanted::Nothing);
                }
                let status = StatusCode::parse(line.as_slice());
                if let Some(s) = status {
                    if s.code == 205 {
                        self.to_client = self.to_client.saturating_add(line.len() as u64);
                        let mut step = nothing(Wanted::Nothing);
                        step.to_client = line;
                        assert(step@ =~= before.after_backend_line(text).1);
                        return step;
                    }
                    if multiline(status) {
                        self.phase = Phase::MoreLines(s, line);
                        return nothing(Wanted::BackendLine);
                    }
                }
                self.complete(status, line)
            },
        }
    }

    /// Bytes that went to the backend, and bytes that went to the client.
    pub fn totals(&self) -> (r: (u64, u64))
        ensures
            r == (self@.to_backend, self@.to_client),
    {
        (self.to_backend, self.to_client)
    }
}

// ---------------------------------------------------------------------------
// Laws
// ---------------------------------------------------------------------------

/// Whatever is stored is what the client gets: a later hit serves the same
/// bytes, and only successful responses to commands that name an article are
/// stored.
pub proof fn law_stored_is_what_was_sent(s: SessionModel, line: Seq<u8>)
    ensures
        ({
            let step = s.after_backend_line(line).1;
            match step.store {
                Some((id, response)) => {
                    &&& response == step.to_client
                    &&& s.article() == Some(id)
                    &&& is_success(
                        match s.phase {
                            PhaseModel::MoreLines(status, _) => Some(status),
                            _ => status_of(line),
                        },
                    )
                },
                None => true,
            }
        }),
{
}

/// The lines end to end.
pub open spec fn gathered(lines: Seq<Seq<u8>>) -> Seq<u8>
    decreases lines.len(),
{
    if lines.len() == 0 {
        Seq::empty()
    } else {
        gathered(lines.drop_last()) + lines.last()
    }
}

/// The session after a backend sent these lines.
pub open spec fn after_lines(s: SessionModel, lines: Seq<Seq<u8>>) -> SessionModel
    decreases lines.len(),
{
    if lines.len() == 0 {
        s
    } else {
        after_lines(s, lines.drop_last()).after_backend_line(lines.last()).0
    }
}

proof fn lemma_lines_gather(s: SessionModel, lines: Seq<Seq<u8>>)
    requires
        s.phase == PhaseModel::FirstLine,
        lines.len() > 0,
        forall|k: int|
            0 < k <= lines.len() ==> (#[trigger] after_lines(s, lines.take(k))).phase is MoreLines,
    ensures
        after_lines(s, lines).phase matches PhaseModel::MoreLines(_, response) && response
            == gathered(lines),
        after_lines(s, lines).to_client == s.to_client,
        after_lines(s, lines).article() == s.article(),
    decreases lines.len(),
{
    let all = lines.len() as int;
    assert(lines.take(all) =~= lines);
    assert(after_lines(s, lines.take(all)).phase is MoreLines);
    let front = lines.drop_last();
    let before = after_lines(s, front);
    assert(after_lines(s, lines) == before.after_backend_line(lines.last()).0);
    if front.len() == 0 {
        assert(before == s);
        assert(gathered(front) =~= Seq::<u8>::empty());
        assert(gathered(lines) =~= lines.last());
    } else {
        assert forall|k: int| 0 < k <= front.len() implies (#[trigger] after_lines(
            s,
            front.take(k),
        )).phase is MoreLines by {
            assert(front.take(k) =~= lines.take(k));
            assert(after_lines(s, lines.take(k)).phase is MoreLines);
        }
        lemma_lines_gather(s, front);
    }
}

/// The client gets a response as the backend sent it, whole and unchanged: the
/// lines end to end, once the last of them has come.
pub proof fn law_response_is_passed_on(s: SessionModel, lines: Seq<Seq<u8>>)
    requires
        s.phase == PhaseModel::FirstLine,
        lines.len() > 0,
        forall|k: int|
            0 < k < lines.len() ==> (#[trigger] after_lines(s, lines.take(k))).phase is MoreLines,
    ensures
        ({
            let step = after_lines(s, lines.drop_last()).after_backend_line(lines.last()).1;
            &&& step.to_client.len() == 0 || step.to_client == gathered(lines)
            &&& step.wanted == Wanted::ClientLine ==> step.to_client == gathered(lines)
        }),
{
    let front = lines.drop_last();
    if front.len() == 0 {
        assert(gathered(front) =~= Seq::<u8>::empty());
        assert(gathered(lines) =~= lines.last());
    } else {
        assert forall|k: int| 0 < k <= front.len() implies (#[trigger] after_lines(
            s,
            front.take(k),
        )).phase is MoreLines by {
            assert(front.take(k) =~= lines.take(k));
            assert(after_lines(s, lines.take(k)).phase is MoreLines);
        }
        lemma_lines_gather(s, front);
    }
}

/// A hit is answered from the cache alone: nothing goes to the backend.
pub proof fn law_hits_spare_the_backend(s: SessionModel, response: Seq<u8>)
    ensures
        s.after_cached(Some(response)).1.to_backend.len() == 0,
        s.after_cached(Some(response)).1.to_client == response,
        s.after_cached(Some(response)).0.to_backend == s.to_backend,
{
}

/// Commands that need state, and commands that cannot be routed, never reach
/// the backend.
pub proof fn law_refused_commands_stay(s: SessionModel, line: Seq<char>)
    requires
        line_class(encode_utf8(trim_text(line))) == NntpCommand::Stateful || line_class(
            encode_utf8(trim_text(line)),
        ) == NntpCommand::NonRoutable,
    ensures
        s.after_client_line(line).1.to_backend.len() == 0,
        s.after_client_line(line).1.to_client
            == "503 Feature not supported in stateless proxy mode\r\n".spec_bytes(),
{
}

/// A block of lines follows a response of this status.
pub open spec fn block_follows(code: int) -> bool {
    ||| 100 <= code <= 199
    ||| code == 215
    ||| code == 220
    ||| code == 221
    ||| code == 222
    ||| code == 224
    ||| code == 225
    ||| code == 230
    ||| code == 231
    ||| code == 282
}

/// A response with a block of lines is not complete with its first line: nothing
/// is written to the client or stored, and more of the backend is wanted.
pub proof fn law_block_is_awaited(s: SessionModel, line: Seq<u8>, code: int)
    requires
        s.phase == PhaseModel::FirstLine,
        starts_with_status(line, code),
        block_follows(code),
    ensures
        ({
            let (next, step) = s.after_backend_line(line);
            &&& step.to_client.len() == 0
            &&& step.to_backend.len() == 0
            &&& step.store is None
            &&& step.wanted == Wanted::BackendLine
            &&& next.phase == PhaseModel::MoreLines(StatusCode { code: code as u16 }, line)
            &&& next.to_client == s.to_client
            &&& next.article() == s.article()
        }),
{
    law_status_is_read(line, code);
}

/// A response without a block is complete with its first line: the client gets
/// it at once and may send its next command. It is stored where it tells of
/// success and the command names an article.
pub proof fn law_single_line_is_passed_on(s: SessionModel, line: Seq<u8>, code: int)
    requires
        s.phase == PhaseModel::FirstLine,
        starts_with_status(line, code),
        !block_follows(code),
        code != 205,
    ensures
        ({
            let (next, step) = s.after_backend_line(line);
            &&& step.to_client == line
            &&& step.wanted == Wanted::ClientLine
            &&& next.phase == PhaseModel::Command
            &&& step.store == (if 200 <= code <= 299 && s.article() is Some {
                Some((s.article()->0, line))
            } else {
                None
            })
        }),
{
    law_status_is_read(line, code);
}

/// A backend that says goodbye ends the session, once the client has been told;
/// one that closes the connection ends it too.
pub proof fn law_backend_ends_the_session(s: SessionModel, line: Seq<u8>)
    requires
        s.phase == PhaseModel::FirstLine,
    ensures
        starts_with_status(line, 205) ==> {
            let (next, step) = s.after_backend_line(line);
            &&& step.to_client == line
            &&& step.store is None
            &&& step.wanted == Wanted::Nothing
            &&& next.phase == PhaseModel::Over
        },
        ({
            let (next, step) = s.after_backend_line(Seq::empty());
            &&& step.to_client.len() == 0
            &&& step.store is None
            &&& step.wanted == Wanted::Nothing
            &&& next.phase == PhaseModel::Over
        }),
{
    if starts_with_status(line, 205) {
        law_status_is_read(line, 205);
    }
}

/// The line is no end of a block: it is there, and no lone dot.
pub open spec fn goes_on(line: Seq<u8>) -> bool {
    line.len() > 0 && line != seq![0x2eu8, 0x0d, 0x0a] && line != seq![0x2eu8, 0x0a]
}

proof fn lemma_block_goes_on(s: SessionModel, lines: Seq<Seq<u8>>, code: int)
    requires
        s.phase == PhaseModel::FirstLine,
        lines.len() > 0,
        starts_with_status(lines[0], code),
        block_follows(code),
        forall|i: int| 1 <= i < lines.len() ==> goes_on(#[trigger] lines[i]),
    ensures
        after_lines(s, lines).phase == PhaseModel::MoreLines(
            StatusCode { code: code as u16 },
            gathered(lines),
        ),
        after_lines(s, lines).to_client == s.to_client,
        after_lines(s, lines).article() == s.article(),
        ({
            let step = after_lines(s, lines.drop_last()).after_backend_line(lines.last()).1;
            step.to_client.len() == 0 && step.store is None && step.wanted == Wanted::BackendLine
        }),
    decreases lines.len(),
{
    let front = lines.drop_last();
    if front.len() == 0 {
        law_block_is_awaited(s, lines[0], code);
        assert(after_lines(s, front) == s);
        assert(gathered(front) =~= Seq::<u8>::empty());
        assert(gathered(lines) =~= lines[0]);
    } else {
        assert forall|i: int| 1 <= i < front.len() implies goes_on(#[trigger] front[i]) by {
            assert(front[i] == lines[i]);
        }
        lemma_block_goes_on(s, front, code);
        assert(goes_on(lines[lines.len() - 1]));
    }
}

/// A response with a block comes whole: while its lines come, nothing is written
/// to the client or stored. At the lone dot that ends it, or where the connection
/// closes, the client gets all of its lines end to end, and they are stored where
/// the response tells of success and the command names an article.
pub proof fn law_block_is_passed_on_whole(
    s: SessionModel,
    lines: Seq<Seq<u8>>,
    last: Seq<u8>,
    code: int,
)
    requires
        s.phase == PhaseModel::FirstLine,
        lines.len() > 0,
        starts_with_status(lines[0], code),
        block_follows(code),
        forall|i: int| 1 <= i < lines.len() ==> goes_on(#[trigger] lines[i]),
        !goes_on(last),
    ensures
        ({
            let before = after_lines(s, lines.drop_last()).after_backend_line(lines.last()).1;
            let (next, step) = after_lines(s, lines).after_backend_line(last);
            &&& before.to_client.len() == 0
            &&& before.store is None
            &&& before.wanted == Wanted::BackendLine
            &&& step.to_client == gathered(lines) + last
            &&& step.wanted == Wanted::ClientLine
            &&& next.phase == PhaseModel::Command
            &&& step.store == (if 200 <= code <= 299 && s.article() is Some {
                Some((s.article()->0, gathered(lines) + last))
            } else {
                None
            })
        }),
{
    lemma_block_goes_on(s, lines, code);
}

/// An identifier is what stands between the first opening angle bracket and the
/// next closing one, the brackets included; without brackets there is none.
pub proof fn law_identifier_is_in_brackets(before: Seq<u8>, inner: Seq<u8>, after: Seq<u8>)
    requires
        forall|i: int| 0 <= i < before.len() ==> #[trigger] before[i] != 0x3c,
        forall|i: int| 0 <= i < inner.len() ==> #[trigger] inner[i] != 0x3e,
    ensures
        message_id_in(before + seq![0x3cu8] + inner + seq![0x3eu8] + after) == Some(
            seq![0x3cu8] + inner + seq![0x3eu8],
        ),
        message_id_in(before) is None,
        message_id_in(before + seq![0x3cu8] + inner) is None,
{
    let id = seq![0x3cu8] + inner + seq![0x3eu8];
    let line = before + seq![0x3cu8] + inner + seq![0x3eu8] + after;
    let a = before.len() as int;
    crate::bytes::lemma_first_byte(line, 0x3c, a);
    let rest = line.subrange(a, line.len() as int);
    assert(rest =~= id + after);
    let n = (inner.len() + 1) as int;
    assert forall|j: int| 0 <= j < n implies #[trigger] rest[j] != 0x3e by {
        if j > 0 {
            assert(rest[j] == inner[j - 1]);
        }
    }
    crate::bytes::lemma_first_byte(rest, 0x3e, n);
    assert(rest.subrange(0, n + 1) =~= id);
    crate::bytes::lemma_first_byte(before, 0x3c, a);
    let open = before + seq![0x3cu8] + inner;
    crate::bytes::lemma_first_byte(open, 0x3c, a);
    let tail = open.subrange(a, open.len() as int);
    assert forall|j: int| 0 <= j < tail.len() implies #[trigger] tail[j] != 0x3e by {
        assert(tail[j] == open[a + j]);
        if j > 0 {
            assert(tail[j] == inner[j - 1]);
        }
    }
    crate::bytes::lemma_first_byte(tail, 0x3e, tail.len() as int);
}

/// A command that asks for an article by its identifier is looked up under the
/// identifier before anything goes to a backend. Where the cache has nothing, the
/// backend gets the command as it came.
pub proof fn law_article_is_looked_up_first(s: SessionModel, line: Seq<char>, id: Seq<u8>)
    requires
        class_of(line) == NntpCommand::ArticleByMessageId,
        message_id_in(encode_utf8(line)) == Some(id),
    ensures
        ({
            let (next, step) = s.after_client_line(line);
            &&& step.look_up == Some(id)
            &&& step.to_backend.len() == 0
            &&& step.to_client.len() == 0
            &&& step.store is None
            &&& step.wanted == Wanted::CacheAnswer
            &&& next.phase == PhaseModel::Cached
            &&& next.article() == Some(id)
            &&& ({
                let (later, miss) = next.after_cached(None);
                &&& miss.to_backend == encode_utf8(line)
                &&& miss.to_client.len() == 0
                &&& miss.store is None
                &&& miss.look_up is None
                &&& miss.wanted == Wanted::BackendLine
                &&& later.phase == PhaseModel::FirstLine
                &&& later.article() == Some(id)
            })
        }),
{
}

/// A command that any backend may serve goes to the backend as it came, without
/// a look into the cache.
pub proof fn law_stateless_commands_are_forwarded(s: SessionModel, line: Seq<char>)
    requires
        class_of(line) == NntpCommand::Stateless,
    ensures
        ({
            let (next, step) = s.after_client_line(line);
            &&& step.to_backend == encode_utf8(line)
            &&& step.to_client.len() == 0
            &&& step.look_up is None
            &&& step.store is None
            &&& step.wanted == Wanted::BackendLine
            &&& next.phase == PhaseModel::FirstLine
            &&& next.article() is None
        }),
{
}

/// The session answers a login itself: an account with the status that asks for
/// a password, a password with the status that accepts it. The backend hears of
/// neither.
pub proof fn law_logins_are_answered(s: SessionModel, line: Seq<char>)
    requires
        class_of(line) == NntpCommand::AuthUser || class_of(line) == NntpCommand::AuthPass,
    ensures
        ({
            let (next, step) = s.after_client_line(line);
            &&& class_of(line) == NntpCommand::AuthUser ==> starts_with_status(step.to_client, 381)
            &&& class_of(line) == NntpCommand::AuthPass ==> starts_with_status(step.to_client, 281)
            &&& step.to_backend.len() == 0
            &&& step.look_up is None
            &&& step.store is None
            &&& step.wanted == Wanted::ClientLine
            &&& next.phase == PhaseModel::Command
        }),
{
    reveal_strlit("381 Password required\r\n");
    reveal_strlit("281 Authentication accepted\r\n");
    crate::text::lemma_ascii_bytes("381 Password required\r\n"@);
    crate::text::lemma_ascii_bytes("281 Authentication accepted\r\n"@);
}

/// The counts of bytes grow by what each step writes.
pub proof fn law_bytes_are_counted(
    s: SessionModel,
    line: Seq<char>,
    found: Option<Seq<u8>>,
    answer: Seq<u8>,
)
    ensures
        counts(s, s.after_client_line(line)),
        counts(s, s.after_cached(found)),
        counts(s, s.after_backend_line(answer)),
{
}

/// The counts of a session grew by what a step writes, up to their largest value.
pub open spec fn counts(s: SessionModel, after: (SessionModel, StepModel)) -> bool {
    let (next, step) = after;
    &&& s.to_client + step.to_client.len() <= u64::MAX ==> next.to_client == s.to_client
        + step.to_client.len()
    &&& s.to_backend + step.to_backend.len() <= u64::MAX ==> next.to_backend == s.to_backend
        + step.to_backend.len()
}

} // verus!
