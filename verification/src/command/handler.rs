//! What the proxy does with a request.
use crate::bytes::{
    eq_ignore_case, is_ascii_space, lower_bytes, trim, trim_end_spec, trim_spec, trim_start_spec,
};
use crate::protocol::{
    capital_text, lemma_word_and_args, route_of, unspaced, verb_is, word_len, word_length, RequestContext, RequestKind,
    RequestResponseMetadata, RequestRouteClass, ResponseWireLen, StatusCode,
    FEATURE_NOT_SUPPORTED,
};
use crate::text::{same_letters, str_from_utf8};
use vstd::prelude::*;
use vstd::string::*;
use vstd::utf8::*;

verus! {

/// A response with which the proxy refuses a request.
#[derive(Clone, Copy, Debug, PartialEq, Eq)]
pub struct RejectResponse {
    pub status: u16,
    pub wire: &'static str,
}

impl RejectResponse {
    pub fn new(status: u16, wire: &'static str) -> (r: Self)
        ensures
            r.status == status,
            r.wire@ == wire@,
    {
        RejectResponse { status, wire }
    }

    pub fn status(self) -> (r: StatusCode)
        ensures
            r.code == self.status,
    {
        StatusCode { code: self.status }
    }

    pub fn metadata(self) -> (r: RequestResponseMetadata)
        ensures
            r.status.code == self.status,
            r.wire_len.value == self.wire.spec_bytes().len(),
    {
        RequestResponseMetadata {
            status: self.status(),
            wire_len: ResponseWireLen { value: self.len() },
        }
    }

    pub fn as_str(self) -> (r: &'static str)
        ensures
            r@ == self.wire@,
    {
        self.wire
    }

    pub fn as_bytes(self) -> (r: &'static [u8])
        ensures
            r@ == self.wire.spec_bytes(),
    {
        self.wire.as_bytes()
    }

    pub fn len(self) -> (r: usize)
        ensures
            r == self.wire.spec_bytes().len(),
    {
        self.wire.as_bytes().len()
    }

    pub fn is_empty(self) -> (r: bool)
        ensures
            r == (self.wire.spec_bytes().len() == 0),
    {
        self.wire.as_bytes().len() == 0
    }
}

/// What the proxy does about an authentication command.
#[derive(Clone, Copy, Debug, PartialEq)]
#[non_exhaustive]
pub enum AuthAction<'a> {
    /// Ask for the password of this account.
    RequestPassword(&'a str),
    /// Check the password and answer.
    ValidateAndRespond { password: &'a str },
    /// Refuse a subcommand that is not known.
    UnknownSubcommand,
}

/// What the proxy does with a request.
#[derive(Clone, Copy, Debug, PartialEq)]
#[non_exhaustive]
pub enum CommandAction<'a> {
    InterceptAuth(AuthAction<'a>),
    Reject(RejectResponse),
    ForwardStateless,
    /// Answer with the capabilities of the proxy.
    InterceptCapabilities,
}

/// An action as contracts speak of it.
pub enum ActionModel {
    RequestPassword(Seq<char>),
    Validate(Seq<char>),
    UnknownSubcommand,
    Reject(u16, Seq<char>),
    ForwardStateless,
    InterceptCapabilities,
}

impl<'a> View for CommandAction<'a> {
    type V = ActionModel;

    open spec fn view(&self) -> ActionModel {
        match self {
            CommandAction::InterceptAuth(AuthAction::RequestPassword(u)) =>
                ActionModel::RequestPassword(u@),
            CommandAction::InterceptAuth(AuthAction::ValidateAndRespond { password }) =>
                ActionModel::Validate(password@),
            CommandAction::InterceptAuth(AuthAction::UnknownSubcommand) =>
                ActionModel::UnknownSubcommand,
            CommandAction::Reject(r) => ActionModel::Reject(r.status, r.wire@),
            CommandAction::ForwardStateless => ActionModel::ForwardStateless,
            CommandAction::InterceptCapabilities => ActionModel::InterceptCapabilities,
        }
    }
}

/// Posting is refused.
pub open spec fn post_reject() -> ActionModel {
    ActionModel::Reject(440, "440 Posting not permitted\r\n"@)
}

/// The transfer of articles between servers is refused.
pub open spec fn transit_reject() -> ActionModel {
    ActionModel::Reject(503, "503 Feature not supported in per-command routing mode\r\n"@)
}

/// What needs the state of a connection is refused.
pub open spec fn stateful_reject() -> ActionModel {
    ActionModel::Reject(503, "503 Feature not supported in stateless proxy mode\r\n"@)
}

/// The argument of an `AUTHINFO` subcommand, if it is this one and the argument
/// is text.
pub open spec fn authinfo_arg(args: Seq<u8>, subcommand: &str) -> Option<Seq<char>> {
    let trimmed = trim_spec(args);
    let n = word_len(trimmed) as int;
    let tail = trim_spec(trimmed.subrange(n, trimmed.len() as int));
    if verb_is(trimmed.subrange(0, n), subcommand) && valid_utf8(tail) {
        Some(decode_utf8(tail))
    } else {
        None
    }
}

/// What the proxy does with a request of this verb and these arguments.
pub open spec fn action_for(kind: RequestKind, args: Seq<u8>) -> ActionModel {
    match kind {
        RequestKind::AuthInfo => match authinfo_arg(args, "USER") {
            Some(username) => ActionModel::RequestPassword(username),
            None => match authinfo_arg(args, "PASS") {
                Some(password) => ActionModel::Validate(password),
                None => ActionModel::UnknownSubcommand,
            },
        },
        RequestKind::Capabilities => ActionModel::InterceptCapabilities,
        RequestKind::Post => post_reject(),
        RequestKind::Ihave => transit_reject(),
        _ => match route_of(kind, args) {
            RequestRouteClass::ArticleByMessageId => ActionModel::ForwardStateless,
            RequestRouteClass::Stateless => ActionModel::ForwardStateless,
            RequestRouteClass::Stateful => stateful_reject(),
            RequestRouteClass::Reject => transit_reject(),
            RequestRouteClass::Local => ActionModel::ForwardStateless,
        },
    }
}

fn strip_authinfo_arg<'a>(args: &'a [u8], subcommand: &str) -> (r: Option<&'a str>)
    ensures
        match r {
            Some(s) => authinfo_arg(args@, subcommand) == Some(s@),
            None => authinfo_arg(args@, subcommand) is None,
        },
{
    let trimmed = trim(args);
    let n = word_length(trimmed);
    let head = &trimmed[0..n];
    let tail = trim(&trimmed[n..trimmed.len()]);
    if eq_ignore_case(head, subcommand.as_bytes()) {
        str_from_utf8(tail)
    } else {
        None
    }
}

/// Decides what is done with requests.
pub struct CommandHandler;

impl CommandHandler {
    /// What the proxy does with a request.
    pub fn classify_request(request: &RequestContext) -> (r: CommandAction<'_>)
        ensures
            r@ == action_for(request.spec_kind(), request.spec_args()),
    {
        match request.kind() {
            RequestKind::AuthInfo => {
                if let Some(username) = strip_authinfo_arg(request.args(), "USER") {
                    CommandAction::InterceptAuth(AuthAction::RequestPassword(username))
                } else if let Some(password) = strip_authinfo_arg(request.args(), "PASS") {
                    CommandAction::InterceptAuth(AuthAction::ValidateAndRespond { password })
                } else {
                    CommandAction::InterceptAuth(AuthAction::UnknownSubcommand)
                }
            },
            RequestKind::Capabilities => CommandAction::InterceptCapabilities,
            RequestKind::Post => CommandAction::Reject(
                RejectResponse::new(440, "440 Posting not permitted\r\n"),
            ),
            RequestKind::Ihave => CommandAction::Reject(Self::transit()),
            _ => match request.route_class() {
                RequestRouteClass::ArticleByMessageId => CommandAction::ForwardStateless,
                RequestRouteClass::Stateless => CommandAction::ForwardStateless,
                RequestRouteClass::Stateful => CommandAction::Reject(Self::stateful()),
                RequestRouteClass::Reject => CommandAction::Reject(Self::transit()),
                RequestRouteClass::Local => CommandAction::ForwardStateless,
            },
        }
    }

    fn transit() -> (r: RejectResponse)
        ensures
            ActionModel::Reject(r.status, r.wire@) == transit_reject(),
    {
        RejectResponse::new(
            FEATURE_NOT_SUPPORTED,
            "503 Feature not supported in per-command routing mode\r\n",
        )
    }

    fn stateful() -> (r: RejectResponse)
        ensures
            ActionModel::Reject(r.status, r.wire@) == stateful_reject(),
    {
        RejectResponse::new(
            FEATURE_NOT_SUPPORTED,
            "503 Feature not supported in stateless proxy mode\r\n",
        )
    }
}

// ---------------------------------------------------------------------------
// Laws
// ---------------------------------------------------------------------------

/// Verbs are read without regard to letter case: a request whose bytes differ
/// only in that gets an action of the same sort.
pub proof fn law_verbs_ignore_case(a: Seq<u8>, b: Seq<u8>)
    requires
        lower_bytes(a) == lower_bytes(b),
    ensures
        crate::protocol::kind_of(a) == crate::protocol::kind_of(b),
{
}

/// A refusal carries its status: the response starts with it.
pub proof fn law_refusals_carry_their_status(kind: RequestKind, args: Seq<u8>)
    ensures
        match action_for(kind, args) {
            ActionModel::Reject(status, wire) => {
                &&& wire.len() >= 5
                &&& wire.subrange(0, 3) == crate::text::decimal_text(status as nat)
                &&& wire[3] == ' '
                &&& wire[wire.len() - 2] == '\r'
                &&& wire[wire.len() - 1] == '\n'
            },
            _ => true,
        },
{
    reveal_strlit("440 Posting not permitted\r\n");
    reveal_strlit("503 Feature not supported in per-command routing mode\r\n");
    reveal_strlit("503 Feature not supported in stateless proxy mode\r\n");
    reveal_with_fuel(crate::bytes::decimal, 4);
    assert(crate::text::decimal_text(440) =~= seq!['4', '4', '0']);
    assert(crate::text::decimal_text(503) =~= seq!['5', '0', '3']);
}

/// A request that any backend may serve is forwarded: one for an article by its
/// identifier, and the commands that need no state.
pub proof fn law_what_is_forwarded(kind: RequestKind, args: Seq<u8>)
    requires
        ({
            ||| (kind == RequestKind::Article || kind == RequestKind::Head || kind
                == RequestKind::Body || kind == RequestKind::Stat) && args.len() >= 2 && args[0]
                == 0x3c && args[args.len() - 1] == 0x3e
            ||| kind == RequestKind::List
            ||| kind == RequestKind::Date
            ||| kind == RequestKind::Help
            ||| kind == RequestKind::Quit
            ||| kind == RequestKind::Mode
            ||| kind == RequestKind::Newgroups
            ||| kind == RequestKind::Newnews
        }),
    ensures
        action_for(kind, args) == ActionModel::ForwardStateless,
{
}

/// A request is refused with a status of its own sort: posting with 440, the
/// transfer of articles and what needs state with 503.
pub proof fn law_what_is_refused(kind: RequestKind, args: Seq<u8>)
    ensures
        kind == RequestKind::Post ==> action_for(kind, args) is Reject && action_for(
            kind,
            args,
        )->Reject_0 == 440,
        kind == RequestKind::Ihave ==> action_for(kind, args) is Reject && action_for(
            kind,
            args,
        )->Reject_0 == 503,
        kind == RequestKind::Group || kind == RequestKind::Listgroup || kind == RequestKind::Next
            || kind == RequestKind::Last || kind == RequestKind::Over || kind == RequestKind::Xover
            || kind == RequestKind::Hdr || kind == RequestKind::Xhdr || kind
            == RequestKind::Unknown ==> action_for(kind, args) is Reject && action_for(
            kind,
            args,
        )->Reject_0 == 503,
        (kind == RequestKind::Article || kind == RequestKind::Head || kind == RequestKind::Body
            || kind == RequestKind::Stat) && !(args.len() >= 2 && args[0] == 0x3c && args[args.len()
            - 1] == 0x3e) ==> action_for(kind, args) is Reject && action_for(kind, args)->Reject_0
            == 503,
        kind == RequestKind::Capabilities ==> action_for(kind, args)
            == ActionModel::InterceptCapabilities,
{
}

/// The word of a subcommand is read in any letter case.
proof fn lemma_subcommand(word: Seq<char>, name: Seq<char>, subcommand: &str)
    requires
        capital_text(subcommand@),
        unspaced(encode_utf8(word)),
        word.len() > 0,
        encode_utf8(name).len() > 0 ==> !is_ascii_space(encode_utf8(name)[0]) && !is_ascii_space(
            encode_utf8(name)[encode_utf8(name).len() - 1],
        ),
    ensures
        authinfo_arg(encode_utf8(word) + seq![0x20u8] + encode_utf8(name), subcommand) == (
        if same_letters(word, subcommand@) {
            Some(name)
        } else {
            None
        }),
{
    let w = encode_utf8(word);
    let n = encode_utf8(name);
    let args = w + seq![0x20u8] + n;
    crate::text::lemma_first_of_text(word);
    lemma_word_and_args(w, n);
    encode_utf8_valid_utf8(name);
    encode_utf8_decode_utf8(name);
    crate::protocol::lemma_verb_is(word, subcommand);
    lemma_trimmed_args(w, n);
    let trimmed = trim_spec(args);
    if n.len() > 0 {
        assert(trimmed == args);
    } else {
        assert(trimmed == w);
        assert(w.subrange(0, w.len() as int) =~= w);
        assert(w.subrange(w.len() as int, w.len() as int) =~= Seq::<u8>::empty());
        assert(n =~= Seq::<u8>::empty());
    }
}

proof fn lemma_trimmed_args(w: Seq<u8>, n: Seq<u8>)
    requires
        w.len() > 0,
        unspaced(w),
        n.len() > 0 ==> !is_ascii_space(n[n.len() - 1]),
    ensures
        trim_spec(w + seq![0x20u8] + n) == (if n.len() > 0 {
            w + seq![0x20u8] + n
        } else {
            w
        }),
{
    let args = w + seq![0x20u8] + n;
    assert(args[0] == w[0] && !is_ascii_space(w[0]));
    assert(trim_start_spec(args) == args);
    if n.len() > 0 {
        assert(args[args.len() - 1] == n[n.len() - 1]);
    } else {
        assert(args.subrange(0, args.len() - 1) =~= w);
        assert(!is_ascii_space(w[w.len() - 1]));
        assert(trim_end_spec(args) == trim_end_spec(w));
    }
}

/// A login is answered by the proxy: `USER` and a name ask for the password of
/// that name, `PASS` and a password are checked, each in any letter case. Another
/// word is no login.
pub proof fn law_logins_are_intercepted(word: Seq<char>, name: Seq<char>)
    requires
        word.len() > 0,
        unspaced(encode_utf8(word)),
        encode_utf8(name).len() > 0 ==> !is_ascii_space(encode_utf8(name)[0]) && !is_ascii_space(
            encode_utf8(name)[encode_utf8(name).len() - 1],
        ),
    ensures
        ({
            let action = action_for(
                RequestKind::AuthInfo,
                encode_utf8(word) + seq![0x20u8] + encode_utf8(name),
            );
            &&& same_letters(word, "USER"@) ==> action == ActionModel::RequestPassword(name)
            &&& same_letters(word, "PASS"@) ==> action == ActionModel::Validate(name)
            &&& !same_letters(word, "USER"@) && !same_letters(word, "PASS"@) ==> action
                == ActionModel::UnknownSubcommand
        }),
{
    reveal_strlit("USER");
    reveal_strlit("PASS");
    lemma_subcommand(word, name, "USER");
    lemma_subcommand(word, name, "PASS");
    if same_letters(word, "USER"@) && same_letters(word, "PASS"@) {
        assert(crate::text::same_letter(word[0], "USER"@[0]));
        assert(crate::text::same_letter(word[0], "PASS"@[0]));
    }
}

} // verus!
