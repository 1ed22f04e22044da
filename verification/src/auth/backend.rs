//! Login on backends.
use crate::bytes::is_ascii_space;
use crate::command::handler::{action_for, law_logins_are_intercepted, ActionModel};
use crate::protocol::{
    authinfo_pass, authinfo_user, has_status, law_request_is_word_and_arguments, law_status_is_read,
    law_verbs, pass_command, request_of, starts_with_status, unspaced, user_command, RequestKind,
    ResponseParser,
};
use crate::text::{ascii_chars, lemma_ascii_bytes, lemma_encode_ascii_front, lemma_encode_concat, same_letters};
use vstd::prelude::*;
use vstd::string::*;
use vstd::utf8::*;

verus! {

/// Why there is no session with a backend.
#[derive(Clone, Copy, Debug, PartialEq, Eq, Structural)]
pub enum BackendAuthError {
    /// The backend did not greet.
    Greeting,
    /// The backend answered the name with neither a success nor a question for
    /// the password.
    UnexpectedUserResponse,
    /// The backend refused the password.
    Failed,
}

impl BackendAuthError {
    /// The words before the response that the error is about.
    pub open spec fn text(self) -> Seq<char> {
        match self {
            BackendAuthError::Greeting => "Server returned non-success greeting: "@,
            BackendAuthError::UnexpectedUserResponse => "Unexpected response to AUTHINFO USER: "@,
            BackendAuthError::Failed => "Authentication failed: "@,
        }
    }

    /// The words before the response that the error is about.
    pub fn message(&self) -> (r: &'static str)
        ensures
            r@ == self.text(),
    {
        match self {
            BackendAuthError::Greeting => "Server returned non-success greeting: ",
            BackendAuthError::UnexpectedUserResponse => "Unexpected response to AUTHINFO USER: ",
            BackendAuthError::Failed => "Authentication failed: ",
        }
    }
}

/// What to do next in a login.
#[derive(Debug)]
pub enum LoginStep {
    /// Send this command and hand back the response to it.
    Send(String),
    /// The login passed.
    Done,
    Fail(BackendAuthError),
}

/// A step as contracts speak of it.
pub enum LoginStepModel {
    Send(Seq<char>),
    Done,
    Fail(BackendAuthError),
}

impl View for LoginStep {
    type V = LoginStepModel;

    open spec fn view(&self) -> LoginStepModel {
        match self {
            LoginStep::Send(s) => LoginStepModel::Send(s@),
            LoginStep::Done => LoginStepModel::Done,
            LoginStep::Fail(e) => LoginStepModel::Fail(*e),
        }
    }
}

/// The backend greets, whether it lets clients post or not.
pub open spec fn greets(greeting: Seq<u8>) -> bool {
    has_status(greeting, 200) || has_status(greeting, 201)
}

/// What follows the response to the name.
pub open spec fn user_answered(response: Seq<u8>, password: Seq<char>) -> LoginStepModel {
    if has_status(response, 281) {
        LoginStepModel::Done
    } else if has_status(response, 381) {
        LoginStepModel::Send(pass_command(password))
    } else {
        LoginStepModel::Fail(BackendAuthError::UnexpectedUserResponse)
    }
}

/// What follows the response to the password.
pub open spec fn pass_answered(response: Seq<u8>) -> LoginStepModel {
    if has_status(response, 281) {
        LoginStepModel::Done
    } else {
        LoginStepModel::Fail(BackendAuthError::Failed)
    }
}

/// Logs in on a backend: first the name, then the password if it is asked for.
pub struct BackendAuthenticator;

impl BackendAuthenticator {
    /// Is this the greeting of a backend that serves?
    pub fn check_greeting(greeting: &[u8]) -> (r: Result<(), BackendAuthError>)
        ensures
            if greets(greeting@) {
                r is Ok
            } else {
                r == Err::<(), BackendAuthError>(BackendAuthError::Greeting)
            },
    {
        if ResponseParser::is_greeting(greeting) {
            Ok(())
        } else {
            Err(BackendAuthError::Greeting)
        }
    }

    /// The login starts with the name.
    pub fn start(username: &str) -> (r: LoginStep)
        ensures
            r@ == LoginStepModel::Send(user_command(username@)),
    {
        LoginStep::Send(authinfo_user(username))
    }

    /// What follows the response to the name.
    pub fn after_user(response: &[u8], password: &str) -> (r: LoginStep)
        ensures
            r@ == user_answered(response@, password@),
    {
        if ResponseParser::is_auth_success(response) {
            LoginStep::Done
        } else if ResponseParser::is_auth_required(response) {
            LoginStep::Send(authinfo_pass(password))
        } else {
            LoginStep::Fail(BackendAuthError::UnexpectedUserResponse)
        }
    }

    /// What follows the response to the password.
    pub fn after_pass(response: &[u8]) -> (r: LoginStep)
        ensures
            r@ == pass_answered(response@),
    {
        if ResponseParser::is_auth_success(response) {
            LoginStep::Done
        } else {
            LoginStep::Fail(BackendAuthError::Failed)
        }
    }
}

/// A backend that greets with 200 or 201 serves; any other status, and none, is no
/// greeting.
pub proof fn law_greetings(greeting: Seq<u8>, code: int)
    ensures
        starts_with_status(greeting, code) ==> greets(greeting) == (code == 200 || code == 201),
        greeting.len() < 3 ==> !greets(greeting),
{
    if starts_with_status(greeting, code) {
        law_status_is_read(greeting, code);
    }
}

/// A name is accepted with 281, or asks for the password with 381, which is then
/// sent. A password is accepted with 281. Any other status, and none, fails the
/// login.
pub proof fn law_login_goes_by_status(response: Seq<u8>, code: int, password: Seq<char>)
    ensures
        starts_with_status(response, code) ==> {
            &&& code == 281 ==> user_answered(response, password) == LoginStepModel::Done
                && pass_answered(response) == LoginStepModel::Done
            &&& code == 381 ==> user_answered(response, password) == LoginStepModel::Send(
                pass_command(password),
            )
            &&& code != 281 && code != 381 ==> user_answered(response, password)
                == LoginStepModel::Fail(BackendAuthError::UnexpectedUserResponse)
            &&& code != 281 ==> pass_answered(response) == LoginStepModel::Fail(
                BackendAuthError::Failed,
            )
        },
        response.len() < 3 ==> user_answered(response, password) is Fail && pass_answered(
            response,
        ) is Fail,
{
    if starts_with_status(response, code) {
        law_status_is_read(response, code);
    }
}

/// The bytes of a login command.
proof fn lemma_login_bytes(head: Seq<char>, word: Seq<char>, text: Seq<char>)
    requires
        word == "USER"@ || word == "PASS"@,
        head == "AUTHINFO "@ + word + " "@,
    ensures
        encode_utf8(head + text + "\r\n"@) == encode_utf8("AUTHINFO"@) + seq![0x20u8] + (encode_utf8(
            word,
        ) + seq![0x20u8] + encode_utf8(text)) + seq![0x0du8, 0x0a],
        unspaced(encode_utf8("AUTHINFO"@)),
        unspaced(encode_utf8(word)),
        encode_utf8("AUTHINFO"@).len() == 8,
        encode_utf8(word).len() == 4,
{
    reveal_strlit("AUTHINFO");
    reveal_strlit("AUTHINFO ");
    reveal_strlit("USER");
    reveal_strlit("PASS");
    reveal_strlit(" ");
    reveal_strlit("\r\n");
    lemma_ascii_bytes("AUTHINFO"@);
    lemma_ascii_bytes(word);
    let a = encode_utf8("AUTHINFO"@);
    let w = encode_utf8(word);
    assert forall|i: int| 0 <= i < a.len() implies !is_ascii_space(#[trigger] a[i]) by {
        assert(a[i] as int == "AUTHINFO"@[i] as int);
    }
    assert forall|i: int| 0 <= i < w.len() implies !is_ascii_space(#[trigger] w[i]) by {
        assert(w[i] as int == word[i] as int);
    }
    let front = a + seq![0x20u8] + w + seq![0x20u8];
    assert(ascii_chars(front) =~= head);
    assert forall|i: int| 0 <= i < front.len() implies #[trigger] front[i] < 0x80 by {
        assert(front[i] as char == head[i]);
    }
    let end = seq![0x0du8, 0x0a];
    assert(ascii_chars(end) =~= "\r\n"@);
    lemma_encode_ascii_front(end, Seq::empty());
    assert(ascii_chars(end) + Seq::<char>::empty() =~= "\r\n"@);
    assert(encode_utf8(Seq::<char>::empty()) =~= Seq::<u8>::empty());
    assert(encode_utf8("\r\n"@) =~= end);
    lemma_encode_concat(text, "\r\n"@);
    lemma_encode_ascii_front(front, text + "\r\n"@);
    assert(head + text + "\r\n"@ =~= head + (text + "\r\n"@));
    assert(front + (encode_utf8(text) + end) =~= a + seq![0x20u8] + (w + seq![0x20u8]
        + encode_utf8(text)) + end);
}

/// What is sent to a backend is a login with the name and the password: read as a
/// request it is one that asks for the password of the name, and one whose
/// password is checked.
pub proof fn law_login_commands(text: Seq<char>)
    requires
        0 < encode_utf8(text).len() <= 496,
        !is_ascii_space(encode_utf8(text)[0]),
        !is_ascii_space(encode_utf8(text)[encode_utf8(text).len() - 1]),
    ensures
        request_of(encode_utf8(user_command(text))) matches Some((kind, args)) && kind
            == RequestKind::AuthInfo && action_for(kind, args) == ActionModel::RequestPassword(
            text,
        ),
        request_of(encode_utf8(pass_command(text))) matches Some((kind, args)) && kind
            == RequestKind::AuthInfo && action_for(kind, args) == ActionModel::Validate(text),
{
    reveal_strlit("AUTHINFO ");
    reveal_strlit("AUTHINFO USER ");
    reveal_strlit("AUTHINFO PASS ");
    reveal_strlit("USER");
    reveal_strlit("PASS");
    reveal_strlit(" ");
    assert("AUTHINFO "@ + "USER"@ + " "@ =~= "AUTHINFO USER "@);
    assert("AUTHINFO "@ + "PASS"@ + " "@ =~= "AUTHINFO PASS "@);
    lemma_login_command("AUTHINFO USER "@, "USER"@, text);
    lemma_login_command("AUTHINFO PASS "@, "PASS"@, text);
    law_logins_are_intercepted("USER"@, text);
    law_logins_are_intercepted("PASS"@, text);
    assert(same_letters("USER"@, "USER"@));
    assert(same_letters("PASS"@, "PASS"@));
}

proof fn lemma_login_command(head: Seq<char>, word: Seq<char>, text: Seq<char>)
    requires
        word == "USER"@ || word == "PASS"@,
        head == "AUTHINFO "@ + word + " "@,
        0 < encode_utf8(text).len() <= 496,
        !is_ascii_space(encode_utf8(text)[0]),
        !is_ascii_space(encode_utf8(text)[encode_utf8(text).len() - 1]),
    ensures
        request_of(encode_utf8(head + text + "\r\n"@)) == Some(
            (RequestKind::AuthInfo, encode_utf8(word) + seq![0x20u8] + encode_utf8(text)),
        ),
        unspaced(encode_utf8(word)),
{
    lemma_login_bytes(head, word, text);
    let a = encode_utf8("AUTHINFO"@);
    let args = encode_utf8(word) + seq![0x20u8] + encode_utf8(text);
    assert(args[0] == encode_utf8(word)[0] && !is_ascii_space(encode_utf8(word)[0]));
    assert(args[args.len() - 1] == encode_utf8(text)[encode_utf8(text).len() - 1]);
    law_request_is_word_and_arguments(a, args);
    law_verbs("AUTHINFO"@);
    assert(same_letters("AUTHINFO"@, "AUTHINFO"@));
}

/// The words that precede what a backend said when a login to it failed.
pub proof fn law_words_for_failed_logins(e: BackendAuthError)
    ensures
        e.text() == (match e {
            BackendAuthError::Greeting => "Server returned non-success"@ + " greeting: "@,
            BackendAuthError::UnexpectedUserResponse => "Unexpected response to"@ + " AUTHINFO USER: "@,
            BackendAuthError::Failed => "Authentication failed:"@ + " "@,
        }),
{
    reveal_strlit("Server returned non-success greeting: ");
    reveal_strlit("Server returned non-success");
    reveal_strlit(" greeting: ");
    reveal_strlit("Unexpected response to AUTHINFO USER: ");
    reveal_strlit("Unexpected response to");
    reveal_strlit(" AUTHINFO USER: ");
    reveal_strlit("Authentication failed: ");
    reveal_strlit("Authentication failed:");
    reveal_strlit(" ");
}

} // verus!
