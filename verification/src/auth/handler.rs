//! Login of clients.
use crate::command::handler::AuthAction;
use crate::protocol::{auth_accepted, auth_failed, auth_required, starts_with_status};
use crate::text::{blank, str_eq};
use crate::types::{Password, Username, ValidationError};
use vstd::prelude::*;
use vstd::string::*;

verus! {

/// Name and password that a client must give.
pub struct Credentials {
    pub username: Username,
    pub password: Password,
}

impl Clone for Credentials {
    fn clone(&self) -> (r: Self)
        ensures
            r.username@ == self.username@,
            r.password@ == self.password@,
    {
        Credentials { username: self.username.clone(), password: self.password.clone() }
    }
}

impl Credentials {
    pub fn new(username: Username, password: Password) -> (r: Self)
        ensures
            r.username == username,
            r.password == password,
    {
        Credentials { username, password }
    }

    /// Are these the name and the password? Letter case counts.
    pub fn validate(&self, username: &str, password: &str) -> (r: bool)
        ensures
            r == (self.username@ == username@ && self.password@ == password@),
    {
        str_eq(self.username.as_str(), username) && str_eq(self.password.as_str(), password)
    }
}

/// Answers login commands of clients. Without credentials every login is
/// accepted.
pub struct AuthHandler {
    credentials: Option<Credentials>,
}

impl Default for AuthHandler {
    fn default() -> (r: Self)
        ensures
            r@ is None,
    {
        AuthHandler { credentials: None }
    }
}

impl View for AuthHandler {
    type V = Option<(Seq<char>, Seq<char>)>;

    closed spec fn view(&self) -> Option<(Seq<char>, Seq<char>)> {
        match self.credentials {
            Some(c) => Some((c.username@, c.password@)),
            None => None,
        }
    }
}

/// Does this login pass?
pub open spec fn accepts(wanted: Option<(Seq<char>, Seq<char>)>, username: Seq<char>, password: Seq<char>) -> bool {
    match wanted {
        Some((u, p)) => u == username && p == password,
        None => true,
    }
}

/// The text of an option, if there is any.
pub open spec fn text_of(s: Option<String>) -> Option<Seq<char>> {
    match s {
        Some(t) => Some(t@),
        None => None,
    }
}

/// The credentials that a configuration asks for, or what is wrong with them.
pub open spec fn wanted_of(username: Option<Seq<char>>, password: Option<Seq<char>>) -> Result<
    Option<(Seq<char>, Seq<char>)>,
    ValidationError,
> {
    if username is Some && blank(username->0) {
        Err(ValidationError::EmptyUsername)
    } else if password is Some && blank(password->0) {
        Err(ValidationError::EmptyPassword)
    } else if username is Some && password is Some {
        Ok(Some((username->0, password->0)))
    } else {
        Ok(None)
    }
}

/// What a login command is answered, and whether the client is logged in then.
pub open spec fn answer_of(
    wanted: Option<(Seq<char>, Seq<char>)>,
    action: AuthAction<'_>,
    stored_username: Option<Seq<char>>,
) -> (Seq<u8>, bool) {
    match action {
        AuthAction::RequestPassword(_) => ("381 Password required\r\n".spec_bytes(), false),
        AuthAction::ValidateAndRespond { password } => if stored_username is Some && accepts(
            wanted,
            stored_username->0,
            password@,
        ) {
            ("281 Authentication accepted\r\n".spec_bytes(), true)
        } else {
            ("481 Authentication failed\r\n".spec_bytes(), false)
        },
        AuthAction::UnknownSubcommand => ("501 Syntax error\r\n".spec_bytes(), false),
    }
}

/// What a login command is answered.
pub struct AuthReply {
    pub response: &'static [u8],
    /// Is the client logged in now?
    pub success: bool,
}

impl AuthHandler {
    /// A handler for these credentials. Login is off unless both are given; one
    /// that is given but blank is an error, so that a slip in a configuration
    /// does not switch login off.
    pub fn new(username: Option<String>, password: Option<String>) -> (r: Result<
        Self,
        ValidationError,
    >)
        ensures
            match wanted_of(text_of(username), text_of(password)) {
                Ok(wanted) => r is Ok && r->Ok_0@ == wanted,
                Err(e) => r == Err::<Self, ValidationError>(e),
            },
    {
        let username = match username {
            Some(u) => match Username::new(u) {
                Ok(x) => Some(x),
                Err(e) => {
                    return Err(e);
                },
            },
            None => None,
        };
        let password = match password {
            Some(p) => match Password::new(p) {
                Ok(x) => Some(x),
                Err(e) => {
                    return Err(e);
                },
            },
            None => None,
        };
        let credentials = match (username, password) {
            (Some(u), Some(p)) => Some(Credentials::new(u, p)),
            _ => None,
        };
        Ok(AuthHandler { credentials })
    }

    /// Must clients log in?
    pub fn is_enabled(&self) -> (r: bool)
        ensures
            r == (self@ is Some),
    {
        self.credentials.is_some()
    }

    /// Does this login pass?
    pub fn validate(&self, username: &str, password: &str) -> (r: bool)
        ensures
            r == accepts(self@, username@, password@),
    {
        match &self.credentials {
            None => true,
            Some(creds) => creds.validate(username, password),
        }
    }

    /// Answers a login command. A password counts for the name that came before
    /// it; without one no login passes.
    pub fn answer(&self, action: AuthAction<'_>, stored_username: Option<&str>) -> (r: AuthReply)
        ensures
            (r.response@, r.success) == answer_of(
                self@,
                action,
                match stored_username {
                    Some(name) => Some(name@),
                    None => None,
                },
            ),
    {
        match action {
            AuthAction::RequestPassword(_) => AuthReply {
                response: auth_required(),
                success: false,
            },
            AuthAction::ValidateAndRespond { password } => {
                let success = match stored_username {
                    Some(username) => self.validate(username, password),
                    None => false,
                };
                AuthReply {
                    response: if success {
                        auth_accepted()
                    } else {
                        auth_failed()
                    },
                    success,
                }
            },
            AuthAction::UnknownSubcommand => AuthReply {
                response: "501 Syntax error\r\n".as_bytes(),
                success: false,
            },
        }
    }

    pub fn user_response(&self) -> (r: &'static [u8])
        ensures
            r@ == "381 Password required\r\n".spec_bytes(),
    {
        auth_required()
    }

    pub fn pass_response(&self) -> (r: &'static [u8])
        ensures
            r@ == "281 Authentication accepted\r\n".spec_bytes(),
    {
        auth_accepted()
    }
}

/// With credentials, exactly the login with both of them passes.
pub proof fn law_only_the_credentials_pass(
    wanted: (Seq<char>, Seq<char>),
    username: Seq<char>,
    password: Seq<char>,
)
    ensures
        accepts(Some(wanted), username, password) <==> username == wanted.0 && password
            == wanted.1,
{
}

/// A name is answered with 381 and logs nobody in. A password is answered with 281
/// where it logs the client in, which it does where a name came before it and both
/// are the ones that are asked for, or none are; else with 481. Anything else is
/// answered with 501.
pub proof fn law_login_answers(
    wanted: Option<(Seq<char>, Seq<char>)>,
    action: AuthAction<'_>,
    name: Option<Seq<char>>,
)
    ensures
        ({
            let (response, success) = answer_of(wanted, action, name);
            match action {
                AuthAction::RequestPassword(_) => !success && starts_with_status(response, 381),
                AuthAction::ValidateAndRespond { password } => {
                    &&& success ==> starts_with_status(response, 281)
                    &&& !success ==> starts_with_status(response, 481)
                    &&& name is None ==> !success
                    &&& name is Some && wanted is None ==> success
                    &&& name is Some && wanted is Some ==> success == ((
                        name->0,
                        password@,
                    ) == wanted->0)
                },
                AuthAction::UnknownSubcommand => !success && starts_with_status(response, 501),
            }
        }),
{
    reveal_strlit("381 Password required\r\n");
    reveal_strlit("281 Authentication accepted\r\n");
    reveal_strlit("481 Authentication failed\r\n");
    reveal_strlit("501 Syntax error\r\n");
    crate::text::lemma_ascii_bytes("381 Password required\r\n"@);
    crate::text::lemma_ascii_bytes("281 Authentication accepted\r\n"@);
    crate::text::lemma_ascii_bytes("481 Authentication failed\r\n"@);
    crate::text::lemma_ascii_bytes("501 Syntax error\r\n"@);
}

/// Login is on exactly where a name and a password are given. One that is given
/// but blank is never taken for one that is not given.
pub proof fn law_blank_credentials_are_refused(
    username: Option<Seq<char>>,
    password: Option<Seq<char>>,
)
    ensures
        ({
            let wanted = wanted_of(username, password);
            let bad = (username is Some && blank(username->0)) || (password is Some && blank(
                password->0,
            ));
            &&& bad <==> wanted is Err
            &&& username is Some && blank(username->0) ==> wanted->Err_0
                == ValidationError::EmptyUsername
            &&& !bad ==> (wanted->Ok_0 is Some <==> username is Some && password is Some)
            &&& !bad && username is Some && password is Some ==> wanted->Ok_0->0 == (
                username->0,
                password->0,
            )
        }),
{
}

} // verus!
