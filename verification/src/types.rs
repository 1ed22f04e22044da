//! Validated values used across the proxy: backend numbers, message
//! identifiers, names, ports, limits and durations.
use crate::text::{blank, concat3, is_blank, string_of};
use vstd::prelude::*;
use vstd::string::*;

verus! {

/// Why a value was refused.
#[derive(Clone, Copy, Debug, PartialEq, Eq, Structural)]
pub enum ValidationError {
    EmptyHostName,
    EmptyServerName,
    EmptyUsername,
    EmptyPassword,
    EmptyConfigPath,
    InvalidPort,
    InvalidMaxConnections,
    InvalidMaxErrors,
    InvalidCacheCapacity,
    InvalidThreadCount,
    InvalidMessageId,
}

impl ValidationError {
    /// Human-readable text of the refusal.
    pub open spec fn text(self) -> Seq<char> {
        match self {
            ValidationError::EmptyHostName => "hostname cannot be empty or whitespace"@,
            ValidationError::EmptyServerName => "server name cannot be empty or whitespace"@,
            ValidationError::EmptyUsername => "username cannot be empty or whitespace"@,
            ValidationError::EmptyPassword => "password cannot be empty or whitespace"@,
            ValidationError::EmptyConfigPath => "config path cannot be empty or whitespace"@,
            ValidationError::InvalidPort => "port cannot be 0"@,
            ValidationError::InvalidMaxConnections => "max_connections cannot be 0"@,
            ValidationError::InvalidMaxErrors => "max_errors cannot be 0"@,
            ValidationError::InvalidCacheCapacity => "cache capacity cannot be 0"@,
            ValidationError::InvalidThreadCount => "thread count cannot be 0"@,
            ValidationError::InvalidMessageId => "message id must be enclosed in angle brackets"@,
        }
    }

    pub fn message(&self) -> (r: &'static str)
        ensures
            r@ == self.text(),
    {
        match self {
            ValidationError::EmptyHostName => "hostname cannot be empty or whitespace",
            ValidationError::EmptyServerName => "server name cannot be empty or whitespace",
            ValidationError::EmptyUsername => "username cannot be empty or whitespace",
            ValidationError::EmptyPassword => "password cannot be empty or whitespace",
            ValidationError::EmptyConfigPath => "config path cannot be empty or whitespace",
            ValidationError::InvalidPort => "port cannot be 0",
            ValidationError::InvalidMaxConnections => "max_connections cannot be 0",
            ValidationError::InvalidMaxErrors => "max_errors cannot be 0",
            ValidationError::InvalidCacheCapacity => "cache capacity cannot be 0",
            ValidationError::InvalidThreadCount => "thread count cannot be 0",
            ValidationError::InvalidMessageId => "message id must be enclosed in angle brackets",
        }
    }
}

// ---------------------------------------------------------------------------
// Backends
// ---------------------------------------------------------------------------

/// Number of backends that an availability bitmap has room for.
pub open spec fn max_backends() -> nat {
    usize::BITS as nat
}

/// Position of one backend server in the configured list.
#[derive(Clone, Copy, Debug, PartialEq, Eq, Structural)]
pub struct BackendId {
    index: usize,
}

impl View for BackendId {
    type V = nat;

    closed spec fn view(&self) -> nat {
        self.index as nat
    }
}

impl BackendId {
    #[verifier::type_invariant]
    spec fn valid(self) -> bool {
        self.index < usize::BITS
    }

    /// The largest number of backends that the availability bitmap holds.
    pub fn max_count() -> (r: usize)
        ensures
            r == max_backends(),
    {
        usize::BITS as usize
    }

    pub fn from_index(index: usize) -> (r: Self)
        requires
            index < max_backends(),
        ensures
            r@ == index,
    {
        BackendId { index }
    }

    /// The backend at `index`, if the availability bitmap has a bit for it.
    pub fn try_from_index(index: usize) -> (r: Option<Self>)
        ensures
            match r {
                Some(id) => index < max_backends() && id@ == index,
                None => index >= max_backends(),
            },
    {
        if index < usize::BITS as usize {
            Some(BackendId { index })
        } else {
            None
        }
    }

    pub fn as_index(self) -> (r: usize)
        ensures
            r == self@,
            r < max_backends(),
    {
        proof {
            use_type_invariant(&self);
        }
        self.index
    }

    /// The bit that stands for this backend in an availability bitmap.
    pub fn availability_bit(self) -> (r: usize)
        ensures
            r == 1usize << (self@ as usize),
            self@ < max_backends(),
    {
        proof {
            use_type_invariant(&self);
        }
        1usize << self.index
    }
}

/// Number of configured backends.
#[derive(Clone, Copy, Debug, PartialEq, Eq, Structural)]
pub struct BackendCount {
    count: usize,
}

impl View for BackendCount {
    type V = nat;

    closed spec fn view(&self) -> nat {
        self.count as nat
    }
}

impl BackendCount {
    #[verifier::type_invariant]
    spec fn valid(self) -> bool {
        self.count <= usize::BITS
    }

    pub fn new(count: usize) -> (r: Self)
        requires
            count <= max_backends(),
        ensures
            r@ == count,
    {
        BackendCount { count }
    }

    pub fn try_new(count: usize) -> (r: Option<Self>)
        ensures
            match r {
                Some(c) => count <= max_backends() && c@ == count,
                None => count > max_backends(),
            },
    {
        if count <= usize::BITS as usize {
            Some(BackendCount { count })
        } else {
            None
        }
    }

    pub fn get(self) -> (r: usize)
        ensures
            r == self@,
            r <= max_backends(),
    {
        proof {
            use_type_invariant(&self);
        }
        self.count
    }
}

// ---------------------------------------------------------------------------
// Message identifiers
// ---------------------------------------------------------------------------

/// Text between angle brackets, the brackets included.
pub open spec fn bracketed(s: Seq<char>) -> bool {
    s.len() >= 2 && s[0] == '<' && s[s.len() - 1] == '>'
}

/// A message identifier such as `<part1@example.com>`.
#[derive(Debug, PartialEq, Eq)]
pub struct MessageId {
    id: String,
}

impl View for MessageId {
    type V = Seq<char>;

    closed spec fn view(&self) -> Seq<char> {
        self.id@
    }
}

impl MessageId {
    #[verifier::type_invariant]
    spec fn valid(self) -> bool {
        bracketed(self.id@)
    }

    /// The identifier without its angle brackets, the key of every cache.
    pub open spec fn key(&self) -> Seq<char> {
        self@.subrange(1, self@.len() - 1)
    }

    pub fn new(id: String) -> (r: Result<Self, ValidationError>)
        ensures
            match r {
                Ok(m) => bracketed(id@) && m@ == id@,
                Err(e) => !bracketed(id@) && e == ValidationError::InvalidMessageId,
            },
    {
        let n = id.as_str().unicode_len();
        if n >= 2 && id.as_str().get_char(0) == '<' && id.as_str().get_char(n - 1) == '>' {
            Ok(MessageId { id })
        } else {
            Err(ValidationError::InvalidMessageId)
        }
    }

    pub fn from_borrowed(id: &str) -> (r: Result<Self, ValidationError>)
        ensures
            match r {
                Ok(m) => bracketed(id@) && m@ == id@,
                Err(e) => !bracketed(id@) && e == ValidationError::InvalidMessageId,
            },
    {
        MessageId::new(string_of(id))
    }

    /// Takes an identifier as it stands, or puts angle brackets around text
    /// that has none.
    pub fn from_str_or_wrap(id: &str) -> (r: Self)
        ensures
            r@ == if bracketed(id@) {
                id@
            } else {
                "<"@ + id@ + ">"@
            },
    {
        match MessageId::from_borrowed(id) {
            Ok(m) => m,
            Err(_) => {
                let text = concat3("<", id, ">");
                proof {
                    reveal_strlit("<");
                    reveal_strlit(">");
                    assert(text@[0] == '<');
                    assert(text@[text@.len() - 1] == '>');
                }
                MessageId { id: text }
            },
        }
    }

    pub fn as_str(&self) -> (r: &str)
        ensures
            r@ == self@,
            bracketed(r@),
    {
        proof {
            use_type_invariant(self);
        }
        self.id.as_str()
    }

    pub fn without_brackets(&self) -> (r: &str)
        ensures
            bracketed(self@),
            r@ == self.key(),
    {
        proof {
            use_type_invariant(self);
        }
        let n = self.id.as_str().unicode_len();
        self.id.as_str().substring_char(1, n - 1)
    }
}

impl Clone for MessageId {
    fn clone(&self) -> (r: Self)
        ensures
            r@ == self@,
    {
        proof {
            use_type_invariant(self);
        }
        MessageId { id: self.id.clone() }
    }
}

// ---------------------------------------------------------------------------
// Names
// ---------------------------------------------------------------------------

/// Host name or address of a server. Never empty or white space throughout.
#[derive(Debug, PartialEq, Eq)]
pub struct HostName {
    text: String,
}

impl View for HostName {
    type V = Seq<char>;

    closed spec fn view(&self) -> Seq<char> {
        self.text@
    }
}

impl HostName {
    #[verifier::type_invariant]
    spec fn valid(self) -> bool {
        !blank(self.text@)
    }

    pub fn new(text: String) -> (r: Result<Self, ValidationError>)
        ensures
            match r {
                Ok(v) => !blank(text@) && v@ == text@,
                Err(e) => blank(text@) && e == ValidationError::EmptyHostName,
            },
    {
        if is_blank(text.as_str()) {
            Err(ValidationError::EmptyHostName)
        } else {
            Ok(HostName { text })
        }
    }

    pub fn as_str(&self) -> (r: &str)
        ensures
            r@ == self@,
            !blank(r@),
    {
        proof {
            use_type_invariant(self);
        }
        self.text.as_str()
    }
}

impl Clone for HostName {
    fn clone(&self) -> (r: Self)
        ensures
            r@ == self@,
    {
        proof {
            use_type_invariant(self);
        }
        HostName { text: self.text.clone() }
    }
}

/// Name of a server for people to read. Never empty or white space throughout.
#[derive(Debug, PartialEq, Eq)]
pub struct ServerName {
    text: String,
}

impl View for ServerName {
    type V = Seq<char>;

    closed spec fn view(&self) -> Seq<char> {
        self.text@
    }
}

impl ServerName {
    #[verifier::type_invariant]
    spec fn valid(self) -> bool {
        !blank(self.text@)
    }

    pub fn new(text: String) -> (r: Result<Self, ValidationError>)
        ensures
            match r {
                Ok(v) => !blank(text@) && v@ == text@,
                Err(e) => blank(text@) && e == ValidationError::EmptyServerName,
            },
    {
        if is_blank(text.as_str()) {
            Err(ValidationError::EmptyServerName)
        } else {
            Ok(ServerName { text })
        }
    }

    pub fn as_str(&self) -> (r: &str)
        ensures
            r@ == self@,
            !blank(r@),
    {
        proof {
            use_type_invariant(self);
        }
        self.text.as_str()
    }
}

impl Clone for ServerName {
    fn clone(&self) -> (r: Self)
        ensures
            r@ == self@,
    {
        proof {
            use_type_invariant(self);
        }
        ServerName { text: self.text.clone() }
    }
}

/// User name of an account. Never empty or white space throughout.
#[derive(Debug, PartialEq, Eq)]
pub struct Username {
    text: String,
}

impl View for Username {
    type V = Seq<char>;

    closed spec fn view(&self) -> Seq<char> {
        self.text@
    }
}

impl Username {
    #[verifier::type_invariant]
    spec fn valid(self) -> bool {
        !blank(self.text@)
    }

    pub fn new(text: String) -> (r: Result<Self, ValidationError>)
        ensures
            match r {
                Ok(v) => !blank(text@) && v@ == text@,
                Err(e) => blank(text@) && e == ValidationError::EmptyUsername,
            },
    {
        if is_blank(text.as_str()) {
            Err(ValidationError::EmptyUsername)
        } else {
            Ok(Username { text })
        }
    }

    pub fn as_str(&self) -> (r: &str)
        ensures
            r@ == self@,
            !blank(r@),
    {
        proof {
            use_type_invariant(self);
        }
        self.text.as_str()
    }
}

impl Clone for Username {
    fn clone(&self) -> (r: Self)
        ensures
            r@ == self@,
    {
        proof {
            use_type_invariant(self);
        }
        Username { text: self.text.clone() }
    }
}

/// Password of an account. Never empty or white space throughout.
#[derive(Debug, PartialEq, Eq)]
pub struct Password {
    text: String,
}

impl View for Password {
    type V = Seq<char>;

    closed spec fn view(&self) -> Seq<char> {
        self.text@
    }
}

impl Password {
    #[verifier::type_invariant]
    spec fn valid(self) -> bool {
        !blank(self.text@)
    }

    pub fn new(text: String) -> (r: Result<Self, ValidationError>)
        ensures
            match r {
                Ok(v) => !blank(text@) && v@ == text@,
                Err(e) => blank(text@) && e == ValidationError::EmptyPassword,
            },
    {
        if is_blank(text.as_str()) {
            Err(ValidationError::EmptyPassword)
        } else {
            Ok(Password { text })
        }
    }

    pub fn as_str(&self) -> (r: &str)
        ensures
            r@ == self@,
            !blank(r@),
    {
        proof {
            use_type_invariant(self);
        }
        self.text.as_str()
    }
}

impl Clone for Password {
    fn clone(&self) -> (r: Self)
        ensures
            r@ == self@,
    {
        proof {
            use_type_invariant(self);
        }
        Password { text: self.text.clone() }
    }
}

/// Path of the configuration file. Never empty or white space throughout.
#[derive(Debug, PartialEq, Eq)]
pub struct ConfigPath {
    text: String,
}

impl View for ConfigPath {
    type V = Seq<char>;

    closed spec fn view(&self) -> Seq<char> {
        self.text@
    }
}

impl ConfigPath {
    #[verifier::type_invariant]
    spec fn valid(self) -> bool {
        !blank(self.text@)
    }

    pub fn new(text: String) -> (r: Result<Self, ValidationError>)
        ensures
            match r {
                Ok(v) => !blank(text@) && v@ == text@,
                Err(e) => blank(text@) && e == ValidationError::EmptyConfigPath,
            },
    {
        if is_blank(text.as_str()) {
            Err(ValidationError::EmptyConfigPath)
        } else {
            Ok(ConfigPath { text })
        }
    }

    pub fn as_str(&self) -> (r: &str)
        ensures
            r@ == self@,
            !blank(r@),
    {
        proof {
            use_type_invariant(self);
        }
        self.text.as_str()
    }
}

impl Clone for ConfigPath {
    fn clone(&self) -> (r: Self)
        ensures
            r@ == self@,
    {
        proof {
            use_type_invariant(self);
        }
        ConfigPath { text: self.text.clone() }
    }
}

// ---------------------------------------------------------------------------
// Numbers
// ---------------------------------------------------------------------------

/// A TCP port. Never zero.
#[derive(Clone, Copy, Debug, PartialEq, Eq, Structural)]
pub struct Port {
    value: u16,
}

impl View for Port {
    type V = nat;

    closed spec fn view(&self) -> nat {
        self.value as nat
    }
}

impl Port {
    #[verifier::type_invariant]
    spec fn valid(self) -> bool {
        self.value != 0
    }

    pub fn new(value: u16) -> (r: Option<Self>)
        ensures
            match r {
                Some(v) => value != 0 && v@ == value,
                None => value == 0,
            },
    {
        if value == 0 {
            None
        } else {
            Some(Port { value })
        }
    }

    pub fn try_new(value: u16) -> (r: Result<Self, ValidationError>)
        ensures
            match r {
                Ok(v) => value != 0 && v@ == value,
                Err(e) => value == 0 && e == ValidationError::InvalidPort,
            },
    {
        if value == 0 {
            Err(ValidationError::InvalidPort)
        } else {
            Ok(Port { value })
        }
    }

    pub fn get(self) -> (r: u16)
        ensures
            r == self@,
            r != 0,
    {
        proof {
            use_type_invariant(&self);
        }
        self.value
    }
}

impl Default for Port {
    fn default() -> (r: Self)
        ensures
            r@ == 8119,
    {
        Port { value: 8119 }
    }
}

/// Limit on the connections to one server. Never zero.
#[derive(Clone, Copy, Debug, PartialEq, Eq, Structural)]
pub struct MaxConnections {
    value: usize,
}

impl View for MaxConnections {
    type V = nat;

    closed spec fn view(&self) -> nat {
        self.value as nat
    }
}

impl MaxConnections {
    #[verifier::type_invariant]
    spec fn valid(self) -> bool {
        self.value != 0
    }

    pub fn new(value: usize) -> (r: Option<Self>)
        ensures
            match r {
                Some(v) => value != 0 && v@ == value,
                None => value == 0,
            },
    {
        if value == 0 {
            None
        } else {
            Some(MaxConnections { value })
        }
    }

    pub fn try_new(value: usize) -> (r: Result<Self, ValidationError>)
        ensures
            match r {
                Ok(v) => value != 0 && v@ == value,
                Err(e) => value == 0 && e == ValidationError::InvalidMaxConnections,
            },
    {
        if value == 0 {
            Err(ValidationError::InvalidMaxConnections)
        } else {
            Ok(MaxConnections { value })
        }
    }

    pub fn get(self) -> (r: usize)
        ensures
            r == self@,
            r != 0,
    {
        proof {
            use_type_invariant(&self);
        }
        self.value
    }
}

/// Consecutive failures after which a server counts as unhealthy. Never zero.
#[derive(Clone, Copy, Debug, PartialEq, Eq, Structural)]
pub struct MaxErrors {
    value: u32,
}

impl View for MaxErrors {
    type V = nat;

    closed spec fn view(&self) -> nat {
        self.value as nat
    }
}

impl MaxErrors {
    #[verifier::type_invariant]
    spec fn valid(self) -> bool {
        self.value != 0
    }

    pub fn new(value: u32) -> (r: Option<Self>)
        ensures
            match r {
                Some(v) => value != 0 && v@ == value,
                None => value == 0,
            },
    {
        if value == 0 {
            None
        } else {
            Some(MaxErrors { value })
        }
    }

    pub fn try_new(value: u32) -> (r: Result<Self, ValidationError>)
        ensures
            match r {
                Ok(v) => value != 0 && v@ == value,
                Err(e) => value == 0 && e == ValidationError::InvalidMaxErrors,
            },
    {
        if value == 0 {
            Err(ValidationError::InvalidMaxErrors)
        } else {
            Ok(MaxErrors { value })
        }
    }

    pub fn get(self) -> (r: u32)
        ensures
            r == self@,
            r != 0,
    {
        proof {
            use_type_invariant(&self);
        }
        self.value
    }
}

/// Capacity of a cache. Never zero.
#[derive(Clone, Copy, Debug, PartialEq, Eq, Structural)]
pub struct CacheCapacity {
    value: u64,
}

impl View for CacheCapacity {
    type V = nat;

    closed spec fn view(&self) -> nat {
        self.value as nat
    }
}

impl CacheCapacity {
    #[verifier::type_invariant]
    spec fn valid(self) -> bool {
        self.value != 0
    }

    pub fn new(value: u64) -> (r: Option<Self>)
        ensures
            match r {
                Some(v) => value != 0 && v@ == value,
                None => value == 0,
            },
    {
        if value == 0 {
            None
        } else {
            Some(CacheCapacity { value })
        }
    }

    pub fn try_new(value: u64) -> (r: Result<Self, ValidationError>)
        ensures
            match r {
                Ok(v) => value != 0 && v@ == value,
                Err(e) => value == 0 && e == ValidationError::InvalidCacheCapacity,
            },
    {
        if value == 0 {
            Err(ValidationError::InvalidCacheCapacity)
        } else {
            Ok(CacheCapacity { value })
        }
    }

    pub fn get(self) -> (r: u64)
        ensures
            r == self@,
            r != 0,
    {
        proof {
            use_type_invariant(&self);
        }
        self.value
    }
}

/// Number of worker threads. Never zero.
#[derive(Clone, Copy, Debug, PartialEq, Eq, Structural)]
pub struct ThreadCount {
    value: usize,
}

impl View for ThreadCount {
    type V = nat;

    closed spec fn view(&self) -> nat {
        self.value as nat
    }
}

impl ThreadCount {
    #[verifier::type_invariant]
    spec fn valid(self) -> bool {
        self.value != 0
    }

    pub fn new(value: usize) -> (r: Option<Self>)
        ensures
            match r {
                Some(v) => value != 0 && v@ == value,
                None => value == 0,
            },
    {
        if value == 0 {
            None
        } else {
            Some(ThreadCount { value })
        }
    }

    pub fn try_new(value: usize) -> (r: Result<Self, ValidationError>)
        ensures
            match r {
                Ok(v) => value != 0 && v@ == value,
                Err(e) => value == 0 && e == ValidationError::InvalidThreadCount,
            },
    {
        if value == 0 {
            Err(ValidationError::InvalidThreadCount)
        } else {
            Ok(ThreadCount { value })
        }
    }

    pub fn get(self) -> (r: usize)
        ensures
            r == self@,
            r != 0,
    {
        proof {
            use_type_invariant(&self);
        }
        self.value
    }
}

impl Default for ThreadCount {
    fn default() -> (r: Self)
        ensures
            r@ == 1,
    {
        ThreadCount { value: 1 }
    }
}

// ---------------------------------------------------------------------------
// Durations
// ---------------------------------------------------------------------------

/// A span of time in nanosecond steps.
#[derive(Clone, Copy, Debug, PartialEq, Eq, Structural)]
pub struct Duration {
    secs: u64,
    nanos: u32,
}

impl View for Duration {
    type V = nat;

    /// The span in nanoseconds.
    closed spec fn view(&self) -> nat {
        (self.secs * 1_000_000_000 + self.nanos) as nat
    }
}

/// The longest span, in nanoseconds.
pub open spec fn duration_max() -> nat {
    (u64::MAX * 1_000_000_000 + 999_999_999) as nat
}

impl Duration {
    #[verifier::type_invariant]
    spec fn valid(self) -> bool {
        self.nanos < 1_000_000_000
    }

    /// The longest span that can be held.
    pub fn max_value() -> (r: Self)
        ensures
            r@ == duration_max(),
    {
        Duration { secs: u64::MAX, nanos: 999_999_999 }
    }

    pub fn from_secs(secs: u64) -> (r: Self)
        ensures
            r@ == secs * 1_000_000_000,
    {
        Duration { secs, nanos: 0 }
    }

    pub fn from_millis(millis: u64) -> (r: Self)
        ensures
            r@ == millis * 1_000_000,
    {
        let nanos: u32 = ((millis % 1000) * 1_000_000) as u32;
        Duration { secs: millis / 1000, nanos }
    }

    /// Whole seconds of the span.
    pub fn as_secs(self) -> (r: u64)
        ensures
            r == self@ / 1_000_000_000,
    {
        proof {
            use_type_invariant(&self);
        }
        self.secs
    }

    /// Nanoseconds past the whole seconds.
    pub fn subsec_nanos(self) -> (r: u32)
        ensures
            r == self@ % 1_000_000_000,
    {
        proof {
            use_type_invariant(&self);
        }
        self.nanos
    }

    /// Whole milliseconds of the span.
    pub fn as_millis(self) -> (r: u128)
        ensures
            r == self@ / 1_000_000,
    {
        proof {
            use_type_invariant(&self);
        }
        self.secs as u128 * 1000 + (self.nanos / 1_000_000) as u128
    }

    /// Is this span shorter than `other`?
    pub fn shorter_than(self, other: Duration) -> (r: bool)
        ensures
            r == (self@ < other@),
    {
        proof {
            use_type_invariant(&self);
            use_type_invariant(&other);
        }
        self.secs < other.secs || (self.secs == other.secs && self.nanos < other.nanos)
    }
}

/// A message identifier is any text between angle brackets, the empty text too,
/// and its key is the text between them.
pub proof fn law_identifiers(text: Seq<char>, id: MessageId)
    ensures
        bracketed(seq!['<'] + text + seq!['>']),
        bracketed(text) ==> text == seq!['<'] + text.subrange(1, text.len() - 1) + seq!['>'],
        text.len() < 2 ==> !bracketed(text),
        id@ == seq!['<'] + text + seq!['>'] ==> id.key() == text,
{
    let whole = seq!['<'] + text + seq!['>'];
    assert(whole[0] == '<' && whole[whole.len() - 1] == '>');
    assert(whole.subrange(1, whole.len() - 1) =~= text);
    if bracketed(text) {
        assert(text =~= seq!['<'] + text.subrange(1, text.len() - 1) + seq!['>']);
    }
}

/// There is room for one backend for each bit of a machine word.
pub proof fn law_a_bit_for_each_backend()
    ensures
        usize::MAX == 0xffff_ffff ==> max_backends() == 32,
        usize::MAX == 0xffff_ffff_ffff_ffff ==> max_backends() == 64,
        max_backends() == 32 || max_backends() == 64,
{
}

/// The refusal of an empty name or of a zero names the rule that was broken.
pub proof fn law_refusals_name_the_rule(e: ValidationError)
    ensures
        ({
            let rule = match e {
                ValidationError::EmptyHostName | ValidationError::EmptyServerName
                | ValidationError::EmptyUsername | ValidationError::EmptyPassword
                | ValidationError::EmptyConfigPath => " cannot be empty or whitespace"@,
                ValidationError::InvalidMessageId => " must be enclosed in angle brackets"@,
                _ => " cannot be 0"@,
            };
            let subject = match e {
                ValidationError::EmptyHostName => "hostname"@,
                ValidationError::EmptyServerName => "server name"@,
                ValidationError::EmptyUsername => "username"@,
                ValidationError::EmptyPassword => "password"@,
                ValidationError::EmptyConfigPath => "config path"@,
                ValidationError::InvalidPort => "port"@,
                ValidationError::InvalidMaxConnections => "max_connections"@,
                ValidationError::InvalidMaxErrors => "max_errors"@,
                ValidationError::InvalidCacheCapacity => "cache capacity"@,
                ValidationError::InvalidThreadCount => "thread count"@,
                ValidationError::InvalidMessageId => "message id"@,
            };
            e.text() == subject + rule
        }),
{
    reveal_strlit(" cannot be empty or whitespace");
    reveal_strlit(" must be enclosed in angle brackets");
    reveal_strlit(" cannot be 0");
    reveal_strlit("hostname");
    reveal_strlit("server name");
    reveal_strlit("username");
    reveal_strlit("password");
    reveal_strlit("config path");
    reveal_strlit("port");
    reveal_strlit("max_connections");
    reveal_strlit("max_errors");
    reveal_strlit("cache capacity");
    reveal_strlit("thread count");
    reveal_strlit("message id");
    reveal_strlit("hostname cannot be empty or whitespace");
    reveal_strlit("server name cannot be empty or whitespace");
    reveal_strlit("username cannot be empty or whitespace");
    reveal_strlit("password cannot be empty or whitespace");
    reveal_strlit("config path cannot be empty or whitespace");
    reveal_strlit("port cannot be 0");
    reveal_strlit("max_connections cannot be 0");
    reveal_strlit("max_errors cannot be 0");
    reveal_strlit("cache capacity cannot be 0");
    reveal_strlit("thread count cannot be 0");
    reveal_strlit("message id must be enclosed in angle brackets");
}

} // verus!
