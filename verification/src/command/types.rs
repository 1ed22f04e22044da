//! Commands and what is decided about them.
use vstd::prelude::*;

verus! {

/// A command with its class.
#[derive(Debug, PartialEq)]
pub struct Command {
    pub command_type: CommandType,
    pub raw: String,
}

impl Clone for Command {
    fn clone(&self) -> (r: Self)
        ensures
            r.raw@ == self.raw@,
            r.command_type@ == self.command_type@,
    {
        Command { command_type: self.command_type.clone(), raw: self.raw.clone() }
    }
}

/// Class of a command, for routing.
#[derive(Debug, PartialEq)]
pub enum CommandType {
    AuthUser(String),
    AuthPass(String),
    /// Needs the state of a selected group.
    Stateful,
    /// Cannot share a connection.
    NonMultiplexable,
    Stateless,
    ArticleByMessageId,
}

/// A class as contracts speak of it.
pub enum CommandTypeModel {
    AuthUser(Seq<char>),
    AuthPass(Seq<char>),
    Stateful,
    NonMultiplexable,
    Stateless,
    ArticleByMessageId,
}

impl View for CommandType {
    type V = CommandTypeModel;

    open spec fn view(&self) -> CommandTypeModel {
        match self {
            CommandType::AuthUser(u) => CommandTypeModel::AuthUser(u@),
            CommandType::AuthPass(p) => CommandTypeModel::AuthPass(p@),
            CommandType::Stateful => CommandTypeModel::Stateful,
            CommandType::NonMultiplexable => CommandTypeModel::NonMultiplexable,
            CommandType::Stateless => CommandTypeModel::Stateless,
            CommandType::ArticleByMessageId => CommandTypeModel::ArticleByMessageId,
        }
    }
}

impl Clone for CommandType {
    fn clone(&self) -> (r: Self)
        ensures
            r@ == self@,
    {
        match self {
            CommandType::AuthUser(u) => CommandType::AuthUser(u.clone()),
            CommandType::AuthPass(p) => CommandType::AuthPass(p.clone()),
            CommandType::Stateful => CommandType::Stateful,
            CommandType::NonMultiplexable => CommandType::NonMultiplexable,
            CommandType::Stateless => CommandType::Stateless,
            CommandType::ArticleByMessageId => CommandType::ArticleByMessageId,
        }
    }
}

/// What becomes of a command.
#[derive(Clone, Copy, Debug, PartialEq)]
pub enum ValidationResult {
    Allowed,
    Rejected(&'static str),
    /// The proxy answers it.
    Intercepted,
}

} // verus!
