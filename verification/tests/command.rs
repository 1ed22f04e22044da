//! Commands: their classes, their lines and what is done with them.
use nntp_proxy::command::classifier::NntpCommand;
use nntp_proxy::command::handler::{AuthAction, CommandAction, CommandHandler, RejectResponse};
use nntp_proxy::command::types::{Command, CommandType, ValidationResult};
use nntp_proxy::command::validation::{
    CommandLineError, ValidatedCommandLine, MAX_COMMAND_LINE_OCTETS,
};
use nntp_proxy::protocol::{RequestContext, RequestKind, RequestRouteClass};

fn stateless_mode_reject() -> RejectResponse {
    RejectResponse::new(503, "503 Feature not supported in stateless proxy mode\r\n")
}

fn classify(command: &str) -> CommandAction<'static> {
    RequestContext::parse(command.as_bytes()).map_or(
        CommandAction::Reject(stateless_mode_reject()),
        |request| CommandHandler::classify_request(Box::leak(Box::new(request))),
    )
}

#[test]
fn test_command_creation() {
    let cmd = Command {
        command_type: CommandType::Stateless,
        raw: "LIST\r\n".to_string(),
    };
    assert_eq!(cmd.raw, "LIST\r\n");
}

#[test]
fn test_command_type_equality() {
    let auth_user1 = CommandType::AuthUser("user1".to_string());
    let auth_user2 = CommandType::AuthUser("user1".to_string());
    let auth_user3 = CommandType::AuthUser("user2".to_string());

    assert_eq!(auth_user1, auth_user2);
    assert_ne!(auth_user1, auth_user3);
}

#[test]
fn test_command_type_auth_user() {
    let cmd_type = CommandType::AuthUser("testuser".to_string());
    match cmd_type {
        CommandType::AuthUser(username) => {
            assert_eq!(username, "testuser");
        }
        _ => panic!("Expected AuthUser variant"),
    }
}

#[test]
fn test_command_type_auth_pass() {
    let cmd_type = CommandType::AuthPass("secret".to_string());
    match cmd_type {
        CommandType::AuthPass(password) => {
            assert_eq!(password, "secret");
        }
        _ => panic!("Expected AuthPass variant"),
    }
}

#[test]
fn test_command_type_variants() {
    let stateful = CommandType::Stateful;
    let stateless = CommandType::Stateless;
    let article = CommandType::ArticleByMessageId;

    assert_ne!(stateful, stateless);
    assert_ne!(stateless, article);
    assert_ne!(stateful, article);
}

#[test]
fn test_validation_result_allowed() {
    let result = ValidationResult::Allowed;
    assert_eq!(result, ValidationResult::Allowed);
}

#[test]
fn test_validation_result_rejected() {
    let result = ValidationResult::Rejected("Command not allowed");
    match result {
        ValidationResult::Rejected(msg) => {
            assert_eq!(msg, "Command not allowed");
        }
        _ => panic!("Expected Rejected variant"),
    }
}

#[test]
fn test_validation_result_intercepted() {
    let result = ValidationResult::Intercepted;
    assert_eq!(result, ValidationResult::Intercepted);
}

#[test]
fn test_command_clone() {
    let cmd1 = Command {
        command_type: CommandType::Stateless,
        raw: "CAPABILITIES\r\n".to_string(),
    };
    let cmd2 = cmd1.clone();

    assert_eq!(cmd1, cmd2);
    assert_eq!(cmd1.raw, cmd2.raw);
}

#[test]
fn test_command_type_debug() {
    let cmd_type = CommandType::AuthUser("user".to_string());
    let debug_str = format!("{:?}", cmd_type);
    assert!(debug_str.contains("AuthUser"));
    assert!(debug_str.contains("user"));
}

#[test]
fn test_validation_result_equality() {
    assert_eq!(ValidationResult::Allowed, ValidationResult::Allowed);
    assert_eq!(ValidationResult::Intercepted, ValidationResult::Intercepted);
    assert_eq!(
        ValidationResult::Rejected("test"),
        ValidationResult::Rejected("test")
    );
    assert_ne!(
        ValidationResult::Rejected("test1"),
        ValidationResult::Rejected("test2")
    );
}

#[test]
fn test_command_with_different_types() {
    let commands = vec![
        Command {
            command_type: CommandType::AuthUser("user".to_string()),
            raw: "AUTHINFO USER user\r\n".to_string(),
        },
        Command {
            command_type: CommandType::AuthPass("pass".to_string()),
            raw: "AUTHINFO PASS pass\r\n".to_string(),
        },
        Command {
            command_type: CommandType::Stateless,
            raw: "DATE\r\n".to_string(),
        },
        Command {
            command_type: CommandType::Stateful,
            raw: "LAST\r\n".to_string(),
        },
        Command {
            command_type: CommandType::ArticleByMessageId,
            raw: "ARTICLE <123@example.com>\r\n".to_string(),
        },
    ];

    assert_eq!(commands.len(), 5);

    // Each command should be different
    for i in 0..commands.len() {
        for j in i + 1..commands.len() {
            assert_ne!(commands[i], commands[j]);
        }
    }
}

#[test]
fn validates_canonical_crlf_line() {
    let line = ValidatedCommandLine::new("LIST\r\n").unwrap();
    assert_eq!(line.raw(), "LIST\r\n");
    assert_eq!(line.content(), "LIST");
}

#[test]
fn rejects_non_canonical_line_endings() {
    assert_eq!(
        ValidatedCommandLine::new("LIST\n"),
        Err(CommandLineError::BareLf)
    );
    assert_eq!(
        ValidatedCommandLine::new("LIST\r"),
        Err(CommandLineError::BareCr)
    );
    assert_eq!(
        ValidatedCommandLine::new("LIST\rX\n"),
        Err(CommandLineError::MixedLineEnding)
    );
}

#[test]
fn rejects_empty_and_whitespace_only_lines() {
    assert_eq!(
        ValidatedCommandLine::new("\r\n"),
        Err(CommandLineError::Empty)
    );
    assert_eq!(
        ValidatedCommandLine::new(" \t\r\n"),
        Err(CommandLineError::WhitespaceOnly)
    );
}

#[test]
fn rejects_surrounding_whitespace() {
    assert_eq!(
        ValidatedCommandLine::new(" LIST\r\n"),
        Err(CommandLineError::SurroundingWhitespace)
    );
    assert_eq!(
        ValidatedCommandLine::new("LIST \r\n"),
        Err(CommandLineError::SurroundingWhitespace)
    );
}

#[test]
fn rejects_oversized_line() {
    let oversized = format!("LIST {}\r\n", "A".repeat(MAX_COMMAND_LINE_OCTETS));
    assert_eq!(
        ValidatedCommandLine::new(&oversized),
        Err(CommandLineError::TooLong)
    );
}

#[test]
fn test_nntp_command_classification() {
    // Test authentication commands
    assert_eq!(
        NntpCommand::classify("AUTHINFO USER testuser"),
        NntpCommand::AuthUser
    );
    assert_eq!(
        NntpCommand::classify("AUTHINFO PASS testpass"),
        NntpCommand::AuthPass
    );
    assert_eq!(
        NntpCommand::classify("  AUTHINFO USER  whitespace  "),
        NntpCommand::AuthUser
    );

    // Test stateful commands (should be rejected)
    assert_eq!(
        NntpCommand::classify("GROUP alt.test"),
        NntpCommand::Stateful
    );
    assert_eq!(NntpCommand::classify("NEXT"), NntpCommand::Stateful);
    assert_eq!(NntpCommand::classify("LAST"), NntpCommand::Stateful);
    assert_eq!(
        NntpCommand::classify("LISTGROUP alt.test"),
        NntpCommand::Stateful
    );
    assert_eq!(
        NntpCommand::classify("ARTICLE 12345"),
        NntpCommand::Stateful
    );
    assert_eq!(NntpCommand::classify("ARTICLE"), NntpCommand::Stateful);
    assert_eq!(NntpCommand::classify("HEAD 67890"), NntpCommand::Stateful);
    assert_eq!(NntpCommand::classify("STAT"), NntpCommand::Stateful);
    assert_eq!(NntpCommand::classify("XOVER 1-100"), NntpCommand::Stateful);

    // Test article retrieval by message-ID (stateless - allowed)
    assert_eq!(
        NntpCommand::classify("ARTICLE <message@example.com>"),
        NntpCommand::ArticleByMessageId
    );
    assert_eq!(
        NntpCommand::classify("BODY <test@server.org>"),
        NntpCommand::ArticleByMessageId
    );
    assert_eq!(
        NntpCommand::classify("HEAD <another@example.net>"),
        NntpCommand::ArticleByMessageId
    );
    assert_eq!(
        NntpCommand::classify("STAT <id@host.com>"),
        NntpCommand::ArticleByMessageId
    );

    // Test stateless commands (allowed)
    assert_eq!(NntpCommand::classify("HELP"), NntpCommand::Stateless);
    assert_eq!(NntpCommand::classify("LIST"), NntpCommand::Stateless);
    assert_eq!(NntpCommand::classify("DATE"), NntpCommand::Stateless);
    assert_eq!(
        NntpCommand::classify("CAPABILITIES"),
        NntpCommand::Stateless
    );
    assert_eq!(NntpCommand::classify("QUIT"), NntpCommand::Stateless);
    assert_eq!(NntpCommand::classify("LIST ACTIVE"), NntpCommand::Stateless);
    assert_eq!(
        NntpCommand::classify("UNKNOWN COMMAND"),
        NntpCommand::Stateless
    );
}

#[test]
fn test_case_insensitivity() {
    // Commands should be case-insensitive per NNTP spec
    assert_eq!(NntpCommand::classify("list"), NntpCommand::Stateless);
    assert_eq!(NntpCommand::classify("LiSt"), NntpCommand::Stateless);
    assert_eq!(NntpCommand::classify("QUIT"), NntpCommand::Stateless);
    assert_eq!(NntpCommand::classify("quit"), NntpCommand::Stateless);
    assert_eq!(
        NntpCommand::classify("group alt.test"),
        NntpCommand::Stateful
    );
    assert_eq!(
        NntpCommand::classify("GROUP alt.test"),
        NntpCommand::Stateful
    );
}

#[test]
fn test_empty_and_whitespace_commands() {
    // Empty command
    assert_eq!(NntpCommand::classify(""), NntpCommand::Stateless);

    // Only whitespace
    assert_eq!(NntpCommand::classify("   "), NntpCommand::Stateless);

    // Tabs and spaces
    assert_eq!(NntpCommand::classify("\t\t  "), NntpCommand::Stateless);
}

#[test]
fn test_malformed_authinfo_commands() {
    // AUTHINFO without USER or PASS
    assert_eq!(NntpCommand::classify("AUTHINFO"), NntpCommand::Stateless);

    // AUTHINFO with unknown subcommand
    assert_eq!(
        NntpCommand::classify("AUTHINFO INVALID"),
        NntpCommand::Stateless
    );

    // AUTHINFO USER without username
    assert_eq!(
        NntpCommand::classify("AUTHINFO USER"),
        NntpCommand::AuthUser
    );

    // AUTHINFO PASS without password
    assert_eq!(
        NntpCommand::classify("AUTHINFO PASS"),
        NntpCommand::AuthPass
    );
}

#[test]
fn test_article_commands_with_various_message_ids() {
    // Standard message-ID
    assert_eq!(
        NntpCommand::classify("ARTICLE <test@example.com>"),
        NntpCommand::ArticleByMessageId
    );

    // Message-ID with complex domain
    assert_eq!(
        NntpCommand::classify("ARTICLE <msg.123@news.example.co.uk>"),
        NntpCommand::ArticleByMessageId
    );

    // Message-ID with special characters
    assert_eq!(
        NntpCommand::classify("ARTICLE <user+tag@domain.com>"),
        NntpCommand::ArticleByMessageId
    );

    // BODY with message-ID
    assert_eq!(
        NntpCommand::classify("BODY <test@test.com>"),
        NntpCommand::ArticleByMessageId
    );

    // HEAD with message-ID
    assert_eq!(
        NntpCommand::classify("HEAD <id@host>"),
        NntpCommand::ArticleByMessageId
    );

    // STAT with message-ID
    assert_eq!(
        NntpCommand::classify("STAT <msg@server>"),
        NntpCommand::ArticleByMessageId
    );
}

#[test]
fn test_article_commands_without_message_id() {
    // ARTICLE with number (stateful - requires GROUP context)
    assert_eq!(
        NntpCommand::classify("ARTICLE 12345"),
        NntpCommand::Stateful
    );

    // ARTICLE without argument (stateful - uses current article)
    assert_eq!(NntpCommand::classify("ARTICLE"), NntpCommand::Stateful);

    // BODY with number
    assert_eq!(NntpCommand::classify("BODY 999"), NntpCommand::Stateful);

    // HEAD with number
    assert_eq!(NntpCommand::classify("HEAD 123"), NntpCommand::Stateful);
}

#[test]
fn test_special_characters_in_commands() {
    // Command with newlines
    assert_eq!(NntpCommand::classify("LIST\r\n"), NntpCommand::Stateless);

    // Command with extra whitespace
    assert_eq!(
        NntpCommand::classify("  LIST   ACTIVE  "),
        NntpCommand::Stateless
    );

    // Command with tabs
    assert_eq!(
        NntpCommand::classify("LIST\tACTIVE"),
        NntpCommand::Stateless
    );
}

#[test]
fn classifier_test_very_long_commands() {
    // Very long command line
    let long_command = format!("LIST {}", "A".repeat(1000));
    assert_eq!(NntpCommand::classify(&long_command), NntpCommand::Stateless);

    // Very long GROUP name
    let long_group = format!("GROUP {}", "alt.".repeat(100));
    assert_eq!(NntpCommand::classify(&long_group), NntpCommand::Stateful);

    // Very long message-ID
    let long_msgid = format!("ARTICLE <{}@example.com>", "x".repeat(500));
    assert_eq!(
        NntpCommand::classify(&long_msgid),
        NntpCommand::ArticleByMessageId
    );
}

#[test]
fn test_list_command_variations() {
    // LIST without arguments
    assert_eq!(NntpCommand::classify("LIST"), NntpCommand::Stateless);

    // LIST ACTIVE
    assert_eq!(NntpCommand::classify("LIST ACTIVE"), NntpCommand::Stateless);

    // LIST NEWSGROUPS
    assert_eq!(
        NntpCommand::classify("LIST NEWSGROUPS"),
        NntpCommand::Stateless
    );

    // LIST OVERVIEW.FMT
    assert_eq!(
        NntpCommand::classify("LIST OVERVIEW.FMT"),
        NntpCommand::Stateless
    );
}

#[test]
fn test_boundary_conditions() {
    // Single character command
    assert_eq!(NntpCommand::classify("X"), NntpCommand::Stateless);

    // Command that looks like message-ID but isn't
    assert_eq!(
        NntpCommand::classify("NOTARTICLE <test@example.com>"),
        NntpCommand::Stateless
    );

    // Message-ID without angle brackets (not valid, treated as number)
    assert_eq!(
        NntpCommand::classify("ARTICLE test@example.com"),
        NntpCommand::Stateful
    );
}

#[test]
fn test_non_routable_commands() {
    // POST command - cannot be routed per-command
    assert_eq!(NntpCommand::classify("POST"), NntpCommand::NonRoutable);

    // IHAVE command - cannot be routed per-command
    assert_eq!(
        NntpCommand::classify("IHAVE <test@example.com>"),
        NntpCommand::NonRoutable
    );

    // NEWGROUPS command - cannot be routed per-command
    assert_eq!(
        NntpCommand::classify("NEWGROUPS 20240101 000000 GMT"),
        NntpCommand::NonRoutable
    );

    // NEWNEWS command - cannot be routed per-command
    assert_eq!(
        NntpCommand::classify("NEWNEWS * 20240101 000000 GMT"),
        NntpCommand::NonRoutable
    );
}

#[test]
fn test_non_routable_case_insensitive() {
    assert_eq!(NntpCommand::classify("post"), NntpCommand::NonRoutable);

    assert_eq!(NntpCommand::classify("Post"), NntpCommand::NonRoutable);

    assert_eq!(
        NntpCommand::classify("IHAVE <msg>"),
        NntpCommand::NonRoutable
    );

    assert_eq!(
        NntpCommand::classify("ihave <msg>"),
        NntpCommand::NonRoutable
    );
}

#[test]
fn test_is_stateful() {
    // Stateful commands should return true
    assert!(NntpCommand::Stateful.is_stateful());

    // All other commands should return false
    assert!(!NntpCommand::ArticleByMessageId.is_stateful());
    assert!(!NntpCommand::Stateless.is_stateful());
    assert!(!NntpCommand::AuthUser.is_stateful());
    assert!(!NntpCommand::AuthPass.is_stateful());
    assert!(!NntpCommand::NonRoutable.is_stateful());

    // Test with classified commands
    assert!(NntpCommand::classify("GROUP alt.test").is_stateful());
    assert!(NntpCommand::classify("XOVER 1-100").is_stateful());
    assert!(NntpCommand::classify("ARTICLE 123").is_stateful());
    assert!(!NntpCommand::classify("ARTICLE <msg@example.com>").is_stateful());
    assert!(!NntpCommand::classify("LIST").is_stateful());
    assert!(!NntpCommand::classify("AUTHINFO USER test").is_stateful());
}

#[test]
fn test_comprehensive_stateful_commands() {
    // All GROUP command variants are stateful
    assert!(NntpCommand::classify("GROUP alt.test").is_stateful());
    assert!(NntpCommand::classify("group comp.lang.rust").is_stateful());
    assert!(NntpCommand::classify("Group misc.test").is_stateful());

    // All XOVER variants are stateful
    assert!(NntpCommand::classify("XOVER 1-100").is_stateful());
    assert!(NntpCommand::classify("xover 50-75").is_stateful());
    assert!(NntpCommand::classify("Xover 200").is_stateful());
    assert!(NntpCommand::classify("XOVER").is_stateful()); // Without range

    // OVER command variants (same as XOVER)
    assert!(NntpCommand::classify("OVER 1-100").is_stateful());
    assert!(NntpCommand::classify("over 50-75").is_stateful());
    assert!(NntpCommand::classify("Over 200").is_stateful());

    // XHDR/HDR commands are stateful
    assert!(NntpCommand::classify("XHDR subject 1-100").is_stateful());
    assert!(NntpCommand::classify("xhdr from 50-75").is_stateful());
    assert!(NntpCommand::classify("HDR message-id 1-10").is_stateful());
    assert!(NntpCommand::classify("hdr references 100").is_stateful());

    // Navigation commands are stateful
    assert!(NntpCommand::classify("NEXT").is_stateful());
    assert!(NntpCommand::classify("next").is_stateful());
    assert!(NntpCommand::classify("Next").is_stateful());
    assert!(NntpCommand::classify("LAST").is_stateful());
    assert!(NntpCommand::classify("last").is_stateful());
    assert!(NntpCommand::classify("Last").is_stateful());

    // LISTGROUP is stateful
    assert!(NntpCommand::classify("LISTGROUP alt.test").is_stateful());
    assert!(NntpCommand::classify("listgroup comp.lang.rust").is_stateful());
    assert!(NntpCommand::classify("Listgroup misc.test 1-100").is_stateful());

    // Article by number commands are stateful (require current group context)
    assert!(NntpCommand::classify("ARTICLE 123").is_stateful());
    assert!(NntpCommand::classify("article 456").is_stateful());
    assert!(NntpCommand::classify("Article 789").is_stateful());
    assert!(NntpCommand::classify("HEAD 123").is_stateful());
    assert!(NntpCommand::classify("head 456").is_stateful());
    assert!(NntpCommand::classify("Head 789").is_stateful());
    assert!(NntpCommand::classify("BODY 123").is_stateful());
    assert!(NntpCommand::classify("body 456").is_stateful());
    assert!(NntpCommand::classify("Body 789").is_stateful());
    assert!(NntpCommand::classify("STAT 123").is_stateful());
    assert!(NntpCommand::classify("stat 456").is_stateful());
    assert!(NntpCommand::classify("Stat 789").is_stateful());
}

#[test]
fn test_comprehensive_stateless_commands() {
    // Article by message-ID commands are stateless
    assert!(!NntpCommand::classify("ARTICLE <msg@example.com>").is_stateful());
    assert!(!NntpCommand::classify("article <test@test.com>").is_stateful());
    assert!(!NntpCommand::classify("Article <foo@bar.net>").is_stateful());
    assert!(!NntpCommand::classify("HEAD <msg@example.com>").is_stateful());
    assert!(!NntpCommand::classify("head <test@test.com>").is_stateful());
    assert!(!NntpCommand::classify("BODY <msg@example.com>").is_stateful());
    assert!(!NntpCommand::classify("body <test@test.com>").is_stateful());
    assert!(!NntpCommand::classify("STAT <msg@example.com>").is_stateful());
    assert!(!NntpCommand::classify("stat <test@test.com>").is_stateful());

    // LIST commands are stateless
    assert!(!NntpCommand::classify("LIST").is_stateful());
    assert!(!NntpCommand::classify("list").is_stateful());
    assert!(!NntpCommand::classify("List").is_stateful());
    assert!(!NntpCommand::classify("LIST ACTIVE").is_stateful());
    assert!(!NntpCommand::classify("LIST NEWSGROUPS").is_stateful());
    assert!(!NntpCommand::classify("list active alt.*").is_stateful());

    // Metadata commands are stateless
    assert!(!NntpCommand::classify("DATE").is_stateful());
    assert!(!NntpCommand::classify("date").is_stateful());
    assert!(!NntpCommand::classify("CAPABILITIES").is_stateful());
    assert!(!NntpCommand::classify("capabilities").is_stateful());
    assert!(!NntpCommand::classify("HELP").is_stateful());
    assert!(!NntpCommand::classify("help").is_stateful());
    assert!(!NntpCommand::classify("QUIT").is_stateful());
    assert!(!NntpCommand::classify("quit").is_stateful());

    // Authentication commands are stateless (handled locally)
    assert!(!NntpCommand::classify("AUTHINFO USER testuser").is_stateful());
    assert!(!NntpCommand::classify("authinfo user test").is_stateful());
    assert!(!NntpCommand::classify("AUTHINFO PASS testpass").is_stateful());
    assert!(!NntpCommand::classify("authinfo pass secret").is_stateful());

    // Posting commands are stateless (not group-dependent)
    assert!(!NntpCommand::classify("POST").is_stateful());
    assert!(!NntpCommand::classify("post").is_stateful());
    assert!(!NntpCommand::classify("IHAVE <msg@example.com>").is_stateful());
    assert!(!NntpCommand::classify("ihave <test@test.com>").is_stateful());
}

#[test]
fn test_edge_cases_for_stateful_detection() {
    // Empty article number should still be stateful (current article)
    assert!(NntpCommand::classify("ARTICLE").is_stateful());
    assert!(NntpCommand::classify("HEAD").is_stateful());
    assert!(NntpCommand::classify("BODY").is_stateful());
    assert!(NntpCommand::classify("STAT").is_stateful());

    // Commands with extra whitespace
    assert!(NntpCommand::classify("GROUP  alt.test").is_stateful());
    assert!(NntpCommand::classify("XOVER   1-100").is_stateful());
    assert!(!NntpCommand::classify("LIST  ACTIVE").is_stateful());

    // Mixed case commands - classifier may not support all permutations
    // Only test the explicitly supported case variants
    assert!(NntpCommand::classify("Group alt.test").is_stateful());
    assert!(NntpCommand::classify("Xover 1-100").is_stateful());
    assert!(!NntpCommand::classify("List").is_stateful());

    // Article commands - distinguish by argument format
    assert!(NntpCommand::classify("ARTICLE 12345").is_stateful()); // Number = stateful
    assert!(!NntpCommand::classify("ARTICLE <12345@example.com>").is_stateful()); // Message-ID = stateless

    // Ensure message-IDs with various formats are detected as stateless
    assert!(!NntpCommand::classify("ARTICLE <a.b.c@example.com>").is_stateful());
    assert!(!NntpCommand::classify("ARTICLE <123.456.789@server.net>").is_stateful());
    assert!(
        !NntpCommand::classify("HEAD <very-long-message-id@domain.example.org>").is_stateful()
    );
}

#[test]
fn test_auth_user_command() {
    let action = classify("AUTHINFO USER test");
    assert!(matches!(
        action,
        CommandAction::InterceptAuth(AuthAction::RequestPassword(username)) if username == "test"
    ));
}

#[test]
fn test_auth_pass_command() {
    let action = classify("AUTHINFO PASS secret");
    assert!(matches!(
        action,
        CommandAction::InterceptAuth(AuthAction::ValidateAndRespond { password }) if password == "secret"
    ));
}

#[test]
fn test_stateful_command_rejected() {
    let action = classify("GROUP alt.test");
    assert!(
        matches!(action, CommandAction::Reject(msg) if msg.as_str().contains("stateless")),
        "Expected Reject with 'stateless' in message"
    );
}

#[test]
fn test_article_by_message_id() {
    let action = classify("ARTICLE <test@example.com>");
    assert_eq!(action, CommandAction::ForwardStateless);
}

#[test]
fn test_stateless_command() {
    let action = classify("LIST");
    assert_eq!(action, CommandAction::ForwardStateless);

    let action = classify("HELP");
    assert_eq!(action, CommandAction::ForwardStateless);
}

#[test]
fn test_all_stateful_commands_rejected() {
    // Test various stateful commands
    let stateful_commands = vec![
        "GROUP alt.test",
        "NEXT",
        "LAST",
        "LISTGROUP alt.test",
        "ARTICLE 123",
        "HEAD 456",
        "BODY 789",
        "STAT",
        "XOVER 1-100",
    ];

    for cmd in stateful_commands {
        match classify(cmd) {
            CommandAction::Reject(msg) => {
                assert!(msg.as_str().contains("stateless") || msg.as_str().contains("not supported"));
            }
            other => panic!("Expected Reject for '{cmd}', got {other:?}"),
        }
    }
}

#[test]
fn test_all_article_by_msgid_forwarded() {
    // All message-ID based article commands should be forwarded as stateless
    let msgid_commands = vec![
        "ARTICLE <test@example.com>",
        "BODY <msg@server.org>",
        "HEAD <id@host.net>",
        "STAT <unique@domain.com>",
    ];

    for cmd in msgid_commands {
        assert_eq!(
            classify(cmd),
            CommandAction::ForwardStateless,
            "Command '{cmd}' should be forwarded as stateless"
        );
    }
}

#[test]
fn test_various_stateless_commands() {
    let stateless_commands = vec![
        "HELP",
        "LIST",
        "LIST ACTIVE",
        "LIST NEWSGROUPS",
        "DATE",
        "QUIT",
    ];

    for cmd in stateless_commands {
        assert_eq!(
            classify(cmd),
            CommandAction::ForwardStateless,
            "Command '{cmd}' should be stateless"
        );
    }
}

#[test]
fn test_capabilities_intercepted_not_forwarded() {
    // RFC 3977 §5.2 + RFC 4643 §3.1: CAPABILITIES must be intercepted by the proxy
    // to return an accurate capability list, not forwarded to the backend.
    assert_eq!(
        classify("CAPABILITIES"),
        CommandAction::InterceptCapabilities,
    );
    assert_eq!(
        classify("capabilities"),
        CommandAction::InterceptCapabilities,
    );
    assert_eq!(
        classify("Capabilities"),
        CommandAction::InterceptCapabilities,
    );
}

/// RFC 4643 §2.3.1: AUTHINFO is case-insensitive.
#[test]
fn test_mixed_case_authinfo_extraction() {
    // "Authinfo User" — Titlecase keyword, Titlecase subcommand
    let action = classify("Authinfo User testuser");
    assert!(
        matches!(
            action,
            CommandAction::InterceptAuth(AuthAction::RequestPassword(u)) if u == "testuser"
        ),
        "Expected username 'testuser', got: {action:?}"
    );

    // "AUTHINFO user" — uppercase keyword, lowercase subcommand
    let action = classify("AUTHINFO user anotheruser");
    assert!(
        matches!(
            action,
            CommandAction::InterceptAuth(AuthAction::RequestPassword(u)) if u == "anotheruser"
        ),
        "Expected username 'anotheruser', got: {action:?}"
    );

    // "aUtHiNfO pAsS" — fully mixed case
    let action = classify("aUtHiNfO pAsS mypassword");
    assert!(
        matches!(
            action,
            CommandAction::InterceptAuth(AuthAction::ValidateAndRespond { password: p }) if p == "mypassword"
        ),
        "Expected password 'mypassword', got: {action:?}"
    );

    // "Authinfo Pass" — Titlecase keyword + Titlecase subcommand
    let action = classify("Authinfo Pass s3cr3t");
    assert!(
        matches!(
            action,
            CommandAction::InterceptAuth(AuthAction::ValidateAndRespond { password: p }) if p == "s3cr3t"
        ),
        "Expected password 's3cr3t', got: {action:?}"
    );
}

#[test]
fn test_case_insensitive_handling() {
    // Test that command handling is case-insensitive
    assert_eq!(classify("list"), CommandAction::ForwardStateless);
    assert_eq!(classify("LiSt"), CommandAction::ForwardStateless);
    assert_eq!(classify("QUIT"), CommandAction::ForwardStateless);
    assert_eq!(classify("quit"), CommandAction::ForwardStateless);
}

#[test]
fn test_empty_command() {
    // Empty command is not a valid typed request and falls into stateful fallback.
    let action = classify("");
    assert!(matches!(action, CommandAction::Reject(_)));
}

#[test]
fn test_whitespace_handling() {
    // Leading whitespace is invalid at the typed request boundary.
    let action = classify("  LIST");
    assert!(matches!(action, CommandAction::Reject(_)));

    // Command with trailing whitespace
    let action = classify("LIST  ");
    assert_eq!(action, CommandAction::ForwardStateless);

    // Auth command with trailing whitespace
    let action = classify("AUTHINFO USER test  ");
    assert!(matches!(
        action,
        CommandAction::InterceptAuth(AuthAction::RequestPassword(username)) if username == "test"
    ));
}

#[test]
fn test_malformed_auth_commands() {
    // AUTHINFO without subcommand is intercepted as an AUTHINFO syntax error.
    let action = classify("AUTHINFO");
    assert!(matches!(
        action,
        CommandAction::InterceptAuth(AuthAction::UnknownSubcommand)
    ));

    // AUTHINFO with unknown subcommand — intercepted so auth state can be checked first.
    // Returns 501 if not authenticated, 502 if already authenticated (RFC 4643 §2.3.1/§2.2).
    let action = classify("AUTHINFO INVALID");
    assert!(
        matches!(
            action,
            CommandAction::InterceptAuth(AuthAction::UnknownSubcommand)
        ),
        "Unknown AUTHINFO subcommand must produce InterceptAuth(UnknownSubcommand), got: {action:?}"
    );
}

#[test]
fn test_auth_commands_without_arguments() {
    // AUTHINFO USER without username (still intercept, empty username)
    let action = classify("AUTHINFO USER");
    assert!(matches!(
        action,
        CommandAction::InterceptAuth(AuthAction::RequestPassword(username)) if username.is_empty()
    ));

    // AUTHINFO PASS without password (still intercept, empty password)
    let action = classify("AUTHINFO PASS");
    assert!(matches!(
        action,
        CommandAction::InterceptAuth(AuthAction::ValidateAndRespond { password }) if password.is_empty()
    ));
}

#[test]
fn test_article_commands_with_newlines() {
    // Command with CRLF
    let action = classify("ARTICLE <msg@test.com>\r\n");
    assert_eq!(action, CommandAction::ForwardStateless);

    // Command with just LF
    let action = classify("LIST\n");
    assert_eq!(action, CommandAction::ForwardStateless);
}

#[test]
fn handler_test_very_long_commands() {
    // Oversized requests are rejected before stateless routing.
    let long_cmd = format!("LIST {}", "A".repeat(10000));
    assert!(matches!(classify(&long_cmd), CommandAction::Reject(_)));

    // Very long GROUP name (stateful)
    let long_group = format!("GROUP {}", "alt.".repeat(1000));
    match classify(&long_group) {
        CommandAction::Reject(_) => {} // Expected
        other => panic!("Expected Reject for long GROUP, got {other:?}"),
    }
}

#[test]
fn test_command_action_equality() {
    // Test that CommandAction implements PartialEq correctly
    assert_eq!(
        CommandAction::ForwardStateless,
        CommandAction::ForwardStateless
    );
    assert_eq!(
        CommandAction::InterceptAuth(AuthAction::RequestPassword("test")),
        CommandAction::InterceptAuth(AuthAction::RequestPassword("test"))
    );

    // Test inequality
    assert_ne!(
        CommandAction::InterceptAuth(AuthAction::RequestPassword("user1")),
        CommandAction::InterceptAuth(AuthAction::ValidateAndRespond { password: "pass1" })
    );
}

#[test]
fn test_reject_messages() {
    // Verify reject messages are informative
    assert!(
        matches!(
            classify("GROUP alt.test"),
            CommandAction::Reject(msg) if !msg.is_empty() && msg.len() > 10
        ),
        "Expected Reject with meaningful message"
    );
}

#[test]
fn test_unknown_commands_rejected() {
    // Unknown extension commands require stateful fallback, not stateless multiplexing.
    let unknown_commands = ["INVALIDCOMMAND", "XYZABC", "RANDOM DATA", "12345"];

    assert!(
        unknown_commands
            .iter()
            .all(|cmd| classify(cmd) == CommandAction::Reject(stateless_mode_reject())),
        "All unknown commands should be rejected from stateless routing"
    );
}

#[test]
fn test_non_routable_commands_rejected() {
    // POST must return 440 per RFC 3977 §6.3.1 (posting not permitted)
    assert!(
        matches!(
            classify("POST"),
            CommandAction::Reject(msg) if msg.as_str().starts_with("440")
        ),
        "POST must return 440 (Posting not permitted), got: {:?}",
        classify("POST")
    );

    // IHAVE should be rejected with 503 (feature not supported)
    assert!(
        matches!(
            classify("IHAVE <test@example.com>"),
            CommandAction::Reject(msg) if msg.as_str().contains("routing")
        ),
        "Expected Reject for IHAVE"
    );

    // NEWGROUPS/NEWNEWS are stateless (RFC 3977 §7.3-7.4) — forwarded, not rejected
    assert_eq!(
        classify("NEWGROUPS 20240101 000000 GMT"),
        CommandAction::ForwardStateless,
        "NEWGROUPS should be forwarded as stateless"
    );
    assert_eq!(
        classify("NEWNEWS * 20240101 000000 GMT"),
        CommandAction::ForwardStateless,
        "NEWNEWS should be forwarded as stateless"
    );
}

#[test]
fn test_reject_message_content() {
    // Verify different reject messages for different command types
    let CommandAction::Reject(stateful_reject) = classify("GROUP alt.test") else {
        panic!("Expected Reject")
    };

    let CommandAction::Reject(post_reject) = classify("POST") else {
        panic!("Expected Reject")
    };

    let CommandAction::Reject(ihave_reject) = classify("IHAVE <x@y>") else {
        panic!("Expected Reject")
    };

    // Stateful commands rejected with stateless-mode message
    assert!(stateful_reject.as_str().contains("stateless"));
    // POST rejected with RFC 3977 §6.3.1 440 response
    assert!(post_reject.as_str().starts_with("440"));
    assert!(
        post_reject.as_str().to_lowercase().contains("posting")
            || post_reject.as_str().to_lowercase().contains("permitted")
    );
    // IHAVE rejected with routing-mode message
    assert!(ihave_reject.as_str().contains("routing"));
    // All rejections are distinct
    assert_ne!(stateful_reject, post_reject);
    assert_ne!(stateful_reject, ihave_reject);
    assert_ne!(post_reject, ihave_reject);
}

#[test]
fn test_reject_response_format() {
    // RFC 3977 Section 3.1: Response format is "xyz text\r\n"
    // https://www.rfc-editor.org/rfc/rfc3977.html#section-3.1

    let CommandAction::Reject(response) = classify("GROUP alt.test") else {
        panic!("Expected Reject")
    };

    // Must start with 3-digit status code
    assert!(response.len() >= 3, "Response too short");
    assert!(
        response.as_str()[0..3].chars().all(|c| c.is_ascii_digit()),
        "First 3 chars must be digits, got: {}",
        &response.as_str()[0..3]
    );

    // Must have space after status code
    assert_eq!(&response.as_str()[3..4], " ", "Must have space after status code");

    // Must end with CRLF
    assert!(response.as_str().ends_with("\r\n"), "Response must end with CRLF");

    // Status code must be 503 (Feature not supported)
    // RFC 3977 §3.2.1: 503 = "Feature not supported" is correct for commands the
    // proxy structurally cannot support (e.g. stateful commands in per-command mode)
    assert!(
        response.as_str().starts_with("503 "),
        "Expected 503 status code, got: {response:?}"
    );
}

#[test]
fn test_all_reject_responses_are_valid_nntp() {
    // Test all commands that produce Reject responses
    let reject_commands = vec![
        "GROUP alt.test",
        "NEXT",
        "LAST",
        "POST",
        "IHAVE <test@example.com>",
    ];

    for cmd in reject_commands {
        let CommandAction::Reject(response) = classify(cmd) else {
            panic!("Expected Reject for command: {cmd}");
        };

        // All must be valid NNTP format
        assert!(
            response.len() >= 5,
            "Response too short for {cmd}: {response:?}"
        );
        assert!(
            response.as_str().starts_with(|c: char| c.is_ascii_digit()),
            "Must start with digit for {cmd}: {response:?}"
        );
        assert!(
            response.as_str().ends_with("\r\n"),
            "Must end with CRLF for {cmd}: {response:?}"
        );
        assert!(
            response.as_str().contains(' '),
            "Must have space separator for {cmd}: {response:?}"
        );
    }
}

#[test]
fn test_503_status_code_usage() {
    // RFC 3977 §3.2.1: 503 is "Feature not supported"
    // Correct for commands the proxy structurally cannot support
    // (e.g. stateful GROUP in per-command mode, or transit-only IHAVE)

    // Stateful commands in stateless mode use 503
    let CommandAction::Reject(response) = classify("GROUP alt.test") else {
        panic!("Expected Reject");
    };
    assert!(
        response.as_str().starts_with("503 "),
        "Stateful commands should return 503, got: {response:?}"
    );

    // POST uses 440 per RFC 3977 §6.3.1 (posting not permitted)
    let CommandAction::Reject(response) = classify("POST") else {
        panic!("Expected Reject");
    };
    assert!(
        response.as_str().starts_with("440 "),
        "POST must return 440 (posting not permitted), got: {response:?}"
    );

    // IHAVE uses 503 (transit feature not supported in reader proxy)
    let CommandAction::Reject(response) = classify("IHAVE <x@y>") else {
        panic!("Expected Reject");
    };
    assert!(
        response.as_str().starts_with("503 "),
        "IHAVE should return 503, got: {response:?}"
    );
}

#[test]
fn reject_actions_expose_typed_status_codes() {
    let CommandAction::Reject(response) = classify("GROUP alt.test") else {
        panic!("Expected Reject");
    };
    assert_eq!(response.status().as_u16(), 503);

    let CommandAction::Reject(response) = classify("POST") else {
        panic!("Expected Reject");
    };
    assert_eq!(response.status().as_u16(), 440);
}

#[test]
fn test_response_messages_are_descriptive() {
    // Responses should explain why the command is rejected
    let CommandAction::Reject(stateful) = classify("GROUP alt.test") else {
        panic!("Expected Reject");
    };
    assert!(
        stateful.as_str().to_lowercase().contains("stateless")
            || stateful.as_str().to_lowercase().contains("mode"),
        "Should explain stateless mode restriction: {stateful:?}"
    );

    let CommandAction::Reject(post) = classify("POST") else {
        panic!("Expected Reject");
    };
    assert!(
        post.as_str().to_lowercase().contains("posting") || post.as_str().to_lowercase().contains("permitted"),
        "POST rejection should mention posting or permitted: {post:?}"
    );
}

#[test]
fn a_line_without_its_ending_is_refused() {
    assert_eq!(
        ValidatedCommandLine::new("LIST"),
        Err(CommandLineError::MissingCrLf)
    );
    assert_eq!(
        CommandLineError::TooLong.message(),
        "command line exceeds 512 octets"
    );
    assert_eq!(
        CommandLineError::MissingCrLf.message(),
        "command line must end with CRLF"
    );
}

#[test]
fn the_longest_line_is_accepted() {
    let line = format!("LIST {}\r\n", "A".repeat(MAX_COMMAND_LINE_OCTETS - 7));
    assert_eq!(line.len(), MAX_COMMAND_LINE_OCTETS);
    assert!(ValidatedCommandLine::new(&line).is_ok());
    let longer = format!("LIST {}\r\n", "A".repeat(MAX_COMMAND_LINE_OCTETS - 6));
    assert_eq!(
        ValidatedCommandLine::new(&longer),
        Err(CommandLineError::TooLong)
    );
}

#[test]
fn a_refusal_carries_its_status() {
    let CommandAction::Reject(response) = classify("IHAVE <x@y>") else {
        panic!("Expected Reject");
    };
    let metadata = response.metadata();
    assert_eq!(metadata.status.as_u16(), 503);
    assert_eq!(metadata.wire_len.get(), response.as_bytes().len());
}

#[test]
fn requests_are_parsed_into_verb_and_arguments() {
    let request = RequestContext::parse(b"article <a@b>\r\n").unwrap();
    assert_eq!(request.kind(), RequestKind::Article);
    assert_eq!(request.args(), b"<a@b>");
    assert_eq!(request.route_class(), RequestRouteClass::ArticleByMessageId);
    let by_number = RequestContext::parse(b"ARTICLE 12\r\n").unwrap();
    assert_eq!(by_number.route_class(), RequestRouteClass::Stateful);
    assert!(RequestContext::parse(b"\r\n").is_none());
}

#[test]
fn the_usual_cases_of_a_word_are_one_class() {
    let words = [
        "ARTICLE", "BODY", "HEAD", "STAT", "GROUP", "AUTHINFO", "LIST", "DATE", "CAPABILITIES",
        "MODE", "HELP", "QUIT", "XOVER", "OVER", "XHDR", "HDR", "NEXT", "LAST", "LISTGROUP",
        "POST", "IHAVE", "NEWGROUPS", "NEWNEWS", "UNHEARDOF",
    ];
    for word in words {
        let small = word.to_lowercase();
        let title = format!("{}{}", &word[..1], &small[1..]);
        for rest in ["", " ", " <a@b>", " USER me", " 12-", " pass x\r\n"] {
            let class = NntpCommand::classify(&format!("{word}{rest}"));
            assert_eq!(NntpCommand::classify(&format!("{small}{rest}")), class, "{word}{rest}");
            assert_eq!(NntpCommand::classify(&format!("{title}{rest}")), class, "{word}{rest}");
            for space in [" ", "\t", "\r\n", "\u{a0}", "\u{2003} \n"] {
                let around = format!("{space}{word}{rest}{space}");
                assert_eq!(NntpCommand::classify(&around), class, "{word}{rest}");
            }
        }
    }
    assert_eq!(NntpCommand::classify("pOST"), NntpCommand::Stateless);
}
