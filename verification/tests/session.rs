//! Sessions that answer from the article cache where they can.
use nntp_proxy::cache::session::{extract_message_id, CachingSession, Wanted};

fn send(session: &mut CachingSession, line: &str) -> nntp_proxy::cache::session::SessionStep {
    session.on_client_line(line.to_string())
}

#[test]
fn message_ids_are_found_in_command_lines() {
    assert_eq!(
        extract_message_id("ARTICLE <a@b.c>\r\n"),
        Some("<a@b.c>")
    );
    assert_eq!(extract_message_id("STAT > <x> <y>"), Some("<x>"));
    assert_eq!(extract_message_id("ARTICLE 7\r\n"), None);
    assert_eq!(extract_message_id("ARTICLE <open\r\n"), None);
}

#[test]
fn a_miss_is_fetched_stored_and_sent() {
    let mut session = CachingSession::new();
    let step = send(&mut session, "ARTICLE <a@b>\r\n");
    assert_eq!(step.look_up.as_deref(), Some("<a@b>"));
    assert_eq!(step.wanted, Wanted::CacheAnswer);
    assert!(step.to_backend.is_empty());

    let step = session.on_cached(None);
    assert_eq!(step.to_backend, b"ARTICLE <a@b>\r\n");
    assert_eq!(step.wanted, Wanted::BackendLine);

    let lines = ["220 1 <a@b>\r\n", "Subject: x\r\n", "\r\n", "text\r\n"];
    for line in lines {
        let step = session.on_backend_line(line.as_bytes().to_vec());
        assert_eq!(step.wanted, Wanted::BackendLine);
        assert!(step.to_client.is_empty());
        assert!(step.store.is_none());
    }
    let step = session.on_backend_line(b".\r\n".to_vec());
    let whole = [lines.concat().as_bytes(), b".\r\n"].concat();
    assert_eq!(step.store, Some(("<a@b>".to_string(), whole.clone())));
    assert_eq!(step.to_client, whole);
    assert_eq!(step.wanted, Wanted::ClientLine);
    assert_eq!(session.totals(), (15, whole.len() as u64));
}

#[test]
fn a_hit_is_served_without_the_backend() {
    let mut session = CachingSession::new();
    send(&mut session, "ARTICLE <a@b>\r\n");
    let step = session.on_cached(Some(b"220 1 <a@b>\r\n.\r\n".to_vec()));
    assert!(step.to_backend.is_empty());
    assert_eq!(step.to_client, b"220 1 <a@b>\r\n.\r\n");
    assert_eq!(step.wanted, Wanted::ClientLine);
    assert_eq!(session.totals(), (0, 16));
}

#[test]
fn a_missing_article_is_not_stored() {
    let mut session = CachingSession::new();
    send(&mut session, "BODY <a@b>\r\n");
    session.on_cached(None);
    let step = session.on_backend_line(b"430 No such article\r\n".to_vec());
    assert!(step.store.is_none());
    assert_eq!(step.to_client, b"430 No such article\r\n");
}

#[test]
fn logins_are_answered_here() {
    let mut session = CachingSession::new();
    let step = send(&mut session, "AUTHINFO USER me\r\n");
    assert_eq!(step.to_client, b"381 Password required\r\n");
    assert!(step.to_backend.is_empty());
    let step = send(&mut session, "AUTHINFO PASS secret\r\n");
    assert_eq!(step.to_client, b"281 Authentication accepted\r\n");
}

#[test]
fn commands_with_state_are_refused() {
    for line in ["GROUP alt.test\r\n", "POST\r\n"] {
        let mut session = CachingSession::new();
        let step = send(&mut session, line);
        assert_eq!(
            step.to_client,
            b"503 Feature not supported in stateless proxy mode\r\n"
        );
        assert!(step.to_backend.is_empty());
    }
}

#[test]
fn other_commands_go_through() {
    let mut session = CachingSession::new();
    let step = send(&mut session, "DATE\r\n");
    assert_eq!(step.to_backend, b"DATE\r\n");
    assert!(step.look_up.is_none());
    // A reply of the hundreds has more lines.
    let step = session.on_backend_line(b"111 20240101000000\r\n".to_vec());
    assert_eq!(step.wanted, Wanted::BackendLine);
    // A backend that goes away ends the response.
    let step = session.on_backend_line(Vec::new());
    assert_eq!(step.to_client, b"111 20240101000000\r\n");
    assert!(step.store.is_none());
}

#[test]
fn a_goodbye_ends_the_session() {
    let mut session = CachingSession::new();
    send(&mut session, "HELP\r\n");
    let step = session.on_backend_line(b"205 closing\r\n".to_vec());
    assert_eq!(step.to_client, b"205 closing\r\n");
    assert_eq!(step.wanted, Wanted::Nothing);
}

#[test]
fn a_backend_that_is_gone_ends_the_session() {
    let mut session = CachingSession::new();
    send(&mut session, "HELP\r\n");
    let step = session.on_backend_line(Vec::new());
    assert_eq!(step.wanted, Wanted::Nothing);
    assert!(step.to_client.is_empty());
}

#[test]
fn a_client_that_is_gone_ends_the_session() {
    let mut session = CachingSession::new();
    assert_eq!(session.on_client_gone().wanted, Wanted::Nothing);
    assert_eq!(session.totals(), (0, 0));
}
