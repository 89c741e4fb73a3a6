use phocus::{block_domain, App, BlockError, BlockRequest};

#[test]
fn new_session_is_idle() {
    let app = App::new();
    assert_eq!(app.input, "");
    assert_eq!(app.messages, vec!["Waiting for domains to block...".to_string()]);
    assert!(app.blocked_domains.is_empty());
}

#[test]
fn blocking_blank_input_is_skipped() {
    let app = App::new();
    assert!(matches!(app.block_domain("".to_string()), BlockRequest::Skipped));
    assert!(matches!(app.block_domain("   \t ".to_string()), BlockRequest::Skipped));
    assert!(matches!(app.block_domain("\n".to_string()), BlockRequest::Skipped));
    // The session itself is untouched: nothing tracked, no message.
    assert!(app.blocked_domains.is_empty());
    assert_eq!(app.messages, vec!["Waiting for domains to block...".to_string()]);
}

#[test]
fn blocking_trims_the_domain() {
    let app = App::new();
    match app.block_domain("  a.com \n".to_string()) {
        BlockRequest::Write { domain, entry } => {
            assert_eq!(domain, "a.com");
            assert_eq!(entry, "127.0.0.1 a.com\n");
        }
        BlockRequest::Skipped => panic!("expected a write request"),
    }
}

#[test]
fn successful_block_is_tracked_and_reported() {
    let mut app = App::new();
    app.block_finished("a.com".to_string(), Ok(()));
    assert_eq!(app.blocked_domains, vec!["a.com".to_string()]);
    assert_eq!(app.messages, vec!["✓ Blocked: a.com".to_string()]);
}

#[test]
fn failed_block_is_not_tracked() {
    let mut app = App::new();
    let err = BlockError::IoError("Failed to open hosts file".to_string());
    app.block_finished("a.com".to_string(), Err(err));
    assert!(app.blocked_domains.is_empty());
    assert_eq!(
        app.messages,
        vec!["✗ Error blocking a.com: Failed to open hosts file".to_string()]
    );
}

#[test]
fn messages_replace_placeholder_then_append() {
    let mut app = App::new();
    app.add_message("first".to_string());
    assert_eq!(app.messages, vec!["first".to_string()]);
    app.add_message("second".to_string());
    assert_eq!(app.messages, vec!["first".to_string(), "second".to_string()]);
}

#[test]
fn blocking_same_domain_twice_tracks_it_twice() {
    let mut app = App::new();
    let mut content = String::new();
    for _ in 0..2 {
        match app.block_domain("a.com".to_string()) {
            BlockRequest::Write { domain, entry } => {
                content.push_str(&entry);
                app.block_finished(domain, Ok(()));
            }
            BlockRequest::Skipped => panic!("expected a write request"),
        }
    }
    assert_eq!(content, "127.0.0.1 a.com\n127.0.0.1 a.com\n");
    assert_eq!(app.blocked_domains, vec!["a.com".to_string(), "a.com".to_string()]);
    let cleaned = app.cleanup(&content);
    assert_eq!(cleaned, "");
}

#[test]
fn block_then_cleanup_restores_file() {
    let mut app = App::new();
    let before = "1.2.3.4 keep.example\n";
    let request = app.block_domain("ads.example.com".to_string());
    let after = match request {
        BlockRequest::Write { domain, entry: _ } => {
            let written = block_domain(before, &domain);
            app.block_finished(domain, Ok(()));
            written
        }
        BlockRequest::Skipped => panic!("expected a write request"),
    };
    assert_eq!(after, "1.2.3.4 keep.example\n127.0.0.1 ads.example.com\n");
    let cleaned = app.cleanup(&after);
    assert_eq!(cleaned, before);
}

#[test]
fn cleanup_with_nothing_tracked_keeps_content() {
    let app = App::new();
    let content = "1.2.3.4 keep.example\n# a comment\n";
    assert_eq!(app.cleanup(content), content);
}

#[test]
fn error_message_accessor() {
    let io = BlockError::IoError("read failed".to_string());
    let cmd = BlockError::CommandError("spawn failed".to_string());
    assert_eq!(io.message(), "read failed");
    assert_eq!(cmd.message(), "spawn failed");
}
