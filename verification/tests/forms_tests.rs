use graphchan_frontend::catalog::attachment_downloads;
use graphchan_frontend::forms::{
    import_url, ip_block_outcome, optional_text, peer_block_reason, post_request, subscribe_topic, thread_request,
    unsubscribe_topic, FormError, IpBlockOutcome,
};
use graphchan_frontend::models::FileResponse;

#[test]
fn thread_form_trims_and_refuses_blank_titles() {
    let input = thread_request("  Hello ", " \n", vec!["t1".to_string()]).ok().unwrap();
    assert_eq!(input.title, "Hello");
    assert_eq!(input.body, None);
    assert_eq!(input.topics, vec!["t1".to_string()]);
    assert_eq!(input.visibility.as_deref(), Some("social"));
    let input = thread_request("T", " body ", vec![]).ok().unwrap();
    assert_eq!(input.body.as_deref(), Some("body"));
    match thread_request("   ", "x", vec![]) {
        Err(e) => {
            assert!(matches!(e, FormError::EmptyTitle));
            assert_eq!(e.message(), "Title cannot be empty");
        }
        Ok(_) => panic!("a blank title is refused"),
    }
}

#[test]
fn post_form_keeps_reply_targets_and_hosting() {
    let input = post_request("t", " hi ", vec!["p".to_string()], false).ok().unwrap();
    assert_eq!(input.thread_id, "t");
    assert_eq!(input.body, "hi");
    assert_eq!(input.parent_post_ids, vec!["p".to_string()]);
    assert!(!input.rebroadcast);
    match post_request("t", "\t", vec![], true) {
        Err(e) => assert_eq!(e.message(), "Post body cannot be empty"),
        Ok(_) => panic!("a blank body is refused"),
    }
}

#[test]
fn import_and_optional_fields() {
    assert_eq!(import_url(" https://x/y ").ok().unwrap(), "https://x/y");
    match import_url("  ") {
        Err(e) => assert_eq!(e.message(), "Paste a full 4chan thread URL"),
        Ok(_) => panic!("a blank address is refused"),
    }
    assert_eq!(optional_text(""), None);
    assert_eq!(optional_text(" a"), Some(" a".to_string()));
}

#[test]
fn topics_are_followed_once() {
    let mut topics = vec!["a".to_string()];
    subscribe_topic(&mut topics, "b");
    subscribe_topic(&mut topics, "b");
    subscribe_topic(&mut topics, "a");
    assert_eq!(topics, vec!["a".to_string(), "b".to_string()]);
    unsubscribe_topic(&mut topics, "a");
    assert_eq!(topics, vec!["b".to_string()]);
    unsubscribe_topic(&mut topics, "zzz");
    assert_eq!(topics, vec!["b".to_string()]);
}

#[test]
fn peer_address_blocking_outcomes() {
    assert_eq!(peer_block_reason("p1"), "Blocked peer: p1");
    match ip_block_outcome(&vec![], &vec![]) {
        IpBlockOutcome::Failed(m) => assert_eq!(m, "No IP addresses found for this peer"),
        _ => panic!("nothing to block"),
    }
    let ips = vec!["1.1.1.1".to_string(), "2.2.2.2".to_string()];
    match ip_block_outcome(&ips, &vec![Some("boom".to_string()), None]) {
        IpBlockOutcome::Blocked(all) => assert_eq!(all, ips),
        _ => panic!("one address was blocked"),
    }
    match ip_block_outcome(&ips, &vec![Some("boom".to_string()), Some("bang".to_string())]) {
        IpBlockOutcome::Failed(m) => assert_eq!(m, "Failed to block IPs: 1.1.1.1: boom, 2.2.2.2: bang"),
        _ => panic!("nothing was blocked"),
    }
}

fn file(id: &str, mime: &str, link: Option<&str>, present: bool) -> FileResponse {
    FileResponse {
        id: id.to_string(),
        post_id: "p".to_string(),
        original_name: None,
        mime: Some(mime.to_string()),
        size_bytes: None,
        checksum: None,
        blob_id: None,
        ticket: None,
        path: String::new(),
        download_url: link.map(|s| s.to_string()),
        present,
    }
}

#[test]
fn attachments_fetch_present_images_once() {
    let files = vec![
        file("a", "image/png", Some("/files/a"), true),
        file("b", "image/png", None, false),
        file("c", "text/plain", None, true),
        file("d", "image/gif", Some("https://cdn/d"), true),
        file("e", "image/gif", None, true),
    ];
    let fetched = vec![false, false, false, false, true];
    assert_eq!(
        attachment_downloads(&files, &fetched, "http://h"),
        vec![("a".to_string(), "http://h/files/a".to_string()), ("d".to_string(), "https://cdn/d".to_string())]
    );
}
