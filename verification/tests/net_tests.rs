use graphchan_frontend::importer::{fourchan_import_request, reddit_import_request};
use graphchan_frontend::net::{
    backend_base, bearer_header, endpoint_url, event_action, request_url, is_keep_alive, plan_reconnect, sanitize_base_url, EventAction, EventStreamDecoder,
};
use graphchan_frontend::text::trim_text;

#[test]
fn base_urls_get_a_scheme_and_lose_trailing_slashes() {
    assert_eq!(sanitize_base_url("localhost:8080//".to_string()).ok().unwrap(), "http://localhost:8080");
    assert_eq!(sanitize_base_url("https://node.example/".to_string()).ok().unwrap(), "https://node.example");
    assert!(sanitize_base_url("http://[::1".to_string()).is_err());
}

#[test]
fn bearer_header_trims_the_token() {
    assert_eq!(bearer_header("  abc \n"), Some("Bearer abc".to_string()));
    assert_eq!(bearer_header(" \t "), None);
    assert_eq!(bearer_header(""), None);
}

#[test]
fn event_stream_lines_make_events() {
    let mut d = EventStreamDecoder::new();
    assert_eq!(d.feed_line("event: message\n"), None);
    assert_eq!(d.feed_line("data: {\"type\":\"a\"}\r\n"), None);
    assert_eq!(d.feed_line("data:second\n"), None);
    assert_eq!(d.feed_line("\r\n"), Some("{\"type\":\"a\"}\nsecond".to_string()));
    assert_eq!(d.feed_line("\n"), None);
    assert_eq!(d.feed_line("data:  two spaces\n"), None);
    assert_eq!(d.feed_line(""), Some(" two spaces".to_string()));
}

#[test]
fn keep_alive_is_recognized() {
    assert!(is_keep_alive("keep-alive"));
    assert!(!is_keep_alive("keep-alive "));
}

#[test]
fn reconnect_pauses_double_up_to_thirty_seconds() {
    assert_eq!(plan_reconnect(1), (1, 2));
    assert_eq!(plan_reconnect(14), (14, 28));
    assert_eq!(plan_reconnect(16), (16, 30));
    assert_eq!(plan_reconnect(30), (30, 30));
    let mut pauses = Vec::new();
    let mut b = 1;
    for _ in 0..8 {
        let (pause, next) = plan_reconnect(b);
        pauses.push(pause);
        b = next;
    }
    assert_eq!(pauses, vec![1, 2, 4, 8, 16, 30, 30, 30]);
}

#[test]
fn trimming_drops_unicode_white_space() {
    assert_eq!(trim_text("\u{3000} a b \u{85}"), "a b");
    assert_eq!(trim_text(&trim_text("  x  ")), "x");
    assert_eq!(trim_text("   "), "");
}

#[test]
fn import_requests() {
    let r = reddit_import_request("https://reddit.com/r/x", vec!["t".to_string()]);
    assert_eq!(r.platform.as_deref(), Some("reddit"));
    assert_eq!(r.topics, vec!["t".to_string()]);
    let f = fourchan_import_request("https://boards.4chan.org/g/thread/1", vec![]);
    assert!(f.platform.is_none());
    assert_eq!(f.url, "https://boards.4chan.org/g/thread/1");
}

#[test]
fn stream_events_are_kept_dropped_or_reported() {
    assert_eq!(event_action("keep-alive", None), EventAction::Ignore);
    assert_eq!(event_action("keep-alive", Some("dm")), EventAction::Ignore);
    assert_eq!(event_action("{\"type\":\"dm\"}", Some("dm")), EventAction::Forward);
    assert_eq!(event_action("{\"id\":1}", None), EventAction::Malformed);
    assert_eq!(event_action("garbage", None), EventAction::Malformed);
}

#[test]
fn request_paths_resolve_against_the_backend_address() {
    assert_eq!(request_url("http://127.0.0.1:8080", "/threads?limit=5").as_deref(), Some("http://127.0.0.1:8080/threads?limit=5"));
    assert_eq!(request_url("http://host/api/", "threads").as_deref(), Some("http://host/api/threads"));
    assert_eq!(request_url("http://host/api", "/threads").as_deref(), Some("http://host/threads"));
    assert_eq!(request_url("not a url", "/threads"), None);
    assert_eq!(backend_base("http://127.0.0.1:8080").as_deref(), Some("http://127.0.0.1:8080"));
    assert_eq!(backend_base("127.0.0.1 8080"), None);
}

#[test]
fn endpoint_paths_replace_the_base_path() {
    assert_eq!(endpoint_url("http://127.0.0.1:8080", "/threads").as_deref(), Some("http://127.0.0.1:8080/threads"));
    assert_eq!(endpoint_url("http://host/api", "//threads/t1").as_deref(), Some("http://host/threads/t1"));
    assert_eq!(endpoint_url("http://host", "search?q=a").as_deref(), Some("http://host/search%3Fq=a"));
    assert_eq!(endpoint_url("no scheme", "/threads"), None);
}
