use graphchan_frontend::body::{post_body_pieces, snippet_pieces, BodyPiece};
use graphchan_frontend::catalog::{append_fresh, find_thread, image_downloads, new_post_positions, newest_first_order};
use graphchan_frontend::compose::{quote_post, set_reply_target};
use graphchan_frontend::downloads::{retry_pause_ms, DownloadQueue};
use graphchan_frontend::files::{is_image, FileType};
use graphchan_frontend::models::{
    default_auto_apply, default_rebroadcast, default_sync_status, FileResponse, PostView, ThreadDetails, ThreadSummary,
};
use graphchan_frontend::thread_view::{PostAnswer, ThreadContent, ThreadLoaded};
use graphchan_frontend::reactions::{calculate_post_color, emoji_to_rgb_delta};
use graphchan_frontend::state::{BlockingState, CreateThreadState, DmState, ThreadDisplayMode};
use graphchan_frontend::urls::{resolve_blob_url, resolve_download_url, resolve_file_url};

fn text_piece(p: &BodyPiece) -> String {
    match p {
        BodyPiece::Text(t) => format!("T:{}", t),
        BodyPiece::Link { word, thread_id } => format!("L:{}|{}", word, thread_id),
    }
}

fn lines(body: &str) -> Vec<Vec<String>> {
    post_body_pieces(body).iter().map(|l| l.iter().map(text_piece).collect()).collect()
}

#[test]
fn body_links_split_the_text() {
    assert_eq!(
        lines("see >>>abc now\r\nplain line\n"),
        vec![
            vec!["T:see ".to_string(), "L:>>>abc|abc".to_string(), "T:now ".to_string()],
            vec!["T:plain line ".to_string()],
        ]
    );
    assert_eq!(lines(""), Vec::<Vec<String>>::new());
    assert_eq!(lines(">>>x"), vec![vec!["L:>>>x|x".to_string()]]);
    assert_eq!(lines("a  b"), vec![vec!["T:a  b ".to_string()]]);
    assert_eq!(lines("\n"), vec![vec!["T: ".to_string()]]);
}

#[test]
fn snippets_mark_matches() {
    assert_eq!(
        snippet_pieces("a <mark>b</mark> c"),
        vec![("a ".to_string(), false), ("b".to_string(), true), (" c".to_string(), false)]
    );
    assert_eq!(snippet_pieces("<mark>x</mark>"), vec![("x".to_string(), true)]);
    assert_eq!(snippet_pieces("pre <mark>open"), vec![("pre ".to_string(), false), ("pre <mark>open".to_string(), false)]);
    assert_eq!(snippet_pieces("none"), vec![("none".to_string(), false)]);
    assert!(snippet_pieces("").is_empty());
}

#[test]
fn quoting_twice_quotes_once() {
    let mut reply_to = vec!["old".to_string(), "older".to_string()];
    let mut body = "hello".to_string();
    quote_post(&mut reply_to, &mut body, "p1");
    assert_eq!(reply_to, vec!["p1".to_string()]);
    assert_eq!(body, ">>p1\nhello");
    quote_post(&mut reply_to, &mut body, "p1");
    assert_eq!(body, ">>p1\nhello");
    quote_post(&mut reply_to, &mut body, "p2");
    assert_eq!(body, ">>p2\n>>p1\nhello");
    set_reply_target(&mut reply_to, "p3");
    assert_eq!(reply_to, vec!["p3".to_string()]);
}

fn job(i: usize) -> (String, String) {
    (format!("f{}", i), format!("u{}", i))
}

#[test]
fn at_most_four_downloads_run_in_arrival_order() {
    let mut q = DownloadQueue::new();
    let mut started = Vec::new();
    for i in 0..6 {
        started.extend(q.enqueue(job(i).0, job(i).1));
    }
    assert_eq!(started, (0..4).map(job).collect::<Vec<_>>());
    assert_eq!(q.active, 4);
    assert_eq!(q.pending.len(), 2);
    assert_eq!(q.complete(), vec![job(4)]);
    assert_eq!(q.active, 4);
    assert_eq!(q.complete(), vec![job(5)]);
    assert_eq!(q.complete(), Vec::<(String, String)>::new());
    assert_eq!(q.active, 3);
    for _ in 0..5 {
        q.complete();
    }
    assert_eq!(q.active, 0);
}

#[test]
fn downloads_retry_with_growing_pauses() {
    assert_eq!(retry_pause_ms(1), Some(500));
    assert_eq!(retry_pause_ms(2), Some(1000));
    assert_eq!(retry_pause_ms(3), None);
}

#[test]
fn post_colors_add_up_and_cap() {
    assert_eq!(calculate_post_color(&vec![]), (60, 65, 90));
    assert_eq!(calculate_post_color(&vec![("\u{1F44D}".to_string(), 2)]), (30, 30, 0));
    assert_eq!(
        calculate_post_color(&vec![("\u{2764}\u{FE0F}".to_string(), 1), ("?".to_string(), 1)]),
        (28, 16, 18)
    );
    assert_eq!(calculate_post_color(&vec![("\u{1F525}".to_string(), 100)]), (255, 255, 0));
    assert_eq!(calculate_post_color(&vec![("\u{1F440}".to_string(), 0)]), (60, 65, 90));
    assert_eq!(emoji_to_rgb_delta("\u{1F621}"), (15, 0, 0));
    assert_eq!(emoji_to_rgb_delta("\u{2764}"), (8, 8, 8));
}

fn file(id: &str, mime: Option<&str>, blob: Option<&str>, present: bool) -> FileResponse {
    FileResponse {
        id: id.to_string(),
        post_id: "p".to_string(),
        original_name: None,
        mime: mime.map(|s| s.to_string()),
        size_bytes: None,
        checksum: None,
        blob_id: blob.map(|s| s.to_string()),
        ticket: None,
        path: String::new(),
        download_url: None,
        present,
    }
}

fn post(id: &str, files: Vec<FileResponse>) -> PostView {
    PostView {
        id: id.to_string(),
        thread_id: "t".to_string(),
        author_peer_id: None,
        author_short_friendcode: None,
        body: String::new(),
        created_at: String::new(),
        updated_at: None,
        parent_post_ids: vec![],
        files,
    }
}

fn thread(id: &str, created_at: &str) -> ThreadSummary {
    ThreadSummary {
        id: id.to_string(),
        title: String::new(),
        creator_peer_id: None,
        created_at: created_at.to_string(),
        pinned: false,
        sync_status: "downloaded".to_string(),
        first_image_file: None,
    }
}

#[test]
fn thread_list_newest_first() {
    let threads = vec![thread("a", "2024-01-01"), thread("b", "2024-02-01"), thread("c", "2024-01-01")];
    assert_eq!(newest_first_order(&threads), vec![1, 0, 2]);
    assert_eq!(find_thread(&threads, "c"), Some(2));
    assert_eq!(find_thread(&threads, "z"), None);
}

#[test]
fn refresh_adds_only_new_posts_once() {
    let existing = vec![post("a", vec![]), post("b", vec![])];
    let incoming = vec![post("a", vec![]), post("c", vec![]), post("b", vec![]), post("d", vec![])];
    let fresh = new_post_positions(&existing, &incoming);
    assert_eq!(fresh, vec![1, 3]);
    let mut merged = existing.clone();
    for q in fresh {
        merged.push(incoming[q].clone());
    }
    assert!(new_post_positions(&merged, &incoming).is_empty());
}

#[test]
fn images_are_fetched_from_blobs_or_files() {
    let posts = vec![
        post("p1", vec![file("f1", Some("image/png"), Some("b1"), true), file("f2", Some("text/plain"), None, true)]),
        post("p2", vec![file("f3", Some("image/jpeg"), None, false), file("f4", None, None, true)]),
    ];
    assert_eq!(
        image_downloads(&posts, "http://h"),
        vec![
            ("f1".to_string(), "http://h/blobs/b1".to_string()),
            ("f3".to_string(), "http://h/files/f3".to_string()),
        ]
    );
}

#[test]
fn file_kinds_and_icons() {
    assert_eq!(FileType::from_mime("image/png"), FileType::Image);
    assert_eq!(FileType::from_mime("application/json"), FileType::Text);
    assert_eq!(FileType::from_mime("application/gzip"), FileType::Archive);
    assert_eq!(FileType::from_mime("application/pdf"), FileType::Pdf);
    assert_eq!(FileType::from_mime("video/mp4"), FileType::Video);
    assert_eq!(FileType::from_mime("application/octet-stream"), FileType::Other);
    assert_eq!(FileType::Pdf.icon(), "\u{1F4D5}");
    assert!(is_image(&file("f", Some("image/gif"), None, true)));
    assert!(!is_image(&file("f", Some("image/gif"), None, false)));
}

#[test]
fn download_addresses_resolve() {
    assert_eq!(resolve_download_url("http://h", Some("https://x/y"), "f"), "https://x/y");
    assert_eq!(resolve_download_url("http://h", Some("/files/f"), "f"), "http://h/files/f");
    assert_eq!(resolve_download_url("http://h", Some("files/f"), "f"), "http://h/files/f");
    assert_eq!(resolve_download_url("http://h", None, "f"), "http://h/files/f");
    assert_eq!(resolve_blob_url("http://h", "b"), "http://h/blobs/b");
    assert_eq!(resolve_file_url("http://h", "f"), "http://h/files/f");
}

#[test]
fn defaults_of_models_and_screens() {
    assert_eq!(default_sync_status(), "downloaded");
    assert!(default_rebroadcast());
    assert!(default_auto_apply());
    let c = CreateThreadState::default();
    assert!(c.title.is_empty() && !c.submitting && c.files.is_empty());
    assert_eq!(DmState::default().unread_count, 0);
    assert_eq!(BlockingState::default().current_tab, 0);
    assert_eq!(ThreadDisplayMode::default(), ThreadDisplayMode::List);
}

#[test]
fn catalog_columns_split_the_list() {
    let mut a = thread("a", "1");
    a.sync_status = "announced".to_string();
    let mut b = thread("b", "2");
    b.creator_peer_id = Some("peer".to_string());
    let c = thread("c", "3");
    let threads = vec![a, b, c];
    assert_eq!(graphchan_frontend::catalog::split_catalog(&threads), (vec![1, 2], vec![0]));
    assert_eq!(graphchan_frontend::catalog::split_by_author(&threads, "peer"), (vec![1], vec![0, 2]));
}

fn ids(posts: &[PostView]) -> Vec<String> {
    posts.iter().map(|p| p.id.clone()).collect()
}

fn content(id: &str) -> ThreadContent {
    ThreadContent {
        summary: thread(id, "1"),
        details: None,
        is_loading: true,
        error: None,
        new_post_body: "draft".to_string(),
        new_post_error: None,
        new_post_sending: true,
    }
}

fn details(id: &str, title: &str, posts: Vec<PostView>) -> ThreadDetails {
    let mut t = thread(id, "1");
    t.title = title.to_string();
    ThreadDetails { thread: t, posts, peers: vec![] }
}

#[test]
fn fresh_posts_are_appended_in_order() {
    let mut shown = vec![post("a", vec![]), post("b", vec![])];
    let fresh = append_fresh(&mut shown, vec![post("c", vec![]), post("a", vec![]), post("d", vec![])]);
    assert_eq!(fresh, vec![0, 2]);
    assert_eq!(ids(&shown), vec!["a", "b", "c", "d"]);
}

#[test]
fn thread_loads_merge_refreshes_and_drop_stale_answers() {
    let mut c = content("t");
    assert!(matches!(c.on_thread_loaded("other", Ok(details("other", "x", vec![]))), ThreadLoaded::Stale));
    assert!(c.is_loading && c.details.is_none());

    assert!(matches!(c.on_thread_loaded("t", Err("offline".to_string())), ThreadLoaded::Failed));
    assert!(!c.is_loading);
    assert_eq!(c.error.as_deref(), Some("offline"));

    let first = details("t", "first", vec![post("a", vec![]), post("b", vec![])]);
    assert!(matches!(c.on_thread_loaded("t", Ok(first)), ThreadLoaded::Initial));
    assert!(c.error.is_none());
    assert_eq!(c.summary.title, "first");
    assert_eq!(ids(&c.details.as_ref().unwrap().posts), vec!["a", "b"]);

    let again = details("t", "renamed", vec![post("a", vec![]), post("c", vec![]), post("b", vec![])]);
    match c.on_thread_loaded("t", Ok(again)) {
        ThreadLoaded::Refreshed { fresh, .. } => assert_eq!(fresh, vec![1]),
        _ => panic!("expected a refresh"),
    }
    assert_eq!(c.summary.title, "renamed");
    let d = c.details.as_ref().unwrap();
    assert_eq!(d.thread.title, "first");
    assert_eq!(ids(&d.posts), vec!["a", "b", "c"]);

    assert!(matches!(c.on_thread_loaded("t", Err("later".to_string())), ThreadLoaded::Failed));
    assert_eq!(ids(&c.details.as_ref().unwrap().posts), vec!["a", "b", "c"]);
}

#[test]
fn published_posts_join_the_thread() {
    let mut c = content("t");
    c.details = Some(details("t", "x", vec![post("a", vec![])]));
    assert!(matches!(c.on_post_created("other", Ok(post("z", vec![]))), PostAnswer::Stale));
    assert!(c.new_post_sending);
    assert!(matches!(c.on_post_created("t", Err("denied".to_string())), PostAnswer::Refused));
    assert_eq!(c.new_post_error.as_deref(), Some("denied"));
    assert_eq!(c.new_post_body, "draft");
    match c.on_post_created("t", Ok(post("b", vec![]))) {
        PostAnswer::Published { banner, position } => {
            assert_eq!(banner, "Post published");
            assert_eq!(position, 1);
        }
        _ => panic!("expected publication"),
    }
    assert!(c.new_post_body.is_empty() && c.new_post_error.is_none() && !c.new_post_sending);
    assert_eq!(ids(&c.details.as_ref().unwrap().posts), vec!["a", "b"]);
    let mut lone = content("t");
    match lone.on_post_created("t", Ok(post("q", vec![]))) {
        PostAnswer::PublishedAlone { post, .. } => assert_eq!(post.id, "q"),
        _ => panic!("expected the post back"),
    }
}
