use graphchan_frontend::mcp::{
    call_tool, error_code, latest_posts, list_tools, parent_entries, route_request, urlencoding, ArgValue,
    Argument, ParamKind, PostEntry, RequestBody, Routed, ToolCall, ToolError, ToolParams,
};

fn arg(key: &str, value: ArgValue) -> Argument {
    Argument { key: key.to_string(), value }
}

fn text(key: &str, v: &str) -> Argument {
    arg(key, ArgValue::Text(v.to_string()))
}

fn params(name: &str, arguments: Vec<Argument>) -> Option<ToolParams> {
    Some(ToolParams { name: Some(name.to_string()), arguments })
}

fn path_of(call: &ToolCall) -> String {
    match call {
        ToolCall::Get { path } => path.clone(),
        ToolCall::LatestPosts { path, .. } => path.clone(),
        ToolCall::Parents { path, .. } => path.clone(),
        ToolCall::Post { path, .. } => path.clone(),
        ToolCall::Multipart { path, .. } => path.clone(),
        ToolCall::Delete { path } => path.clone(),
    }
}

fn failure(r: Result<ToolCall, ToolError>) -> String {
    match r {
        Ok(_) => panic!("expected a failure"),
        Err(e) => e.message(),
    }
}

#[test]
fn urlencoding_escapes_reserved_and_multibyte() {
    assert_eq!(urlencoding("a b&c/\u{e9}"), "a%20b%26c%2F%C3%A9");
    assert_eq!(urlencoding("AZaz09-_.~"), "AZaz09-_.~");
    assert_eq!(urlencoding(""), "");
}

#[test]
fn catalog_lists_every_tool_in_order() {
    let tools = list_tools();
    assert_eq!(tools.len(), 21);
    assert_eq!(tools[0].name, "list_threads");
    assert_eq!(tools[5].name, "search");
    assert_eq!(tools[20].name, "health");
    let create_thread = &tools[6];
    assert_eq!(create_thread.name, "create_thread");
    assert_eq!(create_thread.params.len(), 4);
    assert!(create_thread.params[0].required);
    assert!(matches!(create_thread.params[2].kind, ParamKind::TextList));
    let react = &tools[8];
    assert_eq!(react.params[1].description.as_deref(), Some("A single emoji, e.g. '\u{1F44D}'"));
    assert!(tools[10].params.is_empty());
}

#[test]
fn missing_params_and_name_are_refused() {
    assert_eq!(failure(call_tool(&None)), "missing params");
    let p = Some(ToolParams { name: None, arguments: vec![] });
    assert_eq!(failure(call_tool(&p)), "missing tool name");
}

#[test]
fn unknown_tool_is_not_found() {
    let msg = failure(call_tool(&params("nope", vec![])));
    assert_eq!(msg, "tool 'nope' not found");
    assert_eq!(error_code(&msg), -32601);
}

#[test]
fn list_threads_uses_default_and_given_limit() {
    let c = call_tool(&params("list_threads", vec![])).ok().unwrap();
    assert_eq!(path_of(&c), "/threads?limit=50");
    let c = call_tool(&params("list_threads", vec![arg("limit", ArgValue::Unsigned(7))])).ok().unwrap();
    assert_eq!(path_of(&c), "/threads?limit=7");
    let c = call_tool(&params("list_threads", vec![arg("limit", ArgValue::OtherNumber)])).ok().unwrap();
    assert_eq!(path_of(&c), "/threads?limit=50");
}

#[test]
fn search_encodes_the_query() {
    let c = call_tool(&params("search", vec![text("query", "hello world"), arg("limit", ArgValue::Unsigned(5))]))
        .ok()
        .unwrap();
    assert_eq!(path_of(&c), "/search?q=hello%20world&limit=5");
    let msg = failure(call_tool(&params("search", vec![arg("query", ArgValue::Unsigned(1))])));
    assert_eq!(msg, "missing or non-string argument 'query'");
    assert_eq!(error_code(&msg), -32603);
}

#[test]
fn latest_posts_call_carries_count() {
    match call_tool(&params("read_latest_posts", vec![text("thread_id", "t1"), arg("n", ArgValue::Unsigned(3))])) {
        Ok(ToolCall::LatestPosts { path, n }) => {
            assert_eq!(path, "/threads/t1");
            assert_eq!(n, 3);
        }
        _ => panic!("expected a latest-posts call"),
    }
    match call_tool(&params("read_latest_posts", vec![text("thread_id", "t1")])) {
        Ok(ToolCall::LatestPosts { n, .. }) => assert_eq!(n, 10),
        _ => panic!("expected a latest-posts call"),
    }
}

#[test]
fn read_parents_needs_both_ids_in_order() {
    assert_eq!(failure(call_tool(&params("read_parents", vec![]))), "missing or non-string argument 'thread_id'");
    assert_eq!(
        failure(call_tool(&params("read_parents", vec![text("thread_id", "t")]))),
        "missing or non-string argument 'post_id'"
    );
    match call_tool(&params("read_parents", vec![text("post_id", "p"), text("thread_id", "t")])) {
        Ok(ToolCall::Parents { path, post_id }) => {
            assert_eq!(path, "/threads/t");
            assert_eq!(post_id, "p");
        }
        _ => panic!("expected a parents call"),
    }
}

#[test]
fn create_thread_keeps_text_topics_only() {
    let args = vec![
        text("title", "Hello"),
        arg("topics", ArgValue::List(vec![Some("a".to_string()), None, Some("b".to_string())])),
        text("agent_name", "bot"),
    ];
    match call_tool(&params("create_thread", args)) {
        Ok(ToolCall::Multipart { path, body: RequestBody::NewThread { title, body, topics, agent } }) => {
            assert_eq!(path, "/threads");
            assert_eq!(title, "Hello");
            assert_eq!(body, None);
            assert_eq!(topics, vec!["a".to_string(), "b".to_string()]);
            assert_eq!(agent.as_deref(), Some("bot"));
        }
        _ => panic!("expected a thread creation"),
    }
}

#[test]
fn create_post_and_reactions_build_paths() {
    match call_tool(&params("create_post", vec![text("thread_id", "t9"), text("body", "hi")])) {
        Ok(ToolCall::Post { path, body: RequestBody::NewPost { thread_id, body, parent_post_ids, agent } }) => {
            assert_eq!(path, "/threads/t9/posts");
            assert_eq!(thread_id, "t9");
            assert_eq!(body, "hi");
            assert!(parent_post_ids.is_empty());
            assert!(agent.is_none());
        }
        _ => panic!("expected a post"),
    }
    let c = call_tool(&params("unreact", vec![text("post_id", "p1"), text("emoji", "x")])).ok().unwrap();
    assert_eq!(path_of(&c), "/posts/p1/unreact");
    let c = call_tool(&params("react", vec![text("post_id", "p1"), text("emoji", "x")])).ok().unwrap();
    assert_eq!(path_of(&c), "/posts/p1/react");
}

#[test]
fn peer_and_moderation_tools() {
    let c = call_tool(&params("read_messages", vec![text("peer_id", "q")])).ok().unwrap();
    assert_eq!(path_of(&c), "/dms/q/messages?limit=50");
    match call_tool(&params("block_peer", vec![text("peer_id", "q"), arg("reason", ArgValue::Null)])) {
        Ok(ToolCall::Post { path, body: RequestBody::BlockReason { reason } }) => {
            assert_eq!(path, "/blocking/peers/q");
            assert!(reason.is_none());
        }
        _ => panic!("expected a block"),
    }
    assert!(matches!(call_tool(&params("unblock_peer", vec![text("peer_id", "q")])), Ok(ToolCall::Delete { .. })));
    let c = call_tool(&params("health", vec![])).ok().unwrap();
    assert_eq!(path_of(&c), "/health");
    let c = call_tool(&params("get_unread_count", vec![])).ok().unwrap();
    assert_eq!(path_of(&c), "/dms/unread/count");
}

#[test]
fn methods_are_routed() {
    assert!(matches!(route_request("mcp.list_tools", &None), Ok(Routed::Catalog)));
    assert!(matches!(route_request("mcp.call_tool", &params("health", vec![])), Ok(Routed::Call(_))));
    match route_request("mcp.other", &None) {
        Err(e) => {
            assert_eq!(e.message(), "method 'mcp.other' not found");
            assert_eq!(error_code(&e.message()), -32601);
        }
        Ok(_) => panic!("expected a failure"),
    }
}

fn entry(id: Option<&str>, created: Option<&str>, parents: Option<Vec<Option<&str>>>) -> PostEntry {
    PostEntry {
        id: id.map(|s| s.to_string()),
        created_at: created.map(|s| s.to_string()),
        parent_post_ids: parents.map(|v| v.into_iter().map(|p| p.map(|s| s.to_string())).collect()),
    }
}

#[test]
fn latest_posts_newest_first_stable_and_truncated() {
    let posts = vec![
        entry(Some("a"), Some("2024-01-01"), None),
        entry(Some("b"), None, None),
        entry(Some("c"), Some("2024-03-01"), None),
        entry(Some("d"), Some("2024-03-01"), None),
    ];
    assert_eq!(latest_posts(&posts, 3), vec![2, 3, 0]);
    assert_eq!(latest_posts(&posts, 10), vec![2, 3, 0, 1]);
    assert_eq!(latest_posts(&posts, 0), Vec::<usize>::new());
}

#[test]
fn parent_entries_follow_thread_order() {
    let posts = vec![
        entry(Some("a"), None, None),
        entry(Some("b"), None, Some(vec![Some("c"), None, Some("a")])),
        entry(Some("c"), None, None),
        entry(None, None, None),
        entry(Some("b"), None, Some(vec![Some("c")])),
    ];
    assert_eq!(parent_entries(&posts, "b"), vec![0, 2]);
    assert_eq!(parent_entries(&posts, "zzz"), Vec::<usize>::new());
}

#[test]
fn error_codes_follow_the_message() {
    assert_eq!(error_code("backend /x returned 404 Not Found: {}"), -32603);
    assert_eq!(error_code("thread not found"), -32601);
    assert_eq!(error_code(""), -32603);
}

fn percent_decode(s: &str) -> Vec<u8> {
    let b = s.as_bytes();
    let mut out = Vec::new();
    let mut i = 0;
    while i < b.len() {
        if b[i] == b'%' && i + 2 < b.len() {
            out.push(u8::from_str_radix(&s[i + 1..i + 3], 16).unwrap());
            i += 3;
        } else {
            out.push(b[i]);
            i += 1;
        }
    }
    out
}

#[test]
fn urlencoding_is_ascii_sized_per_byte_and_decodes_back() {
    for input in ["", "plain", "a b&c/\u{e9}", "\u{1F44D} ok?", "%41", "~._-"] {
        let out = urlencoding(input);
        assert!(out.is_ascii());
        let expected_len: usize = input
            .bytes()
            .map(|b| if b.is_ascii_alphanumeric() || b"-_.~".contains(&b) { 1 } else { 3 })
            .sum();
        assert_eq!(out.len(), expected_len);
        assert_eq!(percent_decode(&out), input.as_bytes().to_vec());
    }
}

#[test]
fn missing_or_non_text_required_arguments_fail_in_catalog_order() {
    let r = call_tool(&params("read_parents", vec![text("thread_id", "t1")]));
    assert_eq!(failure(r), "missing or non-string argument 'post_id'");
    let r = call_tool(&params("read_parents", vec![arg("thread_id", ArgValue::Unsigned(3)), text("post_id", "p")]));
    assert_eq!(failure(r), "missing or non-string argument 'thread_id'");
    let r = call_tool(&params("send_dm", vec![text("to_peer_id", "x"), arg("body", ArgValue::Null)]));
    assert_eq!(failure(r), "missing or non-string argument 'body'");
    let r = call_tool(&params("create_post", vec![text("thread_id", "t"), text("body", "hi")]));
    assert!(r.is_ok());
}
