use karmx::budget::{combine, truncate_to_budget, Budget, DEFAULT_TOTAL_BUDGET};
use karmx::context_tools::{
    enhance_report, message_for_chunk, required, rerank_messages, rerank_report, retrieval_budget,
    retrieval_report, unavailable, which_tool, ContextTool, ENHANCE_TOOL, RERANK_TOOL,
    RETRIEVAL_TOOL,
};
use karmx::enhance::{
    build_request as enhance_request, classify, finish_enhancement, parse_enhanced_prompt,
    start_enhancement, EnhanceStart, Enhancement, Status,
};
use karmx::rerank::{
    apply_ranking, build_request, chunk_messages, extract_index_array, format_chunks,
    should_rerank, Chunk, Message,
};
use karmx::workspace::{is_always_skipped, query_terms, Hit, WorkspaceIndex};

const RERANK_TEMPLATE: &str = "Rank the chunks for the query.\nQuery: {{query}}\n\nChunks:\n{{chunks}}\n\nAnswer with a JSON array of chunk indices.";

const ENHANCE_TEMPLATE: &str = "Here is an instruction that I'd like to give you, but it needs to be improved. Reply inside <enhanced-prompt></enhanced-prompt>.\n\n### BEGIN RESPONSE ###\n";

fn msgs(n: usize) -> Vec<Message> {
    (0..n)
        .map(|i| Message {
            role: if i % 2 == 0 {
                "user".into()
            } else {
                "assistant".into()
            },
            content: format!("message number {i}"),
            timestamp_ms: 1000 + i as i64,
        })
        .collect()
}

#[test]
fn budget_halves_never_exceed_total() {
    let b = Budget::split(1000, 400);
    assert_eq!(b.codebase, 600);
    assert_eq!(b.conversation, 400);
    assert_eq!(b.codebase + b.conversation, b.total);

    let b2 = Budget::split(1000, 5000);
    assert_eq!(b2.conversation, 1000);
    assert_eq!(b2.codebase, 0);
}

#[test]
fn default_budget_matches_capture() {
    let b = Budget::default_budget();
    assert_eq!(b.total, 20_000);
    assert_eq!(b.codebase, 20_000);
    assert_eq!(b.conversation, 0);
}

#[test]
fn truncate_reports_flag() {
    let (t, hit) = truncate_to_budget("abcdef", 3);
    assert_eq!(t, "abc");
    assert!(hit);
    let (t2, hit2) = truncate_to_budget("abc", 10);
    assert_eq!(t2, "abc");
    assert!(!hit2);
}

#[test]
fn truncate_respects_multibyte_boundary() {
    let s = "αααα";
    let (t, hit) = truncate_to_budget(s, 3);
    assert!(hit);
    assert_eq!(t, "α");
}

#[test]
fn combine_records_both_stages() {
    let (text, m) = combine(Budget::split(100, 40), "code", "conv");
    assert!(text.contains("code"));
    assert!(text.contains("conv"));
    assert_eq!(m.total_budget, 100);
    assert_eq!(m.codebase_result_len_pre_truncation, 4);
    assert_eq!(m.conversation_result_len_pre_truncation, 4);
    assert!(!m.codebase_truncated);
}

#[test]
fn combine_marks_truncation_and_distinguishes_empty() {
    let cb = "x".repeat(500);
    let (_, m) = combine(Budget::split(100, 0), &cb, "");
    assert!(m.codebase_truncated, "500 bytes into 100 must truncate");
    assert_eq!(m.codebase_result_len, 100);
    assert_eq!(m.conversation_result_len, 0);
    assert_eq!(m.codebase_result_len_pre_truncation, 500);
}

#[test]
fn combined_text_never_exceeds_the_total() {
    let (text, m) = combine(Budget::split(10, 5), "0123456789", "abcdefghij");
    assert!(text.len() <= 10, "got {} bytes", text.len());
    assert_eq!(m.combined_result_len, text.len());
}

#[test]
fn parses_short_tag() {
    let r = "noise <enhanced-prompt>Do the thing properly.</enhanced-prompt> more";
    assert_eq!(parse_enhanced_prompt(r).unwrap(), "Do the thing properly.");
}

#[test]
fn parses_long_tag_variant() {
    let r = "<augment-enhanced-prompt>\n  Better prompt\n</augment-enhanced-prompt>";
    assert_eq!(parse_enhanced_prompt(r).unwrap(), "Better prompt");
}

#[test]
fn rejects_empty_tag_body() {
    assert!(parse_enhanced_prompt("<enhanced-prompt>   </enhanced-prompt>").is_none());
}

#[test]
fn returns_none_when_absent() {
    assert!(parse_enhanced_prompt("just a normal answer").is_none());
}

#[test]
fn builds_request_with_prompt_appended() {
    let r = enhance_request(ENHANCE_TEMPLATE, "fix the bug");
    assert!(r.starts_with("Here is an instruction"));
    assert!(r.ends_with("fix the bug"));
}

#[test]
fn classify_maps_transport_failures() {
    assert_eq!(classify("connection refused"), Status::NetworkError);
    assert_eq!(classify("request timed out"), Status::NetworkError);
    assert_eq!(classify("http status 500"), Status::ApiError);
    assert_eq!(classify("something odd"), Status::UnknownError);
}

#[test]
fn empty_prompt_is_answered_without_a_model_call() {
    match start_enhancement(ENHANCE_TEMPLATE, "   ", None) {
        EnhanceStart::Done(e) => {
            assert_eq!(e.status, Status::EmptyPrompt);
            assert_eq!(e.prompt, "   ");
            assert!(!e.was_enhanced);
            assert_eq!(e.error_message.as_deref(), Some("Cannot enhance empty prompt"));
        }
        EnhanceStart::Ask(_) => panic!("empty prompt must not be sent"),
    }
}

#[test]
fn context_is_prepended_to_the_request() {
    match start_enhancement("I:", " fix it ", Some("file a.rs")) {
        EnhanceStart::Ask(q) => assert_eq!(
            q,
            "Session context (use it to resolve references, do not answer it):\nfile a.rs\n\nI:fix it"
        ),
        EnhanceStart::Done(_) => panic!("non-empty prompt must be sent"),
    }
    match start_enhancement("I:", "fix", Some("   ")) {
        EnhanceStart::Ask(q) => assert_eq!(q, "I:fix"),
        EnhanceStart::Done(_) => panic!("non-empty prompt must be sent"),
    }
}

#[test]
fn finishing_fails_open() {
    let ok = finish_enhancement("orig", Ok("<enhanced-prompt>better</enhanced-prompt>".into()));
    assert_eq!(ok.status, Status::Success);
    assert_eq!(ok.prompt, "better");
    assert!(ok.was_enhanced);

    let unparsed = finish_enhancement("orig", Ok("no tags".into()));
    assert_eq!(unparsed.status, Status::ParsingError);
    assert_eq!(unparsed.prompt, "orig");
    assert!(!unparsed.was_enhanced);

    let failed = finish_enhancement("orig", Err("Connection reset".into()));
    assert_eq!(failed.status, Status::NetworkError);
    assert_eq!(failed.prompt, "orig");
    assert_eq!(failed.error_message.as_deref(), Some("Connection reset"));
}

#[test]
fn status_names_are_snake_case() {
    assert_eq!(Status::EmptyPrompt.as_str(), "empty_prompt");
    assert_eq!(Status::ParsingError.as_str(), "parsing_error");
    let e = Enhancement::passthrough("p", Status::ApiError, Some("x".into()));
    assert_eq!(enhance_report(&e), "status: api_error\nenhanced: false\nerror: x\n\np");
}

#[test]
fn budget_default_matches_capture() {
    assert_eq!(DEFAULT_TOTAL_BUDGET, 20_000);
}

#[test]
fn chunks_group_and_keep_all_content() {
    let c = chunk_messages(&msgs(10), 60);
    assert!(c.len() > 1, "should split");
    let joined: String = c.iter().map(|x| x.text.clone()).collect();
    for i in 0..10 {
        assert!(
            joined.contains(&format!("message number {i}")),
            "lost message {i}"
        );
    }
}

#[test]
fn oversized_single_message_kept_whole() {
    let m = vec![Message {
        role: "user".into(),
        content: "x".repeat(500),
        timestamp_ms: 1,
    }];
    let c = chunk_messages(&m, 50);
    assert_eq!(c.len(), 1);
    assert_eq!(c[0].text.len(), 500 + "[user] ".len() + 1 - 1);
}

#[test]
fn request_substitutes_both_placeholders() {
    let c = chunk_messages(&msgs(4), 10_000);
    let r = build_request(RERANK_TEMPLATE, "how does auth work", &c);
    assert!(r.contains("how does auth work"));
    assert!(r.contains("--- Chunk 0"));
    assert!(!r.contains("{{query}}"));
    assert!(!r.contains("{{chunks}}"));
}

#[test]
fn chunks_carry_timestamps_for_the_recency_tie_break() {
    let c = chunk_messages(&msgs(6), 30);
    assert!(c.len() > 1);
    let req = build_request(RERANK_TEMPLATE, "q", &c);
    assert!(req.contains("timestamp_ms:"), "timestamps must be emitted");
    assert!(req.contains("timestamp_ms: 1000") || req.contains("timestamp_ms: 100"));
}

#[test]
fn extracts_array_from_noisy_response() {
    let r = "Here you go: [2, 0, 1] — sorted.";
    assert_eq!(extract_index_array(r).unwrap(), vec![2, 0, 1]);
}

#[test]
fn rejects_non_integer_entries() {
    assert!(extract_index_array("[0, \"one\"]").is_none());
}

#[test]
fn no_array_returns_none() {
    assert!(extract_index_array("I cannot rank these.").is_none());
}

#[test]
fn empty_query_does_not_rerank() {
    assert!(!should_rerank("   ", 5));
    assert!(!should_rerank("q", 1));
    assert!(should_rerank("q", 2));
}

#[test]
fn chunk_blocks_are_formatted_with_ranges() {
    let c = vec![
        Chunk { start: 0, end: 2, timestamp_ms: 7, text: "a".into() },
        Chunk { start: 2, end: 3, timestamp_ms: 9, text: "b".into() },
    ];
    assert_eq!(
        format_chunks(&c),
        "--- Chunk 0 (timestamp_ms: 7, messages 0-2) ---\na\n\n--- Chunk 1 (timestamp_ms: 9, messages 2-3) ---\nb"
    );
}

#[test]
fn ranking_reorders_dedups_and_fails_open() {
    let c: Vec<Chunk> = (0..3)
        .map(|i| Chunk { start: i, end: i + 1, timestamp_ms: i as i64, text: format!("t{i}") })
        .collect();
    let texts = |v: Vec<Chunk>| v.into_iter().map(|c| c.text).collect::<Vec<_>>();
    assert_eq!(texts(apply_ranking(c.clone(), Some(vec![2, 0, 2]))), vec!["t2", "t0"]);
    assert!(apply_ranking(c.clone(), Some(vec![])).is_empty());
    assert_eq!(texts(apply_ranking(c.clone(), Some(vec![5]))), vec!["t0", "t1", "t2"]);
    assert_eq!(texts(apply_ranking(c.clone(), Some(vec![-1]))), vec!["t0", "t1", "t2"]);
    assert_eq!(texts(apply_ranking(c, None)), vec!["t0", "t1", "t2"]);
}

#[test]
fn first_array_only_is_read() {
    assert_eq!(extract_index_array("[1] then [2]").unwrap(), vec![1]);
    assert!(extract_index_array("[1, 2").is_none());
}

#[test]
fn tools_and_replies() {
    assert_eq!(which_tool(RETRIEVAL_TOOL), Ok(ContextTool::Retrieval));
    assert_eq!(which_tool(ENHANCE_TOOL), Ok(ContextTool::Enhance));
    assert_eq!(which_tool(RERANK_TOOL), Ok(ContextTool::Rerank));
    assert!(which_tool("nope").is_err());
    assert_eq!(required("query"), "query is required");
    assert_eq!(unavailable("index", "boom"), "index unavailable: boom");
    let b = retrieval_budget(None);
    assert_eq!((b.total, b.codebase, b.conversation), (20_000, 20_000, 0));
    let b = retrieval_budget(Some(50));
    assert_eq!((b.total, b.codebase, b.conversation), (50, 50, 0));
    assert_eq!(
        retrieval_report("out", 3, 2, true),
        "out\n\n[files indexed: 3 | hits: 2 | truncated: true]"
    );
    let m = message_for_chunk(Some("hi".into()), None);
    assert_eq!((m.role.as_str(), m.content.as_str(), m.timestamp_ms), ("chunk", "hi", 0));
    let kept = vec![Chunk { start: 0, end: 1, timestamp_ms: 0, text: "x".into() }];
    assert_eq!(rerank_report(&kept, 4), "kept 1/4 chunks (ranked)\n\nx");
    assert_eq!(rerank_report(&[], 4), "kept 0/4 chunks (ranked)\n\n(nothing relevant)");
}

fn index(files: &[&str], max: usize) -> Result<WorkspaceIndex, String> {
    WorkspaceIndex::from_files(
        "/ws".to_string(),
        files.iter().map(|f| format!("/ws/{f}")).collect(),
        max,
    )
}

#[test]
fn indexes_and_finds_terms() {
    let idx = index(&["a.rs", "b.rs"], 1000).unwrap();
    assert_eq!(idx.file_count(), 2);
    let contents = vec![
        Some("fn authenticate() {}\n// unrelated\n".to_string()),
        Some("fn other() {}\n".to_string()),
    ];
    let hits = idx.search("authenticate", 10, &contents);
    assert_eq!(hits.len(), 1, "only a.rs mentions it");
    assert!(hits[0].path.ends_with("a.rs"));
    assert_eq!(hits[0].line, 1);
}

#[test]
fn too_many_files_is_rejected() {
    let names: Vec<String> = (0..12).map(|i| format!("f{i}.txt")).collect();
    let refs: Vec<&str> = names.iter().map(|s| s.as_str()).collect();
    let err = index(&refs, 5).unwrap_err();
    assert!(err.contains("more than 5 files"), "got: {err}");
}

#[test]
fn gitignored_paths_are_skipped() {
    assert!(is_always_skipped("node_modules"));
    assert!(is_always_skipped(".git"));
    assert!(!is_always_skipped("src"));
    let idx = index(&["keep.rs"], 1000).unwrap();
    let hits = idx.search("authenticate", 10, &[Some("authenticate".to_string())]);
    assert_eq!(hits.len(), 1);
    assert!(hits[0].path.ends_with("keep.rs"));
}

#[test]
fn empty_query_returns_nothing() {
    let idx = index(&["a.rs"], 100).unwrap();
    assert!(query_terms("a b").is_empty());
    assert!(idx.search("a b", 10, &[Some("content".to_string())]).is_empty(), "terms too short");
}

#[test]
fn hits_rank_by_coverage_then_path_then_line() {
    let idx = index(&["b.rs", "a.rs", "c.rs"], 100).unwrap();
    let contents = vec![
        Some("token here\nnothing\ntoken again".to_string()),
        Some("token and parser\n".to_string()),
        None,
    ];
    let hits = idx.search("Token PARSER", 10, &contents);
    let got: Vec<(String, usize, i64)> =
        hits.iter().map(|h| (h.path.clone(), h.line, h.score)).collect();
    assert_eq!(
        got,
        vec![
            ("/ws/a.rs".to_string(), 1, 6),
            ("/ws/b.rs".to_string(), 1, 3),
            ("/ws/b.rs".to_string(), 3, 3),
        ]
    );
    let top = idx.search("token parser", 1, &contents);
    assert_eq!(top.len(), 1);
    assert_eq!(top[0].path, "/ws/a.rs");
}

#[test]
fn query_terms_are_lowercased_runs_longer_than_two_bytes() {
    assert_eq!(query_terms("Foo_bar, ab; CDE!"), vec!["foo_bar", "cde"]);
}

#[test]
fn hits_are_presented_relative_to_the_root() {
    let idx = index(&["src/a.rs"], 100).unwrap();
    let hits = vec![Hit {
        path: "/ws/src/a.rs".into(),
        score: 4,
        line: 12,
        snippet: "fn a()".into(),
    }];
    assert_eq!(
        idx.format_hits(&hits),
        "The following code sections were retrieved:\n\nsrc/a.rs:12 (score 4)\nfn a()\n"
    );
    assert_eq!(idx.format_hits(&[]), "The following code sections were retrieved:\n");
    assert_eq!(idx.root(), "/ws");
    assert_eq!(idx.files().len(), 1);
}

#[test]
fn long_lines_are_cut_to_the_snippet_length() {
    let idx = index(&["a.rs"], 100).unwrap();
    let line = format!("   needle {}", "y".repeat(400));
    let hits = idx.search("needle", 5, &[Some(line)]);
    assert_eq!(hits.len(), 1);
    assert_eq!(hits[0].snippet.chars().count(), 240);
    assert!(hits[0].snippet.starts_with("needle"));
}

#[test]
fn chunk_ranges_cover_every_message_once() {
    for max in [1usize, 30, 60, 10_000] {
        let ms = msgs(7);
        let c = chunk_messages(&ms, max);
        assert_eq!(c[0].start, 0);
        assert_eq!(c.last().unwrap().end, 7);
        for w in c.windows(2) {
            assert_eq!(w[0].end, w[1].start, "max={max}");
        }
        for ch in &c {
            assert!(ch.start < ch.end);
            let expected: String = ms[ch.start..ch.end]
                .iter()
                .map(|m| format!("[{}] {}\n", m.role, m.content))
                .collect();
            assert_eq!(ch.text, expected.trim_end());
        }
    }
    assert!(chunk_messages(&[], 10).is_empty());
}

#[test]
fn exposes_three_tools() {
    let tools = karmx::context_tools::get_tools();
    let names: Vec<&str> = tools.iter().map(|t| t.name).collect();
    assert!(names.contains(&RETRIEVAL_TOOL));
    assert!(names.contains(&ENHANCE_TOOL));
    assert!(names.contains(&RERANK_TOOL));
}

#[test]
fn tool_schemas_declare_required_args() {
    for tool in karmx::context_tools::get_tools() {
        let schema: serde_json::Value = serde_json::from_str(tool.input_schema).unwrap();
        assert!(
            schema.as_object().unwrap().contains_key("properties"),
            "tool {} has no properties",
            tool.name
        );
    }
}

#[test]
fn hits_under_the_file_system_root_are_relative_to_it() {
    let idx = WorkspaceIndex::from_files("/".to_string(), vec!["/c.rs".to_string()], 10).unwrap();
    let hits = vec![Hit { path: "/c.rs".into(), score: 3, line: 1, snippet: "x".into() }];
    assert_eq!(
        idx.format_hits(&hits),
        "The following code sections were retrieved:\n\nc.rs:1 (score 3)\nx\n"
    );
    let idx = WorkspaceIndex::from_files("/ws/".to_string(), vec![], 10).unwrap();
    let hits = vec![
        Hit { path: "/ws/src/a.rs".into(), score: 1, line: 2, snippet: "y".into() },
        Hit { path: "/wsx/b.rs".into(), score: 1, line: 3, snippet: "z".into() },
    ];
    assert_eq!(
        idx.format_hits(&hits),
        "The following code sections were retrieved:\n\nsrc/a.rs:2 (score 1)\ny\n\n/wsx/b.rs:3 (score 1)\nz\n"
    );
}

#[test]
fn relative_paths_keep_the_text_after_the_root() {
    let idx = WorkspaceIndex::from_files("/r".to_string(), vec![], 10).unwrap();
    let shown = |path: &str| {
        let hits = vec![Hit { path: path.into(), score: 1, line: 1, snippet: "s".into() }];
        let out = idx.format_hits(&hits);
        let head = "The following code sections were retrieved:\n\n";
        out[head.len()..out.find(":1 (score").unwrap()].to_string()
    };
    assert_eq!(shown("/r/a//b.rs"), "a//b.rs");
    assert_eq!(shown("/r/a/./b.rs"), "a/./b.rs");
    assert_eq!(shown("/r//a/b.rs/"), "a/b.rs");
    assert_eq!(shown("/r/./a"), "a");
    assert_eq!(shown("//r/a"), "a");
    assert_eq!(shown("/r"), "");
    assert_eq!(shown("/rx/a"), "/rx/a");
    let rel = WorkspaceIndex::from_files("".to_string(), vec![], 10).unwrap();
    let hits = vec![Hit { path: ".//a/".into(), score: 1, line: 1, snippet: "s".into() }];
    assert_eq!(
        rel.format_hits(&hits),
        "The following code sections were retrieved:\n\n.//a:1 (score 1)\ns\n"
    );
}

#[test]
fn rerank_chunks_must_be_an_array() {
    assert_eq!(rerank_messages(None).unwrap_err(), "chunks must be an array");
    assert!(rerank_messages(Some(vec![])).unwrap().is_empty());
    let ms = rerank_messages(Some(vec![
        (Some("first".to_string()), Some(7)),
        (None, None),
    ]))
    .unwrap();
    assert_eq!(ms.len(), 2);
    assert_eq!((ms[0].role.as_str(), ms[0].content.as_str(), ms[0].timestamp_ms), ("chunk", "first", 7));
    assert_eq!((ms[1].role.as_str(), ms[1].content.as_str(), ms[1].timestamp_ms), ("chunk", "", 0));
}

#[test]
fn a_failed_ranking_call_keeps_the_chunks() {
    let c: Vec<Chunk> = (0..3)
        .map(|i| Chunk { start: i, end: i + 1, timestamp_ms: i as i64, text: format!("t{i}") })
        .collect();
    let texts = |v: Vec<Chunk>| v.into_iter().map(|c| c.text).collect::<Vec<_>>();
    assert_eq!(texts(karmx::rerank::finish_rerank(c.clone(), Err("timeout".into()))), vec!["t0", "t1", "t2"]);
    assert_eq!(texts(karmx::rerank::finish_rerank(c.clone(), Ok("ranked: [1, 0]".into()))), vec!["t1", "t0"]);
    assert_eq!(texts(karmx::rerank::finish_rerank(c.clone(), Ok("no idea".into()))), vec!["t0", "t1", "t2"]);
    assert!(karmx::rerank::finish_rerank(c, Ok("[]".into())).is_empty());
}
