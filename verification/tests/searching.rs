use nodespace_core::chunking::ChunkInfo;
use nodespace_core::embedding::{EmbeddingConfig, NodeEmbeddingService};
use nodespace_core::error::NodeServiceError;
use nodespace_core::hits::SearchHit;
use nodespace_core::json::{Number, Object, Value};
use nodespace_core::node::Node;
use nodespace_core::protocol::{Outcome, Reply, Request, Step};
use nodespace_core::reading::make_node;
use nodespace_core::search::SearchScope;
use nodespace_core::service::NodeService;

fn empty() -> Value {
    Value::Object(Object::new())
}

fn number(f: f64) -> Number {
    Number::Float(f.to_bits())
}

fn node(id: &str, node_type: &str, title: Option<&str>) -> Node {
    let mut n = make_node(id, node_type, id, empty(), 0);
    n.title = title.map(|t| t.to_string());
    n
}

fn hit(id: &str, score: f64, node: Option<Node>) -> SearchHit {
    SearchHit {
        node_id: id.to_string(),
        score: number(score),
        max_similarity: number(score),
        matching_chunks: 1,
        node,
    }
}

fn service() -> NodeEmbeddingService {
    NodeEmbeddingService::with_config(EmbeddingConfig::default())
}

/// Runs an operation with replies that are made as it asks for them.
fn run(
    op: &dyn Fn(&Vec<Reply>) -> Step,
    answer: &mut dyn FnMut(Request) -> Reply,
) -> Result<Outcome, NodeServiceError> {
    let mut log: Vec<Reply> = vec![];
    loop {
        match op(&log) {
            Step::Ask(request) => log.push(answer(request)),
            Step::Finish(outcome) => return Ok(outcome),
            Step::Fail(error) => return Err(error),
            Step::Mismatch => panic!("{:?} does not fit", log.last()),
        }
    }
}

fn ids(outcome: Result<Outcome, NodeServiceError>) -> Vec<String> {
    match outcome.unwrap() {
        Outcome::Hits { hits } => hits.into_iter().map(|h| h.node_id).collect(),
        other => panic!("{:?}", other),
    }
}

fn failed() -> Reply {
    Reply::Failed { message: "disk on fire".to_string() }
}

#[test]
fn blank_queries_are_refused() {
    let s = service();
    for query in ["", "  ", "\n\t"] {
        for step in [
            s.semantic_search(query, 5, 0, &vec![]),
            s.semantic_search_nodes_of_type(query, "text", 5, 0, &vec![]),
        ] {
            assert!(matches!(
                step,
                Step::Fail(NodeServiceError::InvalidUpdate(m)) if m == "Search query cannot be empty"
            ));
        }
    }
}

#[test]
fn titles_and_keywords_decide_the_order() {
    let s = service();
    let threshold = 0.25f64.to_bits();
    let mut answer = |request: Request| match request {
        Request::EmbedQuery { text } => {
            assert_eq!(text, "Rust guide");
            Reply::Done
        }
        Request::HybridSearch { query, limit, threshold: t, keyword_limit } => {
            assert_eq!(query, "Rust guide");
            assert_eq!((limit, keyword_limit), (5, 10));
            assert_eq!(t, threshold);
            Reply::Found {
                hits: vec![
                    hit("plain", 0.9, Some(node("plain", "text", None))),
                    hit("titled", 0.5, Some(node("titled", "text", Some("A RUST book")))),
                    hit("both", 0.4, Some(node("both", "text", None))),
                ],
                keyword_roots: vec![
                    "z".to_string(),
                    "both".to_string(),
                    "gone".to_string(),
                    "a".to_string(),
                    "a".to_string(),
                ],
            }
        }
        Request::Boost { scores } => {
            assert_eq!(scores.len(), 1);
            assert!(scores[0].same(&number(0.5)));
            Reply::Scores { scores: vec![number(0.95)] }
        }
        Request::LoadNode { id } => {
            if id == "gone" {
                Reply::Node { node: None }
            } else {
                Reply::Node { node: Some(node(id.as_str(), "text", None)) }
            }
        }
        other => panic!("{:?}", other),
    };
    let found = ids(run(&|log| s.semantic_search("Rust guide", 5, threshold, log), &mut answer));
    assert_eq!(found, vec!["both", "titled", "plain", "a"]);
}

#[test]
fn roots_found_by_keyword_alone_fill_what_room_there_is() {
    let s = service();
    let search = |limit: usize, roots: Vec<&str>| {
        let roots: Vec<String> = roots.into_iter().map(|r| r.to_string()).collect();
        let mut answer = |request: Request| match request {
            Request::EmbedQuery { .. } => Reply::Done,
            Request::HybridSearch { .. } => {
                Reply::Found { hits: vec![hit("h", 0.9, None)], keyword_roots: roots.clone() }
            }
            Request::LoadNode { id } => Reply::Node { node: Some(node(&id, "text", None)) },
            other => panic!("{:?}", other),
        };
        ids(run(&|log| s.semantic_search("words", limit, 0, log), &mut answer))
    };
    assert_eq!(search(3, vec!["c", "b", "a"]), vec!["h", "a", "b"]);
    assert_eq!(search(1, vec!["c", "b", "a"]), vec!["h"]);
    assert_eq!(search(9, vec![]), vec!["h"]);
}

#[test]
fn failures_of_a_search_say_which_part_failed() {
    let s = service();
    let result = run(&|log| s.semantic_search("q", 5, 0, log), &mut |_| failed());
    assert!(matches!(
        result,
        Err(NodeServiceError::SerializationError(m))
            if m == "Failed to generate query embedding: disk on fire"
    ));
    let vector = vec![Reply::Done, Reply::VectorSearchFailed { message: "x".to_string() }];
    assert!(matches!(
        s.semantic_search("q", 5, 0, &vector),
        Step::Fail(NodeServiceError::QueryFailed(m)) if m == "KNN search failed: x"
    ));
    let keyword = vec![Reply::Done, Reply::KeywordSearchFailed { message: "x".to_string() }];
    assert!(matches!(
        s.semantic_search("q", 5, 0, &keyword),
        Step::Fail(NodeServiceError::QueryFailed(m)) if m == "BM25 search failed: x"
    ));
    let typed = vec![Reply::Done, failed()];
    assert!(matches!(
        s.semantic_search_nodes_of_type("q", "text", 5, 0, &typed),
        Step::Fail(NodeServiceError::QueryFailed(m))
            if m == "Typed embedding search failed: disk on fire"
    ));
}

#[test]
fn scopes_select_by_type() {
    let custom = |wanted: Vec<&str>, unwanted: Vec<&str>| SearchScope::Custom {
        include_types: wanted.into_iter().map(|t| t.to_string()).collect(),
        exclude_types: unwanted.into_iter().map(|t| t.to_string()).collect(),
    };
    for t in ["text", "header", "code-block", "schema", "table"] {
        assert!(NodeEmbeddingService::matches_scope(t, &SearchScope::Knowledge));
    }
    assert!(!NodeEmbeddingService::matches_scope("ai-chat", &SearchScope::Knowledge));
    assert!(NodeEmbeddingService::matches_scope("ai-chat", &SearchScope::Conversations));
    assert!(!NodeEmbeddingService::matches_scope("text", &SearchScope::Conversations));
    assert!(NodeEmbeddingService::matches_scope("anything", &SearchScope::Everything));
    assert!(NodeEmbeddingService::matches_scope("text", &custom(vec![], vec!["task"])));
    assert!(NodeEmbeddingService::matches_scope("text", &custom(vec!["text"], vec![])));
    assert!(!NodeEmbeddingService::matches_scope("date", &custom(vec!["text"], vec![])));
    assert!(!NodeEmbeddingService::matches_scope("text", &custom(vec!["text"], vec!["text"])));
}

#[test]
fn scoped_searches_look_for_twice_as_many_hits() {
    let s = service();
    let mut answer = |request: Request| match request {
        Request::SemanticSearch { limit, .. } => {
            assert_eq!(limit, 4);
            Reply::Hits {
                hits: vec![
                    hit("a", 0.9, Some(node("a", "ai-chat", None))),
                    hit("b", 0.8, Some(node("b", "text", None))),
                    hit("c", 0.7, None),
                    hit("d", 0.6, Some(node("d", "text", None))),
                ],
            }
        }
        other => panic!("{:?}", other),
    };
    let found = ids(run(
        &|log| s.semantic_search_scoped("q", 2, 0, &SearchScope::Knowledge, log),
        &mut answer,
    ));
    assert_eq!(found, vec!["b", "c"]);
}

#[test]
fn filters_choose_among_three_times_as_many_hits() {
    let s = service();
    let hits = || {
        vec![
            hit("a", 0.9, Some(node("a", "text", None))),
            hit("b", 0.8, None),
            hit("c", 0.7, Some(node("c", "text", None))),
            hit("d", 0.6, Some(node("d", "text", None))),
        ]
    };
    let mut answer = |request: Request| match request {
        Request::SemanticSearch { limit, .. } => {
            assert_eq!(limit, 6);
            Reply::Hits { hits: hits() }
        }
        Request::MatchFilters { nodes } => {
            let ids: Vec<String> = nodes.into_iter().map(|n| n.id).collect();
            assert_eq!(ids, vec!["a", "c", "d"]);
            Reply::Flags { values: vec![false, true, true] }
        }
        other => panic!("{:?}", other),
    };
    let found =
        ids(run(&|log| s.semantic_search_nodes("q", 2, 0, Some(false), log), &mut answer));
    assert_eq!(found, vec!["c", "d"]);
    let mut answer = |request: Request| match request {
        Request::SemanticSearch { limit, .. } => {
            assert_eq!(limit, 2);
            Reply::Hits { hits: hits() }
        }
        other => panic!("{:?}", other),
    };
    let found = ids(run(&|log| s.semantic_search_nodes("q", 2, 0, None, log), &mut answer));
    assert_eq!(found, vec!["a", "c"]);
}

#[test]
fn searches_of_a_type_put_the_best_hits_first() {
    let s = service();
    let mut answer = |request: Request| match request {
        Request::EmbedQuery { .. } => Reply::Done,
        Request::SearchByType { node_type, limit, .. } => {
            assert_eq!(node_type, "text");
            assert_eq!(limit, 7);
            Reply::Hits {
                hits: vec![
                    hit("low", 0.1, Some(node("low", "text", None))),
                    hit("none", 0.5, None),
                    hit("high", 0.9, Some(node("high", "text", None))),
                ],
            }
        }
        other => panic!("{:?}", other),
    };
    let found = ids(run(
        &|log| s.semantic_search_nodes_of_type("q", "text", 7, 0, log),
        &mut answer,
    ));
    assert_eq!(found, vec!["high", "low"]);
}

fn small() -> NodeEmbeddingService {
    NodeEmbeddingService::with_config(EmbeddingConfig {
        max_tokens_per_chunk: 4,
        overlap_tokens: 0,
        chars_per_token_estimate: 2,
        ..EmbeddingConfig::default()
    })
}

#[test]
fn roots_are_embedded_chunk_by_chunk() {
    let s = small();
    let mut embedded: Vec<String> = vec![];
    let mut stored: Option<(String, Vec<ChunkInfo>)> = None;
    let mut answer = |request: Request| match request {
        Request::GetNode { id } => Reply::Node { node: Some(node(&id, "text", None)) },
        Request::ExtractContent { .. } => {
            assert!(s.can_chunk("aaaaaaaabbbbbbbbcc"));
            Reply::MaybeText { text: Some("aaaaaaaabbbbbbbbcc".to_string()) }
        }
        Request::EmbedText { text } => {
            embedded.push(text);
            Reply::Done
        }
        Request::StoreEmbeddings { root_id, content_hash, chunks } => {
            assert_eq!(root_id, "r");
            stored = Some((content_hash, chunks));
            Reply::Done
        }
        other => panic!("{:?}", other),
    };
    let outcome = run(&|log| s.embed_root_node("r", log), &mut answer).unwrap();
    assert!(matches!(outcome, Outcome::Nothing));
    assert_eq!(embedded, vec!["aaaaaaaa", "bbbbbbbb", "cc"]);
    let (hash, chunks) = stored.unwrap();
    assert_eq!(hash, NodeEmbeddingService::compute_content_hash("aaaaaaaabbbbbbbbcc"));
    assert_eq!(
        chunks,
        vec![
            ChunkInfo { chunk_index: 0, chunk_start: 0, chunk_end: 8, total_chunks: 3, token_count: 2 },
            ChunkInfo { chunk_index: 1, chunk_start: 8, chunk_end: 16, total_chunks: 3, token_count: 2 },
            ChunkInfo { chunk_index: 2, chunk_start: 16, chunk_end: 18, total_chunks: 3, token_count: 0 },
        ]
    );
}

#[test]
fn roots_without_text_lose_their_embeddings() {
    let s = service();
    let mut deleted = false;
    let mut answer = |request: Request| match request {
        Request::GetNode { id } => Reply::Node { node: Some(node(&id, "task", None)) },
        Request::ExtractContent { .. } => Reply::MaybeText { text: None },
        Request::DeleteEmbeddings { id } => {
            assert_eq!(id, "r");
            deleted = true;
            Reply::Done
        }
        other => panic!("{:?}", other),
    };
    run(&|log| s.embed_root_node("r", log), &mut answer).unwrap();
    assert!(deleted);
    let missing = run(&|log| s.embed_root_node("r", log), &mut |_| Reply::Node { node: None });
    assert!(matches!(missing, Err(NodeServiceError::NodeNotFound { id }) if id == "r"));
}

#[test]
fn the_text_of_a_root_joins_title_content_and_children() {
    let s = service();
    let n = node("r", "text", Some("Title"));
    let mut answer = |request: Request| match request {
        Request::OwnContent { .. } => Reply::MaybeText { text: Some("Own".to_string()) },
        Request::AggregatedContent { .. } => Reply::MaybeText { text: Some("Below".to_string()) },
        other => panic!("{:?}", other),
    };
    match run(&|log| s.extract_content_for_embedding(&n, log), &mut answer).unwrap() {
        Outcome::Content { text } => assert_eq!(text, Some("Title\n\nOwn\n\nBelow".to_string())),
        other => panic!("{:?}", other),
    }
    let nothing = run(&|log| s.extract_content_for_embedding(&n, log), &mut |_| {
        Reply::MaybeText { text: None }
    });
    assert!(matches!(nothing, Ok(Outcome::Content { text: None })));
}

#[test]
fn a_failure_does_not_stop_the_batch() {
    let s = service();
    let mut noted: Vec<String> = vec![];
    let mut answer = |request: Request| match request {
        Request::StaleRoots { limit, .. } => {
            assert_eq!(limit, 50);
            Reply::Texts { items: vec!["a".to_string(), "b".to_string(), "c".to_string()] }
        }
        Request::EmbedRoot { id } => {
            if id == "b" {
                Reply::Refused { error: NodeServiceError::QueryFailed("x".to_string()) }
            } else {
                Reply::Done
            }
        }
        Request::RecordEmbeddingError { id, .. } => {
            noted.push(id);
            failed()
        }
        other => panic!("{:?}", other),
    };
    let outcome = run(&|log| s.process_stale_embeddings(None, log), &mut answer).unwrap();
    assert!(matches!(outcome, Outcome::Count { count: 2 }));
    assert_eq!(noted, vec!["b"]);
}

#[test]
fn the_way_to_the_root_is_bounded() {
    let s = service();
    let mut asked = 0;
    let outcome = run(&|log| s.find_root_id("n", log), &mut |_| {
        asked += 1;
        Reply::Node { node: if asked < 3 { Some(node("up", "text", None)) } else { None } }
    });
    assert!(matches!(outcome, Ok(Outcome::Id { id }) if id == "up"));
    let endless = run(&|log| s.find_root_id("n", log), &mut |_| Reply::Node {
        node: Some(node("n", "text", None)),
    });
    assert!(matches!(
        endless,
        Err(NodeServiceError::QueryFailed(m)) if m == "Max parent chain depth (100) exceeded"
    ));
}

#[test]
fn nodes_below_one_root_queue_it_once() {
    let s = service();
    let nodes: Vec<String> = ["a", "b", "lost", "c"].iter().map(|i| i.to_string()).collect();
    let mut queued: Vec<String> = vec![];
    let mut answer = |request: Request| match request {
        Request::FindRoot { id } => match id.as_str() {
            "lost" => Reply::Refused { error: NodeServiceError::QueryFailed("x".to_string()) },
            "c" => Reply::Text { text: "other".to_string() },
            _ => Reply::Text { text: "root".to_string() },
        },
        Request::QueueForEmbedding { id } => {
            queued.push(id);
            Reply::Done
        }
        other => panic!("{:?}", other),
    };
    run(&|log| s.queue_nodes_for_embedding(&nodes, log), &mut answer).unwrap();
    assert_eq!(queued, vec!["root", "other"]);
}

#[test]
fn only_roots_that_can_be_embedded_are_marked() {
    let s = service();
    let queue = |own: Option<&str>, known: bool| {
        let mut asked: Vec<String> = vec![];
        let mut answer = |request: Request| match request {
            Request::FindRoot { .. } => Reply::Text { text: "r".to_string() },
            Request::GetNode { id } => Reply::Node { node: Some(node(&id, "text", None)) },
            Request::OwnContent { .. } => Reply::MaybeText { text: own.map(|s| s.to_string()) },
            Request::HasEmbeddings { .. } => Reply::Flag { value: known },
            Request::MarkStale { id } => {
                asked.push(format!("mark {}", id));
                Reply::Done
            }
            Request::CreateStaleMarker { id } => {
                asked.push(format!("create {}", id));
                Reply::Done
            }
            other => panic!("{:?}", other),
        };
        run(&|log| s.queue_for_embedding("n", log), &mut answer).unwrap();
        asked
    };
    assert_eq!(queue(None, false), Vec::<String>::new());
    assert_eq!(queue(Some("text"), false), vec!["create r"]);
    assert_eq!(queue(Some("text"), true), vec!["mark r"]);
}

#[test]
fn playbooks_are_read_rule_by_rule_and_then_checked() {
    let s = NodeService::new();
    let properties = empty();
    let validate = |bad_rule: Option<usize>, problem: Option<&str>| {
        let mut answer = |request: Request| match request {
            Request::ParseRules { .. } => {
                Reply::Texts { items: vec!["first".to_string(), "second".to_string()] }
            }
            Request::ParseRule { index, .. } => {
                if Some(index) == bad_rule {
                    failed()
                } else {
                    Reply::Done
                }
            }
            Request::ValidateRules { .. } => match problem {
                Some(m) => Reply::Failed { message: m.to_string() },
                None => Reply::Done,
            },
            other => panic!("{:?}", other),
        };
        run(&|log| s.validate_playbook_rules(&properties, log), &mut answer)
    };
    assert!(matches!(validate(None, None), Ok(Outcome::Nothing)));
    assert!(matches!(
        validate(Some(1), None),
        Err(NodeServiceError::PlaybookValidationFailed { errors })
            if errors == "Failed to parse rule 'second': disk on fire"
    ));
    assert!(matches!(
        validate(None, Some("unknown field")),
        Err(NodeServiceError::PlaybookValidationFailed { errors }) if errors == "unknown field"
    ));
    let unread = run(&|log| s.validate_playbook_rules(&properties, log), &mut |_| failed());
    assert!(matches!(
        unread,
        Err(NodeServiceError::PlaybookValidationFailed { errors })
            if errors == "Failed to parse playbook rules: disk on fire"
    ));
}

#[test]
fn types_are_embeddable_if_their_nodes_contribute_text() {
    let s = NodeService::new();
    let embeddable = |own: Option<&str>| {
        run(&|log| s.is_embeddable_type("text", 0, log), &mut |request| match request {
            Request::OwnContent { node } => {
                assert_eq!(node.node_type, "text");
                assert_eq!(node.content, "probe content");
                Reply::MaybeText { text: own.map(|t| t.to_string()) }
            }
            other => panic!("{:?}", other),
        })
    };
    assert!(matches!(embeddable(Some("probe content")), Ok(Outcome::Flag { value: true })));
    assert!(matches!(embeddable(None), Ok(Outcome::Flag { value: false })));
}

#[test]
fn a_search_without_a_scope_is_about_knowledge() {
    let scope = SearchScope::default();
    assert!(NodeEmbeddingService::matches_scope("text", &scope));
    assert!(!NodeEmbeddingService::matches_scope("ai-chat", &scope));
}

#[test]
fn any_limit_is_taken() {
    let s = service();
    assert!(matches!(
        s.semantic_search("  ", usize::MAX, 0, &vec![]),
        Step::Fail(NodeServiceError::InvalidUpdate(_))
    ));
    assert!(matches!(
        s.semantic_search("q", 4_000_000_000, 0, &vec![Reply::Done]),
        Step::Ask(Request::HybridSearch { limit: 4_000_000_000, keyword_limit: 8_000_000_000, .. })
    ));
    for filters_empty in [None, Some(true)] {
        assert!(matches!(
            s.semantic_search_nodes("q", usize::MAX, 0, filters_empty, &vec![]),
            Step::Ask(Request::SemanticSearch { limit: usize::MAX, .. })
        ));
    }
}

#[test]
fn roots_found_by_keyword_alone_have_no_score_and_no_chunks() {
    let s = service();
    let log = vec![
        Reply::Done,
        Reply::Found {
            hits: vec![],
            keyword_roots: vec!["b".to_string(), "a".to_string(), "b".to_string()],
        },
        Reply::Node { node: Some(node("a", "text", None)) },
        Reply::Node { node: Some(node("b", "text", None)) },
    ];
    match s.semantic_search("q", 5, 0, &log) {
        Step::Finish(Outcome::Hits { hits }) => {
            let found: Vec<&str> = hits.iter().map(|h| h.node_id.as_str()).collect();
            assert_eq!(found, vec!["a", "b"]);
            for h in hits {
                assert_eq!(h.matching_chunks, 0);
                assert!(h.score.same(&number(0.0)) && h.max_similarity.same(&number(0.0)));
                assert!(h.node.is_some());
            }
        }
        other => panic!("{:?}", other),
    }
}
