use glint::checkpoint::{Checkpoint, FileCheckpointStore, MemoryCheckpointStore};
use glint::schema::Message;
use glint::serialization::{graph_to_dot, SerializableEdge, SerializableGraph};
use glint::state::StateValue;
use glint::utils::{add_messages, MessagesState, SimpleMessagesState};
use glint::document_loaders::{DirectoryLoader, TextLoader};
use glint::llms::MockLLM;
use glint::prompts::StringPromptTemplate;
use glint::state::{MapState, State};
use glint::text_splitters::{CharacterTextSplitter, ChunkSize};
use glint::value::StructuredValue;

#[test]
fn state_metadata_round_trip() {
    let st = State::new(5i64)
        .with_metadata("kind".to_string(), StructuredValue::Text("demo".to_string()))
        .with_metadata("count".to_string(), StructuredValue::Int(2));
    assert!(st.has_metadata("kind"));
    assert!(!st.has_metadata("missing"));
    match st.get_metadata("count") {
        Some(StructuredValue::Int(i)) => assert_eq!(*i, 2),
        other => panic!("unexpected: {:?}", other),
    }
    let mut st = st;
    let removed = st.remove_metadata("kind");
    assert!(matches!(removed, Some(StructuredValue::Text(_))));
    assert!(!st.has_metadata("kind"));
    assert!(st.has_metadata("count"));
}

#[test]
fn state_metadata_replaces_existing_key() {
    let st = State::new(0i64)
        .with_metadata("k".to_string(), StructuredValue::Int(1))
        .with_metadata("k".to_string(), StructuredValue::Int(2));
    match st.get_metadata("k") {
        Some(StructuredValue::Int(i)) => assert_eq!(*i, 2),
        other => panic!("unexpected: {:?}", other),
    }
}

#[test]
fn map_state_operations() {
    let mut m = MapState::new();
    assert!(m.is_empty());
    m.set("a".to_string(), StructuredValue::Int(1)).unwrap();
    m.set("b".to_string(), StructuredValue::Bool(true)).unwrap();
    m.set("a".to_string(), StructuredValue::Int(3)).unwrap();
    assert_eq!(m.len(), 2);
    assert!(m.contains_key("a"));
    match m.get("a") {
        Some(StructuredValue::Int(i)) => assert_eq!(*i, 3),
        other => panic!("unexpected: {:?}", other),
    }
    let keys = m.keys();
    assert_eq!(keys, vec!["a".to_string(), "b".to_string()]);
    assert_eq!(m.values().len(), 2);
    let gone = m.remove("a");
    assert!(matches!(gone, Some(StructuredValue::Int(3))));
    assert_eq!(m.len(), 1);
    assert!(!m.contains_key("a"));
}

#[test]
fn mock_llm_canned_and_default_responses() {
    let llm = MockLLM::new()
        .with_response("ping".to_string(), "pong".to_string())
        .with_default_response("fallback".to_string());
    assert_eq!(llm.invoke("ping".to_string()).unwrap(), "pong");
    assert_eq!(llm.invoke("other".to_string()).unwrap(), "fallback");
    assert_eq!(llm.model_name(), "mock-llm");
}

#[test]
fn template_extracts_distinct_variables_in_order() {
    let t = StringPromptTemplate::from_template(
        "Hello {name}, meet {other}. Again: {name}!".to_string(),
    );
    let vars = t.input_variables();
    assert_eq!(vars, vec!["name".to_string(), "other".to_string()]);
}

#[test]
fn template_formats_with_rendered_values() {
    let t = StringPromptTemplate::from_template("{greeting}, {name}! n={n} ok={ok}".to_string());
    let mut values = Vec::new();
    values.push((
        "greeting".to_string(),
        StructuredValue::Text("Hello".to_string()),
    ));
    values.push(("name".to_string(), StructuredValue::Text("world".to_string())));
    values.push(("n".to_string(), StructuredValue::Int(-42)));
    values.push(("ok".to_string(), StructuredValue::Bool(true)));
    let out = t.format(&values).unwrap();
    assert_eq!(out, "Hello, world! n=-42 ok=true");
}

#[test]
fn template_reports_missing_variable() {
    let t = StringPromptTemplate::from_template("{a} {b}".to_string());
    let values = vec![("a".to_string(), StructuredValue::Int(1))];
    let err = t.format(&values).unwrap_err();
    assert!(matches!(err, glint::error::Error::PromptTemplate(_)));
}

#[test]
fn rendered_values_cover_all_shapes() {
    let t = StringPromptTemplate::from_template("{v}".to_string());
    let cases: Vec<(StructuredValue, &str)> = vec![
        (StructuredValue::Null, "null"),
        (StructuredValue::Bool(false), "false"),
        (StructuredValue::Int(0), "0"),
        (StructuredValue::Int(1200), "1200"),
        (
            StructuredValue::List(vec![StructuredValue::Int(1), StructuredValue::Int(2)]),
            "[1,2]",
        ),
    ];
    for (v, expected) in cases {
        let values = vec![("v".to_string(), v)];
        assert_eq!(t.format(&values).unwrap(), expected);
    }
}

#[test]
fn splitter_splits_on_first_matching_separator() {
    let splitter = CharacterTextSplitter::default();
    let parts = splitter.split_text_with_separators("one two three");
    assert_eq!(
        parts,
        vec!["one".to_string(), "two".to_string(), "three".to_string()]
    );
    // Paragraph breaks outrank spaces.
    let parts = splitter.split_text_with_separators("a b\n\nc d");
    assert_eq!(parts, vec!["a b".to_string(), "c d".to_string()]);
}

#[test]
fn splitter_keeps_separator_when_asked() {
    let splitter = CharacterTextSplitter::new(
        ChunkSize::new(10, 0),
        vec![" ".to_string()],
        true,
    );
    let parts = splitter.split_text_with_separators("a b");
    assert_eq!(parts, vec!["a ".to_string(), "b ".to_string()]);
}

#[test]
fn merge_splits_preserves_content_without_overlap() {
    let splitter = CharacterTextSplitter::new(ChunkSize::new(5, 0), vec![" ".to_string()], false);
    let chunks = splitter.merge_splits(vec![
        "ab".to_string(),
        "cd".to_string(),
        "ef".to_string(),
        "gh".to_string(),
    ]);
    // Chunks of at most five characters; nothing lost, order kept.
    assert_eq!(chunks, vec!["abcd".to_string(), "efgh".to_string()]);
    let joined: String = chunks.concat();
    assert_eq!(joined, "abcdefgh");
}

#[test]
fn merge_splits_overlaps_chunks_when_configured() {
    let splitter = CharacterTextSplitter::new(ChunkSize::new(4, 2), vec![" ".to_string()], false);
    let chunks = splitter.merge_splits(vec![
        "ab".to_string(),
        "cd".to_string(),
        "ef".to_string(),
    ]);
    // The second chunk starts with the overlapping tail of the first.
    assert_eq!(chunks, vec!["abcd".to_string(), "cdef".to_string()]);
}

#[test]
fn split_text_chunks_a_sentence() {
    let splitter = CharacterTextSplitter::with_chunk_size(7, 0);
    let chunks = splitter.split_text("one two three").unwrap();
    assert_eq!(chunks, vec!["onetwo".to_string(), "three".to_string()]);
}

#[test]
fn checkpoint_paths_follow_the_scheme() {
    let store: FileCheckpointStore<i64> = FileCheckpointStore::new("/tmp/ckpts".to_string());
    assert_eq!(store.get_file_path("abc"), "/tmp/ckpts/abc.json");
    assert_eq!(store.get_metadata_file_path(), "/tmp/ckpts/metadata.json");
}

#[test]
fn checkpoint_captures_state_and_annotations() {
    let ck = Checkpoint::new("node7".to_string(), State::new(11i64));
    assert_eq!(ck.metadata.node_name, "node7");
    assert_eq!(ck.metadata.id.len(), 36);
    assert_eq!(ck.state.data, 11);
    let ck = ck
        .with_metadata("phase".to_string(), StructuredValue::Text("mid".to_string()))
        .unwrap();
    assert_eq!(ck.metadata.metadata.len(), 1);
}

#[test]
fn directory_loader_matches_file_names() {
    let loader = DirectoryLoader::new("/data".to_string());
    // No pattern matches everything.
    assert!(loader.matches_pattern("notes.md"));
    let loader = loader.with_glob_pattern("*.txt".to_string());
    assert!(loader.matches_pattern("a.txt"));
    assert!(!loader.matches_pattern("a.md"));
    let loader = loader.with_recursive(true);
    assert!(loader.recursive);
}

#[test]
fn text_loader_defaults_to_utf8() {
    let loader = TextLoader::new("/data/file.txt".to_string());
    assert_eq!(loader.encoding, "utf-8");
    let loader = loader.with_encoding("latin-1".to_string());
    assert_eq!(loader.encoding, "latin-1");
}

#[test]
fn dot_rendering_lists_nodes_and_edges() {
    let g = SerializableGraph {
        nodes: vec!["a".to_string(), "b".to_string()],
        edges: vec![
            SerializableEdge {
                from: "a".to_string(),
                to: "b".to_string(),
                has_condition: true,
                condition_description: None,
            },
            SerializableEdge {
                from: "b".to_string(),
                to: "a".to_string(),
                has_condition: false,
                condition_description: None,
            },
        ],
        metadata: Vec::new(),
    };
    let dot = g.to_dot();
    let expected = "digraph G {\n    \"a\";\n    \"b\";\n    \"a\" -> \"b\" [label=\"condition\"];\n    \"b\" -> \"a\";\n}\n";
    assert_eq!(dot, expected);
    assert_eq!(graph_to_dot(&g), expected);
}

#[test]
fn message_history_helpers_append_in_order() {
    let mut st = SimpleMessagesState { messages: Vec::new() };
    st.add_message(Message::user("one".to_string()));
    add_messages(
        &mut st,
        vec![
            Message::user("two".to_string()),
            Message::assistant("three".to_string()),
        ],
    );
    let got: Vec<&str> = st
        .get_messages()
        .iter()
        .map(|m| m.content.as_str())
        .collect();
    assert_eq!(got, vec!["one", "two", "three"]);
    st.set_messages(Vec::new());
    assert!(st.get_messages().is_empty());
}

#[test]
fn duplicated_states_carry_equal_metadata() {
    let st = State::new(3i64)
        .with_metadata(
            "tags".to_string(),
            StructuredValue::List(vec![
                StructuredValue::Text("x".to_string()),
                StructuredValue::Int(4),
            ]),
        );
    let copy = st.duplicate();
    assert_eq!(copy.data, 3);
    match copy.get_metadata("tags") {
        Some(StructuredValue::List(items)) => {
            assert_eq!(items.len(), 2);
            assert!(matches!(items[0], StructuredValue::Text(_)));
            assert!(matches!(items[1], StructuredValue::Int(4)));
        }
        other => panic!("unexpected: {:?}", other),
    }
    let mut m = MapState::new();
    m.set("k".to_string(), StructuredValue::Int(9)).unwrap();
    let m2 = m.dup();
    assert!(matches!(m2.get("k"), Some(StructuredValue::Int(9))));
}

#[test]
fn memory_checkpoint_store_round_trip() {
    let mut store: MemoryCheckpointStore<i64> = MemoryCheckpointStore::new();
    let ck = Checkpoint::new("producer".to_string(), State::new(5i64));
    let id = store.save(ck).unwrap();
    let loaded = store.load(&id).unwrap();
    assert_eq!(loaded.state.data, 5);
    assert_eq!(loaded.metadata.node_name, "producer");
    let listing = store.list();
    assert_eq!(listing.len(), 1);
    assert_eq!(listing[0].id, id);
    // Saving under the same identifier replaces the stored state.
    let mut again = Checkpoint::new("producer".to_string(), State::new(9i64));
    again.metadata.id = id.clone();
    store.save(again).unwrap();
    assert_eq!(store.list().len(), 1);
    assert_eq!(store.load(&id).unwrap().state.data, 9);
    store.delete(&id).unwrap();
    assert!(store.load(&id).is_err());
    assert!(matches!(
        store.delete(&id).unwrap_err(),
        glint::error::Error::Checkpoint(_)
    ));
}
