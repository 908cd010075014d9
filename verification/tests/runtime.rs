use ink_rs::{
    default_output_path, load_ink_doc_from_str, ChoiceItem, InkJsonError, RuntimeNode, Story,
};

#[test]
fn loads_nested_containers_with_metadata() {
    let raw = r##"{"inkVersion":21,"root":[["^Hi","\n","done",null],"done",{"#f":3,"#n":"top","k":["^K",null]}]}"##;
    let doc = load_ink_doc_from_str(raw).expect("load");
    assert_eq!(doc.ink_version, 21);
    assert_eq!(doc.root.content.len(), 2);
    match &doc.root.content[0] {
        RuntimeNode::Container(c) => {
            assert_eq!(c.content.len(), 3);
            assert!(matches!(&c.content[0], RuntimeNode::Str(s) if s == "Hi"));
            assert!(matches!(&c.content[1], RuntimeNode::Newline));
            assert!(matches!(&c.content[2], RuntimeNode::Command(s) if s == "done"));
            assert!(c.named.is_empty());
            assert_eq!(c.name, None);
            assert_eq!(c.flags, None);
        }
        other => panic!("unexpected {:?}", other),
    }
    assert!(matches!(&doc.root.content[1], RuntimeNode::Command(s) if s == "done"));
    assert_eq!(doc.root.flags, Some(3));
    assert_eq!(doc.root.name, Some("top".to_string()));
    assert_eq!(doc.root.named.len(), 1);
    assert_eq!(doc.root.named[0].0, "k");
    assert!(matches!(&doc.root.named[0].1, RuntimeNode::Container(c) if c.content.len() == 1));
}

fn format_error(raw: &str) -> String {
    match load_ink_doc_from_str(raw) {
        Err(InkJsonError::InvalidFormat(m)) => m,
        other => panic!("unexpected {:?}", other.map(|d| d.ink_version)),
    }
}

#[test]
fn format_errors_are_named() {
    assert_eq!(format_error("[1]"), "top level must be object");
    assert_eq!(format_error("{}"), "missing inkVersion");
    assert_eq!(format_error(r#"{"inkVersion":"21","root":[null]}"#), "missing inkVersion");
    assert_eq!(format_error(r#"{"inkVersion":21}"#), "missing root");
    assert_eq!(format_error(r#"{"inkVersion":21,"root":[]}"#), "container array must not be empty");
    assert_eq!(format_error(r#"{"inkVersion":21,"root":5}"#), "container must be array");
    assert_eq!(format_error(r#"{"inkVersion":21,"root":[1,2]}"#), "container tail must be object or null");
    assert_eq!(format_error(r#"{"inkVersion":21,"root":[[1],null]}"#), "container tail must be object or null");
}

#[test]
fn invalid_json_is_a_json_error() {
    assert!(matches!(load_ink_doc_from_str("{"), Err(InkJsonError::Json(_))));
}

#[test]
fn numbers_objects_and_versions() {
    let raw = r#"{"inkVersion":4294967317,"root":[7,-3,1.5,18446744073709551615,true,null,{"^->":"k"},{"->":"x"},{"^->":1},"ev",null]}"#;
    let doc = load_ink_doc_from_str(raw).expect("load");
    assert_eq!(doc.ink_version, 21);
    let c = &doc.root.content;
    assert!(matches!(c[0], RuntimeNode::Int(7)));
    assert!(matches!(c[1], RuntimeNode::Int(-3)));
    assert!(matches!(c[2], RuntimeNode::Float(b) if b == 1.5f64.to_bits()));
    assert!(matches!(c[3], RuntimeNode::Float(b) if b == (u64::MAX as f64).to_bits()));
    assert!(matches!(c[4], RuntimeNode::Bool(true)));
    assert!(matches!(c[5], RuntimeNode::Null));
    assert!(matches!(&c[6], RuntimeNode::DivertTarget(t) if t == "k"));
    assert!(matches!(&c[7], RuntimeNode::UnknownJson(t) if t == r#"{"->":"x"}"#));
    assert!(matches!(&c[8], RuntimeNode::UnknownJson(t) if t == r#"{"^->":1}"#));
    assert!(matches!(&c[9], RuntimeNode::Command(t) if t == "ev"));
    assert_eq!(c.len(), 10);
}

fn sample_story() -> Story {
    let raw = r#"{"inkVersion":21,"root":[["^Hello","\n",null],"^World","ev","\n","end",{"a":1},null]}"#;
    Story::from_doc(load_ink_doc_from_str(raw).expect("load"))
}

#[test]
fn continue_line_reads_up_to_each_line_break() {
    let mut story = sample_story();
    assert!(story.can_continue());
    assert_eq!(story.continue_line(), "Hello\n");
    assert!(story.take_warnings().is_empty());
    assert_eq!(story.continue_line(), "World\n");
    assert_eq!(story.current_text, "World\n");
    assert_eq!(
        story.take_warnings(),
        vec!["unimplemented command token encountered: ev".to_string()]
    );
    assert!(story.can_continue());
    assert_eq!(story.continue_line(), "");
    assert_eq!(
        story.take_warnings(),
        vec![r#"unimplemented runtime json node encountered: {"a":1}"#.to_string()]
    );
    assert!(!story.can_continue());
    assert_eq!(story.continue_line(), "");
}

#[test]
fn continue_maximally_reads_everything() {
    let mut story = sample_story();
    assert_eq!(story.continue_maximally(), "Hello\nWorld\n");
    assert!(!story.can_continue());
    assert_eq!(story.current_text, "");
    assert_eq!(story.take_warnings().len(), 2);
}

#[test]
fn line_then_rest_equals_everything() {
    let mut a = sample_story();
    let mut b = sample_story();
    let first = a.continue_line();
    let rest = a.continue_maximally();
    assert_eq!(format!("{}{}", first, rest), b.continue_maximally());
    assert_eq!(a.take_warnings(), b.take_warnings());
}

#[test]
fn escaped_newline_text_also_ends_a_line() {
    let raw = r#"{"inkVersion":21,"root":["^a","^\n","^b",null]}"#;
    let mut story = Story::from_doc(load_ink_doc_from_str(raw).unwrap());
    assert_eq!(story.continue_line(), "a\n");
    assert_eq!(story.continue_line(), "b");
}

#[test]
fn compiled_story_plays_back() {
    let out = ink_rs::compile_ink("Hello\nWorld\n-> END\n", ink_rs::CompileOptions::default()).unwrap();
    let mut story = Story::from_doc(load_ink_doc_from_str(&out.story_json).unwrap());
    assert_eq!(story.continue_maximally(), "Hello\nWorld\n");
    assert!(story.take_warnings().is_empty());
}

#[test]
fn compiled_knots_load_as_named_containers_in_name_order() {
    let src = "Root\n== b ==\nB one\n== a ==\nA\n== b ==\nB two\n-> END\n== #n ==\nMeta\n";
    let out = ink_rs::compile_ink(src, ink_rs::CompileOptions::default()).unwrap();
    let doc = load_ink_doc_from_str(&out.story_json).unwrap();
    assert_eq!(doc.ink_version, 21);
    assert_eq!(doc.root.name, None);
    assert_eq!(doc.root.flags, None);
    let names: Vec<&str> = doc.root.named.iter().map(|(n, _)| n.as_str()).collect();
    assert_eq!(names, vec!["a", "b"]);
    let texts: Vec<String> = doc
        .root
        .named
        .into_iter()
        .map(|(_, node)| match node {
            RuntimeNode::Container(c) => {
                let inner = ink_rs::InkDoc { ink_version: 21, root: c };
                Story::from_doc(inner).continue_maximally()
            }
            other => panic!("unexpected {:?}", other),
        })
        .collect();
    assert_eq!(texts, vec!["A\n".to_string(), "B two\n".to_string()]);
    let mut story = Story::from_doc(load_ink_doc_from_str(&out.story_json).unwrap());
    assert_eq!(story.continue_maximally(), "Root\n");
}

#[test]
fn nested_containers_are_read_through_without_warnings() {
    let raw = r#"{"inkVersion":21,"root":[[["^a","\n",null],"^b",null],"nop",null]}"#;
    let mut story = Story::from_doc(load_ink_doc_from_str(raw).unwrap());
    assert_eq!(story.continue_maximally(), "a\nb");
    assert!(story.take_warnings().is_empty());
}

#[test]
fn choice_item_counts_tags() {
    let plain = ChoiceItem::new("Go".to_string(), vec![]);
    assert_eq!(plain.tag_count, None);
    let tagged = ChoiceItem::new("Go".to_string(), vec!["a".to_string(), "b".to_string()]);
    assert_eq!(tagged.tag_count, Some(2));
    assert_eq!(tagged.text, "Go");
}

#[test]
fn default_output_paths() {
    assert_eq!(default_output_path("story.ink"), "story.ink.json");
    assert_eq!(default_output_path("dir/story.txt"), "dir/story.ink.json");
    assert_eq!(default_output_path("dir/story"), "dir/story.ink.json");
    assert_eq!(default_output_path("stories/a.ink"), "stories/a.ink.json");
    assert_eq!(default_output_path("a.txt"), "a.ink.json");
    assert_eq!(default_output_path("a"), "a.ink.json");
    assert_eq!(default_output_path("a.b.txt"), "a.b.ink.json");
    assert_eq!(default_output_path(".hidden"), ".hidden.ink.json");
    assert_eq!(default_output_path("a."), "a.ink.json");
    assert_eq!(default_output_path("stories/a.txt"), "stories/a.ink.json");
    assert_eq!(default_output_path("../x/.hidden"), "../x/.hidden.ink.json");
    assert_eq!(default_output_path("/tmp/a.b.c"), "/tmp/a.b.ink.json");
}
