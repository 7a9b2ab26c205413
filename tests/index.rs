use rfc_summaries::events::{render, MdEvent};
use rfc_summaries::index::{
    assemble_index, build_document_node, item_events_for, node_path, Document, IndexNode,
};
use rfc_summaries::splice::{find_anchor, splice_index, TreeEntry};
use rfc_summaries::title::{extract_title, is_whitespace};

fn doc(name: &str, text: &str) -> Document {
    Document { name: name.to_string(), text: text.to_string() }
}

fn label(e: &TreeEntry<String>) -> Option<&str> {
    match e {
        TreeEntry::PartLabel(s) => Some(s.as_str()),
        _ => None,
    }
}

fn chapter(e: &TreeEntry<String>) -> Option<&str> {
    match e {
        TreeEntry::Chapter(c) => Some(c.as_str()),
        _ => None,
    }
}

#[test]
fn title_strips_attribute_block() {
    assert_eq!(extract_title("# Alpha {#a}"), "Alpha");
}

#[test]
fn title_skips_second_level_headings() {
    assert_eq!(extract_title("## Not a title\nsome text\n# Beta\nmore"), "Beta");
}

#[test]
fn title_is_empty_without_heading() {
    assert_eq!(extract_title("plain text\n## Sub\n"), "");
    assert_eq!(extract_title(""), "");
}

#[test]
fn title_takes_first_heading_line() {
    assert_eq!(extract_title("intro\n#   First  \n# Second"), "First");
}

#[test]
fn title_of_bare_marker_is_empty() {
    assert_eq!(extract_title("#\n# Later"), "");
}

#[test]
fn title_handles_crlf_and_tabs() {
    assert_eq!(extract_title("x\r\n#\tTabbed title\r\nrest"), "Tabbed title");
}

#[test]
fn title_keeps_non_ascii() {
    assert_eq!(extract_title("# Grüße {.c}"), "Grüße");
}

#[test]
fn heading_marker_mid_line_is_not_a_title() {
    assert_eq!(extract_title("text # not\n"), "");
}

#[test]
fn whitespace_classes() {
    assert!(is_whitespace(' '));
    assert!(is_whitespace('\u{3000}'));
    assert!(!is_whitespace('a'));
}

#[test]
fn empty_index_renders_heading_and_empty_list() {
    let events = vec![
        MdEvent::HeadingStart(1),
        MdEvent::Text("RFC Index".to_string()),
        MdEvent::HeadingEnd,
        MdEvent::ListStart(1),
        MdEvent::ListEnd,
    ];
    let mut out = String::new();
    assert!(render(&events, &mut out, None).is_ok());
    assert_eq!(out, "# RFC Index\n\n");
}

#[test]
fn rendering_resumes_with_state() {
    let head = vec![MdEvent::HeadingStart(1), MdEvent::Text("T".to_string()), MdEvent::HeadingEnd];
    let mut out = String::from("prefix:");
    let s = render(&head, &mut out, None).ok().unwrap();
    let list = vec![MdEvent::ListStart(3)];
    let s = render(&list, &mut out, Some(s)).ok().unwrap();
    let item = item_events_for(&"x.md".to_string(), &"X".to_string());
    let _ = render(&item, &mut out, Some(s)).ok().unwrap();
    assert_eq!(out, "prefix:# T\n\n3. [X](x.md \"X\")");
}

#[test]
fn document_node_appends_marker_once() {
    let parents = vec!["rfcs".to_string()];
    let n = build_document_node("# A\nbody", "A".to_string(), "rfcs/a.md".to_string(), &parents);
    assert_eq!(n.title, "A");
    assert_eq!(n.path, "rfcs/a.md");
    assert_eq!(n.content, "# A\nbody\n!{#copyright}");
    assert_eq!(n.parent_names, parents);
}

#[test]
fn node_path_is_under_collection() {
    assert_eq!(node_path("0001-x.md"), "rfcs/0001-x.md");
}

#[test]
fn two_documents_are_indexed_in_order() {
    let docs = vec![
        doc("a.md", "# Alpha {#a}\nBody of alpha.\n"),
        doc("b.md", "## Not a title\nsomething\n# Beta\n"),
    ];
    let idx = assemble_index(&docs).ok().unwrap();
    assert_eq!(idx.title, "RFCs Index");
    assert_eq!(idx.path, "rfcs/index.md");
    assert_eq!(idx.children.len(), 2);
    assert_eq!(idx.children[0].title, "Alpha");
    assert_eq!(idx.children[1].title, "Beta");
    assert_eq!(idx.children[0].path, "rfcs/a.md");
    assert_eq!(idx.children[1].path, "rfcs/b.md");
    for (c, d) in idx.children.iter().zip(docs.iter()) {
        assert_eq!(c.content, format!("{}\n!{{#copyright}}", d.text));
        assert_eq!(c.content.matches("!{#copyright}").count(), 1);
        assert_eq!(c.parent_names, vec!["rfcs".to_string()]);
    }
    assert_eq!(
        idx.content,
        "# RFC Index\n\n1. [Alpha](a.md \"Alpha\")\n1. [Beta](b.md \"Beta\")\n\n!{#copyright}"
    );
}

#[test]
fn empty_collection_gives_empty_list() {
    let idx: IndexNode = assemble_index(&Vec::new()).ok().unwrap();
    assert!(idx.children.is_empty());
    assert_eq!(idx.content, "# RFC Index\n\n\n\n!{#copyright}");
}

#[test]
fn untitled_document_is_listed_with_empty_title() {
    let idx = assemble_index(&vec![doc("c.md", "no heading")]).ok().unwrap();
    assert_eq!(idx.children[0].title, "");
    assert_eq!(idx.content, "# RFC Index\n\n1. [](c.md)\n\n!{#copyright}");
}

#[test]
fn anchor_found_at_first_occurrence() {
    assert_eq!(find_anchor("RFCs{#rfc-index}"), Some(4));
    assert_eq!(find_anchor("a{#rfc-index}{#rfc-index}"), Some(1));
    assert_eq!(find_anchor("#rfc-index"), None);
    assert_eq!(find_anchor(""), None);
}

#[test]
fn splice_after_anchor_label() {
    let mut t = vec![
        TreeEntry::Chapter("intro".to_string()),
        TreeEntry::PartLabel("RFCs{#rfc-index}".to_string()),
        TreeEntry::Separator,
    ];
    splice_index(&mut t, "index".to_string());
    assert_eq!(t.len(), 4);
    assert_eq!(chapter(&t[0]), Some("intro"));
    assert_eq!(label(&t[1]), Some("RFCs"));
    assert_eq!(chapter(&t[2]), Some("index"));
    assert!(matches!(t[3], TreeEntry::Separator));
}

#[test]
fn splice_appends_without_anchor() {
    let mut t = vec![TreeEntry::PartLabel("Guide".to_string()), TreeEntry::Separator];
    splice_index(&mut t, "index".to_string());
    assert_eq!(t.len(), 3);
    assert_eq!(label(&t[0]), Some("Guide"));
    assert!(matches!(t[1], TreeEntry::Separator));
    assert_eq!(chapter(&t[2]), Some("index"));
}

#[test]
fn splice_single_anchor_label() {
    let mut t = vec![TreeEntry::PartLabel("Specs {#rfc-index}".to_string())];
    splice_index(&mut t, "index".to_string());
    assert_eq!(t.len(), 2);
    assert_eq!(label(&t[0]), Some("Specs "));
    assert_eq!(chapter(&t[1]), Some("index"));
}

#[test]
fn splice_uses_only_first_anchor() {
    let mut t = vec![
        TreeEntry::PartLabel("A{#rfc-index}".to_string()),
        TreeEntry::PartLabel("B{#rfc-index}".to_string()),
    ];
    splice_index(&mut t, "index".to_string());
    assert_eq!(t.len(), 3);
    assert_eq!(label(&t[0]), Some("A"));
    assert_eq!(chapter(&t[1]), Some("index"));
    assert_eq!(label(&t[2]), Some("B{#rfc-index}"));
}

#[test]
fn splicing_twice_appends_second_time() {
    let mut t = vec![TreeEntry::PartLabel("RFCs{#rfc-index}".to_string())];
    splice_index(&mut t, "one".to_string());
    splice_index(&mut t, "two".to_string());
    assert_eq!(t.len(), 3);
    assert_eq!(label(&t[0]), Some("RFCs"));
    assert_eq!(chapter(&t[1]), Some("one"));
    assert_eq!(chapter(&t[2]), Some("two"));
}
