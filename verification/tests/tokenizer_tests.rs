use interactive_paper::sink::Sink;
use interactive_paper::tag::{Tag, TagKind, TagName};
use interactive_paper::tokenizer::{Tokenizer, TokenizerResult};
use interactive_paper::xml_content::XmlContent;

fn tokenize(input: &str) -> Sink {
    Tokenizer::tokenize(vec![input.to_string()], Sink::new())
}

#[test]
fn passage_capture() {
    let sink = tokenize("<root><q>hello</q></root>");
    let tags = &sink.tags;
    assert_eq!(tags.len(), 4);

    assert_eq!(tags[0].kind, TagKind::StartTag);
    assert_eq!(tags[0].name.0, "root");
    assert_eq!(tags[0].value, None);

    assert_eq!(tags[1].kind, TagKind::StartTag);
    assert_eq!(tags[1].name.0, "q");

    assert_eq!(tags[2].kind, TagKind::EndTag);
    assert_eq!(tags[2].name.0, "q");
    assert_eq!(tags[2].value, Some("hello".to_string()));

    assert_eq!(tags[3].kind, TagKind::EndTag);
    assert_eq!(tags[3].name.0, "root");
    assert_eq!(tags[3].value, None);
}

#[test]
fn attributes_are_collected() {
    let sink = tokenize("<item kind=\"exam\" level='2'>");
    assert_eq!(sink.tags.len(), 1);
    let tag = &sink.tags[0];
    assert_eq!(tag.kind, TagKind::StartTag);
    assert_eq!(tag.name.0, "item");
    assert_eq!(tag.attributes.len(), 2);
    assert_eq!(tag.attributes[0].name, "kind");
    assert_eq!(tag.attributes[0].value, "exam");
    assert_eq!(tag.attributes[1].name, "level");
    assert_eq!(tag.attributes[1].value, "2");
}

#[test]
fn empty_closing_tag_is_self_closing() {
    let sink = tokenize("</>");
    assert_eq!(sink.tags.len(), 1);
    assert!(sink.tags[0].is_self_closing);
    assert_eq!(sink.tags[0].kind, TagKind::StartTag);
    assert_eq!(sink.errors.len(), 0);
}

#[test]
fn attributes_on_an_end_tag_record_error() {
    // a pending attribute survives into a closing tag and is flagged
    let sink = tokenize("<a b/q>");
    assert_eq!(sink.tags.len(), 1);
    assert_eq!(sink.tags[0].kind, TagKind::EndTag);
    assert_eq!(sink.tags[0].name.0, "q");
    assert_eq!(sink.tags[0].attributes.len(), 1);
    assert_eq!(sink.tags[0].attributes[0].name, "b");
    assert_eq!(sink.errors.len(), 1);
    assert_eq!(sink.errors[0], "Attributes on an end tag");
}

#[test]
fn bad_attribute_value_start_recovers() {
    // the character after `=` must open a quote; anything else is recorded
    // as a bad-character error and tokenization continues
    let sink = tokenize("<a b=c><d>");
    assert_eq!(sink.errors.len(), 1);
    assert!(sink.tags.iter().any(|t| t.name.0 == "d"));
}

#[test]
fn line_numbers_follow_newlines() {
    let sink = tokenize("<a>\n\n<b>");
    assert_eq!(sink.line_number, 3);
}

#[test]
fn feed_on_empty_buffer_is_done() {
    let mut tok = Tokenizer::new(Sink::new());
    let mut content = XmlContent::new();
    assert_eq!(tok.feed(&mut content), TokenizerResult::Done);
}

#[test]
fn tokenizer_suspends_on_prefix_and_resumes() {
    // feeding a well-formed prefix suspends cleanly; the rest of the
    // document can arrive in a later chunk
    let mut tok = Tokenizer::new(Sink::new());
    let mut content = XmlContent::from_str("<root><q>hel");
    assert_eq!(tok.feed(&mut content), TokenizerResult::Success);
    content.push_back("lo</q></root>".to_string());
    assert_eq!(tok.feed(&mut content), TokenizerResult::Success);
    let sink = tok.end();
    assert_eq!(sink.tags.len(), 4);
    assert_eq!(sink.tags[2].value, Some("hello".to_string()));
}

#[test]
fn processing_instruction_is_tokenized() {
    let sink = tokenize("<?xml version=\"1.0\"?><root>");
    assert!(sink.tags.iter().any(|t| t.name.0 == "root"));
    let pi = &sink.tags[0];
    assert_eq!(pi.name.0, "xml");
    assert!(pi.attributes.iter().any(|a| a.name == "version" && a.value == "1.0"));
}

#[test]
fn tag_predicates() {
    let tag = |name: &str| Tag {
        kind: TagKind::StartTag,
        name: TagName::new(name),
        attributes: vec![],
        is_self_closing: false,
        value: None,
    };
    assert!(tag("SECTION_A").is_section());
    assert!(!tag("section_a").is_section());
    assert!(tag("xml").is_document());
    assert!(tag("root").is_root());
    assert!(tag("question").is_question());
    assert!(!tag("question_number").is_question());
    assert!(tag("question_number").is_question_number());
    assert!(tag("item").is_item());
    assert!(tag("instructions").is_instructions());
    assert!(tag("meta_data").is_meta());
    assert!(tag("section_number").is_section_name());
    assert!(tag("page_3").is_page());
    assert!(!tag("page_33").is_page());
    assert!(!tag("page_x").is_page());
    assert!(!tag("xpage_3").is_page());
}

#[test]
fn tag_name_accessors() {
    let name = TagName::new("question");
    assert_eq!(name.get(), "question");
    let other = name.clone();
    assert_eq!(other, name);
}
