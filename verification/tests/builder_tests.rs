use interactive_paper::builder::QPaperBuilder;
use interactive_paper::node::QuestionData;
use interactive_paper::node::{Builder, NodeData};
use interactive_paper::parse_content;
use interactive_paper::sink::Sink;
use interactive_paper::tokenizer::Tokenizer;

const SECTION_DOC: &str = "<xml><root><SECTION_A><section_number>Algebra</section_number>\n\
<page_1><item><question>2+2?</question></item></page_1>\n\
<page_2><item><question>Solve x.</question></item></page_2>\n\
</SECTION_A></root></xml>";

#[test]
fn section_build() {
    let paper = parse_content(SECTION_DOC);
    assert_eq!(paper.len(), 4);

    match &paper.nodes[0].data {
        NodeData::Document => {},
        other => panic!("expected the document at index 0, got {:?}", other),
    }

    match &paper.nodes[1].data {
        NodeData::Section(section) => {
            assert_eq!(section.section_name, "Algebra");
            assert_eq!(section.num_of_questions, 2);
        },
        other => panic!("expected a section at index 1, got {:?}", other),
    }

    match &paper.nodes[2].data {
        NodeData::Question(q) => {
            assert_eq!(q.question, "2+2?");
            // the counter is advanced before the question is recorded, so
            // numbering starts at 2
            assert_eq!(q.question_number, 2);
            assert_eq!(q.page_number, 1);
        },
        other => panic!("expected a question at index 2, got {:?}", other),
    }

    match &paper.nodes[3].data {
        NodeData::Question(q) => {
            assert_eq!(q.question, "Solve x.");
            assert_eq!(q.question_number, 3);
            assert_eq!(q.page_number, 2);
        },
        other => panic!("expected a question at index 3, got {:?}", other),
    }

    assert_eq!(paper.total_questions(), 2);
    assert_eq!(paper.last_index(), 3);
    assert_eq!(paper.prev_index(), 0);
}

#[test]
fn arena_indices_match_positions() {
    let paper = parse_content(SECTION_DOC);
    for (i, node) in paper.nodes.iter().enumerate() {
        assert_eq!(node.index, i);
    }
}

#[test]
fn parent_child_links() {
    let paper = parse_content(SECTION_DOC);
    let section = &paper.nodes[1];
    assert_eq!(section.parent, Some(0));
    assert_eq!(section.first_child, Some(2));
    assert_eq!(section.last_child, Some(3));

    let q1 = &paper.nodes[2];
    assert_eq!(q1.parent, Some(1));
    assert_eq!(q1.prev, None);
    assert_eq!(q1.next, Some(3));

    let q2 = &paper.nodes[3];
    assert_eq!(q2.parent, Some(1));
    assert_eq!(q2.prev, Some(2));
    assert_eq!(q2.next, None);

    let doc = &paper.nodes[0];
    assert_eq!(doc.parent, None);
    assert_eq!(doc.first_child, Some(1));
    assert_eq!(doc.last_child, Some(1));
}

#[test]
fn question_texts_round_trip_in_source_order() {
    // concatenating every question text in arena order gives back the
    // character data between the question tag pairs, in source order
    let paper = parse_content(SECTION_DOC);
    let mut texts = Vec::new();
    for node in paper.nodes.iter() {
        if let NodeData::Question(q) = &node.data {
            texts.push(q.question.clone());
        }
    }
    assert_eq!(texts.concat(), "2+2?Solve x.");
}

#[test]
fn two_sections_in_close_order() {
    let doc = "<xml><root>\
        <SECTION_A><section_number>One</section_number>\
        <item><question>a</question></item></SECTION_A>\
        <SECTION_B><section_number>Two</section_number>\
        <item><question>b</question></item></SECTION_B>\
        </root></xml>";
    let paper = parse_content(doc);
    let names: Vec<String> = paper
        .nodes
        .iter()
        .filter_map(|n| match &n.data {
            NodeData::Section(s) => Some(s.section_name.clone()),
            _ => None,
        })
        .collect();
    assert_eq!(names, vec!["One".to_string(), "Two".to_string()]);
    // the sections are doubly linked under the document, in close order
    assert_eq!(paper.nodes[0].first_child, Some(1));
    assert_eq!(paper.nodes[0].last_child, Some(3));
    assert_eq!(paper.nodes[1].prev, None);
    assert_eq!(paper.nodes[1].next, Some(3));
    assert_eq!(paper.nodes[3].prev, Some(1));
    assert_eq!(paper.nodes[3].next, None);
    // the second section's question keeps counting on
    let numbers: Vec<u32> = paper
        .nodes
        .iter()
        .filter_map(|n| match &n.data {
            NodeData::Question(q) => Some(q.question_number),
            _ => None,
        })
        .collect();
    assert_eq!(numbers, vec![2, 3]);
}

#[test]
fn self_closing_document_records_error() {
    let sink = Tokenizer::tokenize(vec!["<xml/><root>".to_string()], Sink::new());
    let mut builder = QPaperBuilder::new();
    for tag in sink.tags {
        builder.process_tag(tag);
    }
    assert_eq!(builder.errors.len(), 1);
    assert_eq!(builder.errors[0], "Document node cannot must be self closing");
    assert_eq!(builder.nodes.len(), 0);
}

#[test]
fn instructions_are_collected_in_root_mode() {
    let doc = "<xml><root><instructions>Read carefully.</instructions></root></xml>";
    let sink = Tokenizer::tokenize(vec![doc.to_string()], Sink::new());
    let mut builder = QPaperBuilder::new();
    for tag in sink.tags {
        builder.process_tag(tag);
    }
    assert_eq!(builder.instructions.len(), 1);
    assert_eq!(builder.instructions[0], "Read carefully.");
}

#[test]
fn unrecognized_tags_are_tolerated() {
    let doc = "<xml><root><SECTION_A><whatever>noise</whatever>\
        <item><question>q</question></item></SECTION_A></root></xml>";
    let paper = parse_content(doc);
    assert_eq!(paper.total_questions(), 1);
}

#[test]
fn default_question_data() {
    let q = QuestionData::default();
    assert_eq!(q.question, "");
    assert_eq!(q.question_number, 0);
    assert_eq!(q.page_number, 1);
    assert!(!q.marked);
}
