use interactive_paper::errors::Errors;
use interactive_paper::intent::{
    Intent, IntentResult, MetaIntent, Read, Reference, Write, WriteResult,
};
use interactive_paper::node::NodeData;
use interactive_paper::parse_content;
use interactive_paper::paper::QuestionPaper;
use interactive_paper::state::State;

fn five_questions() -> QuestionPaper {
    let doc = "<xml><root><SECTION_A><section_number>S</section_number>\
        <item><question>q1</question></item>\
        <item><question>q2</question></item>\
        <item><question>q3</question></item>\
        <item><question>q4</question></item>\
        <item><question>q5</question></item>\
        </SECTION_A></root></xml>";
    parse_content(doc)
}

fn read_question(paper: &mut QuestionPaper, reference: Reference) -> Result<String, String> {
    match paper.resolve_intent(Intent::ReadIntent(Read::Question(reference))) {
        IntentResult::Read(Ok(NodeData::Question(q))) => Ok(q.question),
        IntentResult::Read(Err(e)) => Err(e),
        other => panic!("unexpected result {:?}", other),
    }
}

#[test]
fn forward_read_from_start() {
    let mut paper = five_questions();
    // questions sit at indices 2..=6: document 0, section 1
    assert_eq!(read_question(&mut paper, Reference::Start(0)), Ok("q1".to_string()));
    assert_eq!(paper.prev_index(), 2);
    assert_eq!(read_question(&mut paper, Reference::Current(0)), Ok("q2".to_string()));
    assert_eq!(paper.prev_index(), 3);
}

#[test]
fn backward_read() {
    let mut paper = five_questions();
    assert_eq!(read_question(&mut paper, Reference::Start(0)), Ok("q1".to_string()));
    assert_eq!(read_question(&mut paper, Reference::Current(0)), Ok("q2".to_string()));
    assert_eq!(read_question(&mut paper, Reference::Current(-1)), Ok("q1".to_string()));
    assert_eq!(paper.prev_index(), 2);
}

#[test]
fn skip_semantics_from_start() {
    let mut paper = five_questions();
    // Start(k) returns the (k+1)-th question: the skip count is 0-based
    assert_eq!(read_question(&mut paper, Reference::Start(2)), Ok("q3".to_string()));
    assert_eq!(read_question(&mut paper, Reference::Start(4)), Ok("q5".to_string()));
    assert_eq!(
        read_question(&mut paper, Reference::Start(5)),
        Err("Could not find a next node".to_string())
    );
}

#[test]
fn failed_read_leaves_cursor_in_place() {
    let mut paper = five_questions();
    assert_eq!(read_question(&mut paper, Reference::Start(1)), Ok("q2".to_string()));
    let at = paper.prev_index();
    assert!(read_question(&mut paper, Reference::Start(9)).is_err());
    assert_eq!(paper.prev_index(), at);
    assert_eq!(
        read_question(&mut paper, Reference::Current(-2)),
        Err("Could not resolve a previous node".to_string())
    );
    assert_eq!(paper.prev_index(), at);
}

#[test]
fn mark_then_meta() {
    let mut paper = five_questions();
    let result = paper.resolve_intent(
        Intent::WriteIntent(Write::Mark(vec![Read::Question(Reference::Start(2))])),
    );
    assert!(matches!(result, IntentResult::Write(WriteResult::Success)));
    assert_eq!(paper.num_marked(), 1);
    // question #3 sits at arena index 4
    assert_eq!(paper.marked, vec![4]);

    match paper.resolve_intent(Intent::Meta(MetaIntent::Marked)) {
        IntentResult::Meta(summary) => assert_eq!(summary, "1 marked"),
        other => panic!("unexpected result {:?}", other),
    }
}

#[test]
fn marking_twice_keeps_one_entry() {
    let mut paper = five_questions();
    for _ in 0..2 {
        paper.resolve_intent(
            Intent::WriteIntent(Write::Mark(vec![Read::Question(Reference::Start(0))])),
        );
    }
    assert_eq!(paper.num_marked(), 1);
}

#[test]
fn skip_records_and_moves_cursor() {
    let mut paper = five_questions();
    let result = paper.resolve_intent(
        Intent::WriteIntent(Write::Skip(vec![Read::Question(Reference::Start(1))])),
    );
    assert!(matches!(result, IntentResult::Write(WriteResult::Success)));
    assert_eq!(paper.num_skipped(), 1);
    assert_eq!(paper.prev_index(), 3);
    match paper.resolve_intent(Intent::Meta(MetaIntent::Skipped)) {
        IntentResult::Meta(summary) => assert_eq!(summary, "1 skipped"),
        other => panic!("unexpected result {:?}", other),
    }
}

#[test]
fn notes_are_appended_in_order() {
    let mut paper = five_questions();
    paper.resolve_intent(
        Intent::WriteIntent(
            Write::Note(vec![Read::Question(Reference::Start(0))], "look again".to_string()),
        ),
    );
    paper.resolve_intent(
        Intent::WriteIntent(
            Write::Note(vec![Read::Question(Reference::Start(1))], "tricky".to_string()),
        ),
    );
    let notes = paper.notes();
    assert_eq!(notes.len(), 2);
    assert_eq!(notes[0].index, 2);
    assert_eq!(notes[0].note, "look again");
    assert_eq!(notes[1].index, 3);
    assert_eq!(notes[1].note, "tricky");
}

#[test]
fn failed_write_reports_last_element() {
    let mut paper = five_questions();
    let result = paper.resolve_intent(
        Intent::WriteIntent(
            Write::Mark(
                vec![Read::Question(Reference::Start(0)), Read::Question(Reference::Start(9))],
            ),
        ),
    );
    match result {
        IntentResult::Write(WriteResult::Error(e)) => {
            assert_eq!(e, "Could not find a next node");
        },
        other => panic!("unexpected result {:?}", other),
    }
    // the earlier element's side effect is kept
    assert_eq!(paper.num_marked(), 1);
}

#[test]
fn end_reference_on_sections() {
    let doc = "<xml><root>\
        <SECTION_A><item><question>a</question></item></SECTION_A>\
        <SECTION_B><item><question>b</question></item></SECTION_B>\
        <SECTION_C></SECTION_C>\
        </root></xml>";
    let mut paper = parse_content(doc);
    // the last arena node is the (empty) last section
    let last = paper.last_index();
    match paper.resolve_intent(Intent::ReadIntent(Read::Section(Reference::End(0)))) {
        IntentResult::Read(Ok(NodeData::Section(_))) => {},
        other => panic!("unexpected result {:?}", other),
    }
    assert_eq!(paper.prev_index(), last);
    // a backward skip of one from the end gives the second-to-last section
    match paper.resolve_intent(Intent::ReadIntent(Read::Section(Reference::End(-1)))) {
        IntentResult::Read(Ok(NodeData::Section(_))) => {},
        other => panic!("unexpected result {:?}", other),
    }
    assert_eq!(paper.prev_index(), 3);
}

#[test]
fn sections_and_questions_resolve_separately() {
    let doc = "<xml><root>\
        <SECTION_A><item><question>a</question></item></SECTION_A>\
        <SECTION_B><item><question>b</question></item></SECTION_B>\
        </root></xml>";
    let mut paper = parse_content(doc);
    match paper.resolve_intent(Intent::ReadIntent(Read::Section(Reference::Start(1)))) {
        IntentResult::Read(Ok(NodeData::Section(_))) => {},
        other => panic!("unexpected result {:?}", other),
    }
    assert_eq!(paper.prev_index(), 3);
}

#[test]
fn handle_intents_without_paper_fails() {
    let mut state = State::new();
    match state.handle_intents(vec![Intent::Meta(MetaIntent::Marked)]) {
        Err(Errors::InternalError(m)) => {
            assert_eq!(m, "No question paper has been initialized. Maybe you forgot to upload.");
        },
        other => panic!("unexpected result {:?}", other),
    }
}

#[test]
fn handle_intents_empty_batch_fails() {
    let mut state = State::new();
    state.0 = Some(five_questions());
    match state.handle_intents(vec![]) {
        Err(Errors::InternalError(m)) => assert_eq!(m, "Could not pop anything, try again"),
        other => panic!("unexpected result {:?}", other),
    }
}

#[test]
fn handle_intents_returns_last_result() {
    let mut state = State::new();
    state.0 = Some(five_questions());
    let intents = vec![
        Intent::ReadIntent(Read::Question(Reference::Start(0))),
        Intent::ReadIntent(Read::Question(Reference::Current(0))),
    ];
    match state.handle_intents(intents) {
        Ok(IntentResult::Read(Ok(NodeData::Question(q)))) => assert_eq!(q.question, "q2"),
        other => panic!("unexpected result {:?}", other),
    }
}

#[test]
fn nth_and_len() {
    let paper = five_questions();
    assert_eq!(paper.len(), 7);
    assert!(paper.nth(6).is_some());
    assert!(paper.nth(7).is_none());
    assert_eq!(paper.nth(2).unwrap().index(), 2);
    assert!(paper.nth(2).unwrap().data().is_question());
    assert!(paper.nth(1).unwrap().data().is_section());
}

#[test]
fn meta_summary_renders_multi_digit_counts() {
    let mut body = String::new();
    for i in 0..12 {
        body.push_str(&format!("<item><question>q{}</question></item>", i));
    }
    let doc = format!("<xml><root><SECTION_A>{}</SECTION_A></root></xml>", body);
    let mut paper = parse_content(&doc);
    for k in 0..12 {
        paper.resolve_intent(
            Intent::WriteIntent(Write::Mark(vec![Read::Question(Reference::Start(k))])),
        );
    }
    match paper.resolve_intent(Intent::Meta(MetaIntent::Marked)) {
        IntentResult::Meta(summary) => assert_eq!(summary, "12 marked"),
        other => panic!("unexpected result {:?}", other),
    }
}

#[test]
fn empty_write_batch_succeeds() {
    let mut paper = five_questions();
    let result = paper.resolve_intent(Intent::WriteIntent(Write::Mark(vec![])));
    assert!(matches!(result, IntentResult::Write(WriteResult::Success)));
    assert_eq!(paper.num_marked(), 0);
}

#[test]
fn forward_end_reference_needs_the_final_node_to_match() {
    // a non-negative End reference searches forward from the last index,
    // so it errors whenever the arena's final node is not of the asked kind
    let mut paper = five_questions();
    match paper.resolve_intent(Intent::ReadIntent(Read::Section(Reference::End(0)))) {
        IntentResult::Read(Err(e)) => assert_eq!(e, "Could not find a next node"),
        other => panic!("unexpected result {:?}", other),
    }
}
