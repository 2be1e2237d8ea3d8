use interactive_paper::charset::SmallCharSet;
use interactive_paper::tokenizer::{
    ATTRIBUTE_VALUE_SET, BEFORE_ATTRIBUTE_NAME_SET, DOCUMENT_SET, PASSAGE_SET,
    PROCESSING_INSTRUCTION_SET, START_CLOSING_TAG_SET, TAG_NAME_SET, TAG_OPEN_SET,
};
use interactive_paper::xml_content::{SetResult, XmlContent};

fn chars(s: &str) -> Vec<char> {
    s.chars().collect()
}

#[test]
fn document_set_members() {
    let set = SmallCharSet::new(DOCUMENT_SET);
    for c in ['\0', '\t', '\n', ' ', '<', '>', '?'] {
        assert!(set.contains(c));
    }
    for c in ['a', 'Z', '/', '=', '"', '\'', '!'] {
        assert!(!set.contains(c));
    }
}

#[test]
fn other_sets_members() {
    let tag_open = SmallCharSet::new(TAG_OPEN_SET);
    for c in [' ', '/', '>', '?'] {
        assert!(tag_open.contains(c));
    }
    assert!(!tag_open.contains('<'));

    let pi = SmallCharSet::new(PROCESSING_INSTRUCTION_SET);
    assert!(pi.contains(' ') && pi.contains('>'));
    assert!(!pi.contains('?'));

    let sct = SmallCharSet::new(START_CLOSING_TAG_SET);
    assert!(sct.contains('>'));
    assert!(!sct.contains('/'));

    let tn = SmallCharSet::new(TAG_NAME_SET);
    for c in ['\t', '\n', ' ', '/', '>'] {
        assert!(tn.contains(c));
    }
    assert!(!tn.contains('?'));

    let ban = SmallCharSet::new(BEFORE_ATTRIBUTE_NAME_SET);
    for c in [' ', '/', '=', '>', '?'] {
        assert!(ban.contains(c));
    }
    assert!(!ban.contains('"'));

    let av = SmallCharSet::new(ATTRIBUTE_VALUE_SET);
    for c in [' ', '"', '\''] {
        assert!(av.contains(c));
    }
    assert!(!av.contains('>'));

    let pa = SmallCharSet::new(PASSAGE_SET);
    assert!(pa.contains('<'));
    assert!(!pa.contains('>'));
}

#[test]
fn high_code_points_are_never_members() {
    let set = SmallCharSet::new(u64::MAX);
    assert!(!set.contains('@'));
    assert!(!set.contains('é'));
    assert!(set.contains('\0'));
    assert!(set.contains('?'));
}

#[test]
fn nonmember_prefix_len_cases() {
    let set = SmallCharSet::new(DOCUMENT_SET);
    assert_eq!(set.nonmember_prefix_len(&chars("abc<def")), 3);
    assert_eq!(set.nonmember_prefix_len(&chars("<abc")), 0);
    assert_eq!(set.nonmember_prefix_len(&chars("abc")), 3);
    assert_eq!(set.nonmember_prefix_len(&chars("")), 0);
}

#[test]
fn pop_from_set_empty_signals_suspend() {
    let mut content = XmlContent::new();
    assert!(content.is_empty());
    assert!(content.pop_from_set(SmallCharSet::new(DOCUMENT_SET)).is_none());
}

#[test]
fn pop_from_set_run_then_member() {
    let mut content = XmlContent::from_str("hello<rest");
    match content.pop_from_set(SmallCharSet::new(DOCUMENT_SET)) {
        Some(SetResult::NotFromSet(run)) => assert_eq!(run, "hello"),
        other => panic!("expected a run, got {:?}", other),
    }
    match content.pop_from_set(SmallCharSet::new(DOCUMENT_SET)) {
        Some(SetResult::FromSet(c)) => assert_eq!(c, '<'),
        other => panic!("expected a set character, got {:?}", other),
    }
}

#[test]
fn push_back_appends_chunks() {
    let mut content = XmlContent::new();
    content.push_back(String::from("ab"));
    content.push_back(String::from("cd"));
    assert_eq!(content.next(), Some('a'));
    assert_eq!(content.next(), Some('b'));
    assert_eq!(content.next(), Some('c'));
    assert_eq!(content.next(), Some('d'));
    assert_eq!(content.next(), None);
}
