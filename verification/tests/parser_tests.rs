use interactive_paper::intent::{Intent, MetaIntent, Read, Reference, Write};
use interactive_paper::intent_parser::{
    ChildValue, Entity, EntityChild, EntityType, IntentParser, LuResponse, TopIntents,
};
use interactive_paper::nlu::{HttpResolver, IntentResolver};

fn number_child(n: i32) -> EntityChild {
    EntityChild { value: ChildValue::Number(n) }
}

fn object_child(offset: i32, relative_to: &str) -> EntityChild {
    EntityChild {
        value: ChildValue::Object { offset, relative_to: relative_to.to_string() },
    }
}

fn entity(kind: EntityType, children: Vec<EntityChild>) -> Entity {
    Entity { entity: kind, children }
}

#[test]
fn navigation_becomes_read_intents() {
    let response = LuResponse {
        top_intent: TopIntents::Navigation,
        entities: vec![
            entity(EntityType::Question, vec![number_child(2)]),
            entity(EntityType::Section, vec![number_child(1)]),
        ],
    };
    let mut parser = IntentParser::new();
    let intents = parser.parse(response);
    assert_eq!(
        intents,
        vec![
            Intent::ReadIntent(Read::Question(Reference::Start(2))),
            // every entity after the first is relative to the cursor
            Intent::ReadIntent(Read::Section(Reference::Current(1))),
        ]
    );
}

#[test]
fn object_child_selects_the_frame() {
    let mut parser = IntentParser::new();
    for (frame, expected) in [
        ("start", Reference::Start(3)),
        ("current", Reference::Current(3)),
        ("end", Reference::End(3)),
        ("elsewhere", Reference::End(3)),
    ] {
        let response = LuResponse {
            top_intent: TopIntents::Navigation,
            entities: vec![entity(EntityType::Question, vec![object_child(3, frame)])],
        };
        let intents = parser.parse(response);
        assert_eq!(intents, vec![Intent::ReadIntent(Read::Question(expected))]);
    }
}

#[test]
fn entity_with_two_children_is_dropped() {
    let response = LuResponse {
        top_intent: TopIntents::Navigation,
        entities: vec![
            entity(EntityType::Question, vec![number_child(1), number_child(2)]),
            entity(EntityType::Question, vec![number_child(0)]),
        ],
    };
    let mut parser = IntentParser::new();
    let intents = parser.parse(response);
    assert_eq!(intents, vec![Intent::ReadIntent(Read::Question(Reference::Current(0)))]);
}

#[test]
fn entity_child_accessors() {
    let e = entity(EntityType::Question, vec![number_child(7)]);
    assert_eq!(e.entity_type(), EntityType::Question);
    let child = e.child().unwrap();
    assert!(!child.is_object());
    assert_eq!(child.get_value(), 7);
    assert_eq!(child.get_reference(0), Reference::Start(7));
    assert_eq!(child.get_reference(1), Reference::Current(7));

    let many = entity(EntityType::Question, vec![number_child(1), number_child(2)]);
    assert_eq!(many.child().unwrap_err(), "Entity has more than one child");

    let obj = object_child(-2, "end");
    assert!(obj.is_object());
    assert_eq!(obj.get_value(), -2);
    assert_eq!(obj.get_reference(0), Reference::End(-2));
}

#[test]
fn mark_write_intent() {
    let response = LuResponse {
        top_intent: TopIntents::MarkForReview,
        entities: vec![
            entity(EntityType::Mark, vec![]),
            entity(EntityType::Question, vec![number_child(2)]),
        ],
    };
    let mut parser = IntentParser::new();
    let intents = parser.parse(response);
    assert_eq!(
        intents,
        vec![Intent::WriteIntent(Write::Mark(vec![Read::Question(Reference::Start(2))]))]
    );
}

#[test]
fn skip_write_intent() {
    let response = LuResponse {
        top_intent: TopIntents::MarkForReview,
        entities: vec![
            entity(EntityType::Skip, vec![]),
            entity(EntityType::Question, vec![number_child(0)]),
        ],
    };
    let mut parser = IntentParser::new();
    let intents = parser.parse(response);
    assert_eq!(
        intents,
        vec![Intent::WriteIntent(Write::Skip(vec![Read::Question(Reference::Start(0))]))]
    );
}

#[test]
fn meta_intents() {
    let mut parser = IntentParser::new();
    let marked = LuResponse {
        top_intent: TopIntents::MarkForReview,
        entities: vec![entity(EntityType::Marked, vec![])],
    };
    assert_eq!(parser.parse(marked), vec![Intent::Meta(MetaIntent::Marked)]);
    let skipped = LuResponse {
        top_intent: TopIntents::MarkForReview,
        entities: vec![entity(EntityType::Skipped, vec![])],
    };
    assert_eq!(parser.parse(skipped), vec![Intent::Meta(MetaIntent::Skipped)]);
}

#[test]
fn reference_direction() {
    assert!(Reference::Start(0).is_forward());
    assert!(Reference::Current(3).is_forward());
    assert!(!Reference::End(-1).is_forward());
    assert_eq!(Reference::Start(i32::MIN).skip_magnitude(), 2147483648usize);
}

#[test]
fn encode_url_appends_form_encoded_text() {
    let resolver = HttpResolver::with_base_url("http://localhost/?text=".to_string());
    assert_eq!(resolver.encode_url("hello world"), "http://localhost/?text=hello+world");
    assert_eq!(resolver.encode_url("a&b=c"), "http://localhost/?text=a%26b%3Dc");
    assert_eq!(resolver.encode_url("A-z.9_*"), "http://localhost/?text=A-z.9_*");
}

#[test]
fn intent_resolver_defaults() {
    let resolver = IntentResolver::new();
    assert_eq!(resolver.resolver.base_url, "http://luisendpoint.azurewebsites.net/?text=");
}
