//! The NLU response model and its translation into intents.
//!
//! The understanding service replies with a top intent and a list of
//! entities; each entity carries at most one child whose value is either a
//! plain integer offset or an object selecting the reference frame.  The
//! parser maps that reply onto the paper's own intents.

use vstd::prelude::*;

use crate::intent::{Intent, MetaIntent, Read, Reference, Write};

verus! {

/// Top LU intents
#[derive(Debug, PartialEq, Eq, Clone, Copy)]
pub enum TopIntents {
    Navigation,
    BooleanPositionCheck,
    MarkForReview,
}

/// Entity types
#[derive(Debug, PartialEq, Eq, Clone, Copy)]
pub enum EntityType {
    Section,
    Question,
    Mark,
    Skip,
    Marked,
    Skipped,
}

#[derive(Debug)]
pub struct LuResponse {
    pub top_intent: TopIntents,
    pub entities: Vec<Entity>,
}

#[derive(Debug)]
pub struct Entity {
    pub entity: EntityType,
    pub children: Vec<EntityChild>,
}

/// A child's value: a bare integer offset, or an object with an offset and
/// the reference frame it is relative to.
#[derive(Debug, PartialEq, Eq)]
pub enum ChildValue {
    Number(i32),
    Object { offset: i32, relative_to: String },
}

#[derive(Debug, PartialEq, Eq)]
pub struct EntityChild {
    pub value: ChildValue,
}

/// Value equality of children.
pub open spec fn child_eqv(a: EntityChild, b: EntityChild) -> bool {
    match (a.value, b.value) {
        (ChildValue::Number(x), ChildValue::Number(y)) => x == y,
        (
            ChildValue::Object { offset: xo, relative_to: xr },
            ChildValue::Object { offset: yo, relative_to: yr },
        ) => xo == yo && xr@ == yr@,
        _ => false,
    }
}

impl Clone for EntityChild {
    fn clone(&self) -> (r: EntityChild)
        ensures
            child_eqv(*self, r),
    {
        EntityChild {
            value: match &self.value {
                ChildValue::Number(n) => ChildValue::Number(*n),
                ChildValue::Object { offset, relative_to } => ChildValue::Object {
                    offset: *offset,
                    relative_to: relative_to.clone(),
                },
            },
        }
    }
}

/// The integer offset a child carries.
pub open spec fn spec_child_value(c: EntityChild) -> i32 {
    match c.value {
        ChildValue::Number(n) => n,
        ChildValue::Object { offset, .. } => offset,
    }
}

/// The reference a child selects.  Any entity after the first is relative
/// to the cursor; a bare number is anchored at the start; an object picks
/// its frame by name, with the end as the fallback.
pub open spec fn spec_reference(c: EntityChild, first: bool) -> Reference {
    let v = spec_child_value(c);
    if !first {
        Reference::Current(v)
    } else {
        match c.value {
            ChildValue::Number(_) => Reference::Start(v),
            ChildValue::Object { relative_to, .. } => {
                if relative_to@ == "start"@ {
                    Reference::Start(v)
                } else if relative_to@ == "current"@ {
                    Reference::Current(v)
                } else {
                    Reference::End(v)
                }
            },
        }
    }
}

impl Entity {
    pub fn entity_type(&self) -> (r: EntityType)
        ensures
            r == self.entity,
    {
        self.entity
    }

    fn has_more_than_one_child(&self) -> (r: bool)
        ensures
            r == (self.children@.len() > 1),
    {
        self.children.len() > 1
    }

    /// The entity's single child; entities with any other number of
    /// children are rejected.
    pub fn child(&self) -> (r: Result<EntityChild, String>)
        ensures
            self.children@.len() == 1 ==> (r matches Ok(c) && child_eqv(c, self.children@[0])),
            self.children@.len() > 1 ==> (r matches Err(e) && e@
                == "Entity has more than one child"@),
            self.children@.len() == 0 ==> (r matches Err(e) && e@ == "Entity has no children"@),
    {
        if self.has_more_than_one_child() {
            return Err("Entity has more than one child".to_owned());
        }
        if self.children.len() == 0 {
            return Err("Entity has no children".to_owned());
        }
        // get the top most
        Ok(self.children[0].clone())
    }
}

impl EntityChild {
    pub fn is_object(&self) -> (r: bool)
        ensures
            r == (self.value is Object),
    {
        match &self.value {
            ChildValue::Object { .. } => true,
            ChildValue::Number(_) => false,
        }
    }

    pub fn get_value(&self) -> (r: i32)
        ensures
            r == spec_child_value(*self),
    {
        match &self.value {
            ChildValue::Number(n) => *n,
            ChildValue::Object { offset, .. } => *offset,
        }
    }

    pub fn get_reference(&self, prev: u32) -> (r: Reference)
        ensures
            r == spec_reference(*self, prev == 0),
    {
        let value = self.get_value();

        if prev > 0 {
            return Reference::Current(value);
        }
        // check if value has a reference
        if !self.is_object() {
            return Reference::Start(value);
        }
        match &self.value {
            ChildValue::Object { relative_to, .. } => {
                if *relative_to == "start".to_owned() {
                    Reference::Start(value)
                } else if *relative_to == "current".to_owned() {
                    Reference::Current(value)
                } else {
                    Reference::End(value)
                }
            },
            ChildValue::Number(_) => Reference::Start(value),
        }
    }
}

/// Whether the reply reads the paper rather than writing to it.
pub open spec fn spec_is_read(r: LuResponse) -> bool {
    r.top_intent is Navigation || r.top_intent is BooleanPositionCheck
}

/// Whether the reply asks for a summary of a register.
pub open spec fn spec_is_meta(r: LuResponse) -> bool {
    &&& !spec_is_read(r)
    &&& r.entities@.len() > 0
    &&& (r.entities@[0].entity is Marked || r.entities@[0].entity is Skipped)
}

impl LuResponse {
    pub fn is_read(&self) -> (r: bool)
        ensures
            r == spec_is_read(*self),
    {
        match self.top_intent {
            TopIntents::Navigation | TopIntents::BooleanPositionCheck => true,
            _ => false,
        }
    }

    fn is_meta(&self) -> (r: bool)
        ensures
            r == spec_is_meta(*self),
    {
        if self.is_read() {
            return false;
        }
        if self.entities.len() == 0 {
            return false;
        }
        match self.entities[0].entity {
            EntityType::Marked | EntityType::Skipped => true,
            _ => false,
        }
    }
}

/// The read intent an entity maps to under a reference.
pub open spec fn spec_read_for(e: Entity, reference: Reference) -> Read {
    match e.entity {
        EntityType::Question => Read::Question(reference),
        EntityType::Section => Read::Section(reference),
        _ => Read::Question(reference),
    }
}

/// The read intents of an entity list from position `i` on: entities
/// without exactly one child contribute nothing.
pub open spec fn spec_read_intents(ents: Seq<Entity>, i: int) -> Seq<Intent>
    decreases ents.len() - i,
{
    if i < 0 || i >= ents.len() {
        Seq::<Intent>::empty()
    } else if ents[i].children@.len() == 1 {
        seq![
            Intent::ReadIntent(spec_read_for(ents[i], spec_reference(ents[i].children@[0], i == 0))),
        ] + spec_read_intents(ents, i + 1)
    } else {
        spec_read_intents(ents, i + 1)
    }
}

/// The reads a write intent carries: one per entity after the first, each
/// anchored as a first reference.
pub open spec fn spec_write_reads(ents: Seq<Entity>, i: int) -> Seq<Read>
    decreases ents.len() - i,
{
    if i < 1 || i >= ents.len() {
        Seq::<Read>::empty()
    } else if ents[i].children@.len() == 1 {
        seq![spec_read_for(ents[i], spec_reference(ents[i].children@[0], true))]
            + spec_write_reads(ents, i + 1)
    } else {
        spec_write_reads(ents, i + 1)
    }
}

/// Response parser modes
#[derive(Debug, PartialEq, Eq, Clone, Copy)]
pub enum Modes {
    Read,
    Write,
    Meta,
}

/// Parses an intent response from LU into an intent that can be understood by the question paper
#[derive(Debug)]
pub struct IntentParser {
    pub mode: Option<Modes>,
}

/// What the parser hands back for a reply, stated over the reply alone.
pub open spec fn spec_parsed(response: LuResponse, r: Seq<Intent>) -> bool {
    let ents = response.entities@;
    if spec_is_read(response) {
        r == spec_read_intents(ents, 0)
    } else if spec_is_meta(response) {
        match ents[0].entity {
            EntityType::Marked => r == seq![Intent::Meta(MetaIntent::Marked)],
            EntityType::Skipped => r == seq![Intent::Meta(MetaIntent::Skipped)],
            _ => r == Seq::<Intent>::empty(),
        }
    } else if ents.len() == 0 {
        r == Seq::<Intent>::empty()
    } else {
        match ents[0].entity {
            EntityType::Mark => r.len() == 1 && (r[0] matches Intent::WriteIntent(w) && (w
                matches Write::Mark(reads) && reads@ == spec_write_reads(ents, 1))),
            EntityType::Skip => r.len() == 1 && (r[0] matches Intent::WriteIntent(w) && (w
                matches Write::Skip(reads) && reads@ == spec_write_reads(ents, 1))),
            _ => r == Seq::<Intent>::empty(),
        }
    }
}

impl IntentParser {
    pub fn new() -> (r: IntentParser)
        ensures
            r.mode is None,
    {
        IntentParser { mode: None }
    }

    /// Translate one reply into the intents it denotes.
    pub fn parse(&mut self, intent: LuResponse) -> (r: Vec<Intent>)
        ensures
            spec_parsed(intent, r@),
    {
        if intent.is_read() {
            self.mode = Some(Modes::Read);
        } else if intent.is_meta() {
            self.mode = Some(Modes::Meta);
        } else {
            self.mode = Some(Modes::Write);
        }

        // get the iterator of intents
        self.process_intents(intent)
    }

    fn process_intents(&mut self, intent: LuResponse) -> (r: Vec<Intent>)
        requires
            old(self).mode == (if spec_is_read(intent) {
                Some(Modes::Read)
            } else if spec_is_meta(intent) {
                Some(Modes::Meta)
            } else {
                Some(Modes::Write)
            }),
        ensures
            spec_parsed(intent, r@),
    {
        let is_read = intent.is_read();
        let is_meta = intent.is_meta();
        let entities = intent.entities;
        if is_read {
            self.create_read_intent(entities)
        } else if is_meta {
            self.create_meta_intent(entities)
        } else {
            self.create_write_intent(entities)
        }
    }

    fn create_meta_intent(&mut self, entities: Vec<Entity>) -> (r: Vec<Intent>)
        requires
            entities@.len() > 0,
        ensures
            match entities@[0].entity {
                EntityType::Marked => r@ == seq![Intent::Meta(MetaIntent::Marked)],
                EntityType::Skipped => r@ == seq![Intent::Meta(MetaIntent::Skipped)],
                _ => r@ == Seq::<Intent>::empty(),
            },
    {
        let mut intents: Vec<Intent> = Vec::new();

        match entities[0].entity_type() {
            EntityType::Marked => intents.push(Intent::Meta(MetaIntent::Marked)),
            EntityType::Skipped => intents.push(Intent::Meta(MetaIntent::Skipped)),
            _ => (),
        }
        proof {
            if entities@[0].entity is Marked {
                assert(intents@ =~= seq![Intent::Meta(MetaIntent::Marked)]);
            }
            if entities@[0].entity is Skipped {
                assert(intents@ =~= seq![Intent::Meta(MetaIntent::Skipped)]);
            }
        }
        intents
    }

    fn create_read_intent(&mut self, entities: Vec<Entity>) -> (r: Vec<Intent>)
        ensures
            r@ == spec_read_intents(entities@, 0),
    {
        // create an array of intents
        let mut intents: Vec<Intent> = Vec::new();

        let mut prev: u32 = 0;
        let mut i: usize = 0;
        while i < entities.len()
            invariant
                i <= entities@.len(),
                prev == (if i <= u32::MAX {
                    i as u32
                } else {
                    u32::MAX
                }),
                spec_read_intents(entities@, 0) == intents@ + spec_read_intents(
                    entities@,
                    i as int,
                ),
            decreases entities@.len() - i,
        {
            let entity = &entities[i];
            match self.get_reference(entity, prev) {
                Ok(reference) => {
                    intents.push(self.parse_read_intent(entity, reference));
                },
                Err(_) => (),
            }
            if prev < u32::MAX {
                prev = prev + 1;
            }
            i = i + 1;
        }
        intents
    }

    fn create_write_intent(&mut self, entities: Vec<Entity>) -> (r: Vec<Intent>)
        ensures
            entities@.len() == 0 ==> r@ == Seq::<Intent>::empty(),
            entities@.len() > 0 ==> match entities@[0].entity {
                EntityType::Mark => r@.len() == 1 && (r@[0] matches Intent::WriteIntent(w) && (w
                    matches Write::Mark(reads) && reads@ == spec_write_reads(entities@, 1))),
                EntityType::Skip => r@.len() == 1 && (r@[0] matches Intent::WriteIntent(w) && (w
                    matches Write::Skip(reads) && reads@ == spec_write_reads(entities@, 1))),
                _ => r@ == Seq::<Intent>::empty(),
            },
    {
        let mut ret: Vec<Intent> = Vec::new();
        if entities.len() == 0 {
            return ret;
        }

        let mut reads: Vec<Read> = Vec::new();
        let prev: u32 = 0;

        let mut i: usize = 1;
        while i < entities.len()
            invariant
                1 <= i <= entities@.len() || (entities@.len() == 0 && i == 1) || (i == 1),
                spec_write_reads(entities@, 1) == reads@ + spec_write_reads(entities@, i as int),
                prev == 0,
            decreases entities@.len() - i,
        {
            let entity = &entities[i];
            match self.get_reference(entity, prev) {
                Ok(reference) => {
                    reads.push(self.parse_read(entity, reference));
                },
                Err(_) => (),
            }
            i = i + 1;
        }

        match entities[0].entity_type() {
            EntityType::Mark => {
                // create a locator marked from the remaining items
                ret.push(Intent::WriteIntent(Write::Mark(reads)));
            },
            EntityType::Skip => {
                ret.push(Intent::WriteIntent(Write::Skip(reads)));
            },
            _ => (),
        }

        ret
    }

    // create a read intent
    fn parse_read_intent(&self, entity: &Entity, reference: Reference) -> (r: Intent)
        ensures
            r == Intent::ReadIntent(spec_read_for(*entity, reference)),
    {
        let read_intent = self.parse_read(entity, reference);

        Intent::ReadIntent(read_intent)
    }

    // parse a read query
    fn parse_read(&self, entity: &Entity, reference: Reference) -> (r: Read)
        ensures
            r == spec_read_for(*entity, reference),
    {
        let entity = match entity.entity_type() {
            EntityType::Question => Read::Question(reference),
            EntityType::Section => Read::Section(reference),
            _ => Read::Question(reference),
        };

        entity
    }

    fn get_reference(&mut self, entity: &Entity, prev: u32) -> (r: Result<Reference, String>)
        ensures
            entity.children@.len() == 1 ==> r == Ok::<Reference, String>(
                spec_reference(entity.children@[0], prev == 0),
            ),
            entity.children@.len() != 1 ==> r is Err,
    {
        match entity.child() {
            Ok(child) => Ok(child.get_reference(prev)),
            Err(e) => Err(e),
        }
    }
}

} // verus!
