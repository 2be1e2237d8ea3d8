//! The arena's node types, and the predicates used to search the arena.
//!
//! Every inter-node reference is an index into one owning vector; no node
//! owns another.

use vstd::prelude::*;

use crate::paper::QuestionPaper;
use crate::tag::Tag;

verus! {

#[derive(Debug, PartialEq, Eq)]
pub enum NodeData {
    Document,
    Section(SectionData),
    Question(QuestionData),
    Instruction(String),
}

// Section data
#[derive(Debug, PartialEq, Eq)]
pub struct SectionData {
    pub num_of_questions: u32,
    pub num_of_attempted: u32,
    pub num_of_skipped: u32,
    pub num_of_marked: u32,
    pub num_of_remaining: u32,
    pub section_name: String,
}

/// Question
#[derive(Debug, PartialEq, Eq)]
pub struct QuestionData {
    pub question: String,
    pub question_number: u32,
    pub page_number: u32,
    pub marked: bool,
}

/// A note can be taken on any node.
#[derive(Debug, PartialEq)]
pub struct Note {
    pub index: usize,
    pub note: String,
}

/// A single document node.
#[derive(Debug)]
pub struct Node {
    pub data: NodeData,
    pub index: usize,
    pub parent: Option<usize>,
    pub prev: Option<usize>,
    pub next: Option<usize>,
    pub first_child: Option<usize>,
    pub last_child: Option<usize>,
}

/// Value equality of section data, with the name compared by contents.
pub open spec fn section_eqv(a: SectionData, b: SectionData) -> bool {
    &&& a.num_of_questions == b.num_of_questions
    &&& a.num_of_attempted == b.num_of_attempted
    &&& a.num_of_skipped == b.num_of_skipped
    &&& a.num_of_marked == b.num_of_marked
    &&& a.num_of_remaining == b.num_of_remaining
    &&& a.section_name@ == b.section_name@
}

/// Value equality of question data.
pub open spec fn question_eqv(a: QuestionData, b: QuestionData) -> bool {
    &&& a.question@ == b.question@
    &&& a.question_number == b.question_number
    &&& a.page_number == b.page_number
    &&& a.marked == b.marked
}

/// Value equality of node payloads.
pub open spec fn node_data_eqv(a: NodeData, b: NodeData) -> bool {
    match (a, b) {
        (NodeData::Document, NodeData::Document) => true,
        (NodeData::Section(x), NodeData::Section(y)) => section_eqv(x, y),
        (NodeData::Question(x), NodeData::Question(y)) => question_eqv(x, y),
        (NodeData::Instruction(x), NodeData::Instruction(y)) => x@ == y@,
        _ => false,
    }
}

/// Value equality of whole nodes.
pub open spec fn node_eqv(a: Node, b: Node) -> bool {
    &&& node_data_eqv(a.data, b.data)
    &&& a.index == b.index
    &&& a.parent == b.parent
    &&& a.prev == b.prev
    &&& a.next == b.next
    &&& a.first_child == b.first_child
    &&& a.last_child == b.last_child
}

impl NodeData {
    pub open spec fn spec_is_question(&self) -> bool {
        self is Question
    }

    pub open spec fn spec_is_section(&self) -> bool {
        self is Section
    }

    pub fn is_question(&self) -> (r: bool)
        ensures
            r == self.spec_is_question(),
    {
        match self {
            NodeData::Question(_) => true,
            _ => false,
        }
    }

    pub fn is_section(&self) -> (r: bool)
        ensures
            r == self.spec_is_section(),
    {
        match self {
            NodeData::Section(_) => true,
            _ => false,
        }
    }
}

impl Clone for SectionData {
    fn clone(&self) -> (r: SectionData)
        ensures
            section_eqv(*self, r),
    {
        SectionData {
            num_of_questions: self.num_of_questions,
            num_of_attempted: self.num_of_attempted,
            num_of_skipped: self.num_of_skipped,
            num_of_marked: self.num_of_marked,
            num_of_remaining: self.num_of_remaining,
            section_name: self.section_name.clone(),
        }
    }
}

impl Clone for QuestionData {
    fn clone(&self) -> (r: QuestionData)
        ensures
            question_eqv(*self, r),
    {
        QuestionData {
            question: self.question.clone(),
            question_number: self.question_number,
            page_number: self.page_number,
            marked: self.marked,
        }
    }
}

impl Clone for Note {
    fn clone(&self) -> (r: Note)
        ensures
            r.index == self.index,
            r.note@ == self.note@,
    {
        Note { index: self.index, note: self.note.clone() }
    }
}

impl Clone for NodeData {
    fn clone(&self) -> (r: NodeData)
        ensures
            node_data_eqv(*self, r),
    {
        match self {
            NodeData::Document => NodeData::Document,
            NodeData::Section(s) => NodeData::Section(s.clone()),
            NodeData::Question(q) => NodeData::Question(q.clone()),
            NodeData::Instruction(i) => NodeData::Instruction(i.clone()),
        }
    }
}

impl Clone for Node {
    fn clone(&self) -> (r: Node)
        ensures
            node_eqv(*self, r),
    {
        Node {
            data: self.data.clone(),
            index: self.index,
            parent: self.parent,
            prev: self.prev,
            next: self.next,
            first_child: self.first_child,
            last_child: self.last_child,
        }
    }
}

impl Default for QuestionData {
    fn default() -> (r: QuestionData)
        ensures
            r.question@ == Seq::<char>::empty(),
            r.question_number == 0,
            r.page_number == 1,
            r.marked == false,
    {
        QuestionData {
            question: String::new(),
            question_number: 0,
            page_number: 1,
            marked: false,
        }
    }
}

/// A borrowed handle on one node of a paper.
pub struct NodeIndex<'a> {
    pub question_paper: &'a QuestionPaper,
    pub index: usize,
}

impl<'a> NodeIndex<'a> {
    pub fn new(question_paper: &'a QuestionPaper, index: usize) -> (r: Option<NodeIndex<'a>>)
        ensures
            index < question_paper.nodes@.len() ==> (r matches Some(ni) && ni.question_paper
                == question_paper && ni.index == index),
            index >= question_paper.nodes@.len() ==> r is None,
    {
        if index < question_paper.nodes.len() {
            Some(NodeIndex { question_paper, index })
        } else {
            None
        }
    }

    pub fn raw(&self) -> (r: &Node)
        requires
            self.index < self.question_paper.nodes@.len(),
        ensures
            r == &self.question_paper.nodes@[self.index as int],
    {
        &self.question_paper.nodes[self.index]
    }

    pub fn data(&self) -> (r: &NodeData)
        requires
            self.index < self.question_paper.nodes@.len(),
        ensures
            r == &self.question_paper.nodes@[self.index as int].data,
    {
        &self.raw().data
    }

    pub fn index(&self) -> (r: usize)
        ensures
            r == self.index,
    {
        self.index
    }
}

/// A type that folds a stream of tags into some finished item.  Each
/// implementation pins down its exact transition with `stepped` and what its
/// `end` hands back with `ended`.
pub trait Builder: Sized {
    type Item;

    /// The transition relation: `post` is the state after `pre` takes `tag`.
    spec fn stepped(pre: Self, tag: Tag, post: Self) -> bool;

    /// The relation between the final state and the produced item.
    spec fn ended(pre: Self, post: Self, item: Self::Item) -> bool;

    fn process_tag(&mut self, tag: Tag)
        ensures
            Self::stepped(*old(self), tag, *final(self)),
    ;

    fn end(&mut self) -> (item: Self::Item)
        ensures
            Self::ended(*old(self), *final(self), item),
    ;
}

/// A predicate selecting nodes by their payload.
pub trait Predicate: Sized {
    /// Which payloads the predicate accepts.
    spec fn spec_matches(&self, data: NodeData) -> bool;

    fn matches(&self, node: &NodeIndex) -> (r: bool)
        requires
            node.index < node.question_paper.nodes@.len(),
        ensures
            r == self.spec_matches(node.question_paper.nodes@[node.index as int].data),
    ;

}

/// The conjunction of two predicates.
#[derive(Copy, Clone, Debug, PartialEq)]
pub struct And<A, B>(pub A, pub B);

impl<A: Predicate, B: Predicate> Predicate for And<A, B> {
    open spec fn spec_matches(&self, data: NodeData) -> bool {
        self.0.spec_matches(data) && self.1.spec_matches(data)
    }

    fn matches(&self, other: &NodeIndex) -> (r: bool)
        ensures
            r == self.spec_matches(other.question_paper.nodes@[other.index as int].data),
    {
        self.0.matches(other) && self.1.matches(other)
    }
}

/// Accepts question nodes.
#[derive(Copy, Clone, Debug, PartialEq)]
pub struct QuestionPredicate;

impl Predicate for QuestionPredicate {
    open spec fn spec_matches(&self, data: NodeData) -> bool {
        data is Question
    }

    fn matches(&self, other: &NodeIndex) -> (r: bool)
        ensures
            r == self.spec_matches(other.question_paper.nodes@[other.index as int].data),
    {
        other.data().is_question()
    }
}

/// Accepts section nodes.
#[derive(Copy, Clone, Debug, PartialEq)]
pub struct SectionPredicate;

impl Predicate for SectionPredicate {
    open spec fn spec_matches(&self, data: NodeData) -> bool {
        data is Section
    }

    fn matches(&self, other: &NodeIndex) -> (r: bool)
        ensures
            r == self.spec_matches(other.question_paper.nodes@[other.index as int].data),
    {
        other.data().is_section()
    }
}

} // verus!
