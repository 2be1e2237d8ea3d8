//! Intents: structured read, write and meta commands against the paper, and
//! the cursor references they carry.

use vstd::prelude::*;

use crate::node::{Node, NodeData, Predicate};
use crate::paper::Find;

verus! {

// intents interface
#[derive(Debug, PartialEq, Eq, Clone, Copy)]
pub enum Read {
    Question(Reference),
    Section(Reference),
}

#[derive(Debug, PartialEq, Eq)]
pub enum Write {
    Mark(Vec<Read>),
    Skip(Vec<Read>),
    Note(Vec<Read>, String),
}

/// Reference with their skip values
#[derive(Debug, PartialEq, Eq, Clone, Copy)]
pub enum Reference {
    Start(i32),
    End(i32),
    Current(i32),
}

impl Reference {
    /// The signed offset carried by the reference.
    pub open spec fn spec_val(&self) -> int {
        match self {
            Reference::Start(c) => *c as int,
            Reference::Current(c) => *c as int,
            Reference::End(c) => *c as int,
        }
    }

    /// The number of matching nodes to skip: the offset's magnitude.
    pub open spec fn spec_skip(&self) -> nat {
        if self.spec_val() >= 0 {
            self.spec_val() as nat
        } else {
            (-self.spec_val()) as nat
        }
    }

    pub open spec fn spec_is_forward(&self) -> bool {
        self.spec_val() >= 0
    }

    pub fn is_forward(&self) -> (r: bool)
        ensures
            r == self.spec_is_forward(),
    {
        let val = match self {
            Reference::Start(c) => *c,
            Reference::Current(c) => *c,
            Reference::End(c) => *c,
        };
        val >= 0
    }

    /// The skip magnitude, computed without overflow even at the extreme
    /// negative offset.
    pub fn skip_magnitude(&self) -> (r: usize)
        ensures
            r == self.spec_skip(),
    {
        let val = match self {
            Reference::Start(c) => *c,
            Reference::Current(c) => *c,
            Reference::End(c) => *c,
        };
        if val >= 0 {
            val as usize
        } else {
            (-(val as i64)) as usize
        }
    }
}

#[derive(Debug, PartialEq, Eq)]
pub enum Intent {
    ReadIntent(Read),
    WriteIntent(Write),
    Meta(MetaIntent),
}

#[derive(Debug, PartialEq, Eq, Clone, Copy)]
pub enum MetaIntent {
    Skipped,
    Marked,
}

#[derive(Debug, PartialEq, Eq)]
pub enum WriteResult {
    Success,
    Error(String),
}

pub type ReadResult = Result<Node, String>;

#[derive(Debug)]
pub enum IntentResult {
    Read(Result<NodeData, String>),
    Write(WriteResult),
    Meta(String),
}

/// Types that can be used to resolve read intents.
pub trait Reader {
    fn resolve_read_intent(&mut self, read_intent: &Read) -> ReadResult;

    /// Resolve a question
    fn resolve_question(&mut self, reference: &Reference) -> ReadResult;

    /// Resolve a section
    fn resolve_section(&mut self, reference: &Reference) -> ReadResult;

    /// Resolve from a reference
    fn resolve_referece<P: Predicate>(&mut self, reference: &Reference, predicate: P) -> ReadResult;

    /// resolve a general predicate
    fn resolve<P: Predicate>(
        &mut self,
        predicate: P,
        prev: usize,
        skip: usize,
        reference: &Reference,
    ) -> ReadResult;

    /// Do a foward find
    fn find_next<P: Predicate>(&self, finder: Find<P>) -> ReadResult;

    /// Do a reverse find
    fn find_back<P: Predicate>(&self, finder: Find<P>) -> ReadResult;
}

/// Types that can be used to resolve write intents.
pub trait Writer {
    fn resolve_write_intent(&mut self, write_intent: &Write) -> WriteResult;

    // process a read intent and mark it for review
    fn mark_for_review(&mut self, read_intent: &Vec<Read>) -> WriteResult;

    /// Skip the component found on the read intent position
    fn skip(&mut self, read_intent: &Vec<Read>) -> WriteResult;

    /// take a note on the component found
    fn note(&mut self, read_intent: &Vec<Read>, note: String) -> WriteResult;
}

} // verus!
