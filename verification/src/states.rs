//! The tokenizer's states.

use vstd::prelude::*;

verus! {

#[derive(Debug, Eq, PartialEq, Clone, Copy)]
pub enum States {
    Document,
    TagOpen,
    StartClosingTag,
    TagName,
    BeforeAttributeName,
    StartAttributeValue,
    AttributeValue,
    Passage,
    ProcessingInstruction,
}

} // verus!
