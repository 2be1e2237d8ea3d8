//! Builder for one section block: it accumulates the section's name, its
//! page counter, and its questions, one per closed `question` tag.

use vstd::prelude::*;

use crate::node::{Builder, QuestionData, SectionData};
use crate::tag::{Tag, TagName};

verus! {

/// builder modes for a section
#[derive(Debug, PartialEq, Eq, Clone, Copy)]
pub enum Modes {
    Question,
    Meta,
}

#[derive(Debug)]
pub struct Section {
    pub section: SectionData,
    pub questions: Vec<QuestionData>,
}

/// Builder for a section block
#[derive(Debug)]
pub struct SectionBuilder {
    pub num_of_questions: u32,
    pub current_question: u32,
    pub mode: Option<Modes>,
    pub current_page: u32,
    pub last_page_name: Option<TagName>,
    pub questions: Vec<QuestionData>,
    pub current_section_name: String,
}

/// A counter bump that stops at the top of the range.
pub open spec fn sat_inc(x: u32) -> u32 {
    if x < u32::MAX {
        (x + 1) as u32
    } else {
        x
    }
}

/// The character data a tag carries.  The tokenizer attaches `None`
/// exactly when the passage before the tag was empty, so absent data and
/// empty data are the same observation and both read as the empty text.
pub open spec fn spec_tag_value(tag: Tag) -> Seq<char> {
    match tag.value {
        Some(v) => v@,
        None => Seq::<char>::empty(),
    }
}

/// The remembered page tag name, by contents.
pub open spec fn last_page_view(o: Option<TagName>) -> Option<Seq<char>> {
    match o {
        Some(n) => Some(n.0@),
        None => None,
    }
}

/// The sub-mode after a tag: an opening `item` enters question mode.
pub open spec fn sb_mode_after(pre: SectionBuilder, tag: Tag) -> Option<Modes> {
    if tag.spec_is_item() && tag.kind is StartTag {
        Some(Modes::Question)
    } else {
        pre.mode
    }
}

/// Whether a tag advances the page counter: a closing page tag whose name
/// differs from the last one seen.
pub open spec fn sb_page_bump(pre: SectionBuilder, tag: Tag) -> bool {
    &&& tag.spec_is_page()
    &&& tag.kind is EndTag
    &&& match pre.last_page_name {
        Some(lp) => lp.0@ != tag.name.0@,
        None => true,
    }
}

pub open spec fn sb_page_after(pre: SectionBuilder, tag: Tag) -> u32 {
    if sb_page_bump(pre, tag) {
        sat_inc(pre.current_page)
    } else {
        pre.current_page
    }
}

pub open spec fn sb_last_page_after(pre: SectionBuilder, tag: Tag) -> Option<Seq<char>> {
    if sb_page_bump(pre, tag) {
        Some(tag.name.0@)
    } else {
        last_page_view(pre.last_page_name)
    }
}

/// Whether a tag sets the section's display name.
pub open spec fn sb_name_set(tag: Tag) -> bool {
    tag.spec_is_section_name() && tag.kind is EndTag
}

/// Whether a tag records a question: a closing `question` tag while the
/// builder is in question mode.
pub open spec fn sb_records_question(pre: SectionBuilder, tag: Tag) -> bool {
    &&& sb_mode_after(pre, tag) == Some(Modes::Question)
    &&& tag.kind is EndTag
    &&& tag.spec_is_question()
}

impl SectionBuilder {
    pub fn new() -> (r: SectionBuilder)
        ensures
            r.num_of_questions == 0,
            r.current_question == 1,
            r.mode is None,
            r.current_page == 1,
            r.last_page_name is None,
            r.questions@ == Seq::<QuestionData>::empty(),
            r.current_section_name@ == Seq::<char>::empty(),
    {
        SectionBuilder {
            num_of_questions: 0,
            current_question: 1,
            mode: None,
            current_page: 1,
            last_page_name: None,
            questions: Vec::new(),
            current_section_name: String::new(),
        }
    }

    /// Reset the per-section state for reuse; the question-number and page
    /// counters run on across sections.
    pub fn clear(&mut self)
        ensures
            final(self).mode is None,
            final(self).num_of_questions == 0,
            final(self).questions@ == Seq::<QuestionData>::empty(),
            final(self).current_question == old(self).current_question,
            final(self).current_page == old(self).current_page,
            final(self).last_page_name == old(self).last_page_name,
            final(self).current_section_name@ == old(self).current_section_name@,
    {
        self.mode = None;
        self.num_of_questions = 0;
        self.questions = Vec::new();
    }

    /// Record one question from a closing `question` tag.
    fn process_question(&mut self, tag: Tag)
        ensures
            final(self).mode == old(self).mode,
            final(self).current_page == old(self).current_page,
            final(self).last_page_name == old(self).last_page_name,
            final(self).current_section_name@ == old(self).current_section_name@,
            (tag.kind is EndTag && tag.spec_is_question() ==> {
                &&& final(self).current_question == sat_inc(old(self).current_question)
                &&& final(self).num_of_questions == sat_inc(old(self).num_of_questions)
                &&& final(self).questions@.len() == old(self).questions@.len() + 1
                &&& final(self).questions@.drop_last() == old(self).questions@
                &&& final(self).questions@.last().question@ == spec_tag_value(tag)
                &&& final(self).questions@.last().page_number == old(self).current_page
                &&& final(self).questions@.last().question_number == sat_inc(
                    old(self).current_question,
                )
                &&& final(self).questions@.last().marked == false
            }),
            (!(tag.kind is EndTag && tag.spec_is_question()) ==> {
                &&& final(self).current_question == old(self).current_question
                &&& final(self).num_of_questions == old(self).num_of_questions
                &&& final(self).questions@ == old(self).questions@
            }),
    {
        if tag.is_end_tag() {
            if tag.is_question() {
                if self.current_question < u32::MAX {
                    self.current_question = self.current_question + 1;
                }
                if self.num_of_questions < u32::MAX {
                    self.num_of_questions = self.num_of_questions + 1;
                }

                let question = match tag.value() {
                    Some(v) => v,
                    None => String::new(),
                };

                // create a question data
                let question_data = QuestionData {
                    question,
                    page_number: self.current_page,
                    question_number: self.current_question,
                    marked: false,
                };

                self.questions.push(question_data);
            }
        }
    }

    /// Snapshot the section's metadata; only the question count is live,
    /// the other counters are zero until the paper tracks them.
    fn get_section_data(&self) -> (r: SectionData)
        ensures
            r.section_name@ == self.current_section_name@,
            r.num_of_questions == self.num_of_questions,
            r.num_of_marked == 0,
            r.num_of_skipped == 0,
            r.num_of_attempted == 0,
            r.num_of_remaining == 0,
    {
        SectionData {
            section_name: self.current_section_name.clone(),
            num_of_questions: self.num_of_questions,
            num_of_marked: 0,
            num_of_skipped: 0,
            num_of_attempted: 0,
            num_of_remaining: 0,
        }
    }
}

impl Builder for SectionBuilder {
    type Item = Section;

    /// One tag's exact effect on the section builder.
    open spec fn stepped(pre: SectionBuilder, tag: Tag, post: SectionBuilder) -> bool {
        &&& post.mode == sb_mode_after(pre, tag)
        &&& post.current_page == sb_page_after(pre, tag)
        &&& last_page_view(post.last_page_name) == sb_last_page_after(pre, tag)
        &&& post.current_section_name@ == (if sb_name_set(tag) {
            spec_tag_value(tag)
        } else {
            pre.current_section_name@
        })
        &&& (sb_records_question(pre, tag) ==> {
            &&& post.current_question == sat_inc(pre.current_question)
            &&& post.num_of_questions == sat_inc(pre.num_of_questions)
            &&& post.questions@.len() == pre.questions@.len() + 1
            &&& post.questions@.drop_last() == pre.questions@
            &&& post.questions@.last().question@ == spec_tag_value(tag)
            &&& post.questions@.last().page_number == sb_page_after(pre, tag)
            &&& post.questions@.last().question_number == sat_inc(pre.current_question)
            &&& post.questions@.last().marked == false
        })
        &&& (!sb_records_question(pre, tag) ==> {
            &&& post.current_question == pre.current_question
            &&& post.num_of_questions == pre.num_of_questions
            &&& post.questions@ == pre.questions@
        })
    }

    /// Ending a section hands out the accumulated metadata and questions
    /// and leaves the question list empty.
    open spec fn ended(pre: SectionBuilder, post: SectionBuilder, item: Section) -> bool {
        &&& item.section.section_name@ == pre.current_section_name@
        &&& item.section.num_of_questions == pre.num_of_questions
        &&& item.section.num_of_marked == 0
        &&& item.section.num_of_skipped == 0
        &&& item.section.num_of_attempted == 0
        &&& item.section.num_of_remaining == 0
        &&& item.questions@ == pre.questions@
        &&& post.questions@ == Seq::<QuestionData>::empty()
        &&& post.mode == pre.mode
        &&& post.current_question == pre.current_question
        &&& post.num_of_questions == pre.num_of_questions
        &&& post.current_page == pre.current_page
        &&& post.last_page_name == pre.last_page_name
        &&& post.current_section_name@ == pre.current_section_name@
    }

    fn process_tag(&mut self, tag: Tag) {
        if tag.is_item() {
            if tag.is_start_tag() {
                if tag.is_start_tag() {
                    self.mode = Some(Modes::Question);
                }
            }
        }
        // incrememnt the page
        if tag.is_page() {
            if tag.is_end_tag() {
                // compare with the last page tagname
                match self.last_page_name {
                    Some(ref lp) => {
                        if !(lp.0 == tag.name.0) {
                            if self.current_page < u32::MAX {
                                self.current_page = self.current_page + 1;
                            }
                            self.last_page_name = Some(tag.name().clone());
                        }
                    },
                    _ => {
                        if self.current_page < u32::MAX {
                            self.current_page = self.current_page + 1;
                        }
                        self.last_page_name = Some(tag.name().clone());
                    },
                }
            }
        }
        // set the section name
        if tag.is_section_name() {
            if tag.is_end_tag() {
                let name = match tag.value() {
                    Some(v) => v,
                    None => String::new(),
                };

                self.current_section_name = name;
            }
        }
        let mode = self.mode;
        if let Some(mode) = mode {
            match mode {
                Modes::Question => {
                    self.process_question(tag);
                },
                _ => (),
            }
        }
    }

    fn end(&mut self) -> (item: Section) {
        let section = self.get_section_data();
        let mut questions: Vec<QuestionData> = Vec::new();
        core::mem::swap(&mut questions, &mut self.questions);
        Section { section, questions }
    }
}

} // verus!
