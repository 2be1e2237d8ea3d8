//! The modal paper builder: it consumes the tag stream, keeps a mode (at
//! the root, or inside a section), delegates a section's body to the
//! [`SectionBuilder`], and folds closed sections into the node arena.

use vstd::prelude::*;

use crate::node::{question_eqv, Builder, Node, NodeData, QuestionData};
use crate::paper::{arena_indices_ok, arena_structure_ok, arena_wf, child_indices, doc_children_ok, lemma_child_indices_bounds, section_children_ok, QuestionPaper};
use crate::section_builder::SectionBuilder;
use crate::tag::Tag;

verus! {

/// Builder modes controll how the builder interprets an input tag
#[derive(Debug, Clone, Copy, PartialEq, Eq)]
pub enum Modes {
    Root,
    Section,
}

#[derive(Debug)]
pub struct QPaperBuilder {
    pub errors: Vec<String>,
    pub nodes: Vec<Node>,
    pub mode: Option<Modes>,
    pub instructions: Vec<String>,
    pub section_builder: SectionBuilder,
}

/// The builder mode after a tag: `root` enters root mode, a section tag
/// enters section mode, anything else leaves the mode alone.
pub open spec fn qb_mode_after(mode: Option<Modes>, tag: Tag) -> Option<Modes> {
    if tag.spec_is_root() {
        Some(Modes::Root)
    } else if tag.spec_is_section() {
        Some(Modes::Section)
    } else {
        mode
    }
}

/// The sibling a freshly inserted section is linked after: the document's
/// current last child, when it names a real slot.
pub open spec fn qb_prev_sibling(nodes: Seq<Node>) -> Option<usize> {
    if nodes.len() == 0 {
        None
    } else {
        match nodes[0].last_child {
            Some(p) => if (p as int) < nodes.len() {
                Some(p)
            } else {
                None
            },
            None => None,
        }
    }
}

/// What closing a section does to the arena: one section node, child of the
/// document and linked after the document's previous last child, followed
/// by one node per accumulated question, forming a doubly linked chain
/// under the section.
pub open spec fn qb_inserted_section(pre: QPaperBuilder, post: QPaperBuilder) -> bool {
    let base = pre.nodes@.len() as int;
    let sb = pre.section_builder;
    let qs = sb.questions@;
    let k = qs.len() as int;
    &&& post.nodes@.len() == base + 1 + k
    // the section node
    &&& (post.nodes@[base].data matches NodeData::Section(sd) && sd.section_name@
        == sb.current_section_name@ && sd.num_of_questions == sb.num_of_questions
        && sd.num_of_marked == 0 && sd.num_of_skipped == 0 && sd.num_of_attempted == 0
        && sd.num_of_remaining == 0)
    &&& post.nodes@[base].index == base
    &&& post.nodes@[base].parent == Some(0usize)
    &&& post.nodes@[base].prev == qb_prev_sibling(pre.nodes@)
    &&& post.nodes@[base].next is None
    &&& (base > 0 ==> post.nodes@[base].first_child == (if k > 0 {
        Some((base + 1) as usize)
    } else {
        None::<usize>
    }))
    &&& (base > 0 ==> post.nodes@[base].last_child == (if k > 0 {
        Some((base + k) as usize)
    } else {
        None::<usize>
    }))
    &&& (base == 0 ==> post.nodes@[base].first_child == Some(0usize) && post.nodes@[base].last_child
        == (if k > 0 {
        Some(k as usize)
    } else {
        Some(0usize)
    }))
    // the question nodes
    &&& (forall|j: int|
        0 <= j < k ==> ((#[trigger] post.nodes@[base + 1 + j]).data matches NodeData::Question(qd)
            && question_eqv(qd, qs[j])))
    &&& (forall|j: int| 0 <= j < k ==> (#[trigger] post.nodes@[base + 1 + j]).index == base + 1 + j)
    &&& (forall|j: int|
        0 <= j < k ==> (#[trigger] post.nodes@[base + 1 + j]).parent == Some(base as usize))
    &&& (forall|j: int|
        0 <= j < k ==> (#[trigger] post.nodes@[base + 1 + j]).prev == (if j > 0 {
            Some((base + j) as usize)
        } else {
            None::<usize>
        }))
    &&& (forall|j: int|
        0 <= j < k ==> (#[trigger] post.nodes@[base + 1 + j]).next == (if j < k - 1 {
            Some((base + 2 + j) as usize)
        } else {
            None::<usize>
        }))
    &&& (forall|j: int|
        0 <= j < k ==> (#[trigger] post.nodes@[base + 1 + j]).first_child is None && post.nodes@[base
            + 1 + j].last_child is None)
    // interior nodes keep everything; only the previous sibling's forward
    // link moves onto the new section
    &&& (forall|i: int|
        0 < i < base ==> {
            &&& (#[trigger] post.nodes@[i]).data == pre.nodes@[i].data
            &&& post.nodes@[i].index == pre.nodes@[i].index
            &&& post.nodes@[i].parent == pre.nodes@[i].parent
            &&& post.nodes@[i].prev == pre.nodes@[i].prev
            &&& post.nodes@[i].first_child == pre.nodes@[i].first_child
            &&& post.nodes@[i].last_child == pre.nodes@[i].last_child
        })
    &&& (forall|i: int|
        0 < i < base && Some(i as usize) != qb_prev_sibling(pre.nodes@) ==> (
        #[trigger] post.nodes@[i]).next == pre.nodes@[i].next)
    &&& (qb_prev_sibling(pre.nodes@) matches Some(p) ==> (p > 0 ==> post.nodes@[p as int].next
        == Some(base as usize)))
    // the document node gains the section as a child
    &&& (base > 0 ==> {
        &&& post.nodes@[0].data == pre.nodes@[0].data
        &&& post.nodes@[0].index == pre.nodes@[0].index
        &&& post.nodes@[0].parent == pre.nodes@[0].parent
        &&& post.nodes@[0].prev == pre.nodes@[0].prev
        &&& post.nodes@[0].next == (if qb_prev_sibling(pre.nodes@) == Some(0usize) {
            Some(base as usize)
        } else {
            pre.nodes@[0].next
        })
        &&& post.nodes@[0].first_child == (if pre.nodes@[0].first_child is None {
            Some(base as usize)
        } else {
            pre.nodes@[0].first_child
        })
        &&& post.nodes@[0].last_child == Some(base as usize)
    })
}

/// The section builder once a section was folded in: cleared for reuse; the
/// question-number and page counters run on.
pub open spec fn qb_sb_cleared(pre: SectionBuilder, post: SectionBuilder) -> bool {
    &&& post.mode is None
    &&& post.num_of_questions == 0
    &&& post.questions@ == Seq::<QuestionData>::empty()
    &&& post.current_question == pre.current_question
    &&& post.current_page == pre.current_page
    &&& post.last_page_name == pre.last_page_name
    &&& post.current_section_name@ == pre.current_section_name@
}

/// The exact effect of the document tag.
pub open spec fn qb_document_step(pre: QPaperBuilder, tag: Tag, post: QPaperBuilder) -> bool {
    &&& post.mode == pre.mode
    &&& post.instructions@ == pre.instructions@
    &&& post.section_builder == pre.section_builder
    &&& if tag.is_self_closing && tag.kind is StartTag {
        &&& post.nodes@ == pre.nodes@
        &&& post.errors@.len() == pre.errors@.len() + 1
        &&& post.errors@.drop_last() == pre.errors@
        &&& post.errors@.last()@ == "Document node cannot must be self closing"@
    } else if tag.kind is StartTag {
        &&& post.errors@ == pre.errors@
        &&& post.nodes@.len() == pre.nodes@.len() + 1
        &&& post.nodes@.drop_last() == pre.nodes@
        &&& post.nodes@.last().data is Document
        &&& post.nodes@.last().index == pre.nodes@.len()
        &&& post.nodes@.last().parent is None
        &&& post.nodes@.last().prev is None
        &&& post.nodes@.last().next is None
        &&& post.nodes@.last().first_child is None
        &&& post.nodes@.last().last_child is None
    } else {
        &&& post.errors@ == pre.errors@
        &&& post.nodes@ == pre.nodes@
    }
}

impl QPaperBuilder {
    pub fn new() -> (r: QPaperBuilder)
        ensures
            r.errors@ == Seq::<String>::empty(),
            r.nodes@ == Seq::<Node>::empty(),
            r.mode is None,
            r.instructions@ == Seq::<String>::empty(),
            r.section_builder.num_of_questions == 0,
            r.section_builder.current_question == 1,
            r.section_builder.mode is None,
            r.section_builder.current_page == 1,
            r.section_builder.last_page_name is None,
            r.section_builder.questions@ == Seq::<QuestionData>::empty(),
            r.section_builder.current_section_name@ == Seq::<char>::empty(),
    {
        QPaperBuilder {
            errors: Vec::new(),
            nodes: Vec::new(),
            mode: None,
            instructions: Vec::new(),
            section_builder: SectionBuilder::new(),
        }
    }

    /// Process a tag in the current mode
    fn process_in_mode(&mut self, tag: Tag)
        ensures
            final(self).mode == old(self).mode,
            match old(self).mode {
                None => *final(self) == *old(self),
                Some(Modes::Root) => {
                    &&& final(self).nodes@ == old(self).nodes@
                    &&& final(self).errors@ == old(self).errors@
                    &&& final(self).section_builder == old(self).section_builder
                    &&& if tag.spec_is_instructions() && tag.kind is EndTag && tag.value is Some {
                        final(self).instructions@ == old(self).instructions@.push(tag.value->0)
                    } else {
                        final(self).instructions@ == old(self).instructions@
                    }
                },
                Some(Modes::Section) => {
                    &&& final(self).errors@ == old(self).errors@
                    &&& final(self).instructions@ == old(self).instructions@
                    &&& if tag.spec_is_section() {
                        if tag.kind is EndTag {
                            qb_inserted_section(*old(self), *final(self)) && qb_sb_cleared(
                                old(self).section_builder,
                                final(self).section_builder,
                            )
                        } else {
                            final(self).nodes@ == old(self).nodes@ && final(self).section_builder
                                == old(self).section_builder
                        }
                    } else {
                        final(self).nodes@ == old(self).nodes@
                            && SectionBuilder::stepped(
                            old(self).section_builder,
                            tag,
                            final(self).section_builder,
                        )
                    }
                },
            },
    {
        let mode = self.mode;
        if let Some(mode) = mode {
            match mode {
                Modes::Root => {
                    // process a meta tag
                    if tag.is_instructions() {
                        if tag.is_end_tag() {
                            self.process_instruction_text(tag);
                        }
                    }
                },
                Modes::Section => {
                    // process a section block
                    if tag.is_section() {
                        if tag.is_end_tag() {
                            self.insert_section();
                        }
                    } else {
                        self.section_builder.process_tag(tag);
                    }
                },
            }
        }
    }

    /// Swaps the mode and returns the previous mode
    fn update_mode(&mut self, tag: &Tag) -> (prev_mode: Option<Modes>)
        ensures
            prev_mode == old(self).mode,
            final(self).mode == qb_mode_after(old(self).mode, *tag),
            final(self).nodes@ == old(self).nodes@,
            final(self).errors@ == old(self).errors@,
            final(self).instructions@ == old(self).instructions@,
            final(self).section_builder == old(self).section_builder,
    {
        let prev_mode = self.mode;

        let mode = if tag.is_root() {
            Some(Modes::Root)
        } else if tag.is_section() {
            Some(Modes::Section)
        } else {
            prev_mode
        };

        self.mode = mode;

        prev_mode
    }

    // process a document tag
    fn process_document(&mut self, tag: Tag)
        ensures
            qb_document_step(*old(self), tag, *final(self)),
    {
        let is_self_closing = match &tag {
            Tag { is_self_closing: true, kind: crate::tag::TagKind::StartTag, .. } => true,
            _ => false,
        };

        if is_self_closing {
            self.emit_error("Document node cannot must be self closing".to_owned());
            proof {
                assert(self.errors@.drop_last() =~= old(self).errors@);
            }
        } else {
            // append a document node
            if tag.is_start_tag() {
                self.append(NodeData::Document, None, None);
                proof {
                    assert(self.nodes@.drop_last() =~= old(self).nodes@);
                }
            }
        }
    }

    // handle errors
    fn emit_error(&mut self, error: String)
        ensures
            final(self).errors@ == old(self).errors@.push(error),
            final(self).nodes@ == old(self).nodes@,
            final(self).mode == old(self).mode,
            final(self).instructions@ == old(self).instructions@,
            final(self).section_builder == old(self).section_builder,
    {
        self.errors.push(error);
    }

    // append a node into this nodes array
    fn append(&mut self, data: NodeData, parent: Option<usize>, prev: Option<usize>) -> (index:
        usize)
        requires
            (parent matches Some(p) ==> p <= old(self).nodes@.len()),
            (prev matches Some(q) ==> q < old(self).nodes@.len()),
        ensures
            index == old(self).nodes@.len(),
            final(self).errors@ == old(self).errors@,
            final(self).mode == old(self).mode,
            final(self).instructions@ == old(self).instructions@,
            final(self).section_builder == old(self).section_builder,
            final(self).nodes@.len() == old(self).nodes@.len() + 1,
            final(self).nodes@[index as int].data == data,
            final(self).nodes@[index as int].index == index,
            final(self).nodes@[index as int].parent == parent,
            final(self).nodes@[index as int].prev == prev,
            final(self).nodes@[index as int].next is None,
            (parent == Some(index) ==> final(self).nodes@[index as int].first_child == Some(index)
                && final(self).nodes@[index as int].last_child == Some(index)),
            (parent != Some(index) ==> final(self).nodes@[index as int].first_child is None
                && final(self).nodes@[index as int].last_child is None),
            forall|i: int|
                0 <= i < old(self).nodes@.len() ==> {
                    &&& (#[trigger] final(self).nodes@[i]).data == old(self).nodes@[i].data
                    &&& final(self).nodes@[i].index == old(self).nodes@[i].index
                    &&& final(self).nodes@[i].parent == old(self).nodes@[i].parent
                    &&& final(self).nodes@[i].prev == old(self).nodes@[i].prev
                },
            forall|i: int|
                0 <= i < old(self).nodes@.len() && prev != Some(i as usize) ==> (
                #[trigger] final(self).nodes@[i]).next == old(self).nodes@[i].next,
            (prev matches Some(q) ==> final(self).nodes@[q as int].next == Some(index)),
            forall|i: int|
                0 <= i < old(self).nodes@.len() && parent != Some(i as usize) ==> (
                #[trigger] final(self).nodes@[i]).first_child == old(self).nodes@[i].first_child
                    && final(self).nodes@[i].last_child == old(self).nodes@[i].last_child,
            (parent matches Some(p) ==> ((p as int) < old(self).nodes@.len() ==> (
            final(self).nodes@[p as int].first_child == (if old(self).nodes@[p as int].first_child is None {
                Some(index)
            } else {
                old(self).nodes@[p as int].first_child
            }) && final(self).nodes@[p as int].last_child == Some(index)))),
    {
        let index = self.nodes.len();

        // insert a navigator node
        self.nodes.push(
            Node {
                data,
                index,
                parent,
                prev,
                next: None,
                first_child: None,
                last_child: None,
            },
        );

        if let Some(parent) = parent {
            if self.nodes[parent].first_child.is_none() {
                self.nodes[parent].first_child = Some(index);
            }
            self.nodes[parent].last_child = Some(index);
        }

        if let Some(prev) = prev {
            self.nodes[prev].next = Some(index);
        }

        index
    }

    // add an instructions text to this document
    fn process_instruction_text(&mut self, tag: Tag)
        requires
            tag.kind is EndTag,
        ensures
            final(self).nodes@ == old(self).nodes@,
            final(self).errors@ == old(self).errors@,
            final(self).mode == old(self).mode,
            final(self).section_builder == old(self).section_builder,
            (tag.value is Some ==> final(self).instructions@ == old(self).instructions@.push(
                tag.value->0,
            )),
            (tag.value is None ==> final(self).instructions@ == old(self).instructions@),
    {
        // extract the value from the tag
        if let Some(value) = tag.value {
            self.instructions.push(value);
        }
    }

    // insert a section
    fn insert_section(&mut self)
        ensures
            qb_inserted_section(*old(self), *final(self)),
            qb_sb_cleared(old(self).section_builder, final(self).section_builder),
            final(self).errors@ == old(self).errors@,
            final(self).mode == old(self).mode,
            final(self).instructions@ == old(self).instructions@,
    {
        let ghost pre = *old(self);
        let section = self.section_builder.end();

        // the new section becomes the document's next child, linked after
        // the previous one
        let prev_section: Option<usize> = if self.nodes.len() > 0 {
            match self.nodes[0].last_child {
                Some(p) => if p < self.nodes.len() {
                    Some(p)
                } else {
                    None
                },
                None => None,
            }
        } else {
            None
        };

        // append the section and its children
        let mut prev: Option<usize> = None;

        proof {
            assert(prev_section == qb_prev_sibling(self.nodes@));
        }
        let parent = self.append(NodeData::Section(section.section), Some(0), prev_section);
        let ghost base = parent as int;

        let n = section.questions.len();
        let mut j: usize = 0;
        while j < n
            invariant
                j <= n,
                n == pre.section_builder.questions@.len(),
                parent as int == base,
                prev_section == qb_prev_sibling(pre.nodes@),
                section.questions@ == pre.section_builder.questions@,
                base == pre.nodes@.len() as int,
                self.errors@ == pre.errors@,
                self.mode == pre.mode,
                self.instructions@ == pre.instructions@,
                self.section_builder.questions@ == Seq::<QuestionData>::empty(),
                self.section_builder.mode == pre.section_builder.mode,
                self.section_builder.num_of_questions == pre.section_builder.num_of_questions,
                self.section_builder.current_question == pre.section_builder.current_question,
                self.section_builder.current_page == pre.section_builder.current_page,
                self.section_builder.last_page_name == pre.section_builder.last_page_name,
                self.section_builder.current_section_name@
                    == pre.section_builder.current_section_name@,
                self.nodes@.len() == base + 1 + j,
                (self.nodes@[base].data matches NodeData::Section(sd) && sd.section_name@
                    == pre.section_builder.current_section_name@ && sd.num_of_questions
                    == pre.section_builder.num_of_questions && sd.num_of_marked == 0
                    && sd.num_of_skipped == 0 && sd.num_of_attempted == 0 && sd.num_of_remaining
                    == 0),
                self.nodes@[base].index == base,
                self.nodes@[base].parent == Some(0usize),
                self.nodes@[base].prev == qb_prev_sibling(pre.nodes@),
                self.nodes@[base].next is None,
                (base > 0 ==> self.nodes@[base].first_child == (if j > 0 {
                    Some((base + 1) as usize)
                } else {
                    None::<usize>
                })),
                (base > 0 ==> self.nodes@[base].last_child == (if j > 0 {
                    Some((base + j) as usize)
                } else {
                    None::<usize>
                })),
                (base == 0 ==> self.nodes@[base].first_child == Some(0usize)
                    && self.nodes@[base].last_child == (if j > 0 {
                    Some(j as usize)
                } else {
                    Some(0usize)
                })),
                (forall|t: int|
                    0 <= t < j ==> ((#[trigger] self.nodes@[base + 1 + t]).data
                        matches NodeData::Question(qd) && question_eqv(
                        qd,
                        pre.section_builder.questions@[t],
                    ))),
                (forall|t: int| 0 <= t < j ==> (#[trigger] self.nodes@[base + 1 + t]).index == base + 1 + t),
                (forall|t: int|
                    0 <= t < j ==> (#[trigger] self.nodes@[base + 1 + t]).parent == Some(
                        base as usize,
                    )),
                (forall|t: int|
                    0 <= t < j ==> (#[trigger] self.nodes@[base + 1 + t]).prev == (if t > 0 {
                        Some((base + t) as usize)
                    } else {
                        None::<usize>
                    })),
                (forall|t: int|
                    0 <= t < j ==> (#[trigger] self.nodes@[base + 1 + t]).next == (if t < j - 1 {
                        Some((base + 2 + t) as usize)
                    } else {
                        None::<usize>
                    })),
                (forall|t: int|
                    0 <= t < j ==> (#[trigger] self.nodes@[base + 1 + t]).first_child is None
                        && self.nodes@[base + 1 + t].last_child is None),
                (forall|i: int|
                    0 < i < base ==> {
                        &&& (#[trigger] self.nodes@[i]).data == pre.nodes@[i].data
                        &&& self.nodes@[i].index == pre.nodes@[i].index
                        &&& self.nodes@[i].parent == pre.nodes@[i].parent
                        &&& self.nodes@[i].prev == pre.nodes@[i].prev
                        &&& self.nodes@[i].first_child == pre.nodes@[i].first_child
                        &&& self.nodes@[i].last_child == pre.nodes@[i].last_child
                    }),
                (forall|i: int|
                    0 < i < base && Some(i as usize) != qb_prev_sibling(pre.nodes@) ==> (
                    #[trigger] self.nodes@[i]).next == pre.nodes@[i].next),
                (qb_prev_sibling(pre.nodes@) matches Some(p) ==> (p > 0
                    ==> self.nodes@[p as int].next == Some((base as usize)))),
                (base > 0 ==> {
                    &&& self.nodes@[0].data == pre.nodes@[0].data
                    &&& self.nodes@[0].index == pre.nodes@[0].index
                    &&& self.nodes@[0].parent == pre.nodes@[0].parent
                    &&& self.nodes@[0].prev == pre.nodes@[0].prev
                    &&& self.nodes@[0].next == (if qb_prev_sibling(pre.nodes@) == Some(0usize) {
                        Some(base as usize)
                    } else {
                        pre.nodes@[0].next
                    })
                    &&& self.nodes@[0].first_child == (if pre.nodes@[0].first_child is None {
                        Some(base as usize)
                    } else {
                        pre.nodes@[0].first_child
                    })
                    &&& self.nodes@[0].last_child == Some(base as usize)
                }),
                prev == (if j > 0 {
                    Some((base + j) as usize)
                } else {
                    None::<usize>
                }),
            decreases n - j,
        {
            prev = Some(
                self.append(NodeData::Question(section.questions[j].clone()), Some(parent), prev),
            );
            j = j + 1;
        }

        self.section_builder.clear();
    }
}

impl Builder for QPaperBuilder {
    type Item = QuestionPaper;

    /// One tag's exact effect on the paper builder.
    open spec fn stepped(pre: QPaperBuilder, tag: Tag, post: QPaperBuilder) -> bool {
        if tag.spec_is_document() {
            qb_document_step(pre, tag, post)
        } else {
            let mode2 = qb_mode_after(pre.mode, tag);
            &&& post.mode == mode2
            &&& match mode2 {
                None => {
                    &&& post.nodes@ == pre.nodes@
                    &&& post.errors@ == pre.errors@
                    &&& post.instructions@ == pre.instructions@
                    &&& post.section_builder == pre.section_builder
                },
                Some(Modes::Root) => {
                    &&& post.nodes@ == pre.nodes@
                    &&& post.errors@ == pre.errors@
                    &&& post.section_builder == pre.section_builder
                    &&& if tag.spec_is_instructions() && tag.kind is EndTag && tag.value is Some {
                        post.instructions@ == pre.instructions@.push(tag.value->0)
                    } else {
                        post.instructions@ == pre.instructions@
                    }
                },
                Some(Modes::Section) => {
                    &&& post.errors@ == pre.errors@
                    &&& post.instructions@ == pre.instructions@
                    &&& if tag.spec_is_section() {
                        if tag.kind is EndTag {
                            qb_inserted_section(pre, post) && qb_sb_cleared(
                                pre.section_builder,
                                post.section_builder,
                            )
                        } else {
                            post.nodes@ == pre.nodes@ && post.section_builder
                                == pre.section_builder
                        }
                    } else {
                        post.nodes@ == pre.nodes@ && SectionBuilder::stepped(
                            pre.section_builder,
                            tag,
                            post.section_builder,
                        )
                    }
                },
            }
        }
    }

    /// Ending the build hands the arena to a fresh paper: cursor at the
    /// document, registers empty, the question tally counted off the arena.
    open spec fn ended(pre: QPaperBuilder, post: QPaperBuilder, item: QuestionPaper) -> bool {
        &&& item.nodes@ == pre.nodes@
        &&& item.prev_index == 0
        &&& item.last_index == (if pre.nodes@.len() > 0 {
            pre.nodes@.len() - 1
        } else {
            0
        })
        &&& item.total_questions == spec_question_tally(pre.nodes@)
        &&& item.marked@ == Seq::<usize>::empty()
        &&& item.skipped@ == Seq::<usize>::empty()
        &&& item.notes@.len() == 0
        &&& post.nodes@ == Seq::<Node>::empty()
        &&& post.errors@ == pre.errors@
        &&& post.mode == pre.mode
        &&& post.instructions@ == pre.instructions@
        &&& post.section_builder == pre.section_builder
    }

    fn process_tag(&mut self, tag: Tag) {
        if tag.is_document() {
            return self.process_document(tag);
        }
        // update the mode
        self.update_mode(&tag);

        self.process_in_mode(tag);
    }

    fn end(&mut self) -> (item: QuestionPaper) {
        let total = self.question_tally();
        let last = if self.nodes.len() > 0 {
            self.nodes.len() - 1
        } else {
            0
        };
        let mut nodes: Vec<Node> = Vec::new();
        core::mem::swap(&mut nodes, &mut self.nodes);

        QuestionPaper::new(nodes, last, total)
    }
}

/// How many question nodes the first `upto` arena slots hold, capped at the
/// counter's range.
pub open spec fn spec_question_count(nodes: Seq<Node>, upto: int) -> nat
    decreases upto,
{
    if upto <= 0 {
        0
    } else {
        spec_question_count(nodes, upto - 1) + (if nodes[upto - 1].data is Question {
            1nat
        } else {
            0nat
        })
    }
}

pub open spec fn spec_question_tally(nodes: Seq<Node>) -> u32 {
    if spec_question_count(nodes, nodes.len() as int) <= u32::MAX {
        spec_question_count(nodes, nodes.len() as int) as u32
    } else {
        u32::MAX
    }
}

impl QPaperBuilder {
    /// Count the question nodes in the arena.
    fn question_tally(&self) -> (r: u32)
        ensures
            r == spec_question_tally(self.nodes@),
    {
        let mut count: u32 = 0;
        let mut i: usize = 0;
        while i < self.nodes.len()
            invariant
                i <= self.nodes@.len(),
                count == (if spec_question_count(self.nodes@, i as int) <= u32::MAX {
                    spec_question_count(self.nodes@, i as int) as u32
                } else {
                    u32::MAX
                }),
            decreases self.nodes@.len() - i,
        {
            if self.nodes[i].data.is_question() {
                if count < u32::MAX {
                    count = count + 1;
                }
            }
            i = i + 1;
        }
        count
    }
}

/// Every step of the paper builder preserves the arena invariants.
pub proof fn lemma_stepped_preserves_arena_wf(pre: QPaperBuilder, tag: Tag, post: QPaperBuilder)
    requires
        arena_wf(pre.nodes@),
        QPaperBuilder::stepped(pre, tag, post),
    ensures
        arena_wf(post.nodes@),
{
    let a = pre.nodes@;
    let b = post.nodes@;
    if b.len() == a.len() && b =~= a {
        assert(arena_wf(b));
    } else if b.len() == a.len() + 1 && b.drop_last() == a && b.last().data is Document
        && b.last().parent is None {
        lemma_doc_append_wf(a, b);
    } else {
        assert(qb_inserted_section(pre, post));
        lemma_insert_section_wf(pre, post);
    }
}

#[verifier::rlimit(60)]
proof fn lemma_doc_append_wf(a: Seq<Node>, b: Seq<Node>)
    requires
        arena_wf(a),
        b.len() == a.len() + 1,
        b.drop_last() == a,
        b.last().data is Document,
        b.last().parent is None,
        b.last().index == a.len(),
        b.last().first_child is None,
        b.last().last_child is None,
    ensures
        arena_wf(b),
{
    let last = a.len() as int;
    assert(forall|i: int| 0 <= i < last ==> #[trigger] b[i] == b.drop_last()[i]);
    assert(forall|i: int| 0 <= i < last ==> #[trigger] b[i] == a[i]);
    assert forall|i: int| 0 <= i < b.len() implies (#[trigger] b[i]).index == i by {
        if i < last {
            assert(b[i] == a[i]);
            assert(a[i].index == i);
        } else {
            assert(b[i] == b.last());
        }
    }
    assert(arena_indices_ok(b));
    if b.len() > 0 && b[0].data is Document {
        if last == 0 {
            assert forall|s: int|
                0 <= s < b.len() && (#[trigger] b[s]).data is Section implies section_children_ok(
                b,
                s,
            ) by {
                assert(b[s] == b.last());
                assert(false);
            }
            assert forall|i: int|
                0 <= i < b.len() && (#[trigger] b[i]).data is Question implies exists|s: int|
                    0 <= s < i && b[i].parent == Some(s as usize) && (#[trigger] b[s]).data
                        is Section by {
                assert(b[i] == b.last());
                assert(false);
            }
            assert(child_indices(b, 1) =~= Seq::<int>::empty());
            assert(doc_children_ok(b));
        } else {
            assert(b[0] == a[0]);
            assert(a[0].data is Document);
            assert forall|s: int|
                0 <= s < b.len() && (#[trigger] b[s]).data is Section implies section_children_ok(
                b,
                s,
            ) by {
                assert(s != last);
                assert(b[s] == a[s]);
                assert(section_children_ok(a, s));
                match (a[s].first_child, a[s].last_child) {
                    (Option::None, Option::None) => {
                        assert forall|i: int|
                            s < i < b.len() implies (#[trigger] b[i]).parent != Some(
                            s as usize,
                        ) by {
                            if i < last {
                                assert(b[i] == a[i]);
                            } else {
                                assert(b[i].parent is None);
                            }
                        }
                    },
                    (Option::Some(f), Option::Some(l)) => {
                        assert forall|i: int|
                            s < i < b.len() implies ((#[trigger] b[i]).parent == Some(s as usize)
                                <==> s + 1 <= i <= l) by {
                            if i < last {
                                assert(b[i] == a[i]);
                            } else {
                                assert(b[i].parent is None);
                                assert(l < last);
                            }
                        }
                        assert(forall|i: int| s + 1 <= i <= l ==> #[trigger] b[i] == a[i]);
                    },
                    _ => {
                        assert(false);
                    },
                }
            }
            assert forall|i: int|
                0 <= i < b.len() && (#[trigger] b[i]).data is Question implies exists|s: int|
                    0 <= s < i && b[i].parent == Some(s as usize) && (#[trigger] b[s]).data
                        is Section by {
                assert(i != last);
                assert(b[i] == a[i]);
                let s = choose|s: int|
                    0 <= s < i && a[i].parent == Some(s as usize) && (#[trigger] a[s]).data
                        is Section;
                assert(b[s] == a[s]);
                assert(0 <= s < i && b[i].parent == Some(s as usize) && b[s].data is Section);
            }
            // the appended document node is nobody's child, so the chain of
            // the document at index 0 is untouched
            assert(doc_children_ok(a));
            assert(forall|t: int| 1 <= t < a.len() ==> (#[trigger] b[t]).parent == a[t].parent);
            lemma_ci_same(a, b, 1);
            lemma_child_indices_bounds(a, 1);
            assert(doc_children_ok(b));
        }
    }
    assert(arena_structure_ok(b));
}


proof fn lemma_ci_none(b: Seq<Node>, i: int)
    requires
        forall|t: int| i <= t < b.len() && t >= 1 ==> (#[trigger] b[t]).parent != Some(0usize),
    ensures
        child_indices(b, i) == Seq::<int>::empty(),
    decreases b.len() - i,
{
    if i < 1 || i >= b.len() {
    } else {
        lemma_ci_none(b, i + 1);
    }
}

proof fn lemma_ci_same(a: Seq<Node>, b: Seq<Node>, i: int)
    requires
        b.len() >= a.len(),
        forall|t: int| 1 <= t < a.len() ==> (#[trigger] b[t]).parent == a[t].parent,
        forall|t: int| a.len() <= t < b.len() && t >= 1 ==> (#[trigger] b[t]).parent != Some(0usize),
        i >= 1,
    ensures
        child_indices(b, i) == child_indices(a, i),
    decreases b.len() - i,
{
    if i >= b.len() {
        assert(child_indices(a, i) =~= Seq::<int>::empty());
        assert(child_indices(b, i) =~= Seq::<int>::empty());
    } else if i >= a.len() {
        lemma_ci_none(b, i);
        assert(child_indices(a, i) =~= Seq::<int>::empty());
    } else {
        lemma_ci_same(a, b, i + 1);
    }
}

proof fn lemma_ci_snoc(a: Seq<Node>, b: Seq<Node>, base: int, i: int)
    requires
        base == a.len(),
        base >= 1,
        b.len() > base,
        forall|t: int| 1 <= t < base ==> (#[trigger] b[t]).parent == a[t].parent,
        b[base].parent == Some(0usize),
        forall|t: int| base < t < b.len() ==> (#[trigger] b[t]).parent != Some(0usize),
        1 <= i <= base,
    ensures
        child_indices(b, i) == child_indices(a, i) + seq![base],
    decreases base - i,
{
    if i == base {
        lemma_ci_none(b, base + 1);
        assert(child_indices(a, i) =~= Seq::<int>::empty());
        assert(child_indices(b, i) =~= child_indices(a, i) + seq![base]);
    } else {
        lemma_ci_snoc(a, b, base, i + 1);
        if b[i].parent == Some(0usize) {
            assert(child_indices(b, i) =~= child_indices(a, i) + seq![base]);
        } else {
            assert(child_indices(b, i) =~= child_indices(a, i) + seq![base]);
        }
    }
}

/// The chain clauses alone, from the bare link facts.
proof fn lemma_chain_links(a: Seq<Node>, b: Seq<Node>, base: int, cs_a: Seq<int>)
    requires
        cs_a == child_indices(a, 1),
        child_indices(b, 1) == cs_a + seq![base],
        doc_children_ok(a),
        0 < base < b.len(),
        forall|m: int| 0 <= m < cs_a.len() ==> 1 <= #[trigger] cs_a[m] < base,
        forall|m: int| 0 <= m < cs_a.len() - 1 ==> #[trigger] cs_a[m] < cs_a[m + 1],
        a[0].last_child == (if cs_a.len() > 0 {
            Some(cs_a.last() as usize)
        } else {
            None::<usize>
        }),
        forall|i: int|
            0 < i < base && (cs_a.len() == 0 || i != cs_a.last()) ==> (#[trigger] b[i]).next
                == a[i].next,
        (cs_a.len() > 0 ==> b[cs_a.last()].next == Some(base as usize)),
        b[base].next is None,
        forall|i: int| 0 < i < base ==> (#[trigger] b[i]).prev == a[i].prev,
        b[base].prev == (if cs_a.len() > 0 {
            Some(cs_a.last() as usize)
        } else {
            None::<usize>
        }),
        b[0].first_child == (if a[0].first_child is None {
            Some(base as usize)
        } else {
            a[0].first_child
        }),
        b[0].last_child == Some(base as usize),
    ensures
        doc_children_ok(b),
{
    let cs_b = child_indices(b, 1);
    assert(cs_b.len() == cs_a.len() + 1);
    assert(forall|m: int| 0 <= m < cs_a.len() ==> #[trigger] cs_b[m] == cs_a[m]);
    assert(cs_b[cs_a.len() as int] == base);
    assert(cs_b.last() == base);
    assert(b[0].first_child == Some(cs_b[0] as usize));
    assert forall|m: int| 0 <= m < cs_b.len() implies b[#[trigger] cs_b[m]].next == (if m + 1
        < cs_b.len() {
        Some(cs_b[m + 1] as usize)
    } else {
        None::<usize>
    }) by {
        if m < cs_a.len() - 1 {
            assert(cs_a[m] < cs_a[m + 1]);
            assert(cs_a[m + 1] <= cs_a.last()) by {
                lemma_cs_sorted(cs_a, m + 1, cs_a.len() - 1);
            }
            assert(cs_a[m] != cs_a.last());
            assert(b[cs_a[m]].next == a[cs_a[m]].next);
            assert(a[cs_a[m]].next == Some(cs_a[m + 1] as usize));
        } else if m == cs_a.len() - 1 {
            assert(b[cs_a.last()].next == Some(base as usize));
        } else {
            assert(cs_b[m] == base);
        }
    }
    assert forall|m: int| 0 <= m < cs_b.len() implies b[#[trigger] cs_b[m]].prev == (if m > 0 {
        Some(cs_b[m - 1] as usize)
    } else {
        None::<usize>
    }) by {
        if m < cs_a.len() {
            assert(b[cs_a[m]].prev == a[cs_a[m]].prev);
            assert(a[cs_a[m]].prev == (if m > 0 {
                Some(cs_a[m - 1] as usize)
            } else {
                None::<usize>
            }));
        } else {
            assert(cs_b[m] == base);
        }
    }
}

/// A strictly increasing step implies order across any span.
proof fn lemma_cs_sorted(cs: Seq<int>, i: int, j: int)
    requires
        forall|m: int| 0 <= m < cs.len() - 1 ==> #[trigger] cs[m] < cs[m + 1],
        0 <= i <= j < cs.len(),
    ensures
        cs[i] <= cs[j],
    decreases j - i,
{
    if i < j {
        lemma_cs_sorted(cs, i + 1, j);
    }
}

/// Folding in a section appends it to the document's child chain: the new
/// section is linked after the previous last child, and the chain still
/// visits every child exactly once, in arena order.
proof fn lemma_insert_doc_chain(pre: QPaperBuilder, post: QPaperBuilder)
    requires
        arena_wf(pre.nodes@),
        qb_inserted_section(pre, post),
        pre.nodes@.len() > 0,
        pre.nodes@[0].data is Document,
    ensures
        doc_children_ok(post.nodes@),
{
    let a = pre.nodes@;
    let b = post.nodes@;
    let base = a.len() as int;
    let k = pre.section_builder.questions@.len() as int;
    vstd::std_specs::vec::axiom_spec_len(&post.nodes);
    assert(b.len() <= usize::MAX);
    assert(doc_children_ok(a));
    let cs_a = child_indices(a, 1);
    lemma_child_indices_bounds(a, 1);
    assert(forall|t: int| 1 <= t < base ==> (#[trigger] b[t]).parent == a[t].parent);
    assert forall|t: int| base < t < b.len() implies (#[trigger] b[t]).parent != Some(
        0usize,
    ) by {
        let j = t - base - 1;
        assert(0 <= j < k);
        assert(b[base + 1 + j].parent == Some(base as usize));
    }
    lemma_ci_snoc(a, b, base, 1);
    if cs_a.len() > 0 {
        assert(a[0].last_child == Some(cs_a.last() as usize));
        assert(1 <= cs_a.last() < base);
        assert(qb_prev_sibling(a) == Some(cs_a.last() as usize));
        assert(b[cs_a.last()].next == Some(base as usize));
    } else {
        assert(a[0].last_child is None);
        assert(qb_prev_sibling(a) is None);
    }
    assert(forall|i: int|
        0 < i < base && (cs_a.len() == 0 || i != cs_a.last()) ==> (#[trigger] b[i]).next
            == a[i].next);
    lemma_chain_links(a, b, base, cs_a);
}

#[verifier::rlimit(60)]
proof fn lemma_insert_section_wf(pre: QPaperBuilder, post: QPaperBuilder)
    requires
        arena_wf(pre.nodes@),
        qb_inserted_section(pre, post),
    ensures
        arena_wf(post.nodes@),
{
    let a = pre.nodes@;
    let b = post.nodes@;
    let base = a.len() as int;
    let k = pre.section_builder.questions@.len() as int;
    vstd::std_specs::vec::axiom_spec_len(&post.nodes);
    assert(b.len() <= usize::MAX);
    assert forall|i: int| 0 <= i < b.len() implies (#[trigger] b[i]).index == i by {
        if 0 < i < base {
            assert(b[i].index == a[i].index);
            assert(a[i].index == i);
        } else if i == 0 && base > 0 {
            assert(b[0].index == a[0].index);
            assert(a[0].index == 0);
        } else if i == base {
        } else if i > base {
            let j = i - base - 1;
            assert(0 <= j < k);
            assert(b[base + 1 + j].index == base + 1 + j);
        }
    }
    assert(arena_indices_ok(b));
    if b.len() > 0 && b[0].data is Document {
        if base == 0 {
            assert(b[0].data is Section);
            assert(false);
        }
        assert(b[0].data == a[0].data);
        assert(a[0].data is Document);
        assert(doc_children_ok(a));
        lemma_child_indices_bounds(a, 1);
        // the document's previous last child is itself a child of the
        // document, never of any section
        assert(qb_prev_sibling(a) is Some ==> a[qb_prev_sibling(a)->0 as int].parent == Some(
            0usize,
        )) by {
            if qb_prev_sibling(a) is Some {
                let p = qb_prev_sibling(a)->0;
                let cs_a = child_indices(a, 1);
                assert(a[0].last_child == Some(p));
                assert(cs_a.len() > 0);
                assert(p as int == cs_a.last());
            }
        }
        assert forall|s: int|
            0 <= s < b.len() && (#[trigger] b[s]).data is Section implies section_children_ok(
            b,
            s,
        ) by {
            if 0 < s < base {
                assert(b[s].data == a[s].data);
                assert(b[s].first_child == a[s].first_child);
                assert(b[s].last_child == a[s].last_child);
                assert(a[s].data is Section);
                assert(section_children_ok(a, s));
                match (a[s].first_child, a[s].last_child) {
                    (Option::None, Option::None) => {
                        assert forall|i: int|
                            s < i < b.len() implies (#[trigger] b[i]).parent != Some(
                            s as usize,
                        ) by {
                            if 0 < i < base {
                                assert(b[i].parent == a[i].parent);
                            } else if i == base {
                                assert(b[i].parent == Some(0usize));
                            } else {
                                let j = i - base - 1;
                                assert(0 <= j < k);
                                assert(b[base + 1 + j].parent == Some(base as usize));
                            }
                        }
                    },
                    (Option::Some(f), Option::Some(l)) => {
                        assert(l < base);
                        assert forall|i: int|
                            s < i < b.len() implies ((#[trigger] b[i]).parent == Some(s as usize)
                                <==> s + 1 <= i <= l) by {
                            if 0 < i < base {
                                assert(b[i].parent == a[i].parent);
                            } else if i == base {
                                assert(b[i].parent == Some(0usize));
                            } else {
                                let j = i - base - 1;
                                assert(0 <= j < k);
                                assert(b[base + 1 + j].parent == Some(base as usize));
                            }
                        }
                        // the section's questions are not the document's
                        // child, so their links are untouched
                        assert forall|i: int| s + 1 <= i <= l implies (#[trigger] b[i]).next
                            == a[i].next && b[i].prev == a[i].prev && b[i].data == a[i].data by {
                            assert(a[i].parent == Some(s as usize));
                            assert(Some(i as usize) != qb_prev_sibling(a));
                        }
                    },
                    _ => {
                        assert(false);
                    },
                }
                assert(section_children_ok(b, s));
            } else if s == 0 {
                assert(false);
            } else if s == base {
                if k == 0 {
                    assert(b[s].first_child is None && b[s].last_child is None);
                    assert forall|i: int|
                        s < i < b.len() implies (#[trigger] b[i]).parent != Some(s as usize) by {
                        assert(false);
                    }
                } else {
                    assert(b[s].first_child == Some((base + 1) as usize));
                    assert(b[s].last_child == Some((base + k) as usize));
                    assert forall|i: int|
                        s < i < b.len() implies ((#[trigger] b[i]).parent == Some(s as usize)
                            <==> s + 1 <= i <= base + k) by {
                        let j = i - base - 1;
                        assert(0 <= j < k);
                        assert(b[base + 1 + j].parent == Some(base as usize));
                    }
                    assert forall|i: int| s + 1 <= i <= base + k implies (#[trigger] b[i]).data
                        is Question by {
                        let j = i - base - 1;
                        assert(0 <= j < k);
                        assert((b[base + 1 + j].data matches NodeData::Question(qd)
                            && question_eqv(qd, pre.section_builder.questions@[j])));
                    }
                    assert forall|i: int|
                        s + 1 <= i <= base + k implies (#[trigger] b[i]).next == (if i < base
                            + k {
                            Some((i + 1) as usize)
                        } else {
                            None::<usize>
                        }) by {
                        let j = i - base - 1;
                        assert(0 <= j < k);
                        assert(b[base + 1 + j].next == (if j < k - 1 {
                            Some((base + 2 + j) as usize)
                        } else {
                            None::<usize>
                        }));
                    }
                    assert forall|i: int|
                        s + 1 <= i <= base + k implies (#[trigger] b[i]).prev == (if i > s + 1 {
                            Some((i - 1) as usize)
                        } else {
                            None::<usize>
                        }) by {
                        let j = i - base - 1;
                        assert(0 <= j < k);
                        assert(b[base + 1 + j].prev == (if j > 0 {
                            Some((base + j) as usize)
                        } else {
                            None::<usize>
                        }));
                    }
                    assert(section_children_ok(b, s));
                }
            } else {
                let j = s - base - 1;
                assert(0 <= j < k);
                assert((b[base + 1 + j].data matches NodeData::Question(qd) && question_eqv(
                    qd,
                    pre.section_builder.questions@[j],
                )));
                assert(false);
            }
        }
        assert forall|i: int|
            0 <= i < b.len() && (#[trigger] b[i]).data is Question implies exists|s: int|
                0 <= s < i && b[i].parent == Some(s as usize) && (#[trigger] b[s]).data
                    is Section by {
            if i == 0 {
                assert(b[0].data is Document);
                assert(false);
            } else if i < base {
                assert(b[i].data == a[i].data);
                assert(a[i].data is Question);
                let s = choose|s: int|
                    0 <= s < i && a[i].parent == Some(s as usize) && (#[trigger] a[s]).data
                        is Section;
                if s == 0 {
                    assert(a[0].data is Document);
                    assert(false);
                }
                assert(b[s].data == a[s].data);
                assert(b[i].parent == a[i].parent);
                assert(0 <= s < i && b[i].parent == Some(s as usize) && b[s].data is Section);
            } else if i == base {
                assert(b[base].data is Section);
                assert(false);
            } else {
                let j = i - base - 1;
                assert(0 <= j < k);
                assert(b[base + 1 + j].parent == Some(base as usize));
                assert(b[base].data is Section);
                assert(0 <= base < i && b[i].parent == Some(base as usize) && b[base].data
                    is Section);
            }
        }
        lemma_insert_doc_chain(pre, post);
    }
    assert(arena_structure_ok(b));
}

// === Token order and character data round trip ===

/// The builder's start state: an empty arena, no mode, a fresh section
/// builder.
pub open spec fn qb_initial(b: QPaperBuilder) -> bool {
    &&& b.nodes@.len() == 0
    &&& b.mode is None
    &&& b.section_builder.mode is None
    &&& b.section_builder.questions@.len() == 0
}

/// The builder consumed `tags` in order, starting from `b0` and ending at
/// `b1`.
pub open spec fn builder_runs(b0: QPaperBuilder, tags: Seq<Tag>, b1: QPaperBuilder) -> bool
    decreases tags.len(),
{
    if tags.len() == 0 {
        b1 == b0
    } else {
        exists|bm: QPaperBuilder|
            #[trigger] QPaperBuilder::stepped(b0, tags[0], bm) && builder_runs(
                bm,
                tags.skip(1),
                b1,
            )
    }
}


/// Extending a run of the builder by one more consumed tag.
pub proof fn lemma_builder_runs_snoc(
    b0: QPaperBuilder,
    s: Seq<Tag>,
    b1: QPaperBuilder,
    x: Tag,
    b2: QPaperBuilder,
)
    requires
        builder_runs(b0, s, b1),
        QPaperBuilder::stepped(b1, x, b2),
    ensures
        builder_runs(b0, s.push(x), b2),
    decreases s.len(),
{
    let s2 = s.push(x);
    if s.len() == 0 {
        assert(s2[0] == x);
        assert(s2.skip(1) =~= Seq::<Tag>::empty());
        assert(QPaperBuilder::stepped(b0, s2[0], b2));
        assert(builder_runs(b2, s2.skip(1), b2));
    } else {
        let bm = choose|bm: QPaperBuilder|
            #[trigger] QPaperBuilder::stepped(b0, s[0], bm) && builder_runs(bm, s.skip(1), b1);
        lemma_builder_runs_snoc(bm, s.skip(1), b1, x, b2);
        assert(s2.skip(1) =~= s.skip(1).push(x));
        assert(s2[0] == s[0]);
        assert(QPaperBuilder::stepped(b0, s2[0], bm) && builder_runs(bm, s2.skip(1), b2));
    }
}

/// Whether a tag, observed in the given collector state, closes a question
/// that the builder records.
pub open spec fn collect_records(bmode: Option<Modes>, qmode: bool, tag: Tag) -> bool {
    &&& !tag.spec_is_document()
    &&& qb_mode_after(bmode, tag) == Some(Modes::Section)
    &&& !tag.spec_is_section()
    &&& ((tag.spec_is_item() && tag.kind is StartTag) || qmode)
    &&& tag.kind is EndTag
    &&& tag.spec_is_question()
}

/// The builder mode the collector tracks after a tag.
pub open spec fn collect_bmode2(bmode: Option<Modes>, tag: Tag) -> Option<Modes> {
    if tag.spec_is_document() {
        bmode
    } else {
        qb_mode_after(bmode, tag)
    }
}

/// The question sub-mode the collector tracks after a tag.
pub open spec fn collect_qmode2(bmode: Option<Modes>, qmode: bool, tag: Tag) -> bool {
    if tag.spec_is_document() {
        qmode
    } else if qb_mode_after(bmode, tag) == Some(Modes::Section) {
        if tag.spec_is_section() {
            if tag.kind is EndTag {
                false
            } else {
                qmode
            }
        } else {
            (tag.spec_is_item() && tag.kind is StartTag) || qmode
        }
    } else {
        qmode
    }
}

/// The texts of the closing question tags that the stream records, in
/// stream order, tracked independently of the builder.
pub open spec fn q_collect(tags: Seq<Tag>, bmode: Option<Modes>, qmode: bool) -> Seq<Seq<char>>
    decreases tags.len(),
{
    if tags.len() == 0 {
        Seq::<Seq<char>>::empty()
    } else {
        (if collect_records(bmode, qmode, tags[0]) {
            seq![crate::section_builder::spec_tag_value(tags[0])]
        } else {
            Seq::<Seq<char>>::empty()
        }) + q_collect(
            tags.skip(1),
            collect_bmode2(bmode, tags[0]),
            collect_qmode2(bmode, qmode, tags[0]),
        )
    }
}

/// The question texts held by arena slots `i ..< j`, in arena order.
pub open spec fn arena_question_texts(nodes: Seq<Node>, i: int, j: int) -> Seq<Seq<char>>
    decreases j - i,
{
    if i >= j {
        Seq::<Seq<char>>::empty()
    } else {
        (match nodes[i].data {
            NodeData::Question(q) => seq![q.question@],
            _ => Seq::<Seq<char>>::empty(),
        }) + arena_question_texts(nodes, i + 1, j)
    }
}

/// The texts of the questions still pending in the section builder.
pub open spec fn pending_question_texts(qs: Seq<QuestionData>, i: int) -> Seq<Seq<char>>
    decreases qs.len() - i,
{
    if i < 0 || i >= qs.len() {
        Seq::<Seq<char>>::empty()
    } else {
        seq![qs[i].question@] + pending_question_texts(qs, i + 1)
    }
}

/// Everything the builder has gathered: arena questions first, pending
/// questions after.
pub open spec fn gathered_texts(b: QPaperBuilder) -> Seq<Seq<char>> {
    arena_question_texts(b.nodes@, 0, b.nodes@.len() as int) + pending_question_texts(
        b.section_builder.questions@,
        0,
    )
}

proof fn lemma_aq_split(nodes: Seq<Node>, i: int, j: int, k: int)
    requires
        i <= j <= k,
    ensures
        arena_question_texts(nodes, i, k) == arena_question_texts(nodes, i, j)
            + arena_question_texts(nodes, j, k),
    decreases j - i,
{
    if i >= j {
        assert(arena_question_texts(nodes, i, j) =~~= Seq::<Seq<char>>::empty());
        assert(arena_question_texts(nodes, i, k) =~~= arena_question_texts(nodes, i, j)
            + arena_question_texts(nodes, j, k));
    } else {
        lemma_aq_split(nodes, i + 1, j, k);
        assert(arena_question_texts(nodes, i, k) =~~= arena_question_texts(nodes, i, j)
            + arena_question_texts(nodes, j, k));
    }
}

proof fn lemma_aq_congruent(a: Seq<Node>, b: Seq<Node>, i: int, j: int)
    requires
        forall|t: int| i <= t < j ==> (#[trigger] b[t]).data == a[t].data,
    ensures
        arena_question_texts(b, i, j) == arena_question_texts(a, i, j),
    decreases j - i,
{
    if i < j {
        lemma_aq_congruent(a, b, i + 1, j);
    }
}

proof fn lemma_pending_push(qs: Seq<QuestionData>, q: QuestionData)
    ensures
        pending_question_texts(qs.push(q), 0) == pending_question_texts(qs, 0) + seq![q.question@],
    decreases qs.len(),
{
    lemma_pending_push_from(qs, q, 0);
}

proof fn lemma_pending_push_from(qs: Seq<QuestionData>, q: QuestionData, i: int)
    requires
        0 <= i <= qs.len(),
    ensures
        pending_question_texts(qs.push(q), i) == pending_question_texts(qs, i)
            + seq![q.question@],
    decreases qs.len() - i,
{
    if i == qs.len() {
        assert(qs.push(q)[i] == q);
        assert(pending_question_texts(qs.push(q), i + 1) =~~= Seq::<Seq<char>>::empty());
        assert(pending_question_texts(qs, i) =~~= Seq::<Seq<char>>::empty());
        assert(pending_question_texts(qs.push(q), i) =~~= pending_question_texts(qs, i) + seq![
            q.question@,
        ]);
    } else {
        lemma_pending_push_from(qs, q, i + 1);
        assert(qs.push(q)[i] == qs[i]);
        assert(pending_question_texts(qs.push(q), i) =~~= pending_question_texts(qs, i) + seq![
            q.question@,
        ]);
    }
}

proof fn lemma_inserted_texts(pre: QPaperBuilder, post: QPaperBuilder)
    requires
        qb_inserted_section(pre, post),
    ensures
        arena_question_texts(post.nodes@, 0, post.nodes@.len() as int) == arena_question_texts(
            pre.nodes@,
            0,
            pre.nodes@.len() as int,
        ) + pending_question_texts(pre.section_builder.questions@, 0),
{
    let a = pre.nodes@;
    let b = post.nodes@;
    let base = a.len() as int;
    let qs = pre.section_builder.questions@;
    let k = qs.len() as int;
    lemma_aq_split(b, 0, base, b.len() as int);
    lemma_aq_split(b, base, base + 1, b.len() as int);
    assert(forall|t: int| 0 <= t < base ==> (#[trigger] b[t]).data == a[t].data);
    lemma_aq_congruent(a, b, 0, base);
    assert(arena_question_texts(b, base, base + 1) =~~= Seq::<Seq<char>>::empty());
    lemma_tail_is_pending(pre, post, 0);
    assert(arena_question_texts(b, 0, b.len() as int) =~~= arena_question_texts(a, 0, base)
        + pending_question_texts(qs, 0));
}

proof fn lemma_tail_is_pending(pre: QPaperBuilder, post: QPaperBuilder, j: int)
    requires
        qb_inserted_section(pre, post),
        0 <= j <= pre.section_builder.questions@.len(),
    ensures
        arena_question_texts(
            post.nodes@,
            pre.nodes@.len() + 1 + j,
            post.nodes@.len() as int,
        ) == pending_question_texts(pre.section_builder.questions@, j),
    decreases pre.section_builder.questions@.len() - j,
{
    let b = post.nodes@;
    let base = pre.nodes@.len() as int;
    let qs = pre.section_builder.questions@;
    if j == qs.len() {
        assert(arena_question_texts(b, base + 1 + j, b.len() as int) =~~= Seq::<
            Seq<char>,
        >::empty());
    } else {
        lemma_tail_is_pending(pre, post, j + 1);
        assert((b[base + 1 + j].data matches NodeData::Question(qd) && question_eqv(qd, qs[j])));
        assert(arena_question_texts(b, base + 1 + j, b.len() as int) =~~= pending_question_texts(
            qs,
            j,
        ));
    }
}

/// One builder step gathers exactly what the collector records on that tag,
/// and the collector's modes track the builder's.
proof fn lemma_step_texts(b0: QPaperBuilder, tag: Tag, bm: QPaperBuilder)
    requires
        QPaperBuilder::stepped(b0, tag, bm),
    ensures
        gathered_texts(bm) == gathered_texts(b0) + (if collect_records(
            b0.mode,
            b0.section_builder.mode == Some(crate::section_builder::Modes::Question),
            tag,
        ) {
            seq![crate::section_builder::spec_tag_value(tag)]
        } else {
            Seq::<Seq<char>>::empty()
        }),
        bm.mode == collect_bmode2(b0.mode, tag),
        (bm.section_builder.mode == Some(crate::section_builder::Modes::Question))
            == collect_qmode2(
            b0.mode,
            b0.section_builder.mode == Some(crate::section_builder::Modes::Question),
            tag,
        ),
{
    let qm0 = b0.section_builder.mode == Some(crate::section_builder::Modes::Question);
    if tag.spec_is_document() {
        // the arena gains at most a document node; no question text moves
        if bm.nodes@.len() == b0.nodes@.len() + 1 {
            lemma_aq_split(bm.nodes@, 0, b0.nodes@.len() as int, bm.nodes@.len() as int);
            assert(forall|t: int|
                0 <= t < b0.nodes@.len() ==> (#[trigger] bm.nodes@[t]).data == b0.nodes@[t].data)
                by {
                assert(forall|t: int|
                    0 <= t < b0.nodes@.len() ==> #[trigger] bm.nodes@[t]
                        == bm.nodes@.drop_last()[t]);
            }
            lemma_aq_congruent(b0.nodes@, bm.nodes@, 0, b0.nodes@.len() as int);
            assert(bm.nodes@[b0.nodes@.len() as int].data is Document);
            assert(arena_question_texts(
                bm.nodes@,
                bm.nodes@.len() as int,
                bm.nodes@.len() as int,
            ) =~~= Seq::<Seq<char>>::empty());
            assert(arena_question_texts(
                bm.nodes@,
                b0.nodes@.len() as int,
                bm.nodes@.len() as int,
            ) =~~= Seq::<Seq<char>>::empty());
        } else {
            assert(bm.nodes@ == b0.nodes@);
        }
        assert(gathered_texts(bm) =~~= gathered_texts(b0));
    } else {
        let mode2 = qb_mode_after(b0.mode, tag);
        if mode2 == Some(Modes::Section) {
            if tag.spec_is_section() {
                if tag.kind is EndTag {
                    lemma_inserted_texts(b0, bm);
                    assert(pending_question_texts(bm.section_builder.questions@, 0) =~~= Seq::<
                        Seq<char>,
                    >::empty());
                    assert(gathered_texts(bm) =~~= gathered_texts(b0));
                } else {
                    assert(gathered_texts(bm) =~~= gathered_texts(b0));
                }
            } else {
                // forwarded to the section builder
                if crate::section_builder::sb_records_question(b0.section_builder, tag) {
                    assert(bm.section_builder.questions@.drop_last()
                        == b0.section_builder.questions@);
                    let q = bm.section_builder.questions@.last();
                    assert(bm.section_builder.questions@ =~~= b0.section_builder.questions@.push(
                        q,
                    ));
                    lemma_pending_push(b0.section_builder.questions@, q);
                    assert(gathered_texts(bm) =~~= gathered_texts(b0) + seq![
                        crate::section_builder::spec_tag_value(tag),
                    ]);
                } else {
                    assert(bm.section_builder.questions@ == b0.section_builder.questions@);
                    assert(gathered_texts(bm) =~~= gathered_texts(b0));
                }
            }
        } else {
            assert(gathered_texts(bm) =~~= gathered_texts(b0));
        }
    }
}

/// Token order preserved, and the character data round trip: after the
/// builder consumes a tag stream, the question texts in the arena, in
/// arena (insertion) order, followed by the texts still pending in the
/// section builder, are exactly the texts attached to the stream's closing
/// question tags, in stream order.
pub proof fn lemma_question_round_trip(b0: QPaperBuilder, tags: Seq<Tag>, b1: QPaperBuilder)
    requires
        builder_runs(b0, tags, b1),
    ensures
        gathered_texts(b1) == gathered_texts(b0) + q_collect(
            tags,
            b0.mode,
            b0.section_builder.mode == Some(crate::section_builder::Modes::Question),
        ),
    decreases tags.len(),
{
    let qm0 = b0.section_builder.mode == Some(crate::section_builder::Modes::Question);
    if tags.len() == 0 {
        assert(gathered_texts(b1) =~~= gathered_texts(b0) + q_collect(tags, b0.mode, qm0));
    } else {
        let bm = choose|bm: QPaperBuilder|
            #[trigger] QPaperBuilder::stepped(b0, tags[0], bm) && builder_runs(
                bm,
                tags.skip(1),
                b1,
            );
        lemma_step_texts(b0, tags[0], bm);
        lemma_question_round_trip(bm, tags.skip(1), b1);
        assert(gathered_texts(b1) =~~= gathered_texts(b0) + q_collect(tags, b0.mode, qm0));
    }
}

/// The round trip from a fresh builder: everything gathered is exactly
/// what the stream's closing question tags carried.
pub proof fn lemma_question_round_trip_initial(b0: QPaperBuilder, tags: Seq<Tag>, b1: QPaperBuilder)
    requires
        qb_initial(b0),
        builder_runs(b0, tags, b1),
    ensures
        gathered_texts(b1) == q_collect(tags, None, false),
{
    lemma_question_round_trip(b0, tags, b1);
    assert(gathered_texts(b0) =~~= Seq::<Seq<char>>::empty());
    assert(gathered_texts(b1) =~~= gathered_texts(b0) + q_collect(tags, None, false));
}

/// Whether a tag, observed in the given collector state, closes a section
/// that the builder folds into the arena.
pub open spec fn collect_closes_section(bmode: Option<Modes>, tag: Tag) -> bool {
    &&& !tag.spec_is_document()
    &&& qb_mode_after(bmode, tag) == Some(Modes::Section)
    &&& tag.spec_is_section()
    &&& tag.kind is EndTag
}

/// The section display name the collector tracks after a tag.
pub open spec fn collect_sname2(bmode: Option<Modes>, tag: Tag, sname: Seq<char>) -> Seq<char> {
    if !tag.spec_is_document() && qb_mode_after(bmode, tag) == Some(Modes::Section)
        && !tag.spec_is_section() && crate::section_builder::sb_name_set(tag) {
        crate::section_builder::spec_tag_value(tag)
    } else {
        sname
    }
}

/// The display names of the sections the stream closes, in stream order,
/// tracked independently of the builder.
pub open spec fn s_collect(tags: Seq<Tag>, bmode: Option<Modes>, sname: Seq<char>) -> Seq<
    Seq<char>,
>
    decreases tags.len(),
{
    if tags.len() == 0 {
        Seq::<Seq<char>>::empty()
    } else {
        (if collect_closes_section(bmode, tags[0]) {
            seq![sname]
        } else {
            Seq::<Seq<char>>::empty()
        }) + s_collect(
            tags.skip(1),
            collect_bmode2(bmode, tags[0]),
            collect_sname2(bmode, tags[0], sname),
        )
    }
}

/// The section names held by arena slots `i ..< j`, in arena order.
pub open spec fn arena_section_names(nodes: Seq<Node>, i: int, j: int) -> Seq<Seq<char>>
    decreases j - i,
{
    if i >= j {
        Seq::<Seq<char>>::empty()
    } else {
        (match nodes[i].data {
            NodeData::Section(sd) => seq![sd.section_name@],
            _ => Seq::<Seq<char>>::empty(),
        }) + arena_section_names(nodes, i + 1, j)
    }
}

/// The section names in the whole arena.
pub open spec fn gathered_section_names(b: QPaperBuilder) -> Seq<Seq<char>> {
    arena_section_names(b.nodes@, 0, b.nodes@.len() as int)
}

proof fn lemma_asn_split(nodes: Seq<Node>, i: int, j: int, k: int)
    requires
        i <= j <= k,
    ensures
        arena_section_names(nodes, i, k) == arena_section_names(nodes, i, j)
            + arena_section_names(nodes, j, k),
    decreases j - i,
{
    if i >= j {
        assert(arena_section_names(nodes, i, j) =~~= Seq::<Seq<char>>::empty());
        assert(arena_section_names(nodes, i, k) =~~= arena_section_names(nodes, i, j)
            + arena_section_names(nodes, j, k));
    } else {
        lemma_asn_split(nodes, i + 1, j, k);
        assert(arena_section_names(nodes, i, k) =~~= arena_section_names(nodes, i, j)
            + arena_section_names(nodes, j, k));
    }
}

proof fn lemma_asn_congruent(a: Seq<Node>, b: Seq<Node>, i: int, j: int)
    requires
        forall|t: int| i <= t < j ==> (#[trigger] b[t]).data == a[t].data,
    ensures
        arena_section_names(b, i, j) == arena_section_names(a, i, j),
    decreases j - i,
{
    if i < j {
        lemma_asn_congruent(a, b, i + 1, j);
    }
}

proof fn lemma_asn_tail_empty(pre: QPaperBuilder, post: QPaperBuilder, j: int)
    requires
        qb_inserted_section(pre, post),
        0 <= j <= pre.section_builder.questions@.len(),
    ensures
        arena_section_names(post.nodes@, pre.nodes@.len() + 1 + j, post.nodes@.len() as int)
            == Seq::<Seq<char>>::empty(),
    decreases pre.section_builder.questions@.len() - j,
{
    let b = post.nodes@;
    let base = pre.nodes@.len() as int;
    let qs = pre.section_builder.questions@;
    if j == qs.len() {
        assert(arena_section_names(b, base + 1 + j, b.len() as int) =~~= Seq::<
            Seq<char>,
        >::empty());
    } else {
        lemma_asn_tail_empty(pre, post, j + 1);
        assert((b[base + 1 + j].data matches NodeData::Question(qd) && question_eqv(qd, qs[j])));
        assert(arena_section_names(b, base + 1 + j, b.len() as int) =~~= Seq::<
            Seq<char>,
        >::empty());
    }
}

/// One builder step gathers exactly the section name the collector records
/// on that tag, and the collector's tracked name follows the builder's.
proof fn lemma_step_names(b0: QPaperBuilder, tag: Tag, bm: QPaperBuilder)
    requires
        QPaperBuilder::stepped(b0, tag, bm),
    ensures
        gathered_section_names(bm) == gathered_section_names(b0) + (if collect_closes_section(
            b0.mode,
            tag,
        ) {
            seq![b0.section_builder.current_section_name@]
        } else {
            Seq::<Seq<char>>::empty()
        }),
        bm.mode == collect_bmode2(b0.mode, tag),
        bm.section_builder.current_section_name@ == collect_sname2(
            b0.mode,
            tag,
            b0.section_builder.current_section_name@,
        ),
{
    if tag.spec_is_document() {
        if bm.nodes@.len() == b0.nodes@.len() + 1 {
            lemma_asn_split(bm.nodes@, 0, b0.nodes@.len() as int, bm.nodes@.len() as int);
            assert(forall|t: int|
                0 <= t < b0.nodes@.len() ==> (#[trigger] bm.nodes@[t]).data == b0.nodes@[t].data)
                by {
                assert(forall|t: int|
                    0 <= t < b0.nodes@.len() ==> #[trigger] bm.nodes@[t]
                        == bm.nodes@.drop_last()[t]);
            }
            lemma_asn_congruent(b0.nodes@, bm.nodes@, 0, b0.nodes@.len() as int);
            assert(bm.nodes@[b0.nodes@.len() as int].data is Document);
            assert(arena_section_names(
                bm.nodes@,
                bm.nodes@.len() as int,
                bm.nodes@.len() as int,
            ) =~~= Seq::<Seq<char>>::empty());
            assert(arena_section_names(
                bm.nodes@,
                b0.nodes@.len() as int,
                bm.nodes@.len() as int,
            ) =~~= Seq::<Seq<char>>::empty());
        } else {
            assert(bm.nodes@ == b0.nodes@);
        }
        assert(gathered_section_names(bm) =~~= gathered_section_names(b0));
    } else {
        let mode2 = qb_mode_after(b0.mode, tag);
        if mode2 == Some(Modes::Section) {
            if tag.spec_is_section() {
                if tag.kind is EndTag {
                    let a = b0.nodes@;
                    let b = bm.nodes@;
                    let base = a.len() as int;
                    lemma_asn_split(b, 0, base, b.len() as int);
                    lemma_asn_split(b, base, base + 1, b.len() as int);
                    assert(forall|t: int|
                        0 <= t < base ==> (#[trigger] b[t]).data == a[t].data);
                    lemma_asn_congruent(a, b, 0, base);
                    lemma_asn_tail_empty(b0, bm, 0);
                    assert((b[base].data matches NodeData::Section(sd) && sd.section_name@
                        == b0.section_builder.current_section_name@));
                    assert(arena_section_names(b, base, base + 1) =~~= seq![
                        b0.section_builder.current_section_name@,
                    ]);
                    assert(gathered_section_names(bm) =~~= gathered_section_names(b0) + seq![
                        b0.section_builder.current_section_name@,
                    ]);
                } else {
                    assert(gathered_section_names(bm) =~~= gathered_section_names(b0));
                }
            } else {
                assert(bm.nodes@ == b0.nodes@);
                assert(gathered_section_names(bm) =~~= gathered_section_names(b0));
            }
        } else {
            assert(gathered_section_names(bm) =~~= gathered_section_names(b0));
        }
    }
}

/// Token order for sections: after the builder consumes a tag stream, the
/// section names in the arena, in arena (insertion) order, are exactly the
/// names recorded at the stream's section-closing tags, in stream order.
pub proof fn lemma_section_close_order(b0: QPaperBuilder, tags: Seq<Tag>, b1: QPaperBuilder)
    requires
        builder_runs(b0, tags, b1),
    ensures
        gathered_section_names(b1) == gathered_section_names(b0) + s_collect(
            tags,
            b0.mode,
            b0.section_builder.current_section_name@,
        ),
    decreases tags.len(),
{
    if tags.len() == 0 {
        assert(gathered_section_names(b1) =~~= gathered_section_names(b0) + s_collect(
            tags,
            b0.mode,
            b0.section_builder.current_section_name@,
        ));
    } else {
        let bm = choose|bm: QPaperBuilder|
            #[trigger] QPaperBuilder::stepped(b0, tags[0], bm) && builder_runs(
                bm,
                tags.skip(1),
                b1,
            );
        lemma_step_names(b0, tags[0], bm);
        lemma_section_close_order(bm, tags.skip(1), b1);
        assert(gathered_section_names(b1) =~~= gathered_section_names(b0) + s_collect(
            tags,
            b0.mode,
            b0.section_builder.current_section_name@,
        ));
    }
}

/// The section order from a fresh builder: the arena's section names are
/// exactly the stream's section-close observations.
pub proof fn lemma_section_close_order_initial(
    b0: QPaperBuilder,
    tags: Seq<Tag>,
    b1: QPaperBuilder,
)
    requires
        qb_initial(b0),
        b0.section_builder.current_section_name@ == Seq::<char>::empty(),
        builder_runs(b0, tags, b1),
    ensures
        gathered_section_names(b1) == s_collect(tags, None, Seq::<char>::empty()),
{
    lemma_section_close_order(b0, tags, b1);
    assert(gathered_section_names(b0) =~~= Seq::<Seq<char>>::empty());
    assert(gathered_section_names(b1) =~~= gathered_section_names(b0) + s_collect(
        tags,
        None,
        Seq::<char>::empty(),
    ));
}

} // verus!
