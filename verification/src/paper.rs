//! The question paper: the owning arena of nodes, the cursor, the marked /
//! skipped / note registers, and intent resolution against them.

use vstd::prelude::*;

use crate::intent::{
    Intent, IntentResult, MetaIntent, Read, ReadResult, Reader, Reference, Write, WriteResult,
    Writer,
};
use crate::node::{
    node_data_eqv, node_eqv, Node, NodeData, NodeIndex, Note, Predicate, QuestionPredicate,
    SectionPredicate,
};
use crate::text::{chars_to_string, str_to_chars};

verus! {

#[derive(Debug)]
pub struct QuestionPaper {
    pub nodes: Vec<Node>,
    pub prev_index: usize,
    pub last_index: usize,
    pub total_questions: u32,
    pub marked: Vec<usize>,
    pub skipped: Vec<usize>,
    pub notes: Vec<Note>,
}

/// Arena invariant: every node records its own position.
pub open spec fn arena_indices_ok(nodes: Seq<Node>) -> bool {
    forall|i: int| 0 <= i < nodes.len() ==> (#[trigger] nodes[i]).index == i
}

/// The children of the section at `s` are exactly the contiguous run of
/// question nodes `s+1 ..= l`, doubly linked in order: the chain that starts
/// at `first_child` and follows `next` visits each child exactly once and
/// ends at `last_child`.
pub open spec fn section_children_ok(nodes: Seq<Node>, s: int) -> bool {
    match (nodes[s].first_child, nodes[s].last_child) {
        (Option::None, Option::None) => forall|i: int|
            s < i < nodes.len() ==> (#[trigger] nodes[i]).parent != Some(s as usize),
        (Option::Some(f), Option::Some(l)) => {
            &&& f == s + 1
            &&& s < l < nodes.len()
            &&& forall|i: int|
                s < i < nodes.len() ==> ((#[trigger] nodes[i]).parent == Some(s as usize) <==> s
                    + 1 <= i <= l)
            &&& forall|i: int| s + 1 <= i <= l ==> (#[trigger] nodes[i]).data is Question
            &&& forall|i: int|
                s + 1 <= i <= l ==> (#[trigger] nodes[i]).next == (if i < l {
                    Some((i + 1) as usize)
                } else {
                    None
                })
            &&& forall|i: int|
                s + 1 <= i <= l ==> (#[trigger] nodes[i]).prev == (if i > s + 1 {
                    Some((i - 1) as usize)
                } else {
                    None
                })
        },
        _ => false,
    }
}

/// The positions, in order, of the document's children: the nodes after
/// index 0 whose parent is the document.
pub open spec fn child_indices(nodes: Seq<Node>, i: int) -> Seq<int>
    decreases nodes.len() - i,
{
    if i < 1 || i >= nodes.len() {
        Seq::<int>::empty()
    } else if nodes[i].parent == Some(0usize) {
        seq![i] + child_indices(nodes, i + 1)
    } else {
        child_indices(nodes, i + 1)
    }
}

/// The document's children form a doubly linked chain in arena order: the
/// chain that starts at the document's `first_child` and follows `next`
/// visits each child exactly once and ends at `last_child`.
pub open spec fn doc_children_ok(nodes: Seq<Node>) -> bool {
    let cs = child_indices(nodes, 1);
    &&& nodes[0].first_child == (if cs.len() > 0 {
        Some(cs[0] as usize)
    } else {
        None::<usize>
    })
    &&& nodes[0].last_child == (if cs.len() > 0 {
        Some(cs.last() as usize)
    } else {
        None::<usize>
    })
    &&& (forall|k: int|
        0 <= k < cs.len() ==> nodes[#[trigger] cs[k]].next == (if k + 1 < cs.len() {
            Some(cs[k + 1] as usize)
        } else {
            None::<usize>
        }))
    &&& (forall|k: int|
        0 <= k < cs.len() ==> nodes[#[trigger] cs[k]].prev == (if k > 0 {
            Some(cs[k - 1] as usize)
        } else {
            None::<usize>
        }))
}

/// Structural invariant of an arena whose first node is the document: the
/// document's children form a doubly linked chain, sections own contiguous
/// doubly linked runs of questions, and every question hangs off a section
/// that precedes it.
pub open spec fn arena_structure_ok(nodes: Seq<Node>) -> bool {
    nodes.len() > 0 && nodes[0].data is Document ==> {
        &&& doc_children_ok(nodes)
        &&& forall|s: int|
            0 <= s < nodes.len() && (#[trigger] nodes[s]).data is Section ==> section_children_ok(
                nodes,
                s,
            )
        &&& forall|i: int|
            0 <= i < nodes.len() && (#[trigger] nodes[i]).data is Question ==> exists|s: int|
                0 <= s < i && nodes[i].parent == Some(s as usize) && (#[trigger] nodes[s]).data
                    is Section
    }
}

/// The children's positions are in bounds and strictly increasing.
pub proof fn lemma_child_indices_bounds(nodes: Seq<Node>, i: int)
    ensures
        forall|k: int|
            0 <= k < child_indices(nodes, i).len() ==> i <= #[trigger] child_indices(nodes, i)[k]
                < nodes.len(),
        forall|k: int|
            0 <= k < child_indices(nodes, i).len() - 1 ==> #[trigger] child_indices(nodes, i)[k]
                < child_indices(nodes, i)[k + 1],
        forall|k: int|
            0 <= k < child_indices(nodes, i).len() ==> nodes[#[trigger] child_indices(
                nodes,
                i,
            )[k]].parent == Some(0usize),
    decreases nodes.len() - i,
{
    if i < 1 || i >= nodes.len() {
    } else {
        lemma_child_indices_bounds(nodes, i + 1);
        let cs = child_indices(nodes, i);
        let cs1 = child_indices(nodes, i + 1);
        if nodes[i].parent == Some(0usize) {
            assert(forall|k: int| 0 <= k < cs1.len() ==> cs[k + 1] == #[trigger] cs1[k]);
        }
    }
}

pub open spec fn arena_wf(nodes: Seq<Node>) -> bool {
    arena_indices_ok(nodes) && arena_structure_ok(nodes)
}

impl QuestionPaper {
    /// Validity: the arena invariants hold and the cursor anchors stay in
    /// bounds (or at zero while the arena is empty).
    pub open spec fn wf(&self) -> bool {
        &&& arena_wf(self.nodes@)
        &&& self.nodes@.len() > 0 ==> self.prev_index < self.nodes@.len() && self.last_index
            < self.nodes@.len()
        &&& self.nodes@.len() == 0 ==> self.prev_index == 0 && self.last_index == 0
    }
}

/// Forward search: from `i` upward, count down `skip` over matching nodes,
/// accept the next match once the count is spent.
pub open spec fn spec_find_fwd<P: Predicate>(pred: P, nodes: Seq<Node>, i: int, skip: nat) -> Option<
    int,
>
    decreases nodes.len() - i,
{
    if i >= nodes.len() {
        None
    } else if pred.spec_matches(nodes[i].data) {
        if skip == 0 {
            Some(i)
        } else {
            spec_find_fwd(pred, nodes, i + 1, (skip - 1) as nat)
        }
    } else {
        spec_find_fwd(pred, nodes, i + 1, skip)
    }
}

/// Backward search: from `i` downward, never visiting index 0.
pub open spec fn spec_find_bwd<P: Predicate>(pred: P, nodes: Seq<Node>, i: int, skip: nat) -> Option<
    int,
>
    decreases i,
{
    if i <= 0 || i >= nodes.len() {
        None
    } else if pred.spec_matches(nodes[i].data) {
        if skip == 0 {
            Some(i)
        } else {
            spec_find_bwd(pred, nodes, i - 1, (skip - 1) as nat)
        }
    } else {
        spec_find_bwd(pred, nodes, i - 1, skip)
    }
}

/// Where a search anchored at `reference` begins.  A forward `Current`
/// search starts strictly after the cursor; every other anchor is searched
/// inclusively.  In particular a non-negative `End(k)` searches forward
/// from the last index, so it can accept only the arena's final node: that
/// is the deliberate reading of the resolution algorithm (origin at the
/// last index, direction by the offset's sign); reaching earlier sections
/// from the end takes a negative offset.
pub open spec fn spec_start_index(p: QuestionPaper, reference: Reference) -> int {
    match reference {
        Reference::Start(_) => 0,
        Reference::Current(_) => if reference.spec_is_forward() {
            p.prev_index + 1
        } else {
            p.prev_index as int
        },
        Reference::End(_) => p.last_index as int,
    }
}

/// The arena index a reference resolves to under `pred`, if any.
pub open spec fn spec_find_ref<P: Predicate>(pred: P, p: QuestionPaper, reference: Reference) -> Option<
    int,
> {
    if reference.spec_is_forward() {
        spec_find_fwd(pred, p.nodes@, spec_start_index(p, reference), reference.spec_skip())
    } else {
        spec_find_bwd(pred, p.nodes@, spec_start_index(p, reference), reference.spec_skip())
    }
}

/// The reference inside a read intent.
pub open spec fn read_reference(read: Read) -> Reference {
    match read {
        Read::Question(r) => r,
        Read::Section(r) => r,
    }
}

/// The arena index a read intent resolves to, if any.
pub open spec fn spec_resolve_read(p: QuestionPaper, read: Read) -> Option<int> {
    match read {
        Read::Question(r) => spec_find_ref(QuestionPredicate, p, r),
        Read::Section(r) => spec_find_ref(SectionPredicate, p, r),
    }
}

/// The error text of a failed resolution, by search direction.
pub open spec fn spec_not_found_msg(read: Read) -> Seq<char> {
    if read_reference(read).spec_is_forward() {
        "Could not find a next node"@
    } else {
        "Could not resolve a previous node"@
    }
}


proof fn lemma_find_fwd_bounds<P: Predicate>(pred: P, nodes: Seq<Node>, i: int, skip: nat)
    ensures
        spec_find_fwd(pred, nodes, i, skip) matches Some(j) ==> i <= j < nodes.len()
            && pred.spec_matches(nodes[j].data),
    decreases nodes.len() - i,
{
    if i >= nodes.len() {
    } else if pred.spec_matches(nodes[i].data) {
        if skip == 0 {
        } else {
            lemma_find_fwd_bounds(pred, nodes, i + 1, (skip - 1) as nat);
        }
    } else {
        lemma_find_fwd_bounds(pred, nodes, i + 1, skip);
    }
}

proof fn lemma_find_bwd_bounds<P: Predicate>(pred: P, nodes: Seq<Node>, i: int, skip: nat)
    ensures
        spec_find_bwd(pred, nodes, i, skip) matches Some(j) ==> 0 < j <= i && j < nodes.len()
            && pred.spec_matches(nodes[j].data),
    decreases i,
{
    if i <= 0 || i >= nodes.len() {
    } else if pred.spec_matches(nodes[i].data) {
        if skip == 0 {
        } else {
            lemma_find_bwd_bounds(pred, nodes, i - 1, (skip - 1) as nat);
        }
    } else {
        lemma_find_bwd_bounds(pred, nodes, i - 1, skip);
    }
}

/// A resolved read names a real arena position.
pub proof fn lemma_resolve_read_bounds(p: QuestionPaper, read: Read)
    ensures
        spec_resolve_read(p, read) matches Some(i) ==> 0 <= i < p.nodes@.len(),
{
    match read {
        Read::Question(r) => {
            if r.spec_is_forward() {
                lemma_find_fwd_bounds(
                    QuestionPredicate,
                    p.nodes@,
                    spec_start_index(p, r),
                    r.spec_skip(),
                );
            } else {
                lemma_find_bwd_bounds(
                    QuestionPredicate,
                    p.nodes@,
                    spec_start_index(p, r),
                    r.spec_skip(),
                );
            }
        },
        Read::Section(r) => {
            if r.spec_is_forward() {
                lemma_find_fwd_bounds(
                    SectionPredicate,
                    p.nodes@,
                    spec_start_index(p, r),
                    r.spec_skip(),
                );
            } else {
                lemma_find_bwd_bounds(
                    SectionPredicate,
                    p.nodes@,
                    spec_start_index(p, r),
                    r.spec_skip(),
                );
            }
        },
    }
}

pub struct Find<'a, P: Predicate> {
    pub predicate: P,
    pub next: usize,
    pub question_paper: &'a QuestionPaper,
    pub skip: usize,
}

impl<'a, P: Predicate> Find<'a, P> {
    /// Walk forward and take the first match once `skip` matches have been
    /// passed over.
    pub fn next(&mut self) -> (r: Option<NodeIndex<'a>>)
        ensures
            final(self).question_paper == old(self).question_paper,
            final(self).predicate == old(self).predicate,
            match r {
                Some(ni) => {
                    &&& spec_find_fwd(
                        old(self).predicate,
                        old(self).question_paper.nodes@,
                        old(self).next as int,
                        old(self).skip as nat,
                    ) == Some(ni.index as int)
                    &&& ni.question_paper == old(self).question_paper
                    &&& ni.index < old(self).question_paper.nodes@.len()
                },
                None => spec_find_fwd(
                    old(self).predicate,
                    old(self).question_paper.nodes@,
                    old(self).next as int,
                    old(self).skip as nat,
                ) is None,
            },
    {
        while self.next < self.question_paper.len()
            invariant
                self.question_paper == old(self).question_paper,
                self.predicate == old(self).predicate,
                spec_find_fwd(
                    old(self).predicate,
                    old(self).question_paper.nodes@,
                    old(self).next as int,
                    old(self).skip as nat,
                ) == spec_find_fwd(
                    self.predicate,
                    self.question_paper.nodes@,
                    self.next as int,
                    self.skip as nat,
                ),
            decreases self.question_paper.nodes@.len() - self.next,
        {
            let node = self.question_paper.nth(self.next).unwrap();

            self.next = self.next + 1;

            if self.predicate.matches(&node) {
                if self.skip >= 1 {
                    self.skip = self.skip - 1;
                } else {
                    return Some(node);
                }
            }
        }
        None
    }

    /// Walk backward, stopping before index 0, and take the first match once
    /// `skip` matches have been passed over.
    pub fn next_back(&mut self) -> (r: Option<NodeIndex<'a>>)
        requires
            old(self).next == 0 || old(self).next < old(self).question_paper.nodes@.len(),
        ensures
            final(self).question_paper == old(self).question_paper,
            final(self).predicate == old(self).predicate,
            match r {
                Some(ni) => {
                    &&& spec_find_bwd(
                        old(self).predicate,
                        old(self).question_paper.nodes@,
                        old(self).next as int,
                        old(self).skip as nat,
                    ) == Some(ni.index as int)
                    &&& ni.question_paper == old(self).question_paper
                    &&& ni.index < old(self).question_paper.nodes@.len()
                },
                None => spec_find_bwd(
                    old(self).predicate,
                    old(self).question_paper.nodes@,
                    old(self).next as int,
                    old(self).skip as nat,
                ) is None,
            },
    {
        while self.next > 0
            invariant
                self.question_paper == old(self).question_paper,
                self.predicate == old(self).predicate,
                self.next == 0 || self.next < self.question_paper.nodes@.len(),
                spec_find_bwd(
                    old(self).predicate,
                    old(self).question_paper.nodes@,
                    old(self).next as int,
                    old(self).skip as nat,
                ) == spec_find_bwd(
                    self.predicate,
                    self.question_paper.nodes@,
                    self.next as int,
                    self.skip as nat,
                ),
            decreases self.next,
        {
            let node = self.question_paper.nth(self.next).unwrap();

            self.next = self.next - 1;

            if self.predicate.matches(&node) {
                if self.skip >= 1 {
                    self.skip = self.skip - 1;
                } else {
                    return Some(node);
                }
            }
        }
        None
    }
}

impl QuestionPaper {
    pub fn new(nodes: Vec<Node>, last_index: usize, total_questions: u32) -> (r: QuestionPaper)
        ensures
            r.nodes@ == nodes@,
            r.prev_index == 0,
            r.last_index == last_index,
            r.total_questions == total_questions,
            r.marked@ == Seq::<usize>::empty(),
            r.skipped@ == Seq::<usize>::empty(),
            r.notes@ == Seq::<Note>::empty(),
    {
        QuestionPaper {
            nodes,
            prev_index: 0,
            last_index,
            total_questions,
            marked: Vec::new(),
            skipped: Vec::new(),
            notes: Vec::new(),
        }
    }

    // find a node on a certain predicate
    fn find<P: Predicate>(&self, predicate: P, next: usize, skip: usize) -> (r: Find<P>)
        ensures
            r.predicate == predicate,
            r.next == next,
            r.skip == skip,
            r.question_paper == self,
    {
        Find { question_paper: self, predicate, next, skip }
    }

    /// The `index`-th node of this document, if it exists.
    pub fn nth(&self, index: usize) -> (r: Option<NodeIndex>)
        ensures
            index < self.nodes@.len() ==> (r matches Some(ni) && ni.question_paper == self
                && ni.index == index),
            index >= self.nodes@.len() ==> r is None,
    {
        NodeIndex::new(self, index)
    }

    /// The total number of nodes.
    pub fn len(&self) -> (r: usize)
        ensures
            r == self.nodes@.len(),
    {
        self.nodes.len()
    }

    /// The cursor: the index of the most recently resolved node.
    pub fn prev_index(&self) -> (r: usize)
        ensures
            r == self.prev_index,
    {
        self.prev_index
    }

    pub fn last_index(&self) -> (r: usize)
        ensures
            r == self.last_index,
    {
        self.last_index
    }

    pub fn update_previous(&mut self, index: usize)
        ensures
            *final(self) == (QuestionPaper { prev_index: index, ..*old(self) }),
    {
        self.prev_index = index;
    }

    /// How many questions have been marked for review.
    pub fn num_marked(&self) -> (r: usize)
        ensures
            r == self.marked@.len(),
    {
        self.marked.len()
    }

    pub fn total_questions(&self) -> (r: u32)
        ensures
            r == self.total_questions,
    {
        self.total_questions
    }

    pub fn num_skipped(&self) -> (r: usize)
        ensures
            r == self.skipped@.len(),
    {
        self.skipped.len()
    }

    /// The notes taken so far, in the order they were attached.
    pub fn notes(&self) -> (r: &Vec<Note>)
        ensures
            r == &self.notes,
    {
        &self.notes
    }
}

/// Decimal digits of `n`, most significant first.
pub open spec fn spec_digit_char(d: nat) -> char {
    ((48 + d) as u8) as char
}

pub open spec fn dec_digits(n: nat) -> Seq<char>
    decreases n,
{
    if n < 10 {
        seq![spec_digit_char(n)]
    } else {
        dec_digits(n / 10).push(spec_digit_char(n % 10))
    }
}

fn digit_char(d: usize) -> (c: char)
    requires
        d < 10,
    ensures
        c == spec_digit_char(d as nat),
{
    (48 + d as u8) as char
}

/// Render `n` in decimal.
fn usize_to_dec(n: usize) -> (v: Vec<char>)
    ensures
        v@ == dec_digits(n as nat),
    decreases n,
{
    if n < 10 {
        let mut v: Vec<char> = Vec::new();
        v.push(digit_char(n));
        proof {
            assert(v@ =~= dec_digits(n as nat));
        }
        v
    } else {
        let mut v = usize_to_dec(n / 10);
        v.push(digit_char(n % 10));
        v
    }
}

/// Which side-effect register a write updates.
#[derive(Debug, PartialEq, Eq, Clone, Copy)]
pub enum RegisterKind {
    Marked,
    Skipped,
    Noted,
}

/// Insertion into a register: indices are kept once each.
pub open spec fn insert_unique(s: Seq<usize>, x: usize) -> Seq<usize> {
    if s.contains(x) {
        s
    } else {
        s.push(x)
    }
}

/// The exact effect of one write element: resolve the read, then register
/// the side effect on the resolved index; a failed read changes nothing and
/// reports why.
pub open spec fn spec_write_one(
    p0: QuestionPaper,
    read: Read,
    kind: RegisterKind,
    text: Seq<char>,
    p1: QuestionPaper,
    r: WriteResult,
) -> bool {
    &&& p1.nodes@ == p0.nodes@
    &&& p1.last_index == p0.last_index
    &&& p1.total_questions == p0.total_questions
    &&& match spec_resolve_read(p0, read) {
        Some(i) => {
            let target = p0.nodes@[i].index;
            &&& r is Success
            &&& p1.prev_index == target
            &&& (kind is Marked ==> p1.marked@ == insert_unique(p0.marked@, target)
                && p1.skipped@ == p0.skipped@ && p1.notes@ == p0.notes@)
            &&& (kind is Skipped ==> p1.skipped@ == insert_unique(p0.skipped@, target)
                && p1.marked@ == p0.marked@ && p1.notes@ == p0.notes@)
            &&& (kind is Noted ==> p1.marked@ == p0.marked@ && p1.skipped@ == p0.skipped@
                && p1.notes@.len() == p0.notes@.len() + 1 && p1.notes@.drop_last() == p0.notes@
                && p1.notes@.last().index == target && p1.notes@.last().note@ == text)
        },
        None => {
            &&& (r matches WriteResult::Error(e) && e@ == spec_not_found_msg(read))
            &&& p1.prev_index == p0.prev_index
            &&& p1.marked@ == p0.marked@
            &&& p1.skipped@ == p0.skipped@
            &&& p1.notes@ == p0.notes@
        },
    }
}

/// A whole write: each read in the operand list is resolved and registered
/// in turn; the overall result is the last element's result, `Success` for
/// an empty list.
pub open spec fn spec_write_seq(
    p0: QuestionPaper,
    reads: Seq<Read>,
    kind: RegisterKind,
    text: Seq<char>,
    p1: QuestionPaper,
    r: WriteResult,
) -> bool
    decreases reads.len(),
{
    if reads.len() == 0 {
        p1 == p0 && r is Success
    } else if reads.len() == 1 {
        spec_write_one(p0, reads[0], kind, text, p1, r)
    } else {
        exists|pm: QuestionPaper, r0: WriteResult|
            #[trigger] spec_write_one(p0, reads[0], kind, text, pm, r0) && spec_write_seq(
                pm,
                reads.skip(1),
                kind,
                text,
                p1,
                r,
            )
    }
}

proof fn lemma_write_seq_snoc(
    p0: QuestionPaper,
    s: Seq<Read>,
    kind: RegisterKind,
    text: Seq<char>,
    p1: QuestionPaper,
    r1: WriteResult,
    x: Read,
    p2: QuestionPaper,
    r2: WriteResult,
)
    requires
        spec_write_seq(p0, s, kind, text, p1, r1),
        spec_write_one(p1, x, kind, text, p2, r2),
    ensures
        spec_write_seq(p0, s.push(x), kind, text, p2, r2),
    decreases s.len(),
{
    let s2 = s.push(x);
    if s.len() == 0 {
        assert(s2[0] == x);
        assert(spec_write_one(p0, s2[0], kind, text, p2, r2));
    } else if s.len() == 1 {
        assert(s2[0] == s[0]);
        assert(s2.skip(1) =~= seq![x]);
        assert(spec_write_one(p0, s2[0], kind, text, p1, r1));
        assert(spec_write_seq(p1, s2.skip(1), kind, text, p2, r2));
        assert(spec_write_seq(p0, s2, kind, text, p2, r2));
    } else {
        let (pm, r0) = choose|pm: QuestionPaper, r0: WriteResult|
            #[trigger] spec_write_one(p0, s[0], kind, text, pm, r0) && spec_write_seq(
                pm,
                s.skip(1),
                kind,
                text,
                p1,
                r1,
            );
        lemma_write_seq_snoc(pm, s.skip(1), kind, text, p1, r1, x, p2, r2);
        assert(s2.skip(1) =~= s.skip(1).push(x));
        assert(s2[0] == s[0]);
        assert(spec_write_one(p0, s2[0], kind, text, pm, r0) && spec_write_seq(
            pm,
            s2.skip(1),
            kind,
            text,
            p2,
            r2,
        ));
        assert(spec_write_seq(p0, s2, kind, text, p2, r2));
    }
}

/// The summary a meta intent renders.
pub open spec fn spec_meta_msg(p: QuestionPaper, meta: MetaIntent) -> Seq<char> {
    match meta {
        MetaIntent::Marked => dec_digits(p.marked@.len()) + " marked"@,
        MetaIntent::Skipped => dec_digits(p.skipped@.len()) + " skipped"@,
    }
}

/// The exact effect of resolving one intent: a read moves the cursor to the
/// resolved node and returns its payload, a write registers its side
/// effects, a meta renders a summary and changes nothing.
pub open spec fn spec_intent_step(
    p0: QuestionPaper,
    intent: Intent,
    p1: QuestionPaper,
    r: IntentResult,
) -> bool {
    match intent {
        Intent::ReadIntent(read) => {
            &&& p1.nodes@ == p0.nodes@
            &&& p1.last_index == p0.last_index
            &&& p1.total_questions == p0.total_questions
            &&& p1.marked@ == p0.marked@
            &&& p1.skipped@ == p0.skipped@
            &&& p1.notes@ == p0.notes@
            &&& match spec_resolve_read(p0, read) {
                Some(i) => p1.prev_index == p0.nodes@[i].index && (r matches IntentResult::Read(
                    res,
                ) && (res matches Ok(data) && node_data_eqv(data, p0.nodes@[i].data))),
                None => p1.prev_index == p0.prev_index && (r matches IntentResult::Read(res) && (res
                    matches Err(e) && e@ == spec_not_found_msg(read))),
            }
        },
        Intent::WriteIntent(w) => (r matches IntentResult::Write(wr) && match w {
            Write::Mark(reads) => spec_write_seq(
                p0,
                reads@,
                RegisterKind::Marked,
                Seq::<char>::empty(),
                p1,
                wr,
            ),
            Write::Skip(reads) => spec_write_seq(
                p0,
                reads@,
                RegisterKind::Skipped,
                Seq::<char>::empty(),
                p1,
                wr,
            ),
            Write::Note(reads, text) => spec_write_seq(
                p0,
                reads@,
                RegisterKind::Noted,
                text@,
                p1,
                wr,
            ),
        }),
        Intent::Meta(m) => p1 == p0 && (r matches IntentResult::Meta(s) && s@ == spec_meta_msg(
            p0,
            m,
        )),
    }
}

fn contains_usize(v: &Vec<usize>, x: usize) -> (r: bool)
    ensures
        r == v@.contains(x),
{
    let mut i: usize = 0;
    while i < v.len()
        invariant
            i <= v@.len(),
            forall|j: int| 0 <= j < i ==> v@[j] != x,
        decreases v@.len() - i,
    {
        if v[i] == x {
            return true;
        }
        i = i + 1;
    }
    false
}

impl QuestionPaper {
    fn insert_marked(&mut self, index: usize)
        ensures
            final(self).marked@ == insert_unique(old(self).marked@, index),
            final(self).nodes@ == old(self).nodes@,
            final(self).prev_index == old(self).prev_index,
            final(self).last_index == old(self).last_index,
            final(self).total_questions == old(self).total_questions,
            final(self).skipped@ == old(self).skipped@,
            final(self).notes@ == old(self).notes@,
    {
        if !contains_usize(&self.marked, index) {
            self.marked.push(index);
        }
    }

    fn insert_skipped(&mut self, index: usize)
        ensures
            final(self).skipped@ == insert_unique(old(self).skipped@, index),
            final(self).nodes@ == old(self).nodes@,
            final(self).prev_index == old(self).prev_index,
            final(self).last_index == old(self).last_index,
            final(self).total_questions == old(self).total_questions,
            final(self).marked@ == old(self).marked@,
            final(self).notes@ == old(self).notes@,
    {
        if !contains_usize(&self.skipped, index) {
            self.skipped.push(index);
        }
    }

    fn render_meta(&self, meta: MetaIntent) -> (r: String)
        ensures
            r@ == spec_meta_msg(*self, meta),
    {
        let count = match meta {
            MetaIntent::Marked => self.marked.len(),
            MetaIntent::Skipped => self.skipped.len(),
        };
        let mut v = usize_to_dec(count);
        let mut tail = match meta {
            MetaIntent::Marked => str_to_chars(" marked"),
            MetaIntent::Skipped => str_to_chars(" skipped"),
        };
        v.append(&mut tail);
        proof {
            assert(v@ =~= spec_meta_msg(*self, meta));
        }
        chars_to_string(v.as_slice())
    }

    /// Resolve a read or write or meta intent.
    pub fn resolve_intent(&mut self, intent: Intent) -> (r: IntentResult)
        ensures
            old(self).wf() ==> final(self).wf(),
            spec_intent_step(*old(self), intent, *final(self), r),
    {
        match intent {
            Intent::ReadIntent(ref read_intent) => {
                let result = match self.resolve_read_intent(read_intent) {
                    Ok(node) => {
                        let index = node.index;

                        self.update_previous(index);

                        Ok(node.data)
                    },
                    Err(e) => Err(e),
                };

                IntentResult::Read(result)
            },
            Intent::WriteIntent(ref write_intent) => {
                let result = self.resolve_write_intent(write_intent);

                IntentResult::Write(result)
            },
            Intent::Meta(meta) => IntentResult::Meta(self.render_meta(meta)),
        }
    }
}

impl Reader for QuestionPaper {
    /// Resolves a read intent, moving the cursor to the accepted node.
    fn resolve_read_intent(&mut self, read_intent: &Read) -> (r: ReadResult)
        ensures
            old(self).wf() ==> final(self).wf(),
            final(self).nodes@ == old(self).nodes@,
            final(self).last_index == old(self).last_index,
            final(self).total_questions == old(self).total_questions,
            final(self).marked@ == old(self).marked@,
            final(self).skipped@ == old(self).skipped@,
            final(self).notes@ == old(self).notes@,
            match r {
                Ok(node) => (spec_resolve_read(*old(self), *read_intent) matches Some(pos)
                    && node_eqv(node, old(self).nodes@[pos]) && final(self).prev_index
                    == node.index),
                Err(e) => {
                    &&& spec_resolve_read(*old(self), *read_intent) is None
                    &&& final(self).prev_index == old(self).prev_index
                    &&& e@ == spec_not_found_msg(*read_intent)
                },
            },
    {
        let result = match read_intent {
            Read::Question(ref question) => self.resolve_question(question),
            Read::Section(ref section) => self.resolve_section(section),
        };
        proof {
            lemma_resolve_read_bounds(*old(self), *read_intent);
        }
        match result {
            Ok(node) => {
                self.update_previous(node.index);
                Ok(node)
            },
            Err(e) => Err(e),
        }
    }

    /// Resolve a question
    fn resolve_question(&mut self, reference: &Reference) -> (r: ReadResult)
        ensures
            *final(self) == *old(self),
            match r {
                Ok(node) => (spec_find_ref(QuestionPredicate, *old(self), *reference) matches Some(
                    pos,
                ) && node_eqv(node, old(self).nodes@[pos])),
                Err(e) => {
                    &&& spec_find_ref(QuestionPredicate, *old(self), *reference) is None
                    &&& e@ == (if reference.spec_is_forward() {
                        "Could not find a next node"@
                    } else {
                        "Could not resolve a previous node"@
                    })
                },
            },
    {
        let predicate = QuestionPredicate;

        self.resolve_referece(reference, predicate)
    }

    /// Resolve a section
    fn resolve_section(&mut self, reference: &Reference) -> (r: ReadResult)
        ensures
            *final(self) == *old(self),
            match r {
                Ok(node) => (spec_find_ref(SectionPredicate, *old(self), *reference) matches Some(
                    pos,
                ) && node_eqv(node, old(self).nodes@[pos])),
                Err(e) => {
                    &&& spec_find_ref(SectionPredicate, *old(self), *reference) is None
                    &&& e@ == (if reference.spec_is_forward() {
                        "Could not find a next node"@
                    } else {
                        "Could not resolve a previous node"@
                    })
                },
            },
    {
        let predicate = SectionPredicate;

        self.resolve_referece(reference, predicate)
    }

    /// Resolve from a reference
    fn resolve_referece<P: Predicate>(&mut self, reference: &Reference, predicate: P) -> (r:
        ReadResult)
        ensures
            *final(self) == *old(self),
            match r {
                Ok(node) => (spec_find_ref(predicate, *old(self), *reference) matches Some(pos)
                    && node_eqv(node, old(self).nodes@[pos])),
                Err(e) => {
                    &&& spec_find_ref(predicate, *old(self), *reference) is None
                    &&& e@ == (if reference.spec_is_forward() {
                        "Could not find a next node"@
                    } else {
                        "Could not resolve a previous node"@
                    })
                },
            },
    {
        let n = self.len();
        let skip = reference.skip_magnitude();
        let prev: usize = match reference {
            Reference::Start(_) => 0,
            Reference::Current(_) => {
                if reference.is_forward() {
                    let pi = self.prev_index();
                    if pi < usize::MAX {
                        pi + 1
                    } else {
                        pi
                    }
                } else {
                    self.prev_index()
                }
            },
            Reference::End(_) => self.last_index(),
        };

        proof {
            if reference matches Reference::Current(_) && reference.spec_is_forward()
                && old(self).prev_index == usize::MAX {
                assert(spec_find_fwd(predicate, self.nodes@, usize::MAX as int, skip as nat)
                    is None);
                assert(spec_find_fwd(
                    predicate,
                    self.nodes@,
                    usize::MAX as int + 1,
                    skip as nat,
                ) is None);
            }
        }
        self.resolve(predicate, prev, skip, reference)
    }

    fn resolve<P: Predicate>(
        &mut self,
        predicate: P,
        prev: usize,
        skip: usize,
        reference: &Reference,
    ) -> (r: ReadResult)
        ensures
            *final(self) == *old(self),
            match r {
                Ok(node) => ((if reference.spec_is_forward() {
                    spec_find_fwd(predicate, old(self).nodes@, prev as int, skip as nat)
                } else {
                    spec_find_bwd(predicate, old(self).nodes@, prev as int, skip as nat)
                }) matches Some(pos) && node_eqv(node, old(self).nodes@[pos])),
                Err(e) => {
                    &&& (if reference.spec_is_forward() {
                        spec_find_fwd(predicate, old(self).nodes@, prev as int, skip as nat)
                    } else {
                        spec_find_bwd(predicate, old(self).nodes@, prev as int, skip as nat)
                    }) is None
                    &&& e@ == (if reference.spec_is_forward() {
                        "Could not find a next node"@
                    } else {
                        "Could not resolve a previous node"@
                    })
                },
            },
    {
        let finder = self.find(predicate, prev, skip);

        if reference.is_forward() {
            self.find_next(finder)
        } else {
            self.find_back(finder)
        }
    }

    /// Do a foward find
    fn find_next<P: Predicate>(&self, finder: Find<P>) -> (r: ReadResult)
        ensures
            match r {
                Ok(node) => (spec_find_fwd(
                    finder.predicate,
                    finder.question_paper.nodes@,
                    finder.next as int,
                    finder.skip as nat,
                ) matches Some(pos) && node_eqv(node, finder.question_paper.nodes@[pos])),
                Err(e) => {
                    &&& spec_find_fwd(
                        finder.predicate,
                        finder.question_paper.nodes@,
                        finder.next as int,
                        finder.skip as nat,
                    ) is None
                    &&& e@ == "Could not find a next node"@
                },
            },
    {
        let mut finder = finder;
        if let Some(node) = finder.next() {
            Ok(node.raw().clone())
        } else {
            Err("Could not find a next node".to_owned())
        }
    }

    /// Do a reverse find
    fn find_back<P: Predicate>(&self, finder: Find<P>) -> (r: ReadResult)
        ensures
            match r {
                Ok(node) => (spec_find_bwd(
                    finder.predicate,
                    finder.question_paper.nodes@,
                    finder.next as int,
                    finder.skip as nat,
                ) matches Some(pos) && node_eqv(node, finder.question_paper.nodes@[pos])),
                Err(e) => {
                    &&& spec_find_bwd(
                        finder.predicate,
                        finder.question_paper.nodes@,
                        finder.next as int,
                        finder.skip as nat,
                    ) is None
                    &&& e@ == "Could not resolve a previous node"@
                },
            },
    {
        if finder.next != 0 && finder.next >= finder.question_paper.len() {
            return Err("Could not resolve a previous node".to_owned());
        }
        let mut finder = finder;
        if let Some(node) = finder.next_back() {
            Ok(node.raw().clone())
        } else {
            Err("Could not resolve a previous node".to_owned())
        }
    }
}

impl Writer for QuestionPaper {
    /// Resolve a write intent
    fn resolve_write_intent(&mut self, write_intent: &Write) -> (r: WriteResult)
        ensures
            old(self).wf() ==> final(self).wf(),
            match write_intent {
                Write::Mark(reads) => spec_write_seq(
                    *old(self),
                    reads@,
                    RegisterKind::Marked,
                    Seq::<char>::empty(),
                    *final(self),
                    r,
                ),
                Write::Skip(reads) => spec_write_seq(
                    *old(self),
                    reads@,
                    RegisterKind::Skipped,
                    Seq::<char>::empty(),
                    *final(self),
                    r,
                ),
                Write::Note(reads, text) => spec_write_seq(
                    *old(self),
                    reads@,
                    RegisterKind::Noted,
                    text@,
                    *final(self),
                    r,
                ),
            },
    {
        match write_intent {
            Write::Mark(ref read_intent) => self.mark_for_review(read_intent),
            Write::Skip(ref read_intent) => self.skip(read_intent),
            Write::Note(ref read_intent, note) => self.note(read_intent, note.clone()),
        }
    }

    // process a read intent and mark it for review
    fn mark_for_review(&mut self, read_intent: &Vec<Read>) -> (r: WriteResult)
        ensures
            old(self).wf() ==> final(self).wf(),
            spec_write_seq(
                *old(self),
                read_intent@,
                RegisterKind::Marked,
                Seq::<char>::empty(),
                *final(self),
                r,
            ),
    {
        let mut result = WriteResult::Success;
        let mut i: usize = 0;
        proof {
            assert(read_intent@.take(0) =~= Seq::<Read>::empty());
        }
        while i < read_intent.len()
            invariant
                old(self).wf() ==> self.wf(),
                i <= read_intent@.len(),
                spec_write_seq(
                    *old(self),
                    read_intent@.take(i as int),
                    RegisterKind::Marked,
                    Seq::<char>::empty(),
                    *self,
                    result,
                ),
            decreases read_intent@.len() - i,
        {
            let ghost pre = *self;
            let ghost prev_result = result;
            let read = read_intent[i];
            let elem = match self.resolve_read_intent(&read) {
                Ok(node) => {
                    self.insert_marked(node.index);
                    WriteResult::Success
                },
                Err(e) => WriteResult::Error(e),
            };
            proof {
                assert(spec_write_one(
                    pre,
                    read,
                    RegisterKind::Marked,
                    Seq::<char>::empty(),
                    *self,
                    elem,
                ));
                lemma_write_seq_snoc(
                    *old(self),
                    read_intent@.take(i as int),
                    RegisterKind::Marked,
                    Seq::<char>::empty(),
                    pre,
                    prev_result,
                    read,
                    *self,
                    elem,
                );
                assert(read_intent@.take(i + 1) =~= read_intent@.take(i as int).push(read));
            }
            result = elem;
            i = i + 1;
        }
        proof {
            assert(read_intent@.take(read_intent@.len() as int) =~= read_intent@);
        }
        result
    }

    /// Mark the node as skipped and advance the cursor with it.
    fn skip(&mut self, read_intent: &Vec<Read>) -> (r: WriteResult)
        ensures
            old(self).wf() ==> final(self).wf(),
            spec_write_seq(
                *old(self),
                read_intent@,
                RegisterKind::Skipped,
                Seq::<char>::empty(),
                *final(self),
                r,
            ),
    {
        let mut result = WriteResult::Success;
        let mut i: usize = 0;
        proof {
            assert(read_intent@.take(0) =~= Seq::<Read>::empty());
        }
        while i < read_intent.len()
            invariant
                old(self).wf() ==> self.wf(),
                i <= read_intent@.len(),
                spec_write_seq(
                    *old(self),
                    read_intent@.take(i as int),
                    RegisterKind::Skipped,
                    Seq::<char>::empty(),
                    *self,
                    result,
                ),
            decreases read_intent@.len() - i,
        {
            let ghost pre = *self;
            let ghost prev_result = result;
            let read = read_intent[i];
            let elem = match self.resolve_read_intent(&read) {
                Ok(node) => {
                    let index = node.index;
                    self.insert_skipped(index);

                    // advance the cursor with the index
                    self.update_previous(index);

                    WriteResult::Success
                },
                Err(e) => WriteResult::Error(e),
            };
            proof {
                assert(spec_write_one(
                    pre,
                    read,
                    RegisterKind::Skipped,
                    Seq::<char>::empty(),
                    *self,
                    elem,
                ));
                lemma_write_seq_snoc(
                    *old(self),
                    read_intent@.take(i as int),
                    RegisterKind::Skipped,
                    Seq::<char>::empty(),
                    pre,
                    prev_result,
                    read,
                    *self,
                    elem,
                );
                assert(read_intent@.take(i + 1) =~= read_intent@.take(i as int).push(read));
            }
            result = elem;
            i = i + 1;
        }
        proof {
            assert(read_intent@.take(read_intent@.len() as int) =~= read_intent@);
        }
        result
    }

    /// Take a note on each resolved node.
    fn note(&mut self, read_intent: &Vec<Read>, note: String) -> (r: WriteResult)
        ensures
            old(self).wf() ==> final(self).wf(),
            spec_write_seq(
                *old(self),
                read_intent@,
                RegisterKind::Noted,
                note@,
                *final(self),
                r,
            ),
    {
        let mut result = WriteResult::Success;
        let mut i: usize = 0;
        proof {
            assert(read_intent@.take(0) =~= Seq::<Read>::empty());
        }
        while i < read_intent.len()
            invariant
                old(self).wf() ==> self.wf(),
                i <= read_intent@.len(),
                spec_write_seq(
                    *old(self),
                    read_intent@.take(i as int),
                    RegisterKind::Noted,
                    note@,
                    *self,
                    result,
                ),
            decreases read_intent@.len() - i,
        {
            let ghost pre = *self;
            let ghost prev_result = result;
            let read = read_intent[i];
            let elem = match self.resolve_read_intent(&read) {
                Ok(node) => {
                    let index = node.index;

                    self.notes.push(Note { note: note.clone(), index });

                    WriteResult::Success
                },
                Err(e) => WriteResult::Error(e),
            };
            proof {
                if self.notes@.len() == pre.notes@.len() + 1 {
                    assert(self.notes@.drop_last() =~= pre.notes@);
                }
                assert(spec_write_one(pre, read, RegisterKind::Noted, note@, *self, elem));
                lemma_write_seq_snoc(
                    *old(self),
                    read_intent@.take(i as int),
                    RegisterKind::Noted,
                    note@,
                    pre,
                    prev_result,
                    read,
                    *self,
                    elem,
                );
                assert(read_intent@.take(i + 1) =~= read_intent@.take(i as int).push(read));
            }
            result = elem;
            i = i + 1;
        }
        proof {
            assert(read_intent@.take(read_intent@.len() as int) =~= read_intent@);
        }
        result
    }
}

/// How many of the first `upto` nodes the predicate accepts.
pub open spec fn count_matches<P: Predicate>(pred: P, nodes: Seq<Node>, upto: int) -> nat
    decreases upto,
{
    if upto <= 0 {
        0
    } else {
        count_matches(pred, nodes, upto - 1) + (if pred.spec_matches(nodes[upto - 1].data) {
            1nat
        } else {
            0nat
        })
    }
}

proof fn lemma_find_fwd_count<P: Predicate>(pred: P, nodes: Seq<Node>, s: int, skip: nat, j: int)
    requires
        0 <= s,
        spec_find_fwd(pred, nodes, s, skip) == Some(j),
    ensures
        s <= j < nodes.len(),
        pred.spec_matches(nodes[j].data),
        count_matches(pred, nodes, j) == count_matches(pred, nodes, s) + skip,
    decreases nodes.len() - s,
{
    lemma_find_fwd_bounds(pred, nodes, s, skip);
    if pred.spec_matches(nodes[s].data) {
        if skip == 0 {
            assert(j == s);
        } else {
            lemma_find_fwd_count(pred, nodes, s + 1, (skip - 1) as nat, j);
            assert(count_matches(pred, nodes, s + 1) == count_matches(pred, nodes, s) + 1);
        }
    } else {
        lemma_find_fwd_count(pred, nodes, s + 1, skip, j);
        assert(count_matches(pred, nodes, s + 1) == count_matches(pred, nodes, s));
    }
}

proof fn lemma_find_fwd_none_count<P: Predicate>(pred: P, nodes: Seq<Node>, s: int, skip: nat)
    requires
        0 <= s,
        spec_find_fwd(pred, nodes, s, skip) is None,
    ensures
        count_matches(pred, nodes, nodes.len() as int) <= count_matches(pred, nodes, s) + skip,
    decreases nodes.len() - s,
{
    if s >= nodes.len() {
        if s > nodes.len() {
            lemma_count_matches_mono(pred, nodes, nodes.len() as int, s);
        }
    } else if pred.spec_matches(nodes[s].data) {
        lemma_find_fwd_none_count(pred, nodes, s + 1, (skip - 1) as nat);
        assert(count_matches(pred, nodes, s + 1) == count_matches(pred, nodes, s) + 1);
    } else {
        lemma_find_fwd_none_count(pred, nodes, s + 1, skip);
        assert(count_matches(pred, nodes, s + 1) == count_matches(pred, nodes, s));
    }
}

proof fn lemma_count_matches_mono<P: Predicate>(pred: P, nodes: Seq<Node>, a: int, b: int)
    requires
        a <= b,
    ensures
        count_matches(pred, nodes, a) <= count_matches(pred, nodes, b),
    decreases b - a,
{
    if a < b {
        lemma_count_matches_mono(pred, nodes, a, b - 1);
    }
}

/// Skip semantics: a forward `Start(k)` resolution under a predicate
/// returns the `(k+1)`-th matching node of the arena in forward order: the
/// accepted node matches and exactly `k` matching nodes precede it.
pub proof fn lemma_skip_semantics<P: Predicate>(pred: P, p: QuestionPaper, k: i32, j: int)
    requires
        k >= 0,
        spec_find_ref(pred, p, Reference::Start(k)) == Some(j),
    ensures
        0 <= j < p.nodes@.len(),
        pred.spec_matches(p.nodes@[j].data),
        count_matches(pred, p.nodes@, j) == k,
{
    lemma_find_fwd_count(pred, p.nodes@, 0, k as nat, j);
}

/// The other half of skip semantics: a forward `Start(k)` resolution fails
/// only when the arena holds no more than `k` matching nodes.
pub proof fn lemma_skip_semantics_exhausted<P: Predicate>(pred: P, p: QuestionPaper, k: i32)
    requires
        k >= 0,
        spec_find_ref(pred, p, Reference::Start(k)) is None,
    ensures
        count_matches(pred, p.nodes@, p.nodes@.len() as int) <= k,
{
    lemma_find_fwd_none_count(pred, p.nodes@, 0, k as nat);
}

/// The cursor is pinned by a successful read: once a read intent resolves
/// to the node at position `i` of a well-formed paper, the cursor holds
/// exactly `i`.
pub proof fn lemma_cursor_follows_read(
    p0: QuestionPaper,
    read: Read,
    p1: QuestionPaper,
    r: IntentResult,
    i: int,
)
    requires
        p0.wf(),
        spec_intent_step(p0, Intent::ReadIntent(read), p1, r),
        spec_resolve_read(p0, read) == Some(i),
    ensures
        p1.prev_index == i,
{
    lemma_resolve_read_bounds(p0, read);
}

/// Arena append-only: every node of a well-formed paper records exactly its
/// own position; indices are never reused or shuffled.
pub proof fn lemma_arena_append_only(p: QuestionPaper)
    requires
        p.wf(),
    ensures
        forall|i: int| 0 <= i < p.nodes@.len() ==> (#[trigger] p.nodes@[i]).index == i,
{
}

/// Parent/child consistency for the document's own children: the sections
/// hang off the document in insertion order, in a doubly linked chain from
/// `first_child` to `last_child` that visits each child exactly once.
pub proof fn lemma_document_child_chain(p: QuestionPaper)
    requires
        p.wf(),
        p.nodes@.len() > 0,
        p.nodes@[0].data is Document,
    ensures
        doc_children_ok(p.nodes@),
        forall|k: int|
            0 <= k < child_indices(p.nodes@, 1).len() ==> p.nodes@[#[trigger] child_indices(
                p.nodes@,
                1,
            )[k]].parent == Some(0usize),
{
    lemma_child_indices_bounds(p.nodes@, 1);
}

/// Parent/child consistency: in a well-formed paper headed by the document
/// node, every question node appears exactly once in its parent section's
/// child chain.  The chain starts at `first_child`, which is the node right
/// after the section, runs contiguously to `last_child`, and the question's
/// `next`/`prev` links tie it to its chain neighbours, so following `next`
/// from `first_child` reaches the question at exactly one position.
pub proof fn lemma_parent_child_consistency(p: QuestionPaper, i: int)
    requires
        p.wf(),
        p.nodes@.len() > 0,
        p.nodes@[0].data is Document,
        0 <= i < p.nodes@.len(),
        p.nodes@[i].data is Question,
    ensures
        exists|s: int|
            {
                &&& 0 <= s < i
                &&& (#[trigger] p.nodes@[s]).data is Section
                &&& p.nodes@[i].parent == Some(s as usize)
                &&& p.nodes@[s].first_child == Some((s + 1) as usize)
                &&& (p.nodes@[s].last_child matches Some(l) && (s < l as int && (l as int) < p.nodes@.len()) && s
                    + 1 <= i <= l as int && (forall|j: int|
                    s + 1 <= j <= l as int ==> (#[trigger] p.nodes@[j]).parent == Some(s as usize))
                    && p.nodes@[i].next == (if i < (l as int) {
                    Some((i + 1) as usize)
                } else {
                    None
                }) && p.nodes@[i].prev == (if i > s + 1 {
                    Some((i - 1) as usize)
                } else {
                    None
                }))
            },
{
    let nodes = p.nodes@;
    let s = choose|s: int|
        0 <= s < i && nodes[i].parent == Some(s as usize) && (#[trigger] nodes[s]).data
            is Section;
    assert(section_children_ok(nodes, s));
    match (nodes[s].first_child, nodes[s].last_child) {
        (Option::None, Option::None) => {
            assert(nodes[i].parent != Some(s as usize));
            assert(false);
        },
        (Option::Some(f), Option::Some(l)) => {
            assert(s + 1 <= i <= l as int);
            assert(forall|j: int|
                s + 1 <= j <= l as int ==> (#[trigger] nodes[j]).parent == Some(s as usize));
            assert({
                &&& 0 <= s < i
                &&& (#[trigger] p.nodes@[s]).data is Section
                &&& p.nodes@[i].parent == Some(s as usize)
                &&& p.nodes@[s].first_child == Some((s + 1) as usize)
                &&& (p.nodes@[s].last_child matches Some(l) && (s < l as int && (l as int) < p.nodes@.len()) && s
                    + 1 <= i <= l as int && (forall|j: int|
                    s + 1 <= j <= l as int ==> (#[trigger] p.nodes@[j]).parent == Some(s as usize))
                    && p.nodes@[i].next == (if i < (l as int) {
                    Some((i + 1) as usize)
                } else {
                    None
                }) && p.nodes@[i].prev == (if i > s + 1 {
                    Some((i - 1) as usize)
                } else {
                    None
                }))
            });
        },
        _ => {
            assert(false);
        },
    }
}

} // verus!
