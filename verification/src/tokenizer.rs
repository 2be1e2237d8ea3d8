//! The streaming XML tokenizer: a push-based state machine over the
//! character queue.  It runs until the queue is exhausted, then suspends; a
//! later `push_back` on the queue lets it resume.  Tags and parse errors go
//! to the [`Sink`].

use vstd::prelude::*;

use crate::charset::SmallCharSet;
use crate::sink::Sink;
use crate::states::States;
use crate::tag::{Attribute, SinkResult, Tag, TagKind, TagName, Token};
use crate::text::{chars_to_string, str_to_chars};
use crate::xml_content::{SetResult, XmlContent};

verus! {

/// Step function return type.
#[derive(Debug, Eq, PartialEq)]
pub enum ProcessResult {
    Continue,
    Suspend,
}

#[derive(Debug, Eq, PartialEq)]
pub enum TokenizerResult {
    Success,
    Done,
}

/// Members `\0 \t \n space < > ?`.
pub const DOCUMENT_SET: u64 = 0xD000000100000601;

/// Members `space ? / >`.
pub const TAG_OPEN_SET: u64 = 0xC000800100000000;

/// Members `space >`.
pub const PROCESSING_INSTRUCTION_SET: u64 = 0x4000000100000000;

/// Members `>`.
pub const START_CLOSING_TAG_SET: u64 = 0x4000000000000000;

/// Members `\t \n space / >`.
pub const TAG_NAME_SET: u64 = 0x4000800100000600;

/// Members `space / = > ?`.
pub const BEFORE_ATTRIBUTE_NAME_SET: u64 = 0xE000800100000000;

/// Members `space " '`.
pub const ATTRIBUTE_VALUE_SET: u64 = 0x8500000000;

/// Members `<`.
pub const PASSAGE_SET: u64 = 0x1000000000000000;

/// The line counter after one character: a newline advances it, saturating
/// at the top of the range.
pub open spec fn spec_line_after(line: u64, c: char) -> u64 {
    if c == '\n' {
        if line < u64::MAX {
            (line + 1) as u64
        } else {
            line
        }
    } else {
        line
    }
}

proof fn lemma_suffix_trans(a: Seq<char>, b: Seq<char>, c: Seq<char>)
    requires
        b.is_suffix_of(a),
        c.is_suffix_of(b),
    ensures
        c.is_suffix_of(a),
{
    assert(c =~= a.subrange(a.len() - c.len(), a.len() as int));
}

proof fn lemma_skip_is_suffix(s: Seq<char>, k: int)
    requires
        0 <= k <= s.len(),
    ensures
        s.skip(k).is_suffix_of(s),
{
    assert(s.skip(k) =~= s.subrange(s.len() - s.skip(k).len(), s.len() as int));
}

proof fn lemma_prefix_trans<T>(a: Seq<T>, b: Seq<T>, c: Seq<T>)
    requires
        a.is_prefix_of(b),
        b.is_prefix_of(c),
    ensures
        a.is_prefix_of(c),
{
    assert(a =~= c.subrange(0, a.len() as int));
}

pub struct Tokenizer {
    pub state: States,
    pub current_char: char,
    pub current_line: u64,
    pub current_tag_name: Vec<char>,
    pub current_tag_attrs: Vec<Attribute>,
    pub current_tag_self_closing: bool,
    pub current_attr_name: Vec<char>,
    pub current_attr_value: Vec<char>,
    pub passage: Vec<char>,
    pub sink: Sink,
    pub reconsume: bool,
    pub current_tag_kind: TagKind,
    pub last_start_tag: Option<TagName>,
}

/// The cursor fields (state, character, line, reconsume flag) agree.
pub open spec fn same_cursor(a: Tokenizer, b: Tokenizer) -> bool {
    &&& b.state == a.state
    &&& b.current_char == a.current_char
    &&& b.current_line == a.current_line
    &&& b.reconsume == a.reconsume
}

/// The tag under construction agrees.
pub open spec fn same_tag_build(a: Tokenizer, b: Tokenizer) -> bool {
    &&& b.current_tag_name@ == a.current_tag_name@
    &&& b.current_tag_attrs@ == a.current_tag_attrs@
    &&& b.current_tag_self_closing == a.current_tag_self_closing
    &&& b.current_attr_name@ == a.current_attr_name@
    &&& b.current_attr_value@ == a.current_attr_value@
    &&& b.current_tag_kind == a.current_tag_kind
    &&& b.last_start_tag == a.last_start_tag
}

/// The accumulated passage agrees.
pub open spec fn same_passage(a: Tokenizer, b: Tokenizer) -> bool {
    b.passage@ == a.passage@
}

/// The sink contents agree.
pub open spec fn same_sink(a: Tokenizer, b: Tokenizer) -> bool {
    &&& b.sink.tags@ == a.sink.tags@
    &&& b.sink.errors@ == a.sink.errors@
    &&& b.sink.line_number == a.sink.line_number
}

/// What one step of the state machine guarantees: the queue only shrinks
/// from the front, the sink only grows, a `Continue` made progress (except
/// for the error recovery out of `StartAttributeValue` on an empty queue),
/// and a `Suspend` means the queue ran dry or the step consumed input.
pub open spec fn step_frame(
    pre: Tokenizer,
    pre_in: Seq<char>,
    post: Tokenizer,
    post_in: Seq<char>,
    r: ProcessResult,
) -> bool {
    &&& post_in.is_suffix_of(pre_in)
    &&& pre.sink.tags@.is_prefix_of(post.sink.tags@)
    &&& pre.sink.errors@.is_prefix_of(post.sink.errors@)
    &&& post.reconsume == pre.reconsume
    &&& (r is Continue ==> post_in.len() < pre_in.len() || (pre.state is StartAttributeValue
        && pre_in.len() == 0 && post.state is Document))
    &&& (r is Suspend ==> post_in.len() == 0 || post_in.len() < pre_in.len())
}


/// The tag under construction was closed and handed to the sink, with
/// `sc` as its self-closing flag: a pending attribute is flushed onto it,
/// a non-empty passage becomes its value, an end tag with attributes or
/// the self-closing flag logs one error each, and the accumulators reset.
pub open spec fn tag_flushed(pre: Tokenizer, post: Tokenizer, sc: bool) -> bool {
    let pending = pre.current_attr_name@.len() > 0;
    let n_attrs: int = pre.current_tag_attrs@.len() + if pending {
        1int
    } else {
        0int
    };
    let is_end = pre.current_tag_kind is EndTag;
    let n_errs: int = if is_end {
        (if n_attrs > 0 {
            1int
        } else {
            0int
        }) + (if sc {
            1int
        } else {
            0int
        })
    } else {
        0int
    };
    let t = post.sink.tags@.last();
    &&& post.sink.tags@.len() == pre.sink.tags@.len() + 1
    &&& post.sink.tags@.drop_last() == pre.sink.tags@
    &&& t.kind == pre.current_tag_kind
    &&& t.name.0@ == pre.current_tag_name@
    &&& t.is_self_closing == sc
    &&& (pre.passage@.len() == 0 ==> t.value is None)
    &&& (pre.passage@.len() > 0 ==> t.value is Some && t.value->0@ == pre.passage@)
    &&& t.attributes@.len() == n_attrs
    &&& t.attributes@.subrange(0, pre.current_tag_attrs@.len() as int) == pre.current_tag_attrs@
    &&& (pending ==> t.attributes@.last().name@ == pre.current_attr_name@
        && t.attributes@.last().value@ == pre.current_attr_value@)
    &&& post.sink.errors@.len() == pre.sink.errors@.len() + n_errs
    &&& post.sink.errors@.subrange(0, pre.sink.errors@.len() as int) == pre.sink.errors@
    &&& post.sink.line_number == pre.current_line
    &&& post.current_tag_name@ == Seq::<char>::empty()
    &&& post.passage@ == Seq::<char>::empty()
    &&& post.current_tag_self_closing == false
    &&& post.current_attr_name@ == Seq::<char>::empty()
    &&& post.current_tag_attrs@ == Seq::<Attribute>::empty()
    &&& post.current_tag_kind == pre.current_tag_kind
    &&& (pre.current_tag_kind is StartTag ==> (post.last_start_tag matches Some(n) && n.0@
        == pre.current_tag_name@))
    &&& (pre.current_tag_kind is EndTag ==> post.last_start_tag == pre.last_start_tag)
}


/// The cursor after consuming one set character: the character is
/// remembered and a newline advances the line counter.
pub open spec fn cursor_took(pre: Tokenizer, post: Tokenizer, c: char) -> bool {
    &&& post.current_char == c
    &&& post.current_line == spec_line_after(pre.current_line, c)
    &&& post.reconsume == pre.reconsume
}

/// The cursor after consuming a run (or nothing): untouched.
pub open spec fn cursor_kept(pre: Tokenizer, post: Tokenizer) -> bool {
    &&& post.current_char == pre.current_char
    &&& post.current_line == pre.current_line
    &&& post.reconsume == pre.reconsume
}

/// One character of the set at the front of the queue was consumed.
pub open spec fn from_set_unit(bits: u64, pre_in: Seq<char>, post_in: Seq<char>, c: char) -> bool {
    &&& pre_in.len() > 0
    &&& (SmallCharSet { bits }).spec_nonmember_prefix(pre_in) == 0
    &&& c == pre_in[0]
    &&& post_in == pre_in.skip(1)
}

/// The leading run of non-set characters was consumed.
pub open spec fn run_unit(bits: u64, pre_in: Seq<char>, post_in: Seq<char>, r: Seq<char>) -> bool {
    let n = (SmallCharSet { bits }).spec_nonmember_prefix(pre_in) as int;
    &&& pre_in.len() > 0
    &&& n > 0
    &&& r == pre_in.take(n)
    &&& post_in == pre_in.skip(n)
}

/// The tag and attribute accumulators and the passage agree.
pub open spec fn same_accum(pre: Tokenizer, post: Tokenizer) -> bool {
    same_tag_build(pre, post) && same_passage(pre, post)
}

/// A fresh tag of the given kind was begun with `name`; pending attribute
/// pieces survive.
pub open spec fn tag_created(pre: Tokenizer, post: Tokenizer, kind: TagKind, name: Seq<char>) -> bool {
    &&& post.current_tag_name@ == name
    &&& post.current_tag_attrs@ == Seq::<Attribute>::empty()
    &&& post.current_tag_self_closing == false
    &&& post.current_attr_name@ == pre.current_attr_name@
    &&& post.current_attr_value@ == pre.current_attr_value@
    &&& post.current_tag_kind == kind
    &&& post.last_start_tag == pre.last_start_tag
    &&& same_passage(pre, post)
}

/// Only the tag's name was replaced.
pub open spec fn tag_renamed(pre: Tokenizer, post: Tokenizer, name: Seq<char>) -> bool {
    &&& post.current_tag_name@ == name
    &&& post.current_tag_attrs@ == pre.current_tag_attrs@
    &&& post.current_tag_self_closing == pre.current_tag_self_closing
    &&& post.current_attr_name@ == pre.current_attr_name@
    &&& post.current_attr_value@ == pre.current_attr_value@
    &&& post.current_tag_kind == pre.current_tag_kind
    &&& post.last_start_tag == pre.last_start_tag
    &&& same_passage(pre, post)
}

/// Only the pending attribute's name was replaced.
pub open spec fn attr_name_set(pre: Tokenizer, post: Tokenizer, name: Seq<char>) -> bool {
    &&& post.current_attr_name@ == name
    &&& post.current_tag_name@ == pre.current_tag_name@
    &&& post.current_tag_attrs@ == pre.current_tag_attrs@
    &&& post.current_tag_self_closing == pre.current_tag_self_closing
    &&& post.current_attr_value@ == pre.current_attr_value@
    &&& post.current_tag_kind == pre.current_tag_kind
    &&& post.last_start_tag == pre.last_start_tag
    &&& same_passage(pre, post)
}

/// Only the pending attribute's value was replaced.
pub open spec fn attr_value_set(pre: Tokenizer, post: Tokenizer, value: Seq<char>) -> bool {
    &&& post.current_attr_value@ == value
    &&& post.current_tag_name@ == pre.current_tag_name@
    &&& post.current_tag_attrs@ == pre.current_tag_attrs@
    &&& post.current_tag_self_closing == pre.current_tag_self_closing
    &&& post.current_attr_name@ == pre.current_attr_name@
    &&& post.current_tag_kind == pre.current_tag_kind
    &&& post.last_start_tag == pre.last_start_tag
    &&& same_passage(pre, post)
}

/// The pending attribute was pushed onto the tag and cleared.
pub open spec fn attr_pushed(pre: Tokenizer, post: Tokenizer) -> bool {
    &&& post.current_tag_attrs@.len() == pre.current_tag_attrs@.len() + 1
    &&& post.current_tag_attrs@.drop_last() == pre.current_tag_attrs@
    &&& post.current_tag_attrs@.last().name@ == pre.current_attr_name@
    &&& post.current_tag_attrs@.last().value@ == pre.current_attr_value@
    &&& post.current_tag_name@ == pre.current_tag_name@
    &&& post.current_tag_self_closing == pre.current_tag_self_closing
    &&& post.current_attr_name@ == Seq::<char>::empty()
    &&& post.current_attr_value@ == Seq::<char>::empty()
    &&& post.current_tag_kind == pre.current_tag_kind
    &&& post.last_start_tag == pre.last_start_tag
    &&& same_passage(pre, post)
}

/// Only the self-closing flag was raised.
pub open spec fn self_closing_raised(pre: Tokenizer, post: Tokenizer) -> bool {
    &&& post.current_tag_self_closing == true
    &&& post.current_tag_name@ == pre.current_tag_name@
    &&& post.current_tag_attrs@ == pre.current_tag_attrs@
    &&& post.current_attr_name@ == pre.current_attr_name@
    &&& post.current_attr_value@ == pre.current_attr_value@
    &&& post.current_tag_kind == pre.current_tag_kind
    &&& post.last_start_tag == pre.last_start_tag
    &&& same_passage(pre, post)
}

/// A run was appended to the passage.
pub open spec fn passage_grew(pre: Tokenizer, post: Tokenizer, r: Seq<char>) -> bool {
    &&& post.passage@ == pre.passage@ + r
    &&& same_tag_build(pre, post)
}

/// One bad-character diagnostic (its text unspecified) was recorded.
pub open spec fn bad_char_logged(pre: Tokenizer, post: Tokenizer) -> bool {
    &&& post.sink.tags@ == pre.sink.tags@
    &&& post.sink.errors@.len() == pre.sink.errors@.len() + 1
    &&& post.sink.errors@.drop_last() == pre.sink.errors@
    &&& post.sink.line_number == pre.current_line
}

/// One unit of input processed exactly as the state table reads, for the
/// units after which the machine keeps running.
pub open spec fn tok_micro_cont(
    pre: Tokenizer,
    pre_in: Seq<char>,
    post: Tokenizer,
    post_in: Seq<char>,
) -> bool {
    match pre.state {
        States::Document => (exists|c: char|
            #[trigger] from_set_unit(DOCUMENT_SET, pre_in, post_in, c) && cursor_took(pre, post, c)
                && ((c == '<' && post.state is TagOpen && same_accum(pre, post) && same_sink(
                pre,
                post,
            )) || ((c == ' ' || c == '\n' || c == '\t') && post.state is Document && same_accum(
                pre,
                post,
            ) && same_sink(pre, post)) || (c == '>' && post.state is Document && tag_flushed(
                pre,
                post,
                pre.current_tag_self_closing,
            )) || (c == '?' && post.state is ProcessingInstruction && same_accum(pre, post)
                && same_sink(pre, post)))) || (exists|r: Seq<char>|
            #[trigger] run_unit(DOCUMENT_SET, pre_in, post_in, r) && cursor_kept(pre, post)
                && post.state is Passage && passage_grew(pre, post, r) && same_sink(pre, post)),
        States::TagOpen => (exists|c: char|
            #[trigger] from_set_unit(TAG_OPEN_SET, pre_in, post_in, c) && cursor_took(pre, post, c)
                && ((c == '/' && post.state is StartClosingTag && same_accum(pre, post)
                && same_sink(pre, post)) || (c == '>' && post.state is Document && tag_flushed(
                pre,
                post,
                pre.current_tag_self_closing,
            )) || (c == ' ' && post.state is BeforeAttributeName && same_accum(pre, post)
                && same_sink(pre, post)) || (c == '?' && post.state is ProcessingInstruction
                && same_accum(pre, post) && same_sink(pre, post)))) || (exists|r: Seq<char>|
            #[trigger] run_unit(TAG_OPEN_SET, pre_in, post_in, r) && cursor_kept(pre, post)
                && post.state is TagOpen && tag_created(pre, post, TagKind::StartTag, r)
                && same_sink(pre, post)),
        States::ProcessingInstruction => (exists|c: char|
            #[trigger] from_set_unit(PROCESSING_INSTRUCTION_SET, pre_in, post_in, c) && cursor_took(
                pre,
                post,
                c,
            ) && ((c == '>' && post.state is Document && tag_flushed(
                pre,
                post,
                pre.current_tag_self_closing,
            )) || (c == ' ' && post.state is BeforeAttributeName && same_accum(pre, post)
                && same_sink(pre, post)))) || (exists|r: Seq<char>|
            #[trigger] run_unit(PROCESSING_INSTRUCTION_SET, pre_in, post_in, r) && cursor_kept(
                pre,
                post,
            ) && post.state is TagName && tag_renamed(pre, post, r) && same_sink(pre, post)),
        States::StartClosingTag => (exists|c: char|
            #[trigger] from_set_unit(START_CLOSING_TAG_SET, pre_in, post_in, c) && cursor_took(
                pre,
                post,
                c,
            ) && c == '>' && post.state is Document && tag_flushed(pre, post, true)) || (exists|
            r: Seq<char>,
        |
            #[trigger] run_unit(START_CLOSING_TAG_SET, pre_in, post_in, r) && cursor_kept(pre, post)
                && post.state is Document && tag_created(pre, post, TagKind::EndTag, r)
                && same_sink(pre, post)),
        States::TagName => (exists|c: char|
            #[trigger] from_set_unit(TAG_NAME_SET, pre_in, post_in, c) && cursor_took(pre, post, c)
                && ((c == '/' && post.state is TagName && self_closing_raised(pre, post)
                && same_sink(pre, post)) || (c == '>' && post.state is Document && tag_flushed(
                pre,
                post,
                pre.current_tag_self_closing,
            )) || ((c == ' ' || c == '\n' || c == '\t') && post.state is BeforeAttributeName
                && same_accum(pre, post) && same_sink(pre, post)))),
        States::BeforeAttributeName => (exists|c: char|
            #[trigger] from_set_unit(BEFORE_ATTRIBUTE_NAME_SET, pre_in, post_in, c) && cursor_took(
                pre,
                post,
                c,
            ) && ((c == '=' && post.state is StartAttributeValue && same_accum(pre, post)
                && same_sink(pre, post)) || (c == '/' && post.state is StartClosingTag
                && same_accum(pre, post) && same_sink(pre, post)) || (c == '>' && post.state
                is Document && tag_flushed(pre, post, pre.current_tag_self_closing)) || (c == '?'
                && post.state is ProcessingInstruction && same_accum(pre, post) && same_sink(
                pre,
                post,
            )) || (c == ' ' && post.state is BeforeAttributeName && same_accum(pre, post)
                && same_sink(pre, post)))) || (exists|r: Seq<char>|
            #[trigger] run_unit(BEFORE_ATTRIBUTE_NAME_SET, pre_in, post_in, r) && cursor_kept(
                pre,
                post,
            ) && post.state is BeforeAttributeName && attr_name_set(pre, post, r) && same_sink(
                pre,
                post,
            )),
        States::StartAttributeValue => (pre_in.len() > 0 && post_in == pre_in.skip(1)
            && cursor_kept(pre, post) && (((pre_in[0] == '"' || pre_in[0] == '\'') && post.state
            is AttributeValue && same_accum(pre, post) && same_sink(pre, post)) || (!(pre_in[0]
            == '"' || pre_in[0] == '\'') && post.state is Document && same_accum(pre, post)
            && bad_char_logged(pre, post)))) || (pre_in.len() == 0 && post_in == pre_in
            && cursor_kept(pre, post) && post.state is Document && same_accum(pre, post)
            && bad_char_logged(pre, post)),
        States::AttributeValue => (exists|c: char|
            #[trigger] from_set_unit(ATTRIBUTE_VALUE_SET, pre_in, post_in, c) && cursor_took(
                pre,
                post,
                c,
            ) && (((c == '"' || c == '\'') && post.state is BeforeAttributeName && attr_pushed(
                pre,
                post,
            ) && same_sink(pre, post)) || (c == ' ' && post.state is BeforeAttributeName
                && same_accum(pre, post) && same_sink(pre, post)))) || (exists|r: Seq<char>|
            #[trigger] run_unit(ATTRIBUTE_VALUE_SET, pre_in, post_in, r) && cursor_kept(pre, post)
                && post.state is AttributeValue && attr_value_set(pre, post, r) && same_sink(
                pre,
                post,
            )),
        States::Passage => (exists|c: char|
            #[trigger] from_set_unit(PASSAGE_SET, pre_in, post_in, c) && cursor_took(pre, post, c)
                && c == '<' && post.state is TagOpen && same_accum(pre, post) && same_sink(
                pre,
                post,
            )) || (exists|r: Seq<char>|
            #[trigger] run_unit(PASSAGE_SET, pre_in, post_in, r) && cursor_kept(pre, post)
                && post.state is Passage && passage_grew(pre, post, r) && same_sink(pre, post)),
    }
}

/// The two units after which the machine suspends although input may
/// remain: a nul in the document state, and a stray run in the tag-name
/// state (which the machine drops, as the state table reads).
pub open spec fn tok_micro_sus(
    pre: Tokenizer,
    pre_in: Seq<char>,
    post: Tokenizer,
    post_in: Seq<char>,
) -> bool {
    (pre.state is Document && exists|c: char|
        #[trigger] from_set_unit(DOCUMENT_SET, pre_in, post_in, c) && c == '\0' && cursor_took(
            pre,
            post,
            c,
        ) && post.state is Document && same_accum(pre, post) && same_sink(pre, post)) || (pre.state
        is TagName && exists|r: Seq<char>|
        #[trigger] run_unit(TAG_NAME_SET, pre_in, post_in, r) && cursor_kept(pre, post)
            && post.state is TagName && same_accum(pre, post) && same_sink(pre, post))
}

/// `n` running units processed in sequence.
pub open spec fn tok_steps_n(
    n: nat,
    pre: Tokenizer,
    pre_in: Seq<char>,
    post: Tokenizer,
    post_in: Seq<char>,
) -> bool
    decreases n,
{
    if n == 0 {
        post == pre && post_in == pre_in
    } else {
        exists|mid: Tokenizer, mid_in: Seq<char>|
            #[trigger] tok_micro_cont(pre, pre_in, mid, mid_in) && tok_steps_n(
                (n - 1) as nat,
                mid,
                mid_in,
                post,
                post_in,
            )
    }
}

/// Some number of running units processed in sequence: the
/// reflexive-transitive closure of the running micro step.
pub open spec fn tok_steps(
    pre: Tokenizer,
    pre_in: Seq<char>,
    post: Tokenizer,
    post_in: Seq<char>,
) -> bool {
    exists|n: nat| tok_steps_n(n, pre, pre_in, post, post_in)
}

/// Where a drive of the machine comes to rest: after some running units it
/// either drained the queue (and is not in the one state that still acts on
/// an empty queue) or took one suspending unit.
pub open spec fn tok_paused(
    pre: Tokenizer,
    pre_in: Seq<char>,
    post: Tokenizer,
    post_in: Seq<char>,
) -> bool {
    exists|mid: Tokenizer, mid_in: Seq<char>|
        #[trigger] tok_steps(pre, pre_in, mid, mid_in) && ((mid_in.len() == 0 && !(mid.state
            is StartAttributeValue) && post == mid && post_in == mid_in) || tok_micro_sus(
            mid,
            mid_in,
            post,
            post_in,
        ))
}

proof fn lemma_tok_steps_refl(t: Tokenizer, input: Seq<char>)
    ensures
        tok_steps(t, input, t, input),
{
    assert(tok_steps_n(0, t, input, t, input));
}

proof fn lemma_tok_steps_left(
    pre: Tokenizer,
    pre_in: Seq<char>,
    mid: Tokenizer,
    mid_in: Seq<char>,
    post: Tokenizer,
    post_in: Seq<char>,
)
    requires
        tok_micro_cont(pre, pre_in, mid, mid_in),
        tok_steps(mid, mid_in, post, post_in),
    ensures
        tok_steps(pre, pre_in, post, post_in),
{
    let n = choose|n: nat| tok_steps_n(n, mid, mid_in, post, post_in);
    assert(tok_steps_n(n + 1, pre, pre_in, post, post_in));
}

proof fn lemma_tok_steps_trans_n(
    n: nat,
    pre: Tokenizer,
    pre_in: Seq<char>,
    mid: Tokenizer,
    mid_in: Seq<char>,
    post: Tokenizer,
    post_in: Seq<char>,
)
    requires
        tok_steps_n(n, pre, pre_in, mid, mid_in),
        tok_steps(mid, mid_in, post, post_in),
    ensures
        tok_steps(pre, pre_in, post, post_in),
    decreases n,
{
    if n == 0 {
    } else {
        let (m2, in2): (Tokenizer, Seq<char>) = choose|m2: Tokenizer, in2: Seq<char>|
            #[trigger] tok_micro_cont(pre, pre_in, m2, in2) && tok_steps_n(
                (n - 1) as nat,
                m2,
                in2,
                mid,
                mid_in,
            );
        lemma_tok_steps_trans_n((n - 1) as nat, m2, in2, mid, mid_in, post, post_in);
        lemma_tok_steps_left(pre, pre_in, m2, in2, post, post_in);
    }
}

proof fn lemma_tok_steps_trans(
    pre: Tokenizer,
    pre_in: Seq<char>,
    mid: Tokenizer,
    mid_in: Seq<char>,
    post: Tokenizer,
    post_in: Seq<char>,
)
    requires
        tok_steps(pre, pre_in, mid, mid_in),
        tok_steps(mid, mid_in, post, post_in),
    ensures
        tok_steps(pre, pre_in, post, post_in),
{
    let n = choose|n: nat| tok_steps_n(n, pre, pre_in, mid, mid_in);
    lemma_tok_steps_trans_n(n, pre, pre_in, mid, mid_in, post, post_in);
}

proof fn lemma_tok_steps_snoc(
    pre: Tokenizer,
    pre_in: Seq<char>,
    mid: Tokenizer,
    mid_in: Seq<char>,
    post: Tokenizer,
    post_in: Seq<char>,
)
    requires
        tok_steps(pre, pre_in, mid, mid_in),
        tok_micro_cont(mid, mid_in, post, post_in),
    ensures
        tok_steps(pre, pre_in, post, post_in),
{
    assert(tok_steps_n(0, post, post_in, post, post_in));
    assert(tok_steps_n(1, mid, mid_in, post, post_in));
    lemma_tok_steps_trans(pre, pre_in, mid, mid_in, post, post_in);
}

proof fn lemma_tok_paused_left(
    pre: Tokenizer,
    pre_in: Seq<char>,
    mid: Tokenizer,
    mid_in: Seq<char>,
    post: Tokenizer,
    post_in: Seq<char>,
)
    requires
        tok_steps(pre, pre_in, mid, mid_in),
        tok_paused(mid, mid_in, post, post_in),
    ensures
        tok_paused(pre, pre_in, post, post_in),
{
    let (m2, in2): (Tokenizer, Seq<char>) = choose|m2: Tokenizer, in2: Seq<char>|
        #[trigger] tok_steps(mid, mid_in, m2, in2) && ((in2.len() == 0 && !(m2.state
            is StartAttributeValue) && post == m2 && post_in == in2) || tok_micro_sus(
            m2,
            in2,
            post,
            post_in,
        ));
    lemma_tok_steps_trans(pre, pre_in, mid, mid_in, m2, in2);
}

/// Relies on the `format` machinery of std to render a diagnostic for an
/// unexpected character; the text itself is unspecified.
#[verifier::external_body]
fn fmt_bad_char(c: char, state: &States, line: u64) -> String {
    format!("Bad character. Saw {} in state {:?} on line {}", c, state, line)
}

impl Tokenizer {
    pub fn new(sink: Sink) -> (r: Tokenizer)
        ensures
            r.sink == sink,
            r.state is Document,
            r.current_char == '\0',
            r.current_line == 1,
            r.current_tag_name@ == Seq::<char>::empty(),
            r.current_tag_attrs@ == Seq::<Attribute>::empty(),
            r.current_tag_self_closing == false,
            r.current_attr_name@ == Seq::<char>::empty(),
            r.current_attr_value@ == Seq::<char>::empty(),
            r.passage@ == Seq::<char>::empty(),
            r.reconsume == false,
            r.current_tag_kind is StartTag,
            r.last_start_tag is None,
    {
        Tokenizer {
            sink,
            state: States::Document,
            current_char: '\0',
            current_line: 1,
            current_tag_name: Vec::new(),
            current_attr_value: Vec::new(),
            passage: Vec::new(),
            current_tag_attrs: Vec::new(),
            current_tag_self_closing: false,
            current_attr_name: Vec::new(),
            reconsume: false,
            current_tag_kind: TagKind::StartTag,
            last_start_tag: None,
        }
    }

    fn bad_char_error(&mut self)
        ensures
            same_cursor(*old(self), *final(self)),
            same_tag_build(*old(self), *final(self)),
            same_passage(*old(self), *final(self)),
            final(self).sink.tags@ == old(self).sink.tags@,
            final(self).sink.errors@.len() == old(self).sink.errors@.len() + 1,
            final(self).sink.errors@.drop_last() == old(self).sink.errors@,
            final(self).sink.line_number == old(self).current_line,
    {
        let msg = fmt_bad_char(self.current_char, &self.state, self.current_line);
        self.emit_error(msg);
    }

    fn emit_error(&mut self, error: String)
        ensures
            same_cursor(*old(self), *final(self)),
            same_tag_build(*old(self), *final(self)),
            same_passage(*old(self), *final(self)),
            final(self).sink.tags@ == old(self).sink.tags@,
            final(self).sink.errors@ == old(self).sink.errors@.push(error),
            final(self).sink.line_number == old(self).current_line,
    {
        self.process_and_continue(Token::ParseError(error));
    }

    fn process_token(&mut self, token: Token) -> (r: SinkResult)
        ensures
            same_cursor(*old(self), *final(self)),
            same_tag_build(*old(self), *final(self)),
            same_passage(*old(self), *final(self)),
            final(self).sink.line_number == old(self).current_line,
            (token matches Token::ParseError(e) ==> {
                &&& final(self).sink.errors@ == old(self).sink.errors@.push(e)
                &&& final(self).sink.tags@ == old(self).sink.tags@
            }),
            (token matches Token::TagToken(t) ==> {
                &&& final(self).sink.tags@ == old(self).sink.tags@.push(t)
                &&& final(self).sink.errors@ == old(self).sink.errors@
            }),
            r == SinkResult::Continue,
    {
        let line = self.current_line;
        self.sink.process_token(token, line)
    }

    fn process_and_continue(&mut self, token: Token)
        ensures
            same_cursor(*old(self), *final(self)),
            same_tag_build(*old(self), *final(self)),
            same_passage(*old(self), *final(self)),
            final(self).sink.line_number == old(self).current_line,
            (token matches Token::ParseError(e) ==> {
                &&& final(self).sink.errors@ == old(self).sink.errors@.push(e)
                &&& final(self).sink.tags@ == old(self).sink.tags@
            }),
            (token matches Token::TagToken(t) ==> {
                &&& final(self).sink.tags@ == old(self).sink.tags@.push(t)
                &&& final(self).sink.errors@ == old(self).sink.errors@
            }),
    {
        match self.process_token(token) {
            SinkResult::Continue => (),
        }
    }

    fn discard_tag(&mut self)
        ensures
            same_cursor(*old(self), *final(self)),
            same_passage(*old(self), *final(self)),
            same_sink(*old(self), *final(self)),
            final(self).current_tag_name@ == Seq::<char>::empty(),
            final(self).current_tag_attrs@ == Seq::<Attribute>::empty(),
            final(self).current_tag_self_closing == false,
            final(self).current_attr_name@ == old(self).current_attr_name@,
            final(self).current_attr_value@ == old(self).current_attr_value@,
            final(self).current_tag_kind == old(self).current_tag_kind,
            final(self).last_start_tag == old(self).last_start_tag,
    {
        self.current_tag_name = Vec::new();
        self.current_tag_attrs = Vec::new();
        self.current_tag_self_closing = false;
    }

    /// Begin a fresh tag of the given kind whose name starts as `name`.
    fn create_tag(&mut self, kind: TagKind, name: String)
        ensures
            same_cursor(*old(self), *final(self)),
            same_passage(*old(self), *final(self)),
            same_sink(*old(self), *final(self)),
            final(self).current_tag_name@ == name@,
            final(self).current_tag_attrs@ == Seq::<Attribute>::empty(),
            final(self).current_tag_self_closing == false,
            final(self).current_attr_name@ == old(self).current_attr_name@,
            final(self).current_attr_value@ == old(self).current_attr_value@,
            final(self).current_tag_kind == kind,
            final(self).last_start_tag == old(self).last_start_tag,
    {
        self.discard_tag();
        self.current_tag_name = str_to_chars(name.as_str());
        self.current_tag_attrs = Vec::new();
        self.current_tag_kind = kind;
    }

    fn emit_attribute_name(&mut self, name: String)
        ensures
            same_cursor(*old(self), *final(self)),
            same_passage(*old(self), *final(self)),
            same_sink(*old(self), *final(self)),
            final(self).current_attr_name@ == name@,
            final(self).current_tag_name@ == old(self).current_tag_name@,
            final(self).current_tag_attrs@ == old(self).current_tag_attrs@,
            final(self).current_tag_self_closing == old(self).current_tag_self_closing,
            final(self).current_attr_value@ == old(self).current_attr_value@,
            final(self).current_tag_kind == old(self).current_tag_kind,
            final(self).last_start_tag == old(self).last_start_tag,
    {
        self.current_attr_name = str_to_chars(name.as_str());
    }

    fn emit_attribute_value(&mut self, value: String)
        ensures
            same_cursor(*old(self), *final(self)),
            same_passage(*old(self), *final(self)),
            same_sink(*old(self), *final(self)),
            final(self).current_attr_value@ == value@,
            final(self).current_tag_name@ == old(self).current_tag_name@,
            final(self).current_tag_attrs@ == old(self).current_tag_attrs@,
            final(self).current_tag_self_closing == old(self).current_tag_self_closing,
            final(self).current_attr_name@ == old(self).current_attr_name@,
            final(self).current_tag_kind == old(self).current_tag_kind,
            final(self).last_start_tag == old(self).last_start_tag,
    {
        self.current_attr_value = str_to_chars(value.as_str());
    }

    /// Push the attribute under construction onto the current tag.
    fn emit_attribute(&mut self)
        ensures
            same_cursor(*old(self), *final(self)),
            same_passage(*old(self), *final(self)),
            same_sink(*old(self), *final(self)),
            final(self).current_tag_name@ == old(self).current_tag_name@,
            final(self).current_tag_attrs@.len() == old(self).current_tag_attrs@.len() + 1,
            final(self).current_tag_attrs@.drop_last() == old(self).current_tag_attrs@,
            final(self).current_tag_attrs@.last().name@ == old(self).current_attr_name@,
            final(self).current_tag_attrs@.last().value@ == old(self).current_attr_value@,
            final(self).current_tag_self_closing == old(self).current_tag_self_closing,
            final(self).current_attr_name@ == Seq::<char>::empty(),
            final(self).current_attr_value@ == Seq::<char>::empty(),
            final(self).current_tag_kind == old(self).current_tag_kind,
            final(self).last_start_tag == old(self).last_start_tag,
    {
        let attribute = Attribute {
            name: chars_to_string(self.current_attr_name.as_slice()),
            value: chars_to_string(self.current_attr_value.as_slice()),
        };
        self.current_tag_attrs.push(attribute);
        self.current_attr_name = Vec::new();
        self.current_attr_value = Vec::new();
    }

    /// Append a run of character data to the passage accumulator.
    fn emit_passage(&mut self, passage: String)
        ensures
            same_cursor(*old(self), *final(self)),
            same_sink(*old(self), *final(self)),
            same_tag_build(*old(self), *final(self)),
            final(self).passage@ == old(self).passage@ + passage@,
    {
        let mut tail = str_to_chars(passage.as_str());
        self.passage.append(&mut tail);
        proof {
            assert(self.passage@ =~= old(self).passage@ + passage@);
        }
    }

    fn emit_tag_name(&mut self, name: String)
        ensures
            same_cursor(*old(self), *final(self)),
            same_passage(*old(self), *final(self)),
            same_sink(*old(self), *final(self)),
            final(self).current_tag_name@ == name@,
            final(self).current_tag_attrs@ == old(self).current_tag_attrs@,
            final(self).current_tag_self_closing == old(self).current_tag_self_closing,
            final(self).current_attr_name@ == old(self).current_attr_name@,
            final(self).current_attr_value@ == old(self).current_attr_value@,
            final(self).current_tag_kind == old(self).current_tag_kind,
            final(self).last_start_tag == old(self).last_start_tag,
    {
        self.current_tag_name = str_to_chars(name.as_str());
    }

    fn set_self_closing(&mut self)
        ensures
            same_cursor(*old(self), *final(self)),
            same_passage(*old(self), *final(self)),
            same_sink(*old(self), *final(self)),
            final(self).current_tag_name@ == old(self).current_tag_name@,
            final(self).current_tag_attrs@ == old(self).current_tag_attrs@,
            final(self).current_tag_self_closing == true,
            final(self).current_attr_name@ == old(self).current_attr_name@,
            final(self).current_attr_value@ == old(self).current_attr_value@,
            final(self).current_tag_kind == old(self).current_tag_kind,
            final(self).last_start_tag == old(self).last_start_tag,
    {
        self.current_tag_self_closing = true;
    }

    /// Flush a pending attribute, if one is under construction.
    fn finish_attribute(&mut self)
        ensures
            same_cursor(*old(self), *final(self)),
            same_passage(*old(self), *final(self)),
            same_sink(*old(self), *final(self)),
            final(self).current_tag_name@ == old(self).current_tag_name@,
            final(self).current_tag_self_closing == old(self).current_tag_self_closing,
            final(self).current_tag_kind == old(self).current_tag_kind,
            final(self).last_start_tag == old(self).last_start_tag,
            final(self).current_attr_name@ == Seq::<char>::empty(),
            (old(self).current_attr_name@.len() == 0 ==> {
                &&& final(self).current_tag_attrs@ == old(self).current_tag_attrs@
                &&& final(self).current_attr_value@ == old(self).current_attr_value@
            }),
            (old(self).current_attr_name@.len() > 0 ==> {
                &&& final(self).current_tag_attrs@.len() == old(self).current_tag_attrs@.len() + 1
                &&& final(self).current_tag_attrs@.drop_last() == old(self).current_tag_attrs@
                &&& final(self).current_tag_attrs@.last().name@ == old(self).current_attr_name@
                &&& final(self).current_tag_attrs@.last().value@ == old(self).current_attr_value@
                &&& final(self).current_attr_value@ == Seq::<char>::empty()
            }),
    {
        if self.current_attr_name.len() == 0 {
            return ;
        }
        self.emit_attribute();
    }

    /// Close the tag under construction and hand it to the sink.
    fn emit_tag(&mut self)
        ensures
            tag_flushed(*old(self), *final(self), old(self).current_tag_self_closing),
            final(self).state == old(self).state,
            final(self).current_char == old(self).current_char,
            final(self).current_line == old(self).current_line,
            final(self).reconsume == old(self).reconsume,
    {
        self.finish_attribute();

        let name = TagName(chars_to_string(self.current_tag_name.as_slice()));
        self.current_tag_name = Vec::new();

        match self.current_tag_kind {
            TagKind::StartTag => {
                self.last_start_tag = Some(name.clone());
            },
            TagKind::EndTag => {
                if self.current_tag_attrs.len() > 0 {
                    self.emit_error("Attributes on an end tag".to_owned());
                }
                if self.current_tag_self_closing {
                    self.emit_error("Self-closing end tag".to_owned());
                }
            },
        }

        let value = if self.passage.len() == 0 {
            None
        } else {
            Some(chars_to_string(self.passage.as_slice()))
        };
        self.passage = Vec::new();

        let mut attrs: Vec<Attribute> = Vec::new();
        core::mem::swap(&mut attrs, &mut self.current_tag_attrs);

        let token = Token::TagToken(
            Tag {
                kind: self.current_tag_kind,
                attributes: attrs,
                name,
                is_self_closing: self.current_tag_self_closing,
                value,
            },
        );

        self.current_tag_self_closing = false;

        self.process_and_continue(token);
        proof {
            assert(self.sink.tags@.drop_last() =~= old(self).sink.tags@);
            assert(self.sink.errors@.subrange(0, old(self).sink.errors@.len() as int) =~= old(
                self,
            ).sink.errors@);
            assert(self.sink.tags@.last().attributes@.subrange(
                0,
                old(self).current_tag_attrs@.len() as int,
            ) =~= old(self).current_tag_attrs@);
        }
    }

    /// Pop one set character, or a run of non-set characters, preprocessing
    /// a popped set character for line tracking.
    fn pop_except_from(&mut self, input: &mut XmlContent, set: SmallCharSet) -> (r: Option<
        SetResult,
    >)
        requires
            !old(self).reconsume,
        ensures
            final(self).reconsume == false,
            final(self).state == old(self).state,
            same_tag_build(*old(self), *final(self)),
            same_passage(*old(self), *final(self)),
            same_sink(*old(self), *final(self)),
            match r {
                None => {
                    &&& old(input)@.len() == 0
                    &&& final(input)@ == old(input)@
                    &&& *final(self) == *old(self)
                },
                Some(SetResult::FromSet(c)) => {
                    &&& old(input)@.len() > 0
                    &&& set.spec_nonmember_prefix(old(input)@) == 0
                    &&& c == old(input)@[0]
                    &&& final(input)@ == old(input)@.skip(1)
                    &&& final(self).current_char == c
                    &&& final(self).current_line == spec_line_after(old(self).current_line, c)
                },
                Some(SetResult::NotFromSet(s)) => {
                    let n = set.spec_nonmember_prefix(old(input)@) as int;
                    &&& old(input)@.len() > 0
                    &&& n > 0
                    &&& s@ == old(input)@.take(n)
                    &&& final(input)@ == old(input)@.skip(n)
                    &&& final(self).current_char == old(self).current_char
                    &&& final(self).current_line == old(self).current_line
                },
            },
    {
        if self.reconsume {
            return match self.get_char(input) {
                Some(x) => Some(SetResult::FromSet(x)),
                None => None,
            };
        }
        let d = input.pop_from_set(set);
        match d {
            Some(SetResult::FromSet(c)) => match self.get_preprocessed_char(c, input) {
                Some(x) => Some(SetResult::FromSet(x)),
                None => None,
            },
            _ => d,
        }
    }

    fn get_char(&mut self, input: &mut XmlContent) -> (r: Option<char>)
        ensures
            final(self).state == old(self).state,
            same_tag_build(*old(self), *final(self)),
            same_passage(*old(self), *final(self)),
            same_sink(*old(self), *final(self)),
            old(self).reconsume ==> {
                &&& r == Some(old(self).current_char)
                &&& final(self).reconsume == false
                &&& final(input)@ == old(input)@
                &&& final(self).current_char == old(self).current_char
                &&& final(self).current_line == old(self).current_line
            },
            !old(self).reconsume ==> final(self).reconsume == false && match r {
                None => {
                    &&& old(input)@.len() == 0
                    &&& final(input)@ == old(input)@
                    &&& final(self).current_char == old(self).current_char
                    &&& final(self).current_line == old(self).current_line
                },
                Some(c) => {
                    &&& old(input)@.len() > 0
                    &&& c == old(input)@[0]
                    &&& final(input)@ == old(input)@.skip(1)
                    &&& final(self).current_char == c
                    &&& final(self).current_line == spec_line_after(old(self).current_line, c)
                },
            },
    {
        if self.reconsume {
            self.reconsume = false;
            Some(self.current_char)
        } else {
            match input.next() {
                Some(c) => self.get_preprocessed_char(c, input),
                None => None,
            }
        }
    }

    /// Record the character just consumed and track line numbers.
    fn get_preprocessed_char(&mut self, c: char, input: &mut XmlContent) -> (r: Option<char>)
        ensures
            final(input)@ == old(input)@,
            r == Some(c),
            final(self).state == old(self).state,
            final(self).reconsume == old(self).reconsume,
            same_tag_build(*old(self), *final(self)),
            same_passage(*old(self), *final(self)),
            same_sink(*old(self), *final(self)),
            final(self).current_char == c,
            final(self).current_line == spec_line_after(old(self).current_line, c),
    {
        if c == '\n' {
            if self.current_line < u64::MAX {
                self.current_line = self.current_line + 1;
            }
        }
        self.current_char = c;
        Some(c)
    }
}

// === The state machine ===

proof fn lemma_prefix_refl<T>(a: Seq<T>)
    ensures
        a.is_prefix_of(a),
{
    assert(a =~= a.subrange(0, a.len() as int));
}

proof fn lemma_prefix_extend<T>(a: Seq<T>, b: Seq<T>)
    requires
        b.len() == a.len() + 1,
        b.drop_last() == a,
    ensures
        a.is_prefix_of(b),
{
    assert(a =~= b.subrange(0, a.len() as int));
}

proof fn lemma_prefix_via_subrange<T>(a: Seq<T>, b: Seq<T>)
    requires
        a.len() <= b.len(),
        b.subrange(0, a.len() as int) == a,
    ensures
        a.is_prefix_of(b),
{
}

proof fn lemma_document_members(c: char)
    requires
        (SmallCharSet { bits: DOCUMENT_SET }).spec_contains(c),
    ensures
        c == '\0' || c == '\t' || c == '\n' || c == ' ' || c == '<' || c == '>' || c == '?',
{
    let cv = (c as u32) as u64;
    assert(((0xD000000100000601u64 >> cv) & 1 == 1 && cv < 64) ==> (cv == 0 || cv == 9 || cv == 10
        || cv == 32 || cv == 60 || cv == 62 || cv == 63)) by (bit_vector);
}

proof fn lemma_tag_open_members(c: char)
    requires
        (SmallCharSet { bits: TAG_OPEN_SET }).spec_contains(c),
    ensures
        c == ' ' || c == '/' || c == '>' || c == '?',
{
    let cv = (c as u32) as u64;
    assert(((0xC000800100000000u64 >> cv) & 1 == 1 && cv < 64) ==> (cv == 32 || cv == 47 || cv
        == 62 || cv == 63)) by (bit_vector);
}

proof fn lemma_processing_instruction_members(c: char)
    requires
        (SmallCharSet { bits: PROCESSING_INSTRUCTION_SET }).spec_contains(c),
    ensures
        c == ' ' || c == '>',
{
    let cv = (c as u32) as u64;
    assert(((0x4000000100000000u64 >> cv) & 1 == 1 && cv < 64) ==> (cv == 32 || cv == 62))
        by (bit_vector);
}

proof fn lemma_start_closing_tag_members(c: char)
    requires
        (SmallCharSet { bits: START_CLOSING_TAG_SET }).spec_contains(c),
    ensures
        c == '>',
{
    let cv = (c as u32) as u64;
    assert(((0x4000000000000000u64 >> cv) & 1 == 1 && cv < 64) ==> cv == 62) by (bit_vector);
}

proof fn lemma_tag_name_members(c: char)
    requires
        (SmallCharSet { bits: TAG_NAME_SET }).spec_contains(c),
    ensures
        c == '\t' || c == '\n' || c == ' ' || c == '/' || c == '>',
{
    let cv = (c as u32) as u64;
    assert(((0x4000800100000600u64 >> cv) & 1 == 1 && cv < 64) ==> (cv == 9 || cv == 10 || cv == 32
        || cv == 47 || cv == 62)) by (bit_vector);
}

proof fn lemma_before_attribute_name_members(c: char)
    requires
        (SmallCharSet { bits: BEFORE_ATTRIBUTE_NAME_SET }).spec_contains(c),
    ensures
        c == ' ' || c == '/' || c == '=' || c == '>' || c == '?',
{
    let cv = (c as u32) as u64;
    assert(((0xE000800100000000u64 >> cv) & 1 == 1 && cv < 64) ==> (cv == 32 || cv == 47 || cv
        == 61 || cv == 62 || cv == 63)) by (bit_vector);
}

proof fn lemma_attribute_value_members(c: char)
    requires
        (SmallCharSet { bits: ATTRIBUTE_VALUE_SET }).spec_contains(c),
    ensures
        c == ' ' || c == '"' || c == '\'',
{
    let cv = (c as u32) as u64;
    assert(((0x8500000000u64 >> cv) & 1 == 1 && cv < 64) ==> (cv == 32 || cv == 34 || cv == 39))
        by (bit_vector);
}

proof fn lemma_passage_members(c: char)
    requires
        (SmallCharSet { bits: PASSAGE_SET }).spec_contains(c),
    ensures
        c == '<',
{
    let cv = (c as u32) as u64;
    assert(((0x1000000000000000u64 >> cv) & 1 == 1 && cv < 64) ==> cv == 60) by (bit_vector);
}

impl Tokenizer {
    fn step_document(&mut self, input: &mut XmlContent) -> (r: ProcessResult)
        requires
            old(self).state is Document,
            !old(self).reconsume,
        ensures
            step_frame(*old(self), old(input)@, *final(self), final(input)@, r),
            r is Continue ==> tok_steps(*old(self), old(input)@, *final(self), final(input)@),
            r is Suspend ==> tok_paused(*old(self), old(input)@, *final(self), final(input)@),
    {
        proof {
            lemma_tok_steps_refl(*self, input@);
        }
        loop
            invariant
                !old(self).reconsume,
                self.state is Document,
                !self.reconsume,
                input@.is_suffix_of(old(input)@),
                old(self).sink.tags@.is_prefix_of(self.sink.tags@),
                old(self).sink.errors@.is_prefix_of(self.sink.errors@),
                tok_steps(*old(self), old(input)@, *self, input@),
            decreases input@.len(),
        {
            let ghost pre_in = input@;
            let ghost pre_t = *self;
            let set = SmallCharSet::new(DOCUMENT_SET);
            match self.pop_except_from(input, set) {
                None => {
                    proof {
                        lemma_prefix_refl(self.sink.tags@);
                        lemma_prefix_refl(self.sink.errors@);
                        assert(tok_paused(*old(self), old(input)@, *self, input@));
                    }
                    return ProcessResult::Suspend;
                },
                Some(SetResult::FromSet(c)) => {
                    proof {
                        lemma_skip_is_suffix(pre_in, 1);
                        lemma_suffix_trans(old(input)@, pre_in, input@);
                        assert(from_set_unit(DOCUMENT_SET, pre_in, input@, c));
                        lemma_prefix_refl(self.sink.tags@);
                        lemma_prefix_refl(self.sink.errors@);
                    }
                    match c {
                        '<' => {
                            self.state = States::TagOpen;
                            proof {
                                assert(tok_micro_cont(pre_t, pre_in, *self, input@));
                                lemma_tok_steps_snoc(
                                    *old(self),
                                    old(input)@,
                                    pre_t,
                                    pre_in,
                                    *self,
                                    input@,
                                );
                            }
                            return ProcessResult::Continue;
                        },
                        ' ' | '\n' | '\t' => {
                            proof {
                                assert(tok_micro_cont(pre_t, pre_in, *self, input@));
                                lemma_tok_steps_snoc(
                                    *old(self),
                                    old(input)@,
                                    pre_t,
                                    pre_in,
                                    *self,
                                    input@,
                                );
                            }
                        },
                        '>' => {
                            let ghost mid_t = *self;
                            self.emit_tag();
                            proof {
                                lemma_prefix_extend(mid_t.sink.tags@, self.sink.tags@);
                                lemma_prefix_via_subrange(mid_t.sink.errors@, self.sink.errors@);
                                lemma_prefix_trans(
                                    old(self).sink.tags@,
                                    pre_t.sink.tags@,
                                    self.sink.tags@,
                                );
                                lemma_prefix_trans(
                                    old(self).sink.errors@,
                                    pre_t.sink.errors@,
                                    self.sink.errors@,
                                );
                                assert(tag_flushed(pre_t, *self, pre_t.current_tag_self_closing));
                                assert(tok_micro_cont(pre_t, pre_in, *self, input@));
                                lemma_tok_steps_snoc(
                                    *old(self),
                                    old(input)@,
                                    pre_t,
                                    pre_in,
                                    *self,
                                    input@,
                                );
                            }
                        },
                        '\0' => {
                            proof {
                                assert(tok_micro_sus(pre_t, pre_in, *self, input@));
                                assert(tok_steps(*old(self), old(input)@, pre_t, pre_in));
                                assert(tok_paused(*old(self), old(input)@, *self, input@));
                            }
                            return ProcessResult::Suspend;
                        },
                        '?' => {
                            self.state = States::ProcessingInstruction;
                            proof {
                                assert(tok_micro_cont(pre_t, pre_in, *self, input@));
                                lemma_tok_steps_snoc(
                                    *old(self),
                                    old(input)@,
                                    pre_t,
                                    pre_in,
                                    *self,
                                    input@,
                                );
                            }
                            return ProcessResult::Continue;
                        },
                        _ => {
                            proof {
                                lemma_document_members(c);
                            }
                            return ProcessResult::Suspend;
                        },
                    }
                },
                Some(SetResult::NotFromSet(c)) => {
                    let ghost run = c@;
                    proof {
                        set.lemma_nonmember_prefix_bound(pre_in);
                        lemma_skip_is_suffix(pre_in, set.spec_nonmember_prefix(pre_in) as int);
                        lemma_suffix_trans(old(input)@, pre_in, input@);
                        assert(run_unit(DOCUMENT_SET, pre_in, input@, run));
                    }
                    self.emit_passage(c);
                    self.state = States::Passage;
                    proof {
                        lemma_prefix_refl(self.sink.tags@);
                        lemma_prefix_refl(self.sink.errors@);
                        lemma_prefix_trans(old(self).sink.tags@, pre_t.sink.tags@, self.sink.tags@);
                        lemma_prefix_trans(
                            old(self).sink.errors@,
                            pre_t.sink.errors@,
                            self.sink.errors@,
                        );
                        assert(passage_grew(pre_t, *self, run));
                        assert(tok_micro_cont(pre_t, pre_in, *self, input@));
                        lemma_tok_steps_snoc(
                            *old(self),
                            old(input)@,
                            pre_t,
                            pre_in,
                            *self,
                            input@,
                        );
                    }
                    return ProcessResult::Continue;
                },
            }
        }
    }

    fn step_tag_open(&mut self, input: &mut XmlContent) -> (r: ProcessResult)
        requires
            old(self).state is TagOpen,
            !old(self).reconsume,
        ensures
            step_frame(*old(self), old(input)@, *final(self), final(input)@, r),
            r is Continue ==> tok_steps(*old(self), old(input)@, *final(self), final(input)@),
            r is Suspend ==> tok_paused(*old(self), old(input)@, *final(self), final(input)@),
    {
        proof {
            lemma_tok_steps_refl(*self, input@);
        }
        loop
            invariant
                !old(self).reconsume,
                self.state is TagOpen,
                !self.reconsume,
                input@.is_suffix_of(old(input)@),
                old(self).sink.tags@.is_prefix_of(self.sink.tags@),
                old(self).sink.errors@.is_prefix_of(self.sink.errors@),
                tok_steps(*old(self), old(input)@, *self, input@),
            decreases input@.len(),
        {
            let ghost pre_in = input@;
            let ghost pre_t = *self;
            let set = SmallCharSet::new(TAG_OPEN_SET);
            match self.pop_except_from(input, set) {
                None => {
                    proof {
                        lemma_prefix_refl(self.sink.tags@);
                        lemma_prefix_refl(self.sink.errors@);
                        assert(tok_paused(*old(self), old(input)@, *self, input@));
                    }
                    return ProcessResult::Suspend;
                },
                Some(SetResult::FromSet(c)) => {
                    proof {
                        lemma_skip_is_suffix(pre_in, 1);
                        lemma_suffix_trans(old(input)@, pre_in, input@);
                        assert(from_set_unit(TAG_OPEN_SET, pre_in, input@, c));
                        lemma_prefix_refl(self.sink.tags@);
                        lemma_prefix_refl(self.sink.errors@);
                    }
                    match c {
                        '/' => {
                            self.state = States::StartClosingTag;
                            proof {
                                assert(tok_micro_cont(pre_t, pre_in, *self, input@));
                                lemma_tok_steps_snoc(
                                    *old(self),
                                    old(input)@,
                                    pre_t,
                                    pre_in,
                                    *self,
                                    input@,
                                );
                            }
                            return ProcessResult::Continue;
                        },
                        '>' => {
                            let ghost mid_t = *self;
                            self.emit_tag();
                            self.state = States::Document;
                            proof {
                                lemma_prefix_extend(mid_t.sink.tags@, self.sink.tags@);
                                lemma_prefix_via_subrange(mid_t.sink.errors@, self.sink.errors@);
                                lemma_prefix_trans(
                                    old(self).sink.tags@,
                                    mid_t.sink.tags@,
                                    self.sink.tags@,
                                );
                                lemma_prefix_trans(
                                    old(self).sink.errors@,
                                    mid_t.sink.errors@,
                                    self.sink.errors@,
                                );
                                assert(tag_flushed(pre_t, *self, pre_t.current_tag_self_closing));
                                assert(tok_micro_cont(pre_t, pre_in, *self, input@));
                                lemma_tok_steps_snoc(
                                    *old(self),
                                    old(input)@,
                                    pre_t,
                                    pre_in,
                                    *self,
                                    input@,
                                );
                            }
                            return ProcessResult::Continue;
                        },
                        ' ' => {
                            self.state = States::BeforeAttributeName;
                            proof {
                                assert(tok_micro_cont(pre_t, pre_in, *self, input@));
                                lemma_tok_steps_snoc(
                                    *old(self),
                                    old(input)@,
                                    pre_t,
                                    pre_in,
                                    *self,
                                    input@,
                                );
                            }
                            return ProcessResult::Continue;
                        },
                        '?' => {
                            self.state = States::ProcessingInstruction;
                            proof {
                                assert(tok_micro_cont(pre_t, pre_in, *self, input@));
                                lemma_tok_steps_snoc(
                                    *old(self),
                                    old(input)@,
                                    pre_t,
                                    pre_in,
                                    *self,
                                    input@,
                                );
                            }
                            return ProcessResult::Continue;
                        },
                        _ => {
                            proof {
                                lemma_tag_open_members(c);
                            }
                            return ProcessResult::Suspend;
                        },
                    }
                },
                Some(SetResult::NotFromSet(c)) => {
                    let ghost run = c@;
                    proof {
                        set.lemma_nonmember_prefix_bound(pre_in);
                        lemma_skip_is_suffix(pre_in, set.spec_nonmember_prefix(pre_in) as int);
                        lemma_suffix_trans(old(input)@, pre_in, input@);
                        assert(run_unit(TAG_OPEN_SET, pre_in, input@, run));
                    }
                    self.create_tag(TagKind::StartTag, c);
                    proof {
                        lemma_prefix_refl(self.sink.tags@);
                        lemma_prefix_refl(self.sink.errors@);
                        lemma_prefix_trans(old(self).sink.tags@, pre_t.sink.tags@, self.sink.tags@);
                        lemma_prefix_trans(
                            old(self).sink.errors@,
                            pre_t.sink.errors@,
                            self.sink.errors@,
                        );
                        assert(tag_created(pre_t, *self, TagKind::StartTag, run));
                        assert(tok_micro_cont(pre_t, pre_in, *self, input@));
                        lemma_tok_steps_snoc(
                            *old(self),
                            old(input)@,
                            pre_t,
                            pre_in,
                            *self,
                            input@,
                        );
                    }
                },
            }
        }
    }

    fn step_processing_instruction(&mut self, input: &mut XmlContent) -> (r: ProcessResult)
        requires
            old(self).state is ProcessingInstruction,
            !old(self).reconsume,
        ensures
            step_frame(*old(self), old(input)@, *final(self), final(input)@, r),
            r is Continue ==> tok_steps(*old(self), old(input)@, *final(self), final(input)@),
            r is Suspend ==> tok_paused(*old(self), old(input)@, *final(self), final(input)@),
    {
        proof {
            lemma_tok_steps_refl(*self, input@);
        }
        loop
            invariant
                !old(self).reconsume,
                self.state is ProcessingInstruction,
                !self.reconsume,
                input@.is_suffix_of(old(input)@),
                old(self).sink.tags@.is_prefix_of(self.sink.tags@),
                old(self).sink.errors@.is_prefix_of(self.sink.errors@),
                tok_steps(*old(self), old(input)@, *self, input@),
            decreases input@.len(),
        {
            let ghost pre_in = input@;
            let ghost pre_t = *self;
            let set = SmallCharSet::new(PROCESSING_INSTRUCTION_SET);
            match self.pop_except_from(input, set) {
                None => {
                    proof {
                        lemma_prefix_refl(self.sink.tags@);
                        lemma_prefix_refl(self.sink.errors@);
                        assert(tok_paused(*old(self), old(input)@, *self, input@));
                    }
                    return ProcessResult::Suspend;
                },
                Some(SetResult::FromSet(c)) => {
                    proof {
                        lemma_skip_is_suffix(pre_in, 1);
                        lemma_suffix_trans(old(input)@, pre_in, input@);
                        assert(from_set_unit(PROCESSING_INSTRUCTION_SET, pre_in, input@, c));
                        lemma_prefix_refl(self.sink.tags@);
                        lemma_prefix_refl(self.sink.errors@);
                    }
                    match c {
                        '>' => {
                            let ghost mid_t = *self;
                            self.emit_tag();
                            self.state = States::Document;
                            proof {
                                lemma_prefix_extend(mid_t.sink.tags@, self.sink.tags@);
                                lemma_prefix_via_subrange(mid_t.sink.errors@, self.sink.errors@);
                                lemma_prefix_trans(
                                    old(self).sink.tags@,
                                    mid_t.sink.tags@,
                                    self.sink.tags@,
                                );
                                lemma_prefix_trans(
                                    old(self).sink.errors@,
                                    mid_t.sink.errors@,
                                    self.sink.errors@,
                                );
                                assert(tag_flushed(pre_t, *self, pre_t.current_tag_self_closing));
                                assert(tok_micro_cont(pre_t, pre_in, *self, input@));
                                lemma_tok_steps_snoc(
                                    *old(self),
                                    old(input)@,
                                    pre_t,
                                    pre_in,
                                    *self,
                                    input@,
                                );
                            }
                            return ProcessResult::Continue;
                        },
                        ' ' => {
                            self.state = States::BeforeAttributeName;
                            proof {
                                assert(tok_micro_cont(pre_t, pre_in, *self, input@));
                                lemma_tok_steps_snoc(
                                    *old(self),
                                    old(input)@,
                                    pre_t,
                                    pre_in,
                                    *self,
                                    input@,
                                );
                            }
                            return ProcessResult::Continue;
                        },
                        _ => {
                            proof {
                                lemma_processing_instruction_members(c);
                            }
                            return ProcessResult::Suspend;
                        },
                    }
                },
                Some(SetResult::NotFromSet(c)) => {
                    let ghost run = c@;
                    proof {
                        set.lemma_nonmember_prefix_bound(pre_in);
                        lemma_skip_is_suffix(pre_in, set.spec_nonmember_prefix(pre_in) as int);
                        lemma_suffix_trans(old(input)@, pre_in, input@);
                        assert(run_unit(PROCESSING_INSTRUCTION_SET, pre_in, input@, run));
                        lemma_prefix_refl(self.sink.tags@);
                        lemma_prefix_refl(self.sink.errors@);
                    }
                    self.emit_tag_name(c);
                    self.state = States::TagName;
                    proof {
                        lemma_prefix_trans(old(self).sink.tags@, pre_t.sink.tags@, self.sink.tags@);
                        lemma_prefix_trans(
                            old(self).sink.errors@,
                            pre_t.sink.errors@,
                            self.sink.errors@,
                        );
                        assert(tag_renamed(pre_t, *self, run));
                        assert(tok_micro_cont(pre_t, pre_in, *self, input@));
                        lemma_tok_steps_snoc(
                            *old(self),
                            old(input)@,
                            pre_t,
                            pre_in,
                            *self,
                            input@,
                        );
                    }
                    return ProcessResult::Continue;
                },
            }
        }
    }

    fn step_start_closing_tag(&mut self, input: &mut XmlContent) -> (r: ProcessResult)
        requires
            old(self).state is StartClosingTag,
            !old(self).reconsume,
        ensures
            step_frame(*old(self), old(input)@, *final(self), final(input)@, r),
            r is Continue ==> tok_steps(*old(self), old(input)@, *final(self), final(input)@),
            r is Suspend ==> tok_paused(*old(self), old(input)@, *final(self), final(input)@),
    {
        proof {
            lemma_tok_steps_refl(*self, input@);
        }
        loop
            invariant
                !old(self).reconsume,
                self.state is StartClosingTag,
                !self.reconsume,
                input@.is_suffix_of(old(input)@),
                old(self).sink.tags@.is_prefix_of(self.sink.tags@),
                old(self).sink.errors@.is_prefix_of(self.sink.errors@),
                tok_steps(*old(self), old(input)@, *self, input@),
            decreases input@.len(),
        {
            let ghost pre_in = input@;
            let ghost pre_t = *self;
            let set = SmallCharSet::new(START_CLOSING_TAG_SET);
            match self.pop_except_from(input, set) {
                None => {
                    proof {
                        lemma_prefix_refl(self.sink.tags@);
                        lemma_prefix_refl(self.sink.errors@);
                        assert(tok_paused(*old(self), old(input)@, *self, input@));
                    }
                    return ProcessResult::Suspend;
                },
                Some(SetResult::FromSet(c)) => {
                    proof {
                        lemma_skip_is_suffix(pre_in, 1);
                        lemma_suffix_trans(old(input)@, pre_in, input@);
                        assert(from_set_unit(START_CLOSING_TAG_SET, pre_in, input@, c));
                        lemma_prefix_refl(self.sink.tags@);
                        lemma_prefix_refl(self.sink.errors@);
                    }
                    match c {
                        '>' => {
                            self.set_self_closing();
                            let ghost mid_t = *self;
                            self.emit_tag();
                            self.state = States::Document;
                            proof {
                                lemma_prefix_extend(mid_t.sink.tags@, self.sink.tags@);
                                lemma_prefix_via_subrange(mid_t.sink.errors@, self.sink.errors@);
                                lemma_prefix_trans(
                                    old(self).sink.tags@,
                                    mid_t.sink.tags@,
                                    self.sink.tags@,
                                );
                                lemma_prefix_trans(
                                    old(self).sink.errors@,
                                    mid_t.sink.errors@,
                                    self.sink.errors@,
                                );
                                assert(tag_flushed(pre_t, *self, true));
                                assert(tok_micro_cont(pre_t, pre_in, *self, input@));
                                lemma_tok_steps_snoc(
                                    *old(self),
                                    old(input)@,
                                    pre_t,
                                    pre_in,
                                    *self,
                                    input@,
                                );
                            }
                            return ProcessResult::Continue;
                        },
                        _ => {
                            proof {
                                lemma_start_closing_tag_members(c);
                            }
                            return ProcessResult::Suspend;
                        },
                    }
                },
                Some(SetResult::NotFromSet(c)) => {
                    let ghost run = c@;
                    proof {
                        set.lemma_nonmember_prefix_bound(pre_in);
                        lemma_skip_is_suffix(pre_in, set.spec_nonmember_prefix(pre_in) as int);
                        lemma_suffix_trans(old(input)@, pre_in, input@);
                        assert(run_unit(START_CLOSING_TAG_SET, pre_in, input@, run));
                        lemma_prefix_refl(self.sink.tags@);
                        lemma_prefix_refl(self.sink.errors@);
                    }
                    self.create_tag(TagKind::EndTag, c);
                    self.state = States::Document;
                    proof {
                        lemma_prefix_trans(old(self).sink.tags@, pre_t.sink.tags@, self.sink.tags@);
                        lemma_prefix_trans(
                            old(self).sink.errors@,
                            pre_t.sink.errors@,
                            self.sink.errors@,
                        );
                        assert(tag_created(pre_t, *self, TagKind::EndTag, run));
                        assert(tok_micro_cont(pre_t, pre_in, *self, input@));
                        lemma_tok_steps_snoc(
                            *old(self),
                            old(input)@,
                            pre_t,
                            pre_in,
                            *self,
                            input@,
                        );
                    }
                    return ProcessResult::Continue;
                },
            }
        }
    }

    fn step_tag_name(&mut self, input: &mut XmlContent) -> (r: ProcessResult)
        requires
            old(self).state is TagName,
            !old(self).reconsume,
        ensures
            step_frame(*old(self), old(input)@, *final(self), final(input)@, r),
            r is Continue ==> tok_steps(*old(self), old(input)@, *final(self), final(input)@),
            r is Suspend ==> tok_paused(*old(self), old(input)@, *final(self), final(input)@),
    {
        proof {
            lemma_tok_steps_refl(*self, input@);
        }
        loop
            invariant
                !old(self).reconsume,
                self.state is TagName,
                !self.reconsume,
                input@.is_suffix_of(old(input)@),
                old(self).sink.tags@.is_prefix_of(self.sink.tags@),
                old(self).sink.errors@.is_prefix_of(self.sink.errors@),
                tok_steps(*old(self), old(input)@, *self, input@),
            decreases input@.len(),
        {
            let ghost pre_in = input@;
            let ghost pre_t = *self;
            let set = SmallCharSet::new(TAG_NAME_SET);
            match self.pop_except_from(input, set) {
                None => {
                    proof {
                        lemma_prefix_refl(self.sink.tags@);
                        lemma_prefix_refl(self.sink.errors@);
                        assert(tok_paused(*old(self), old(input)@, *self, input@));
                    }
                    return ProcessResult::Suspend;
                },
                Some(SetResult::FromSet(c)) => {
                    proof {
                        lemma_skip_is_suffix(pre_in, 1);
                        lemma_suffix_trans(old(input)@, pre_in, input@);
                        assert(from_set_unit(TAG_NAME_SET, pre_in, input@, c));
                        lemma_prefix_refl(self.sink.tags@);
                        lemma_prefix_refl(self.sink.errors@);
                    }
                    match c {
                        '/' => {
                            self.current_tag_self_closing = true;
                            proof {
                                assert(self_closing_raised(pre_t, *self));
                                assert(tok_micro_cont(pre_t, pre_in, *self, input@));
                                lemma_tok_steps_snoc(
                                    *old(self),
                                    old(input)@,
                                    pre_t,
                                    pre_in,
                                    *self,
                                    input@,
                                );
                            }
                        },
                        '>' => {
                            let ghost mid_t = *self;
                            self.emit_tag();
                            self.state = States::Document;
                            proof {
                                lemma_prefix_extend(mid_t.sink.tags@, self.sink.tags@);
                                lemma_prefix_via_subrange(mid_t.sink.errors@, self.sink.errors@);
                                lemma_prefix_trans(
                                    old(self).sink.tags@,
                                    mid_t.sink.tags@,
                                    self.sink.tags@,
                                );
                                lemma_prefix_trans(
                                    old(self).sink.errors@,
                                    mid_t.sink.errors@,
                                    self.sink.errors@,
                                );
                                assert(tag_flushed(pre_t, *self, pre_t.current_tag_self_closing));
                                assert(tok_micro_cont(pre_t, pre_in, *self, input@));
                                lemma_tok_steps_snoc(
                                    *old(self),
                                    old(input)@,
                                    pre_t,
                                    pre_in,
                                    *self,
                                    input@,
                                );
                            }
                            return ProcessResult::Continue;
                        },
                        ' ' | '\n' | '\t' => {
                            self.state = States::BeforeAttributeName;
                            proof {
                                assert(tok_micro_cont(pre_t, pre_in, *self, input@));
                                lemma_tok_steps_snoc(
                                    *old(self),
                                    old(input)@,
                                    pre_t,
                                    pre_in,
                                    *self,
                                    input@,
                                );
                            }
                            return ProcessResult::Continue;
                        },
                        _ => {
                            proof {
                                lemma_tag_name_members(c);
                            }
                            return ProcessResult::Suspend;
                        },
                    }
                },
                Some(SetResult::NotFromSet(_c)) => {
                    let ghost run = _c@;
                    proof {
                        set.lemma_nonmember_prefix_bound(pre_in);
                        lemma_skip_is_suffix(pre_in, set.spec_nonmember_prefix(pre_in) as int);
                        lemma_suffix_trans(old(input)@, pre_in, input@);
                        lemma_prefix_refl(self.sink.tags@);
                        lemma_prefix_refl(self.sink.errors@);
                        assert(run_unit(TAG_NAME_SET, pre_in, input@, run));
                        assert(tok_micro_sus(pre_t, pre_in, *self, input@));
                        assert(tok_steps(*old(self), old(input)@, pre_t, pre_in));
                        assert(tok_paused(*old(self), old(input)@, *self, input@));
                    }
                    return ProcessResult::Suspend;
                },
            }
        }
    }

    fn step_before_attribute_name(&mut self, input: &mut XmlContent) -> (r: ProcessResult)
        requires
            old(self).state is BeforeAttributeName,
            !old(self).reconsume,
        ensures
            step_frame(*old(self), old(input)@, *final(self), final(input)@, r),
            r is Continue ==> tok_steps(*old(self), old(input)@, *final(self), final(input)@),
            r is Suspend ==> tok_paused(*old(self), old(input)@, *final(self), final(input)@),
    {
        proof {
            lemma_tok_steps_refl(*self, input@);
        }
        loop
            invariant
                !old(self).reconsume,
                self.state is BeforeAttributeName,
                !self.reconsume,
                input@.is_suffix_of(old(input)@),
                old(self).sink.tags@.is_prefix_of(self.sink.tags@),
                old(self).sink.errors@.is_prefix_of(self.sink.errors@),
                tok_steps(*old(self), old(input)@, *self, input@),
            decreases input@.len(),
        {
            let ghost pre_in = input@;
            let ghost pre_t = *self;
            let set = SmallCharSet::new(BEFORE_ATTRIBUTE_NAME_SET);
            match self.pop_except_from(input, set) {
                None => {
                    proof {
                        lemma_prefix_refl(self.sink.tags@);
                        lemma_prefix_refl(self.sink.errors@);
                        assert(tok_paused(*old(self), old(input)@, *self, input@));
                    }
                    return ProcessResult::Suspend;
                },
                Some(SetResult::FromSet(c)) => {
                    proof {
                        lemma_skip_is_suffix(pre_in, 1);
                        lemma_suffix_trans(old(input)@, pre_in, input@);
                        assert(from_set_unit(BEFORE_ATTRIBUTE_NAME_SET, pre_in, input@, c));
                        lemma_prefix_refl(self.sink.tags@);
                        lemma_prefix_refl(self.sink.errors@);
                    }
                    match c {
                        '=' => {
                            self.state = States::StartAttributeValue;
                            proof {
                                assert(tok_micro_cont(pre_t, pre_in, *self, input@));
                                lemma_tok_steps_snoc(
                                    *old(self),
                                    old(input)@,
                                    pre_t,
                                    pre_in,
                                    *self,
                                    input@,
                                );
                            }
                            return ProcessResult::Continue;
                        },
                        '/' => {
                            self.state = States::StartClosingTag;
                            proof {
                                assert(tok_micro_cont(pre_t, pre_in, *self, input@));
                                lemma_tok_steps_snoc(
                                    *old(self),
                                    old(input)@,
                                    pre_t,
                                    pre_in,
                                    *self,
                                    input@,
                                );
                            }
                            return ProcessResult::Continue;
                        },
                        '>' => {
                            let ghost mid_t = *self;
                            self.emit_tag();
                            self.state = States::Document;
                            proof {
                                lemma_prefix_extend(mid_t.sink.tags@, self.sink.tags@);
                                lemma_prefix_via_subrange(mid_t.sink.errors@, self.sink.errors@);
                                lemma_prefix_trans(
                                    old(self).sink.tags@,
                                    mid_t.sink.tags@,
                                    self.sink.tags@,
                                );
                                lemma_prefix_trans(
                                    old(self).sink.errors@,
                                    mid_t.sink.errors@,
                                    self.sink.errors@,
                                );
                                assert(tag_flushed(pre_t, *self, pre_t.current_tag_self_closing));
                                assert(tok_micro_cont(pre_t, pre_in, *self, input@));
                                lemma_tok_steps_snoc(
                                    *old(self),
                                    old(input)@,
                                    pre_t,
                                    pre_in,
                                    *self,
                                    input@,
                                );
                            }
                            return ProcessResult::Continue;
                        },
                        '?' => {
                            self.state = States::ProcessingInstruction;
                            proof {
                                assert(tok_micro_cont(pre_t, pre_in, *self, input@));
                                lemma_tok_steps_snoc(
                                    *old(self),
                                    old(input)@,
                                    pre_t,
                                    pre_in,
                                    *self,
                                    input@,
                                );
                            }
                            return ProcessResult::Continue;
                        },
                        ' ' => {
                            proof {
                                assert(tok_micro_cont(pre_t, pre_in, *self, input@));
                                lemma_tok_steps_snoc(
                                    *old(self),
                                    old(input)@,
                                    pre_t,
                                    pre_in,
                                    *self,
                                    input@,
                                );
                            }
                        },
                        _ => {
                            proof {
                                lemma_before_attribute_name_members(c);
                            }
                            return ProcessResult::Suspend;
                        },
                    }
                },
                Some(SetResult::NotFromSet(c)) => {
                    let ghost run = c@;
                    proof {
                        set.lemma_nonmember_prefix_bound(pre_in);
                        lemma_skip_is_suffix(pre_in, set.spec_nonmember_prefix(pre_in) as int);
                        lemma_suffix_trans(old(input)@, pre_in, input@);
                        assert(run_unit(BEFORE_ATTRIBUTE_NAME_SET, pre_in, input@, run));
                        lemma_prefix_refl(self.sink.tags@);
                        lemma_prefix_refl(self.sink.errors@);
                    }
                    self.emit_attribute_name(c);
                    proof {
                        lemma_prefix_trans(old(self).sink.tags@, pre_t.sink.tags@, self.sink.tags@);
                        lemma_prefix_trans(
                            old(self).sink.errors@,
                            pre_t.sink.errors@,
                            self.sink.errors@,
                        );
                        assert(attr_name_set(pre_t, *self, run));
                        assert(tok_micro_cont(pre_t, pre_in, *self, input@));
                        lemma_tok_steps_snoc(
                            *old(self),
                            old(input)@,
                            pre_t,
                            pre_in,
                            *self,
                            input@,
                        );
                    }
                },
            }
        }
    }

    fn step_start_attribute_value(&mut self, input: &mut XmlContent) -> (r: ProcessResult)
        requires
            old(self).state is StartAttributeValue,
            !old(self).reconsume,
        ensures
            step_frame(*old(self), old(input)@, *final(self), final(input)@, r),
            r is Continue ==> tok_steps(*old(self), old(input)@, *final(self), final(input)@),
            r is Suspend ==> tok_paused(*old(self), old(input)@, *final(self), final(input)@),
    {
        proof {
            lemma_tok_steps_refl(*self, input@);
        }
        let ghost pre_in = input@;
        let ghost pre_t = *self;
        match input.next() {
            Some(c) => {
                proof {
                    lemma_skip_is_suffix(pre_in, 1);
                }
                if c == '"' || c == '\'' {
                    self.state = States::AttributeValue;
                    proof {
                        lemma_prefix_refl(self.sink.tags@);
                        lemma_prefix_refl(self.sink.errors@);
                        assert(tok_micro_cont(pre_t, pre_in, *self, input@));
                        lemma_tok_steps_snoc(
                            *old(self),
                            old(input)@,
                            pre_t,
                            pre_in,
                            *self,
                            input@,
                        );
                    }
                    ProcessResult::Continue
                } else {
                    self.bad_char_error();
                    self.state = States::Document;
                    proof {
                        lemma_prefix_refl(self.sink.tags@);
                        lemma_prefix_extend(old(self).sink.errors@, self.sink.errors@);
                        assert(bad_char_logged(pre_t, *self));
                        assert(tok_micro_cont(pre_t, pre_in, *self, input@));
                        lemma_tok_steps_snoc(
                            *old(self),
                            old(input)@,
                            pre_t,
                            pre_in,
                            *self,
                            input@,
                        );
                    }
                    ProcessResult::Continue
                }
            },
            None => {
                self.bad_char_error();
                self.state = States::Document;
                proof {
                    lemma_prefix_refl(input@);
                    lemma_prefix_refl(self.sink.tags@);
                    lemma_prefix_extend(old(self).sink.errors@, self.sink.errors@);
                    assert(input@ =~= old(input)@.subrange(0, old(input)@.len() as int));
                    assert(bad_char_logged(pre_t, *self));
                    assert(tok_micro_cont(pre_t, pre_in, *self, input@));
                    lemma_tok_steps_snoc(*old(self), old(input)@, pre_t, pre_in, *self, input@);
                }
                ProcessResult::Continue
            },
        }
    }

    fn step_attribute_value(&mut self, input: &mut XmlContent) -> (r: ProcessResult)
        requires
            old(self).state is AttributeValue,
            !old(self).reconsume,
        ensures
            step_frame(*old(self), old(input)@, *final(self), final(input)@, r),
            r is Continue ==> tok_steps(*old(self), old(input)@, *final(self), final(input)@),
            r is Suspend ==> tok_paused(*old(self), old(input)@, *final(self), final(input)@),
    {
        proof {
            lemma_tok_steps_refl(*self, input@);
        }
        loop
            invariant
                !old(self).reconsume,
                self.state is AttributeValue,
                !self.reconsume,
                input@.is_suffix_of(old(input)@),
                old(self).sink.tags@.is_prefix_of(self.sink.tags@),
                old(self).sink.errors@.is_prefix_of(self.sink.errors@),
                tok_steps(*old(self), old(input)@, *self, input@),
            decreases input@.len(),
        {
            let ghost pre_in = input@;
            let ghost pre_t = *self;
            let set = SmallCharSet::new(ATTRIBUTE_VALUE_SET);
            match self.pop_except_from(input, set) {
                None => {
                    proof {
                        lemma_prefix_refl(self.sink.tags@);
                        lemma_prefix_refl(self.sink.errors@);
                        assert(tok_paused(*old(self), old(input)@, *self, input@));
                    }
                    return ProcessResult::Suspend;
                },
                Some(SetResult::FromSet(c)) => {
                    proof {
                        lemma_skip_is_suffix(pre_in, 1);
                        lemma_suffix_trans(old(input)@, pre_in, input@);
                        assert(from_set_unit(ATTRIBUTE_VALUE_SET, pre_in, input@, c));
                        lemma_prefix_refl(self.sink.tags@);
                        lemma_prefix_refl(self.sink.errors@);
                    }
                    match c {
                        '"' | '\'' => {
                            self.emit_attribute();
                            self.state = States::BeforeAttributeName;
                            proof {
                                lemma_prefix_trans(
                                    old(self).sink.tags@,
                                    pre_t.sink.tags@,
                                    self.sink.tags@,
                                );
                                lemma_prefix_trans(
                                    old(self).sink.errors@,
                                    pre_t.sink.errors@,
                                    self.sink.errors@,
                                );
                                assert(attr_pushed(pre_t, *self));
                                assert(tok_micro_cont(pre_t, pre_in, *self, input@));
                                lemma_tok_steps_snoc(
                                    *old(self),
                                    old(input)@,
                                    pre_t,
                                    pre_in,
                                    *self,
                                    input@,
                                );
                            }
                            return ProcessResult::Continue;
                        },
                        ' ' => {
                            self.state = States::BeforeAttributeName;
                            proof {
                                assert(tok_micro_cont(pre_t, pre_in, *self, input@));
                                lemma_tok_steps_snoc(
                                    *old(self),
                                    old(input)@,
                                    pre_t,
                                    pre_in,
                                    *self,
                                    input@,
                                );
                            }
                            return ProcessResult::Continue;
                        },
                        _ => {
                            proof {
                                lemma_attribute_value_members(c);
                            }
                            return ProcessResult::Suspend;
                        },
                    }
                },
                Some(SetResult::NotFromSet(c)) => {
                    let ghost run = c@;
                    proof {
                        set.lemma_nonmember_prefix_bound(pre_in);
                        lemma_skip_is_suffix(pre_in, set.spec_nonmember_prefix(pre_in) as int);
                        lemma_suffix_trans(old(input)@, pre_in, input@);
                        assert(run_unit(ATTRIBUTE_VALUE_SET, pre_in, input@, run));
                        lemma_prefix_refl(self.sink.tags@);
                        lemma_prefix_refl(self.sink.errors@);
                    }
                    self.emit_attribute_value(c);
                    proof {
                        lemma_prefix_trans(old(self).sink.tags@, pre_t.sink.tags@, self.sink.tags@);
                        lemma_prefix_trans(
                            old(self).sink.errors@,
                            pre_t.sink.errors@,
                            self.sink.errors@,
                        );
                        assert(attr_value_set(pre_t, *self, run));
                        assert(tok_micro_cont(pre_t, pre_in, *self, input@));
                        lemma_tok_steps_snoc(
                            *old(self),
                            old(input)@,
                            pre_t,
                            pre_in,
                            *self,
                            input@,
                        );
                    }
                },
            }
        }
    }

    fn step_passage(&mut self, input: &mut XmlContent) -> (r: ProcessResult)
        requires
            old(self).state is Passage,
            !old(self).reconsume,
        ensures
            step_frame(*old(self), old(input)@, *final(self), final(input)@, r),
            r is Continue ==> tok_steps(*old(self), old(input)@, *final(self), final(input)@),
            r is Suspend ==> tok_paused(*old(self), old(input)@, *final(self), final(input)@),
    {
        proof {
            lemma_tok_steps_refl(*self, input@);
        }
        let ghost pre_in = input@;
        let ghost pre_t = *self;
        let set = SmallCharSet::new(PASSAGE_SET);
        match self.pop_except_from(input, set) {
            None => {
                proof {
                    lemma_prefix_refl(self.sink.tags@);
                    lemma_prefix_refl(self.sink.errors@);
                    assert(input@ =~= old(input)@.subrange(0, old(input)@.len() as int));
                    assert(tok_paused(*old(self), old(input)@, *self, input@));
                }
                ProcessResult::Suspend
            },
            Some(SetResult::FromSet(c)) => {
                proof {
                    lemma_skip_is_suffix(pre_in, 1);
                    lemma_prefix_refl(self.sink.tags@);
                    lemma_prefix_refl(self.sink.errors@);
                    assert(from_set_unit(PASSAGE_SET, pre_in, input@, c));
                }
                match c {
                    '<' => {
                        self.state = States::TagOpen;
                        proof {
                            assert(tok_micro_cont(pre_t, pre_in, *self, input@));
                            lemma_tok_steps_snoc(
                                *old(self),
                                old(input)@,
                                pre_t,
                                pre_in,
                                *self,
                                input@,
                            );
                        }
                        ProcessResult::Continue
                    },
                    _ => {
                        proof {
                            lemma_passage_members(c);
                        }
                        ProcessResult::Suspend
                    },
                }
            },
            Some(SetResult::NotFromSet(c)) => {
                let ghost run = c@;
                proof {
                    set.lemma_nonmember_prefix_bound(pre_in);
                    lemma_skip_is_suffix(pre_in, set.spec_nonmember_prefix(pre_in) as int);
                    assert(run_unit(PASSAGE_SET, pre_in, input@, run));
                }
                self.emit_passage(c);
                proof {
                    lemma_prefix_refl(self.sink.tags@);
                    lemma_prefix_refl(self.sink.errors@);
                    assert(passage_grew(pre_t, *self, run));
                    assert(tok_micro_cont(pre_t, pre_in, *self, input@));
                    lemma_tok_steps_snoc(*old(self), old(input)@, pre_t, pre_in, *self, input@);
                }
                ProcessResult::Continue
            },
        }
    }
}

/// How far a state is from the quiescent `Document` state for the purpose of
/// termination: only the attribute-value recovery path can continue without
/// consuming input, and it always lands in `Document`.
pub open spec fn state_rank(s: States) -> int {
    if s is StartAttributeValue {
        1
    } else {
        0
    }
}


/// Clean suspension: a machine paused over an empty queue (in any state
/// but the attribute-value recovery state, which always acts) is exactly
/// the machine that went in — nothing was emitted, no accumulator moved,
/// and a later refill resumes where it left off.
pub proof fn lemma_pause_on_empty(pre: Tokenizer, post: Tokenizer, post_in: Seq<char>)
    requires
        tok_paused(pre, Seq::<char>::empty(), post, post_in),
        !(pre.state is StartAttributeValue),
    ensures
        post == pre,
        post_in == Seq::<char>::empty(),
{
    let (mid, mid_in): (Tokenizer, Seq<char>) = choose|mid: Tokenizer, mid_in: Seq<char>|
        #[trigger] tok_steps(pre, Seq::<char>::empty(), mid, mid_in) && ((mid_in.len() == 0 && !(
        mid.state is StartAttributeValue) && post == mid && post_in == mid_in) || tok_micro_sus(
            mid,
            mid_in,
            post,
            post_in,
        ));
    let n = choose|n: nat| tok_steps_n(n, pre, Seq::<char>::empty(), mid, mid_in);
    if n > 0 {
        let (m2, in2): (Tokenizer, Seq<char>) = choose|m2: Tokenizer, in2: Seq<char>|
            #[trigger] tok_micro_cont(pre, Seq::<char>::empty(), m2, in2) && tok_steps_n(
                (n - 1) as nat,
                m2,
                in2,
                mid,
                mid_in,
            );
        assert(false);
    }
    assert(mid == pre && mid_in == Seq::<char>::empty());
    if tok_micro_sus(mid, mid_in, post, post_in) {
        assert(false);
    }
}

/// A machine as `Tokenizer::new` hands it out, over the given sink.
pub open spec fn tok_fresh(t: Tokenizer, sink: Sink) -> bool {
    &&& t.sink == sink
    &&& t.state is Document
    &&& t.current_char == '\0'
    &&& t.current_line == 1
    &&& t.current_tag_name@ == Seq::<char>::empty()
    &&& t.current_tag_attrs@ == Seq::<Attribute>::empty()
    &&& t.current_tag_self_closing == false
    &&& t.current_attr_name@ == Seq::<char>::empty()
    &&& t.current_attr_value@ == Seq::<char>::empty()
    &&& t.passage@ == Seq::<char>::empty()
    &&& !t.reconsume
    &&& t.current_tag_kind is StartTag
    &&& t.last_start_tag is None
}

/// A fresh machine over a fresh sink.
pub open spec fn tok_boot(t: Tokenizer) -> bool {
    &&& tok_fresh(t, t.sink)
    &&& t.sink.line_number == 1
    &&& t.sink.errors@ == Seq::<String>::empty()
    &&& t.sink.tags@ == Seq::<Tag>::empty()
}

/// One feeding: the machine is driven to a pause over the buffer, or left
/// untouched when the buffer is empty.
pub open spec fn tok_fed_one(t0: Tokenizer, buf: Seq<char>, tm: Tokenizer, lm: Seq<char>) -> bool {
    if buf.len() == 0 {
        tm == t0 && lm == buf
    } else {
        tok_paused(t0, buf, tm, lm)
    }
}

/// The machine fed chunk after chunk: each feeding drives it to a pause
/// over the previous leftover extended with the next chunk.
pub open spec fn tok_fed_chunks(
    t0: Tokenizer,
    pending: Seq<char>,
    chunks: Seq<Seq<char>>,
    t1: Tokenizer,
    leftover: Seq<char>,
) -> bool
    decreases chunks.len(),
{
    if chunks.len() == 0 {
        t1 == t0 && leftover == pending
    } else {
        exists|tm: Tokenizer, lm: Seq<char>|
            #[trigger] tok_fed_one(t0, pending + chunks[0], tm, lm) && tok_fed_chunks(
                tm,
                lm,
                chunks.skip(1),
                t1,
                leftover,
            )
    }
}

proof fn lemma_fed_chunks_snoc(
    t0: Tokenizer,
    pending: Seq<char>,
    chunks: Seq<Seq<char>>,
    t1: Tokenizer,
    leftover: Seq<char>,
    x: Seq<char>,
    t2: Tokenizer,
    l2: Seq<char>,
)
    requires
        tok_fed_chunks(t0, pending, chunks, t1, leftover),
        tok_fed_one(t1, leftover + x, t2, l2),
    ensures
        tok_fed_chunks(t0, pending, chunks.push(x), t2, l2),
    decreases chunks.len(),
{
    let cs2 = chunks.push(x);
    if chunks.len() == 0 {
        assert(cs2[0] == x);
        assert(cs2.skip(1) =~= Seq::<Seq<char>>::empty());
        assert(tok_fed_one(t0, pending + cs2[0], t2, l2));
        assert(tok_fed_chunks(t2, l2, cs2.skip(1), t2, l2));
    } else {
        let (tm, lm): (Tokenizer, Seq<char>) = choose|tm: Tokenizer, lm: Seq<char>|
            #[trigger] tok_fed_one(t0, pending + chunks[0], tm, lm) && tok_fed_chunks(
                tm,
                lm,
                chunks.skip(1),
                t1,
                leftover,
            );
        lemma_fed_chunks_snoc(tm, lm, chunks.skip(1), t1, leftover, x, t2, l2);
        assert(cs2.skip(1) =~= chunks.skip(1).push(x));
        assert(cs2[0] == chunks[0]);
        assert(tok_fed_one(t0, pending + cs2[0], tm, lm) && tok_fed_chunks(
            tm,
            lm,
            cs2.skip(1),
            t2,
            l2,
        ));
    }
}

impl Tokenizer {
    /// Feed every chunk in order and return the sink with everything that
    /// was tokenized: the machine, started fresh over the given sink, is
    /// driven to a pause over each chunk in turn.
    pub fn tokenize(input: Vec<String>, sink: Sink) -> (r: Sink)
        ensures
            sink.tags@.is_prefix_of(r.tags@),
            sink.errors@.is_prefix_of(r.errors@),
            exists|t0: Tokenizer, t1: Tokenizer, leftover: Seq<char>, cviews: Seq<Seq<char>>|
                {
                    &&& tok_fresh(t0, sink)
                    &&& cviews == input@.map_values(|s: String| s@)
                    &&& #[trigger] tok_fed_chunks(t0, Seq::<char>::empty(), cviews, t1, leftover)
                    &&& r == t1.sink
                },
    {
        let mut tok = Tokenizer::new(sink);
        let ghost t0 = tok;
        let ghost chunks = input@.map_values(|s: String| s@);
        let mut xml_content = XmlContent::new();
        proof {
            lemma_prefix_refl(tok.sink.tags@);
            lemma_prefix_refl(tok.sink.errors@);
            assert(chunks.take(0) =~= Seq::<Seq<char>>::empty());
        }
        let n = input.len();
        let mut i: usize = 0;
        while i < n
            invariant
                i <= n,
                n == input@.len(),
                chunks == input@.map_values(|s: String| s@),
                !tok.reconsume,
                tok_fresh(t0, sink),
                sink.tags@.is_prefix_of(tok.sink.tags@),
                sink.errors@.is_prefix_of(tok.sink.errors@),
                tok_fed_chunks(t0, Seq::<char>::empty(), chunks.take(i as int), tok, xml_content@),
            decreases n - i,
        {
            let ghost pre_t = tok;
            let ghost pre_left = xml_content@;
            let chunk = input[i].clone();
            xml_content.push_back(chunk);
            let _ = tok.feed(&mut xml_content);
            proof {
                lemma_prefix_trans(sink.tags@, pre_t.sink.tags@, tok.sink.tags@);
                lemma_prefix_trans(sink.errors@, pre_t.sink.errors@, tok.sink.errors@);
                assert(chunks[i as int] == input@[i as int]@);
                assert(tok_fed_one(pre_t, pre_left + chunks[i as int], tok, xml_content@));
                lemma_fed_chunks_snoc(
                    t0,
                    Seq::<char>::empty(),
                    chunks.take(i as int),
                    pre_t,
                    pre_left,
                    chunks[i as int],
                    tok,
                    xml_content@,
                );
                assert(chunks.take(i + 1) =~= chunks.take(i as int).push(chunks[i as int]));
            }
            i = i + 1;
        }
        proof {
            assert(chunks.take(chunks.len() as int) =~= chunks);
        }
        tok.end()
    }

    /// Drive the state machine over whatever the queue holds; `Done` when
    /// the queue was empty to begin with, otherwise the machine processes
    /// the queue to a pause.
    pub fn feed(&mut self, xml_content: &mut XmlContent) -> (r: TokenizerResult)
        requires
            !old(self).reconsume,
        ensures
            !final(self).reconsume,
            final(xml_content)@.is_suffix_of(old(xml_content)@),
            old(self).sink.tags@.is_prefix_of(final(self).sink.tags@),
            old(self).sink.errors@.is_prefix_of(final(self).sink.errors@),
            old(xml_content)@.len() == 0 ==> r == TokenizerResult::Done && *final(self) == *old(
                self,
            ) && final(xml_content)@ == old(xml_content)@,
            old(xml_content)@.len() > 0 ==> r == TokenizerResult::Success && tok_paused(
                *old(self),
                old(xml_content)@,
                *final(self),
                final(xml_content)@,
            ),
    {
        if xml_content.is_empty() {
            proof {
                lemma_prefix_refl(self.sink.tags@);
                lemma_prefix_refl(self.sink.errors@);
                assert(xml_content@ =~= old(xml_content)@.subrange(
                    0,
                    old(xml_content)@.len() as int,
                ));
            }
            return TokenizerResult::Done;
        }
        self.process(xml_content)
    }

    /// Signal the end of input: the sink, with every queued tag and every
    /// recorded error, is handed back.
    pub fn end(self) -> (r: Sink)
        ensures
            r == self.sink,
    {
        self.sink
    }

    /// Run the state machine until it suspends: the machine takes units of
    /// input exactly as the state table reads, until the queue runs dry or
    /// a suspending unit is consumed.
    pub fn process(&mut self, input: &mut XmlContent) -> (r: TokenizerResult)
        requires
            !old(self).reconsume,
        ensures
            r == TokenizerResult::Success,
            !final(self).reconsume,
            final(input)@.is_suffix_of(old(input)@),
            old(self).sink.tags@.is_prefix_of(final(self).sink.tags@),
            old(self).sink.errors@.is_prefix_of(final(self).sink.errors@),
            tok_paused(*old(self), old(input)@, *final(self), final(input)@),
    {
        proof {
            lemma_prefix_refl(self.sink.tags@);
            lemma_prefix_refl(self.sink.errors@);
            lemma_tok_steps_refl(*self, input@);
            assert(input@ =~= old(input)@.subrange(0, old(input)@.len() as int));
        }
        loop
            invariant
                !old(self).reconsume,
                !self.reconsume,
                input@.is_suffix_of(old(input)@),
                old(self).sink.tags@.is_prefix_of(self.sink.tags@),
                old(self).sink.errors@.is_prefix_of(self.sink.errors@),
                tok_steps(*old(self), old(input)@, *self, input@),
            decreases input@.len(), state_rank(self.state),
        {
            let ghost pre_in = input@;
            let ghost pre_t = *self;
            match self.step(input) {
                ProcessResult::Continue => {
                    proof {
                        lemma_suffix_trans(old(input)@, pre_in, input@);
                        lemma_prefix_trans(
                            old(self).sink.tags@,
                            pre_t.sink.tags@,
                            self.sink.tags@,
                        );
                        lemma_prefix_trans(
                            old(self).sink.errors@,
                            pre_t.sink.errors@,
                            self.sink.errors@,
                        );
                        lemma_tok_steps_trans(
                            *old(self),
                            old(input)@,
                            pre_t,
                            pre_in,
                            *self,
                            input@,
                        );
                    }
                },
                ProcessResult::Suspend => {
                    proof {
                        lemma_suffix_trans(old(input)@, pre_in, input@);
                        lemma_prefix_trans(
                            old(self).sink.tags@,
                            pre_t.sink.tags@,
                            self.sink.tags@,
                        );
                        lemma_prefix_trans(
                            old(self).sink.errors@,
                            pre_t.sink.errors@,
                            self.sink.errors@,
                        );
                        lemma_tok_paused_left(
                            *old(self),
                            old(input)@,
                            pre_t,
                            pre_in,
                            *self,
                            input@,
                        );
                    }
                    return TokenizerResult::Success;
                },
            }
        }
    }

    /// One step of the state machine in the current state: on `Continue`
    /// the consumed units were processed as the state table reads; on
    /// `Suspend` the machine came to a pause.
    pub fn step(&mut self, input: &mut XmlContent) -> (r: ProcessResult)
        requires
            !old(self).reconsume,
        ensures
            step_frame(*old(self), old(input)@, *final(self), final(input)@, r),
            r is Continue ==> tok_steps(*old(self), old(input)@, *final(self), final(input)@),
            r is Suspend ==> tok_paused(*old(self), old(input)@, *final(self), final(input)@),
    {
        match self.state {
            States::Document => self.step_document(input),
            States::TagOpen => self.step_tag_open(input),
            States::ProcessingInstruction => self.step_processing_instruction(input),
            States::StartClosingTag => self.step_start_closing_tag(input),
            States::TagName => self.step_tag_name(input),
            States::BeforeAttributeName => self.step_before_attribute_name(input),
            States::StartAttributeValue => self.step_start_attribute_value(input),
            States::AttributeValue => self.step_attribute_value(input),
            States::Passage => self.step_passage(input),
        }
    }
}

} // verus!
