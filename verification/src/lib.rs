//! An interactive question-paper engine.
//!
//! An exam paper arrives as one XML document.  A streaming tokenizer turns the
//! text into a stream of tags, a modal builder folds the tags into a flat
//! arena of typed nodes, and an intent resolver moves a cursor through the
//! arena, marking and skipping questions and attaching notes.

pub mod builder;
pub mod charset;
pub mod errors;
pub mod state;
pub mod intent;
pub mod intent_parser;
pub mod nlu;
pub mod node;
pub mod paper;
pub mod section_builder;
pub mod sink;
pub mod states;
pub mod tag;
pub mod text;
pub mod tokenizer;
pub mod xml_content;

pub use builder::QPaperBuilder;
pub use intent::{Intent, IntentResult};
pub use node::Builder;
pub use paper::QuestionPaper;
pub use tag::Tag;

use vstd::prelude::*;

use crate::builder::{builder_runs, lemma_builder_runs_snoc, lemma_stepped_preserves_arena_wf, qb_initial};
use crate::paper::arena_wf;
use crate::sink::Sink;
use crate::tokenizer::{tok_boot, tok_fed_chunks, tok_fed_one, tok_fresh, Tokenizer};

verus! {

/// Tokenize a whole document and fold the tag stream into a navigable,
/// well-formed question paper with its cursor at the document node and its
/// registers empty.  A fresh tokenizer is driven to a pause over the whole
/// text, and a fresh builder consumes every emitted tag, in emission order.
pub fn parse_content(content: &str) -> (paper: QuestionPaper)
    ensures
        paper.wf(),
        paper.prev_index == 0,
        paper.marked@ == Seq::<usize>::empty(),
        paper.skipped@ == Seq::<usize>::empty(),
        paper.notes@.len() == 0,
        exists|
            t0: Tokenizer,
            t1: Tokenizer,
            leftover: Seq<char>,
            b0: QPaperBuilder,
            b1: QPaperBuilder,
            b2: QPaperBuilder,
        |
            #![trigger tok_fed_one(t0, content@, t1, leftover), builder_runs(
                b0,
                t1.sink.tags@,
                b1,
            ), QPaperBuilder::ended(b1, b2, paper)]
            {
                &&& tok_boot(t0)
                &&& tok_fed_one(t0, content@, t1, leftover)
                &&& qb_initial(b0)
                &&& builder_runs(b0, t1.sink.tags@, b1)
                &&& QPaperBuilder::ended(b1, b2, paper)
            },
{
    let sink = Sink::new();
    let ghost sink0 = sink;
    let mut input: Vec<String> = Vec::new();
    input.push(content.to_owned());
    let ghost inv = input@;
    let sink = Tokenizer::tokenize(input, sink);
    let ghost tk = choose|t0: Tokenizer, t1: Tokenizer, leftover: Seq<char>, cviews: Seq<Seq<char>>|
        {
            &&& tok_fresh(t0, sink0)
            &&& cviews == inv.map_values(|s: String| s@)
            &&& #[trigger] tok_fed_chunks(t0, Seq::<char>::empty(), cviews, t1, leftover)
            &&& sink == t1.sink
        };
    let ghost (t0, t1, leftover, cviews) = tk;
    proof {
        assert(tok_boot(t0));
        assert(cviews =~= seq![content@]);
        let (tm, lm): (Tokenizer, Seq<char>) = choose|tm: Tokenizer, lm: Seq<char>|
            #[trigger] tok_fed_one(t0, Seq::<char>::empty() + cviews[0], tm, lm)
                && tok_fed_chunks(tm, lm, cviews.skip(1), t1, leftover);
        assert(Seq::<char>::empty() + cviews[0] =~= content@);
        assert(cviews.skip(1).len() == 0);
        assert(t1 == tm && leftover == lm);
        assert(tok_fed_one(t0, content@, t1, leftover));
    }

    let mut builder = QPaperBuilder::new();
    let ghost b0 = builder;
    let mut tags = sink.tags;
    let ghost all = tags@;
    let ghost mut done: int = 0;
    proof {
        assert(all.take(0) =~= Seq::<Tag>::empty());
    }
    while tags.len() > 0
        invariant
            0 <= done <= all.len(),
            tags@ == all.skip(done),
            qb_initial(b0),
            arena_wf(builder.nodes@),
            builder_runs(b0, all.take(done), builder),
        decreases tags@.len(),
    {
        let tag = tags.remove(0);
        proof {
            assert(tag == all[done]);
            assert(tags@ =~= all.skip(done + 1));
        }
        let ghost pre = builder;
        builder.process_tag(tag);
        proof {
            lemma_stepped_preserves_arena_wf(pre, tag, builder);
            lemma_builder_runs_snoc(b0, all.take(done), pre, tag, builder);
            assert(all.take(done + 1) =~= all.take(done).push(tag));
            done = done + 1;
        }
    }
    proof {
        assert(all.take(done) =~= all);
        assert(all == t1.sink.tags@);
    }
    let ghost b1 = builder;
    let paper = builder.end();
    proof {
        assert(builder_runs(b0, t1.sink.tags@, b1));
    }
    paper
}

} // verus!
