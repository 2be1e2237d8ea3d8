//! The process-wide state: at most one owned question paper, and the
//! handling of a batch of intents against it.

use vstd::prelude::*;

use crate::errors::Errors;
use crate::intent::{Intent, IntentResult};
use crate::paper::{spec_intent_step, QuestionPaper};

verus! {

/// A batch of intents resolved in order: `p1` and `last` are the final
/// paper and the last intent's result.
pub open spec fn spec_intents_seq(
    p0: QuestionPaper,
    intents: Seq<Intent>,
    p1: QuestionPaper,
    last: IntentResult,
) -> bool
    decreases intents.len(),
{
    if intents.len() == 0 {
        false
    } else if intents.len() == 1 {
        spec_intent_step(p0, intents[0], p1, last)
    } else {
        exists|pm: QuestionPaper, rm: IntentResult|
            #[trigger] spec_intent_step(p0, intents[0], pm, rm) && spec_intents_seq(
                pm,
                intents.skip(1),
                p1,
                last,
            )
    }
}

proof fn lemma_intents_seq_snoc(
    p0: QuestionPaper,
    s: Seq<Intent>,
    p1: QuestionPaper,
    r1: IntentResult,
    x: Intent,
    p2: QuestionPaper,
    r2: IntentResult,
)
    requires
        s.len() == 0 ==> p1 == p0,
        s.len() > 0 ==> spec_intents_seq(p0, s, p1, r1),
        spec_intent_step(p1, x, p2, r2),
    ensures
        spec_intents_seq(p0, s.push(x), p2, r2),
    decreases s.len(),
{
    let s2 = s.push(x);
    if s.len() == 0 {
        assert(s2[0] == x);
        assert(spec_intent_step(p0, s2[0], p2, r2));
    } else if s.len() == 1 {
        assert(s2[0] == s[0]);
        assert(s2.skip(1) =~= seq![x]);
        assert(spec_intent_step(p0, s2[0], p1, r1));
        assert(spec_intents_seq(p1, s2.skip(1), p2, r2));
        assert(spec_intents_seq(p0, s2, p2, r2));
    } else {
        let (pm, rm) = choose|pm: QuestionPaper, rm: IntentResult|
            #[trigger] spec_intent_step(p0, s[0], pm, rm) && spec_intents_seq(
                pm,
                s.skip(1),
                p1,
                r1,
            );
        lemma_intents_seq_snoc(pm, s.skip(1), p1, r1, x, p2, r2);
        assert(s2.skip(1) =~= s.skip(1).push(x));
        assert(s2[0] == s[0]);
        assert(spec_intent_step(p0, s2[0], pm, rm) && spec_intents_seq(pm, s2.skip(1), p2, r2));
        assert(spec_intents_seq(p0, s2, p2, r2));
    }
}

// for keeping safe multihteadable state
pub struct State(pub Option<QuestionPaper>);

impl State {
    pub fn new() -> (r: State)
        ensures
            r.0 is None,
    {
        State(None)
    }

    /// Resolve a batch of intents in order against the owned paper; the
    /// result of the last intent is returned.
    pub fn handle_intents(&mut self, intents: Vec<Intent>) -> (r: Result<IntentResult, Errors>)
        ensures
            ((old(self).0 matches Some(p) && p.wf()) ==> (final(self).0 matches Some(q)
                && q.wf())),
            old(self).0 is None ==> *final(self) == *old(self) && (r matches Err(e) && (e
                matches Errors::InternalError(m)
                && m@ == "No question paper has been initialized. Maybe you forgot to upload."@)),
            (old(self).0 is Some && intents@.len() == 0) ==> ((final(self).0 matches Some(q)
                && q == old(self).0->0) && (r matches Err(e) && (e matches Errors::InternalError(m)
                && m@ == "Could not pop anything, try again"@))),
            (old(self).0 is Some && intents@.len() > 0) ==> (final(self).0 matches Some(p1) && (r
                matches Ok(res) && spec_intents_seq(old(self).0->0, intents@, p1, res))),
    {
        let ghost all = intents@;
        let mut opt: Option<QuestionPaper> = None;
        core::mem::swap(&mut opt, &mut self.0);
        match opt {
            None => Err(
                Errors::InternalError(
                    "No question paper has been initialized. Maybe you forgot to upload.".to_owned(),
                ),
            ),
            Some(mut question_paper) => {
                let ghost p_init = question_paper;
                let mut last: Option<IntentResult> = None;
                let mut remaining = intents;
                let ghost mut done: int = 0;
                while remaining.len() > 0
                    invariant
                        0 <= done <= all.len(),
                        remaining@ == all.skip(done),
                        done == 0 ==> question_paper == p_init && last is None,
                        done > 0 ==> (last matches Some(res) && spec_intents_seq(
                            p_init,
                            all.take(done),
                            question_paper,
                            res,
                        )),
                        p_init.wf() ==> question_paper.wf(),
                    decreases remaining@.len(),
                {
                    let ghost pre_paper = question_paper;
                    let ghost prev_last = last;
                    let intent = remaining.remove(0);
                    proof {
                        assert(intent == all[done]);
                        assert(remaining@ =~= all.skip(done + 1));
                    }
                    let res = question_paper.resolve_intent(intent);
                    proof {
                        if done == 0 {
                            lemma_intents_seq_snoc(
                                p_init,
                                Seq::<Intent>::empty(),
                                pre_paper,
                                res,
                                intent,
                                question_paper,
                                res,
                            );
                            assert(all.take(1) =~= Seq::<Intent>::empty().push(intent));
                        } else {
                            lemma_intents_seq_snoc(
                                p_init,
                                all.take(done),
                                pre_paper,
                                prev_last->0,
                                intent,
                                question_paper,
                                res,
                            );
                            assert(all.take(done + 1) =~= all.take(done).push(intent));
                        }
                    }
                    last = Some(res);
                    proof {
                        done = done + 1;
                    }
                }
                proof {
                    if done > 0 {
                        assert(all.take(done) =~= all);
                    }
                }
                self.0 = Some(question_paper);
                match last {
                    Some(res) => Ok(res),
                    None => Err(Errors::InternalError("Could not pop anything, try again".to_owned())),
                }
            },
        }
    }
}

} // verus!
