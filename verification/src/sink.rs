//! The token sink.  The tokenizer hands every token to the sink: tag tokens
//! are queued, in emission order, for the tree builder; parse errors are
//! recorded and never abort tokenization.

use vstd::prelude::*;

use crate::tag::{SinkResult, Tag, Token};

verus! {

pub struct Sink {
    pub line_number: u64,
    pub errors: Vec<String>,
    pub tags: Vec<Tag>,
}

impl Sink {
    pub fn new() -> (r: Sink)
        ensures
            r.line_number == 1,
            r.errors@ == Seq::<String>::empty(),
            r.tags@ == Seq::<Tag>::empty(),
    {
        Sink { line_number: 1, errors: Vec::new(), tags: Vec::new() }
    }

    /// Accept one token: queue a tag, or record a parse error.
    pub fn process_token(&mut self, token: Token, line_number: u64) -> (r: SinkResult)
        ensures
            final(self).line_number == line_number,
            (token matches Token::ParseError(e) ==> {
                &&& final(self).errors@ == old(self).errors@.push(e)
                &&& final(self).tags@ == old(self).tags@
            }),
            (token matches Token::TagToken(t) ==> {
                &&& final(self).tags@ == old(self).tags@.push(t)
                &&& final(self).errors@ == old(self).errors@
            }),
            r == SinkResult::Continue,
    {
        if line_number != self.line_number {
            self.line_number = line_number;
        } else {
            self.line_number = line_number;
        }
        let token = match token {
            Token::ParseError(e) => {
                self.parse_error(e);
                return SinkResult::Continue;
            },
            Token::TagToken(tag) => Token::TagToken(tag),
        };
        self.process_to_completion(token)
    }

    fn parse_error(&mut self, error: String)
        ensures
            final(self).errors@ == old(self).errors@.push(error),
            final(self).tags@ == old(self).tags@,
            final(self).line_number == old(self).line_number,
    {
        self.errors.push(error)
    }

    fn process_to_completion(&mut self, token: Token) -> (r: SinkResult)
        ensures
            (token matches Token::TagToken(t) ==> {
                &&& final(self).tags@ == old(self).tags@.push(t)
                &&& final(self).errors@ == old(self).errors@
            }),
            (token matches Token::ParseError(e) ==> *final(self) == *old(self)),
            final(self).line_number == old(self).line_number,
            r == SinkResult::Continue,
    {
        match token {
            Token::TagToken(tag) => {
                self.tags.push(tag);
            },
            _ => {
                return SinkResult::Continue;
            },
        }
        SinkResult::Continue
    }
}

} // verus!
