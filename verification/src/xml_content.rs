//! A chunk-appendable character queue.  The tokenizer drains it from the
//! front, either one character from a [`SmallCharSet`] at a time or a whole
//! run of characters outside the set.

use vstd::prelude::*;

use crate::charset::SmallCharSet;
use crate::text::{chars_to_string, str_to_chars};

verus! {

#[derive(Debug)]
pub enum SetResult {
    FromSet(char),
    NotFromSet(String),
}

pub struct XmlContent {
    content: Vec<char>,
}

impl View for XmlContent {
    type V = Seq<char>;

    closed spec fn view(&self) -> Seq<char> {
        self.content@
    }
}

impl XmlContent {
    pub fn new() -> (r: XmlContent)
        ensures
            r@ == Seq::<char>::empty(),
    {
        XmlContent { content: Vec::new() }
    }

    pub fn from_str(content: &str) -> (r: XmlContent)
        ensures
            r@ == content@,
    {
        XmlContent { content: str_to_chars(content) }
    }

    /// Append a chunk at the back of the queue.
    pub fn push_back(&mut self, chunk: String)
        ensures
            final(self)@ == old(self)@ + chunk@,
    {
        let mut tail = str_to_chars(chunk.as_str());
        self.content.append(&mut tail);
        proof {
            assert(self@ =~= old(self)@ + chunk@);
        }
    }

    pub fn is_empty(&self) -> (r: bool)
        ensures
            r == (self@.len() == 0),
    {
        self.content.len() == 0
    }

    /// Pop either one character that belongs to `set`, or the whole leading
    /// run of characters outside `set`; `None` when the queue is empty.
    pub fn pop_from_set(&mut self, set: SmallCharSet) -> (r: Option<SetResult>)
        ensures
            match r {
                None => old(self)@.len() == 0 && final(self)@ == old(self)@,
                Some(SetResult::FromSet(c)) => {
                    &&& old(self)@.len() > 0
                    &&& set.spec_nonmember_prefix(old(self)@) == 0
                    &&& c == old(self)@[0]
                    &&& final(self)@ == old(self)@.skip(1)
                },
                Some(SetResult::NotFromSet(s)) => {
                    let n = set.spec_nonmember_prefix(old(self)@) as int;
                    &&& old(self)@.len() > 0
                    &&& n > 0
                    &&& s@ == old(self)@.take(n)
                    &&& final(self)@ == old(self)@.skip(n)
                },
            },
    {
        if self.content.len() == 0 {
            return None;
        }
        let n = set.nonmember_prefix_len(self.content.as_slice());
        if n > 0 {
            let out = self.drain_front(n);
            Some(SetResult::NotFromSet(chars_to_string(out.as_slice())))
        } else {
            let c = self.content.remove(0);
            proof {
                assert(self@ =~= old(self)@.skip(1));
            }
            Some(SetResult::FromSet(c))
        }
    }

    /// Remove and return the first `n` characters.
    fn drain_front(&mut self, n: usize) -> (out: Vec<char>)
        requires
            n <= old(self)@.len(),
        ensures
            out@ == old(self)@.take(n as int),
            final(self)@ == old(self)@.skip(n as int),
    {
        let mut out: Vec<char> = Vec::new();
        let mut i: usize = 0;
        while i < n
            invariant
                i <= n,
                n <= self@.len(),
                self@ == old(self)@,
                out@ == old(self)@.take(i as int),
            decreases n - i,
        {
            out.push(self.content[i]);
            proof {
                assert(out@ =~= old(self)@.take(i + 1));
            }
            i = i + 1;
        }
        let mut rest: Vec<char> = Vec::new();
        let mut j: usize = n;
        while j < self.content.len()
            invariant
                n <= j <= self@.len(),
                self@ == old(self)@,
                rest@ == old(self)@.subrange(n as int, j as int),
            decreases self@.len() - j,
        {
            rest.push(self.content[j]);
            proof {
                assert(rest@ =~= old(self)@.subrange(n as int, j + 1));
            }
            j = j + 1;
        }
        self.content = rest;
        proof {
            assert(self@ =~= old(self)@.skip(n as int));
        }
        out
    }

    /// Retrieve the next character at the front of the queue.
    pub fn next(&mut self) -> (r: Option<char>)
        ensures
            match r {
                None => old(self)@.len() == 0 && final(self)@ == old(self)@,
                Some(c) => old(self)@.len() > 0 && c == old(self)@[0] && final(self)@
                    == old(self)@.skip(1),
            },
    {
        if self.content.len() == 0 {
            return None;
        }
        let c = self.content.remove(0);
        proof {
            assert(self@ =~= old(self)@.skip(1));
        }
        Some(c)
    }
}

} // verus!
