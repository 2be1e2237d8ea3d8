//! Tag tokens and the recognised tag vocabulary.
//!
//! A [`Tag`] is what the tokenizer emits; the `is_*` predicates classify a
//! tag by its name, either by substring containment, by exact match, or, for
//! page tags, by the shape `page_` followed by one digit.

use vstd::prelude::*;

verus! {

#[derive(Debug)]
pub enum Token {
    ParseError(String),
    TagToken(Tag),
}

#[derive(Debug, Eq, PartialEq, Copy, Clone)]
pub enum TagKind {
    StartTag,
    EndTag,
}

#[derive(Debug, PartialEq, Eq)]
pub struct Attribute {
    pub name: String,
    pub value: String,
}

#[derive(Debug, PartialEq, Eq)]
pub struct Tag {
    pub kind: TagKind,
    pub name: TagName,
    pub attributes: Vec<Attribute>,
    pub is_self_closing: bool,
    pub value: Option<String>,
}

#[derive(Debug, PartialEq, Eq)]
pub struct TagName(pub String);

impl TagName {
    pub fn new(name: &str) -> (r: TagName)
        ensures
            r.0@ == name@,
    {
        TagName(name.to_owned())
    }

    pub fn get(&self) -> (r: &str)
        ensures
            r@ == self.0@,
    {
        self.0.as_str()
    }
}

impl Clone for TagName {
    fn clone(&self) -> (r: TagName)
        ensures
            r.0@ == self.0@,
    {
        TagName(self.0.clone())
    }
}

// Token sink result
#[derive(Eq, PartialEq, Debug, Clone)]
pub enum SinkResult {
    Continue,
}

/// `needle` occurs in `hay` starting at position `i`.
pub open spec fn seq_contains_at(hay: Seq<char>, needle: Seq<char>, i: int) -> bool {
    0 <= i && i + needle.len() <= hay.len() && hay.subrange(i, i + needle.len()) == needle
}

/// `needle` occurs somewhere in `hay`.
pub open spec fn seq_contains(hay: Seq<char>, needle: Seq<char>) -> bool {
    exists|i: int| seq_contains_at(hay, needle, i)
}

/// `needle` occurs in `hay` at `at`.
fn chars_match_at(hay: &[char], needle: &[char], at: usize) -> (r: bool)
    requires
        at + needle@.len() <= hay@.len(),
    ensures
        r == seq_contains_at(hay@, needle@, at as int),
{
    let nl: usize = needle.len();
    let hl: usize = hay.len();
    let mut j: usize = 0;
    loop
        invariant
            j <= nl,
            nl == needle@.len(),
            hl == hay@.len(),
            at + nl <= hay@.len(),
            forall|k: int| 0 <= k < j ==> hay@[at + k] == needle@[k],
        decreases nl - j,
    {
        if j == nl {
            proof {
                assert(hay@.subrange(at as int, at + needle@.len()) =~= needle@);
            }
            return true;
        }
        if hay[at + j] != needle[j] {
            proof {
                if seq_contains_at(hay@, needle@, at as int) {
                    let ji = j as int;
                    assert(hay@.subrange(at as int, at + needle@.len())[ji] == needle@[ji]);
                }
            }
            return false;
        }
        j = j + 1;
    }
}

/// Substring search: does `needle` occur anywhere in `hay`?
fn chars_contain(hay: &[char], needle: &[char]) -> (r: bool)
    ensures
        r == seq_contains(hay@, needle@),
{
    if needle.len() > hay.len() {
        proof {
            assert(forall|i: int| !seq_contains_at(hay@, needle@, i));
        }
        return false;
    }
    let nl: usize = needle.len();
    let hl: usize = hay.len();
    if nl == 0 {
        proof {
            assert(hay@.subrange(0, 0) =~= needle@);
            assert(seq_contains_at(hay@, needle@, 0));
        }
        return true;
    }
    let mut i: usize = 0;
    loop
        invariant
            nl == needle@.len(),
            hl == hay@.len(),
            1 <= nl <= hl,
            i <= hl - nl + 1,
            forall|k: int| 0 <= k < i ==> !seq_contains_at(hay@, needle@, k),
        decreases hl + 1 - i,
    {
        if i > hl - nl {
            proof {
                assert(forall|k: int| seq_contains_at(hay@, needle@, k) ==> 0 <= k < i);
            }
            return false;
        }
        if chars_match_at(hay, needle, i) {
            return true;
        }
        i = i + 1;
    }
}

/// Whole-string equality of two character slices.
fn chars_equal(a: &[char], b: &[char]) -> (r: bool)
    ensures
        r == (a@ == b@),
{
    if a.len() != b.len() {
        return false;
    }
    let mut j: usize = 0;
    loop
        invariant
            a@.len() == b@.len(),
            j <= a@.len(),
            forall|k: int| 0 <= k < j ==> a@[k] == b@[k],
        decreases a@.len() - j,
    {
        if j == a.len() {
            proof {
                assert(a@ =~= b@);
            }
            return true;
        }
        if a[j] != b[j] {
            return false;
        }
        j = j + 1;
    }
}

impl Tag {
    /// The name of this tag.
    pub fn name(&self) -> (r: &TagName)
        ensures
            r == &self.name,
    {
        &self.name
    }

    /// The character data attached to this tag, if any.
    pub fn value(&self) -> (r: Option<String>)
        ensures
            match r {
                Some(v) => self.value is Some && v@ == self.value->0@,
                None => self.value is None,
            },
    {
        match &self.value {
            Some(v) => Some(v.clone()),
            None => None,
        }
    }

    /// Whether this is an opening tag.
    pub fn is_start_tag(&self) -> (r: bool)
        ensures
            r == (self.kind is StartTag),
    {
        match self.kind {
            TagKind::StartTag => true,
            TagKind::EndTag => false,
        }
    }

    pub fn is_end_tag(&self) -> (r: bool)
        ensures
            r == (self.kind is EndTag),
    {
        !self.is_start_tag()
    }

    pub open spec fn spec_is_section_name(&self) -> bool {
        seq_contains(self.name.0@, "section_number"@)
    }

    /// `section_number` holds the section name, so the builder can record it.
    pub fn is_section_name(&self) -> (r: bool)
        ensures
            r == self.spec_is_section_name(),
    {
        let name = crate::text::str_to_chars(self.name.0.as_str());
        let pat = crate::text::str_to_chars("section_number");
        chars_contain(name.as_slice(), pat.as_slice())
    }

    pub open spec fn spec_is_document(&self) -> bool {
        seq_contains(self.name.0@, "xml"@)
    }

    /// Whether this is the document tag.
    pub fn is_document(&self) -> (r: bool)
        ensures
            r == self.spec_is_document(),
    {
        let name = crate::text::str_to_chars(self.name.0.as_str());
        let pat = crate::text::str_to_chars("xml");
        chars_contain(name.as_slice(), pat.as_slice())
    }

    pub open spec fn spec_is_root(&self) -> bool {
        seq_contains(self.name.0@, "root"@)
    }

    pub fn is_root(&self) -> (r: bool)
        ensures
            r == self.spec_is_root(),
    {
        let name = crate::text::str_to_chars(self.name.0.as_str());
        let pat = crate::text::str_to_chars("root");
        chars_contain(name.as_slice(), pat.as_slice())
    }

    pub open spec fn spec_is_question_number(&self) -> bool {
        self.name.0@ == "question_number"@
    }

    pub fn is_question_number(&self) -> (r: bool)
        ensures
            r == self.spec_is_question_number(),
    {
        let name = crate::text::str_to_chars(self.name.0.as_str());
        let pat = crate::text::str_to_chars("question_number");
        chars_equal(name.as_slice(), pat.as_slice())
    }

    pub open spec fn spec_is_section(&self) -> bool {
        seq_contains(self.name.0@, "SECTION_"@)
    }

    pub fn is_section(&self) -> (r: bool)
        ensures
            r == self.spec_is_section(),
    {
        let name = crate::text::str_to_chars(self.name.0.as_str());
        let pat = crate::text::str_to_chars("SECTION_");
        chars_contain(name.as_slice(), pat.as_slice())
    }

    pub open spec fn spec_is_question(&self) -> bool {
        self.name.0@ == "question"@
    }

    pub fn is_question(&self) -> (r: bool)
        ensures
            r == self.spec_is_question(),
    {
        let name = crate::text::str_to_chars(self.name.0.as_str());
        let pat = crate::text::str_to_chars("question");
        chars_equal(name.as_slice(), pat.as_slice())
    }

    pub open spec fn spec_is_item(&self) -> bool {
        seq_contains(self.name.0@, "item"@)
    }

    pub fn is_item(&self) -> (r: bool)
        ensures
            r == self.spec_is_item(),
    {
        let name = crate::text::str_to_chars(self.name.0.as_str());
        let pat = crate::text::str_to_chars("item");
        chars_contain(name.as_slice(), pat.as_slice())
    }

    pub open spec fn spec_is_instructions(&self) -> bool {
        seq_contains(self.name.0@, "instructions"@)
    }

    pub fn is_instructions(&self) -> (r: bool)
        ensures
            r == self.spec_is_instructions(),
    {
        let name = crate::text::str_to_chars(self.name.0.as_str());
        let pat = crate::text::str_to_chars("instructions");
        chars_contain(name.as_slice(), pat.as_slice())
    }

    pub open spec fn spec_is_meta(&self) -> bool {
        seq_contains(self.name.0@, "meta_data"@)
    }

    /// Whether this is a `meta_data` tag.
    pub fn is_meta(&self) -> (r: bool)
        ensures
            r == self.spec_is_meta(),
    {
        let name = crate::text::str_to_chars(self.name.0.as_str());
        let pat = crate::text::str_to_chars("meta_data");
        chars_contain(name.as_slice(), pat.as_slice())
    }

    /// The name has the shape `page_` followed by exactly one decimal digit.
    pub open spec fn spec_is_page(&self) -> bool {
        &&& self.name.0@.len() == 6
        &&& self.name.0@.subrange(0, 5) == "page_"@
        &&& '0' <= self.name.0@[5] <= '9'
    }

    /// Whether this tag opens or closes a page.
    pub fn is_page(&self) -> (r: bool)
        ensures
            r == self.spec_is_page(),
    {
        let name = crate::text::str_to_chars(self.name.0.as_str());
        let pat = crate::text::str_to_chars("page_");
        proof {
            reveal_strlit("page_");
        }
        if name.len() != 6 {
            return false;
        }
        if !chars_match_at(name.as_slice(), pat.as_slice(), 0) {
            return false;
        }
        let d = name[5];
        '0' <= d && d <= '9'
    }
}

} // verus!
