//! A small character set: a subset of the characters with code points below
//! 64, held as one 64-bit mask.  Characters at or above 64 are never members.

use vstd::prelude::*;

verus! {

#[derive(Clone, Copy, Debug, PartialEq, Eq)]
pub struct SmallCharSet {
    pub bits: u64,
}

impl SmallCharSet {
    /// Membership: only code points below 64 can be members.
    pub open spec fn spec_contains(self, c: char) -> bool {
        (c as u32) < 64 && (self.bits >> ((c as u32) as u64)) & 1 == 1
    }

    /// Length of the longest prefix of `s` that holds no member of the set.
    pub open spec fn spec_nonmember_prefix(self, s: Seq<char>) -> nat
        decreases s.len(),
    {
        if s.len() == 0 || self.spec_contains(s[0]) {
            0
        } else {
            1 + self.spec_nonmember_prefix(s.skip(1))
        }
    }

    /// The longest non-member prefix never runs past the end of the input.
    pub proof fn lemma_nonmember_prefix_bound(self, s: Seq<char>)
        ensures
            self.spec_nonmember_prefix(s) <= s.len(),
        decreases s.len(),
    {
        if s.len() == 0 || self.spec_contains(s[0]) {
        } else {
            self.lemma_nonmember_prefix_bound(s.skip(1));
        }
    }

    pub fn new(bits: u64) -> (r: SmallCharSet)
        ensures
            r.bits == bits,
    {
        SmallCharSet { bits }
    }

    pub fn contains(&self, c: char) -> (r: bool)
        ensures
            r == self.spec_contains(c),
    {
        let cu: u32 = c as u32;
        cu < 64 && (self.bits >> (cu as u64)) & 1 == 1
    }

    /// The longest-nonmember-prefix characterisation: `n` is the answer
    /// exactly when everything before `n` is a non-member and position `n`
    /// is the end of the sequence or a member.
    proof fn lemma_nonmember_prefix_char(self, s: Seq<char>, n: nat)
        requires
            n <= s.len(),
            forall|j: int| 0 <= j < n ==> !self.spec_contains(s[j]),
            n == s.len() || self.spec_contains(s[n as int]),
        ensures
            self.spec_nonmember_prefix(s) == n,
        decreases n,
    {
        if n == 0 {
        } else {
            assert(!self.spec_contains(s[0]));
            let t = s.skip(1);
            assert forall|j: int| 0 <= j < n - 1 implies !self.spec_contains(t[j]) by {
                assert(t[j] == s[j + 1]);
            }
            if n < s.len() {
                assert(t[n - 1] == s[n as int]);
            }
            self.lemma_nonmember_prefix_char(t, (n - 1) as nat);
        }
    }

    /// Compute the length of the longest prefix of `s` whose characters are
    /// all outside the set.
    pub fn nonmember_prefix_len(&self, s: &[char]) -> (n: usize)
        ensures
            n == self.spec_nonmember_prefix(s@),
            n <= s@.len(),
    {
        let mut i: usize = 0;
        loop
            invariant
                i <= s@.len(),
                forall|j: int| 0 <= j < i ==> !self.spec_contains(s@[j]),
            decreases s@.len() - i,
        {
            if i == s.len() {
                proof {
                    self.lemma_nonmember_prefix_char(s@, i as nat);
                }
                return i;
            }
            if self.contains(s[i]) {
                proof {
                    self.lemma_nonmember_prefix_char(s@, i as nat);
                }
                return i;
            }
            i = i + 1;
        }
    }
}

} // verus!
