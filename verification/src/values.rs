//! Bounded values shared by the whole library.

use crate::strings;
use vstd::prelude::*;

verus! {

/// The most bytes that uncommitted text may take.
pub const MAX_PREEDIT_BYTES: usize = 512;

/// A write that did not fit.
#[derive(Clone, Copy, Debug, PartialEq, Eq, Structural)]
pub struct Overflow;

/// A string of at most `N` UTF-8 bytes.
#[derive(Debug, PartialEq, Eq)]
pub struct FixedStr<const N: usize> {
    value: String,
}

impl<const N: usize> View for FixedStr<N> {
    type V = Seq<char>;

    closed spec fn view(&self) -> Seq<char> {
        self.value@
    }
}

impl<const N: usize> FixedStr<N> {
    /// Whether the text keeps within the capacity.
    pub open spec fn wf(&self) -> bool {
        strings::utf8_len(self@) <= N
    }

    /// The empty string.
    pub fn new() -> (s: Self)
        ensures
            s@ == Seq::<char>::empty(),
            s.wf(),
    {
        FixedStr { value: String::new() }
    }

    /// The most bytes the string can hold.
    pub fn capacity(&self) -> (n: usize)
        ensures
            n == N,
    {
        N
    }

    /// The text.
    pub fn as_str(&self) -> (s: &str)
        ensures
            s@ == self@,
    {
        self.value.as_str()
    }

    /// The length in bytes.
    pub fn len(&self) -> (n: usize)
        ensures
            n == strings::utf8_len(self@),
    {
        let bytes: &[u8] = self.value.as_str().as_bytes();
        bytes.len()
    }

    /// Whether there is no text.
    pub fn is_empty(&self) -> (b: bool)
        ensures
            b == (self@.len() == 0),
    {
        self.value.as_str().is_empty()
    }

    /// Appends `s`, or changes nothing where it does not fit.
    pub fn push_str(&mut self, s: &str) -> (r: Result<(), Overflow>)
        ensures
            r is Ok <==> strings::utf8_len(old(self)@ + s@) <= N,
            r is Ok ==> final(self)@ == old(self)@ + s@,
            r is Err ==> final(self)@ == old(self)@,
            final(self).wf() || !old(self).wf(),
    {
        proof {
            strings::lemma_encode_concat(self@, s@);
        }
        let used: usize = self.len();
        let bytes: &[u8] = s.as_bytes();
        let more: usize = bytes.len();
        if used > N || more > N - used {
            return Err(Overflow);
        }
        self.value.append(s);
        Ok(())
    }

    /// Appends one character, or changes nothing where it does not fit.
    pub fn push(&mut self, c: char) -> (r: Result<(), Overflow>)
        ensures
            r is Ok <==> strings::utf8_len(old(self)@.push(c)) <= N,
            r is Ok ==> final(self)@ == old(self)@.push(c),
            r is Err ==> final(self)@ == old(self)@,
            final(self).wf() || !old(self).wf(),
    {
        proof {
            strings::lemma_len_push(self@, c);
        }
        let used: usize = self.len();
        let more: usize = strings::utf8_width(c);
        if used > N || more > N - used {
            return Err(Overflow);
        }
        strings::push_char(&mut self.value, c);
        Ok(())
    }

    /// Removes and returns the last character.
    pub fn pop_char(&mut self) -> (c: Option<char>)
        ensures
            old(self)@.len() == 0 ==> c is None && final(self)@ == old(self)@,
            old(self)@.len() > 0 ==> c == Some(old(self)@.last()) && final(self)@
                == old(self)@.drop_last(),
            strings::utf8_len(final(self)@) <= strings::utf8_len(old(self)@),
    {
        proof {
            if self@.len() > 0 {
                strings::lemma_len_push(self@.drop_last(), self@.last());
                assert(self@.drop_last().push(self@.last()) =~= self@);
            }
        }
        strings::pop_char(&mut self.value)
    }

    /// Removes all text.
    pub fn clear(&mut self)
        ensures
            final(self)@ == Seq::<char>::empty(),
            final(self).wf(),
    {
        self.value = String::new();
    }
}

impl<const N: usize> Clone for FixedStr<N> {
    fn clone(&self) -> (s: Self)
        ensures
            s@ == self@,
    {
        FixedStr { value: self.value.clone() }
    }
}

} // verus!
