//! The password, held so that it is never printed.

use vstd::prelude::*;
use vstd::string::StringExecFns;
use crate::text::push_char;

verus! {

/// `String::pop`: removes the last character, if there is one.
#[verifier::external_body]
fn pop_char(s: &mut String) -> (r: Option<char>)
    ensures
        old(s)@.len() == 0 ==> r is None && final(s)@ == old(s)@,
        old(s)@.len() > 0 ==> r == Some(old(s)@.last()) && final(s)@ == old(s)@.drop_last(),
{
    s.pop()
}

/// `String::clear`: empties the text; its buffer stays allocated.
#[verifier::external_body]
fn clear_text(s: &mut String)
    ensures
        final(s)@ == Seq::<char>::empty(),
{
    s.clear();
}

/// `std::hint::black_box`: hands `s` to code the compiler may not see
/// through, so that the writes made to it before are not dropped as
/// dead. It returns nothing and changes nothing that can be stated.
#[verifier::external_body]
fn keep_writes(s: &String) {
    std::hint::black_box(s);
}

/// A password. There is no `Clone`, so there is one copy, and it has no
/// printed form but [`Secret::redacted`].
#[derive(Default, PartialEq, Eq)]
pub struct Secret(String);

impl View for Secret {
    type V = Seq<char>;

    closed spec fn view(&self) -> Seq<char> {
        self.0@
    }
}

impl Secret {
    /// An empty secret.
    pub fn new() -> (r: Secret)
        ensures
            r@ == Seq::<char>::empty(),
    {
        Secret(String::new())
    }

    /// Types `s` at the end.
    pub fn push_str(&mut self, s: &str)
        ensures
            final(self)@ == old(self)@ + s@,
    {
        self.0.append(s);
    }

    /// Removes the last character typed, if there is one.
    pub fn pop(&mut self)
        ensures
            final(self)@ == if old(self)@.len() == 0 {
                old(self)@
            } else {
                old(self)@.drop_last()
            },
    {
        pop_char(&mut self.0);
    }

    /// Forgets everything typed. The bytes it held are overwritten first,
    /// in the buffer they occupied: the text is emptied, as many zero
    /// characters as it had bytes are written where it was -- which fits
    /// the buffer, so it does not move -- the zeros are handed to
    /// `black_box` so that the compiler keeps those writes, and the text
    /// is emptied again.
    pub fn clear(&mut self)
        ensures
            final(self)@ == Seq::<char>::empty(),
    {
        let n = self.0.as_str().len();
        clear_text(&mut self.0);
        let mut i: usize = 0;
        while i < n
            invariant
                i <= n,
            decreases n - i,
        {
            push_char(&mut self.0, '\0');
            i = i + 1;
        }
        keep_writes(&self.0);
        clear_text(&mut self.0);
    }

    pub fn is_empty(&self) -> (r: bool)
        ensures
            r == (self@.len() == 0),
    {
        self.0.unicode_len() == 0
    }

    /// How many characters were typed -- what the field shows.
    pub fn len(&self) -> (r: usize)
        ensures
            r == self@.len(),
    {
        self.0.unicode_len()
    }

    /// The secret, for the one message that carries it.
    pub fn expose(&self) -> (r: &str)
        ensures
            r@ == self@,
    {
        self.0.as_str()
    }

    /// What a secret shows of itself where a value is printed:
    /// `Secret(..)`, never its text.
    pub fn redacted(&self) -> (r: String)
        ensures
            r@ == "Secret(..)"@,
    {
        String::from_str("Secret(..)")
    }
}

} // verus!
