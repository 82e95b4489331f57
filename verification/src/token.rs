//! The token data model: a located slice of source text, and an ordered,
//! double-ended collection of tokens that lets a consumer buffer look-ahead
//! and re-inject tokens at the front.

use vstd::prelude::*;
use std::collections::VecDeque;
use crate::loc::Region;

verus! {

/// A region paired with the exact text it covers.
#[derive(Debug, PartialEq, Eq, PartialOrd, Ord, Hash)]
pub struct MappedRegion {
    pub region: Region,
    pub content: String,
}

impl MappedRegion {
    /// The given text located at the given region.
    pub fn new(region: Region, content: String) -> (r: Self)
        ensures
            r.region == region,
            r.content == content,
    {
        MappedRegion { region, content }
    }

    /// The covered span.
    pub fn region(&self) -> (r: &Region)
        ensures
            r == &self.region,
    {
        &self.region
    }

    /// Replaces the covered span.
    pub fn region_mut(&mut self, value: Region)
        ensures
            final(self).region == value,
            final(self).content == old(self).content,
    {
        self.region = value;
    }

    /// The covered text.
    pub fn content(&self) -> (r: &String)
        ensures
            r == &self.content,
    {
        &self.content
    }

    /// Replaces the covered text.
    pub fn content_mut(&mut self, value: String)
        ensures
            final(self).content == value,
            final(self).region == old(self).region,
    {
        self.content = value;
    }
}

/// A lexical unit: a located slice of source text. Classification of tokens
/// into kinds is a downstream concern and can be attached without reshaping
/// the span machinery.
#[derive(Debug, PartialEq, Eq, PartialOrd, Ord, Hash)]
pub struct Token {
    pub region: MappedRegion,
}

impl Token {
    /// The token covering the given located text.
    pub fn new(region: MappedRegion) -> (r: Self)
        ensures
            r.region == region,
    {
        Token { region }
    }
}

/// An ordered collection of tokens in order of appearance, supporting append
/// and removal at both ends: the scanner appends at the back, a consuming
/// parser may pop from the front and push look-ahead back onto it.
#[derive(Debug)]
pub struct Tokens(pub VecDeque<Token>);

impl View for Tokens {
    type V = Seq<Token>;

    open spec fn view(&self) -> Seq<Token> {
        self.0@
    }
}

impl Tokens {
    /// The empty collection.
    pub fn new() -> (r: Self)
        ensures
            r@ == Seq::<Token>::empty(),
    {
        Tokens(VecDeque::new())
    }

    /// How many tokens the collection holds.
    pub fn len(&self) -> (r: usize)
        ensures
            r == self@.len(),
    {
        self.0.len()
    }

    /// Whether the collection holds no token.
    pub fn is_empty(&self) -> (r: bool)
        ensures
            r == (self@.len() == 0),
    {
        self.0.len() == 0
    }

    /// The token at position `i`, counted from the front.
    pub fn get(&self, i: usize) -> (r: &Token)
        requires
            i < self@.len(),
        ensures
            *r == self@[i as int],
    {
        &self.0[i]
    }

    /// Appends a token at the back: the normal production order.
    pub fn push_back(&mut self, t: Token)
        ensures
            final(self)@ == old(self)@.push(t),
    {
        self.0.push_back(t);
    }

    /// Re-injects a token at the front, ahead of all others.
    pub fn push_front(&mut self, t: Token)
        ensures
            final(self)@ == seq![t] + old(self)@,
    {
        self.0.push_front(t);
    }

    /// Removes and returns the last token, if any.
    pub fn pop_back(&mut self) -> (r: Option<Token>)
        ensures
            match r {
                Some(t) => {
                    &&& old(self)@.len() > 0
                    &&& t == old(self)@[old(self)@.len() - 1]
                    &&& final(self)@ == old(self)@.subrange(0, old(self)@.len() as int - 1)
                },
                None => {
                    &&& old(self)@.len() == 0
                    &&& final(self)@ == old(self)@
                },
            },
    {
        self.0.pop_back()
    }

    /// Removes and returns the first token, if any.
    pub fn pop_front(&mut self) -> (r: Option<Token>)
        ensures
            match r {
                Some(t) => {
                    &&& old(self)@.len() > 0
                    &&& t == old(self)@[0]
                    &&& final(self)@ == old(self)@.subrange(1, old(self)@.len() as int)
                },
                None => {
                    &&& old(self)@.len() == 0
                    &&& final(self)@ == old(self)@
                },
            },
    {
        self.0.pop_front()
    }
}

impl Default for Tokens {
    /// The default collection is empty.
    fn default() -> (r: Self)
        ensures
            r@ == Seq::<Token>::empty(),
    {
        Tokens(VecDeque::new())
    }
}

} // verus!
