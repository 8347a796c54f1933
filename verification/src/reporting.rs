//! The sink that passes report their findings to.

use crate::ast::Span;
use vstd::prelude::*;
use vstd::string::*;

verus! {

/// Collects the errors that the passes over a specification report, each with
/// the place it is about.
#[derive(Debug)]
pub struct Handler {
    errors: Vec<(Span, String)>,
}

impl View for Handler {
    type V = Seq<(Span, Seq<char>)>;

    closed spec fn view(&self) -> Seq<(Span, Seq<char>)> {
        Seq::new(self.errors@.len(), |i: int| (self.errors@[i].0, self.errors@[i].1@))
    }
}

impl Handler {
    pub fn new() -> (handler: Handler)
        ensures
            handler@ == Seq::<(Span, Seq<char>)>::empty(),
    {
        let handler = Handler { errors: Vec::new() };
        assert(handler@ =~= Seq::empty());
        handler
    }

    /// Reports an error about the text at `span`.
    pub fn error(&mut self, span: Span, message: &str)
        ensures
            final(self)@ == old(self)@.push((span, message@)),
    {
        self.errors.push((span, message.to_owned()));
        assert(self@ =~= old(self)@.push((span, message@)));
    }

    /// The number of errors reported so far.
    pub fn emitted_errors(&self) -> (count: usize)
        ensures
            count == self@.len(),
    {
        self.errors.len()
    }
}

} // verus!
