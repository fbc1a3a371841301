use vstd::prelude::*;

verus! {

/// Where a move being built takes its cards from.
#[derive(Debug, Clone, Copy, PartialEq, Eq, Structural)]
pub enum Source {
    Pile(usize),
    Foundation(usize),
}

/// Where a move being built lays its cards.
#[derive(Debug, Clone, Copy, PartialEq, Eq, Structural)]
pub enum Destination {
    Pile(usize),
    Foundation(usize),
}

/// A move put together one end at a time.
#[derive(Debug)]
pub struct Move {
    pub source: Option<Source>,
    pub destination: Option<Destination>,
}

impl Move {
    /// A move with neither end chosen.
    pub fn new() -> (r: Move)
        ensures
            r.source is None,
            r.destination is None,
    {
        Move { source: None, destination: None }
    }

    /// The same move, taking its cards from pile `source`.
    pub fn source(&self, source: usize) -> (r: Move)
        ensures
            r.source == Some(Source::Pile(source)),
            r.destination == self.destination,
    {
        Move { source: Some(Source::Pile(source)), destination: self.destination }
    }

    /// The same move, laying its cards on pile `destination`.
    pub fn destination(&self, destination: usize) -> (r: Move)
        ensures
            r.source == self.source,
            r.destination == Some(Destination::Pile(destination)),
    {
        Move { source: self.source, destination: Some(Destination::Pile(destination)) }
    }

    /// Carrying out a built move is not defined yet: this does nothing.
    pub fn play(&self) {
    }
}

} // verus!
