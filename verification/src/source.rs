//! Where data frames come from.

use vstd::prelude::*;
use crate::dataframe::DataFrame;
use crate::result::WebSocketError;

verus! {

/// A source of data frames: it decodes one frame at a time from the bytes
/// of a connection.
///
/// Nothing is claimed of what a source gives: a receiver is verified for
/// every frame and every error that may come back.
pub trait DataFrameSource {
    /// Decodes the next data frame. `expect_masked` tells whether its
    /// payload has to be masked on the wire; the frame comes back unmasked.
    fn next_dataframe(&mut self, expect_masked: bool) -> Result<DataFrame, WebSocketError>;
}

/// One request to a source, and what the source gave.
pub struct Request {
    /// Whether the payload of the frame was expected to be masked.
    pub expect_masked: bool,
    /// What the source gave.
    pub outcome: Result<DataFrame, WebSocketError>,
}

/// A source together with the record of the requests made to it through
/// this value.
///
/// The record is ghost state, and `next_dataframe` alone writes it: that
/// function asks the source once and notes what it asked and what came
/// back. Code that holds a `Recorded` cannot change the record in any other
/// way, so what its contract says of the record it says of its requests.
/// That the note agrees with the request rests on the body of
/// `next_dataframe`, which is there to be read: a source promises nothing
/// that it could be checked against.
pub struct Recorded<S> {
    source: S,
    served: Ghost<Seq<Request>>,
}

impl<S: DataFrameSource> Recorded<S> {
    /// The source.
    pub closed spec fn source(self) -> S {
        self.source
    }

    /// The requests made so far, in order.
    pub closed spec fn served(self) -> Seq<Request> {
        self.served@
    }

    /// The given source, with no request made yet.
    pub fn new(source: S) -> (r: Self)
        ensures
            r.source() == source,
            r.served() == Seq::<Request>::empty(),
    {
        Recorded { source, served: Ghost(Seq::empty()) }
    }

    /// Returns a reference to the source.
    pub fn get_ref(&self) -> (r: &S)
        ensures
            *r == self.source(),
    {
        &self.source
    }

    /// Returns a mutable reference to the source. What the caller asks of
    /// the source through it is not on the record.
    pub fn get_mut(&mut self) -> (r: &mut S)
        ensures
            *r == old(self).source(),
            final(self).source() == *final(r),
            final(self).served() == old(self).served(),
    {
        &mut self.source
    }

    /// Asks the source for the next data frame, once, and hands on what it
    /// gives; the request is put on the record.
    pub fn next_dataframe(&mut self, expect_masked: bool) -> (r: Result<
        DataFrame,
        WebSocketError,
    >)
        ensures
            final(self).served() == old(self).served().push(
                Request { expect_masked, outcome: r },
            ),
    {
        let r = self.source.next_dataframe(expect_masked);
        proof {
            self.served@ = self.served@.push(Request { expect_masked, outcome: r });
        }
        r
    }
}

} // verus!
