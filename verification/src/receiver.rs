//! Receivers: a source of data frames, and the messages put together from
//! what it gives.

use vstd::prelude::*;
use core::marker::PhantomData;
use crate::assembly::{
    assemble, gather, is_open_run, Accumulator, Assembly, Fetched, Gathered, Outcome, Progress,
};
use crate::dataframe::DataFrame;
use crate::message::Message;
use crate::result::{unexpected_continuation, unexpected_data, WebSocketError};
use crate::role::{Local, Remote, Role};
use crate::source::{DataFrameSource, Recorded, Request};

verus! {

/// One frame fetched by a receiver, and where it came from.
pub enum Fetch {
    /// The frame was pending: an earlier call had set it aside.
    Pending(DataFrame),
    /// The source was asked: this is the request, and what the source gave.
    Read(Request),
}

impl Fetch {
    /// What the fetch gave.
    pub open spec fn result(self) -> Fetched {
        match self {
            Fetch::Pending(frame) => Ok(frame),
            Fetch::Read(request) => request.outcome,
        }
    }
}

/// What each of `fetches` gave.
pub open spec fn results(fetches: Seq<Fetch>) -> Seq<Fetched> {
    fetches.map_values(|fetch: Fetch| fetch.result())
}

/// Whether `fetches` take the frames of `pending` first, the one set aside
/// last before the others, and ask the source only after all of them: the
/// requests to the source are `asked`, no more and no fewer, in order.
pub open spec fn drawn(pending: Seq<DataFrame>, asked: Seq<Request>, fetches: Seq<Fetch>) -> bool {
    &&& asked.len() == if fetches.len() > pending.len() {
        fetches.len() - pending.len()
    } else {
        0
    }
    &&& forall|i: int|
        0 <= i < fetches.len() ==> if i < pending.len() {
            #[trigger] fetches[i] == Fetch::Pending(pending[pending.len() - 1 - i])
        } else {
            fetches[i] == Fetch::Read(asked[i - pending.len()])
        }
}

/// Whether every frame of `frames` is a control frame.
pub open spec fn all_control(frames: Seq<DataFrame>) -> bool {
    forall|i: int| 0 <= i < frames.len() ==> (#[trigger] frames[i]).opcode.spec_class() is Control
}

/// Whether every request of `asked` was made with `expect_masked`.
pub open spec fn asked_with(asked: Seq<Request>, expect_masked: bool) -> bool {
    forall|i: int| 0 <= i < asked.len() ==> (#[trigger] asked[i]).expect_masked == expect_masked
}

/// Whether `r` hands over `outcome` as data frames.
pub open spec fn delivers_dataframes(
    r: Result<Vec<DataFrame>, WebSocketError>,
    outcome: Outcome,
) -> bool {
    match outcome {
        Outcome::Message(frames) => r matches Ok(given) && given@ == frames,
        Outcome::Control(frame) => r matches Ok(given) && given@ == seq![frame],
        Outcome::UnexpectedContinuation => r matches Err(e) && e.is_protocol_error(
            unexpected_continuation(),
        ),
        Outcome::UnexpectedData => r matches Err(e) && e.is_protocol_error(unexpected_data()),
        Outcome::Failed(e) => r == Err::<Vec<DataFrame>, WebSocketError>(e),
    }
}

/// Whether `r` hands over `outcome` as a message.
pub open spec fn delivers_message(r: Result<Message, WebSocketError>, outcome: Outcome) -> bool {
    match outcome {
        Outcome::Message(frames) => r matches Ok(message) && message.is_made_of(frames),
        Outcome::Control(frame) => false,
        Outcome::UnexpectedContinuation => r matches Err(e) && e.is_protocol_error(
            unexpected_continuation(),
        ),
        Outcome::UnexpectedData => r matches Err(e) && e.is_protocol_error(unexpected_data()),
        Outcome::Failed(e) => r == Err::<Message, WebSocketError>(e),
    }
}

/// A receiver of messages at the end `L` of a connection, over the source
/// `S` of data frames.
///
/// The receiver holds the fragments of the message that is open, and the
/// control frames that came between fragments and wait to be handed out.
/// Pending frames are handed out before the source is asked again, the one
/// that was set aside last before the others.
pub struct WebSocketReceiver<S, L> {
    inner: Recorded<S>,
    open: Accumulator,
    pending: Vec<DataFrame>,
    role: PhantomData<L>,
    history: Ghost<Seq<Fetch>>,
}

/// The receiver of a client: it stands at the end that opened the
/// connection.
pub type Receiver<S> = WebSocketReceiver<S, Local>;

impl<S: DataFrameSource, L: Role> WebSocketReceiver<S, L> {
    /// The source.
    pub closed spec fn source(self) -> S {
        self.inner.source()
    }

    /// The requests that this receiver has made to its source, in order.
    /// They are on the record that is kept where the source is asked.
    pub closed spec fn requests(self) -> Seq<Request> {
        self.inner.served()
    }

    /// The fragments of the message that is open, in the order in which
    /// they came; none if the receiver is idle.
    pub closed spec fn held(self) -> Seq<DataFrame> {
        self.open@
    }

    /// The frames that wait to be handed out, in the order in which they
    /// were set aside: the last of them is the next to be handed out.
    pub closed spec fn pending(self) -> Seq<DataFrame> {
        self.pending@
    }

    /// Every frame that this receiver has fetched, in order: those that
    /// were pending, and those that the source was asked for. This is the
    /// receiver's own account of what it did; the contracts tie the
    /// requests in it to `requests`, and the frames taken from the pending
    /// ones to `pending`.
    pub closed spec fn history(self) -> Seq<Fetch> {
        self.history@
    }

    /// What holds of every receiver: the frames held can be the fragments of
    /// an open message, and their number fits the machine; only control
    /// frames are pending; and the source was always asked as the role
    /// demands.
    pub open spec fn wf(self) -> bool {
        &&& is_open_run(self.held())
        &&& self.held().len() <= usize::MAX
        &&& all_control(self.pending())
        &&& asked_with(self.requests(), L::masked())
    }

    /// The fetches between this state of the receiver and a later one.
    pub open spec fn fetches_until(self, after: Self) -> Seq<Fetch> {
        after.history().skip(self.history().len() as int)
    }

    /// The requests to the source between this state of the receiver and a
    /// later one.
    pub open spec fn requests_until(self, after: Self) -> Seq<Request> {
        after.requests().skip(self.requests().len() as int)
    }

    /// Whether the fetches that led from this state to `after` are all that
    /// happened since, and were drawn as a receiver draws them: from the
    /// pending frames first, then from the source, which was asked for
    /// exactly the frames fetched from it, each time as the role demands.
    pub open spec fn fetched_until(self, after: Self) -> bool {
        &&& after.history() == self.history() + self.fetches_until(after)
        &&& after.requests() == self.requests() + self.requests_until(after)
        &&& asked_with(self.requests_until(after), L::masked())
        &&& drawn(self.pending(), self.requests_until(after), self.fetches_until(after))
    }

    /// The pending frames that the fetches up to `after` have left: those
    /// set aside first, in unchanged order.
    pub open spec fn left_pending(self, after: Self) -> Seq<DataFrame> {
        if self.fetches_until(after).len() < self.pending().len() {
            self.pending().take(self.pending().len() - self.fetches_until(after).len())
        } else {
            Seq::empty()
        }
    }

    /// Whether an assembly led from this state to `after` and ended as `a`
    /// says: the receiver holds what the assembly left, and the control
    /// frames that it set aside are pending behind those that were not
    /// fetched, in the order in which they came.
    pub open spec fn left_as(self, after: Self, a: Assembly) -> bool {
        &&& after.held() == a.held
        &&& after.pending() == self.left_pending(after) + a.kept
    }

    /// The assembly that began in this state and was fed the fetches up to
    /// `after`.
    pub open spec fn assembly_until(self, after: Self, keep: bool) -> Option<Assembly> {
        assemble(keep, self.held(), results(self.fetches_until(after)))
    }

    /// Create a new receiver over the given source.
    pub fn new(reader: S) -> (r: Self)
        ensures
            r.wf(),
            r.source() == reader,
            r.held() == Seq::<DataFrame>::empty(),
            r.pending() == Seq::<DataFrame>::empty(),
            r.history() == Seq::<Fetch>::empty(),
            r.requests() == Seq::<Request>::empty(),
    {
        WebSocketReceiver {
            inner: Recorded::new(reader),
            open: Accumulator::new(),
            pending: Vec::new(),
            role: PhantomData,
            history: Ghost(Seq::empty()),
        }
    }

    /// Returns a reference to the underlying source.
    pub fn get_ref(&self) -> (r: &S)
        ensures
            *r == self.source(),
    {
        self.inner.get_ref()
    }

    /// Returns a mutable reference to the underlying source. What the
    /// caller does to the source leaves the rest of the receiver as it is,
    /// and is no request of the receiver.
    pub fn get_mut(&mut self) -> (r: &mut S)
        ensures
            *r == old(self).source(),
            final(self).source() == *final(r),
            final(self).held() == old(self).held(),
            final(self).pending() == old(self).pending(),
            final(self).history() == old(self).history(),
            final(self).requests() == old(self).requests(),
    {
        self.inner.get_mut()
    }

    /// Whether a message is open: some of its fragments are held, and the
    /// last of them has not come yet.
    pub fn in_progress(&self) -> (r: bool)
        ensures
            r == (self.held().len() > 0),
    {
        self.open.in_progress()
    }

    /// The number of frames that wait to be handed out.
    pub fn pending_len(&self) -> (r: usize)
        ensures
            r == self.pending().len(),
    {
        self.pending.len()
    }

    /// Reads a single data frame: the pending frame that was set aside
    /// last, if any is pending, else what the source gives when asked as
    /// the role demands. An error of the source comes back as it is.
    ///
    /// The source is asked once if nothing is pending, and not at all if
    /// something is.
    pub fn recv_dataframe(&mut self) -> (r: Fetched)
        requires
            old(self).wf(),
        ensures
            final(self).wf(),
            final(self).held() == old(self).held(),
            if old(self).pending().len() > 0 {
                &&& r == Ok::<DataFrame, WebSocketError>(old(self).pending().last())
                &&& final(self).pending() == old(self).pending().drop_last()
                &&& final(self).source() == old(self).source()
                &&& final(self).requests() == old(self).requests()
                &&& final(self).history() == old(self).history().push(
                    Fetch::Pending(old(self).pending().last()),
                )
            } else {
                &&& final(self).pending() == old(self).pending()
                &&& final(self).requests() == old(self).requests().push(
                    Request { expect_masked: L::masked(), outcome: r },
                )
                &&& final(self).history() == old(self).history().push(
                    Fetch::Read(Request { expect_masked: L::masked(), outcome: r }),
                )
            },
    {
        if let Some(frame) = self.pending.pop() {
            proof {
                self.history@ = self.history@.push(Fetch::Pending(frame));
            }
            Ok(frame)
        } else {
            let r = self.inner.next_dataframe(L::expect_masked());
            proof {
                self.history@ = self.history@.push(
                    Fetch::Read(Request { expect_masked: L::masked(), outcome: r }),
                );
            }
            r
        }
    }

    /// Puts the control frames that an assembly has set aside behind the
    /// pending frames.
    fn set_aside(&mut self, kept: Vec<DataFrame>)
        ensures
            final(self).pending() == old(self).pending() + kept@,
            final(self).source() == old(self).source(),
            final(self).held() == old(self).held(),
            final(self).history() == old(self).history(),
            final(self).requests() == old(self).requests(),
    {
        let mut kept = kept;
        self.pending.append(&mut kept);
    }

    /// Fetches frames and feeds them to the assembly until it ends.
    fn assemble_dataframes(&mut self, keep: bool) -> (r: Result<Vec<DataFrame>, WebSocketError>)
        requires
            old(self).wf(),
        ensures
            final(self).wf(),
            old(self).fetched_until(*final(self)),
            old(self).assembly_until(*final(self), keep) matches Some(a) && {
                &&& delivers_dataframes(r, a.outcome)
                &&& old(self).left_as(*final(self), a)
            },
    {
        let mut kept: Vec<DataFrame> = Vec::new();
        let ghost fetches: Seq<Fetch> = Seq::empty();
        let ghost asked: Seq<Request> = Seq::empty();
        proof {
            assert(self.history() == old(self).history() + fetches);
            assert(self.requests() == old(self).requests() + asked);
            assert(old(self).pending().take(old(self).pending().len() as int) == old(
                self,
            ).pending());
        }
        loop
            invariant
                self.wf(),
                all_control(kept@),
                kept@.len() <= usize::MAX,
                self.history() == old(self).history() + fetches,
                self.requests() == old(self).requests() + asked,
                asked_with(asked, L::masked()),
                drawn(old(self).pending(), asked, fetches),
                self.pending() == if fetches.len() < old(self).pending().len() {
                    old(self).pending().take(old(self).pending().len() - fetches.len())
                } else {
                    Seq::empty()
                },
                gather(keep, old(self).held(), results(fetches)) == Some(
                    Gathered { held: self.held(), kept: kept@ },
                ),
            decreases 2 * usize::MAX - self.held().len() - kept@.len(),
        {
            let ghost before = *self;
            let ghost gathered = Gathered { held: self.held(), kept: kept@ };
            let fetched = self.recv_dataframe();
            proof {
                let fetch = self.history().last();
                assert(fetch.result() == fetched);
                let longer = fetches.push(fetch);
                let asked_now = if before.pending().len() > 0 {
                    asked
                } else {
                    asked.push(self.requests().last())
                };
                assert(self.history() == old(self).history() + longer);
                assert(self.requests() == old(self).requests() + asked_now);
                assert(old(self).requests_until(*self) == asked_now);
                assert(results(longer) == results(fetches).push(fetched));
                assert(results(longer).drop_last() == results(fetches));
                assert(old(self).fetches_until(*self) == longer);
                if before.pending().len() > 0 {
                    let left = old(self).pending().len() - fetches.len();
                    assert(before.pending().last() == old(self).pending()[left - 1]);
                    assert(before.pending().drop_last() == old(self).pending().take(left - 1));
                }
                fetches = longer;
                asked = asked_now;
            }
            let frame = match fetched {
                Ok(frame) => frame,
                Err(e) => {
                    let ghost left = self.pending();
                    self.set_aside(kept);
                    proof {
                        assert(old(self).left_pending(*self) == left);
                    }
                    return Err(e);
                },
            };
            match self.open.accept(frame) {
                Ok(Progress::Incomplete) => {},
                Ok(Progress::Control(control)) => {
                    if keep {
                        kept.push(control);
                        assert(kept.len() <= usize::MAX);
                    } else {
                        let ghost left = self.pending();
                        self.set_aside(kept);
                        proof {
                            assert(old(self).left_pending(*self) == left);
                        }
                        let mut alone: Vec<DataFrame> = Vec::new();
                        alone.push(control);
                        assert(alone@ == seq![control]);
                        return Ok(alone);
                    }
                },
                Ok(Progress::Message(frames)) => {
                    let ghost left = self.pending();
                    self.set_aside(kept);
                    proof {
                        assert(old(self).left_pending(*self) == left);
                    }
                    return Ok(frames);
                },
                Err(e) => {
                    let ghost left = self.pending();
                    self.set_aside(kept);
                    proof {
                        assert(old(self).left_pending(*self) == left);
                    }
                    return Err(e);
                },
            }
        }
    }

    /// Returns the data frames that constitute one message, or the one
    /// control frame that came between two of its fragments.
    ///
    /// Frames are fetched until one ends the assembly. A frame that
    /// completes the message ends it: all the fragments come back, in order,
    /// and the receiver is idle again. A control frame between two
    /// fragments ends it too: it comes back alone, and the fragments
    /// fetched so far stay with the receiver, for the next call to go on
    /// from. A frame that breaks the rules of the protocol, or an error of
    /// the source, ends it with that error; the fragments stay as they
    /// were before that fetch.
    pub fn recv_message_dataframes(&mut self) -> (r: Result<Vec<DataFrame>, WebSocketError>)
        requires
            old(self).wf(),
        ensures
            final(self).wf(),
            old(self).fetched_until(*final(self)),
            old(self).assembly_until(*final(self), false) matches Some(a) && {
                &&& delivers_dataframes(r, a.outcome)
                &&& old(self).left_as(*final(self), a)
            },
    {
        self.assemble_dataframes(false)
    }

    /// Returns one whole message.
    ///
    /// Frames are fetched until one completes the message, or breaks the
    /// rules of the protocol, or the source fails. Control frames that come
    /// between two fragments are set aside, and are pending after the
    /// call: the one that came last is the next to be handed out.
    pub fn recv_message(&mut self) -> (r: Result<Message, WebSocketError>)
        requires
            old(self).wf(),
        ensures
            final(self).wf(),
            old(self).fetched_until(*final(self)),
            old(self).assembly_until(*final(self), true) matches Some(a) && {
                &&& delivers_message(r, a.outcome)
                &&& old(self).left_as(*final(self), a)
            },
    {
        match self.assemble_dataframes(true) {
            Ok(frames) => Message::from_dataframes(frames),
            Err(e) => Err(e),
        }
    }
}

impl<S: DataFrameSource, L: Role> WebSocketReceiver<S, L> {
    /// A receiver asks its source as its role demands: every request to the
    /// source among the fetches between two states of a receiver was made
    /// with the expectation of the receiver's end, and is the request on
    /// the record of the source at that place.
    pub proof fn lemma_source_asked_by_role(self, after: Self, i: int)
        requires
            self.fetched_until(after),
            0 <= i < self.fetches_until(after).len(),
            self.fetches_until(after)[i] matches Fetch::Read(request),
        ensures
            self.fetches_until(after)[i]->Read_0.expect_masked == L::masked(),
            self.fetches_until(after)[i]->Read_0 == self.requests_until(after)[i
                - self.pending().len()],
    {
    }

    /// Pending frames come first: the source is asked only after every
    /// frame that was pending has been fetched, and each of them is fetched
    /// as it was, the one set aside last before the others.
    pub proof fn lemma_pending_before_source(self, after: Self, i: int)
        requires
            self.fetched_until(after),
            0 <= i < self.fetches_until(after).len(),
        ensures
            i < self.pending().len() ==> self.fetches_until(after)[i] == Fetch::Pending(
                self.pending()[self.pending().len() - 1 - i],
            ),
            self.fetches_until(after)[i] is Read ==> i >= self.pending().len(),
    {
    }
}

impl<S: DataFrameSource> WebSocketReceiver<S, Remote> {
    /// The receiver at the end that accepted the connection expects masked
    /// frames, every time that it asks its source.
    pub proof fn lemma_remote_expects_masked(self, after: Self, i: int)
        requires
            self.fetched_until(after),
            0 <= i < self.fetches_until(after).len(),
            self.fetches_until(after)[i] is Read,
        ensures
            self.fetches_until(after)[i]->Read_0.expect_masked,
    {
    }
}

impl<S: DataFrameSource> WebSocketReceiver<S, Local> {
    /// The receiver at the end that opened the connection expects frames
    /// that are not masked, every time that it asks its source.
    pub proof fn lemma_local_expects_unmasked(self, after: Self, i: int)
        requires
            self.fetched_until(after),
            0 <= i < self.fetches_until(after).len(),
            self.fetches_until(after)[i] is Read,
        ensures
            !self.fetches_until(after)[i]->Read_0.expect_masked,
    {
    }
}

} // verus!
