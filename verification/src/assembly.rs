//! The state machine that puts the fragments of a message together.
//!
//! Between two frames the machine is idle (it holds no frame) or it holds the
//! fragments of the one message that is open. A frame extends the held
//! fragments, completes the message, stands between two fragments as a
//! control frame, or breaks the rules of the protocol.

use vstd::prelude::*;
use crate::dataframe::{DataFrame, OpcodeClass};
use crate::result::{unexpected_continuation, unexpected_data, WebSocketError};

verus! {

/// What a frame does to the machine.
pub enum Transition {
    /// The frame is held as a fragment; the message stays open.
    Extend,
    /// The frame is the last fragment: the message is complete.
    Complete,
    /// The frame is a control frame between two fragments.
    Interleave,
    /// The frame continues a message, and none is open.
    UnexpectedContinuation,
    /// The frame starts a message, and another is still open.
    UnexpectedData,
}

/// What `frame` does to a machine that holds fragments (`in_progress`) or
/// is idle.
///
/// An idle machine takes any frame but a continuation as the first fragment
/// of a message. A machine in progress takes continuations as further
/// fragments and lets control frames through.
pub open spec fn transition(in_progress: bool, frame: DataFrame) -> Transition {
    if !in_progress {
        if frame.opcode.spec_class() is Continuation {
            Transition::UnexpectedContinuation
        } else if frame.finished {
            Transition::Complete
        } else {
            Transition::Extend
        }
    } else {
        match frame.opcode.spec_class() {
            OpcodeClass::Continuation => if frame.finished {
                Transition::Complete
            } else {
                Transition::Extend
            },
            OpcodeClass::Control => Transition::Interleave,
            OpcodeClass::Data => Transition::UnexpectedData,
        }
    }
}

/// Whether `frames` can be the fragments of a message that is still open:
/// none is the last fragment, the first is no continuation, and all the
/// others are.
pub open spec fn is_open_run(frames: Seq<DataFrame>) -> bool {
    forall|i: int|
        0 <= i < frames.len() ==> {
            &&& !(#[trigger] frames[i]).finished
            &&& (frames[i].opcode.spec_class() is Continuation <==> i > 0)
        }
}

/// Whether `frames` are the fragments of one whole message: there is at
/// least one, the last and no other is marked as the last fragment, the
/// first is no continuation, and all the others are.
pub open spec fn is_message(frames: Seq<DataFrame>) -> bool {
    &&& frames.len() > 0
    &&& forall|i: int|
        0 <= i < frames.len() ==> {
            &&& ((#[trigger] frames[i]).finished <==> i == frames.len() - 1)
            &&& (frames[i].opcode.spec_class() is Continuation <==> i > 0)
        }
}

/// What was fetched for the machine: a frame, or the error of the source
/// that was asked for one.
pub type Fetched = Result<DataFrame, WebSocketError>;

/// How the assembly of a message ends.
pub enum Outcome {
    /// With a whole message: these are its fragments, in order.
    Message(Seq<DataFrame>),
    /// With a control frame that stood between two fragments.
    Control(DataFrame),
    /// With a continuation frame where no message was open.
    UnexpectedContinuation,
    /// With a frame that starts a message where another was still open.
    UnexpectedData,
    /// With an error of the source.
    Failed(WebSocketError),
}

/// Where an assembly stands between two frames.
pub struct Gathered {
    /// The fragments held.
    pub held: Seq<DataFrame>,
    /// The control frames set aside, in the order in which they came.
    pub kept: Seq<DataFrame>,
}

/// An assembly that has ended.
pub struct Assembly {
    /// How it ended.
    pub outcome: Outcome,
    /// The fragments that the machine still holds.
    pub held: Seq<DataFrame>,
    /// The control frames set aside, in the order in which they came.
    pub kept: Seq<DataFrame>,
}

/// Where an assembly that began with `held` stands after `fetched`, none of
/// which ends it; `None` if one of them does.
///
/// A frame that extends the held fragments does not end the assembly. A
/// control frame between two fragments is set aside if `keep` is set, and
/// ends the assembly if not. Everything else ends it.
pub open spec fn gather(keep: bool, held: Seq<DataFrame>, fetched: Seq<Fetched>) -> Option<
    Gathered,
>
    decreases fetched.len(),
{
    if fetched.len() == 0 {
        Some(Gathered { held, kept: Seq::empty() })
    } else {
        match (gather(keep, held, fetched.drop_last()), fetched.last()) {
            (Some(g), Ok(frame)) => match transition(g.held.len() > 0, frame) {
                Transition::Extend => Some(Gathered { held: g.held.push(frame), kept: g.kept }),
                Transition::Interleave => if keep {
                    Some(Gathered { held: g.held, kept: g.kept.push(frame) })
                } else {
                    None
                },
                _ => None,
            },
            _ => None,
        }
    }
}

/// How `last` ends an assembly that stands at `g`; `None` if it does not
/// end it.
pub open spec fn conclude(keep: bool, g: Gathered, last: Fetched) -> Option<Assembly> {
    match last {
        Err(e) => Some(Assembly { outcome: Outcome::Failed(e), held: g.held, kept: g.kept }),
        Ok(frame) => match transition(g.held.len() > 0, frame) {
            Transition::Extend => None,
            Transition::Complete => Some(
                Assembly {
                    outcome: Outcome::Message(g.held.push(frame)),
                    held: Seq::empty(),
                    kept: g.kept,
                },
            ),
            Transition::Interleave => if keep {
                None
            } else {
                Some(Assembly { outcome: Outcome::Control(frame), held: g.held, kept: g.kept })
            },
            Transition::UnexpectedContinuation => Some(
                Assembly { outcome: Outcome::UnexpectedContinuation, held: g.held, kept: g.kept },
            ),
            Transition::UnexpectedData => Some(
                Assembly { outcome: Outcome::UnexpectedData, held: g.held, kept: g.kept },
            ),
        },
    }
}

/// The assembly that begins with `held`, is fed `fetched` and ends with the
/// last of them; `None` if it ends earlier or not at all.
///
/// With `keep` the assembly goes on until a message is whole or an error
/// ends it, and sets aside the control frames that stand between the
/// fragments. Without `keep` such a control frame ends it.
pub open spec fn assemble(keep: bool, held: Seq<DataFrame>, fetched: Seq<Fetched>) -> Option<
    Assembly,
> {
    if fetched.len() == 0 {
        None
    } else {
        match gather(keep, held, fetched.drop_last()) {
            Some(g) => conclude(keep, g, fetched.last()),
            None => None,
        }
    }
}

/// Each frame of `frames`, as fetched without an error.
pub open spec fn fetched_all(frames: Seq<DataFrame>) -> Seq<Fetched> {
    frames.map_values(|frame: DataFrame| Ok::<DataFrame, WebSocketError>(frame))
}

/// Fragments that extend what is held do not end an assembly: where `held`
/// followed by `frames` can be the fragments of an open message, gathering
/// `frames` leaves all of them held, in order, and sets nothing aside.
pub proof fn lemma_fragments_are_held(keep: bool, held: Seq<DataFrame>, frames: Seq<DataFrame>)
    requires
        is_open_run(held + frames),
    ensures
        gather(keep, held, fetched_all(frames)) == Some(
            Gathered { held: held + frames, kept: Seq::empty() },
        ),
    decreases frames.len(),
{
    let fetched = fetched_all(frames);
    if frames.len() == 0 {
        assert(held + frames == held);
    } else {
        let front = frames.drop_last();
        let last = frames.last();
        assert forall|i: int| 0 <= i < (held + front).len() implies {
            &&& !(#[trigger] (held + front)[i]).finished
            &&& ((held + front)[i].opcode.spec_class() is Continuation <==> i > 0)
        } by {
            assert((held + front)[i] == (held + frames)[i]);
        }
        lemma_fragments_are_held(keep, held, front);
        assert(fetched.drop_last() == fetched_all(front));
        assert(fetched.last() == Ok::<DataFrame, WebSocketError>(last));
        assert((held + frames)[(held.len() + front.len()) as int] == last);
        assert(transition((held + front).len() > 0, last) is Extend);
        assert((held + front).push(last) == held + frames);
    }
}

/// A message that comes in fragments is handed over whole: where `held`
/// followed by `frames` are the fragments of one message, and `frames` has
/// the last of them, the assembly that begins with `held` and is fed
/// `frames` ends with that message, all fragments in the order in which
/// they came, and leaves nothing held and nothing set aside.
pub proof fn lemma_fragments_make_message(
    keep: bool,
    held: Seq<DataFrame>,
    frames: Seq<DataFrame>,
)
    requires
        frames.len() > 0,
        is_message(held + frames),
    ensures
        assemble(keep, held, fetched_all(frames)) == Some(
            Assembly {
                outcome: Outcome::Message(held + frames),
                held: Seq::empty(),
                kept: Seq::empty(),
            },
        ),
{
    let fetched = fetched_all(frames);
    let front = frames.drop_last();
    let last = frames.last();
    assert forall|i: int| 0 <= i < (held + front).len() implies {
        &&& !(#[trigger] (held + front)[i]).finished
        &&& ((held + front)[i].opcode.spec_class() is Continuation <==> i > 0)
    } by {
        assert((held + front)[i] == (held + frames)[i]);
    }
    lemma_fragments_are_held(keep, held, front);
    assert(fetched.drop_last() == fetched_all(front));
    assert(fetched.last() == Ok::<DataFrame, WebSocketError>(last));
    assert((held + frames)[(held.len() + front.len()) as int] == last);
    assert(transition((held + front).len() > 0, last) is Complete);
    assert((held + front).push(last) == held + frames);
}

/// A message of one frame is handed over at once: an idle assembly that is
/// fed one frame, which is no continuation and is marked as the last
/// fragment, ends with the message made of that frame, and is idle again.
pub proof fn lemma_unfragmented_message(keep: bool, frame: DataFrame)
    requires
        frame.finished,
        !(frame.opcode.spec_class() is Continuation),
    ensures
        assemble(keep, Seq::empty(), seq![Ok(frame)]) == Some(
            Assembly {
                outcome: Outcome::Message(seq![frame]),
                held: Seq::empty(),
                kept: Seq::empty(),
            },
        ),
{
    let frames = seq![frame];
    assert(Seq::<DataFrame>::empty() + frames == frames);
    assert(fetched_all(frames) == seq![Ok::<DataFrame, WebSocketError>(frame)]);
    lemma_fragments_make_message(keep, Seq::empty(), frames);
}

/// A message of `frames.len()` fragments is handed over as exactly those
/// fragments: an idle assembly that is fed the fragments of one message
/// ends with all of them, in the order in which they came, and is idle
/// again.
pub proof fn lemma_fragmented_message(keep: bool, frames: Seq<DataFrame>)
    requires
        is_message(frames),
    ensures
        assemble(keep, Seq::empty(), fetched_all(frames)) == Some(
            Assembly {
                outcome: Outcome::Message(frames),
                held: Seq::empty(),
                kept: Seq::empty(),
            },
        ),
{
    assert(Seq::<DataFrame>::empty() + frames == frames);
    lemma_fragments_make_message(keep, Seq::empty(), frames);
}

/// A control frame between two fragments does not touch the fragments:
/// where an assembly stands at `g` with a message open, a control frame
/// that is fetched next ends it, if control frames are not kept, with that
/// frame alone, and else is set aside behind those kept before; either way
/// the fragments held stay as they are.
pub proof fn lemma_control_between_fragments(
    keep: bool,
    held: Seq<DataFrame>,
    fetched: Seq<Fetched>,
    g: Gathered,
    control: DataFrame,
)
    requires
        gather(keep, held, fetched) == Some(g),
        g.held.len() > 0,
        control.opcode.spec_class() is Control,
    ensures
        !keep ==> assemble(keep, held, fetched.push(Ok(control))) == Some(
            Assembly { outcome: Outcome::Control(control), held: g.held, kept: g.kept },
        ),
        keep ==> gather(keep, held, fetched.push(Ok(control))) == Some(
            Gathered { held: g.held, kept: g.kept.push(control) },
        ),
{
    assert(fetched.push(Ok(control)).drop_last() == fetched);
}

/// A message cannot begin with a continuation: an idle assembly that is fed
/// a continuation frame ends with the error for it, and holds nothing
/// afterwards.
pub proof fn lemma_leading_continuation(keep: bool, frame: DataFrame)
    requires
        frame.opcode.spec_class() is Continuation,
    ensures
        assemble(keep, Seq::empty(), seq![Ok(frame)]) == Some(
            Assembly {
                outcome: Outcome::UnexpectedContinuation,
                held: Seq::empty(),
                kept: Seq::empty(),
            },
        ),
{
    let fetched = seq![Ok::<DataFrame, WebSocketError>(frame)];
    assert(fetched.drop_last() == Seq::<Fetched>::empty());
}

/// A message cannot begin while another is open: where an assembly stands
/// at `g` with a message open, a frame that starts a message ends it with
/// the error for it, and what was held and set aside stays.
pub proof fn lemma_data_in_open_message(
    keep: bool,
    held: Seq<DataFrame>,
    fetched: Seq<Fetched>,
    g: Gathered,
    frame: DataFrame,
)
    requires
        gather(keep, held, fetched) == Some(g),
        g.held.len() > 0,
        frame.opcode.spec_class() is Data,
    ensures
        assemble(keep, held, fetched.push(Ok(frame))) == Some(
            Assembly { outcome: Outcome::UnexpectedData, held: g.held, kept: g.kept },
        ),
{
    assert(fetched.push(Ok(frame)).drop_last() == fetched);
}

/// An error of the source ends an assembly with that error, and what was
/// held and set aside stays.
pub proof fn lemma_source_error(
    keep: bool,
    held: Seq<DataFrame>,
    fetched: Seq<Fetched>,
    g: Gathered,
    error: WebSocketError,
)
    requires
        gather(keep, held, fetched) == Some(g),
    ensures
        assemble(keep, held, fetched.push(Err(error))) == Some(
            Assembly { outcome: Outcome::Failed(error), held: g.held, kept: g.kept },
        ),
{
    assert(fetched.push(Err(error)).drop_last() == fetched);
}

/// What an assembly gathers keeps to the rules: where `held` can be the
/// fragments of an open message, so can what is held after `fetched`, which
/// begins with `held`; only control frames are set aside, and none unless
/// they are kept.
pub proof fn lemma_gather_keeps_rules(keep: bool, held: Seq<DataFrame>, fetched: Seq<Fetched>)
    requires
        is_open_run(held),
        gather(keep, held, fetched) is Some,
    ensures
        ({
            let g = gather(keep, held, fetched).unwrap();
            &&& is_open_run(g.held)
            &&& held.len() <= g.held.len()
            &&& g.held.take(held.len() as int) == held
            &&& forall|i: int|
                0 <= i < g.kept.len() ==> (#[trigger] g.kept[i]).opcode.spec_class() is Control
            &&& !keep ==> g.kept.len() == 0
        }),
    decreases fetched.len(),
{
    if fetched.len() == 0 {
        assert(held.take(held.len() as int) == held);
    } else {
        lemma_gather_keeps_rules(keep, held, fetched.drop_last());
        let before = gather(keep, held, fetched.drop_last()).unwrap();
        let after = gather(keep, held, fetched).unwrap();
        assert(after.held.take(held.len() as int) == before.held.take(held.len() as int));
    }
}

/// What an assembly hands over keeps to the rules: where `held` can be the
/// fragments of an open message, a message that the assembly ends with is
/// one whole message that begins with `held`, and leaves the assembly
/// idle; a control frame that it ends with is a control frame, and
/// leaves a message open; and whatever it ends with, what is held
/// afterwards can be the fragments of an open message.
pub proof fn lemma_assemble_keeps_rules(keep: bool, held: Seq<DataFrame>, fetched: Seq<Fetched>)
    requires
        is_open_run(held),
        assemble(keep, held, fetched) is Some,
    ensures
        ({
            let a = assemble(keep, held, fetched).unwrap();
            &&& is_open_run(a.held)
            &&& a.outcome matches Outcome::Message(frames) ==> {
                &&& is_message(frames)
                &&& held.len() < frames.len()
                &&& frames.take(held.len() as int) == held
                &&& a.held.len() == 0
            }
            &&& a.outcome matches Outcome::Control(frame) ==> {
                &&& frame.opcode.spec_class() is Control
                &&& a.held.len() > 0
                &&& !keep
            }
            &&& keep ==> !(a.outcome is Control)
            &&& !keep ==> a.kept.len() == 0
        }),
{
    lemma_gather_keeps_rules(keep, held, fetched.drop_last());
    let g = gather(keep, held, fetched.drop_last()).unwrap();
    let a = assemble(keep, held, fetched).unwrap();
    match a.outcome {
        Outcome::Message(frames) => {
            assert(frames.take(held.len() as int) == g.held.take(held.len() as int));
        },
        _ => {},
    }
}

/// What does not end an assembly did not end it earlier: where all of
/// `fetched` is gathered, so is every part of it from the start.
pub proof fn lemma_gather_from_the_start(
    keep: bool,
    held: Seq<DataFrame>,
    fetched: Seq<Fetched>,
    n: int,
)
    requires
        gather(keep, held, fetched) is Some,
        0 <= n <= fetched.len(),
    ensures
        gather(keep, held, fetched.take(n)) is Some,
    decreases fetched.len(),
{
    if n == fetched.len() {
        assert(fetched.take(n) == fetched);
    } else {
        lemma_gather_from_the_start(keep, held, fetched.drop_last(), n);
        assert(fetched.drop_last().take(n) == fetched.take(n));
    }
}

/// An assembly ends with the first frame that ends it, and not before:
/// where the assembly that is fed `fetched` ends with the last of them, no
/// shorter part of `fetched` from the start ends it; each is gathered, and
/// the assembly goes on.
pub proof fn lemma_assembly_ends_no_earlier(
    keep: bool,
    held: Seq<DataFrame>,
    fetched: Seq<Fetched>,
    n: int,
)
    requires
        assemble(keep, held, fetched) is Some,
        0 <= n < fetched.len(),
    ensures
        gather(keep, held, fetched.take(n)) is Some,
        assemble(keep, held, fetched.take(n)) is None,
{
    lemma_gather_from_the_start(keep, held, fetched.drop_last(), n);
    assert(fetched.drop_last().take(n) == fetched.take(n));
}

/// Nothing follows the frame that ends an assembly: where the assembly that
/// is fed `fetched` ends with the last of them, one that is fed `fetched`
/// and more does not end with the last of those, nor are they gathered.
pub proof fn lemma_assembly_ends_no_later(
    keep: bool,
    held: Seq<DataFrame>,
    fetched: Seq<Fetched>,
    longer: Seq<Fetched>,
)
    requires
        assemble(keep, held, fetched) is Some,
        fetched.len() < longer.len(),
        longer.take(fetched.len() as int) == fetched,
    ensures
        gather(keep, held, longer) is None,
        assemble(keep, held, longer) is None,
{
    let n = fetched.len() as int;
    assert(gather(keep, held, fetched) is None);
    if gather(keep, held, longer) is Some {
        lemma_gather_from_the_start(keep, held, longer, n);
    }
    if gather(keep, held, longer.drop_last()) is Some {
        lemma_gather_from_the_start(keep, held, longer.drop_last(), n);
        assert(longer.drop_last().take(n) == longer.take(n));
    }
}

/// One message leaves nothing for the next: after an assembly has ended
/// with a message, whatever it began with and was fed, the next assembly
/// begins idle, so that what it gives depends on what it is fed alone.
pub proof fn lemma_fresh_start(
    keep: bool,
    held: Seq<DataFrame>,
    fetched: Seq<Fetched>,
    other_held: Seq<DataFrame>,
    other_fetched: Seq<Fetched>,
    next_keep: bool,
    next: Seq<Fetched>,
)
    requires
        assemble(keep, held, fetched) matches Some(a) && a.outcome is Message,
        assemble(keep, other_held, other_fetched) matches Some(a) && a.outcome is Message,
    ensures
        assemble(keep, held, fetched).unwrap().held == Seq::<DataFrame>::empty(),
        assemble(next_keep, assemble(keep, held, fetched).unwrap().held, next) == assemble(
            next_keep,
            assemble(keep, other_held, other_fetched).unwrap().held,
            next,
        ),
        assemble(next_keep, assemble(keep, held, fetched).unwrap().held, next) == assemble(
            next_keep,
            Seq::empty(),
            next,
        ),
{
}

/// What the machine hands back for a frame that it has taken.
#[derive(Debug, PartialEq, Eq)]
pub enum Progress {
    /// The frame is held; the message needs more fragments.
    Incomplete,
    /// The message is complete: these are its fragments, in order.
    Message(Vec<DataFrame>),
    /// The frame is a control frame between two fragments, handed back as
    /// it came.
    Control(DataFrame),
}

/// The fragments of the message that is open, if one is.
pub struct Accumulator {
    buffer: Vec<DataFrame>,
}

impl View for Accumulator {
    type V = Seq<DataFrame>;

    closed spec fn view(&self) -> Seq<DataFrame> {
        self.buffer@
    }
}

impl Accumulator {
    /// What holds of every machine: the frames that it holds can be the
    /// fragments of an open message, and their number fits the machine.
    pub open spec fn wf(&self) -> bool {
        &&& is_open_run(self@)
        &&& self@.len() <= usize::MAX
    }

    /// An idle machine.
    pub fn new() -> (r: Accumulator)
        ensures
            r.wf(),
            r@ == Seq::<DataFrame>::empty(),
    {
        Accumulator { buffer: Vec::new() }
    }

    /// The number of fragments held.
    pub fn len(&self) -> (r: usize)
        ensures
            r == self@.len(),
    {
        self.buffer.len()
    }

    /// Whether a message is open.
    pub fn in_progress(&self) -> (r: bool)
        ensures
            r == (self@.len() > 0),
    {
        !self.buffer.is_empty()
    }

    /// Takes the next frame.
    ///
    /// The frame is held, or completes the held fragments to a message that
    /// is handed back, leaving the machine idle, or is handed back as a
    /// control frame. On an error the frame is dropped and the held
    /// fragments stay as they were.
    pub fn accept(&mut self, frame: DataFrame) -> (r: Result<Progress, WebSocketError>)
        requires
            old(self).wf(),
        ensures
            final(self).wf(),
            match transition(old(self)@.len() > 0, frame) {
                Transition::Extend => {
                    &&& r == Ok::<Progress, WebSocketError>(Progress::Incomplete)
                    &&& final(self)@ == old(self)@.push(frame)
                },
                Transition::Complete => {
                    &&& r matches Ok(Progress::Message(frames))
                    &&& frames@ == old(self)@.push(frame)
                    &&& is_message(frames@)
                    &&& final(self)@ == Seq::<DataFrame>::empty()
                },
                Transition::Interleave => {
                    &&& r == Ok::<Progress, WebSocketError>(Progress::Control(frame))
                    &&& final(self)@ == old(self)@
                },
                Transition::UnexpectedContinuation => {
                    &&& r matches Err(e)
                    &&& e.is_protocol_error(unexpected_continuation())
                    &&& final(self)@ == old(self)@
                },
                Transition::UnexpectedData => {
                    &&& r matches Err(e)
                    &&& e.is_protocol_error(unexpected_data())
                    &&& final(self)@ == old(self)@
                },
            },
    {
        let in_progress = !self.buffer.is_empty();
        assert(self.buffer.len() <= usize::MAX);
        match frame.opcode.class() {
            OpcodeClass::Continuation => {
                if !in_progress {
                    return Err(WebSocketError::protocol("unexpected continuation frame"));
                }
            },
            OpcodeClass::Control => {
                if in_progress {
                    return Ok(Progress::Control(frame));
                }
            },
            OpcodeClass::Data => {
                if in_progress {
                    return Err(WebSocketError::protocol("unexpected data frame opcode"));
                }
            },
        }
        let finished = frame.finished;
        if finished {
            let mut message: Vec<DataFrame> = Vec::new();
            core::mem::swap(&mut message, &mut self.buffer);
            message.push(frame);
            Ok(Progress::Message(message))
        } else {
            self.buffer.push(frame);
            assert(self.buffer.len() <= usize::MAX);
            Ok(Progress::Incomplete)
        }
    }
}

} // verus!
