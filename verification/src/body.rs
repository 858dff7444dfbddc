use vstd::prelude::*;
use crate::buf::hyper_buf;
use crate::code::{continues, iter_continues};
use crate::error::hyper_error;

verus! {

/// `hyper::Body`, a stream of byte chunks that is read once.
#[verifier::external_type_specification]
#[verifier::external_body]
pub struct ExBody(hyper::Body);

/// The payload of a message: nothing at all, or a stream that is still to
/// be read. It has one owner, and whoever reads it reads it once.
pub struct hyper_body {
    stream: Option<hyper::Body>,
}

impl hyper_body {
    /// The stream behind this body; `None` for the empty body.
    pub closed spec fn stream(&self) -> Option<hyper::Body> {
        self.stream
    }

    /// The empty body: it ends before any chunk.
    pub fn empty() -> (r: hyper_body)
        ensures
            r.stream() is None,
    {
        hyper_body { stream: None }
    }

    /// A body that is read from `stream`.
    pub fn new(stream: hyper::Body) -> (r: hyper_body)
        ensures
            r.stream() == Some(stream),
    {
        hyper_body { stream: Some(stream) }
    }

    /// Whether this is the empty body.
    pub fn is_empty(&self) -> (r: bool)
        ensures
            r == (self.stream() is None),
    {
        self.stream.is_none()
    }

    /// Lends the stream for one read; `None` for the empty body. The body
    /// keeps the stream, in the state in which the read leaves it.
    pub fn stream_mut(&mut self) -> (r: Option<&mut hyper::Body>)
        ensures
            old(self).stream() is None ==> r is None && final(self).stream() is None,
            old(self).stream() matches Some(stream) ==> {
                &&& r matches Some(lent)
                &&& *lent == stream
                &&& final(self).stream() == Some(*final(lent))
            },
    {
        match &mut self.stream {
            Some(stream) => Some(stream),
            None => None,
        }
    }

    /// Gives the stream away to be read; `None` for the empty body.
    pub fn into_stream(self) -> (r: Option<hyper::Body>)
        ensures
            r == self.stream(),
    {
        self.stream
    }
}

/// What one read of a body's stream gave.
pub enum ReadEvent {
    /// The next chunk of data.
    Chunk(hyper_buf),
    /// The stream has ended; there is no more data.
    End,
    /// The read failed.
    Failed(hyper_error),
}

impl ReadEvent {
    /// What a read gave, told from the item that the stream handed out: a
    /// chunk, a failure, or nothing more.
    pub fn from_item(item: Option<Result<hyper_buf, hyper_error>>) -> (r: ReadEvent)
        ensures
            r == match item {
                Some(Ok(buf)) => ReadEvent::Chunk(buf),
                Some(Err(error)) => ReadEvent::Failed(error),
                None => ReadEvent::End,
            },
    {
        match item {
            Some(Ok(buf)) => ReadEvent::Chunk(buf),
            Some(Err(error)) => ReadEvent::Failed(error),
            None => ReadEvent::End,
        }
    }
}

/// What a task that reads a body finishes with.
pub enum BodyOutput {
    /// A chunk of data.
    Buf(hyper_buf),
    /// Nothing: the body has ended, or its consumer has stopped.
    Empty,
    /// The failure that ended the reading.
    Error(hyper_error),
}

/// What a single-step pull finishes with after a read: the chunk, nothing
/// at the end of the stream, or the failure.
pub open spec fn pull_output(event: ReadEvent) -> BodyOutput {
    match event {
        ReadEvent::Chunk(buf) => BodyOutput::Buf(buf),
        ReadEvent::End => BodyOutput::Empty,
        ReadEvent::Failed(error) => BodyOutput::Error(error),
    }
}

/// Decides what a single-step pull finishes with, given what the read
/// gave. A read at the end of the stream gives nothing, however often it
/// is repeated; an error comes only from a read that failed.
pub fn data_output(event: ReadEvent) -> (r: BodyOutput)
    ensures
        r == pull_output(event),
        event is End ==> r is Empty,
        r is Error ==> event is Failed,
{
    match event {
        ReadEvent::Chunk(buf) => BodyOutput::Buf(buf),
        ReadEvent::End => BodyOutput::Empty,
        ReadEvent::Failed(error) => BodyOutput::Error(error),
    }
}

/// What a drain does next.
pub enum DrainStep {
    /// Hand this chunk to the callback, and report what it returned.
    Deliver(hyper_buf),
    /// Read the stream again.
    Read,
    /// The task is finished, with this output.
    Finish(BodyOutput),
}

/// The step of a drain after a read: a chunk goes to the callback, the end
/// of the stream finishes the task with nothing, a failure finishes it with
/// the error.
pub open spec fn step_after_read(event: ReadEvent) -> DrainStep {
    match event {
        ReadEvent::Chunk(buf) => DrainStep::Deliver(buf),
        ReadEvent::End => DrainStep::Finish(BodyOutput::Empty),
        ReadEvent::Failed(error) => DrainStep::Finish(BodyOutput::Error(error)),
    }
}

/// The step of a drain after the callback returned `signal`: it reads on
/// where the callback asked to continue, and finishes with nothing, not
/// with an error, where the callback stopped.
pub open spec fn step_after_signal(signal: i32) -> DrainStep {
    if continues(signal) {
        DrainStep::Read
    } else {
        DrainStep::Finish(BodyOutput::Empty)
    }
}

/// Decides the step of a drain after a read of the stream.
pub fn foreach_after_read(event: ReadEvent) -> (r: DrainStep)
    ensures
        r == step_after_read(event),
{
    match event {
        ReadEvent::Chunk(buf) => DrainStep::Deliver(buf),
        ReadEvent::End => DrainStep::Finish(BodyOutput::Empty),
        ReadEvent::Failed(error) => DrainStep::Finish(BodyOutput::Error(error)),
    }
}

/// Decides the step of a drain after the callback returned.
pub fn foreach_after_signal(signal: i32) -> (r: DrainStep)
    ensures
        r == step_after_signal(signal),
{
    if iter_continues(signal) {
        DrainStep::Read
    } else {
        DrainStep::Finish(BodyOutput::Empty)
    }
}

/// The course of a drain: the chunks that the callback was handed, in
/// order, and the output of the task, if it has finished.
pub struct DrainTrace {
    pub delivered: Seq<hyper_buf>,
    pub output: Option<BodyOutput>,
}

/// The course of a drain over `reads`, the results of reading the stream
/// one after the other, where `signals` are the callback's answers, one
/// for each chunk. The drain is unfinished where the reads run out before
/// the stream ends or the callback stops.
pub open spec fn drain(reads: Seq<ReadEvent>, signals: Seq<i32>) -> DrainTrace
    decreases reads.len(),
{
    if reads.len() == 0 {
        DrainTrace { delivered: Seq::empty(), output: None }
    } else {
        match step_after_read(reads[0]) {
            DrainStep::Deliver(buf) => {
                if signals.len() == 0 {
                    DrainTrace { delivered: seq![buf], output: None }
                } else {
                    match step_after_signal(signals[0]) {
                        DrainStep::Finish(output) => DrainTrace { delivered: seq![buf], output: Some(output) },
                        _ => {
                            let rest = drain(reads.drop_first(), signals.drop_first());
                            DrainTrace { delivered: seq![buf] + rest.delivered, output: rest.output }
                        },
                    }
                }
            },
            DrainStep::Finish(output) => DrainTrace { delivered: Seq::empty(), output: Some(output) },
            DrainStep::Read => DrainTrace { delivered: Seq::empty(), output: None },
        }
    }
}

/// The reads of a stream that gives `chunks` and then ends.
pub open spec fn reads_of(chunks: Seq<hyper_buf>) -> Seq<ReadEvent> {
    Seq::new(chunks.len() + 1, |i: int| if i < chunks.len() { ReadEvent::Chunk(chunks[i]) } else { ReadEvent::End })
}

/// A drain whose callback always asks to continue hands over every chunk
/// once, in the order in which the stream gave them, and finishes with
/// nothing.
pub proof fn law_drain_delivers_every_chunk(chunks: Seq<hyper_buf>, signals: Seq<i32>)
    requires
        signals.len() == chunks.len(),
        forall|i: int| 0 <= i < signals.len() ==> continues(#[trigger] signals[i]),
    ensures
        drain(reads_of(chunks), signals).delivered == chunks,
        drain(reads_of(chunks), signals).output == Some(BodyOutput::Empty),
    decreases chunks.len(),
{
    let reads = reads_of(chunks);
    if chunks.len() == 0 {
        assert(drain(reads, signals).delivered =~= chunks);
    } else {
        assert(reads.drop_first() =~= reads_of(chunks.drop_first()));
        assert(continues(signals[0]));
        assert forall|i: int| 0 <= i < signals.drop_first().len() implies continues(
            #[trigger] signals.drop_first()[i],
        ) by {
            assert(signals.drop_first()[i] == signals[i + 1]);
        }
        law_drain_delivers_every_chunk(chunks.drop_first(), signals.drop_first());
        assert(seq![chunks[0]] + chunks.drop_first() =~= chunks);
    }
}

/// A drain whose callback stops at a chunk hands over the chunks up to
/// that one and no more, and finishes with nothing, not with an error,
/// whatever the stream would have given after it.
pub proof fn law_drain_stops_at_the_callback(reads: Seq<ReadEvent>, signals: Seq<i32>, at: int)
    requires
        0 <= at < signals.len(),
        at < reads.len(),
        forall|i: int| 0 <= i <= at ==> (#[trigger] reads[i]) is Chunk,
        forall|i: int| 0 <= i < at ==> continues(#[trigger] signals[i]),
        !continues(signals[at]),
    ensures
        drain(reads, signals).delivered == Seq::new((at + 1) as nat, |i: int| reads[i]->Chunk_0),
        drain(reads, signals).output == Some(BodyOutput::Empty),
    decreases at,
{
    let expected = Seq::new((at + 1) as nat, |i: int| reads[i]->Chunk_0);
    assert(reads[0] is Chunk);
    if at == 0 {
        assert(drain(reads, signals).delivered =~= expected);
    } else {
        assert(continues(signals[0]));
        let rest_reads = reads.drop_first();
        let rest_signals = signals.drop_first();
        assert forall|i: int| 0 <= i <= at - 1 implies (#[trigger] rest_reads[i]) is Chunk by {
            assert(rest_reads[i] == reads[i + 1]);
        }
        assert forall|i: int| 0 <= i < at - 1 implies continues(#[trigger] rest_signals[i]) by {
            assert(rest_signals[i] == signals[i + 1]);
        }
        assert(rest_signals[at - 1] == signals[at]);
        law_drain_stops_at_the_callback(rest_reads, rest_signals, at - 1);
        assert(drain(reads, signals).delivered =~= expected) by {
            let rest = drain(rest_reads, rest_signals).delivered;
            assert forall|i: int| 0 <= i < expected.len() implies (seq![reads[0]->Chunk_0] + rest)[i]
                == expected[i] by {
                if i > 0 {
                    assert(rest[i - 1] == rest_reads[i - 1]->Chunk_0);
                    assert(rest_reads[i - 1] == reads[i]);
                }
            }
        }
    }
}

} // verus!
