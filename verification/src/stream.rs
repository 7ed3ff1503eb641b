//! The decisions of a streamed text generation: after each token read, which
//! events go to the client and whether to read again. The reads themselves
//! happen outside; this state machine is told what each read returned.
use vstd::prelude::*;
use crate::hailort::CompletionStatus;
use crate::requests::MAX_STREAM_READS;

verus! {

/// One event sent to the client of a streamed generation.
#[derive(Debug, Clone, PartialEq, Eq)]
pub enum StreamEvent {
    /// A token, as read.
    Token(String),
    /// The generation ended; the text of every token read, in order.
    Done(String),
    /// The read limit was reached while the model was still generating.
    Exceeded,
}

/// A generation in progress: how many reads were taken, the text read so
/// far, and whether the stream is over.
pub struct TokenStream {
    reads: usize,
    text: String,
    finished: bool,
}

impl TokenStream {
    /// Reads taken so far.
    pub closed spec fn reads(&self) -> nat {
        self.reads as nat
    }

    /// The tokens read so far, concatenated.
    pub closed spec fn text(&self) -> Seq<char> {
        self.text@
    }

    /// No more reads are to be taken.
    pub closed spec fn finished(&self) -> bool {
        self.finished
    }

    /// The read count never passes the limit, and reaching it ends the stream.
    pub open spec fn wf(&self) -> bool {
        &&& self.reads() <= MAX_STREAM_READS
        &&& self.reads() == MAX_STREAM_READS ==> self.finished()
    }

    /// A generation before its first read.
    pub fn new() -> (r: TokenStream)
        ensures
            r.wf(),
            r.reads() == 0,
            r.text() == Seq::<char>::empty(),
            !r.finished(),
    {
        TokenStream { reads: 0, text: String::new(), finished: false }
    }

    /// Whether another read is to be taken.
    pub fn can_read(&self) -> (r: bool)
        ensures
            r == !self.finished(),
    {
        !self.finished
    }

    /// A read returned `token` with `status`. The token is always sent; when
    /// the generation ended, the whole text follows; when it goes on but this
    /// was the last read allowed, the limit event follows. The stream is over
    /// in both of those cases.
    pub fn on_read(&mut self, token: &str, status: &CompletionStatus) -> (r: Vec<StreamEvent>)
        requires
            old(self).wf(),
            !old(self).finished(),
        ensures
            final(self).wf(),
            final(self).reads() == old(self).reads() + 1,
            final(self).text() == old(self).text() + token@,
            final(self).finished() == (!(status is Generating) || final(self).reads() == MAX_STREAM_READS),
            r@.len() >= 1,
            r@[0] matches StreamEvent::Token(t) && t@ == token@,
            !(status is Generating) ==> r@.len() == 2 && (r@[1] matches StreamEvent::Done(all) && all@
                == final(self).text()),
            status is Generating && final(self).reads() == MAX_STREAM_READS ==> r@.len() == 2 && r@[1] is Exceeded,
            status is Generating && final(self).reads() < MAX_STREAM_READS ==> r@.len() == 1,
    {
        self.reads = self.reads + 1;
        self.text.append(token);
        let mut events: Vec<StreamEvent> = Vec::new();
        events.push(StreamEvent::Token(String::from_str(token)));
        if !status.is_generating() {
            self.finished = true;
            events.push(StreamEvent::Done(self.text.clone()));
        } else if self.reads == MAX_STREAM_READS {
            self.finished = true;
            events.push(StreamEvent::Exceeded);
        }
        events
    }
}

} // verus!
