use vstd::prelude::*;

verus! {

/// What travels down the job queue: a unit of work, or the signal that tells
/// exactly one worker to stop.
pub enum Message<J> {
    NewJob(J),
    Terminate,
}

impl<J> Message<J> {
    pub fn is_terminate(&self) -> (r: bool)
        ensures
            r == (*self is Terminate),
    {
        match self {
            Message::NewJob(_) => false,
            Message::Terminate => true,
        }
    }
}

} // verus!
