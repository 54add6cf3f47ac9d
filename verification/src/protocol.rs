//! The transport-level message model: headers, the raw body, and the typed
//! body projection that task parameters are decoded into.
use vstd::prelude::*;

verus! {

/// Headers of a wire message. `task` names the task kind, `id` is the
/// correlation id, `eta` is an optional absolute timestamp (seconds) before
/// which the task must not run, `retries` counts prior retries, and
/// `expires` is an optional absolute expiration timestamp.
pub struct Headers {
    pub task: String,
    pub id: String,
    pub eta: Option<u64>,
    pub retries: Option<u64>,
    pub expires: Option<u64>,
}

impl Clone for Headers {
    fn clone(&self) -> (r: Self)
        ensures
            r.task@ == self.task@,
            r.id@ == self.id@,
            r.eta == self.eta,
            r.retries == self.retries,
            r.expires == self.expires,
    {
        Headers {
            task: self.task.clone(),
            id: self.id.clone(),
            eta: self.eta,
            retries: self.retries,
            expires: self.expires,
        }
    }
}

/// A transport-level message: headers plus the opaque byte body carrying the
/// encoded task parameters. Immutable after receipt.
pub struct Message {
    pub headers: Headers,
    pub raw_body: Vec<u8>,
}

impl Message {
    /// Build a message for sending: the given task name and body bytes, a
    /// fresh correlation id, and no ETA, retry count or expiration.
    pub fn new(task: String, id: String, raw_body: Vec<u8>) -> (r: Self)
        ensures
            r.headers.task@ == task@,
            r.headers.id@ == id@,
            r.headers.eta is None,
            r.headers.retries is None,
            r.headers.expires is None,
            r.raw_body@ == raw_body@,
    {
        Message { headers: Headers { task, id, eta: None, retries: None, expires: None }, raw_body }
    }

    /// The retry count recovered from the headers; a message that never
    /// carried one has been retried zero times.
    pub fn retry_count(&self) -> (r: u64)
        ensures
            r == retries_of(self.headers.retries),
    {
        match self.headers.retries {
            Some(n) => n,
            None => 0,
        }
    }
}

/// The retry count a tracer recovers from optional headers: absent means 0.
pub open spec fn retries_of(retries: Option<u64>) -> u64 {
    match retries {
        Some(n) => n,
        None => 0,
    }
}

/// One keyword argument of a task invocation: an ASCII identifier key and
/// its value.
pub struct Kwarg {
    pub key: Vec<u8>,
    pub value: u64,
}

impl View for Kwarg {
    type V = (Seq<u8>, u64);

    open spec fn view(&self) -> (Seq<u8>, u64) {
        (self.key@, self.value)
    }
}

/// The typed projection of a raw body: the positional arguments and keyword
/// arguments of one task invocation.
pub struct MessageBody {
    pub args: Vec<u64>,
    pub kwargs: Vec<Kwarg>,
}

/// The mathematical content of a message body.
pub struct BodyView {
    pub args: Seq<u64>,
    pub kwargs: Seq<(Seq<u8>, u64)>,
}

impl View for MessageBody {
    type V = BodyView;

    open spec fn view(&self) -> BodyView {
        BodyView {
            args: self.args@,
            kwargs: self.kwargs@.map(|j: int, kw: Kwarg| kw@),
        }
    }
}

} // verus!
