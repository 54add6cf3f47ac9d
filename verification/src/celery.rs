//! The app type: worker-wide configuration, the task registry, and the
//! construction of a tracer for an incoming message.
use vstd::prelude::*;
use crate::codec::decode_body;
use crate::codec::encode_body;
use crate::codec::encode_body_spec;
use crate::codec::parse_body_spec;
use crate::errors::ErrorKind;
use crate::options::overrides_spec;
use crate::options::TaskOptions;
use crate::options::TaskOptionsOverrides;
use crate::protocol::Message;
use crate::protocol::MessageBody;
use crate::protocol::retries_of;
use crate::registry::TaskRegistry;
use crate::tracer::Tracer;

verus! {

/// Builds a worker app with a custom configuration.
pub struct CeleryBuilder {
    pub name: String,
    pub default_queue_name: String,
    pub task_options: TaskOptions,
}

impl CeleryBuilder {
    /// Start from the defaults: queue `celery`, no deadline, unbounded
    /// retries, backoff between 0 and 3600 seconds.
    pub fn new(name: String) -> (r: Self)
        ensures
            r.name@ == name@,
            r.default_queue_name@ == "celery"@,
            r.task_options.timeout is None,
            r.task_options.max_retries is None,
            r.task_options.min_retry_delay == 0,
            r.task_options.max_retry_delay == 3600,
    {
        CeleryBuilder {
            name,
            default_queue_name: "celery".to_owned(),
            task_options: TaskOptions::default_options(),
        }
    }

    /// Set the name of the default queue.
    pub fn default_queue_name(self, queue_name: String) -> (r: Self)
        ensures
            r.name@ == self.name@,
            r.default_queue_name@ == queue_name@,
            r.task_options == self.task_options,
    {
        CeleryBuilder { default_queue_name: queue_name, ..self }
    }

    /// Set a default timeout for tasks.
    pub fn task_timeout(self, task_timeout: u64) -> (r: Self)
        ensures
            r.name@ == self.name@,
            r.default_queue_name@ == self.default_queue_name@,
            r.task_options.timeout == Some(task_timeout),
            r.task_options.max_retries == self.task_options.max_retries,
            r.task_options.min_retry_delay == self.task_options.min_retry_delay,
            r.task_options.max_retry_delay == self.task_options.max_retry_delay,
    {
        CeleryBuilder {
            task_options: TaskOptions { timeout: Some(task_timeout), ..self.task_options },
            ..self
        }
    }

    /// Set a default maximum number of retries for tasks.
    pub fn task_max_retries(self, task_max_retries: u64) -> (r: Self)
        ensures
            r.name@ == self.name@,
            r.default_queue_name@ == self.default_queue_name@,
            r.task_options.timeout == self.task_options.timeout,
            r.task_options.max_retries == Some(task_max_retries),
            r.task_options.min_retry_delay == self.task_options.min_retry_delay,
            r.task_options.max_retry_delay == self.task_options.max_retry_delay,
    {
        CeleryBuilder {
            task_options: TaskOptions { max_retries: Some(task_max_retries), ..self.task_options },
            ..self
        }
    }

    /// Set a default minimum retry delay for tasks.
    pub fn task_min_retry_delay(self, task_min_retry_delay: u64) -> (r: Self)
        ensures
            r.name@ == self.name@,
            r.default_queue_name@ == self.default_queue_name@,
            r.task_options.timeout == self.task_options.timeout,
            r.task_options.max_retries == self.task_options.max_retries,
            r.task_options.min_retry_delay == task_min_retry_delay,
            r.task_options.max_retry_delay == self.task_options.max_retry_delay,
    {
        CeleryBuilder {
            task_options: TaskOptions {
                min_retry_delay: task_min_retry_delay,
                ..self.task_options
            },
            ..self
        }
    }

    /// Set a default maximum retry delay for tasks.
    pub fn task_max_retry_delay(self, task_max_retry_delay: u64) -> (r: Self)
        ensures
            r.name@ == self.name@,
            r.default_queue_name@ == self.default_queue_name@,
            r.task_options.timeout == self.task_options.timeout,
            r.task_options.max_retries == self.task_options.max_retries,
            r.task_options.min_retry_delay == self.task_options.min_retry_delay,
            r.task_options.max_retry_delay == task_max_retry_delay,
    {
        CeleryBuilder {
            task_options: TaskOptions {
                max_retry_delay: task_max_retry_delay,
                ..self.task_options
            },
            ..self
        }
    }

    /// Construct the app with the current configuration and an empty
    /// registry.
    pub fn build(self) -> (r: Celery)
        ensures
            r.name@ == self.name@,
            r.default_queue_name@ == self.default_queue_name@,
            r.task_options == self.task_options,
            r.registry.entries@.len() == 0,
            r.registry.wf(),
    {
        Celery {
            name: self.name,
            default_queue_name: self.default_queue_name,
            task_options: self.task_options,
            registry: TaskRegistry::new(),
        }
    }
}

/// A worker app: its name, default queue, default task options, and the
/// registry consulted on every delivery. The broker connection itself lives
/// with the host, which feeds deliveries in and carries effects out.
pub struct Celery {
    pub name: String,
    pub default_queue_name: String,
    pub task_options: TaskOptions,
    pub registry: TaskRegistry,
}

impl Celery {
    /// A builder for an app with a custom configuration.
    pub fn builder(name: String) -> (r: CeleryBuilder)
        ensures
            r.name@ == name@,
            r.default_queue_name@ == "celery"@,
            r.task_options.timeout is None,
            r.task_options.max_retries is None,
            r.task_options.min_retry_delay == 0,
            r.task_options.max_retry_delay == 3600,
    {
        CeleryBuilder::new(name)
    }

    /// An app with the given name and the default configuration.
    pub fn new(name: String) -> (r: Self)
        ensures
            r.name@ == name@,
            r.default_queue_name@ == "celery"@,
            r.task_options.timeout is None,
            r.task_options.max_retries is None,
            r.task_options.min_retry_delay == 0,
            r.task_options.max_retry_delay == 3600,
            r.registry.entries@.len() == 0,
            r.registry.wf(),
    {
        Celery::builder(name).build()
    }

    /// Register a task kind under its name with its option overrides. Fails
    /// with `TaskAlreadyExists` — leaving the registry unchanged — exactly
    /// when the name is already registered.
    pub fn register_task(&mut self, name: String, overrides: TaskOptionsOverrides) -> (r: Result<
        (),
        ErrorKind,
    >)
        requires
            old(self).registry.wf(),
        ensures
            final(self).registry.wf(),
            final(self).name@ == old(self).name@,
            final(self).default_queue_name@ == old(self).default_queue_name@,
            final(self).task_options == old(self).task_options,
            old(self).registry.contains_name(name@) ==> r == Result::<(), ErrorKind>::Err(
                ErrorKind::TaskAlreadyExists(name),
            ) && *final(self) == *old(self),
            !old(self).registry.contains_name(name@) ==> r is Ok
                && final(self).registry.entries@ == old(self).registry.entries@.push(
                crate::registry::TaskRegistration { name, overrides },
            ),
            final(self).registry.contains_name(name@),
    {
        self.registry.register_task(name, overrides)
    }

    /// Build the tracer for an incoming message: look the task up, compose
    /// the effective options, and decode the body. Fails with
    /// `UnregisteredTask` exactly when the task name is unknown, and with
    /// `ProtocolError` exactly when the body does not decode.
    pub fn get_task_tracer(&self, message: Message) -> (r: Result<Tracer, ErrorKind>)
        ensures
            !self.registry.contains_name(message.headers.task@) ==> r == Result::<
                Tracer,
                ErrorKind,
            >::Err(ErrorKind::UnregisteredTask(message.headers.task)),
            self.registry.contains_name(message.headers.task@) && parse_body_spec(
                message.raw_body@,
            ) is None ==> r == Result::<Tracer, ErrorKind>::Err(ErrorKind::ProtocolError),
            self.registry.contains_name(message.headers.task@) && parse_body_spec(
                message.raw_body@,
            ) is Some ==> r is Ok,
            r matches Ok(t) ==> {
                &&& self.registry.contains_name(message.headers.task@)
                &&& parse_body_spec(message.raw_body@) is Some
                &&& t.state is Armed
                &&& t.task_name@ == message.headers.task@
                &&& t.id@ == message.headers.id@
                &&& t.eta == message.headers.eta
                &&& t.retries == retries_of(message.headers.retries)
                &&& t.body@ == parse_body_spec(message.raw_body@)->0
                &&& exists|j: int|
                    0 <= j < self.registry.entries@.len() && (
                    #[trigger] self.registry.entries@[j]).name@ == message.headers.task@
                        && t.options == overrides_spec(
                        self.task_options,
                        self.registry.entries@[j].overrides,
                    )
            },
    {
        let ovr = match self.registry.get_overrides(&message.headers.task) {
            Ok(o) => o,
            Err(e) => {
                return Err(e);
            },
        };
        let effective = self.task_options.overrides(&ovr);
        let body = match decode_body(&message.raw_body) {
            Some(b) => b,
            None => {
                return Err(ErrorKind::ProtocolError);
            },
        };
        let retries = message.retry_count();
        Ok(
            Tracer::new(
                message.headers.task,
                message.headers.id,
                message.headers.eta,
                retries,
                effective,
                body,
            ),
        )
    }

    /// Prepare a message that enqueues one task invocation on a queue: the
    /// task name in the headers and the encoded parameters as the body.
    pub fn prepare_task_message(&self, task_name: String, id: String, body: &MessageBody) -> (m:
        Message)
        ensures
            m.headers.task@ == task_name@,
            m.headers.id@ == id@,
            m.headers.eta is None,
            m.headers.retries is None,
            m.headers.expires is None,
            m.raw_body@ == encode_body_spec(body@),
    {
        let data = encode_body(body);
        Message::new(task_name, id, data)
    }
}

} // verus!
