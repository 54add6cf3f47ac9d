//! Per-task execution options and the rule that composes worker-wide
//! defaults with the overrides a task kind declares.
use vstd::prelude::*;

verus! {

/// Effective options governing one task execution: an optional deadline in
/// seconds, an optional retry cap (absence means unbounded retries), and the
/// minimum and maximum backoff delays in seconds.
pub struct TaskOptions {
    pub timeout: Option<u64>,
    pub max_retries: Option<u64>,
    pub min_retry_delay: u64,
    pub max_retry_delay: u64,
}

/// The four optional per-task overrides a task kind may declare; a `None`
/// field defers to the worker-wide default.
pub struct TaskOptionsOverrides {
    pub timeout: Option<u64>,
    pub max_retries: Option<u64>,
    pub min_retry_delay: Option<u64>,
    pub max_retry_delay: Option<u64>,
}

impl TaskOptionsOverrides {
    /// Overrides that defer to the defaults in every field.
    pub fn empty() -> (r: Self)
        ensures
            r.timeout is None,
            r.max_retries is None,
            r.min_retry_delay is None,
            r.max_retry_delay is None,
    {
        TaskOptionsOverrides { timeout: None, max_retries: None, min_retry_delay: None, max_retry_delay: None }
    }
}

impl Clone for TaskOptions {
    fn clone(&self) -> (r: Self)
        ensures
            r == *self,
    {
        TaskOptions {
            timeout: self.timeout,
            max_retries: self.max_retries,
            min_retry_delay: self.min_retry_delay,
            max_retry_delay: self.max_retry_delay,
        }
    }
}

impl Clone for TaskOptionsOverrides {
    fn clone(&self) -> (r: Self)
        ensures
            r == *self,
    {
        TaskOptionsOverrides {
            timeout: self.timeout,
            max_retries: self.max_retries,
            min_retry_delay: self.min_retry_delay,
            max_retry_delay: self.max_retry_delay,
        }
    }
}

/// What `overrides` returns: each field prefers the task's value and falls
/// back to the base.
pub open spec fn overrides_spec(base: TaskOptions, task: TaskOptionsOverrides) -> TaskOptions {
    TaskOptions {
        timeout: if task.timeout is Some { task.timeout } else { base.timeout },
        max_retries: if task.max_retries is Some { task.max_retries } else { base.max_retries },
        min_retry_delay: if task.min_retry_delay is Some { task.min_retry_delay->0 } else { base.min_retry_delay },
        max_retry_delay: if task.max_retry_delay is Some { task.max_retry_delay->0 } else { base.max_retry_delay },
    }
}

impl TaskOptions {
    /// Worker-wide defaults: no deadline, unbounded retries, backoff between
    /// 0 and 3600 seconds.
    pub fn default_options() -> (r: Self)
        ensures
            r.timeout is None,
            r.max_retries is None,
            r.min_retry_delay == 0,
            r.max_retry_delay == 3600,
    {
        TaskOptions { timeout: None, max_retries: None, min_retry_delay: 0, max_retry_delay: 3600 }
    }

    /// Compose these base options with a task kind's overrides: every field
    /// is right-biased, taking the task's value when it supplies one.
    pub fn overrides(&self, task: &TaskOptionsOverrides) -> (r: Self)
        ensures
            r == overrides_spec(*self, *task),
    {
        TaskOptions {
            timeout: if task.timeout.is_some() { task.timeout } else { self.timeout },
            max_retries: if task.max_retries.is_some() { task.max_retries } else { self.max_retries },
            min_retry_delay: match task.min_retry_delay {
                Some(d) => d,
                None => self.min_retry_delay,
            },
            max_retry_delay: match task.max_retry_delay {
                Some(d) => d,
                None => self.max_retry_delay,
            },
        }
    }
}

/// Composing with overrides is right-biased in every field: whenever the
/// task supplies a value, that value wins, whatever the base held.
pub proof fn lemma_overrides_right_biased(base: TaskOptions, task: TaskOptionsOverrides)
    ensures
        task.timeout is Some ==> overrides_spec(base, task).timeout == task.timeout,
        task.max_retries is Some ==> overrides_spec(base, task).max_retries == task.max_retries,
        task.min_retry_delay is Some ==> overrides_spec(base, task).min_retry_delay == task.min_retry_delay->0,
        task.max_retry_delay is Some ==> overrides_spec(base, task).max_retry_delay == task.max_retry_delay->0,
{
}

/// Composing with overrides that supply nothing is the identity on the base
/// options.
pub proof fn lemma_overrides_identity(base: TaskOptions, task: TaskOptionsOverrides)
    requires
        task.timeout is None,
        task.max_retries is None,
        task.min_retry_delay is None,
        task.max_retry_delay is None,
    ensures
        overrides_spec(base, task) == base,
{
}

} // verus!
