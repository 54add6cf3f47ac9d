//! The task registry: a mapping from task name to the per-kind data a
//! tracer is built from, written during startup and read on every delivery.
//! Registered names are unique; registering a taken name fails loudly.
use vstd::prelude::*;
use crate::errors::ErrorKind;
use crate::options::TaskOptionsOverrides;

verus! {

/// What the registry keeps for one task kind: its cluster-unique name and
/// the option overrides it declares.
pub struct TaskRegistration {
    pub name: String,
    pub overrides: TaskOptionsOverrides,
}

/// The names an entry sequence holds.
pub open spec fn names_of(entries: Seq<TaskRegistration>) -> Seq<Seq<char>> {
    entries.map(|j: int, e: TaskRegistration| e.name@)
}

/// The registry: a list of registrations with pairwise distinct names.
pub struct TaskRegistry {
    pub entries: Vec<TaskRegistration>,
}

impl TaskRegistry {
    /// Whether some entry carries this name.
    pub open spec fn contains_name(&self, name: Seq<char>) -> bool {
        exists|j: int| 0 <= j < self.entries@.len() && (#[trigger] self.entries@[j]).name@ == name
    }

    /// Names are pairwise distinct.
    pub open spec fn wf(&self) -> bool {
        forall|j: int, l: int|
            0 <= j < l < self.entries@.len() ==> (#[trigger] self.entries@[j]).name@ != (
            #[trigger] self.entries@[l]).name@
    }

    /// An empty registry.
    pub fn new() -> (r: Self)
        ensures
            r.entries@.len() == 0,
            r.wf(),
    {
        TaskRegistry { entries: Vec::new() }
    }

    /// Find the position of a name.
    fn position_of(&self, name: &String) -> (r: Option<usize>)
        ensures
            match r {
                Some(j) => j < self.entries@.len() && self.entries@[j as int].name@ == name@,
                None => !self.contains_name(name@),
            },
    {
        let mut j: usize = 0;
        while j < self.entries.len()
            invariant
                j <= self.entries@.len(),
                forall|t: int| 0 <= t < j ==> (#[trigger] self.entries@[t]).name@ != name@,
            decreases self.entries@.len() - j,
        {
            if self.entries[j].name == *name {
                return Some(j);
            }
            j = j + 1;
        }
        None
    }

    /// Register a task kind. Fails with `TaskAlreadyExists` — leaving the
    /// registry unchanged — exactly when the name is already taken; a
    /// successful registration appends the entry.
    pub fn register_task(&mut self, name: String, overrides: TaskOptionsOverrides) -> (r: Result<
        (),
        ErrorKind,
    >)
        requires
            old(self).wf(),
        ensures
            final(self).wf(),
            old(self).contains_name(name@) ==> r == Result::<(), ErrorKind>::Err(
                ErrorKind::TaskAlreadyExists(name),
            ) && *final(self) == *old(self),
            !old(self).contains_name(name@) ==> r is Ok && final(self).entries@ == old(
                self,
            ).entries@.push(TaskRegistration { name, overrides }),
            final(self).contains_name(name@),
    {
        match self.position_of(&name) {
            Some(j) => {
                assert(self.contains_name(name@));
                Err(ErrorKind::TaskAlreadyExists(name))
            },
            None => {
                let ghost before = self.entries@;
                let entry = TaskRegistration { name, overrides };
                let ghost namev = entry.name@;
                self.entries.push(entry);
                proof {
                    assert(self.entries@[before.len() as int].name@ == namev);
                    assert forall|j: int, l: int|
                        0 <= j < l < self.entries@.len() implies (
                    #[trigger] self.entries@[j]).name@ != (#[trigger] self.entries@[l]).name@ by {
                        if l < before.len() {
                            assert(self.entries@[j] == before[j]);
                            assert(self.entries@[l] == before[l]);
                        } else {
                            assert(self.entries@[j] == before[j]);
                            assert(self.entries@[l].name@ == namev);
                        }
                    }
                }
                Ok(())
            },
        }
    }

    /// Look up the overrides registered under a name; fails with
    /// `UnregisteredTask` exactly when the name is unknown.
    pub fn get_overrides(&self, name: &String) -> (r: Result<TaskOptionsOverrides, ErrorKind>)
        ensures
            match r {
                Ok(o) => exists|j: int|
                    0 <= j < self.entries@.len() && (#[trigger] self.entries@[j]).name@ == name@
                        && self.entries@[j].overrides == o,
                Err(e) => !self.contains_name(name@) && e == ErrorKind::UnregisteredTask(*name),
            },
    {
        match self.position_of(name) {
            Some(j) => Ok(self.entries[j].overrides.clone()),
            None => Err(ErrorKind::UnregisteredTask(name.clone())),
        }
    }
}

/// After a successful registration the registry contains the name, so a
/// second registration of the same name fails with `TaskAlreadyExists` by
/// the contract of `register_task`.
pub proof fn lemma_registered_name_is_taken(
    before: TaskRegistry,
    after: TaskRegistry,
    entry: TaskRegistration,
)
    requires
        after.entries@ == before.entries@.push(entry),
    ensures
        after.contains_name(entry.name@),
{
    assert(after.entries@[before.entries@.len() as int] == entry);
}

} // verus!
