//! The plugin registry as a mathematical state machine.
//!
//! A registry is four things: the records of the modules known on disk, the
//! map of the plugins that are active, and two sequences of names that fix
//! where a plugin is drawn and where its menu entry stands. Every operation of
//! [`crate::plugins::Plugins`] is a step of this machine.

use crate::text::with_name;
use vstd::prelude::*;

verus! {

/// A module known to exist on disk, loaded or not.
pub struct Record {
    pub name: Seq<char>,
    pub path: Seq<char>,
}

/// What came of trying to bring one module file up.
pub enum Outcome<P> {
    /// The file could not be opened as a module, or lacks an entry point.
    BindFailure { reason: Seq<char> },
    /// The module was bound and named itself; its initialisation ended abnormally.
    InitFault { name: Seq<char>, payload: Seq<char> },
    /// The module was bound, named itself and finished its initialisation.
    Ready { name: Seq<char>, plugin: P },
}

/// One file of the plugin directory together with what came of loading it.
pub struct Attempt<P> {
    pub path: Seq<char>,
    pub outcome: Outcome<P>,
}

/// One record that is loaded again, together with what came of it.
pub struct Retry<P> {
    /// The name of the record.
    pub name: Seq<char>,
    /// The record's file and what came of binding and initialising it.
    pub attempt: Attempt<P>,
}

/// The attempts that `retries` were made with.
pub open spec fn attempts_of<P>(retries: Seq<Retry<P>>) -> Seq<Attempt<P>> {
    retries.map_values(|retry: Retry<P>| retry.attempt)
}

/// A failure that the host reports and survives.
pub enum Failure {
    /// A file could not be bound as a module.
    BindFailure { file: Seq<char>, reason: Seq<char> },
    /// The file of the plugin called `name` could not be bound again.
    ReloadFailure { file: Seq<char>, name: Seq<char>, reason: Seq<char> },
    /// The thread that initialised a module ended abnormally.
    InitFault { payload: Seq<char> },
}

impl Failure {
    /// What the host writes to its log for the failure.
    pub open spec fn message(self) -> Seq<char> {
        match self {
            Failure::BindFailure { file, reason } => "Failed to load plugin "@ + file + "\n\t"@
                + reason,
            Failure::ReloadFailure { file, name, reason } => "Failed to reload plugin "@ + file
                + " ("@ + name + ")\n\t"@ + reason,
            Failure::InitFault { payload } => "Plugin crashed during initialization\n"@ + payload,
        }
    }
}

/// Whether some record among `records` carries `name`.
pub open spec fn names_a_record(records: Seq<Record>, name: Seq<char>) -> bool {
    exists|i: int| 0 <= i < records.len() && (#[trigger] records[i]).name == name
}

/// The path of the first record among `records` that carries `name`.
pub open spec fn first_path(records: Seq<Record>, name: Seq<char>) -> Option<Seq<char>> {
    if names_a_record(records, name) {
        let first = choose|i: int|
            0 <= i < records.len() && (#[trigger] records[i]).name == name && (forall|j: int|
                0 <= j < i ==> (#[trigger] records[j]).name != name);
        Some(records[first].path)
    } else {
        None
    }
}

impl<P> Outcome<P> {
    /// The failure that this outcome makes the host report for the file at `path`.
    pub open spec fn failure(self, path: Seq<char>) -> Option<Failure> {
        match self {
            Outcome::BindFailure { reason } => Some(Failure::BindFailure { file: path, reason }),
            Outcome::InitFault { name, payload } => Some(Failure::InitFault { payload }),
            Outcome::Ready { name, plugin } => None,
        }
    }

    /// The failure that this outcome makes the host report where the file
    /// at `path` was loaded again for the plugin called `name`.
    pub open spec fn reload_failure(self, name: Seq<char>, path: Seq<char>) -> Option<Failure> {
        match self {
            Outcome::BindFailure { reason } => Some(
                Failure::ReloadFailure { file: path, name, reason },
            ),
            Outcome::InitFault { name: reported, payload } => Some(Failure::InitFault { payload }),
            Outcome::Ready { name: reported, plugin } => None,
        }
    }
}

/// The state of the registry.
pub struct Registry<P> {
    /// Every module known on disk, in the order in which it became known.
    pub records: Seq<Record>,
    /// The plugins that are bound and initialised, by name.
    pub active: Map<Seq<char>, P>,
    /// Where each plugin's panel is drawn.
    pub display_order: Seq<Seq<char>>,
    /// Where each plugin's menu entry stands.
    pub menu_order: Seq<Seq<char>>,
}

impl<P> Registry<P> {
    /// The registry that knows no module.
    pub open spec fn empty() -> Self {
        Registry {
            records: Seq::empty(),
            active: Map::empty(),
            display_order: Seq::empty(),
            menu_order: Seq::empty(),
        }
    }

    /// Whether some record carries `name`.
    pub open spec fn knows(self, name: Seq<char>) -> bool {
        names_a_record(self.records, name)
    }

    /// The path of the first record that carries `name`.
    pub open spec fn path_of(self, name: Seq<char>) -> Option<Seq<char>> {
        first_path(self.records, name)
    }

    /// Whether `name` is bound and initialised.
    pub open spec fn is_active(self, name: Seq<char>) -> bool {
        self.active.contains_key(name)
    }

    /// What holds of every registry that the operations can reach: every
    /// active plugin has a record and a place in both orders.
    pub open spec fn wf(self) -> bool {
        &&& self.active.dom().finite()
        &&& forall|name: Seq<char>| #[trigger]
            self.active.contains_key(name) ==> self.knows(name) && self.display_order.contains(name)
                && self.menu_order.contains(name)
    }

    /// Whether every name is one module's alone: no two records share a
    /// name, and no name stands twice in an order. Modules that report one
    /// name at start-up break this; nothing else does.
    pub open spec fn names_are_unique(self) -> bool {
        &&& forall|i: int, j: int|
            0 <= i < j < self.records.len() ==> (#[trigger] self.records[i]).name != (
            #[trigger] self.records[j]).name
        &&& self.display_order.no_duplicates()
        &&& self.menu_order.no_duplicates()
    }

    /// A module that was bound on activation named itself: it gets a record
    /// unless its name has one.
    pub open spec fn register(self, name: Seq<char>, path: Seq<char>) -> Self {
        if self.knows(name) {
            self
        } else {
            Registry { records: self.records.push(Record { name, path }), ..self }
        }
    }

    /// A plugin finished its initialisation after an activation or a reload:
    /// it becomes active under `name`. A name that has its place in an order
    /// keeps it; one that has none goes to the end.
    pub open spec fn install(self, name: Seq<char>, plugin: P) -> Self {
        Registry {
            records: self.records,
            active: self.active.insert(name, plugin),
            display_order: with_name(self.display_order, name),
            menu_order: with_name(self.menu_order, name),
        }
    }

    /// The plugin called `name` is dropped; its record and its places stay.
    pub open spec fn unload(self, name: Seq<char>) -> Self {
        Registry { active: self.active.remove(name), ..self }
    }

    /// The module file at `path` was bound and initialised with `outcome`.
    pub open spec fn activate(self, path: Seq<char>, outcome: Outcome<P>) -> Self {
        match outcome {
            Outcome::BindFailure { reason } => self,
            Outcome::InitFault { name, payload } => self.register(name, path),
            Outcome::Ready { name, plugin } => self.register(name, path).install(name, plugin),
        }
    }

    /// The plugin called `name` was dropped and the file of its record bound
    /// and initialised again with `outcome`. It comes back under `name`,
    /// whatever the module now calls itself. A name without a record has no
    /// file to load, so nothing comes back under it.
    pub open spec fn reload(self, name: Seq<char>, outcome: Outcome<P>) -> Self {
        match outcome {
            Outcome::Ready { name: reported, plugin } => if self.knows(name) {
                self.unload(name).install(name, plugin)
            } else {
                self.unload(name)
            },
            _ => self.unload(name),
        }
    }

    /// The user ticked the box of `name` in the plugin manager: an active
    /// plugin is dropped; an inactive one stays so until its file is loaded.
    pub open spec fn toggle(self, name: Seq<char>) -> Self {
        self.unload(name)
    }

    /// The file to load after the user ticked the box of `name`: that of the
    /// record of `name`, where the plugin was inactive.
    pub open spec fn file_to_load(self, name: Seq<char>) -> Option<Seq<char>> {
        if self.is_active(name) {
            None
        } else {
            self.path_of(name)
        }
    }

    /// Every plugin with a record is dropped.
    pub open spec fn unload_all(self) -> Self {
        Registry {
            active: self.active.remove_keys(Set::new(|name: Seq<char>| self.knows(name))),
            ..self
        }
    }

    /// The registry after each of `retries` was reloaded, in their order.
    pub open spec fn reload_each(self, retries: Seq<Retry<P>>) -> Self
        decreases retries.len(),
    {
        if retries.len() == 0 {
            self
        } else {
            self.reload_each(retries.drop_last()).reload(
                retries.last().name,
                retries.last().attempt.outcome,
            )
        }
    }

    /// Start-up. Every module that was bound gets a record behind the
    /// records that were there, in the order of `attempts`. Every plugin that
    /// finished its initialisation becomes active under its name, a later one
    /// taking the place of an earlier one of the same name in the map, and
    /// its name goes to the end of both orders.
    pub open spec fn load_all(self, attempts: Seq<Attempt<P>>) -> Self {
        Registry {
            records: self.records + bound_records(attempts),
            active: active_after(self.active, attempts),
            display_order: self.display_order + ready_names(attempts),
            menu_order: self.menu_order + ready_names(attempts),
        }
    }

    /// The registry after one step.
    pub open spec fn step(self, step: Step<P>) -> Self {
        match step {
            Step::Unload { name } => self.unload(name),
            Step::Reload { name, outcome } => self.reload(name, outcome),
            Step::Activate { path, outcome } => self.activate(path, outcome),
        }
    }

    /// The registry after `steps`, taken in their order.
    pub open spec fn run(self, steps: Seq<Step<P>>) -> Self
        decreases steps.len(),
    {
        if steps.len() == 0 {
            self
        } else {
            self.run(steps.drop_last()).step(steps.last())
        }
    }

    /// The active plugins in the order that `order` gives them. A name of
    /// `order` that is not active leaves no gap.
    pub open spec fn in_order(self, order: Seq<Seq<char>>) -> Seq<P>
        decreases order.len(),
    {
        if order.len() == 0 {
            Seq::empty()
        } else if self.active.contains_key(order.last()) {
            self.in_order(order.drop_last()).push(self.active[order.last()])
        } else {
            self.in_order(order.drop_last())
        }
    }
}

/// One record for each module among `attempts` that was bound, whatever came
/// of its initialisation, in the order of `attempts`.
pub open spec fn bound_records<P>(attempts: Seq<Attempt<P>>) -> Seq<Record>
    decreases attempts.len(),
{
    if attempts.len() == 0 {
        Seq::empty()
    } else {
        let before = bound_records(attempts.drop_last());
        match attempts.last().outcome {
            Outcome::BindFailure { reason } => before,
            Outcome::InitFault { name, payload } => before.push(
                Record { name, path: attempts.last().path },
            ),
            Outcome::Ready { name, plugin } => before.push(
                Record { name, path: attempts.last().path },
            ),
        }
    }
}

/// `active` after each plugin among `attempts` that finished its
/// initialisation was put in under its name, in the order of `attempts`.
pub open spec fn active_after<P>(active: Map<Seq<char>, P>, attempts: Seq<Attempt<P>>) -> Map<
    Seq<char>,
    P,
>
    decreases attempts.len(),
{
    if attempts.len() == 0 {
        active
    } else {
        let before = active_after(active, attempts.drop_last());
        match attempts.last().outcome {
            Outcome::Ready { name, plugin } => before.insert(name, plugin),
            _ => before,
        }
    }
}

/// The names of the plugins among `attempts` that finished their
/// initialisation, in the order of `attempts`.
pub open spec fn ready_names<P>(attempts: Seq<Attempt<P>>) -> Seq<Seq<char>>
    decreases attempts.len(),
{
    if attempts.len() == 0 {
        Seq::empty()
    } else {
        let before = ready_names(attempts.drop_last());
        match attempts.last().outcome {
            Outcome::Ready { name, plugin } => before.push(name),
            _ => before,
        }
    }
}

/// One thing that the host does with the registry once it runs.
pub enum Step<P> {
    Unload { name: Seq<char> },
    Reload { name: Seq<char>, outcome: Outcome<P> },
    Activate { path: Seq<char>, outcome: Outcome<P> },
}

impl<P> Step<P> {
    /// Whether the step is about a name that `order` holds already. A file
    /// that cannot be bound gives no name, and is about none.
    pub open spec fn about_name_in(self, order: Seq<Seq<char>>) -> bool {
        match self {
            Step::Unload { name } => order.contains(name),
            Step::Reload { name, outcome } => order.contains(name),
            Step::Activate { path, outcome } => match outcome {
                Outcome::BindFailure { reason } => true,
                Outcome::InitFault { name, payload } => order.contains(name),
                Outcome::Ready { name, plugin } => order.contains(name),
            },
        }
    }
}

/// The bind failures among `attempts`, in their order.
pub open spec fn bind_failures<P>(attempts: Seq<Attempt<P>>) -> Seq<Failure>
    decreases attempts.len(),
{
    if attempts.len() == 0 {
        Seq::empty()
    } else {
        let before = bind_failures(attempts.drop_last());
        match attempts.last().outcome {
            Outcome::BindFailure { reason } => before.push(
                Failure::BindFailure { file: attempts.last().path, reason },
            ),
            _ => before,
        }
    }
}

/// The initialisation faults among `attempts`, in their order.
pub open spec fn init_faults<P>(attempts: Seq<Attempt<P>>) -> Seq<Failure>
    decreases attempts.len(),
{
    if attempts.len() == 0 {
        Seq::empty()
    } else {
        let before = init_faults(attempts.drop_last());
        match attempts.last().outcome {
            Outcome::InitFault { name, payload } => before.push(Failure::InitFault { payload }),
            _ => before,
        }
    }
}

/// What start-up reports: first the files that could not be bound, then the
/// modules whose initialisation ended abnormally.
pub open spec fn load_failures<P>(attempts: Seq<Attempt<P>>) -> Seq<Failure> {
    bind_failures(attempts) + init_faults(attempts)
}

/// The files among `retries` that could not be bound again, in their order.
pub open spec fn rebind_failures<P>(retries: Seq<Retry<P>>) -> Seq<Failure>
    decreases retries.len(),
{
    if retries.len() == 0 {
        Seq::empty()
    } else {
        let before = rebind_failures(retries.drop_last());
        match retries.last().attempt.outcome {
            Outcome::BindFailure { reason } => before.push(
                Failure::ReloadFailure {
                    file: retries.last().attempt.path,
                    name: retries.last().name,
                    reason,
                },
            ),
            _ => before,
        }
    }
}

/// What reloading `retries` reports: first the files that could not be bound
/// again, then the modules whose initialisation ended abnormally.
pub open spec fn reload_failures<P>(retries: Seq<Retry<P>>) -> Seq<Failure> {
    rebind_failures(retries) + init_faults(attempts_of(retries))
}

} // verus!
