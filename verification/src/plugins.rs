//! The plugin registry: which modules are known, which are active, and in
//! what order they are shown.
//!
//! The registry never touches a file or a thread. The host binds a module,
//! runs its initialisation and hands the registry what came of it; the
//! registry answers with its next state and with the failures to report.
//! `P` is whatever the host holds for a bound and initialised module.
//! Dropping a `P` must unbind the module.

use crate::laws::{
    law_activate_keeps_wf, law_load_all_keeps_wf, law_reload_each_keeps_wf, law_reload_keeps_wf,
    law_unload_all_empties, law_unload_is_idempotent, law_unload_keeps_wf,
};
use crate::model::{
    active_after, attempts_of, bind_failures, bound_records, init_faults, load_failures,
    ready_names, rebind_failures, reload_failures, Attempt, Failure, Outcome, Record, Registry,
    Retry,
};
use vstd::hash_map::*;
use vstd::prelude::*;
use vstd::string::*;

verus! {

/// A module known to exist on disk, loaded or not.
#[derive(Debug, PartialEq, Eq)]
pub struct PluginRecord {
    /// The name that the module gave itself when it was bound.
    pub name: String,
    /// The file that the module was bound from.
    pub path: String,
}

impl View for PluginRecord {
    type V = Record;

    open spec fn view(&self) -> Record {
        Record { name: self.name@, path: self.path@ }
    }
}

impl DeepView for PluginRecord {
    type V = Record;

    open spec fn deep_view(&self) -> Record {
        self@
    }
}

/// What came of trying to bring one module file up.
pub enum LoadOutcome<P> {
    /// The file could not be opened as a module, or lacks an entry point.
    BindFailure { reason: String },
    /// The module was bound and named itself; its initialisation ended abnormally.
    InitFault { name: String, payload: String },
    /// The module was bound, named itself and finished its initialisation.
    Ready { name: String, plugin: P },
}

impl<P> View for LoadOutcome<P> {
    type V = Outcome<P>;

    open spec fn view(&self) -> Outcome<P> {
        match *self {
            LoadOutcome::BindFailure { reason } => Outcome::BindFailure { reason: reason@ },
            LoadOutcome::InitFault { name, payload } => Outcome::InitFault {
                name: name@,
                payload: payload@,
            },
            LoadOutcome::Ready { name, plugin } => Outcome::Ready { name: name@, plugin },
        }
    }
}

/// One candidate file of the plugin directory with what came of loading it.
pub struct Candidate<P> {
    pub path: String,
    pub outcome: LoadOutcome<P>,
}

impl<P> View for Candidate<P> {
    type V = Attempt<P>;

    open spec fn view(&self) -> Attempt<P> {
        Attempt { path: self.path@, outcome: self.outcome@ }
    }
}

impl<P> DeepView for Candidate<P> {
    type V = Attempt<P>;

    open spec fn deep_view(&self) -> Attempt<P> {
        self@
    }
}

/// One record that was loaded again, with what came of it.
pub struct Reloaded<P> {
    /// The name of the record.
    pub name: String,
    /// The record's file and what came of binding and initialising it.
    pub candidate: Candidate<P>,
}

impl<P> View for Reloaded<P> {
    type V = Retry<P>;

    open spec fn view(&self) -> Retry<P> {
        Retry { name: self.name@, attempt: self.candidate@ }
    }
}

impl<P> DeepView for Reloaded<P> {
    type V = Retry<P>;

    open spec fn deep_view(&self) -> Retry<P> {
        self@
    }
}

/// A failure that the host reports and survives.
#[derive(Debug, PartialEq, Eq)]
pub enum LoadFailure {
    /// A file is there but is no module: it cannot be opened as one, or an
    /// entry point is missing.
    BindFailure { file: String, reason: String },
    /// The file of the plugin called `name` could not be bound again.
    ReloadFailure { file: String, name: String, reason: String },
    /// The thread that initialised a module ended abnormally.
    InitFault { payload: String },
}

impl View for LoadFailure {
    type V = Failure;

    open spec fn view(&self) -> Failure {
        match *self {
            LoadFailure::BindFailure { file, reason } => Failure::BindFailure {
                file: file@,
                reason: reason@,
            },
            LoadFailure::ReloadFailure { file, name, reason } => Failure::ReloadFailure {
                file: file@,
                name: name@,
                reason: reason@,
            },
            LoadFailure::InitFault { payload } => Failure::InitFault { payload: payload@ },
        }
    }
}

impl LoadFailure {
    /// What the host writes to its log for the failure.
    pub fn message(&self) -> (text: String)
        ensures
            text@ == self@.message(),
    {
        match self {
            LoadFailure::BindFailure { file, reason } => {
                let mut text = "Failed to load plugin ".to_owned();
                text.append(file.as_str());
                text.append("\n\t");
                text.append(reason.as_str());
                text
            },
            LoadFailure::ReloadFailure { file, name, reason } => {
                let mut text = "Failed to reload plugin ".to_owned();
                text.append(file.as_str());
                text.append(" (");
                text.append(name.as_str());
                text.append(")\n\t");
                text.append(reason.as_str());
                text
            },
            LoadFailure::InitFault { payload } => {
                let mut text = "Plugin crashed during initialization\n".to_owned();
                text.append(payload.as_str());
                text
            },
        }
    }
}

impl DeepView for LoadFailure {
    type V = Failure;

    open spec fn deep_view(&self) -> Failure {
        self@
    }
}

/// Whether `names` holds `name`.
fn holds_name(names: &Vec<String>, name: &String) -> (found: bool)
    ensures
        found == names.deep_view().contains(name@),
{
    let mut at: usize = 0;
    while at < names.len()
        invariant
            at <= names.len(),
            forall|k: int| 0 <= k < at ==> names.deep_view()[k] != name@,
        decreases names.len() - at,
    {
        if names[at] == *name {
            assert(names.deep_view()[at as int] == name@);
            return true;
        }
        at += 1;
    }
    false
}

/// The registry of plugins. A plugin is known by the name that its module
/// reports. Where two modules report one name at start-up, each gets its
/// record and its place in the orders, and the one that was joined last is
/// the active plugin of that name.
#[verifier::reject_recursive_types(P)]
pub struct Plugins<P> {
    all_plugins: Vec<PluginRecord>,
    loaded_plugins: StringHashMap<P>,
    ui_build_order: Vec<String>,
    view_submenu_order: Vec<String>,
}

impl<P> View for Plugins<P> {
    type V = Registry<P>;

    closed spec fn view(&self) -> Registry<P> {
        Registry {
            records: self.all_plugins.deep_view(),
            active: self.loaded_plugins@,
            display_order: self.ui_build_order.deep_view(),
            menu_order: self.view_submenu_order.deep_view(),
        }
    }
}

impl<P> Plugins<P> {
    /// A registry that knows no module.
    pub fn new() -> (plugins: Plugins<P>)
        ensures
            plugins@ == Registry::<P>::empty(),
            plugins@.wf(),
    {
        let plugins = Plugins {
            all_plugins: Vec::new(),
            loaded_plugins: StringHashMap::new(),
            ui_build_order: Vec::new(),
            view_submenu_order: Vec::new(),
        };
        assert(plugins.all_plugins.deep_view() =~= Seq::<Record>::empty());
        assert(plugins.ui_build_order.deep_view() =~= Seq::<Seq<char>>::empty());
        assert(plugins.view_submenu_order.deep_view() =~= Seq::<Seq<char>>::empty());
        plugins
    }

    /// Whether the plugin called `plugin_name` is bound and initialised.
    pub fn is_active(&self, plugin_name: &str) -> (active: bool)
        ensures
            active == self@.is_active(plugin_name@),
    {
        self.loaded_plugins.contains_key(plugin_name)
    }

    /// Drops the plugin called `plugin_name`, which unbinds its module. Its
    /// record and its places in the two orders stay. Where no such plugin is
    /// active nothing changes.
    pub fn unload(&mut self, plugin_name: &str)
        ensures
            final(self)@ == old(self)@.unload(plugin_name@),
            !old(self)@.is_active(plugin_name@) ==> final(self)@ == old(self)@,
            old(self)@.wf() ==> final(self)@.wf(),
    {
        proof {
            law_unload_is_idempotent(old(self)@, plugin_name@);
            if old(self)@.wf() {
                law_unload_keeps_wf(old(self)@, plugin_name@);
            }
        }
        self.loaded_plugins.remove(plugin_name);
    }

    /// The place of the first record called `name`, if there is one.
    fn find_record(&self, name: &String) -> (found: Option<usize>)
        ensures
            found is Some <==> self@.knows(name@),
            found matches Some(at) ==> at < self@.records.len() && self@.records[at as int].name
                == name@ && self@.path_of(name@) == Some(self@.records[at as int].path),
    {
        let mut at: usize = 0;
        while at < self.all_plugins.len()
            invariant
                at <= self.all_plugins.len(),
                forall|k: int| 0 <= k < at ==> (#[trigger] self@.records[k]).name != name@,
            decreases self.all_plugins.len() - at,
        {
            if self.all_plugins[at].name == *name {
                proof {
                    let records = self@.records;
                    assert(records[at as int].name == name@);
                    let first = choose|i: int|
                        0 <= i < records.len() && (#[trigger] records[i]).name == name@ && (forall|
                            j: int,
                        | 0 <= j < i ==> (#[trigger] records[j]).name != name@);
                    assert(first == at);
                }
                return Some(at);
            }
            at += 1;
        }
        None
    }

    /// Gives the bound module called `name` a record, unless its name has one.
    fn record(&mut self, name: &String, path: String)
        ensures
            final(self)@ == old(self)@.register(name@, path@),
    {
        if self.find_record(name).is_none() {
            self.all_plugins.push(PluginRecord { name: name.clone(), path });
            assert(self.all_plugins.deep_view() =~= old(self).all_plugins.deep_view().push(
                Record { name: name@, path: path@ },
            ));
        }
    }

    /// Makes `plugin` the active plugin called `name`. The name enters each
    /// order at the end if it was never there.
    fn install(&mut self, name: String, plugin: P)
        ensures
            final(self)@ == old(self)@.install(name@, plugin),
    {
        if !holds_name(&self.ui_build_order, &name) {
            self.ui_build_order.push(name.clone());
            assert(self.ui_build_order.deep_view() =~= old(self).ui_build_order.deep_view().push(
                name@,
            ));
        }
        if !holds_name(&self.view_submenu_order, &name) {
            self.view_submenu_order.push(name.clone());
            assert(self.view_submenu_order.deep_view() =~= old(
                self,
            ).view_submenu_order.deep_view().push(name@));
        }
        self.loaded_plugins.insert(name, plugin);
    }

    /// Takes what came of binding and initialising the module file at
    /// `dll_path`. A module that was bound gets a record under the name it
    /// gave itself, unless that name has one. A plugin that finished its
    /// initialisation becomes active under that name, in the place that the
    /// name had before or, if it never had one, at the end.
    pub fn activate(&mut self, dll_path: String, outcome: LoadOutcome<P>) -> (failure: Option<
        LoadFailure,
    >)
        ensures
            final(self)@ == old(self)@.activate(dll_path@, outcome@),
            failure.deep_view() == outcome@.failure(dll_path@),
            old(self)@.wf() ==> final(self)@.wf(),
    {
        proof {
            if old(self)@.wf() {
                law_activate_keeps_wf(old(self)@, dll_path@, outcome@);
            }
        }
        match outcome {
            LoadOutcome::BindFailure { reason } => Some(
                LoadFailure::BindFailure { file: dll_path, reason },
            ),
            LoadOutcome::InitFault { name, payload } => {
                self.record(&name, dll_path);
                Some(LoadFailure::InitFault { payload })
            },
            LoadOutcome::Ready { name, plugin } => {
                self.record(&name, dll_path);
                self.install(name, plugin);
                None
            },
        }
    }

    /// The user ticked the box of `plugin_name` in the plugin manager. An
    /// active plugin is dropped. An inactive one stays inactive: the result
    /// is the file of its record, for the host to load and hand to
    /// [`Plugins::activate`].
    pub fn toggle(&mut self, plugin_name: &str) -> (dll_path: Option<String>)
        ensures
            final(self)@ == old(self)@.toggle(plugin_name@),
            dll_path.deep_view() == old(self)@.file_to_load(plugin_name@),
            old(self)@.wf() ==> final(self)@.wf(),
    {
        proof {
            if old(self)@.wf() {
                law_unload_keeps_wf(old(self)@, plugin_name@);
            }
        }
        if self.loaded_plugins.contains_key(plugin_name) {
            self.loaded_plugins.remove(plugin_name);
            None
        } else {
            assert(self@.active.remove(plugin_name@) =~= self@.active);
            let key = plugin_name.to_owned();
            match self.find_record(&key) {
                Some(at) => Some(self.all_plugins[at].path.clone()),
                None => None,
            }
        }
    }

    /// The first step of a reload: drops the plugin called `name`, so that
    /// its file can be bound again, and gives the file to bind. Where no
    /// record is called `name` there is nothing to bind.
    pub fn reload_plugin(&mut self, name: &str) -> (dll_path: Option<String>)
        ensures
            final(self)@ == old(self)@.unload(name@),
            dll_path.deep_view() == old(self)@.path_of(name@),
            old(self)@.wf() ==> final(self)@.wf(),
    {
        proof {
            if old(self)@.wf() {
                law_unload_keeps_wf(old(self)@, name@);
            }
        }
        let key = name.to_owned();
        let dll_path = match self.find_record(&key) {
            Some(at) => Some(self.all_plugins[at].path.clone()),
            None => None,
        };
        self.loaded_plugins.remove(name);
        dll_path
    }

    /// The second step of a reload: takes what came of binding and
    /// initialising the file at `dll_path` again. The plugin comes back under
    /// `name`, in the place that it had. A file that cannot be bound, or an
    /// initialisation that ended abnormally, leaves the plugin inactive and
    /// its record in place, and is reported; the report of a file that cannot
    /// be bound names the file and the plugin.
    pub fn reload_plugin_dll(
        &mut self,
        name: &str,
        dll_path: String,
        outcome: LoadOutcome<P>,
    ) -> (failure: Option<LoadFailure>)
        ensures
            final(self)@ == old(self)@.reload(name@, outcome@),
            failure.deep_view() == outcome@.reload_failure(name@, dll_path@),
            old(self)@.wf() ==> final(self)@.wf(),
    {
        proof {
            if old(self)@.wf() {
                law_reload_keeps_wf(old(self)@, name@, outcome@);
            }
        }
        let key = name.to_owned();
        let known = self.find_record(&key).is_some();
        self.loaded_plugins.remove(name);
        match outcome {
            LoadOutcome::BindFailure { reason } => Some(
                LoadFailure::ReloadFailure { file: dll_path, name: name.to_owned(), reason },
            ),
            LoadOutcome::InitFault { name: reported, payload } => Some(
                LoadFailure::InitFault { payload },
            ),
            LoadOutcome::Ready { name: reported, plugin } => {
                if known {
                    self.install(key, plugin);
                }
                None
            },
        }
    }

    /// Start-up. `candidates` are the files of the plugin directory that
    /// carry the extension of a module, each with what came of binding and
    /// initialising it, in the order in which they were found. Every module
    /// that was bound gets a record; then every plugin that finished its
    /// initialisation becomes active and its name goes to the end of both
    /// orders. The result lists what failed: first the files that could not
    /// be bound, then the modules whose initialisation ended abnormally.
    pub fn load_all(&mut self, candidates: Vec<Candidate<P>>) -> (failures: Vec<LoadFailure>)
        ensures
            final(self)@ == old(self)@.load_all(candidates.deep_view()),
            failures.deep_view() == load_failures(candidates.deep_view()),
            old(self)@.wf() ==> final(self)@.wf(),
    {
        proof {
            if old(self)@.wf() {
                law_load_all_keeps_wf(old(self)@, candidates.deep_view());
            }
        }
        let ghost attempts = candidates.deep_view();
        let mut failures: Vec<LoadFailure> = Vec::new();
        assert(failures.deep_view() =~= Seq::<Failure>::empty());
        assert(attempts.take(0) =~= Seq::<Attempt<P>>::empty());
        assert(self@.records =~= old(self)@.records + bound_records(attempts.take(0)));
        let mut at: usize = 0;
        while at < candidates.len()
            invariant
                at <= candidates.len(),
                attempts == candidates.deep_view(),
                self@.records == old(self)@.records + bound_records(attempts.take(at as int)),
                self@.active == old(self)@.active,
                self@.display_order == old(self)@.display_order,
                self@.menu_order == old(self)@.menu_order,
                failures.deep_view() == bind_failures(attempts.take(at as int)),
            decreases candidates.len() - at,
        {
            proof {
                let next = attempts.take(at as int + 1);
                assert(next.drop_last() =~= attempts.take(at as int));
                assert(next.last() == candidates[at as int]@);
            }
            let ghost reported = failures.deep_view();
            let ghost recorded = self@.records;
            let ghost earlier = bound_records(attempts.take(at as int));
            let candidate = &candidates[at];
            match &candidate.outcome {
                LoadOutcome::BindFailure { reason } => {
                    failures.push(
                        LoadFailure::BindFailure {
                            file: candidate.path.clone(),
                            reason: reason.clone(),
                        },
                    );
                    assert(failures.deep_view() =~= reported.push(
                        Failure::BindFailure { file: candidate.path@, reason: reason@ },
                    ));
                },
                LoadOutcome::InitFault { name, payload } => {
                    self.all_plugins.push(
                        PluginRecord { name: name.clone(), path: candidate.path.clone() },
                    );
                    assert(self@.records =~= recorded.push(
                        Record { name: name@, path: candidate.path@ },
                    ));
                    assert(self@.records =~= old(self)@.records + earlier.push(
                        Record { name: name@, path: candidate.path@ },
                    ));
                },
                LoadOutcome::Ready { name, plugin } => {
                    self.all_plugins.push(
                        PluginRecord { name: name.clone(), path: candidate.path.clone() },
                    );
                    assert(self@.records =~= recorded.push(
                        Record { name: name@, path: candidate.path@ },
                    ));
                    assert(self@.records =~= old(self)@.records + earlier.push(
                        Record { name: name@, path: candidate.path@ },
                    ));
                },
            }
            at += 1;
        }
        assert(attempts.take(at as int) =~= attempts);
        let ghost unbound = failures.deep_view();
        proof {
            assert(self@.display_order =~= old(self)@.display_order + ready_names(attempts.take(0)));
            assert(self@.menu_order =~= old(self)@.menu_order + ready_names(attempts.take(0)));
        }
        for candidate in pending: candidates
            invariant
                attempts.len() == pending.seq().len(),
                forall|k: int| 0 <= k < attempts.len() ==> attempts[k] == (#[trigger] pending.seq()[k])@,
                self@.records == old(self)@.records + bound_records(attempts),
                self@.active == active_after(
                    old(self)@.active,
                    attempts.take(pending.index() as int),
                ),
                self@.display_order == old(self)@.display_order + ready_names(
                    attempts.take(pending.index() as int),
                ),
                self@.menu_order == old(self)@.menu_order + ready_names(
                    attempts.take(pending.index() as int),
                ),
                failures.deep_view() == unbound + init_faults(attempts.take(pending.index() as int)),
        {
            proof {
                let next = attempts.take(pending.index() as int + 1);
                assert(next.drop_last() =~= attempts.take(pending.index() as int));
                assert(next.last() == candidate@);
            }
            let ghost reported = failures.deep_view();
            let ghost joined = ready_names(attempts.take(pending.index() as int));
            let ghost drawn = self@.display_order;
            let ghost listed = self@.menu_order;
            match candidate.outcome {
                LoadOutcome::BindFailure { reason } => {},
                LoadOutcome::InitFault { name, payload } => {
                    failures.push(LoadFailure::InitFault { payload });
                    assert(failures.deep_view() =~= reported.push(
                        Failure::InitFault { payload: payload@ },
                    ));
                },
                LoadOutcome::Ready { name, plugin } => {
                    self.ui_build_order.push(name.clone());
                    self.view_submenu_order.push(name.clone());
                    self.loaded_plugins.insert(name, plugin);
                    assert(self@.display_order =~= drawn.push(name@));
                    assert(self@.menu_order =~= listed.push(name@));
                    assert(self@.display_order =~= old(self)@.display_order + joined.push(name@));
                    assert(self@.menu_order =~= old(self)@.menu_order + joined.push(name@));
                },
            }
        }
        assert(attempts.take(attempts.len() as int) =~= attempts);
        failures
    }

    /// The records of the modules known on disk, in the order in which they
    /// became known.
    pub fn all_plugins(&self) -> (records: &Vec<PluginRecord>)
        ensures
            records.deep_view() == self@.records,
    {
        &self.all_plugins
    }

    /// The active plugins in the order in which their panels are drawn.
    pub fn ui_build_iter(&self) -> (shown: Vec<&P>)
        ensures
            shown@.len() == self@.in_order(self@.display_order).len(),
            forall|k: int|
                0 <= k < shown@.len() ==> *shown@[k] == self@.in_order(self@.display_order)[k],
    {
        self.collect_in_order(&self.ui_build_order)
    }

    /// The active plugins in the order in which their menu entries stand.
    pub fn view_submenu_iter(&self) -> (shown: Vec<&P>)
        ensures
            shown@.len() == self@.in_order(self@.menu_order).len(),
            forall|k: int|
                0 <= k < shown@.len() ==> *shown@[k] == self@.in_order(self@.menu_order)[k],
    {
        self.collect_in_order(&self.view_submenu_order)
    }

    /// The active plugins among `order`, in that order.
    fn collect_in_order<'a>(&'a self, order: &Vec<String>) -> (shown: Vec<&'a P>)
        ensures
            shown@.len() == self@.in_order(order.deep_view()).len(),
            forall|k: int|
                0 <= k < shown@.len() ==> *shown@[k] == self@.in_order(order.deep_view())[k],
    {
        let ghost names = order.deep_view();
        let mut shown: Vec<&P> = Vec::new();
        assert(names.take(0) =~= Seq::<Seq<char>>::empty());
        let mut at: usize = 0;
        while at < order.len()
            invariant
                at <= order.len(),
                names == order.deep_view(),
                shown@.len() == self@.in_order(names.take(at as int)).len(),
                forall|k: int|
                    0 <= k < shown@.len() ==> *shown@[k] == self@.in_order(names.take(at as int))[k],
            decreases order.len() - at,
        {
            proof {
                let next = names.take(at as int + 1);
                assert(next.drop_last() =~= names.take(at as int));
                assert(next.last() == order[at as int]@);
            }
            match self.loaded_plugins.get(order[at].as_str()) {
                Some(plugin) => {
                    shown.push(plugin);
                },
                None => {},
            }
            at += 1;
        }
        assert(names.take(at as int) =~= names);
        shown
    }

    /// The first step of reloading everything: drops every plugin that has a
    /// record, so that the files can be bound again, and gives the records
    /// to load.
    pub fn reload_all_plugins(&mut self) -> (records: Vec<PluginRecord>)
        ensures
            final(self)@ == old(self)@.unload_all(),
            records.deep_view() == old(self)@.records,
            old(self)@.wf() ==> final(self)@.wf(),
    {
        proof {
            if old(self)@.wf() {
                law_unload_all_empties(old(self)@);
            }
        }
        let mut records: Vec<PluginRecord> = Vec::new();
        let ghost before = self@;
        let mut at: usize = 0;
        while at < self.all_plugins.len()
            invariant
                at <= self.all_plugins.len(),
                self@.records == before.records,
                self@.display_order == before.display_order,
                self@.menu_order == before.menu_order,
                self@.active == before.active.remove_keys(
                    Set::new(
                        |name: Seq<char>|
                            exists|k: int| 0 <= k < at && (#[trigger] before.records[k]).name == name,
                    ),
                ),
                records.deep_view() == before.records.take(at as int),
            decreases self.all_plugins.len() - at,
        {
            let ghost dropped = Set::new(
                |name: Seq<char>|
                    exists|k: int| 0 <= k < at && (#[trigger] before.records[k]).name == name,
            );
            let ghost copied = records.deep_view();
            let record = &self.all_plugins[at];
            let name = record.name.clone();
            records.push(PluginRecord { name: record.name.clone(), path: record.path.clone() });
            assert(records.deep_view() =~= copied.push(before.records[at as int]));
            assert(records.deep_view() =~= before.records.take(at as int + 1));
            self.loaded_plugins.remove(name.as_str());
            at += 1;
            proof {
                let dropped_now = Set::new(
                    |name: Seq<char>|
                        exists|k: int| 0 <= k < at && (#[trigger] before.records[k]).name == name,
                );
                assert(before.records[at - 1].name == name@);
                assert(dropped_now =~= dropped.insert(name@));
                assert(self@.active =~= before.active.remove_keys(dropped_now));
            }
        }
        proof {
            assert(before.records.take(at as int) =~= before.records);
            assert(Set::new(
                |name: Seq<char>|
                    exists|k: int| 0 <= k < at && (#[trigger] before.records[k]).name == name,
            ) =~= Set::new(|name: Seq<char>| before.knows(name)));
        }
        records
    }

    /// The second step of reloading everything: takes what came of loading
    /// each record again and applies it as [`Plugins::reload_plugin_dll`]
    /// does, in the order given. The result lists what failed: first the
    /// files that could not be bound again, each with the name of its
    /// plugin, then the modules whose initialisation ended abnormally.
    pub fn wait_init_plugins(&mut self, reloaded: Vec<Reloaded<P>>) -> (failures: Vec<LoadFailure>)
        ensures
            final(self)@ == old(self)@.reload_each(reloaded.deep_view()),
            failures.deep_view() == reload_failures(reloaded.deep_view()),
            old(self)@.wf() ==> final(self)@.wf(),
    {
        proof {
            if old(self)@.wf() {
                law_reload_each_keeps_wf(old(self)@, reloaded.deep_view());
            }
        }
        let ghost retries = reloaded.deep_view();
        let ghost attempts = attempts_of(retries);
        let mut failures: Vec<LoadFailure> = Vec::new();
        assert(failures.deep_view() =~= Seq::<Failure>::empty());
        assert(attempts.take(0) =~= Seq::<Attempt<P>>::empty());
        assert(retries.take(0) =~= Seq::<Retry<P>>::empty());
        let mut at: usize = 0;
        while at < reloaded.len()
            invariant
                at <= reloaded.len(),
                retries == reloaded.deep_view(),
                failures.deep_view() == rebind_failures(retries.take(at as int)),
            decreases reloaded.len() - at,
        {
            proof {
                let next = retries.take(at as int + 1);
                assert(next.drop_last() =~= retries.take(at as int));
                assert(next.last() == reloaded[at as int]@);
            }
            let ghost reported = failures.deep_view();
            let one = &reloaded[at];
            match &one.candidate.outcome {
                LoadOutcome::BindFailure { reason } => {
                    failures.push(
                        LoadFailure::ReloadFailure {
                            file: one.candidate.path.clone(),
                            name: one.name.clone(),
                            reason: reason.clone(),
                        },
                    );
                    assert(failures.deep_view() =~= reported.push(
                        Failure::ReloadFailure {
                            file: one.candidate.path@,
                            name: one.name@,
                            reason: reason@,
                        },
                    ));
                },
                _ => {},
            }
            at += 1;
        }
        assert(retries.take(at as int) =~= retries);
        let ghost unbound = failures.deep_view();
        for one in pending: reloaded
            invariant
                retries.len() == pending.seq().len(),
                attempts == attempts_of(retries),
                forall|k: int| 0 <= k < retries.len() ==> retries[k] == (#[trigger] pending.seq()[k])@,
                self@ == old(self)@.reload_each(retries.take(pending.index() as int)),
                failures.deep_view() == unbound + init_faults(attempts.take(pending.index() as int)),
        {
            proof {
                let next = retries.take(pending.index() as int + 1);
                assert(next.drop_last() =~= retries.take(pending.index() as int));
                assert(next.last() == one@);
                let tried = attempts.take(pending.index() as int + 1);
                assert(tried.drop_last() =~= attempts.take(pending.index() as int));
                assert(tried.last() == one@.attempt);
            }
            let ghost reported = failures.deep_view();
            let known = self.find_record(&one.name).is_some();
            self.loaded_plugins.remove(one.name.as_str());
            match one.candidate.outcome {
                LoadOutcome::BindFailure { reason } => {},
                LoadOutcome::InitFault { name, payload } => {
                    failures.push(LoadFailure::InitFault { payload });
                    assert(failures.deep_view() =~= reported.push(
                        Failure::InitFault { payload: payload@ },
                    ));
                },
                LoadOutcome::Ready { name, plugin } => {
                    if known {
                        self.install(one.name, plugin);
                    }
                },
            }
        }
        assert(retries.take(retries.len() as int) =~= retries);
        assert(attempts.take(retries.len() as int) =~= attempts);
        failures
    }
}

} // verus!
