use xtea::{Candidate, LoadFailure, LoadOutcome, PluginRecord, Plugins, Reloaded};

fn ready(path: &str, name: &str, plugin: u32) -> Candidate<u32> {
    Candidate {
        path: path.to_string(),
        outcome: LoadOutcome::Ready { name: name.to_string(), plugin },
    }
}

fn init_fault(path: &str, name: &str, payload: &str) -> Candidate<u32> {
    Candidate {
        path: path.to_string(),
        outcome: LoadOutcome::InitFault { name: name.to_string(), payload: payload.to_string() },
    }
}

fn bind_failure(path: &str, reason: &str) -> Candidate<u32> {
    Candidate { path: path.to_string(), outcome: LoadOutcome::BindFailure { reason: reason.to_string() } }
}

fn record(name: &str, path: &str) -> PluginRecord {
    PluginRecord { name: name.to_string(), path: path.to_string() }
}

fn shown(plugins: &Plugins<u32>) -> Vec<u32> {
    plugins.ui_build_iter().into_iter().copied().collect()
}

fn in_menu(plugins: &Plugins<u32>) -> Vec<u32> {
    plugins.view_submenu_iter().into_iter().copied().collect()
}

fn three_loaded() -> Plugins<u32> {
    let mut plugins = Plugins::new();
    let failures = plugins.load_all(vec![
        ready("plugins/a.dll", "A", 1),
        ready("plugins/b.dll", "B", 2),
        ready("plugins/c.dll", "C", 3),
    ]);
    assert!(failures.is_empty());
    plugins
}

#[test]
fn new_registry_knows_nothing() {
    let plugins: Plugins<u32> = Plugins::new();
    assert!(plugins.all_plugins().is_empty());
    assert!(plugins.ui_build_iter().is_empty());
    assert!(plugins.view_submenu_iter().is_empty());
    assert!(!plugins.is_active("A"));
}

#[test]
fn load_all_with_a_faulting_plugin_leaves_the_others_active() {
    let mut plugins = Plugins::new();
    let failures = plugins.load_all(vec![
        ready("plugins/a.dll", "A", 1),
        init_fault("plugins/b.dll", "B", "Any { .. }"),
        ready("plugins/c.dll", "C", 3),
    ]);
    assert_eq!(failures, vec![LoadFailure::InitFault { payload: "Any { .. }".to_string() }]);
    assert!(plugins.is_active("A"));
    assert!(!plugins.is_active("B"));
    assert!(plugins.is_active("C"));
    assert_eq!(shown(&plugins), vec![1, 3]);
    assert_eq!(in_menu(&plugins), vec![1, 3]);
    assert_eq!(
        plugins.all_plugins(),
        &vec![
            record("A", "plugins/a.dll"),
            record("B", "plugins/b.dll"),
            record("C", "plugins/c.dll"),
        ]
    );
}

#[test]
fn a_plugin_that_faulted_at_start_up_takes_the_last_place_when_it_loads() {
    let mut plugins = Plugins::new();
    plugins.load_all(vec![
        ready("plugins/a.dll", "A", 1),
        init_fault("plugins/b.dll", "B", "Any { .. }"),
        ready("plugins/c.dll", "C", 3),
    ]);
    assert_eq!(plugins.reload_plugin("B"), Some("plugins/b.dll".to_string()));
    let failure = plugins.reload_plugin_dll(
        "B",
        "plugins/b.dll".to_string(),
        LoadOutcome::Ready { name: "B".to_string(), plugin: 2 },
    );
    assert_eq!(failure, None);
    assert_eq!(shown(&plugins), vec![1, 3, 2]);
}

#[test]
fn load_all_counts_valid_and_invalid_files() {
    let mut plugins = Plugins::new();
    let failures = plugins.load_all(vec![
        bind_failure("plugins/broken.dll", "not a module"),
        ready("plugins/a.dll", "A", 1),
        init_fault("plugins/b.dll", "B", "boom"),
        bind_failure("plugins/empty.dll", "missing symbol get_name"),
        ready("plugins/c.dll", "C", 3),
    ]);
    assert_eq!(plugins.ui_build_iter().len(), 2);
    assert_eq!(
        failures,
        vec![
            LoadFailure::BindFailure {
                file: "plugins/broken.dll".to_string(),
                reason: "not a module".to_string(),
            },
            LoadFailure::BindFailure {
                file: "plugins/empty.dll".to_string(),
                reason: "missing symbol get_name".to_string(),
            },
            LoadFailure::InitFault { payload: "boom".to_string() },
        ]
    );
    assert_eq!(
        plugins.all_plugins(),
        &vec![
            record("A", "plugins/a.dll"),
            record("B", "plugins/b.dll"),
            record("C", "plugins/c.dll"),
        ]
    );
}

#[test]
fn load_all_is_the_same_whatever_the_order_of_the_files() {
    let mut forwards = Plugins::new();
    let first = forwards.load_all(vec![
        bind_failure("plugins/broken.dll", "not a module"),
        ready("plugins/a.dll", "A", 1),
        ready("plugins/c.dll", "C", 3),
    ]);
    let mut backwards = Plugins::new();
    let second = backwards.load_all(vec![
        ready("plugins/c.dll", "C", 3),
        ready("plugins/a.dll", "A", 1),
        bind_failure("plugins/broken.dll", "not a module"),
    ]);
    assert_eq!(first.len(), 1);
    assert_eq!(second.len(), 1);
    for name in ["A", "C"] {
        assert!(forwards.is_active(name));
        assert!(backwards.is_active(name));
    }
    assert_eq!(shown(&forwards), vec![1, 3]);
    assert_eq!(shown(&backwards), vec![3, 1]);
}

#[test]
fn load_all_of_nothing_changes_nothing() {
    let mut plugins: Plugins<u32> = Plugins::new();
    let failures = plugins.load_all(Vec::new());
    assert!(failures.is_empty());
    assert!(plugins.all_plugins().is_empty());
    assert!(plugins.ui_build_iter().is_empty());
}

#[test]
fn display_order_follows_the_order_of_joining() {
    let mut plugins = Plugins::new();
    plugins.load_all(vec![
        ready("plugins/z.dll", "Z", 26),
        ready("plugins/m.dll", "M", 13),
        ready("plugins/a.dll", "A", 1),
    ]);
    assert_eq!(shown(&plugins), vec![26, 13, 1]);
    assert_eq!(in_menu(&plugins), vec![26, 13, 1]);
}

#[test]
fn unload_hides_a_plugin_and_keeps_its_record() {
    let mut plugins = three_loaded();
    plugins.unload("B");
    assert!(!plugins.is_active("B"));
    assert_eq!(shown(&plugins), vec![1, 3]);
    assert_eq!(in_menu(&plugins), vec![1, 3]);
    assert_eq!(plugins.all_plugins().len(), 3);
    assert_eq!(plugins.all_plugins()[1], record("B", "plugins/b.dll"));
}

#[test]
fn unload_of_an_inactive_name_is_a_no_op() {
    let mut plugins = three_loaded();
    plugins.unload("B");
    plugins.unload("B");
    plugins.unload("never heard of");
    assert_eq!(shown(&plugins), vec![1, 3]);
    assert_eq!(plugins.all_plugins().len(), 3);
}

#[test]
fn unload_then_activate_restores_the_same_position() {
    let mut plugins = three_loaded();
    plugins.unload("A");
    assert_eq!(shown(&plugins), vec![2, 3]);
    let failure = plugins.activate(
        "plugins/a.dll".to_string(),
        LoadOutcome::Ready { name: "A".to_string(), plugin: 10 },
    );
    assert_eq!(failure, None);
    assert_eq!(shown(&plugins), vec![10, 2, 3]);
    assert_eq!(in_menu(&plugins), vec![10, 2, 3]);
    assert_eq!(plugins.all_plugins().len(), 3);
}

#[test]
fn activate_of_a_new_file_records_it_and_shows_it_last() {
    let mut plugins = three_loaded();
    let failure = plugins.activate(
        "plugins/d.dll".to_string(),
        LoadOutcome::Ready { name: "D".to_string(), plugin: 4 },
    );
    assert_eq!(failure, None);
    assert!(plugins.is_active("D"));
    assert_eq!(shown(&plugins), vec![1, 2, 3, 4]);
    assert_eq!(plugins.all_plugins()[3], record("D", "plugins/d.dll"));
}

#[test]
fn activate_reports_a_file_that_cannot_be_bound() {
    let mut plugins = three_loaded();
    let failure = plugins.activate(
        "plugins/d.dll".to_string(),
        LoadOutcome::BindFailure { reason: "no such file".to_string() },
    );
    assert_eq!(
        failure,
        Some(LoadFailure::BindFailure {
            file: "plugins/d.dll".to_string(),
            reason: "no such file".to_string(),
        })
    );
    assert_eq!(plugins.all_plugins().len(), 3);
    assert_eq!(shown(&plugins), vec![1, 2, 3]);
}

#[test]
fn activate_reports_an_initialisation_that_faulted() {
    let mut plugins = three_loaded();
    let failure = plugins.activate(
        "plugins/d.dll".to_string(),
        LoadOutcome::InitFault { name: "D".to_string(), payload: "panicked".to_string() },
    );
    assert_eq!(failure, Some(LoadFailure::InitFault { payload: "panicked".to_string() }));
    assert!(!plugins.is_active("D"));
    assert_eq!(plugins.all_plugins()[3], record("D", "plugins/d.dll"));
    assert_eq!(shown(&plugins), vec![1, 2, 3]);
}

#[test]
fn reload_plugin_drops_the_plugin_and_gives_its_file() {
    let mut plugins = three_loaded();
    assert_eq!(plugins.reload_plugin("B"), Some("plugins/b.dll".to_string()));
    assert!(!plugins.is_active("B"));
    assert_eq!(shown(&plugins), vec![1, 3]);
}

#[test]
fn reload_plugin_of_an_unknown_name_gives_nothing() {
    let mut plugins = three_loaded();
    assert_eq!(plugins.reload_plugin("D"), None);
    assert_eq!(shown(&plugins), vec![1, 2, 3]);
}

#[test]
fn reload_keeps_the_position_of_an_active_plugin() {
    let mut plugins = three_loaded();
    let path = plugins.reload_plugin("B").unwrap();
    let failure = plugins.reload_plugin_dll(
        "B",
        path,
        LoadOutcome::Ready { name: "B".to_string(), plugin: 20 },
    );
    assert_eq!(failure, None);
    assert_eq!(shown(&plugins), vec![1, 20, 3]);
    assert_eq!(in_menu(&plugins), vec![1, 20, 3]);
    assert_eq!(plugins.all_plugins().len(), 3);
}

#[test]
fn reload_puts_the_plugin_back_under_the_name_of_its_record() {
    let mut plugins = three_loaded();
    let failure = plugins.reload_plugin_dll(
        "B",
        "plugins/b.dll".to_string(),
        LoadOutcome::Ready { name: "renamed".to_string(), plugin: 20 },
    );
    assert_eq!(failure, None);
    assert!(plugins.is_active("B"));
    assert!(!plugins.is_active("renamed"));
    assert_eq!(shown(&plugins), vec![1, 20, 3]);
}

#[test]
fn reload_that_cannot_bind_leaves_the_plugin_inactive_with_its_record() {
    let mut plugins = three_loaded();
    let path = plugins.reload_plugin("B").unwrap();
    let failure = plugins.reload_plugin_dll(
        "B",
        path,
        LoadOutcome::BindFailure { reason: "file is being written".to_string() },
    );
    assert_eq!(
        failure,
        Some(LoadFailure::ReloadFailure {
            file: "plugins/b.dll".to_string(),
            name: "B".to_string(),
            reason: "file is being written".to_string(),
        })
    );
    assert!(!plugins.is_active("B"));
    assert_eq!(shown(&plugins), vec![1, 3]);
    assert_eq!(plugins.all_plugins()[1], record("B", "plugins/b.dll"));
    let path = plugins.reload_plugin("B").unwrap();
    let retry = plugins.reload_plugin_dll(
        "B",
        path,
        LoadOutcome::Ready { name: "B".to_string(), plugin: 21 },
    );
    assert_eq!(retry, None);
    assert_eq!(shown(&plugins), vec![1, 21, 3]);
}

#[test]
fn reload_of_a_name_without_a_record_brings_nothing_back() {
    let mut plugins = three_loaded();
    let failure = plugins.reload_plugin_dll(
        "D",
        "plugins/d.dll".to_string(),
        LoadOutcome::Ready { name: "D".to_string(), plugin: 4 },
    );
    assert_eq!(failure, None);
    assert!(!plugins.is_active("D"));
    assert_eq!(shown(&plugins), vec![1, 2, 3]);
}

#[test]
fn reload_all_drops_every_plugin_and_brings_back_those_that_load() {
    let mut plugins = three_loaded();
    let records = plugins.reload_all_plugins();
    assert_eq!(
        records,
        vec![
            record("A", "plugins/a.dll"),
            record("B", "plugins/b.dll"),
            record("C", "plugins/c.dll"),
        ]
    );
    assert!(plugins.ui_build_iter().is_empty());
    let failures = plugins.wait_init_plugins(vec![
        Reloaded { name: "A".to_string(), candidate: ready("plugins/a.dll", "A", 11) },
        Reloaded { name: "B".to_string(), candidate: init_fault("plugins/b.dll", "B", "boom") },
        Reloaded { name: "C".to_string(), candidate: bind_failure("plugins/c.dll", "gone") },
    ]);
    assert_eq!(
        failures,
        vec![
            LoadFailure::ReloadFailure {
                file: "plugins/c.dll".to_string(),
                name: "C".to_string(),
                reason: "gone".to_string(),
            },
            LoadFailure::InitFault { payload: "boom".to_string() },
        ]
    );
    assert_eq!(shown(&plugins), vec![11]);
    assert_eq!(plugins.all_plugins().len(), 3);
}

#[test]
fn toggle_drops_an_active_plugin_and_asks_for_the_file_of_an_inactive_one() {
    let mut plugins = three_loaded();
    assert_eq!(plugins.toggle("B"), None);
    assert!(!plugins.is_active("B"));
    assert_eq!(plugins.toggle("B"), Some("plugins/b.dll".to_string()));
    assert!(!plugins.is_active("B"));
    assert_eq!(plugins.toggle("never heard of"), None);
    assert_eq!(shown(&plugins), vec![1, 3]);
}

#[test]
fn failures_have_their_messages() {
    let bind = LoadFailure::BindFailure {
        file: "plugins/a.dll".to_string(),
        reason: "no such file".to_string(),
    };
    assert_eq!(bind.message(), "Failed to load plugin plugins/a.dll\n\tno such file");
    let reload = LoadFailure::ReloadFailure {
        file: "plugins/a.dll".to_string(),
        name: "Example (basic) Plugin".to_string(),
        reason: "no such file".to_string(),
    };
    assert_eq!(
        reload.message(),
        "Failed to reload plugin plugins/a.dll (Example (basic) Plugin)\n\tno such file"
    );
    let init = LoadFailure::InitFault { payload: "Any { .. }".to_string() };
    assert_eq!(init.message(), "Plugin crashed during initialization\nAny { .. }");
}

#[test]
fn orders_stay_through_unloads_reloads_and_activations() {
    let mut plugins = three_loaded();
    plugins.unload("B");
    plugins.unload("A");
    plugins.activate("plugins/b.dll".to_string(), LoadOutcome::Ready { name: "B".to_string(), plugin: 2 });
    plugins.reload_plugin_dll(
        "C",
        "plugins/c.dll".to_string(),
        LoadOutcome::Ready { name: "C".to_string(), plugin: 3 },
    );
    plugins.activate("plugins/a.dll".to_string(), LoadOutcome::Ready { name: "A".to_string(), plugin: 1 });
    plugins.reload_plugin_dll(
        "A",
        "plugins/a.dll".to_string(),
        LoadOutcome::InitFault { name: "A".to_string(), payload: "boom".to_string() },
    );
    plugins.activate("plugins/a.dll".to_string(), LoadOutcome::Ready { name: "A".to_string(), plugin: 1 });
    assert_eq!(shown(&plugins), vec![1, 2, 3]);
    assert_eq!(in_menu(&plugins), vec![1, 2, 3]);
    assert_eq!(plugins.all_plugins().len(), 3);
}

#[test]
fn two_modules_of_one_name_both_get_a_record_and_a_place() {
    let mut plugins = Plugins::new();
    let failures = plugins.load_all(vec![
        ready("plugins/a.dll", "A", 1),
        ready("plugins/copy_of_a.dll", "A", 2),
        ready("plugins/b.dll", "B", 3),
    ]);
    assert!(failures.is_empty());
    assert_eq!(
        plugins.all_plugins(),
        &vec![
            record("A", "plugins/a.dll"),
            record("A", "plugins/copy_of_a.dll"),
            record("B", "plugins/b.dll"),
        ]
    );
    assert!(plugins.is_active("A"));
    assert_eq!(shown(&plugins), vec![2, 2, 3]);
    assert_eq!(in_menu(&plugins), vec![2, 2, 3]);
    assert_eq!(plugins.reload_plugin("A"), Some("plugins/a.dll".to_string()));
    assert_eq!(shown(&plugins), vec![3]);
}

#[test]
fn a_bound_module_gets_its_record_whatever_its_initialisation_did() {
    let mut plugins = Plugins::new();
    plugins.load_all(vec![
        init_fault("plugins/a.dll", "A", "boom"),
        bind_failure("plugins/b.dll", "not a module"),
        init_fault("plugins/other_a.dll", "A", "boom"),
    ]);
    assert_eq!(
        plugins.all_plugins(),
        &vec![record("A", "plugins/a.dll"), record("A", "plugins/other_a.dll")]
    );
    assert!(plugins.ui_build_iter().is_empty());
}

#[test]
fn a_second_start_up_goes_behind_the_first() {
    let mut plugins = three_loaded();
    plugins.load_all(vec![ready("plugins/d.dll", "D", 4)]);
    assert_eq!(shown(&plugins), vec![1, 2, 3, 4]);
    assert_eq!(plugins.all_plugins().len(), 4);
}

#[test]
fn activation_of_a_known_name_adds_neither_record_nor_place() {
    let mut plugins = three_loaded();
    plugins.activate(
        "plugins/elsewhere.dll".to_string(),
        LoadOutcome::Ready { name: "B".to_string(), plugin: 20 },
    );
    assert_eq!(shown(&plugins), vec![1, 20, 3]);
    assert_eq!(plugins.all_plugins().len(), 3);
    assert_eq!(plugins.all_plugins()[1], record("B", "plugins/b.dll"));
}
