//! What holds of the registry whatever the host does with it.

use crate::model::{
    active_after, bind_failures, bound_records, init_faults, load_failures, names_a_record,
    ready_names, Attempt, Outcome, Registry, Retry, Step,
};
use crate::text::with_name;
use vstd::prelude::*;

verus! {

/// Adding a name to an order gives one that holds the name and keeps every
/// name where it was. Where the order had no name twice, neither has the
/// new one.
pub proof fn lemma_with_name(order: Seq<Seq<char>>, name: Seq<char>)
    ensures
        order.no_duplicates() ==> with_name(order, name).no_duplicates(),
        with_name(order, name).contains(name),
        order.is_prefix_of(with_name(order, name)),
        forall|other: Seq<char>| order.contains(other) ==> with_name(order, name).contains(other),
{
    let longer = with_name(order, name);
    if !order.contains(name) {
        assert forall|other: Seq<char>| order.contains(other) implies longer.contains(other) by {
            let k = choose|k: int| 0 <= k < order.len() && order[k] == other;
            assert(longer[k] == other);
        }
        assert(longer[order.len() as int] == name);
    }
    assert(order =~= longer.subrange(0, order.len() as int));
}

/// Recording a bound module keeps the registry well formed.
pub proof fn law_register_keeps_wf<P>(registry: Registry<P>, name: Seq<char>, path: Seq<char>)
    requires
        registry.wf(),
    ensures
        registry.register(name, path).wf(),
        registry.register(name, path).knows(name),
        forall|other: Seq<char>| registry.knows(other) ==> registry.register(name, path).knows(other),
{
    lemma_register_keeps_known(registry, name, path);
}

/// A plugin that becomes active under a name that has a record keeps the
/// registry well formed.
pub proof fn law_install_keeps_wf<P>(registry: Registry<P>, name: Seq<char>, plugin: P)
    requires
        registry.wf(),
        registry.knows(name),
    ensures
        registry.install(name, plugin).wf(),
{
    lemma_with_name(registry.display_order, name);
    lemma_with_name(registry.menu_order, name);
}

/// Dropping a plugin keeps the registry well formed.
pub proof fn law_unload_keeps_wf<P>(registry: Registry<P>, name: Seq<char>)
    requires
        registry.wf(),
    ensures
        registry.unload(name).wf(),
        !registry.unload(name).is_active(name),
{
}

/// Unloading a name that is not active changes nothing, so unloading twice
/// is unloading once.
pub proof fn law_unload_is_idempotent<P>(registry: Registry<P>, name: Seq<char>)
    ensures
        !registry.is_active(name) ==> registry.unload(name) == registry,
        registry.unload(name).unload(name) == registry.unload(name),
{
    if !registry.is_active(name) {
        assert(registry.active.remove(name) =~= registry.active);
    }
    assert(registry.active.remove(name).remove(name) =~= registry.active.remove(name));
}

/// Activating a module file keeps the registry well formed, whatever came of it.
pub proof fn law_activate_keeps_wf<P>(registry: Registry<P>, path: Seq<char>, outcome: Outcome<P>)
    requires
        registry.wf(),
    ensures
        registry.activate(path, outcome).wf(),
{
    match outcome {
        Outcome::BindFailure { reason } => {},
        Outcome::InitFault { name, payload } => {
            law_register_keeps_wf(registry, name, path);
        },
        Outcome::Ready { name, plugin } => {
            law_register_keeps_wf(registry, name, path);
            law_install_keeps_wf(registry.register(name, path), name, plugin);
        },
    }
}

/// Reloading a plugin keeps the registry well formed, whatever came of it.
pub proof fn law_reload_keeps_wf<P>(registry: Registry<P>, name: Seq<char>, outcome: Outcome<P>)
    requires
        registry.wf(),
    ensures
        registry.reload(name, outcome).wf(),
{
    law_unload_keeps_wf(registry, name);
    match outcome {
        Outcome::Ready { name: reported, plugin } => {
            if registry.knows(name) {
                assert(registry.unload(name).knows(name));
                law_install_keeps_wf(registry.unload(name), name, plugin);
            }
        },
        _ => {},
    }
}

/// Reloading any number of records keeps the registry well formed.
pub proof fn law_reload_each_keeps_wf<P>(registry: Registry<P>, retries: Seq<Retry<P>>)
    requires
        registry.wf(),
    ensures
        registry.reload_each(retries).wf(),
    decreases retries.len(),
{
    if retries.len() > 0 {
        law_reload_each_keeps_wf(registry, retries.drop_last());
        law_reload_keeps_wf(
            registry.reload_each(retries.drop_last()),
            retries.last().name,
            retries.last().attempt.outcome,
        );
    }
}

/// Dropping every plugin that has a record leaves a well-formed registry
/// with no active plugin.
pub proof fn law_unload_all_empties<P>(registry: Registry<P>)
    requires
        registry.wf(),
    ensures
        registry.unload_all().wf(),
        registry.unload_all().active == Map::<Seq<char>, P>::empty(),
{
    assert(registry.unload_all().active =~= Map::<Seq<char>, P>::empty());
}

/// A plugin that is unloaded and then activated again from its file stands
/// where it stood: both orders are what they were, so its name has the same
/// place, and no record is added. Where no name stood twice in the order
/// before, its name stands there once.
pub proof fn law_unload_then_activate_restores_place<P>(
    registry: Registry<P>,
    name: Seq<char>,
    path: Seq<char>,
    plugin: P,
)
    requires
        registry.wf(),
        registry.is_active(name),
    ensures
        ({
            let back = registry.unload(name).activate(path, Outcome::Ready { name, plugin });
            &&& back.wf()
            &&& back.display_order == registry.display_order
            &&& back.menu_order == registry.menu_order
            &&& back.records == registry.records
            &&& back.active == registry.active.insert(name, plugin)
            &&& back.display_order.index_of(name) == registry.display_order.index_of(name)
            &&& registry.display_order.no_duplicates() ==> back.display_order.filter(
                |other: Seq<char>| other == name,
            ).len() == 1
        }),
{
    let dropped = registry.unload(name);
    law_unload_keeps_wf(registry, name);
    assert(dropped.knows(name));
    law_activate_keeps_wf(dropped, path, Outcome::Ready { name, plugin });
    let back = dropped.activate(path, Outcome::Ready { name, plugin });
    assert(back.active =~= registry.active.insert(name, plugin));
    if registry.display_order.no_duplicates() {
        lemma_stands_once(registry.display_order, name);
    }
}

/// A name that an order without repetition holds stands in it exactly once.
pub proof fn lemma_stands_once(order: Seq<Seq<char>>, name: Seq<char>)
    requires
        order.no_duplicates(),
        order.contains(name),
    ensures
        order.filter(|other: Seq<char>| other == name).len() == 1,
    decreases order.len(),
{
    reveal(Seq::filter);
    if order.len() > 0 {
        let front = order.drop_last();
        assert(front.no_duplicates());
        if order.last() == name {
            assert(!front.contains(name)) by {
                if front.contains(name) {
                    let k = choose|k: int| 0 <= k < front.len() && front[k] == name;
                    assert(order[k] == order[order.len() - 1]);
                }
            }
            lemma_stands_never(front, name);
        } else {
            let k = choose|k: int| 0 <= k < order.len() && order[k] == name;
            assert(front[k] == name);
            lemma_stands_once(front, name);
        }
    }
}

/// A name that an order does not hold is filtered out of it entirely.
pub proof fn lemma_stands_never(order: Seq<Seq<char>>, name: Seq<char>)
    requires
        !order.contains(name),
    ensures
        order.filter(|other: Seq<char>| other == name).len() == 0,
    decreases order.len(),
{
    reveal(Seq::filter);
    if order.len() > 0 {
        let front = order.drop_last();
        assert(order[order.len() - 1] != name);
        assert(!front.contains(name)) by {
            if front.contains(name) {
                let k = choose|k: int| 0 <= k < front.len() && front[k] == name;
                assert(order[k] == name);
            }
        }
        lemma_stands_never(front, name);
    }
}

/// Reloading an active plugin drops it and brings it back: the orders and
/// the records are what they were. Where the file cannot be bound again, or
/// the initialisation ends abnormally, the plugin is inactive afterwards and
/// its record is still there for another try.
pub proof fn law_reload_keeps_place<P>(registry: Registry<P>, name: Seq<char>, outcome: Outcome<P>)
    requires
        registry.wf(),
        registry.is_active(name),
    ensures
        ({
            let after = registry.reload(name, outcome);
            &&& after.wf()
            &&& after.display_order == registry.display_order
            &&& after.menu_order == registry.menu_order
            &&& after.records == registry.records
            &&& after.knows(name)
            &&& after.path_of(name) == registry.path_of(name)
            &&& outcome matches Outcome::Ready { name: reported, plugin } ==> after.active
                == registry.active.insert(name, plugin)
            &&& !(outcome is Ready) ==> after.active == registry.active.remove(name)
        }),
{
    law_reload_keeps_wf(registry, name, outcome);
    let after = registry.reload(name, outcome);
    assert(registry.unload(name).knows(name));
    match outcome {
        Outcome::Ready { name: reported, plugin } => {
            assert(after.active =~= registry.active.insert(name, plugin));
        },
        _ => {},
    }
}

/// A record, once made, stays; and the module just recorded has one.
pub proof fn lemma_register_keeps_known<P>(registry: Registry<P>, name: Seq<char>, path: Seq<char>)
    ensures
        registry.register(name, path).knows(name),
        forall|other: Seq<char>| registry.knows(other) ==> registry.register(name, path).knows(other),
{
    let after = registry.register(name, path);
    if !registry.knows(name) {
        assert(after.records[registry.records.len() as int].name == name);
        assert forall|other: Seq<char>| registry.knows(other) implies after.knows(other) by {
            let k = choose|k: int|
                0 <= k < registry.records.len() && (#[trigger] registry.records[k]).name == other;
            assert(after.records[k].name == other);
        }
    }
}

/// Every module that start-up bound has a record afterwards, and so has
/// every plugin that finished its initialisation.
pub proof fn lemma_bound_records<P>(attempts: Seq<Attempt<P>>)
    ensures
        forall|k: int|
            0 <= k < attempts.len() ==> match (#[trigger] attempts[k]).outcome {
                Outcome::BindFailure { reason } => true,
                Outcome::InitFault { name, payload } => names_a_record(
                    bound_records(attempts),
                    name,
                ),
                Outcome::Ready { name, plugin } => names_a_record(bound_records(attempts), name),
            },
        forall|name: Seq<char>|
            ready_names(attempts).contains(name) ==> names_a_record(bound_records(attempts), name),
    decreases attempts.len(),
{
    let records = bound_records(attempts);
    if attempts.len() > 0 {
        let front = attempts.drop_last();
        let earlier = bound_records(front);
        lemma_bound_records(front);
        assert forall|name: Seq<char>| names_a_record(earlier, name) implies names_a_record(
            records,
            name,
        ) by {
            let k = choose|k: int| 0 <= k < earlier.len() && (#[trigger] earlier[k]).name == name;
            assert(records[k].name == name);
        }
        if attempts.last().outcome !is BindFailure {
            assert(records[records.len() - 1].path == attempts.last().path);
        }
        assert forall|k: int| 0 <= k < attempts.len() implies match (#[trigger] attempts[k]).outcome {
            Outcome::BindFailure { reason } => true,
            Outcome::InitFault { name, payload } => names_a_record(records, name),
            Outcome::Ready { name, plugin } => names_a_record(records, name),
        } by {
            if k < front.len() {
                assert(front[k] == attempts[k]);
            }
        }
        lemma_ready_names(attempts);
        assert forall|name: Seq<char>| ready_names(attempts).contains(name) implies names_a_record(
            records,
            name,
        ) by {
            let k = choose|k: int|
                0 <= k < attempts.len() && (#[trigger] attempts[k]).outcome == (Outcome::Ready {
                    name,
                    plugin: attempts[k].outcome->Ready_plugin,
                });
            assert(attempts[k].outcome is Ready);
        }
    }
}

/// Start-up keeps the registry well formed.
pub proof fn law_load_all_keeps_wf<P>(registry: Registry<P>, attempts: Seq<Attempt<P>>)
    requires
        registry.wf(),
    ensures
        registry.load_all(attempts).wf(),
{
    let after = registry.load_all(attempts);
    lemma_active_after(registry.active, attempts);
    lemma_bound_records(attempts);
    assert forall|name: Seq<char>| #[trigger] after.active.contains_key(name) implies after.knows(
        name,
    ) && after.display_order.contains(name) && after.menu_order.contains(name) by {
        if registry.active.contains_key(name) {
            let r = choose|r: int|
                0 <= r < registry.records.len() && (#[trigger] registry.records[r]).name == name;
            assert(after.records[r].name == name);
            let d = choose|d: int|
                0 <= d < registry.display_order.len() && registry.display_order[d] == name;
            assert(after.display_order[d] == name);
            let m = choose|m: int|
                0 <= m < registry.menu_order.len() && registry.menu_order[m] == name;
            assert(after.menu_order[m] == name);
        } else {
            let names = ready_names(attempts);
            assert(names.contains(name));
            let at = choose|at: int| 0 <= at < names.len() && names[at] == name;
            assert(after.display_order[registry.display_order.len() + at] == name);
            assert(after.menu_order[registry.menu_order.len() + at] == name);
            let records = bound_records(attempts);
            let r = choose|r: int| 0 <= r < records.len() && (#[trigger] records[r]).name == name;
            assert(after.records[registry.records.len() + r].name == name);
        }
    }
}

/// After start-up the records are what they were, followed by one for each
/// module that was bound, in the order in which the files were found; and
/// each order is what it was, followed by the name of every plugin that
/// finished its initialisation, in the order in which their threads were
/// joined.
pub proof fn law_load_all_appends_in_join_order<P>(registry: Registry<P>, attempts: Seq<Attempt<P>>)
    ensures
        registry.load_all(attempts).records == registry.records + bound_records(attempts),
        registry.load_all(attempts).display_order == registry.display_order + ready_names(attempts),
        registry.load_all(attempts).menu_order == registry.menu_order + ready_names(attempts),
{
}

/// After start-up on a fresh registry the records are one for each module
/// that was bound, and both orders are the names of the plugins that
/// finished their initialisation, in the order in which their threads were
/// joined.
pub proof fn law_first_load_all_gives_join_order<P>(attempts: Seq<Attempt<P>>)
    ensures
        Registry::<P>::empty().load_all(attempts).records == bound_records(attempts),
        Registry::<P>::empty().load_all(attempts).display_order == ready_names(attempts),
        Registry::<P>::empty().load_all(attempts).menu_order == ready_names(attempts),
{
    assert(Seq::<Seq<char>>::empty() + ready_names(attempts) =~= ready_names(attempts));
    assert(Registry::<P>::empty().records + bound_records(attempts) =~= bound_records(attempts));
}

/// Unloading, reloading and activating leave every name one module's alone.
pub proof fn law_step_keeps_names_unique<P>(registry: Registry<P>, step: Step<P>)
    requires
        registry.names_are_unique(),
    ensures
        registry.step(step).names_are_unique(),
{
    match step {
        Step::Unload { name } => {},
        Step::Reload { name, outcome } => {
            lemma_with_name(registry.display_order, name);
            lemma_with_name(registry.menu_order, name);
        },
        Step::Activate { path, outcome } => {
            match outcome {
                Outcome::BindFailure { reason } => {},
                Outcome::InitFault { name, payload } => {
                    lemma_register_keeps_names_apart(registry, name, path);
                },
                Outcome::Ready { name, plugin } => {
                    lemma_register_keeps_names_apart(registry, name, path);
                    lemma_with_name(registry.display_order, name);
                    lemma_with_name(registry.menu_order, name);
                },
            }
        },
    }
}

/// A record that is made only for a name without one shares its name with
/// no other.
proof fn lemma_register_keeps_names_apart<P>(registry: Registry<P>, name: Seq<char>, path: Seq<char>)
    requires
        registry.names_are_unique(),
    ensures
        registry.register(name, path).names_are_unique(),
{
    let after = registry.register(name, path);
    if !registry.knows(name) {
        assert forall|i: int, j: int| 0 <= i < j < after.records.len() implies (
        #[trigger] after.records[i]).name != (#[trigger] after.records[j]).name by {
            if j < registry.records.len() {
                assert(registry.records[i].name != registry.records[j].name);
            } else {
                assert(after.records[i] == registry.records[i]);
            }
        }
    }
}

/// Start-up leaves every name one module's alone where the modules that it
/// bound carry names that differ from one another and from every name that
/// the registry held before. Two files that report one name break this.
pub proof fn law_load_all_keeps_names_unique<P>(registry: Registry<P>, attempts: Seq<Attempt<P>>)
    requires
        registry.names_are_unique(),
        forall|i: int, j: int|
            0 <= i < j < bound_records(attempts).len() ==> (#[trigger] bound_records(
                attempts,
            )[i]).name != (#[trigger] bound_records(attempts)[j]).name,
        forall|k: int|
            0 <= k < bound_records(attempts).len() ==> !registry.knows(
                (#[trigger] bound_records(attempts)[k]).name,
            ) && !registry.display_order.contains(bound_records(attempts)[k].name)
                && !registry.menu_order.contains(bound_records(attempts)[k].name),
    ensures
        registry.load_all(attempts).names_are_unique(),
{
    let after = registry.load_all(attempts);
    let records = bound_records(attempts);
    let names = ready_names(attempts);
    lemma_ready_names_among_bound(attempts);
    assert forall|i: int, j: int| 0 <= i < j < after.records.len() implies (
    #[trigger] after.records[i]).name != (#[trigger] after.records[j]).name by {
        let old_len = registry.records.len() as int;
        if j < old_len {
            assert(registry.records[i].name != registry.records[j].name);
        } else if i < old_len {
            assert(!registry.knows(records[j - old_len].name));
            assert(registry.records[i].name != records[j - old_len].name);
        } else {
            assert(records[i - old_len].name != records[j - old_len].name);
        }
    }
    assert forall|i: int, j: int|
        0 <= i < registry.display_order.len() && 0 <= j < names.len() implies registry.display_order[i]
        != names[j] by {
        assert(names.contains(names[j]));
        let k = choose|k: int| 0 <= k < records.len() && (#[trigger] records[k]).name == names[j];
        assert(!registry.display_order.contains(records[k].name));
    }
    assert forall|i: int, j: int|
        0 <= i < registry.menu_order.len() && 0 <= j < names.len() implies registry.menu_order[i]
        != names[j] by {
        assert(names.contains(names[j]));
        let k = choose|k: int| 0 <= k < records.len() && (#[trigger] records[k]).name == names[j];
        assert(!registry.menu_order.contains(records[k].name));
    }
    vstd::seq_lib::lemma_no_dup_in_concat(registry.display_order, names);
    vstd::seq_lib::lemma_no_dup_in_concat(registry.menu_order, names);
}

/// The plugins that finished their initialisation are among the modules
/// that were bound, in the same order: where no two bound modules share a
/// name, no two of those plugins do.
proof fn lemma_ready_names_among_bound<P>(attempts: Seq<Attempt<P>>)
    requires
        forall|i: int, j: int|
            0 <= i < j < bound_records(attempts).len() ==> (#[trigger] bound_records(
                attempts,
            )[i]).name != (#[trigger] bound_records(attempts)[j]).name,
    ensures
        ready_names(attempts).no_duplicates(),
        forall|name: Seq<char>|
            ready_names(attempts).contains(name) ==> names_a_record(bound_records(attempts), name),
    decreases attempts.len(),
{
    let records = bound_records(attempts);
    let names = ready_names(attempts);
    lemma_bound_records(attempts);
    if attempts.len() > 0 {
        let front = attempts.drop_last();
        let earlier_records = bound_records(front);
        let earlier = ready_names(front);
        assert forall|i: int, j: int| 0 <= i < j < earlier_records.len() implies (
        #[trigger] earlier_records[i]).name != (#[trigger] earlier_records[j]).name by {
            assert(records[i] == earlier_records[i]);
            assert(records[j] == earlier_records[j]);
        }
        lemma_ready_names_among_bound(front);
        if let Outcome::Ready { name, plugin } = attempts.last().outcome {
            assert(!earlier.contains(name)) by {
                if earlier.contains(name) {
                    let k = choose|k: int|
                        0 <= k < earlier_records.len() && (#[trigger] earlier_records[k]).name
                            == name;
                    assert(records[k] == earlier_records[k]);
                    assert(records[k].name != records[records.len() - 1].name);
                }
            }
            assert forall|i: int, j: int|
                0 <= i < names.len() && 0 <= j < names.len() && i != j implies names[i]
                != names[j] by {
                if i < earlier.len() && j < earlier.len() {
                    assert(earlier[i] != earlier[j]);
                } else if i < earlier.len() {
                    assert(earlier.contains(earlier[i]));
                } else {
                    assert(earlier.contains(earlier[j]));
                }
            }
        }
    }
}

/// Once start-up is over, no number of unloads, reloads and activations that
/// are about names which the orders hold changes either order.
pub proof fn law_orders_are_stable<P>(registry: Registry<P>, steps: Seq<Step<P>>)
    requires
        forall|k: int|
            0 <= k < steps.len() ==> (#[trigger] steps[k]).about_name_in(registry.display_order)
                && steps[k].about_name_in(registry.menu_order),
    ensures
        registry.run(steps).display_order == registry.display_order,
        registry.run(steps).menu_order == registry.menu_order,
    decreases steps.len(),
{
    if steps.len() > 0 {
        let front = steps.drop_last();
        assert forall|k: int| 0 <= k < front.len() implies (#[trigger] front[k]).about_name_in(
            registry.display_order,
        ) && front[k].about_name_in(registry.menu_order) by {
            assert(front[k] == steps[k]);
        }
        law_orders_are_stable(registry, front);
        assert(steps.last() == steps[steps.len() - 1]);
    }
}

/// Every step keeps the registry well formed, and so does any run of steps.
pub proof fn law_run_keeps_wf<P>(registry: Registry<P>, steps: Seq<Step<P>>)
    requires
        registry.wf(),
    ensures
        registry.run(steps).wf(),
    decreases steps.len(),
{
    if steps.len() > 0 {
        law_run_keeps_wf(registry, steps.drop_last());
        let before = registry.run(steps.drop_last());
        match steps.last() {
            Step::Unload { name } => law_unload_keeps_wf(before, name),
            Step::Reload { name, outcome } => law_reload_keeps_wf(before, name, outcome),
            Step::Activate { path, outcome } => law_activate_keeps_wf(before, path, outcome),
        }
    }
}

/// No run of unloads, reloads and activations makes two modules share a name.
pub proof fn law_run_keeps_names_unique<P>(registry: Registry<P>, steps: Seq<Step<P>>)
    requires
        registry.names_are_unique(),
    ensures
        registry.run(steps).names_are_unique(),
    decreases steps.len(),
{
    if steps.len() > 0 {
        law_run_keeps_names_unique(registry, steps.drop_last());
        law_step_keeps_names_unique(registry.run(steps.drop_last()), steps.last());
    }
}

/// The names of the plugins that finished their initialisation are the
/// names that the attempts which ended so carry.
pub proof fn lemma_ready_names<P>(attempts: Seq<Attempt<P>>)
    ensures
        forall|k: int|
            0 <= k < attempts.len() ==> ((#[trigger] attempts[k]).outcome matches Outcome::Ready {
                name,
                plugin,
            } ==> ready_names(attempts).contains(name)),
        forall|name: Seq<char>|
            ready_names(attempts).contains(name) ==> exists|k: int|
                0 <= k < attempts.len() && (#[trigger] attempts[k]).outcome == (Outcome::Ready {
                    name,
                    plugin: attempts[k].outcome->Ready_plugin,
                }),
        attempts.len() > 0 && ready_names(attempts).no_duplicates() ==> ready_names(
            attempts.drop_last(),
        ).no_duplicates(),
    decreases attempts.len(),
{
    let names = ready_names(attempts);
    if attempts.len() > 0 {
        let front = attempts.drop_last();
        let earlier = ready_names(front);
        lemma_ready_names(front);
        assert forall|k: int| 0 <= k < attempts.len() implies ((
        #[trigger] attempts[k]).outcome matches Outcome::Ready { name, plugin }
            ==> names.contains(name)) by {
            if let Outcome::Ready { name, plugin } = attempts[k].outcome {
                if k < front.len() {
                    assert(front[k] == attempts[k]);
                    let at = choose|at: int| 0 <= at < earlier.len() && earlier[at] == name;
                    assert(names[at] == name);
                } else {
                    assert(names[names.len() - 1] == name);
                }
            }
        }
        assert forall|name: Seq<char>| names.contains(name) implies exists|k: int|
            0 <= k < attempts.len() && (#[trigger] attempts[k]).outcome == (Outcome::Ready {
                name,
                plugin: attempts[k].outcome->Ready_plugin,
            }) by {
            let at = choose|at: int| 0 <= at < names.len() && names[at] == name;
            if at < earlier.len() {
                assert(earlier[at] == name);
                assert(earlier.contains(name));
                let k = choose|k: int|
                    0 <= k < front.len() && (#[trigger] front[k]).outcome == (Outcome::Ready {
                        name,
                        plugin: front[k].outcome->Ready_plugin,
                    });
                assert(attempts[k] == front[k]);
            } else {
                assert(attempts[attempts.len() - 1].outcome is Ready);
            }
        }
        if names.no_duplicates() {
            assert forall|i: int, j: int|
                0 <= i < earlier.len() && 0 <= j < earlier.len() && i != j implies earlier[i]
                != earlier[j] by {
                assert(names[i] == earlier[i] && names[j] == earlier[j]);
            }
        }
    }
}

/// Which plugins are active after those among `attempts` that finished
/// their initialisation were put in: those that were, and those among `attempts`. A plugin that
/// was active under a name that none of `attempts` carries is untouched.
pub proof fn lemma_active_after<P>(active: Map<Seq<char>, P>, attempts: Seq<Attempt<P>>)
    ensures
        forall|name: Seq<char>|
            #![trigger active_after(active, attempts).contains_key(name)]
            #![trigger ready_names(attempts).contains(name)]
            active_after(active, attempts).contains_key(name) <==> (
            active.contains_key(name) || ready_names(attempts).contains(name)),
        forall|name: Seq<char>|
            #![trigger active_after(active, attempts)[name]]
            active.contains_key(name) && !ready_names(attempts).contains(name)
                ==> active_after(active, attempts)[name] == active[name],
        active.dom().finite() ==> active_after(active, attempts).dom().finite(),
    decreases attempts.len(),
{
    let names = ready_names(attempts);
    let after = active_after(active, attempts);
    if attempts.len() > 0 {
        let front = attempts.drop_last();
        let earlier = ready_names(front);
        let before = active_after(active, front);
        lemma_active_after(active, front);
        match attempts.last().outcome {
            Outcome::Ready { name: last, plugin } => {
                assert(names == earlier.push(last));
                assert(after == before.insert(last, plugin));
                assert forall|name: Seq<char>| names.contains(name) <==> (earlier.contains(name)
                    || name == last) by {
                    if names.contains(name) {
                        let at = choose|at: int| 0 <= at < names.len() && names[at] == name;
                        if at < earlier.len() {
                            assert(earlier[at] == name);
                        }
                    }
                    if earlier.contains(name) {
                        let at = choose|at: int| 0 <= at < earlier.len() && earlier[at] == name;
                        assert(names[at] == name);
                    }
                    if name == last {
                        assert(names[names.len() - 1] == name);
                    }
                }
                assert forall|name: Seq<char>|
                    after.contains_key(name) <==> (active.contains_key(name)
                        || names.contains(name)) by {
                    assert(before.contains_key(name) <==> (active.contains_key(name)
                        || earlier.contains(name)));
                }
                assert forall|name: Seq<char>|
                    active.contains_key(name) && !names.contains(name) implies after[name]
                    == active[name] by {
                    assert(!earlier.contains(name));
                    assert(before[name] == active[name]);
                }
            },
            _ => {
                assert(names == earlier);
                assert(after == before);
            },
        }
    } else {
        assert(names =~= Seq::<Seq<char>>::empty());
    }
}

/// Where the initialised plugins among `attempts` carry names that differ
/// from one another, each of them is the active plugin of its name afterwards.
pub proof fn lemma_active_after_values<P>(active: Map<Seq<char>, P>, attempts: Seq<Attempt<P>>)
    requires
        ready_names(attempts).no_duplicates(),
    ensures
        forall|k: int|
            0 <= k < attempts.len() ==> ((#[trigger] attempts[k]).outcome matches Outcome::Ready {
                name,
                plugin,
            } ==> active_after(active, attempts).contains_key(name) && active_after(active, attempts)[name] == plugin),
    decreases attempts.len(),
{
    let names = ready_names(attempts);
    let after = active_after(active, attempts);
    if attempts.len() > 0 {
        let front = attempts.drop_last();
        let earlier = ready_names(front);
        let before = active_after(active, front);
        lemma_ready_names(attempts);
        lemma_ready_names(front);
        lemma_active_after_values(active, front);
        assert forall|k: int| 0 <= k < attempts.len() implies ((
        #[trigger] attempts[k]).outcome matches Outcome::Ready { name, plugin }
            ==> after.contains_key(name) && after[name] == plugin) by {
            if let Outcome::Ready { name, plugin } = attempts[k].outcome {
                if k < front.len() {
                    assert(front[k] == attempts[k]);
                    assert(earlier.contains(name));
                    if let Outcome::Ready { name: last, plugin: other } = attempts.last().outcome {
                        let at = choose|at: int| 0 <= at < earlier.len() && earlier[at] == name;
                        assert(names[at] == name);
                        assert(names[names.len() - 1] == last);
                        assert(name != last);
                    }
                }
            }
        }
    }
}

/// Every candidate of start-up either becomes an active plugin or is
/// reported as a failure, and none does both.
pub proof fn law_load_all_reports_every_failure<P>(attempts: Seq<Attempt<P>>)
    ensures
        load_failures(attempts).len() + ready_names(attempts).len() == attempts.len(),
{
    lemma_failure_counts(attempts);
}

/// Every attempt is counted once: as a bind failure, as an initialisation
/// fault or as a plugin that is ready.
proof fn lemma_failure_counts<P>(attempts: Seq<Attempt<P>>)
    ensures
        bind_failures(attempts).len() + init_faults(attempts).len() + ready_names(attempts).len()
            == attempts.len(),
    decreases attempts.len(),
{
    if attempts.len() > 0 {
        lemma_failure_counts(attempts.drop_last());
    }
}

/// Start-up on module files of which some are valid and some are not: as
/// many plugins become active as there are valid files, beside those that
/// were active before, and every other candidate is reported once. This
/// holds where the valid modules carry names that differ from one another
/// and from the names of the plugins that were active before.
pub proof fn law_load_all_counts<P>(registry: Registry<P>, attempts: Seq<Attempt<P>>)
    requires
        registry.active.dom().finite(),
        ready_names(attempts).no_duplicates(),
        forall|name: Seq<char>| ready_names(attempts).contains(name) ==> !registry.is_active(name),
    ensures
        registry.load_all(attempts).active.dom().finite(),
        registry.load_all(attempts).active.dom().len() == registry.active.dom().len() + ready_names(
            attempts,
        ).len(),
        load_failures(attempts).len() == attempts.len() - ready_names(attempts).len(),
{
    lemma_active_after(registry.active, attempts);
    let names = ready_names(attempts);
    let after = registry.load_all(attempts);
    assert forall|name: Seq<char>|
        after.active.dom().contains(name) <==> registry.active.dom().union(names.to_set()).contains(
            name,
        ) by {
        assert(after.active.contains_key(name) <==> (registry.active.contains_key(name)
            || names.contains(name)));
    }
    assert(after.active.dom() =~= registry.active.dom().union(names.to_set()));
    names.unique_seq_to_set();
    vstd::seq_lib::seq_to_set_is_finite(names);
    assert forall|name: Seq<char>|
        registry.active.dom().contains(name) implies !names.to_set().contains(name) by {
        assert(registry.is_active(name));
    }
    assert(registry.active.dom().disjoint(names.to_set()));
    vstd::set_lib::lemma_set_disjoint_lens(registry.active.dom(), names.to_set());
    law_load_all_reports_every_failure(attempts);
}

/// The outcome of start-up does not depend on the order in which the files
/// of the plugin directory are found: two listings of the same files leave
/// the same plugins active and report as many failures. This holds where the
/// modules that initialise carry names that differ from one another.
pub proof fn law_load_all_ignores_file_order<P>(
    registry: Registry<P>,
    first: Seq<Attempt<P>>,
    second: Seq<Attempt<P>>,
)
    requires
        first.to_multiset() == second.to_multiset(),
        ready_names(first).no_duplicates(),
        ready_names(second).no_duplicates(),
    ensures
        registry.load_all(first).active == registry.load_all(second).active,
        ready_names(first).len() == ready_names(second).len(),
        load_failures(first).len() == load_failures(second).len(),
{
    lemma_same_files_same_ready(first, second);
    lemma_same_files_same_ready(second, first);
    let one = registry.load_all(first);
    let other = registry.load_all(second);
    lemma_active_after(registry.active, first);
    lemma_active_after(registry.active, second);
    lemma_active_after_values(registry.active, first);
    lemma_active_after_values(registry.active, second);
    lemma_ready_names(first);
    lemma_ready_names(second);
    assert forall|name: Seq<char>| one.active.contains_key(name) implies #[trigger]
        other.active.contains_key(name) && one.active[name] == other.active[name] by {
        if ready_names(first).contains(name) {
            let k = choose|k: int|
                0 <= k < first.len() && (#[trigger] first[k]).outcome == (Outcome::Ready {
                    name,
                    plugin: first[k].outcome->Ready_plugin,
                });
            assert(first.contains(first[k]));
            let j = choose|j: int| 0 <= j < second.len() && second[j] == first[k];
            assert(second[j].outcome is Ready);
        } else {
            assert(!ready_names(second).contains(name));
        }
    }
    assert forall|name: Seq<char>| other.active.contains_key(name) implies #[trigger]
        one.active.contains_key(name) by {
        if !ready_names(second).contains(name) {
            assert(!ready_names(first).contains(name));
        }
    }
    assert(one.active =~= other.active);
    assert(ready_names(first).to_set() =~= ready_names(second).to_set());
    ready_names(first).unique_seq_to_set();
    ready_names(second).unique_seq_to_set();
    law_load_all_reports_every_failure(first);
    law_load_all_reports_every_failure(second);
    first.to_multiset_ensures();
    second.to_multiset_ensures();
}

/// Two listings of the same files hold the same files, and name the same
/// plugins that finished their initialisation.
proof fn lemma_same_files_same_ready<P>(first: Seq<Attempt<P>>, second: Seq<Attempt<P>>)
    requires
        first.to_multiset() == second.to_multiset(),
    ensures
        forall|attempt: Attempt<P>| first.contains(attempt) ==> second.contains(attempt),
        forall|name: Seq<char>|
            ready_names(first).contains(name) ==> ready_names(second).contains(name),
{
    first.to_multiset_ensures();
    second.to_multiset_ensures();
    assert forall|attempt: Attempt<P>| first.contains(attempt) implies second.contains(attempt) by {
        assert(first.to_multiset().count(attempt) > 0);
        assert(second.to_multiset().count(attempt) > 0);
    }
    lemma_ready_names(first);
    lemma_ready_names(second);
    assert forall|name: Seq<char>| ready_names(first).contains(name) implies ready_names(
        second,
    ).contains(name) by {
        let k = choose|k: int|
            0 <= k < first.len() && (#[trigger] first[k]).outcome == (Outcome::Ready {
                name,
                plugin: first[k].outcome->Ready_plugin,
            });
        assert(first.contains(first[k]));
        let j = choose|j: int| 0 <= j < second.len() && second[j] == first[k];
        assert(second[j].outcome is Ready);
    }
}

} // verus!
