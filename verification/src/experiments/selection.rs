//! Which experiments a run works on, and the run itself: enabling or
//! disabling each selected experiment in turn.

use vstd::prelude::*;

use crate::experiments::{all_experiments, catalog, views, Experiment, ExperimentView};
use crate::utils::text::{same, texts};
use crate::utils::Distribution;
use crate::utils::worker::{
    event, lemma_plain_success, Event, Reply, Request, System, Worker, WorkerError,
};

verus! {

/// The names of the experiments that are selected when none is named.
pub open spec fn default_names() -> Seq<Seq<char>> {
    seq!["coreutils"@, "sudo-rs"@]
}

/// The names that decide the selection: those given, or the defaults where
/// none is given.
pub open spec fn chosen_names(selected: Seq<Seq<char>>) -> Seq<Seq<char>> {
    if selected.len() == 0 {
        default_names()
    } else {
        selected
    }
}

/// The experiments of the catalog that a run works on: all of them, or those
/// whose name is chosen, in the order of the catalog.
pub open spec fn selection(all: bool, selected: Seq<Seq<char>>) -> Seq<ExperimentView> {
    if all {
        catalog()
    } else {
        catalog().filter(|e: ExperimentView| chosen_names(selected).contains(e.name()))
    }
}

/// `events` are the requests of running each of `experiments` in order,
/// enabling or disabling it, up to the first that failed, if any. `r` is
/// that failure, or success if all of them ran.
#[verifier::opaque]
pub open spec fn each_ran(
    experiments: Seq<ExperimentView>,
    enabling: bool,
    release: Seq<char>,
    no_compatibility_check: bool,
    events: Seq<Event>,
    r: Result<(), WorkerError>,
) -> bool
    decreases experiments.len(),
{
    if experiments.len() == 0 {
        events.len() == 0 && r is Ok
    } else {
        ||| r is Err && each_ran(
            experiments.drop_last(),
            enabling,
            release,
            no_compatibility_check,
            events,
            r,
        )
        ||| exists|k: int|
            {
                &&& 0 <= k <= events.len()
                &&& each_ran(
                    experiments.drop_last(),
                    enabling,
                    release,
                    no_compatibility_check,
                    events.take(k),
                    Ok(()),
                )
                &&& #[trigger] ran(
                    experiments.last(),
                    enabling,
                    release,
                    no_compatibility_check,
                    events.skip(k),
                    r,
                )
            }
    }
}

/// `events` are the requests of enabling or disabling `experiment`.
pub open spec fn ran(
    experiment: ExperimentView,
    enabling: bool,
    release: Seq<char>,
    no_compatibility_check: bool,
    events: Seq<Event>,
    r: Result<(), WorkerError>,
) -> bool {
    if enabling {
        experiment.enabled(release, no_compatibility_check, events, r)
    } else {
        experiment.disabled(events, r)
    }
}

/// `events` are the requests of enabling `experiments`: the package lists
/// are updated, and if that succeeds each experiment is enabled in order.
pub open spec fn all_enabled(
    experiments: Seq<ExperimentView>,
    release: Seq<char>,
    no_compatibility_check: bool,
    events: Seq<Event>,
    r: Result<(), WorkerError>,
) -> bool {
    &&& events.len() >= 1
    &&& events[0].request == Request::UpdatePackageLists
    &&& match events[0].reply {
        Reply::Done(Err(e)) => events.len() == 1 && r == Err::<(), WorkerError>(e),
        Reply::Done(Ok(_)) => each_ran(
            experiments,
            true,
            release,
            no_compatibility_check,
            events.skip(1),
            r,
        ),
        _ => false,
    }
}

/// A failure among the first experiments is a failure of the whole list.
pub proof fn lemma_failed_early(
    experiments: Seq<ExperimentView>,
    n: int,
    enabling: bool,
    release: Seq<char>,
    no_compatibility_check: bool,
    events: Seq<Event>,
    r: Result<(), WorkerError>,
)
    requires
        0 <= n <= experiments.len(),
        r is Err,
        each_ran(experiments.take(n), enabling, release, no_compatibility_check, events, r),
    ensures
        each_ran(experiments, enabling, release, no_compatibility_check, events, r),
    decreases experiments.len() - n,
{
    reveal(each_ran);
    if n == experiments.len() {
        assert(experiments.take(n) =~= experiments);
    } else {
        assert(experiments.take(n + 1).drop_last() =~= experiments.take(n));
        lemma_failed_early(
            experiments,
            n + 1,
            enabling,
            release,
            no_compatibility_check,
            events,
            r,
        );
    }
}

/// No experiments make no requests.
pub proof fn lemma_none_ran(enabling: bool, release: Seq<char>, no_compatibility_check: bool)
    ensures
        each_ran(
            Seq::empty(),
            enabling,
            release,
            no_compatibility_check,
            Seq::empty(),
            Ok(()),
        ),
{
    reveal(each_ran);
}

/// After the first `n` experiments ran with success, the requests of the
/// next one make the run of the first `n + 1`.
pub proof fn lemma_ran_next(
    experiments: Seq<ExperimentView>,
    n: int,
    enabling: bool,
    release: Seq<char>,
    no_compatibility_check: bool,
    events: Seq<Event>,
    k: int,
    r: Result<(), WorkerError>,
)
    requires
        0 <= n < experiments.len(),
        0 <= k <= events.len(),
        each_ran(
            experiments.take(n),
            enabling,
            release,
            no_compatibility_check,
            events.take(k),
            Ok(()),
        ),
        ran(experiments[n], enabling, release, no_compatibility_check, events.skip(k), r),
    ensures
        each_ran(experiments.take(n + 1), enabling, release, no_compatibility_check, events, r),
{
    reveal(each_ran);
    let longer = experiments.take(n + 1);
    assert(longer.drop_last() =~= experiments.take(n));
    assert(longer.last() == experiments[n]);
    assert(each_ran(
        longer.drop_last(),
        enabling,
        release,
        no_compatibility_check,
        events.take(k),
        Ok(()),
    ));
    assert(ran(
        longer.last(),
        enabling,
        release,
        no_compatibility_check,
        events.skip(k),
        r,
    ));
}

/// Whether `name` is among `names`.
pub fn contains(names: &Vec<String>, name: &str) -> (r: bool)
    ensures
        r == texts(names@).contains(name@),
{
    let mut i: usize = 0;
    while i < names.len()
        invariant
            i <= names.len(),
            forall|j: int| 0 <= j < i ==> texts(names@)[j] != name@,
        decreases names.len() - i,
    {
        if same(names[i].as_str(), name) {
            assert(texts(names@)[i as int] == name@);
            return true;
        }
        i = i + 1;
    }
    false
}

/// Default experiments to enable if none are specified.
pub fn default_experiments() -> (r: Vec<String>)
    ensures
        texts(r@) == default_names(),
{
    let mut r: Vec<String> = Vec::new();
    r.push("coreutils".to_string());
    r.push("sudo-rs".to_string());
    assert(texts(r@) =~= default_names());
    r
}

/// Get selected experiments from the command line arguments.
pub fn selected_experiments(all: bool, selected: Vec<String>) -> (r: Vec<Experiment>)
    ensures
        views(r@) == selection(all, texts(selected@)),
{
    let mut known = all_experiments();
    if all {
        return known;
    }
    let names = if selected.len() == 0 {
        default_experiments()
    } else {
        selected
    };
    let ghost chosen = texts(names@);
    let ghost wanted = |e: ExperimentView| chosen.contains(e.name());
    assert(chosen == chosen_names(texts(selected@))) by {
        assert(texts(selected@).len() == selected@.len());
    }
    let ghost total = known@;
    let mut r: Vec<Experiment> = Vec::new();
    let mut i: usize = 0;
    let n = known.len();
    proof {
        reveal(Seq::filter);
        assert(catalog().take(0) =~= Seq::empty());
    }
    while known.len() > 0
        invariant
            n == total.len(),
            i <= n,
            known@ == total.skip(i as int),
            views(total) == catalog(),
            chosen == texts(names@),
            wanted == (|e: ExperimentView| chosen.contains(e.name())),
            views(r@) == catalog().take(i as int).filter(wanted),
        decreases known.len(),
    {
        let e = known.remove(0);
        proof {
            reveal(Seq::filter);
            assert(e == total[i as int]);
            assert(views(total)[i as int] == e@);
            assert(known@ =~= total.skip(i as int + 1));
            assert(catalog().take(i as int + 1).drop_last() =~= catalog().take(i as int));
        }
        if contains(&names, e.name().as_str()) {
            r.push(e);
            assert(views(r@) =~= catalog().take(i as int).filter(wanted).push(e@));
        }
        i = i + 1;
    }
    proof {
        assert(views(total).len() == total.len());
        assert(catalog().take(i as int) =~= catalog());
    }
    r
}

/// Those of `experiments` that do not support a host with `release`, in
/// order: the ones that enabling skips unless the check is bypassed.
pub open spec fn unsupported(
    experiments: Seq<ExperimentView>,
    release: Seq<char>,
) -> Seq<ExperimentView> {
    experiments.filter(|e: ExperimentView| !e.compatible(release))
}

/// The views of a sequence of borrowed experiments, element by element.
pub open spec fn borrowed_views(experiments: Seq<&Experiment>) -> Seq<ExperimentView> {
    Seq::new(experiments.len(), |i: int| experiments[i]@)
}

/// Those of `experiments` that do not support `distribution`, in order.
pub fn incompatible_experiments<'a>(
    experiments: &'a Vec<Experiment>,
    distribution: &Distribution,
) -> (r: Vec<&'a Experiment>)
    ensures
        borrowed_views(r@) == unsupported(views(experiments@), distribution.release@),
{
    let ghost all = views(experiments@);
    let ghost skipped = |e: ExperimentView| !e.compatible(distribution.release@);
    let mut r: Vec<&'a Experiment> = Vec::new();
    let mut i: usize = 0;
    proof {
        reveal(Seq::filter);
        assert(all.take(0) =~= Seq::empty());
    }
    while i < experiments.len()
        invariant
            i <= experiments.len(),
            all == views(experiments@),
            skipped == (|e: ExperimentView| !e.compatible(distribution.release@)),
            borrowed_views(r@) == all.take(i as int).filter(skipped),
        decreases experiments.len() - i,
    {
        let e = &experiments[i];
        proof {
            reveal(Seq::filter);
            assert(all.take(i as int + 1).drop_last() =~= all.take(i as int));
            assert(all.take(i as int + 1).last() == e@);
        }
        if !e.is_compatible(distribution) {
            r.push(e);
            assert(borrowed_views(r@) =~= all.take(i as int).filter(skipped).push(e@));
        }
        i = i + 1;
    }
    proof {
        assert(all.take(i as int) =~= all);
    }
    r
}

/// Enables or disables each of `experiments` in order, up to the first
/// failure.
fn run_each<W: Worker>(
    system: &mut System<'_, W>,
    experiments: &Vec<Experiment>,
    enabling: bool,
    no_compatibility_check: bool,
) -> (r: Result<(), WorkerError>)
    ensures
        final(system).continues(old(system)),
        each_ran(
            views(experiments@),
            enabling,
            old(system).host().release@,
            no_compatibility_check,
            final(system).since(old(system)),
            r,
        ),
{
    let ghost s0 = *system;
    let ghost all = views(experiments@);
    let ghost release = s0.host().release@;
    let mut i: usize = 0;
    proof {
        system.lemma_unchanged();
        assert(all.take(0) =~= Seq::empty());
        lemma_none_ran(enabling, release, no_compatibility_check);
    }
    while i < experiments.len()
        invariant
            i <= experiments.len(),
            s0 == *old(system),
            all == views(experiments@),
            release == s0.host().release@,
            system.continues(&s0),
            each_ran(
                all.take(i as int),
                enabling,
                release,
                no_compatibility_check,
                system.since(&s0),
                Ok(()),
            ),
        decreases experiments.len() - i,
    {
        let ghost s1 = *system;
        let r = if enabling {
            experiments[i].enable(system, no_compatibility_check)
        } else {
            experiments[i].disable(system)
        };
        proof {
            system.lemma_continues(&s1, &s0);
            let events = system.since(&s0);
            let k = s1.since(&s0).len() as int;
            assert(events.take(k) =~= s1.since(&s0));
            assert(events.skip(k) =~= system.since(&s1));
            assert(all[i as int] == experiments@[i as int]@);
            lemma_ran_next(
                all,
                i as int,
                enabling,
                release,
                no_compatibility_check,
                events,
                k,
                r,
            );
        }
        if r.is_err() {
            proof {
                lemma_failed_early(
                    all,
                    i as int + 1,
                    enabling,
                    release,
                    no_compatibility_check,
                    system.since(&s0),
                    r,
                );
            }
            return r;
        }
        proof {
            lemma_plain_success(r);
        }
        i = i + 1;
    }
    proof {
        assert(all.take(i as int) =~= all);
    }
    Ok(())
}

/// Enables selected experiments: updates the package lists, then enables
/// each experiment in order, up to the first failure.
pub fn enable_experiments<W: Worker>(
    system: &mut System<'_, W>,
    experiments: &Vec<Experiment>,
    no_compatibility_check: bool,
) -> (r: Result<(), WorkerError>)
    ensures
        final(system).continues(old(system)),
        all_enabled(
            views(experiments@),
            old(system).host().release@,
            no_compatibility_check,
            final(system).since(old(system)),
            r,
        ),
{
    let ghost s0 = *system;
    let updated = system.update_package_lists();
    let ghost s1 = *system;
    proof {
        s1.lemma_follows(&s0, event(Request::UpdatePackageLists, Reply::Done(updated)));
    }
    if updated.is_err() {
        return updated;
    }
    let r = run_each(system, experiments, true, no_compatibility_check);
    proof {
        system.lemma_continues(&s1, &s0);
        assert(system.since(&s0).skip(1) =~= system.since(&s1));
    }
    r
}

/// Disables selected experiments: each in order, up to the first failure.
pub fn disable_experiments<W: Worker>(
    system: &mut System<'_, W>,
    experiments: &Vec<Experiment>,
) -> (r: Result<(), WorkerError>)
    ensures
        final(system).continues(old(system)),
        each_ran(
            views(experiments@),
            false,
            old(system).host().release@,
            false,
            final(system).since(old(system)),
            r,
        ),
{
    run_each(system, experiments, false, false)
}

} // verus!
