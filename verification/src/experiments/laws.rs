//! What holds of every experiment, whatever the host answers.

use vstd::prelude::*;

use crate::experiments::sudors::{
    action, located_in_order, question, sudors_disabled, sudors_names,
};
use crate::experiments::uutils::{
    means_installed, replace_requests, restore_requests, targets_of, unnamed, UutilsView,
};
use crate::utils::files::{
    after_all, apart, backup_plan, kind_at, lemma_restore_each_undoes_replace_each, replaced,
    replaced_each, restored, restored_each, symlink_plan, untouched, Node,
};
use crate::experiments::ExperimentView;
use crate::utils::text::{lemma_lex_le_reflexive, lemma_lex_le_transitive, lex_le, texts};
use crate::utils::worker::{done_in_order, Event, Reply, Request, WorkerError};

verus! {

/// The first supported release of an experiment is itself supported: the
/// floor is inclusive.
pub proof fn lemma_first_release_supported(experiment: UutilsView)
    ensures
        experiment.compatible(experiment.first_supported_release),
{
    lemma_lex_le_reflexive(experiment.first_supported_release);
}

/// A release that is not before a supported one is supported too.
pub proof fn lemma_later_release_supported(
    experiment: UutilsView,
    release: Seq<char>,
    later: Seq<char>,
)
    requires
        experiment.compatible(release),
        lex_le(release, later),
    ensures
        experiment.compatible(later),
{
    lemma_lex_le_transitive(experiment.first_supported_release, release, later);
}

/// Enabling an experiment on a host that it does not support makes no
/// request and succeeds, unless the check is bypassed.
pub proof fn lemma_enable_skips_unsupported_host(
    experiment: ExperimentView,
    release: Seq<char>,
    events: Seq<Event>,
    r: Result<(), WorkerError>,
)
    requires
        !experiment.compatible(release),
        experiment.enabled(release, false, events, r),
    ensures
        events.len() == 0,
        r is Ok,
{
}

/// Disabling an experiment whose package is not installed asks whether it
/// is, and nothing else: no command is run beyond that question and no file
/// is touched.
pub proof fn lemma_disable_when_absent(
    experiment: ExperimentView,
    events: Seq<Event>,
    r: Result<(), WorkerError>,
)
    requires
        experiment.disabled(events, r),
        !(events[0].reply matches Reply::Installed(reply) && means_installed(reply)),
    ensures
        events.len() == 1,
        events[0].request == Request::CheckInstalled(experiment.package()),
        r is Ok,
{
}

/// Disabling removes the package last: a request to remove a package is the
/// final request, and every request to restore a file was made before it
/// and succeeded.
pub proof fn lemma_package_removed_last(
    experiment: ExperimentView,
    events: Seq<Event>,
    r: Result<(), WorkerError>,
    i: int,
)
    requires
        experiment.disabled(events, r),
        0 <= i < events.len(),
        events[i].request is RemovePackage,
    ensures
        i == events.len() - 1,
        forall|j: int|
            0 <= j < i && (#[trigger] events[j]).request is RestoreFile ==> events[j].reply
                == Reply::Done(Ok(())),
{
    let rest = events.skip(1);
    assert(i >= 1);
    assert(rest[i - 1] == events[i]);
    assert forall|j: int| 1 <= j < events.len() implies events[j] == rest[j - 1] by {}
    match experiment {
        ExperimentView::Uutils(e) => {
            assert(e.reverted(rest, r));
            assert(i >= 2);
            let files = rest[0].reply->Files_0->Ok_0;
            let paths = texts(files@);
            let restores = restore_requests(targets_of(paths));
            let requests = restores.push(Request::RemovePackage(e.package));
            let tail = rest.skip(1);
            assert(tail[i - 2] == events[i]);
            assert(done_in_order(tail, requests, r));
            assert(requests[i - 2] == tail[i - 2].request);
            if i - 2 < restores.len() {
                assert(requests[i - 2] == restores[i - 2]);
            }
            assert forall|j: int|
                0 <= j < i && (#[trigger] events[j]).request is RestoreFile implies events[j].reply
                    == Reply::Done(Ok(())) by {
                if j >= 2 {
                    assert(events[j] == tail[j - 2]);
                }
            }
        },
        ExperimentView::SudoRs => {
            assert(sudors_disabled(rest, r));
            let names = sudors_names();
            if rest.len() == 2 * names.len() + 1 && located_in_order(
                rest.drop_last(),
                names,
                false,
                Ok(()),
            ) {
                let body = rest.drop_last();
                if i - 1 < body.len() {
                    lemma_located_requests(body, names, false, Ok(()), i - 1);
                    assert(body[i - 1] == rest[i - 1]);
                }
                assert forall|j: int|
                    0 <= j < i && (#[trigger] events[j]).request is RestoreFile implies events[j]
                        .reply == Reply::Done(Ok(())) by {
                    if j >= 1 {
                        assert(events[j] == body[j - 1]);
                        lemma_located_requests(body, names, false, Ok(()), j - 1);
                        if (j - 1) % 2 == 1 {
                            let k = (j - 1) / 2;
                            assert(action(body, k) == body[j - 1]);
                            if j - 1 == body.len() - 1 {
                                assert(body.last() == body[j - 1]);
                            }
                        }
                    }
                }
            } else {
                lemma_located_requests(rest, names, false, r, i - 1);
            }
        },
    }
}

/// In a run over the utilities, requests at even places ask where a utility
/// is, and requests at odd places link or restore one.
pub proof fn lemma_located_requests(
    events: Seq<Event>,
    names: Seq<Seq<char>>,
    link: bool,
    r: Result<(), WorkerError>,
    i: int,
)
    requires
        located_in_order(events, names, link, r),
        0 <= i < events.len(),
    ensures
        i % 2 == 0 ==> events[i].request is Which,
        i % 2 == 1 && link ==> events[i].request is ReplaceFileWithSymlink,
        i % 2 == 1 && !link ==> events[i].request is RestoreFile,
{
    let k = i / 2;
    assert(question(events, k).request == Request::Which(names[k]));
    if i % 2 == 0 {
        assert(question(events, k) == events[i]);
    } else {
        assert(action(events, k) == events[i]);
    }
}

/// What a request does to the files of a host that carries it out with
/// success, handling files as `utils::files` plans: a request about a file
/// takes the steps planned for it, and any other request leaves the files as
/// they are. Of a request that fails this says nothing.
pub open spec fn effect(files: Map<Seq<char>, Node>, request: Request) -> Map<Seq<char>, Node> {
    match request {
        Request::ReplaceFileWithSymlink(source, target) => replaced(files, source, target),
        Request::RestoreFile(target) => restored(files, target),
        Request::BackupFile(file) => after_all(files, backup_plan(file)),
        Request::CreateSymlink(source, target) => after_all(
            files,
            symlink_plan(source, target, kind_at(files, target)),
        ),
        _ => files,
    }
}

/// What `requests` do to the files of such a host, one after the other,
/// where each is carried out with success.
pub open spec fn effects(
    files: Map<Seq<char>, Node>,
    requests: Seq<Request>,
) -> Map<Seq<char>, Node>
    decreases requests.len(),
{
    if requests.len() == 0 {
        files
    } else {
        effects(effect(files, requests.first()), requests.drop_first())
    }
}

/// The requests of `events`, in order.
pub open spec fn requests_of(events: Seq<Event>) -> Seq<Request> {
    Seq::new(events.len(), |i: int| events[i].request)
}

/// The text of each file in a listing that succeeded.
pub open spec fn listing(reply: Reply) -> Seq<Seq<char>> {
    match reply {
        Reply::Files(Ok(files)) => texts(files@),
        _ => Seq::empty(),
    }
}

/// Requests to replace files, each carried out with success, do to the
/// files what replacing each does.
pub proof fn lemma_effects_of_replacing(
    files: Map<Seq<char>, Node>,
    sources: Seq<Seq<char>>,
    targets: Seq<Seq<char>>,
)
    requires
        sources.len() == targets.len(),
    ensures
        effects(files, replace_requests(sources, targets)) == replaced_each(
            files,
            sources,
            targets,
        ),
    decreases targets.len(),
{
    let requests = replace_requests(sources, targets);
    if targets.len() > 0 {
        assert(requests.drop_first() =~= replace_requests(
            sources.drop_first(),
            targets.drop_first(),
        ));
        lemma_effects_of_replacing(
            effect(files, requests.first()),
            sources.drop_first(),
            targets.drop_first(),
        );
    }
}

/// Requests to restore files and then to remove a package, each carried out
/// with success, do to the files what restoring each does.
pub proof fn lemma_effects_of_restoring(
    files: Map<Seq<char>, Node>,
    targets: Seq<Seq<char>>,
    package: Seq<char>,
)
    ensures
        effects(files, restore_requests(targets).push(Request::RemovePackage(package)))
            == restored_each(files, targets),
    decreases targets.len(),
{
    let requests = restore_requests(targets).push(Request::RemovePackage(package));
    if targets.len() == 0 {
        assert(requests.drop_first() =~= Seq::empty());
        assert(effects(effect(files, requests.first()), requests.drop_first()) == files);
    } else {
        assert(requests.drop_first() =~= restore_requests(targets.drop_first()).push(
            Request::RemovePackage(package),
        ));
        lemma_effects_of_restoring(effect(files, requests.first()), targets.drop_first(), package);
    }
}

/// Disabling undoes enabling: where an experiment is enabled and then
/// disabled, both with success and over the same listing of its package,
/// and the system's utilities were files that lie apart and had no backups,
/// the files of the host are as they were before, content and permissions.
pub proof fn lemma_disable_undoes_enable(
    experiment: UutilsView,
    files: Map<Seq<char>, Node>,
    enabling: Seq<Event>,
    disabling: Seq<Event>,
)
    requires
        experiment.applied(enabling, Ok(())),
        experiment.reverted(disabling, Ok(())),
        listing(enabling[1].reply) == listing(disabling[0].reply),
        apart(targets_of(listing(enabling[1].reply))),
        untouched(files, targets_of(listing(enabling[1].reply))),
    ensures
        effects(effects(files, requests_of(enabling)), requests_of(disabling)) == files,
{
    reveal_with_fuel(effects, 3);
    let paths = listing(enabling[1].reply);
    let sources = experiment.sources_of(paths);
    let targets = targets_of(paths);
    assert(unnamed(paths) is None);
    let up = requests_of(enabling);
    let down = requests_of(disabling);
    assert(up.first() == enabling[0].request);
    assert(up.drop_first().first() == enabling[1].request);
    let links = enabling.skip(2);
    let linking = replace_requests(sources, targets);
    assert(done_in_order(links, linking, Ok(())));
    assert forall|i: int| 0 <= i < linking.len() implies up.drop_first().drop_first()[i]
        == linking[i] by {
        assert(links[i].request == linking[i]);
    }
    assert(up.drop_first().drop_first() =~= linking);
    assert(effects(files, up) == effects(files, replace_requests(sources, targets)));
    lemma_effects_of_replacing(files, sources, targets);
    let linked = replaced_each(files, sources, targets);
    let restoring = restore_requests(targets).push(Request::RemovePackage(experiment.package));
    assert(down.first() == disabling[0].request);
    let restores = disabling.skip(1);
    assert(done_in_order(restores, restoring, Ok(())));
    assert forall|i: int| 0 <= i < restoring.len() implies down.drop_first()[i]
        == restoring[i] by {
        assert(restores[i].request == restoring[i]);
    }
    assert(down.drop_first() =~= restoring);
    assert(effects(linked, down) == effects(linked, restoring));
    lemma_effects_of_restoring(linked, targets, experiment.package);
    lemma_restore_each_undoes_replace_each(files, sources, targets);
}

} // verus!
