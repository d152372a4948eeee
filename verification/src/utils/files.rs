//! Replacing a file by a symlink and bringing it back.
//!
//! The host does the work on disk; what is decided here is which steps it
//! takes, given what occupies the paths involved. The steps are stated
//! against a model of the files on disk, in which the laws of replacing and
//! restoring are proved.

use vstd::prelude::*;

use crate::utils::path::{backup_filename, backup_path, join, joined, lemma_backup_path_differs};
use crate::utils::text::texts;
use crate::utils::worker::WorkerError;

verus! {

/// What occupies a path.
#[derive(Debug, Clone, Copy, PartialEq, Eq, Structural)]
pub enum FileKind {
    /// Nothing is there.
    Missing,
    /// A symlink is there, whatever it points to.
    Symlink,
    /// Something else is there: a file with content and permissions.
    File,
}

/// One step on disk.
#[derive(Debug, Clone, PartialEq, Eq)]
pub enum FileOp {
    /// Copy the content of `from` to `to`.
    Copy { from: String, to: String },
    /// Give `to` the permissions of `from`, special bits included.
    CopyPermissions { from: String, to: String },
    /// Remove what is at `path`.
    Remove { path: String },
    /// Create at `target` a symlink that points to `source`.
    Symlink { source: String, target: String },
    /// Move what is at `from` to `to`, in place of what is there.
    Rename { from: String, to: String },
}

/// A step on disk, with its paths as text.
pub ghost enum Step {
    /// Copy the content of the first path to the second.
    Copy(Seq<char>, Seq<char>),
    /// Give the second path the permissions of the first.
    CopyPermissions(Seq<char>, Seq<char>),
    /// Remove what is at the path.
    Remove(Seq<char>),
    /// Create at the second path a symlink that points to the first.
    Symlink(Seq<char>, Seq<char>),
    /// Move what is at the first path to the second.
    Rename(Seq<char>, Seq<char>),
}

impl View for FileOp {
    type V = Step;

    open spec fn view(&self) -> Step {
        match self {
            FileOp::Copy { from, to } => Step::Copy(from@, to@),
            FileOp::CopyPermissions { from, to } => Step::CopyPermissions(from@, to@),
            FileOp::Remove { path } => Step::Remove(path@),
            FileOp::Symlink { source, target } => Step::Symlink(source@, target@),
            FileOp::Rename { from, to } => Step::Rename(from@, to@),
        }
    }
}

/// The steps that `ops` stand for, in order.
pub open spec fn steps(ops: Seq<FileOp>) -> Seq<Step> {
    Seq::new(ops.len(), |i: int| ops[i]@)
}

/// The steps that remove what is at `file`, if anything is there.
pub open spec fn removal_plan(file: Seq<char>, kind: FileKind) -> Seq<Step> {
    if kind is Missing {
        Seq::empty()
    } else {
        seq![Step::Remove(file)]
    }
}

/// The steps that put a symlink to `source` at `target`, in place of what
/// is there.
pub open spec fn symlink_plan(source: Seq<char>, target: Seq<char>, kind: FileKind) -> Seq<Step> {
    removal_plan(target, kind).push(Step::Symlink(source, target))
}

/// The steps that back `file` up: its content is copied to its backup path,
/// and then its permissions, which the copy alone does not carry in full.
pub open spec fn backup_plan(file: Seq<char>) -> Seq<Step> {
    seq![
        Step::Copy(file, backup_path(file)),
        Step::CopyPermissions(file, backup_path(file)),
    ]
}

/// The steps that replace `target` with a symlink to `source`: none where
/// a symlink is there already; the symlink alone where nothing is there;
/// else a backup, the removal of the file, and the symlink.
pub open spec fn replace_plan(source: Seq<char>, target: Seq<char>, kind: FileKind) -> Seq<Step> {
    match kind {
        FileKind::Symlink => Seq::empty(),
        FileKind::Missing => symlink_plan(source, target, FileKind::Missing),
        FileKind::File => backup_plan(target).push(Step::Remove(target)) + symlink_plan(
            source,
            target,
            FileKind::Missing,
        ),
    }
}

/// The steps that restore `file` from its backup: none where there is no
/// backup; else what occupies `file` is removed and the backup is moved
/// into its place.
pub open spec fn restore_plan(file: Seq<char>, backup: FileKind, kind: FileKind) -> Seq<Step> {
    if backup is Missing {
        Seq::empty()
    } else {
        removal_plan(file, kind).push(Step::Rename(backup_path(file), file))
    }
}

/// Appends to `ops` the steps that remove what is at `file`.
fn push_removal(ops: &mut Vec<FileOp>, file: &str, kind: FileKind)
    ensures
        steps(final(ops)@) == steps(old(ops)@) + removal_plan(file@, kind),
{
    match kind {
        FileKind::Missing => {},
        _ => {
            ops.push(FileOp::Remove { path: file.to_string() });
        },
    }
    assert(steps(ops@) =~= steps(old(ops)@) + removal_plan(file@, kind));
}

/// Remove a file from the filesystem if it exists.
pub fn remove_file_if_exists(file: &str, kind: FileKind) -> (ops: Vec<FileOp>)
    ensures
        steps(ops@) == removal_plan(file@, kind),
{
    let mut ops: Vec<FileOp> = Vec::new();
    push_removal(&mut ops, file, kind);
    assert(steps(ops@) =~= removal_plan(file@, kind));
    ops
}

/// Create a symlink from `source` to `target`. If `target` already exists, it will be
/// removed and overwritten with the symlink.
pub fn create_symlink(source: &str, target: &str, kind: FileKind) -> (ops: Vec<FileOp>)
    ensures
        steps(ops@) == symlink_plan(source@, target@, kind),
{
    let mut ops = remove_file_if_exists(target, kind);
    ops.push(FileOp::Symlink { source: source.to_string(), target: target.to_string() });
    assert(steps(ops@) =~= symlink_plan(source@, target@, kind));
    ops
}

/// Backup a file by copying it to a new file with the same name, but with a `.oxidizr.bak`
/// extension.
pub fn backup_file(file: &str) -> (ops: Vec<FileOp>)
    ensures
        steps(ops@) == backup_plan(file@),
{
    let mut ops: Vec<FileOp> = Vec::new();
    ops.push(FileOp::Copy { from: file.to_string(), to: backup_filename(file) });
    ops.push(FileOp::CopyPermissions { from: file.to_string(), to: backup_filename(file) });
    assert(steps(ops@) =~= backup_plan(file@));
    ops
}

/// Replace a file with a symlink. If the target file already exists, it will be backed up
/// before being replaced.
pub fn replace_file_with_symlink(source: &str, target: &str, kind: FileKind) -> (ops: Vec<FileOp>)
    ensures
        steps(ops@) == replace_plan(source@, target@, kind),
{
    match kind {
        FileKind::Symlink => {
            let ops: Vec<FileOp> = Vec::new();
            assert(steps(ops@) =~= replace_plan(source@, target@, kind));
            ops
        },
        FileKind::Missing => create_symlink(source, target, FileKind::Missing),
        FileKind::File => {
            let mut ops = backup_file(target);
            ops.push(FileOp::Remove { path: target.to_string() });
            ops.push(FileOp::Symlink { source: source.to_string(), target: target.to_string() });
            assert(steps(ops@) =~= replace_plan(source@, target@, kind));
            ops
        },
    }
}

/// Restore a file from a backup. If the backup file does not exist, the file will be
/// left untouched.
pub fn restore_file(file: &str, backup: FileKind, kind: FileKind) -> (ops: Vec<FileOp>)
    ensures
        steps(ops@) == restore_plan(file@, backup, kind),
{
    let mut ops: Vec<FileOp> = Vec::new();
    match backup {
        FileKind::Missing => {},
        _ => {
            push_removal(&mut ops, file, kind);
            ops.push(FileOp::Rename { from: backup_filename(file), to: file.to_string() });
        },
    }
    assert(steps(ops@) =~= restore_plan(file@, backup, kind));
    ops
}

/// What is done next while a plan is carried out.
#[derive(Debug, PartialEq, Eq)]
pub enum Next {
    /// The step at this place in the plan is taken.
    Step(usize),
    /// No step is taken any more, and this is how it ended.
    Done(Result<(), WorkerError>),
}

/// What is done after `taken` steps of a plan of `steps` steps, the last of
/// them with `outcome`: a step that failed ends it with its failure, and
/// nothing that was done is taken back; else the next step is taken, until
/// none is left.
pub open spec fn what_next(steps: int, taken: int, outcome: Result<(), WorkerError>) -> Next {
    match outcome {
        Err(e) => Next::Done(Err(e)),
        Ok(_) => if 0 <= taken < steps {
            Next::Step(taken as usize)
        } else {
            Next::Done(Ok(()))
        },
    }
}

/// What is done next with `plan`, after `taken` of its steps were taken,
/// the last of them with `outcome`. Before the first step, `taken` is 0 and
/// `outcome` is `Ok`.
pub fn next(plan: &Vec<FileOp>, taken: usize, outcome: Result<(), WorkerError>) -> (r: Next)
    ensures
        r == what_next(plan@.len() as int, taken as int, outcome),
{
    match outcome {
        Err(e) => Next::Done(Err(e)),
        Ok(_) => if taken < plan.len() {
            Next::Step(taken)
        } else {
            Next::Done(Ok(()))
        },
    }
}

/// The paths of the entries called `names` in `directory`.
pub open spec fn entries(directory: Seq<char>, names: Seq<Seq<char>>) -> Seq<Seq<char>> {
    Seq::new(names.len(), |i: int| joined(directory, names[i]))
}

/// List files in a directory. If the directory does not exist or is not a directory, an error
/// will be returned. `names` are the names of the entries found there.
pub fn list_files(directory: &str, is_directory: bool, names: &Vec<String>) -> (r: Result<
    Vec<String>,
    WorkerError,
>)
    ensures
        is_directory ==> (r matches Ok(files) && texts(files@) == entries(
            directory@,
            texts(names@),
        )),
        !is_directory ==> (r matches Err(WorkerError::NotADirectory { path }) && path@
            == directory@),
{
    if !is_directory {
        return Err(WorkerError::NotADirectory { path: directory.to_string() });
    }
    let mut files: Vec<String> = Vec::new();
    let mut i: usize = 0;
    while i < names.len()
        invariant
            i <= names.len(),
            files@.len() == i,
            forall|j: int| 0 <= j < i ==> (#[trigger] files@[j])@ == joined(directory@, names@[j]@),
        decreases names.len() - i,
    {
        files.push(join(directory, names[i].as_str()));
        i = i + 1;
    }
    assert(texts(files@) =~= entries(directory@, texts(names@)));
    Ok(files)
}

/// What the model holds at a path: a file with content and permission bits,
/// or a symlink.
pub ghost enum Node {
    File { content: Seq<u8>, mode: nat },
    Symlink { to: Seq<char> },
}

/// What a plain copy keeps of permission bits: the nine bits for owner,
/// group and others, without set-user-id, set-group-id and sticky.
pub open spec fn plain_mode(mode: nat) -> nat {
    mode % 512
}

/// What occupies `path` in `files`.
pub open spec fn kind_at(files: Map<Seq<char>, Node>, path: Seq<char>) -> FileKind {
    if !files.contains_key(path) {
        FileKind::Missing
    } else if files[path] is Symlink {
        FileKind::Symlink
    } else {
        FileKind::File
    }
}

/// Whether `step` can be taken on `files`: a copy needs a file to copy, a
/// removal or a move something to remove or move, and a symlink a free path.
pub open spec fn possible(files: Map<Seq<char>, Node>, step: Step) -> bool {
    match step {
        Step::Copy(from, to) => kind_at(files, from) is File,
        Step::CopyPermissions(from, to) => kind_at(files, from) is File && kind_at(files, to)
            is File,
        Step::Remove(path) => files.contains_key(path),
        Step::Symlink(source, target) => !files.contains_key(target),
        Step::Rename(from, to) => files.contains_key(from),
    }
}

/// `files` after `step`. A step that cannot be taken changes nothing.
pub open spec fn after(files: Map<Seq<char>, Node>, step: Step) -> Map<Seq<char>, Node> {
    if !possible(files, step) {
        files
    } else {
        match step {
            Step::Copy(from, to) => files.insert(
                to,
                Node::File { content: files[from]->content, mode: plain_mode(files[from]->mode) },
            ),
            Step::CopyPermissions(from, to) => files.insert(
                to,
                Node::File { content: files[to]->content, mode: files[from]->mode },
            ),
            Step::Remove(path) => files.remove(path),
            Step::Symlink(source, target) => files.insert(target, Node::Symlink { to: source }),
            Step::Rename(from, to) => files.remove(from).insert(to, files[from]),
        }
    }
}

/// `files` after each of `plan`, in order.
pub open spec fn after_all(files: Map<Seq<char>, Node>, plan: Seq<Step>) -> Map<Seq<char>, Node>
    decreases plan.len(),
{
    if plan.len() == 0 {
        files
    } else {
        after_all(after(files, plan.first()), plan.drop_first())
    }
}

/// Whether each of `plan` can be taken in its turn, starting from `files`.
pub open spec fn runs(files: Map<Seq<char>, Node>, plan: Seq<Step>) -> bool
    decreases plan.len(),
{
    plan.len() == 0 || (possible(files, plan.first()) && runs(
        after(files, plan.first()),
        plan.drop_first(),
    ))
}

/// Whether `step` leaves `path` alone: whether `path` is none of the paths
/// that the step writes, removes or moves, so that what is there stays,
/// whether the step succeeds or fails.
pub open spec fn leaves(step: Step, path: Seq<char>) -> bool {
    match step {
        Step::Copy(from, to) => path != to,
        Step::CopyPermissions(from, to) => path != to,
        Step::Remove(removed) => path != removed,
        Step::Symlink(source, target) => path != target,
        Step::Rename(from, to) => path != from && path != to,
    }
}

/// The steps that `next` has taken when a plan ends: all of them where it
/// ends with success, and where it ends with a failure, those up to the one
/// that failed.
pub open spec fn taken_until(plan: Seq<Step>, failed: Option<int>) -> Seq<Step> {
    match failed {
        Some(i) => plan.take(i + 1),
        None => plan,
    }
}

/// A step that leaves a path alone changes nothing there.
pub proof fn lemma_leaves(files: Map<Seq<char>, Node>, step: Step, path: Seq<char>)
    requires
        leaves(step, path),
    ensures
        after(files, step).contains_key(path) == files.contains_key(path),
        after(files, step)[path] == files[path],
{
}

/// A file is removed only after its backup is made: of the steps that
/// replace a file, the first two make the backup and leave the file alone,
/// the third removes the file and the fourth puts the symlink. So where the
/// copy or the copying of permissions fails, the file is as it was and no
/// symlink is made.
pub proof fn lemma_backup_before_removal(source: Seq<char>, target: Seq<char>, failed: int)
    requires
        0 <= failed < 2,
    ensures
        replace_plan(source, target, FileKind::File) == seq![
            Step::Copy(target, backup_path(target)),
            Step::CopyPermissions(target, backup_path(target)),
            Step::Remove(target),
            Step::Symlink(source, target),
        ],
        forall|i: int|
            0 <= i <= failed ==> leaves(
                #[trigger] taken_until(
                    replace_plan(source, target, FileKind::File),
                    Some(failed),
                )[i],
                target,
            ),
{
    lemma_backup_path_differs(target);
    let plan = replace_plan(source, target, FileKind::File);
    assert(plan =~= seq![
        Step::Copy(target, backup_path(target)),
        Step::CopyPermissions(target, backup_path(target)),
        Step::Remove(target),
        Step::Symlink(source, target),
    ]);
}

/// `files` after `target` is replaced with a symlink to `source`.
pub open spec fn replaced(
    files: Map<Seq<char>, Node>,
    source: Seq<char>,
    target: Seq<char>,
) -> Map<Seq<char>, Node> {
    after_all(files, replace_plan(source, target, kind_at(files, target)))
}

/// `files` after `target` is restored.
pub open spec fn restored(files: Map<Seq<char>, Node>, target: Seq<char>) -> Map<Seq<char>, Node> {
    after_all(
        files,
        restore_plan(target, kind_at(files, backup_path(target)), kind_at(files, target)),
    )
}

/// What replacing does, case by case: a symlink stays as it is; a free path
/// gets the symlink; a file is kept under its backup path, content and
/// permissions, and the symlink takes its place.
pub proof fn lemma_replaced(files: Map<Seq<char>, Node>, source: Seq<char>, target: Seq<char>)
    ensures
        runs(files, replace_plan(source, target, kind_at(files, target))),
        replaced(files, source, target) == match kind_at(files, target) {
            FileKind::Symlink => files,
            FileKind::Missing => files.insert(target, Node::Symlink { to: source }),
            FileKind::File => files.insert(backup_path(target), files[target]).insert(
                target,
                Node::Symlink { to: source },
            ),
        },
{
    reveal_with_fuel(after_all, 5);
    reveal_with_fuel(runs, 5);
    lemma_backup_path_differs(target);
    let backup = backup_path(target);
    match kind_at(files, target) {
        FileKind::Symlink => {},
        FileKind::Missing => {
            let plan = replace_plan(source, target, FileKind::Missing);
            assert(plan =~= seq![Step::Symlink(source, target)]);
            assert(plan.drop_first() =~= Seq::empty());
        },
        FileKind::File => {
            let plan = replace_plan(source, target, FileKind::File);
            let s0 = Step::Copy(target, backup);
            let s1 = Step::CopyPermissions(target, backup);
            let s2 = Step::Remove(target);
            let s3 = Step::Symlink(source, target);
            assert(plan =~= seq![s0, s1, s2, s3]);
            assert(plan.drop_first() =~= seq![s1, s2, s3]);
            assert(plan.drop_first().drop_first() =~= seq![s2, s3]);
            assert(plan.drop_first().drop_first().drop_first() =~= seq![s3]);
            assert(plan.drop_first().drop_first().drop_first().drop_first() =~= Seq::empty());
            let f1 = after(files, s0);
            let f2 = after(f1, s1);
            let f3 = after(f2, s2);
            let f4 = after(f3, s3);
            assert(f2[backup] == files[target]);
            assert(f4 =~= files.insert(backup, files[target]).insert(
                target,
                Node::Symlink { to: source },
            ));
        },
    }
}

/// What restoring does: nothing where there is no backup; else the backup
/// takes the place of what occupies the path, and is no longer a backup.
pub proof fn lemma_restored(files: Map<Seq<char>, Node>, target: Seq<char>)
    ensures
        runs(
            files,
            restore_plan(target, kind_at(files, backup_path(target)), kind_at(files, target)),
        ),
        restored(files, target) == if files.contains_key(backup_path(target)) {
            files.remove(backup_path(target)).insert(target, files[backup_path(target)])
        } else {
            files
        },
{
    reveal_with_fuel(after_all, 3);
    reveal_with_fuel(runs, 3);
    lemma_backup_path_differs(target);
    let backup = backup_path(target);
    let plan = restore_plan(target, kind_at(files, backup), kind_at(files, target));
    if files.contains_key(backup) {
        let move_back = Step::Rename(backup, target);
        if files.contains_key(target) {
            assert(plan =~= seq![Step::Remove(target), move_back]);
            assert(plan.drop_first() =~= seq![move_back]);
            assert(plan.drop_first().drop_first() =~= Seq::empty());
            assert(after_all(files, plan) =~= files.remove(backup).insert(target, files[backup]));
        } else {
            assert(plan =~= seq![move_back]);
            assert(plan.drop_first() =~= Seq::empty());
            assert(after_all(files, plan) =~= files.remove(backup).insert(target, files[backup]));
        }
    }
}

/// Replacing and restoring touch the path itself and its backup path, and
/// nothing else.
pub proof fn lemma_elsewhere_untouched(
    files: Map<Seq<char>, Node>,
    source: Seq<char>,
    target: Seq<char>,
    other: Seq<char>,
)
    requires
        other != target,
        other != backup_path(target),
    ensures
        replaced(files, source, target).contains_key(other) == files.contains_key(other),
        replaced(files, source, target)[other] == files[other],
        restored(files, target).contains_key(other) == files.contains_key(other),
        restored(files, target)[other] == files[other],
{
    lemma_replaced(files, source, target);
    lemma_restored(files, target);
}

/// Restoring a path that has no backup changes nothing: disabling before
/// enabling is safe, and so is disabling twice.
pub proof fn lemma_restore_without_backup(files: Map<Seq<char>, Node>, target: Seq<char>)
    requires
        !files.contains_key(backup_path(target)),
    ensures
        restored(files, target) == files,
{
    lemma_restored(files, target);
}

/// Replacing a path twice gives what replacing it once gives: after the
/// first time a symlink is there, and the second time leaves it, and any
/// backup, as they are.
pub proof fn lemma_replace_twice(
    files: Map<Seq<char>, Node>,
    source: Seq<char>,
    target: Seq<char>,
)
    ensures
        kind_at(replaced(files, source, target), target) is Symlink,
        replaced(replaced(files, source, target), source, target) == replaced(
            files,
            source,
            target,
        ),
{
    lemma_replaced(files, source, target);
    lemma_replaced(replaced(files, source, target), source, target);
}

/// Replacing a file and then restoring it brings back its content and its
/// permission bits, special bits included; where no backup was there
/// before, everything is as it was.
pub proof fn lemma_replace_then_restore(
    files: Map<Seq<char>, Node>,
    source: Seq<char>,
    target: Seq<char>,
)
    requires
        kind_at(files, target) is File,
    ensures
        restored(replaced(files, source, target), target)[target] == files[target],
        kind_at(restored(replaced(files, source, target), target), backup_path(target))
            is Missing,
        !files.contains_key(backup_path(target)) ==> restored(
            replaced(files, source, target),
            target,
        ) == files,
{
    lemma_backup_path_differs(target);
    lemma_replaced(files, source, target);
    lemma_restored(replaced(files, source, target), target);
    if !files.contains_key(backup_path(target)) {
        assert(restored(replaced(files, source, target), target) =~= files);
    }
}

/// A backup comes from the replacement of a file and from nothing else:
/// replacing a file puts the file under its backup path, and replacing
/// anything else leaves the backup path as it is.
pub proof fn lemma_backup_holds_file(
    files: Map<Seq<char>, Node>,
    source: Seq<char>,
    target: Seq<char>,
)
    ensures
        kind_at(files, target) is File ==> replaced(files, source, target).contains_key(
            backup_path(target),
        ) && replaced(files, source, target)[backup_path(target)] == files[target],
        !(kind_at(files, target) is File) ==> replaced(files, source, target).contains_key(
            backup_path(target),
        ) == files.contains_key(backup_path(target)) && replaced(
            files,
            source,
            target,
        )[backup_path(target)] == files[backup_path(target)],
{
    lemma_backup_path_differs(target);
    lemma_replaced(files, source, target);
}

/// `files` after each of `targets` is replaced with a symlink to the source
/// at the same position, in order.
pub open spec fn replaced_each(
    files: Map<Seq<char>, Node>,
    sources: Seq<Seq<char>>,
    targets: Seq<Seq<char>>,
) -> Map<Seq<char>, Node>
    decreases targets.len(),
{
    if targets.len() == 0 {
        files
    } else {
        replaced_each(
            replaced(files, sources.first(), targets.first()),
            sources.drop_first(),
            targets.drop_first(),
        )
    }
}

/// `files` after each of `targets` is restored, in order.
pub open spec fn restored_each(
    files: Map<Seq<char>, Node>,
    targets: Seq<Seq<char>>,
) -> Map<Seq<char>, Node>
    decreases targets.len(),
{
    if targets.len() == 0 {
        files
    } else {
        restored_each(restored(files, targets.first()), targets.drop_first())
    }
}

/// No path occurs twice in `targets`, no two share a backup path, and none
/// is the backup path of another.
pub open spec fn apart(targets: Seq<Seq<char>>) -> bool {
    &&& forall|i: int, j: int|
        0 <= i < j < targets.len() ==> #[trigger] targets[i] != #[trigger] targets[j]
    &&& forall|i: int, j: int|
        0 <= i < j < targets.len() ==> backup_path(#[trigger] targets[i]) != backup_path(
            #[trigger] targets[j],
        )
    &&& forall|i: int, j: int|
        0 <= i < targets.len() && 0 <= j < targets.len() ==> #[trigger] targets[i]
            != backup_path(#[trigger] targets[j])
}

/// Every one of `targets` is a file that has no backup yet.
pub open spec fn untouched(files: Map<Seq<char>, Node>, targets: Seq<Seq<char>>) -> bool {
    forall|i: int|
        0 <= i < targets.len() ==> kind_at(files, #[trigger] targets[i]) is File
            && !files.contains_key(backup_path(targets[i]))
}

/// `path` is none of `targets` and the backup path of none.
pub open spec fn outside(targets: Seq<Seq<char>>, path: Seq<char>) -> bool {
    forall|i: int|
        0 <= i < targets.len() ==> path != #[trigger] targets[i] && path != backup_path(
            targets[i],
        )
}

/// Where paths lie apart, those after the first lie apart, and the first
/// and its backup path are none of them and the backup path of none.
pub proof fn lemma_apart_rest(targets: Seq<Seq<char>>)
    requires
        apart(targets),
        targets.len() > 0,
    ensures
        apart(targets.drop_first()),
        outside(targets.drop_first(), targets.first()),
        outside(targets.drop_first(), backup_path(targets.first())),
{
    let rest = targets.drop_first();
    assert forall|i: int| 0 <= i < rest.len() implies #[trigger] rest[i] == targets[i + 1] by {}
    assert(targets.first() == targets[0]);
    assert forall|i: int, j: int| 0 <= i < j < rest.len() implies #[trigger] rest[i]
        != #[trigger] rest[j] && backup_path(rest[i]) != backup_path(rest[j]) by {
        assert(rest[i] == targets[i + 1] && rest[j] == targets[j + 1]);
    }
    assert forall|i: int, j: int|
        0 <= i < rest.len() && 0 <= j < rest.len() implies #[trigger] rest[i] != backup_path(
        #[trigger] rest[j],
    ) by {
        assert(rest[i] == targets[i + 1] && rest[j] == targets[j + 1]);
    }
    assert forall|i: int| 0 <= i < rest.len() implies targets[0] != #[trigger] rest[i]
        && targets[0] != backup_path(rest[i]) && backup_path(targets[0]) != rest[i]
        && backup_path(targets[0]) != backup_path(rest[i]) by {
        assert(rest[i] == targets[i + 1]);
    }
}

/// A path that is outside `targets` is outside those after the first.
pub proof fn lemma_outside_rest(targets: Seq<Seq<char>>, path: Seq<char>)
    requires
        outside(targets, path),
        targets.len() > 0,
    ensures
        outside(targets.drop_first(), path),
        path != targets.first(),
        path != backup_path(targets.first()),
{
    let rest = targets.drop_first();
    assert(targets.first() == targets[0]);
    assert forall|i: int| 0 <= i < rest.len() implies path != #[trigger] rest[i] && path
        != backup_path(rest[i]) by {
        assert(rest[i] == targets[i + 1]);
    }
}

/// After files that lie apart are replaced one after the other, each is a
/// symlink to its source, its backup holds what it was, and every other path
/// is as before.
pub proof fn lemma_replaced_each(
    files: Map<Seq<char>, Node>,
    sources: Seq<Seq<char>>,
    targets: Seq<Seq<char>>,
)
    requires
        sources.len() == targets.len(),
        apart(targets),
        untouched(files, targets),
    ensures
        forall|i: int|
            0 <= i < targets.len() ==> {
                let after = replaced_each(files, sources, targets);
                &&& after.contains_key(#[trigger] targets[i])
                &&& after[targets[i]] == Node::Symlink { to: sources[i] }
                &&& after.contains_key(backup_path(targets[i]))
                &&& after[backup_path(targets[i])] == files[targets[i]]
            },
        forall|path: Seq<char>| #[trigger]
            outside(targets, path) ==> {
                let after = replaced_each(files, sources, targets);
                &&& after.contains_key(path) == files.contains_key(path)
                &&& after[path] == files[path]
            },
    decreases targets.len(),
{
    if targets.len() > 0 {
        let source = sources.first();
        let target = targets.first();
        let next = replaced(files, source, target);
        let rest = targets.drop_first();
        let after = replaced_each(files, sources, targets);
        lemma_replaced(files, source, target);
        lemma_backup_path_differs(target);
        lemma_apart_rest(targets);
        assert(target == targets[0]);
        assert forall|i: int| 0 <= i < rest.len() implies kind_at(next, #[trigger] rest[i])
            is File && !next.contains_key(backup_path(rest[i])) by {
            assert(rest[i] == targets[i + 1]);
        }
        lemma_replaced_each(next, sources.drop_first(), rest);
        assert forall|i: int| 0 <= i < targets.len() implies {
            &&& after.contains_key(#[trigger] targets[i])
            &&& after[targets[i]] == Node::Symlink { to: sources[i] }
            &&& after.contains_key(backup_path(targets[i]))
            &&& after[backup_path(targets[i])] == files[targets[i]]
        } by {
            if i > 0 {
                assert(rest[i - 1] == targets[i]);
                assert(sources.drop_first()[i - 1] == sources[i]);
            }
        }
        assert forall|path: Seq<char>| #[trigger] outside(targets, path) implies {
            &&& after.contains_key(path) == files.contains_key(path)
            &&& after[path] == files[path]
        } by {
            lemma_outside_rest(targets, path);
        }
    }
}

/// After files that lie apart and have backups are restored one after the
/// other, each holds what its backup held, no backup is left, and every
/// other path is as before.
pub proof fn lemma_restored_each(files: Map<Seq<char>, Node>, targets: Seq<Seq<char>>)
    requires
        apart(targets),
        forall|i: int|
            0 <= i < targets.len() ==> files.contains_key(backup_path(#[trigger] targets[i])),
    ensures
        forall|i: int|
            0 <= i < targets.len() ==> {
                let after = restored_each(files, targets);
                &&& after.contains_key(#[trigger] targets[i])
                &&& after[targets[i]] == files[backup_path(targets[i])]
                &&& !after.contains_key(backup_path(targets[i]))
            },
        forall|path: Seq<char>| #[trigger]
            outside(targets, path) ==> {
                let after = restored_each(files, targets);
                &&& after.contains_key(path) == files.contains_key(path)
                &&& after[path] == files[path]
            },
    decreases targets.len(),
{
    if targets.len() > 0 {
        let target = targets.first();
        let next = restored(files, target);
        let rest = targets.drop_first();
        let after = restored_each(files, targets);
        lemma_restored(files, target);
        lemma_backup_path_differs(target);
        lemma_apart_rest(targets);
        assert(target == targets[0]);
        assert forall|i: int| 0 <= i < rest.len() implies next.contains_key(
            backup_path(#[trigger] rest[i]),
        ) && next[backup_path(rest[i])] == files[backup_path(rest[i])] by {
            assert(rest[i] == targets[i + 1]);
        }
        lemma_restored_each(next, rest);
        assert forall|i: int| 0 <= i < targets.len() implies {
            &&& after.contains_key(#[trigger] targets[i])
            &&& after[targets[i]] == files[backup_path(targets[i])]
            &&& !after.contains_key(backup_path(targets[i]))
        } by {
            if i > 0 {
                assert(rest[i - 1] == targets[i]);
            }
        }
        assert forall|path: Seq<char>| #[trigger] outside(targets, path) implies {
            &&& after.contains_key(path) == files.contains_key(path)
            &&& after[path] == files[path]
        } by {
            lemma_outside_rest(targets, path);
        }
    }
}

/// Restoring undoes replacing, for a whole set of files: where files that
/// lie apart and have no backups are replaced one after the other and then
/// restored one after the other, everything is as it was before.
pub proof fn lemma_restore_each_undoes_replace_each(
    files: Map<Seq<char>, Node>,
    sources: Seq<Seq<char>>,
    targets: Seq<Seq<char>>,
)
    requires
        sources.len() == targets.len(),
        apart(targets),
        untouched(files, targets),
    ensures
        restored_each(replaced_each(files, sources, targets), targets) == files,
{
    let linked = replaced_each(files, sources, targets);
    let back = restored_each(linked, targets);
    lemma_replaced_each(files, sources, targets);
    lemma_restored_each(linked, targets);
    assert forall|path: Seq<char>|
        #![trigger back.contains_key(path)]
        #![trigger files.contains_key(path)]
        back.contains_key(path) == files.contains_key(path) && (files.contains_key(path)
            ==> back[path] == files[path]) by {
        if outside(targets, path) {
        } else {
            let i = choose|i: int|
                0 <= i < targets.len() && !(path != #[trigger] targets[i] && path != backup_path(
                    targets[i],
                ));
            assert(kind_at(files, targets[i]) is File);
        }
    }
    assert(back =~= files);
}

} // verus!
