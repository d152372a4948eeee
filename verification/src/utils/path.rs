//! Paths as text: the file name of a path, the directory it lies in,
//! joining, and the name under which a file is kept while a symlink takes
//! its place.
//!
//! A path names the same file with or without separators and `.` segments
//! at its end, so these are left aside: `/usr/bin/` and `/usr/bin/.` have
//! the file name `bin` and lie in `/usr`, as `/usr/bin` does.

use vstd::prelude::*;
use vstd::string::{StrSliceExecFns, StringExecFns};

use crate::utils::text::chars_of;

verus! {

/// `path` without the separators and `.` segments that it ends with.
pub open spec fn stem(path: Seq<char>) -> Seq<char>
    decreases path.len(),
{
    if path.len() > 0 && path.last() == '/' {
        stem(path.drop_last())
    } else if path.len() >= 2 && path.last() == '.' && path[path.len() - 2] == '/' {
        stem(path.take(path.len() - 2))
    } else {
        path
    }
}

/// Where the final segment of `path` begins: just after its last `/`, or at
/// 0 if it has none.
pub open spec fn segment_start(path: Seq<char>) -> int
    decreases path.len(),
{
    if path.len() == 0 || path.last() == '/' {
        path.len() as int
    } else {
        segment_start(path.drop_last())
    }
}

/// The final segment of `path`: what follows the last `/` of its stem.
pub open spec fn final_segment(path: Seq<char>) -> Seq<char> {
    stem(path).skip(segment_start(stem(path)))
}

/// The directory that `path` lies in: what stands before its final
/// segment, without the separators and `.` segments at the end of that, but
/// never less than the root.
pub open spec fn directory_part(path: Seq<char>) -> Seq<char> {
    let before = stem(path).take(segment_start(stem(path)));
    if before.len() > 0 && stem(before).len() == 0 {
        seq!['/']
    } else {
        stem(before)
    }
}

/// The file name of `path`: its final segment, unless that is empty, `.` or
/// `..`.
pub open spec fn file_name_of(path: Seq<char>) -> Option<Seq<char>> {
    let name = final_segment(path);
    if name.len() == 0 || name == seq!['.'] || name == seq!['.', '.'] {
        None
    } else {
        Some(name)
    }
}

/// What is appended to the name of a backup file.
pub open spec fn backup_suffix() -> Seq<char> {
    ".oxidizr.bak"@
}

/// The name of the backup of `path`: its final segment with a dot before it
/// and the suffix after it.
pub open spec fn backup_name(path: Seq<char>) -> Seq<char> {
    seq!['.'] + final_segment(path) + backup_suffix()
}

/// `name` inside `directory`: a `/` is put between them unless `directory`
/// is empty or ends with one.
pub open spec fn joined(directory: Seq<char>, name: Seq<char>) -> Seq<char> {
    if directory.len() == 0 || directory.last() == '/' {
        directory + name
    } else {
        directory + seq!['/'] + name
    }
}

/// The backup path of `path`: its backup name, in the directory that `path`
/// lies in.
pub open spec fn backup_path(path: Seq<char>) -> Seq<char> {
    joined(directory_part(path), backup_name(path))
}

/// The stem of a path is the beginning of the path, ends with neither a
/// separator nor a `.` segment, and is its own stem.
pub proof fn lemma_stem(path: Seq<char>)
    ensures
        stem(path).len() <= path.len(),
        stem(path) == path.take(stem(path).len() as int),
        stem(path).len() > 0 ==> stem(path).last() != '/',
        stem(path).len() >= 2 ==> !(stem(path).last() == '.' && stem(path)[stem(path).len() - 2]
            == '/'),
        stem(stem(path)) == stem(path),
    decreases path.len(),
{
    if path.len() > 0 && path.last() == '/' {
        lemma_stem(path.drop_last());
        assert(path.drop_last().take(stem(path).len() as int) =~= path.take(
            stem(path).len() as int,
        ));
    } else if path.len() >= 2 && path.last() == '.' && path[path.len() - 2] == '/' {
        lemma_stem(path.take(path.len() - 2));
        assert(path.take(path.len() - 2).take(stem(path).len() as int) =~= path.take(
            stem(path).len() as int,
        ));
    } else {
        assert(path.take(path.len() as int) =~= path);
    }
}

/// A path and its stem name the same file: they have the same file name,
/// lie in the same directory and share their backup.
pub proof fn lemma_stem_names_the_same(path: Seq<char>)
    ensures
        file_name_of(stem(path)) == file_name_of(path),
        directory_part(stem(path)) == directory_part(path),
        backup_path(stem(path)) == backup_path(path),
{
    lemma_stem(path);
}

/// The final segment begins inside the path, and holds no `/`.
pub proof fn lemma_segment_start(path: Seq<char>)
    ensures
        0 <= segment_start(path) <= path.len(),
        segment_start(path) > 0 ==> path[segment_start(path) - 1] == '/',
        forall|i: int| segment_start(path) <= i < path.len() ==> path[i] != '/',
    decreases path.len(),
{
    if path.len() == 0 || path.last() == '/' {
    } else {
        lemma_segment_start(path.drop_last());
        assert forall|i: int| segment_start(path) <= i < path.len() implies path[i] != '/' by {
            if i < path.len() - 1 {
                assert(path.drop_last()[i] == path[i]);
            }
        }
    }
}

/// Text without a `/`, put after a path, lengthens its final segment.
pub proof fn lemma_segment_start_after(path: Seq<char>, more: Seq<char>)
    requires
        forall|i: int| 0 <= i < more.len() ==> more[i] != '/',
    ensures
        segment_start(path + more) == segment_start(path),
    decreases more.len(),
{
    if more.len() == 0 {
        assert(path + more =~= path);
    } else {
        assert((path + more).drop_last() =~= path + more.drop_last());
        lemma_segment_start_after(path, more.drop_last());
    }
}

/// The suffix of backup names, written out: twelve characters, none a `/`.
pub proof fn lemma_backup_suffix()
    ensures
        backup_suffix() == seq!['.', 'o', 'x', 'i', 'd', 'i', 'z', 'r', '.', 'b', 'a', 'k'],
{
    reveal_strlit(".oxidizr.bak");
    assert(backup_suffix() =~= seq!['.', 'o', 'x', 'i', 'd', 'i', 'z', 'r', '.', 'b', 'a', 'k']);
}

/// The final segment of a name without a `/` that is put into a directory
/// is that name, if the name ends with neither `/` nor a `.` segment.
proof fn lemma_final_segment_of_joined(directory: Seq<char>, name: Seq<char>)
    requires
        name.len() > 0,
        forall|i: int| 0 <= i < name.len() ==> name[i] != '/',
        name != seq!['.'],
    ensures
        stem(joined(directory, name)) == joined(directory, name),
        final_segment(joined(directory, name)) == name,
        stem(joined(directory, name)).take(segment_start(stem(joined(directory, name))))
            == if directory.len() == 0 || directory.last() == '/' {
            directory
        } else {
            directory + seq!['/']
        },
{
    let prefix = if directory.len() == 0 || directory.last() == '/' {
        directory
    } else {
        directory + seq!['/']
    };
    let whole = joined(directory, name);
    assert(whole =~= prefix + name);
    assert(whole.last() == name.last());
    if whole.len() >= 2 && whole.last() == '.' && whole[whole.len() - 2] == '/' {
        if name.len() >= 2 {
            assert(whole[whole.len() - 2] == name[name.len() - 2]);
        } else {
            assert(name =~= seq!['.']);
        }
    }
    assert(stem(whole) == whole);
    lemma_segment_start_after(prefix, name);
    assert(segment_start(prefix) == prefix.len()) by {
        if prefix.len() > 0 {
            assert(prefix.last() == '/');
        }
    }
    assert(whole.skip(prefix.len() as int) =~= name);
    assert(whole.take(prefix.len() as int) =~= prefix);
}

/// A backup path differs from the path it belongs to: its final segment is
/// the longer one.
pub proof fn lemma_backup_path_differs(path: Seq<char>)
    ensures
        final_segment(backup_path(path)) == backup_name(path),
        backup_path(path) != path,
{
    lemma_stem(path);
    lemma_segment_start(stem(path));
    lemma_backup_suffix();
    let name = backup_name(path);
    assert(name.len() == final_segment(path).len() + 13);
    assert forall|i: int| 0 <= i < name.len() implies name[i] != '/' by {
        if 1 <= i <= final_segment(path).len() {
            assert(name[i] == stem(path)[segment_start(stem(path)) + i - 1]);
        }
    }
    assert(name != seq!['.']);
    lemma_final_segment_of_joined(directory_part(path), name);
}

/// The file name of a path made by `joined` is the name that was joined, and
/// its backup lies in the same directory: where `name` is a file name and
/// `directory` ends with neither a separator nor a `.` segment, `name`
/// inside `directory` has the file name `name`, lies in `directory`, and has
/// as its backup path the backup name inside `directory`.
pub proof fn lemma_joined(directory: Seq<char>, name: Seq<char>)
    requires
        file_name_of(name) == Some(name),
        stem(directory) == directory,
    ensures
        file_name_of(joined(directory, name)) == Some(name),
        directory_part(joined(directory, name)) == directory,
        backup_path(joined(directory, name)) == joined(
            directory,
            seq!['.'] + name + backup_suffix(),
        ),
{
    lemma_stem(name);
    lemma_segment_start(stem(name));
    lemma_stem(directory);
    assert(stem(name) =~= name && segment_start(name) == 0) by {
        assert(stem(name).skip(segment_start(stem(name))).len() == name.len());
    }
    lemma_final_segment_of_joined(directory, name);
    if directory.len() > 0 {
        assert((directory + seq!['/']).drop_last() =~= directory);
    }
}

/// Two names in one directory have different backups, as far as they are
/// different names.
pub proof fn lemma_backups_in_a_directory(directory: Seq<char>, one: Seq<char>, other: Seq<char>)
    requires
        file_name_of(one) == Some(one),
        file_name_of(other) == Some(other),
        stem(directory) == directory,
        one != other,
    ensures
        backup_path(joined(directory, one)) != backup_path(joined(directory, other)),
{
    lemma_joined(directory, one);
    lemma_joined(directory, other);
    lemma_backup_path_differs(joined(directory, one));
    lemma_backup_path_differs(joined(directory, other));
    let a = backup_name(joined(directory, one));
    let b = backup_name(joined(directory, other));
    if a == b {
        assert(a.len() == one.len() + 13 && b.len() == other.len() + 13) by {
            lemma_backup_suffix();
        }
        assert forall|i: int| 0 <= i < one.len() implies one[i] == other[i] by {
            assert(a[i + 1] == one[i]);
            assert(b[i + 1] == other[i]);
        }
        assert(one =~= other);
    }
}

/// The length of the stem of the first `end` characters of `path`.
fn stem_end(path: &Vec<char>, end: usize) -> (n: usize)
    requires
        end <= path.len(),
    ensures
        n <= end,
        stem(path@.take(end as int)) == path@.take(n as int),
{
    let mut n: usize = end;
    loop
        invariant
            n <= end <= path.len(),
            stem(path@.take(end as int)) == stem(path@.take(n as int)),
        ensures
            n <= end,
            stem(path@.take(end as int)) == path@.take(n as int),
        decreases n,
    {
        let ghost part = path@.take(n as int);
        if n > 0 && path[n - 1] == '/' {
            assert(part.drop_last() =~= path@.take(n as int - 1));
            n = n - 1;
        } else if n >= 2 && path[n - 1] == '.' && path[n - 2] == '/' {
            assert(part.take(part.len() - 2) =~= path@.take(n as int - 2));
            n = n - 2;
        } else {
            break ;
        }
    }
    n
}

/// Where the final segment of the first `end` characters of `path` begins.
fn split_point(path: &Vec<char>, end: usize) -> (k: usize)
    requires
        end <= path.len(),
    ensures
        k == segment_start(path@.take(end as int)),
        k <= end,
{
    let mut k: usize = end;
    while k > 0 && path[k - 1] != '/'
        invariant
            k <= end <= path.len(),
            segment_start(path@.take(end as int)) == segment_start(path@.take(k as int)),
        decreases k,
    {
        assert(path@.take(k as int).drop_last() =~= path@.take(k as int - 1));
        k = k - 1;
    }
    k
}

/// Where the final segment of `path` begins and ends.
fn name_range(path: &Vec<char>) -> (r: (usize, usize))
    ensures
        r.0 <= r.1 <= path.len(),
        stem(path@) == path@.take(r.1 as int),
        r.0 == segment_start(stem(path@)),
        final_segment(path@) == path@.subrange(r.0 as int, r.1 as int),
{
    assert(path@.take(path.len() as int) =~= path@);
    let end = stem_end(path, path.len());
    let start = split_point(path, end);
    assert(path@.take(end as int).skip(start as int) =~= path@.subrange(start as int, end as int));
    (start, end)
}

/// The file name of `path`, if it has one.
pub fn file_name(path: &str) -> (r: Option<String>)
    ensures
        r is Some <==> file_name_of(path@) is Some,
        r matches Some(name) ==> Some(name@) == file_name_of(path@),
{
    let v = chars_of(path);
    let (k, n) = name_range(&v);
    let ghost name = final_segment(path@);
    assert(name.len() == n - k);
    if n - k == 0 {
        return None;
    }
    if n - k == 1 && v[k] == '.' {
        assert(name =~= seq!['.']);
        return None;
    }
    if n - k == 2 && v[k] == '.' && v[k + 1] == '.' {
        assert(name =~= seq!['.', '.']);
        return None;
    }
    assert(name != seq!['.']) by {
        if name == seq!['.'] {
            assert(name.len() == 1);
            assert(name[0] == '.');
        }
    }
    assert(name != seq!['.', '.']) by {
        if name == seq!['.', '.'] {
            assert(name.len() == 2);
            assert(name[0] == '.');
            assert(name[1] == '.');
        }
    }
    Some(path.substring_char(k, n).to_string())
}

/// The directory that `path` lies in.
pub fn directory(path: &str) -> (r: String)
    ensures
        r@ == directory_part(path@),
{
    let v = chars_of(path);
    let (k, n) = name_range(&v);
    assert(path@.take(n as int).take(k as int) =~= path@.take(k as int));
    let d = stem_end(&v, k);
    if k > 0 && d == 0 {
        proof {
            reveal_strlit("/");
            assert("/"@ =~= seq!['/']);
        }
        "/".to_string()
    } else {
        assert(path@.subrange(0, d as int) =~= path@.take(d as int));
        path.substring_char(0, d).to_string()
    }
}

/// The path of `name` inside `directory`.
pub fn join(directory: &str, name: &str) -> (r: String)
    ensures
        r@ == joined(directory@, name@),
{
    let v = chars_of(directory);
    let mut r = directory.to_string();
    if v.len() > 0 && v[v.len() - 1] != '/' {
        r.append("/");
        proof {
            reveal_strlit("/");
            assert("/"@ =~= seq!['/']);
        }
    }
    r.append(name);
    r
}

/// Generate a backup filename. For a given file `/path/to/file`, the backup filename will be
/// `/path/to/.file.oxidizr.bak`.
pub fn backup_filename(file: &str) -> (r: String)
    ensures
        r@ == backup_path(file@),
{
    let v = chars_of(file);
    let (k, n) = name_range(&v);
    let mut name = ".".to_string();
    name.append(file.substring_char(k, n));
    name.append(".oxidizr.bak");
    proof {
        reveal_strlit(".");
        assert("."@ =~= seq!['.']);
    }
    join(directory(file).as_str(), name.as_str())
}

} // verus!
