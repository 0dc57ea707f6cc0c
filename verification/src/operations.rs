//! Backup, restore and delete of one sanitized path, as decisions: each
//! function says what has to happen on the filesystem, given what the caller
//! found there, and a second one turns what the filesystem answered into the
//! result of the operation.

use crate::error::{DeleteOutcome, OpError};
use crate::path::{
    absolute_text, is_inside, is_step, last_segment_start, lemma_names_are_steps,
    lemma_names_of_absolute_text, lemma_segments_nonempty, lemma_segments_push, lemma_tail_start,
    names, segments, tail_start,
};
use crate::sanitizer::SanitizedPath;
use crate::text::{append_range, chars_of, string_of};
use vstd::prelude::*;

verus! {

/// What the caller found at a path.
#[derive(Clone, Copy, Debug, PartialEq, Eq)]
pub enum FileKind {
    /// Nothing exists there.
    Missing,
    /// A regular file.
    Regular,
    /// Something that is no regular file: a directory, a device.
    Other,
}

/// A copy to make: all bytes of `from` become the content of `to`, which is
/// created or overwritten.
#[derive(Debug, PartialEq, Eq)]
pub struct Transfer {
    pub from: String,
    pub to: String,
}

impl Clone for Transfer {
    fn clone(&self) -> (copy: Transfer)
        ensures
            copy == *self,
    {
        Transfer { from: self.from.clone(), to: self.to.clone() }
    }
}

/// A copy to make, as the two path texts.
pub struct Route {
    pub from: Seq<char>,
    pub to: Seq<char>,
}

impl View for Transfer {
    type V = Route;

    open spec fn view(&self) -> Route {
        Route { from: self.from@, to: self.to@ }
    }
}

/// What a deletion comes to once the confirmation has been looked at.
#[derive(Debug, PartialEq, Eq)]
pub enum Removal {
    /// The file at this path is to be removed.
    Confirmed(String),
    /// Nothing is to be touched.
    Declined,
}

impl Clone for Removal {
    fn clone(&self) -> (copy: Removal)
        ensures
            copy == *self,
    {
        match self {
            Removal::Confirmed(path) => Removal::Confirmed(path.clone()),
            Removal::Declined => Removal::Declined,
        }
    }
}

impl View for Removal {
    type V = Option<Seq<char>>;

    /// The text of the path to remove, if any.
    open spec fn view(&self) -> Option<Seq<char>> {
        match self {
            Removal::Confirmed(path) => Some(path@),
            Removal::Declined => None,
        }
    }
}

/// The extension that marks a backup.
pub open spec fn bak() -> Seq<char> {
    seq!['b', 'a', 'k']
}

/// What follows a path to give the path of its backup.
pub open spec fn backup_suffix() -> Seq<char> {
    seq!['.', 'b', 'a', 'k']
}

/// The path of the backup of `path`: a matter of the two texts alone.
pub open spec fn backup_path_of(path: Seq<char>) -> Seq<char> {
    path + backup_suffix()
}

/// The place of the last dot in `name`, or -1 where it has none.
pub open spec fn last_dot(name: Seq<char>) -> int
    decreases name.len(),
{
    if name.len() == 0 {
        -1
    } else if name.last() == '.' {
        name.len() - 1
    } else {
        last_dot(name.drop_last())
    }
}

/// The extension of `path`: what follows the last dot of its last segment,
/// unless that dot stands at the front of the segment or the segment has none.
pub open spec fn extension_of(path: Seq<char>) -> Option<Seq<char>> {
    let file = segments(path).last();
    let dot = last_dot(file);
    if dot <= 0 {
        None
    } else {
        Some(file.skip(dot + 1))
    }
}

/// `path` up to the dot that starts its extension; all of it where it has no
/// extension.
pub open spec fn stem_of(path: Seq<char>) -> Seq<char> {
    match extension_of(path) {
        None => path,
        Some(ext) => path.take(path.len() - ext.len() - 1),
    }
}

/// The extension that the backup of `path` has in place of the extension of
/// `path`: `ext.bak` for an extension `ext`, and `bak` where `path` has none.
pub open spec fn backup_extension(path: Seq<char>) -> Seq<char> {
    match extension_of(path) {
        Some(ext) => ext + backup_suffix(),
        None => bak(),
    }
}

/// Whether `token` confirms a deletion: it is the word "yes", in any mix of
/// upper and lower case.
pub open spec fn is_confirmation(token: Seq<char>) -> bool {
    &&& token.len() == 3
    &&& (token[0] == 'y' || token[0] == 'Y')
    &&& (token[1] == 'e' || token[1] == 'E')
    &&& (token[2] == 's' || token[2] == 'S')
}

/// What a backup of `target` comes to, where the caller found `found` there:
/// a file is copied to its backup path, anything else is an error.
pub open spec fn backup_plan(target: Seq<char>, found: FileKind) -> Result<Route, OpError> {
    match found {
        FileKind::Missing => Err(OpError::NotFound),
        FileKind::Other => Err(OpError::NotAFile),
        FileKind::Regular => Ok(Route { from: target, to: backup_path_of(target) }),
    }
}

/// What the restoring of `target` comes to: its backup, where one exists, is
/// copied over it.
pub open spec fn restore_plan(target: Seq<char>, backup_exists: bool) -> Result<Route, OpError> {
    if backup_exists {
        Ok(Route { from: backup_path_of(target), to: target })
    } else {
        Err(OpError::NoBackup)
    }
}

/// What the deletion of `target` comes to, where the caller found `found`
/// there and was given `confirmation`: a file is removed if the confirmation
/// is given, and left alone if not; anything but a file is an error, whatever
/// the confirmation.
pub open spec fn delete_plan(target: Seq<char>, found: FileKind, confirmation: Seq<char>) -> Result<
    Option<Seq<char>>,
    OpError,
> {
    match found {
        FileKind::Missing => Err(OpError::NotFound),
        FileKind::Other => Err(OpError::NotAFile),
        FileKind::Regular => if is_confirmation(confirmation) {
            Ok(Some(target))
        } else {
            Ok(None)
        },
    }
}

/// Finds the dot that starts the extension of `path`.
fn extension_dot(path: &Vec<char>) -> (r: Option<usize>)
    ensures
        match r {
            Some(dot) => dot < path.len() && path@[dot as int] == '.' && extension_of(path@)
                == Some(path@.skip(dot + 1)) && stem_of(path@) == path@.take(dot as int),
            None => extension_of(path@) is None,
        },
{
    let start = last_segment_start(path);
    let ghost file = path@.skip(start as int);
    proof {
        lemma_tail_start(path@);
    }
    let mut i: usize = path.len();
    assert(file.take(i - start) == file);
    while i > start && path[i - 1] != '.'
        invariant
            start <= i <= path.len(),
            file == path@.skip(start as int),
            last_dot(file) == last_dot(file.take(i - start)),
        decreases i,
    {
        assert(file.take(i - start).drop_last() == file.take(i - start - 1));
        i -= 1;
    }
    if i - start <= 1 {
        return None;
    }
    proof {
        assert(file.skip(i - start) == path@.skip(i as int));
        assert(path@.len() - path@.skip(i as int).len() - 1 == i - 1);
    }
    Some(i - 1)
}

/// The extension of `path`, where it has one.
pub fn extension(path: &str) -> (r: Option<String>)
    ensures
        match r {
            Some(ext) => extension_of(path@) == Some(ext@),
            None => extension_of(path@) is None,
        },
{
    let chars = chars_of(path);
    match extension_dot(&chars) {
        None => None,
        Some(dot) => {
            let mut ext: Vec<char> = Vec::new();
            append_range(&mut ext, &chars, dot + 1, chars.len());
            assert(ext@ =~= chars@.skip(dot + 1));
            Some(string_of(&ext))
        },
    }
}

/// The path of the backup of `path`. An extension `ext` is replaced by
/// `ext.bak`; a path without extension gets the extension `bak`. Either way
/// this is `path` followed by `.bak`.
pub fn backup_path_for(path: &str) -> (backup: String)
    ensures
        backup@ == backup_path_of(path@),
        backup@ == stem_of(path@) + seq!['.'] + backup_extension(path@),
{
    let chars = chars_of(path);
    let mut backup: Vec<char> = Vec::new();
    match extension_dot(&chars) {
        Some(dot) => {
            append_range(&mut backup, &chars, 0, dot);
            backup.push('.');
            append_range(&mut backup, &chars, dot + 1, chars.len());
            backup.push('.');
        },
        None => {
            append_range(&mut backup, &chars, 0, chars.len());
            backup.push('.');
        },
    }
    backup.push('b');
    backup.push('a');
    backup.push('k');
    proof {
        assert(backup@ =~= stem_of(path@) + seq!['.'] + backup_extension(path@));
        lemma_backup_path_rule(path@);
    }
    string_of(&backup)
}

/// Decides `is_confirmation`.
pub fn confirms(token: &str) -> (b: bool)
    ensures
        b == is_confirmation(token@),
{
    let t = chars_of(token);
    t.len() == 3 && (t[0] == 'y' || t[0] == 'Y') && (t[1] == 'e' || t[1] == 'E') && (t[2] == 's'
        || t[2] == 'S')
}

/// Plans the backup of `target`, where the caller found `found`.
pub fn backup(target: &SanitizedPath, found: FileKind) -> (r: Result<Transfer, OpError>)
    ensures
        match r {
            Ok(transfer) => backup_plan(target@, found) == Ok::<Route, OpError>(transfer@),
            Err(e) => backup_plan(target@, found) == Err::<Route, OpError>(e),
        },
{
    match found {
        FileKind::Missing => Err(OpError::NotFound),
        FileKind::Other => Err(OpError::NotAFile),
        FileKind::Regular => Ok(
            Transfer { from: target.as_str().to_owned(), to: backup_path_for(target.as_str()) },
        ),
    }
}

/// The result of a backup whose copy ended as `copied` says: the backup path,
/// or the failure with the text that the filesystem gave.
pub fn backup_finished(transfer: Transfer, copied: Result<(), String>) -> (r: Result<
    String,
    OpError,
>)
    ensures
        match copied {
            Ok(_) => r == Ok::<String, OpError>(transfer.to),
            Err(detail) => r == Err::<String, OpError>(OpError::IoFailure(detail)),
        },
{
    match copied {
        Ok(_) => Ok(transfer.to),
        Err(detail) => Err(OpError::IoFailure(detail)),
    }
}

/// Plans the restoring of `target`, given whether its backup exists.
pub fn restore(target: &SanitizedPath, backup_exists: bool) -> (r: Result<Transfer, OpError>)
    ensures
        match r {
            Ok(transfer) => restore_plan(target@, backup_exists) == Ok::<Route, OpError>(transfer@),
            Err(e) => restore_plan(target@, backup_exists) == Err::<Route, OpError>(e),
        },
{
    if backup_exists {
        Ok(Transfer { from: backup_path_for(target.as_str()), to: target.as_str().to_owned() })
    } else {
        Err(OpError::NoBackup)
    }
}

/// The result of a restoring whose copy ended as `copied` says.
pub fn restore_finished(copied: Result<(), String>) -> (r: Result<(), OpError>)
    ensures
        match copied {
            Ok(_) => r == Ok::<(), OpError>(()),
            Err(detail) => r == Err::<(), OpError>(OpError::IoFailure(detail)),
        },
{
    match copied {
        Ok(_) => Ok(()),
        Err(detail) => Err(OpError::IoFailure(detail)),
    }
}

/// Plans the deletion of `target`, where the caller found `found` and was
/// given `confirmation`.
pub fn delete(target: &SanitizedPath, found: FileKind, confirmation: &str) -> (r: Result<
    Removal,
    OpError,
>)
    ensures
        match r {
            Ok(removal) => delete_plan(target@, found, confirmation@) == Ok::<
                Option<Seq<char>>,
                OpError,
            >(removal@),
            Err(e) => delete_plan(target@, found, confirmation@) == Err::<
                Option<Seq<char>>,
                OpError,
            >(e),
        },
{
    match found {
        FileKind::Missing => Err(OpError::NotFound),
        FileKind::Other => Err(OpError::NotAFile),
        FileKind::Regular => if confirms(confirmation) {
            Ok(Removal::Confirmed(target.as_str().to_owned()))
        } else {
            Ok(Removal::Declined)
        },
    }
}

/// The result of a deletion. Where it was declined nothing was to be removed
/// and `removed` does not matter; where it was confirmed, `removed` is how the
/// removal ended.
pub fn delete_finished(removal: &Removal, removed: Result<(), String>) -> (r: Result<
    DeleteOutcome,
    OpError,
>)
    ensures
        match (*removal, removed) {
            (Removal::Declined, _) => r == Ok::<DeleteOutcome, OpError>(DeleteOutcome::Cancelled),
            (Removal::Confirmed(_), Ok(_)) => r == Ok::<DeleteOutcome, OpError>(
                DeleteOutcome::Deleted,
            ),
            (Removal::Confirmed(_), Err(detail)) => r == Err::<DeleteOutcome, OpError>(
                OpError::IoFailure(detail),
            ),
        },
{
    match removal {
        Removal::Declined => Ok(DeleteOutcome::Cancelled),
        Removal::Confirmed(_) => match removed {
            Ok(_) => Ok(DeleteOutcome::Deleted),
            Err(detail) => Err(OpError::IoFailure(detail)),
        },
    }
}

/// `last_dot` is the place of a dot, and no dot follows it.
pub proof fn lemma_last_dot(name: Seq<char>)
    ensures
        -1 <= last_dot(name) < name.len(),
        last_dot(name) >= 0 ==> name[last_dot(name)] == '.',
        forall|j: int| last_dot(name) < j < name.len() ==> name[j] != '.',
    decreases name.len(),
{
    if name.len() > 0 && name.last() != '.' {
        let init = name.drop_last();
        lemma_last_dot(init);
        assert forall|j: int| last_dot(name) < j < name.len() implies name[j] != '.' by {
            if j < init.len() {
                assert(init[j] == name[j]);
            }
        }
    }
}

/// The backup path by the rule of extensions: the extension of the path is
/// replaced by `backup_extension`. This is the path followed by `.bak`.
pub proof fn lemma_backup_path_rule(path: Seq<char>)
    ensures
        backup_path_of(path) == stem_of(path) + seq!['.'] + backup_extension(path),
{
    lemma_tail_start(path);
    let file = segments(path).last();
    lemma_last_dot(file);
    match extension_of(path) {
        Some(ext) => {
            let dot = tail_start(path) + last_dot(file);
            assert(path[dot] == '.');
            assert(ext =~= path.skip(dot + 1));
            assert(path =~= path.take(dot) + seq!['.'] + ext);
            assert(backup_path_of(path) =~= stem_of(path) + seq!['.'] + (ext + backup_suffix()));
        },
        None => {
            assert(backup_path_of(path) =~= path + seq!['.'] + bak());
        },
    }
}

/// What is appended to a text without separators is appended to its last
/// segment.
proof fn lemma_last_segment_grows(path: Seq<char>, more: Seq<char>)
    requires
        !more.contains('/'),
    ensures
        segments(path).len() >= 1,
        segments(path + more).len() >= 1,
        segments(path + more).last() == segments(path).last() + more,
    decreases more.len(),
{
    lemma_segments_nonempty(path);
    if more.len() == 0 {
        assert(path + more =~= path);
        assert(segments(path).last() + more =~= segments(path).last());
    } else {
        let init = more.drop_last();
        let c = more.last();
        assert(c == more[more.len() - 1]);
        assert forall|j: int| 0 <= j < init.len() implies init[j] != '/' by {
            assert(init[j] == more[j]);
        }
        lemma_last_segment_grows(path, init);
        assert(path + more =~= (path + init).push(c));
        lemma_segments_push(path + init, c);
        assert((segments(path).last() + init).push(c) =~= segments(path).last() + more);
    }
}

/// Read back, the backup of a path that ends in a name has the extension
/// `bak`, and what stands in front of that extension is the path.
pub proof fn lemma_backup_path_reads_back(path: Seq<char>)
    requires
        segments(path).last().len() > 0,
    ensures
        extension_of(backup_path_of(path)) == Some(bak()),
        stem_of(backup_path_of(path)) == path,
{
    let file = segments(path).last();
    let backup = backup_path_of(path);
    assert(!backup_suffix().contains('/'));
    lemma_last_segment_grows(path, backup_suffix());
    let named = file + backup_suffix();
    assert(last_dot(named) == file.len()) by {
        reveal_with_fuel(last_dot, 4);
        assert(named.drop_last().drop_last().drop_last() =~= file.push('.'));
    }
    assert(named.skip(file.len() as int + 1) =~= bak());
    assert(backup.take(backup.len() - 3 - 1) =~= path);
}

/// A path and its backup are two paths, and two paths have two backups.
pub proof fn lemma_backup_path_is_apart(path: Seq<char>, other: Seq<char>)
    ensures
        backup_path_of(path) != path,
        backup_path_of(path) == backup_path_of(other) ==> path == other,
{
    assert(backup_path_of(path).len() == path.len() + 4);
    if backup_path_of(path) == backup_path_of(other) {
        assert(backup_path_of(other).len() == other.len() + 4);
        assert(path =~= backup_path_of(path).take(path.len() as int));
        assert(other =~= backup_path_of(other).take(other.len() as int));
    }
}

/// The backup of a path below the working directory lies in the same
/// directory as the path, and so below the working directory too.
pub proof fn lemma_backup_stays_inside(root: Seq<Seq<char>>, path: Seq<char>)
    requires
        is_inside(root, path),
        names(path).len() > root.len(),
    ensures
        is_inside(root, backup_path_of(path)),
        names(backup_path_of(path)) == names(path).drop_last().push(
            names(path).last() + backup_suffix(),
        ),
{
    let walk = names(path);
    let beside = walk.drop_last().push(walk.last() + backup_suffix());
    lemma_names_are_steps(path);
    assert(is_step(walk[walk.len() - 1]));
    assert forall|k: int| 0 <= k < beside.len() implies is_step(#[trigger] beside[k]) by {
        if k < walk.len() - 1 {
            assert(beside[k] == walk[k]);
        } else {
            let name = walk.last() + backup_suffix();
            assert(name[name.len() - 1] == 'k');
            assert forall|j: int| 0 <= j < name.len() implies name[j] != '/' by {
                if j < walk.last().len() {
                    assert(walk.last()[j] != '/');
                }
            }
        }
    }
    lemma_names_of_absolute_text(beside);
    assert(beside.drop_last() =~= walk.drop_last());
    assert(absolute_text(beside) =~= backup_path_of(path));
    assert(root.is_prefix_of(beside)) by {
        assert(root =~= walk.subrange(0, root.len() as int));
        assert(root =~= beside.subrange(0, root.len() as int));
    }
}

/// Whatever an operation on a path below the working directory asks of the
/// filesystem, it asks of paths inside the working directory.
pub proof fn lemma_plans_stay_inside(
    root: Seq<Seq<char>>,
    target: Seq<char>,
    found: FileKind,
    backup_exists: bool,
    confirmation: Seq<char>,
)
    requires
        is_inside(root, target),
        names(target).len() > root.len(),
    ensures
        backup_plan(target, found) matches Ok(route) ==> is_inside(root, route.from) && is_inside(
            root,
            route.to,
        ),
        restore_plan(target, backup_exists) matches Ok(route) ==> is_inside(root, route.from)
            && is_inside(root, route.to),
        delete_plan(target, found, confirmation) matches Ok(Some(path)) ==> is_inside(root, path),
{
    lemma_backup_stays_inside(root, target);
}

} // verus!
