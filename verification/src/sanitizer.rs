//! Turns a filename that a user typed into a path that is the working
//! directory or lies below it, or says why it cannot.
//!
//! Nothing here touches the filesystem. Symbolic links are followed by the
//! caller: it resolves the directory that `PathSanitizer::parent_dir` names
//! and hands the result to `PathSanitizer::sanitize`, which holds it to the
//! working directory. The file itself is not resolved and need not exist.

use crate::error::PathError;
use crate::path::{
    absolute_text, any_parent_marker, append_copies, begins_with, has_parent_segment, is_absolute,
    is_anchored, is_inside, is_walk, keep_names, lemma_names_are_steps,
    lemma_names_of_absolute_text, lemma_parent_segment_places, lemma_parent_segment_takes_room,
    lemma_texts_push, lemma_walk_in_part, lemma_walks_add_up, names, parent_marker_at, render,
    segments, split, starts_at_root, texts,
};
use crate::text::{chars_of, is_whitespace, lemma_trimmed_span, string_of, trim, trimmed};
use vstd::prelude::*;

verus! {

/// The most characters a filename may have once the whitespace around it is
/// removed.
pub const MAX_NAME_CHARS: usize = 255;

/// The filename that `raw` stands for, or why it is refused. The checks are
/// made in this order, and the first that fails decides.
pub open spec fn checked_name(raw: Seq<char>) -> Result<Seq<char>, PathError> {
    let name = trimmed(raw);
    if name.len() == 0 {
        Err(PathError::Empty)
    } else if name.len() > MAX_NAME_CHARS {
        Err(PathError::TooLong)
    } else if name.contains('\0') {
        Err(PathError::InvalidCharacter)
    } else if is_absolute(name) {
        Err(PathError::AbsoluteNotAllowed)
    } else if has_parent_segment(name) {
        Err(PathError::TraversalNotAllowed)
    } else {
        Ok(name)
    }
}

/// The names of the directories that `name` walks through before it reaches
/// its last name.
pub open spec fn dir_part(name: Seq<char>) -> Seq<Seq<char>> {
    let walk = names(name);
    if walk.len() == 0 {
        walk
    } else {
        walk.drop_last()
    }
}

/// The last name of `name`, as a walk of one step; no step where `name` names
/// nothing.
pub open spec fn file_part(name: Seq<char>) -> Seq<Seq<char>> {
    let walk = names(name);
    if walk.len() == 0 {
        walk
    } else {
        seq![walk.last()]
    }
}

/// The directory, below `root`, that would hold the file that `name` names.
pub open spec fn parent_dir_of(root: Seq<Seq<char>>, name: Seq<char>) -> Seq<char> {
    absolute_text(root + dir_part(name))
}

/// Where `name` ends up once its directory has been resolved to
/// `canonical_parent`: at the last name of `name` in that directory, if that
/// is `root` or lies below it. A directory that was not resolved, or whose
/// text cannot be that of a resolved directory, is an invalid parent.
pub open spec fn confined(
    root: Seq<Seq<char>>,
    name: Seq<char>,
    canonical_parent: Option<Seq<char>>,
) -> Result<Seq<char>, PathError> {
    match canonical_parent {
        None => Err(PathError::InvalidParent),
        Some(dir) => {
            let walk = names(dir) + file_part(name);
            if !is_anchored(dir) {
                Err(PathError::InvalidParent)
            } else if !root.is_prefix_of(walk) {
                Err(PathError::Escapes)
            } else {
                Ok(absolute_text(walk))
            }
        },
    }
}

/// The path that `raw` is sanitized to below `root`, given what its directory
/// resolved to; or the reason it is refused.
pub open spec fn sanitized(
    root: Seq<Seq<char>>,
    raw: Seq<char>,
    canonical_parent: Option<Seq<char>>,
) -> Result<Seq<char>, PathError> {
    match checked_name(raw) {
        Err(e) => Err(e),
        Ok(name) => confined(root, name, canonical_parent),
    }
}

/// The text of a string that may be absent.
pub open spec fn text_of(s: Option<&str>) -> Option<Seq<char>> {
    match s {
        Some(s) => Some(s@),
        None => None,
    }
}

/// A path that `PathSanitizer::sanitize` let through.
#[derive(Debug, PartialEq, Eq)]
pub struct SanitizedPath {
    text: String,
}

impl View for SanitizedPath {
    type V = Seq<char>;

    /// The path as text.
    closed spec fn view(&self) -> Seq<char> {
        self.text@
    }
}

impl Clone for SanitizedPath {
    fn clone(&self) -> (copy: SanitizedPath)
        ensures
            copy == *self,
    {
        SanitizedPath { text: self.text.clone() }
    }
}

impl SanitizedPath {
    /// The path as text.
    pub fn as_str(&self) -> (text: &str)
        ensures
            text@ == self@,
    {
        self.text.as_str()
    }

    /// The path as text, owned.
    pub fn into_string(self) -> (text: String)
        ensures
            text@ == self@,
    {
        self.text
    }
}

/// The sandbox: a working directory, fixed once, that every sanitized path is
/// held to.
#[derive(Debug, PartialEq, Eq)]
pub struct PathSanitizer {
    root: Vec<Vec<char>>,
}

impl View for PathSanitizer {
    type V = Seq<Seq<char>>;

    /// The names that lead from the filesystem root to the working directory.
    closed spec fn view(&self) -> Seq<Seq<char>> {
        texts(self.root@)
    }
}

impl Clone for PathSanitizer {
    fn clone(&self) -> (copy: PathSanitizer)
        ensures
            copy@ == self@,
    {
        let mut root: Vec<Vec<char>> = Vec::new();
        append_copies(&mut root, &self.root, self.root.len());
        proof {
            use_type_invariant(self);
            assert(texts(root@) =~= texts(self.root@));
        }
        PathSanitizer { root }
    }
}

impl PathSanitizer {
    /// The names of the working directory are names indeed: none is empty,
    /// none holds a separator, none is a marker.
    #[verifier::type_invariant]
    spec fn names_are_steps(self) -> bool {
        is_walk(texts(self.root@))
    }

    /// A sandbox for the working directory `root`, which has to be an absolute
    /// path without parent markers; none for any other text.
    pub fn new(root: &str) -> (r: Option<PathSanitizer>)
        ensures
            match r {
                Some(sandbox) => is_anchored(root@) && sandbox@ == names(root@) && is_walk(
                    sandbox@,
                ),
                None => !is_anchored(root@),
            },
    {
        match anchored_names(root) {
            Some(walk) => {
                proof {
                    lemma_names_are_steps(root@);
                }
                Some(PathSanitizer { root: walk })
            },
            None => None,
        }
    }

    /// The working directory, in normal form.
    pub fn root(&self) -> (text: String)
        ensures
            text@ == absolute_text(self@),
            is_inside(self@, text@),
    {
        proof {
            use_type_invariant(self);
            lemma_names_of_absolute_text(self@);
        }
        string_of(&render(&self.root))
    }

    /// The directory that the caller has to resolve before `sanitize` can
    /// decide on `raw`; none where `raw` is refused whatever that directory
    /// resolves to.
    pub fn parent_dir(&self, raw: &str) -> (r: Option<String>)
        ensures
            match checked_name(raw@) {
                Ok(name) => r is Some && r->Some_0@ == parent_dir_of(self@, name),
                Err(_) => r is None,
            },
            r matches Some(dir) ==> is_inside(self@, dir@),
    {
        proof {
            use_type_invariant(self);
            if checked_name(raw@) is Ok {
                lemma_parent_dir_is_inside(self@, checked_name(raw@)->Ok_0);
            }
        }
        match checked_segments(raw) {
            Err(_) => None,
            Ok(parts) => {
                let walk = keep_names(parts);
                let steps = if walk.len() == 0 {
                    0
                } else {
                    walk.len() - 1
                };
                let mut dir: Vec<Vec<char>> = Vec::new();
                append_copies(&mut dir, &self.root, self.root.len());
                append_copies(&mut dir, &walk, steps);
                proof {
                    let name = checked_name(raw@)->Ok_0;
                    assert(texts(walk@).take(steps as int) =~= dir_part(name));
                    assert(texts(dir@) =~= self@ + dir_part(name));
                }
                Some(string_of(&render(&dir)))
            },
        }
    }

    /// Sanitizes `raw`. `canonical_parent` is what the directory named by
    /// `parent_dir(raw)` resolved to, symbolic links followed, or none where
    /// it could not be resolved.
    ///
    /// The result is `sanitized`. Three things that follow from it are said
    /// here too: a path that is let through is inside the working directory;
    /// a filename with a parent marker among its segments is never let
    /// through, and is refused as a traversal where no earlier check refuses
    /// it; an absolute filename is refused as absolute where no earlier check
    /// refuses it.
    pub fn sanitize(&self, raw: &str, canonical_parent: Option<&str>) -> (r: Result<
        SanitizedPath,
        PathError,
    >)
        ensures
            match r {
                Ok(path) => sanitized(self@, raw@, text_of(canonical_parent)) == Ok::<
                    Seq<char>,
                    PathError,
                >(path@),
                Err(e) => sanitized(self@, raw@, text_of(canonical_parent)) == Err::<
                    Seq<char>,
                    PathError,
                >(e),
            },
            r matches Ok(path) ==> is_inside(self@, path@),
            has_parent_segment(raw@) ==> r is Err,
            has_parent_segment(raw@) && trimmed(raw@).len() <= MAX_NAME_CHARS && !trimmed(
                raw@,
            ).contains('\0') && !is_absolute(trimmed(raw@)) ==> r == Err::<SanitizedPath, PathError>(
                PathError::TraversalNotAllowed,
            ),
            is_absolute(raw@) && trimmed(raw@).len() <= MAX_NAME_CHARS && !trimmed(raw@).contains(
                '\0',
            ) ==> r == Err::<SanitizedPath, PathError>(PathError::AbsoluteNotAllowed),
    {
        proof {
            let resolved = text_of(canonical_parent);
            lemma_sanitized_is_inside(self@, raw@, resolved);
            if has_parent_segment(raw@) {
                lemma_parent_segment_never_passes(self@, raw@, resolved);
                if trimmed(raw@).len() <= MAX_NAME_CHARS && !trimmed(raw@).contains('\0')
                    && !is_absolute(trimmed(raw@)) {
                    lemma_traversal_is_refused(self@, raw@, resolved);
                }
            }
            if is_absolute(raw@) && trimmed(raw@).len() <= MAX_NAME_CHARS && !trimmed(
                raw@,
            ).contains('\0') {
                lemma_absolute_is_refused(self@, raw@, resolved);
            }
        }
        let parts = match checked_segments(raw) {
            Err(e) => {
                return Err(e);
            },
            Ok(parts) => parts,
        };
        let dir = match canonical_parent {
            None => {
                return Err(PathError::InvalidParent);
            },
            Some(dir) => dir,
        };
        let mut walk = match anchored_names(dir) {
            None => {
                return Err(PathError::InvalidParent);
            },
            Some(walk) => walk,
        };
        let mut rel = keep_names(parts);
        let ghost name = checked_name(raw@)->Ok_0;
        let ghost base = texts(walk@);
        match rel.pop() {
            Some(file) => {
                proof {
                    lemma_texts_push(walk@, file);
                    assert(file@ == names(name).last());
                    assert(base.push(file@) =~= base + file_part(name));
                }
                walk.push(file);
            },
            None => {
                assert(base =~= base + file_part(name));
            },
        }
        if !begins_with(&walk, &self.root) {
            return Err(PathError::Escapes);
        }
        Ok(SanitizedPath { text: string_of(&render(&walk)) })
    }
}

/// Decides whether `s` holds a NUL character.
fn holds_nul(s: &Vec<char>) -> (found: bool)
    ensures
        found == s@.contains('\0'),
{
    let mut i: usize = 0;
    while i < s.len()
        invariant
            i <= s.len(),
            forall|k: int| 0 <= k < i ==> s@[k] != '\0',
        decreases s.len() - i,
    {
        if s[i] == '\0' {
            return true;
        }
        i += 1;
    }
    false
}

/// The segments of the filename that `raw` stands for, or why it is refused.
fn checked_segments(raw: &str) -> (r: Result<Vec<Vec<char>>, PathError>)
    ensures
        match r {
            Ok(parts) => checked_name(raw@) is Ok && texts(parts@) == segments(
                checked_name(raw@)->Ok_0,
            ),
            Err(e) => checked_name(raw@) == Err::<Seq<char>, PathError>(e),
        },
{
    let name = trim(&chars_of(raw));
    if name.len() == 0 {
        return Err(PathError::Empty);
    }
    if name.len() > MAX_NAME_CHARS {
        return Err(PathError::TooLong);
    }
    if holds_nul(&name) {
        return Err(PathError::InvalidCharacter);
    }
    if starts_at_root(&name) {
        return Err(PathError::AbsoluteNotAllowed);
    }
    let parts = split(&name);
    if any_parent_marker(&parts) {
        return Err(PathError::TraversalNotAllowed);
    }
    Ok(parts)
}

/// The names of a directory text that is absolute and free of parent markers;
/// nothing for any other text.
fn anchored_names(dir: &str) -> (r: Option<Vec<Vec<char>>>)
    ensures
        match r {
            Some(walk) => is_anchored(dir@) && texts(walk@) == names(dir@),
            None => !is_anchored(dir@),
        },
{
    let chars = chars_of(dir);
    if !starts_at_root(&chars) {
        return None;
    }
    let parts = split(&chars);
    if any_parent_marker(&parts) {
        return None;
    }
    Some(keep_names(parts))
}

/// Trimming leaves a parent marker among the segments where there was one:
/// neither a dot nor a separator is whitespace.
proof fn lemma_trimming_keeps_parent_segment(raw: Seq<char>)
    requires
        has_parent_segment(raw),
    ensures
        has_parent_segment(trimmed(raw)),
{
    lemma_parent_segment_places(raw);
    let i = choose|i: int| parent_marker_at(raw, i);
    let (from, to) = lemma_trimmed_span(raw);
    assert(!is_whitespace('.') && !is_whitespace('/'));
    assert(from <= i && i + 2 <= to) by {
        assert(!is_whitespace(raw[i]) && !is_whitespace(raw[i + 1]));
    }
    assert(parent_marker_at(trimmed(raw), i - from)) by {
        if i > 0 {
            assert(!is_whitespace(raw[i - 1]));
        }
        if i + 2 < raw.len() {
            assert(!is_whitespace(raw[i + 2]));
        }
    }
    lemma_parent_segment_places(trimmed(raw));
}

/// Trimming leaves a text absolute that was absolute: a separator is not
/// whitespace.
proof fn lemma_trimming_keeps_root_marker(raw: Seq<char>)
    requires
        is_absolute(raw),
    ensures
        is_absolute(trimmed(raw)),
{
    let (from, to) = lemma_trimmed_span(raw);
    assert(!is_whitespace('/'));
    assert(from == 0 && to > 0) by {
        assert(!is_whitespace(raw[0]));
    }
}

/// A filename with a parent marker among its segments, wherever it stands,
/// is never let through: not for any working directory, and not for anything
/// its directory may resolve to.
pub proof fn lemma_parent_segment_never_passes(
    root: Seq<Seq<char>>,
    raw: Seq<char>,
    canonical_parent: Option<Seq<char>>,
)
    requires
        has_parent_segment(raw),
    ensures
        sanitized(root, raw, canonical_parent) is Err,
{
    lemma_trimming_keeps_parent_segment(raw);
}

/// A filename with a parent marker among its segments is refused as a
/// traversal, unless it is refused before that for its length, for a NUL
/// character or for being absolute.
pub proof fn lemma_traversal_is_refused(
    root: Seq<Seq<char>>,
    raw: Seq<char>,
    canonical_parent: Option<Seq<char>>,
)
    requires
        has_parent_segment(raw),
        trimmed(raw).len() <= MAX_NAME_CHARS,
        !trimmed(raw).contains('\0'),
        !is_absolute(trimmed(raw)),
    ensures
        sanitized(root, raw, canonical_parent) == Err::<Seq<char>, PathError>(
            PathError::TraversalNotAllowed,
        ),
{
    lemma_trimming_keeps_parent_segment(raw);
    lemma_parent_segment_takes_room(trimmed(raw));
}

/// An absolute filename is refused as absolute, unless it is refused before
/// that for its length or for a NUL character.
pub proof fn lemma_absolute_is_refused(
    root: Seq<Seq<char>>,
    raw: Seq<char>,
    canonical_parent: Option<Seq<char>>,
)
    requires
        is_absolute(raw),
        trimmed(raw).len() <= MAX_NAME_CHARS,
        !trimmed(raw).contains('\0'),
    ensures
        sanitized(root, raw, canonical_parent) == Err::<Seq<char>, PathError>(
            PathError::AbsoluteNotAllowed,
        ),
{
    lemma_trimming_keeps_root_marker(raw);
}

/// Every path that is let through is the working directory or lies below it,
/// and is written in normal form.
pub proof fn lemma_sanitized_is_inside(
    root: Seq<Seq<char>>,
    raw: Seq<char>,
    canonical_parent: Option<Seq<char>>,
)
    ensures
        sanitized(root, raw, canonical_parent) matches Ok(path) ==> is_inside(root, path),
{
    if sanitized(root, raw, canonical_parent) is Ok {
        let name = checked_name(raw)->Ok_0;
        let dir = canonical_parent->Some_0;
        lemma_names_are_steps(dir);
        lemma_file_part_is_walk(name);
        lemma_walks_add_up(names(dir), file_part(name));
        lemma_names_of_absolute_text(names(dir) + file_part(name));
    }
}

/// The last name of a filename without parent markers can be a step.
proof fn lemma_file_part_is_walk(name: Seq<char>)
    requires
        !has_parent_segment(name),
    ensures
        is_walk(file_part(name)),
        is_walk(dir_part(name)),
        dir_part(name) + file_part(name) == names(name),
{
    let walk = names(name);
    lemma_names_are_steps(name);
    if walk.len() > 0 {
        lemma_walk_in_part(walk, walk.len() - 1, walk.len() as int);
        lemma_walk_in_part(walk, 0, walk.len() - 1);
        assert(file_part(name) =~= walk.subrange(walk.len() - 1, walk.len() as int));
    }
    assert(dir_part(name) + file_part(name) =~= walk);
}

/// The directory that would hold the file lies, read letter by letter, inside
/// the working directory.
pub proof fn lemma_parent_dir_is_inside(root: Seq<Seq<char>>, name: Seq<char>)
    requires
        is_walk(root),
        !has_parent_segment(name),
    ensures
        is_inside(root, parent_dir_of(root, name)),
{
    lemma_file_part_is_walk(name);
    lemma_walks_add_up(root, dir_part(name));
    lemma_names_of_absolute_text(root + dir_part(name));
    assert(root.is_prefix_of(root + dir_part(name)));
}

/// Where no symbolic link is in the way, so that the directory to resolve is
/// its own canonical form, every filename that passes the checks is let
/// through, and the path is the working directory followed by the names of
/// the filename.
pub proof fn lemma_sanitized_without_links(root: Seq<Seq<char>>, raw: Seq<char>)
    requires
        is_walk(root),
        checked_name(raw) is Ok,
    ensures
        sanitized(root, raw, Some(parent_dir_of(root, checked_name(raw)->Ok_0))) == Ok::<
            Seq<char>,
            PathError,
        >(absolute_text(root + names(checked_name(raw)->Ok_0))),
{
    let name = checked_name(raw)->Ok_0;
    let dirs = root + dir_part(name);
    lemma_file_part_is_walk(name);
    lemma_walks_add_up(root, dir_part(name));
    lemma_names_of_absolute_text(dirs);
    assert(dirs + file_part(name) =~= root + names(name));
    assert(root.is_prefix_of(root + names(name)));
}

} // verus!
