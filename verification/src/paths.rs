//! File paths as the platform reads them, and the rules that keep a path inside a folder and away
//! from Git metadata.
use crate::pieces;
use crate::text;
use vstd::prelude::*;
use vstd::string::*;

verus! {

/// One component of a path.
pub enum PathPart {
    /// A drive or a network share.
    Prefix(String),
    /// The root of a file system.
    RootDir,
    /// The current folder.
    CurDir,
    /// The parent folder.
    ParentDir,
    /// A file or a folder.
    Normal(String),
}

/// One component of a path by its characters.
pub enum Part {
    Prefix(Seq<char>),
    RootDir,
    CurDir,
    ParentDir,
    Normal(Seq<char>),
}

/// A component by its characters.
pub open spec fn part_view(part: PathPart) -> Part {
    match part {
        PathPart::Prefix(p) => Part::Prefix(p@),
        PathPart::RootDir => Part::RootDir,
        PathPart::CurDir => Part::CurDir,
        PathPart::ParentDir => Part::ParentDir,
        PathPart::Normal(n) => Part::Normal(n@),
    }
}

/// Components by their characters.
pub open spec fn parts_view(parts: Seq<PathPart>) -> Seq<Part> {
    parts.map_values(|p: PathPart| part_view(p))
}

/// The paths that every platform reads alike: no backslash, no colon, no doubled separator at the
/// start.
pub open spec fn is_portable(path: Seq<char>) -> bool {
    &&& !path.contains('\\')
    &&& !path.contains(':')
    &&& !(path.len() >= 2 && path[0] == '/' && path[1] == '/')
}

/// The components that the pieces between separators stand for: an empty piece and `.` for none.
pub open spec fn parts_of_pieces(list: Seq<Seq<char>>) -> Seq<Part>
    decreases list.len(),
{
    if list.len() == 0 {
        Seq::empty()
    } else {
        let front = parts_of_pieces(list.drop_last());
        let last = list.last();
        if last.len() == 0 || last == "."@ {
            front
        } else if last == ".."@ {
            front.push(Part::ParentDir)
        } else {
            front.push(Part::Normal(last))
        }
    }
}

/// The components of a path that every platform reads alike. A `.` counts only at the start.
pub open spec fn portable_parts(path: Seq<char>) -> Seq<Part> {
    let list = pieces::split(path, '/');
    let lead = if path.len() > 0 && path[0] == '/' {
        seq![Part::RootDir]
    } else if list[0] == "."@ {
        seq![Part::CurDir]
    } else {
        Seq::<Part>::empty()
    };
    lead + parts_of_pieces(list)
}

/// Whether `piece` is a run of characters of `text`.
pub open spec fn is_within(piece: Seq<char>, text: Seq<char>) -> bool {
    exists|a: int, b: int| 0 <= a <= b <= text.len() && #[trigger] text.subrange(a, b) == piece
}

/// Whether the names among components are runs of characters of the path.
pub open spec fn names_within(parts: Seq<Part>, path: Seq<char>) -> bool {
    forall|i: int| 0 <= i < parts.len() ==> (#[trigger] parts[i] matches Part::Normal(name) ==> is_within(name, path))
}

/// Calls `Path::components`. Claimed of it, of any path: a component that is a name is a run of characters
/// of the path, since the components borrow from it. And further: a path without backslash and colon that does not start
/// with two separators is split at `/`; repeated separators, trailing separators and inner `.` are
/// left out; a leading `/` is the root and a leading `.` the current folder. How any other path is
/// split depends on the platform: on Windows even `/` is part of a name below a `\\?\` prefix.
#[verifier::external_body]
fn path_components(path: &str) -> (r: Vec<PathPart>)
    ensures
        names_within(parts_view(r@), path@),
        is_portable(path@) ==> parts_view(r@) == portable_parts(path@),
{
    std::path::Path::new(path).components().map(|component| match component {
        std::path::Component::Prefix(prefix) => PathPart::Prefix(prefix.as_os_str().to_string_lossy().into_owned()),
        std::path::Component::RootDir => PathPart::RootDir,
        std::path::Component::CurDir => PathPart::CurDir,
        std::path::Component::ParentDir => PathPart::ParentDir,
        std::path::Component::Normal(name) => PathPart::Normal(name.to_string_lossy().into_owned()),
    }).collect()
}

/// Calls `Path::is_absolute`. Claimed of it: a path without backslash and colon that does not start
/// with `/` is not absolute. Whether any other path is absolute depends on the platform.
#[verifier::external_body]
fn path_is_absolute(path: &str) -> (r: bool)
    ensures
        is_portable(path@) && (path@.len() == 0 || path@[0] != '/') ==> !r,
{
    std::path::Path::new(path).is_absolute()
}

/// `child` below `base` with a separator between, unless `base` ends in one or is empty.
pub open spec fn joined_path(base: Seq<char>, child: Seq<char>, separator: char) -> Seq<char> {
    if base.len() == 0 || base.last() == '/' {
        base + child
    } else {
        base.push(separator) + child
    }
}

/// Calls `Path::join`. Claimed of it: a relative path is put below `base` with the separator of the
/// platform between, when every platform reads both paths alike. What becomes of any other pair
/// depends on the platform.
#[verifier::external_body]
fn path_join(base: &str, child: &str) -> (r: String)
    ensures
        is_portable(base@) && is_portable(child@) && child@.len() > 0 && child@[0] != '/' ==> (r@
            == joined_path(base@, child@, '/') || r@ == joined_path(base@, child@, '\\')),
{
    std::path::Path::new(base).join(child).to_string_lossy().into_owned()
}

/// Whether `parent` is the path without its last component; a root and an empty path have none.
pub open spec fn is_parent(path: Seq<char>, parent: Option<Seq<char>>) -> bool {
    let parts = portable_parts(path);
    match parent {
        Some(p) => parts.len() > 0 && parts.last() != Part::RootDir && is_portable(p) && portable_parts(p)
            == parts.drop_last() && p.len() < path.len() && path.take(p.len() as int) == p,
        None => parts.len() == 0 || parts.last() == Part::RootDir,
    }
}

/// Calls `Path::parent`. Claimed of it: of a path that every platform reads alike it is the start of
/// the path whose components are all but the last, and there is none of a root and of an empty path.
/// What it is of any other path depends on the platform.
#[verifier::external_body]
fn path_parent(path: &str) -> (r: Option<String>)
    ensures
        is_portable(path@) ==> is_parent(path@, text::opt_view(r)),
{
    std::path::Path::new(path).parent().map(|parent| parent.to_string_lossy().into_owned())
}

// What the platform said.

/// Whether the platform was asked for the components of `path` and said `parts`.
pub closed spec fn told_parts(path: Seq<char>, parts: Seq<Part>) -> bool {
    exists|asked: &str, said: Vec<PathPart>| #[trigger]
        call_ensures(path_components, (asked,), said) && asked@ == path && parts_view(said@) == parts
}

/// Whether the platform was asked if `path` is absolute and said so or not.
pub closed spec fn told_absolute(path: Seq<char>, is_absolute: bool) -> bool {
    exists|asked: &str| #[trigger] call_ensures(path_is_absolute, (asked,), is_absolute) && asked@ == path
}

/// Whether the platform was asked to put `child` below `base` and said `path`.
pub closed spec fn told_joined(base: Seq<char>, child: Seq<char>, path: Seq<char>) -> bool {
    exists|at: &str, below: &str, said: String| #[trigger]
        call_ensures(path_join, (at, below), said) && at@ == base && below@ == child && said@ == path
}

/// Whether the platform was asked for the folder around `path` and said `parent`.
pub closed spec fn told_parent(path: Seq<char>, parent: Option<Seq<char>>) -> bool {
    exists|asked: &str, said: Option<String>| #[trigger]
        call_ensures(path_parent, (asked,), said) && asked@ == path && text::opt_view(said) == parent
}

/// Asks the platform for the components of a path.
pub fn ask_parts(path: &str) -> (r: Vec<PathPart>)
    ensures
        told_parts(path@, parts_view(r@)),
{
    let r: Vec<PathPart> = path_components(path);
    assert(call_ensures(path_components, (path,), r));
    r
}

/// Asks the platform whether a path is absolute.
pub fn ask_absolute(path: &str) -> (r: bool)
    ensures
        told_absolute(path@, r),
{
    let r: bool = path_is_absolute(path);
    assert(call_ensures(path_is_absolute, (path,), r));
    r
}

/// Asks the platform for the folder around a path.
pub fn ask_parent(path: &str) -> (r: Option<String>)
    ensures
        told_parent(path@, text::opt_view(r)),
{
    let r: Option<String> = path_parent(path);
    assert(call_ensures(path_parent, (path,), r));
    r
}

/// What holds of components on every platform: a name is a run of characters of the path. A path that every
/// platform reads alike has the components that it has everywhere.
pub proof fn law_told_parts(path: Seq<char>, parts: Seq<Part>)
    requires
        told_parts(path, parts),
    ensures
        names_within(parts, path),
        is_portable(path) ==> parts == portable_parts(path),
{
}

/// A path that every platform reads alike and that does not start with `/` is absolute on none.
pub proof fn law_told_absolute(path: Seq<char>, is_absolute: bool)
    requires
        told_absolute(path, is_absolute),
        is_portable(path),
        path.len() == 0 || path[0] != '/',
    ensures
        !is_absolute,
{
}

/// A relative path is put below another with a separator between, where every platform reads both alike.
pub proof fn law_told_joined(base: Seq<char>, child: Seq<char>, path: Seq<char>)
    requires
        told_joined(base, child, path),
        is_portable(base),
        is_portable(child),
        child.len() > 0,
        child[0] != '/',
    ensures
        path == joined_path(base, child, '/') || path == joined_path(base, child, '\\'),
{
}

/// The folder around a path that every platform reads alike is the path without its last component.
pub proof fn law_told_parent(path: Seq<char>, parent: Option<Seq<char>>)
    requires
        told_parent(path, parent),
        is_portable(path),
    ensures
        is_parent(path, parent),
{
}

/// The text of the path of `relative` below `root`.
pub fn path_string(root: &str, relative: &str) -> (r: String)
    ensures
        told_joined(root@, relative@, r@),
        is_portable(root@) && is_portable(relative@) && relative@.len() > 0 && relative@[0] != '/' ==> (
        r@ == joined_path(root@, relative@, '/') || r@ == joined_path(root@, relative@, '\\')),
{
    let r: String = path_join(root, relative);
    assert(call_ensures(path_join, (root, relative), r));
    r
}

// Absolute paths.

/// What is answered for a path that has to be absolute, once the platform has said whether it is.
pub open spec fn absolute_answer(path: Seq<char>, is_absolute: bool) -> Result<Seq<char>, Seq<char>> {
    if text::trimmed(path).len() == 0 {
        Err("Choose a local folder first"@)
    } else if !is_absolute {
        Err("Local Drive accepts only absolute paths"@)
    } else {
        Ok(text::trimmed(path))
    }
}

/// Answers for a path that has to be absolute, once the platform has said whether it is.
pub fn answer_absolute(path: &str, is_absolute: bool) -> (r: Result<String, String>)
    ensures
        text::result_view(r) == absolute_answer(path@, is_absolute),
{
    let trimmed: String = text::trim(path);
    if trimmed.as_str().is_empty() {
        return Err("Choose a local folder first".to_owned());
    }
    if !is_absolute {
        return Err("Local Drive accepts only absolute paths".to_owned());
    }
    Ok(trimmed)
}

/// The path without the white space around it, if it is absolute.
pub fn require_absolute(path: &str) -> (r: Result<String, String>)
    ensures
        exists|is_absolute: bool| #[trigger]
            told_absolute(text::trimmed(path@), is_absolute) && text::result_view(r) == absolute_answer(
                path@,
                is_absolute,
            ),
        is_portable(text::trimmed(path@)) && (text::trimmed(path@).len() == 0 || text::trimmed(path@)[0]
            != '/') ==> text::result_view(r) == absolute_answer(path@, false),
{
    let trimmed: String = text::trim(path);
    let is_absolute: bool = ask_absolute(trimmed.as_str());
    proof {
        let asked = trimmed@;
        if is_portable(asked) && (asked.len() == 0 || asked[0] != '/') {
            law_told_absolute(asked, is_absolute);
        }
    }
    answer_absolute(path, is_absolute)
}

// Git metadata.

/// The name of Git's own folder, in whatever case.
pub open spec fn is_git_name(name: Seq<char>) -> bool {
    text::same_ignoring_case(name, ".git"@)
}

/// Whether some component is Git's own folder.
pub open spec fn mentions_git(parts: Seq<Part>) -> bool {
    exists|i: int| 0 <= i < parts.len() && (#[trigger] parts[i] matches Part::Normal(name) && is_git_name(name))
}

/// Whether the name of Git's own folder occurs anywhere in a path, in whatever case.
pub open spec fn holds_git(path: Seq<char>) -> bool {
    exists|a: int| 0 <= a && a + 4 <= path.len() && is_git_name(#[trigger] path.subrange(a, a + 4))
}

/// However a platform splits a path, no component is Git's own folder where its name does not occur.
pub proof fn law_paths_without_git_are_not_protected(path: Seq<char>, parts: Seq<Part>)
    requires
        names_within(parts, path),
        !holds_git(path),
    ensures
        !mentions_git(parts),
{
    if mentions_git(parts) {
        let i = choose|i: int|
            0 <= i < parts.len() && (#[trigger] parts[i] matches Part::Normal(name) && is_git_name(name));
        let name = parts[i]->Normal_0;
        assert(parts[i] matches Part::Normal(n) && is_git_name(n));
        assert(is_within(name, path));
        let (a, b) = choose|a: int, b: int| 0 <= a <= b <= path.len() && #[trigger] path.subrange(a, b) == name;
        reveal_strlit(".git");
        assert(text::ascii_lowered(name).len() == name.len());
        assert(text::ascii_lowered(".git"@).len() == 4);
        assert(is_git_name(path.subrange(a, a + 4)));
    }
}

/// Whether some component is Git's own folder.
pub fn any_git_part(parts: &Vec<PathPart>) -> (r: bool)
    ensures
        r == mentions_git(parts_view(parts@)),
{
    let ghost view = parts_view(parts@);
    for i in 0..parts.len()
        invariant
            view == parts_view(parts@),
            forall|j: int|
                0 <= j < i ==> !(#[trigger] view[j] matches Part::Normal(name) && is_git_name(name)),
    {
        assert(view[i as int] == part_view(parts@[i as int]));
        if let PathPart::Normal(name) = &parts[i] {
            if text::eq_ignore_ascii_case(name.as_str(), ".git") {
                assert(view[i as int] matches Part::Normal(name) && is_git_name(name));
                return true;
            }
        }
    }
    false
}

/// Whether a path leads to or through Git's own folder.
pub fn contains_git_metadata(path: &str) -> (r: bool)
    ensures
        exists|parts: Seq<Part>| #[trigger] told_parts(path@, parts) && r == mentions_git(parts),
        is_portable(path@) ==> r == mentions_git(portable_parts(path@)),
        !holds_git(path@) ==> !r,
{
    let parts: Vec<PathPart> = ask_parts(path);
    proof {
        law_told_parts(path@, parts_view(parts@));
        if !holds_git(path@) {
            law_paths_without_git_are_not_protected(path@, parts_view(parts@));
        }
    }
    any_git_part(&parts)
}

/// Whether the last component is a file or a folder, not a root and not `..`.
pub open spec fn ends_in_name(parts: Seq<Part>) -> bool {
    parts.len() > 0 && parts.last() is Normal
}

/// Whether the last component is a file or a folder, not a root and not `..`.
pub fn last_is_name(parts: &Vec<PathPart>) -> (r: bool)
    ensures
        r == ends_in_name(parts_view(parts@)),
{
    let n: usize = parts.len();
    if n == 0 {
        return false;
    }
    assert(parts_view(parts@).last() == part_view(parts@[n - 1]));
    match &parts[n - 1] {
        PathPart::Normal(_) => true,
        _ => false,
    }
}

/// Whether two components are the same.
fn same_part(a: &PathPart, b: &PathPart) -> (r: bool)
    ensures
        r == (part_view(*a) == part_view(*b)),
{
    match (a, b) {
        (PathPart::Prefix(x), PathPart::Prefix(y)) => text::same_text(x.as_str(), y.as_str()),
        (PathPart::RootDir, PathPart::RootDir) => true,
        (PathPart::CurDir, PathPart::CurDir) => true,
        (PathPart::ParentDir, PathPart::ParentDir) => true,
        (PathPart::Normal(x), PathPart::Normal(y)) => text::same_text(x.as_str(), y.as_str()),
        _ => false,
    }
}

/// Whether one path is another or lies below it, component by component.
pub fn lies_inside(inner: &Vec<PathPart>, outer: &Vec<PathPart>) -> (r: bool)
    ensures
        r == parts_view(outer@).is_prefix_of(parts_view(inner@)),
{
    let ghost within = parts_view(inner@);
    let ghost around = parts_view(outer@);
    if outer.len() > inner.len() {
        return false;
    }
    for i in 0..outer.len()
        invariant
            within == parts_view(inner@),
            around == parts_view(outer@),
            outer@.len() <= inner@.len(),
            forall|j: int| 0 <= j < i ==> around[j] == within[j],
    {
        assert(around[i as int] == part_view(outer@[i as int]));
        assert(within[i as int] == part_view(inner@[i as int]));
        if !same_part(&outer[i], &inner[i]) {
            assert(within.subrange(0, around.len() as int)[i as int] == within[i as int]);
            return false;
        }
    }
    assert(around =~= within.subrange(0, around.len() as int));
    true
}

// Names of new folders.

/// What is answered for the name of a new folder that the platform reads as `parts`.
pub open spec fn folder_name_answer(name: Seq<char>, parts: Seq<Part>) -> Result<Seq<char>, Seq<char>> {
    let trimmed = text::trimmed(name);
    if trimmed.len() == 0 {
        Err("Enter a folder name"@)
    } else if trimmed.contains('/') || trimmed.contains('\\') || !(parts.len() == 1 && parts[0] is Normal) {
        Err("Enter one folder name, without a path"@)
    } else if is_git_name(trimmed) {
        Err("That folder name is protected"@)
    } else {
        Ok(trimmed)
    }
}

/// Answers for the name of a new folder that the platform reads as `parts`.
pub fn answer_folder_name(name: &str, parts: &Vec<PathPart>) -> (r: Result<String, String>)
    ensures
        text::result_view(r) == folder_name_answer(name@, parts_view(parts@)),
{
    let trimmed: String = text::trim(name);
    if trimmed.as_str().is_empty() {
        return Err("Enter a folder name".to_owned());
    }
    if text::contains_char(trimmed.as_str(), '/') || text::contains_char(trimmed.as_str(), '\\') {
        return Err("Enter one folder name, without a path".to_owned());
    }
    if parts.len() != 1 || !last_is_name(parts) {
        return Err("Enter one folder name, without a path".to_owned());
    }
    if text::eq_ignore_ascii_case(trimmed.as_str(), ".git") {
        return Err("That folder name is protected".to_owned());
    }
    Ok(trimmed)
}

/// The name of a new folder without the white space around it: one component, and not Git's own.
pub fn safe_new_folder_name(name: &str) -> (r: Result<String, String>)
    ensures
        exists|parts: Seq<Part>| #[trigger]
            told_parts(text::trimmed(name@), parts) && text::result_view(r) == folder_name_answer(name@, parts),
        is_portable(text::trimmed(name@)) ==> text::result_view(r) == folder_name_answer(
            name@,
            portable_parts(text::trimmed(name@)),
        ),
{
    let trimmed: String = text::trim(name);
    let parts: Vec<PathPart> = ask_parts(trimmed.as_str());
    proof {
        law_told_parts(trimmed@, parts_view(parts@));
    }
    answer_folder_name(name, &parts)
}

/// A name of characters that every platform takes for a name is accepted as the name of a new folder
/// exactly when it is none of `.`, `..` and `.git`.
pub proof fn law_plain_folder_name_is_accepted(name: Seq<char>)
    requires
        text::trimmed(name).len() > 0,
        !text::trimmed(name).contains('/'),
        !text::trimmed(name).contains('\\'),
        !text::trimmed(name).contains(':'),
    ensures
        is_portable(text::trimmed(name)),
        folder_name_answer(name, portable_parts(text::trimmed(name))) is Ok <==> text::trimmed(name) != "."@
            && text::trimmed(name) != ".."@ && !is_git_name(text::trimmed(name)),
{
    let t = text::trimmed(name);
    lemma_single_piece(t);
    assert(!t.contains('/'));
    assert(t[0] != '/') by {
        if t[0] == '/' {
            assert(t.contains('/'));
        }
    }
    let list = pieces::split(t, '/');
    assert(list =~= seq![t]);
    assert(list.drop_last() =~= Seq::empty());
    assert(parts_of_pieces(list.drop_last()) =~= Seq::empty());
    reveal_strlit(".");
    reveal_strlit("..");
    assert("."@.len() == 1 && ".."@.len() == 2);
    if t == "."@ {
        assert(portable_parts(t) =~= seq![Part::CurDir]);
    } else if t == ".."@ {
        assert(portable_parts(t) =~= seq![Part::ParentDir]);
    } else {
        assert(portable_parts(t) =~= seq![Part::Normal(t)]);
    }
}

proof fn lemma_single_piece(t: Seq<char>)
    requires
        !t.contains('/'),
    ensures
        pieces::split(t, '/') == seq![t],
{
    pieces::lemma_split_append(Seq::empty(), t, '/');
    assert(Seq::<char>::empty() + t =~= t);
    let empty = pieces::split(Seq::empty(), '/');
    assert(empty =~= seq![Seq::<char>::empty()]);
    assert(empty.drop_last().push(empty.last() + t) =~= seq![t]);
}

// What is protected and what is accepted.

/// Git's own folder is recognised by its four characters, each letter in either case, and by nothing else.
pub proof fn law_the_git_folder_is_known_in_any_case(name: Seq<char>)
    ensures
        is_git_name(name) <==> name.len() == 4 && name[0] == '.' && (name[1] == 'g' || name[1] == 'G') && (name[2] == 'i'
            || name[2] == 'I') && (name[3] == 't' || name[3] == 'T'),
{
    reveal_strlit(".git");
    let low = text::ascii_lowered(name);
    let git = text::ascii_lowered(".git"@);
    assert(git =~= seq!['.', 'g', 'i', 't']);
    assert(low.len() == name.len());
    if name.len() == 4 {
        assert(low[0] == text::ascii_lower(name[0]));
        assert(low[1] == text::ascii_lower(name[1]));
        assert(low[2] == text::ascii_lower(name[2]));
        assert(low[3] == text::ascii_lower(name[3]));
        lemma_lower_case(name[0]);
        lemma_lower_case(name[1]);
        lemma_lower_case(name[2]);
        lemma_lower_case(name[3]);
        if name[0] == '.' && (name[1] == 'g' || name[1] == 'G') && (name[2] == 'i' || name[2] == 'I') && (name[3] == 't'
            || name[3] == 'T') {
            assert(low =~= git);
        }
        if low == git {
            assert(low[0] == '.' && low[1] == 'g' && low[2] == 'i' && low[3] == 't');
        }
    }
}

proof fn lemma_lower_case(c: char)
    ensures
        text::ascii_lower(c) == '.' <==> c == '.',
        text::ascii_lower(c) == 'g' <==> c == 'g' || c == 'G',
        text::ascii_lower(c) == 'i' <==> c == 'i' || c == 'I',
        text::ascii_lower(c) == 't' <==> c == 't' || c == 'T',
{
    if 'A' <= c <= 'Z' {
        assert(text::ascii_lower(c) as int == c as int + 32);
    }
}

proof fn lemma_git_among_pieces(list: Seq<Seq<char>>)
    ensures
        mentions_git(parts_of_pieces(list)) <==> exists|i: int| 0 <= i < list.len() && is_git_name(#[trigger] list[i]),
    decreases list.len(),
{
    if list.len() > 0 {
        let front = list.drop_last();
        let last = list.last();
        lemma_git_among_pieces(front);
        law_the_git_folder_is_known_in_any_case(last);
        reveal_strlit(".");
        reveal_strlit("..");
        let had = parts_of_pieces(front);
        let parts = parts_of_pieces(list);
        if mentions_git(had) {
            let i = choose|i: int| 0 <= i < had.len() && (#[trigger] had[i] matches Part::Normal(name) && is_git_name(name));
            assert(parts[i] == had[i]);
            assert(parts[i] matches Part::Normal(name) && is_git_name(name));
        }
        if is_git_name(last) {
            assert(parts[parts.len() - 1] matches Part::Normal(name) && is_git_name(name));
            assert(list[list.len() - 1] == last);
        }
        if mentions_git(parts) {
            let i = choose|i: int|
                0 <= i < parts.len() && (#[trigger] parts[i] matches Part::Normal(name) && is_git_name(name));
            if i < had.len() {
                assert(had[i] == parts[i]);
                assert(mentions_git(had));
                let k = choose|k: int| 0 <= k < front.len() && is_git_name(#[trigger] front[k]);
                assert(list[k] == front[k]);
            } else {
                assert(is_git_name(list[list.len() - 1]));
            }
        }
        if exists|i: int| 0 <= i < list.len() && is_git_name(#[trigger] list[i]) {
            let i = choose|i: int| 0 <= i < list.len() && is_git_name(#[trigger] list[i]);
            if i < front.len() {
                assert(front[i] == list[i]);
                assert(mentions_git(had));
            }
        }
    }
}

/// A path of names between `/` is protected exactly when one of them is the name of Git's own folder.
pub proof fn law_a_path_is_protected_by_its_names(path: &str, list: Seq<Seq<char>>, r: bool)
    requires
        call_ensures(contains_git_metadata, (path,), r),
        is_portable(path@),
        list.len() > 0,
        path@ == pieces::joined(list, seq!['/']),
        forall|i: int| 0 <= i < list.len() ==> !(#[trigger] list[i]).contains('/'),
    ensures
        r <==> exists|i: int|
            0 <= i < list.len() && (#[trigger] list[i]).len() == 4 && list[i][0] == '.' && (list[i][1] == 'g'
                || list[i][1] == 'G') && (list[i][2] == 'i' || list[i][2] == 'I') && (list[i][3] == 't' || list[i][3]
                == 'T'),
{
    pieces::lemma_split_of_joined(list, '/');
    lemma_git_among_pieces(list);
    let inner = parts_of_pieces(list);
    let parts = portable_parts(path@);
    let lead = parts.len() - inner.len();
    if mentions_git(inner) {
        let i = choose|i: int| 0 <= i < inner.len() && (#[trigger] inner[i] matches Part::Normal(name) && is_git_name(name));
        assert(parts[i + lead] == inner[i]);
        assert(parts[i + lead] matches Part::Normal(name) && is_git_name(name));
    }
    if mentions_git(parts) {
        let i = choose|i: int| 0 <= i < parts.len() && (#[trigger] parts[i] matches Part::Normal(name) && is_git_name(name));
        assert(i >= lead);
        assert(inner[i - lead] == parts[i]);
        assert(inner[i - lead] matches Part::Normal(name) && is_git_name(name));
    }
    if exists|i: int| 0 <= i < list.len() && is_git_name(#[trigger] list[i]) {
        let i = choose|i: int| 0 <= i < list.len() && is_git_name(#[trigger] list[i]);
        law_the_git_folder_is_known_in_any_case(list[i]);
    }
    assert forall|i: int| 0 <= i < list.len() && (#[trigger] list[i]).len() == 4 && list[i][0] == '.' && (list[i][1] == 'g'
        || list[i][1] == 'G') && (list[i][2] == 'i' || list[i][2] == 'I') && (list[i][3] == 't' || list[i][3]
        == 'T') implies is_git_name(list[i]) by {
        law_the_git_folder_is_known_in_any_case(list[i]);
    }
}

/// An absolute path is taken exactly as it was typed between the white space around it; a blank one and one that is not
/// absolute are refused.
pub proof fn law_absolute_paths_are_taken_as_typed(
    path: &str,
    is_absolute: bool,
    lead: Seq<char>,
    core: Seq<char>,
    tail: Seq<char>,
    r: Result<String, String>,
    s: Result<String, String>,
)
    requires
        call_ensures(answer_absolute, (path, is_absolute), r),
        call_ensures(require_absolute, (path,), s),
    ensures
        text::is_blank(path@) ==> (r matches Err(e) && e@ == "Choose a local folder first"@) && (s matches Err(e) && e@
            == "Choose a local folder first"@),
        path@ == lead + core + tail && text::is_blank(lead) && text::is_tight(core) && text::is_blank(tail) ==> {
            &&& is_absolute ==> (r matches Ok(p) && p@ == core)
            &&& !is_absolute ==> (r matches Err(e) && e@ == "Local Drive accepts only absolute paths"@)
            &&& s is Ok ==> (s->Ok_0)@ == core
            &&& s is Err ==> (s->Err_0)@ == "Local Drive accepts only absolute paths"@
            &&& !core.contains('\\') && !core.contains(':') && core[0] != '/' ==> s is Err
        },
{
    if text::is_blank(path@) {
        text::lemma_trimmed_of_blank(path@);
    }
    if path@ == lead + core + tail && text::is_blank(lead) && text::is_tight(core) && text::is_blank(tail) {
        text::lemma_trimmed_of_padded(lead, core, tail);
    }
}

/// A new folder is called exactly what was typed between the white space around it. A name with a separator, `.` and `..`
/// are no names, Git's own is protected, and a blank one is refused.
pub proof fn law_new_folders_are_named_as_typed(
    name: &str,
    lead: Seq<char>,
    core: Seq<char>,
    tail: Seq<char>,
    r: Result<String, String>,
)
    requires
        call_ensures(safe_new_folder_name, (name,), r),
    ensures
        text::is_blank(name@) ==> (r matches Err(e) && e@ == "Enter a folder name"@),
        name@ == lead + core + tail && text::is_blank(lead) && text::is_tight(core) && text::is_blank(tail) ==> {
            &&& core.contains('/') || core.contains('\\') ==> (r matches Err(e) && e@
                == "Enter one folder name, without a path"@)
            &&& core == "."@ || core == ".."@ ==> (r matches Err(e) && e@ == "Enter one folder name, without a path"@)
            &&& !core.contains('/') && !core.contains('\\') && !core.contains(':') && core != "."@ && core != ".."@ ==> {
                &&& is_git_name(core) ==> (r matches Err(e) && e@ == "That folder name is protected"@)
                &&& !is_git_name(core) ==> (r matches Ok(n) && n@ == core)
            }
            &&& r matches Ok(n) ==> n@ == core
        },
{
    if text::is_blank(name@) {
        text::lemma_trimmed_of_blank(name@);
    }
    if name@ == lead + core + tail && text::is_blank(lead) && text::is_tight(core) && text::is_blank(tail) {
        text::lemma_trimmed_of_padded(lead, core, tail);
        reveal_strlit(".");
        reveal_strlit("..");
        if core == "."@ || core == ".."@ {
            assert forall|i: int| 0 <= i < core.len() implies core[i] == '.' by {}
            law_the_git_folder_is_known_in_any_case(core);
        }
        if !core.contains('/') && !core.contains('\\') && !core.contains(':') {
            law_plain_folder_name_is_accepted(name@);
            law_the_git_folder_is_known_in_any_case(core);
            if core != "."@ && core != ".."@ {
                lemma_single_piece(core);
                assert(core[0] != '/') by {
                    if core[0] == '/' {
                        assert(core.contains('/'));
                    }
                }
                assert(pieces::split(core, '/').drop_last() =~= Seq::empty());
                assert(parts_of_pieces(Seq::<Seq<char>>::empty()) =~= Seq::empty());
                assert(portable_parts(core) =~= seq![Part::Normal(core)]);
            }
        }
    }
}

/// The name of Git's own folder occurs in a path wherever it stands in it, and nowhere in a path without a dot.
pub proof fn law_the_git_folder_is_seen_anywhere(path: Seq<char>, a: Seq<char>, name: Seq<char>, b: Seq<char>)
    requires
        is_git_name(name),
    ensures
        path == a + name + b ==> holds_git(path),
        !path.contains('.') ==> !holds_git(path),
{
    law_the_git_folder_is_known_in_any_case(name);
    if path == a + name + b {
        let k = a.len() as int;
        assert(path.subrange(k, k + 4) =~= name);
        assert(is_git_name(path.subrange(k, k + 4)));
    }
    if holds_git(path) {
        let k = choose|k: int| 0 <= k && k + 4 <= path.len() && is_git_name(#[trigger] path.subrange(k, k + 4));
        law_the_git_folder_is_known_in_any_case(path.subrange(k, k + 4));
        assert(path.subrange(k, k + 4)[0] == path[k]);
        assert(path.contains(path[k]));
    }
}

} // verus!
