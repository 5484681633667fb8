//! The items that a guided merge may name, and the keys by which two folders are matched.
use crate::paths;
use crate::paths::PathPart;
use crate::pieces;
use crate::text;
use crate::text_map::TextMap;
use vstd::prelude::*;
use vstd::string::*;

verus! {

// Items that a merge may name.

/// A path that stays inside the compared folders.
pub struct RelativePath {
    /// The path as it was given, without the white space around it.
    pub text: String,
    /// Its components.
    pub names: Vec<String>,
}

/// Whether every component is a name and none is Git's own folder.
pub open spec fn stays_inside(parts: Seq<paths::Part>) -> bool {
    forall|i: int|
        0 <= i < parts.len() ==> (#[trigger] parts[i] is Normal && !paths::is_git_name(parts[i]->Normal_0))
}

/// The names of components that are all names.
pub open spec fn names_of(parts: Seq<paths::Part>) -> Seq<Seq<char>> {
    parts.map_values(|p: paths::Part| p->Normal_0)
}

/// What is answered for a merge item that the platform reads as `parts`.
pub open spec fn relative_answer(path: Seq<char>, is_absolute: bool, parts: Seq<paths::Part>) -> Result<
    (Seq<char>, Seq<Seq<char>>),
    Seq<char>,
> {
    let value = text::trimmed(path);
    if value.len() == 0 || is_absolute {
        Err("Choose one item inside the compared folder"@)
    } else if !stays_inside(parts) {
        Err("The merge item must stay inside the selected folders and cannot include .git metadata"@)
    } else {
        Ok((value, names_of(parts)))
    }
}

/// A checked merge item by its characters.
pub open spec fn relative_view(r: Result<RelativePath, String>) -> Result<
    (Seq<char>, Seq<Seq<char>>),
    Seq<char>,
> {
    match r {
        Ok(p) => Ok((p.text@, text::texts_view(p.names@))),
        Err(e) => Err(e@),
    }
}

/// Answers for a merge item that the platform reads as `parts`.
pub fn answer_relative(path: &str, is_absolute: bool, parts: &Vec<PathPart>) -> (r: Result<
    RelativePath,
    String,
>)
    ensures
        relative_view(r) == relative_answer(path@, is_absolute, paths::parts_view(parts@)),
{
    let value: String = text::trim(path);
    if value.as_str().is_empty() || is_absolute {
        return Err("Choose one item inside the compared folder".to_owned());
    }
    let ghost view = paths::parts_view(parts@);
    let mut names: Vec<String> = Vec::new();
    for i in 0..parts.len()
        invariant
            value@ == text::trimmed(path@),
            value@.len() > 0,
            !is_absolute,
            view == paths::parts_view(parts@),
            forall|j: int|
                0 <= j < i ==> (#[trigger] view[j] is Normal && !paths::is_git_name(view[j]->Normal_0)),
            text::texts_view(names@) == names_of(view.take(i as int)),
    {
        assert(view[i as int] == paths::part_view(parts@[i as int]));
        match &parts[i] {
            PathPart::Normal(name) => {
                if text::eq_ignore_ascii_case(name.as_str(), ".git") {
                    assert(!(view[i as int] is Normal && !paths::is_git_name(view[i as int]->Normal_0)));
                    return Err(
                        "The merge item must stay inside the selected folders and cannot include .git metadata".to_owned(),
                    );
                }
                let ghost had = names@;
                names.push(name.clone());
                proof {
                    assert(text::texts_view(names@) =~= text::texts_view(had).push(name@));
                    assert(names_of(view.take(i + 1)) =~= names_of(view.take(i as int)).push(name@));
                }
            },
            _ => {
                assert(!(view[i as int] is Normal));
                return Err(
                    "The merge item must stay inside the selected folders and cannot include .git metadata".to_owned(),
                );
            },
        }
    }
    assert(view.take(view.len() as int) =~= view);
    Ok(RelativePath { text: value, names })
}

/// Checks that a merge item stays inside the compared folders and keeps away from Git metadata.
pub fn safe_relative_path(relative_path: &str) -> (r: Result<RelativePath, String>)
    ensures
        ({
            let value = text::trimmed(relative_path@);
            &&& exists|is_absolute: bool, parts: Seq<paths::Part>|
                #![trigger paths::told_absolute(value, is_absolute), paths::told_parts(value, parts)]
                {
                    &&& paths::told_absolute(value, is_absolute)
                    &&& paths::told_parts(value, parts)
                    &&& relative_view(r) == relative_answer(relative_path@, is_absolute, parts)
                }
            &&& paths::is_portable(value) && (value.len() == 0 || value[0] != '/') ==> relative_view(r)
                == relative_answer(relative_path@, false, paths::portable_parts(value))
            &&& paths::is_portable(value) ==> (relative_view(r) is Ok ==> relative_view(r)
                == relative_answer(relative_path@, false, paths::portable_parts(value)))
        }),
{
    let value: String = text::trim(relative_path);
    let is_absolute: bool = paths::ask_absolute(value.as_str());
    let parts: Vec<PathPart> = paths::ask_parts(value.as_str());
    proof {
        let asked = value@;
        paths::law_told_parts(asked, paths::parts_view(parts@));
        if paths::is_portable(asked) && (asked.len() == 0 || asked[0] != '/') {
            paths::law_told_absolute(asked, is_absolute);
        }
    }
    answer_relative(relative_path, is_absolute, &parts)
}

proof fn lemma_parts_of_pieces_inside(list: Seq<Seq<char>>, i: int)
    requires
        stays_inside(paths::parts_of_pieces(list)),
        0 <= i < list.len(),
    ensures
        list[i] != ".."@,
        !paths::is_git_name(list[i]),
    decreases list.len(),
{
    let front = list.drop_last();
    let last = list.last();
    let parts = paths::parts_of_pieces(list);
    let before = paths::parts_of_pieces(front);
    reveal_strlit(".");
    reveal_strlit("..");
    reveal_strlit(".git");
    assert("."@.len() == 1 && ".."@.len() == 2 && ".git"@.len() == 4);
    if i == list.len() - 1 {
        if last.len() == 0 || last == "."@ {
            assert(text::ascii_lowered(last).len() == last.len());
            assert(text::ascii_lowered(".git"@).len() == 4);
        } else {
            let k = parts.len() - 1;
            assert(parts[k] is Normal);
        }
    } else {
        assert(front[i] == list[i]);
        assert forall|j: int| 0 <= j < before.len() implies (#[trigger] before[j] is Normal
            && !paths::is_git_name(before[j]->Normal_0)) by {
            assert(before[j] == parts[j]);
        }
        lemma_parts_of_pieces_inside(front, i);
    }
}

/// An accepted merge item neither climbs out of its folder nor enters Git metadata: it does not start
/// at a root, and no piece between its separators is `..` or `.git`.
pub proof fn law_accepted_item_stays_inside(path: Seq<char>, i: int)
    requires
        paths::is_portable(text::trimmed(path)),
        relative_answer(path, false, paths::portable_parts(text::trimmed(path))) is Ok,
        0 <= i < pieces::split(text::trimmed(path), '/').len(),
    ensures
        text::trimmed(path)[0] != '/',
        pieces::split(text::trimmed(path), '/')[i] != ".."@,
        !paths::is_git_name(pieces::split(text::trimmed(path), '/')[i]),
{
    let value = text::trimmed(path);
    let list = pieces::split(value, '/');
    let parts = paths::portable_parts(value);
    let body = paths::parts_of_pieces(list);
    if value[0] == '/' {
        assert(parts[0] is RootDir);
        assert(parts[0] is Normal);
    }
    let lead = parts.len() - body.len();
    assert forall|j: int| 0 <= j < body.len() implies (#[trigger] body[j] is Normal && !paths::is_git_name(
        body[j]->Normal_0,
    )) by {
        assert(body[j] == parts[lead + j]);
    }
    lemma_parts_of_pieces_inside(list, i);
}

/// However the platform reads a merge item, an accepted one is not absolute and consists of names alone, none of
/// them that of Git's own folder.
pub proof fn law_accepted_item_has_only_names(path: Seq<char>, is_absolute: bool, parts: Seq<paths::Part>, i: int)
    requires
        relative_answer(path, is_absolute, parts) is Ok,
        0 <= i < parts.len(),
    ensures
        !is_absolute,
        parts[i] is Normal,
        !paths::is_git_name(parts[i]->Normal_0),
        (relative_answer(path, is_absolute, parts)->Ok_0).1[i] == parts[i]->Normal_0,
{
}

// Keys by which the two sides are matched.

/// The key of a path: separators are `/`, and case does not count on Windows.
pub open spec fn key_of(relative: Seq<char>, windows: bool) -> Seq<char> {
    let value = text::replaced(relative, '\\', '/');
    if windows {
        text::lowercased(value)
    } else {
        value
    }
}

/// The key by which an item of one side finds its counterpart on the other.
pub fn comparison_key(relative: &str, windows: bool) -> (r: String)
    ensures
        r@ == key_of(relative@, windows),
{
    let value: String = text::replace_char(relative, '\\', '/');
    if windows {
        text::to_lowercase(value.as_str())
    } else {
        value
    }
}

/// The value of a line `path = value`.
pub open spec fn path_setting(line: Seq<char>) -> Option<Seq<char>> {
    match pieces::split_once_at(line, '=') {
        Some((name, value)) => if text::trimmed(name) == "path"@ {
            Some(text::trimmed(value))
        } else {
            None
        },
        None => None,
    }
}

/// The values of the lines `path = value`, in order.
pub open spec fn path_settings(lines: Seq<Seq<char>>) -> Seq<Seq<char>>
    decreases lines.len(),
{
    if lines.len() == 0 {
        Seq::empty()
    } else {
        match path_setting(lines.last()) {
            Some(value) => path_settings(lines.drop_last()).push(value),
            None => path_settings(lines.drop_last()),
        }
    }
}

/// The paths that a `.gitmodules` file declares, in order.
pub fn declared_submodules(contents: &str) -> (r: Vec<String>)
    ensures
        text::texts_view(r@) == path_settings(pieces::split(contents@, '\n')),
{
    let lines: Vec<String> = pieces::split_at_char(contents, '\n');
    let ghost view = text::texts_view(lines@);
    let mut r: Vec<String> = Vec::new();
    assert(text::texts_view(r@) =~= Seq::empty());
    for i in 0..lines.len()
        invariant
            view == text::texts_view(lines@),
            text::texts_view(r@) == path_settings(view.take(i as int)),
    {
        proof {
            assert(view[i as int] == lines@[i as int]@);
            assert(view.take(i + 1).drop_last() =~= view.take(i as int));
        }
        if let Some((name, value)) = pieces::split_once(lines[i].as_str(), '=') {
            let name: String = text::trim(name.as_str());
            if text::same_text(name.as_str(), "path") {
                let ghost had = r@;
                let value: String = text::trim(value.as_str());
                r.push(value);
                assert(text::texts_view(r@) =~= text::texts_view(had).push(value@));
            }
        }
    }
    assert(view.take(view.len() as int) =~= view);
    r
}

/// Whether components are all names.
pub open spec fn all_names(parts: Seq<paths::Part>) -> bool {
    forall|i: int| 0 <= i < parts.len() ==> #[trigger] parts[i] is Normal
}

/// Whether components are all names.
pub fn are_names(parts: &Vec<PathPart>) -> (r: bool)
    ensures
        r == all_names(paths::parts_view(parts@)),
{
    let ghost view = paths::parts_view(parts@);
    for i in 0..parts.len()
        invariant
            view == paths::parts_view(parts@),
            forall|j: int| 0 <= j < i ==> #[trigger] view[j] is Normal,
    {
        assert(view[i as int] == paths::part_view(parts@[i as int]));
        match &parts[i] {
            PathPart::Normal(_) => {},
            _ => {
                return false;
            },
        }
    }
    true
}

/// Whether the platform was asked about a declared submodule path and said that it lies inside the folder: that
/// it is not absolute and made of names alone.
pub open spec fn told_inner(path: Seq<char>, inner: bool) -> bool {
    exists|is_absolute: bool, parts: Seq<paths::Part>|
        #![trigger paths::told_absolute(path, is_absolute), paths::told_parts(path, parts)]
        {
            &&& paths::told_absolute(path, is_absolute)
            &&& paths::told_parts(path, parts)
            &&& inner == (!is_absolute && all_names(parts))
        }
}

fn is_inner_path(path: &str) -> (r: bool)
    ensures
        told_inner(path@, r),
        paths::is_portable(path@) ==> r == is_plain_inner(path@),
{
    let parts: Vec<PathPart> = paths::ask_parts(path);
    let absolute: bool = paths::ask_absolute(path);
    let names: bool = are_names(&parts);
    proof {
        paths::law_told_parts(path@, paths::parts_view(parts@));
        if paths::is_portable(path@) {
            if path@.len() > 0 && path@[0] == '/' {
                assert(paths::portable_parts(path@)[0] is RootDir);
            } else {
                paths::law_told_absolute(path@, absolute);
            }
        }
    }
    !absolute && names
}

/// Whether every platform takes a declared submodule path for one inside the folder.
pub open spec fn is_plain_inner(path: Seq<char>) -> bool {
    paths::is_portable(path) && !(path.len() > 0 && path[0] == '/') && all_names(paths::portable_parts(path))
}

/// Whether the platform was asked about each declared submodule path and said which lie inside the folder.
pub open spec fn told_which_inner(declared: Seq<Seq<char>>, inner: Seq<bool>) -> bool {
    &&& inner.len() == declared.len()
    &&& forall|i: int| 0 <= i < declared.len() ==> told_inner(#[trigger] declared[i], inner[i])
}

/// Keys with those of the declared submodule paths that lie inside the folder.
pub open spec fn with_declared(
    keys: Map<Seq<char>, ()>,
    declared: Seq<Seq<char>>,
    inner: Seq<bool>,
    windows: bool,
) -> Map<Seq<char>, ()>
    decreases declared.len(),
{
    if declared.len() == 0 {
        keys
    } else {
        let rest = with_declared(keys, declared.drop_last(), inner.drop_last(), windows);
        if inner.last() {
            rest.insert(key_of(declared.last(), windows), ())
        } else {
            rest
        }
    }
}

/// Adds the keys of the submodules that a `.gitmodules` file declares. A path that leaves the folder
/// declares none; on a path that every platform reads alike they agree which do.
pub fn configured_submodule_keys(contents: &str, windows: bool, keys: &mut TextMap<()>)
    requires
        old(keys).wf(),
    ensures
        final(keys).wf(),
        ({
            let declared = path_settings(pieces::split(contents@, '\n'));
            exists|inner: Seq<bool>| #[trigger]
                told_which_inner(declared, inner) && final(keys)@ == with_declared(
                    old(keys)@,
                    declared,
                    inner,
                    windows,
                ) && forall|i: int|
                    0 <= i < declared.len() && paths::is_portable(#[trigger] declared[i]) ==> inner[i]
                        == is_plain_inner(declared[i])
        }),
{
    let list: Vec<String> = declared_submodules(contents);
    let ghost declared = text::texts_view(list@);
    let ghost start = keys@;
    let ghost mut inner: Seq<bool> = Seq::empty();
    for n in 0..list.len()
        invariant
            keys.wf(),
            declared == text::texts_view(list@),
            inner.len() == n,
            forall|i: int| 0 <= i < n ==> told_inner(#[trigger] declared[i], inner[i]),
            forall|i: int|
                0 <= i < n && paths::is_portable(#[trigger] declared[i]) ==> inner[i] == is_plain_inner(declared[i]),
            keys@ == with_declared(start, declared.take(n as int), inner, windows),
    {
        assert(declared[n as int] == list@[n as int]@);
        let said: bool = is_inner_path(list[n].as_str());
        proof {
            assert(declared.take(n + 1).drop_last() =~= declared.take(n as int));
            assert(inner.push(said).drop_last() =~= inner);
            inner = inner.push(said);
        }
        if said {
            let key: String = comparison_key(list[n].as_str(), windows);
            keys.insert(key, ());
        }
    }
    assert(declared.take(declared.len() as int) =~= declared);
    assert(told_which_inner(declared, inner));
}

// What is accepted, matched and declared.

proof fn lemma_parts_of_plain_names(list: Seq<Seq<char>>)
    requires
        forall|i: int| 0 <= i < list.len() ==> (#[trigger] list[i]).len() > 0 && list[i] != "."@ && list[i] != ".."@,
    ensures
        paths::parts_of_pieces(list) == list.map_values(|name: Seq<char>| paths::Part::Normal(name)),
    decreases list.len(),
{
    let named = list.map_values(|name: Seq<char>| paths::Part::Normal(name));
    if list.len() > 0 {
        let front = list.drop_last();
        assert forall|i: int| 0 <= i < front.len() implies (#[trigger] front[i]).len() > 0 && front[i] != "."@ && front[i]
            != ".."@ by {
            assert(front[i] == list[i]);
        }
        lemma_parts_of_plain_names(front);
        assert(list[list.len() - 1] == list.last());
        assert(named =~= front.map_values(|name: Seq<char>| paths::Part::Normal(name)).push(
            paths::Part::Normal(list.last()),
        ));
    } else {
        assert(named =~= Seq::empty());
    }
}

/// An item of a merge is taken exactly as it was typed between the white space around it, name by name, where none of its
/// names is `.`, `..` or that of Git's own folder. One with such a name and one that starts at the root are refused.
pub proof fn law_merge_items_are_taken_as_typed(
    path: &str,
    lead: Seq<char>,
    list: Seq<Seq<char>>,
    tail: Seq<char>,
    r: Result<RelativePath, String>,
)
    requires
        call_ensures(safe_relative_path, (path,), r),
        list.len() > 0,
        path@ == lead + pieces::joined(list, seq!['/']) + tail,
        text::is_blank(lead),
        text::is_tight(pieces::joined(list, seq!['/'])),
        text::is_blank(tail),
        paths::is_portable(pieces::joined(list, seq!['/'])),
        forall|i: int| 0 <= i < list.len() ==> !(#[trigger] list[i]).contains('/'),
    ensures
        (forall|i: int|
            0 <= i < list.len() ==> (#[trigger] list[i]).len() > 0 && list[i] != "."@ && list[i] != ".."@
                && !paths::is_git_name(list[i])) ==> (r matches Ok(item) && item.text@ == pieces::joined(
            list,
            seq!['/'],
        ) && text::texts_view(item.names@) == list),
        list[0].len() == 0 ==> r is Err,
        (exists|i: int| 0 <= i < list.len() && (#[trigger] list[i] == ".."@ || paths::is_git_name(list[i]))) ==> r is Err,
        r matches Ok(item) ==> item.text@ == pieces::joined(list, seq!['/']),
        list[0].len() > 0 && r is Err ==> (r->Err_0)@
            == "The merge item must stay inside the selected folders and cannot include .git metadata"@,
{
    let core = pieces::joined(list, seq!['/']);
    text::lemma_trimmed_of_padded(lead, core, tail);
    pieces::lemma_split_of_joined(list, '/');
    let parts = paths::portable_parts(core);
    let body = paths::parts_of_pieces(list);
    let before = parts.len() - body.len();
    lemma_first_of_joined(list);
    if list[0].len() > 0 {
        assert(list[0].contains(list[0][0]));
        assert(core[0] != '/');
    }
    if forall|i: int|
        0 <= i < list.len() ==> (#[trigger] list[i]).len() > 0 && list[i] != "."@ && list[i] != ".."@
            && !paths::is_git_name(list[i]) {
        lemma_parts_of_plain_names(list);
        assert(list[0].len() > 0 && list[0] != "."@);
        assert(parts =~= body);
        assert forall|i: int| 0 <= i < parts.len() implies (#[trigger] parts[i] is Normal && !paths::is_git_name(
            parts[i]->Normal_0,
        )) by {
            assert(parts[i] == paths::Part::Normal(list[i]));
        }
        assert(names_of(parts) =~= list);
    }
    if r is Ok {
        assert(relative_view(r) == relative_answer(path@, false, parts));
        assert(stays_inside(parts));
        if list[0].len() == 0 {
            assert(core[0] == '/');
            assert(parts[0] is RootDir);
        }
        if exists|i: int| 0 <= i < list.len() && (#[trigger] list[i] == ".."@ || paths::is_git_name(list[i])) {
            let i = choose|i: int| 0 <= i < list.len() && (#[trigger] list[i] == ".."@ || paths::is_git_name(list[i]));
            assert forall|j: int| 0 <= j < body.len() implies (#[trigger] body[j] is Normal && !paths::is_git_name(
                body[j]->Normal_0,
            )) by {
                assert(body[j] == parts[before + j]);
            }
            lemma_parts_of_pieces_inside(list, i);
        }
    }
}

proof fn lemma_first_of_joined(list: Seq<Seq<char>>)
    requires
        list.len() > 0,
    ensures
        list[0].len() > 0 ==> pieces::joined(list, seq!['/']).len() > 0 && pieces::joined(list, seq!['/'])[0] == list[0][0],
        list[0].len() == 0 && list.len() > 1 ==> pieces::joined(list, seq!['/'])[0] == '/',
        list.len() == 1 ==> pieces::joined(list, seq!['/']) == list[0],
{
    if list.len() > 1 {
        pieces::lemma_joined_first(list, seq!['/']);
    }
}

/// No item is meant by a blank path.
pub proof fn law_blank_merge_items_are_refused(path: &str, r: Result<RelativePath, String>)
    requires
        call_ensures(safe_relative_path, (path,), r),
        text::is_blank(path@),
    ensures
        r matches Err(e) && e@ == "Choose one item inside the compared folder"@,
{
    text::lemma_trimmed_of_blank(path@);
}

/// Where case counts, two items are counterparts exactly when their paths differ at most in which separator stands where
/// one stands.
pub proof fn law_counterparts_differ_only_in_separators(a: &str, b: &str, x: String, y: String)
    requires
        call_ensures(comparison_key, (a, false), x),
        call_ensures(comparison_key, (b, false), y),
    ensures
        x@ == y@ <==> a@.len() == b@.len() && forall|i: int|
            0 <= i < a@.len() ==> (#[trigger] a@[i] == b@[i] || (a@[i] == '/' || a@[i] == '\\') && (b@[i] == '/' || b@[i]
                == '\\')),
        x@.len() == a@.len(),
        forall|i: int| 0 <= i < a@.len() && a@[i] != '\\' ==> #[trigger] x@[i] == a@[i],
        forall|i: int| 0 <= i < a@.len() && a@[i] == '\\' ==> #[trigger] x@[i] == '/',
{
    assert(x@.len() == a@.len() && y@.len() == b@.len());
    if x@ == y@ {
        assert forall|i: int| 0 <= i < a@.len() implies (#[trigger] a@[i] == b@[i] || (a@[i] == '/' || a@[i] == '\\') && (
        b@[i] == '/' || b@[i] == '\\')) by {
            let c = a@[i];
            let d = b@[i];
            assert(x@[i] == if c == '\\' { '/' } else { c });
            assert(y@[i] == if d == '\\' { '/' } else { d });
        }
    }
    if a@.len() == b@.len() && forall|i: int|
        0 <= i < a@.len() ==> (#[trigger] a@[i] == b@[i] || (a@[i] == '/' || a@[i] == '\\') && (b@[i] == '/' || b@[i]
            == '\\')) {
        assert(x@ =~= y@);
    }
}

/// On Windows the key of a path is the lower case of what it is elsewhere.
pub proof fn law_case_does_not_count_on_windows(a: &str, x: String, y: String)
    requires
        call_ensures(comparison_key, (a, false), x),
        call_ensures(comparison_key, (a, true), y),
    ensures
        y@ == text::lowercased(x@),
{
}

/// A line `path = value` declares the value, whatever white space stands around the word and around the value and
/// whatever the value holds; a line with another word before the first `=` and a line without `=` declare nothing.
pub proof fn law_a_line_declares_its_path(
    contents: &str,
    longer: &str,
    lines: Seq<Seq<char>>,
    line: Seq<char>,
    name: Seq<char>,
    value: Seq<char>,
    lead: Seq<char>,
    core: Seq<char>,
    tail: Seq<char>,
    r: Vec<String>,
    s: Vec<String>,
)
    requires
        lines.len() > 0,
        forall|i: int| 0 <= i < lines.len() ==> !(#[trigger] lines[i]).contains('\n'),
        !line.contains('\n'),
        contents@ == pieces::joined(lines, seq!['\n']),
        longer@ == contents@ + seq!['\n'] + line,
        call_ensures(declared_submodules, (contents,), r),
        call_ensures(declared_submodules, (longer,), s),
    ensures
        !line.contains('=') ==> text::texts_view(s@) == text::texts_view(r@),
        line == name + seq!['='] + value && !name.contains('=') && text::trimmed(name) != "path"@ ==> text::texts_view(s@)
            == text::texts_view(r@),
        line == name + seq!['='] + value && !name.contains('=') && text::trimmed(name) == "path"@ && value == lead + core
            + tail && text::is_blank(lead) && text::is_tight(core) && text::is_blank(tail) ==> text::texts_view(s@)
            == text::texts_view(r@).push(core),
{
    let all = lines.push(line);
    pieces::lemma_split_of_joined(lines, '\n');
    assert(all.drop_last() =~= lines);
    assert(pieces::joined(all, seq!['\n']) == longer@);
    assert forall|i: int| 0 <= i < all.len() implies !(#[trigger] all[i]).contains('\n') by {
        if i < lines.len() {
            assert(all[i] == lines[i]);
        }
    }
    pieces::lemma_split_of_joined(all, '\n');
    assert(text::texts_view(s@) == path_settings(all));
    assert(text::texts_view(r@) == path_settings(lines));
    if !line.contains('=') {
        pieces::lemma_position(line, '=');
    }
    if line == name + seq!['='] + value && !name.contains('=') {
        pieces::lemma_position_of_first(name, '=', value);
        assert(line.take(name.len() as int) =~= name);
        assert(line.skip(name.len() as int + 1) =~= value);
        if value == lead + core + tail && text::is_blank(lead) && text::is_tight(core) && text::is_blank(tail) {
            text::lemma_trimmed_of_padded(lead, core, tail);
        }
    }
}

/// A key is configured exactly when it was before or is that of a declared path inside the folder.
pub proof fn law_declared_paths_are_configured(
    keys: Map<Seq<char>, ()>,
    declared: Seq<Seq<char>>,
    inner: Seq<bool>,
    windows: bool,
    key: Seq<char>,
)
    requires
        inner.len() == declared.len(),
    ensures
        with_declared(keys, declared, inner, windows).dom().contains(key) <==> keys.dom().contains(key) || exists|i: int|
            0 <= i < declared.len() && #[trigger] inner[i] && key_of(declared[i], windows) == key,
    decreases declared.len(),
{
    if declared.len() > 0 {
        let front = declared.drop_last();
        let said = inner.drop_last();
        law_declared_paths_are_configured(keys, front, said, windows, key);
        let n = declared.len() - 1;
        if exists|i: int| 0 <= i < front.len() && #[trigger] said[i] && key_of(front[i], windows) == key {
            let i = choose|i: int| 0 <= i < front.len() && #[trigger] said[i] && key_of(front[i], windows) == key;
            assert(inner[i] && key_of(declared[i], windows) == key);
        }
        if exists|i: int| 0 <= i < declared.len() && #[trigger] inner[i] && key_of(declared[i], windows) == key {
            let i = choose|i: int| 0 <= i < declared.len() && #[trigger] inner[i] && key_of(declared[i], windows) == key;
            if i < n {
                assert(said[i] && key_of(front[i], windows) == key);
            }
        }
        if inner.last() && key_of(declared.last(), windows) == key {
            assert(inner[n] && key_of(declared[n], windows) == key);
        }
    }
}

/// A declared path of names between `/` lies inside the folder; one that starts at the root and one that climbs out of it
/// do not.
pub proof fn law_declared_paths_inside_are_those_of_names(path: Seq<char>, list: Seq<Seq<char>>)
    requires
        paths::is_portable(path),
        list.len() > 0,
        path == pieces::joined(list, seq!['/']),
        forall|i: int| 0 <= i < list.len() ==> !(#[trigger] list[i]).contains('/'),
    ensures
        (forall|i: int| 0 <= i < list.len() ==> (#[trigger] list[i]).len() > 0 && list[i] != "."@ && list[i] != ".."@)
            ==> is_plain_inner(path),
        (exists|i: int| 0 <= i < list.len() && #[trigger] list[i] == ".."@) ==> !is_plain_inner(path),
        path.len() > 0 && path[0] == '/' ==> !is_plain_inner(path),
{
    pieces::lemma_split_of_joined(list, '/');
    lemma_first_of_joined(list);
    let body = paths::parts_of_pieces(list);
    let parts = paths::portable_parts(path);
    let before = parts.len() - body.len();
    if forall|i: int| 0 <= i < list.len() ==> (#[trigger] list[i]).len() > 0 && list[i] != "."@ && list[i] != ".."@ {
        lemma_parts_of_plain_names(list);
        assert(list[0].len() > 0 && list[0] != "."@);
        assert(list[0].contains(list[0][0]));
        assert(parts =~= body);
        assert forall|i: int| 0 <= i < parts.len() implies #[trigger] parts[i] is Normal by {
            assert(parts[i] == paths::Part::Normal(list[i]));
        }
    }
    if exists|i: int| 0 <= i < list.len() && #[trigger] list[i] == ".."@ {
        let i = choose|i: int| 0 <= i < list.len() && #[trigger] list[i] == ".."@;
        let k = lemma_parent_among_parts(list, i);
        assert(parts[before + k] == body[k]);
    }
}

proof fn lemma_parent_among_parts(list: Seq<Seq<char>>, i: int) -> (k: int)
    requires
        0 <= i < list.len(),
        list[i] == ".."@,
    ensures
        0 <= k < paths::parts_of_pieces(list).len(),
        paths::parts_of_pieces(list)[k] is ParentDir,
    decreases list.len(),
{
    reveal_strlit(".");
    reveal_strlit("..");
    let front = list.drop_last();
    if i == list.len() - 1 {
        paths::parts_of_pieces(list).len() - 1
    } else {
        assert(front[i] == list[i]);
        let k = lemma_parent_among_parts(front, i);
        assert(paths::parts_of_pieces(list)[k] == paths::parts_of_pieces(front)[k]);
        k
    }
}

/// A file of one line declares what that line declares.
pub proof fn law_a_single_line_declares_its_path(
    contents: &str,
    name: Seq<char>,
    value: Seq<char>,
    lead: Seq<char>,
    core: Seq<char>,
    tail: Seq<char>,
    r: Vec<String>,
)
    requires
        !contents@.contains('\n'),
        call_ensures(declared_submodules, (contents,), r),
    ensures
        !contents@.contains('=') ==> r@.len() == 0,
        contents@ == name + seq!['='] + value && !name.contains('=') && text::trimmed(name) != "path"@ ==> r@.len() == 0,
        contents@ == name + seq!['='] + value && !name.contains('=') && text::trimmed(name) == "path"@ && value == lead
            + core + tail && text::is_blank(lead) && text::is_tight(core) && text::is_blank(tail) ==> r@.len() == 1
            && r@[0]@ == core,
{
    let line = contents@;
    let one = seq![line];
    assert(pieces::joined(one, seq!['\n']) == line);
    assert forall|i: int| 0 <= i < one.len() implies !(#[trigger] one[i]).contains('\n') by {
        assert(one[i] == line);
    }
    pieces::lemma_split_of_joined(one, '\n');
    assert(one.drop_last() =~= Seq::empty());
    assert(path_settings(Seq::<Seq<char>>::empty()) =~= Seq::empty());
    let view = text::texts_view(r@);
    assert(view == path_settings(one));
    assert(view.len() == r@.len());
    if !line.contains('=') {
        pieces::lemma_position(line, '=');
    }
    if line == name + seq!['='] + value && !name.contains('=') {
        pieces::lemma_position_of_first(name, '=', value);
        assert(line.take(name.len() as int) =~= name);
        assert(line.skip(name.len() as int + 1) =~= value);
        if value == lead + core + tail && text::is_blank(lead) && text::is_tight(core) && text::is_blank(tail) {
            text::lemma_trimmed_of_padded(lead, core, tail);
            if text::trimmed(name) == "path"@ {
                assert(view =~= seq![core]);
                assert(view[0] == r@[0]@);
            }
        }
    }
}

} // verus!
