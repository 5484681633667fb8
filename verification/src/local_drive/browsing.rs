//! Listing a folder and making a new one.
use crate::local_drive::EntryType;
use crate::local_drive::LocalDriveDirectory;
use crate::local_drive::LocalDriveEntry;
use crate::paths;
use crate::text;
use vstd::prelude::*;
use vstd::string::*;

verus! {

/// What the file system says of one item of a folder.
pub struct ListedItem {
    pub name: String,
    pub path: String,
    pub entry: EntryType,
    /// Seconds since 1970, where the file system knows them and they are not negative.
    pub modified: Option<u64>,
}

/// The word for what an item is.
pub open spec fn kind_word(entry: EntryType) -> Seq<char> {
    match entry {
        EntryType::Symlink => "symlink"@,
        EntryType::Directory => "folder"@,
        _ => "file"@,
    }
}

/// Whether a listed entry shows the item.
pub open spec fn shows(entry: LocalDriveEntry, item: ListedItem) -> bool {
    &&& entry.name@ == item.name@
    &&& entry.path@ == item.path@
    &&& entry.kind@ == kind_word(item.entry)
    &&& entry.size == match item.entry {
        EntryType::File { bytes } => bytes,
        _ => 0,
    }
    &&& entry.modified == match item.modified {
        Some(seconds) => seconds,
        None => 0,
    }
}

/// Whether the first of two items is listed before the second for what they are: folders come first,
/// and then the lower case of the names counts.
pub open spec fn listed_before(a: ListedItem, b: ListedItem) -> bool {
    if (a.entry == EntryType::Directory) != (b.entry == EntryType::Directory) {
        a.entry == EntryType::Directory
    } else {
        text::before(text::lowercased(a.name@), text::lowercased(b.name@))
    }
}

/// Whether `order` puts the items in the order of a listing: items that neither comes before the other
/// keep the order in which they were found.
pub open spec fn is_listing_order(items: Seq<ListedItem>, order: Seq<int>) -> bool {
    &&& order.len() == items.len()
    &&& forall|k: int| 0 <= k < order.len() ==> 0 <= #[trigger] order[k] < items.len()
    &&& forall|k: int, m: int|
        0 <= k < m < order.len() ==> {
            ||| listed_before(items[#[trigger] order[k]], items[#[trigger] order[m]])
            ||| !listed_before(items[order[m]], items[order[k]]) && order[k] < order[m]
        }
}

fn precedes(a: &ListedItem, a_name: &str, b: &ListedItem, b_name: &str) -> (r: bool)
    requires
        a_name@ == text::lowercased(a.name@),
        b_name@ == text::lowercased(b.name@),
    ensures
        r == listed_before(*a, *b),
{
    let a_folder: bool = a.entry == EntryType::Directory;
    let b_folder: bool = b.entry == EntryType::Directory;
    if a_folder != b_folder {
        a_folder
    } else {
        text::text_before(a_name, b_name)
    }
}

proof fn lemma_listed_before(a: ListedItem, b: ListedItem, c: ListedItem)
    ensures
        !listed_before(a, a),
        listed_before(a, b) && listed_before(b, c) ==> listed_before(a, c),
        listed_before(a, b) ==> !listed_before(b, a),
        listed_before(a, b) && !listed_before(c, b) ==> listed_before(a, c),
        !listed_before(b, a) && listed_before(b, c) ==> listed_before(a, c),
{
    let x = text::lowercased(a.name@);
    let y = text::lowercased(b.name@);
    let z = text::lowercased(c.name@);
    text::lemma_before_irreflexive(x);
    text::lemma_before_total(x, y);
    text::lemma_before_total(y, z);
    text::lemma_before_total(x, z);
    if text::before(x, y) && text::before(y, z) {
        text::lemma_before_transitive(x, y, z);
    }
    if text::before(x, y) && text::before(y, x) {
        text::lemma_before_transitive(x, y, x);
    }
    if text::before(x, y) && text::before(z, x) {
        text::lemma_before_transitive(z, x, y);
    }
    if text::before(y, z) && text::before(z, x) {
        text::lemma_before_transitive(y, z, x);
    }
}

fn lower_case_names(items: &Vec<ListedItem>) -> (names: Vec<String>)
    ensures
        names@.len() == items@.len(),
        forall|i: int|
            0 <= i < items@.len() ==> (#[trigger] names@[i])@ == text::lowercased(items@[i].name@),
{
    let mut names: Vec<String> = Vec::new();
    for n in 0..items.len()
        invariant
            names@.len() == n,
            forall|i: int| 0 <= i < n ==> (#[trigger] names@[i])@ == text::lowercased(items@[i].name@),
    {
        names.push(text::to_lowercase(items[n].name.as_str()));
    }
    names
}

proof fn lemma_insert_keeps_order(items: Seq<ListedItem>, n: int, order: Seq<int>, at: int)
    requires
        0 <= n < items.len(),
        is_listing_order(items.take(n), order),
        0 <= at <= n,
        forall|k: int| at <= k < n ==> listed_before(items[n], items[#[trigger] order[k]]),
        at > 0 ==> !listed_before(items[n], items[order[at - 1]]),
    ensures
        is_listing_order(items.take(n + 1), order.insert(at, n)),
{
    let seen = items.take(n);
    let all = items.take(n + 1);
    let next = order.insert(at, n);
    assert forall|k: int| 0 <= k < n implies seen[#[trigger] order[k]] == items[order[k]] && all[order[k]]
        == items[order[k]] by {}
    assert forall|k: int| 0 <= k < next.len() implies 0 <= #[trigger] next[k] < all.len() by {
        if k < at {
            assert(next[k] == order[k]);
        } else if k > at {
            assert(next[k] == order[k - 1]);
        }
    }
    assert forall|k: int, m: int| 0 <= k < m < next.len() implies {
        ||| listed_before(all[#[trigger] next[k]], all[#[trigger] next[m]])
        ||| !listed_before(all[next[m]], all[next[k]]) && next[k] < next[m]
    } by {
        if m == at {
            assert(next[k] == order[k]);
            assert(order[k] < n);
            let x = items[order[k]];
            let y = items[order[at - 1]];
            let z = items[n];
            if k < at - 1 {
                assert(listed_before(seen[order[k]], seen[order[at - 1]]) || !listed_before(
                    seen[order[at - 1]],
                    seen[order[k]],
                ));
            }
            lemma_listed_before(z, x, y);
            lemma_listed_before(z, y, x);
            lemma_listed_before(x, y, z);
            lemma_listed_before(y, x, z);
        } else if k == at {
            assert(next[m] == order[m - 1]);
        } else {
            let a = if k < at {
                k
            } else {
                k - 1
            };
            let b = if m < at {
                m
            } else {
                m - 1
            };
            assert(next[k] == order[a] && next[m] == order[b]);
            assert(0 <= a < b < order.len());
        }
    }
}

/// The places of the items in the order of a listing.
fn listing_order(items: &Vec<ListedItem>) -> (order: Vec<usize>)
    ensures
        is_listing_order(items@, order@.map_values(|i: usize| i as int)),
{
    let names: Vec<String> = lower_case_names(items);
    let mut order: Vec<usize> = Vec::new();
    for n in 0..items.len()
        invariant
            names@.len() == items@.len(),
            forall|i: int|
                0 <= i < items@.len() ==> (#[trigger] names@[i])@ == text::lowercased(items@[i].name@),
            is_listing_order(items@.take(n as int), order@.map_values(|i: usize| i as int)),
    {
        let ghost had = order@.map_values(|i: usize| i as int);
        let mut at: usize = order.len();
        let mut placed: bool = false;
        while at > 0 && !placed
            invariant
                n < items@.len(),
                at <= order@.len(),
                order@.len() == n,
                names@.len() == items@.len(),
                forall|i: int|
                    0 <= i < items@.len() ==> (#[trigger] names@[i])@ == text::lowercased(items@[i].name@),
                had == order@.map_values(|i: usize| i as int),
                is_listing_order(items@.take(n as int), had),
                forall|k: int| at <= k < n ==> listed_before(items@[n as int], items@[#[trigger] had[k]]),
                placed ==> at > 0 && !listed_before(items@[n as int], items@[had[at - 1]]),
            decreases at, if placed { 0int } else { 1int },
        {
            let other: usize = order[at - 1];
            assert(had[at - 1] == other);
            if precedes(&items[n], names[n].as_str(), &items[other], names[other].as_str()) {
                at = at - 1;
            } else {
                placed = true;
            }
        }
        proof {
            lemma_insert_keeps_order(items@, n as int, had, at as int);
        }
        order.insert(at, n);
        assert(order@.map_values(|i: usize| i as int) =~= had.insert(at as int, n as int));
    }
    assert(items@.take(items@.len() as int) =~= items@);
    order
}

/// Whether a listing shows exactly the items, in their order.
pub open spec fn lists(entries: Seq<LocalDriveEntry>, items: Seq<ListedItem>) -> bool {
    exists|order: Seq<int>| #[trigger]
        is_listing_order(items, order) && entries.len() == order.len() && forall|k: int|
            0 <= k < order.len() ==> shows(#[trigger] entries[k], items[order[k]])
}

/// The listing of a folder: folders first, then by the lower case of the names.
pub fn list_local_directory_inner(requested: &str, items: &Vec<ListedItem>) -> (r: LocalDriveDirectory)
    ensures
        r.path@ == requested@,
        paths::told_parent(requested@, text::opt_view(r.parent)),
        paths::is_portable(requested@) ==> paths::is_parent(requested@, text::opt_view(r.parent)),
        lists(r.entries@, items@),
{
    let order: Vec<usize> = listing_order(items);
    let ghost places = order@.map_values(|i: usize| i as int);
    let mut entries: Vec<LocalDriveEntry> = Vec::new();
    for n in 0..order.len()
        invariant
            places == order@.map_values(|i: usize| i as int),
            is_listing_order(items@, places),
            entries@.len() == n,
            forall|k: int| 0 <= k < n ==> shows(#[trigger] entries@[k], items@[places[k]]),
    {
        assert(places[n as int] == order@[n as int]);
        let item: &ListedItem = &items[order[n]];
        let kind: &str = match item.entry {
            EntryType::Symlink => "symlink",
            EntryType::Directory => "folder",
            _ => "file",
        };
        let size: u64 = match item.entry {
            EntryType::File { bytes } => bytes,
            _ => 0,
        };
        let modified: u64 = match item.modified {
            Some(seconds) => seconds,
            None => 0,
        };
        entries.push(
            LocalDriveEntry {
                name: item.name.clone(),
                path: item.path.clone(),
                kind: kind.to_owned(),
                size,
                modified,
            },
        );
    }
    assert(is_listing_order(items@, places));
    let parent: Option<String> = paths::ask_parent(requested);
    proof {
        if paths::is_portable(requested@) {
            paths::law_told_parent(requested@, text::opt_view(parent));
        }
    }
    LocalDriveDirectory { path: requested.to_owned(), parent, entries }
}

/// An order of a listing names every item once.
pub proof fn law_listing_has_every_item_once(items: Seq<ListedItem>, order: Seq<int>)
    requires
        is_listing_order(items, order),
    ensures
        order.no_duplicates(),
        forall|i: int| 0 <= i < items.len() ==> #[trigger] order.contains(i),
{
    assert forall|k: int, m: int| 0 <= k < order.len() && 0 <= m < order.len() && k != m implies order[k]
        != order[m] by {
        let x = items[order[k]];
        lemma_listed_before(x, x, x);
        if k < m {
            assert(listed_before(items[order[k]], items[order[m]]) || order[k] < order[m]);
        } else {
            assert(listed_before(items[order[m]], items[order[k]]) || order[m] < order[k]);
        }
    }
    lemma_all_places(order, items.len());
}

proof fn lemma_all_places(order: Seq<int>, n: nat)
    requires
        order.len() == n,
        order.no_duplicates(),
        forall|k: int| 0 <= k < order.len() ==> 0 <= #[trigger] order[k] < n,
    ensures
        forall|i: int| 0 <= i < n ==> #[trigger] order.contains(i),
{
    let named = order.to_set();
    let all = vstd::set_lib::set_int_range(0, n as int);
    order.unique_seq_to_set();
    vstd::set_lib::lemma_int_range(0, n as int);
    assert(named.subset_of(all));
    vstd::set_lib::lemma_subset_equality(named, all);
    assert forall|i: int| 0 <= i < n implies #[trigger] order.contains(i) by {
        assert(all.contains(i));
        assert(named.contains(i));
    }
}

proof fn lemma_same_start(items: Seq<ListedItem>, a: Seq<int>, b: Seq<int>, n: int)
    requires
        is_listing_order(items, a),
        is_listing_order(items, b),
        0 <= n <= items.len(),
    ensures
        forall|k: int| 0 <= k < n ==> a[k] == b[k],
    decreases n,
{
    if n > 0 {
        lemma_same_start(items, a, b, n - 1);
        law_listing_has_every_item_once(items, a);
        law_listing_has_every_item_once(items, b);
        let x = a[n - 1];
        let y = b[n - 1];
        if x != y {
            assert(a.contains(y) && b.contains(x));
            let i = a.index_of(y);
            let j = b.index_of(x);
            assert(a[i] == y && b[j] == x);
            if i < n - 1 {
                assert(b[i] == y);
            }
            if j < n - 1 {
                assert(a[j] == x);
            }
            assert(listed_before(items[a[n - 1]], items[a[i]]) || a[n - 1] < a[i]);
            assert(listed_before(items[b[n - 1]], items[b[j]]) || b[n - 1] < b[j]);
            lemma_listed_before(items[x], items[y], items[x]);
        }
    }
}

/// What a folder holds, in the order in which it was found, fixes the order of its listing.
pub proof fn law_listing_is_determined(items: Seq<ListedItem>, a: Seq<int>, b: Seq<int>)
    requires
        is_listing_order(items, a),
        is_listing_order(items, b),
    ensures
        a == b,
{
    lemma_same_start(items, a, b, items.len() as int);
    assert(a =~= b);
}

/// Folders stand before everything else in a listing.
pub proof fn law_folders_come_first(items: Seq<ListedItem>, order: Seq<int>, k: int, m: int)
    requires
        is_listing_order(items, order),
        0 <= k < order.len(),
        0 <= m < order.len(),
        items[order[k]].entry == EntryType::Directory,
        items[order[m]].entry != EntryType::Directory,
    ensures
        k < m,
{
    if m < k {
        assert(listed_before(items[order[m]], items[order[k]]) || !listed_before(
            items[order[k]],
            items[order[m]],
        ));
    }
}

// New folders.

/// What is answered once a new folder was to be made; `occupied` says whether the destination is there.
pub open spec fn created_answer(destination: Seq<char>, made: Result<(), Seq<char>>, occupied: bool) -> Result<
    Seq<char>,
    Seq<char>,
> {
    match made {
        Ok(_) => Ok(destination),
        Err(error) => Err(
            if occupied {
                "'"@ + destination + "' already exists"@
            } else {
                "Cannot create '"@ + destination + "': "@ + error
            },
        ),
    }
}

/// Answers once a new folder was to be made; `occupied` says whether the destination is there.
pub fn answer_created(destination: &str, made: Result<(), String>, occupied: bool) -> (r: Result<String, String>)
    ensures
        text::result_view(r) == created_answer(destination@, text::unit_view(made), occupied),
{
    match made {
        Ok(_) => Ok(destination.to_owned()),
        Err(error) => if occupied {
            Err(text::framed("'", destination, "' already exists"))
        } else {
            let mut message: String = text::framed("Cannot create '", destination, "': ");
            message.append(error.as_str());
            Err(message)
        },
    }
}

/// Each entry of a listing shows one item of the folder under its own name and path: a link is called a link, a folder a
/// folder and anything else a file; only a regular file has a size; an unknown time is zero.
pub proof fn law_entries_show_what_the_items_are(
    requested: &str,
    items: &Vec<ListedItem>,
    r: LocalDriveDirectory,
    k: int,
) -> (i: int)
    requires
        call_ensures(list_local_directory_inner, (requested, items), r),
        0 <= k < r.entries@.len(),
    ensures
        r.path@ == requested@,
        r.entries@.len() == items@.len(),
        0 <= i < items@.len(),
        r.entries@[k].name@ == items@[i].name@,
        r.entries@[k].path@ == items@[i].path@,
        r.entries@[k].kind@ == "symlink"@ <==> items@[i].entry == EntryType::Symlink,
        r.entries@[k].kind@ == "folder"@ <==> items@[i].entry == EntryType::Directory,
        r.entries@[k].kind@ == "file"@ <==> items@[i].entry != EntryType::Symlink && items@[i].entry
            != EntryType::Directory,
        items@[i].entry matches EntryType::File { bytes } ==> r.entries@[k].size == bytes,
        !(items@[i].entry is File) ==> r.entries@[k].size == 0,
        items@[i].modified is Some ==> r.entries@[k].modified == items@[i].modified->0,
        items@[i].modified is None ==> r.entries@[k].modified == 0,
{
    let order = choose|order: Seq<int>| #[trigger]
        is_listing_order(items@, order) && r.entries@.len() == order.len() && forall|k: int|
            0 <= k < order.len() ==> shows(#[trigger] r.entries@[k], items@[order[k]]);
    reveal_strlit("symlink");
    reveal_strlit("folder");
    reveal_strlit("file");
    assert("symlink"@.len() == 7 && "folder"@.len() == 6 && "file"@.len() == 4);
    assert(shows(r.entries@[k], items@[order[k]]));
    order[k]
}

/// In a listing a folder never stands behind anything that is none, and among folders and among the rest no name stands
/// behind one that comes after it in lower case.
pub proof fn law_entries_stand_in_order(requested: &str, items: &Vec<ListedItem>, r: LocalDriveDirectory, k: int, m: int)
    requires
        call_ensures(list_local_directory_inner, (requested, items), r),
        0 <= k < m < r.entries@.len(),
    ensures
        r.entries@[m].kind@ == "folder"@ ==> r.entries@[k].kind@ == "folder"@,
        (r.entries@[m].kind@ == "folder"@ <==> r.entries@[k].kind@ == "folder"@) ==> !text::before(
            text::lowercased(r.entries@[m].name@),
            text::lowercased(r.entries@[k].name@),
        ),
{
    let order = choose|order: Seq<int>| #[trigger]
        is_listing_order(items@, order) && r.entries@.len() == order.len() && forall|k: int|
            0 <= k < order.len() ==> shows(#[trigger] r.entries@[k], items@[order[k]]);
    reveal_strlit("symlink");
    reveal_strlit("folder");
    reveal_strlit("file");
    assert("symlink"@.len() == 7 && "folder"@.len() == 6 && "file"@.len() == 4);
    assert(shows(r.entries@[k], items@[order[k]]));
    assert(shows(r.entries@[m], items@[order[m]]));
    let a = items@[order[k]];
    let b = items@[order[m]];
    assert(listed_before(a, b) || !listed_before(b, a) && order[k] < order[m]);
    lemma_listed_before(a, b, a);
}

/// A new folder that was made is answered with where it lies; one that was not, with whether something was in its way.
pub proof fn law_new_folders_are_answered_with_their_place(
    destination: &str,
    error: String,
    occupied: bool,
    r: Result<String, String>,
    s: Result<String, String>,
)
    requires
        call_ensures(answer_created, (destination, Ok(()), occupied), r),
        call_ensures(answer_created, (destination, Err(error), occupied), s),
    ensures
        r matches Ok(path) && path@ == destination@,
        occupied ==> (s matches Err(e) && e@ == "'"@ + destination@ + "' already exists"@),
        !occupied ==> (s matches Err(e) && e@ == "Cannot create '"@ + destination@ + "': "@ + error@),
{
}

/// Items whose names are the same in lower case, both folders or both none, are listed in the order in which they were found.
pub proof fn law_equal_names_keep_their_order(
    requested: &str,
    items: &Vec<ListedItem>,
    r: LocalDriveDirectory,
    k: int,
    m: int,
) -> (at: (int, int))
    requires
        call_ensures(list_local_directory_inner, (requested, items), r),
        0 <= k < m < r.entries@.len(),
    ensures
        0 <= at.0 < items@.len() && 0 <= at.1 < items@.len() && at.0 != at.1,
        r.entries@[k].name@ == items@[at.0].name@ && r.entries@[k].path@ == items@[at.0].path@,
        r.entries@[m].name@ == items@[at.1].name@ && r.entries@[m].path@ == items@[at.1].path@,
        (items@[at.0].entry == EntryType::Directory <==> items@[at.1].entry == EntryType::Directory) && text::lowercased(
            items@[at.0].name@,
        ) == text::lowercased(items@[at.1].name@) ==> at.0 < at.1,
{
    let order = choose|order: Seq<int>| #[trigger]
        is_listing_order(items@, order) && r.entries@.len() == order.len() && forall|k: int|
            0 <= k < order.len() ==> shows(#[trigger] r.entries@[k], items@[order[k]]);
    assert(shows(r.entries@[k], items@[order[k]]));
    assert(shows(r.entries@[m], items@[order[m]]));
    let a = items@[order[k]];
    let b = items@[order[m]];
    assert(listed_before(a, b) || !listed_before(b, a) && order[k] < order[m]);
    lemma_listed_before(a, b, a);
    text::lemma_before_irreflexive(text::lowercased(a.name@));
    (order[k], order[m])
}

} // verus!
