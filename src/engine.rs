use vstd::prelude::*;
use crate::classify::{
    Category, CategoryView, categories_view, category_for, extension_of, file_extension,
    get_file_category, lower_of, opt_view,
};
use crate::config::Config;
use crate::guard::{is_protected, protected_by};

verus! {

/// One direct child of the root directory, as a listing reports it.
pub struct Entry {
    pub name: String,
    pub is_file: bool,
}

pub struct EntryView {
    pub name: Seq<char>,
    pub is_file: bool,
}

impl View for Entry {
    type V = EntryView;

    open spec fn view(&self) -> EntryView {
        EntryView { name: self.name@, is_file: self.is_file }
    }
}

pub open spec fn listing_view(v: Seq<Entry>) -> Seq<EntryView> {
    v.map_values(|e: Entry| e@)
}

/// A move that a commit makes: `root/file_name` goes to `root/category/file_name`.
pub struct FileMove {
    pub file_name: String,
    pub category: String,
}

pub open spec fn moves_view(v: Seq<FileMove>) -> Seq<(Seq<char>, Seq<char>)> {
    v.map_values(|m: FileMove| (m.file_name@, m.category@))
}

pub open spec fn rows_view(v: Seq<(String, usize)>) -> Seq<(Seq<char>, nat)> {
    v.map_values(|p: (String, usize)| (p.0@, p.1 as nat))
}

/// Why an operation stopped.
pub enum OrganiseError {
    /// The configuration could not be read, written or decoded.
    ConfigIo(String),
    /// The root matches an unsafe-path rule; nothing was touched.
    ProtectedPath(String),
    /// The root could not be listed.
    DirectoryAccess(String),
    /// A category folder could not be created: the category and the cause.
    DirectoryCreate(String, String),
    /// A file could not be moved: source, destination and cause.
    FileMove(String, String, String),
    /// One entry of the listing could not be read.
    EntryRead(String),
}

/// The category of a listed entry: a regular file whose extension, lower-cased,
/// some category lists. Directories and files without extension have none.
pub open spec fn entry_category(e: EntryView, cats: Seq<CategoryView>) -> Option<Seq<char>> {
    if !e.is_file {
        None
    } else {
        match extension_of(e.name) {
            Some(x) => category_for(cats, lower_of(x)),
            None => None,
        }
    }
}

/// How many entries of the listing fall in category `c`.
pub open spec fn count_of(root: Seq<EntryView>, cats: Seq<CategoryView>, c: Seq<char>) -> nat
    decreases root.len(),
{
    if root.len() == 0 {
        0
    } else {
        count_of(root.drop_last(), cats, c) + if entry_category(root.last(), cats) == Some(c) {
            1nat
        } else {
            0nat
        }
    }
}

/// The preview of the first `n` categories: each with its count, in the
/// configured order, leaving out those that no file falls in.
pub open spec fn preview_rows(root: Seq<EntryView>, cats: Seq<CategoryView>, n: int) -> Seq<
    (Seq<char>, nat),
>
    decreases n,
{
    if n <= 0 {
        seq![]
    } else {
        let prev = preview_rows(root, cats, n - 1);
        let k = count_of(root, cats, cats[n - 1].name);
        if k > 0 {
            prev.push((cats[n - 1].name, k))
        } else {
            prev
        }
    }
}

pub open spec fn preview_of(root: Seq<EntryView>, cats: Seq<CategoryView>) -> Seq<(Seq<char>, nat)> {
    preview_rows(root, cats, cats.len() as int)
}

/// The moves of a commit, in listing order: each classified file to its category.
pub open spec fn moves_of(root: Seq<EntryView>, cats: Seq<CategoryView>) -> Seq<(Seq<char>, Seq<char>)>
    decreases root.len(),
{
    if root.len() == 0 {
        seq![]
    } else {
        let prev = moves_of(root.drop_last(), cats);
        match entry_category(root.last(), cats) {
            Some(c) => prev.push((root.last().name, c)),
            None => prev,
        }
    }
}

/// The category of a listed entry.
pub fn classify_entry(e: &Entry, categories: &Vec<Category>) -> (r: Option<String>)
    ensures
        opt_view(r) == entry_category(e@, categories_view(categories@)),
{
    if !e.is_file {
        return None;
    }
    match file_extension(e.name.as_str()) {
        Some(x) => get_file_category(x.as_str(), categories),
        None => None,
    }
}

fn classify_all(entries: &Vec<Entry>, categories: &Vec<Category>) -> (r: Vec<Option<String>>)
    ensures
        r@.len() == entries@.len(),
        forall|k: int|
            0 <= k < r@.len() ==> opt_view(#[trigger] r@[k]) == entry_category(
                entries@[k]@,
                categories_view(categories@),
            ),
{
    let mut found: Vec<Option<String>> = Vec::new();
    let mut j: usize = 0;
    while j < entries.len()
        invariant
            j <= entries@.len(),
            found@.len() == j,
            forall|k: int|
                0 <= k < j ==> opt_view(#[trigger] found@[k]) == entry_category(
                    entries@[k]@,
                    categories_view(categories@),
                ),
        decreases entries.len() - j,
    {
        found.push(classify_entry(&entries[j], categories));
        j += 1;
    }
    found
}

/// Per-category counts of the files that a commit would move, for a listing
/// of the root. Reads the listing only.
pub fn preview_counts(entries: &Vec<Entry>, categories: &Vec<Category>) -> (r: Vec<(String, usize)>)
    ensures
        rows_view(r@) == preview_of(listing_view(entries@), categories_view(categories@)),
{
    let ghost root = listing_view(entries@);
    let ghost cats = categories_view(categories@);
    let found = classify_all(entries, categories);
    let mut rows: Vec<(String, usize)> = Vec::new();
    let mut i: usize = 0;
    while i < categories.len()
        invariant
            i <= categories@.len(),
            root == listing_view(entries@),
            cats == categories_view(categories@),
            found@.len() == entries@.len(),
            forall|k: int|
                0 <= k < found@.len() ==> opt_view(#[trigger] found@[k]) == entry_category(
                    root[k],
                    cats,
                ),
            rows_view(rows@) == preview_rows(root, cats, i as int),
        decreases categories.len() - i,
    {
        let name = &categories[i].name;
        let mut count: usize = 0;
        let mut j: usize = 0;
        while j < found.len()
            invariant
                j <= found@.len(),
                found@.len() == entries@.len(),
                root == listing_view(entries@),
                cats == categories_view(categories@),
                name@ == cats[i as int].name,
                forall|k: int|
                    0 <= k < found@.len() ==> opt_view(#[trigger] found@[k]) == entry_category(
                        root[k],
                        cats,
                    ),
                count == count_of(root.subrange(0, j as int), cats, name@),
                count <= j,
            decreases found.len() - j,
        {
            assert(root.subrange(0, j + 1).drop_last() =~= root.subrange(0, j as int));
            assert(opt_view(found@[j as int]) == entry_category(root[j as int], cats));
            match &found[j] {
                Some(c) => {
                    if *c == *name {
                        count += 1;
                    }
                },
                None => {},
            }
            j += 1;
        }
        assert(root.subrange(0, found@.len() as int) =~= root);
        if count > 0 {
            rows.push((name.clone(), count));
            assert(rows_view(rows@) =~= preview_rows(root, cats, i as int + 1));
        }
        i += 1;
    }
    rows
}

/// The moves that a commit makes for a listing of the root.
pub fn plan_moves(entries: &Vec<Entry>, categories: &Vec<Category>) -> (r: Vec<FileMove>)
    ensures
        moves_view(r@) == moves_of(listing_view(entries@), categories_view(categories@)),
{
    let ghost root = listing_view(entries@);
    let ghost cats = categories_view(categories@);
    let mut moves: Vec<FileMove> = Vec::new();
    let mut j: usize = 0;
    while j < entries.len()
        invariant
            j <= entries@.len(),
            root == listing_view(entries@),
            cats == categories_view(categories@),
            moves_view(moves@) == moves_of(root.subrange(0, j as int), cats),
        decreases entries.len() - j,
    {
        assert(root.subrange(0, j + 1).drop_last() =~= root.subrange(0, j as int));
        match classify_entry(&entries[j], categories) {
            Some(c) => {
                moves.push(FileMove { file_name: entries[j].name.clone(), category: c });
                assert(moves_view(moves@) =~= moves_of(root.subrange(0, j + 1), cats));
            },
            None => {},
        }
        j += 1;
    }
    assert(root.subrange(0, entries@.len() as int) =~= root);
    moves
}

/// Refuses a root that an unsafe-path rule protects, naming it.
pub fn check_root(path: &str, config: &Config) -> (r: Result<(), OrganiseError>)
    ensures
        r is Err <==> protected_by(path@, config.unsafe_paths@),
        r matches Err(e) ==> (e matches OrganiseError::ProtectedPath(p) && p@ == path@),
{
    if is_protected(path, &config.unsafe_paths) {
        Err(OrganiseError::ProtectedPath(path.to_owned()))
    } else {
        Ok(())
    }
}

/// The folders that a commit makes sure of, one per category, in order.
pub fn category_folders(config: &Config) -> (r: Vec<String>)
    ensures
        r@.len() == config.categories@.len(),
        forall|k: int| 0 <= k < r@.len() ==> (#[trigger] r@[k])@ == config.categories@[k].name@,
{
    let mut names: Vec<String> = Vec::new();
    let mut i: usize = 0;
    while i < config.categories.len()
        invariant
            i <= config.categories@.len(),
            names@.len() == i,
            forall|k: int| 0 <= k < i ==> (#[trigger] names@[k])@ == config.categories@[k].name@,
        decreases config.categories.len() - i,
    {
        names.push(config.categories[i].name.clone());
        i += 1;
    }
    names
}

} // verus!
