use vstd::prelude::*;
use vstd::string::*;

verus! {

/// A category: the name of its destination folder and the extensions it collects.
pub struct Category {
    pub name: String,
    pub extensions: Vec<String>,
}

/// What a category is, mathematically.
pub struct CategoryView {
    pub name: Seq<char>,
    pub extensions: Seq<Seq<char>>,
}

impl View for Category {
    type V = CategoryView;

    open spec fn view(&self) -> CategoryView {
        CategoryView {
            name: self.name@,
            extensions: self.extensions@.map_values(|e: String| e@),
        }
    }
}

pub open spec fn categories_view(cats: Seq<Category>) -> Seq<CategoryView> {
    cats.map_values(|c: Category| c@)
}

pub open spec fn opt_view(o: Option<String>) -> Option<Seq<char>> {
    match o {
        Some(s) => Some(s@),
        None => None,
    }
}

/// The lower-case form of a string, as `str::to_lowercase` gives it.
pub uninterp spec fn lower_of(s: Seq<char>) -> Seq<char>;

/// Relies on `str::to_lowercase`: the result depends on the characters alone.
#[verifier::external_body]
fn lowercase(s: &str) -> (r: String)
    ensures
        r@ == lower_of(s@),
{
    s.to_lowercase()
}

/// The first category, from index `i` on, whose list holds `ext`.
pub open spec fn match_from(cats: Seq<CategoryView>, ext: Seq<char>, i: int) -> Option<Seq<char>>
    decreases cats.len() - i,
{
    if i < 0 || i >= cats.len() {
        None
    } else if cats[i].extensions.contains(ext) {
        Some(cats[i].name)
    } else {
        match_from(cats, ext, i + 1)
    }
}

/// The category of an already folded extension: the first one, in the
/// configured order, whose list holds it.
pub open spec fn category_for(cats: Seq<CategoryView>, ext: Seq<char>) -> Option<Seq<char>> {
    match_from(cats, ext, 0)
}

/// Where a category has an extension, `category_for` names a category that lists it.
pub proof fn lemma_match_lists(cats: Seq<CategoryView>, ext: Seq<char>, i: int)
    requires
        0 <= i,
    ensures
        match_from(cats, ext, i) matches Some(n) ==> exists|k: int|
            i <= k < cats.len() && #[trigger] cats[k].name == n && cats[k].extensions.contains(ext),
        match_from(cats, ext, i) is None <==> forall|k: int|
            i <= k < cats.len() ==> !(#[trigger] cats[k].extensions).contains(ext),
    decreases cats.len() - i,
{
    if i < cats.len() {
        lemma_match_lists(cats, ext, i + 1);
    }
}

fn lists_extension(exts: &Vec<String>, ext: &String) -> (r: bool)
    ensures
        r == exts@.map_values(|e: String| e@).contains(ext@),
{
    let ghost views = exts@.map_values(|e: String| e@);
    let mut j: usize = 0;
    while j < exts.len()
        invariant
            0 <= j <= exts@.len(),
            views == exts@.map_values(|e: String| e@),
            forall|k: int| 0 <= k < j ==> views[k] != ext@,
        decreases exts.len() - j,
    {
        if exts[j] == *ext {
            assert(views[j as int] == ext@);
            return true;
        }
        j += 1;
    }
    false
}

/// The category of an extension that has already been lower-cased: the first
/// category, in the configured order, whose list holds it.
pub fn category_of_folded(folded: &String, categories: &Vec<Category>) -> (r: Option<String>)
    ensures
        opt_view(r) == category_for(categories_view(categories@), folded@),
{
    let ghost cats = categories_view(categories@);
    let mut i: usize = 0;
    while i < categories.len()
        invariant
            0 <= i <= categories@.len(),
            cats == categories_view(categories@),
            match_from(cats, folded@, 0) == match_from(cats, folded@, i as int),
        decreases categories.len() - i,
    {
        if lists_extension(&categories[i].extensions, folded) {
            return Some(categories[i].name.clone());
        }
        i += 1;
    }
    None
}

/// The category of a file extension: the extension is lower-cased, then the
/// first category in the configured order whose list holds it wins.
pub fn get_file_category(extension: &str, categories: &Vec<Category>) -> (r: Option<String>)
    ensures
        opt_view(r) == category_for(categories_view(categories@), lower_of(extension@)),
{
    let folded = lowercase(extension);
    category_of_folded(&folded, categories)
}

/// The index of the last `'.'` among the first `i` characters of `name`, or -1.
pub open spec fn last_dot(name: Seq<char>, i: int) -> int
    decreases i,
{
    if i <= 0 {
        -1
    } else if name[i - 1] == '.' {
        i - 1
    } else {
        last_dot(name, i - 1)
    }
}

/// The extension of a file name, as `Path::extension` reads it: what follows
/// the last dot, unless that dot opens the name (a hidden file) or the name
/// is `..`.
pub open spec fn extension_of(name: Seq<char>) -> Option<Seq<char>> {
    let d = last_dot(name, name.len() as int);
    if d <= 0 || name == seq!['.', '.'] {
        None
    } else {
        Some(name.subrange(d + 1, name.len() as int))
    }
}

/// The extension of a file name; see `extension_of`.
pub fn file_extension(name: &str) -> (r: Option<String>)
    ensures
        opt_view(r) == extension_of(name@),
{
    let n = name.unicode_len();
    let mut i: usize = n;
    while i > 0 && name.get_char(i - 1) != '.'
        invariant
            i <= n,
            n == name@.len(),
            last_dot(name@, n as int) == last_dot(name@, i as int),
        decreases i,
    {
        i -= 1;
    }
    if i <= 1 {
        return None;
    }
    if n == 2 {
        // `i` is 2 here, so the name is `..` exactly when its first character is a dot.
        if name.get_char(0) == '.' {
            assert(name@ =~= seq!['.', '.']);
            return None;
        }
    }
    assert(name@ != seq!['.', '.']) by {
        if name@ == seq!['.', '.'] {
            assert(name@[0] == '.');
        }
    }
    Some(name.substring_char(i, n).to_owned())
}

} // verus!
