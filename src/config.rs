use vstd::prelude::*;
use vstd::string::*;
use crate::classify::{Category, CategoryView, categories_view};

verus! {

/// The user's configuration: categories in the order they are consulted, and
/// the two path lists. Only `unsafe_paths` takes part in the gating decision.
pub struct Config {
    pub categories: Vec<Category>,
    pub safe_paths: Vec<String>,
    pub unsafe_paths: Vec<String>,
}

/// No two categories share a name.
pub open spec fn names_unique(cats: Seq<CategoryView>) -> bool {
    forall|i: int, j: int| 0 <= i < j < cats.len() ==> cats[i].name != cats[j].name
}

impl Config {
    pub open spec fn wf(&self) -> bool {
        names_unique(categories_view(self.categories@))
    }
}

pub open spec fn strings_view(v: Seq<String>) -> Seq<Seq<char>> {
    v.map_values(|s: String| s@)
}

pub open spec fn default_categories() -> Seq<CategoryView> {
    seq![
        CategoryView {
            name: "Images"@,
            extensions: seq!["jpg"@, "jpeg"@, "png"@, "gif"@, "bmp"@, "svg"@],
        },
        CategoryView {
            name: "Documents"@,
            extensions: seq!["pdf"@, "docx"@, "doc"@, "txt"@, "xlsx"@, "pptx"@],
        },
        CategoryView { name: "Videos"@, extensions: seq!["mp4"@, "mov"@, "avi"@, "mkv"@] },
        CategoryView { name: "Audio"@, extensions: seq!["mp3"@, "wav"@, "flac"@] },
        CategoryView { name: "Archives"@, extensions: seq!["zip"@, "rar"@, "7z"@] },
    ]
}

pub open spec fn default_unsafe_paths() -> Seq<Seq<char>> {
    seq!["C:\\Windows"@, "C:\\Program Files"@, "/etc"@, "/bin"@]
}

fn push_str(v: &mut Vec<String>, s: &str)
    ensures
        strings_view(final(v)@) == strings_view(old(v)@).push(s@),
{
    v.push(s.to_owned());
    assert(strings_view(v@) =~= strings_view(old(v)@).push(s@));
}

fn category(name: &str, extensions: Vec<String>) -> (r: Category)
    ensures
        r@ == (CategoryView { name: name@, extensions: strings_view(extensions@) }),
{
    Category { name: name.to_owned(), extensions }
}

/// The configuration written on first run: five categories, no safe paths,
/// and the usual system directories as unsafe paths.
pub fn default_config() -> (r: Config)
    ensures
        categories_view(r.categories@) == default_categories(),
        r.safe_paths@.len() == 0,
        strings_view(r.unsafe_paths@) == default_unsafe_paths(),
        r.wf(),
{
    let mut images: Vec<String> = Vec::new();
    push_str(&mut images, "jpg");
    push_str(&mut images, "jpeg");
    push_str(&mut images, "png");
    push_str(&mut images, "gif");
    push_str(&mut images, "bmp");
    push_str(&mut images, "svg");
    let mut documents: Vec<String> = Vec::new();
    push_str(&mut documents, "pdf");
    push_str(&mut documents, "docx");
    push_str(&mut documents, "doc");
    push_str(&mut documents, "txt");
    push_str(&mut documents, "xlsx");
    push_str(&mut documents, "pptx");
    let mut videos: Vec<String> = Vec::new();
    push_str(&mut videos, "mp4");
    push_str(&mut videos, "mov");
    push_str(&mut videos, "avi");
    push_str(&mut videos, "mkv");
    let mut audio: Vec<String> = Vec::new();
    push_str(&mut audio, "mp3");
    push_str(&mut audio, "wav");
    push_str(&mut audio, "flac");
    let mut archives: Vec<String> = Vec::new();
    push_str(&mut archives, "zip");
    push_str(&mut archives, "rar");
    push_str(&mut archives, "7z");
    let mut categories: Vec<Category> = Vec::new();
    categories.push(category("Images", images));
    categories.push(category("Documents", documents));
    categories.push(category("Videos", videos));
    categories.push(category("Audio", audio));
    categories.push(category("Archives", archives));
    let mut unsafe_paths: Vec<String> = Vec::new();
    push_str(&mut unsafe_paths, "C:\\Windows");
    push_str(&mut unsafe_paths, "C:\\Program Files");
    push_str(&mut unsafe_paths, "/etc");
    push_str(&mut unsafe_paths, "/bin");
    let r = Config { categories, safe_paths: Vec::new(), unsafe_paths };
    assert(strings_view(r.unsafe_paths@) =~= default_unsafe_paths());
    assert(categories_view(r.categories@) =~= default_categories()) by {
        assert(strings_view(images@) =~= default_categories()[0].extensions);
        assert(strings_view(documents@) =~= default_categories()[1].extensions);
        assert(strings_view(videos@) =~= default_categories()[2].extensions);
        assert(strings_view(audio@) =~= default_categories()[3].extensions);
        assert(strings_view(archives@) =~= default_categories()[4].extensions);
    }
    proof {
        reveal_strlit("Images");
        reveal_strlit("Documents");
        reveal_strlit("Videos");
        reveal_strlit("Audio");
        reveal_strlit("Archives");
        let cats = default_categories();
        assert(cats[0].name[0] != cats[2].name[0]);
        assert(cats[1].name.len() != cats[4].name.len());
    }
    r
}

} // verus!
