use vstd::prelude::*;

use crate::text::{decimal, decimal_string, lower_of, lowercase};

verus! {

/// Pixel dimensions of the screen a wallpaper is picked for.
#[derive(Clone, Copy, Debug, PartialEq, Eq)]
pub struct Resolution {
    pub width: u32,
    pub height: u32,
}

/// One page of search results, in the order the service returned them.
#[derive(Debug)]
pub struct QueryResult {
    pub data: Vec<WallpaperInfo>,
    pub meta: Metadata,
}

/// Summary of one catalog item: its identifier, page URL and download URL.
#[derive(Debug)]
pub struct WallpaperInfo {
    pub id: String,
    pub url: String,
    pub path: String,
}

/// Pagination data of a search: the last page and the seed of the random order.
#[derive(Debug)]
pub struct Metadata {
    pub last_page: u32,
    pub seed: String,
}

/// Detail of one catalog item.
#[derive(Debug)]
pub struct Wallpaper {
    pub tags: Vec<Tag>,
}

/// One tag attached to a catalog item.
#[derive(Debug)]
pub struct Tag {
    pub name: String,
}

/// Why a request to the catalog failed.
#[derive(Debug)]
pub enum CatalogError {
    /// The request could not be sent or its response not received.
    Transport(String),
    /// The response did not have the expected shape.
    Decode(String),
}

/// The query part of a search for items at least `width` x `height` pixels
/// large, in random order, filtered by the free text `q` when there is one.
pub open spec fn search_url_of(q: Option<Seq<char>>, width: nat, height: nat) -> Seq<char> {
    let base = "https://wallhaven.cc/api/v1/search?sorting=random&atleast="@ + decimal(width) + "x"@
        + decimal(height);
    match q {
        Some(text) => base + "&q="@ + text,
        None => base,
    }
}

/// The address of the detail of the item `id`.
pub open spec fn wallpaper_url_of(id: Seq<char>) -> Seq<char> {
    "https://wallhaven.cc/api/v1/w/"@ + id
}

/// The characters of an optional text.
pub open spec fn opt_str_view(q: Option<&str>) -> Option<Seq<char>> {
    match q {
        Some(s) => Some(s@),
        None => None,
    }
}

/// The tag names of an item, lowercased, in the order given.
pub open spec fn tag_names_of(w: Wallpaper) -> Seq<Seq<char>> {
    Seq::new(w.tags@.len(), |i: int| lower_of(w.tags@[i].name@))
}

/// The address that searches the catalog for wallpapers at least as large as
/// `atleast`, in random order, matching `q` when it is given.
pub fn search_url(q: Option<&str>, atleast: &Resolution) -> (r: String)
    ensures
        r@ == search_url_of(opt_str_view(q), atleast.width as nat, atleast.height as nat),
{
    let mut url = String::from_str("https://wallhaven.cc/api/v1/search?sorting=random&atleast=");
    let width = decimal_string(atleast.width);
    url.append(width.as_str());
    url.append("x");
    let height = decimal_string(atleast.height);
    url.append(height.as_str());
    match q {
        Some(text) => {
            url.append("&q=");
            url.append(text);
        },
        None => {},
    }
    url
}

/// The address of the detail of the wallpaper `id`.
pub fn wallpaper_url(id: &str) -> (r: String)
    ensures
        r@ == wallpaper_url_of(id@),
{
    let mut url = String::from_str("https://wallhaven.cc/api/v1/w/");
    url.append(id);
    url
}

/// The tag names of `wallpaper`, lowercased, in the order given.
pub fn tag_names(wallpaper: &Wallpaper) -> (r: Vec<String>)
    ensures
        r.deep_view() == tag_names_of(*wallpaper),
{
    let mut r: Vec<String> = Vec::new();
    let mut i: usize = 0;
    while i < wallpaper.tags.len()
        invariant
            i <= wallpaper.tags@.len(),
            r@.len() == i,
            forall|j: int| 0 <= j < i ==> #[trigger] r@[j]@ == lower_of(wallpaper.tags@[j].name@),
        decreases wallpaper.tags@.len() - i,
    {
        r.push(lowercase(wallpaper.tags[i].name.as_str()));
        i = i + 1;
    }
    assert(r.deep_view() =~= tag_names_of(*wallpaper));
    r
}

} // verus!
