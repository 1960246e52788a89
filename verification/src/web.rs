//! What a web front end needs beside the search itself: the keywords of a
//! query, one page of results in the shape of a response, and the content
//! type of a static file.

use crate::search::raw::{artist_views, image_views, Artist, ArtistView, Image, ImageView};
use crate::search::{artist_names, result_views, SearchResult, SearchResultView};
use crate::text::{
    chars_of, ends_with, has_suffix, split_words, string_of, string_texts, texts, words,
};
use vstd::prelude::*;
use vstd::string::StrSliceExecFns;

verus! {

/// How many results one response holds at most.
pub const SEARCH_PAGE_SIZE: usize = 200;

/// The image shown for an album that has none.
pub const FALLBACK_ALBUM_THUMBNAIL_URL: &'static str = "/static/fallback-cover.svg";

/// The content type that goes with the ending of `filename`, if it has one
/// of the endings `.css`, `.js`, `.html` and `.svg`.
pub open spec fn mime_type_of(filename: Seq<char>) -> Option<Seq<char>> {
    if ends_with(filename, ".css"@) {
        Some("text/css"@)
    } else if ends_with(filename, ".js"@) {
        Some("application/javascript"@)
    } else if ends_with(filename, ".html"@) {
        Some("text/html"@)
    } else if ends_with(filename, ".svg"@) {
        Some("image/svg+xml"@)
    } else {
        None
    }
}

/// The view of a content type that may be missing.
pub open spec fn mime_view(m: Option<&str>) -> Option<Seq<char>> {
    match m {
        Some(s) => Some(s@),
        None => None,
    }
}

/// The content type that goes with the ending of `filename`.
pub fn guess_mime_type(filename: &str) -> (r: Option<&str>)
    ensures
        mime_view(r) == mime_type_of(filename@),
{
    let name = chars_of(filename);
    if has_suffix(&name, &chars_of(".css")) {
        Some("text/css")
    } else if has_suffix(&name, &chars_of(".js")) {
        Some("application/javascript")
    } else if has_suffix(&name, &chars_of(".html")) {
        Some("text/html")
    } else if has_suffix(&name, &chars_of(".svg")) {
        Some("image/svg+xml")
    } else {
        None
    }
}

/// The last segment of `path`: what follows its last `/`, or all of it.
pub open spec fn file_name(path: Seq<char>) -> Seq<char>
    decreases path.len(),
{
    if path.len() == 0 || path.last() == '/' {
        Seq::empty()
    } else {
        file_name(path.drop_last()).push(path.last())
    }
}

/// The content type of the static file at `path`, which goes by the ending
/// of the last segment of the path.
pub fn asset_mime_type(path: &str) -> (r: Option<&str>)
    ensures
        mime_view(r) == mime_type_of(file_name(path@)),
{
    let chars = chars_of(path);
    let mut start: usize = chars.len();
    proof {
        assert(chars@.take(start as int) =~= chars@);
        assert(chars@.skip(start as int) =~= Seq::<char>::empty());
        assert(file_name(chars@) + Seq::<char>::empty() =~= file_name(chars@));
    }
    while start > 0 && chars[start - 1] != '/'
        invariant
            start <= chars.len(),
            file_name(chars@) == file_name(chars@.take(start as int)) + chars@.skip(start as int),
        decreases start,
    {
        proof {
            let head = chars@.take(start as int);
            assert(head.drop_last() =~= chars@.take(start - 1));
            assert(file_name(head.drop_last()).push(head.last()) + chars@.skip(start as int)
                =~= file_name(head.drop_last()) + chars@.skip(start - 1));
        }
        start -= 1;
    }
    proof {
        assert(file_name(chars@.take(start as int)) =~= Seq::<char>::empty());
        assert(file_name(chars@) =~= chars@.skip(start as int));
    }
    let file = path.substring_char(start, chars.len());
    assert(file@ =~= chars@.skip(start as int));
    guess_mime_type(file)
}

/// The keywords of a query: its words.
pub fn split_keywords(query: &str) -> (r: Vec<String>)
    ensures
        string_texts(r@) == words(query@),
{
    let parts = split_words(&chars_of(query));
    let mut r: Vec<String> = Vec::new();
    let mut i: usize = 0;
    while i < parts.len()
        invariant
            i <= parts.len(),
            string_texts(r@) == texts(parts@).take(i as int),
        decreases parts.len() - i,
    {
        let ghost before = string_texts(r@);
        r.push(string_of(&parts[i]));
        assert(string_texts(r@) =~= before.push(parts@[i as int]@));
        assert(string_texts(r@) =~= texts(parts@).take(i + 1));
        i += 1;
    }
    assert(texts(parts@).take(i as int) =~= texts(parts@));
    r
}

/// `k` is the index of the lowest image: none is lower, and none before it
/// is as low.
pub open spec fn is_lowest(images: Seq<ImageView>, k: int) -> bool {
    &&& 0 <= k < images.len()
    &&& forall|j: int| 0 <= j < images.len() ==> images[k].height <= (#[trigger] images[j]).height
    &&& forall|j: int| 0 <= j < k ==> images[k].height < (#[trigger] images[j]).height
}

/// The index of the lowest image of `images`, which holds one at least:
/// the first of those with the least height.
pub open spec fn lowest(images: Seq<ImageView>) -> int
    decreases images.len(),
{
    if images.len() <= 1 {
        0
    } else {
        let k = lowest(images.drop_last());
        if images.last().height < images[k].height {
            images.len() - 1
        } else {
            k
        }
    }
}

/// `lowest` gives the index of the lowest image, and no other index is
/// one.
pub proof fn lemma_lowest(images: Seq<ImageView>)
    requires
        images.len() > 0,
    ensures
        is_lowest(images, lowest(images)),
        forall|k: int| is_lowest(images, k) ==> k == lowest(images),
    decreases images.len(),
{
    if images.len() > 1 {
        let head = images.drop_last();
        lemma_lowest(head);
        let k = lowest(head);
        assert(is_lowest(head, k));
        assert forall|j: int| 0 <= j < head.len() implies head[k].height <= images[j].height by {
            assert(head[j] == images[j]);
        }
        assert(head[k] == images[k]);
        let m = lowest(images);
        assert(is_lowest(images, m)) by {
            assert forall|j: int| 0 <= j < m implies images[m].height < (#[trigger] images[j]).height by {
                assert(head[j] == images[j]);
                if m == k {
                } else {
                    assert(head[k].height <= head[j].height);
                }
            }
        }
    }
    let m = lowest(images);
    assert forall|k: int| is_lowest(images, k) implies k == m by {
        if k < m {
            assert(images[m].height < images[k].height);
            assert(images[k].height <= images[m].height);
        } else if m < k {
            assert(images[k].height < images[m].height);
            assert(images[m].height <= images[k].height);
        }
    }
}

/// The address of the picture shown for an album: that of its lowest
/// image, or `fallback` where it has no image.
pub open spec fn thumbnail_of(images: Seq<ImageView>, fallback: Seq<char>) -> Seq<char> {
    if images.len() == 0 {
        fallback
    } else {
        images[lowest(images)].url
    }
}

/// The address of the lowest image, the first of them where several are
/// as low, or `fallback` where there is no image.
pub fn thumbnail_url(images: &Vec<Image>, fallback: &str) -> (r: String)
    ensures
        r@ == thumbnail_of(image_views(images@), fallback@),
        images.len() > 0 ==> is_lowest(image_views(images@), lowest(image_views(images@))),
{
    if images.len() == 0 {
        return fallback.to_owned();
    }
    let ghost views = image_views(images@);
    proof {
        lemma_lowest(views);
    }
    let mut best: usize = 0;
    let mut i: usize = 1;
    assert(lowest(views.take(1)) == 0);
    while i < images.len()
        invariant
            1 <= i <= images.len(),
            views == image_views(images@),
            best < i,
            best == lowest(views.take(i as int)),
        decreases images.len() - i,
    {
        proof {
            assert(views.take(i + 1).drop_last() =~= views.take(i as int));
            assert(views.take(i + 1).last() == images@[i as int]@);
            assert(views.take(i + 1)[best as int] == images@[best as int]@);
        }
        if images[i].height < images[best].height {
            best = i;
        }
        i += 1;
    }
    assert(views.take(i as int) =~= views);
    images[best].url.clone()
}

/// One result in the shape of a response.
#[derive(Debug, PartialEq, Eq)]
pub struct SearchResponseItem {
    pub title: String,
    pub artists: Vec<String>,
    pub uri: String,
    pub collection: String,
    pub thumbnail_url: String,
}

/// What a `SearchResponseItem` stands for.
pub struct SearchResponseItemView {
    pub title: Seq<char>,
    pub artists: Seq<Seq<char>>,
    pub uri: Seq<char>,
    pub collection: Seq<char>,
    pub thumbnail_url: Seq<char>,
}

impl View for SearchResponseItem {
    type V = SearchResponseItemView;

    open spec fn view(&self) -> SearchResponseItemView {
        SearchResponseItemView {
            title: self.title@,
            artists: string_texts(self.artists@),
            uri: self.uri@,
            collection: self.collection@,
            thumbnail_url: self.thumbnail_url@,
        }
    }
}

/// The views of a sequence of response items.
pub open spec fn item_views(s: Seq<SearchResponseItem>) -> Seq<SearchResponseItemView> {
    s.map_values(|i: SearchResponseItem| i@)
}

/// The response item that shows `result`: the title of the track, the
/// names of its artists, its identifier, the name of the collection, and
/// the picture of the album.
pub open spec fn item_of(result: SearchResultView, fallback: Seq<char>) -> SearchResponseItemView {
    SearchResponseItemView {
        title: result.track.track.name,
        artists: artist_names(result.track.track.artists),
        uri: result.track.track.uri,
        collection: result.collection.name,
        thumbnail_url: thumbnail_of(result.track.track.album.images, fallback),
    }
}

/// The names of `artists`.
pub fn names_of(artists: &Vec<Artist>) -> (r: Vec<String>)
    ensures
        string_texts(r@) == artist_names(artist_views(artists@)),
{
    let mut r: Vec<String> = Vec::new();
    let mut i: usize = 0;
    let ghost names = artist_names(artist_views(artists@));
    while i < artists.len()
        invariant
            i <= artists.len(),
            names == artist_names(artist_views(artists@)),
            string_texts(r@) == names.take(i as int),
        decreases artists.len() - i,
    {
        let ghost before = string_texts(r@);
        r.push(artists[i].name.clone());
        assert(string_texts(r@) =~= before.push(artists@[i as int].name@));
        assert(string_texts(r@) =~= names.take(i + 1));
        i += 1;
    }
    assert(names.take(i as int) =~= names);
    r
}

/// The response item that shows `result`.
pub fn response_item(result: &SearchResult, fallback: &str) -> (r: SearchResponseItem)
    ensures
        r@ == item_of(result@, fallback@),
{
    SearchResponseItem {
        title: result.track.track.name.clone(),
        artists: names_of(&result.track.track.artists),
        uri: result.track.track.uri.clone(),
        collection: result.collection.name.clone(),
        thumbnail_url: thumbnail_url(&result.track.track.album.images, fallback),
    }
}

/// The answer to a query: the first results, and how many there are in
/// all.
#[derive(Debug, PartialEq, Eq)]
pub struct SearchResponse {
    pub items: Vec<SearchResponseItem>,
    pub total: usize,
}

/// The first `page_size` of `results`, or all of them if they are fewer,
/// each in the shape of a response.
pub open spec fn page_of(results: Seq<SearchResultView>, page_size: int, fallback: Seq<char>) -> Seq<
    SearchResponseItemView,
> {
    let n = if results.len() <= page_size {
        results.len() as int
    } else {
        page_size
    };
    results.take(n).map_values(|r: SearchResultView| item_of(r, fallback))
}

/// The answer that shows `results`: the number of all of them, and the
/// first `page_size` in the shape of a response.
pub fn search_response(results: &Vec<SearchResult>, page_size: usize, fallback: &str) -> (r:
    SearchResponse)
    ensures
        r.total == results.len(),
        item_views(r.items@) == page_of(result_views(results@), page_size as int, fallback@),
{
    let n: usize = if results.len() <= page_size {
        results.len()
    } else {
        page_size
    };
    let ghost shown = result_views(results@).take(n as int);
    let mut items: Vec<SearchResponseItem> = Vec::new();
    let mut i: usize = 0;
    while i < n
        invariant
            i <= n <= results.len(),
            shown == result_views(results@).take(n as int),
            item_views(items@) == shown.take(i as int).map_values(
                |r: SearchResultView| item_of(r, fallback@),
            ),
        decreases n - i,
    {
        let ghost before = item_views(items@);
        items.push(response_item(&results[i], fallback));
        assert(item_views(items@) =~= before.push(item_of(results@[i as int]@, fallback@)));
        assert(item_views(items@) =~= shown.take(i + 1).map_values(
            |r: SearchResultView| item_of(r, fallback@),
        ));
        i += 1;
    }
    assert(shown.take(i as int) =~= shown);
    SearchResponse { items, total: results.len() }
}

} // verus!
