use spotify_search::search::raw::{Album, Artist, Image};
use spotify_search::search::{Collection, SearchResult, Track, TrackMeta};
use spotify_search::web::{
    asset_mime_type, guess_mime_type, response_item, search_response, split_keywords,
    thumbnail_url, SearchResponseItem, FALLBACK_ALBUM_THUMBNAIL_URL, SEARCH_PAGE_SIZE,
};

fn image(height: i32, url: &str) -> Image {
    Image { height, width: height, url: url.to_string() }
}

fn result(position: u32, images: Vec<Image>, artists: &[&str]) -> SearchResult {
    SearchResult {
        collection: Collection { name: "Mix".to_string(), uri: "spotify:playlist:mix".to_string() },
        track: TrackMeta {
            added_at: "2010-08-23T10:33:01Z".to_string(),
            position,
            track: Track {
                uri: format!("spotify:track:{}", position),
                name: format!("Track {}", position),
                album: Album { name: "Album".to_string(), images },
                artists: artists.iter().map(|a| Artist { name: a.to_string() }).collect(),
            },
        },
    }
}

#[test]
fn mime_types_by_ending() {
    assert_eq!(guess_mime_type("site.css"), Some("text/css"));
    assert_eq!(guess_mime_type("app.js"), Some("application/javascript"));
    assert_eq!(guess_mime_type("index.html"), Some("text/html"));
    assert_eq!(guess_mime_type("fallback-cover.svg"), Some("image/svg+xml"));
    assert_eq!(guess_mime_type(".css"), Some("text/css"));
}

#[test]
fn mime_type_unknown() {
    assert_eq!(guess_mime_type("picture.png"), None);
    assert_eq!(guess_mime_type("css"), None);
    assert_eq!(guess_mime_type(""), None);
    assert_eq!(guess_mime_type("site.css.map"), None);
    assert_eq!(guess_mime_type("SITE.CSS"), None);
}

#[test]
fn asset_mime_type_goes_by_the_last_segment() {
    assert_eq!(asset_mime_type("index.html"), Some("text/html"));
    assert_eq!(asset_mime_type("vendor/vue@3.2.31/vue.esm-browser.js"), Some("application/javascript"));
    assert_eq!(asset_mime_type("styles.css/readme"), None);
    assert_eq!(asset_mime_type("dir/"), None);
    assert_eq!(asset_mime_type(""), None);
    assert_eq!(asset_mime_type("a/b/.svg"), Some("image/svg+xml"));
}

#[test]
fn keywords_are_the_words_of_the_query() {
    assert_eq!(split_keywords("  daft   punk\tlive "), vec!["daft", "punk", "live"]);
    assert_eq!(split_keywords(""), Vec::<String>::new());
    assert_eq!(split_keywords(" \n "), Vec::<String>::new());
    assert_eq!(split_keywords("Gün-ther"), vec!["Gün-ther"]);
}

#[test]
fn thumbnail_is_the_lowest_image() {
    let images = vec![image(640, "big"), image(64, "small"), image(300, "medium")];
    assert_eq!(thumbnail_url(&images, "fallback"), "small");
    assert_eq!(thumbnail_url(&vec![image(10, "only")], "fallback"), "only");
}

#[test]
fn thumbnail_is_the_first_of_equally_low_images() {
    let images = vec![image(300, "a"), image(64, "b"), image(64, "c"), image(64, "d")];
    assert_eq!(thumbnail_url(&images, "fallback"), "b");
    let negative = vec![image(0, "zero"), image(-5, "minus"), image(-5, "again")];
    assert_eq!(thumbnail_url(&negative, "fallback"), "minus");
}

#[test]
fn thumbnail_falls_back_without_images() {
    assert_eq!(thumbnail_url(&vec![], FALLBACK_ALBUM_THUMBNAIL_URL), "/static/fallback-cover.svg");
}

#[test]
fn response_item_shows_a_result() {
    let item = response_item(
        &result(3, vec![image(640, "big"), image(64, "small")], &["A", "B"]),
        FALLBACK_ALBUM_THUMBNAIL_URL,
    );
    assert_eq!(
        item,
        SearchResponseItem {
            title: "Track 3".to_string(),
            artists: vec!["A".to_string(), "B".to_string()],
            uri: "spotify:track:3".to_string(),
            collection: "Mix".to_string(),
            thumbnail_url: "small".to_string(),
        }
    );
}

#[test]
fn response_holds_every_result_when_they_are_few() {
    let results = vec![result(1, vec![], &["A"]), result(2, vec![image(5, "u")], &[])];
    let response = search_response(&results, SEARCH_PAGE_SIZE, FALLBACK_ALBUM_THUMBNAIL_URL);
    assert_eq!(response.total, 2);
    assert_eq!(response.items.len(), 2);
    assert_eq!(response.items[0].title, "Track 1");
    assert_eq!(response.items[0].thumbnail_url, "/static/fallback-cover.svg");
    assert_eq!(response.items[1].title, "Track 2");
    assert_eq!(response.items[1].artists, Vec::<String>::new());
    assert_eq!(response.items[1].thumbnail_url, "u");
}

#[test]
fn response_is_capped_at_the_page_size() {
    let results: Vec<SearchResult> = (1..=250).map(|p| result(p, vec![], &["A"])).collect();
    let response = search_response(&results, SEARCH_PAGE_SIZE, FALLBACK_ALBUM_THUMBNAIL_URL);
    assert_eq!(SEARCH_PAGE_SIZE, 200);
    assert_eq!(response.total, 250);
    assert_eq!(response.items.len(), 200);
    assert_eq!(response.items[0].title, "Track 1");
    assert_eq!(response.items[199].title, "Track 200");
    let none = search_response(&results, 0, FALLBACK_ALBUM_THUMBNAIL_URL);
    assert_eq!(none.total, 250);
    assert_eq!(none.items.len(), 0);
}
