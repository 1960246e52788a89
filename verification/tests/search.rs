use serde_json::Value;
use spotify_search::search::raw;
use spotify_search::search::raw::{Album, Artist, Image};
use spotify_search::search::{
    can_number, count_present, from_raw_track_metas, is_playlist_file, match_track, search,
    search_in_tracks, Collection, Playlist,
    SearchResult, SourceError, Track, TrackMeta, TracksPage,
};

fn text(value: &Value, key: &str) -> String {
    value[key].as_str().unwrap().to_string()
}

fn raw_artist(value: &Value) -> Artist {
    Artist { name: text(value, "name") }
}

fn raw_image(value: &Value) -> Image {
    Image {
        height: value["height"].as_i64().unwrap() as i32,
        width: value["width"].as_i64().unwrap() as i32,
        url: text(value, "url"),
    }
}

fn raw_track(value: &Value) -> raw::Track {
    raw::Track {
        uri: text(value, "uri"),
        name: text(value, "name"),
        album: Album {
            name: text(&value["album"], "name"),
            images: value["album"]["images"].as_array().unwrap().iter().map(raw_image).collect(),
        },
        artists: value["artists"].as_array().unwrap().iter().map(raw_artist).collect(),
    }
}

fn raw_track_meta(value: &Value) -> raw::TrackMeta {
    raw::TrackMeta {
        added_at: text(value, "added_at"),
        track: if value["track"].is_null() { None } else { Some(raw_track(&value["track"])) },
    }
}

fn raw_track_metas(value: &Value) -> Vec<raw::TrackMeta> {
    value.as_array().unwrap().iter().map(raw_track_meta).collect()
}

fn raw_playlist(value: &Value) -> raw::Playlist {
    raw::Playlist {
        uri: text(value, "uri"),
        name: text(value, "name"),
        tracks: raw::TracksPage { items: raw_track_metas(&value["tracks"]["items"]) },
    }
}

fn track(name: &str, artists: &[&str]) -> Track {
    Track {
        uri: format!("spotify:track:{}", name),
        name: name.to_string(),
        album: Album { name: "Album".to_string(), images: vec![] },
        artists: artists.iter().map(|a| Artist { name: a.to_string() }).collect(),
    }
}

fn entry(name: &str, artists: &[&str]) -> raw::TrackMeta {
    raw::TrackMeta { added_at: "2010-08-23T10:33:01Z".to_string(), track: Some(track(name, artists)) }
}

fn null_entry() -> raw::TrackMeta {
    raw::TrackMeta { added_at: "1970-01-01T00:00:00Z".to_string(), track: None }
}

fn playlist(name: &str, items: Vec<raw::TrackMeta>) -> raw::Playlist {
    raw::Playlist {
        uri: format!("spotify:playlist:{}", name),
        name: name.to_string(),
        tracks: raw::TracksPage { items },
    }
}

fn summary(results: &[SearchResult]) -> Vec<(String, u32, String)> {
    results
        .iter()
        .map(|r| (r.collection.name.clone(), r.track.position, r.track.track.name.clone()))
        .collect()
}

fn row(collection: &str, position: u32, name: &str) -> (String, u32, String) {
    (collection.to_string(), position, name.to_string())
}

#[test]
fn parse_playlist() {
    let test_playlist_str = r#"
        {
            "uri": "spotify:playlist:37i9dQZF1DX0aSJooo0zWR",
            "name": "my_playlist",
            "tracks": {
                "items": [
                    {
                        "added_at": "2010-08-23T10:33:01Z",
                        "track": {
                            "uri": "spotify:track:asdfasdf",
                            "name": "My track",
                            "artists": [
                                {
                                    "name": "My artist"
                                }
                            ],
                            "album": {
                                "name": "My album",
                                "images": []
                            }
                        }
                    }
                ]
            }
        }
    "#;
    let test_playlist: Playlist =
        Playlist::from(raw_playlist(&serde_json::from_str::<Value>(test_playlist_str).unwrap()));
    let expected_playlist = Playlist {
        name: "my_playlist".to_string(),
        uri: "spotify:playlist:37i9dQZF1DX0aSJooo0zWR".to_string(),
        tracks: TracksPage {
            items: vec![TrackMeta {
                added_at: "2010-08-23T10:33:01Z".to_string(),
                position: 1,
                track: Track {
                    uri: "spotify:track:asdfasdf".to_string(),
                    name: "My track".to_string(),
                    artists: vec![Artist { name: "My artist".to_string() }],
                    album: Album { name: "My album".to_string(), images: vec![] },
                },
            }],
        },
    };
    assert_eq!(test_playlist, expected_playlist)
}

#[test]
fn parse_track_without_artists() {
    let test_track_str = r#"
        {
            "uri": "spotify:track:asdfasdf",
            "name": "My track",
            "artists": [
                {
                    "name": ""
                }
            ],
            "album": {
                "name": "Album",
                "images": []
            }
        }
    "#;
    let test_track =
        Track::from_raw(raw_track(&serde_json::from_str::<Value>(test_track_str).unwrap()));
    assert_eq!(test_track.artists.len(), 0)
}

#[test]
fn parse_track_metas_exclude_null_tracks() {
    let test_tracks_page_str = r#"
        [
            {
                "added_at": "1970-01-01T00:00:00Z",
                "track": null
            },
            {
                "added_at": "2010-08-23T10:33:01Z",
                "track": {
                    "uri": "spotify:track:asdfasdf",
                    "name": "My track",
                    "artists": [
                        {
                            "name": "My artist"
                        }
                    ],
                    "album": {
                        "name": "Album",
                        "images": []
                    }
                }
            }
        ]
    "#;
    let test_track_metas = from_raw_track_metas(raw_track_metas(
        &serde_json::from_str::<Value>(test_tracks_page_str).unwrap(),
    ));
    assert_eq!(test_track_metas.len(), 1);
    assert_eq!(test_track_metas[0].track.name, "My track");
}

#[test]
fn from_raw_keeps_named_artists_in_order() {
    let sanitized = Track::from_raw(track("Song", &["", "First", "", "Second", ""]));
    assert_eq!(
        sanitized.artists,
        vec![Artist { name: "First".to_string() }, Artist { name: "Second".to_string() }]
    );
    assert_eq!(sanitized.name, "Song");
    assert_eq!(sanitized.uri, "spotify:track:Song");
    assert_eq!(sanitized.album, Album { name: "Album".to_string(), images: vec![] });
}

#[test]
fn from_raw_keeps_the_album_images() {
    let mut raw_track = track("Song", &["Someone"]);
    raw_track.album.images = vec![
        Image { height: 640, width: 640, url: "big".to_string() },
        Image { height: 64, width: 64, url: "small".to_string() },
    ];
    let expected = raw_track.album.images.clone();
    let sanitized = Track::from_raw(raw_track);
    assert_eq!(sanitized.album.images, expected);
}

#[test]
fn null_tracks_take_no_position() {
    let metas = from_raw_track_metas(vec![
        null_entry(),
        entry("T1", &["A"]),
        null_entry(),
        entry("T2", &[""]),
    ]);
    assert_eq!(metas.len(), 2);
    assert_eq!(metas[0].position, 1);
    assert_eq!(metas[0].track.name, "T1");
    assert_eq!(metas[0].added_at, "2010-08-23T10:33:01Z");
    assert_eq!(metas[1].position, 2);
    assert_eq!(metas[1].track.name, "T2");
    assert_eq!(metas[1].track.artists.len(), 0);
}

#[test]
fn sanitizing_nothing_gives_nothing() {
    assert_eq!(from_raw_track_metas(vec![]), vec![]);
    assert_eq!(from_raw_track_metas(vec![null_entry(), null_entry()]), vec![]);
}

#[test]
fn matcher_is_a_conjunction() {
    let t = track("My track", &["My artist"]);
    assert!(match_track(&t, &["my", "track"]));
    assert!(match_track(&t, &["my", "artist"]));
    assert!(!match_track(&t, &["my", "other"]));
}

#[test]
fn matcher_with_several_artists() {
    let t = track("Song", &["A B", "C D"]);
    assert!(match_track(&t, &["a", "d"]));
    assert!(!match_track(&t, &["a", "z"]));
}

#[test]
fn no_keywords_match_every_track() {
    assert!(match_track(&track("My track", &["My artist"]), &[]));
    assert!(match_track(&track("", &[]), &[]));
}

#[test]
fn matcher_without_artists_checks_the_title() {
    let t = track("Lonely Title", &[]);
    assert!(match_track(&t, &["lonely"]));
    assert!(match_track(&t, &["TITLE", "lonely"]));
    assert!(!match_track(&t, &["artist"]));
}

#[test]
fn matcher_normalizes_both_sides() {
    let t = track("P.O.W.E.R", &["Günther & $imon"]);
    assert!(match_track(&t, &["power"]));
    assert!(match_track(&t, &["POWER", "gunther"]));
    assert!(match_track(&t, &["and simon"]));
    assert!(match_track(&t, &["Gün-ther"]));
    assert!(match_track(&t, &["p-o-w"]));
    assert!(!match_track(&t, &["garfunkel"]));
}

#[test]
fn matcher_does_not_join_title_and_artist() {
    let t = track("ab", &["cd"]);
    assert!(!match_track(&t, &["abcd"]));
    assert!(!match_track(&t, &["bc"]));
    assert!(match_track(&t, &["b", "c"]));
}

#[test]
fn search_in_tracks_keeps_order_and_positions() {
    let collection = Collection { name: "Mix".to_string(), uri: "spotify:playlist:mix".to_string() };
    let tracks = from_raw_track_metas(vec![
        entry("Blue one", &["X"]),
        null_entry(),
        entry("Red", &["Y"]),
        entry("Another", &["Blue band"]),
        entry("blue-ish", &[""]),
    ]);
    let found = search_in_tracks(&collection, &tracks, &["blue"]);
    assert_eq!(
        summary(&found),
        vec![row("Mix", 1, "Blue one"), row("Mix", 3, "Another"), row("Mix", 4, "blue-ish")]
    );
    assert_eq!(found[0].collection.uri, "spotify:playlist:mix");
    assert_eq!(found[1].track, tracks[2]);
    assert_eq!(search_in_tracks(&collection, &tracks, &["green"]).len(), 0);
    assert_eq!(search_in_tracks(&collection, &tracks, &[]).len(), 4);
}

#[test]
fn search_puts_the_library_first_then_playlists_in_order() {
    let library = vec![entry("Sun song", &["A"]), entry("Rain", &["B"]), entry("Sunny", &["C"])];
    let playlists = vec![
        Ok(playlist("second", vec![entry("No match", &["Z"]), entry("Sunset", &["D"])])),
        Ok(playlist("first", vec![null_entry(), entry("Sun", &["E"]), entry("Midnight sun", &["F"])])),
    ];
    let outcome = search(Ok(library), playlists, &["sun"]);
    assert_eq!(
        summary(&outcome.results),
        vec![
            row("Library", 1, "Sun song"),
            row("Library", 3, "Sunny"),
            row("second", 2, "Sunset"),
            row("first", 1, "Sun"),
            row("first", 2, "Midnight sun"),
        ]
    );
    assert_eq!(outcome.results[0].collection.uri, "spotify:collection:tracks");
    assert_eq!(outcome.results[2].collection.uri, "spotify:playlist:second");
    assert_eq!(outcome.diagnostics, vec![]);
}

#[test]
fn search_isolates_a_failed_playlist() {
    let bad = SourceError::Decode {
        file: "broken.json".to_string(),
        cause: "expected value at line 1 column 1".to_string(),
    };
    let library = vec![entry("Keep me", &["A"])];
    let playlists = vec![
        Ok(playlist("one", vec![entry("Keep one", &["B"])])),
        Err(bad),
        Ok(playlist("two", vec![entry("Keep two", &["C"])])),
        Ok(playlist("three", vec![entry("Drop", &["D"])])),
    ];
    let outcome = search(Ok(library), playlists, &["keep"]);
    assert_eq!(
        summary(&outcome.results),
        vec![row("Library", 1, "Keep me"), row("one", 1, "Keep one"), row("two", 1, "Keep two")]
    );
    assert_eq!(
        outcome.diagnostics,
        vec![SourceError::Decode {
            file: "broken.json".to_string(),
            cause: "expected value at line 1 column 1".to_string(),
        }]
    );
}

#[test]
fn search_goes_on_without_the_library() {
    let failed = SourceError::Read {
        file: "tracks.json".to_string(),
        cause: "No such file or directory".to_string(),
    };
    let playlists = vec![
        Err(SourceError::Decode { file: "a.json".to_string(), cause: "EOF".to_string() }),
        Ok(playlist("p", vec![entry("Song", &["A"])])),
        Err(SourceError::Read { file: "b.json".to_string(), cause: "denied".to_string() }),
    ];
    let outcome = search(Err(failed), playlists, &[]);
    assert_eq!(summary(&outcome.results), vec![row("p", 1, "Song")]);
    assert_eq!(
        outcome.diagnostics,
        vec![
            SourceError::Read {
                file: "tracks.json".to_string(),
                cause: "No such file or directory".to_string(),
            },
            SourceError::Decode { file: "a.json".to_string(), cause: "EOF".to_string() },
            SourceError::Read { file: "b.json".to_string(), cause: "denied".to_string() },
        ]
    );
}

#[test]
fn search_of_nothing_finds_nothing() {
    let outcome = search(Ok(vec![]), vec![], &["any"]);
    assert_eq!(outcome.results.len(), 0);
    assert_eq!(outcome.diagnostics.len(), 0);
}

#[test]
fn source_error_messages() {
    let read = SourceError::Read { file: "\"tracks.json\"".to_string(), cause: "denied".to_string() };
    assert_eq!(read.message(), "Could not read \"tracks.json\": denied");
    let decode = SourceError::Decode {
        file: "\"mix.json\"".to_string(),
        cause: "EOF while parsing a value at line 1 column 0".to_string(),
    };
    assert_eq!(
        decode.message(),
        "Could not parse \"mix.json\": EOF while parsing a value at line 1 column 0"
    );
}

#[test]
fn clones_are_equal() {
    let metas = from_raw_track_metas(vec![entry("T", &["A", "B"])]);
    assert_eq!(metas[0].clone(), metas[0]);
    let raw = entry("T", &["A", ""]);
    assert_eq!(raw.clone(), raw);
    assert_eq!(null_entry().clone(), null_entry());
}

#[test]
fn playlist_files_have_the_json_extension() {
    assert!(is_playlist_file("mix.json", false));
    assert!(is_playlist_file("my.mix.json", false));
    assert!(is_playlist_file("..json", false));
    assert!(!is_playlist_file("mix.json", true));
    assert!(!is_playlist_file(".json", false));
    assert!(!is_playlist_file("json", false));
    assert!(!is_playlist_file("mix.JSON", false));
    assert!(!is_playlist_file("mix.json.bak", false));
    assert!(!is_playlist_file("mix", false));
    assert!(!is_playlist_file("", false));
}

#[test]
fn playlist_files_agree_with_path_extension() {
    for name in ["a.json", ".json", "..json", "a.b.json", "a.", "a", "a.jsonx", "a.json.", "json", "é.json"] {
        let expected = std::path::Path::new(name).extension().and_then(|e| e.to_str()) == Some("json");
        assert_eq!(is_playlist_file(name, false), expected, "name {:?}", name);
    }
}

#[test]
fn counting_the_entries_that_hold_a_track() {
    let items = vec![null_entry(), entry("T1", &["A"]), null_entry(), entry("T2", &[])];
    assert_eq!(count_present(&items), 2);
    assert!(can_number(&items));
    assert_eq!(count_present(&vec![]), 0);
    assert!(can_number(&vec![]));
}
