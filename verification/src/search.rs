//! Sanitizing the entries of a backup and searching them for keywords.

use crate::normalize::{normalize_keyword, normalized};
use crate::search::raw::{artist_views, Artist, ArtistView, TrackView};
use crate::text::{chars_of, contains, ends_with, has_suffix, occurs_in, slice_texts, texts};
use vstd::prelude::*;
use vstd::string::StringExecFns;

pub mod laws;
pub mod raw;

pub use raw::Track;

verus! {

/// Whether an artist is a real one: its name is not empty.
pub open spec fn has_name(a: ArtistView) -> bool {
    a.name.len() > 0
}

/// The test that real artists pass.
pub open spec fn named() -> spec_fn(ArtistView) -> bool {
    |a: ArtistView| has_name(a)
}

/// A track is well formed when each of its artists has a name.
pub open spec fn well_formed(t: TrackView) -> bool {
    forall|i: int| 0 <= i < t.artists.len() ==> has_name(#[trigger] t.artists[i])
}

/// The track `t` without the artists that have no name.
pub open spec fn sanitized_track(t: TrackView) -> TrackView {
    TrackView { uri: t.uri, name: t.name, album: t.album, artists: t.artists.filter(named()) }
}

/// Sanitizing yields a well-formed track, and changes nothing in a track
/// that is well formed.
pub proof fn lemma_sanitized_track(t: TrackView)
    ensures
        well_formed(sanitized_track(t)),
        well_formed(t) ==> sanitized_track(t) == t,
{
    lemma_named_only(t.artists);
}

/// What is left of `s` are artists with a name, and all of `s` is left if
/// all have one.
pub proof fn lemma_named_only(s: Seq<ArtistView>)
    ensures
        forall|i: int| 0 <= i < s.filter(named()).len() ==> has_name(#[trigger] s.filter(named())[i]),
        (forall|i: int| 0 <= i < s.len() ==> has_name(#[trigger] s[i])) ==> s.filter(named()) == s,
    decreases s.len(),
{
    reveal(Seq::filter);
    if s.len() > 0 {
        let head = s.drop_last();
        lemma_named_only(head);
        let out = s.filter(named());
        assert forall|i: int| 0 <= i < out.len() implies has_name(#[trigger] out[i]) by {
            if i < head.filter(named()).len() {
                assert(out[i] == head.filter(named())[i]);
            }
        }
        if forall|i: int| 0 <= i < s.len() ==> has_name(#[trigger] s[i]) {
            assert forall|i: int| 0 <= i < head.len() implies has_name(#[trigger] head[i]) by {
                assert(head[i] == s[i]);
            }
            assert(has_name(s[s.len() - 1]));
            assert(named()(s.last()));
            assert(head.push(s.last()) =~= s);
        }
    }
}

impl Track {
    /// The track without the artists that have no name: a track without a
    /// real artist comes with one artist whose name is empty.
    pub fn from_raw(track: raw::Track) -> (r: Self)
        ensures
            r@ == sanitized_track(track@),
            well_formed(r@),
    {
        let ghost all = track.artists@;
        let mut artists: Vec<Artist> = Vec::new();
        proof {
            reveal(Seq::filter);
            assert(artist_views(all.take(0)) =~= Seq::<ArtistView>::empty());
            assert(artist_views(artists@) =~= Seq::<ArtistView>::empty());
        }
        for artist in it: track.artists
            invariant
                it.seq() == all,
                artist_views(artists@) == artist_views(all.take(it.index() as int)).filter(named()),
        {
            let ghost i = it.index() as int;
            let ghost kept = artist_views(artists@);
            proof {
                assert(artist_views(all.take(i + 1)) =~= artist_views(all.take(i)).push(artist@));
                artist_views(all.take(i)).lemma_filter_push(artist@, named());
            }
            if !artist.name.as_str().is_empty() {
                artists.push(artist);
                assert(artist_views(artists@) =~= kept.push(artist@));
            }
        }
        proof {
            assert(all.take(all.len() as int) =~= all);
            lemma_sanitized_track(track@);
        }
        Track { uri: track.uri, name: track.name, album: track.album, artists }
    }
}

/// An entry of a collection after sanitizing: when it was added, its place
/// among the entries that were kept, counted from 1, and its track.
#[derive(Debug, PartialEq, Eq)]
pub struct TrackMeta {
    pub added_at: String,
    pub position: u32,
    pub track: Track,
}

/// What a `TrackMeta` stands for.
pub struct TrackMetaView {
    pub added_at: Seq<char>,
    pub position: nat,
    pub track: TrackView,
}

impl View for TrackMeta {
    type V = TrackMetaView;

    open spec fn view(&self) -> TrackMetaView {
        TrackMetaView {
            added_at: self.added_at@,
            position: self.position as nat,
            track: self.track@,
        }
    }
}

impl Clone for TrackMeta {
    fn clone(&self) -> (r: Self)
        ensures
            r@ == self@,
    {
        TrackMeta {
            added_at: self.added_at.clone(),
            position: self.position,
            track: self.track.clone(),
        }
    }
}

/// The views of a sequence of entries.
pub open spec fn meta_views(s: Seq<TrackMeta>) -> Seq<TrackMetaView> {
    s.map_values(|m: TrackMeta| m@)
}

/// A copy of `items`.
pub fn clone_items(items: &Vec<TrackMeta>) -> (r: Vec<TrackMeta>)
    ensures
        meta_views(r@) == meta_views(items@),
{
    let mut r: Vec<TrackMeta> = Vec::new();
    let mut i: usize = 0;
    while i < items.len()
        invariant
            i <= items.len(),
            meta_views(r@) == meta_views(items@).take(i as int),
        decreases items.len() - i,
    {
        let ghost before = meta_views(r@);
        r.push(items[i].clone());
        assert(meta_views(r@) =~= before.push(items@[i as int]@));
        assert(meta_views(r@) =~= meta_views(items@).take(i + 1));
        i += 1;
    }
    assert(meta_views(items@).take(i as int) =~= meta_views(items@));
    r
}

/// The entries of a sanitized playlist.
#[derive(Debug, PartialEq, Eq)]
pub struct TracksPage {
    pub items: Vec<TrackMeta>,
}

impl Clone for TracksPage {
    fn clone(&self) -> (r: Self)
        ensures
            meta_views(r.items@) == meta_views(self.items@),
    {
        TracksPage { items: clone_items(&self.items) }
    }
}

/// A sanitized playlist.
#[derive(Debug, PartialEq, Eq)]
pub struct Playlist {
    pub uri: String,
    pub name: String,
    pub tracks: TracksPage,
}

/// What a `Playlist` stands for.
pub struct PlaylistView {
    pub uri: Seq<char>,
    pub name: Seq<char>,
    pub items: Seq<TrackMetaView>,
}

impl View for Playlist {
    type V = PlaylistView;

    open spec fn view(&self) -> PlaylistView {
        PlaylistView { uri: self.uri@, name: self.name@, items: meta_views(self.tracks.items@) }
    }
}

impl Clone for Playlist {
    fn clone(&self) -> (r: Self)
        ensures
            r@ == self@,
    {
        Playlist {
            uri: self.uri.clone(),
            name: self.name.clone(),
            tracks: self.tracks.clone(),
        }
    }
}

/// The test that an entry passes when it holds a track.
pub open spec fn present() -> spec_fn(raw::TrackMetaView) -> bool {
    |m: raw::TrackMetaView| m.track is Some
}

/// The entries of `items` that hold a track, in their order.
pub open spec fn surviving(items: Seq<raw::TrackMetaView>) -> Seq<raw::TrackMetaView> {
    items.filter(present())
}

/// The sanitized entry made of the raw entry `m`, which holds a track, at
/// index `i` among the surviving ones.
pub open spec fn sanitized_item(m: raw::TrackMetaView, i: int) -> TrackMetaView {
    TrackMetaView {
        added_at: m.added_at,
        position: (i + 1) as nat,
        track: sanitized_track(m.track->0),
    }
}

/// The sanitized entries of a collection: those that hold a track, each
/// with its sanitized track, numbered from 1 in their order.
pub open spec fn sanitized_items(items: Seq<raw::TrackMetaView>) -> Seq<TrackMetaView> {
    Seq::new(surviving(items).len(), |i: int| sanitized_item(surviving(items)[i], i))
}

/// Each entry stands at the place that its position names, and each track
/// is well formed.
pub open spec fn well_numbered(items: Seq<TrackMetaView>) -> bool {
    forall|i: int|
        0 <= i < items.len() ==> (#[trigger] items[i]).position == i + 1 && well_formed(
            items[i].track,
        )
}

/// Sanitized entries are well numbered, and there are as many of them as
/// raw entries that hold a track.
pub proof fn lemma_sanitized_items(items: Seq<raw::TrackMetaView>)
    ensures
        well_numbered(sanitized_items(items)),
        sanitized_items(items).len() == surviving(items).len(),
        sanitized_items(items).len() <= items.len(),
{
    let out = sanitized_items(items);
    assert forall|i: int| 0 <= i < out.len() implies (#[trigger] out[i]).position == i + 1
        && well_formed(out[i].track) by {
        lemma_sanitized_track(surviving(items)[i].track->0);
    }
    items.lemma_filter_len(present());
}

/// The entries that hold a track can be numbered with `u32` positions.
pub open spec fn numberable(items: Seq<raw::TrackMetaView>) -> bool {
    surviving(items).len() <= u32::MAX
}

/// How many entries of `tracks` hold a track.
pub fn count_present(tracks: &Vec<raw::TrackMeta>) -> (n: usize)
    ensures
        n == surviving(raw::item_views(tracks@)).len(),
{
    let ghost views = raw::item_views(tracks@);
    let mut n: usize = 0;
    let mut i: usize = 0;
    proof {
        reveal(Seq::filter);
        assert(views.take(0) =~= Seq::<raw::TrackMetaView>::empty());
    }
    while i < tracks.len()
        invariant
            i <= tracks.len(),
            views == raw::item_views(tracks@),
            n == surviving(views.take(i as int)).len(),
            n <= i,
        decreases tracks.len() - i,
    {
        proof {
            assert(views.take(i + 1) =~= views.take(i as int).push(tracks@[i as int]@));
            views.take(i as int).lemma_filter_push(tracks@[i as int]@, present());
        }
        if tracks[i].track.is_some() {
            n += 1;
        }
        i += 1;
    }
    assert(views.take(i as int) =~= views);
    n
}

/// Whether the entries of `tracks` that hold a track can be numbered with
/// `u32` positions: whether `from_raw_track_metas` takes them.
pub fn can_number(tracks: &Vec<raw::TrackMeta>) -> (r: bool)
    ensures
        r == numberable(raw::item_views(tracks@)),
{
    count_present(tracks) <= 0xFFFF_FFFF
}

/// The sanitized entries of `tracks`: entries without a track are left out
/// and take no position.
pub fn from_raw_track_metas(tracks: Vec<raw::TrackMeta>) -> (r: Vec<TrackMeta>)
    requires
        numberable(raw::item_views(tracks@)),
    ensures
        meta_views(r@) == sanitized_items(raw::item_views(tracks@)),
        well_numbered(meta_views(r@)),
{
    let ghost all = tracks@;
    let ghost views = raw::item_views(all);
    let mut out: Vec<TrackMeta> = Vec::new();
    proof {
        reveal(Seq::filter);
        assert(raw::item_views(all.take(0)) =~= Seq::<raw::TrackMetaView>::empty());
        assert(meta_views(out@) =~= sanitized_items(raw::item_views(all.take(0))));
    }
    for item in it: tracks
        invariant
            it.seq() == all,
            views == raw::item_views(all),
            surviving(views).len() <= u32::MAX,
            meta_views(out@) == sanitized_items(raw::item_views(all.take(it.index() as int))),
    {
        let ghost i = it.index() as int;
        let ghost seen = raw::item_views(all.take(i));
        let ghost next = raw::item_views(all.take(i + 1));
        let ghost before = meta_views(out@);
        proof {
            assert(next =~= seen.push(item@));
            seen.lemma_filter_push(item@, present());
            assert(raw::item_views(all.skip(i + 1)) + Seq::<raw::TrackMetaView>::empty()
                =~= raw::item_views(all.skip(i + 1)));
            assert(views =~= next + raw::item_views(all.skip(i + 1)));
            Seq::filter_distributes_over_add(next, raw::item_views(all.skip(i + 1)), present());
        }
        match item.track {
            Some(track) => {
                assert(surviving(next).len() <= u32::MAX);
                assert(out.len() == surviving(seen).len()) by {
                    assert(before.len() == out@.len());
                    assert(sanitized_items(seen).len() == surviving(seen).len());
                }
                let position: u32 = (out.len() + 1) as u32;
                out.push(TrackMeta { added_at: item.added_at, position, track: Track::from_raw(track) });
                assert(meta_views(out@) =~= sanitized_items(next)) by {
                    assert(meta_views(out@) =~= before.push(sanitized_item(item@, surviving(seen).len() as int)));
                }
            },
            None => {
                assert(surviving(next) == surviving(seen));
            },
        }
    }
    proof {
        assert(all.take(all.len() as int) =~= all);
        lemma_sanitized_items(views);
    }
    out
}

impl Playlist {
    /// The sanitized playlist made of a raw one.
    pub fn from(playlist: raw::Playlist) -> (r: Self)
        requires
            numberable(playlist@.items),
        ensures
            r@.uri == playlist@.uri,
            r@.name == playlist@.name,
            r@.items == sanitized_items(playlist@.items),
            well_numbered(r@.items),
    {
        Playlist {
            uri: playlist.uri,
            name: playlist.name,
            tracks: TracksPage { items: from_raw_track_metas(playlist.tracks.items) },
        }
    }
}

/// The keyword is a substring of the title or of the name of at least one
/// artist.
pub open spec fn found(title: Seq<char>, artists: Seq<Seq<char>>, keyword: Seq<char>) -> bool {
    ||| occurs_in(title, keyword)
    ||| exists|j: int| 0 <= j < artists.len() && occurs_in(#[trigger] artists[j], keyword)
}

/// Every keyword is found, each on its own: in the title or in any one of
/// the artists' names. Of no keywords at all this holds.
pub open spec fn found_all(
    title: Seq<char>,
    artists: Seq<Seq<char>>,
    keywords: Seq<Seq<char>>,
) -> bool {
    forall|i: int| 0 <= i < keywords.len() ==> found(title, artists, #[trigger] keywords[i])
}

/// The canonical forms of the texts in `ts`.
pub open spec fn normalized_all(ts: Seq<Seq<char>>) -> Seq<Seq<char>> {
    ts.map_values(|t: Seq<char>| normalized(t))
}

/// The names of `artists`.
pub open spec fn artist_names(artists: Seq<ArtistView>) -> Seq<Seq<char>> {
    artists.map_values(|a: ArtistView| a.name)
}

/// A track matches a list of keywords when the canonical form of every
/// keyword is found in the canonical form of its title or of the name of
/// one of its artists.
pub open spec fn track_matches(track: TrackView, keywords: Seq<Seq<char>>) -> bool {
    found_all(
        normalized(track.name),
        normalized_all(artist_names(track.artists)),
        normalized_all(keywords),
    )
}

/// An empty list of keywords matches every track.
pub proof fn lemma_no_keywords_match(track: TrackView, keywords: Seq<Seq<char>>)
    requires
        keywords.len() == 0,
    ensures
        track_matches(track, keywords),
{
}

/// Whether `keyword` is a substring of `title` or of one of `artists`.
pub fn find_keyword(title: &Vec<char>, artists: &Vec<Vec<char>>, keyword: &Vec<char>) -> (r: bool)
    ensures
        r == found(title@, texts(artists@), keyword@),
{
    if contains(title, keyword) {
        return true;
    }
    let mut j: usize = 0;
    while j < artists.len()
        invariant
            j <= artists.len(),
            forall|k: int| 0 <= k < j ==> !occurs_in(#[trigger] texts(artists@)[k], keyword@),
        decreases artists.len() - j,
    {
        if contains(&artists[j], keyword) {
            assert(occurs_in(texts(artists@)[j as int], keyword@));
            return true;
        }
        j += 1;
    }
    false
}

/// Whether each of `keywords` is a substring of `title` or of one of
/// `artists`. All texts are taken as they are.
pub fn find_keywords(title: &Vec<char>, artists: &Vec<Vec<char>>, keywords: &Vec<Vec<char>>) -> (r:
    bool)
    ensures
        r == found_all(title@, texts(artists@), texts(keywords@)),
{
    let mut i: usize = 0;
    while i < keywords.len()
        invariant
            i <= keywords.len(),
            forall|k: int|
                0 <= k < i ==> found(title@, texts(artists@), #[trigger] texts(keywords@)[k]),
        decreases keywords.len() - i,
    {
        if !find_keyword(title, artists, &keywords[i]) {
            assert(!found(title@, texts(artists@), texts(keywords@)[i as int]));
            return false;
        }
        i += 1;
    }
    true
}

/// The characters of the canonical form of each keyword.
pub fn normalize_keywords(keywords: &[&str]) -> (r: Vec<Vec<char>>)
    ensures
        texts(r@) == normalized_all(slice_texts(keywords@)),
{
    let mut r: Vec<Vec<char>> = Vec::new();
    let mut i: usize = 0;
    while i < keywords.len()
        invariant
            i <= keywords.len(),
            texts(r@) == normalized_all(slice_texts(keywords@).take(i as int)),
        decreases keywords.len() - i,
    {
        let ghost before = texts(r@);
        let ghost seen = slice_texts(keywords@).take(i as int);
        let word = normalize_keyword(keywords[i]);
        r.push(chars_of(word.as_str()));
        proof {
            assert(texts(r@) =~= before.push(word@));
            assert(slice_texts(keywords@).take(i + 1) =~= seen.push(keywords@[i as int]@));
            assert(normalized_all(seen.push(keywords@[i as int]@)) =~= normalized_all(seen).push(
                word@,
            ));
        }
        i += 1;
    }
    assert(slice_texts(keywords@).take(i as int) =~= slice_texts(keywords@));
    r
}

/// The characters of the canonical form of each artist's name.
pub fn normalize_artists(artists: &Vec<Artist>) -> (r: Vec<Vec<char>>)
    ensures
        texts(r@) == normalized_all(artist_names(artist_views(artists@))),
{
    let mut r: Vec<Vec<char>> = Vec::new();
    let mut i: usize = 0;
    let ghost names = artist_names(artist_views(artists@));
    while i < artists.len()
        invariant
            i <= artists.len(),
            names == artist_names(artist_views(artists@)),
            texts(r@) == normalized_all(names.take(i as int)),
        decreases artists.len() - i,
    {
        let ghost before = texts(r@);
        let ghost seen = names.take(i as int);
        let name = normalize_keyword(artists[i].name.as_str());
        r.push(chars_of(name.as_str()));
        proof {
            assert(texts(r@) =~= before.push(name@));
            assert(names.take(i + 1) =~= seen.push(artists@[i as int].name@));
            assert(normalized_all(seen.push(artists@[i as int].name@)) =~= normalized_all(
                seen,
            ).push(name@));
        }
        i += 1;
    }
    assert(names.take(i as int) =~= names);
    r
}

/// Whether `track` matches `keywords`: every keyword, in its canonical
/// form, is a substring of the canonical form of the title or of the name
/// of at least one artist. Different keywords may be found in different
/// places; an empty list of keywords matches every track.
pub fn match_track(track: &Track, keywords: &[&str]) -> (r: bool)
    ensures
        r == track_matches(track@, slice_texts(keywords@)),
{
    let title = normalize_keyword(track.name.as_str());
    let title_chars = chars_of(title.as_str());
    let artists = normalize_artists(&track.artists);
    let wanted = normalize_keywords(keywords);
    find_keywords(&title_chars, &artists, &wanted)
}

/// The library or a playlist: the group under which results are shown.
#[derive(Debug)]
pub struct Collection {
    pub name: String,
    pub uri: String,
}

/// What a `Collection` stands for.
pub struct CollectionView {
    pub name: Seq<char>,
    pub uri: Seq<char>,
}

impl View for Collection {
    type V = CollectionView;

    open spec fn view(&self) -> CollectionView {
        CollectionView { name: self.name@, uri: self.uri@ }
    }
}

impl Clone for Collection {
    fn clone(&self) -> (r: Self)
        ensures
            r@ == self@,
    {
        Collection { name: self.name.clone(), uri: self.uri.clone() }
    }
}

/// A matching entry with the collection it was found in.
#[derive(Debug)]
pub struct SearchResult {
    pub collection: Collection,
    pub track: TrackMeta,
}

/// What a `SearchResult` stands for.
pub struct SearchResultView {
    pub collection: CollectionView,
    pub track: TrackMetaView,
}

impl View for SearchResult {
    type V = SearchResultView;

    open spec fn view(&self) -> SearchResultView {
        SearchResultView { collection: self.collection@, track: self.track@ }
    }
}

impl Clone for SearchResult {
    fn clone(&self) -> (r: Self)
        ensures
            r@ == self@,
    {
        SearchResult { collection: self.collection.clone(), track: self.track.clone() }
    }
}

/// The views of a sequence of results.
pub open spec fn result_views(s: Seq<SearchResult>) -> Seq<SearchResultView> {
    s.map_values(|r: SearchResult| r@)
}

/// The test that an entry passes when its track matches `keywords`.
pub open spec fn matching(keywords: Seq<Seq<char>>) -> spec_fn(TrackMetaView) -> bool {
    |m: TrackMetaView| track_matches(m.track, keywords)
}

/// The results of one collection: its entries that match `keywords`, in
/// their order, each with the collection.
pub open spec fn matches_in(
    collection: CollectionView,
    items: Seq<TrackMetaView>,
    keywords: Seq<Seq<char>>,
) -> Seq<SearchResultView> {
    items.filter(matching(keywords)).map_values(
        |m: TrackMetaView| SearchResultView { collection, track: m },
    )
}

/// The entries of `tracks` that match `keywords`, in their order, each
/// with a copy of `collection`.
pub fn search_in_tracks(collection: &Collection, tracks: &Vec<TrackMeta>, keywords: &[&str]) -> (r:
    Vec<SearchResult>)
    ensures
        result_views(r@) == matches_in(collection@, meta_views(tracks@), slice_texts(keywords@)),
{
    let mut r: Vec<SearchResult> = Vec::new();
    let mut i: usize = 0;
    let ghost items = meta_views(tracks@);
    let ghost words = slice_texts(keywords@);
    proof {
        reveal(Seq::filter);
        assert(items.take(0) =~= Seq::<TrackMetaView>::empty());
        assert(result_views(r@) =~= matches_in(collection@, items.take(0), words));
    }
    while i < tracks.len()
        invariant
            i <= tracks.len(),
            items == meta_views(tracks@),
            words == slice_texts(keywords@),
            result_views(r@) == matches_in(collection@, items.take(i as int), words),
        decreases tracks.len() - i,
    {
        let ghost before = result_views(r@);
        proof {
            assert(items.take(i + 1) =~= items.take(i as int).push(tracks@[i as int]@));
            items.take(i as int).lemma_filter_push(tracks@[i as int]@, matching(words));
        }
        if match_track(&tracks[i].track, keywords) {
            r.push(SearchResult { collection: collection.clone(), track: tracks[i].clone() });
            assert(result_views(r@) =~= matches_in(collection@, items.take(i + 1), words)) by {
                assert(result_views(r@) =~= before.push(
                    SearchResultView { collection: collection@, track: tracks@[i as int]@ },
                ));
            }
        }
        i += 1;
    }
    assert(items.take(i as int) =~= items);
    r
}

/// Why a file of the backup gave no entries: it could not be read, or what
/// it holds is not a document of the expected shape. Each names the file
/// and the cause.
#[derive(Debug, PartialEq, Eq)]
pub enum SourceError {
    Read { file: String, cause: String },
    Decode { file: String, cause: String },
}

/// What a `SourceError` stands for.
pub enum SourceErrorView {
    Read { file: Seq<char>, cause: Seq<char> },
    Decode { file: Seq<char>, cause: Seq<char> },
}

impl View for SourceError {
    type V = SourceErrorView;

    open spec fn view(&self) -> SourceErrorView {
        match *self {
            SourceError::Read { file, cause } => SourceErrorView::Read {
                file: file@,
                cause: cause@,
            },
            SourceError::Decode { file, cause } => SourceErrorView::Decode {
                file: file@,
                cause: cause@,
            },
        }
    }
}

/// The line that reports the error `e`.
pub open spec fn message_of(e: SourceErrorView) -> Seq<char> {
    match e {
        SourceErrorView::Read { file, cause } => "Could not read "@ + file + ": "@ + cause,
        SourceErrorView::Decode { file, cause } => "Could not parse "@ + file + ": "@ + cause,
    }
}

impl SourceError {
    /// The line that reports this error: what failed, the file, and the
    /// cause.
    pub fn message(&self) -> (r: String)
        ensures
            r@ == message_of(self@),
    {
        match self {
            SourceError::Read { file, cause } => {
                let mut r = "Could not read ".to_owned();
                r.append(file.as_str());
                r.append(": ");
                r.append(cause.as_str());
                r
            },
            SourceError::Decode { file, cause } => {
                let mut r = "Could not parse ".to_owned();
                r.append(file.as_str());
                r.append(": ");
                r.append(cause.as_str());
                r
            },
        }
    }
}

/// The views of a sequence of errors.
pub open spec fn error_views(s: Seq<SourceError>) -> Seq<SourceErrorView> {
    s.map_values(|e: SourceError| e@)
}

/// What the library file gave: its entries, or the error.
pub open spec fn library_view(library: Result<Vec<raw::TrackMeta>, SourceError>) -> Result<
    Seq<raw::TrackMetaView>,
    SourceErrorView,
> {
    match library {
        Ok(items) => Ok(raw::item_views(items@)),
        Err(e) => Err(e@),
    }
}

/// What one playlist file gave: the playlist, or the error.
pub open spec fn playlist_view(playlist: Result<raw::Playlist, SourceError>) -> Result<
    raw::PlaylistView,
    SourceErrorView,
> {
    match playlist {
        Ok(p) => Ok(p@),
        Err(e) => Err(e@),
    }
}

/// What the playlist files gave, in the order of the files.
pub open spec fn playlist_views(playlists: Seq<Result<raw::Playlist, SourceError>>) -> Seq<
    Result<raw::PlaylistView, SourceErrorView>,
> {
    playlists.map_values(|p: Result<raw::Playlist, SourceError>| playlist_view(p))
}

/// The collection that stands for the library, which has no identifier of
/// its own.
pub open spec fn library_collection() -> CollectionView {
    CollectionView { name: "Library"@, uri: "spotify:collection:tracks"@ }
}

/// The collection that stands for the playlist `p`.
pub open spec fn playlist_collection(p: raw::PlaylistView) -> CollectionView {
    CollectionView { name: p.name, uri: p.uri }
}

/// The results of the library: the matches among its sanitized entries, and
/// none if the file failed.
pub open spec fn library_results(
    library: Result<Seq<raw::TrackMetaView>, SourceErrorView>,
    keywords: Seq<Seq<char>>,
) -> Seq<SearchResultView> {
    match library {
        Ok(items) => matches_in(library_collection(), sanitized_items(items), keywords),
        Err(_) => Seq::empty(),
    }
}

/// The results of one playlist: the matches among its sanitized entries,
/// and none if the file failed.
pub open spec fn playlist_results(
    playlist: Result<raw::PlaylistView, SourceErrorView>,
    keywords: Seq<Seq<char>>,
) -> Seq<SearchResultView> {
    match playlist {
        Ok(p) => matches_in(playlist_collection(p), sanitized_items(p.items), keywords),
        Err(_) => Seq::empty(),
    }
}

/// The results of the playlists, one playlist after the other in the order
/// of the files.
pub open spec fn playlists_results(
    playlists: Seq<Result<raw::PlaylistView, SourceErrorView>>,
    keywords: Seq<Seq<char>>,
) -> Seq<SearchResultView>
    decreases playlists.len(),
{
    if playlists.len() == 0 {
        Seq::empty()
    } else {
        playlists_results(playlists.drop_last(), keywords) + playlist_results(
            playlists.last(),
            keywords,
        )
    }
}

/// The results of a search: those of the library, then those of the
/// playlists.
pub open spec fn search_results(
    library: Result<Seq<raw::TrackMetaView>, SourceErrorView>,
    playlists: Seq<Result<raw::PlaylistView, SourceErrorView>>,
    keywords: Seq<Seq<char>>,
) -> Seq<SearchResultView> {
    library_results(library, keywords) + playlists_results(playlists, keywords)
}

/// The error of the library file, if it failed.
pub open spec fn library_failures(
    library: Result<Seq<raw::TrackMetaView>, SourceErrorView>,
) -> Seq<SourceErrorView> {
    match library {
        Ok(_) => Seq::empty(),
        Err(e) => seq![e],
    }
}

/// The errors of the playlist files that failed, in the order of the files.
pub open spec fn playlists_failures(
    playlists: Seq<Result<raw::PlaylistView, SourceErrorView>>,
) -> Seq<SourceErrorView>
    decreases playlists.len(),
{
    if playlists.len() == 0 {
        Seq::empty()
    } else {
        let before = playlists_failures(playlists.drop_last());
        match playlists.last() {
            Ok(_) => before,
            Err(e) => before.push(e),
        }
    }
}

/// The errors of a search: one for each file that failed, the library
/// first.
pub open spec fn search_failures(
    library: Result<Seq<raw::TrackMetaView>, SourceErrorView>,
    playlists: Seq<Result<raw::PlaylistView, SourceErrorView>>,
) -> Seq<SourceErrorView> {
    library_failures(library) + playlists_failures(playlists)
}

/// The library, if it was loaded, can be numbered.
pub open spec fn library_numberable(
    library: Result<Seq<raw::TrackMetaView>, SourceErrorView>,
) -> bool {
    match library {
        Ok(items) => numberable(items),
        Err(_) => true,
    }
}

/// The playlist, if it was loaded, can be numbered.
pub open spec fn playlist_numberable(playlist: Result<raw::PlaylistView, SourceErrorView>) -> bool {
    match playlist {
        Ok(p) => numberable(p.items),
        Err(_) => true,
    }
}

/// A name with the extension `json`: it ends with `.json`, and something
/// stands before that.
pub open spec fn is_playlist_name(name: Seq<char>) -> bool {
    name.len() > 5 && ends_with(name, ".json"@)
}

/// Whether an entry of the playlist directory is a playlist file: it is
/// no directory, and its name has the extension `json`.
pub fn is_playlist_file(file_name: &str, is_dir: bool) -> (r: bool)
    ensures
        r == (!is_dir && is_playlist_name(file_name@)),
{
    if is_dir {
        return false;
    }
    let name = chars_of(file_name);
    name.len() > 5 && has_suffix(&name, &chars_of(".json"))
}

/// What a search gives: the matches, and one error for each file that gave
/// no entries.
#[derive(Debug)]
pub struct SearchOutcome {
    pub results: Vec<SearchResult>,
    pub diagnostics: Vec<SourceError>,
}

/// Searches the library and every playlist for `keywords`. The results are
/// those of the library, then those of each playlist in the order of the
/// files, each group in the order of its entries. A file that failed gives
/// no results and one diagnostic, and takes nothing from the others.
pub fn search(
    library: Result<Vec<raw::TrackMeta>, SourceError>,
    playlists: Vec<Result<raw::Playlist, SourceError>>,
    keywords: &[&str],
) -> (r: SearchOutcome)
    requires
        library_numberable(library_view(library)),
        forall|i: int|
            0 <= i < playlists.len() ==> playlist_numberable(
                #[trigger] playlist_views(playlists@)[i],
            ),
    ensures
        result_views(r.results@) == search_results(
            library_view(library),
            playlist_views(playlists@),
            slice_texts(keywords@),
        ),
        error_views(r.diagnostics@) == search_failures(
            library_view(library),
            playlist_views(playlists@),
        ),
{
    let ghost words = slice_texts(keywords@);
    let ghost all = playlists@;
    let ghost sources = playlist_views(all);
    let ghost from_library = library_results(library_view(library), words);
    let ghost library_errors = library_failures(library_view(library));
    let mut results: Vec<SearchResult> = Vec::new();
    let mut diagnostics: Vec<SourceError> = Vec::new();
    match library {
        Ok(items) => {
            let tracks = from_raw_track_metas(items);
            let collection = Collection {
                name: "Library".to_owned(),
                uri: "spotify:collection:tracks".to_owned(),
            };
            let mut found = search_in_tracks(&collection, &tracks, keywords);
            let ghost found_views = result_views(found@);
            results.append(&mut found);
            assert(result_views(results@) =~= found_views);
            assert(error_views(diagnostics@) =~= library_errors);
        },
        Err(e) => {
            diagnostics.push(e);
            assert(result_views(results@) =~= from_library);
            assert(error_views(diagnostics@) =~= library_errors);
        },
    }
    proof {
        assert(playlist_views(all.take(0)) =~= Seq::empty());
        assert(result_views(results@) =~= from_library + playlists_results(
            playlist_views(all.take(0)),
            words,
        ));
        assert(error_views(diagnostics@) =~= library_errors + playlists_failures(
            playlist_views(all.take(0)),
        ));
    }
    for source in it: playlists
        invariant
            it.seq() == all,
            sources == playlist_views(all),
            words == slice_texts(keywords@),
            forall|i: int| 0 <= i < sources.len() ==> playlist_numberable(#[trigger] sources[i]),
            result_views(results@) == from_library + playlists_results(
                playlist_views(all.take(it.index() as int)),
                words,
            ),
            error_views(diagnostics@) == library_errors + playlists_failures(
                playlist_views(all.take(it.index() as int)),
            ),
    {
        let ghost i = it.index() as int;
        let ghost seen = playlist_views(all.take(i));
        let ghost next = playlist_views(all.take(i + 1));
        let ghost results_before = result_views(results@);
        let ghost errors_before = error_views(diagnostics@);
        proof {
            assert(next.drop_last() =~= seen);
            assert(next.last() == playlist_view(source));
            assert(sources[i] == playlist_view(source));
        }
        match source {
            Ok(raw_playlist) => {
                let playlist = Playlist::from(raw_playlist);
                let collection = Collection { name: playlist.name, uri: playlist.uri };
                let mut found = search_in_tracks(&collection, &playlist.tracks.items, keywords);
                let ghost found_views = result_views(found@);
                results.append(&mut found);
                assert(result_views(results@) =~= results_before + found_views);
                assert(results_before + found_views =~= from_library + (playlists_results(
                    seen,
                    words,
                ) + found_views));
            },
            Err(e) => {
                diagnostics.push(e);
                assert(error_views(diagnostics@) =~= errors_before.push(e@));
                assert(errors_before.push(e@) =~= library_errors + playlists_failures(seen).push(
                    e@,
                ));
                assert(playlists_results(next, words) =~= playlists_results(seen, words));
            },
        }
    }
    assert(all.take(all.len() as int) =~= all);
    SearchOutcome { results, diagnostics }
}

} // verus!
