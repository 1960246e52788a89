//! The shape in which a backup is written: every field as the documents
//! give it, with nothing checked and nothing repaired.

use vstd::prelude::*;

verus! {

/// An artist of a track. A track without a real artist names one whose
/// `name` is empty.
#[derive(Debug, PartialEq, Eq)]
pub struct Artist {
    pub name: String,
}

/// What an `Artist` stands for.
pub struct ArtistView {
    pub name: Seq<char>,
}

impl View for Artist {
    type V = ArtistView;

    open spec fn view(&self) -> ArtistView {
        ArtistView { name: self.name@ }
    }
}

impl Clone for Artist {
    fn clone(&self) -> (r: Self)
        ensures
            r == *self,
    {
        Artist { name: self.name.clone() }
    }
}

/// A cover image of an album.
#[derive(Debug, PartialEq, Eq)]
pub struct Image {
    pub height: i32,
    pub width: i32,
    pub url: String,
}

/// What an `Image` stands for.
pub struct ImageView {
    pub height: int,
    pub width: int,
    pub url: Seq<char>,
}

impl View for Image {
    type V = ImageView;

    open spec fn view(&self) -> ImageView {
        ImageView { height: self.height as int, width: self.width as int, url: self.url@ }
    }
}

impl Clone for Image {
    fn clone(&self) -> (r: Self)
        ensures
            r == *self,
    {
        Image { height: self.height, width: self.width, url: self.url.clone() }
    }
}

/// The album a track belongs to.
#[derive(Debug, PartialEq, Eq)]
pub struct Album {
    pub name: String,
    pub images: Vec<Image>,
}

/// What an `Album` stands for.
pub struct AlbumView {
    pub name: Seq<char>,
    pub images: Seq<ImageView>,
}

/// The views of a sequence of images.
pub open spec fn image_views(s: Seq<Image>) -> Seq<ImageView> {
    s.map_values(|i: Image| i@)
}

impl View for Album {
    type V = AlbumView;

    open spec fn view(&self) -> AlbumView {
        AlbumView { name: self.name@, images: image_views(self.images@) }
    }
}

/// A copy of `images`.
pub fn clone_images(images: &Vec<Image>) -> (r: Vec<Image>)
    ensures
        r@ == images@,
{
    let mut r: Vec<Image> = Vec::new();
    let mut i: usize = 0;
    while i < images.len()
        invariant
            i <= images.len(),
            r@ == images@.take(i as int),
        decreases images.len() - i,
    {
        r.push(images[i].clone());
        assert(r@ =~= images@.take(i + 1));
        i += 1;
    }
    assert(images@.take(i as int) =~= images@);
    r
}

impl Clone for Album {
    fn clone(&self) -> (r: Self)
        ensures
            r@ == self@,
            r.name == self.name,
            r.images@ == self.images@,
    {
        Album { name: self.name.clone(), images: clone_images(&self.images) }
    }
}

/// A track. In a backup its artists may hold one with an empty name; a
/// track that went through `Track::from_raw` holds none.
#[derive(Debug, PartialEq, Eq)]
pub struct Track {
    pub uri: String,
    pub name: String,
    pub album: Album,
    pub artists: Vec<Artist>,
}

/// What a `Track` stands for.
pub struct TrackView {
    pub uri: Seq<char>,
    pub name: Seq<char>,
    pub album: AlbumView,
    pub artists: Seq<ArtistView>,
}

/// The views of a sequence of artists.
pub open spec fn artist_views(s: Seq<Artist>) -> Seq<ArtistView> {
    s.map_values(|a: Artist| a@)
}

impl View for Track {
    type V = TrackView;

    open spec fn view(&self) -> TrackView {
        TrackView {
            uri: self.uri@,
            name: self.name@,
            album: self.album@,
            artists: artist_views(self.artists@),
        }
    }
}

/// A copy of `artists`.
pub fn clone_artists(artists: &Vec<Artist>) -> (r: Vec<Artist>)
    ensures
        r@ == artists@,
{
    let mut r: Vec<Artist> = Vec::new();
    let mut i: usize = 0;
    while i < artists.len()
        invariant
            i <= artists.len(),
            r@ == artists@.take(i as int),
        decreases artists.len() - i,
    {
        r.push(artists[i].clone());
        assert(r@ =~= artists@.take(i + 1));
        i += 1;
    }
    assert(artists@.take(i as int) =~= artists@);
    r
}

impl Clone for Track {
    fn clone(&self) -> (r: Self)
        ensures
            r@ == self@,
    {
        Track {
            uri: self.uri.clone(),
            name: self.name.clone(),
            album: self.album.clone(),
            artists: clone_artists(&self.artists),
        }
    }
}

/// An entry of a collection: when it was added, and the track. Some
/// collections hold entries without a track.
#[derive(Debug, PartialEq, Eq)]
pub struct TrackMeta {
    pub added_at: String,
    pub track: Option<Track>,
}

/// What a raw `TrackMeta` stands for.
pub struct TrackMetaView {
    pub added_at: Seq<char>,
    pub track: Option<TrackView>,
}

impl View for TrackMeta {
    type V = TrackMetaView;

    open spec fn view(&self) -> TrackMetaView {
        TrackMetaView {
            added_at: self.added_at@,
            track: match self.track {
                Some(t) => Some(t@),
                None => None,
            },
        }
    }
}

/// The views of a sequence of entries.
pub open spec fn item_views(s: Seq<TrackMeta>) -> Seq<TrackMetaView> {
    s.map_values(|m: TrackMeta| m@)
}

impl Clone for TrackMeta {
    fn clone(&self) -> (r: Self)
        ensures
            r@ == self@,
    {
        let track = match &self.track {
            Some(t) => Some(t.clone()),
            None => None,
        };
        TrackMeta { added_at: self.added_at.clone(), track }
    }
}

/// A copy of `items`.
pub fn clone_items(items: &Vec<TrackMeta>) -> (r: Vec<TrackMeta>)
    ensures
        item_views(r@) == item_views(items@),
{
    let mut r: Vec<TrackMeta> = Vec::new();
    let mut i: usize = 0;
    while i < items.len()
        invariant
            i <= items.len(),
            item_views(r@) == item_views(items@).take(i as int),
        decreases items.len() - i,
    {
        let ghost before = item_views(r@);
        r.push(items[i].clone());
        assert(item_views(r@) =~= before.push(items@[i as int]@));
        assert(item_views(r@) =~= item_views(items@).take(i + 1));
        i += 1;
    }
    assert(item_views(items@).take(i as int) =~= item_views(items@));
    r
}

/// The entries of a playlist.
#[derive(Debug, PartialEq, Eq)]
pub struct TracksPage {
    pub items: Vec<TrackMeta>,
}

impl Clone for TracksPage {
    fn clone(&self) -> (r: Self)
        ensures
            item_views(r.items@) == item_views(self.items@),
    {
        TracksPage { items: clone_items(&self.items) }
    }
}

/// A playlist as a backup holds it.
#[derive(Debug, PartialEq, Eq)]
pub struct Playlist {
    pub uri: String,
    pub name: String,
    pub tracks: TracksPage,
}

/// What a raw `Playlist` stands for.
pub struct PlaylistView {
    pub uri: Seq<char>,
    pub name: Seq<char>,
    pub items: Seq<TrackMetaView>,
}

impl View for Playlist {
    type V = PlaylistView;

    open spec fn view(&self) -> PlaylistView {
        PlaylistView { uri: self.uri@, name: self.name@, items: item_views(self.tracks.items@) }
    }
}

impl Clone for Playlist {
    fn clone(&self) -> (r: Self)
        ensures
            r@ == self@,
    {
        Playlist {
            uri: self.uri.clone(),
            name: self.name.clone(),
            tracks: self.tracks.clone(),
        }
    }
}

} // verus!
