//! What holds of every search: the order of the results, and that a file
//! which failed takes nothing from the others.

use crate::search::raw::{PlaylistView, TrackMetaView as RawTrackMetaView};
use crate::search::{
    lemma_sanitized_items, library_collection, library_results, matches_in, matching,
    playlist_collection, playlist_results, playlists_failures, playlists_results,
    sanitized_items, search_failures, search_results, well_formed, well_numbered,
    CollectionView, SearchResultView, SourceErrorView, TrackMetaView,
};
use vstd::prelude::*;

verus! {

/// The positions of `items` grow from each entry to the next.
pub open spec fn ascending(items: Seq<TrackMetaView>) -> bool {
    forall|i: int, j: int|
        0 <= i < j < items.len() ==> (#[trigger] items[i]).position < (#[trigger] items[j]).position
}

/// Whatever test picks entries out of a well-numbered collection, those
/// picked keep their positions, which grow from each to the next and
/// never pass the number of entries.
pub proof fn lemma_picked_ascending(items: Seq<TrackMetaView>, pick: spec_fn(TrackMetaView) -> bool)
    requires
        well_numbered(items),
    ensures
        ascending(items.filter(pick)),
        forall|i: int|
            0 <= i < items.filter(pick).len() ==> 1 <= (#[trigger] items.filter(pick)[i]).position
                <= items.len(),
    decreases items.len(),
{
    reveal(Seq::filter);
    if items.len() > 0 {
        let head = items.drop_last();
        assert(well_numbered(head)) by {
            assert forall|i: int| 0 <= i < head.len() implies (#[trigger] head[i]).position == i
                + 1 && well_formed(head[i].track) by {
                assert(head[i] == items[i]);
            }
        }
        lemma_picked_ascending(head, pick);
        let before = head.filter(pick);
        let out = items.filter(pick);
        assert(items[items.len() - 1].position == items.len());
        assert forall|i: int| 0 <= i < out.len() implies 1 <= (#[trigger] out[i]).position
            <= items.len() by {
            if i < before.len() {
                assert(out[i] == before[i]);
            }
        }
        assert forall|i: int, j: int| 0 <= i < j < out.len() implies (#[trigger] out[i]).position
            < (#[trigger] out[j]).position by {
            assert(out[i] == before[i]);
            if j < before.len() {
                assert(out[j] == before[j]);
            }
        }
    }
}

/// Every result names the collection `collection`.
pub open spec fn all_from(results: Seq<SearchResultView>, collection: CollectionView) -> bool {
    forall|i: int| 0 <= i < results.len() ==> (#[trigger] results[i]).collection == collection
}

/// The positions of `results` grow from each result to the next.
pub open spec fn ascending_results(results: Seq<SearchResultView>) -> bool {
    forall|i: int, j: int|
        0 <= i < j < results.len() ==> (#[trigger] results[i]).track.position
            < (#[trigger] results[j]).track.position
}

/// The results of one collection all name that collection, and their
/// positions grow from each result to the next.
pub proof fn lemma_group_ascending(
    collection: CollectionView,
    items: Seq<TrackMetaView>,
    keywords: Seq<Seq<char>>,
)
    requires
        well_numbered(items),
    ensures
        all_from(matches_in(collection, items, keywords), collection),
        ascending_results(matches_in(collection, items, keywords)),
{
    lemma_picked_ascending(items, matching(keywords));
    let picked = items.filter(matching(keywords));
    let out = matches_in(collection, items, keywords);
    assert forall|i: int, j: int| 0 <= i < j < out.len() implies (#[trigger] out[i]).track.position
        < (#[trigger] out[j]).track.position by {
        assert(out[i].track == picked[i]);
        assert(out[j].track == picked[j]);
    }
}

/// The results of the playlists `a` followed by `b` are those of `a`
/// followed by those of `b`.
pub proof fn lemma_playlists_results_concat(
    a: Seq<Result<PlaylistView, SourceErrorView>>,
    b: Seq<Result<PlaylistView, SourceErrorView>>,
    keywords: Seq<Seq<char>>,
)
    ensures
        playlists_results(a + b, keywords) == playlists_results(a, keywords) + playlists_results(
            b,
            keywords,
        ),
    decreases b.len(),
{
    if b.len() == 0 {
        assert(a + b =~= a);
        assert(playlists_results(a, keywords) + playlists_results(b, keywords)
            =~= playlists_results(a, keywords));
    } else {
        lemma_playlists_results_concat(a, b.drop_last(), keywords);
        assert((a + b).drop_last() =~= a + b.drop_last());
        assert((a + b).last() == b.last());
        assert(playlists_results(a + b, keywords) =~= playlists_results(a, keywords)
            + playlists_results(b, keywords));
    }
}

/// The errors of the playlists `a` followed by `b` are those of `a`
/// followed by those of `b`.
pub proof fn lemma_playlists_failures_concat(
    a: Seq<Result<PlaylistView, SourceErrorView>>,
    b: Seq<Result<PlaylistView, SourceErrorView>>,
)
    ensures
        playlists_failures(a + b) == playlists_failures(a) + playlists_failures(b),
    decreases b.len(),
{
    if b.len() == 0 {
        assert(a + b =~= a);
        assert(playlists_failures(a) + playlists_failures(b) =~= playlists_failures(a));
    } else {
        lemma_playlists_failures_concat(a, b.drop_last());
        assert((a + b).drop_last() =~= a + b.drop_last());
        assert((a + b).last() == b.last());
        assert(playlists_failures(a + b) =~= playlists_failures(a) + playlists_failures(b));
    }
}

/// A playlist file that failed, wherever it stands among the others, takes
/// no result from a search and adds exactly one error to it.
pub proof fn lemma_failure_is_isolated(
    library: Result<Seq<RawTrackMetaView>, SourceErrorView>,
    playlists: Seq<Result<PlaylistView, SourceErrorView>>,
    at: int,
    error: SourceErrorView,
    keywords: Seq<Seq<char>>,
)
    requires
        0 <= at <= playlists.len(),
    ensures
        search_results(library, playlists.insert(at, Err(error)), keywords) == search_results(
            library,
            playlists,
            keywords,
        ),
        search_failures(library, playlists.insert(at, Err(error))).len() == search_failures(
            library,
            playlists,
        ).len() + 1,
{
    let bad: Result<PlaylistView, SourceErrorView> = Err(error);
    let front = playlists.take(at);
    let back = playlists.skip(at);
    let one = seq![bad];
    assert(playlists =~= front + back);
    assert(playlists.insert(at, bad) =~= (front + one) + back);
    let none = one.drop_last();
    assert(none.len() == 0);
    assert(playlists_results(none, keywords) =~= Seq::empty());
    assert(playlists_failures(none) =~= Seq::empty());
    assert(one.last() == bad);
    assert(playlists_results(one, keywords) =~= Seq::empty());
    assert(playlists_failures(one) =~= seq![error]);
    lemma_playlists_results_concat(front, one, keywords);
    lemma_playlists_results_concat(front + one, back, keywords);
    lemma_playlists_results_concat(front, back, keywords);
    lemma_playlists_failures_concat(front, one);
    lemma_playlists_failures_concat(front + one, back);
    lemma_playlists_failures_concat(front, back);
    assert(playlists_results(front, keywords) + playlists_results(one, keywords)
        =~= playlists_results(front, keywords));
}

/// The results of a search are those of the library, then those of each
/// playlist in the order of the files: the results up to and with the
/// playlist at `at` are followed by those of the playlists after it.
pub proof fn lemma_results_in_file_order(
    library: Result<Seq<RawTrackMetaView>, SourceErrorView>,
    playlists: Seq<Result<PlaylistView, SourceErrorView>>,
    at: int,
    keywords: Seq<Seq<char>>,
)
    requires
        0 <= at < playlists.len(),
    ensures
        search_results(library, playlists, keywords) == library_results(library, keywords)
            + playlists_results(playlists.take(at), keywords) + playlist_results(
            playlists[at],
            keywords,
        ) + playlists_results(playlists.skip(at + 1), keywords),
{
    let front = playlists.take(at + 1);
    let back = playlists.skip(at + 1);
    assert(playlists =~= front + back);
    lemma_playlists_results_concat(front, back, keywords);
    assert(front.drop_last() =~= playlists.take(at));
    assert(front.last() == playlists[at]);
    assert(search_results(library, playlists, keywords) =~= library_results(library, keywords)
        + playlists_results(playlists.take(at), keywords) + playlist_results(
        playlists[at],
        keywords,
    ) + playlists_results(back, keywords));
}

/// Within the results of the library, and within those of a playlist, the
/// positions grow from each result to the next, and every result names
/// its collection.
pub proof fn lemma_groups_ascending(
    library: Result<Seq<RawTrackMetaView>, SourceErrorView>,
    playlist: Result<PlaylistView, SourceErrorView>,
    keywords: Seq<Seq<char>>,
)
    ensures
        ascending_results(library_results(library, keywords)),
        all_from(library_results(library, keywords), library_collection()),
        ascending_results(playlist_results(playlist, keywords)),
        playlist is Ok ==> all_from(
            playlist_results(playlist, keywords),
            playlist_collection(playlist->Ok_0),
        ),
{
    match library {
        Ok(items) => {
            lemma_sanitized_items(items);
            lemma_group_ascending(library_collection(), sanitized_items(items), keywords);
        },
        Err(_) => {},
    }
    match playlist {
        Ok(p) => {
            lemma_sanitized_items(p.items);
            lemma_group_ascending(playlist_collection(p), sanitized_items(p.items), keywords);
        },
        Err(_) => {},
    }
}

} // verus!
