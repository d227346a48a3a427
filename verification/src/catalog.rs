//! Properties of the catalogue that `JellyfinMetadata::from_response` builds.

use vstd::prelude::*;
use crate::choices::{
    lemma_offered, lemma_offered_mapped, name_matches, named_match, offered, MAX_CHOICES,
};
use crate::jellyfin::{
    album_titles, catalog_of, distinct, file_track, first_index, insert_track, is_first,
    lemma_first_index, lemma_first_index_facts, lemma_first_index_push, track_choices, track_ids,
    track_of,
    AlbumView, CatalogView, ItemView, TrackView,
};

verus! {

/// An item that carries a title, and so becomes a track.
pub open spec fn titled(item: ItemView) -> bool {
    item.title.len() > 0
}

/// The track stored under `id`, if there is one.
pub open spec fn stored_track(catalog: CatalogView, id: Seq<char>) -> Option<TrackView> {
    let i = first_index(track_ids(catalog.tracks), id);
    if i >= 0 {
        Some(catalog.tracks[i].1)
    } else {
        None
    }
}

/// The album titled `title`, if there is one.
pub open spec fn stored_album(catalog: CatalogView, title: Seq<char>) -> Option<AlbumView> {
    let i = first_index(album_titles(catalog.albums), title);
    if i >= 0 {
        Some(catalog.albums[i])
    } else {
        None
    }
}

/// The track of the last titled item whose id is `id`, if there is one.
pub open spec fn last_track_with_id(api_url: Seq<char>, items: Seq<ItemView>, id: Seq<char>) -> Option<
    TrackView,
>
    decreases items.len(),
{
    if items.len() == 0 {
        None
    } else if titled(items.last()) && items.last().item_id == id {
        Some(track_of(api_url, items.last()))
    } else {
        last_track_with_id(api_url, items.drop_last(), id)
    }
}

/// The ids of the titled items whose album is `title`, in order.
pub open spec fn album_members(items: Seq<ItemView>, title: Seq<char>) -> Seq<Seq<char>>
    decreases items.len(),
{
    if items.len() == 0 {
        Seq::empty()
    } else {
        let prev = album_members(items.drop_last(), title);
        let item = items.last();
        if titled(item) && item.album == title {
            prev.push(item.item_id)
        } else {
            prev
        }
    }
}

/// The artist credited on the first titled item whose album is `title`, if there is one.
pub open spec fn album_artist(api_url: Seq<char>, items: Seq<ItemView>, title: Seq<char>) -> Option<
    Seq<char>,
>
    decreases items.len(),
{
    if items.len() == 0 {
        None
    } else {
        let prev = album_artist(api_url, items.drop_last(), title);
        let item = items.last();
        if prev is Some {
            prev
        } else if titled(item) && item.album == title {
            Some(track_of(api_url, item).artist)
        } else {
            None
        }
    }
}

/// The album that the titled items with album `title` make up: credited after the first of
/// them and listing all of their ids in order; none where there is no such item.
pub open spec fn expected_album(api_url: Seq<char>, items: Seq<ItemView>, title: Seq<char>) -> Option<
    AlbumView,
> {
    match album_artist(api_url, items, title) {
        Some(artist) => Some(AlbumView { title, artist, tracks: album_members(items, title) }),
        None => None,
    }
}

/// Where no titled item has album `title`, no id is listed under it.
proof fn lemma_no_artist_no_members(api_url: Seq<char>, items: Seq<ItemView>, title: Seq<char>)
    requires
        album_artist(api_url, items, title) is None,
    ensures
        album_members(items, title).len() == 0,
    decreases items.len(),
{
    if items.len() > 0 {
        lemma_no_artist_no_members(api_url, items.drop_last(), title);
    }
}

/// No two stored tracks share an id, and no two albums share a title.
pub proof fn lemma_catalog_distinct(api_url: Seq<char>, items: Seq<ItemView>)
    ensures
        distinct(track_ids(catalog_of(api_url, items).tracks)),
        distinct(album_titles(catalog_of(api_url, items).albums)),
    decreases items.len(),
{
    if items.len() > 0 {
        lemma_catalog_distinct(api_url, items.drop_last());
        let prev = catalog_of(api_url, items.drop_last());
        let item = items.last();
        if titled(item) {
            let track = track_of(api_url, item);
            let ids = track_ids(prev.tracks);
            let titles = album_titles(prev.albums);
            lemma_first_index_facts(ids, item.item_id);
            lemma_first_index_facts(titles, track.album);
            let i = first_index(ids, item.item_id);
            if i >= 0 {
                assert(track_ids(insert_track(prev.tracks, item.item_id, track)) =~= ids);
            } else {
                assert(track_ids(insert_track(prev.tracks, item.item_id, track)) =~= ids.push(
                    item.item_id,
                ));
            }
            let a = first_index(titles, track.album);
            if a >= 0 {
                assert(album_titles(file_track(prev.albums, item.item_id, track)) =~= titles);
            } else {
                assert(album_titles(file_track(prev.albums, item.item_id, track)) =~= titles.push(
                    track.album,
                ));
            }
        }
    }
}

/// The track stored under an id is the track of the last titled item with that id; an id
/// that no titled item carries has no track.
pub proof fn lemma_catalog_tracks(api_url: Seq<char>, items: Seq<ItemView>, id: Seq<char>)
    ensures
        stored_track(catalog_of(api_url, items), id) == last_track_with_id(api_url, items, id),
    decreases items.len(),
{
    if items.len() == 0 {
        lemma_first_index_facts(Seq::<Seq<char>>::empty(), id);
    } else {
        lemma_catalog_tracks(api_url, items.drop_last(), id);
        let prev = catalog_of(api_url, items.drop_last());
        let item = items.last();
        if titled(item) {
            let track = track_of(api_url, item);
            let ids = track_ids(prev.tracks);
            let next = insert_track(prev.tracks, item.item_id, track);
            lemma_first_index_facts(ids, item.item_id);
            let i = first_index(ids, item.item_id);
            if i >= 0 {
                assert(track_ids(next) =~= ids);
                if item.item_id == id {
                    assert(next[i] == (id, track));
                } else {
                    lemma_first_index_facts(ids, id);
                }
            } else {
                assert(track_ids(next) =~= ids.push(item.item_id));
                if item.item_id == id {
                    assert(is_first(ids.push(id), id, ids.len() as int));
                    lemma_first_index(ids.push(id), id, ids.len() as int);
                } else {
                    lemma_first_index_push(ids, item.item_id, id);
                    lemma_first_index_facts(ids, id);
                }
            }
        }
    }
}

/// The album titled `title` credits the first titled item with that album and lists the
/// ids of all titled items with that album, in order; no album has a title that no titled
/// item carries as its album.
pub proof fn lemma_catalog_albums(api_url: Seq<char>, items: Seq<ItemView>, title: Seq<char>)
    ensures
        stored_album(catalog_of(api_url, items), title) == expected_album(api_url, items, title),
    decreases items.len(),
{
    if items.len() == 0 {
        lemma_first_index_facts(Seq::<Seq<char>>::empty(), title);
    } else {
        lemma_catalog_albums(api_url, items.drop_last(), title);
        let prev = catalog_of(api_url, items.drop_last());
        let item = items.last();
        if titled(item) {
            let track = track_of(api_url, item);
            let titles = album_titles(prev.albums);
            let next = file_track(prev.albums, item.item_id, track);
            lemma_first_index_facts(titles, track.album);
            lemma_first_index_facts(titles, title);
            let a = first_index(titles, track.album);
            if a >= 0 {
                assert(album_titles(next) =~= titles);
            } else {
                assert(album_titles(next) =~= titles.push(track.album));
                if track.album == title {
                    assert(is_first(titles.push(title), title, titles.len() as int));
                    lemma_first_index(titles.push(title), title, titles.len() as int);
                    lemma_no_artist_no_members(api_url, items.drop_last(), title);
                    assert(album_members(items.drop_last(), title) =~= Seq::<Seq<char>>::empty());
                    assert(seq![item.item_id] =~= Seq::<Seq<char>>::empty().push(item.item_id));
                } else {
                    lemma_first_index_push(titles, track.album, title);
                }
            }
        }
    }
}

/// Picking a media choice finds a track: where no two tracks share an id, every choice
/// offered for what the user typed picks a stored track, and that track's title is the
/// name the choice showed.
pub proof fn lemma_offered_media_is_stored(catalog: CatalogView, partial: Seq<char>)
    requires
        distinct(track_ids(catalog.tracks)),
    ensures
        forall|k: int|
            #![trigger offered(track_choices(catalog.tracks), partial)[k]]
            0 <= k < offered(track_choices(catalog.tracks), partial).len() ==> {
                let c = offered(track_choices(catalog.tracks), partial)[k];
                stored_track(catalog, c.1) matches Some(t) && t.title == c.0
            },
{
    let cands = track_choices(catalog.tracks);
    let ids = track_ids(catalog.tracks);
    lemma_offered(cands, partial);
    assert forall|k: int| 0 <= k < offered(cands, partial).len() implies {
        let c = #[trigger] offered(cands, partial)[k];
        stored_track(catalog, c.1) matches Some(t) && t.title == c.0
    } by {
        let c = offered(cands, partial)[k];
        assert(cands.contains(c));
        let j = choose|j: int| 0 <= j < cands.len() && cands[j] == c;
        assert(ids[j] == c.1);
        assert forall|l: int| 0 <= l < j implies ids[l] != c.1 by {
            assert(ids[l] != ids[j]);
        }
        lemma_first_index(ids, c.1, j);
    }
}

/// Album `a` has the title of the album of stored track `i` and lists that track's id.
pub open spec fn filed_in(catalog: CatalogView, a: int, i: int) -> bool {
    &&& catalog.albums[a].title == catalog.tracks[i].1.album
    &&& catalog.albums[a].tracks.contains(catalog.tracks[i].0)
}

/// Stored track `i` is listed by an album bearing its album's title.
pub open spec fn is_filed(catalog: CatalogView, i: int) -> bool {
    exists|a: int| 0 <= a < catalog.albums.len() && #[trigger] filed_in(catalog, a, i)
}

/// The tracks and albums of a catalogue agree: every id an album lists is a stored track;
/// every stored track is listed by the album that bears its album's title; no album is
/// empty; and every stored track has a title.
pub open spec fn consistent(catalog: CatalogView) -> bool {
    &&& forall|a: int, k: int|
        0 <= a < catalog.albums.len() && 0 <= k < catalog.albums[a].tracks.len()
            ==> track_ids(catalog.tracks).contains(#[trigger] catalog.albums[a].tracks[k])
    &&& forall|i: int| 0 <= i < catalog.tracks.len() ==> #[trigger] is_filed(catalog, i)
    &&& forall|a: int| 0 <= a < catalog.albums.len() ==> #[trigger] catalog.albums[a].tracks.len() > 0
    &&& forall|i: int| 0 <= i < catalog.tracks.len() ==> #[trigger] catalog.tracks[i].1.title.len() > 0
}

/// Storing a titled item's track and filing it under its album keeps a catalogue
/// consistent.
proof fn lemma_step_consistent(prev: CatalogView, id: Seq<char>, track: TrackView)
    requires
        consistent(prev),
        track.title.len() > 0,
    ensures
        consistent(CatalogView {
            tracks: insert_track(prev.tracks, id, track),
            albums: file_track(prev.albums, id, track),
        }),
{
    let next = CatalogView {
        tracks: insert_track(prev.tracks, id, track),
        albums: file_track(prev.albums, id, track),
    };
    let ids = track_ids(prev.tracks);
    let nids = track_ids(next.tracks);
    let titles = album_titles(prev.albums);
    lemma_first_index_facts(ids, id);
    lemma_first_index_facts(titles, track.album);
    let fi = first_index(ids, id);
    let ai = first_index(titles, track.album);
    // The entry that now holds `id`, and the album that now lists it.
    let ti = if fi >= 0 { fi } else { prev.tracks.len() as int };
    let aj = if ai >= 0 { ai } else { prev.albums.len() as int };
    if fi >= 0 {
        assert(nids =~= ids);
    } else {
        assert(nids =~= ids.push(id));
    }
    assert(nids[ti] == id);
    assert(next.tracks[ti] == (id, track));
    assert forall|k: Seq<char>| ids.contains(k) implies nids.contains(k) by {
        let w = choose|w: int| 0 <= w < ids.len() && ids[w] == k;
        assert(nids[w] == k);
    }
    assert(nids.contains(id));
    // The album that lists `id`: its title, and its list extends what it listed before.
    assert(next.albums.len() == if ai >= 0 { prev.albums.len() } else { prev.albums.len() + 1 });
    assert(next.albums[aj].title == track.album);
    assert(next.albums[aj].tracks.last() == id);
    assert(next.albums[aj].tracks.contains(id));
    assert forall|a: int|
        0 <= a < prev.albums.len() implies next.albums[a].title == prev.albums[a].title
            && next.albums[a].tracks.len() >= prev.albums[a].tracks.len()
            && forall|k: int|
            0 <= k < prev.albums[a].tracks.len() ==> next.albums[a].tracks[k]
                == prev.albums[a].tracks[k] by {}
    // Every id an album lists is stored.
    assert forall|a: int, k: int|
        0 <= a < next.albums.len() && 0 <= k < next.albums[a].tracks.len() implies nids.contains(
        #[trigger] next.albums[a].tracks[k],
    ) by {
        if a < prev.albums.len() && k < prev.albums[a].tracks.len() {
            assert(ids.contains(prev.albums[a].tracks[k]));
        } else {
            assert(next.albums[a].tracks[k] == id);
        }
    }
    // Every stored track is filed under its album.
    assert forall|i: int| 0 <= i < next.tracks.len() implies #[trigger] is_filed(next, i) by {
        if i == ti {
            assert(filed_in(next, aj, i));
        } else {
            assert(i < prev.tracks.len());
            assert(next.tracks[i] == prev.tracks[i]);
            assert(is_filed(prev, i));
            let a = choose|a: int| 0 <= a < prev.albums.len() && #[trigger] filed_in(prev, a, i);
            let w = choose|w: int|
                0 <= w < prev.albums[a].tracks.len() && prev.albums[a].tracks[w] == prev.tracks[i].0;
            assert(next.albums[a].tracks[w] == next.tracks[i].0);
            assert(filed_in(next, a, i));
        }
    }
    assert forall|a: int| 0 <= a < next.albums.len() implies #[trigger] next.albums[a].tracks.len() > 0 by {
        if a < prev.albums.len() {
            assert(prev.albums[a].tracks.len() > 0);
        }
    }
    assert forall|i: int| 0 <= i < next.tracks.len() implies #[trigger] next.tracks[i].1.title.len() > 0 by {
        if i != ti {
            assert(next.tracks[i] == prev.tracks[i]);
        }
    }
}

/// The catalogue built from any items is consistent: every id an album lists is a stored
/// track, every stored track is listed by the album bearing its album's title, no album is
/// empty, and no stored track is untitled.
pub proof fn lemma_catalog_consistent(api_url: Seq<char>, items: Seq<ItemView>)
    ensures
        consistent(catalog_of(api_url, items)),
    decreases items.len(),
{
    if items.len() > 0 {
        lemma_catalog_consistent(api_url, items.drop_last());
        let item = items.last();
        if titled(item) {
            lemma_step_consistent(
                catalog_of(api_url, items.drop_last()),
                item.item_id,
                track_of(api_url, item),
            );
        }
    }
}

/// Keeps a stored track whose title matches `partial`.
pub open spec fn title_matches(partial: Seq<char>) -> spec_fn((Seq<char>, TrackView)) -> bool {
    |e: (Seq<char>, TrackView)| name_matches(e.1.title, partial)
}

/// The media offered for what the user typed, told over the stored tracks: one choice per
/// stored track whose title matches, in the catalogue's order, up to `MAX_CHOICES`; each
/// shows that track's title and picks its id. So where fewer than `MAX_CHOICES` titles
/// match, every stored track with a matching title is offered.
pub proof fn lemma_media_choices_complete(catalog: CatalogView, partial: Seq<char>)
    ensures
        offered(track_choices(catalog.tracks), partial).len() == if catalog.tracks.filter(
            title_matches(partial),
        ).len() < MAX_CHOICES {
            catalog.tracks.filter(title_matches(partial)).len()
        } else {
            MAX_CHOICES as nat
        },
        forall|k: int|
            0 <= k < offered(track_choices(catalog.tracks), partial).len() ==> #[trigger] offered(
                track_choices(catalog.tracks),
                partial,
            )[k] == (
                catalog.tracks.filter(title_matches(partial))[k].1.title,
                catalog.tracks.filter(title_matches(partial))[k].0,
            ),
        catalog.tracks.filter(title_matches(partial)).len() < MAX_CHOICES ==> forall|k: int|
            0 <= k < catalog.tracks.len() && name_matches(#[trigger] catalog.tracks[k].1.title, partial)
                ==> offered(track_choices(catalog.tracks), partial).contains(
                (catalog.tracks[k].1.title, catalog.tracks[k].0),
            ),
{
    let t = catalog.tracks;
    let g = |e: (Seq<char>, TrackView)| (e.1.title, e.0);
    assert(track_choices(t) =~= t.map_values(g));
    assert(named_match(g, partial) =~= title_matches(partial));
    lemma_offered_mapped(t, g, partial);
    if t.filter(title_matches(partial)).len() < MAX_CHOICES {
        assert forall|k: int|
            0 <= k < t.len() && name_matches(#[trigger] t[k].1.title, partial) implies offered(
            track_choices(t),
            partial,
        ).contains((t[k].1.title, t[k].0)) by {
            assert(g(t[k]) == (t[k].1.title, t[k].0));
            assert(name_matches(g(t[k]).0, partial));
        }
    }
}

/// The track stored under an id, over all catalogues: it is the track of the first entry
/// with that id, and there is none exactly where no entry has that id.
pub proof fn lemma_stored_track(catalog: CatalogView, id: Seq<char>)
    ensures
        stored_track(catalog, id) is None <==> forall|i: int|
            0 <= i < catalog.tracks.len() ==> catalog.tracks[i].0 != id,
        stored_track(catalog, id) matches Some(t) ==> exists|i: int|
            0 <= i < catalog.tracks.len() && catalog.tracks[i] == (id, t) && forall|l: int|
                0 <= l < i ==> catalog.tracks[l].0 != id,
{
    let ids = track_ids(catalog.tracks);
    lemma_first_index_facts(ids, id);
    let i = first_index(ids, id);
    if i >= 0 {
        assert(catalog.tracks[i].0 == id);
        assert(catalog.tracks[i] == (id, catalog.tracks[i].1));
        assert forall|l: int| 0 <= l < i implies catalog.tracks[l].0 != id by {
            assert(ids[l] == catalog.tracks[l].0);
        }
    } else {
        assert forall|l: int| 0 <= l < catalog.tracks.len() implies catalog.tracks[l].0 != id by {
            assert(ids[l] == catalog.tracks[l].0);
        }
    }
}

} // verus!
