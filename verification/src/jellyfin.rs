//! The Jellyfin library catalogue: items as the server reports them, the tracks and albums
//! that the bot builds from them, and lookups over the result.

use vstd::prelude::*;
use vstd::string::*;
use crate::catalog::{
    consistent, lemma_catalog_consistent, lemma_catalog_distinct, lemma_offered_media_is_stored,
    stored_track,
};
use crate::choices::{choice_views, filter_choices, offered, Choice};
use crate::text::{
    concat_str, first_chars, join, join_offset, join_with, lemma_join_comma, lemma_prefix,
    prefix, views_of,
};

verus! {

/// One stream of a media source, as the server reports it.
#[derive(Debug)]
pub struct MediaStream {
    pub stream_type: String,
    pub bit_depth: u32,
    pub sample_rate: u32,
}

/// One media source of an item, with its streams.
#[derive(Debug)]
pub struct MediaSource {
    pub media_streams: Vec<MediaStream>,
}

/// The image tags of an item.
#[derive(Debug)]
pub struct ImageTags {
    pub primary: String,
}

/// One audio item as the server reports it.
#[derive(Debug)]
pub struct JellyfinItem {
    pub media_sources: Vec<MediaSource>,
    pub item_id: String,
    pub title: String,
    pub artists: Vec<String>,
    pub release: String,
    pub album: String,
    pub track_number: u32,
    pub image_tags: ImageTags,
}

/// The server's answer to a query for items.
#[derive(Debug)]
pub struct JellyfinResponse {
    pub items: Vec<JellyfinItem>,
}

/// A playable track.
#[derive(Debug)]
pub struct Track {
    pub title: String,
    pub artist: String,
    pub year: String,
    pub album: String,
    pub track_number: u32,
    pub bit_depth: u32,
    pub sample_rate: u32,
    pub art_url: String,
    pub audio_url: String,
}

/// An album: its title, the artist of its first track, and the ids of its tracks in the
/// order in which they were reported.
#[derive(Debug)]
pub struct Album {
    pub title: String,
    pub artist: String,
    pub tracks: Vec<String>,
}

/// Mathematical model of a `MediaStream`.
pub struct StreamView {
    pub stream_type: Seq<char>,
    pub bit_depth: u32,
    pub sample_rate: u32,
}

/// Mathematical model of a `JellyfinItem`; each source is the sequence of its streams.
pub struct ItemView {
    pub sources: Seq<Seq<StreamView>>,
    pub item_id: Seq<char>,
    pub title: Seq<char>,
    pub artists: Seq<Seq<char>>,
    pub release: Seq<char>,
    pub album: Seq<char>,
    pub track_number: u32,
    pub primary_tag: Seq<char>,
}

/// Mathematical model of a `Track`.
pub struct TrackView {
    pub title: Seq<char>,
    pub artist: Seq<char>,
    pub year: Seq<char>,
    pub album: Seq<char>,
    pub track_number: u32,
    pub bit_depth: u32,
    pub sample_rate: u32,
    pub art_url: Seq<char>,
    pub audio_url: Seq<char>,
}

/// Mathematical model of an `Album`.
pub struct AlbumView {
    pub title: Seq<char>,
    pub artist: Seq<char>,
    pub tracks: Seq<Seq<char>>,
}

impl View for MediaStream {
    type V = StreamView;

    open spec fn view(&self) -> StreamView {
        StreamView {
            stream_type: self.stream_type@,
            bit_depth: self.bit_depth,
            sample_rate: self.sample_rate,
        }
    }
}

impl View for MediaSource {
    type V = Seq<StreamView>;

    open spec fn view(&self) -> Seq<StreamView> {
        self.media_streams@.map_values(|s: MediaStream| s@)
    }
}

impl View for JellyfinItem {
    type V = ItemView;

    open spec fn view(&self) -> ItemView {
        ItemView {
            sources: self.media_sources@.map_values(|s: MediaSource| s@),
            item_id: self.item_id@,
            title: self.title@,
            artists: views_of(self.artists@),
            release: self.release@,
            album: self.album@,
            track_number: self.track_number,
            primary_tag: self.image_tags.primary@,
        }
    }
}

impl View for Track {
    type V = TrackView;

    open spec fn view(&self) -> TrackView {
        TrackView {
            title: self.title@,
            artist: self.artist@,
            year: self.year@,
            album: self.album@,
            track_number: self.track_number,
            bit_depth: self.bit_depth,
            sample_rate: self.sample_rate,
            art_url: self.art_url@,
            audio_url: self.audio_url@,
        }
    }
}

impl View for Album {
    type V = AlbumView;

    open spec fn view(&self) -> AlbumView {
        AlbumView { title: self.title@, artist: self.artist@, tracks: views_of(self.tracks@) }
    }
}

/// The first stream of `streams` whose type is `Audio`.
pub open spec fn first_audio_stream(streams: Seq<StreamView>) -> Option<StreamView>
    decreases streams.len(),
{
    if streams.len() == 0 {
        None
    } else if streams[0].stream_type == "Audio"@ {
        Some(streams[0])
    } else {
        first_audio_stream(streams.drop_first())
    }
}

/// The audio stream of an item: the first `Audio` stream of its first media source.
pub open spec fn audio_stream_of(item: ItemView) -> Option<StreamView> {
    if item.sources.len() == 0 {
        None
    } else {
        first_audio_stream(item.sources[0])
    }
}

/// The address of an item's cover art.
pub open spec fn art_url_of(api_url: Seq<char>, item_id: Seq<char>, tag: Seq<char>) -> Seq<char> {
    api_url + "/Items/"@ + item_id + "/Images/Primary?maxHeight=320&quality=90&tag="@ + tag
}

/// The address from which an item's audio is streamed.
pub open spec fn audio_url_of(api_url: Seq<char>, item_id: Seq<char>) -> Seq<char> {
    api_url + "/Audio/"@ + item_id + "/stream?static=true"@
}

/// The track that an item describes.
pub open spec fn track_of(api_url: Seq<char>, item: ItemView) -> TrackView {
    let stream = audio_stream_of(item);
    TrackView {
        title: item.title,
        artist: join_with(item.artists, ", "@),
        year: prefix(item.release, 4),
        album: item.album,
        track_number: item.track_number,
        bit_depth: match stream {
            Some(s) => s.bit_depth,
            None => 0,
        },
        sample_rate: match stream {
            Some(s) => s.sample_rate,
            None => 0,
        },
        art_url: art_url_of(api_url, item.item_id, item.primary_tag),
        audio_url: audio_url_of(api_url, item.item_id),
    }
}

/// Stream `j` is the first of `streams` whose type is `Audio`.
pub open spec fn is_first_audio(streams: Seq<StreamView>, j: int) -> bool {
    &&& 0 <= j < streams.len()
    &&& streams[j].stream_type == "Audio"@
    &&& forall|l: int| 0 <= l < j ==> streams[l].stream_type != "Audio"@
}

/// `first_audio_stream` picks the first `Audio` stream, and none where there is none.
proof fn lemma_first_audio_stream(streams: Seq<StreamView>)
    ensures
        forall|j: int| is_first_audio(streams, j) ==> first_audio_stream(streams) == Some(streams[j]),
        (forall|j: int| 0 <= j < streams.len() ==> streams[j].stream_type != "Audio"@)
            ==> first_audio_stream(streams) is None,
    decreases streams.len(),
{
    if streams.len() > 0 {
        let rest = streams.drop_first();
        lemma_first_audio_stream(rest);
        assert forall|j: int| is_first_audio(streams, j) implies first_audio_stream(streams) == Some(
            streams[j],
        ) by {
            if j > 0 {
                assert(streams[0].stream_type != "Audio"@);
                assert(is_first_audio(rest, j - 1));
            }
        }
        if forall|j: int| 0 <= j < streams.len() ==> streams[j].stream_type != "Audio"@ {
            assert(streams[0].stream_type != "Audio"@);
            assert forall|j: int| 0 <= j < rest.len() implies rest[j].stream_type != "Audio"@ by {
                assert(rest[j] == streams[j + 1]);
            }
        }
    }
}

/// The artist of a track built from an item: every artist of the item, in order, each
/// after the previous one and ", ", and nothing else.
proof fn lemma_track_artist(api_url: Seq<char>, item: ItemView)
    ensures
        item.artists.len() == 0 ==> track_of(api_url, item).artist.len() == 0,
        item.artists.len() > 0 ==> track_of(api_url, item).artist.len() == join_offset(
            item.artists,
            2,
            item.artists.len() - 1,
        ) + item.artists.last().len(),
        forall|k: int|
            #![trigger item.artists[k]]
            0 <= k < item.artists.len() ==> track_of(api_url, item).artist.subrange(
                join_offset(item.artists, 2, k),
                join_offset(item.artists, 2, k) + item.artists[k].len(),
            ) == item.artists[k],
        forall|k: int|
            #![trigger join_offset(item.artists, 2, k)]
            0 < k < item.artists.len() ==> track_of(api_url, item).artist.subrange(
                join_offset(item.artists, 2, k) - 2,
                join_offset(item.artists, 2, k),
            ) == ", "@,
{
    assert(track_of(api_url, item).artist == join_with(item.artists, ", "@));
    lemma_join_comma(item.artists);
}

/// What a track built from an item holds, over all items: its title, album and number are
/// the item's; its artist is every artist of the item, in order, each after the previous
/// one and ", " (and nothing else); its year is the first four characters of the release
/// date, or all of it where shorter; its bit depth and sample rate are those of the first
/// `Audio` stream of the item's first media source, or 0 where there is none; and its
/// addresses name the item under `api_url`.
pub proof fn lemma_track_of(api_url: Seq<char>, item: ItemView)
    ensures
        track_of(api_url, item).title == item.title,
        track_of(api_url, item).album == item.album,
        track_of(api_url, item).track_number == item.track_number,
        item.artists.len() == 0 ==> track_of(api_url, item).artist.len() == 0,
        item.artists.len() > 0 ==> track_of(api_url, item).artist.len() == join_offset(
            item.artists,
            2,
            item.artists.len() - 1,
        ) + item.artists.last().len(),
        forall|k: int|
            #![trigger item.artists[k]]
            0 <= k < item.artists.len() ==> track_of(api_url, item).artist.subrange(
                join_offset(item.artists, 2, k),
                join_offset(item.artists, 2, k) + item.artists[k].len(),
            ) == item.artists[k],
        forall|k: int|
            #![trigger join_offset(item.artists, 2, k)]
            0 < k < item.artists.len() ==> track_of(api_url, item).artist.subrange(
                join_offset(item.artists, 2, k) - 2,
                join_offset(item.artists, 2, k),
            ) == ", "@,
        track_of(api_url, item).year.len() == if item.release.len() < 4 {
            item.release.len()
        } else {
            4
        },
        forall|k: int|
            0 <= k < track_of(api_url, item).year.len() ==> #[trigger] track_of(api_url, item).year[k]
                == item.release[k],
        forall|j: int|
            item.sources.len() > 0 && #[trigger] is_first_audio(item.sources[0], j) ==> track_of(
                api_url,
                item,
            ).bit_depth == item.sources[0][j].bit_depth && track_of(api_url, item).sample_rate
                == item.sources[0][j].sample_rate,
        item.sources.len() == 0 || (forall|j: int|
            0 <= j < item.sources[0].len() ==> item.sources[0][j].stream_type != "Audio"@) ==> (
        track_of(api_url, item).bit_depth == 0 && track_of(api_url, item).sample_rate == 0),
        track_of(api_url, item).art_url == api_url + "/Items/"@ + item.item_id
            + "/Images/Primary?maxHeight=320&quality=90&tag="@ + item.primary_tag,
        track_of(api_url, item).audio_url == api_url + "/Audio/"@ + item.item_id
            + "/stream?static=true"@,
{
    lemma_track_artist(api_url, item);
    lemma_prefix(item.release, 4);
    if item.sources.len() > 0 {
        lemma_first_audio_stream(item.sources[0]);
    }
}

/// The first stream of `streams` whose type is `Audio`, by its index.
fn find_audio_stream(streams: &Vec<MediaStream>) -> (r: Option<usize>)
    ensures
        match r {
            Some(i) => i < streams.len() && first_audio_stream(streams@.map_values(
                |s: MediaStream| s@,
            )) == Some(streams@[i as int]@),
            None => first_audio_stream(streams@.map_values(|s: MediaStream| s@)) is None,
        },
{
    let ghost all = streams@.map_values(|s: MediaStream| s@);
    let audio = String::from_str("Audio");
    let n = streams.len();
    assert(all.skip(0) =~= all);
    for i in 0..n
        invariant
            n == streams.len(),
            all == streams@.map_values(|s: MediaStream| s@),
            audio@ == "Audio"@,
            first_audio_stream(all) == first_audio_stream(all.skip(i as int)),
    {
        assert(all.skip(i as int)[0] == all[i as int]);
        assert(all.skip(i as int).drop_first() =~= all.skip(i + 1));
        if streams[i].stream_type == audio {
            return Some(i);
        }
    }
    assert(all.skip(n as int).len() == 0);
    None
}

impl Track {
    /// Builds the track that `item` describes, with addresses under `api_url`.
    pub fn from_item(api_url: &str, item: JellyfinItem) -> (track: Track)
        ensures
            track@ == track_of(api_url@, item@),
    {
        let ghost iv = item@;
        let JellyfinItem {
            media_sources,
            item_id,
            title,
            artists,
            release,
            album,
            track_number,
            image_tags,
        } = item;
        let mut bit_depth: u32 = 0;
        let mut sample_rate: u32 = 0;
        if media_sources.len() > 0 {
            let streams = &media_sources[0].media_streams;
            assert(iv.sources[0] == streams@.map_values(|s: MediaStream| s@));
            match find_audio_stream(streams) {
                Some(i) => {
                    bit_depth = streams[i].bit_depth;
                    sample_rate = streams[i].sample_rate;
                },
                None => {},
            }
        }
        let year = first_chars(release.as_str(), 4);
        let artist = join(&artists, ", ");
        let art_tag = image_tags.primary;
        let mut art_url = concat_str(api_url, "/Items/");
        art_url.append(item_id.as_str());
        art_url.append("/Images/Primary?maxHeight=320&quality=90&tag=");
        art_url.append(art_tag.as_str());
        let mut audio_url = concat_str(api_url, "/Audio/");
        audio_url.append(item_id.as_str());
        audio_url.append("/stream?static=true");
        Track {
            title,
            artist,
            year,
            album,
            track_number,
            bit_depth,
            sample_rate,
            art_url,
            audio_url,
        }
    }
}


/// The catalogue of tracks and albums that the bot keeps. Each track is stored with its id;
/// each album is found by its title.
/// No two tracks share an id and no two albums share a title.
#[derive(Debug)]
pub struct JellyfinMetadata {
    tracks: Vec<(String, Track)>,
    albums: Vec<Album>,
}

/// Mathematical model of a `JellyfinMetadata`: the tracks with their ids, and the albums, in
/// the order in which they were first reported.
pub struct CatalogView {
    pub tracks: Seq<(Seq<char>, TrackView)>,
    pub albums: Seq<AlbumView>,
}

/// The views of stored tracks with their ids.
pub open spec fn tracks_view(tracks: Seq<(String, Track)>) -> Seq<(Seq<char>, TrackView)> {
    tracks.map_values(|e: (String, Track)| (e.0@, e.1@))
}

/// The views of albums.
pub open spec fn albums_view(albums: Seq<Album>) -> Seq<AlbumView> {
    albums.map_values(|a: Album| a@)
}

impl View for JellyfinMetadata {
    type V = CatalogView;

    closed spec fn view(&self) -> CatalogView {
        CatalogView { tracks: tracks_view(self.tracks@), albums: albums_view(self.albums@) }
    }
}

/// The empty catalogue.
pub open spec fn empty_catalog() -> CatalogView {
    CatalogView { tracks: Seq::empty(), albums: Seq::empty() }
}

/// `i` is the first position of `k` in `keys`.
pub open spec fn is_first(keys: Seq<Seq<char>>, k: Seq<char>, i: int) -> bool {
    &&& 0 <= i < keys.len()
    &&& keys[i] == k
    &&& forall|j: int| 0 <= j < i ==> keys[j] != k
}

/// The first position of `k` in `keys`, or -1 where it does not occur.
pub open spec fn first_index(keys: Seq<Seq<char>>, k: Seq<char>) -> int {
    if exists|i: int| is_first(keys, k, i) {
        choose|i: int| is_first(keys, k, i)
    } else {
        -1
    }
}

/// No key occurs twice.
pub open spec fn distinct(keys: Seq<Seq<char>>) -> bool {
    forall|i: int, j: int| 0 <= i < j < keys.len() ==> keys[i] != keys[j]
}

/// The ids of the stored tracks, in order.
pub open spec fn track_ids(tracks: Seq<(Seq<char>, TrackView)>) -> Seq<Seq<char>> {
    tracks.map_values(|e: (Seq<char>, TrackView)| e.0)
}

/// The titles of the albums, in order.
pub open spec fn album_titles(albums: Seq<AlbumView>) -> Seq<Seq<char>> {
    albums.map_values(|a: AlbumView| a.title)
}

/// Stores `track` under `id`: it replaces the track stored under `id`, else it comes last.
pub open spec fn insert_track(tracks: Seq<(Seq<char>, TrackView)>, id: Seq<char>, track: TrackView) -> Seq<
    (Seq<char>, TrackView),
> {
    let i = first_index(track_ids(tracks), id);
    if i >= 0 {
        tracks.update(i, (id, track))
    } else {
        tracks.push((id, track))
    }
}

/// Files the track `id` under its album: appended to that album's track list, or a new
/// album, titled and credited after this track, that holds it alone.
pub open spec fn file_track(albums: Seq<AlbumView>, id: Seq<char>, track: TrackView) -> Seq<AlbumView> {
    let i = first_index(album_titles(albums), track.album);
    if i >= 0 {
        albums.update(i, AlbumView { tracks: albums[i].tracks.push(id), ..albums[i] })
    } else {
        albums.push(AlbumView { title: track.album, artist: track.artist, tracks: seq![id] })
    }
}

/// The catalogue built from `items` in order: an item without a title is skipped; every
/// other one is filed under its album and stored under its id.
pub open spec fn catalog_of(api_url: Seq<char>, items: Seq<ItemView>) -> CatalogView
    decreases items.len(),
{
    if items.len() == 0 {
        empty_catalog()
    } else {
        let prev = catalog_of(api_url, items.drop_last());
        let item = items.last();
        if item.title.len() == 0 {
            prev
        } else {
            let track = track_of(api_url, item);
            CatalogView {
                tracks: insert_track(prev.tracks, item.item_id, track),
                albums: file_track(prev.albums, item.item_id, track),
            }
        }
    }
}

/// The views of a sequence of items.
pub open spec fn item_views(items: Seq<JellyfinItem>) -> Seq<ItemView> {
    items.map_values(|i: JellyfinItem| i@)
}

/// Where `i` is the first position of `k`, `first_index` names it.
pub proof fn lemma_first_index(keys: Seq<Seq<char>>, k: Seq<char>, i: int)
    requires
        is_first(keys, k, i),
    ensures
        first_index(keys, k) == i,
{
    let j = choose|j: int| is_first(keys, k, j);
    assert(is_first(keys, k, j));
    if j < i {
        assert(keys[j] == k);
    } else if i < j {
        assert(keys[i] == k);
    }
}

/// A key that does not occur has no first position.
pub proof fn lemma_first_index_absent(keys: Seq<Seq<char>>, k: Seq<char>)
    requires
        forall|i: int| 0 <= i < keys.len() ==> keys[i] != k,
    ensures
        first_index(keys, k) == -1,
{
}

/// Where `k` occurs at `j`, it has a first position.
pub proof fn lemma_least_occurrence(keys: Seq<Seq<char>>, k: Seq<char>, j: int)
    requires
        0 <= j < keys.len(),
        keys[j] == k,
    ensures
        exists|m: int| is_first(keys, k, m),
    decreases j,
{
    if exists|l: int| 0 <= l < j && keys[l] == k {
        let l = choose|l: int| 0 <= l < j && keys[l] == k;
        lemma_least_occurrence(keys, k, l);
    } else {
        assert(is_first(keys, k, j));
    }
}

/// `first_index` is a position of the key, or -1 exactly where the key does not occur.
pub proof fn lemma_first_index_facts(keys: Seq<Seq<char>>, k: Seq<char>)
    ensures
        first_index(keys, k) >= -1,
        first_index(keys, k) >= 0 ==> is_first(keys, k, first_index(keys, k)),
        first_index(keys, k) < 0 <==> forall|j: int| 0 <= j < keys.len() ==> keys[j] != k,
{
    if exists|j: int| 0 <= j < keys.len() && keys[j] == k {
        let j = choose|j: int| 0 <= j < keys.len() && keys[j] == k;
        lemma_least_occurrence(keys, k, j);
    }
}

/// Appending another key leaves the first position of `k` as it was.
pub proof fn lemma_first_index_push(keys: Seq<Seq<char>>, x: Seq<char>, k: Seq<char>)
    requires
        x != k,
    ensures
        first_index(keys.push(x), k) == first_index(keys, k),
{
    lemma_first_index_facts(keys, k);
    lemma_first_index_facts(keys.push(x), k);
    let i = first_index(keys, k);
    if i >= 0 {
        assert(is_first(keys.push(x), k, i));
        lemma_first_index(keys.push(x), k, i);
    } else {
        assert forall|j: int| 0 <= j < keys.push(x).len() implies keys.push(x)[j] != k by {
            if j < keys.len() {
                assert(keys[j] != k);
            }
        }
    }
}

/// The position of the track stored under `id`.
fn track_position(tracks: &Vec<(String, Track)>, id: &String) -> (r: Option<usize>)
    ensures
        match r {
            Some(i) => is_first(track_ids(tracks_view(tracks@)), id@, i as int),
            None => forall|i: int| 0 <= i < tracks.len() ==> #[trigger] tracks@[i].0@ != id@,
        },
{
    let ghost ids = track_ids(tracks_view(tracks@));
    let n = tracks.len();
    for i in 0..n
        invariant
            n == tracks.len(),
            ids == track_ids(tracks_view(tracks@)),
            forall|j: int| 0 <= j < i ==> #[trigger] tracks@[j].0@ != id@,
    {
        if tracks[i].0 == *id {
            assert forall|j: int| 0 <= j < i implies ids[j] != id@ by {
                assert(tracks@[j].0@ != id@);
            }
            return Some(i);
        }
    }
    None
}

/// The position of the album titled `title`.
fn album_position(albums: &Vec<Album>, title: &String) -> (r: Option<usize>)
    ensures
        match r {
            Some(i) => is_first(album_titles(albums_view(albums@)), title@, i as int),
            None => forall|i: int| 0 <= i < albums.len() ==> #[trigger] albums@[i].title@ != title@,
        },
{
    let ghost titles = album_titles(albums_view(albums@));
    let n = albums.len();
    for i in 0..n
        invariant
            n == albums.len(),
            titles == album_titles(albums_view(albums@)),
            forall|j: int| 0 <= j < i ==> #[trigger] albums@[j].title@ != title@,
    {
        if albums[i].title == *title {
            assert forall|j: int| 0 <= j < i implies titles[j] != title@ by {
                assert(albums@[j].title@ != title@);
            }
            return Some(i);
        }
    }
    None
}

/// Stores `track` under `id`, replacing the track stored under it.
fn store_track(tracks: &mut Vec<(String, Track)>, id: String, track: Track)
    ensures
        tracks_view(final(tracks)@) == insert_track(tracks_view(old(tracks)@), id@, track@),
{
    let ghost before = tracks_view(tracks@);
    match track_position(tracks, &id) {
        Some(i) => {
            proof {
                lemma_first_index(track_ids(before), id@, i as int);
            }
            tracks.set(i, (id, track));
            assert(tracks_view(tracks@) =~= before.update(i as int, (id@, track@)));
        },
        None => {
            proof {
                assert forall|j: int| 0 <= j < track_ids(before).len() implies track_ids(before)[j]
                    != id@ by {
                    assert(tracks@[j].0@ != id@);
                }
                lemma_first_index_absent(track_ids(before), id@);
            }
            tracks.push((id, track));
            assert(tracks_view(tracks@) =~= before.push((id@, track@)));
        },
    }
}

/// Files the track `id` under the album of `track`.
fn file_under_album(albums: &mut Vec<Album>, id: &String, track: &Track)
    ensures
        albums_view(final(albums)@) == file_track(albums_view(old(albums)@), id@, track@),
{
    let ghost before = albums_view(albums@);
    match album_position(albums, &track.album) {
        Some(i) => {
            proof {
                lemma_first_index(album_titles(before), track.album@, i as int);
            }
            let mut album = albums.remove(i);
            album.tracks.push(id.clone());
            assert(views_of(album.tracks@) =~= before[i as int].tracks.push(id@));
            albums.insert(i, album);
            assert(albums_view(albums@) =~= before.update(
                i as int,
                AlbumView { tracks: before[i as int].tracks.push(id@), ..before[i as int] },
            ));
        },
        None => {
            proof {
                assert forall|j: int| 0 <= j < album_titles(before).len() implies album_titles(
                    before,
                )[j] != track.album@ by {
                    assert(albums@[j].title@ != track.album@);
                }
                lemma_first_index_absent(album_titles(before), track.album@);
            }
            let album = Album {
                title: track.album.clone(),
                artist: track.artist.clone(),
                tracks: vec![id.clone()],
            };
            assert(views_of(album.tracks@) =~= seq![id@]);
            albums.push(album);
            assert(albums_view(albums@) =~= before.push(
                AlbumView { title: track.album@, artist: track.artist@, tracks: seq![id@] },
            ));
        },
    }
}

impl JellyfinMetadata {
    /// No two tracks share an id and no two albums share a title.
    #[verifier::type_invariant]
    spec fn well_formed(self) -> bool {
        &&& distinct(track_ids(tracks_view(self.tracks@)))
        &&& distinct(album_titles(albums_view(self.albums@)))
    }

    /// The empty catalogue.
    pub fn new() -> (out: JellyfinMetadata)
        ensures
            out@ == empty_catalog(),
    {
        let out = JellyfinMetadata { tracks: Vec::new(), albums: Vec::new() };
        assert(out@.tracks =~= Seq::<(Seq<char>, TrackView)>::empty());
        assert(out@.albums =~= Seq::<AlbumView>::empty());
        out
    }

    /// Builds the catalogue from the items of `response`, in order: an item without a title
    /// is skipped; every other one becomes a track, stored under its id (a later item with
    /// the same id replaces the earlier track) and listed under its album, which is created,
    /// titled and credited after this track, the first time it is met.
    pub fn from_response(api_url: &str, response: JellyfinResponse) -> (out: JellyfinMetadata)
        ensures
            out@ == catalog_of(api_url@, item_views(response.items@)),
            distinct(track_ids(out@.tracks)),
            distinct(album_titles(out@.albums)),
            consistent(out@),
    {
        let ghost all = response.items@;
        let mut tracks: Vec<(String, Track)> = Vec::new();
        let mut albums: Vec<Album> = Vec::new();
        proof {
            assert(tracks_view(tracks@) =~= Seq::<(Seq<char>, TrackView)>::empty());
            assert(albums_view(albums@) =~= Seq::<AlbumView>::empty());
        }
        for item in it: response.items.into_iter()
            invariant
                it.seq() == all,
                tracks_view(tracks@) == catalog_of(api_url@, item_views(all.take(it.index() as int))).tracks,
                albums_view(albums@) == catalog_of(api_url@, item_views(all.take(it.index() as int))).albums,
        {
            let ghost k = it.index() as int;
            proof {
                assert(item_views(all.take(k + 1)).drop_last() =~= item_views(all.take(k)));
                assert(item_views(all.take(k + 1)).last() == item@);
            }
            if !item.title.as_str().is_empty() {
                let item_id = item.item_id.clone();
                let track = Track::from_item(api_url, item);
                file_under_album(&mut albums, &item_id, &track);
                store_track(&mut tracks, item_id, track);
            }
        }
        proof {
            assert(all.take(all.len() as int) =~= all);
            lemma_catalog_distinct(api_url@, item_views(all));
            lemma_catalog_consistent(api_url@, item_views(all));
        }
        JellyfinMetadata { tracks, albums }
    }

    /// The track stored under `id`.
    pub fn track(&self, id: &str) -> (r: Option<&Track>)
        ensures
            match r {
                Some(t) => stored_track(self@, id@) == Some(t@),
                None => stored_track(self@, id@) is None,
            },
    {
        let key = String::from_str(id);
        let ghost ids = track_ids(tracks_view(self.tracks@));
        match track_position(&self.tracks, &key) {
            Some(i) => {
                proof {
                    lemma_first_index(ids, id@, i as int);
                }
                Some(&self.tracks[i].1)
            },
            None => {
                proof {
                    assert forall|j: int| 0 <= j < ids.len() implies ids[j] != id@ by {
                        assert(self.tracks@[j].0@ != id@);
                    }
                    lemma_first_index_absent(ids, id@);
                }
                None
            },
        }
    }

    /// The stored tracks as choices: each shown by its title, picked by its id.
    fn track_candidates(&self) -> (out: Vec<Choice>)
        ensures
            choice_views(out@) == track_choices(self@.tracks),
    {
        let mut out: Vec<Choice> = Vec::new();
        let n = self.tracks.len();
        for i in 0..n
            invariant
                n == self.tracks.len(),
                choice_views(out@) == track_choices(self@.tracks).take(i as int),
        {
            let c = Choice { name: self.tracks[i].1.title.clone(), value: self.tracks[i].0.clone() };
            assert(self@.tracks[i as int] == (self.tracks@[i as int].0@, self.tracks@[i as int].1@));
            assert(c@ == track_choices(self@.tracks)[i as int]);
            let ghost old_out = out@;
            out.push(c);
            assert(out@ == old_out.push(c));
            assert(choice_views(old_out.push(c)) =~= choice_views(old_out).push(c@));
            assert(choice_views(out@) =~= track_choices(self@.tracks).take(i + 1));
        }
        assert(track_choices(self@.tracks).take(n as int) =~= track_choices(self@.tracks));
        out
    }

    /// The tracks offered while the user types `partial`: those whose title contains it,
    /// ignoring case, at most `MAX_CHOICES` of them in the order of the catalogue, each
    /// shown by its title and picked by its id.
    /// Picking one of them finds a stored track whose title is the name it showed.
    pub fn media_choices(&self, partial: &str) -> (out: Vec<Choice>)
        ensures
            choice_views(out@) == offered(track_choices(self@.tracks), partial@),
            forall|k: int|
                0 <= k < out.len() ==> (stored_track(self@, #[trigger] out@[k].value@) matches Some(
                    t,
                ) && t.title == out@[k].name@),
    {
        proof {
            use_type_invariant(self);
        }
        let candidates = self.track_candidates();
        let out = filter_choices(&candidates, partial);
        proof {
            let offers = offered(track_choices(self@.tracks), partial@);
            lemma_offered_media_is_stored(self@, partial@);
            assert forall|k: int| 0 <= k < out.len() implies (stored_track(
                self@,
                #[trigger] out@[k].value@,
            ) matches Some(t) && t.title == out@[k].name@) by {
                assert(choice_views(out@)[k] == out@[k]@);
                assert(offers[k] == (out@[k].name@, out@[k].value@));
            }
        }
        out
    }

    /// The stored tracks with their ids, in order; no two share an id.
    pub fn tracks(&self) -> (r: &Vec<(String, Track)>)
        ensures
            tracks_view(r@) == self@.tracks,
            distinct(track_ids(self@.tracks)),
    {
        proof {
            use_type_invariant(self);
        }
        &self.tracks
    }

    /// The albums, in the order in which they were first met; no two share a title.
    pub fn albums(&self) -> (r: &Vec<Album>)
        ensures
            albums_view(r@) == self@.albums,
            distinct(album_titles(self@.albums)),
    {
        proof {
            use_type_invariant(self);
        }
        &self.albums
    }
}

impl Default for JellyfinMetadata {
    /// The empty catalogue.
    fn default() -> (out: Self)
        ensures
            out@ == empty_catalog(),
    {
        JellyfinMetadata::new()
    }
}

/// The stored tracks as (title, id) pairs, in order.
pub open spec fn track_choices(tracks: Seq<(Seq<char>, TrackView)>) -> Seq<(Seq<char>, Seq<char>)> {
    tracks.map_values(|e: (Seq<char>, TrackView)| (e.1.title, e.0))
}

/// The address from which the items of a user's library are listed.
pub open spec fn items_url_of(api_url: Seq<char>, user_id: Seq<char>) -> Seq<char> {
    api_url + "/Users/"@ + user_id + "/Items"@
}

/// The address from which the items of the user `user_id` are listed.
pub fn items_url(api_url: &str, user_id: &str) -> (out: String)
    ensures
        out@ == items_url_of(api_url@, user_id@),
{
    let mut out = concat_str(api_url, "/Users/");
    out.append(user_id);
    out.append("/Items");
    out
}

} // verus!
