//! What the slash commands decide: which reply a request gets, and what is to be played
//! where. The caller performs the replies, joins and playback that a plan names.

use vstd::prelude::*;
use vstd::string::*;
use crate::catalog::{last_track_with_id, lemma_catalog_tracks, stored_track, titled};
use crate::choices::{
    choice_views, filter_choices, lemma_offered, lemma_offered_mapped, name_matches, named_match,
    offered, Choice, MAX_CHOICES,
};
use crate::jellyfin::{
    catalog_of, is_first, lemma_track_of, track_ids, CatalogView, ItemView, first_index, lemma_first_index, lemma_first_index_absent, lemma_first_index_facts,
    JellyfinMetadata,
};
use crate::response::{Embed, EmbedView};

verus! {

/// An internet radio station the bot can play.
pub struct Station {
    pub name: String,
    pub url: String,
}

impl View for Station {
    type V = (Seq<char>, Seq<char>);

    open spec fn view(&self) -> (Seq<char>, Seq<char>) {
        (self.name@, self.url@)
    }
}

/// The views of a sequence of stations.
pub open spec fn station_views(stations: Seq<Station>) -> Seq<(Seq<char>, Seq<char>)> {
    stations.map_values(|s: Station| s@)
}

/// The names of the stations, in order.
pub open spec fn station_names(stations: Seq<(Seq<char>, Seq<char>)>) -> Seq<Seq<char>> {
    stations.map_values(|s: (Seq<char>, Seq<char>)| s.0)
}

/// The reply to a user who is not in a voice channel.
pub open spec fn not_in_voice() -> EmbedView {
    EmbedView::Error("You are not in a voice channel!"@)
}

/// The reply to a request for a station that is not configured.
pub open spec fn unknown_station() -> EmbedView {
    EmbedView::Error("That station does not exist!"@)
}

/// The reply to a request for media that is not in the catalogue.
pub open spec fn unknown_media() -> EmbedView {
    EmbedView::Error("That media does not exist!"@)
}

/// The reply to a stop request when nothing is playing.
pub open spec fn nothing_to_stop() -> EmbedView {
    EmbedView::Error("There is nothing to stop!"@)
}

/// The reply once playback has been stopped.
pub open spec fn playback_stopped() -> EmbedView {
    EmbedView::Success("All playback stopped!"@)
}

/// The reply when a song was queued behind others.
pub open spec fn song_queued() -> EmbedView {
    EmbedView::Success("Your song has been added to the queue!"@)
}

fn not_in_voice_embed() -> (e: Embed)
    ensures
        e@ == not_in_voice(),
{
    Embed::Error(String::from_str("You are not in a voice channel!"))
}

/// The position of the first station named `name`.
fn station_position(stations: &Vec<Station>, name: &str) -> (r: Option<usize>)
    ensures
        match r {
            Some(i) => i < stations.len() && first_index(
                station_names(station_views(stations@)),
                name@,
            ) == i as int,
            None => first_index(station_names(station_views(stations@)), name@) == -1,
        },
{
    let key = String::from_str(name);
    let ghost names = station_names(station_views(stations@));
    let n = stations.len();
    for i in 0..n
        invariant
            n == stations.len(),
            key@ == name@,
            names == station_names(station_views(stations@)),
            forall|j: int| 0 <= j < i ==> #[trigger] stations@[j].name@ != name@,
    {
        if stations[i].name == key {
            proof {
                assert forall|j: int| 0 <= j < i implies names[j] != name@ by {
                    assert(stations@[j].name@ != name@);
                }
                lemma_first_index(names, name@, i as int);
            }
            return Some(i);
        }
    }
    proof {
        assert forall|j: int| 0 <= j < names.len() implies names[j] != name@ by {
            assert(stations@[j].name@ != name@);
        }
        lemma_first_index_absent(names, name@);
    }
    None
}

/// The first station named `name`.
pub fn find_station<'a>(stations: &'a Vec<Station>, name: &str) -> (r: Option<&'a Station>)
    ensures
        match r {
            Some(s) => {
                let i = first_index(station_names(station_views(stations@)), name@);
                i >= 0 && s@ == station_views(stations@)[i]
            },
            None => first_index(station_names(station_views(stations@)), name@) == -1,
        },
{
    match station_position(stations, name) {
        Some(i) => Some(&stations[i]),
        None => None,
    }
}

/// The stations as choices, each shown and picked by its name.
pub open spec fn station_choices_of(stations: Seq<(Seq<char>, Seq<char>)>) -> Seq<(Seq<char>, Seq<char>)> {
    stations.map_values(|s: (Seq<char>, Seq<char>)| (s.0, s.0))
}

/// The stations offered while the user types `partial`: those whose name contains it,
/// ignoring case, at most `MAX_CHOICES` of them in configured order.
pub fn station_choices(stations: &Vec<Station>, partial: &str) -> (out: Vec<Choice>)
    ensures
        choice_views(out@) == offered(station_choices_of(station_views(stations@)), partial@),
{
    let ghost all = station_choices_of(station_views(stations@));
    let mut candidates: Vec<Choice> = Vec::new();
    let n = stations.len();
    for i in 0..n
        invariant
            n == stations.len(),
            all == station_choices_of(station_views(stations@)),
            choice_views(candidates@) == all.take(i as int),
    {
        let c = Choice { name: stations[i].name.clone(), value: stations[i].name.clone() };
        assert(c@ == all[i as int]);
        let ghost before = candidates@;
        candidates.push(c);
        assert(choice_views(before.push(c)) =~= choice_views(before).push(c@));
        assert(choice_views(candidates@) =~= all.take(i + 1));
    }
    assert(all.take(n as int) =~= all);
    filter_choices(&candidates, partial)
}

/// Picking a station choice names a configured station: the radio command never refuses a
/// station that autocomplete offered as unknown, and it plays a station of that name.
pub proof fn lemma_offered_station_exists(stations: Seq<(Seq<char>, Seq<char>)>, partial: Seq<char>)
    ensures
        forall|k: int|
            #![trigger offered(station_choices_of(stations), partial)[k]]
            0 <= k < offered(station_choices_of(stations), partial).len() ==> {
                let c = offered(station_choices_of(stations), partial)[k];
                let i = first_index(station_names(stations), c.1);
                &&& c.0 == c.1
                &&& 0 <= i < stations.len()
                &&& stations[i].0 == c.1
            },
{
    let cands = station_choices_of(stations);
    let names = station_names(stations);
    lemma_offered(cands, partial);
    assert forall|k: int| 0 <= k < offered(cands, partial).len() implies {
        let c = #[trigger] offered(cands, partial)[k];
        let i = first_index(names, c.1);
        &&& c.0 == c.1
        &&& 0 <= i < stations.len()
        &&& stations[i].0 == c.1
    } by {
        let c = offered(cands, partial)[k];
        assert(cands.contains(c));
        let j = choose|j: int| 0 <= j < cands.len() && cands[j] == c;
        assert(names[j] == c.1);
        lemma_first_index_facts(names, c.1);
    }
}

/// What the radio command does.
pub enum RadioPlan {
    /// Answer with this embed and do nothing else.
    Reply(Embed),
    /// Join `channel_id`, announce with `announce`, then play the stream at `url`.
    Play { channel_id: u64, url: String, announce: Embed },
}

/// Mathematical model of a `RadioPlan`.
pub enum RadioPlanView {
    Reply(EmbedView),
    Play { channel_id: u64, url: Seq<char>, announce: EmbedView },
}

impl View for RadioPlan {
    type V = RadioPlanView;

    open spec fn view(&self) -> RadioPlanView {
        match self {
            RadioPlan::Reply(e) => RadioPlanView::Reply(e@),
            RadioPlan::Play { channel_id, url, announce } => RadioPlanView::Play {
                channel_id: *channel_id,
                url: url@,
                announce: announce@,
            },
        }
    }
}

/// The radio command's plan: an unknown station is refused first, then a user outside any
/// voice channel; otherwise the bot joins the user's channel, announces the station by
/// name and plays its stream.
pub open spec fn radio_plan_of(
    stations: Seq<(Seq<char>, Seq<char>)>,
    station_name: Seq<char>,
    voice_channel: Option<u64>,
) -> RadioPlanView {
    let i = first_index(station_names(stations), station_name);
    if i < 0 {
        RadioPlanView::Reply(unknown_station())
    } else {
        match voice_channel {
            None => RadioPlanView::Reply(not_in_voice()),
            Some(c) => RadioPlanView::Play {
                channel_id: c,
                url: stations[i].1,
                announce: EmbedView::NowPlaying(stations[i].0),
            },
        }
    }
}

/// Plans the radio command for the station named `station_name`, the user being in
/// `voice_channel` (if any).
pub fn plan_radio(stations: &Vec<Station>, station_name: &str, voice_channel: Option<u64>) -> (r:
    RadioPlan)
    ensures
        r@ == radio_plan_of(station_views(stations@), station_name@, voice_channel),
{
    match find_station(stations, station_name) {
        None => RadioPlan::Reply(Embed::Error(String::from_str("That station does not exist!"))),
        Some(station) => match voice_channel {
            None => RadioPlan::Reply(not_in_voice_embed()),
            Some(c) => RadioPlan::Play {
                channel_id: c,
                url: station.url.clone(),
                announce: Embed::NowPlaying(station.name.clone()),
            },
        },
    }
}

/// What the media command does.
pub enum MediaPlan {
    /// Answer with this embed and do nothing else.
    Reply(Embed),
    /// Join `channel_id` and queue the audio at `audio_url`.
    Play { channel_id: u64, audio_url: String },
}

/// Mathematical model of a `MediaPlan`.
pub enum MediaPlanView {
    Reply(EmbedView),
    Play { channel_id: u64, audio_url: Seq<char> },
}

impl View for MediaPlan {
    type V = MediaPlanView;

    open spec fn view(&self) -> MediaPlanView {
        match self {
            MediaPlan::Reply(e) => MediaPlanView::Reply(e@),
            MediaPlan::Play { channel_id, audio_url } => MediaPlanView::Play {
                channel_id: *channel_id,
                audio_url: audio_url@,
            },
        }
    }
}

/// The media command's plan: media that is not in the catalogue is refused first, then a
/// user outside any voice channel; otherwise the bot joins the user's channel and queues
/// the track's audio.
pub open spec fn media_plan_of(
    catalog: crate::jellyfin::CatalogView,
    media: Seq<char>,
    voice_channel: Option<u64>,
) -> MediaPlanView {
    match stored_track(catalog, media) {
        None => MediaPlanView::Reply(unknown_media()),
        Some(t) => match voice_channel {
            None => MediaPlanView::Reply(not_in_voice()),
            Some(c) => MediaPlanView::Play { channel_id: c, audio_url: t.audio_url },
        },
    }
}

/// Plans the media command for the track with id `media`, the user being in
/// `voice_channel` (if any).
pub fn plan_media(metadata: &JellyfinMetadata, media: &str, voice_channel: Option<u64>) -> (r:
    MediaPlan)
    ensures
        r@ == media_plan_of(metadata@, media@, voice_channel),
{
    match metadata.track(media) {
        None => MediaPlan::Reply(Embed::Error(String::from_str("That media does not exist!"))),
        Some(track) => match voice_channel {
            None => MediaPlan::Reply(not_in_voice_embed()),
            Some(c) => MediaPlan::Play { channel_id: c, audio_url: track.audio_url.clone() },
        },
    }
}

/// The reply once a song has been queued and the queue holds `queue_len` songs: alone in
/// the queue it is playing now, and `None` asks for the now-playing embed of the song;
/// behind others, the user is told it was queued.
pub fn queued_reply(queue_len: usize) -> (r: Option<Embed>)
    ensures
        queue_len == 1 ==> r is None,
        queue_len != 1 ==> (r matches Some(e) && e@ == song_queued()),
{
    if queue_len != 1 {
        Some(Embed::Success(String::from_str("Your song has been added to the queue!")))
    } else {
        None
    }
}

/// What the stop command does.
pub enum StopPlan {
    /// Answer with this embed and do nothing else.
    Reply(Embed),
    /// Stop the call, leave the voice channel, then answer with `done`.
    StopAndLeave { done: Embed },
}

/// Plans the stop command: a user outside any voice channel is refused first, then a stop
/// when the bot is in no call; otherwise the call is stopped and left.
pub fn plan_stop(user_in_voice: bool, call_present: bool) -> (r: StopPlan)
    ensures
        !user_in_voice ==> (r matches StopPlan::Reply(e) && e@ == not_in_voice()),
        user_in_voice && !call_present ==> (r matches StopPlan::Reply(e) && e@ == nothing_to_stop()),
        user_in_voice && call_present ==> (r matches StopPlan::StopAndLeave { done } && done@
            == playback_stopped()),
{
    if !user_in_voice {
        StopPlan::Reply(not_in_voice_embed())
    } else if !call_present {
        StopPlan::Reply(Embed::Error(String::from_str("There is nothing to stop!")))
    } else {
        StopPlan::StopAndLeave { done: Embed::Success(String::from_str("All playback stopped!")) }
    }
}

/// The stream that the play command starts.
pub open spec fn lofi_stream() -> Seq<char> {
    "https://live.hunter.fm/lofi_high"@
}

/// What the play command does.
pub enum PlayPlan {
    /// Say `message` and do nothing else.
    Say(String),
    /// Join `channel_id`, say `joined`, then play the stream at `url`.
    Start { channel_id: u64, joined: String, url: String },
}

/// Plans the play command: a user outside any voice channel is told so; otherwise the bot
/// joins the user's channel, says so and plays the lo-fi stream.
pub fn plan_play(voice_channel: Option<u64>) -> (r: PlayPlan)
    ensures
        voice_channel is None ==> (r matches PlayPlan::Say(m) && m@
            == "You are not in a voice channel!"@),
        voice_channel matches Some(c) ==> (r matches PlayPlan::Start { channel_id, joined, url } && channel_id == c
            && joined@ == "Joined!"@ && url@ == lofi_stream()),
{
    match voice_channel {
        None => PlayPlan::Say(String::from_str("You are not in a voice channel!")),
        Some(c) => PlayPlan::Start {
            channel_id: c,
            joined: String::from_str("Joined!"),
            url: String::from_str("https://live.hunter.fm/lofi_high"),
        },
    }
}

/// What the radio command does, over all station lists, names and voice channels: a name
/// that no configured station bears is refused as unknown, whatever the voice channel; a
/// known station with the user in no voice channel is refused for that; otherwise the bot
/// plays, in the user's channel, the stream of the first station bearing that name, and
/// announces it by that name.
pub proof fn lemma_radio_plan(
    stations: Seq<(Seq<char>, Seq<char>)>,
    station_name: Seq<char>,
    voice_channel: Option<u64>,
)
    ensures
        (forall|i: int| 0 <= i < stations.len() ==> stations[i].0 != station_name) ==> radio_plan_of(
            stations,
            station_name,
            voice_channel,
        ) == RadioPlanView::Reply(EmbedView::Error("That station does not exist!"@)),
        (exists|i: int| 0 <= i < stations.len() && stations[i].0 == station_name) && voice_channel is None
            ==> radio_plan_of(stations, station_name, voice_channel) == RadioPlanView::Reply(
            EmbedView::Error("You are not in a voice channel!"@),
        ),
        (exists|i: int| 0 <= i < stations.len() && stations[i].0 == station_name) && voice_channel is Some
            ==> radio_plan_of(stations, station_name, voice_channel) is Play,
        radio_plan_of(stations, station_name, voice_channel) matches RadioPlanView::Play {
            channel_id,
            url,
            announce,
        } ==> voice_channel == Some(channel_id) && announce == EmbedView::NowPlaying(station_name)
            && exists|i: int|
            0 <= i < stations.len() && stations[i].0 == station_name && stations[i].1 == url && forall|
                l: int,
            | 0 <= l < i ==> stations[l].0 != station_name,
{
    let names = station_names(stations);
    lemma_first_index_facts(names, station_name);
    let i = first_index(names, station_name);
    if exists|j: int| 0 <= j < stations.len() && stations[j].0 == station_name {
        let j = choose|j: int| 0 <= j < stations.len() && stations[j].0 == station_name;
        assert(names[j] == station_name);
    }
    if forall|j: int| 0 <= j < stations.len() ==> stations[j].0 != station_name {
        assert forall|j: int| 0 <= j < names.len() implies names[j] != station_name by {
            assert(names[j] == stations[j].0);
        }
    }
    if i >= 0 {
        assert(stations[i].0 == station_name);
        assert forall|l: int| 0 <= l < i implies stations[l].0 != station_name by {
            assert(names[l] == stations[l].0);
        }
    }
}

/// What the media command does, over all catalogues, ids and voice channels: an id under
/// which no track is stored is refused as unknown, whatever the voice channel; a stored id
/// with the user in no voice channel is refused for that; otherwise the bot queues, in the
/// user's channel, the audio of the track stored under that id.
pub proof fn lemma_media_plan(catalog: CatalogView, media: Seq<char>, voice_channel: Option<u64>)
    ensures
        (forall|i: int| 0 <= i < catalog.tracks.len() ==> catalog.tracks[i].0 != media) ==> media_plan_of(
            catalog,
            media,
            voice_channel,
        ) == MediaPlanView::Reply(EmbedView::Error("That media does not exist!"@)),
        (exists|i: int| 0 <= i < catalog.tracks.len() && catalog.tracks[i].0 == media) && voice_channel
            is None ==> media_plan_of(catalog, media, voice_channel) == MediaPlanView::Reply(
            EmbedView::Error("You are not in a voice channel!"@),
        ),
        (exists|i: int| 0 <= i < catalog.tracks.len() && catalog.tracks[i].0 == media) && voice_channel
            is Some ==> media_plan_of(catalog, media, voice_channel) is Play,
        media_plan_of(catalog, media, voice_channel) matches MediaPlanView::Play {
            channel_id,
            audio_url,
        } ==> voice_channel == Some(channel_id) && exists|i: int|
            0 <= i < catalog.tracks.len() && catalog.tracks[i].0 == media && catalog.tracks[i].1.audio_url
                == audio_url && forall|l: int| 0 <= l < i ==> catalog.tracks[l].0 != media,
{
    let ids = track_ids(catalog.tracks);
    lemma_first_index_facts(ids, media);
    let i = first_index(ids, media);
    if exists|j: int| 0 <= j < catalog.tracks.len() && catalog.tracks[j].0 == media {
        let j = choose|j: int| 0 <= j < catalog.tracks.len() && catalog.tracks[j].0 == media;
        assert(ids[j] == media);
    }
    if forall|j: int| 0 <= j < catalog.tracks.len() ==> catalog.tracks[j].0 != media {
        assert forall|j: int| 0 <= j < ids.len() implies ids[j] != media by {
            assert(ids[j] == catalog.tracks[j].0);
        }
    }
    if i >= 0 {
        assert(catalog.tracks[i].0 == media);
        assert forall|l: int| 0 <= l < i implies catalog.tracks[l].0 != media by {
            assert(ids[l] == catalog.tracks[l].0);
        }
    }
}

/// A stored track is the track of a titled item with its id.
proof fn lemma_last_track_with_id(api_url: Seq<char>, items: Seq<ItemView>, id: Seq<char>)
    ensures
        last_track_with_id(api_url, items, id) matches Some(t) ==> exists|k: int|
            0 <= k < items.len() && titled(items[k]) && items[k].item_id == id && t
                == crate::jellyfin::track_of(api_url, items[k]),
        last_track_with_id(api_url, items, id) is None ==> forall|k: int|
            0 <= k < items.len() && titled(items[k]) ==> items[k].item_id != id,
    decreases items.len(),
{
    if items.len() > 0 {
        let init = items.drop_last();
        lemma_last_track_with_id(api_url, init, id);
        if !(titled(items.last()) && items.last().item_id == id) {
            if last_track_with_id(api_url, init, id) is Some {
                let t = last_track_with_id(api_url, init, id)->0;
                let k = choose|k: int|
                    0 <= k < init.len() && titled(init[k]) && init[k].item_id == id && t
                        == crate::jellyfin::track_of(api_url, init[k]);
                assert(items[k] == init[k]);
            } else {
                assert forall|k: int| 0 <= k < items.len() && titled(items[k]) implies items[k].item_id
                    != id by {
                    if k < init.len() {
                        assert(items[k] == init[k]);
                    }
                }
            }
        }
    }
}

/// Picking media from a catalogue built from items under `api_url` queues exactly the audio
/// of that id: the plan plays (with the user in a voice channel) exactly where some titled
/// item carries the id, and the address it queues is the item's stream under `api_url`.
pub proof fn lemma_media_plan_after_build(
    api_url: Seq<char>,
    items: Seq<ItemView>,
    media: Seq<char>,
    voice_channel: Option<u64>,
)
    ensures
        media_plan_of(catalog_of(api_url, items), media, voice_channel) is Play <==> (
        voice_channel is Some && exists|k: int|
            0 <= k < items.len() && titled(items[k]) && items[k].item_id == media),
        media_plan_of(catalog_of(api_url, items), media, voice_channel) matches MediaPlanView::Play {
            channel_id,
            audio_url,
        } ==> voice_channel == Some(channel_id) && audio_url == api_url + "/Audio/"@ + media
            + "/stream?static=true"@,
{
    lemma_catalog_tracks(api_url, items, media);
    lemma_last_track_with_id(api_url, items, media);
    if last_track_with_id(api_url, items, media) is Some {
        let t = last_track_with_id(api_url, items, media)->0;
        let k = choose|k: int|
            0 <= k < items.len() && titled(items[k]) && items[k].item_id == media && t
                == crate::jellyfin::track_of(api_url, items[k]);
        lemma_track_of(api_url, items[k]);
    }
}

/// Keeps a station whose name matches `partial`.
pub open spec fn station_name_matches(partial: Seq<char>) -> spec_fn((Seq<char>, Seq<char>)) -> bool {
    |s: (Seq<char>, Seq<char>)| name_matches(s.0, partial)
}

/// The stations offered for what the user typed, told over the configured stations: one
/// choice per station whose name matches, in configured order, up to `MAX_CHOICES`; each
/// shows and picks that station's name. So where fewer than `MAX_CHOICES` names match,
/// every station with a matching name is offered, whatever its stream.
pub proof fn lemma_station_choices_complete(stations: Seq<(Seq<char>, Seq<char>)>, partial: Seq<char>)
    ensures
        offered(station_choices_of(stations), partial).len() == if stations.filter(
            station_name_matches(partial),
        ).len() < MAX_CHOICES {
            stations.filter(station_name_matches(partial)).len()
        } else {
            MAX_CHOICES as nat
        },
        forall|k: int|
            0 <= k < offered(station_choices_of(stations), partial).len() ==> #[trigger] offered(
                station_choices_of(stations),
                partial,
            )[k] == (
                stations.filter(station_name_matches(partial))[k].0,
                stations.filter(station_name_matches(partial))[k].0,
            ),
        stations.filter(station_name_matches(partial)).len() < MAX_CHOICES ==> forall|k: int|
            0 <= k < stations.len() && name_matches(#[trigger] stations[k].0, partial) ==> offered(
                station_choices_of(stations),
                partial,
            ).contains((stations[k].0, stations[k].0)),
{
    let g = |s: (Seq<char>, Seq<char>)| (s.0, s.0);
    assert(station_choices_of(stations) =~= stations.map_values(g));
    assert(named_match(g, partial) =~= station_name_matches(partial));
    lemma_offered_mapped(stations, g, partial);
    if stations.filter(station_name_matches(partial)).len() < MAX_CHOICES {
        assert forall|k: int|
            0 <= k < stations.len() && name_matches(#[trigger] stations[k].0, partial) implies offered(
            station_choices_of(stations),
            partial,
        ).contains((stations[k].0, stations[k].0)) by {
            assert(g(stations[k]) == (stations[k].0, stations[k].0));
            assert(name_matches(g(stations[k]).0, partial));
        }
    }
}

} // verus!
