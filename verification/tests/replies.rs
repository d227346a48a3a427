use django::choices::{Choice, filter_choices, matches_partial, MAX_CHOICES};
use django::commands::{
    find_station, plan_media, plan_play, plan_radio, plan_stop, queued_reply, station_choices,
    MediaPlan, PlayPlan, RadioPlan, StopPlan, Station,
};
use django::jellyfin::{ImageTags, JellyfinItem, JellyfinMetadata, JellyfinResponse};
use django::response::{Embed, EMBED_COLOR};
use django::text::{concat_str, contains, first_chars, join};
use django::voice::{leave_after_track_event, plan_join, JoinPlan};

fn stations() -> Vec<Station> {
    vec![
        Station { name: "Lofi".to_string(), url: "https://a/lofi".to_string() },
        Station { name: "Jazz FM".to_string(), url: "https://b/jazz".to_string() },
        Station { name: "Lofi".to_string(), url: "https://c/second".to_string() },
    ]
}

fn title(e: &Embed) -> String {
    e.title()
}

#[test]
fn embed_titles() {
    assert_eq!(title(&Embed::Error("Oops".to_string())), ":x: Oops");
    assert_eq!(title(&Embed::Success("Done".to_string())), ":white_check_mark: Done");
    assert_eq!(title(&Embed::NowPlaying("Jazz FM".to_string())), ":notes: Now playing: Jazz FM");
    assert_eq!(title(&Embed::Pong), ":ping_pong: Pong!");
    assert_eq!(title(&Embed::ShuttingDown), ":zzz: Shutting down!");
    assert_eq!(EMBED_COLOR, 0x650506);
}

#[test]
fn find_station_takes_the_first_with_the_name() {
    let s = stations();
    assert_eq!(find_station(&s, "Lofi").unwrap().url, "https://a/lofi");
    assert!(find_station(&s, "lofi").is_none());
}

#[test]
fn radio_refuses_unknown_station_first() {
    match plan_radio(&stations(), "Nope", None) {
        RadioPlan::Reply(e) => assert_eq!(e.title(), ":x: That station does not exist!"),
        _ => panic!("expected a reply"),
    }
}

#[test]
fn radio_needs_a_voice_channel() {
    match plan_radio(&stations(), "Jazz FM", None) {
        RadioPlan::Reply(e) => assert_eq!(e.title(), ":x: You are not in a voice channel!"),
        _ => panic!("expected a reply"),
    }
}

#[test]
fn radio_plays_the_station() {
    match plan_radio(&stations(), "Jazz FM", Some(99)) {
        RadioPlan::Play { channel_id, url, announce } => {
            assert_eq!(channel_id, 99);
            assert_eq!(url, "https://b/jazz");
            assert_eq!(announce.title(), ":notes: Now playing: Jazz FM");
        }
        _ => panic!("expected playback"),
    }
}

#[test]
fn station_choices_filter_by_name() {
    let found = station_choices(&stations(), "FM");
    assert_eq!(found.len(), 1);
    assert_eq!(found[0].name, "Jazz FM");
    assert_eq!(found[0].value, "Jazz FM");
    assert_eq!(station_choices(&stations(), "lo").len(), 2);
}

fn one_track_catalogue() -> JellyfinMetadata {
    let it = JellyfinItem {
        media_sources: vec![],
        item_id: "t1".to_string(),
        title: "Tune".to_string(),
        artists: vec![],
        release: String::new(),
        album: "Alb".to_string(),
        track_number: 1,
        image_tags: ImageTags { primary: String::new() },
    };
    JellyfinMetadata::from_response("http://jf", JellyfinResponse { items: vec![it] })
}

#[test]
fn media_plan_branches() {
    let meta = one_track_catalogue();
    match plan_media(&meta, "t2", Some(5)) {
        MediaPlan::Reply(e) => assert_eq!(e.title(), ":x: That media does not exist!"),
        _ => panic!("expected a reply"),
    }
    match plan_media(&meta, "t1", None) {
        MediaPlan::Reply(e) => assert_eq!(e.title(), ":x: You are not in a voice channel!"),
        _ => panic!("expected a reply"),
    }
    match plan_media(&meta, "t1", Some(5)) {
        MediaPlan::Play { channel_id, audio_url } => {
            assert_eq!(channel_id, 5);
            assert_eq!(audio_url, "http://jf/Audio/t1/stream?static=true");
        }
        _ => panic!("expected playback"),
    }
}

#[test]
fn queued_reply_depends_on_queue_length() {
    assert!(queued_reply(1).is_none());
    assert_eq!(queued_reply(2).unwrap().title(), ":white_check_mark: Your song has been added to the queue!");
    assert!(queued_reply(0).is_some());
}

#[test]
fn stop_plan_branches() {
    match plan_stop(false, true) {
        StopPlan::Reply(e) => assert_eq!(e.title(), ":x: You are not in a voice channel!"),
        _ => panic!("expected a reply"),
    }
    match plan_stop(true, false) {
        StopPlan::Reply(e) => assert_eq!(e.title(), ":x: There is nothing to stop!"),
        _ => panic!("expected a reply"),
    }
    match plan_stop(true, true) {
        StopPlan::StopAndLeave { done } => {
            assert_eq!(done.title(), ":white_check_mark: All playback stopped!")
        }
        _ => panic!("expected a stop"),
    }
}

#[test]
fn play_plan_branches() {
    match plan_play(None) {
        PlayPlan::Say(m) => assert_eq!(m, "You are not in a voice channel!"),
        _ => panic!("expected a message"),
    }
    match plan_play(Some(3)) {
        PlayPlan::Start { channel_id, joined, url } => {
            assert_eq!(channel_id, 3);
            assert_eq!(joined, "Joined!");
            assert_eq!(url, "https://live.hunter.fm/lofi_high");
        }
        _ => panic!("expected a start"),
    }
}

#[test]
fn join_plan_branches() {
    assert!(matches!(plan_join(None, 4), JoinPlan::Join { stop_queue: false }));
    assert!(matches!(plan_join(Some(Some(4)), 4), JoinPlan::Stay));
    assert!(matches!(plan_join(Some(Some(5)), 4), JoinPlan::Join { stop_queue: true }));
    assert!(matches!(plan_join(Some(None), 4), JoinPlan::Join { stop_queue: true }));
}

#[test]
fn leave_only_after_the_last_track() {
    assert!(leave_after_track_event(true, true, true));
    assert!(!leave_after_track_event(true, true, false));
    assert!(!leave_after_track_event(true, false, true));
    assert!(!leave_after_track_event(false, true, true));
}

#[test]
fn text_helpers() {
    assert_eq!(concat_str("ab", "cd"), "abcd");
    assert_eq!(join(&vec!["a".to_string(), "b".to_string(), "c".to_string()], ", "), "a, b, c");
    assert_eq!(join(&vec![], ", "), "");
    assert_eq!(first_chars("abcdef", 4), "abcd");
    assert_eq!(first_chars("ab", 4), "ab");
    assert!(contains("hello", ""));
    assert!(contains("hello", "llo"));
    assert!(!contains("he", "hello"));
    assert!(!contains("hello", "lol"));
}

#[test]
fn filter_choices_matches_names_only() {
    let cands = vec![
        Choice { name: "Alpha".to_string(), value: "beta".to_string() },
        Choice { name: "Gamma".to_string(), value: "alpha".to_string() },
    ];
    let found = filter_choices(&cands, "ALPH");
    assert_eq!(found.len(), 1);
    assert_eq!(found[0].value, "beta");
    assert!(matches_partial("Straße", "STRASSE") == "straße".contains("strasse"));
    assert_eq!(MAX_CHOICES, 25);
}

#[test]
fn a_picked_station_choice_plays_that_station() {
    let s = stations();
    for choice in station_choices(&s, "o") {
        match plan_radio(&s, &choice.value, Some(1)) {
            RadioPlan::Play { announce, .. } => {
                assert_eq!(announce.title(), format!(":notes: Now playing: {}", choice.name))
            }
            _ => panic!("an offered station must be playable"),
        }
    }
}

#[test]
fn a_picked_media_choice_finds_its_track() {
    let meta = one_track_catalogue();
    let found = meta.media_choices("TUN");
    assert_eq!(found.len(), 1);
    let track = meta.track(&found[0].value).unwrap();
    assert_eq!(track.title, found[0].name);
}

#[test]
fn a_longer_query_never_adds_stations() {
    let s = stations();
    let short: Vec<String> = station_choices(&s, "L").into_iter().map(|c| c.value).collect();
    let long: Vec<String> = station_choices(&s, "lof").into_iter().map(|c| c.value).collect();
    assert_eq!(short, vec!["Lofi".to_string(), "Lofi".to_string()]);
    assert_eq!(long, vec!["Lofi".to_string(), "Lofi".to_string()]);
    let fm: Vec<String> = station_choices(&s, "z fm").into_iter().map(|c| c.value).collect();
    assert_eq!(fm, vec!["Jazz FM".to_string()]);
    assert!(station_choices(&s, "jazz fm!").is_empty());
}

#[test]
fn joining_twice_stays_the_second_time() {
    assert!(matches!(plan_join(Some(Some(8)), 8), JoinPlan::Stay));
}
