use django::jellyfin::{
    items_url, ImageTags, JellyfinItem, JellyfinMetadata, JellyfinResponse, MediaSource,
    MediaStream, Track,
};

fn stream(kind: &str, bit_depth: u32, sample_rate: u32) -> MediaStream {
    MediaStream { stream_type: kind.to_string(), bit_depth, sample_rate }
}

fn item(id: &str, title: &str, album: &str, artists: &[&str]) -> JellyfinItem {
    JellyfinItem {
        media_sources: vec![],
        item_id: id.to_string(),
        title: title.to_string(),
        artists: artists.iter().map(|a| a.to_string()).collect(),
        release: String::new(),
        album: album.to_string(),
        track_number: 0,
        image_tags: ImageTags { primary: String::new() },
    }
}

#[test]
fn from_item_builds_every_field() {
    let mut it = item("abc123", "Song", "Record", &["Alice", "Bob"]);
    it.release = "2019-05-03T00:00:00.0000000Z".to_string();
    it.track_number = 7;
    it.image_tags.primary = "tag9".to_string();
    it.media_sources = vec![
        MediaSource {
            media_streams: vec![
                stream("Video", 8, 1),
                stream("Audio", 24, 96000),
                stream("Audio", 16, 44100),
            ],
        },
        MediaSource { media_streams: vec![stream("Audio", 32, 192000)] },
    ];
    let t = Track::from_item("https://jf.example", it);
    assert_eq!(t.title, "Song");
    assert_eq!(t.artist, "Alice, Bob");
    assert_eq!(t.year, "2019");
    assert_eq!(t.album, "Record");
    assert_eq!(t.track_number, 7);
    assert_eq!(t.bit_depth, 24);
    assert_eq!(t.sample_rate, 96000);
    assert_eq!(
        t.art_url,
        "https://jf.example/Items/abc123/Images/Primary?maxHeight=320&quality=90&tag=tag9"
    );
    assert_eq!(t.audio_url, "https://jf.example/Audio/abc123/stream?static=true");
}

#[test]
fn from_item_without_audio_stream_reports_zero() {
    let mut it = item("x", "Song", "A", &[]);
    it.media_sources = vec![MediaSource { media_streams: vec![stream("Video", 8, 1)] }];
    it.release = "99".to_string();
    let t = Track::from_item("", it);
    assert_eq!(t.bit_depth, 0);
    assert_eq!(t.sample_rate, 0);
    assert_eq!(t.year, "99");
    assert_eq!(t.artist, "");
    assert_eq!(t.art_url, "/Items/x/Images/Primary?maxHeight=320&quality=90&tag=");
}

#[test]
fn from_item_only_reads_the_first_media_source() {
    let mut it = item("x", "Song", "A", &["Solo"]);
    it.media_sources = vec![
        MediaSource { media_streams: vec![] },
        MediaSource { media_streams: vec![stream("Audio", 24, 48000)] },
    ];
    it.release = "日本語のリリース".to_string();
    let t = Track::from_item("u", it);
    assert_eq!(t.bit_depth, 0);
    assert_eq!(t.sample_rate, 0);
    assert_eq!(t.artist, "Solo");
    assert_eq!(t.year, "日本語の");
}

#[test]
fn catalogue_groups_tracks_by_album_in_order() {
    let items = vec![
        item("1", "One", "First", &["X"]),
        item("2", "", "First", &["Ghost"]),
        item("3", "Three", "Second", &["Y"]),
        item("4", "Four", "First", &["Z"]),
    ];
    let meta = JellyfinMetadata::from_response("api", JellyfinResponse { items });
    let ids: Vec<&str> = meta.tracks().iter().map(|(id, _)| id.as_str()).collect();
    assert_eq!(ids, vec!["1", "3", "4"]);
    assert_eq!(meta.albums().len(), 2);
    assert_eq!(meta.albums()[0].title, "First");
    assert_eq!(meta.albums()[0].artist, "X");
    assert_eq!(meta.albums()[0].tracks, vec!["1".to_string(), "4".to_string()]);
    assert_eq!(meta.albums()[1].title, "Second");
    assert_eq!(meta.albums()[1].artist, "Y");
    assert_eq!(meta.albums()[1].tracks, vec!["3".to_string()]);
    assert!(meta.track("2").is_none());
    assert_eq!(meta.track("4").unwrap().title, "Four");
    assert_eq!(meta.track("4").unwrap().audio_url, "api/Audio/4/stream?static=true");
}

#[test]
fn catalogue_keeps_the_last_track_under_a_repeated_id() {
    let items = vec![
        item("7", "Old", "A", &[]),
        item("8", "Other", "A", &[]),
        item("7", "New", "B", &[]),
    ];
    let meta = JellyfinMetadata::from_response("api", JellyfinResponse { items });
    assert_eq!(meta.tracks().len(), 2);
    assert_eq!(meta.tracks()[0].0, "7");
    assert_eq!(meta.track("7").unwrap().title, "New");
    assert_eq!(meta.albums()[0].tracks, vec!["7".to_string(), "8".to_string()]);
    assert_eq!(meta.albums()[1].tracks, vec!["7".to_string()]);
}

#[test]
fn empty_catalogue() {
    let meta = JellyfinMetadata::from_response("api", JellyfinResponse { items: vec![] });
    assert!(meta.tracks().is_empty());
    assert!(meta.albums().is_empty());
    let d = JellyfinMetadata::default();
    assert!(d.tracks().is_empty() && d.albums().is_empty());
    assert!(d.track("anything").is_none());
    assert!(JellyfinMetadata::new().media_choices("").is_empty());
}

#[test]
fn media_choices_ignore_case_and_keep_order() {
    let items = vec![
        item("a", "Rock Anthem", "L", &[]),
        item("b", "Jazz", "L", &[]),
        item("c", "hard ROCK", "L", &[]),
    ];
    let meta = JellyfinMetadata::from_response("api", JellyfinResponse { items });
    let found = meta.media_choices("rOcK");
    let pairs: Vec<(String, String)> =
        found.into_iter().map(|c| (c.name, c.value)).collect();
    assert_eq!(
        pairs,
        vec![
            ("Rock Anthem".to_string(), "a".to_string()),
            ("hard ROCK".to_string(), "c".to_string())
        ]
    );
    assert_eq!(meta.media_choices("").len(), 3);
    assert!(meta.media_choices("blues").is_empty());
}

#[test]
fn media_choices_lowercase_beyond_ascii() {
    let items = vec![item("u", "ÉTÉ INDIEN", "L", &[])];
    let meta = JellyfinMetadata::from_response("api", JellyfinResponse { items });
    assert_eq!(meta.media_choices("été").len(), 1);
}

#[test]
fn media_choices_stop_at_twenty_five() {
    let items: Vec<JellyfinItem> =
        (0..30).map(|i| item(&format!("id{i}"), &format!("Song {i}"), "L", &[])).collect();
    let meta = JellyfinMetadata::from_response("api", JellyfinResponse { items });
    let found = meta.media_choices("song");
    assert_eq!(found.len(), 25);
    assert_eq!(found[0].value, "id0");
    assert_eq!(found[24].value, "id24");
}

#[test]
fn items_url_names_the_user() {
    assert_eq!(items_url("https://jf", "u42"), "https://jf/Users/u42/Items");
}

#[test]
fn catalogue_tracks_and_albums_agree() {
    let items = vec![
        item("1", "One", "First", &[]),
        item("2", "Two", "Second", &[]),
        item("1", "One again", "Second", &[]),
        item("3", "", "Third", &[]),
    ];
    let meta = JellyfinMetadata::from_response("api", JellyfinResponse { items });
    for album in meta.albums() {
        assert!(!album.tracks.is_empty());
        for id in &album.tracks {
            assert!(meta.track(id).is_some());
        }
    }
    for (id, track) in meta.tracks() {
        assert!(!track.title.is_empty());
        let album = meta.albums().iter().find(|a| a.title == track.album).unwrap();
        assert!(album.tracks.contains(id));
    }
    assert!(meta.albums().iter().all(|a| a.title != "Third"));
}
