use scdownload::audio::{
    inner_text, is_fragment_link, links_file_type, media_links, playlist_address, AudioFetch,
    AudioStep,
};
use scdownload::pattern::Patterns;
use scdownload::track::FileType;

fn pats() -> Patterns {
    Patterns::new().expect("the patterns compile")
}

const PAGE: &str = r#"{"track_authorization":"tok","media":{"transcodings":[{"url":"https://api/a/stream/hls","preset":"mp3"},{"url":"https://api/b/stream/hls","preset":"opus"}]}}"#;

#[test]
fn inner_slices() {
    assert_eq!(inner_text(r#"{"url":"https://x/p.m3u8"}"#, 8, 2).as_deref(), Some("https://x/p.m3u8"));
    assert_eq!(inner_text("short", 8, 2), None);
    assert_eq!(inner_text("0123456789", 8, 2).as_deref(), Some(""));
    assert_eq!(inner_text("ééééé", 1, 0), None);
    assert_eq!(inner_text("ééééé", 2, 2).as_deref(), Some("ééé"));
}

#[test]
fn playlist_address_from_description() {
    let p = pats();
    assert_eq!(
        playlist_address(&p, r#"{"url":"https://cf/playlist.m3u8?x=1","licence":"x"}"#).as_deref(),
        Some("https://cf/playlist.m3u8?x=1")
    );
    assert_eq!(playlist_address(&p, "xxxxxxxxABCxx").as_deref(), Some("ABC"));
    assert_eq!(playlist_address(&p, "tiny"), None);
}

#[test]
fn media_links_of_playlist() {
    let p = pats();
    let body = "#EXTM3U\n#EXTINF:1\nhttps://cf-hls-media.sndcdn.com/media/0/1/a.mp3?x=\"q\"\n#EXTINF:1\nhttps://playback.media-streaming.soundcloud.cloud/b/0.m4s\nend";
    let links = media_links(&p, body);
    assert_eq!(
        links,
        vec![
            "https://cf-hls-media.sndcdn.com/media/0/1/a.mp3?x=q\n".to_string(),
            "https://playback.media-streaming.soundcloud.cloud/b/0.m4s\n".to_string(),
        ]
    );
    assert_eq!(links_file_type(&links), FileType::M4S);
    assert_eq!(links_file_type(&links[..1].to_vec()), FileType::MP3);
    assert_eq!(links_file_type(&Vec::new()), FileType::MP3);
    assert!(is_fragment_link("https://x/1.m4s"));
    assert!(!is_fragment_link("https://x/1.mp3"));
}

#[test]
fn audio_fetch_without_authorization() {
    let p = pats();
    assert!(AudioFetch::start(&p, r#"{"url":"https://api/a"}"#, "cid").is_none());
}

#[test]
fn audio_fetch_tries_links_in_order() {
    let p = pats();
    let mut f = AudioFetch::start(&p, PAGE, "cid").unwrap();
    assert_eq!(f.links, vec!["https://api/a/stream/hls", "https://api/b/stream/hls"]);
    match f.next_description() {
        AudioStep::Describe(u) => {
            assert_eq!(u, "https://api/a/stream/hls?client_id=cid&track_authorization=tok")
        },
        other => panic!("{:?}", other),
    }
    match f.on_description(&p, false, "") {
        AudioStep::Describe(u) => {
            assert_eq!(u, "https://api/b/stream/hls?client_id=cid&track_authorization=tok")
        },
        other => panic!("{:?}", other),
    }
    match f.on_description(&p, true, r#"{"url":null}"#) {
        AudioStep::GiveUp => {},
        other => panic!("{:?}", other),
    }
}

#[test]
fn audio_fetch_reaches_segments() {
    let p = pats();
    let mut f = AudioFetch::start(&p, PAGE, "cid").unwrap();
    let _ = f.next_description();
    match f.on_description(&p, true, r#"{"url":"https://cf/p.m3u8"}"#) {
        AudioStep::FetchPlaylist(u) => assert_eq!(u, "https://cf/p.m3u8"),
        other => panic!("{:?}", other),
    }
    let refused = "xxxxxxxxhttps://cf/q.m3u8yyyyyyyyForbiddenyy";
    match f.on_playlist(&p, refused) {
        AudioStep::FetchPlaylist(u) => assert_eq!(u, "https://cf/q.m3u8"),
        other => panic!("{:?}", other),
    }
    assert!(f.retried);
    match f.on_playlist(&p, "Forbidden\nhttps://cf-hls-media.sndcdn.com/media/1.mp3\n") {
        AudioStep::FetchSegments(links) => {
            assert_eq!(links, vec!["https://cf-hls-media.sndcdn.com/media/1.mp3\n".to_string()])
        },
        other => panic!("{:?}", other),
    }
}

#[test]
fn audio_fetch_unreadable_addresses() {
    let p = pats();
    let mut f = AudioFetch::start(&p, PAGE, "cid").unwrap();
    let _ = f.next_description();
    match f.on_description(&p, true, "tiny") {
        AudioStep::Unreadable => {},
        other => panic!("{:?}", other),
    }
    match f.on_playlist(&p, "Forbidden") {
        AudioStep::Unreadable => {},
        other => panic!("{:?}", other),
    }
    assert!(f.retried);
}
