use scdownload::cli::{
    additional_argument_helper, artist_folder, artist_target, artist_tracks_url,
    check_for_invalid_arguments, command_kind, liked_folder, liked_tracks_url, option_value, playlist_target, site_address,
    switch_argument, thread_count_argument, track_target, trimming, ArgumentCheck, Command,
};

fn args(v: &[&str]) -> Vec<String> {
    v.iter().map(|s| s.to_string()).collect()
}

#[test]
fn trimming_full_link() {
    assert_eq!(
        trimming("https://soundcloud.com/zeunig/garou-hardstyle?in=zeunig/sets/x".to_string()),
        "zeunig/garou-hardstyle"
    );
}

#[test]
fn trimming_plain_path() {
    assert_eq!(trimming("zeunig/garou-hardstyle".to_string()), "zeunig/garou-hardstyle");
}

#[test]
fn trimming_takes_last_address() {
    assert_eq!(
        trimming("https://soundcloud.com/a/https://soundcloud.com/b/c".to_string()),
        "b/c"
    );
}

#[test]
fn trimming_empty_and_question_only() {
    assert_eq!(trimming(String::new()), "");
    assert_eq!(trimming("?x".to_string()), "");
}

#[test]
fn trimming_twice_is_trimming_once() {
    for s in [
        "https://soundcloud.com/zeunig/garou?x=1",
        "https://soundcloud.com/https://soundcloud.com/a?b?c",
        "a?b",
        "",
        "https://soundcloud.com/",
    ] {
        let once = trimming(s.to_string());
        assert_eq!(trimming(once.clone()), once);
    }
}

#[test]
fn check_no_argument_shows_usage() {
    assert_eq!(check_for_invalid_arguments(&args(&["scdownload"])), ArgumentCheck::Usage);
}

#[test]
fn check_kind_without_id() {
    assert_eq!(check_for_invalid_arguments(&args(&["p", "track"])), ArgumentCheck::MissingTrackId);
    assert_eq!(check_for_invalid_arguments(&args(&["p", "album"])), ArgumentCheck::MissingAlbumId);
    assert_eq!(
        check_for_invalid_arguments(&args(&["p", "playlist"])),
        ArgumentCheck::MissingPlaylistId
    );
    assert_eq!(
        check_for_invalid_arguments(&args(&["p", "artist"])),
        ArgumentCheck::MissingArtistName
    );
    assert_eq!(
        check_for_invalid_arguments(&args(&["p", "liked"])),
        ArgumentCheck::MissingLikedUser
    );
    assert_eq!(check_for_invalid_arguments(&args(&["p", "likes"])), ArgumentCheck::UnknownKind);
}

#[test]
fn check_first_argument_mentions_kind() {
    assert_eq!(
        check_for_invalid_arguments(&args(&["p", "song", "zeunig/x"])),
        ArgumentCheck::NoKind
    );
    assert_eq!(
        check_for_invalid_arguments(&args(&["scdownload", "liked", "zeunig"])),
        ArgumentCheck::Proceed
    );
    assert_eq!(
        check_for_invalid_arguments(&args(&["p", "tracks", "zeunig/x"])),
        ArgumentCheck::Proceed
    );
    assert_eq!(
        check_for_invalid_arguments(&args(&["p", "playlist", "zeunig/sets/hardstyle"])),
        ArgumentCheck::Proceed
    );
}

#[test]
fn folders_from_options() {
    let (t, d) = additional_argument_helper(&args(&[
        "p",
        "track",
        "a/b",
        "--temp-dir=/tmp/cache",
        "--download-dir=out=dir",
    ]));
    assert_eq!(t.as_deref(), Some("/tmp/cache"));
    assert_eq!(d.as_deref(), Some("out=dir"));
}

#[test]
fn folders_absent_or_without_value() {
    let (t, d) = additional_argument_helper(&args(&["p", "track", "--temp-dir", "--temp-dir=x"]));
    assert_eq!(t, None);
    assert_eq!(d, None);
    assert_eq!(option_value(&args(&["p", "--x="]), "--x").as_deref(), Some(""));
}

#[test]
fn thread_count_values() {
    assert_eq!(thread_count_argument(&args(&["p", "--thread-count=5"])), 5);
    assert_eq!(thread_count_argument(&args(&["p", "--thread-count=+7"])), 7);
    assert_eq!(thread_count_argument(&args(&["p", "--thread-count=abc"])), 3);
    assert_eq!(thread_count_argument(&args(&["p", "--thread-count="])), 3);
    assert_eq!(thread_count_argument(&args(&["p"])), 3);
    assert_eq!(
        thread_count_argument(&args(&["p", "--thread-count=99999999999999999999999999"])),
        3
    );
}

#[test]
fn switches() {
    assert!(switch_argument(&args(&["p", "--disable-cache", "true"]), "--disable-cache"));
    assert!(switch_argument(&args(&["p", "--disable-cache=true"]), "--disable-cache"));
    assert!(!switch_argument(&args(&["p", "--disable-cache=false"]), "--disable-cache"));
    assert!(!switch_argument(&args(&["p", "--disable-cache"]), "--disable-cache"));
    assert!(!switch_argument(&args(&["p"]), "--original-cover-size"));
}

#[test]
fn kinds() {
    assert_eq!(command_kind(&"track".to_string()), Command::Track);
    assert_eq!(command_kind(&"album".to_string()), Command::Playlist);
    assert_eq!(command_kind(&"playlist".to_string()), Command::Playlist);
    assert_eq!(command_kind(&"artist".to_string()), Command::Artist);
    assert_eq!(command_kind(&"liked".to_string()), Command::Liked);
    assert_eq!(command_kind(&"tracks".to_string()), Command::Other);
}

#[test]
fn targets() {
    assert_eq!(track_target("https://soundcloud.com/zeunig/garou?si=1"), "zeunig/garou");
    assert_eq!(track_target("odcodone/lp-printer"), "odcodone/lp-printer");
    assert_eq!(
        playlist_target("https://soundcloud.com/zeunig/sets/hardstyle"),
        "zeunig/sets/hardstyle"
    );
    assert_eq!(playlist_target("zeunig/sets/hardstyle"), "zeunig/sets/hardstyle");
    assert_eq!(artist_target("soundcloud.com/zeunig"), "zeunig");
    assert_eq!(artist_target("zeunig"), "zeunig");
}

#[test]
fn addresses() {
    assert_eq!(site_address("zeunig"), "https://soundcloud.com/zeunig");
    assert_eq!(artist_folder("zeunig"), "artist/zeunig");
    assert_eq!(liked_folder("zeunig"), "liked/zeunig");
    assert_eq!(
        liked_tracks_url("123"),
        "https://api-v2.soundcloud.com/users/123/track_likes?offset=0&limit=79999&representation=&client_id=TtbhBUaHqao06g1mUwVTxbjj8TSUkiCl&app_version=1694761046&app_locale=en"
    );
    assert_eq!(
        artist_tracks_url("123"),
        "https://api-v2.soundcloud.com/users/123/tracks?offset=0&limit=79999&representation=&client_id=TtbhBUaHqao06g1mUwVTxbjj8TSUkiCl&app_version=1694761046&app_locale=en"
    );
}
