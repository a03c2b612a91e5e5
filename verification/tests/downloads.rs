use scdownload::cli::{artist_track_paths, artist_user_id, playlist_track_ids};
use scdownload::logging::{should_log, Severities};
use scdownload::pattern::{groups_at, Patterns};
use scdownload::playlist::{playlist_request_urls, track_paths, TRACKS_ADDRESS, TRACKS_QUERY};
use scdownload::schedule::{may_start, thread_limit};

fn pats() -> Patterns {
    Patterns::new().expect("the patterns compile")
}

fn ids(n: usize) -> Vec<String> {
    (0..n).map(|i| format!("{}", 100 + i)).collect()
}

#[test]
fn no_ids_one_request() {
    let urls = playlist_request_urls(&Vec::new());
    assert_eq!(urls, vec![format!("{}{}", TRACKS_ADDRESS, TRACKS_QUERY)]);
}

#[test]
fn three_ids_one_request() {
    let urls = playlist_request_urls(&ids(3));
    assert_eq!(urls, vec![format!("{}100%2C101%2C102%2C{}", TRACKS_ADDRESS, TRACKS_QUERY)]);
}

#[test]
fn batches_of_ten() {
    assert_eq!(playlist_request_urls(&ids(10)).len(), 2);
    assert_eq!(playlist_request_urls(&ids(10))[1], format!("{}{}", TRACKS_ADDRESS, TRACKS_QUERY));
    let urls = playlist_request_urls(&ids(23));
    assert_eq!(urls.len(), 3);
    let mut seen: Vec<String> = Vec::new();
    for u in &urls {
        let body = &u[TRACKS_ADDRESS.len()..u.len() - TRACKS_QUERY.len()];
        let part: Vec<String> = body.split("%2C").filter(|s| !s.is_empty()).map(|s| s.to_string()).collect();
        assert!(part.len() <= 10);
        seen.extend(part);
    }
    assert_eq!(seen, ids(23));
}

#[test]
fn ids_and_paths_from_pages() {
    let p = pats();
    let page = r#"[{"id":11,"kind":"track",},{"id":22,"kind":"user",},{"id":33,"kind":"track",}]"#;
    assert_eq!(playlist_track_ids(&p, page), vec!["11", "33"]);
    let answer = r#"{"permalink_url":"https://soundcloud.com/zeunig/garou","x":1},{"permalink_url":"https://soundcloud.com/zeunig","y":2},{"permalink_url":"https://soundcloud.com/a/b","z":3}"#;
    assert_eq!(track_paths(&p, answer), vec!["zeunig/garou", "a/b"]);
    let artist = r#"<meta content="soundcloud://users:4242">"#;
    assert_eq!(artist_user_id(&p, artist).as_deref(), Some("4242"));
    assert_eq!(artist_user_id(&p, "nothing"), None);
    let listing = r#""permalink_url":"https://soundcloud.com/zeunig/garou-hard","permalink_url":"https://soundcloud.com/zeunig""#;
    assert_eq!(artist_track_paths(&p, listing), vec!["zeunig/garou-hard"]);
}

#[test]
fn logging_levels() {
    assert!(should_log(Severities::DEBUG, true));
    assert!(!should_log(Severities::DEBUG, false));
    assert!(should_log(Severities::ERROR, false));
    assert!(should_log(Severities::INFO, true));
}

#[test]
fn thread_limits() {
    assert_eq!(thread_limit(1, 8), 1);
    assert_eq!(thread_limit(5, 8), 8);
    assert_eq!(thread_limit(0, 3), 3);
    assert!(may_start(2, 3));
    assert!(!may_start(3, 3));
    assert!(!may_start(0, 0));
}

#[test]
fn groups_of_matches() {
    let ms = vec![
        vec![Some("ab".to_string()), Some("a".to_string())],
        vec![Some("b".to_string()), None],
        vec![Some("cd".to_string())],
        vec![Some("ef".to_string()), Some("e".to_string())],
    ];
    assert_eq!(groups_at(&ms, 1), vec!["a", "e"]);
    assert_eq!(groups_at(&ms, 0), vec!["ab", "b", "cd", "ef"]);
    assert_eq!(groups_at(&ms, 5), Vec::<String>::new());
    assert_eq!(groups_at(&Vec::new(), 0), Vec::<String>::new());
}

#[test]
fn liked_listing_paths() {
    let p = pats();
    let listing = r#"{"collection":[{"kind":"like","track":{"permalink_url":"https://soundcloud.com/zeunig/garou","user":{"permalink_url":"https://soundcloud.com/zeunig"}}}]}"#;
    assert_eq!(artist_track_paths(&p, listing), vec!["zeunig/garou"]);
}
