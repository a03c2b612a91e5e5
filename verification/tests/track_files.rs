use scdownload::pattern::Patterns;
use scdownload::track::{
    cache_folders, concat_input, count_audio_files, find_first_group, is_audio_file_name,
    metadata_record, needs_cover_download, output_file_name, parse_cached_metadata,
    parse_track_page, regex_get_first, sanitize_song_name, segment_file_name, stored_file_type,
    stored_segments, tag_text, temp_video_file_name, use_cache, FileType, Song, TrackInfo,
};

fn pats() -> Patterns {
    Patterns::new().expect("the patterns compile")
}

const PAGE: &str = r#"<html><meta property="og:image" content="https://i1.sndcdn.com/artworks-abc-t500x500.jpg"><script>{"title":"Garou Hardstyle","username":"zeunig","track_authorization":"tok"}</script>"#;

#[test]
fn every_pattern_compiles() {
    assert!(Patterns::new().is_some());
}

#[test]
fn sanitize_names() {
    let p = pats();
    assert_eq!(sanitize_song_name(&p, "Tom \\u0026 Jerry"), "Tom and Jerry");
    assert_eq!(sanitize_song_name(&p, "I \\u003c3 U"), "I ily U");
    assert_eq!(sanitize_song_name(&p, "a<b>c:d\"e/f\\g|h?i*j"), "abcdefghij");
    assert_eq!(sanitize_song_name(&p, ""), "");
}

#[test]
fn sanitized_names_are_clean_and_stable() {
    let p = pats();
    for name in ["a<b>c", "\\u0026\\u003c3", "x\\\\u0026y", "plain", "?*|/\\:\"<>", ""] {
        let once = sanitize_song_name(&p, name);
        assert!(!once.chars().any(|c| "<>:\"/\\|?*".contains(c)), "{}", once);
        assert_eq!(sanitize_song_name(&p, &once), once);
    }
}

#[test]
fn first_group_of_match() {
    let p = pats();
    assert_eq!(regex_get_first(&p.username, r#"x "username":"zeunig" y"#).as_deref(), Some("zeunig"));
    assert_eq!(regex_get_first(&p.title, r#"{"title":""}"#).as_deref(), Some(""));
    assert!(find_first_group(&p.username, "no user here").is_none());
    assert_eq!(
        find_first_group(&p.artist_user_id, r#"content="soundcloud://users:77""#),
        Some(Some("77".to_string()))
    );
}

#[test]
fn track_page_fields() {
    let p = pats();
    let info = parse_track_page(&p, PAGE, false).unwrap();
    assert_eq!(info.artist, "zeunig");
    assert_eq!(info.name, "Garou Hardstyle");
    assert_eq!(info.cover, "https://i1.sndcdn.com/artworks-abc-t500x500.jpg");
    let big = parse_track_page(&p, PAGE, true).unwrap();
    assert_eq!(big.cover, "https://i1.sndcdn.com/artworks-abc-original.jpg");
}

#[test]
fn track_page_missing_fields() {
    let p = pats();
    assert!(parse_track_page(&p, r#"{"title":"x"}<meta property="og:image" content="c""#, false).is_none());
    assert!(parse_track_page(&p, r#"{"username":"u"}<meta property="og:image" content="c""#, false).is_none());
}

#[test]
fn track_page_without_cover() {
    let p = pats();
    let info = parse_track_page(&p, r#"{"title":"x","username":"u"}"#, true).unwrap();
    assert_eq!(info.artist, "u");
    assert_eq!(info.name, "x");
    assert_eq!(info.cover, "None");
    assert_eq!(metadata_record(&info), "u|x|None");
    assert!(!needs_cover_download(false, &info.cover));
}

#[test]
fn metadata_line_and_back() {
    let info = TrackInfo {
        artist: "zeunig".to_string(),
        name: "Garou Hardstyle".to_string(),
        cover: "None".to_string(),
    };
    let line = metadata_record(&info);
    assert_eq!(line, "zeunig|Garou Hardstyle|None");
    assert_eq!(
        parse_cached_metadata(&line),
        Some(("zeunig".to_string(), "Garou Hardstyle".to_string()))
    );
    assert_eq!(parse_cached_metadata("no separator"), None);
    assert_eq!(parse_cached_metadata("a|"), Some(("a".to_string(), String::new())));
}

#[test]
fn cover_download_needed() {
    assert!(needs_cover_download(false, "https://i1.sndcdn.com/a.jpg"));
    assert!(!needs_cover_download(true, "https://i1.sndcdn.com/a.jpg"));
    assert!(!needs_cover_download(false, "None"));
}

#[test]
fn folders_of_track_path() {
    assert_eq!(
        cache_folders("zeunig/garou-hardstyle"),
        Some(("zeunig".to_string(), "garou-hardstyle".to_string()))
    );
    assert_eq!(cache_folders("zeunig"), None);
    assert_eq!(cache_folders("a/b/c"), Some(("a".to_string(), "b".to_string())));
}

#[test]
fn segment_names() {
    assert_eq!(segment_file_name(0, false), "0.mp3");
    assert_eq!(segment_file_name(12, true), "12.m4s");
    assert_eq!(stored_segments(3, FileType::MP3), vec!["0.mp3", "1.mp3", "2.mp3"]);
    assert_eq!(stored_segments(3, FileType::M4S), vec!["0.mp3", "1.m4s", "2.m4s"]);
    assert_eq!(stored_segments(0, FileType::M4S), vec!["0.mp3"]);
    assert_eq!(stored_segments(0, FileType::MP3), Vec::<String>::new());
    assert_eq!(stored_segments(4, FileType::Undefined), Vec::<String>::new());
}

#[test]
fn concat_of_paths() {
    let paths = vec!["/t/0.mp3".to_string(), "/t/1.mp3".to_string()];
    assert_eq!(concat_input(&paths), "concat:/t/0.mp3|/t/1.mp3");
    assert_eq!(concat_input(&Vec::new()), "concat:");
}

#[test]
fn output_names() {
    let p = pats();
    assert_eq!(output_file_name(&p, "a/b"), "ab.mp3");
    assert_eq!(temp_video_file_name(&p, "x?y"), "temp_xy.mp4");
}

#[test]
fn cache_and_type_decisions() {
    assert!(use_cache(false, true));
    assert!(!use_cache(true, true));
    assert!(!use_cache(false, false));
    assert_eq!(stored_file_type(true), FileType::M4S);
    assert_eq!(stored_file_type(false), FileType::MP3);
}

#[test]
fn tag_of_song() {
    let mut song = Song::new("zeunig/garou".to_string(), "/t/cover.jpg".to_string());
    song.artist = "zeunig".to_string();
    song.name = "Garou".to_string();
    let t = tag_text(&song);
    assert_eq!(t.title, "Garou");
    assert_eq!(t.artist, "zeunig");
    assert_eq!(t.album_artist, "zeunig");
    assert_eq!(t.album, "zeunig/garou");
}

#[test]
fn audio_files_counted() {
    let names: Vec<String> = ["0.mp3", "1.m4s", "cover.jpg", ".mp3", "..", "metadata.txt", "a.b.mp3", "mp3"]
        .iter()
        .map(|s| s.to_string())
        .collect();
    assert_eq!(count_audio_files(&names), 3);
    assert!(is_audio_file_name("0.mp3"));
    assert!(!is_audio_file_name(".m4s"));
    assert!(!is_audio_file_name("x.MP3"));
}

#[test]
fn audio_files_match_path_extension() {
    for name in ["0.mp3", "1.m4s", ".mp3", "..", "a.b.mp3", "x.", "mp3", "a..m4s"] {
        let by_path = std::path::Path::new(name)
            .extension()
            .and_then(|e| e.to_str())
            .map(|e| e == "mp3" || e == "m4s")
            .unwrap_or(false);
        assert_eq!(is_audio_file_name(name), by_path, "{}", name);
    }
}

#[test]
fn concat_input_reads_back_paths() {
    let paths = vec!["/t/a b/0.mp3".to_string(), "/t/1.mp3".to_string(), "rel/2.mp3".to_string()];
    let input = concat_input(&paths);
    let rest = input.strip_prefix("concat:").unwrap();
    let back: Vec<String> = rest.split('|').map(|s| s.to_string()).collect();
    assert_eq!(back, paths);
}
