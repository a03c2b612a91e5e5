use vstd::prelude::*;
use crate::text::{
    chars_of, string_of, cat, cat_str, append_chars, slice_chars, decimal, decimal_exec, join,
    strings, str_contains, str_replace, first_two_pieces, split, replace, occurs_in, occurs_at,
    lemma_find_from_at, lemma_pieces_from_step, lemma_pieces_nonempty, lemma_occurs_single,
    lemma_split_join, lemma_split_absent,
};
use crate::pattern::{
    Pattern, Patterns, regex_captures, forbidden_char, without_forbidden, group_at, opt_text, captures, group_of,
    replace_all, USERNAME, TITLE, COVER_IMAGE,
};

verus! {

/// The cover image in a track's cache folder.
pub const COVER_FILE: &'static str = "cover.jpg";

/// The metadata line in a track's cache folder.
pub const METADATA_FILE: &'static str = "metadata.txt";

/// How the audio of a track was stored.
#[derive(PartialEq, Eq, Structural, Debug, Clone, Copy)]
pub enum FileType {
    Undefined,
    MP3,
    M4S,
}

/// What is known of a track being downloaded.
#[derive(Debug)]
pub struct Song {
    pub audio_file_count: u32,
    pub uri: String,
    pub cover_path: String,
    pub artist: String,
    pub name: String,
    pub cover: String,
}

impl Song {
    /// A track with no segment, name, artist or cover known yet.
    pub fn new(uri: String, cover_path: String) -> (s: Song)
        ensures
            s.audio_file_count == 0,
            s.uri@ == uri@,
            s.cover_path@ == cover_path@,
            s.artist@ == Seq::<char>::empty(),
            s.name@ == Seq::<char>::empty(),
            s.cover@ == Seq::<char>::empty(),
    {
        Song {
            audio_file_count: 0,
            uri,
            cover_path,
            artist: String::new(),
            name: String::new(),
            cover: String::new(),
        }
    }
}

/// A song name made fit for a file name: `\u0026` spelled `and`, `\u003c3` spelled
/// `ily`, and then every character that the forbidden-characters pattern matches
/// (`<`, `>`, `:`, `"`, `/`, `\`, `|`, `?`, `*`) removed.
pub open spec fn sanitized(input: Seq<char>) -> Seq<char> {
    without_forbidden(replace(replace(input, "\\u0026"@, "and"@), "\\u003c3"@, "ily"@))
}

proof fn lemma_without_forbidden_clean(s: Seq<char>)
    ensures
        forall|i: int| 0 <= i < without_forbidden(s).len() ==> !forbidden_char(#[trigger] without_forbidden(s)[i]),
    decreases s.len(),
{
    if s.len() > 0 {
        lemma_without_forbidden_clean(s.drop_last());
        let w = without_forbidden(s.drop_last());
        let tail = if forbidden_char(s.last()) {
            Seq::<char>::empty()
        } else {
            seq![s.last()]
        };
        assert(without_forbidden(s) == w + tail);
        assert forall|i: int| 0 <= i < (w + tail).len() implies !forbidden_char(#[trigger] (w + tail)[i]) by {
            if i < w.len() {
                assert((w + tail)[i] == w[i]);
            } else {
                assert((w + tail)[i] == tail[i - w.len()]);
            }
        }
    }
}

proof fn lemma_without_forbidden_fixed(s: Seq<char>)
    requires
        forall|i: int| 0 <= i < s.len() ==> !forbidden_char(#[trigger] s[i]),
    ensures
        without_forbidden(s) == s,
    decreases s.len(),
{
    if s.len() > 0 {
        lemma_without_forbidden_fixed(s.drop_last());
        assert(!forbidden_char(s[s.len() - 1]));
        assert(s.drop_last() + seq![s.last()] =~= s);
    }
}

/// A sanitized name holds none of the characters `<`, `>`, `:`, `"`, `/`, `\`, `|`, `?`, `*`.
pub proof fn lemma_sanitized_clean(input: Seq<char>)
    ensures
        forall|i: int| 0 <= i < sanitized(input).len() ==> !forbidden_char(#[trigger] sanitized(input)[i]),
{
    lemma_without_forbidden_clean(replace(replace(input, "\\u0026"@, "and"@), "\\u003c3"@, "ily"@));
}

/// A text with no backslash holds no escape `from` that starts with one, so replacing
/// it changes nothing.
proof fn lemma_replace_escape_absent(t: Seq<char>, from: Seq<char>, to: Seq<char>)
    requires
        from.len() > 0,
        from[0] == '\\',
        forall|i: int| 0 <= i < t.len() ==> !forbidden_char(#[trigger] t[i]),
    ensures
        replace(t, from, to) == t,
{
    if occurs_in(t, from) {
        let p = choose|p: int| #[trigger] occurs_at(t, from, p);
        assert(t.subrange(p, p + from.len())[0] == t[p]);
        assert(!forbidden_char(t[p]));
    }
    lemma_split_absent(t, from);
}

/// Sanitizing a sanitized name changes nothing.
pub proof fn lemma_sanitize_idempotent(input: Seq<char>)
    ensures
        sanitized(sanitized(input)) == sanitized(input),
{
    reveal_strlit("\\u0026");
    reveal_strlit("\\u003c3");
    let t = sanitized(input);
    lemma_sanitized_clean(input);
    lemma_replace_escape_absent(t, "\\u0026"@, "and"@);
    lemma_replace_escape_absent(t, "\\u003c3"@, "ily"@);
    lemma_without_forbidden_fixed(t);
}

/// Makes a song name fit for a file name.
pub fn sanitize_song_name(pats: &Patterns, input: &str) -> (r: String)
    requires
        pats.wf(),
    ensures
        r@ == sanitized(input@),
{
    proof {
        reveal_strlit("\\u0026");
        reveal_strlit("\\u003c3");
        reveal_strlit("");
        assert(""@ =~= Seq::<char>::empty());
    }
    let result = str_replace(input, "\\u0026", "and");
    let result = str_replace(result.as_str(), "\\u003c3", "ily");
    replace_all(&pats.forbidden_chars, result.as_str(), "")
}

/// Group 1 of the first match of `re` in `text`.
pub open spec fn first_group(re: Seq<char>, text: Seq<char>) -> Option<Seq<char>> {
    match regex_captures(re, text) {
        Some(g) => group_at(g, 1),
        None => None,
    }
}

/// The text of group 1 of the first match of `regex` in `text`, `None` when that group
/// took no part in the match; `text` must hold a match.
pub fn regex_get_first(regex: &Pattern, text: &str) -> (r: Option<String>)
    requires
        regex_captures(regex@, text@) is Some,
    ensures
        opt_text(r) == first_group(regex@, text@),
{
    match captures(regex, text) {
        Some(g) => group_of(&g, 1),
        None => None,
    }
}

/// Group 1 of the first match of `regex` in `text`: `None` when there is no match,
/// `Some(None)` when that group took no part in it.
pub fn find_first_group(regex: &Pattern, text: &str) -> (r: Option<Option<String>>)
    ensures
        r is Some <==> regex_captures(regex@, text@) is Some,
        r matches Some(g) ==> opt_text(g) == first_group(regex@, text@),
{
    match captures(regex, text) {
        Some(_) => Some(regex_get_first(regex, text)),
        None => None,
    }
}

/// The name, title and cover of a track as its page gives them.
#[derive(Debug)]
pub struct TrackInfo {
    pub artist: String,
    pub name: String,
    pub cover: String,
}

/// The cover link kept for a track: `None` where the page names neither a cover nor an
/// artist picture (it has no cover tag, or the tag's link is missing), else that link,
/// at full size where asked for.
pub open spec fn cover_link(found: Option<Seq<char>>, original_cover_image: bool) -> Seq<char> {
    match found {
        Some(e) => if original_cover_image {
            replace(e, "t500x500"@, "original"@)
        } else {
            e
        },
        None => "None"@,
    }
}

/// Whatever link the page's cover tag gives (a cover, or the artist's picture where the
/// track has none) is kept as the cover, at full size where asked for; `None` is kept
/// only where the page gives no link.
pub proof fn lemma_cover_link_keeps_page_link(found: Option<Seq<char>>, original_cover_image: bool)
    ensures
        found matches Some(e) ==> cover_link(found, original_cover_image) == if original_cover_image {
            replace(e, "t500x500"@, "original"@)
        } else {
            e
        },
        found is None ==> cover_link(found, original_cover_image) == "None"@,
{
}

/// Reads the artist, title and cover of a track off its page. `None` where the page
/// lacks the artist or the title; a page with no cover tag gets the cover `None`.
pub fn parse_track_page(pats: &Patterns, page: &str, original_cover_image: bool) -> (r: Option<
    TrackInfo,
>)
    requires
        pats.wf(),
    ensures
        r is Some <==> (first_group(USERNAME@, page@) is Some && first_group(TITLE@, page@) is Some),
        r matches Some(info) ==> {
            &&& Some(info.artist@) == first_group(USERNAME@, page@)
            &&& Some(info.name@) == first_group(TITLE@, page@)
            &&& info.cover@ == cover_link(first_group(COVER_IMAGE@, page@), original_cover_image)
        },
        r matches Some(info) ==> match first_group(COVER_IMAGE@, page@) {
            Some(e) => info.cover@ == if original_cover_image {
                replace(e, "t500x500"@, "original"@)
            } else {
                e
            },
            None => info.cover@ == "None"@,
        },
{
    proof {
        reveal_strlit("t500x500");
        reveal_strlit("None");
        lemma_cover_link_keeps_page_link(first_group(COVER_IMAGE@, page@), original_cover_image);
    }
    let artist = match find_first_group(&pats.username, page) {
        Some(Some(a)) => a,
        _ => return None,
    };
    let name = match find_first_group(&pats.title, page) {
        Some(Some(n)) => n,
        _ => return None,
    };
    let cover = match find_first_group(&pats.cover_image, page) {
        Some(Some(e)) => if original_cover_image {
            str_replace(e.as_str(), "t500x500", "original")
        } else {
            e
        },
        _ => "None".to_owned(),
    };
    Some(TrackInfo { artist, name, cover })
}

/// The line kept in the cache: artist, title and cover link, each two apart by `|`.
pub open spec fn metadata_line(artist: Seq<char>, name: Seq<char>, cover: Seq<char>) -> Seq<char> {
    artist + "|"@ + name + "|"@ + cover
}

/// The line that records a track's artist, title and cover in the cache.
pub fn metadata_record(info: &TrackInfo) -> (r: String)
    ensures
        r@ == metadata_line(info.artist@, info.name@, info.cover@),
{
    let mut v = chars_of(info.artist.as_str());
    append_chars(&mut v, &chars_of("|"));
    append_chars(&mut v, &chars_of(info.name.as_str()));
    append_chars(&mut v, &chars_of("|"));
    append_chars(&mut v, &chars_of(info.cover.as_str()));
    string_of(&v)
}

/// The artist and title read back from a cache line: its first two `|`-separated
/// fields, `None` where it has no `|`.
pub fn parse_cached_metadata(line: &str) -> (r: Option<(String, String)>)
    ensures
        r is Some <==> split(line@, "|"@).len() >= 2,
        r matches Some((artist, name)) ==> artist@ == split(line@, "|"@)[0] && name@ == split(
            line@,
            "|"@,
        )[1],
{
    proof {
        reveal_strlit("|");
    }
    first_two_pieces(line, "|")
}

/// What the cache gives back of what was written to it: the artist and the title,
/// when neither holds a `|`.
pub proof fn lemma_metadata_round_trip(artist: Seq<char>, name: Seq<char>, cover: Seq<char>)
    requires
        !occurs_in(artist, "|"@),
        !occurs_in(name, "|"@),
    ensures
        split(metadata_line(artist, name, cover), "|"@).len() >= 2,
        split(metadata_line(artist, name, cover), "|"@)[0] == artist,
        split(metadata_line(artist, name, cover), "|"@)[1] == name,
{
    reveal_strlit("|");
    let bar = "|"@;
    assert(bar =~= seq!['|']);
    let s = metadata_line(artist, name, cover);
    let a = artist.len() as int;
    let n = name.len() as int;
    assert(s[a] == '|');
    assert(s[a + 1 + n] == '|');
    lemma_occurs_single(s, '|', a);
    assert forall|m: int| 0 <= m < a implies !#[trigger] occurs_at(s, bar, m) by {
        lemma_occurs_single(s, '|', m);
        lemma_occurs_single(artist, '|', m);
        assert(s[m] == artist[m]);
    }
    lemma_find_from_at(s, bar, 0, a);
    lemma_pieces_from_step(s, bar, 0, a);
    assert(s.subrange(0, a) =~= artist);
    lemma_occurs_single(s, '|', a + 1 + n);
    assert forall|m: int| a + 1 <= m < a + 1 + n implies !#[trigger] occurs_at(s, bar, m) by {
        lemma_occurs_single(s, '|', m);
        lemma_occurs_single(name, '|', m - a - 1);
        assert(s[m] == name[m - a - 1]);
    }
    lemma_find_from_at(s, bar, a + 1, a + 1 + n);
    lemma_pieces_from_step(s, bar, a + 1, a + 1 + n);
    assert(s.subrange(a + 1, a + 1 + n) =~= name);
    lemma_pieces_nonempty(s, bar, a + 1 + n + 1);
}

/// Whether the cover image must still be fetched: it is not on disk and the page named one.
pub fn needs_cover_download(cover_exists: bool, cover: &str) -> (r: bool)
    ensures
        r == (!cover_exists && !occurs_in(cover@, "None"@)),
{
    proof {
        reveal_strlit("None");
    }
    !cover_exists && !str_contains(cover, "None")
}

/// The artist's and the track's folder names taken from a track path `artist/track`:
/// the first two `/`-separated pieces, `None` where it has no `/`.
pub fn cache_folders(uri: &str) -> (r: Option<(String, String)>)
    ensures
        r is Some <==> split(uri@, "/"@).len() >= 2,
        r matches Some((artist, track)) ==> artist@ == split(uri@, "/"@)[0] && track@ == split(
            uri@,
            "/"@,
        )[1],
{
    proof {
        reveal_strlit("/");
    }
    first_two_pieces(uri, "/")
}


/// The file that holds segment `i` of a track's audio.
pub open spec fn segment_name(i: nat, m4s: bool) -> Seq<char> {
    decimal(i) + if m4s {
        ".m4s"@
    } else {
        ".mp3"@
    }
}

/// The file name of segment `index`: `{index}.m4s` for a segment of a fragmented
/// stream, else `{index}.mp3`.
pub fn segment_file_name(index: u32, m4s: bool) -> (r: String)
    ensures
        r@ == segment_name(index as nat, m4s),
{
    let digits = decimal_exec(index);
    let ext = if m4s {
        chars_of(".m4s")
    } else {
        chars_of(".mp3")
    };
    string_of(&cat(&digits, &ext))
}

/// The segment files to put together, in order: `0.mp3` up to the last `.mp3` for
/// a plain stream; `0.mp3` then `1.m4s` up to the last `.m4s` for a fragmented one.
pub open spec fn stored_segments_spec(count: nat, file_type: FileType) -> Seq<Seq<char>> {
    match file_type {
        FileType::MP3 => Seq::new(count, |i: int| segment_name(i as nat, false)),
        FileType::M4S => seq![segment_name(0, false)] + Seq::new(
            if count > 0 {
                (count - 1) as nat
            } else {
                0
            },
            |i: int| segment_name((i + 1) as nat, true),
        ),
        FileType::Undefined => Seq::empty(),
    }
}

/// A plain stream of `count` segments is put together from exactly `count` files,
/// `0.mp3` up to `{count - 1}.mp3` in order; a fragmented one from `0.mp3` then one
/// `.m4s` file for each further segment, in order.
pub proof fn lemma_stored_segments_one_per_segment(count: nat)
    ensures
        stored_segments_spec(count, FileType::MP3).len() == count,
        forall|i: int|
            0 <= i < count ==> #[trigger] stored_segments_spec(count, FileType::MP3)[i] == decimal(
                i as nat,
            ) + ".mp3"@,
        stored_segments_spec(count, FileType::M4S).len() == if count == 0 {
            1
        } else {
            count
        },
        stored_segments_spec(count, FileType::M4S)[0] == decimal(0) + ".mp3"@,
        forall|i: int|
            1 <= i < count ==> #[trigger] stored_segments_spec(count, FileType::M4S)[i] == decimal(
                i as nat,
            ) + ".m4s"@,
{
    let m = stored_segments_spec(count, FileType::M4S);
    assert forall|i: int| 1 <= i < count implies #[trigger] m[i] == decimal(i as nat) + ".m4s"@ by {
        assert(m[i] == segment_name(((i - 1) + 1) as nat, true));
    }
}

/// The names of the segment files of a track, in the order they are put together.
pub fn stored_segments(count: u32, file_type: FileType) -> (r: Vec<String>)
    ensures
        strings(r@) == stored_segments_spec(count as nat, file_type),
        file_type == FileType::MP3 ==> r@.len() == count,
        file_type == FileType::MP3 ==> forall|i: int|
            0 <= i < count ==> #[trigger] r@[i]@ == decimal(i as nat) + ".mp3"@,
{
    proof {
        lemma_stored_segments_one_per_segment(count as nat);
    }
    let mut r: Vec<String> = Vec::new();
    match file_type {
        FileType::MP3 => {
            let mut i: u32 = 0;
            while i < count
                invariant
                    i <= count,
                    strings(r@) =~= Seq::new(i as nat, |k: int| segment_name(k as nat, false)),
                decreases count - i,
            {
                let ghost prev = r@;
                r.push(segment_file_name(i, false));
                assert(strings(r@) =~= strings(prev).push(segment_name(i as nat, false)));
                i = i + 1;
            }
            assert(strings(r@) == stored_segments_spec(count as nat, file_type));
        },
        FileType::M4S => {
            r.push(segment_file_name(0, false));
            assert(strings(r@) =~= seq![segment_name(0, false)] + Seq::new(
                0,
                |k: int| segment_name((k + 1) as nat, true),
            ));
            let mut i: u32 = 1;
            while i < count
                invariant
                    1 <= i,
                    i <= count || count == 0,
                    count == 0 ==> i == 1,
                    strings(r@) =~= seq![segment_name(0, false)] + Seq::new(
                        (i - 1) as nat,
                        |k: int| segment_name((k + 1) as nat, true),
                    ),
                decreases count - i,
            {
                let ghost prev = r@;
                r.push(segment_file_name(i, true));
                assert(strings(r@) =~= strings(prev).push(segment_name(i as nat, true)));
                i = i + 1;
            }
            let ghost n: nat = if count > 0 {
                (count - 1) as nat
            } else {
                0
            };
            assert((i - 1) as nat == n);
            let ghost tail = Seq::new(n, |k: int| segment_name((k + 1) as nat, true));
            assert(strings(r@) =~= seq![segment_name(0, false)] + tail);
            assert(stored_segments_spec(count as nat, file_type) == seq![segment_name(0, false)] + tail);
        },
        FileType::Undefined => {},
    }
    assert forall|i: int| 0 <= i < r@.len() implies #[trigger] r@[i]@ == strings(r@)[i] by {}

    r
}

/// The input that makes the audio tool read the given files one after another:
/// `concat:` then the files, two apart by `|`.
pub fn concat_input(paths: &Vec<String>) -> (r: String)
    ensures
        r@ == "concat:"@ + join(strings(paths@), "|"@),
{
    let mut v = chars_of("concat:");
    let bar = chars_of("|");
    let mut i: usize = 0;
    while i < paths.len()
        invariant
            i <= paths.len(),
            bar@ == "|"@,
            v@ == "concat:"@ + join(strings(paths@).take(i as int), "|"@),
        decreases paths.len() - i,
    {
        let ghost prev = v@;
        if i > 0 {
            append_chars(&mut v, &bar);
        }
        append_chars(&mut v, &chars_of(paths[i].as_str()));
        proof {
            let t = strings(paths@).take(i + 1);
            assert(t.drop_last() =~= strings(paths@).take(i as int));
            if i == 0 {
                assert(v@ =~= "concat:"@ + paths@[0]@);
            } else {
                assert(v@ =~= prev + "|"@ + paths@[i as int]@);
            }
        }
        i = i + 1;
    }
    assert(strings(paths@).take(paths.len() as int) =~= strings(paths@));
    string_of(&v)
}

/// The audio tool, reading the input after its `concat:` and splitting it at each `|`,
/// gets back the segment paths in order, when none of them holds a `|`.
pub proof fn lemma_concat_input_paths(paths: Seq<Seq<char>>)
    requires
        paths.len() >= 1,
        forall|i: int| 0 <= i < paths.len() ==> !occurs_in(#[trigger] paths[i], "|"@),
    ensures
        ("concat:"@ + join(paths, "|"@)).subrange(0, 7) == "concat:"@,
        split(("concat:"@ + join(paths, "|"@)).skip(7), "|"@) == paths,
{
    reveal_strlit("concat:");
    reveal_strlit("|");
    assert("|"@ =~= seq!['|']);
    let r = "concat:"@ + join(paths, "|"@);
    assert(r.subrange(0, 7) =~= "concat:"@);
    assert(r.skip(7) =~= join(paths, "|"@));
    lemma_split_join(paths, '|');
}

/// The file the finished track is written to: the sanitized name with `.mp3`.
pub fn output_file_name(pats: &Patterns, name: &str) -> (r: String)
    requires
        pats.wf(),
    ensures
        r@ == sanitized(name@) + ".mp3"@,
{
    let clean = sanitize_song_name(pats, name);
    cat_str(clean.as_str(), ".mp3")
}

/// The file the joined fragments of a fragmented stream are kept in before conversion:
/// `temp_`, the sanitized name, `.mp4`.
pub fn temp_video_file_name(pats: &Patterns, name: &str) -> (r: String)
    requires
        pats.wf(),
    ensures
        r@ == "temp_"@ + sanitized(name@) + ".mp4"@,
{
    let clean = sanitize_song_name(pats, name);
    let front = cat_str("temp_", clean.as_str());
    cat_str(front.as_str(), ".mp4")
}

/// Whether a track is taken from the cache: the cache is not disabled and its first
/// segment is there.
pub fn use_cache(disable_cache: bool, first_segment_cached: bool) -> (r: bool)
    ensures
        r == (!disable_cache && first_segment_cached),
{
    !disable_cache && first_segment_cached
}

/// How a track's segments were stored, told by whether its second segment is a fragment.
pub fn stored_file_type(second_segment_is_fragment: bool) -> (r: FileType)
    ensures
        r == (if second_segment_is_fragment {
            FileType::M4S
        } else {
            FileType::MP3
        }),
{
    if second_segment_is_fragment {
        FileType::M4S
    } else {
        FileType::MP3
    }
}

/// The text frames written into a finished track's tag.
#[derive(Debug)]
pub struct TagText {
    pub title: String,
    pub album_artist: String,
    pub artist: String,
    pub album: String,
}

/// The tag text of a track: its name as title, its artist as artist and album artist,
/// and its path as album, so that every track has an album of its own.
pub fn tag_text(song: &Song) -> (r: TagText)
    ensures
        r.title@ == song.name@,
        r.album_artist@ == song.artist@,
        r.artist@ == song.artist@,
        r.album@ == song.uri@,
{
    TagText {
        title: song.name.clone(),
        album_artist: song.artist.clone(),
        artist: song.artist.clone(),
        album: song.uri.clone(),
    }
}


/// The position of the last `.` in a name, if any.
pub open spec fn last_dot(name: Seq<char>) -> Option<int>
    decreases name.len(),
{
    if name.len() == 0 {
        None
    } else if name.last() == '.' {
        Some(name.len() - 1)
    } else {
        last_dot(name.drop_last())
    }
}

/// The extension of a file name as `Path::extension` gives it: what follows its last
/// `.`, where that `.` is not the name's first character and the name is not `..`.
pub open spec fn file_extension(name: Seq<char>) -> Option<Seq<char>> {
    if name == ".."@ {
        None
    } else {
        match last_dot(name) {
            Some(k) => if k == 0 {
                None
            } else {
                Some(name.subrange(k + 1, name.len() as int))
            },
            None => None,
        }
    }
}

/// A file of a track's audio in the cache: its extension is `mp3` or `m4s`.
pub open spec fn is_audio_file(name: Seq<char>) -> bool {
    file_extension(name) == Some("mp3"@) || file_extension(name) == Some("m4s"@)
}

/// How many of the names are audio files.
pub open spec fn audio_file_count(names: Seq<Seq<char>>) -> nat
    decreases names.len(),
{
    if names.len() == 0 {
        0
    } else {
        audio_file_count(names.drop_last()) + if is_audio_file(names.last()) {
            1nat
        } else {
            0nat
        }
    }
}

proof fn lemma_last_dot_bounds(name: Seq<char>)
    ensures
        last_dot(name) matches Some(k) ==> 0 <= k < name.len() && name[k] == '.',
        last_dot(name) is None ==> forall|i: int| 0 <= i < name.len() ==> name[i] != '.',
    decreases name.len(),
{
    if name.len() > 0 && name.last() != '.' {
        lemma_last_dot_bounds(name.drop_last());
        assert forall|i: int| 0 <= i < name.len() - 1 implies name[i] == name.drop_last()[i] by {}
    }
}

/// Each name counts once at most: the count is never more than the names, and is all
/// of them when every name is an audio file.
pub proof fn lemma_audio_file_count_bounds(names: Seq<Seq<char>>)
    ensures
        audio_file_count(names) <= names.len(),
        (forall|i: int| 0 <= i < names.len() ==> is_audio_file(#[trigger] names[i]))
            ==> audio_file_count(names) == names.len(),
    decreases names.len(),
{
    if names.len() > 0 {
        lemma_audio_file_count_bounds(names.drop_last());
        if forall|i: int| 0 <= i < names.len() ==> is_audio_file(#[trigger] names[i]) {
            assert forall|i: int| 0 <= i < names.drop_last().len() implies is_audio_file(
                #[trigger] names.drop_last()[i],
            ) by {
                assert(names.drop_last()[i] == names[i]);
            }
            assert(is_audio_file(names[names.len() - 1]));
        }
    }
}

/// The position of the last `.` in a name.
fn last_dot_exec(name: &Vec<char>) -> (r: Option<usize>)
    ensures
        match r {
            Some(k) => last_dot(name@) == Some(k as int),
            None => last_dot(name@) is None,
        },
{
    let mut i: usize = name.len();
    assert(name@.take(i as int) =~= name@);
    while i > 0
        invariant
            i <= name.len(),
            last_dot(name@) == last_dot(name@.take(i as int)),
        decreases i,
    {
        let ghost t = name@.take(i as int);
        assert(t.drop_last() =~= name@.take(i - 1));
        if name[i - 1] == '.' {
            return Some(i - 1);
        }
        i = i - 1;
    }
    None
}

/// Whether the file name is one of a track's audio files in the cache.
pub fn is_audio_file_name(name: &str) -> (r: bool)
    ensures
        r == is_audio_file(name@),
{
    proof {
        reveal_strlit("..");
        reveal_strlit("mp3");
        reveal_strlit("m4s");
    }
    let n = chars_of(name);
    if name.to_owned() == "..".to_owned() {
        return false;
    }
    match last_dot_exec(&n) {
        Some(k) => {
            proof {
                lemma_last_dot_bounds(n@);
            }
            if k == 0 {
                false
            } else {
                let len = n.len();
                let ext = string_of(&slice_chars(&n, k + 1, len));
                ext == "mp3".to_owned() || ext == "m4s".to_owned()
            }
        },
        None => false,
    }
}

/// How many of a cache folder's file names are audio files (`mp3` or `m4s`), as a
/// 32-bit count.
pub fn count_audio_files(names: &Vec<String>) -> (r: u32)
    ensures
        r == audio_file_count(strings(names@)) as u32,
{
    let ghost a = strings(names@);
    let mut count: usize = 0;
    let mut i: usize = 0;
    while i < names.len()
        invariant
            i <= names.len(),
            a == strings(names@),
            count <= i,
            count == audio_file_count(a.take(i as int)),
        decreases names.len() - i,
    {
        assert(a.take(i + 1).drop_last() =~= a.take(i as int));
        assert(a.take(i + 1).last() == names@[i as int]@);
        if is_audio_file_name(names[i].as_str()) {
            count = count + 1;
        }
        i = i + 1;
    }
    assert(a.take(names.len() as int) =~= a);
    #[verifier::truncate]
    (count as u32)
}

} // verus!
