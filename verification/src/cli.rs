use vstd::prelude::*;
use crate::text::{
    chars_of, split_all, string_of, split, lemma_pieces_nonempty, lemma_last_piece_free,
    lemma_first_piece_free, lemma_prefix_free, lemma_split_absent, lemma_split_present, occurs_in,
    str_contains, find_from, find_from_exec, slice_chars, strings, cat_str, lemma_find_from_some,
    parse_usize, parse_usize_spec, lemma_find_from_at, lemma_pieces_from_step,
    lemma_find_from_absent, occurs_at, lemma_occurs_single,
};
use crate::pattern::{Patterns, all_groups, present_groups, regex_captures_all, PLAYLIST_TRACK_ID, ARTIST_USER_ID, ARTIST_PERMALINK};
use crate::track::{first_group, find_first_group};

verus! {

/// The address that the site's links start with.
pub open spec fn site_prefix() -> Seq<char> {
    "https://soundcloud.com/"@
}

/// What `trimming` makes of a link or id: the text after the last occurrence of the
/// site's address, cut before its first `?`.
pub open spec fn trimmed(track: Seq<char>) -> Seq<char> {
    split(split(track, site_prefix()).last(), "?"@)[0]
}

/// Reduces a track link to the track's path: drops everything up to the last
/// occurrence of the site's address and everything from the first `?` on.
pub fn trimming(track: String) -> (r: String)
    ensures
        r@ == trimmed(track@),
{
    proof {
        reveal_strlit("https://soundcloud.com/");
        reveal_strlit("?");
    }
    let s = chars_of(track.as_str());
    let prefix = chars_of("https://soundcloud.com/");
    let pieces = split_all(&s, &prefix);
    proof {
        lemma_pieces_nonempty(s@, prefix@, 0);
    }
    let last = &pieces[pieces.len() - 1];
    let question = chars_of("?");
    let parts = split_all(last, &question);
    proof {
        lemma_pieces_nonempty(last@, question@, 0);
    }
    string_of(&parts[0])
}

/// Trimming what was trimmed changes nothing.
pub proof fn lemma_trimming_idempotent(track: Seq<char>)
    ensures
        trimmed(trimmed(track)) == trimmed(track),
{
    reveal_strlit("https://soundcloud.com/");
    reveal_strlit("?");
    let q = "?"@;
    let last = split(track, site_prefix()).last();
    lemma_last_piece_free(track, site_prefix(), 0);
    lemma_first_piece_free(last, q);
    let t = trimmed(track);
    lemma_prefix_free(last, site_prefix(), t.len() as int);
    lemma_split_absent(t, site_prefix());
    assert(split(t, site_prefix()).last() == t);
    lemma_split_absent(t, q);
}


/// What the command line asks for, as far as it can be checked before any download.
#[derive(PartialEq, Eq, Structural, Debug, Clone, Copy)]
pub enum ArgumentCheck {
    /// No argument at all: show how to use the program.
    Usage,
    /// `track` with no track id.
    MissingTrackId,
    /// `album` with no album id.
    MissingAlbumId,
    /// `playlist` with no playlist id.
    MissingPlaylistId,
    /// `artist` with no artist name.
    MissingArtistName,
    /// `liked` with no user name.
    MissingLikedUser,
    /// A single argument that names no kind of download.
    UnknownKind,
    /// A first argument that mentions no kind of download.
    NoKind,
    /// The arguments can be acted on.
    Proceed,
}

/// The verdict on the arguments (the program's own name first).
pub open spec fn argument_check(args: Seq<Seq<char>>) -> ArgumentCheck {
    if args.len() == 1 {
        ArgumentCheck::Usage
    } else if args.len() == 2 {
        if args[1] == "track"@ {
            ArgumentCheck::MissingTrackId
        } else if args[1] == "album"@ {
            ArgumentCheck::MissingAlbumId
        } else if args[1] == "playlist"@ {
            ArgumentCheck::MissingPlaylistId
        } else if args[1] == "artist"@ {
            ArgumentCheck::MissingArtistName
        } else if args[1] == "liked"@ {
            ArgumentCheck::MissingLikedUser
        } else {
            ArgumentCheck::UnknownKind
        }
    } else if !(occurs_in(args[1], "track"@) || occurs_in(args[1], "album"@) || occurs_in(
        args[1],
        "playlist"@,
    ) || occurs_in(args[1], "artist"@) || occurs_in(args[1], "liked"@)) {
        ArgumentCheck::NoKind
    } else {
        ArgumentCheck::Proceed
    }
}

/// Checks the command line (the program's own name first) before anything is fetched.
pub fn check_for_invalid_arguments(args: &Vec<String>) -> (r: ArgumentCheck)
    requires
        args@.len() >= 1,
    ensures
        r == argument_check(strings(args@)),
        r == ArgumentCheck::Proceed ==> args@.len() >= 3,
{
    proof {
        reveal_strlit("track");
        reveal_strlit("album");
        reveal_strlit("playlist");
        reveal_strlit("artist");
        reveal_strlit("liked");
    }
    let ghost a = strings(args@);
    assert(a.len() == args@.len());
    if args.len() == 1 {
        return ArgumentCheck::Usage;
    }
    let first = &args[1];
    assert(a[1] == first@);
    if args.len() == 2 {
        if *first == "track".to_owned() {
            return ArgumentCheck::MissingTrackId;
        } else if *first == "album".to_owned() {
            return ArgumentCheck::MissingAlbumId;
        } else if *first == "playlist".to_owned() {
            return ArgumentCheck::MissingPlaylistId;
        } else if *first == "artist".to_owned() {
            return ArgumentCheck::MissingArtistName;
        } else if *first == "liked".to_owned() {
            return ArgumentCheck::MissingLikedUser;
        } else {
            return ArgumentCheck::UnknownKind;
        }
    }
    let f = first.as_str();
    if !(str_contains(f, "track") || str_contains(f, "album") || str_contains(f, "playlist")
        || str_contains(f, "artist") || str_contains(f, "liked")) {
        return ArgumentCheck::NoKind;
    }
    ArgumentCheck::Proceed
}

/// The first argument that holds `name`.
pub open spec fn first_holding(args: Seq<Seq<char>>, name: Seq<char>) -> Option<int>
    decreases args.len(),
{
    if args.len() == 0 {
        None
    } else {
        match first_holding(args.drop_last(), name) {
            Some(i) => Some(i),
            None => if occurs_in(args.last(), name) {
                Some(args.len() - 1)
            } else {
                None
            },
        }
    }
}

/// The value given to the option `name`: what follows the first `=` of the first
/// argument that holds `name`; `None` where no argument holds it or that one has no `=`.
pub open spec fn option_value_spec(args: Seq<Seq<char>>, name: Seq<char>) -> Option<Seq<char>> {
    match first_holding(args, name) {
        Some(i) => after_equals(args[i]),
        None => None,
    }
}

/// The index of the first argument that holds `name`.
fn first_holding_exec(args: &Vec<String>, name: &str) -> (r: Option<usize>)
    requires
        name@.len() > 0,
    ensures
        match r {
            Some(i) => first_holding(strings(args@), name@) == Some(i as int) && i < args@.len(),
            None => first_holding(strings(args@), name@) is None,
        },
{
    let ghost a = strings(args@);
    let mut i: usize = 0;
    while i < args.len()
        invariant
            i <= args.len(),
            a == strings(args@),
            name@.len() > 0,
            first_holding(a.take(i as int), name@) is None,
        decreases args.len() - i,
    {
        assert(a.take(i + 1).drop_last() =~= a.take(i as int));
        assert(a.take(i + 1).last() == args@[i as int]@);
        if str_contains(args[i].as_str(), name) {
            assert(first_holding(a.take(i + 1), name@) == Some(i as int));
            proof {
                lemma_first_holding_prefix(a, name@, i + 1);
            }
            return Some(i);
        }
        i = i + 1;
    }
    assert(a.take(args.len() as int) =~= a);
    None
}

/// What follows the first `=` of the text.
pub open spec fn after_equals(s: Seq<char>) -> Option<Seq<char>> {
    match find_from(s, "="@, 0) {
        Some(e) => Some(s.subrange(e + 1, s.len() as int)),
        None => None,
    }
}

fn after_equals_exec(text: &str) -> (r: Option<String>)
    ensures
        match r {
            Some(v) => after_equals(text@) == Some(v@),
            None => after_equals(text@) is None,
        },
{
    proof {
        reveal_strlit("=");
    }
    let s = chars_of(text);
    let eq = chars_of("=");
    let found = find_from_exec(&s, &eq, 0);
    match found {
        Some(e) => {
            proof {
                lemma_find_from_some(s@, eq@, 0, e as int);
            }
            let n = s.len();
            Some(string_of(&slice_chars(&s, e + 1, n)))
        },
        None => None,
    }
}

/// The value given to the option `name`.
pub fn option_value(args: &Vec<String>, name: &str) -> (r: Option<String>)
    requires
        name@.len() > 0,
    ensures
        match r {
            Some(v) => option_value_spec(strings(args@), name@) == Some(v@),
            None => option_value_spec(strings(args@), name@) is None,
        },
{
    match first_holding_exec(args, name) {
        Some(i) => {
            assert(strings(args@)[i as int] == args@[i as int]@);
            after_equals_exec(args[i].as_str())
        },
        None => None,
    }
}

/// The value given to the switch `name`: what follows the first `=` of the first
/// argument that holds `name`, or, where that argument has no `=`, the argument after it.
pub open spec fn switch_value_spec(args: Seq<Seq<char>>, name: Seq<char>) -> Option<Seq<char>> {
    match first_holding(args, name) {
        Some(i) => match after_equals(args[i]) {
            Some(v) => Some(v),
            None => if i + 1 < args.len() {
                Some(args[i + 1])
            } else {
                None
            },
        },
        None => None,
    }
}

/// Whether the switch `name` is set: its value is `true`.
pub fn switch_argument(args: &Vec<String>, name: &str) -> (r: bool)
    requires
        name@.len() > 0,
    ensures
        r == (switch_value_spec(strings(args@), name@) == Some("true"@)),
{
    let ghost a = strings(args@);
    match first_holding_exec(args, name) {
        Some(i) => {
            assert(a[i as int] == args@[i as int]@);
            match after_equals_exec(args[i].as_str()) {
                Some(v) => v == "true".to_owned(),
                None => {
                    if args.len() - i > 1 {
                        assert(a[i + 1] == args@[i + 1]@);
                        args[i + 1] == "true".to_owned()
                    } else {
                        false
                    }
                },
            }
        },
        None => false,
    }
}

/// The thread count asked for with `--thread-count=`, three where none is given or it
/// is not a number.
pub open spec fn thread_count_spec(args: Seq<Seq<char>>) -> nat {
    match option_value_spec(args, "--thread-count"@) {
        Some(v) => match parse_usize_spec(v) {
            Some(n) => n,
            None => 3,
        },
        None => 3,
    }
}

/// The thread count asked for on the command line.
pub fn thread_count_argument(args: &Vec<String>) -> (r: usize)
    ensures
        r as nat == thread_count_spec(strings(args@)),
{
    proof {
        reveal_strlit("--thread-count");
    }
    match option_value(args, "--thread-count") {
        Some(v) => match parse_usize(v.as_str()) {
            Some(n) => n,
            None => 3,
        },
        None => 3,
    }
}

/// The first argument holding `name` among all of them is the one found among the
/// first `k`, where one is.
proof fn lemma_first_holding_prefix(a: Seq<Seq<char>>, name: Seq<char>, k: int)
    requires
        0 <= k <= a.len(),
        first_holding(a.take(k), name) is Some,
    ensures
        first_holding(a, name) == first_holding(a.take(k), name),
    decreases a.len() - k,
{
    if k < a.len() {
        assert(a.take(k + 1).drop_last() =~= a.take(k));
        lemma_first_holding_prefix(a, name, k + 1);
    } else {
        assert(a.take(k) =~= a);
    }
}

/// The values given to `--temp-dir` and `--download-dir`, in that order.
pub fn additional_argument_helper(args: &Vec<String>) -> (r: (Option<String>, Option<String>))
    ensures
        match r.0 {
            Some(v) => option_value_spec(strings(args@), "--temp-dir"@) == Some(v@),
            None => option_value_spec(strings(args@), "--temp-dir"@) is None,
        },
        match r.1 {
            Some(v) => option_value_spec(strings(args@), "--download-dir"@) == Some(v@),
            None => option_value_spec(strings(args@), "--download-dir"@) is None,
        },
{
    proof {
        reveal_strlit("--temp-dir");
        reveal_strlit("--download-dir");
    }
    (option_value(args, "--temp-dir"), option_value(args, "--download-dir"))
}

/// The kinds of download.
#[derive(PartialEq, Eq, Structural, Debug, Clone, Copy)]
pub enum Command {
    Track,
    Playlist,
    Artist,
    Liked,
    Other,
}

/// The kind of download the first argument names: `track`, `playlist` or `album`
/// (both a playlist), `artist`, `liked` (the tracks a user liked), or none of them.
pub fn command_kind(arg: &String) -> (r: Command)
    ensures
        r == (if arg@ == "track"@ {
            Command::Track
        } else if arg@ == "playlist"@ || arg@ == "album"@ {
            Command::Playlist
        } else if arg@ == "artist"@ {
            Command::Artist
        } else if arg@ == "liked"@ {
            Command::Liked
        } else {
            Command::Other
        }),
{
    if *arg == "track".to_owned() {
        Command::Track
    } else if *arg == "playlist".to_owned() || *arg == "album".to_owned() {
        Command::Playlist
    } else if *arg == "artist".to_owned() {
        Command::Artist
    } else if *arg == "liked".to_owned() {
        Command::Liked
    } else {
        Command::Other
    }
}

/// The text after the first occurrence of `marker`, or the whole text where it holds none.
pub open spec fn after_marker(s: Seq<char>, marker: Seq<char>) -> Seq<char> {
    if occurs_in(s, marker) {
        split(s, marker)[1]
    } else {
        s
    }
}

fn after_marker_exec(s: &str, marker: &str) -> (r: String)
    requires
        marker@.len() > 0,
    ensures
        r@ == after_marker(s@, marker@),
{
    if str_contains(s, marker) {
        proof {
            lemma_split_present(s@, marker@);
        }
        let pieces = split_all(&chars_of(s), &chars_of(marker));
        string_of(&pieces[1])
    } else {
        s.to_owned()
    }
}

/// The track path a `track` argument names: what follows `soundcloud.com/`, if
/// anything does, cut before its first `?`, then trimmed.
pub open spec fn track_target_spec(arg: Seq<char>) -> Seq<char> {
    trimmed(split(after_marker(arg, "soundcloud.com/"@), "?"@)[0])
}

/// Trimming a link of the site gives the path it names: for the address, a path that
/// holds neither the address nor a `?`, then a query, the result is that path.
pub proof fn lemma_trimming_link(p: Seq<char>, q: Seq<char>)
    requires
        !occurs_in(p, site_prefix()),
        !occurs_in(p, "?"@),
        !occurs_in(q, site_prefix()),
    ensures
        trimmed(site_prefix() + p + "?"@ + q) == p,
{
    reveal_strlit("https://soundcloud.com/");
    reveal_strlit("?");
    let sp = site_prefix();
    let qm = "?"@;
    assert(qm =~= seq!['?']);
    assert(sp.len() == 23);
    assert(forall|j: int| 0 <= j < 23 ==> sp[j] != '?');
    let s = sp + p + qm + q;
    let n = p.len() as int;
    assert(s.subrange(0, 23) =~= sp);
    assert(occurs_at(s, sp, 0));
    lemma_find_from_at(s, sp, 0, 0);
    lemma_pieces_from_step(s, sp, 0, 0);
    assert forall|m: int| 23 <= m implies !#[trigger] occurs_at(s, sp, m) by {
        if occurs_at(s, sp, m) {
            if m + 23 <= 23 + n {
                assert(s.subrange(m, m + 23) =~= p.subrange(m - 23, m));
                assert(occurs_at(p, sp, m - 23));
            } else if m <= 23 + n {
                let j = 23 + n - m;
                assert(s.subrange(m, m + 23)[j] == s[23 + n]);
                assert(s[23 + n] == '?');
            } else {
                let k = m - 24 - n;
                assert(s.subrange(m, m + 23) =~= q.subrange(k, k + 23));
                assert(occurs_at(q, sp, k));
            }
        }
    }
    lemma_find_from_absent(s, sp, 23);
    lemma_pieces_nonempty(s, sp, 23);
    let last = s.subrange(23, s.len() as int);
    assert(last =~= p + qm + q);
    assert(split(s, sp).last() == last);
    lemma_occurs_single(last, '?', n);
    assert forall|m: int| 0 <= m < n implies !#[trigger] occurs_at(last, qm, m) by {
        lemma_occurs_single(last, '?', m);
        lemma_occurs_single(p, '?', m);
        assert(last[m] == p[m]);
    }
    lemma_find_from_at(last, qm, 0, n);
    lemma_pieces_from_step(last, qm, 0, n);
    assert(last.subrange(0, n) =~= p);
}

/// A `track` argument is cut right after the first `soundcloud.com/` it holds, whatever
/// scheme or host stands before it: the path that follows, when it holds neither another
/// `soundcloud.com/` nor a `?`, is the track's path as it stands.
pub proof fn lemma_track_target_after_site_name(x: Seq<char>, p: Seq<char>)
    requires
        !occurs_in(x, "soundcloud.com/"@),
        !occurs_in(p, "soundcloud.com/"@),
        !occurs_in(p, "?"@),
    ensures
        track_target_spec(x + "soundcloud.com/"@ + p) == p,
{
    reveal_strlit("soundcloud.com/");
    reveal_strlit("?");
    reveal_strlit("https://soundcloud.com/");
    let mk = "soundcloud.com/"@;
    assert(mk.len() == 15);
    assert(mk[14] == '/');
    assert(forall|j: int| 0 <= j < 14 ==> mk[j] != '/');
    let s = x + mk + p;
    let a = x.len() as int;
    assert(s.subrange(a, a + 15) =~= mk);
    assert(occurs_at(s, mk, a));
    assert forall|m: int| 0 <= m < a implies !#[trigger] occurs_at(s, mk, m) by {
        if occurs_at(s, mk, m) {
            if m + 15 <= a {
                assert(s.subrange(m, m + 15) =~= x.subrange(m, m + 15));
                assert(occurs_at(x, mk, m));
            } else {
                let j = m + 14 - a;
                assert(s.subrange(m, m + 15)[14] == s[m + 14]);
                assert(s[m + 14] == mk[j]);
            }
        }
    }
    lemma_find_from_at(s, mk, 0, a);
    lemma_pieces_from_step(s, mk, 0, a);
    assert forall|m: int| a + 15 <= m implies !#[trigger] occurs_at(s, mk, m) by {
        if occurs_at(s, mk, m) {
            let q = m - a - 15;
            assert(s.subrange(m, m + 15) =~= p.subrange(q, q + 15));
            assert(occurs_at(p, mk, q));
        }
    }
    lemma_find_from_absent(s, mk, a + 15);
    assert(s.subrange(a + 15, s.len() as int) =~= p);
    assert(split(s, mk)[1] == p);
    assert(occurs_in(s, mk));
    assert(after_marker(s, mk) == p);
    lemma_split_absent(p, "?"@);
    if occurs_in(p, site_prefix()) {
        let q = choose|q: int| #[trigger] occurs_at(p, site_prefix(), q);
        assert(p.subrange(q + 8, q + 23) =~= p.subrange(q, q + 23).subrange(8, 23));
        assert(site_prefix().subrange(8, 23) =~= mk);
        assert(occurs_at(p, mk, q + 8));
    }
    lemma_split_absent(p, site_prefix());
}

/// With a download named (three arguments or more), the command line is accepted exactly
/// when its kind argument mentions `track`, `album`, `playlist`, `artist` or `liked`,
/// and refused as naming no kind otherwise.
pub proof fn lemma_argument_kinds(args: Seq<Seq<char>>)
    requires
        args.len() >= 3,
    ensures
        (argument_check(args) == ArgumentCheck::Proceed) <==> (occurs_in(args[1], "track"@)
            || occurs_in(args[1], "album"@) || occurs_in(args[1], "playlist"@) || occurs_in(
            args[1],
            "artist"@,
        ) || occurs_in(args[1], "liked"@)),
        argument_check(args) == ArgumentCheck::Proceed || argument_check(args)
            == ArgumentCheck::NoKind,
{
}

/// Each kind word itself, followed by what to download, is accepted.
pub proof fn lemma_kind_words_accepted(prog: Seq<char>, kind: Seq<char>, target: Seq<char>)
    requires
        kind == "track"@ || kind == "album"@ || kind == "playlist"@ || kind == "artist"@
            || kind == "liked"@,
    ensures
        argument_check(seq![prog, kind, target]) == ArgumentCheck::Proceed,
{
    assert(kind.subrange(0, kind.len() as int) =~= kind);
    assert(occurs_at(kind, kind, 0));
    lemma_argument_kinds(seq![prog, kind, target]);
}

/// The track path a `track` argument names.
pub fn track_target(arg: &str) -> (r: String)
    ensures
        r@ == track_target_spec(arg@),
{
    proof {
        reveal_strlit("soundcloud.com/");
        reveal_strlit("?");
    }
    let rest = after_marker_exec(arg, "soundcloud.com/");
    let parts = split_all(&chars_of(rest.as_str()), &chars_of("?"));
    proof {
        lemma_pieces_nonempty(rest@, "?"@, 0);
    }
    trimming(string_of(&parts[0]))
}

/// The playlist path a `playlist` or `album` argument names: what follows the site's
/// address, if anything does.
pub fn playlist_target(arg: &str) -> (r: String)
    ensures
        r@ == after_marker(arg@, site_prefix()),
{
    proof {
        reveal_strlit("https://soundcloud.com/");
    }
    after_marker_exec(arg, "https://soundcloud.com/")
}

/// The user name an `artist` or `liked` argument names: what follows
/// `soundcloud.com/`, if anything does.
pub fn artist_target(arg: &str) -> (r: String)
    ensures
        r@ == after_marker(arg@, "soundcloud.com/"@),
{
    proof {
        reveal_strlit("soundcloud.com/");
    }
    after_marker_exec(arg, "soundcloud.com/")
}

/// The address of a page of the site.
pub fn site_address(path: &str) -> (r: String)
    ensures
        r@ == site_prefix() + path@,
{
    cat_str("https://soundcloud.com/", path)
}

/// The folder an artist's tracks are downloaded into, under the download folder.
pub fn artist_folder(name: &str) -> (r: String)
    ensures
        r@ == "artist/"@ + name@,
{
    cat_str("artist/", name)
}

/// The folder the tracks a user liked are downloaded into, under the download folder.
pub fn liked_folder(name: &str) -> (r: String)
    ensures
        r@ == "liked/"@ + name@,
{
    cat_str("liked/", name)
}

/// The address that lists the tracks a user liked.
pub open spec fn liked_tracks_address(user_id: Seq<char>) -> Seq<char> {
    "https://api-v2.soundcloud.com/users/"@ + user_id
        + "/track_likes?offset=0&limit=79999&representation=&client_id=TtbhBUaHqao06g1mUwVTxbjj8TSUkiCl&app_version=1694761046&app_locale=en"@
}

/// The address that lists the tracks a user liked.
pub fn liked_tracks_url(user_id: &str) -> (r: String)
    ensures
        r@ == liked_tracks_address(user_id@),
{
    let front = cat_str("https://api-v2.soundcloud.com/users/", user_id);
    cat_str(
        front.as_str(),
        "/track_likes?offset=0&limit=79999&representation=&client_id=TtbhBUaHqao06g1mUwVTxbjj8TSUkiCl&app_version=1694761046&app_locale=en",
    )
}

/// The address that lists an artist's tracks.
pub open spec fn artist_tracks_address(user_id: Seq<char>) -> Seq<char> {
    "https://api-v2.soundcloud.com/users/"@ + user_id
        + "/tracks?offset=0&limit=79999&representation=&client_id=TtbhBUaHqao06g1mUwVTxbjj8TSUkiCl&app_version=1694761046&app_locale=en"@
}

/// The address that lists an artist's tracks.
pub fn artist_tracks_url(user_id: &str) -> (r: String)
    ensures
        r@ == artist_tracks_address(user_id@),
{
    let front = cat_str("https://api-v2.soundcloud.com/users/", user_id);
    cat_str(
        front.as_str(),
        "/tracks?offset=0&limit=79999&representation=&client_id=TtbhBUaHqao06g1mUwVTxbjj8TSUkiCl&app_version=1694761046&app_locale=en",
    )
}

/// The track ids listed on a playlist page, in order.
pub fn playlist_track_ids(pats: &Patterns, page: &str) -> (r: Vec<String>)
    requires
        pats.wf(),
    ensures
        strings(r@) == present_groups(regex_captures_all(PLAYLIST_TRACK_ID@, page@), 1),
{
    all_groups(&pats.playlist_track_id, page, 1)
}

/// The user id on a user's (an artist's) page, `None` where the page gives none.
pub fn artist_user_id(pats: &Patterns, page: &str) -> (r: Option<String>)
    requires
        pats.wf(),
    ensures
        match r {
            Some(u) => first_group(ARTIST_USER_ID@, page@) == Some(u@),
            None => first_group(ARTIST_USER_ID@, page@) is None,
        },
{
    match find_first_group(&pats.artist_user_id, page) {
        Some(g) => g,
        None => None,
    }
}

/// The track paths in a list of a user's tracks or liked tracks, in order.
pub fn artist_track_paths(pats: &Patterns, listing: &str) -> (r: Vec<String>)
    requires
        pats.wf(),
    ensures
        strings(r@) == present_groups(regex_captures_all(ARTIST_PERMALINK@, listing@), 1),
{
    all_groups(&pats.artist_permalink, listing, 1)
}


/// The settings a download runs with.
#[derive(Debug)]
pub struct Arguments {
    /// Where fetched segments, covers and metadata are cached.
    pub temp_dir: String,
    /// Where finished tracks are written.
    pub download_dir: String,
    /// How many tracks may download at once.
    pub thread_count: usize,
    /// Whether covers are fetched at their original size.
    pub original_cover_image: bool,
    /// Whether cached tracks are fetched again.
    pub disable_cache: bool,
}

} // verus!
