use vstd::prelude::*;
use crate::text::strings;

verus! {

#[verifier::external_type_specification]
#[verifier::external_body]
pub struct ExRegex(regex::Regex);

/// Whether `regex::Regex::new` accepts the pattern.
pub uninterp spec fn regex_compiles(pattern: Seq<char>) -> bool;

/// The groups of the leftmost match of `pattern` in `text` (group 0 first, a group
/// that took no part in the match as `None`), or `None` when there is no match:
/// what `regex::Regex::captures` finds.
pub uninterp spec fn regex_captures(pattern: Seq<char>, text: Seq<char>) -> Option<Seq<Option<Seq<char>>>>;

/// The groups of each successive non-overlapping match of `pattern` in `text`:
/// what `regex::Regex::captures_iter` yields.
pub uninterp spec fn regex_captures_all(pattern: Seq<char>, text: Seq<char>) -> Seq<Seq<Option<Seq<char>>>>;

/// `text` with every non-overlapping match of `pattern` replaced by `with`:
/// what `regex::Regex::replace_all` returns.
pub uninterp spec fn regex_replace_all(pattern: Seq<char>, text: Seq<char>, with: Seq<char>) -> Seq<char>;

/// The text of each group, `None` for a group that did not take part.
pub open spec fn groups_view(g: Seq<Option<String>>) -> Seq<Option<Seq<char>>> {
    g.map_values(|o: Option<String>|
        match o {
            Some(s) => Some(s@),
            None => None,
        })
}

/// A compiled regular expression together with the pattern it was compiled from. Its
/// fields are private and only `compile` builds one, so `re` is always what
/// `regex::Regex::new` made of `source`.
pub struct Pattern {
    re: regex::Regex,
    source: String,
}

impl View for Pattern {
    type V = Seq<char>;

    closed spec fn view(&self) -> Seq<char> {
        self.source@
    }
}

/// Compiles `source` with `regex::Regex::new`. The contract claims that the result is
/// `Some` exactly when the crate accepts the pattern, and that it keeps `source` as
/// its pattern.
#[verifier::external_body]
pub(crate) fn compile(source: &str) -> (r: Option<Pattern>)
    ensures
        r is Some <==> regex_compiles(source@),
        r matches Some(p) ==> p@ == source@,
{
    match regex::Regex::new(source) {
        Ok(re) => Some(Pattern { re, source: source.to_string() }),
        Err(_) => None,
    }
}

/// `regex::Regex::captures` on the compiled pattern, each group turned into an owned
/// string. The contract claims that the result is the named one for the pattern and
/// the text, and, as the crate documents, that a match always has its group 0.
#[verifier::external_body]
pub(crate) fn captures(p: &Pattern, text: &str) -> (r: Option<Vec<Option<String>>>)
    ensures
        r matches Some(g) ==> regex_captures(p@, text@) == Some(groups_view(g@)),
        r is None ==> regex_captures(p@, text@) is None,
        r matches Some(g) ==> g@.len() >= 1 && g@[0] is Some,
{
    match p.re.captures(text) {
        Some(c) => {
            let mut g = Vec::new();
            for m in c.iter() {
                g.push(match m {
                    Some(m) => Some(m.as_str().to_string()),
                    None => None,
                });
            }
            Some(g)
        },
        None => None,
    }
}

/// `regex::Regex::captures_iter` on the compiled pattern, each match turned into the
/// owned strings of its groups. The contract claims that the result is the named one
/// for the pattern and the text, and that each match has its group 0.
#[verifier::external_body]
pub(crate) fn captures_all(p: &Pattern, text: &str) -> (r: Vec<Vec<Option<String>>>)
    ensures
        r@.map_values(|g: Vec<Option<String>>| groups_view(g@)) == regex_captures_all(p@, text@),
        forall|i: int| 0 <= i < r@.len() ==> (#[trigger] r@[i])@.len() >= 1 && r@[i]@[0] is Some,
{
    let mut all = Vec::new();
    for c in p.re.captures_iter(text) {
        let mut g = Vec::new();
        for m in c.iter() {
            g.push(match m {
                Some(m) => Some(m.as_str().to_string()),
                None => None,
            });
        }
        all.push(g);
    }
    all
}

/// A character that the forbidden-characters pattern matches: one of `<`, `>`, `:`,
/// `"`, `/`, `\`, `|`, `?`, `*`.
pub open spec fn forbidden_char(c: char) -> bool {
    c == '<' || c == '>' || c == ':' || c == '"' || c == '/' || c == '\\' || c == '|' || c == '?'
        || c == '*'
}

/// The text with every forbidden character left out.
pub open spec fn without_forbidden(s: Seq<char>) -> Seq<char>
    decreases s.len(),
{
    if s.len() == 0 {
        Seq::empty()
    } else {
        without_forbidden(s.drop_last()) + if forbidden_char(s.last()) {
            Seq::<char>::empty()
        } else {
            seq![s.last()]
        }
    }
}

/// `regex::Regex::replace_all` on the compiled pattern with the replacement `with`.
/// The contract claims that the result is the named one for the pattern, the text and
/// the replacement; and, for the forbidden-characters pattern (an alternation of nine
/// single characters) with an empty replacement, that every match, that is every one of
/// those characters, is removed and nothing else changes.
#[verifier::external_body]
pub(crate) fn replace_all(p: &Pattern, text: &str, with: &str) -> (r: String)
    ensures
        r@ == regex_replace_all(p@, text@, with@),
        (p@ == FORBIDDEN_CHARS@ && with@ == Seq::<char>::empty()) ==> r@ == without_forbidden(text@),
{
    p.re.replace_all(text, with).to_string()
}


/// Group `i` of a match, `None` where the match has no such group or it took no part.
pub open spec fn group_at(g: Seq<Option<Seq<char>>>, i: int) -> Option<Seq<char>> {
    if 0 <= i < g.len() {
        g[i]
    } else {
        None
    }
}

/// The text held, if any.
pub open spec fn opt_text(o: Option<String>) -> Option<Seq<char>> {
    match o {
        Some(s) => Some(s@),
        None => None,
    }
}

/// The texts of group `i` over a series of matches, skipping the matches where that
/// group took no part.
pub open spec fn present_groups(ms: Seq<Seq<Option<Seq<char>>>>, i: int) -> Seq<Seq<char>>
    decreases ms.len(),
{
    if ms.len() == 0 {
        Seq::empty()
    } else {
        present_groups(ms.drop_last(), i) + match group_at(ms.last(), i) {
            Some(t) => seq![t],
            None => Seq::empty(),
        }
    }
}

/// One text per match where group `i` took part, in the order of the matches: where it
/// took part in every match, the texts are exactly that group of each match.
pub proof fn lemma_present_groups_all(ms: Seq<Seq<Option<Seq<char>>>>, i: int)
    ensures
        present_groups(ms, i).len() <= ms.len(),
        (forall|k: int| 0 <= k < ms.len() ==> (#[trigger] group_at(ms[k], i)) is Some) ==> {
            &&& present_groups(ms, i).len() == ms.len()
            &&& forall|k: int| 0 <= k < ms.len() ==> Some(#[trigger] present_groups(ms, i)[k]) == group_at(ms[k], i)
        },
    decreases ms.len(),
{
    if ms.len() > 0 {
        let d = ms.drop_last();
        lemma_present_groups_all(d, i);
        if forall|k: int| 0 <= k < ms.len() ==> (#[trigger] group_at(ms[k], i)) is Some {
            assert forall|k: int| 0 <= k < d.len() implies (#[trigger] group_at(d[k], i)) is Some by {
                assert(d[k] == ms[k]);
            }
            assert(group_at(ms[ms.len() - 1], i) is Some);
            let pg = present_groups(ms, i);
            assert forall|k: int| 0 <= k < ms.len() implies Some(#[trigger] pg[k]) == group_at(ms[k], i) by {
                if k < d.len() {
                    assert(pg[k] == present_groups(d, i)[k]);
                    assert(d[k] == ms[k]);
                }
            }
        }
    }
}

/// Group `i` of a match found by `captures`.
pub fn group_of(g: &Vec<Option<String>>, i: usize) -> (r: Option<String>)
    ensures
        opt_text(r) == group_at(groups_view(g@), i as int),
{
    if i < g.len() {
        match &g[i] {
            Some(t) => Some(t.clone()),
            None => None,
        }
    } else {
        None
    }
}

/// The groups of a series of matches as `captures_all` returns them.
pub open spec fn matches_view(ms: Seq<Vec<Option<String>>>) -> Seq<Seq<Option<Seq<char>>>> {
    ms.map_values(|g: Vec<Option<String>>| groups_view(g@))
}

/// The texts of group `i` over a series of matches, in order, skipping the matches
/// where that group took no part.
pub fn groups_at(ms: &Vec<Vec<Option<String>>>, i: usize) -> (r: Vec<String>)
    ensures
        strings(r@) == present_groups(matches_view(ms@), i as int),
{
    let ghost all = matches_view(ms@);
    let mut r: Vec<String> = Vec::new();
    let mut k: usize = 0;
    while k < ms.len()
        invariant
            k <= ms.len(),
            all == matches_view(ms@),
            strings(r@) == present_groups(all.take(k as int), i as int),
        decreases ms.len() - k,
    {
        let ghost prev = r@;
        proof {
            assert(all.take(k + 1).drop_last() =~= all.take(k as int));
            assert(all.take(k + 1).last() == groups_view(ms@[k as int]@));
        }
        match group_of(&ms[k], i) {
            Some(t) => {
                r.push(t);
                assert(strings(r@) =~= strings(prev) + seq![r@[r@.len() - 1]@]);
            },
            None => {
                assert(strings(r@) =~= strings(prev) + Seq::empty());
            },
        }
        k = k + 1;
    }
    assert(all.take(ms.len() as int) =~= all);
    r
}

/// The texts of group `i` of every match of `p` in `text`, in order, skipping the
/// matches where that group took no part.
pub fn all_groups(p: &Pattern, text: &str, i: usize) -> (r: Vec<String>)
    ensures
        strings(r@) == present_groups(regex_captures_all(p@, text@), i as int),
{
    let ms = captures_all(p, text);
    groups_at(&ms, i)
}

/// Characters that may not stand in a file name, as a pattern.
pub const FORBIDDEN_CHARS: &'static str = r#"(<|>|:|"|/|\\|\||\?|\*)"#;

/// The artist's name on a track page.
pub const USERNAME: &'static str = r#""username":"(.*?)""#;

/// The title on a track page.
pub const TITLE: &'static str = r#""title":"(.*?)""#;

/// The cover image on a track page.
pub const COVER_IMAGE: &'static str = r#"<meta property="og:image" content="(.*?)""#;

/// The token that authorizes a stream of the track.
pub const TRACK_AUTHORIZATION: &'static str = r#"track_authorization":"(.*?)""#;

/// A stream description link on a track page.
pub const STREAM_LINK: &'static str = r#"\{"url":"(.*?)""#;

/// The playlist address in a stream description.
pub const PLAYLIST_LINK: &'static str = r#"\{"url":"(.*?)".*?}"#;

/// A media segment line of a stream playlist.
pub const MEDIA_SEGMENT: &'static str = r#"(https://cf-hls-media.sndcdn.com/media/.*?|https://playback.media-streaming.soundcloud.cloud.*?)\n"#;

/// A track's path in an answer of the tracks interface.
pub const TRACK_PERMALINK: &'static str = r#"permalink_url":"https://soundcloud\.com/((?:[^"/]*?)/(?:[^"/]*?))","#;

/// A track id on a playlist page.
pub const PLAYLIST_TRACK_ID: &'static str = r#""id":([0-9]*?),"kind":"track","#;

/// The user id on an artist page.
pub const ARTIST_USER_ID: &'static str = r#"content="soundcloud://users:([0-9]*?)""#;

/// A track's path in the list of an artist's tracks.
pub const ARTIST_PERMALINK: &'static str = r#""permalink_url":"https://soundcloud\.com/((?:[a-zA-Z0-9-_]*?)/(?:[a-zA-Z0-9-_]*?))""#;

/// Every pattern the downloader searches with, compiled.
pub struct Patterns {
    pub forbidden_chars: Pattern,
    pub username: Pattern,
    pub title: Pattern,
    pub cover_image: Pattern,
    pub track_authorization: Pattern,
    pub stream_link: Pattern,
    pub playlist_link: Pattern,
    pub media_segment: Pattern,
    pub track_permalink: Pattern,
    pub playlist_track_id: Pattern,
    pub artist_user_id: Pattern,
    pub artist_permalink: Pattern,
}

impl Patterns {
    /// Each pattern was compiled from its constant.
    pub open spec fn wf(&self) -> bool {
        &&& self.forbidden_chars@ == FORBIDDEN_CHARS@
        &&& self.username@ == USERNAME@
        &&& self.title@ == TITLE@
        &&& self.cover_image@ == COVER_IMAGE@
        &&& self.track_authorization@ == TRACK_AUTHORIZATION@
        &&& self.stream_link@ == STREAM_LINK@
        &&& self.playlist_link@ == PLAYLIST_LINK@
        &&& self.media_segment@ == MEDIA_SEGMENT@
        &&& self.track_permalink@ == TRACK_PERMALINK@
        &&& self.playlist_track_id@ == PLAYLIST_TRACK_ID@
        &&& self.artist_user_id@ == ARTIST_USER_ID@
        &&& self.artist_permalink@ == ARTIST_PERMALINK@
    }

    /// Compiles every pattern; `None` when one of them is refused.
    pub fn new() -> (r: Option<Patterns>)
        ensures
            r matches Some(p) ==> p.wf(),
            r is Some <==> (regex_compiles(FORBIDDEN_CHARS@) && regex_compiles(USERNAME@)
                && regex_compiles(TITLE@) && regex_compiles(COVER_IMAGE@)
                && regex_compiles(TRACK_AUTHORIZATION@) && regex_compiles(STREAM_LINK@)
                && regex_compiles(PLAYLIST_LINK@) && regex_compiles(MEDIA_SEGMENT@)
                && regex_compiles(TRACK_PERMALINK@) && regex_compiles(PLAYLIST_TRACK_ID@)
                && regex_compiles(ARTIST_USER_ID@) && regex_compiles(ARTIST_PERMALINK@)),
    {
        let forbidden_chars = match compile(FORBIDDEN_CHARS) { Some(p) => p, None => return None };
        let username = match compile(USERNAME) { Some(p) => p, None => return None };
        let title = match compile(TITLE) { Some(p) => p, None => return None };
        let cover_image = match compile(COVER_IMAGE) { Some(p) => p, None => return None };
        let track_authorization = match compile(TRACK_AUTHORIZATION) { Some(p) => p, None => return None };
        let stream_link = match compile(STREAM_LINK) { Some(p) => p, None => return None };
        let playlist_link = match compile(PLAYLIST_LINK) { Some(p) => p, None => return None };
        let media_segment = match compile(MEDIA_SEGMENT) { Some(p) => p, None => return None };
        let track_permalink = match compile(TRACK_PERMALINK) { Some(p) => p, None => return None };
        let playlist_track_id = match compile(PLAYLIST_TRACK_ID) { Some(p) => p, None => return None };
        let artist_user_id = match compile(ARTIST_USER_ID) { Some(p) => p, None => return None };
        let artist_permalink = match compile(ARTIST_PERMALINK) { Some(p) => p, None => return None };
        Some(Patterns {
            forbidden_chars,
            username,
            title,
            cover_image,
            track_authorization,
            stream_link,
            playlist_link,
            media_segment,
            track_permalink,
            playlist_track_id,
            artist_user_id,
            artist_permalink,
        })
    }
}

} // verus!
