use vstd::prelude::*;
use vstd::utf8::{
    encode_utf8, is_char_boundary, valid_utf8, encode_utf8_valid_utf8, valid_utf8_split,
    is_char_boundary_iff_not_is_continuation_byte, is_char_boundary_start_end_of_seq,
};
use crate::text::{chars_of, string_of, append_chars, str_contains, str_replace, strings, occurs_in, replace};
use crate::pattern::{
    Patterns, regex_captures, regex_captures_all, present_groups, all_groups,
    TRACK_AUTHORIZATION, STREAM_LINK, PLAYLIST_LINK, MEDIA_SEGMENT,
};
use crate::track::{FileType, first_group, find_first_group};

verus! {

/// A stretch of a valid UTF-8 text ending on a character boundary keeps the same
/// character boundaries up to its end.
proof fn lemma_boundary_prefix(b: Seq<u8>, k: int, f: int)
    requires
        valid_utf8(b),
        0 <= f <= k <= b.len(),
        is_char_boundary(b, k),
    ensures
        valid_utf8(b.subrange(0, k)),
        is_char_boundary(b.subrange(0, k), f) == is_char_boundary(b, f),
{
    valid_utf8_split(b, k);
    let p = b.subrange(0, k);
    is_char_boundary_start_end_of_seq(p);
    is_char_boundary_start_end_of_seq(b);
    if 0 < f < k {
        is_char_boundary_iff_not_is_continuation_byte(p, f);
        is_char_boundary_iff_not_is_continuation_byte(b, f);
    }
}

/// Whether the text can be cut to the bytes from `front` up to `back` bytes before its
/// end: there are that many bytes and both cuts fall between characters.
pub open spec fn inner_ok(s: Seq<char>, front: int, back: int) -> bool {
    let b = encode_utf8(s);
    &&& front + back <= b.len()
    &&& is_char_boundary(b, front)
    &&& is_char_boundary(b, b.len() - back)
}

/// The text between the first `front` bytes and the last `back` bytes of `s`
/// (`&s[front..s.len() - back]`), `None` where that slice would be out of range or
/// cut a character.
pub fn inner_text(s: &str, front: usize, back: usize) -> (r: Option<String>)
    ensures
        r is Some <==> inner_ok(s@, front as int, back as int),
        r matches Some(t) ==> encode_utf8(t@) == encode_utf8(s@).subrange(
            front as int,
            encode_utf8(s@).len() - back,
        ),
{
    let len = s.as_bytes().len();
    proof {
        encode_utf8_valid_utf8(s@);
    }
    if back > len || front > len - back {
        return None;
    }
    let end = len - back;
    if !s.is_char_boundary(end) || !s.is_char_boundary(front) {
        return None;
    }
    let (left, _) = s.split_at(end);
    proof {
        lemma_boundary_prefix(encode_utf8(s@), end as int, front as int);
    }
    let (_, mid) = left.split_at(front);
    let t = mid.to_owned();
    Some(t)
}

/// The address asked for a stream description: the description link, then the client
/// id and the track's authorization as query parameters.
pub open spec fn description_address(link: Seq<char>, client_id: Seq<char>, authorization: Seq<char>) -> Seq<char> {
    link + "?client_id="@ + client_id + "&track_authorization="@ + authorization
}

fn description_url(link: &str, client_id: &str, authorization: &str) -> (r: String)
    ensures
        r@ == description_address(link@, client_id@, authorization@),
{
    let mut v = chars_of(link);
    append_chars(&mut v, &chars_of("?client_id="));
    append_chars(&mut v, &chars_of(client_id));
    append_chars(&mut v, &chars_of("&track_authorization="));
    append_chars(&mut v, &chars_of(authorization));
    string_of(&v)
}

/// The address of the stream playlist given in a stream description: group 1 of its
/// playlist-link match; with no match, the description less its first 8 and last 2 bytes.
pub open spec fn playlist_address_ok(body: Seq<char>) -> bool {
    match regex_captures(PLAYLIST_LINK@, body) {
        Some(g) => first_group(PLAYLIST_LINK@, body) is Some,
        None => inner_ok(body, 8, 2),
    }
}

/// `u` is the stream playlist address that the description `body` gives.
pub open spec fn is_playlist_address(body: Seq<char>, u: Seq<char>) -> bool {
    match regex_captures(PLAYLIST_LINK@, body) {
        Some(_) => first_group(PLAYLIST_LINK@, body) == Some(u),
        None => encode_utf8(u) == encode_utf8(body).subrange(8, encode_utf8(body).len() - 2),
    }
}

/// The stream playlist address a description gives, `None` where it gives none that
/// can be read.
pub fn playlist_address(pats: &Patterns, body: &str) -> (r: Option<String>)
    requires
        pats.wf(),
    ensures
        r is Some <==> playlist_address_ok(body@),
        r matches Some(u) ==> is_playlist_address(body@, u@),
{
    match find_first_group(&pats.playlist_link, body) {
        Some(g) => g,
        None => inner_text(body, 8, 2),
    }
}

/// The media segment links of a stream playlist, in order: each whole match of the
/// media-segment pattern, with its `"` characters removed.
pub open spec fn media_links_spec(body: Seq<char>) -> Seq<Seq<char>> {
    present_groups(regex_captures_all(MEDIA_SEGMENT@, body), 0).map_values(
        |t: Seq<char>| replace(t, "\""@, ""@),
    )
}

/// Every match of the media-segment pattern gives exactly one link, in the order of the
/// matches, with its `"` characters removed: no segment is left out, added or moved.
pub proof fn lemma_media_links_one_per_match(body: Seq<char>)
    ensures
        media_links_spec(body).len() == present_groups(regex_captures_all(MEDIA_SEGMENT@, body), 0).len(),
        forall|i: int|
            0 <= i < media_links_spec(body).len() ==> #[trigger] media_links_spec(body)[i] == replace(
                present_groups(regex_captures_all(MEDIA_SEGMENT@, body), 0)[i],
                "\""@,
                ""@,
            ),
{
}

/// The media segment links of a stream playlist.
pub fn media_links(pats: &Patterns, body: &str) -> (r: Vec<String>)
    requires
        pats.wf(),
    ensures
        strings(r@) == media_links_spec(body@),
        r@.len() == present_groups(regex_captures_all(MEDIA_SEGMENT@, body@), 0).len(),
        forall|i: int|
            0 <= i < r@.len() ==> #[trigger] r@[i]@ == replace(
                present_groups(regex_captures_all(MEDIA_SEGMENT@, body@), 0)[i],
                "\""@,
                ""@,
            ),
{
    proof {
        reveal_strlit("\"");
        lemma_media_links_one_per_match(body@);
    }
    let found = all_groups(&pats.media_segment, body, 0);
    let ghost want = media_links_spec(body@);
    let mut r: Vec<String> = Vec::new();
    let mut i: usize = 0;
    while i < found.len()
        invariant
            i <= found.len(),
            "\""@.len() > 0,
            strings(found@) == present_groups(regex_captures_all(MEDIA_SEGMENT@, body@), 0),
            want == media_links_spec(body@),
            want.len() == found.len(),
            strings(r@) =~= want.take(i as int),
        decreases found.len() - i,
    {
        let ghost prev = r@;
        r.push(str_replace(found[i].as_str(), "\"", ""));
        assert(strings(r@) =~= strings(prev).push(want[i as int]));
        assert(want.take(i + 1) =~= want.take(i as int).push(want[i as int]));
        i = i + 1;
    }
    assert(want.take(found.len() as int) =~= want);
    assert forall|i: int| 0 <= i < r@.len() implies #[trigger] r@[i]@ == want[i] by {
        assert(strings(r@)[i] == r@[i]@);
    }
    r
}

/// Whether a media link is a fragment of a fragmented stream (it names a `.m4s` file).
pub fn is_fragment_link(link: &str) -> (r: bool)
    ensures
        r == occurs_in(link@, ".m4s"@),
{
    proof {
        reveal_strlit(".m4s");
    }
    str_contains(link, ".m4s")
}

/// How the segments of these links are stored: as fragments when any link is one, else
/// as plain segments.
pub fn links_file_type(links: &Vec<String>) -> (r: FileType)
    ensures
        r == (if exists|i: int| 0 <= i < links@.len() && occurs_in(#[trigger] links@[i]@, ".m4s"@) {
            FileType::M4S
        } else {
            FileType::MP3
        }),
{
    let mut i: usize = 0;
    while i < links.len()
        invariant
            i <= links.len(),
            forall|k: int| 0 <= k < i ==> !occurs_in(#[trigger] links@[k]@, ".m4s"@),
        decreases links.len() - i,
    {
        if is_fragment_link(links[i].as_str()) {
            return FileType::M4S;
        }
        i = i + 1;
    }
    FileType::MP3
}

/// What the downloader must do next for the audio of a track.
#[derive(Debug)]
pub enum AudioStep {
    /// Ask this address for a stream description.
    Describe(String),
    /// Fetch the stream playlist at this address.
    FetchPlaylist(String),
    /// Download these media segments, in order.
    FetchSegments(Vec<String>),
    /// Every description link was tried and none gave a stream.
    GiveUp,
    /// A description or a refused playlist gave an address that cannot be read.
    Unreadable,
}

/// Where a track's audio download stands: the stream description links of its page,
/// how many of them were tried, the client id and the track's authorization, and
/// whether a refused playlist was asked for again.
pub struct AudioFetch {
    pub links: Vec<String>,
    pub next: usize,
    pub client_id: String,
    pub authorization: String,
    pub retried: bool,
}

impl AudioFetch {
    /// Starts on a track page: `None` where the page gives no authorization (the
    /// download then has nothing to try); else no description link tried yet.
    pub fn start(pats: &Patterns, page: &str, client_id: &str) -> (r: Option<AudioFetch>)
        requires
            pats.wf(),
        ensures
            r is Some <==> first_group(TRACK_AUTHORIZATION@, page@) is Some,
            r matches Some(f) ==> {
                &&& Some(f.authorization@) == first_group(TRACK_AUTHORIZATION@, page@)
                &&& strings(f.links@) == present_groups(regex_captures_all(STREAM_LINK@, page@), 1)
                &&& f.next == 0
                &&& f.client_id@ == client_id@
                &&& !f.retried
            },
    {
        let authorization = match find_first_group(&pats.track_authorization, page) {
            Some(Some(a)) => a,
            _ => return None,
        };
        let links = all_groups(&pats.stream_link, page, 1);
        Some(AudioFetch {
            links,
            next: 0,
            client_id: client_id.to_owned(),
            authorization,
            retried: false,
        })
    }

    /// Tries the next description link: asks for its description, or gives up when every
    /// link was tried.
    pub fn next_description(&mut self) -> (r: AudioStep)
        requires
            old(self).next <= old(self).links@.len(),
        ensures
            final(self).links == old(self).links,
            final(self).client_id == old(self).client_id,
            final(self).authorization == old(self).authorization,
            final(self).retried == old(self).retried,
            final(self).next <= final(self).links@.len(),
            old(self).next < old(self).links@.len() ==> {
                &&& final(self).next == old(self).next + 1
                &&& r matches AudioStep::Describe(u) && u@ == description_address(
                    old(self).links@[old(self).next as int]@,
                    old(self).client_id@,
                    old(self).authorization@,
                )
            },
            old(self).next >= old(self).links@.len() ==> final(self).next == old(self).next && r
                is GiveUp,
    {
        if self.next < self.links.len() {
            let url = description_url(
                self.links[self.next].as_str(),
                self.client_id.as_str(),
                self.authorization.as_str(),
            );
            self.next = self.next + 1;
            AudioStep::Describe(url)
        } else {
            AudioStep::GiveUp
        }
    }

    /// Takes the answer to a description request: a failed request, or a description
    /// that gives no address, moves on to the next link; else the stream playlist is
    /// fetched from the address it gives, which may be unreadable.
    pub fn on_description(&mut self, pats: &Patterns, success: bool, body: &str) -> (r: AudioStep)
        requires
            pats.wf(),
            old(self).next <= old(self).links@.len(),
        ensures
            final(self).links == old(self).links,
            final(self).client_id == old(self).client_id,
            final(self).authorization == old(self).authorization,
            final(self).retried == old(self).retried,
            final(self).next <= final(self).links@.len(),
            (!success || occurs_in(body@, "\"url\":null"@)) ==> {
                &&& old(self).next < old(self).links@.len() ==> {
                    &&& final(self).next == old(self).next + 1
                    &&& r matches AudioStep::Describe(u) && u@ == description_address(
                        old(self).links@[old(self).next as int]@,
                        old(self).client_id@,
                        old(self).authorization@,
                    )
                }
                &&& old(self).next >= old(self).links@.len() ==> r is GiveUp
            },
            (success && !occurs_in(body@, "\"url\":null"@)) ==> {
                &&& final(self).next == old(self).next
                &&& playlist_address_ok(body@) ==> (r matches AudioStep::FetchPlaylist(u)
                    && is_playlist_address(body@, u@))
                &&& !playlist_address_ok(body@) ==> r is Unreadable
            },
    {
        proof {
            reveal_strlit("\"url\":null");
        }
        if !success || str_contains(body, "\"url\":null") {
            return self.next_description();
        }
        match playlist_address(pats, body) {
            Some(u) => AudioStep::FetchPlaylist(u),
            None => AudioStep::Unreadable,
        }
    }

    /// Takes a stream playlist: one refused the first time is asked for again at the
    /// address it gives between its first 8 and its last 19 bytes, which may be
    /// unreadable; else its media segments are downloaded.
    pub fn on_playlist(&mut self, pats: &Patterns, body: &str) -> (r: AudioStep)
        requires
            pats.wf(),
        ensures
            final(self).links == old(self).links,
            final(self).next == old(self).next,
            final(self).client_id == old(self).client_id,
            final(self).authorization == old(self).authorization,
            (!old(self).retried && occurs_in(body@, "Forbidden"@)) ==> {
                &&& final(self).retried
                &&& inner_ok(body@, 8, 19) ==> (r matches AudioStep::FetchPlaylist(u) && encode_utf8(u@)
                    == encode_utf8(body@).subrange(8, encode_utf8(body@).len() - 19))
                &&& !inner_ok(body@, 8, 19) ==> r is Unreadable
            },
            !(!old(self).retried && occurs_in(body@, "Forbidden"@)) ==> {
                &&& final(self).retried == old(self).retried
                &&& r matches AudioStep::FetchSegments(links) && strings(links@) == media_links_spec(body@)
            },
    {
        proof {
            reveal_strlit("Forbidden");
        }
        if !self.retried && str_contains(body, "Forbidden") {
            self.retried = true;
            match inner_text(body, 8, 19) {
                Some(u) => AudioStep::FetchPlaylist(u),
                None => AudioStep::Unreadable,
            }
        } else {
            AudioStep::FetchSegments(media_links(pats, body))
        }
    }
}

} // verus!
