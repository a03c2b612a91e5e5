use vstd::prelude::*;
use crate::text::{chars_of, string_of, append_chars, strings};
use crate::pattern::{Patterns, all_groups, present_groups, regex_captures_all, TRACK_PERMALINK};

verus! {


/// Where a request of the tracks interface starts.
pub const TRACKS_ADDRESS: &'static str = "https://api-v2.soundcloud.com/tracks?ids=";

/// What a request of the tracks interface ends with.
pub const TRACKS_QUERY: &'static str = "&client_id=0nr4Ys43jAqfn0VkGXfxTWh9d4NB0o54&[object Object]=&app_version=1694501791&app_locale=en";

/// The ids of a request, each followed by an escaped comma.
pub open spec fn ids_param(ids: Seq<Seq<char>>) -> Seq<char>
    decreases ids.len(),
{
    if ids.len() == 0 {
        Seq::empty()
    } else {
        ids_param(ids.drop_last()) + ids.last() + "%2C"@
    }
}

/// The address that asks the tracks interface about these ids.
pub open spec fn batch_address(ids: Seq<Seq<char>>) -> Seq<char> {
    TRACKS_ADDRESS@ + ids_param(ids) + TRACKS_QUERY@
}

/// The ids split into the requests made: full batches of ten in order, then one more
/// holding what is left, which may be none.
pub open spec fn request_batches(ids: Seq<Seq<char>>) -> Seq<Seq<Seq<char>>> {
    Seq::new(
        ids.len() / 10 + 1,
        |k: int|
            ids.subrange(
                10 * k,
                if 10 * k + 10 <= ids.len() {
                    10 * k + 10
                } else {
                    ids.len() as int
                },
            ),
    )
}

/// The addresses asked, one per batch, in order.
pub open spec fn playlist_requests(ids: Seq<Seq<char>>) -> Seq<Seq<char>> {
    request_batches(ids).map_values(|b: Seq<Seq<char>>| batch_address(b))
}

/// The addresses that ask the tracks interface about a playlist's track ids.
pub fn playlist_request_urls(ids: &Vec<String>) -> (r: Vec<String>)
    ensures
        strings(r@) == playlist_requests(strings(ids@)),
{
    proof {
        reveal_strlit("%2C");
    }
    let ghost a = strings(ids@);
    let ghost want = playlist_requests(a);
    let base = chars_of(TRACKS_ADDRESS);
    let query = chars_of(TRACKS_QUERY);
    let comma = chars_of("%2C");
    let mut url = chars_of(TRACKS_ADDRESS);
    let mut r: Vec<String> = Vec::new();
    let mut temp: usize = 0;
    let mut full: usize = 0;
    let mut i: usize = 0;
    assert(a.subrange(0, 0) =~= Seq::<Seq<char>>::empty());
    while i < ids.len()
        invariant
            a == strings(ids@),
            a.len() == ids@.len(),
            want == playlist_requests(a),
            base@ == TRACKS_ADDRESS@,
            query@ == TRACKS_QUERY@,
            comma@ == "%2C"@,
            i <= ids.len(),
            temp < 10,
            i == 10 * full + temp,
            url@ == TRACKS_ADDRESS@ + ids_param(a.subrange(i - temp, i as int)),
            r@.len() == full,
            forall|k: int| 0 <= k < full ==> (#[trigger] strings(r@)[k]) == batch_address(a.subrange(10 * k, 10 * k + 10)),
        decreases ids.len() - i,
    {
        let ghost start = i - temp;
        append_chars(&mut url, &chars_of(ids[i].as_str()));
        append_chars(&mut url, &comma);
        assert(a.subrange(start, i + 1).drop_last() =~= a.subrange(start, i as int));
        i = i + 1;
        temp = temp + 1;
        if temp == 10 {
            append_chars(&mut url, &query);
            let ghost prev = r@;
            r.push(string_of(&url));
            assert forall|k: int| 0 <= k < full + 1 implies (#[trigger] strings(r@)[k]) == batch_address(a.subrange(10 * k, 10 * k + 10)) by {
                if k < full {
                    assert(strings(r@)[k] == strings(prev)[k]);
                }
            }
            url = chars_of(TRACKS_ADDRESS);
            temp = 0;
            full = full + 1;
            assert(a.subrange(i as int, i as int) =~= Seq::<Seq<char>>::empty());
        }
    }
    append_chars(&mut url, &query);
    let ghost prev = r@;
    r.push(string_of(&url));
    proof {
        let n = a.len() as int;
        assert(n / 10 == full as int);
        assert forall|k: int| 0 <= k < want.len() implies (#[trigger] strings(r@)[k]) == want[k] by {
            if k < full {
                assert(strings(r@)[k] == strings(prev)[k]);
                assert(10 * k + 10 <= n);
            } else {
                assert(k == full);
            }
        }
        assert(strings(r@) =~= want);
    }
    r
}

/// Every track id is asked about once, in order; every request but the last holds ten
/// ids, and the last holds the fewer than ten that are left.
pub proof fn lemma_requests_cover_ids(ids: Seq<Seq<char>>)
    ensures
        request_batches(ids).flatten() == ids,
        forall|k: int| 0 <= k < request_batches(ids).len() ==> (#[trigger] request_batches(ids)[k]).len() <= 10,
        request_batches(ids).len() >= 1,
        forall|k: int| 0 <= k < request_batches(ids).len() - 1 ==> (#[trigger] request_batches(ids)[k]).len() == 10,
        request_batches(ids).last().len() == ids.len() % 10,
{
    let n = ids.len() as int;
    let b = request_batches(ids);
    let m = n / 10;
    assert forall|j: int| 0 <= j <= m implies #[trigger] b.take(j).flatten() == ids.subrange(0, 10 * j) by {
        lemma_batches_prefix(ids, j);
    }
    lemma_batches_prefix(ids, m);
    assert(b.take(m + 1) =~= b.take(m).push(b[m]));
    b.take(m).lemma_flatten_push(b[m]);
    assert(b.take(m + 1) =~= b);
    assert(ids.subrange(0, 10 * m) + b[m] =~= ids);
}

proof fn lemma_batches_prefix(ids: Seq<Seq<char>>, j: int)
    requires
        0 <= j <= ids.len() / 10,
    ensures
        request_batches(ids).take(j).flatten() == ids.subrange(0, 10 * j),
    decreases j,
{
    let b = request_batches(ids);
    if j == 0 {
        assert(b.take(0) =~= Seq::<Seq<Seq<char>>>::empty());
        assert(ids.subrange(0, 0) =~= Seq::<Seq<char>>::empty());
    } else {
        lemma_batches_prefix(ids, j - 1);
        assert(b.take(j) =~= b.take(j - 1).push(b[j - 1]));
        b.take(j - 1).lemma_flatten_push(b[j - 1]);
        assert(ids.subrange(0, 10 * (j - 1)) + ids.subrange(10 * (j - 1), 10 * j) =~= ids.subrange(0, 10 * j));
    }
}

/// The track paths in an answer of the tracks interface, in order.
pub fn track_paths(pats: &Patterns, answer: &str) -> (r: Vec<String>)
    requires
        pats.wf(),
    ensures
        strings(r@) == present_groups(regex_captures_all(TRACK_PERMALINK@, answer@), 1),
{
    all_groups(&pats.track_permalink, answer, 1)
}

} // verus!
