use vstd::prelude::*;
use vstd::std_specs::iter::IteratorSpec;

verus! {

broadcast use vstd::string::axiom_spec_iter;

/// `String::push`: appends one character at the end of the string.
#[verifier::external_body]
fn push_char(s: &mut String, c: char)
    ensures
        final(s)@ == old(s)@.push(c),
{
    s.push(c);
}

/// The characters of a string slice, in order.
pub fn chars_of(s: &str) -> (v: Vec<char>)
    ensures
        v@ == s@,
{
    let mut v: Vec<char> = Vec::new();
    let mut it = s.chars();
    loop
        invariant
            it.obeys_prophetic_iter_laws(),
            v@ + it.remaining() == s@,
            it.decrease() is Some,
        ensures
            v@ == s@,
        decreases it.decrease()->0,
    {
        match it.next() {
            Some(c) => {
                v.push(c);
            },
            None => {
                assert(v@ + it.remaining() == v@);
                break;
            },
        }
    }
    v
}

/// A string holding exactly the given characters.
pub fn string_of(v: &Vec<char>) -> (s: String)
    ensures
        s@ == v@,
{
    let mut s = String::new();
    let mut i: usize = 0;
    while i < v.len()
        invariant
            i <= v.len(),
            s@ == v@.take(i as int),
        decreases v.len() - i,
    {
        push_char(&mut s, v[i]);
        i = i + 1;
        assert(s@ =~= v@.take(i as int));
    }
    assert(v@.take(v.len() as int) =~= v@);
    s
}


/// The characters of each of the pieces.
pub open spec fn texts(v: Seq<Vec<char>>) -> Seq<Seq<char>> {
    v.map_values(|x: Vec<char>| x@)
}

/// The characters of each of the strings.
pub open spec fn strings(v: Seq<String>) -> Seq<Seq<char>> {
    v.map_values(|x: String| x@)
}

/// `pat` stands in `s` starting at position `i`.
pub open spec fn occurs_at(s: Seq<char>, pat: Seq<char>, i: int) -> bool {
    0 <= i && i + pat.len() <= s.len() && s.subrange(i, i + pat.len()) == pat
}

/// `pat` stands somewhere in `s`.
pub open spec fn occurs_in(s: Seq<char>, pat: Seq<char>) -> bool {
    exists|i: int| #[trigger] occurs_at(s, pat, i)
}

/// The first position at or after `k` where the non-empty `pat` stands in `s`.
pub open spec fn find_from(s: Seq<char>, pat: Seq<char>, k: int) -> Option<int>
    decreases s.len() - k,
{
    if k < 0 || k >= s.len() || k + pat.len() > s.len() {
        None
    } else if occurs_at(s, pat, k) {
        Some(k)
    } else {
        find_from(s, pat, k + 1)
    }
}

/// The pieces of `s` from `start` on, cut at each occurrence of `sep`, scanning from
/// the left and not letting two occurrences overlap (the pieces `str::split` yields).
pub open spec fn pieces_from(s: Seq<char>, sep: Seq<char>, start: int) -> Seq<Seq<char>>
    decreases s.len() - start,
{
    if sep.len() == 0 || start < 0 || start > s.len() {
        Seq::empty()
    } else {
        match find_from(s, sep, start) {
            Some(i) => if start <= i && i + sep.len() <= s.len() {
                seq![s.subrange(start, i)] + pieces_from(s, sep, i + sep.len())
            } else {
                Seq::empty()
            },
            None => seq![s.subrange(start, s.len() as int)],
        }
    }
}

/// The pieces of `s` cut at each occurrence of `sep`.
pub open spec fn split(s: Seq<char>, sep: Seq<char>) -> Seq<Seq<char>> {
    pieces_from(s, sep, 0)
}

/// The parts laid end to end with `sep` between each two of them.
pub open spec fn join(parts: Seq<Seq<char>>, sep: Seq<char>) -> Seq<char>
    decreases parts.len(),
{
    if parts.len() == 0 {
        Seq::empty()
    } else if parts.len() == 1 {
        parts[0]
    } else {
        join(parts.drop_last(), sep) + sep + parts.last()
    }
}

/// Every occurrence of `from` in `s`, taken from the left, replaced by `to`
/// (what `str::replace` computes).
pub open spec fn replace(s: Seq<char>, from: Seq<char>, to: Seq<char>) -> Seq<char> {
    join(split(s, from), to)
}

/// What a first occurrence found from `k` is: an occurrence, with none between `k` and it.
pub proof fn lemma_find_from_some(s: Seq<char>, pat: Seq<char>, k: int, j: int)
    requires
        find_from(s, pat, k) == Some(j),
    ensures
        k <= j,
        occurs_at(s, pat, j),
        j < s.len(),
        forall|m: int| k <= m < j ==> !#[trigger] occurs_at(s, pat, m),
    decreases s.len() - k,
{
    if k < 0 || k >= s.len() || k + pat.len() > s.len() {
    } else if occurs_at(s, pat, k) {
    } else {
        lemma_find_from_some(s, pat, k + 1, j);
    }
}

/// Where none is found from `k`, there is no occurrence from `k` on.
pub proof fn lemma_find_from_none(s: Seq<char>, pat: Seq<char>, k: int)
    requires
        find_from(s, pat, k) is None,
        pat.len() > 0,
        k >= 0,
    ensures
        forall|m: int| k <= m ==> !#[trigger] occurs_at(s, pat, m),
    decreases s.len() - k,
{
    if k < 0 || k >= s.len() || k + pat.len() > s.len() {
    } else if occurs_at(s, pat, k) {
    } else {
        lemma_find_from_none(s, pat, k + 1);
    }
}

/// The first occurrence at or after `k` is the one at `j`, when `j` holds one and
/// nothing between `k` and `j` does.
pub proof fn lemma_find_from_at(s: Seq<char>, pat: Seq<char>, k: int, j: int)
    requires
        0 <= k <= j,
        pat.len() > 0,
        occurs_at(s, pat, j),
        forall|m: int| k <= m < j ==> !#[trigger] occurs_at(s, pat, m),
    ensures
        find_from(s, pat, k) == Some(j),
    decreases j - k,
{
    assert(occurs_at(s, pat, k) ==> k == j);
    if k < j {
        lemma_find_from_at(s, pat, k + 1, j);
    }
}

/// No occurrence from `k` on.
pub proof fn lemma_find_from_absent(s: Seq<char>, pat: Seq<char>, k: int)
    requires
        0 <= k,
        forall|m: int| k <= m ==> !#[trigger] occurs_at(s, pat, m),
    ensures
        find_from(s, pat, k) is None,
    decreases s.len() - k,
{
    if k < 0 || k >= s.len() || k + pat.len() > s.len() {
    } else {
        assert(!occurs_at(s, pat, k));
        lemma_find_from_absent(s, pat, k + 1);
    }
}


/// Whether `pat` stands in `s` at `i`.
fn matches_at(s: &Vec<char>, pat: &Vec<char>, i: usize) -> (b: bool)
    ensures
        b == occurs_at(s@, pat@, i as int),
{
    if i > s.len() || pat.len() > s.len() - i {
        return false;
    }
    let mut m: usize = 0;
    while m < pat.len()
        invariant
            i + pat.len() <= s.len(),
            m <= pat.len(),
            s@.subrange(i as int, i + m) =~= pat@.take(m as int),
        decreases pat.len() - m,
    {
        if s[i + m] != pat[m] {
            assert(s@.subrange(i as int, i + pat.len())[m as int] != pat@[m as int]);
            return false;
        }
        m = m + 1;
        assert(s@.subrange(i as int, i + m) =~= pat@.take(m as int));
    }
    assert(pat@.take(pat.len() as int) =~= pat@);
    true
}

/// The first position at or after `k` where `pat` stands in `s`.
pub fn find_from_exec(s: &Vec<char>, pat: &Vec<char>, k: usize) -> (r: Option<usize>)
    ensures
        match r {
            Some(j) => find_from(s@, pat@, k as int) == Some(j as int),
            None => find_from(s@, pat@, k as int) is None,
        },
{
    let mut j = k;
    while j < s.len() && pat.len() <= s.len() - j
        invariant
            k <= j,
            find_from(s@, pat@, k as int) == find_from(s@, pat@, j as int),
        decreases s.len() - j,
    {
        if matches_at(s, pat, j) {
            return Some(j);
        }
        j = j + 1;
    }
    None
}

/// Whether `pat` stands anywhere in `s` (`str::contains` with a non-empty pattern).
pub fn contains(s: &Vec<char>, pat: &Vec<char>) -> (b: bool)
    requires
        pat@.len() > 0,
    ensures
        b == occurs_in(s@, pat@),
{
    match find_from_exec(s, pat, 0) {
        Some(j) => {
            proof {
                lemma_find_from_some(s@, pat@, 0, j as int);
            }
            true
        },
        None => {
            proof {
                lemma_find_from_none(s@, pat@, 0);
            }
            false
        },
    }
}

/// The characters of `s` from `a` up to `b`.
pub fn slice_chars(s: &Vec<char>, a: usize, b: usize) -> (r: Vec<char>)
    requires
        a <= b <= s.len(),
    ensures
        r@ == s@.subrange(a as int, b as int),
{
    let mut r: Vec<char> = Vec::new();
    let mut i = a;
    while i < b
        invariant
            a <= i <= b <= s.len(),
            r@ =~= s@.subrange(a as int, i as int),
        decreases b - i,
    {
        r.push(s[i]);
        i = i + 1;
        assert(r@ =~= s@.subrange(a as int, i as int));
    }
    r
}

/// Cutting at the first occurrence from `start`: its piece, then the pieces after it.
pub proof fn lemma_pieces_from_step(s: Seq<char>, sep: Seq<char>, start: int, i: int)
    requires
        sep.len() > 0,
        0 <= start <= s.len(),
        find_from(s, sep, start) == Some(i),
    ensures
        start <= i,
        i + sep.len() <= s.len(),
        pieces_from(s, sep, start) == seq![s.subrange(start, i)] + pieces_from(s, sep, i + sep.len()),
{
    lemma_find_from_some(s, sep, start, i);
}

/// Cutting always yields at least one piece.
pub proof fn lemma_pieces_nonempty(s: Seq<char>, sep: Seq<char>, start: int)
    requires
        sep.len() > 0,
        0 <= start <= s.len(),
    ensures
        pieces_from(s, sep, start).len() >= 1,
    decreases s.len() - start,
{
    match find_from(s, sep, start) {
        Some(i) => {
            lemma_pieces_from_step(s, sep, start, i);
            lemma_pieces_nonempty(s, sep, i + sep.len());
        },
        None => {},
    }
}

/// All the pieces of `s` cut at `sep` (`str::split` collected).
pub fn split_all(s: &Vec<char>, sep: &Vec<char>) -> (r: Vec<Vec<char>>)
    requires
        sep@.len() > 0,
    ensures
        texts(r@) == split(s@, sep@),
{
    let mut r: Vec<Vec<char>> = Vec::new();
    let mut pos: usize = 0;
    loop
        invariant_except_break
            sep@.len() > 0,
            pos <= s.len(),
            texts(r@) + pieces_from(s@, sep@, pos as int) == split(s@, sep@),
        ensures
            texts(r@) == split(s@, sep@),
        decreases s.len() - pos,
    {
        match find_from_exec(s, sep, pos) {
            Some(i) => {
                proof {
                    lemma_pieces_from_step(s@, sep@, pos as int, i as int);
                }
                let piece = slice_chars(s, pos, i);
                let ghost old_r = texts(r@);
                r.push(piece);
                assert(texts(r@) =~= old_r.push(piece@));
                assert(texts(r@) + pieces_from(s@, sep@, (i + sep.len()) as int) =~= old_r
                    + pieces_from(s@, sep@, pos as int));
                pos = i + sep.len();
            },
            None => {
                let piece = slice_chars(s, pos, s.len());
                let ghost old_r = texts(r@);
                r.push(piece);
                assert(texts(r@) =~= old_r + pieces_from(s@, sep@, pos as int));
                break;
            },
        }
    }
    r
}

/// The parts laid end to end with `sep` between each two of them.
pub fn join_exec(parts: &Vec<Vec<char>>, sep: &Vec<char>) -> (r: Vec<char>)
    ensures
        r@ == join(texts(parts@), sep@),
{
    let mut r: Vec<char> = Vec::new();
    let mut i: usize = 0;
    while i < parts.len()
        invariant
            i <= parts.len(),
            r@ == join(texts(parts@).take(i as int), sep@),
        decreases parts.len() - i,
    {
        let ghost prev = r@;
        if i > 0 {
            append_chars(&mut r, sep);
        }
        append_chars(&mut r, &parts[i]);
        proof {
            let t = texts(parts@).take(i + 1);
            assert(t.drop_last() =~= texts(parts@).take(i as int));
            assert(t.last() == parts[i as int]@);
            if i == 0 {
                assert(r@ =~= parts[i as int]@);
            } else {
                assert(r@ =~= prev + sep@ + parts[i as int]@);
            }
        }
        i = i + 1;
    }
    assert(texts(parts@).take(parts.len() as int) =~= texts(parts@));
    r
}

/// Appends the characters of `b` to `a`.
pub fn append_chars(a: &mut Vec<char>, b: &Vec<char>)
    ensures
        final(a)@ == old(a)@ + b@,
{
    let mut i: usize = 0;
    while i < b.len()
        invariant
            i <= b.len(),
            a@ =~= old(a)@ + b@.take(i as int),
        decreases b.len() - i,
    {
        a.push(b[i]);
        i = i + 1;
        assert(a@ =~= old(a)@ + b@.take(i as int));
    }
    assert(b@.take(b.len() as int) =~= b@);
}

/// Every occurrence of `from` replaced by `to` (`str::replace` with a non-empty pattern).
pub fn replace_exec(s: &Vec<char>, from: &Vec<char>, to: &Vec<char>) -> (r: Vec<char>)
    requires
        from@.len() > 0,
    ensures
        r@ == replace(s@, from@, to@),
{
    let parts = split_all(s, from);
    join_exec(&parts, to)
}


/// The decimal digit for `d`, below ten.
pub open spec fn digit_char(d: nat) -> char {
    if d == 0 { '0' }
    else if d == 1 { '1' }
    else if d == 2 { '2' }
    else if d == 3 { '3' }
    else if d == 4 { '4' }
    else if d == 5 { '5' }
    else if d == 6 { '6' }
    else if d == 7 { '7' }
    else if d == 8 { '8' }
    else { '9' }
}

/// `n` written in decimal, with no leading zero (what `format!("{}", n)` writes).
pub open spec fn decimal(n: nat) -> Seq<char>
    decreases n,
{
    if n < 10 {
        seq![digit_char(n)]
    } else {
        decimal(n / 10).push(digit_char(n % 10))
    }
}

fn digit_exec(d: u32) -> (c: char)
    requires
        d < 10,
    ensures
        c == digit_char(d as nat),
{
    if d == 0 { '0' }
    else if d == 1 { '1' }
    else if d == 2 { '2' }
    else if d == 3 { '3' }
    else if d == 4 { '4' }
    else if d == 5 { '5' }
    else if d == 6 { '6' }
    else if d == 7 { '7' }
    else if d == 8 { '8' }
    else { '9' }
}

/// The decimal characters of `n`.
pub fn decimal_exec(n: u32) -> (r: Vec<char>)
    ensures
        r@ == decimal(n as nat),
    decreases n,
{
    if n < 10 {
        let mut r: Vec<char> = Vec::new();
        r.push(digit_exec(n));
        assert(r@ =~= seq![digit_char(n as nat)]);
        r
    } else {
        let mut r = decimal_exec(n / 10);
        r.push(digit_exec(n % 10));
        r
    }
}


/// An occurrence inside a stretch of `s` is an occurrence in `s`.
pub proof fn lemma_occurs_subrange(s: Seq<char>, pat: Seq<char>, a: int, b: int, p: int)
    requires
        0 <= a <= b <= s.len(),
        occurs_at(s.subrange(a, b), pat, p),
    ensures
        occurs_at(s, pat, a + p),
{
    assert(s.subrange(a, b).subrange(p, p + pat.len()) =~= s.subrange(a + p, a + p + pat.len()));
}

/// With no occurrence of `sep`, splitting gives back the whole text as its one piece.
pub proof fn lemma_split_absent(s: Seq<char>, sep: Seq<char>)
    requires
        sep.len() > 0,
        !occurs_in(s, sep),
    ensures
        split(s, sep) == seq![s],
{
    lemma_find_from_absent(s, sep, 0);
    assert(s.subrange(0, s.len() as int) =~= s);
}

/// The last piece holds no occurrence of `sep`.
pub proof fn lemma_last_piece_free(s: Seq<char>, sep: Seq<char>, start: int)
    requires
        sep.len() > 0,
        0 <= start <= s.len(),
    ensures
        pieces_from(s, sep, start).len() >= 1,
        !occurs_in(pieces_from(s, sep, start).last(), sep),
    decreases s.len() - start,
{
    lemma_pieces_nonempty(s, sep, start);
    match find_from(s, sep, start) {
        Some(i) => {
            lemma_pieces_from_step(s, sep, start, i);
            lemma_last_piece_free(s, sep, i + sep.len());
            lemma_pieces_nonempty(s, sep, i + sep.len());
        },
        None => {
            lemma_find_from_none(s, sep, start);
            let last = s.subrange(start, s.len() as int);
            assert(pieces_from(s, sep, start).last() == last);
            if occurs_in(last, sep) {
                let p = choose|p: int| #[trigger] occurs_at(last, sep, p);
                lemma_occurs_subrange(s, sep, start, s.len() as int, p);
                assert(occurs_at(s, sep, start + p));
            }
        },
    }
}

/// The first piece holds no occurrence of `sep`.
pub proof fn lemma_first_piece_free(s: Seq<char>, sep: Seq<char>)
    requires
        sep.len() > 0,
    ensures
        split(s, sep).len() >= 1,
        !occurs_in(split(s, sep)[0], sep),
        s.len() >= split(s, sep)[0].len(),
        split(s, sep)[0] == s.subrange(0, split(s, sep)[0].len() as int),
{
    lemma_pieces_nonempty(s, sep, 0);
    match find_from(s, sep, 0) {
        Some(i) => {
            lemma_pieces_from_step(s, sep, 0, i);
            lemma_find_from_some(s, sep, 0, i);
            let first = s.subrange(0, i);
            assert(split(s, sep)[0] == first);
            if occurs_in(first, sep) {
                let p = choose|p: int| #[trigger] occurs_at(first, sep, p);
                lemma_occurs_subrange(s, sep, 0, i, p);
                assert(occurs_at(s, sep, p));
            }
        },
        None => {
            lemma_find_from_none(s, sep, 0);
            assert(s.subrange(0, s.len() as int) =~= s);
            if occurs_in(s, sep) {
                let p = choose|p: int| #[trigger] occurs_at(s, sep, p);
                assert(occurs_at(s, sep, p));
            }
        },
    }
}

/// A text that holds `sep` splits into at least two pieces.
pub proof fn lemma_split_present(s: Seq<char>, sep: Seq<char>)
    requires
        sep.len() > 0,
        occurs_in(s, sep),
    ensures
        split(s, sep).len() >= 2,
{
    let p = choose|p: int| #[trigger] occurs_at(s, sep, p);
    match find_from(s, sep, 0) {
        Some(i) => {
            lemma_pieces_from_step(s, sep, 0, i);
            lemma_pieces_nonempty(s, sep, i + sep.len());
        },
        None => {
            lemma_find_from_none(s, sep, 0);
            assert(occurs_at(s, sep, p));
        },
    }
}

/// A text free of `pat` has every prefix free of it.
pub proof fn lemma_prefix_free(s: Seq<char>, pat: Seq<char>, n: int)
    requires
        0 <= n <= s.len(),
        !occurs_in(s, pat),
    ensures
        !occurs_in(s.subrange(0, n), pat),
{
    if occurs_in(s.subrange(0, n), pat) {
        let p = choose|p: int| #[trigger] occurs_at(s.subrange(0, n), pat, p);
        lemma_occurs_subrange(s, pat, 0, n, p);
        assert(occurs_at(s, pat, p));
    }
}


/// `a` followed by `b`.
pub fn cat(a: &Vec<char>, b: &Vec<char>) -> (r: Vec<char>)
    ensures
        r@ == a@ + b@,
{
    let mut r = a.clone();
    assert(r@ == a@);
    append_chars(&mut r, b);
    r
}

/// `a` followed by the characters of `b`, as a string.
pub fn cat_str(a: &str, b: &str) -> (r: String)
    ensures
        r@ == a@ + b@,
{
    string_of(&cat(&chars_of(a), &chars_of(b)))
}

/// A one-character pattern stands exactly where that character does.
pub proof fn lemma_occurs_single(s: Seq<char>, c: char, m: int)
    ensures
        occurs_at(s, seq![c], m) <==> (0 <= m < s.len() && s[m] == c),
{
    if 0 <= m < s.len() {
        if s[m] == c {
            assert(s.subrange(m, m + 1) =~= seq![c]);
        } else {
            assert(s.subrange(m, m + 1)[0] != seq![c][0]);
        }
    }
}

/// The first two pieces of `s` cut at `sep`, when there are at least two.
pub fn first_two_pieces(s: &str, sep: &str) -> (r: Option<(String, String)>)
    requires
        sep@.len() > 0,
    ensures
        r is Some <==> split(s@, sep@).len() >= 2,
        r matches Some((a, b)) ==> a@ == split(s@, sep@)[0] && b@ == split(s@, sep@)[1],
{
    let pieces = split_all(&chars_of(s), &chars_of(sep));
    if pieces.len() >= 2 {
        Some((string_of(&pieces[0]), string_of(&pieces[1])))
    } else {
        None
    }
}

/// Whether the string holds `pat` (`str::contains` with a non-empty pattern).
pub fn str_contains(s: &str, pat: &str) -> (b: bool)
    requires
        pat@.len() > 0,
    ensures
        b == occurs_in(s@, pat@),
{
    contains(&chars_of(s), &chars_of(pat))
}

/// Every occurrence of `from` replaced by `to` (`str::replace` with a non-empty pattern).
pub fn str_replace(s: &str, from: &str, to: &str) -> (r: String)
    requires
        from@.len() > 0,
    ensures
        r@ == replace(s@, from@, to@),
{
    string_of(&replace_exec(&chars_of(s), &chars_of(from), &chars_of(to)))
}


/// A decimal digit.
pub open spec fn is_digit(c: char) -> bool {
    48 <= (c as u32) <= 57
}

/// The value of a decimal digit.
pub open spec fn digit_value(c: char) -> nat {
    ((c as u32) - 48) as nat
}

/// The value of a run of decimal digits.
pub open spec fn digits_value(s: Seq<char>) -> nat
    decreases s.len(),
{
    if s.len() == 0 {
        0
    } else {
        digits_value(s.drop_last()) * 10 + digit_value(s.last())
    }
}

/// Every character is a decimal digit.
pub open spec fn all_digits(s: Seq<char>) -> bool {
    forall|i: int| 0 <= i < s.len() ==> is_digit(#[trigger] s[i])
}

/// The digits of an unsigned number, less a leading `+`.
pub open spec fn unsigned_digits(s: Seq<char>) -> Seq<char> {
    if s.len() > 0 && s[0] == '+' {
        s.drop_first()
    } else {
        s
    }
}

/// The `usize` a text denotes as `str::parse` reads it: an optional `+`, then at least
/// one decimal digit and nothing else, of a value that fits.
pub open spec fn parse_usize_spec(s: Seq<char>) -> Option<nat> {
    let d = unsigned_digits(s);
    if d.len() > 0 && all_digits(d) && digits_value(d) <= usize::MAX {
        Some(digits_value(d))
    } else {
        None
    }
}

proof fn lemma_digits_value_prefix(s: Seq<char>, j: int)
    requires
        0 <= j <= s.len(),
    ensures
        digits_value(s.take(j)) <= digits_value(s),
    decreases s.len(),
{
    if j < s.len() {
        assert(s.drop_last().take(j) =~= s.take(j));
        lemma_digits_value_prefix(s.drop_last(), j);
    } else {
        assert(s.take(j) =~= s);
    }
}

/// Reads an unsigned number (what `str::parse::<usize>` accepts).
pub fn parse_usize(s: &str) -> (r: Option<usize>)
    ensures
        match r {
            Some(v) => parse_usize_spec(s@) == Some(v as nat),
            None => parse_usize_spec(s@) is None,
        },
{
    let c = chars_of(s);
    let start: usize = if c.len() > 0 && c[0] == '+' {
        1
    } else {
        0
    };
    let ghost d = unsigned_digits(s@);
    assert(d =~= c@.subrange(start as int, c@.len() as int));
    if start == c.len() {
        return None;
    }
    let mut value: usize = 0;
    let mut i: usize = start;
    while i < c.len()
        invariant
            start <= i <= c.len(),
            d == c@.subrange(start as int, c@.len() as int),
            d == unsigned_digits(s@),
            all_digits(d.take(i - start)),
            value as nat == digits_value(d.take(i - start)),
        decreases c.len() - i,
    {
        let ch = c[i];
        let k = i - start;
        assert(d[k as int] == ch);
        let code: u32 = ch as u32;
        if !(48 <= code && code <= 57) {
            assert(!is_digit(d[k as int]));
            return None;
        }
        let digit: usize = (code - 48) as usize;
        assert(d.take(k + 1).drop_last() =~= d.take(k as int));
        match value.checked_mul(10) {
            Some(m) => match m.checked_add(digit) {
                Some(v) => {
                    value = v;
                },
                None => {
                    proof {
                        lemma_digits_value_prefix(d, k + 1);
                    }
                    return None;
                },
            },
            None => {
                proof {
                    lemma_digits_value_prefix(d, k + 1);
                }
                return None;
            },
        }
        i = i + 1;
        assert(all_digits(d.take(i - start)));
    }
    assert(d.take(c.len() - start) =~= d);
    Some(value)
}

/// Writing a number in decimal gives digits only, of its value, with no leading zero
/// (but for zero itself).
pub proof fn lemma_decimal_digits(n: nat)
    ensures
        decimal(n).len() > 0,
        all_digits(decimal(n)),
        digits_value(decimal(n)) == n,
        decimal(n)[0] != '+',
        n > 0 ==> decimal(n)[0] != '0',
    decreases n,
{
    if n < 10 {
        assert(digits_value(decimal(n)) == digits_value(decimal(n).drop_last()) * 10 + digit_value(decimal(n).last()));
        assert(decimal(n).drop_last() =~= Seq::<char>::empty());
    } else {
        lemma_decimal_digits(n / 10);
        let d = decimal(n);
        assert(d.drop_last() =~= decimal(n / 10));
        assert(n == (n / 10) * 10 + n % 10);
    }
}

/// A number written in decimal reads back as itself.
pub proof fn lemma_parse_decimal_round_trip(n: nat)
    requires
        n <= usize::MAX,
    ensures
        parse_usize_spec(decimal(n)) == Some(n),
{
    lemma_decimal_digits(n);
}


/// Joining at least two parts: the first part, the separator, then the rest joined.
pub proof fn lemma_join_front(parts: Seq<Seq<char>>, sep: Seq<char>)
    requires
        parts.len() >= 2,
    ensures
        join(parts, sep) == parts[0] + sep + join(parts.drop_first(), sep),
    decreases parts.len(),
{
    let df = parts.drop_first();
    let dl = parts.drop_last();
    if parts.len() == 2 {
        assert(join(dl, sep) == dl[0]);
        assert(join(df, sep) == df[0]);
        assert(join(parts, sep) == join(dl, sep) + sep + parts.last());
    } else {
        lemma_join_front(dl, sep);
        assert(dl.drop_first() =~= df.drop_last());
        assert(df.last() == parts.last());
        assert(join(df, sep) == join(df.drop_last(), sep) + sep + df.last());
        assert(join(parts, sep) == join(dl, sep) + sep + parts.last());
        assert(join(parts, sep) =~= parts[0] + sep + join(df, sep));
    }
}

proof fn lemma_pieces_of_join(s: Seq<char>, c: char, k: int, parts: Seq<Seq<char>>)
    requires
        parts.len() >= 1,
        0 <= k <= s.len(),
        s.subrange(k, s.len() as int) == join(parts, seq![c]),
        forall|i: int| 0 <= i < parts.len() ==> !occurs_in(#[trigger] parts[i], seq![c]),
    ensures
        pieces_from(s, seq![c], k) == parts,
    decreases parts.len(),
{
    let sep = seq![c];
    let p0 = parts[0];
    let n0 = p0.len() as int;
    assert(!occurs_in(parts[0], sep));
    if parts.len() == 1 {
        assert forall|m: int| k <= m implies !#[trigger] occurs_at(s, sep, m) by {
            lemma_occurs_single(s, c, m);
            if k <= m < s.len() {
                assert(s[m] == p0[m - k]);
                lemma_occurs_single(p0, c, m - k);
            }
        }
        lemma_find_from_absent(s, sep, k);
        assert(s.subrange(k, s.len() as int) == p0);
    } else {
        lemma_join_front(parts, sep);
        let rest = join(parts.drop_first(), sep);
        assert(s.subrange(k, s.len() as int) == p0 + sep + rest);
        assert(s[k + n0] == (p0 + sep + rest)[n0]);
        lemma_occurs_single(s, c, k + n0);
        assert forall|m: int| k <= m < k + n0 implies !#[trigger] occurs_at(s, sep, m) by {
            lemma_occurs_single(s, c, m);
            assert(s[m] == (p0 + sep + rest)[m - k]);
            assert(s[m] == p0[m - k]);
            lemma_occurs_single(p0, c, m - k);
        }
        lemma_find_from_at(s, sep, k, k + n0);
        lemma_pieces_from_step(s, sep, k, k + n0);
        assert(s.subrange(k, k + n0) =~= p0) by {
            assert forall|m: int| 0 <= m < n0 implies s.subrange(k, k + n0)[m] == p0[m] by {
                assert(s[k + m] == (p0 + sep + rest)[m]);
            }
        }
        assert(s.subrange(k + n0 + 1, s.len() as int) =~= rest) by {
            assert forall|m: int| 0 <= m < rest.len() implies s.subrange(k + n0 + 1, s.len() as int)[m] == rest[m] by {
                assert(s[k + n0 + 1 + m] == (p0 + sep + rest)[n0 + 1 + m]);
            }
        }
        assert forall|i: int| 0 <= i < parts.drop_first().len() implies !occurs_in(#[trigger] parts.drop_first()[i], sep) by {
            assert(parts.drop_first()[i] == parts[i + 1]);
        }
        lemma_pieces_of_join(s, c, k + n0 + 1, parts.drop_first());
        assert(seq![p0] + parts.drop_first() =~= parts);
    }
}

/// Splitting what was joined at a one-character separator gives back the parts, when
/// none of them holds that character.
pub proof fn lemma_split_join(parts: Seq<Seq<char>>, c: char)
    requires
        parts.len() >= 1,
        forall|i: int| 0 <= i < parts.len() ==> !occurs_in(#[trigger] parts[i], seq![c]),
    ensures
        split(join(parts, seq![c]), seq![c]) == parts,
{
    let s = join(parts, seq![c]);
    assert(s.subrange(0, s.len() as int) =~= s);
    lemma_pieces_of_join(s, c, 0, parts);
}

} // verus!
