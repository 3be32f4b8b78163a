//! Text as sequences of characters: the conversions, searches and
//! decimal numbers that the rest of the library builds its messages from.

use vstd::prelude::*;

verus! {

/// `String::push` of the standard library appends one character.
pub assume_specification[ String::push ](s: &mut String, ch: char)
    ensures
        final(s)@ == old(s)@.push(ch),
;

/// The characters of `s`, in order.
pub fn chars_of(s: &str) -> (chars: Vec<char>)
    ensures
        chars@ == s@,
{
    let mut chars: Vec<char> = Vec::new();
    for c in it: s.chars()
        invariant
            it.seq() == s@,
            chars@ == s@.take(it.index()),
    {
        proof {
            assert(s@.take(it.index() + 1) == s@.take(it.index()).push(s@[it.index()]));
        }
        chars.push(c);
    }
    proof {
        assert(s@.take(s@.len() as int) == s@);
    }
    chars
}

/// The text made of `chars`, in order.
pub fn string_of(chars: &[char]) -> (s: String)
    ensures
        s@ == chars@,
{
    let mut s = String::new();
    let mut i: usize = 0;
    while i < chars.len()
        invariant
            i <= chars@.len(),
            s@ == chars@.take(i as int),
        decreases chars@.len() - i,
    {
        proof {
            assert(chars@.take(i + 1) == chars@.take(i as int).push(chars@[i as int]));
        }
        s.push(chars[i]);
        i += 1;
    }
    proof {
        assert(chars@.take(i as int) == chars@);
    }
    s
}

/// The decimal digit `d`.
pub open spec fn digit_char(d: nat) -> char {
    ('0' as nat + d) as char
}

/// `n` in decimal, without leading zeros.
pub open spec fn decimal(n: nat) -> Seq<char>
    decreases n,
{
    if n < 10 {
        seq![digit_char(n)]
    } else {
        decimal(n / 10).push(digit_char(n % 10))
    }
}

/// Appends `n` in decimal to `out`.
pub fn push_decimal(out: &mut String, n: u64)
    ensures
        final(out)@ == old(out)@ + decimal(n as nat),
    decreases n,
{
    if n >= 10 {
        push_decimal(out, n / 10);
    }
    let d: u8 = (n % 10) as u8;
    let c: char = (48u8 + d) as char;
    out.push(c);
    proof {
        assert(c == digit_char((n % 10) as nat));
        assert(out@ == old(out)@ + decimal(n as nat));
    }
}

/// `n` in decimal.
pub fn decimal_string(n: u64) -> (s: String)
    ensures
        s@ == decimal(n as nat),
{
    let mut s = String::new();
    push_decimal(&mut s, n);
    proof {
        assert(s@ == decimal(n as nat));
    }
    s
}

/// Whether Unicode counts `c` as white space.
pub open spec fn is_white_space(c: char) -> bool {
    let v = c as u32;
    ||| 0x9 <= v <= 0xD
    ||| v == 0x20
    ||| v == 0x85
    ||| v == 0xA0
    ||| v == 0x1680
    ||| 0x2000 <= v <= 0x200A
    ||| v == 0x2028
    ||| v == 0x2029
    ||| v == 0x202F
    ||| v == 0x205F
    ||| v == 0x3000
}

/// Whether Unicode counts `c` as white space.
pub fn white_space(c: char) -> (b: bool)
    ensures
        b == is_white_space(c),
{
    let v: u32 = c as u32;
    (0x9 <= v && v <= 0xD) || v == 0x20 || v == 0x85 || v == 0xA0 || v == 0x1680 || (0x2000 <= v && v
        <= 0x200A) || v == 0x2028 || v == 0x2029 || v == 0x202F || v == 0x205F || v == 0x3000
}

/// `s` without the white space in front of it.
pub open spec fn trim_start(s: Seq<char>) -> Seq<char>
    decreases s.len(),
{
    if s.len() > 0 && is_white_space(s.first()) {
        trim_start(s.drop_first())
    } else {
        s
    }
}

/// `s` without the white space behind it.
pub open spec fn trim_end(s: Seq<char>) -> Seq<char>
    decreases s.len(),
{
    if s.len() > 0 && is_white_space(s.last()) {
        trim_end(s.drop_last())
    } else {
        s
    }
}

/// `s` without the white space around it.
pub open spec fn trim(s: Seq<char>) -> Seq<char> {
    trim_end(trim_start(s))
}

/// The part of `s` that is left when the white space around it is taken away.
pub fn trimmed(s: &[char]) -> (t: &[char])
    ensures
        t@ == trim(s@),
{
    let mut lo: usize = 0;
    proof {
        assert(s@.skip(0) == s@);
    }
    while lo < s.len() && white_space(s[lo])
        invariant
            lo <= s@.len(),
            trim_start(s@.skip(lo as int)) == trim_start(s@),
        decreases s@.len() - lo,
    {
        proof {
            assert(s@.skip(lo as int).drop_first() == s@.skip(lo + 1));
        }
        lo += 1;
    }
    let mut hi: usize = s.len();
    let ghost kept = s@.skip(lo as int);
    proof {
        assert(trim_start(s@) == kept);
        assert(s@.subrange(lo as int, hi as int) == kept);
    }
    while lo < hi && white_space(s[hi - 1])
        invariant
            lo <= hi <= s@.len(),
            trim_end(s@.subrange(lo as int, hi as int)) == trim_end(kept),
        decreases hi,
    {
        proof {
            assert(s@.subrange(lo as int, hi as int).drop_last() == s@.subrange(
                lo as int,
                hi - 1,
            ));
        }
        hi -= 1;
    }
    vstd::slice::slice_subrange(s, lo, hi)
}

/// Whether `pat` stands in `s` at position `i`.
pub open spec fn matches_at(s: Seq<char>, pat: Seq<char>, i: int) -> bool {
    0 <= i && i + pat.len() <= s.len() && s.subrange(i, i + pat.len()) == pat
}

/// Whether `pat` stands in `s` at position `i`.
pub fn text_at(s: &[char], pat: &[char], i: usize) -> (b: bool)
    ensures
        b == matches_at(s@, pat@, i as int),
{
    if i > s.len() || pat.len() > s.len() - i {
        return false;
    }
    let n: usize = s.len();
    let mut k: usize = 0;
    while k < pat.len()
        invariant
            n == s@.len(),
            k <= pat@.len(),
            i + pat@.len() <= n,
            forall|j: int| 0 <= j < k ==> s@[i + j] == pat@[j],
        decreases pat@.len() - k,
    {
        if s[i + k] != pat[k] {
            proof {
                assert(s@.subrange(i as int, i + pat@.len())[k as int] != pat@[k as int]);
            }
            return false;
        }
        k += 1;
    }
    proof {
        assert(s@.subrange(i as int, i + pat@.len()) == pat@);
    }
    true
}

/// `at` is the first position from `from` on at which `pat` stands in `s`.
pub open spec fn is_first_match(s: Seq<char>, pat: Seq<char>, from: int, at: int) -> bool {
    &&& from <= at
    &&& matches_at(s, pat, at)
    &&& forall|j: int| from <= j < at ==> !#[trigger] matches_at(s, pat, j)
}

/// Whether `pat` stands somewhere in `s`, at `from` or behind it.
pub open spec fn has_match(s: Seq<char>, pat: Seq<char>, from: int) -> bool {
    exists|j: int| from <= j && #[trigger] matches_at(s, pat, j)
}

/// The first position from `from` on at which `pat` stands in `s`.
pub fn find_from(s: &[char], pat: &[char], from: usize) -> (at: Option<usize>)
    requires
        from <= s@.len(),
    ensures
        at matches Some(i) ==> is_first_match(s@, pat@, from as int, i as int),
        at is None ==> !has_match(s@, pat@, from as int),
{
    let mut i: usize = from;
    loop
        invariant
            from <= i <= s@.len(),
            forall|j: int| from <= j < i ==> !#[trigger] matches_at(s@, pat@, j),
        decreases s@.len() - i,
    {
        if text_at(s, pat, i) {
            return Some(i);
        }
        if i == s.len() {
            return None;
        }
        i += 1;
    }
}

/// The pieces of `s` between its occurrences of `sep`, empty ones among them.
pub open spec fn pieces(s: Seq<char>, sep: char) -> Seq<Seq<char>>
    decreases s.len(),
{
    if s.len() == 0 {
        seq![Seq::empty()]
    } else {
        let before = pieces(s.drop_last(), sep);
        if s.last() == sep {
            before.push(Seq::empty())
        } else {
            before.drop_last().push(before.last().push(s.last()))
        }
    }
}

/// The texts that `rows` hold.
pub open spec fn rows_view(rows: Seq<Vec<char>>) -> Seq<Seq<char>> {
    rows.map_values(|row: Vec<char>| row@)
}

/// The texts that `texts` hold.
pub open spec fn texts_view(texts: Seq<String>) -> Seq<Seq<char>> {
    texts.map_values(|text: String| text@)
}

/// The pieces of `s` between its occurrences of `sep`, empty ones among them.
pub fn split_at_char(s: &[char], sep: char) -> (rows: Vec<Vec<char>>)
    ensures
        rows_view(rows@) == pieces(s@, sep),
{
    let mut done: Vec<Vec<char>> = Vec::new();
    let mut current: Vec<char> = Vec::new();
    let mut i: usize = 0;
    proof {
        assert(rows_view(done@).push(current@) == pieces(s@.take(0), sep));
    }
    while i < s.len()
        invariant
            i <= s@.len(),
            rows_view(done@).push(current@) == pieces(s@.take(i as int), sep),
        decreases s@.len() - i,
    {
        let c: char = s[i];
        let ghost before = rows_view(done@).push(current@);
        proof {
            assert(s@.take(i + 1).drop_last() == s@.take(i as int));
            assert(s@.take(i + 1).last() == c);
            assert(before.drop_last() == rows_view(done@));
            assert(before.last() == current@);
        }
        if c == sep {
            done.push(current);
            current = Vec::new();
            proof {
                assert(rows_view(done@) == before);
                assert(current@ == Seq::<char>::empty());
            }
        } else {
            current.push(c);
        }
        i += 1;
    }
    let ghost before = rows_view(done@).push(current@);
    done.push(current);
    proof {
        assert(s@.take(i as int) == s@);
        assert(rows_view(done@) == before);
    }
    done
}

/// No piece holds the separator.
pub proof fn pieces_hold_no_separator(s: Seq<char>, sep: char)
    ensures
        pieces(s, sep).len() > 0,
        forall|k: int|
            0 <= k < pieces(s, sep).len() ==> !(#[trigger] pieces(s, sep)[k]).contains(sep),
    decreases s.len(),
{
    if s.len() > 0 {
        let before = pieces(s.drop_last(), sep);
        let all = pieces(s, sep);
        pieces_hold_no_separator(s.drop_last(), sep);
        assert forall|k: int| 0 <= k < all.len() implies !(#[trigger] all[k]).contains(sep) by {
            if s.last() == sep {
                if k < before.len() {
                    assert(all[k] == before[k]);
                }
            } else if k < before.len() - 1 {
                assert(all[k] == before[k]);
            } else {
                assert(!before[before.len() - 1].contains(sep));
                let row = all[k];
                assert(row == before.last().push(s.last()));
                if row.contains(sep) {
                    let j = choose|j: int| 0 <= j < row.len() && row[j] == sep;
                    assert(before.last()[j] == sep);
                }
            }
        }
    }
}

/// A text without the separator is its only piece.
pub proof fn only_piece(t: Seq<char>, sep: char)
    requires
        !t.contains(sep),
    ensures
        pieces(t, sep) == seq![t],
    decreases t.len(),
{
    if t.len() == 0 {
        assert(t == Seq::<char>::empty());
    } else {
        let init = t.drop_last();
        assert(t[t.len() - 1] == t.last());
        assert forall|k: int| 0 <= k < init.len() implies init[k] != sep by {
            assert(t[k] != sep);
        }
        only_piece(init, sep);
        assert(pieces(init, sep).drop_last() == Seq::<Seq<char>>::empty());
        assert(init.push(t.last()) == t);
        assert(pieces(t, sep) == seq![t]);
    }
}

/// `rows` one after the other, with `sep` between them.
pub open spec fn with_between(rows: Seq<Seq<char>>, sep: char) -> Seq<char>
    decreases rows.len(),
{
    if rows.len() == 0 {
        Seq::empty()
    } else if rows.len() == 1 {
        rows[0]
    } else {
        with_between(rows.drop_last(), sep) + seq![sep] + rows.last()
    }
}

/// The pieces of a text make it up again, with the separator between them.
pub proof fn the_pieces_make_up_the_text(s: Seq<char>, sep: char)
    ensures
        pieces(s, sep).len() > 0,
        with_between(pieces(s, sep), sep) == s,
    decreases s.len(),
{
    let all = pieces(s, sep);
    if s.len() > 0 {
        let before = pieces(s.drop_last(), sep);
        the_pieces_make_up_the_text(s.drop_last(), sep);
        assert(s == s.drop_last().push(s.last()));
        if s.last() == sep {
            assert(all.drop_last() == before);
            assert(with_between(all, sep) == with_between(before, sep) + seq![sep]
                + Seq::<char>::empty());
            assert(with_between(all, sep) == s);
        } else {
            assert(all.drop_last() == before.drop_last());
            assert(all.last() == before.last().push(s.last()));
            if all.len() > 1 {
                assert(with_between(all, sep) == with_between(before.drop_last(), sep) + seq![sep]
                    + before.last().push(s.last()));
            }
            assert(with_between(all, sep) == s);
        }
    } else {
        assert(with_between(all, sep) == s);
    }
}

/// What stands behind the last separator of a text is its last piece, and what stands
/// before it has the other pieces.
pub proof fn the_last_piece_stands_last(s: Seq<char>, t: Seq<char>, sep: char)
    requires
        !t.contains(sep),
    ensures
        pieces(s + seq![sep] + t, sep) == pieces(s, sep).push(t),
    decreases t.len(),
{
    let whole = s + seq![sep] + t;
    if t.len() == 0 {
        assert(whole.drop_last() == s);
        assert(whole.last() == sep);
        assert(t == Seq::<char>::empty());
    } else {
        let init = t.drop_last();
        assert(t[t.len() - 1] == t.last());
        assert forall|k: int| 0 <= k < init.len() implies init[k] != sep by {
            assert(t[k] != sep);
        }
        the_last_piece_stands_last(s, init, sep);
        assert(whole.drop_last() == s + seq![sep] + init);
        assert(whole.last() == t.last());
        let before = pieces(whole.drop_last(), sep);
        assert(before.drop_last() == pieces(s, sep));
        assert(before.last().push(t.last()) == t);
    }
}

/// The characters of `s` from `i` up to `j` are all white space.
pub open spec fn is_blank(s: Seq<char>, i: int, j: int) -> bool {
    forall|k: int| i <= k < j ==> is_white_space(#[trigger] s[k])
}

/// Trimming takes white space away in front and behind, nothing else, and all of it:
/// what is left neither begins nor ends with white space.
pub proof fn trimming_takes_white_space_alone(s: Seq<char>) -> (r: (int, int))
    ensures
        0 <= r.0 <= r.1 <= s.len(),
        trim(s) == s.subrange(r.0, r.1),
        is_blank(s, 0, r.0),
        is_blank(s, r.1, s.len() as int),
        trim(s).len() > 0 ==> !is_white_space(trim(s).first()) && !is_white_space(trim(s).last()),
{
    let lo = blank_in_front(s);
    let kept = s.skip(lo);
    let n = blank_behind(kept);
    assert(kept.take(n) == s.subrange(lo, lo + n));
    if n > 0 {
        assert(trim(s).first() == kept[0]);
    }
    assert forall|k: int| lo + n <= k < s.len() implies is_white_space(#[trigger] s[k]) by {
        assert(kept[k - lo] == s[k]);
    }
    (lo, lo + n)
}

proof fn blank_in_front(s: Seq<char>) -> (lo: int)
    ensures
        0 <= lo <= s.len(),
        trim_start(s) == s.skip(lo),
        is_blank(s, 0, lo),
        lo < s.len() ==> !is_white_space(s[lo]),
    decreases s.len(),
{
    if s.len() > 0 && is_white_space(s.first()) {
        let lo = blank_in_front(s.drop_first());
        assert(s.drop_first().skip(lo) == s.skip(lo + 1));
        assert forall|k: int| 0 <= k < lo + 1 implies is_white_space(#[trigger] s[k]) by {
            if k > 0 {
                assert(s.drop_first()[k - 1] == s[k]);
            }
        }
        lo + 1
    } else {
        assert(s.skip(0) == s);
        0
    }
}

proof fn blank_behind(s: Seq<char>) -> (hi: int)
    ensures
        0 <= hi <= s.len(),
        trim_end(s) == s.take(hi),
        is_blank(s, hi, s.len() as int),
        hi > 0 ==> !is_white_space(s[hi - 1]),
    decreases s.len(),
{
    if s.len() > 0 && is_white_space(s.last()) {
        let hi = blank_behind(s.drop_last());
        assert(s.drop_last().take(hi) == s.take(hi));
        assert forall|k: int| hi <= k < s.len() implies is_white_space(#[trigger] s[k]) by {
            if k < s.len() - 1 {
                assert(s.drop_last()[k] == s[k]);
            }
        }
        hi
    } else {
        assert(s.take(s.len() as int) == s);
        s.len() as int
    }
}

/// A text with no white space at its ends is left as it is, and white space around it
/// makes no difference to what is left.
pub proof fn white_space_around_makes_no_difference(a: Seq<char>, t: Seq<char>, b: Seq<char>)
    requires
        is_blank(a, 0, a.len() as int),
        is_blank(b, 0, b.len() as int),
        t.len() > 0 ==> !is_white_space(t.first()) && !is_white_space(t.last()),
    ensures
        trim(a + t + b) == t,
        trim(t) == t,
{
    let s = a + t + b;
    let (lo, hi) = trimming_takes_white_space_alone(s);
    let x = trim(s);
    if t.len() > 0 {
        let i = a.len() as int;
        let j = (a.len() + t.len()) as int;
        assert(s[i] == t.first());
        assert(s[j - 1] == t.last());
        assert(lo <= i && j <= hi);
        if lo < i {
            assert(x.first() == s[lo]);
            assert(a[lo] == s[lo]);
        }
        if hi > j {
            assert(x.last() == s[hi - 1]);
            assert(b[hi - 1 - j] == s[hi - 1]);
        }
        assert(x == t);
    } else if x.len() > 0 {
        assert(x.first() == s[lo]);
        if lo < a.len() {
            assert(a[lo] == s[lo]);
        } else {
            assert(b[lo - a.len()] == s[lo]);
        }
    } else {
        assert(x == t);
    }
    if t.len() > 0 {
        assert(trim_start(t) == t);
    }
}

/// The number that the digits `s` stand for.
pub open spec fn number_of(s: Seq<char>) -> nat
    decreases s.len(),
{
    if s.len() == 0 {
        0
    } else {
        (number_of(s.drop_last()) * 10 + (s.last() as nat - '0' as nat)) as nat
    }
}

/// A number in decimal is read back from its digits, and has no zero too many in front.
pub proof fn a_number_is_read_back(n: nat)
    ensures
        decimal(n).len() > 0,
        forall|i: int| 0 <= i < decimal(n).len() ==> '0' <= #[trigger] decimal(n)[i] <= '9',
        number_of(decimal(n)) == n,
        n > 0 ==> decimal(n)[0] != '0',
        n == 0 ==> decimal(n) == seq!['0'],
    decreases n,
{
    if n < 10 {
        assert(decimal(n).drop_last() == Seq::<char>::empty());
        assert(decimal(n).last() == digit_char(n));
        assert(number_of(decimal(n).drop_last()) == 0);
    } else {
        a_number_is_read_back(n / 10);
        assert(decimal(n).drop_last() == decimal(n / 10));
    }
}

/// A pattern stands at a position if and only if the characters from there on are its
/// characters, one for one.
pub proof fn a_pattern_stands_where_its_characters_do(s: Seq<char>, pat: Seq<char>, i: int)
    ensures
        matches_at(s, pat, i) <==> 0 <= i && i + pat.len() <= s.len() && forall|k: int|
            0 <= k < pat.len() ==> s[i + k] == #[trigger] pat[k],
{
    if matches_at(s, pat, i) {
        assert forall|k: int| 0 <= k < pat.len() implies s[i + k] == #[trigger] pat[k] by {
            assert(s.subrange(i, i + pat.len())[k] == pat[k]);
        }
    } else if 0 <= i && i + pat.len() <= s.len() && forall|k: int|
        0 <= k < pat.len() ==> s[i + k] == #[trigger] pat[k] {
        assert(s.subrange(i, i + pat.len()) == pat);
    }
}

/// A pattern is found in a text that holds it anywhere, and the first place it is found at
/// is the first there is.
pub proof fn a_pattern_that_is_there_is_found(a: Seq<char>, pat: Seq<char>, b: Seq<char>)
    ensures
        has_match(a + pat + b, pat, 0),
        forall|i: int, j: int|
            is_first_match(a + pat + b, pat, 0, i) && 0 <= j && matches_at(a + pat + b, pat, j)
                ==> i <= j,
        forall|i: int| is_first_match(a + pat + b, pat, 0, i) ==> i <= a.len(),
{
    let s = a + pat + b;
    let at = a.len() as int;
    assert(s.subrange(at, at + pat.len()) == pat);
    assert(matches_at(s, pat, at));
}

/// Rows and texts are seen as they are, each in its place.
pub proof fn texts_are_seen_as_they_are(rows: Seq<Vec<char>>, texts: Seq<String>)
    ensures
        rows_view(rows).len() == rows.len(),
        texts_view(texts).len() == texts.len(),
        forall|i: int| 0 <= i < rows.len() ==> #[trigger] rows_view(rows)[i] == rows[i]@,
        forall|i: int| 0 <= i < texts.len() ==> #[trigger] texts_view(texts)[i] == texts[i]@,
{
}

/// White space is what Unicode calls by that name.
pub proof fn white_space_is_known_by_its_number(c: char)
    ensures
        is_white_space(c) <==> ({
            let n = c as u32;
            ||| 9 <= n <= 13
            ||| n == 32
            ||| n == 133
            ||| n == 160
            ||| n == 5760
            ||| 8192 <= n <= 8202
            ||| n == 8232
            ||| n == 8233
            ||| n == 8239
            ||| n == 8287
            ||| n == 12288
        }),
{
}

} // verus!
