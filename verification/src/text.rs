//! Character-level helpers shared by the parsers and formatters.
//!
//! Text is handled as sequences of `char`: a `&str` is turned into a
//! `Vec<char>` once, worked on with indices, and turned back into a `String`.

use vstd::prelude::*;
use vstd::std_specs::iter::IteratorSpec;

verus! {

broadcast use vstd::string::group_string_axioms;

/// The characters of a string slice, in order.
pub fn chars_of(s: &str) -> (out: Vec<char>)
    ensures
        out@ == s@,
{
    let mut out: Vec<char> = Vec::new();
    for c in it: s.chars()
        invariant
            out@ == it.seq().take(it.index() as int),
            it.seq() == s@,
    {
        out.push(c);
    }
    out
}

/// Appends one character to a string (`String::push`).
#[verifier::external_body]
pub(crate) fn push_char(s: &mut String, c: char)
    ensures
        final(s)@ == old(s)@.push(c),
{
    s.push(c);
}

/// A string holding exactly these characters.
pub fn string_of(cs: &[char]) -> (s: String)
    ensures
        s@ == cs@,
{
    let mut s = String::new();
    let mut i: usize = 0;
    while i < cs.len()
        invariant
            i <= cs@.len(),
            s@ == cs@.take(i as int),
        decreases cs@.len() - i,
    {
        push_char(&mut s, cs[i]);
        assert(cs@.take(i + 1) == cs@.take(i as int).push(cs@[i as int]));
        i += 1;
    }
    assert(cs@.take(cs@.len() as int) == cs@);
    s
}

/// Appends a sequence of characters.
pub fn push_chars(s: &mut String, cs: &[char])
    ensures
        final(s)@ == old(s)@ + cs@,
{
    let mut i: usize = 0;
    while i < cs.len()
        invariant
            i <= cs@.len(),
            s@ == old(s)@ + cs@.take(i as int),
        decreases cs@.len() - i,
    {
        push_char(s, cs[i]);
        assert(cs@.take(i + 1) == cs@.take(i as int).push(cs@[i as int]));
        i += 1;
    }
    assert(cs@.take(cs@.len() as int) == cs@);
}

/// Appends a string slice.
pub fn push_str(s: &mut String, t: &str)
    ensures
        final(s)@ == old(s)@ + t@,
{
    let cs = chars_of(t);
    push_chars(s, cs.as_slice());
}

/// `char::is_whitespace`: the Unicode `White_Space` property.
pub open spec fn is_ws(c: char) -> bool {
    ||| ('\u{9}' <= c && c <= '\u{d}')
    ||| c == ' '
    ||| c == '\u{85}'
    ||| c == '\u{a0}'
    ||| c == '\u{1680}'
    ||| ('\u{2000}' <= c && c <= '\u{200a}')
    ||| c == '\u{2028}'
    ||| c == '\u{2029}'
    ||| c == '\u{202f}'
    ||| c == '\u{205f}'
    ||| c == '\u{3000}'
}

/// Whether a character is white space, as `char::is_whitespace` decides.
pub fn is_whitespace(c: char) -> (r: bool)
    ensures
        r == is_ws(c),
{
    ('\u{9}' <= c && c <= '\u{d}') || c == ' ' || c == '\u{85}' || c == '\u{a0}' || c
        == '\u{1680}' || ('\u{2000}' <= c && c <= '\u{200a}') || c == '\u{2028}' || c
        == '\u{2029}' || c == '\u{202f}' || c == '\u{205f}' || c == '\u{3000}'
}

/// Leading white space removed.
pub open spec fn trim_start(s: Seq<char>) -> Seq<char>
    decreases s.len(),
{
    if s.len() > 0 && is_ws(s[0]) {
        trim_start(s.drop_first())
    } else {
        s
    }
}

/// Trailing white space removed.
pub open spec fn trim_end(s: Seq<char>) -> Seq<char>
    decreases s.len(),
{
    if s.len() > 0 && is_ws(s.last()) {
        trim_end(s.drop_last())
    } else {
        s
    }
}

/// `str::trim`.
pub open spec fn trim(s: Seq<char>) -> Seq<char> {
    trim_end(trim_start(s))
}

/// Index of the first character that is not white space (or the length).
pub fn trim_start_index(s: &[char]) -> (i: usize)
    ensures
        i <= s@.len(),
        trim_start(s@) == s@.skip(i as int),
{
    let mut i: usize = 0;
    assert(s@.skip(0) == s@);
    while i < s.len() && is_whitespace(s[i])
        invariant
            i <= s@.len(),
            trim_start(s@) == trim_start(s@.skip(i as int)),
        decreases s@.len() - i,
    {
        assert(s@.skip(i as int).drop_first() == s@.skip(i + 1));
        i += 1;
    }
    i
}

/// One past the last character that is not white space (or zero).
pub fn trim_end_index(s: &[char]) -> (j: usize)
    ensures
        j <= s@.len(),
        trim_end(s@) == s@.take(j as int),
{
    let mut j: usize = s.len();
    assert(s@.take(j as int) == s@);
    while j > 0 && is_whitespace(s[j - 1])
        invariant
            j <= s@.len(),
            trim_end(s@) == trim_end(s@.take(j as int)),
        decreases j,
    {
        assert(s@.take(j as int).drop_last() == s@.take(j - 1));
        j -= 1;
    }
    j
}

/// A copy of a range of characters.
pub fn slice_to_vec(s: &[char], from: usize, to: usize) -> (r: Vec<char>)
    requires
        from <= to <= s@.len(),
    ensures
        r@ == s@.subrange(from as int, to as int),
{
    let mut r: Vec<char> = Vec::new();
    let mut i = from;
    while i < to
        invariant
            from <= i <= to <= s@.len(),
            r@ == s@.subrange(from as int, i as int),
        decreases to - i,
    {
        r.push(s[i]);
        assert(s@.subrange(from as int, i + 1) == s@.subrange(from as int, i as int).push(
            s@[i as int],
        ));
        i += 1;
    }
    r
}

/// `str::trim` over characters.
pub fn trim_chars(s: &[char]) -> (r: Vec<char>)
    ensures
        r@ == trim(s@),
{
    let i = trim_start_index(s);
    let rest = slice_to_vec(s, i, s.len());
    assert(rest@ == s@.skip(i as int));
    let j = trim_end_index(rest.as_slice());
    slice_to_vec(rest.as_slice(), 0, j)
}


/// Position of the first occurrence of `c`, or -1.
pub open spec fn first_index(s: Seq<char>, c: char) -> int
    decreases s.len(),
{
    if s.len() == 0 {
        -1
    } else if s[0] == c {
        0
    } else {
        let r = first_index(s.drop_first(), c);
        if r < 0 {
            -1
        } else {
            r + 1
        }
    }
}

pub proof fn lemma_first_index(s: Seq<char>, c: char)
    ensures
        -1 <= first_index(s, c) < s.len(),
        first_index(s, c) >= 0 ==> s[first_index(s, c)] == c,
        first_index(s, c) >= 0 ==> forall|k: int| 0 <= k < first_index(s, c) ==> s[k] != c,
        first_index(s, c) < 0 ==> forall|k: int| 0 <= k < s.len() ==> s[k] != c,
        first_index(s, c) < 0 <==> !s.contains(c),
    decreases s.len(),
{
    if s.len() > 0 {
        lemma_first_index(s.drop_first(), c);
        if first_index(s, c) > 0 {
            assert forall|k: int| 0 <= k < first_index(s, c) implies s[k] != c by {
                if k > 0 {
                    assert(s.drop_first()[k - 1] == s[k]);
                }
            }
        }
        if first_index(s, c) < 0 {
            assert forall|k: int| 0 <= k < s.len() implies s[k] != c by {
                if k > 0 {
                    assert(s.drop_first()[k - 1] == s[k]);
                }
            }
        }
        if s.contains(c) {
            let k = choose|k: int| 0 <= k < s.len() && s[k] == c;
            if k > 0 {
                assert(s.drop_first()[k - 1] == c);
            }
        }
    }
}

/// Characterises the first occurrence from its properties.
pub proof fn lemma_first_index_at(s: Seq<char>, c: char, i: int)
    requires
        0 <= i <= s.len(),
        forall|k: int| 0 <= k < i ==> s[k] != c,
        i < s.len() ==> s[i] == c,
    ensures
        first_index(s, c) == if i < s.len() { i } else { -1 },
    decreases s.len(),
{
    if s.len() > 0 && i > 0 {
        assert forall|k: int| 0 <= k < i - 1 implies s.drop_first()[k] != c by {
            assert(s.drop_first()[k] == s[k + 1]);
        }
        lemma_first_index_at(s.drop_first(), c, i - 1);
    }
}

/// `str::split(c)`: the pieces between the separators, empty ones included.
pub open spec fn split(s: Seq<char>, c: char) -> Seq<Seq<char>>
    decreases s.len(),
{
    let i = first_index(s, c);
    if i < 0 {
        seq![s]
    } else {
        proof {
            lemma_first_index(s, c);
        }
        seq![s.take(i)] + split(s.skip(i + 1), c)
    }
}

/// The character sequences held by a list of vectors.
pub open spec fn views(v: Seq<Vec<char>>) -> Seq<Seq<char>> {
    v.map_values(|x: Vec<char>| x@)
}

/// The pieces of `s` between occurrences of `sep`.
pub fn split_chars(s: &[char], sep: char) -> (parts: Vec<Vec<char>>)
    ensures
        views(parts@) == split(s@, sep),
{
    let mut parts: Vec<Vec<char>> = Vec::new();
    let mut start: usize = 0;
    let mut i: usize = 0;
    assert(s@.skip(0) == s@);
    while i < s.len()
        invariant
            start <= i <= s@.len(),
            forall|k: int| start <= k < i ==> s@[k] != sep,
            views(parts@) + split(s@.skip(start as int), sep) == split(s@, sep),
        decreases s@.len() - i,
    {
        if s[i] == sep {
            let piece = slice_to_vec(s, start, i);
            proof {
                let rest = s@.skip(start as int);
                lemma_first_index_at(rest, sep, i - start);
                assert(rest.take(i - start) == s@.subrange(start as int, i as int));
                assert(rest.skip(i - start + 1) == s@.skip(i + 1));
                assert(split(rest, sep) == seq![piece@] + split(s@.skip(i + 1), sep));
                assert(views(parts@) + split(rest, sep) == (views(parts@) + seq![piece@])
                    + split(s@.skip(i + 1), sep));
            }
            let ghost before = views(parts@);
            parts.push(piece);
            assert(views(parts@) =~= before + seq![piece@]);
            start = i + 1;
        }
        i += 1;
    }
    let piece = slice_to_vec(s, start, s.len());
    proof {
        let rest = s@.skip(start as int);
        lemma_first_index_at(rest, sep, rest.len() as int);
        assert(rest == piece@);
        assert(split(rest, sep) == seq![piece@]);
    }
    let ghost before = views(parts@);
    parts.push(piece);
    assert(views(parts@) =~= before + seq![piece@]);
    parts
}

/// Whether `s` begins with `prefix`.
pub open spec fn has_prefix(s: Seq<char>, prefix: Seq<char>) -> bool {
    prefix.len() <= s.len() && s.take(prefix.len() as int) == prefix
}

/// Whether `s` ends with `suffix`.
pub open spec fn has_suffix(s: Seq<char>, suffix: Seq<char>) -> bool {
    suffix.len() <= s.len() && s.skip(s.len() - suffix.len()) == suffix
}

/// `str::starts_with` over characters.
pub fn starts_with(s: &[char], prefix: &[char]) -> (r: bool)
    ensures
        r == has_prefix(s@, prefix@),
{
    if prefix.len() > s.len() {
        return false;
    }
    let mut i: usize = 0;
    while i < prefix.len()
        invariant
            prefix@.len() <= s@.len(),
            i <= prefix@.len(),
            forall|k: int| 0 <= k < i ==> s@[k] == prefix@[k],
        decreases prefix@.len() - i,
    {
        if s[i] != prefix[i] {
            assert(s@.take(prefix@.len() as int)[i as int] != prefix@[i as int]);
            return false;
        }
        i += 1;
    }
    assert(s@.take(prefix@.len() as int) == prefix@);
    true
}

/// `str::ends_with` over characters.
pub fn ends_with(s: &[char], suffix: &[char]) -> (r: bool)
    ensures
        r == has_suffix(s@, suffix@),
{
    if suffix.len() > s.len() {
        return false;
    }
    let off = s.len() - suffix.len();
    let mut j: usize = off;
    while j < s.len()
        invariant
            suffix@.len() <= s@.len(),
            off + suffix@.len() == s@.len(),
            off <= j <= s@.len(),
            forall|k: int| 0 <= k < j - off ==> s@[off + k] == suffix@[k],
        decreases s@.len() - j,
    {
        if s[j] != suffix[j - off] {
            assert(s@.skip(off as int)[j - off] != suffix@[j - off]);
            return false;
        }
        j += 1;
    }
    assert(s@.skip(off as int) == suffix@);
    true
}

/// Whether two character sequences are equal.
pub fn chars_eq(a: &[char], b: &[char]) -> (r: bool)
    ensures
        r == (a@ == b@),
{
    if a.len() != b.len() {
        return false;
    }
    let r = starts_with(a, b);
    assert(a@.take(b@.len() as int) == a@);
    r
}

/// Whether a character occurs.
pub fn contains_char(s: &[char], c: char) -> (r: bool)
    ensures
        r == s@.contains(c),
{
    let mut i: usize = 0;
    while i < s.len()
        invariant
            i <= s@.len(),
            forall|k: int| 0 <= k < i ==> s@[k] != c,
        decreases s@.len() - i,
    {
        if s[i] == c {
            return true;
        }
        i += 1;
    }
    false
}

/// `str::to_lowercase`: full Unicode case mapping, context included (a final
/// sigma lowers differently). It depends on the characters alone.
pub uninterp spec fn lowercase(s: Seq<char>) -> Seq<char>;

/// Calls `str::to_lowercase`.
#[verifier::external_body]
pub(crate) fn to_lowercase(s: &str) -> (r: String)
    ensures
        r@ == lowercase(s@),
{
    s.to_lowercase()
}

/// `str::to_lowercase` of a character sequence.
pub fn lowercase_chars(s: &[char]) -> (r: Vec<char>)
    ensures
        r@ == lowercase(s@),
{
    let text = string_of(s);
    let lowered = to_lowercase(text.as_str());
    chars_of(lowered.as_str())
}


// ── numbers ────────────────────────────────────────────────────────────────

/// The decimal digit for `d < 10`.
pub open spec fn digit_char(d: nat) -> char {
    if d == 0 { '0' }
    else if d == 1 { '1' }
    else if d == 2 { '2' }
    else if d == 3 { '3' }
    else if d == 4 { '4' }
    else if d == 5 { '5' }
    else if d == 6 { '6' }
    else if d == 7 { '7' }
    else if d == 8 { '8' }
    else { '9' }
}

/// The value of a decimal digit character.
pub open spec fn digit_value(c: char) -> nat {
    if c == '1' { 1 }
    else if c == '2' { 2 }
    else if c == '3' { 3 }
    else if c == '4' { 4 }
    else if c == '5' { 5 }
    else if c == '6' { 6 }
    else if c == '7' { 7 }
    else if c == '8' { 8 }
    else if c == '9' { 9 }
    else { 0 }
}

/// `char::is_ascii_digit`.
pub open spec fn is_digit(c: char) -> bool {
    '0' <= c && c <= '9'
}

/// Whether every character is a decimal digit.
pub open spec fn all_digits(s: Seq<char>) -> bool {
    forall|i: int| 0 <= i < s.len() ==> is_digit(#[trigger] s[i])
}

/// The number a string of decimal digits spells.
pub open spec fn digits_value(s: Seq<char>) -> nat
    decreases s.len(),
{
    if s.len() == 0 {
        0
    } else {
        digits_value(s.drop_last()) * 10 + digit_value(s.last())
    }
}

/// The decimal writing of a natural number, without leading zeros.
pub open spec fn decimal(n: nat) -> Seq<char>
    decreases n,
{
    if n < 10 {
        seq![digit_char(n)]
    } else {
        decimal(n / 10).push(digit_char(n % 10))
    }
}

/// The value of a digit character.
pub fn digit_of(c: char) -> (d: u64)
    requires
        is_digit(c),
    ensures
        d == digit_value(c),
        d < 10,
{
    if c == '1' { 1 }
    else if c == '2' { 2 }
    else if c == '3' { 3 }
    else if c == '4' { 4 }
    else if c == '5' { 5 }
    else if c == '6' { 6 }
    else if c == '7' { 7 }
    else if c == '8' { 8 }
    else if c == '9' { 9 }
    else { 0 }
}

/// The character of a digit.
pub fn char_of_digit(d: u64) -> (c: char)
    requires
        d < 10,
    ensures
        c == digit_char(d as nat),
{
    if d == 0 { '0' }
    else if d == 1 { '1' }
    else if d == 2 { '2' }
    else if d == 3 { '3' }
    else if d == 4 { '4' }
    else if d == 5 { '5' }
    else if d == 6 { '6' }
    else if d == 7 { '7' }
    else if d == 8 { '8' }
    else { '9' }
}

/// Decimal writing of a number.
pub fn decimal_chars(n: u64) -> (r: Vec<char>)
    ensures
        r@ == decimal(n as nat),
    decreases n,
{
    if n < 10 {
        let mut r = Vec::new();
        r.push(char_of_digit(n));
        proof {
            assert(r@ =~= seq![digit_char(n as nat)]);
        }
        r
    } else {
        let mut r = decimal_chars(n / 10);
        r.push(char_of_digit(n % 10));
        r
    }
}

/// Appends the decimal writing of a number.
pub fn push_decimal(s: &mut String, n: u64)
    ensures
        final(s)@ == old(s)@ + decimal(n as nat),
{
    let d = decimal_chars(n);
    push_chars(s, d.as_slice());
}

/// What `u64::from_str` accepts: an optional `+`, then one or more digits,
/// within range.
pub open spec fn parse_u64_spec(s: Seq<char>) -> Option<u64> {
    let d = if has_prefix(s, seq!['+']) {
        s.skip(1)
    } else {
        s
    };
    if d.len() > 0 && all_digits(d) && digits_value(d) <= u64::MAX {
        Some(digits_value(d) as u64)
    } else {
        None
    }
}

/// The value of a run of digits, or `None` past `u64::MAX`.
pub fn digits_to_u64(d: &[char]) -> (r: Option<u64>)
    requires
        all_digits(d@),
    ensures
        r matches Some(v) ==> v == digits_value(d@),
        r is None ==> digits_value(d@) > u64::MAX,
{
    let mut value: u64 = 0;
    let mut i: usize = 0;
    while i < d.len()
        invariant
            i <= d@.len(),
            all_digits(d@),
            value == digits_value(d@.take(i as int)),
        decreases d@.len() - i,
    {
        assert(d@.take(i + 1).drop_last() == d@.take(i as int));
        assert(is_digit(d@[i as int]));
        let digit = digit_of(d[i]);
        if value > (u64::MAX - digit) / 10 {
            proof {
                lemma_digits_value_prefix(d@, i + 1);
            }
            return None;
        }
        value = value * 10 + digit;
        i += 1;
    }
    assert(d@.take(d@.len() as int) == d@);
    Some(value)
}

/// A longer run of digits is worth at least as much as its prefix.
pub proof fn lemma_digits_value_prefix(s: Seq<char>, k: int)
    requires
        0 <= k <= s.len(),
    ensures
        digits_value(s) >= digits_value(s.take(k)),
    decreases s.len() - k,
{
    if k < s.len() {
        lemma_digits_value_prefix(s, k + 1);
        assert(s.take(k + 1).drop_last() == s.take(k));
    } else {
        assert(s.take(k) == s);
    }
}

/// `u64::from_str` over characters.
pub fn parse_u64(s: &[char]) -> (r: Option<u64>)
    ensures
        r == parse_u64_spec(s@),
{
    let plus = vec!['+'];
    assert(plus@ == seq!['+']);
    let start: usize = if starts_with(s, plus.as_slice()) {
        1
    } else {
        0
    };
    assert(start == 0 ==> s@.skip(0) == s@);
    if start >= s.len() {
        return None;
    }
    let ghost d = s@.skip(start as int);
    assert(parse_u64_spec(s@) == (if d.len() > 0 && all_digits(d) && digits_value(d) <= u64::MAX {
        Some(digits_value(d) as u64)
    } else {
        None
    }));
    let mut i = start;
    while i < s.len()
        invariant
            start <= i <= s@.len(),
            d == s@.skip(start as int),
            parse_u64_spec(s@) == (if d.len() > 0 && all_digits(d) && digits_value(d) <= u64::MAX {
                Some(digits_value(d) as u64)
            } else {
                None
            }),
            forall|k: int| start <= k < i ==> is_digit(#[trigger] s@[k]),
        decreases s@.len() - i,
    {
        if !('0' <= s[i] && s[i] <= '9') {
            assert(!is_digit(s@.skip(start as int)[i - start]));
            return None;
        }
        i += 1;
    }
    let d = slice_to_vec(s, start, s.len());
    assert(d@ == s@.skip(start as int));
    digits_to_u64(d.as_slice())
}


// ── lines ──────────────────────────────────────────────────────────────────

/// A line without the `\r` of a `\r\n` ending.
pub open spec fn strip_cr(s: Seq<char>) -> Seq<char> {
    if s.len() > 0 && s.last() == '\r' {
        s.drop_last()
    } else {
        s
    }
}

/// `str::lines`: pieces between `\n`, each without a trailing `\r`, and no
/// empty piece after a final line ending.
pub open spec fn lines(s: Seq<char>) -> Seq<Seq<char>> {
    let parts = split(s, '\n');
    let body = parts.drop_last().map_values(|l: Seq<char>| strip_cr(l));
    if parts.last().len() == 0 {
        body
    } else {
        body.push(parts.last())
    }
}

pub proof fn lemma_split_nonempty(s: Seq<char>, c: char)
    ensures
        split(s, c).len() > 0,
    decreases s.len(),
{
    lemma_first_index(s, c);
    if first_index(s, c) >= 0 {
        lemma_split_nonempty(s.skip(first_index(s, c) + 1), c);
    }
}

/// The lines of a text.
pub fn lines_of(s: &[char]) -> (r: Vec<Vec<char>>)
    ensures
        views(r@) == lines(s@),
{
    let parts = split_chars(s, '\n');
    proof {
        lemma_split_nonempty(s@, '\n');
    }
    let n = parts.len();
    let mut r: Vec<Vec<char>> = Vec::new();
    let mut i: usize = 0;
    while i + 1 < n
        invariant
            n == parts@.len(),
            n > 0,
            i < n,
            views(parts@) == split(s@, '\n'),
            views(r@) == split(s@, '\n').take(i as int).map_values(|l: Seq<char>| strip_cr(l)),
        decreases n - i,
    {
        let piece = &parts[i];
        let stripped = if piece.len() > 0 && piece[piece.len() - 1] == '\r' {
            slice_to_vec(piece.as_slice(), 0, piece.len() - 1)
        } else {
            piece.clone()
        };
        proof {
            assert(piece@ == split(s@, '\n')[i as int]);
            if piece@.len() > 0 && piece@.last() == '\r' {
                assert(stripped@ == piece@.drop_last());
            }
            assert(stripped@ == strip_cr(piece@));
        }
        let ghost before = views(r@);
        r.push(stripped);
        assert(views(r@) =~= before.push(stripped@));
        assert(split(s@, '\n').take(i + 1).map_values(|l: Seq<char>| strip_cr(l)) =~= split(
            s@,
            '\n',
        ).take(i as int).map_values(|l: Seq<char>| strip_cr(l)).push(strip_cr(piece@)));
        i += 1;
    }
    assert(split(s@, '\n').take(i as int) == split(s@, '\n').drop_last());
    let last = &parts[n - 1];
    assert(last@ == split(s@, '\n').last());
    if last.len() > 0 {
        let ghost before = views(r@);
        r.push(last.clone());
        assert(views(r@) =~= before.push(last@));
    }
    r
}


/// `char::is_ascii_alphanumeric`.
pub open spec fn is_ascii_alnum(c: char) -> bool {
    ('0' <= c && c <= '9') || ('a' <= c && c <= 'z') || ('A' <= c && c <= 'Z')
}

/// `str::eq_ignore_ascii_case`.
pub open spec fn eq_ignore_ascii_case(a: Seq<char>, b: Seq<char>) -> bool {
    a.len() == b.len() && forall|i: int| 0 <= i < a.len() ==> ascii_fold(#[trigger] a[i]) == ascii_fold(b[i])
}

/// ASCII letters lowered, everything else kept.
pub open spec fn ascii_fold(c: char) -> char {
    if 'A' <= c && c <= 'Z' {
        ((c as u8) + 32) as char
    } else {
        c
    }
}

pub fn fold_char(c: char) -> (r: char)
    ensures
        r == ascii_fold(c),
{
    if 'A' <= c && c <= 'Z' {
        ((c as u8) + 32) as char
    } else {
        c
    }
}

/// Compares two texts ignoring ASCII case.
pub fn eq_ascii_case(a: &[char], b: &[char]) -> (r: bool)
    ensures
        r == eq_ignore_ascii_case(a@, b@),
{
    if a.len() != b.len() {
        return false;
    }
    let mut i: usize = 0;
    while i < a.len()
        invariant
            a@.len() == b@.len(),
            i <= a@.len(),
            forall|k: int| 0 <= k < i ==> ascii_fold(#[trigger] a@[k]) == ascii_fold(b@[k]),
        decreases a@.len() - i,
    {
        if fold_char(a[i]) != fold_char(b[i]) {
            return false;
        }
        i += 1;
    }
    true
}

/// The text with every ASCII letter lowered.
pub open spec fn ascii_lowercase(s: Seq<char>) -> Seq<char> {
    s.map_values(|c: char| ascii_fold(c))
}

pub fn ascii_lowercase_chars(s: &[char]) -> (r: Vec<char>)
    ensures
        r@ == ascii_lowercase(s@),
{
    let mut r: Vec<char> = Vec::new();
    let mut i: usize = 0;
    while i < s.len()
        invariant
            i <= s@.len(),
            r@ == ascii_lowercase(s@.take(i as int)),
        decreases s@.len() - i,
    {
        r.push(fold_char(s[i]));
        assert(ascii_lowercase(s@.take(i + 1)) =~= ascii_lowercase(s@.take(i as int)).push(
            ascii_fold(s@[i as int]),
        ));
        i += 1;
    }
    assert(s@.take(s@.len() as int) == s@);
    r
}

/// The leading run of non-white-space characters.
pub open spec fn first_word_len(s: Seq<char>) -> int
    decreases s.len(),
{
    if s.len() == 0 || is_ws(s[0]) {
        0
    } else {
        1 + first_word_len(s.drop_first())
    }
}

pub fn first_word_end(s: &[char]) -> (e: usize)
    ensures
        e == first_word_len(s@),
        e <= s@.len(),
{
    let mut i: usize = 0;
    assert(s@.skip(0) == s@);
    while i < s.len() && !is_whitespace(s[i])
        invariant
            i <= s@.len(),
            first_word_len(s@) == i + first_word_len(s@.skip(i as int)),
        decreases s@.len() - i,
    {
        assert(s@.skip(i as int).drop_first() == s@.skip(i + 1));
        i += 1;
    }
    i
}


// ── pieces and substrings ──────────────────────────────────────────────────

/// `str::split_once(c)`: what comes before and after the first `c`.
pub open spec fn split_once(s: Seq<char>, c: char) -> Option<(Seq<char>, Seq<char>)> {
    let i = first_index(s, c);
    if i < 0 {
        None
    } else {
        Some((s.take(i), s.skip(i + 1)))
    }
}

/// Position of the first occurrence of `c`, computed.
pub fn find_char(s: &[char], c: char) -> (r: Option<usize>)
    ensures
        r is None <==> first_index(s@, c) < 0,
        r matches Some(i) ==> i as int == first_index(s@, c) && i < s@.len(),
{
    let mut i: usize = 0;
    while i < s.len()
        invariant
            i <= s@.len(),
            forall|k: int| 0 <= k < i ==> s@[k] != c,
        decreases s@.len() - i,
    {
        if s[i] == c {
            proof {
                lemma_first_index_at(s@, c, i as int);
            }
            return Some(i);
        }
        i += 1;
    }
    proof {
        lemma_first_index_at(s@, c, s@.len() as int);
    }
    None
}

/// Splits at the first `c`.
pub fn split_once_chars(s: &[char], c: char) -> (r: Option<(Vec<char>, Vec<char>)>)
    ensures
        match split_once(s@, c) {
            None => r is None,
            Some((a, b)) => r matches Some((x, y)) && x@ == a && y@ == b,
        },
{
    let n = s.len();
    proof {
        lemma_first_index(s@, c);
    }
    match find_char(s, c) {
        None => None,
        Some(i) => {
            assert(i as int == first_index(s@, c));
            let a = slice_to_vec(s, 0, i);
            let b = slice_to_vec(s, i + 1, n);
            assert(a@ == s@.take(i as int));
            assert(b@ == s@.skip(i + 1));
            Some((a, b))
        },
    }
}

/// Position of the first occurrence of `pat`, or -1 (0 for an empty `pat`).
pub open spec fn find_sub(s: Seq<char>, pat: Seq<char>) -> int
    decreases s.len(),
{
    if has_prefix(s, pat) {
        0
    } else if s.len() == 0 {
        -1
    } else {
        let r = find_sub(s.drop_first(), pat);
        if r < 0 {
            -1
        } else {
            r + 1
        }
    }
}

/// Whether `pat` occurs in `s`.
pub open spec fn contains_sub(s: Seq<char>, pat: Seq<char>) -> bool {
    find_sub(s, pat) >= 0
}

/// Characterises the first occurrence of a pattern from its properties.
pub proof fn lemma_find_sub_at(s: Seq<char>, pat: Seq<char>, i: int)
    requires
        0 <= i <= s.len(),
        forall|k: int| 0 <= k < i ==> !has_prefix(#[trigger] s.skip(k), pat),
    ensures
        has_prefix(s.skip(i), pat) ==> find_sub(s, pat) == i,
        i == s.len() && !has_prefix(s.skip(i), pat) ==> find_sub(s, pat) == -1,
    decreases s.len(),
{
    assert(s.skip(0) =~= s);
    if i > 0 {
        assert forall|k: int| 0 <= k < i - 1 implies !has_prefix(#[trigger] s.drop_first().skip(k), pat) by {
            assert(s.drop_first().skip(k) =~= s.skip(k + 1));
        }
        assert(s.drop_first().skip(i - 1) =~= s.skip(i));
        lemma_find_sub_at(s.drop_first(), pat, i - 1);
    }
}

/// Position of the first occurrence of `pat`, computed.
pub fn find_sub_index(s: &[char], pat: &[char]) -> (r: Option<usize>)
    ensures
        r is None <==> find_sub(s@, pat@) < 0,
        r matches Some(i) ==> i as int == find_sub(s@, pat@) && i <= s@.len(),
{
    let mut i: usize = 0;
    loop
        invariant
            i <= s@.len(),
            forall|k: int| 0 <= k < i ==> !has_prefix(#[trigger] s@.skip(k), pat@),
        decreases s@.len() - i,
    {
        let rest = slice_to_vec(s, i, s.len());
        assert(rest@ == s@.skip(i as int));
        if starts_with(rest.as_slice(), pat) {
            proof {
                lemma_find_sub_at(s@, pat@, i as int);
            }
            return Some(i);
        }
        if i == s.len() {
            proof {
                lemma_find_sub_at(s@, pat@, i as int);
            }
            return None;
        }
        i += 1;
    }
}

/// Whether `pat` occurs in `s`, computed.
pub fn contains_chars(s: &[char], pat: &[char]) -> (r: bool)
    ensures
        r == contains_sub(s@, pat@),
{
    match find_sub_index(s, pat) {
        Some(_) => true,
        None => false,
    }
}

/// Whether `pat` occurs in `s`.
pub fn contains_str(s: &str, pat: &str) -> (r: bool)
    ensures
        r == contains_sub(s@, pat@),
{
    contains_chars(chars_of(s).as_slice(), chars_of(pat).as_slice())
}

/// Whether `s` starts with `prefix`.
pub fn starts_with_str(s: &str, prefix: &str) -> (r: bool)
    ensures
        r == has_prefix(s@, prefix@),
{
    starts_with(chars_of(s).as_slice(), chars_of(prefix).as_slice())
}

pub proof fn lemma_first_word_len_bound(s: Seq<char>)
    ensures
        0 <= first_word_len(s) <= s.len(),
        s.len() > 0 && !is_ws(s[0]) ==> first_word_len(s) >= 1,
    decreases s.len(),
{
    if s.len() > 0 && !is_ws(s[0]) {
        lemma_first_word_len_bound(s.drop_first());
    }
}

/// `str::split_whitespace`: the runs of non-white-space characters.
pub open spec fn words(s: Seq<char>) -> Seq<Seq<char>>
    decreases s.len(),
{
    if s.len() == 0 {
        Seq::empty()
    } else if is_ws(s[0]) {
        words(s.drop_first())
    } else {
        proof {
            lemma_first_word_len_bound(s);
        }
        seq![s.take(first_word_len(s))] + words(s.skip(first_word_len(s)))
    }
}

/// The words of a text.
pub fn words_of(s: &[char]) -> (r: Vec<Vec<char>>)
    ensures
        views(r@) == words(s@),
{
    let mut r: Vec<Vec<char>> = Vec::new();
    let mut i: usize = 0;
    assert(s@.skip(0) =~= s@);
    while i < s.len()
        invariant
            i <= s@.len(),
            views(r@) + words(s@.skip(i as int)) == words(s@),
        decreases s@.len() - i,
    {
        let rest = slice_to_vec(s, i, s.len());
        assert(rest@ == s@.skip(i as int));
        if is_whitespace(s[i]) {
            assert(rest@.drop_first() =~= s@.skip(i + 1));
            i += 1;
        } else {
            let w = first_word_end(rest.as_slice());
            proof {
                lemma_first_word_len_bound(rest@);
            }
            let word = slice_to_vec(rest.as_slice(), 0, w);
            let ghost before = views(r@);
            r.push(word);
            assert(views(r@) =~= before.push(word@));
            assert(rest@.skip(w as int) =~= s@.skip(i + w));
            assert(views(r@) + words(s@.skip(i + w)) =~= before + words(s@.skip(i as int)));
            i += w;
        }
    }
    assert(words(s@.skip(i as int)) =~= Seq::<Seq<char>>::empty());
    assert(views(r@) =~= views(r@) + Seq::<Seq<char>>::empty());
    r
}

pub proof fn lemma_find_sub_bound(s: Seq<char>, pat: Seq<char>)
    ensures
        find_sub(s, pat) >= 0 ==> find_sub(s, pat) + pat.len() <= s.len() && has_prefix(
            s.skip(find_sub(s, pat)),
            pat,
        ),
    decreases s.len(),
{
    assert(s.skip(0) =~= s);
    if !has_prefix(s, pat) && s.len() > 0 {
        lemma_find_sub_bound(s.drop_first(), pat);
        if find_sub(s, pat) >= 0 {
            assert(s.drop_first().skip(find_sub(s.drop_first(), pat)) =~= s.skip(find_sub(s, pat)));
        }
    }
}

/// Pieces joined with a separator.
pub open spec fn join_with(ws: Seq<Seq<char>>, sep: char) -> Seq<char>
    decreases ws.len(),
{
    if ws.len() == 0 {
        Seq::empty()
    } else if ws.len() == 1 {
        ws[0]
    } else {
        join_with(ws.drop_last(), sep) + seq![sep] + ws.last()
    }
}

/// The first `n` pieces joined with a separator.
pub fn join_first(parts: &Vec<Vec<char>>, n: usize, sep: char) -> (r: Vec<char>)
    requires
        n <= parts@.len(),
    ensures
        r@ == join_with(views(parts@).take(n as int), sep),
{
    let ghost vs = views(parts@);
    let mut r: Vec<char> = Vec::new();
    let mut i: usize = 0;
    while i < n
        invariant
            i <= n <= parts@.len(),
            vs == views(parts@),
            r@ == join_with(vs.take(i as int), sep),
        decreases n - i,
    {
        assert(vs.take(i + 1).drop_last() =~= vs.take(i as int));
        assert(vs.take(i + 1).last() == parts@[i as int]@);
        if i > 0 {
            r.push(sep);
        }
        let ghost before = r@;
        let piece = &parts[i];
        let mut j: usize = 0;
        while j < piece.len()
            invariant
                j <= piece@.len(),
                r@ == before + piece@.take(j as int),
            decreases piece@.len() - j,
        {
            r.push(piece[j]);
            assert(piece@.take(j + 1) =~= piece@.take(j as int).push(piece@[j as int]));
            j += 1;
        }
        assert(piece@.take(piece@.len() as int) =~= piece@);
        proof {
            if i == 0 {
                assert(vs.take(1) =~= seq![piece@]);
                assert(r@ =~= piece@);
            } else {
                assert(r@ =~= join_with(vs.take(i as int), sep) + seq![sep] + piece@);
            }
        }
        i += 1;
    }
    r
}

/// Index of the first white-space character, or -1.
pub open spec fn ws_index(s: Seq<char>) -> int {
    if first_word_len(s) < s.len() {
        first_word_len(s)
    } else {
        -1
    }
}

/// `char::is_alphanumeric`: the Unicode `Alphabetic` property or a numeric
/// general category, as the tables of the running std define them.
pub uninterp spec fn alphanumeric(c: char) -> bool;

/// Calls `char::is_alphanumeric`.
#[verifier::external_body]
pub(crate) fn is_alphanumeric(c: char) -> (r: bool)
    ensures
        r == alphanumeric(c),
{
    c.is_alphanumeric()
}

/// `char::to_lowercase`: the one to three characters Unicode maps `c` to.
pub uninterp spec fn char_lowercase(c: char) -> Seq<char>;

/// Calls `char::to_lowercase` and collects what it yields.
#[verifier::external_body]
pub(crate) fn lower_char(c: char) -> (r: Vec<char>)
    ensures
        r@ == char_lowercase(c),
{
    c.to_lowercase().collect()
}

/// The pieces joined with a separator between each two.
pub open spec fn join_text(ws: Seq<Seq<char>>, sep: Seq<char>) -> Seq<char>
    decreases ws.len(),
{
    if ws.len() == 0 {
        Seq::empty()
    } else if ws.len() == 1 {
        ws[0]
    } else {
        join_text(ws.drop_last(), sep) + sep + ws.last()
    }
}

/// `[String]::join`.
pub fn join_strings(ws: &Vec<String>, sep: &str) -> (r: String)
    ensures
        r@ == join_text(ws@.map_values(|w: String| w@), sep@),
{
    let ghost vs = ws@.map_values(|w: String| w@);
    let mut r = String::new();
    let mut i: usize = 0;
    while i < ws.len()
        invariant
            i <= ws@.len(),
            vs == ws@.map_values(|w: String| w@),
            r@ == join_text(vs.take(i as int), sep@),
        decreases ws@.len() - i,
    {
        assert(vs.take(i + 1).drop_last() =~= vs.take(i as int));
        if i > 0 {
            push_str(&mut r, sep);
        }
        push_str(&mut r, ws[i].as_str());
        proof {
            if i == 0 {
                assert(r@ =~= vs.take(1)[0]);
            }
        }
        i += 1;
    }
    assert(vs.take(ws@.len() as int) =~= vs);
    r
}
} // verus!
