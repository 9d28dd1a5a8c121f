//! Human-readable sizes and paths.

use vstd::prelude::*;
use vstd::arithmetic::div_mod::{lemma_div_denominator, lemma_fundamental_div_mod_converse, lemma_hoist_over_denominator};
use crate::text::{
    all_digits, chars_of, decimal, digit_of, digit_value, digits_to_u64, digits_value,
    first_index, has_prefix, is_digit, lemma_first_index, lemma_first_index_at, push_char,
    push_chars, push_decimal, push_str, slice_to_vec, starts_with, string_of, trim, trim_chars,
};

verus! {

/// Whether `path` lies in the directory `home` (or is it): `home` is a
/// prefix that ends at a component boundary, so `/Users/anna` is not inside
/// `/Users/ann`.
pub open spec fn within(path: Seq<char>, home: Seq<char>) -> bool {
    &&& home.len() > 0
    &&& has_prefix(path, home)
    &&& (path.len() == home.len() || home.last() == '/' || path[home.len() as int] == '/')
}

/// A path with the home directory shortened to `~`.
pub open spec fn tilde_spec(path: Seq<char>, home: Seq<char>) -> Seq<char> {
    if within(path, home) {
        seq!['~'] + path.skip(home.len() as int)
    } else {
        path
    }
}

/// Shortens a path by replacing the home directory with `~`; a path outside
/// it, a sibling directory whose name merely starts the same included, comes
/// back unchanged.
pub fn tilde(path: &str, home: &str) -> (r: String)
    ensures
        r@ == tilde_spec(path@, home@),
{
    let p = chars_of(path);
    let h = chars_of(home);
    if h.len() > 0 && starts_with(p.as_slice(), h.as_slice())
        && (p.len() == h.len() || h[h.len() - 1] == '/' || p[h.len()] == '/') {
        let mut out = String::new();
        push_char(&mut out, '~');
        let rest = slice_to_vec(p.as_slice(), h.len(), p.len());
        push_chars(&mut out, rest.as_slice());
        proof {
            assert(seq!['~'] + p@.skip(h@.len() as int) == seq!['~'] + rest@);
        }
        out
    } else {
        string_of(p.as_slice())
    }
}

pub const KIB: u64 = 1024;
pub const MIB: u64 = 1048576;
pub const GIB: u64 = 1073741824;
pub const TIB: u64 = 1099511627776;

/// `n / u` rounded to the nearest integer, ties to the even one.
pub open spec fn round_half_even(n: nat, u: nat) -> nat
    recommends
        u > 0,
{
    let q = n / u;
    let r = n % u;
    if 2 * r > u || (2 * r == u && q % 2 == 1) {
        q + 1
    } else {
        q
    }
}

/// The decimal writing of `q` padded with zeros to at least `width` digits.
pub open spec fn padded(q: nat, width: nat) -> Seq<char> {
    let d = decimal(q);
    if d.len() < width {
        Seq::new((width - d.len()) as nat, |i: int| '0') + d
    } else {
        d
    }
}

/// `bytes / unit` written with `places` decimals (0, 1 or 2), rounded the way
/// `{:.N}` rounds an exact value: to nearest, ties to even.
pub open spec fn fixed(bytes: nat, unit: nat, places: nat) -> Seq<char> {
    let scale: nat = if places == 0 { 1 } else if places == 1 { 10 } else { 100 };
    let q = round_half_even(bytes * scale, unit);
    if places == 0 {
        decimal(q)
    } else {
        decimal(q / scale) + seq!['.'] + padded(q % scale, places)
    }
}

/// A size in bytes the way this tool prints it: `512 o`, `2 Ko`, `3.5 Mo`,
/// `2.00 Go`, `1.25 To`.
pub open spec fn size_spec(b: nat) -> Seq<char> {
    if b >= TIB {
        fixed(b, TIB as nat, 2) + " To"@
    } else if b >= GIB {
        fixed(b, GIB as nat, 2) + " Go"@
    } else if b >= MIB {
        fixed(b, MIB as nat, 1) + " Mo"@
    } else if b >= KIB {
        fixed(b, KIB as nat, 0) + " Ko"@
    } else {
        decimal(b) + " o"@
    }
}

fn round_half_even_exec(n: u128, u: u128) -> (r: u128)
    requires
        u > 0,
        n < u128::MAX,
    ensures
        r == round_half_even(n as nat, u as nat),
        r <= n / u + 1,
{
    let q = n / u;
    let rem = n % u;
    if rem > u - rem || (rem == u - rem && q % 2 == 1) {
        q + 1
    } else {
        q
    }
}

pub(crate) fn push_fixed(out: &mut String, bytes: u64, unit: u64, places: u64)
    requires
        unit >= 1024,
        places <= 2,
    ensures
        final(out)@ == old(out)@ + fixed(bytes as nat, unit as nat, places as nat),
{
    let scale: u128 = if places == 0 {
        1
    } else if places == 1 {
        10
    } else {
        100
    };
    let n: u128 = bytes as u128 * scale;
    let q = round_half_even_exec(n, unit as u128);
    proof {
        let ni = n as int;
        let ui = unit as int;
        assert(ni / ui <= ni / 100) by {
            vstd::arithmetic::div_mod::lemma_div_is_ordered_by_denominator(ni, 100, ui);
        }
        assert(ni <= bytes as int * 100) by (nonlinear_arith)
            requires
                ni == bytes as int * scale as int,
                scale <= 100,
                bytes >= 0,
        {
        }
        assert((bytes as int * 100) / 100 == bytes as int) by {
            vstd::arithmetic::div_mod::lemma_div_multiples_vanish(bytes as int, 100);
        }
        vstd::arithmetic::div_mod::lemma_div_is_ordered(ni, bytes as int * 100, 100);
        assert(q <= bytes as int + 1);
    }
    if places == 0 {
        push_decimal(out, q as u64);
    } else {
        let whole = q / scale;
        let part = q % scale;
        push_decimal(out, whole as u64);
        push_char(out, '.');
        let digits = crate::text::decimal_chars(part as u64);
        let ghost before = out@;
        if (digits.len() as u64) < places {
            let mut k: u64 = digits.len() as u64;
            let ghost zeros: Seq<char> = Seq::empty();
            while k < places
                invariant
                    k <= places,
                    out@ == before + Seq::new((k - digits@.len()) as nat, |i: int| '0'),
                    digits@.len() <= k,
                decreases places - k,
            {
                push_char(out, '0');
                assert(Seq::new((k + 1 - digits@.len()) as nat, |i: int| '0') =~= Seq::new(
                    (k - digits@.len()) as nat,
                    |i: int| '0',
                ).push('0'));
                k += 1;
            }
        }
        push_chars(out, digits.as_slice());
    }
}

/// Formats a size in bytes: `1.40 Go`, `860.0 Mo`, `12 Ko`…
pub fn size(bytes: u64) -> (r: String)
    ensures
        r@ == size_spec(bytes as nat),
{
    let mut out = String::new();
    if bytes >= TIB {
        push_fixed(&mut out, bytes, TIB, 2);
        push_str(&mut out, " To");
    } else if bytes >= GIB {
        push_fixed(&mut out, bytes, GIB, 2);
        push_str(&mut out, " Go");
    } else if bytes >= MIB {
        push_fixed(&mut out, bytes, MIB, 1);
        push_str(&mut out, " Mo");
    } else if bytes >= KIB {
        push_fixed(&mut out, bytes, KIB, 0);
        push_str(&mut out, " Ko");
    } else {
        push_decimal(&mut out, bytes);
        push_str(&mut out, " o");
    }
    out
}


/// `10^n`.
pub open spec fn pow10(n: nat) -> nat
    decreases n,
{
    if n == 0 {
        1
    } else {
        10 * pow10((n - 1) as nat)
    }
}

/// `floor(0.ds × m)`: the fractional digits `ds` scaled by `m`, truncated.
pub open spec fn frac_part(ds: Seq<char>, m: nat) -> nat {
    (digits_value(ds) * m) / pow10(ds.len())
}

/// The same value, computed digit by digit from the right.
pub open spec fn frac_horner(ds: Seq<char>, m: nat) -> nat
    decreases ds.len(),
{
    if ds.len() == 0 {
        0
    } else {
        (digit_value(ds[0]) * m + frac_horner(ds.drop_first(), m)) / 10
    }
}

proof fn lemma_pow10_positive(n: nat)
    ensures
        pow10(n) >= 1,
    decreases n,
{
    if n > 0 {
        lemma_pow10_positive((n - 1) as nat);
    }
}

proof fn lemma_digits_value_prepend(ds: Seq<char>)
    requires
        ds.len() > 0,
    ensures
        digits_value(ds) == digit_value(ds[0]) * pow10((ds.len() - 1) as nat) + digits_value(
            ds.drop_first(),
        ),
    decreases ds.len(),
{
    if ds.len() == 1 {
        assert(ds.drop_first().len() == 0);
        assert(ds.drop_last().len() == 0);
        assert(ds.last() == ds[0]);
        assert(digits_value(ds.drop_first()) == 0);
        assert(digits_value(ds.drop_last()) == 0);
        assert(pow10(0) == 1);
        assert(digits_value(ds) == digits_value(ds.drop_last()) * 10 + digit_value(ds.last()));
        assert(digit_value(ds[0]) * pow10(0) == digit_value(ds[0]));
    } else {
        let init = ds.drop_last();
        lemma_digits_value_prepend(init);
        assert(init[0] == ds[0]);
        assert(init.drop_first() == ds.drop_first().drop_last());
        assert(ds.drop_first().last() == ds.last());
        let a = digit_value(ds[0]) as int;
        let p = pow10((ds.len() - 2) as nat) as int;
        let r = digits_value(ds.drop_first().drop_last()) as int;
        let l = digit_value(ds.last()) as int;
        assert(digits_value(init) == a * p + r);
        assert(digits_value(ds) == digits_value(init) * 10 + l);
        assert(digits_value(ds.drop_first()) == r * 10 + l);
        assert(pow10((ds.len() - 1) as nat) == 10 * p);
        assert((a * p + r) * 10 + l == a * (10 * p) + (r * 10 + l)) by (nonlinear_arith);
    }
}

proof fn lemma_frac_horner(ds: Seq<char>, m: nat)
    ensures
        frac_horner(ds, m) == frac_part(ds, m),
    decreases ds.len(),
{
    if ds.len() == 0 {
        assert(digits_value(ds) == 0);
        assert(pow10(0) == 1);
    } else {
        let rest = ds.drop_first();
        lemma_frac_horner(rest, m);
        lemma_digits_value_prepend(ds);
        lemma_pow10_positive(rest.len());
        let k = pow10(rest.len()) as int;
        let d = digit_value(ds[0]) as int;
        let x = digits_value(ds) as int * m;
        let y = digits_value(rest) as int * m;
        assert(x == y + (d * m) * k) by (nonlinear_arith)
            requires
                digits_value(ds) == d * k + digits_value(rest),
                x == digits_value(ds) as int * m,
                y == digits_value(rest) as int * m,
        {
        }
        assert(x >= 0) by (nonlinear_arith)
            requires
                x == digits_value(ds) as int * m,
        {
        }
        lemma_div_denominator(x, k, 10);
        lemma_hoist_over_denominator(y, d * m, k as nat);
        assert(pow10(ds.len()) == 10 * k);
        assert(k * 10 == 10 * k);
        assert(x / k == y / k + d * m);
        assert(frac_part(rest, m) == y / k);
        assert(frac_horner(ds, m) == (d * m + y / k) / 10);
        assert(frac_part(ds, m) == x / (k * 10));
        assert((x / k) / 10 == (d * m + y / k) / 10);
    }
}

/// The exact value of `int.frac × m`, truncated, capped at `u64::MAX` the way
/// a float-to-integer conversion saturates.
pub open spec fn scaled_value(int_part: Seq<char>, frac: Seq<char>, m: nat) -> nat {
    let v = digits_value(int_part) * m + frac_part(frac, m);
    if v > u64::MAX {
        u64::MAX as nat
    } else {
        v
    }
}

/// A plain decimal number (`12`, `1.5`, `1.`, `.5`) split at its point.
pub open spec fn number_parts(s: Seq<char>) -> Option<(Seq<char>, Seq<char>)> {
    let dot = first_index(s, '.');
    if dot < 0 {
        if s.len() > 0 && all_digits(s) {
            Some((s, Seq::empty()))
        } else {
            None
        }
    } else {
        let a = s.take(dot);
        let b = s.skip(dot + 1);
        if (a.len() > 0 || b.len() > 0) && all_digits(a) && all_digits(b) {
            Some((a, b))
        } else {
            None
        }
    }
}

/// `char::to_ascii_lowercase`.
pub open spec fn ascii_lower(c: char) -> char {
    if 'A' <= c && c <= 'Z' {
        ((c as u8) + 32) as char
    } else {
        c
    }
}

pub fn to_ascii_lower(c: char) -> (r: char)
    ensures
        r == ascii_lower(c),
{
    if 'A' <= c && c <= 'Z' {
        ((c as u8) + 32) as char
    } else {
        c
    }
}

/// The text with every ASCII letter lowered and every space removed.
pub open spec fn squeeze(s: Seq<char>) -> Seq<char>
    decreases s.len(),
{
    if s.len() == 0 {
        s
    } else if s.last() == ' ' {
        squeeze(s.drop_last())
    } else {
        squeeze(s.drop_last()).push(ascii_lower(s.last()))
    }
}

/// Index of the first character that is neither a digit nor a point.
pub open spec fn number_end(s: Seq<char>) -> int
    decreases s.len(),
{
    if s.len() == 0 {
        0
    } else if !is_digit(s[0]) && s[0] != '.' {
        0
    } else {
        1 + number_end(s.drop_first())
    }
}

pub open spec fn trim_end_char(s: Seq<char>, c: char) -> Seq<char>
    decreases s.len(),
{
    if s.len() > 0 && s.last() == c {
        trim_end_char(s.drop_last(), c)
    } else {
        s
    }
}

/// The multiplier a unit names, once its trailing `o`s then `b`s are gone.
pub open spec fn unit_multiplier(unit: Seq<char>) -> Option<nat> {
    let u = trim_end_char(trim_end_char(unit, 'o'), 'b');
    if u.len() == 0 {
        Some(1)
    } else if u == seq!['k'] {
        Some(KIB as nat)
    } else if u == seq!['m'] {
        Some(MIB as nat)
    } else if u == seq!['g'] {
        Some(GIB as nat)
    } else if u == seq!['t'] {
        Some(TIB as nat)
    } else {
        None
    }
}

/// What `parse_size` answers for a text.
pub open spec fn parse_size_spec(input: Seq<char>) -> Result<u64, Seq<char>> {
    let raw = squeeze(trim(input));
    let end = number_end(raw);
    let number = raw.take(end);
    let unit = raw.skip(end);
    match number_parts(number) {
        None => Err("taille invalide : « "@ + input + " »"@),
        Some((a, b)) => match unit_multiplier(unit) {
            None => Err(
                "unité inconnue : « "@ + trim_end_char(trim_end_char(unit, 'o'), 'b')
                    + " » (attendu : K, M, G, T)"@,
            ),
            Some(m) => Ok(scaled_value(a, b, m) as u64),
        },
    }
}


fn squeeze_chars(s: &[char]) -> (r: Vec<char>)
    ensures
        r@ == squeeze(s@),
{
    let mut r: Vec<char> = Vec::new();
    let mut i: usize = 0;
    while i < s.len()
        invariant
            i <= s@.len(),
            r@ == squeeze(s@.take(i as int)),
        decreases s@.len() - i,
    {
        assert(s@.take(i + 1).drop_last() == s@.take(i as int));
        assert(s@.take(i + 1).last() == s@[i as int]);
        if s[i] != ' ' {
            r.push(to_ascii_lower(s[i]));
        }
        i += 1;
    }
    assert(s@.take(s@.len() as int) == s@);
    r
}

fn number_end_of(s: &[char]) -> (e: usize)
    ensures
        e == number_end(s@),
        e <= s@.len(),
{
    let mut i: usize = 0;
    assert(s@.skip(0) == s@);
    while i < s.len() && (('0' <= s[i] && s[i] <= '9') || s[i] == '.')
        invariant
            i <= s@.len(),
            number_end(s@) == i + number_end(s@.skip(i as int)),
        decreases s@.len() - i,
    {
        assert(s@.skip(i as int).drop_first() == s@.skip(i + 1));
        i += 1;
    }
    i
}

pub fn trim_end_char_of(s: &[char], c: char) -> (r: Vec<char>)
    ensures
        r@ == trim_end_char(s@, c),
{
    let mut j: usize = s.len();
    assert(s@.take(j as int) == s@);
    while j > 0 && s[j - 1] == c
        invariant
            j <= s@.len(),
            trim_end_char(s@, c) == trim_end_char(s@.take(j as int), c),
        decreases j,
    {
        assert(s@.take(j as int).drop_last() == s@.take(j - 1));
        j -= 1;
    }
    slice_to_vec(s, 0, j)
}

fn all_digits_of(s: &[char]) -> (r: bool)
    ensures
        r == all_digits(s@),
{
    let mut i: usize = 0;
    while i < s.len()
        invariant
            i <= s@.len(),
            forall|k: int| 0 <= k < i ==> is_digit(#[trigger] s@[k]),
        decreases s@.len() - i,
    {
        if !('0' <= s[i] && s[i] <= '9') {
            return false;
        }
        i += 1;
    }
    true
}

pub fn number_parts_of(s: &[char]) -> (r: Option<(Vec<char>, Vec<char>)>)
    ensures
        r is None <==> number_parts(s@) is None,
        r matches Some((x, y)) ==> number_parts(s@) == Some((x@, y@)),
{
    let mut dot: usize = 0;
    while dot < s.len() && s[dot] != '.'
        invariant
            dot <= s@.len(),
            forall|k: int| 0 <= k < dot ==> s@[k] != '.',
        decreases s@.len() - dot,
    {
        dot += 1;
    }
    proof {
        lemma_first_index_at(s@, '.', dot as int);
    }
    if dot == s.len() {
        if s.len() > 0 && all_digits_of(s) {
            let v = slice_to_vec(s, 0, s.len());
            assert(v@ == s@);
            Some((v, Vec::new()))
        } else {
            None
        }
    } else {
        let a = slice_to_vec(s, 0, dot);
        let b = slice_to_vec(s, dot + 1, s.len());
        assert(a@ == s@.take(dot as int));
        assert(b@ == s@.skip(dot + 1));
        if (a.len() > 0 || b.len() > 0) && all_digits_of(a.as_slice()) && all_digits_of(
            b.as_slice(),
        ) {
            Some((a, b))
        } else {
            None
        }
    }
}

fn word_eq(s: &[char], c: char) -> (r: bool)
    ensures
        r == (s@ == seq![c]),
{
    let r = s.len() == 1 && s[0] == c;
    proof {
        if r {
            assert(s@ =~= seq![c]);
        }
    }
    r
}

/// The fractional digits scaled by `m`, truncated.
fn frac_scaled(ds: &[char], m: u64) -> (r: u64)
    requires
        all_digits(ds@),
        1 <= m <= TIB,
    ensures
        r == frac_part(ds@, m as nat),
        r < m,
{
    let mut c: u64 = 0;
    let mut i: usize = ds.len();
    assert(ds@.skip(ds@.len() as int).len() == 0);
    while i > 0
        invariant
            i <= ds@.len(),
            all_digits(ds@),
            1 <= m <= TIB,
            c < m,
            c == frac_horner(ds@.skip(i as int), m as nat),
        decreases i,
    {
        assert(is_digit(ds@[i - 1]));
        let d = digit_of(ds[i - 1]);
        assert(ds@.skip(i - 1).drop_first() == ds@.skip(i as int));
        assert(ds@.skip(i - 1)[0] == ds@[i - 1]);
        assert(d * m + c < 10 * m) by (nonlinear_arith)
            requires
                d < 10,
                c < m,
        {
        }
        assert(d * m <= 9 * TIB) by (nonlinear_arith)
            requires
                d < 10,
                m <= TIB,
        {
        }
        c = (d * m + c) / 10;
        i -= 1;
    }
    assert(ds@.skip(0) == ds@);
    proof {
        lemma_frac_horner(ds@, m as nat);
    }
    c
}

/// `int.frac × m`, exact and truncated, capped at `u64::MAX`.
pub fn scale(a: &[char], b: &[char], m: u64) -> (r: u64)
    requires
        all_digits(a@),
        all_digits(b@),
        1 <= m <= TIB,
    ensures
        r == scaled_value(a@, b@, m as nat),
{
    let frac = frac_scaled(b, m);
    let whole = match digits_to_u64(a) {
        Some(v) => v,
        None => {
            proof {
                assert(digits_value(a@) * m as nat >= digits_value(a@)) by (nonlinear_arith)
                    requires
                        m >= 1,
                {
                }
            }
            return u64::MAX;
        },
    };
    assert(whole as u128 * m as u128 <= u64::MAX as u128 * TIB as u128) by (nonlinear_arith)
        requires
            whole <= u64::MAX,
            m <= TIB,
    {
    }
    let scaled: u128 = whole as u128 * m as u128 + frac as u128;
    if scaled > u64::MAX as u128 {
        u64::MAX
    } else {
        scaled as u64
    }
}

/// Parses a size given on the command line: `500M`, `1.5G`, `1024`, `200 Ko`.
///
/// The number is read exactly and the result truncated to whole bytes,
/// capped at `u64::MAX`.
pub fn parse_size(input: &str) -> (r: Result<u64, String>)
    ensures
        match parse_size_spec(input@) {
            Ok(v) => r matches Ok(x) && x == v,
            Err(m) => r matches Err(e) && e@ == m,
        },
{
    let chars = chars_of(input);
    let trimmed = trim_chars(chars.as_slice());
    let raw = squeeze_chars(trimmed.as_slice());
    let end = number_end_of(raw.as_slice());
    let number = slice_to_vec(raw.as_slice(), 0, end);
    let unit = slice_to_vec(raw.as_slice(), end, raw.len());
    let parts = number_parts_of(number.as_slice());
    match parts {
        None => {
            let mut m = String::new();
            push_str(&mut m, "taille invalide : « ");
            push_str(&mut m, input);
            push_str(&mut m, " »");
            Err(m)
        },
        Some((a, b)) => {
            let without_o = trim_end_char_of(unit.as_slice(), 'o');
            let u = trim_end_char_of(without_o.as_slice(), 'b');
            let mult: u64 = if u.len() == 0 {
                1
            } else if word_eq(u.as_slice(), 'k') {
                KIB
            } else if word_eq(u.as_slice(), 'm') {
                MIB
            } else if word_eq(u.as_slice(), 'g') {
                GIB
            } else if word_eq(u.as_slice(), 't') {
                TIB
            } else {
                let mut m = String::new();
                push_str(&mut m, "unité inconnue : « ");
                push_chars(&mut m, u.as_slice());
                push_str(&mut m, " » (attendu : K, M, G, T)");
                return Err(m);
            };
            let frac = frac_scaled(b.as_slice(), mult);
            let whole = match digits_to_u64(a.as_slice()) {
                Some(v) => v,
                None => {
                    proof {
                        assert(digits_value(a@) * mult as nat >= digits_value(a@)) by (
                        nonlinear_arith)
                            requires
                                mult >= 1,
                        {
                        }
                    }
                    return Ok(u64::MAX);
                },
            };
            assert(whole as u128 * mult as u128 <= u64::MAX as u128 * TIB as u128) by (
            nonlinear_arith)
                requires
                    whole <= u64::MAX,
                    mult <= TIB,
            {
            }
            let scaled: u128 = whole as u128 * mult as u128 + frac as u128;
            if scaled > u64::MAX as u128 {
                Ok(u64::MAX)
            } else {
                Ok(scaled as u64)
            }
        },
    }
}


/// At most `max` characters, the last one an ellipsis when something was cut.
pub open spec fn truncate_spec(s: Seq<char>, max: nat) -> Seq<char> {
    if s.len() <= max {
        s
    } else if max == 0 {
        Seq::empty()
    } else {
        s.take(max - 1) + seq!['…']
    }
}

/// Shortens a text to `max` characters for a column.
pub fn truncate(text: &str, max: usize) -> (r: String)
    ensures
        r@ == truncate_spec(text@, max as nat),
{
    let cs = chars_of(text);
    if cs.len() <= max {
        string_of(cs.as_slice())
    } else if max == 0 {
        String::new()
    } else {
        let mut out = string_of(slice_to_vec(cs.as_slice(), 0, max - 1).as_slice());
        push_char(&mut out, '…');
        out
    }
}


// ── calendar ───────────────────────────────────────────────────────────────

/// Whether a year of the Gregorian calendar has a 29th of February.
pub open spec fn is_leap(y: int) -> bool {
    y % 4 == 0 && (y % 100 != 0 || y % 400 == 0)
}

/// How many leap years there are from year 1 to year `y`.
pub open spec fn leaps_through(y: int) -> int {
    y / 4 - y / 100 + y / 400
}

/// Days from the first of January 1970 to the first of January of `y`.
pub open spec fn days_before_year(y: int) -> int {
    365 * (y - 1970) + leaps_through(y - 1) - leaps_through(1969)
}

/// The length of a year.
pub open spec fn year_length(y: int) -> int {
    if is_leap(y) {
        366
    } else {
        365
    }
}

/// The length of a month (1 to 12) of a year.
pub open spec fn month_length(y: int, m: int) -> int {
    if m == 2 {
        if is_leap(y) {
            29
        } else {
            28
        }
    } else if m == 4 || m == 6 || m == 9 || m == 11 {
        30
    } else {
        31
    }
}

/// Days from the first of January to the first of month `m` (1 to 12).
pub open spec fn days_before_month(y: int, m: int) -> int {
    let common: int = if m <= 1 {
        0
    } else if m == 2 {
        31
    } else if m == 3 {
        59
    } else if m == 4 {
        90
    } else if m == 5 {
        120
    } else if m == 6 {
        151
    } else if m == 7 {
        181
    } else if m == 8 {
        212
    } else if m == 9 {
        243
    } else if m == 10 {
        273
    } else if m == 11 {
        304
    } else {
        334
    };
    if m > 2 && is_leap(y) {
        common + 1
    } else {
        common
    }
}

/// A date and time of day, UTC: year, month, day, hour, minute, second.
pub open spec fn valid_civil(c: (int, int, int, int, int, int)) -> bool {
    &&& 1970 <= c.0
    &&& 1 <= c.1 <= 12
    &&& 1 <= c.2 <= month_length(c.0, c.1)
    &&& 0 <= c.3 < 24
    &&& 0 <= c.4 < 60
    &&& 0 <= c.5 < 60
}

/// Seconds since the epoch of a date and time, UTC.
pub open spec fn epoch_of(c: (int, int, int, int, int, int)) -> int {
    (days_before_year(c.0) + days_before_month(c.0, c.1) + c.2 - 1) * 86400 + c.3 * 3600 + c.4 * 60 + c.5
}

/// Each year adds its own length.
pub proof fn lemma_year_step(y: int)
    requires
        y >= 1,
    ensures
        days_before_year(y + 1) == days_before_year(y) + year_length(y),
{
    assert(y / 4 - (y - 1) / 4 == (if y % 4 == 0 { 1int } else { 0int }));
    assert(y / 100 - (y - 1) / 100 == (if y % 100 == 0 { 1int } else { 0int }));
    assert(y / 400 - (y - 1) / 400 == (if y % 400 == 0 { 1int } else { 0int }));
    assert(y % 400 == 0 ==> y % 100 == 0 && y % 4 == 0);
    assert(y % 100 == 0 ==> y % 4 == 0);
}

/// From 1970 on, the days before a year are between 365 and 366 per year.
pub proof fn lemma_year_bounds(y: int)
    requires
        y >= 1970,
    ensures
        365 * (y - 1970) <= days_before_year(y) <= 366 * (y - 1970),
    decreases y - 1970,
{
    if y > 1970 {
        lemma_year_bounds(y - 1);
        lemma_year_step(y - 1);
    }
}

/// Each month adds its own length, and the year ends after December.
pub proof fn lemma_month_step(y: int, m: int)
    requires
        1 <= m <= 12,
    ensures
        days_before_month(y, m + 1) == days_before_month(y, m) + month_length(y, m) || m == 12,
        m == 12 ==> days_before_month(y, 12) + 31 == year_length(y),
        days_before_month(y, m) >= 0,
{
}

/// Later years start later.
pub proof fn lemma_years_ordered(a: int, b: int)
    requires
        1970 <= a <= b,
    ensures
        days_before_year(a) <= days_before_year(b),
        a < b ==> days_before_year(a) + year_length(a) <= days_before_year(b),
    decreases b - a,
{
    if a < b {
        lemma_years_ordered(a, b - 1);
        lemma_year_step(b - 1);
        lemma_year_step(a);
    }
}

/// Later months start later, and a day of a month falls inside its year.
pub proof fn lemma_months_ordered(y: int, a: int, b: int)
    requires
        1 <= a <= b <= 12,
    ensures
        days_before_month(y, a) <= days_before_month(y, b),
        a < b ==> days_before_month(y, a) + month_length(y, a) <= days_before_month(y, b),
        days_before_month(y, b) + month_length(y, b) <= year_length(y),
{
    lemma_month_step(y, a);
    lemma_month_step(y, b);
}

/// An instant has one date and time: two valid dates and times with the same
/// number of seconds since the epoch are the same.
pub proof fn one_date_per_instant(c: (int, int, int, int, int, int), k: (int, int, int, int, int, int))
    requires
        valid_civil(c),
        valid_civil(k),
        epoch_of(c) == epoch_of(k),
    ensures
        c == k,
{
    let dc = days_before_year(c.0) + days_before_month(c.0, c.1) + c.2 - 1;
    let dk = days_before_year(k.0) + days_before_month(k.0, k.1) + k.2 - 1;
    let sc = c.3 * 3600 + c.4 * 60 + c.5;
    let sk = k.3 * 3600 + k.4 * 60 + k.5;
    lemma_fundamental_div_mod_converse(epoch_of(c), 86400, dc, sc);
    lemma_fundamental_div_mod_converse(epoch_of(k), 86400, dk, sk);
    lemma_fundamental_div_mod_converse(sc, 3600, c.3, c.4 * 60 + c.5);
    lemma_fundamental_div_mod_converse(sk, 3600, k.3, k.4 * 60 + k.5);
    lemma_fundamental_div_mod_converse(c.4 * 60 + c.5, 60, c.4, c.5);
    lemma_fundamental_div_mod_converse(k.4 * 60 + k.5, 60, k.4, k.5);
    lemma_months_ordered(c.0, c.1, c.1);
    lemma_months_ordered(k.0, k.1, k.1);
    if c.0 < k.0 {
        lemma_years_ordered(c.0, k.0);
    } else if k.0 < c.0 {
        lemma_years_ordered(k.0, c.0);
    }
    assert(c.0 == k.0);
    if c.1 < k.1 {
        lemma_months_ordered(c.0, c.1, k.1);
    } else if k.1 < c.1 {
        lemma_months_ordered(c.0, k.1, c.1);
    }
}

/// Days from 1970 to the first of January of a year, computed.
fn days_before(y: u64) -> (r: u64)
    requires
        1970 <= y <= 0x4_0000_0000_0000,
    ensures
        r == days_before_year(y as int),
{
    proof {
        lemma_year_bounds(y as int);
    }
    let a = y - 1;
    assert(leaps_through(1969) == 477);
    365 * (y - 1970) + a / 4 + a / 400 - a / 100 - 477
}

/// The date and time of day, UTC, of a number of seconds since the epoch.
pub fn civil(epoch: u64) -> (r: (u64, u64, u64, u64, u64, u64))
    ensures
        valid_civil((r.0 as int, r.1 as int, r.2 as int, r.3 as int, r.4 as int, r.5 as int)),
        epoch_of((r.0 as int, r.1 as int, r.2 as int, r.3 as int, r.4 as int, r.5 as int)) == epoch,
{
    let days = epoch / 86400;
    let secs = epoch % 86400;
    assert(days <= 0x1_0000_0000_0000);
    // A first guess at the year from the average length of one, corrected
    // by whole years either way.
    let mut y: u64 = 1970 + days * 400 / 146097;
    proof {
        assert(days * 400 / 146097 <= days) by (nonlinear_arith)
            requires days <= 0x1_0000_0000_0000;
    }
    while days_before(y) > days
        invariant
            1970 <= y <= 1970 + days,
            days <= 0x1_0000_0000_0000,
        decreases y,
    {
        assert(days_before_year(1970) == 0);
        y = y - 1;
    }
    proof {
        lemma_year_bounds(y as int);
        lemma_year_step(y as int);
    }
    while y < 1970 + days && days_before(y + 1) <= days
        invariant
            1970 <= y <= 1970 + days,
            days <= 0x1_0000_0000_0000,
            days_before_year(y as int) <= days,
        decreases days - days_before_year(y as int),
    {
        proof {
            lemma_year_step(y as int);
        }
        y = y + 1;
    }
    proof {
        lemma_year_step(y as int);
        lemma_year_bounds(y as int + 1);
        if y == 1970 + days {
            assert(days_before_year(y + 1) > days) by (nonlinear_arith)
                requires
                    days_before_year(y + 1) >= 365 * (y + 1 - 1970),
                    y == 1970 + days;
        }
    }
    let rem = days - days_before(y);
    let leap = y % 4 == 0 && (y % 100 != 0 || y % 400 == 0);
    assert(leap == is_leap(y as int));
    let mut m: u64 = 1;
    let mut before: u64 = 0;
    while m < 12 && before + month_len(leap, m) <= rem
        invariant
            1 <= m <= 12,
            leap == is_leap(y as int),
            before == days_before_month(y as int, m as int),
            before <= rem,
            rem < year_length(y as int),
        decreases 12 - m,
    {
        proof {
            lemma_month_step(y as int, m as int);
        }
        before = before + month_len(leap, m);
        m = m + 1;
    }
    proof {
        lemma_month_step(y as int, m as int);
    }
    let d = rem - before + 1;
    (y, m, d, secs / 3600, secs % 3600 / 60, secs % 60)
}

fn month_len(leap: bool, m: u64) -> (r: u64)
    ensures
        forall|y: int| is_leap(y) == leap ==> r == month_length(y, m as int),
{
    if m == 2 {
        if leap {
            29
        } else {
            28
        }
    } else if m == 4 || m == 6 || m == 9 || m == 11 {
        30
    } else {
        31
    }
}

/// The number spelled by the digits from `from`, `len` of them, if they are
/// all digits.
pub open spec fn date_field(t: Seq<char>, from: int, len: int) -> Option<int> {
    let f = t.subrange(from, from + len);
    if all_digits(f) {
        Some(digits_value(f) as int)
    } else {
        None
    }
}

/// What `mdls -raw` prints for a date, `2024-01-15 10:23:45 +0000`, read
/// as seconds since the epoch: the date and time must be real ones from 1970
/// on, and the offset at most 23 hours 59 minutes. Anything else, Spotlight's
/// `(null)` among it, is no date.
pub open spec fn spotlight_date_spec(text: Seq<char>) -> Option<u64> {
    let t = trim(text);
    if t.len() != 25 || t[4] != '-' || t[7] != '-' || t[10] != ' ' || t[13] != ':' || t[16] != ':'
        || t[19] != ' ' || !(t[20] == '+' || t[20] == '-') {
        None
    } else {
        match (date_field(t, 0, 4), date_field(t, 5, 2), date_field(t, 8, 2), date_field(t, 11, 2),
            date_field(t, 14, 2), date_field(t, 17, 2), date_field(t, 21, 2), date_field(t, 23, 2)) {
            (Some(y), Some(mo), Some(d), Some(h), Some(mi), Some(sec), Some(oh), Some(om)) => {
                let c = (y, mo, d, h, mi, sec);
                let offset = oh * 3600 + om * 60;
                let e = if t[20] == '+' {
                    epoch_of(c) - offset
                } else {
                    epoch_of(c) + offset
                };
                if valid_civil(c) && oh < 24 && om < 60 && e >= 0 {
                    Some(e as u64)
                } else {
                    None
                }
            },
            _ => None,
        }
    }
}

/// The number spelled by a short run of digits, if it is one.
fn field(t: &Vec<char>, from: usize, len: usize) -> (r: Option<u64>)
    requires
        from + len <= t@.len(),
        len <= 4,
    ensures
        match date_field(t@, from as int, len as int) {
            None => r is None,
            Some(v) => r == Some(v as u64) && v < 10000,
        },
{
    let ghost f = t@.subrange(from as int, (from + len) as int);
    let n = t.len();
    let mut v: u64 = 0;
    let mut i: usize = 0;
    while i < len
        invariant
            i <= len <= 4,
            from + len <= n,
            n == t@.len(),
            f == t@.subrange(from as int, (from + len) as int),
            all_digits(f.take(i as int)),
            v == digits_value(f.take(i as int)),
            v < pow10(i as nat),
        decreases len - i,
    {
        let c = t[from + i];
        assert(c == f[i as int]);
        if !('0' <= c && c <= '9') {
            assert(!all_digits(f));
            return None;
        }
        assert(f.take(i + 1).drop_last() =~= f.take(i as int));
        let dgt = digit_of(c);
        proof {
            assert(pow10((i + 1) as nat) == 10 * pow10(i as nat));
            assert(v * 10 + dgt < pow10((i + 1) as nat)) by (nonlinear_arith)
                requires v < pow10(i as nat), dgt < 10, pow10((i + 1) as nat) == 10 * pow10(i as nat);
            assert(pow10(i as nat) <= 1000) by {
                reveal_with_fuel(pow10, 5);
            }
        }
        v = v * 10 + dgt;
        i += 1;
    }
    assert(f.take(len as int) =~= f);
    assert(pow10(len as nat) <= 10000) by {
        reveal_with_fuel(pow10, 5);
    }
    Some(v)
}

/// Seconds since the epoch of the date Spotlight printed, if it is one.
pub fn parse_spotlight_date(text: &str) -> (r: Option<u64>)
    ensures
        r == spotlight_date_spec(text@),
{
    let t = trim_chars(chars_of(text).as_slice());
    if t.len() != 25 || t[4] != '-' || t[7] != '-' || t[10] != ' ' || t[13] != ':' || t[16] != ':'
        || t[19] != ' ' || !(t[20] == '+' || t[20] == '-') {
        return None;
    }
    let y = match field(&t, 0, 4) { Some(v) => v, None => return None };
    let mo = match field(&t, 5, 2) { Some(v) => v, None => return None };
    let d = match field(&t, 8, 2) { Some(v) => v, None => return None };
    let h = match field(&t, 11, 2) { Some(v) => v, None => return None };
    let mi = match field(&t, 14, 2) { Some(v) => v, None => return None };
    let sec = match field(&t, 17, 2) { Some(v) => v, None => return None };
    let oh = match field(&t, 21, 2) { Some(v) => v, None => return None };
    let om = match field(&t, 23, 2) { Some(v) => v, None => return None };
    let leap = y % 4 == 0 && (y % 100 != 0 || y % 400 == 0);
    if y < 1970 || mo < 1 || mo > 12 || d < 1 || d > month_len(leap, mo) || h >= 24 || mi >= 60 || sec >= 60
        || oh >= 24 || om >= 60 {
        return None;
    }
    let mut before: u64 = 0;
    let mut m: u64 = 1;
    while m < mo
        invariant
            1 <= m <= mo <= 12,
            leap == is_leap(y as int),
            before == days_before_month(y as int, m as int),
        decreases mo - m,
    {
        proof {
            lemma_month_step(y as int, m as int);
        }
        before = before + month_len(leap, m);
        m = m + 1;
    }
    proof {
        lemma_year_bounds(y as int);
    }
    let days = days_before(y) + before + d - 1;
    let local = days * 86400 + h * 3600 + mi * 60 + sec;
    let offset = oh * 3600 + om * 60;
    if t[20] == '+' {
        if local < offset {
            return None;
        }
        Some(local - offset)
    } else {
        Some(local + offset)
    }
}

/// Two digits, with a leading zero under ten.
pub open spec fn two(n: int) -> Seq<char> {
    if n < 10 {
        seq!['0'] + decimal(n as nat)
    } else {
        decimal(n as nat)
    }
}

/// The run identifier of a date and time: `20260918-230512`.
pub open spec fn stamp_text(c: (int, int, int, int, int, int)) -> Seq<char> {
    decimal(c.0 as nat) + two(c.1) + two(c.2) + seq!['-'] + two(c.3) + two(c.4) + two(c.5)
}

/// `text` is the identifier of the date and time, UTC, of `epoch`.
pub open spec fn stamps(text: Seq<char>, epoch: u64) -> bool {
    exists|c: (int, int, int, int, int, int)| #[trigger] valid_civil(c) && epoch_of(c) == epoch && text == stamp_text(c)
}

fn push_two(s: &mut String, n: u64)
    ensures
        final(s)@ == old(s)@ + two(n as int),
{
    if n < 10 {
        push_char(s, '0');
    }
    push_decimal(s, n);
}

/// The identifier of a run made at `epoch`: its date and time, UTC.
pub fn stamp(epoch: u64) -> (r: String)
    ensures
        stamps(r@, epoch),
        forall|c: (int, int, int, int, int, int)|
            valid_civil(c) && epoch_of(c) == epoch ==> r@ == #[trigger] stamp_text(c),
{
    let c = civil(epoch);
    let mut r = String::new();
    push_decimal(&mut r, c.0);
    push_two(&mut r, c.1);
    push_two(&mut r, c.2);
    push_char(&mut r, '-');
    push_two(&mut r, c.3);
    push_two(&mut r, c.4);
    push_two(&mut r, c.5);
    let ghost cc = (c.0 as int, c.1 as int, c.2 as int, c.3 as int, c.4 as int, c.5 as int);
    assert(r@ =~= stamp_text(cc));
    assert(valid_civil(cc));
    assert forall|k: (int, int, int, int, int, int)|
        valid_civil(k) && epoch_of(k) == epoch implies r@ == #[trigger] stamp_text(k) by {
        one_date_per_instant(cc, k);
    }
    r
}

} // verus!
