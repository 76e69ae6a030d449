//! Which texts denote a floating point number in Rust's decimal syntax
//! (the texts accepted by `str::parse::<f64>`):
//!
//! ```text
//! Float  ::= Sign? ( 'inf' | 'infinity' | 'nan' | Number )   (letters in any case)
//! Number ::= ( Digit+ | Digit+ '.' Digit* | Digit* '.' Digit+ ) Exp?
//! Exp    ::= ('e' | 'E') Sign? Digit+
//! Sign   ::= '+' | '-'
//! ```

use vstd::prelude::*;
use crate::tokenizer::is_digit;

verus! {

/// The number of leading decimal digits of `s`.
pub open spec fn leading_digits(s: Seq<char>) -> nat
    decreases s.len(),
{
    if s.len() > 0 && is_digit(s[0]) {
        1 + leading_digits(s.drop_first())
    } else {
        0
    }
}

pub open spec fn is_sign(c: char) -> bool {
    c == '+' || c == '-'
}

/// `s` without a leading sign.
pub open spec fn unsigned_part(s: Seq<char>) -> Seq<char> {
    if s.len() > 0 && is_sign(s[0]) { s.drop_first() } else { s }
}

/// The lower-case form of an ASCII letter (other characters unchanged).
pub open spec fn ascii_lower(c: char) -> char {
    if 'A' <= c <= 'Z' { ((c as u32) + 32) as char } else { c }
}

/// Whether `s` equals the lower-case word `w` ignoring the case of ASCII letters.
pub open spec fn equals_ignoring_case(s: Seq<char>, w: Seq<char>) -> bool {
    s.len() == w.len() && forall|i: int| 0 <= i < s.len() ==> ascii_lower(#[trigger] s[i]) == w[i]
}

/// An exponent part: `e` or `E`, an optional sign, and at least one digit.
pub open spec fn is_exponent(t: Seq<char>) -> bool {
    t.len() > 0 && (t[0] == 'e' || t[0] == 'E') && {
        let u = unsigned_part(t.drop_first());
        u.len() > 0 && leading_digits(u) == u.len()
    }
}

/// A decimal number: digits with an optional fraction (at least one digit in all),
/// then an optional exponent.
pub open spec fn is_decimal_number(s: Seq<char>) -> bool {
    let i = leading_digits(s) as int;
    let rest = s.skip(i);
    if rest.len() > 0 && rest[0] == '.' {
        let frac = rest.drop_first();
        let j = leading_digits(frac) as int;
        &&& i + j > 0
        &&& (frac.skip(j).len() == 0 || is_exponent(frac.skip(j)))
    } else {
        &&& i > 0
        &&& (rest.len() == 0 || is_exponent(rest))
    }
}

/// Whether `s` is a floating point number in Rust's decimal syntax.
pub open spec fn is_float_text(s: Seq<char>) -> bool {
    let u = unsigned_part(s);
    ||| equals_ignoring_case(u, seq!['i', 'n', 'f'])
    ||| equals_ignoring_case(u, seq!['i', 'n', 'f', 'i', 'n', 'i', 't', 'y'])
    ||| equals_ignoring_case(u, seq!['n', 'a', 'n'])
    ||| is_decimal_number(u)
}

proof fn lemma_leading_digits_bound(s: Seq<char>)
    ensures
        leading_digits(s) <= s.len(),
    decreases s.len(),
{
    if s.len() > 0 && is_digit(s[0]) {
        lemma_leading_digits_bound(s.drop_first());
    }
}

/// Counts the leading digits of `v` from index `from`.
fn count_digits(v: &Vec<char>, from: usize) -> (n: usize)
    requires
        from <= v@.len(),
    ensures
        n as nat == leading_digits(v@.skip(from as int)),
        from + n <= v@.len(),
    decreases v@.len() - from,
{
    if from < v.len() && '0' <= v[from] && v[from] <= '9' {
        assert(v@.skip(from as int).drop_first() == v@.skip(from + 1));
        let k = count_digits(v, from + 1);
        k + 1
    } else {
        1usize - 1
    }
}

fn lower_char(c: char) -> (r: char)
    ensures
        r == ascii_lower(c),
{
    if 'A' <= c && c <= 'Z' {
        let code: u32 = (c as u32) + 32;
        proof {
            assert(0x41 <= code - 32 <= 0x5a);
        }
        char_from_ascii(code)
    } else {
        c
    }
}

/// The character with an ASCII code.
fn char_from_ascii(code: u32) -> (c: char)
    requires
        0x61 <= code <= 0x7a,
    ensures
        c == code as char,
{
    let b: u8 = code as u8;
    b as char
}

fn equals_word_ignoring_case(v: &Vec<char>, from: usize, w: &[char]) -> (r: bool)
    requires
        from <= v@.len(),
    ensures
        r == equals_ignoring_case(v@.skip(from as int), w@),
{
    let n = v.len() - from;
    if n != w.len() {
        return false;
    }
    let mut i: usize = 0;
    while i < n
        invariant
            n == v@.len() - from,
            n + from == v.len(),
            n == w@.len(),
            from <= v@.len(),
            0 <= i <= n,
            forall|k: int| 0 <= k < i ==> ascii_lower(#[trigger] v@.skip(from as int)[k]) == w@[k],
        decreases n - i,
    {
        if lower_char(v[from + i]) != w[i] {
            assert(v@.skip(from as int)[i as int] == v@[from + i]);
            return false;
        }
        assert(v@.skip(from as int)[i as int] == v@[from + i]);
        i = i + 1;
    }
    true
}

/// Whether the exponent part starting at `from` is well formed.
fn exponent_ok(v: &Vec<char>, from: usize) -> (r: bool)
    requires
        from < v@.len(),
    ensures
        r == is_exponent(v@.skip(from as int)),
{
    let ghost t = v@.skip(from as int);
    assert(from < v.len());
    if !(v[from] == 'e' || v[from] == 'E') {
        return false;
    }
    let mut k = from + 1;
    assert(t.drop_first() == v@.skip(from + 1));
    if k < v.len() && (v[k] == '+' || v[k] == '-') {
        assert(v@.skip(from + 1).drop_first() == v@.skip(from + 2));
        k = k + 1;
    }
    let d = count_digits(v, k);
    k < v.len() && k + d == v.len()
}

/// Whether `s` is a floating point number in Rust's decimal syntax.
pub fn float_text_ok(s: &String) -> (r: bool)
    ensures
        r == is_float_text(s@),
{
    let mut v: Vec<char> = Vec::new();
    crate::text::push_str_chars(&mut v, s.as_str());
    assert(v@ == s@);
    let mut start: usize = 0;
    if v.len() > 0 && (v[0] == '+' || v[0] == '-') {
        start = 1;
    }
    let ghost u = unsigned_part(v@);
    assert(u == v@.skip(start as int));
    let w_inf = ['i', 'n', 'f'];
    let w_infinity = ['i', 'n', 'f', 'i', 'n', 'i', 't', 'y'];
    let w_nan = ['n', 'a', 'n'];
    assert(w_inf@ == seq!['i', 'n', 'f']);
    assert(w_infinity@ == seq!['i', 'n', 'f', 'i', 'n', 'i', 't', 'y']);
    assert(w_nan@ == seq!['n', 'a', 'n']);
    if equals_word_ignoring_case(&v, start, &w_inf) || equals_word_ignoring_case(&v, start, &w_infinity)
        || equals_word_ignoring_case(&v, start, &w_nan) {
        return true;
    }
    let i = count_digits(&v, start);
    let p = start + i;
    assert(u.skip(i as int) == v@.skip(p as int));
    if p < v.len() && v[p] == '.' {
        assert(v@.skip(p as int).drop_first() == v@.skip(p + 1));
        let j = count_digits(&v, p + 1);
        let q = p + 1 + j;
        assert(v@.skip(p + 1).skip(j as int) == v@.skip(q as int));
        if i + j == 0 {
            return false;
        }
        q == v.len() || exponent_ok(&v, q)
    } else {
        if i == 0 {
            return false;
        }
        p == v.len() || exponent_ok(&v, p)
    }
}

// ---------------------------------------------------------------------------
// The displayed form of a number literal
// ---------------------------------------------------------------------------

/// The index of the first `.` in `s`, or its length if there is none.
pub open spec fn dot_at(s: Seq<char>) -> int
    decreases s.len(),
{
    if s.len() == 0 || s[0] == '.' {
        0
    } else {
        1 + dot_at(s.drop_first())
    }
}

/// The digits without their leading zeros, keeping at least one digit.
pub open spec fn drop_leading_zeros(s: Seq<char>) -> Seq<char>
    decreases s.len(),
{
    if s.len() > 1 && s[0] == '0' {
        drop_leading_zeros(s.drop_first())
    } else {
        s
    }
}

/// The digits without their trailing zeros.
pub open spec fn drop_trailing_zeros(s: Seq<char>) -> Seq<char>
    decreases s.len(),
{
    if s.len() > 0 && s.last() == '0' {
        drop_trailing_zeros(s.drop_last())
    } else {
        s
    }
}

/// The displayed form of a decimal number literal (digits with at most one
/// `.`): the integer part without leading zeros (`0` when it is empty), a
/// `.`, and the fraction without trailing zeros, or `0` when it has none left
/// (`12` gives `12.0`, `3.50` gives `3.5`, `007.` gives `7.0`, `.5` gives
/// `0.5`).
///
/// This is the text that Rust prints for the literal's `f64` value, with one
/// decimal when the value is whole, whenever the literal has at most 15
/// significant digits and its value is zero or lies in `[1e-307, 1e15)`: such
/// a decimal is the shortest one that converts to its `f64` value, a whole
/// value below `1e15` is exact in `f64`, and `f64`'s `Display` writes no
/// exponent. Outside those literals the two can differ.
pub open spec fn number_literal(s: Seq<char>) -> Seq<char> {
    let d = dot_at(s);
    let int_part = if d == 0 { seq!['0'] } else { drop_leading_zeros(s.take(d)) };
    let frac = if d < s.len() { drop_trailing_zeros(s.skip(d + 1)) } else { seq![] };
    int_part + seq!['.'] + (if frac.len() == 0 { seq!['0'] } else { frac })
}

proof fn lemma_dot_at_bounds(s: Seq<char>)
    ensures
        0 <= dot_at(s) <= s.len(),
        dot_at(s) < s.len() ==> s[dot_at(s)] == '.',
    decreases s.len(),
{
    if s.len() > 0 && s[0] != '.' {
        lemma_dot_at_bounds(s.drop_first());
    }
}

/// Builds the displayed form of a number literal, as `number_literal` states.
pub fn canonical_number(s: &Vec<char>) -> (r: Vec<char>)
    ensures
        r@ == number_literal(s@),
{
    proof { lemma_dot_at_bounds(s@); }
    // Where the integer part ends.
    let mut d: usize = 0;
    assert(s@.skip(0) =~= s@);
    while d < s.len() && s[d] != '.'
        invariant
            d <= s@.len(),
            dot_at(s@) == d + dot_at(s@.skip(d as int)),
        decreases s@.len() - d,
    {
        assert(s@.skip(d as int).drop_first() =~= s@.skip(d + 1));
        d = d + 1;
    }
    assert(dot_at(s@) == d);
    // The integer part without its leading zeros.
    let mut k: usize = 0;
    assert(s@.take(d as int).subrange(0, d as int) =~= s@.take(d as int));
    while k + 1 < d && s[k] == '0'
        invariant
            k <= d,
            d <= s@.len(),
            d == 0 ==> k == 0,
            k < d || d == 0,
            drop_leading_zeros(s@.take(d as int)) == drop_leading_zeros(s@.subrange(k as int, d as int)),
        decreases d - k,
    {
        assert(s@.subrange(k as int, d as int).drop_first() =~= s@.subrange(k + 1, d as int));
        k = k + 1;
    }
    let mut out: Vec<char> = Vec::new();
    if d == 0 {
        out.push('0');
    }
    let mut i: usize = k;
    while i < d
        invariant
            k <= i <= d,
            d <= s@.len(),
            d == 0 ==> out@ == seq!['0'],
            d > 0 ==> out@ == s@.subrange(k as int, i as int),
        decreases d - i,
    {
        out.push(s[i]);
        i = i + 1;
        assert(out@ =~= s@.subrange(k as int, i as int));
    }
    assert(d > 0 ==> drop_leading_zeros(s@.subrange(k as int, d as int)) == s@.subrange(k as int, d as int));
    let ghost int_part = out@;
    out.push('.');
    // The fraction without its trailing zeros.
    let mut e: usize = s.len();
    if d < s.len() {
        assert(s@.skip(d + 1) =~= s@.subrange(d + 1, e as int));
        while e > d + 1 && s[e - 1] == '0'
            invariant
                d + 1 <= e <= s@.len(),
                drop_trailing_zeros(s@.skip(d + 1)) == drop_trailing_zeros(s@.subrange(d + 1, e as int)),
            decreases e,
        {
            assert(s@.subrange(d + 1, e as int).drop_last() =~= s@.subrange(d + 1, e - 1));
            e = e - 1;
        }
        assert(drop_trailing_zeros(s@.subrange(d + 1, e as int)) == s@.subrange(d + 1, e as int));
    }
    let ghost frac: Seq<char> = if d < s.len() { s@.subrange(d + 1, e as int) } else { seq![] };
    if d < s.len() && e > d + 1 {
        let mut j: usize = d + 1;
        let ghost before = out@;
        while j < e
            invariant
                d + 1 <= j <= e,
                e <= s@.len(),
                out@ == before + s@.subrange(d + 1, j as int),
            decreases e - j,
        {
            out.push(s[j]);
            j = j + 1;
            assert(out@ =~= before + s@.subrange(d + 1, j as int));
        }
    } else {
        out.push('0');
    }
    assert(out@ =~= number_literal(s@));
    out
}


/// Whether every character of `s` is a decimal digit or a `.`.
pub open spec fn only_decimal_chars(s: Seq<char>) -> bool {
    forall|i: int| 0 <= i < s.len() ==> is_digit(#[trigger] s[i]) || s[i] == '.'
}

/// The form in which a number literal in Rust's float syntax is kept once
/// parsed: a literal in plain decimal notation (an optional sign, then digits
/// with at most one `.`) is written as `number_literal` writes its digits,
/// after a `-` where it has one (a `+` is dropped); a literal in another
/// notation of that syntax (with an exponent, `inf` or `nan`) is kept as
/// written.
pub open spec fn printed_number(s: Seq<char>) -> Seq<char> {
    let u = unsigned_part(s);
    if only_decimal_chars(u) {
        if s.len() > 0 && s[0] == '-' { seq!['-'] + number_literal(u) } else { number_literal(u) }
    } else {
        s
    }
}

/// Builds the form in which a parsed number literal is kept, as
/// `printed_number` states.
pub fn printed_number_text(s: &String) -> (r: String)
    ensures
        r@ == printed_number(s@),
{
    let mut v: Vec<char> = Vec::new();
    crate::text::push_str_chars(&mut v, s.as_str());
    assert(v@ == s@);
    let mut start: usize = 0;
    if v.len() > 0 && (v[0] == '+' || v[0] == '-') {
        start = 1;
    }
    assert(unsigned_part(v@) == v@.skip(start as int));
    let mut u: Vec<char> = Vec::new();
    let mut i: usize = start;
    while i < v.len()
        invariant
            start <= i <= v@.len(),
            v@ == s@,
            unsigned_part(v@) == v@.skip(start as int),
            u@ == v@.subrange(start as int, i as int),
            only_decimal_chars(u@),
        decreases v@.len() - i,
    {
        let c = v[i];
        if !(('0' <= c && c <= '9') || c == '.') {
            let ghost k: int = i - start;
            assert(unsigned_part(v@)[k] == c);
            assert(!(is_digit(unsigned_part(v@)[k]) || unsigned_part(v@)[k] == '.'));
            return s.clone();
        }
        u.push(c);
        i = i + 1;
        assert(u@ =~= v@.subrange(start as int, i as int));
    }
    assert(u@ =~= unsigned_part(v@));
    let digits = canonical_number(&u);
    let mut out: Vec<char> = Vec::new();
    if start == 1 && v[0] == '-' {
        out.push('-');
    }
    crate::text::push_all(&mut out, &digits);
    assert(out@ =~= printed_number(s@));
    crate::text::chars_to_string(&out)
}

/// `drop_leading_zeros` keeps a nonempty suffix that starts with a nonzero
/// digit unless it is a single character, and changes nothing more when
/// applied again.
proof fn lemma_drop_leading_zeros(t: Seq<char>)
    ensures
        drop_leading_zeros(t).len() <= t.len(),
        drop_leading_zeros(t) == t.skip(t.len() - drop_leading_zeros(t).len()),
        t.len() > 0 ==> drop_leading_zeros(t).len() > 0,
        drop_leading_zeros(t).len() > 1 ==> drop_leading_zeros(t)[0] != '0',
        drop_leading_zeros(drop_leading_zeros(t)) == drop_leading_zeros(t),
    decreases t.len(),
{
    if t.len() > 1 && t[0] == '0' {
        lemma_drop_leading_zeros(t.drop_first());
        assert(t.drop_first().skip(t.len() - 1 - drop_leading_zeros(t).len()) =~= t.skip(
            t.len() - drop_leading_zeros(t).len(),
        ));
    } else {
        assert(t.skip(0) =~= t);
    }
}

/// `drop_trailing_zeros` keeps a prefix that does not end with `0`.
proof fn lemma_drop_trailing_zeros(t: Seq<char>)
    ensures
        drop_trailing_zeros(t) == t.take(drop_trailing_zeros(t).len() as int),
        drop_trailing_zeros(t).len() > 0 ==> drop_trailing_zeros(t).last() != '0',
        drop_trailing_zeros(t).len() <= t.len(),
    decreases t.len(),
{
    if t.len() > 0 && t.last() == '0' {
        lemma_drop_trailing_zeros(t.drop_last());
        assert(t.drop_last().take(drop_trailing_zeros(t).len() as int) =~= t.take(
            drop_trailing_zeros(t).len() as int,
        ));
    } else {
        assert(t.take(t.len() as int) =~= t);
    }
}

/// A sequence without trailing zeros is left as it is.
proof fn lemma_drop_trailing_zeros_fixed(t: Seq<char>)
    requires
        t.len() == 0 || t.last() != '0',
    ensures
        drop_trailing_zeros(t) == t,
{
}

/// The first `.` of a sequence that has none before position `k`, where one stands.
proof fn lemma_dot_at_first(s: Seq<char>, k: int)
    requires
        0 <= k < s.len(),
        s[k] == '.',
        forall|i: int| 0 <= i < k ==> s[i] != '.',
    ensures
        dot_at(s) == k,
    decreases k,
{
    if k > 0 {
        assert forall|i: int| 0 <= i < k - 1 implies s.drop_first()[i] != '.' by {
            assert(s.drop_first()[i] == s[i + 1]);
        }
        lemma_dot_at_first(s.drop_first(), k - 1);
    }
}

/// For a number written as the tokenizer reads one (a digit first, then
/// digits with at most one `.`), its displayed form is already the form in
/// which the parser keeps a number: parsing the token's literal keeps it
/// unchanged, so the number shows the same text after tokenizing and after
/// parsing.
pub proof fn lemma_token_literal_is_printed_form(s: Seq<char>)
    requires
        s.len() > 0,
        is_digit(s[0]),
        only_decimal_chars(s),
        forall|i: int, j: int| 0 <= i < j < s.len() ==> !(#[trigger] s[i] == '.' && #[trigger] s[j] == '.'),
    ensures
        printed_number(number_literal(s)) == number_literal(s),
{
    lemma_dot_at_bounds(s);
    let d = dot_at(s);
    let t = s.take(d);
    lemma_dot_at_no_dot_before(s);
    assert(d > 0) by {
        if d == 0 { assert(s[0] == '.'); }
    }
    let i_part = drop_leading_zeros(t);
    lemma_drop_leading_zeros(t);
    let raw = if d < s.len() { s.skip(d + 1) } else { seq![] };
    let frac = if d < s.len() { drop_trailing_zeros(s.skip(d + 1)) } else { seq![] };
    lemma_drop_trailing_zeros(raw);
    assert(frac == drop_trailing_zeros(raw)) by {
        if d >= s.len() { assert(raw.len() == 0); }
    }
    let f_part = if frac.len() == 0 { seq!['0'] } else { frac };
    let lit = i_part + seq!['.'] + f_part;
    assert(lit == number_literal(s));
    // The integer part holds digits only, and the fraction digits only.
    assert forall|i: int| 0 <= i < i_part.len() implies is_digit(#[trigger] i_part[i]) by {
        let k = t.len() - i_part.len();
        assert(i_part[i] == t.skip(k)[i]);
        assert(t[k + i] == s[k + i]);
        assert(s[k + i] != '.');
        assert(is_digit(s[k + i]) || s[k + i] == '.');
    }
    assert forall|i: int| 0 <= i < f_part.len() implies is_digit(#[trigger] f_part[i]) by {
        if frac.len() > 0 {
            assert(frac[i] == raw[i]);
            assert(raw[i] == s[d + 1 + i]);
            assert(is_digit(s[d + 1 + i]) || s[d + 1 + i] == '.');
            assert(s[d] == '.');
        }
    }
    // The literal is in plain decimal notation, with no sign.
    assert(is_digit(lit[0]));
    assert(unsigned_part(lit) == lit);
    assert forall|i: int| 0 <= i < lit.len() implies is_digit(#[trigger] lit[i]) || lit[i] == '.' by {
        if i < i_part.len() {
            assert(lit[i] == i_part[i]);
        } else if i > i_part.len() {
            assert(lit[i] == f_part[i - i_part.len() - 1]);
        }
    }
    assert(only_decimal_chars(lit));
    // Its pieces come back unchanged.
    assert forall|i: int| 0 <= i < i_part.len() implies lit[i] != '.' by {
        assert(lit[i] == i_part[i]);
    }
    lemma_dot_at_first(lit, i_part.len() as int);
    assert(lit.take(i_part.len() as int) =~= i_part);
    assert(lit.skip(i_part.len() as int + 1) =~= f_part);
    if frac.len() > 0 {
        lemma_drop_trailing_zeros_fixed(frac);
    } else {
        assert(drop_trailing_zeros(seq!['0']).len() == 0) by {
            reveal_with_fuel(drop_trailing_zeros, 2);
            assert(seq!['0'].drop_last() =~= Seq::<char>::empty());
        }
    }
    assert(number_literal(lit) =~= lit);
}

/// Before the first `.` of `s` there is none.
proof fn lemma_dot_at_no_dot_before(s: Seq<char>)
    ensures
        forall|i: int| 0 <= i < dot_at(s) && i < s.len() ==> s[i] != '.',
    decreases s.len(),
{
    if s.len() > 0 && s[0] != '.' {
        lemma_dot_at_no_dot_before(s.drop_first());
        assert forall|i: int| 0 <= i < dot_at(s) && i < s.len() implies s[i] != '.' by {
            if i > 0 {
                assert(s[i] == s.drop_first()[i - 1]);
            }
        }
    }
}

} // verus!
