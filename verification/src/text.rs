//! Character-sequence helpers behind the duration codec: ASCII lowercasing,
//! whitespace stripping, substring replacement, marker search, and decimal
//! reading and rendering, each specified over `Seq<char>`.

use vstd::prelude::*;

verus! {

/// ASCII lowercasing of one character; other characters are unchanged.
/// Deliberately ASCII-only: the unit markers, signs and digits the duration
/// grammar recognizes are all ASCII, and no character outside ASCII
/// lowercases onto one of them, so a non-ASCII letter leaves its segment
/// unparseable — contributing zero — whether or not it is lowercased.
pub open spec fn lower_char(c: char) -> char {
    match c {
        'A' => 'a',
        'B' => 'b',
        'C' => 'c',
        'D' => 'd',
        'E' => 'e',
        'F' => 'f',
        'G' => 'g',
        'H' => 'h',
        'I' => 'i',
        'J' => 'j',
        'K' => 'k',
        'L' => 'l',
        'M' => 'm',
        'N' => 'n',
        'O' => 'o',
        'P' => 'p',
        'Q' => 'q',
        'R' => 'r',
        'S' => 's',
        'T' => 't',
        'U' => 'u',
        'V' => 'v',
        'W' => 'w',
        'X' => 'x',
        'Y' => 'y',
        'Z' => 'z',
        _ => c,
    }
}

/// Unicode whitespace: the characters with the `White_Space` property, the
/// set the standard library's whitespace test recognizes.
pub open spec fn is_space(c: char) -> bool {
    c == ' ' || c == '\t' || c == '\n' || c == '\r' || c == '\u{b}' || c == '\u{c}' || c
        == '\u{85}' || c == '\u{a0}' || c == '\u{1680}' || c == '\u{2000}' || c == '\u{2001}' || c
        == '\u{2002}' || c == '\u{2003}' || c == '\u{2004}' || c == '\u{2005}' || c == '\u{2006}'
        || c == '\u{2007}' || c == '\u{2008}' || c == '\u{2009}' || c == '\u{200a}' || c
        == '\u{2028}' || c == '\u{2029}' || c == '\u{202f}' || c == '\u{205f}' || c == '\u{3000}'
}

/// Lowercase every character and drop whitespace, in one front-to-back pass.
pub open spec fn lower_strip(s: Seq<char>) -> Seq<char>
    decreases s.len(),
{
    if s.len() == 0 {
        Seq::<char>::empty()
    } else if is_space(s[0]) {
        lower_strip(s.skip(1))
    } else {
        seq![lower_char(s[0])] + lower_strip(s.skip(1))
    }
}

/// Replace every non-overlapping occurrence of `pat` in `s` by `rep`,
/// scanning from the left.
pub open spec fn replace_seq(s: Seq<char>, pat: Seq<char>, rep: Seq<char>) -> Seq<char>
    decreases s.len(),
{
    if s.len() == 0 {
        s
    } else if 0 < pat.len() && pat.len() <= s.len() && s.take(pat.len() as int) == pat {
        rep + replace_seq(s.skip(pat.len() as int), pat, rep)
    } else {
        seq![s[0]] + replace_seq(s.skip(1), pat, rep)
    }
}

/// Index of the first occurrence of `c` in `s`, or -1 if there is none.
pub open spec fn find_char(s: Seq<char>, c: char) -> int
    decreases s.len(),
{
    if s.len() == 0 {
        -1
    } else if s[0] == c {
        0
    } else {
        let r = find_char(s.skip(1), c);
        if r == -1 {
            -1
        } else {
            r + 1
        }
    }
}

pub proof fn lemma_find_char_hit(s: Seq<char>, c: char, k: int)
    requires
        0 <= k < s.len(),
        s[k] == c,
        forall|j: int| 0 <= j < k ==> s[j] != c,
    ensures
        find_char(s, c) == k,
    decreases k,
{
    if k > 0 {
        lemma_find_char_hit(s.skip(1), c, k - 1);
    }
}

pub proof fn lemma_find_char_miss(s: Seq<char>, c: char)
    requires
        forall|j: int| 0 <= j < s.len() ==> s[j] != c,
    ensures
        find_char(s, c) == -1,
    decreases s.len(),
{
    if s.len() > 0 {
        lemma_find_char_miss(s.skip(1), c);
    }
}

/// A found character lies inside the string and is the character sought.
pub proof fn lemma_find_char_bounds(s: Seq<char>, c: char)
    ensures
        find_char(s, c) == -1 || (0 <= find_char(s, c) < s.len() && s[find_char(s, c)] == c),
    decreases s.len(),
{
    if s.len() > 0 && s[0] != c {
        lemma_find_char_bounds(s.skip(1), c);
    }
}

/// Is `c` one of the ten decimal digits?
pub open spec fn is_digit(c: char) -> bool {
    c == '0' || c == '1' || c == '2' || c == '3' || c == '4' || c == '5' || c == '6' || c == '7'
        || c == '8' || c == '9'
}

/// Numeric value of a decimal digit (zero on any other character).
pub open spec fn digit_val(c: char) -> int {
    match c {
        '0' => 0,
        '1' => 1,
        '2' => 2,
        '3' => 3,
        '4' => 4,
        '5' => 5,
        '6' => 6,
        '7' => 7,
        '8' => 8,
        '9' => 9,
        _ => 0,
    }
}

pub open spec fn all_digits(s: Seq<char>) -> bool {
    forall|i: int| 0 <= i < s.len() ==> is_digit(#[trigger] s[i])
}

/// Value of a string of decimal digits, most significant first.
pub open spec fn digits_val(s: Seq<char>) -> int
    decreases s.len(),
{
    if s.len() == 0 {
        0
    } else {
        digits_val(s.drop_last()) * 10 + digit_val(s.last())
    }
}

/// The digits of an integer literal: an optional leading `+` sign is allowed,
/// as the standard library's unsigned parser accepts one.
pub open spec fn int_body(s: Seq<char>) -> Seq<char> {
    if s.len() > 0 && s[0] == '+' {
        s.skip(1)
    } else {
        s
    }
}

/// Does `s` parse as a 64-bit unsigned decimal integer?
pub open spec fn is_u64_literal(s: Seq<char>) -> bool {
    &&& int_body(s).len() > 0
    &&& all_digits(int_body(s))
    &&& digits_val(int_body(s)) <= u64::MAX
}

/// Value of a duration segment: the integer it spells, or zero when it does
/// not parse (the codec's deliberate silent fallback).
pub open spec fn seg_val(s: Seq<char>) -> int {
    if is_u64_literal(s) {
        digits_val(int_body(s))
    } else {
        0
    }
}

pub proof fn lemma_digits_val_nonneg(s: Seq<char>)
    ensures
        digits_val(s) >= 0,
    decreases s.len(),
{
    if s.len() > 0 {
        lemma_digits_val_nonneg(s.drop_last());
    }
}

/// A prefix of a digit string never spells a larger value than the whole.
pub proof fn lemma_digits_val_take_le(s: Seq<char>, m: int)
    requires
        0 <= m <= s.len(),
    ensures
        digits_val(s.take(m)) <= digits_val(s),
    decreases s.len(),
{
    lemma_digits_val_nonneg(s.take(m));
    if m < s.len() {
        assert(s.drop_last().take(m) =~= s.take(m));
        lemma_digits_val_take_le(s.drop_last(), m);
        lemma_digits_val_nonneg(s.drop_last());
    } else {
        assert(s.take(m) =~= s);
    }
}

/// A string without a single decimal digit.
pub open spec fn digit_free(s: Seq<char>) -> bool {
    forall|i: int| 0 <= i < s.len() ==> !is_digit(#[trigger] s[i])
}

pub proof fn lemma_skip_digit_free(s: Seq<char>, k: int)
    requires
        digit_free(s),
        0 <= k <= s.len(),
    ensures
        digit_free(s.skip(k)),
{
    assert forall|i: int| 0 <= i < s.skip(k).len() implies !is_digit(#[trigger] s.skip(k)[i]) by {
        assert(s.skip(k)[i] == s[k + i]);
    }
}

pub proof fn lemma_take_digit_free(s: Seq<char>, k: int)
    requires
        digit_free(s),
        0 <= k <= s.len(),
    ensures
        digit_free(s.take(k)),
{
    assert forall|i: int| 0 <= i < s.take(k).len() implies !is_digit(#[trigger] s.take(k)[i]) by {
        assert(s.take(k)[i] == s[i]);
    }
}

/// The input with its whitespace removed and nothing else changed.
pub open spec fn strip_ws(s: Seq<char>) -> Seq<char>
    decreases s.len(),
{
    if s.len() == 0 {
        Seq::<char>::empty()
    } else if is_space(s[0]) {
        strip_ws(s.skip(1))
    } else {
        seq![s[0]] + strip_ws(s.skip(1))
    }
}

/// Removing whitespace from a string without any is the identity.
pub proof fn lemma_strip_ws_identity(s: Seq<char>)
    requires
        forall|i: int| 0 <= i < s.len() ==> !is_space(#[trigger] s[i]),
    ensures
        strip_ws(s) == s,
    decreases s.len(),
{
    if s.len() > 0 {
        assert forall|i: int| 0 <= i < s.skip(1).len() implies !is_space(#[trigger] s.skip(1)[i]) by {
            assert(s.skip(1)[i] == s[i + 1]);
        }
        lemma_strip_ws_identity(s.skip(1));
        assert(seq![s[0]] + s.skip(1) =~= s);
    }
}

/// The lowercase-and-strip pass gives the same result whether or not the
/// whitespace was already removed.
pub proof fn lemma_lower_strip_strip_ws(s: Seq<char>)
    ensures
        lower_strip(strip_ws(s)) == lower_strip(s),
    decreases s.len(),
{
    if s.len() > 0 {
        lemma_lower_strip_strip_ws(s.skip(1));
        if !is_space(s[0]) {
            let t = seq![s[0]] + strip_ws(s.skip(1));
            assert(t[0] == s[0]);
            assert(t.skip(1) =~= strip_ws(s.skip(1)));
        }
    }
}

/// Elementwise facts about ASCII lowercasing: it fixes digits, signs and
/// whitespace, and never turns anything into a digit or whitespace.
pub proof fn lemma_lower_char_props(c: char)
    ensures
        is_digit(lower_char(c)) == is_digit(c),
        is_digit(c) ==> lower_char(c) == c,
        is_space(lower_char(c)) == is_space(c),
        lower_char(lower_char(c)) == lower_char(c),
        (lower_char(c) == '+') == (c == '+'),
{
}

/// Lowercasing and stripping a digit-free string leaves it digit-free.
pub proof fn lemma_lower_strip_digit_free(s: Seq<char>)
    requires
        digit_free(s),
    ensures
        digit_free(lower_strip(s)),
    decreases s.len(),
{
    if s.len() > 0 {
        lemma_skip_digit_free(s, 1);
        lemma_lower_strip_digit_free(s.skip(1));
        if !is_space(s[0]) {
            let r = seq![lower_char(s[0])] + lower_strip(s.skip(1));
            assert(!is_digit(s[0]));
            lemma_lower_char_props(s[0]);
            assert forall|i: int| 0 <= i < r.len() implies !is_digit(#[trigger] r[i]) by {
                if i > 0 {
                    assert(r[i] == lower_strip(s.skip(1))[i - 1]);
                }
            }
        }
    }
}

/// Replacement with a digit-free replacement string leaves a digit-free
/// string digit-free.
pub proof fn lemma_replace_digit_free(s: Seq<char>, pat: Seq<char>, rep: Seq<char>)
    requires
        digit_free(s),
        digit_free(rep),
    ensures
        digit_free(replace_seq(s, pat, rep)),
    decreases s.len(),
{
    if s.len() == 0 {
    } else if 0 < pat.len() && pat.len() <= s.len() && s.take(pat.len() as int) == pat {
        lemma_skip_digit_free(s, pat.len() as int);
        lemma_replace_digit_free(s.skip(pat.len() as int), pat, rep);
        let r = rep + replace_seq(s.skip(pat.len() as int), pat, rep);
        assert forall|i: int| 0 <= i < r.len() implies !is_digit(#[trigger] r[i]) by {
            if i < rep.len() {
                assert(r[i] == rep[i]);
            } else {
                assert(r[i] == replace_seq(s.skip(pat.len() as int), pat, rep)[i - rep.len()]);
            }
        }
    } else {
        lemma_skip_digit_free(s, 1);
        lemma_replace_digit_free(s.skip(1), pat, rep);
        let r = seq![s[0]] + replace_seq(s.skip(1), pat, rep);
        assert(!is_digit(s[0]));
        assert forall|i: int| 0 <= i < r.len() implies !is_digit(#[trigger] r[i]) by {
            if i > 0 {
                assert(r[i] == replace_seq(s.skip(1), pat, rep)[i - 1]);
            }
        }
    }
}

/// The decimal digit character for a value below ten.
pub open spec fn dec_digit(d: int) -> char {
    if d == 0 {
        '0'
    } else if d == 1 {
        '1'
    } else if d == 2 {
        '2'
    } else if d == 3 {
        '3'
    } else if d == 4 {
        '4'
    } else if d == 5 {
        '5'
    } else if d == 6 {
        '6'
    } else if d == 7 {
        '7'
    } else if d == 8 {
        '8'
    } else {
        '9'
    }
}

/// Decimal rendering of a non-negative integer, without leading zeros.
pub open spec fn dec_seq(n: int) -> Seq<char>
    decreases n,
{
    if n < 10 {
        seq![dec_digit(n)]
    } else {
        dec_seq(n / 10) + seq![dec_digit(n % 10)]
    }
}

/// The character `c` occurs nowhere in `s`.
pub open spec fn char_absent(s: Seq<char>, c: char) -> bool {
    forall|i: int| 0 <= i < s.len() ==> #[trigger] s[i] != c
}

/// Replacement leaves a string alone when some character of the pattern
/// occurs nowhere in it.
pub proof fn lemma_replace_absent(s: Seq<char>, pat: Seq<char>, rep: Seq<char>, c: char, j: int)
    requires
        0 <= j < pat.len(),
        pat[j] == c,
        char_absent(s, c),
    ensures
        replace_seq(s, pat, rep) == s,
    decreases s.len(),
{
    if s.len() > 0 {
        if 0 < pat.len() && pat.len() <= s.len() && s.take(pat.len() as int) == pat {
            assert(s.take(pat.len() as int)[j] == s[j]);
            assert(false);
        }
        assert forall|i: int| 0 <= i < s.skip(1).len() implies #[trigger] s.skip(1)[i] != c by {
            assert(s.skip(1)[i] == s[i + 1]);
        }
        lemma_replace_absent(s.skip(1), pat, rep, c, j);
        assert(seq![s[0]] + s.skip(1) =~= s);
    }
}

/// The lowercase-and-strip pass distributes over concatenation.
pub proof fn lemma_lower_strip_concat(a: Seq<char>, b: Seq<char>)
    ensures
        lower_strip(a + b) == lower_strip(a) + lower_strip(b),
    decreases a.len(),
{
    if a.len() == 0 {
        assert(a + b =~= b);
        assert(lower_strip(a) + lower_strip(b) =~= lower_strip(b));
    } else {
        assert((a + b).skip(1) =~= a.skip(1) + b);
        assert((a + b)[0] == a[0]);
        lemma_lower_strip_concat(a.skip(1), b);
        if !is_space(a[0]) {
            assert(seq![lower_char(a[0])] + (lower_strip(a.skip(1)) + lower_strip(b)) =~= (seq![
                lower_char(a[0]),
            ] + lower_strip(a.skip(1))) + lower_strip(b));
        }
    }
}

/// The lowercase-and-strip pass fixes a string of digits.
pub proof fn lemma_lower_strip_digits(s: Seq<char>)
    requires
        all_digits(s),
    ensures
        lower_strip(s) == s,
    decreases s.len(),
{
    if s.len() > 0 {
        assert(is_digit(s[0]));
        lemma_lower_char_props(s[0]);
        assert forall|i: int| 0 <= i < s.skip(1).len() implies is_digit(#[trigger] s.skip(1)[i]) by {
            assert(s.skip(1)[i] == s[i + 1]);
        }
        lemma_lower_strip_digits(s.skip(1));
        assert(seq![s[0]] + s.skip(1) =~= s);
    }
}

/// The lowercase-and-strip pass turns a lowercase marker and a space into
/// the marker alone.
pub proof fn lemma_lower_strip_pair(c: char)
    requires
        !is_space(c),
        lower_char(c) == c,
    ensures
        lower_strip(seq![c, ' ']) == seq![c],
{
    let s = seq![c, ' '];
    assert(s.skip(1) =~= seq![' ']);
    assert(seq![' '].skip(1) =~= Seq::<char>::empty());
    assert(lower_strip(seq![' ']) == lower_strip(Seq::<char>::empty()));
    assert(seq![c] + Seq::<char>::empty() =~= seq![c]);
}

/// The lowercase-and-strip pass fixes a lone lowercase marker.
pub proof fn lemma_lower_strip_single(c: char)
    requires
        !is_space(c),
        lower_char(c) == c,
    ensures
        lower_strip(seq![c]) == seq![c],
{
    assert(seq![c].skip(1) =~= Seq::<char>::empty());
    assert(lower_strip(seq![c]) == seq![lower_char(c)] + lower_strip(seq![c].skip(1)));
    assert(lower_strip(seq![c]) =~= seq![c]);
}

/// A decimal rendering consists of digits and is never empty.
pub proof fn lemma_dec_seq_digits(n: int)
    requires
        0 <= n,
    ensures
        all_digits(dec_seq(n)),
        dec_seq(n).len() > 0,
    decreases n,
{
    if n < 10 {
        assert(is_digit(dec_seq(n)[0]));
    } else {
        lemma_dec_seq_digits(n / 10);
        let r = dec_seq(n / 10) + seq![dec_digit(n % 10)];
        assert(is_digit(dec_digit(n % 10)));
        assert forall|i: int| 0 <= i < r.len() implies is_digit(#[trigger] r[i]) by {
            if i < dec_seq(n / 10).len() {
                assert(r[i] == dec_seq(n / 10)[i]);
            } else {
                assert(r[i] == dec_digit(n % 10));
            }
        }
    }
}

/// A decimal rendering spells back the number it renders.
pub proof fn lemma_dec_seq_val(n: int)
    requires
        0 <= n,
    ensures
        digits_val(dec_seq(n)) == n,
    decreases n,
{
    if n < 10 {
        let s = seq![dec_digit(n)];
        assert(s.drop_last() =~= Seq::<char>::empty());
        assert(s.last() == dec_digit(n));
        assert(digit_val(dec_digit(n)) == n);
        assert(digits_val(s) == digits_val(s.drop_last()) * 10 + digit_val(s.last()));
    } else {
        lemma_dec_seq_val(n / 10);
        let r = dec_seq(n / 10) + seq![dec_digit(n % 10)];
        assert(r.drop_last() =~= dec_seq(n / 10));
        assert(r.last() == dec_digit(n % 10));
        assert(digit_val(dec_digit(n % 10)) == n % 10);
    }
}

/// Convert a string slice to the vector of its characters.
pub fn str_to_chars(s: &str) -> (v: Vec<char>)
    ensures
        v@ == s@,
{
    let n = s.unicode_len();
    let mut v: Vec<char> = Vec::new();
    let mut i: usize = 0;
    while i < n
        invariant
            n == s@.len(),
            i <= n,
            v@ == s@.take(i as int),
        decreases n - i,
    {
        let c = s.get_char(i);
        v.push(c);
        proof {
            assert(s@.take(i + 1) =~= s@.take(i as int).push(s@[i as int]));
        }
        i = i + 1;
    }
    proof {
        assert(s@.take(n as int) =~= s@);
    }
    v
}

/// Relies on `String`'s `FromIterator<char>` implementation: collecting
/// characters yields the string of exactly those characters in order.
#[verifier::external_body]
pub fn chars_to_string(v: &Vec<char>) -> (r: String)
    ensures
        r@ == v@,
{
    v.iter().collect()
}

/// Copy out the characters of `v` between positions `a` and `b`.
pub fn subvec(v: &Vec<char>, a: usize, b: usize) -> (out: Vec<char>)
    requires
        a <= b <= v@.len(),
    ensures
        out@ == v@.subrange(a as int, b as int),
{
    let mut out: Vec<char> = Vec::new();
    let mut i: usize = a;
    while i < b
        invariant
            a <= i <= b <= v@.len(),
            out@ == v@.subrange(a as int, i as int),
        decreases b - i,
    {
        out.push(v[i]);
        proof {
            assert(v@.subrange(a as int, i + 1) =~= v@.subrange(a as int, i as int).push(
                v@[i as int],
            ));
        }
        i = i + 1;
    }
    out
}

/// Lowercase and strip whitespace, as `lower_strip` describes.
pub fn lower_strip_vec(v: &Vec<char>) -> (out: Vec<char>)
    ensures
        out@ == lower_strip(v@),
{
    let mut out: Vec<char> = Vec::new();
    let mut i: usize = 0;
    proof {
        assert(v@.skip(0) =~= v@);
        assert(out@ + lower_strip(v@) =~= lower_strip(v@));
    }
    while i < v.len()
        invariant
            i <= v@.len(),
            lower_strip(v@) == out@ + lower_strip(v@.skip(i as int)),
        decreases v@.len() - i,
    {
        let c = v[i];
        let ghost out0 = out@;
        let ghost rest = lower_strip(v@.skip(i + 1));
        proof {
            assert(v@.skip(i as int).len() > 0);
            assert(v@.skip(i as int)[0] == c);
            assert(v@.skip(i as int).skip(1) =~= v@.skip(i + 1));
        }
        if !exec_is_space(c) {
            let lc = exec_lower_char(c);
            out.push(lc);
            proof {
                assert(lower_strip(v@.skip(i as int)) == seq![lower_char(c)] + rest);
                assert(out@ =~= out0 + seq![lc]);
                assert(out0 + (seq![lc] + rest) =~= (out0 + seq![lc]) + rest);
            }
        }
        i = i + 1;
    }
    proof {
        assert(v@.skip(v@.len() as int) =~= Seq::<char>::empty());
        assert(out@ + Seq::<char>::empty() =~= out@);
    }
    out
}

/// Find the position of the first occurrence of `c` in `v`, if any.
pub fn find_char_vec(v: &Vec<char>, c: char) -> (r: Option<usize>)
    ensures
        match r {
            Some(i) => i < v@.len() && find_char(v@, c) == i as int,
            None => find_char(v@, c) == -1,
        },
{
    let mut i: usize = 0;
    while i < v.len()
        invariant
            i <= v@.len(),
            forall|j: int| 0 <= j < i ==> v@[j] != c,
        decreases v@.len() - i,
    {
        if v[i] == c {
            proof {
                lemma_find_char_hit(v@, c, i as int);
            }
            return Some(i);
        }
        i = i + 1;
    }
    proof {
        lemma_find_char_miss(v@, c);
    }
    None
}

/// Does `pat` occur in `v` starting at position `i`?
fn matches_at(v: &Vec<char>, pat: &Vec<char>, i: usize) -> (b: bool)
    requires
        i <= v@.len(),
    ensures
        b == (i + pat@.len() <= v@.len() && v@.subrange(i as int, i + pat@.len()) == pat@),
{
    let n: usize = v.len();
    if n - i < pat.len() {
        return false;
    }
    let mut j: usize = 0;
    while j < pat.len()
        invariant
            j <= pat@.len(),
            n == v@.len(),
            i + pat@.len() <= n,
            forall|k: int| 0 <= k < j ==> v@[i + k] == pat@[k],
        decreases pat@.len() - j,
    {
        proof {
            assert(i + j < n);
        }
        if v[i + j] != pat[j] {
            proof {
                assert(v@.subrange(i as int, i + pat@.len())[j as int] == v@[i + j]);
            }
            return false;
        }
        j = j + 1;
    }
    proof {
        assert(v@.subrange(i as int, i + pat@.len()) =~= pat@);
    }
    true
}

/// Append every character of `xs` to `out`.
fn push_all(out: &mut Vec<char>, xs: &Vec<char>)
    ensures
        final(out)@ == old(out)@ + xs@,
{
    let mut j: usize = 0;
    proof {
        assert(out@ + xs@.take(0) =~= out@);
    }
    while j < xs.len()
        invariant
            j <= xs@.len(),
            out@ == old(out)@ + xs@.take(j as int),
        decreases xs@.len() - j,
    {
        out.push(xs[j]);
        proof {
            assert(old(out)@ + xs@.take(j + 1) =~= (old(out)@ + xs@.take(j as int)).push(
                xs@[j as int],
            ));
        }
        j = j + 1;
    }
    proof {
        assert(xs@.take(xs@.len() as int) =~= xs@);
    }
}

/// Replace every non-overlapping occurrence of `pat` by `rep`, scanning from
/// the left, as `replace_seq` describes.
pub fn replace_vec(v: &Vec<char>, pat: &Vec<char>, rep: &Vec<char>) -> (out: Vec<char>)
    requires
        pat@.len() >= 1,
    ensures
        out@ == replace_seq(v@, pat@, rep@),
{
    let mut out: Vec<char> = Vec::new();
    let mut i: usize = 0;
    proof {
        assert(v@.skip(0) =~= v@);
        assert(out@ + replace_seq(v@, pat@, rep@) =~= replace_seq(v@, pat@, rep@));
    }
    while i < v.len()
        invariant
            i <= v@.len(),
            pat@.len() >= 1,
            replace_seq(v@, pat@, rep@) == out@ + replace_seq(v@.skip(i as int), pat@, rep@),
        decreases v@.len() - i,
    {
        let ghost tail = v@.skip(i as int);
        let ghost out0 = out@;
        proof {
            assert(tail.len() > 0);
            assert(tail[0] == v@[i as int]);
        }
        if matches_at(v, pat, i) {
            proof {
                assert(tail.take(pat@.len() as int) =~= v@.subrange(i as int, i + pat@.len()));
                assert(tail.skip(pat@.len() as int) =~= v@.skip(i + pat@.len()));
                assert(replace_seq(tail, pat@, rep@) == rep@ + replace_seq(
                    v@.skip(i + pat@.len()),
                    pat@,
                    rep@,
                ));
            }
            push_all(&mut out, rep);
            proof {
                assert(out0 + (rep@ + replace_seq(v@.skip(i + pat@.len()), pat@, rep@)) =~= (out0
                    + rep@) + replace_seq(v@.skip(i + pat@.len()), pat@, rep@));
            }
            i = i + pat.len();
        } else {
            proof {
                if pat@.len() <= tail.len() && tail.take(pat@.len() as int) == pat@ {
                    assert(tail.take(pat@.len() as int) =~= v@.subrange(
                        i as int,
                        i + pat@.len(),
                    ));
                    assert(false);
                }
                assert(tail.skip(1) =~= v@.skip(i + 1));
                assert(replace_seq(tail, pat@, rep@) == seq![v@[i as int]] + replace_seq(
                    v@.skip(i + 1),
                    pat@,
                    rep@,
                ));
            }
            out.push(v[i]);
            proof {
                assert(out@ =~= out0 + seq![v@[i as int]]);
                assert(out0 + (seq![v@[i as int]] + replace_seq(v@.skip(i + 1), pat@, rep@)) =~= (
                out0 + seq![v@[i as int]]) + replace_seq(v@.skip(i + 1), pat@, rep@));
            }
            i = i + 1;
        }
    }
    proof {
        assert(v@.skip(v@.len() as int) =~= Seq::<char>::empty());
        assert(replace_seq(Seq::<char>::empty(), pat@, rep@) =~= Seq::<char>::empty());
        assert(out@ + Seq::<char>::empty() =~= out@);
    }
    out
}

/// Executable decimal-digit test and value, matching `is_digit` and
/// `digit_val`.
fn digit_of(c: char) -> (r: Option<u64>)
    ensures
        r is Some <==> is_digit(c),
        r is Some ==> r.unwrap() == digit_val(c),
{
    match c {
        '0' => Some(0),
        '1' => Some(1),
        '2' => Some(2),
        '3' => Some(3),
        '4' => Some(4),
        '5' => Some(5),
        '6' => Some(6),
        '7' => Some(7),
        '8' => Some(8),
        '9' => Some(9),
        _ => None,
    }
}

/// Parse `v` as a 64-bit unsigned decimal integer, exactly as `is_u64_literal`
/// delimits them: an optional leading `+`, then digits, value within range.
pub fn parse_u64_digits(v: &Vec<char>) -> (r: Option<u64>)
    ensures
        r is Some <==> is_u64_literal(v@),
        r is Some ==> r.unwrap() == digits_val(int_body(v@)),
{
    let start: usize = if v.len() > 0 && v[0] == '+' {
        1
    } else {
        0
    };
    let ghost body = int_body(v@);
    proof {
        assert(body =~= v@.skip(start as int));
    }
    if v.len() == start {
        return None;
    }
    let mut acc: u64 = 0;
    let mut k: usize = 0;
    proof {
        assert(body.take(0) =~= Seq::<char>::empty());
    }
    while k < v.len() - start
        invariant
            0 <= k <= body.len(),
            body == int_body(v@),
            body.len() == v@.len() - start,
            body == v@.skip(start as int),
            start <= v@.len(),
            acc == digits_val(body.take(k as int)),
            all_digits(body.take(k as int)),
        decreases body.len() - k,
    {
        let c = v[start + k];
        proof {
            assert(body[k as int] == c);
        }
        let d = match digit_of(c) {
            Some(d) => d,
            None => {
                proof {
                    assert(0 <= k < int_body(v@).len());
                    assert(int_body(v@)[k as int] == c);
                    assert(!all_digits(int_body(v@)));
                }
                return None;
            },
        };
        let ghost upto = body.take(k + 1);
        proof {
            assert(upto.drop_last() =~= body.take(k as int));
            assert(upto.last() == c);
            assert(digits_val(upto) == acc * 10 + digit_val(c));
        }
        proof {
            assert(0 <= digit_val(c) && digit_val(c) <= 9);
        }
        let shifted = match acc.checked_mul(10) {
            Some(x) => x,
            None => {
                proof {
                    assert(int_body(v@).take(k + 1) == upto);
                    assert(digits_val(int_body(v@).take(k + 1)) > u64::MAX);
                    lemma_too_big(int_body(v@), k + 1);
                    assert(!is_u64_literal(v@));
                }
                return None;
            },
        };
        acc = match shifted.checked_add(d) {
            Some(x) => x,
            None => {
                proof {
                    assert(int_body(v@).take(k + 1) == upto);
                    assert(digits_val(int_body(v@).take(k + 1)) > u64::MAX);
                    lemma_too_big(int_body(v@), k + 1);
                    assert(!is_u64_literal(v@));
                }
                return None;
            },
        };
        k = k + 1;
    }
    proof {
        assert(body.take(body.len() as int) =~= body);
    }
    Some(acc)
}

/// When some prefix of the digits already spells a value beyond `u64`, the
/// whole string is not a `u64` literal.
proof fn lemma_too_big(body: Seq<char>, m: int)
    requires
        0 <= m <= body.len(),
        digits_val(body.take(m)) > u64::MAX,
    ensures
        !(all_digits(body) && digits_val(body) <= u64::MAX),
{
    if all_digits(body) {
        lemma_digits_val_take_le(body, m);
    }
}

/// Executable digit character, matching `dec_digit`.
fn exec_dec_digit(d: u64) -> (r: char)
    requires
        d < 10,
    ensures
        r == dec_digit(d as int),
{
    if d == 0 {
        '0'
    } else if d == 1 {
        '1'
    } else if d == 2 {
        '2'
    } else if d == 3 {
        '3'
    } else if d == 4 {
        '4'
    } else if d == 5 {
        '5'
    } else if d == 6 {
        '6'
    } else if d == 7 {
        '7'
    } else if d == 8 {
        '8'
    } else {
        '9'
    }
}

/// Append the decimal rendering of `n` to `out`, as `dec_seq` describes.
pub fn push_dec(out: &mut Vec<char>, n: u64)
    ensures
        final(out)@ == old(out)@ + dec_seq(n as int),
    decreases n,
{
    if n < 10 {
        let c = exec_dec_digit(n);
        out.push(c);
        proof {
            assert(old(out)@ + dec_seq(n as int) =~= old(out)@.push(dec_digit(n as int)));
        }
    } else {
        let ghost mid = old(out)@ + dec_seq(n as int / 10);
        push_dec(out, n / 10);
        let d = n % 10;
        let c = exec_dec_digit(d);
        out.push(c);
        proof {
            assert(old(out)@ + dec_seq(n as int) =~= mid.push(dec_digit(n as int % 10)));
        }
    }
}

/// Executable ASCII lowercasing, matching `lower_char`.
fn exec_lower_char(c: char) -> (r: char)
    ensures
        r == lower_char(c),
{
    match c {
        'A' => 'a',
        'B' => 'b',
        'C' => 'c',
        'D' => 'd',
        'E' => 'e',
        'F' => 'f',
        'G' => 'g',
        'H' => 'h',
        'I' => 'i',
        'J' => 'j',
        'K' => 'k',
        'L' => 'l',
        'M' => 'm',
        'N' => 'n',
        'O' => 'o',
        'P' => 'p',
        'Q' => 'q',
        'R' => 'r',
        'S' => 's',
        'T' => 't',
        'U' => 'u',
        'V' => 'v',
        'W' => 'w',
        'X' => 'x',
        'Y' => 'y',
        'Z' => 'z',
        _ => c,
    }
}

/// Executable whitespace test, matching `is_space`.
fn exec_is_space(c: char) -> (r: bool)
    ensures
        r == is_space(c),
{
    c == ' ' || c == '\t' || c == '\n' || c == '\r' || c == '\u{b}' || c == '\u{c}' || c
        == '\u{85}' || c == '\u{a0}' || c == '\u{1680}' || c == '\u{2000}' || c == '\u{2001}' || c
        == '\u{2002}' || c == '\u{2003}' || c == '\u{2004}' || c == '\u{2005}' || c == '\u{2006}'
        || c == '\u{2007}' || c == '\u{2008}' || c == '\u{2009}' || c == '\u{200a}' || c
        == '\u{2028}' || c == '\u{2029}' || c == '\u{202f}' || c == '\u{205f}' || c == '\u{3000}'
}

} // verus!
