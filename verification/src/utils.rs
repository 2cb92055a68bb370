//! The duration codec: free-form human duration strings to a second count,
//! and second counts back to a human-readable string.

use vstd::prelude::*;

use crate::text::all_digits;
use crate::text::chars_to_string;
use crate::text::dec_seq;
use crate::text::digits_val;
use crate::text::find_char;
use crate::text::find_char_vec;
use crate::text::int_body;
use crate::text::is_digit;
use crate::text::is_u64_literal;
use crate::text::lower_strip;
use crate::text::lower_strip_vec;
use crate::text::parse_u64_digits;
use crate::text::push_dec;
use crate::text::replace_seq;
use crate::text::replace_vec;
use crate::text::seg_val;
use crate::text::str_to_chars;
use crate::text::subvec;

verus! {

/// Clamp a non-negative mathematical second count into `u64`.
pub open spec fn clamp_u64(n: int) -> u64 {
    if n > u64::MAX {
        u64::MAX
    } else if n < 0 {
        0
    } else {
        n as u64
    }
}

pub open spec fn pat_hour() -> Seq<char> {
    seq!['h', 'o', 'u', 'r']
}

pub open spec fn pat_minute() -> Seq<char> {
    seq!['m', 'i', 'n', 'u', 't', 'e']
}

pub open spec fn pat_min() -> Seq<char> {
    seq!['m', 'i', 'n']
}

pub open spec fn pat_second() -> Seq<char> {
    seq!['s', 'e', 'c', 'o', 'n', 'd']
}

pub open spec fn pat_sec() -> Seq<char> {
    seq!['s', 'e', 'c']
}

/// Normalization of a compound duration string: lowercase, strip whitespace,
/// then shorten the unit words to their one-letter markers, longer words
/// first so that `minute` is not eaten by `min` nor `second` by `sec`.
pub open spec fn norm(s: Seq<char>) -> Seq<char> {
    let a = lower_strip(s);
    let b = replace_seq(a, pat_hour(), seq!['h']);
    let c = replace_seq(b, pat_minute(), seq!['m']);
    let d = replace_seq(c, pat_min(), seq!['m']);
    let e = replace_seq(d, pat_second(), seq!['s']);
    replace_seq(e, pat_sec(), seq!['s'])
}

/// The count in front of the first marker `c`, or zero when the marker is
/// absent or the count does not parse.
pub open spec fn marker_amount(t: Seq<char>, c: char) -> int {
    if find_char(t, c) == -1 {
        0
    } else {
        seg_val(t.take(find_char(t, c)))
    }
}

/// What remains to scan after consuming the first marker `c`: the characters
/// between the first and the second occurrence of the marker (everything from
/// a second occurrence on is dropped), or the string unchanged when the
/// marker is absent.
pub open spec fn rest_after(t: Seq<char>, c: char) -> Seq<char> {
    if find_char(t, c) == -1 {
        t
    } else {
        let r0 = t.skip(find_char(t, c) + 1);
        if find_char(r0, c) == -1 {
            r0
        } else {
            r0.take(find_char(r0, c))
        }
    }
}

/// Seconds spelled by a compound duration string: hours, then minutes, then
/// seconds, each taken in front of its marker in the normalized string.
pub open spec fn compound_val(s: Seq<char>) -> int {
    let t = norm(s);
    let t1 = rest_after(t, 'h');
    let t2 = rest_after(t1, 'm');
    marker_amount(t, 'h') * 3600 + marker_amount(t1, 'm') * 60 + marker_amount(t2, 's')
}

/// Seconds spelled by a duration string: a bare integer counts as minutes,
/// anything else is read as a compound string.
pub open spec fn duration_val(s: Seq<char>) -> int {
    if is_u64_literal(s) {
        digits_val(int_body(s)) * 60
    } else {
        compound_val(s)
    }
}

/// Saturating product, stated through `clamp_u64`.
fn sat_mul(a: u64, b: u64) -> (r: u64)
    ensures
        r == clamp_u64(a as int * b as int),
{
    match a.checked_mul(b) {
        Some(x) => x,
        None => u64::MAX,
    }
}

/// Saturating sum, stated through `clamp_u64`.
fn sat_add(a: u64, b: u64) -> (r: u64)
    ensures
        r == clamp_u64(a as int + b as int),
{
    match a.checked_add(b) {
        Some(x) => x,
        None => u64::MAX,
    }
}

/// Read the count in front of the first marker `c` and cut the string down
/// to what remains to scan after it.
fn take_marker(t: &Vec<char>, c: char) -> (res: (u64, Vec<char>))
    ensures
        res.0 as int == marker_amount(t@, c),
        res.1@ == rest_after(t@, c),
{
    match find_char_vec(t, c) {
        None => {
            let copy = subvec(t, 0, t.len());
            proof {
                assert(t@.subrange(0, t@.len() as int) =~= t@);
            }
            (0, copy)
        },
        Some(i) => {
            let n = t.len();
            proof {
                assert(i < n);
            }
            let pre = subvec(t, 0, i);
            proof {
                assert(t@.subrange(0, i as int) =~= t@.take(i as int));
            }
            let amount = match parse_u64_digits(&pre) {
                Some(x) => x,
                None => 0,
            };
            let rest0 = subvec(t, i + 1, n);
            proof {
                assert(t@.subrange(i + 1, t@.len() as int) =~= t@.skip(i + 1));
            }
            let rest = match find_char_vec(&rest0, c) {
                None => rest0,
                Some(j) => {
                    let cut = subvec(&rest0, 0, j);
                    proof {
                        assert(rest0@.subrange(0, j as int) =~= rest0@.take(j as int));
                    }
                    cut
                },
            };
            (amount, rest)
        },
    }
}

/// The duration can be passed either as a number (as minutes) or as a string
/// in the format of "1h 30m 10s"; unit words, case and whitespace are
/// accepted, and a segment that does not parse counts as zero. Sums beyond
/// the range of `u64` saturate.
pub fn parse_duration(duration: &str) -> (r: u64)
    ensures
        r == clamp_u64(duration_val(duration@)),
        is_u64_literal(duration@) ==> r == clamp_u64(digits_val(int_body(duration@)) * 60),
{
    let chars = str_to_chars(duration);
    match parse_u64_digits(&chars) {
        Some(x) => {
            return sat_mul(x, 60);
        },
        None => {},
    }
    let stripped = lower_strip_vec(&chars);

    let mut p_hour: Vec<char> = Vec::new();
    p_hour.push('h');
    p_hour.push('o');
    p_hour.push('u');
    p_hour.push('r');
    proof {
        assert(p_hour@ =~= pat_hour());
    }
    let mut p_minute: Vec<char> = Vec::new();
    p_minute.push('m');
    p_minute.push('i');
    p_minute.push('n');
    p_minute.push('u');
    p_minute.push('t');
    p_minute.push('e');
    proof {
        assert(p_minute@ =~= pat_minute());
    }
    let mut p_min: Vec<char> = Vec::new();
    p_min.push('m');
    p_min.push('i');
    p_min.push('n');
    proof {
        assert(p_min@ =~= pat_min());
    }
    let mut p_second: Vec<char> = Vec::new();
    p_second.push('s');
    p_second.push('e');
    p_second.push('c');
    p_second.push('o');
    p_second.push('n');
    p_second.push('d');
    proof {
        assert(p_second@ =~= pat_second());
    }
    let mut p_sec: Vec<char> = Vec::new();
    p_sec.push('s');
    p_sec.push('e');
    p_sec.push('c');
    proof {
        assert(p_sec@ =~= pat_sec());
    }
    let mut rep_h: Vec<char> = Vec::new();
    rep_h.push('h');
    proof {
        assert(rep_h@ =~= seq!['h']);
    }
    let mut rep_m: Vec<char> = Vec::new();
    rep_m.push('m');
    proof {
        assert(rep_m@ =~= seq!['m']);
    }
    let mut rep_s: Vec<char> = Vec::new();
    rep_s.push('s');
    proof {
        assert(rep_s@ =~= seq!['s']);
    }

    let a = replace_vec(&stripped, &p_hour, &rep_h);
    let b = replace_vec(&a, &p_minute, &rep_m);
    let c = replace_vec(&b, &p_min, &rep_m);
    let d = replace_vec(&c, &p_second, &rep_s);
    let t = replace_vec(&d, &p_sec, &rep_s);
    proof {
        assert(t@ == norm(duration@));
    }

    let (hours, t1) = take_marker(&t, 'h');
    let (minutes, t2) = take_marker(&t1, 'm');
    let (secs, _tail) = take_marker(&t2, 's');

    let hpart = sat_mul(hours, 3600);
    let mpart = sat_mul(minutes, 60);
    let hm = sat_add(hpart, mpart);
    let total = sat_add(hm, secs);
    proof {
        assert(total == clamp_u64(compound_val(duration@)));
    }
    total
}

/// Render a second count largest-first: hour and minute segments only when
/// nonzero, the seconds segment always, as in "1h 30m 10s".
pub fn get_human_readable_time(seconds: u64) -> (r: String)
    ensures
        r@ == human_time(seconds as int),
{
    let hours = seconds / 3600;
    let minutes = (seconds % 3600) / 60;
    let secs = seconds % 60;
    let mut out: Vec<char> = Vec::new();
    if hours > 0 {
        push_dec(&mut out, hours);
        out.push('h');
        out.push(' ');
    }
    if minutes > 0 {
        push_dec(&mut out, minutes);
        out.push('m');
        out.push(' ');
    }
    push_dec(&mut out, secs);
    out.push('s');
    proof {
        assert(out@ =~= human_time(seconds as int));
    }
    chars_to_string(&out)
}

/// A digit-free string is never a `u64` literal, and a digit-free segment
/// spells zero.
proof fn lemma_seg_val_digit_free(s: Seq<char>)
    requires
        crate::text::digit_free(s),
    ensures
        !is_u64_literal(s),
        seg_val(s) == 0,
{
    if is_u64_literal(s) {
        let b = int_body(s);
        assert(is_digit(b[0]));
        if s.len() > 0 && s[0] == '+' {
            assert(b[0] == s[1]);
        } else {
            assert(b[0] == s[0]);
        }
        assert(false);
    }
}

/// In a digit-free string every marker count is zero, and what remains after
/// a marker is digit-free again.
proof fn lemma_marker_digit_free(t: Seq<char>, c: char)
    requires
        crate::text::digit_free(t),
    ensures
        marker_amount(t, c) == 0,
        crate::text::digit_free(rest_after(t, c)),
{
    crate::text::lemma_find_char_bounds(t, c);
    if find_char(t, c) != -1 {
        let i = find_char(t, c);
        crate::text::lemma_take_digit_free(t, i);
        lemma_seg_val_digit_free(t.take(i));
        crate::text::lemma_skip_digit_free(t, i + 1);
        let r0 = t.skip(i + 1);
        crate::text::lemma_find_char_bounds(r0, c);
        if find_char(r0, c) != -1 {
            crate::text::lemma_take_digit_free(r0, find_char(r0, c));
        }
    }
}

/// A duration string without a single decimal digit spells zero seconds:
/// entirely unparseable input degrades to zero rather than to an error.
pub proof fn lemma_unparseable_yields_zero(s: Seq<char>)
    requires
        crate::text::digit_free(s),
    ensures
        duration_val(s) == 0,
{
    lemma_seg_val_digit_free(s);
    crate::text::lemma_lower_strip_digit_free(s);
    let rep_h = seq!['h'];
    let rep_m = seq!['m'];
    let rep_s = seq!['s'];
    assert(crate::text::digit_free(rep_h));
    assert(crate::text::digit_free(rep_m));
    assert(crate::text::digit_free(rep_s));
    let a = lower_strip(s);
    crate::text::lemma_replace_digit_free(a, pat_hour(), rep_h);
    let b = replace_seq(a, pat_hour(), rep_h);
    crate::text::lemma_replace_digit_free(b, pat_minute(), rep_m);
    let c = replace_seq(b, pat_minute(), rep_m);
    crate::text::lemma_replace_digit_free(c, pat_min(), rep_m);
    let d = replace_seq(c, pat_min(), rep_m);
    crate::text::lemma_replace_digit_free(d, pat_second(), rep_s);
    let e = replace_seq(d, pat_second(), rep_s);
    crate::text::lemma_replace_digit_free(e, pat_sec(), rep_s);
    let t = norm(s);
    lemma_marker_digit_free(t, 'h');
    lemma_marker_digit_free(rest_after(t, 'h'), 'm');
    lemma_marker_digit_free(rest_after(rest_after(t, 'h'), 'm'), 's');
}

/// The input with every character lowercased.
pub open spec fn lower_all(s: Seq<char>) -> Seq<char> {
    s.map_values(|c: char| crate::text::lower_char(c))
}

/// Lowercasing commutes with the lowercase-and-strip pass, which already
/// lowercases everything itself.
proof fn lemma_lower_strip_lower(s: Seq<char>)
    ensures
        lower_strip(lower_all(s)) == lower_strip(s),
    decreases s.len(),
{
    if s.len() == 0 {
        assert(lower_all(s).len() == 0);
    } else {
        assert(lower_all(s).skip(1) =~= lower_all(s.skip(1)));
        lemma_lower_strip_lower(s.skip(1));
        assert(lower_all(s)[0] == crate::text::lower_char(s[0]));
        crate::text::lemma_lower_char_props(s[0]);
    }
}

/// Lowercasing does not change whether a string is a `u64` literal, nor the
/// value it spells.
proof fn lemma_literal_lower(s: Seq<char>)
    ensures
        is_u64_literal(lower_all(s)) == is_u64_literal(s),
        is_u64_literal(s) ==> digits_val(int_body(lower_all(s))) == digits_val(int_body(s)),
{
    let ls = lower_all(s);
    let b = int_body(s);
    if s.len() > 0 {
        crate::text::lemma_lower_char_props(s[0]);
    }
    assert(int_body(ls) =~= lower_all(b));
    let lb = lower_all(b);
    assert forall|i: int| 0 <= i < b.len() implies is_digit(#[trigger] lb[i]) == is_digit(b[i]) by {
        crate::text::lemma_lower_char_props(b[i]);
    }
    if all_digits(b) {
        assert forall|i: int| 0 <= i < b.len() implies #[trigger] lb[i] == b[i] by {
            assert(is_digit(b[i]));
            crate::text::lemma_lower_char_props(b[i]);
        }
        assert(lb =~= b);
    } else if all_digits(lb) {
        let ghost w = choose|i: int| 0 <= i < b.len() && !is_digit(#[trigger] b[i]);
        assert(is_digit(lb[w]));
        assert(false);
    }
}

/// Parsing is case-insensitive: lowercasing the whole input never changes
/// the seconds it spells.
pub proof fn lemma_parse_case_insensitive(s: Seq<char>)
    ensures
        duration_val(lower_all(s)) == duration_val(s),
{
    lemma_literal_lower(s);
    if !is_u64_literal(s) {
        lemma_lower_strip_lower(s);
    }
}

/// Parsing is whitespace-insensitive on compound strings: removing the
/// whitespace never changes the seconds they spell. The one exception, kept
/// out by the premise, is input that turns into a bare integer only once its
/// whitespace is gone: a bare integer counts as minutes, while the same
/// digits inside a compound string carry no marker and count as zero.
pub proof fn lemma_parse_whitespace_insensitive(s: Seq<char>)
    requires
        is_u64_literal(crate::text::strip_ws(s)) ==> is_u64_literal(s),
    ensures
        duration_val(crate::text::strip_ws(s)) == duration_val(s),
{
    if is_u64_literal(s) {
        let b = int_body(s);
        assert forall|i: int| 0 <= i < s.len() implies !crate::text::is_space(
            #[trigger] s[i],
        ) by {
            if s.len() > 0 && s[0] == '+' {
                if i > 0 {
                    assert(b[i - 1] == s[i]);
                    assert(is_digit(s[i]));
                }
            } else {
                assert(b[i] == s[i]);
                assert(is_digit(s[i]));
            }
        }
        crate::text::lemma_strip_ws_identity(s);
    } else {
        crate::text::lemma_lower_strip_strip_ws(s);
    }
}

/// Scanning a string free of the marker yields count zero and leaves the
/// string unchanged.
proof fn lemma_scan_absent(u: Seq<char>, mk: char)
    requires
        crate::text::char_absent(u, mk),
    ensures
        marker_amount(u, mk) == 0,
        rest_after(u, mk) == u,
{
    crate::text::lemma_find_char_miss(u, mk);
}

/// Scanning `digits + marker + tail` for a marker absent from the tail: the
/// count is the digits' value and the rest is the tail.
proof fn lemma_scan_block(k: int, mk: char, tail: Seq<char>)
    requires
        0 <= k <= u64::MAX,
        !is_digit(mk),
        crate::text::char_absent(tail, mk),
    ensures
        marker_amount(dec_seq(k) + seq![mk] + tail, mk) == k,
        rest_after(dec_seq(k) + seq![mk] + tail, mk) == tail,
{
    let d = dec_seq(k);
    crate::text::lemma_dec_seq_digits(k);
    crate::text::lemma_dec_seq_val(k);
    let u = d + seq![mk] + tail;
    assert forall|j: int| 0 <= j < d.len() implies u[j] != mk by {
        assert(u[j] == d[j]);
        assert(is_digit(d[j]));
    }
    assert(u[d.len() as int] == mk);
    crate::text::lemma_find_char_hit(u, mk, d.len() as int);
    assert(u.take(d.len() as int) =~= d);
    assert(is_digit(d[0]));
    assert(d[0] != '+');
    assert(int_body(d) == d);
    assert(is_u64_literal(d));
    assert(seg_val(d) == k);
    assert(u.skip(d.len() as int + 1) =~= tail);
    crate::text::lemma_find_char_miss(tail, mk);
}

/// A character that is no digit, not the marker, and absent from the tail is
/// absent from the whole block `digits + marker + tail`.
proof fn lemma_block_absent(k: int, mk: char, tail: Seq<char>, c: char)
    requires
        0 <= k,
        c != mk,
        !is_digit(c),
        crate::text::char_absent(tail, c),
    ensures
        crate::text::char_absent(dec_seq(k) + seq![mk] + tail, c),
{
    let d = dec_seq(k);
    crate::text::lemma_dec_seq_digits(k);
    let u = d + seq![mk] + tail;
    assert forall|i: int| 0 <= i < u.len() implies #[trigger] u[i] != c by {
        if i < d.len() {
            assert(u[i] == d[i]);
            assert(is_digit(d[i]));
        } else if i == d.len() {
            assert(u[i] == mk);
        } else {
            assert(u[i] == tail[i - d.len() - 1]);
        }
    }
}

/// Formatting then parsing is the identity: the rendered string of any
/// second count spells back exactly that count.
#[verifier::rlimit(50)]
pub proof fn lemma_format_parse_round_trip(n: int)
    requires
        0 <= n <= u64::MAX,
    ensures
        duration_val(human_time(n)) == n,
        clamp_u64(duration_val(human_time(n))) == n,
{
    let h = n / 3600;
    let m = (n % 3600) / 60;
    let s2 = n % 60;
    let dh = dec_seq(h);
    let dm = dec_seq(m);
    let ds = dec_seq(s2);
    crate::text::lemma_dec_seq_digits(h);
    crate::text::lemma_dec_seq_digits(m);
    crate::text::lemma_dec_seq_digits(s2);
    let w = ds + seq!['s'] + Seq::<char>::empty();
    let um_w = if m > 0 {
        dm + seq!['m'] + w
    } else {
        w
    };
    let u = if h > 0 {
        dh + seq!['h'] + um_w
    } else {
        um_w
    };
    let t = human_time(n);
    let hpart = if h > 0 {
        dh + seq!['h', ' ']
    } else {
        Seq::<char>::empty()
    };
    let mpart = if m > 0 {
        dm + seq!['m', ' ']
    } else {
        Seq::<char>::empty()
    };
    assert(t == hpart + mpart + ds + seq!['s']);

    // The lowercase-and-strip pass only drops the two blanks.
    crate::text::lemma_lower_strip_concat(hpart + mpart + ds, seq!['s']);
    crate::text::lemma_lower_strip_concat(hpart + mpart, ds);
    crate::text::lemma_lower_strip_concat(hpart, mpart);
    crate::text::lemma_lower_strip_digits(ds);
    crate::text::lemma_lower_strip_single('s');
    if h > 0 {
        crate::text::lemma_lower_strip_concat(dh, seq!['h', ' ']);
        crate::text::lemma_lower_strip_digits(dh);
        crate::text::lemma_lower_strip_pair('h');
    }
    if m > 0 {
        crate::text::lemma_lower_strip_concat(dm, seq!['m', ' ']);
        crate::text::lemma_lower_strip_digits(dm);
        crate::text::lemma_lower_strip_pair('m');
    }
    assert(lower_strip(t) =~= u);

    // No unit word survives in the stripped rendering: each contains a
    // letter that never occurs among digits and markers.
    lemma_block_absent(s2, 's', Seq::<char>::empty(), 'o');
    lemma_block_absent(s2, 's', Seq::<char>::empty(), 'i');
    lemma_block_absent(s2, 's', Seq::<char>::empty(), 'e');
    if m > 0 {
        lemma_block_absent(m, 'm', w, 'o');
        lemma_block_absent(m, 'm', w, 'i');
        lemma_block_absent(m, 'm', w, 'e');
    }
    if h > 0 {
        lemma_block_absent(h, 'h', um_w, 'o');
        lemma_block_absent(h, 'h', um_w, 'i');
        lemma_block_absent(h, 'h', um_w, 'e');
    }
    assert(pat_hour()[1] == 'o');
    crate::text::lemma_replace_absent(u, pat_hour(), seq!['h'], 'o', 1);
    assert(pat_minute()[1] == 'i');
    crate::text::lemma_replace_absent(u, pat_minute(), seq!['m'], 'i', 1);
    assert(pat_min()[1] == 'i');
    crate::text::lemma_replace_absent(u, pat_min(), seq!['m'], 'i', 1);
    assert(pat_second()[1] == 'e');
    crate::text::lemma_replace_absent(u, pat_second(), seq!['s'], 'e', 1);
    assert(pat_sec()[1] == 'e');
    crate::text::lemma_replace_absent(u, pat_sec(), seq!['s'], 'e', 1);
    assert(norm(t) == u);

    // The rendering is no bare integer: it ends in the seconds marker.
    assert(t[t.len() - 1] == 's');
    if h > 0 {
        assert(t[0] == dh[0]);
    } else if m > 0 {
        assert(t[0] == dm[0]);
    } else {
        assert(t[0] == ds[0]);
    }
    assert(is_digit(t[0]));
    assert(t[0] != '+');
    assert(int_body(t) == t);
    assert(!is_digit('s'));
    assert(!all_digits(t));
    assert(!is_u64_literal(t));

    // Scan the three markers.
    lemma_block_absent(s2, 's', Seq::<char>::empty(), 'h');
    if m > 0 {
        lemma_block_absent(m, 'm', w, 'h');
    }
    lemma_block_absent(s2, 's', Seq::<char>::empty(), 'm');
    if h > 0 {
        lemma_scan_block(h, 'h', um_w);
    } else {
        lemma_scan_absent(u, 'h');
    }
    assert(marker_amount(u, 'h') == h);
    assert(rest_after(u, 'h') == um_w);
    if m > 0 {
        lemma_scan_block(m, 'm', w);
    } else {
        lemma_scan_absent(um_w, 'm');
    }
    assert(marker_amount(um_w, 'm') == m);
    assert(rest_after(um_w, 'm') == w);
    lemma_scan_block(s2, 's', Seq::<char>::empty());
    assert(marker_amount(w, 's') == s2);

    assert(compound_val(t) == h * 3600 + m * 60 + s2);
    assert(h * 3600 + m * 60 + s2 == n) by {
        vstd::arithmetic::div_mod::lemma_fundamental_div_mod(n, 3600);
        vstd::arithmetic::div_mod::lemma_fundamental_div_mod(n % 3600, 60);
        vstd::arithmetic::div_mod::lemma_fundamental_div_mod(n, 60);
        vstd::arithmetic::div_mod::lemma_mod_breakdown(n, 60, 60);
    };
}

/// The rendering of a second count: decimal hours then "h ", when nonzero;
/// decimal minutes then "m ", when nonzero; decimal seconds then "s".
pub open spec fn human_time(n: int) -> Seq<char> {
    let h = n / 3600;
    let m = (n % 3600) / 60;
    let s2 = n % 60;
    (if h > 0 {
        dec_seq(h) + seq!['h', ' ']
    } else {
        Seq::<char>::empty()
    }) + (if m > 0 {
        dec_seq(m) + seq!['m', ' ']
    } else {
        Seq::<char>::empty()
    }) + dec_seq(s2) + seq!['s']
}

} // verus!
