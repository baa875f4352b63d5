//! Annotation decoder: extracts event markers from the reserved channel's
//! packed byte stream.
//!
//! The channel's samples are 16-bit little-endian words; emitting each
//! word's low byte then high byte reassembles the encoded stream. The
//! stream splits on NUL into time-stamped annotation lists; each list splits
//! further on the two reserved one-byte sub-delimiters (0x14 and 0x15) into
//! fields, empty fragments dropped. The first non-blank list's first field,
//! when it starts with `+`, anchors the relative-time origin; every list
//! with at least three fields and a parsable `+`-prefixed onset contributes
//! one marker at `(onset - origin) * sampling_rate`, kept in list order.
//! Malformed lists are skipped; the decoder never fails.
//!
//! Onsets are decimal seconds; they are parsed to microseconds exactly,
//! digits beyond the sixth fractional place dropped, and whitespace means
//! the ASCII blanks. Only the plain form `[+|-]digits[.digits]` is a
//! number: an onset in exponent notation is treated as malformed and its
//! list skipped. Marker positions are in millionths of a sample.

use vstd::prelude::*;
use crate::Markers;

verus! {

/// The low byte of a 16-bit little-endian word.
pub open spec fn low_byte(w: u16) -> u8 {
    (w % 256) as u8
}

/// The high byte of a 16-bit little-endian word.
pub open spec fn high_byte(w: u16) -> u8 {
    (w / 256) as u8
}

/// The encoded byte stream carried by a sequence of 16-bit words: each
/// word's low byte followed by its high byte.
pub open spec fn words_bytes(ws: Seq<u16>) -> Seq<u8> {
    Seq::new(
        2 * ws.len(),
        |i: int|
            if i % 2 == 0 {
                low_byte(ws[i / 2])
            } else {
                high_byte(ws[i / 2])
            },
    )
}

/// An ASCII blank: space, tab, line feed, vertical tab, form feed or
/// carriage return.
pub open spec fn is_ws_byte(b: u8) -> bool {
    b == 32 || b == 9 || b == 10 || b == 11 || b == 12 || b == 13
}

/// A record of nothing but blanks (or nothing at all) is discarded.
pub open spec fn is_blank(r: Seq<u8>) -> bool {
    forall|i: int| 0 <= i < r.len() ==> is_ws_byte(#[trigger] r[i])
}

/// The subsequence of non-blank records, in order.
pub open spec fn keep_nonblank(rs: Seq<Seq<u8>>) -> Seq<Seq<u8>>
    decreases rs.len(),
{
    if rs.len() == 0 {
        Seq::empty()
    } else if is_blank(rs.last()) {
        keep_nonblank(rs.drop_last())
    } else {
        keep_nonblank(rs.drop_last()).push(rs.last())
    }
}

/// The subsequence of non-empty fragments, in order.
pub open spec fn keep_nonempty(fs: Seq<Seq<u8>>) -> Seq<Seq<u8>>
    decreases fs.len(),
{
    if fs.len() == 0 {
        Seq::empty()
    } else if fs.last().len() == 0 {
        keep_nonempty(fs.drop_last())
    } else {
        keep_nonempty(fs.drop_last()).push(fs.last())
    }
}

/// `s` with its leading blanks removed.
pub open spec fn trim_front(s: Seq<u8>) -> Seq<u8>
    decreases s.len(),
{
    if s.len() > 0 && is_ws_byte(s[0]) {
        trim_front(s.skip(1))
    } else {
        s
    }
}

/// `s` with its trailing blanks removed.
pub open spec fn trim_back(s: Seq<u8>) -> Seq<u8>
    decreases s.len(),
{
    if s.len() > 0 && is_ws_byte(s.last()) {
        trim_back(s.drop_last())
    } else {
        s
    }
}

/// `s` with leading and trailing blanks removed.
pub open spec fn trimmed(s: Seq<u8>) -> Seq<u8> {
    trim_back(trim_front(s))
}

fn words_to_bytes(words: &Vec<u16>) -> (r: Vec<u8>)
    ensures
        r@ == words_bytes(words@),
{
    let mut out: Vec<u8> = Vec::new();
    for k in 0..words.len()
        invariant
            out@.len() == 2 * k,
            forall|i: int| 0 <= i < out@.len() ==> out@[i] == words_bytes(words@)[i],
    {
        let w = words[k];
        out.push((w % 256) as u8);
        out.push((w / 256) as u8);
    }
    proof {
        assert(out@ =~= words_bytes(words@));
    }
    out
}

fn copy_bytes(v: &Vec<u8>) -> (r: Vec<u8>)
    ensures
        r@ == v@,
{
    let mut out: Vec<u8> = Vec::new();
    for i in 0..v.len()
        invariant
            out@ =~= v@.take(i as int),
    {
        out.push(v[i]);
        proof {
            assert(out@ =~= v@.take(i + 1));
        }
    }
    proof {
        assert(v@.take(v@.len() as int) =~= v@);
    }
    out
}

fn is_blank_exec(r: &Vec<u8>) -> (b: bool)
    ensures
        b == is_blank(r@),
{
    for i in 0..r.len()
        invariant
            forall|j: int| 0 <= j < i ==> is_ws_byte(#[trigger] r@[j]),
    {
        let c = r[i];
        if !(c == 32 || c == 9 || c == 10 || c == 11 || c == 12 || c == 13) {
            return false;
        }
    }
    true
}

fn filter_nonblank(rs: &Vec<Vec<u8>>) -> (r: Vec<Vec<u8>>)
    ensures
        r.deep_view() == keep_nonblank(rs.deep_view()),
{
    let ghost whole = rs.deep_view();
    let mut out: Vec<Vec<u8>> = Vec::new();
    for k in 0..rs.len()
        invariant
            whole == rs.deep_view(),
            whole.len() == rs@.len(),
            out.deep_view() == keep_nonblank(whole.take(k as int)),
    {
        let ghost before = out.deep_view();
        proof {
            assert(whole[k as int] == rs@[k as int].deep_view());
            assert(rs@[k as int]@ =~= whole[k as int]);
            assert(whole.take(k + 1).drop_last() =~= whole.take(k as int));
            assert(whole.take(k + 1).last() == whole[k as int]);
        }
        if !is_blank_exec(&rs[k]) {
            let seg = copy_bytes(&rs[k]);
            out.push(seg);
            proof {
                assert(out.deep_view() =~~= before.push(whole[k as int]));
            }
        }
    }
    proof {
        assert(whole.take(whole.len() as int) =~= whole);
    }
    out
}

fn filter_nonempty(fs: &Vec<Vec<u8>>) -> (r: Vec<Vec<u8>>)
    ensures
        r.deep_view() == keep_nonempty(fs.deep_view()),
{
    let ghost whole = fs.deep_view();
    let mut out: Vec<Vec<u8>> = Vec::new();
    for k in 0..fs.len()
        invariant
            whole == fs.deep_view(),
            whole.len() == fs@.len(),
            out.deep_view() == keep_nonempty(whole.take(k as int)),
    {
        let ghost before = out.deep_view();
        proof {
            assert(whole[k as int] == fs@[k as int].deep_view());
            assert(fs@[k as int]@ =~= whole[k as int]);
            assert(whole.take(k + 1).drop_last() =~= whole.take(k as int));
            assert(whole.take(k + 1).last() == whole[k as int]);
        }
        if fs[k].len() > 0 {
            let seg = copy_bytes(&fs[k]);
            out.push(seg);
            proof {
                assert(out.deep_view() =~~= before.push(whole[k as int]));
            }
        }
    }
    proof {
        assert(whole.take(whole.len() as int) =~= whole);
    }
    out
}

fn trim_exec(v: &Vec<u8>, from: usize) -> (r: Vec<u8>)
    requires
        from <= v@.len(),
    ensures
        r@ == trimmed(v@.skip(from as int)),
{
    let ghost s = v@.skip(from as int);
    let mut lo: usize = from;
    while lo < v.len()
        invariant
            from <= lo <= v@.len(),
            trim_front(s) == trim_front(v@.skip(lo as int)),
        ensures
            from <= lo <= v@.len(),
            trim_front(s) == trim_front(v@.skip(lo as int)),
            lo < v@.len() ==> !is_ws_byte(v@[lo as int]),
        decreases v@.len() - lo,
    {
        let c = v[lo];
        if !(c == 32 || c == 9 || c == 10 || c == 11 || c == 12 || c == 13) {
            break;
        }
        proof {
            assert(v@.skip(lo as int)[0] == v@[lo as int]);
            assert(v@.skip(lo as int).skip(1) =~= v@.skip(lo + 1));
        }
        lo = lo + 1;
    }
    proof {
        if lo < v@.len() {
            assert(v@.skip(lo as int)[0] == v@[lo as int]);
        }
        assert(trim_front(s) == v@.skip(lo as int));
    }
    let ghost t = v@.skip(lo as int);
    proof {
        assert(v@.skip(lo as int).take(v@.len() - lo as int) =~= v@.skip(lo as int));
    }
    let mut hi: usize = v.len();
    while hi > lo
        invariant
            lo <= hi <= v@.len(),
            t == v@.skip(lo as int),
            trim_back(t) == trim_back(v@.skip(lo as int).take(hi - lo as int)),
        ensures
            lo <= hi <= v@.len(),
            trim_back(t) == trim_back(v@.skip(lo as int).take(hi - lo as int)),
            hi > lo ==> !is_ws_byte(v@[hi - 1]),
        decreases hi,
    {
        let c = v[hi - 1];
        if !(c == 32 || c == 9 || c == 10 || c == 11 || c == 12 || c == 13) {
            break;
        }
        proof {
            let cur = v@.skip(lo as int).take(hi - lo as int);
            assert(cur.last() == v@[hi - 1]);
            assert(cur.drop_last() =~= v@.skip(lo as int).take(hi - 1 - lo as int));
        }
        hi = hi - 1;
    }
    proof {
        let cur = v@.skip(lo as int).take(hi - lo as int);
        if hi > lo {
            assert(cur.last() == v@[hi - 1]);
        }
        assert(trim_back(t) == cur);
    }
    let mut out: Vec<u8> = Vec::new();
    for i in lo..hi
        invariant
            lo <= hi <= v@.len(),
            out@ =~= v@.subrange(lo as int, i as int),
    {
        out.push(v[i]);
        proof {
            assert(out@ =~= v@.subrange(lo as int, i + 1));
        }
    }
    proof {
        assert(v@.subrange(lo as int, hi as int) =~= v@.skip(lo as int).take(hi - lo as int));
    }
    out
}

/// The record delimiter (NUL) or, for `field` splitting, the two reserved
/// sub-delimiters.
pub open spec fn delim_matches(b: u8, field: bool) -> bool {
    if field {
        b == 20 || b == 21
    } else {
        b == 0
    }
}

/// Length of the delimiter-free prefix of `s` (its length when no
/// delimiter occurs).
pub open spec fn first_delim_at(s: Seq<u8>, field: bool) -> nat
    decreases s.len(),
{
    if s.len() == 0 {
        0
    } else if delim_matches(s[0], field) {
        0
    } else {
        1 + first_delim_at(s.skip(1), field)
    }
}

/// The segments of `s` between delimiters, in order, empty segments kept:
/// splitting "a\x00b" on NUL gives ["a", "b"], and "a\x00" gives ["a", ""].
pub open spec fn split_parts(s: Seq<u8>, field: bool) -> Seq<Seq<u8>>
    decreases s.len(),
{
    let i = first_delim_at(s, field) as int;
    if i >= s.len() {
        seq![s]
    } else {
        seq![s.take(i)] + split_parts(s.skip(i + 1), field)
    }
}

pub proof fn lemma_first_delim_props(s: Seq<u8>, field: bool)
    ensures
        first_delim_at(s, field) <= s.len(),
        forall|j: int| 0 <= j < first_delim_at(s, field) ==> !delim_matches(#[trigger] s[j], field),
        first_delim_at(s, field) < s.len() ==> delim_matches(s[first_delim_at(s, field) as int],
            field),
    decreases s.len(),
{
    if s.len() == 0 {
    } else if delim_matches(s[0], field) {
    } else {
        lemma_first_delim_props(s.skip(1), field);
        assert forall|j: int| 0 <= j < first_delim_at(s, field) implies !delim_matches(
            #[trigger] s[j],
            field,
        ) by {
            if j > 0 {
                assert(s[j] == s.skip(1)[j - 1]);
            }
        }
    }
}

pub proof fn lemma_split_parts_nonempty(s: Seq<u8>, field: bool)
    ensures
        split_parts(s, field).len() >= 1,
{
    lemma_first_delim_props(s, field);
}

/// Unfolds one leading byte off a split: a delimiter opens a fresh empty
/// segment; any other byte extends the first segment.
pub proof fn lemma_split_cons(c: u8, t: Seq<u8>, field: bool)
    ensures
        delim_matches(c, field) ==> split_parts(seq![c] + t, field) =~~= seq![Seq::<u8>::empty()]
            + split_parts(t, field),
        !delim_matches(c, field) ==> split_parts(seq![c] + t, field) =~~= seq![
            seq![c] + split_parts(t, field)[0],
        ] + split_parts(t, field).skip(1),
{
    let s = seq![c] + t;
    assert(s.skip(1) =~= t);
    lemma_first_delim_props(t, field);
    lemma_split_parts_nonempty(t, field);
    if delim_matches(c, field) {
        assert(first_delim_at(s, field) == 0);
        assert(s.take(0) =~= Seq::<u8>::empty());
    } else {
        let j = first_delim_at(t, field) as int;
        assert(first_delim_at(s, field) == 1 + j);
        if j >= t.len() {
            assert(split_parts(t, field) == seq![t]);
            assert(split_parts(s, field) == seq![s]);
            assert(s =~= seq![c] + t);
        } else {
            assert(s.take(1 + j) =~= seq![c] + t.take(j));
            assert(s.skip(1 + j + 1) =~= t.skip(j + 1));
            assert(split_parts(s, field) == seq![s.take(1 + j)] + split_parts(t.skip(j + 1), field));
            assert(split_parts(t, field) == seq![t.take(j)] + split_parts(t.skip(j + 1), field));
            assert(split_parts(t, field)[0] == t.take(j));
            assert(split_parts(t, field).skip(1) =~= split_parts(t.skip(j + 1), field));
        }
    }
}

/// An ASCII decimal digit.
pub open spec fn is_digit_byte(b: u8) -> bool {
    48 <= b <= 57
}

/// Every byte of `s` is a decimal digit.
pub open spec fn all_digits(s: Seq<u8>) -> bool {
    forall|i: int| 0 <= i < s.len() ==> is_digit_byte(#[trigger] s[i])
}

/// The number denoted by a digit string, most significant digit first.
pub open spec fn digits_val(s: Seq<u8>) -> int
    decreases s.len(),
{
    if s.len() == 0 {
        0
    } else {
        10 * digits_val(s.drop_last()) + (s.last() - 48)
    }
}

/// Ten to the `k`.
pub open spec fn pow10(k: nat) -> int
    decreases k,
{
    if k == 0 {
        1
    } else {
        10 * pow10((k - 1) as nat)
    }
}

/// A fraction's first six digits, right-padded with zeros: the number of
/// microseconds its leading six decimal places denote.
pub open spec fn frac_micros(fp: Seq<u8>) -> int {
    if fp.len() >= 6 {
        digits_val(fp.take(6))
    } else {
        digits_val(fp + Seq::new((6 - fp.len()) as nat, |i: int| 48u8))
    }
}

/// Length of the dot-free prefix of `s` (its length when no dot occurs).
pub open spec fn first_dot_at(s: Seq<u8>) -> nat
    decreases s.len(),
{
    if s.len() == 0 {
        0
    } else if s[0] == 46 {
        0
    } else {
        1 + first_dot_at(s.skip(1))
    }
}

proof fn lemma_first_dot_from_prefix(s: Seq<u8>, k: int)
    requires
        0 <= k <= s.len(),
        forall|j: int| 0 <= j < k ==> s[j] != 46,
        k < s.len() ==> s[k] == 46,
    ensures
        first_dot_at(s) == k,
    decreases s.len(),
{
    if s.len() == 0 {
    } else if k == 0 {
    } else {
        assert(s[0] != 46);
        lemma_first_dot_from_prefix(s.skip(1), k - 1);
    }
}

proof fn lemma_first_dot_le_len(s: Seq<u8>)
    ensures
        first_dot_at(s) <= s.len(),
    decreases s.len(),
{
    if s.len() == 0 || s[0] == 46 {
    } else {
        lemma_first_dot_le_len(s.skip(1));
    }
}

proof fn lemma_first_dot_min(s: Seq<u8>, k: int)
    requires
        0 <= k <= s.len(),
        forall|j: int| 0 <= j < k ==> s[j] != 46,
    ensures
        first_dot_at(s) >= k,
    decreases s.len(),
{
    if s.len() == 0 || k == 0 {
    } else {
        assert(s[0] != 46);
        lemma_first_dot_min(s.skip(1), k - 1);
    }
}

proof fn lemma_digits_val_append_zeros(s: Seq<u8>, k: nat)
    ensures
        digits_val(s + Seq::new(k, |i: int| 48u8)) == digits_val(s) * pow10(k),
    decreases k,
{
    if k == 0 {
        assert(s + Seq::new(0, |i: int| 48u8) =~= s);
    } else {
        let shorter = s + Seq::new((k - 1) as nat, |i: int| 48u8);
        let longer = s + Seq::new(k, |i: int| 48u8);
        assert(longer.drop_last() =~= shorter);
        assert(longer.last() == 48);
        lemma_digits_val_append_zeros(s, (k - 1) as nat);
        assert(10 * (digits_val(s) * pow10((k - 1) as nat)) == digits_val(s) * (10 * pow10(
            (k - 1) as nat,
        ))) by (nonlinear_arith);
    }
}

/// The microseconds denoted by a trimmed decimal-seconds string: an
/// optional sign, digits, an optional dot and fractional digits — at least
/// one digit in all, the whole part at most a trillion seconds, fractional
/// digits beyond the sixth dropped. Anything else, exponent notation
/// included, does not parse.
pub open spec fn parse_signed_micros(t: Seq<u8>) -> Option<int> {
    if t.len() == 0 {
        None
    } else {
        let neg = t[0] == 45;
        let body = if t[0] == 45 || t[0] == 43 {
            t.skip(1)
        } else {
            t
        };
        let d = first_dot_at(body) as int;
        let ip = body.take(d);
        let fp = if d < body.len() {
            body.skip(d + 1)
        } else {
            Seq::<u8>::empty()
        };
        if all_digits(ip) && all_digits(fp) && ip.len() + fp.len() >= 1 && digits_val(ip)
            <= 1_000_000_000_000 {
            let v = digits_val(ip) * 1_000_000 + frac_micros(fp);
            Some(
                if neg {
                    -v
                } else {
                    v
                },
            )
        } else {
            None
        }
    }
}

/// The onset field of an annotation list: it must begin with `+`; the rest,
/// trimmed of blanks, is a signed decimal-seconds offset.
pub open spec fn parse_onset_micros(f: Seq<u8>) -> Option<int> {
    if f.len() == 0 || f[0] != 43 {
        None
    } else {
        parse_signed_micros(trimmed(f.skip(1)))
    }
}

fn pow10_exec(k: usize) -> (r: u64)
    requires
        k <= 6,
    ensures
        r as int == pow10(k as nat),
        r <= 1_000_000,
{
    proof {
        reveal_with_fuel(pow10, 8);
    }
    if k == 0 {
        1
    } else if k == 1 {
        10
    } else if k == 2 {
        100
    } else if k == 3 {
        1_000
    } else if k == 4 {
        10_000
    } else if k == 5 {
        100_000
    } else {
        1_000_000
    }
}

/// Parses an annotation list's onset field to microseconds.
#[verifier::rlimit(80)]
fn parse_onset(f: &Vec<u8>) -> (r: Option<i64>)
    ensures
        r is Some <==> parse_onset_micros(f@) is Some,
        r matches Some(v) ==> parse_onset_micros(f@) == Some(v as int),
        r matches Some(v) ==> -0x1000_0000_0000_0000 < (v as int) < 0x1000_0000_0000_0000,
{
    if f.len() == 0 {
        return None;
    }
    if f[0] != 43 {
        return None;
    }
    let t = trim_exec(f, 1);
    if t.len() == 0 {
        return None;
    }
    let c0 = t[0];
    let has_sign = c0 == 45 || c0 == 43;
    let neg = c0 == 45;
    let start: usize = if has_sign {
        1
    } else {
        0
    };
    let ghost body = if has_sign {
        t@.skip(1)
    } else {
        t@
    };
    proof {
        assert(t@.skip(0) =~= t@);
        assert(body == t@.skip(start as int));
    }
    let mut i: usize = start;
    let mut ipv: u64 = 0;
    let mut too_big = false;
    while i < t.len()
        invariant
            start <= i <= t@.len(),
            body == t@.skip(start as int),
            body.len() == t@.len() - start,
            forall|j: int| 0 <= j < i - start ==> is_digit_byte(#[trigger] body[j]),
            !too_big ==> ipv as int == digits_val(body.take(i - start)) && ipv
                <= 1_000_000_000_000,
            too_big ==> digits_val(body.take(i - start)) > 1_000_000_000_000,
        ensures
            start <= i <= t@.len(),
            forall|j: int| 0 <= j < i - start ==> is_digit_byte(#[trigger] body[j]),
            !too_big ==> ipv as int == digits_val(body.take(i - start)) && ipv
                <= 1_000_000_000_000,
            too_big ==> digits_val(body.take(i - start)) > 1_000_000_000_000,
            i < t@.len() ==> !is_digit_byte(t@[i as int]),
        decreases t@.len() - i,
    {
        let c = t[i];
        if !(48 <= c && c <= 57) {
            break;
        }
        proof {
            assert(body[i - start] == t@[i as int]);
            assert(body.take(i + 1 - start).drop_last() =~= body.take(i - start));
            assert(body.take(i + 1 - start).last() == body[i - start]);
        }
        if !too_big {
            let nv = ipv * 10 + ((c - 48) as u64);
            if nv > 1_000_000_000_000 {
                too_big = true;
            } else {
                ipv = nv;
            }
        }
        i = i + 1;
    }
    let ipcount = i - start;
    let ghost ip_spec = body.take(first_dot_at(body) as int);
    if i == t.len() {
        // no dot: the whole body is the integer part
        proof {
            lemma_first_dot_from_prefix(body, body.len() as int);
            assert(body.take(body.len() as int) =~= body);
        }
        if too_big || ipcount == 0 {
            return None;
        }
        let v: u64 = ipv * 1_000_000;
        proof {
            assert(Seq::<u8>::empty().len() == 0);
            assert(frac_micros(Seq::<u8>::empty()) == digits_val(
                Seq::<u8>::empty() + Seq::new(6, |j: int| 48u8),
            ));
            lemma_digits_val_append_zeros(Seq::<u8>::empty(), 6);
        }
        if neg {
            return Some(-(v as i64));
        } else {
            return Some(v as i64);
        }
    }
    let c = t[i];
    if c != 46 {
        // a stray byte: the spec's integer part reaches past it and is not
        // all digits
        proof {
            assert(body[i - start] == t@[i as int]);
            assert forall|j: int| 0 <= j < i + 1 - start implies body[j] != 46 by {
                if j < i - start {
                    assert(is_digit_byte(body[j]));
                }
            }
            lemma_first_dot_min(body, i + 1 - start);
            lemma_first_dot_le_len(body);
            assert(ip_spec[i - start] == body[i - start]);
            assert(!is_digit_byte(ip_spec[i - start]));
        }
        return None;
    }
    proof {
        lemma_first_dot_from_prefix(body, i - start);
        assert(ip_spec =~= body.take(i - start));
    }
    let ghost fp = body.skip(i + 1 - start);
    proof {
        assert(fp.len() == t@.len() - (i + 1));
        assert(forall|j: int| 0 <= j < fp.len() ==> fp[j] == t@[i + 1 + j]);
    }
    let fstart = i + 1;
    let mut k = fstart;
    let mut fv: u64 = 0;
    while k < t.len()
        invariant
            f@.len() > 0,
            f@[0] == 43,
            t@ == trimmed(f@.skip(1)),
            t@.len() > 0,
            neg == (t@[0] == 45),
            has_sign == (t@[0] == 45 || t@[0] == 43),
            start == (if has_sign { 1int } else { 0int }),
            body == t@.skip(start as int),
            body.len() == t@.len() - start,
            start <= i,
            first_dot_at(body) == i - start,
            fstart <= k <= t@.len(),
            fstart == i + 1,
            i < t@.len(),
            fp == body.skip(i + 1 - start),
            fp.len() == t@.len() - fstart,
            forall|j: int| 0 <= j < fp.len() ==> fp[j] == t@[fstart + j],
            forall|j: int| 0 <= j < k - fstart ==> is_digit_byte(#[trigger] fp[j]),
            fv as int == digits_val(
                fp.take(if k - fstart <= 6 { k - fstart } else { 6int }),
            ),
            (fv as int) < pow10((if k - fstart <= 6 { k - fstart } else { 6int }) as nat),
            fv < 1_000_000,
        decreases t@.len() - k,
    {
        let c2 = t[k];
        if !(48 <= c2 && c2 <= 57) {
            proof {
                assert(fp[k - fstart] == t@[k as int]);
                assert(0 <= k - fstart < fp.len() && !is_digit_byte(fp[k - fstart]));
                assert(!all_digits(fp));
                assert(first_dot_at(body) as int + 1 == i + 1 - start);
                assert(t@.skip(0) =~= t@);
                assert((if t@[0] == 45 || t@[0] == 43 {
                    t@.skip(1)
                } else {
                    t@
                }) == body);
                assert(parse_signed_micros(t@) is None);
                assert(parse_onset_micros(f@) is None);
            }
            return None;
        }
        proof {
            reveal_with_fuel(pow10, 8);
        }
        proof {
            assert(fp[k - fstart] == t@[k as int]);
            if k - fstart < 6 {
                assert(fp.take(k + 1 - fstart).drop_last() =~= fp.take(k - fstart));
                assert(fp.take(k + 1 - fstart).last() == fp[k - fstart]);
            }
        }
        if k - fstart < 6 {
            fv = fv * 10 + ((c2 - 48) as u64);
        }
        k = k + 1;
    }
    let fcount = t.len() - fstart;
    if too_big {
        return None;
    }
    if ipcount == 0 && fcount == 0 {
        return None;
    }
    let frac: u64 = if fcount >= 6 {
        fv
    } else {
        let mult = pow10_exec(6 - fcount);
        proof {
            lemma_digits_val_append_zeros(fp, (6 - fcount) as nat);
            assert(fp.take(fp.len() as int) =~= fp);
            assert(fp + Seq::new((6 - fp.len()) as nat, |j: int| 48u8) =~= fp + Seq::new(
                (6 - fcount) as nat,
                |j: int| 48u8,
            ));
            assert((fv as int) * (mult as int) < 1_000_000_000_000 && 0 <= (fv as int) * (
            mult as int)) by (nonlinear_arith)
                requires
                    0 <= (fv as int),
                    (fv as int) < 1_000_000,
                    0 <= (mult as int),
                    (mult as int) <= 1_000_000,
            ;
        }
        fv * mult
    };
    let v: u64 = ipv * 1_000_000 + frac;
    if neg {
        Some(-(v as i64))
    } else {
        Some(v as i64)
    }
}

/// Splits a byte vector into its delimiter-separated segments.
fn split_segments(bytes: &Vec<u8>, field: bool) -> (r: Vec<Vec<u8>>)
    ensures
        r.deep_view() == split_parts(bytes@, field),
{
    let mut done: Vec<Vec<u8>> = Vec::new();
    let mut cur: Vec<u8> = Vec::new();
    proof {
        lemma_split_parts_nonempty(bytes@, field);
        assert(bytes@.skip(0) =~= bytes@);
        assert(done.deep_view() + seq![cur@ + split_parts(bytes@, field)[0]] + split_parts(
            bytes@,
            field,
        ).skip(1) =~~= split_parts(bytes@, field));
    }
    for pos in 0..bytes.len()
        invariant
            split_parts(bytes@, field) == done.deep_view() + seq![
                cur@ + split_parts(bytes@.skip(pos as int), field)[0],
            ] + split_parts(bytes@.skip(pos as int), field).skip(1),
    {
        let ghost rest1 = bytes@.skip(pos + 1);
        let ghost p1 = split_parts(rest1, field);
        let b = bytes[pos];
        let is_delim = if field {
            b == 20 || b == 21
        } else {
            b == 0
        };
        proof {
            assert(bytes@.skip(pos as int) =~= seq![b] + rest1);
            lemma_split_cons(b, rest1, field);
            lemma_split_parts_nonempty(rest1, field);
        }
        if is_delim {
            let ghost old_done = done.deep_view();
            let ghost old_cur = cur@;
            done.push(cur);
            cur = Vec::new();
            proof {
                assert(done.deep_view() =~~= old_done.push(old_cur));
                assert(split_parts(bytes@.skip(pos as int), field) =~~= seq![Seq::<u8>::empty()]
                    + p1);
                assert(old_done + seq![old_cur + split_parts(bytes@.skip(pos as int), field)[0]]
                    + split_parts(bytes@.skip(pos as int), field).skip(1) =~~= done.deep_view()
                    + seq![cur@ + p1[0]] + p1.skip(1));
            }
        } else {
            let ghost old_cur = cur@;
            cur.push(b);
            proof {
                assert(split_parts(bytes@.skip(pos as int), field) =~~= seq![seq![b] + p1[0]]
                    + p1.skip(1));
                assert(split_parts(bytes@.skip(pos as int), field)[0] == seq![b] + p1[0]);
                assert(old_cur + (seq![b] + p1[0]) =~= cur@ + p1[0]);
                assert(split_parts(bytes@.skip(pos as int), field).skip(1) =~~= p1.skip(1));
            }
        }
    }
    proof {
        let e = bytes@.skip(bytes@.len() as int);
        assert(e =~= Seq::<u8>::empty());
        assert(first_delim_at(e, field) == 0);
        assert(split_parts(e, field) == seq![e]);
        assert(cur@ + e =~= cur@);
    }
    let ghost old_done = done.deep_view();
    let ghost old_cur = cur@;
    done.push(cur);
    proof {
        assert(done.deep_view() =~~= old_done.push(old_cur));
        assert(old_done.push(old_cur) =~~= split_parts(bytes@, field));
    }
    done
}

/// The non-empty fields of one annotation list: the list split on the two
/// reserved sub-delimiters, empty fragments dropped.
pub open spec fn record_fields(rec: Seq<u8>) -> Seq<Seq<u8>> {
    keep_nonempty(split_parts(rec, true))
}

/// The non-blank annotation lists carried by the reserved channel's words.
pub open spec fn annotation_records(ws: Seq<u16>) -> Seq<Seq<u8>> {
    keep_nonblank(split_parts(words_bytes(ws), false))
}

/// The relative-time origin: the first list's first field, when it parses;
/// zero otherwise.
pub open spec fn ref_onset_micros(rs: Seq<Seq<u8>>) -> int {
    if rs.len() == 0 {
        0
    } else {
        let fs = record_fields(rs[0]);
        if fs.len() == 0 {
            0
        } else {
            match parse_onset_micros(fs[0]) {
                Some(v) => v,
                None => 0,
            }
        }
    }
}

/// The marker one annotation list contributes: lists with fewer than three
/// fields, an unparsable onset, or a position outside the representable
/// range are skipped. The position is `(onset - origin) * rate`, in
/// millionths of a sample.
pub open spec fn marker_value(rec: Seq<u8>, ref_us: int, sf: int) -> Option<i64> {
    let fs = record_fields(rec);
    if fs.len() < 3 {
        None
    } else {
        match parse_onset_micros(fs[0]) {
            None => None,
            Some(t) => {
                let pos = (t - ref_us) * sf;
                if -0x8000_0000_0000_0000 <= pos && pos < 0x8000_0000_0000_0000 {
                    Some(pos as i64)
                } else {
                    None
                }
            },
        }
    }
}

/// The markers of a list of annotation records, in record order.
pub open spec fn markers_from(rs: Seq<Seq<u8>>, ref_us: int, sf: int) -> Seq<i64>
    decreases rs.len(),
{
    if rs.len() == 0 {
        Seq::empty()
    } else {
        let pre = markers_from(rs.drop_last(), ref_us, sf);
        match marker_value(rs.last(), ref_us, sf) {
            Some(v) => pre.push(v),
            None => pre,
        }
    }
}

/// Everything the decoder yields from the reserved channel's words.
pub open spec fn decoded_markers(ws: Seq<u16>, sf: int) -> Seq<i64> {
    let rs = annotation_records(ws);
    markers_from(rs, ref_onset_micros(rs), sf)
}

fn record_fields_exec(rec: &Vec<u8>) -> (r: Vec<Vec<u8>>)
    ensures
        r.deep_view() == record_fields(rec@),
{
    let segs = split_segments(rec, true);
    filter_nonempty(&segs)
}

/// Decodes the reserved channel's samples into event markers. Never fails;
/// malformed annotation lists are skipped.
pub fn parse_edf_annotations(words: &Vec<u16>, sampling_frequency: u64) -> (m: Markers)
    ensures
        m.wf(),
        m.markers@ == decoded_markers(words@, sampling_frequency as int),
{
    let bytes = words_to_bytes(words);
    let segs = split_segments(&bytes, false);
    let records = filter_nonblank(&segs);
    let ghost rs = records.deep_view();
    proof {
        assert(rs == annotation_records(words@));
    }
    let mut ref_us: i64 = 0;
    if records.len() > 0 {
        proof {
            assert(rs[0] == records@[0].deep_view());
            assert(records@[0]@ =~= rs[0]);
        }
        let fs0 = record_fields_exec(&records[0]);
        if fs0.len() > 0 {
            proof {
                assert(fs0.deep_view()[0] == fs0@[0].deep_view());
                assert(fs0@[0]@ =~= record_fields(rs[0])[0]);
            }
            match parse_onset(&fs0[0]) {
                Some(v) => {
                    ref_us = v;
                },
                None => {},
            }
        }
    }
    proof {
        assert(ref_us as int == ref_onset_micros(rs));
    }
    let ghost ru = ref_onset_micros(rs);
    let ghost sf = sampling_frequency as int;
    let mut out: Vec<i64> = Vec::new();
    for k in 0..records.len()
        invariant
            rs == records.deep_view(),
            rs.len() == records@.len(),
            ru == ref_onset_micros(rs),
            sf == sampling_frequency as int,
            ref_us as int == ru,
            -0x1000_0000_0000_0000 < (ref_us as int),
            (ref_us as int) < 0x1000_0000_0000_0000,
            out@ == markers_from(rs.take(k as int), ru, sf),
    {
        proof {
            assert(rs[k as int] == records@[k as int].deep_view());
            assert(records@[k as int]@ =~= rs[k as int]);
            assert(rs.take(k + 1).drop_last() =~= rs.take(k as int));
            assert(rs.take(k + 1).last() == rs[k as int]);
        }
        let fs = record_fields_exec(&records[k]);
        if fs.len() >= 3 {
            proof {
                assert(fs.deep_view()[0] == fs@[0].deep_view());
                assert(fs@[0]@ =~= record_fields(rs[k as int])[0]);
            }
            match parse_onset(&fs[0]) {
                Some(tv) => {
                    proof {
                        let d = (tv as int) - (ref_us as int);
                        assert(-0x4000_0000_0000_0000_0000_0000_0000_0000 < d * sf && d * sf
                            < 0x4000_0000_0000_0000_0000_0000_0000_0000) by (nonlinear_arith)
                            requires
                                -0x2000_0000_0000_0000 < d,
                                d < 0x2000_0000_0000_0000,
                                0 <= sf,
                                sf < 0x1_0000_0000_0000_0000,
                        ;
                    }
                    let pos: i128 = ((tv as i128) - (ref_us as i128)) * (
                    sampling_frequency as i128);
                    if -0x8000_0000_0000_0000i128 <= pos && pos <= 0x7fff_ffff_ffff_ffffi128 {
                        out.push(pos as i64);
                    }
                },
                None => {},
            }
        }
    }
    proof {
        assert(rs.take(rs.len() as int) =~= rs);
    }
    Markers { n_markers: out.len(), markers: out }
}

} // verus!
