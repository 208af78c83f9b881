//! NMEA sentence scanning, checksum validation and the position fix.
//!
//! A sentence is `$` followed by a two-letter talker, a three-letter
//! kind, a comma, the data field, and `*HH`: two upper-case hex digits
//! holding the XOR of every byte between `$` and `*`.  The scanner walks
//! the residual bytes of a capture, collects every checksum-valid
//! sentence, and groups them by kind in first-seen order.  The fix
//! builder reads the ZDA, GGA, VTG, GSA and GSV groups into a
//! [`NmeaGpsInfo`], carrying decimal fields as exact scaled integers.

use vstd::prelude::*;
use vstd::slice::{slice_subrange, slice_to_vec};
use crate::gnss::GnssSatellite;

verus! {

/// An upper-case ASCII letter.
pub open spec fn is_upper(b: u8) -> bool {
    65 <= b <= 90
}

/// An ASCII decimal digit.
pub open spec fn is_digit(b: u8) -> bool {
    48 <= b <= 57
}

/// An upper-case ASCII hex digit, as NMEA checksums use.
pub open spec fn is_hex_up(b: u8) -> bool {
    is_digit(b) || (65 <= b <= 70)
}

/// The value of an upper-case hex digit.
pub open spec fn hex_val(b: u8) -> int
    recommends
        is_hex_up(b),
{
    if is_digit(b) {
        b - 48
    } else {
        b - 55
    }
}

/// The XOR of all bytes of a sequence, as the NMEA checksum computes it.
pub open spec fn xor_fold(s: Seq<u8>) -> u8
    decreases s.len(),
{
    if s.len() == 0 {
        0u8
    } else {
        xor_fold(s.drop_last()) ^ s.last()
    }
}

/// Whether a sentence head starts at `p`: `$`, two upper-case letters,
/// three upper-case letters, and a comma.
pub open spec fn head_at(s: Seq<u8>, p: int) -> bool {
    &&& 0 <= p
    &&& p + 7 <= s.len()
    &&& s[p] == 36
    &&& is_upper(s[p + 1])
    &&& is_upper(s[p + 2])
    &&& is_upper(s[p + 3])
    &&& is_upper(s[p + 4])
    &&& is_upper(s[p + 5])
    &&& s[p + 6] == 44
}

/// Whether a sentence terminator starts at `q`: `*` and two upper-case
/// hex digits.
pub open spec fn term_at(s: Seq<u8>, q: int) -> bool {
    &&& 0 <= q
    &&& q + 3 <= s.len()
    &&& s[q] == 42
    &&& is_hex_up(s[q + 1])
    &&& is_hex_up(s[q + 2])
}

/// The position of the terminator that closes a data field starting at
/// `q`, or `-1` when a newline or the end of the buffer comes first.
/// A `*` not followed by two hex digits counts as a data byte.
pub open spec fn term_pos(s: Seq<u8>, q: int) -> int
    decreases s.len() - q,
{
    if q < 0 || q >= s.len() {
        -1
    } else if term_at(s, q) {
        q
    } else if s[q] == 10 {
        -1
    } else {
        term_pos(s, q + 1)
    }
}

proof fn lemma_term_pos_bounds(s: Seq<u8>, q: int)
    requires
        0 <= q,
    ensures
        term_pos(s, q) == -1 || (q <= term_pos(s, q) && term_pos(s, q) + 3 <= s.len()),
    decreases s.len() - q,
{
    if q >= s.len() {
    } else if term_at(s, q) {
    } else if s[q] == 10 {
    } else {
        lemma_term_pos_bounds(s, q + 1);
    }
}

#[via_fn]
proof fn spec_scan_dec(s: Seq<u8>, p: int) {
    if 0 <= p < s.len() && head_at(s, p) {
        lemma_term_pos_bounds(s, p + 7);
    }
}

/// The checksum-valid sentences of `s` from position `p` on, each as
/// `(talker, kind, data)`.  At each position a sentence head is tried;
/// on a match the nearest terminator on the same line closes the data
/// field, the XOR checksum decides whether the sentence is kept, and the
/// scan continues after the terminator; otherwise it moves one byte on.
pub open spec fn spec_scan(s: Seq<u8>, p: int) -> Seq<(Seq<u8>, Seq<u8>, Seq<u8>)>
    decreases s.len() - p,
        via spec_scan_dec
{
    if !(0 <= p < s.len()) {
        Seq::empty()
    } else if head_at(s, p) && term_pos(s, p + 7) != -1 {
        let q = term_pos(s, p + 7);
        let rest = spec_scan(s, q + 3);
        if xor_fold(s.subrange(p + 1, q)) as int == 16 * hex_val(s[q + 1]) + hex_val(s[q + 2]) {
            seq![(s.subrange(p + 1, p + 3), s.subrange(p + 3, p + 6), s.subrange(p + 7, q))]
                + rest
        } else {
            rest
        }
    } else {
        spec_scan(s, p + 1)
    }
}

/// A raw NMEA sentence: talker, kind, and the data field between the
/// first comma and the `*`.
#[derive(Debug, Clone)]
pub struct RawNmea {
    /// The two-letter talker prefix.
    pub id: [u8; 2],
    /// The three-letter sentence kind.
    pub class: [u8; 3],
    /// The data field bytes.
    pub data: Vec<u8>,
}

impl View for RawNmea {
    type V = (Seq<u8>, Seq<u8>, Seq<u8>);

    open spec fn view(&self) -> (Seq<u8>, Seq<u8>, Seq<u8>) {
        (self.id@, self.class@, self.data@)
    }
}

/// The view of a sentence group list: each kind with its sentences.
pub open spec fn ngroups_view(g: Seq<([u8; 3], Vec<RawNmea>)>)
    -> Seq<(Seq<u8>, Seq<(Seq<u8>, Seq<u8>, Seq<u8>)>)> {
    g.map_values(|e: ([u8; 3], Vec<RawNmea>)| (e.0@, e.1@.map_values(|r: RawNmea| r@)))
}

/// Append a sentence to the group of its kind, keeping first-seen group
/// order; a new kind opens a new group at the end.
pub open spec fn spec_insert_rec(g: Seq<(Seq<u8>, Seq<(Seq<u8>, Seq<u8>, Seq<u8>)>)>,
    rec: (Seq<u8>, Seq<u8>, Seq<u8>)) -> Seq<(Seq<u8>, Seq<(Seq<u8>, Seq<u8>, Seq<u8>)>)>
    decreases g.len(),
{
    if g.len() == 0 {
        seq![(rec.1, seq![rec])]
    } else if g[0].0 == rec.1 {
        seq![(g[0].0, g[0].1.push(rec))] + g.drop_first()
    } else {
        seq![g[0]] + spec_insert_rec(g.drop_first(), rec)
    }
}

/// Fold a run of sentences into the group list, in order.
pub open spec fn spec_group_into(g: Seq<(Seq<u8>, Seq<(Seq<u8>, Seq<u8>, Seq<u8>)>)>,
    recs: Seq<(Seq<u8>, Seq<u8>, Seq<u8>)>) -> Seq<(Seq<u8>, Seq<(Seq<u8>, Seq<u8>, Seq<u8>)>)>
    decreases recs.len(),
{
    if recs.len() == 0 {
        g
    } else {
        spec_group_into(spec_insert_rec(g, recs[0]), recs.drop_first())
    }
}

/// The grouped checksum-valid sentences of a buffer.
pub open spec fn spec_nmea_groups(s: Seq<u8>) -> Seq<(Seq<u8>, Seq<(Seq<u8>, Seq<u8>,
    Seq<u8>)>)> {
    spec_group_into(Seq::empty(), spec_scan(s, 0))
}

proof fn lemma_insert_rec_found(g: Seq<(Seq<u8>, Seq<(Seq<u8>, Seq<u8>, Seq<u8>)>)>,
    rec: (Seq<u8>, Seq<u8>, Seq<u8>), idx: int)
    requires
        0 <= idx < g.len(),
        g[idx].0 == rec.1,
        forall|j: int| 0 <= j < idx ==> (#[trigger] g[j]).0 != rec.1,
    ensures
        spec_insert_rec(g, rec) == g.update(idx, (g[idx].0, g[idx].1.push(rec))),
    decreases idx,
{
    if idx == 0 {
        assert(spec_insert_rec(g, rec) =~= g.update(0, (g[0].0, g[0].1.push(rec))));
    } else {
        lemma_insert_rec_found(g.drop_first(), rec, idx - 1);
        assert(g.drop_first()[idx - 1] == g[idx]);
        assert(seq![g[0]] + g.drop_first().update(idx - 1, (g[idx].0, g[idx].1.push(rec)))
            =~= g.update(idx, (g[idx].0, g[idx].1.push(rec))));
    }
}

proof fn lemma_insert_rec_absent(g: Seq<(Seq<u8>, Seq<(Seq<u8>, Seq<u8>, Seq<u8>)>)>,
    rec: (Seq<u8>, Seq<u8>, Seq<u8>))
    requires
        forall|j: int| 0 <= j < g.len() ==> (#[trigger] g[j]).0 != rec.1,
    ensures
        spec_insert_rec(g, rec) == g.push((rec.1, seq![rec])),
    decreases g.len(),
{
    if g.len() == 0 {
        assert(spec_insert_rec(g, rec) =~= g.push((rec.1, seq![rec])));
    } else {
        lemma_insert_rec_absent(g.drop_first(), rec);
        assert(seq![g[0]] + g.drop_first().push((rec.1, seq![rec])) =~= g.push((rec.1, seq![
            rec])));
    }
}

/// Append a sentence to the group of its kind.
fn insert_rec(groups: &mut Vec<([u8; 3], Vec<RawNmea>)>, rec: RawNmea)
    ensures
        ngroups_view(final(groups)@) == spec_insert_rec(ngroups_view(old(groups)@), rec@),
{
    let ghost g0 = ngroups_view(groups@);
    let mut idx: usize = 0;
    let n = groups.len();
    while idx < n
        invariant
            idx <= n == groups@.len(),
            groups@ == old(groups)@,
            g0 == ngroups_view(groups@),
            forall|j: int| 0 <= j < idx ==> (#[trigger] ngroups_view(groups@)[j]).0
                != rec@.1,
        decreases n - idx,
    {
        let k = groups[idx].0;
        if k[0] == rec.class[0] && k[1] == rec.class[1] && k[2] == rec.class[2] {
            proof {
                assert(k@ =~= rec.class@);
            }
            let pair = groups.remove(idx);
            let (k0, mut v0) = pair;
            v0.push(rec);
            groups.insert(idx, (k0, v0));
            proof {
                let ii = idx as int;
                lemma_insert_rec_found(g0, rec@, ii);
                assert(groups@ =~= old(groups)@.update(ii, (k0, v0)));
                assert(v0@.map_values(|r: RawNmea| r@) =~= g0[ii].1.push(rec@));
                assert(ngroups_view(groups@) =~= g0.update(ii, (g0[ii].0, g0[ii].1.push(
                    rec@))));
            }
            return;
        }
        proof {
            assert(ngroups_view(groups@)[idx as int].0 == groups@[idx as int].0@);
            assert(groups@[idx as int].0@ != rec@.1) by {
                if groups@[idx as int].0@ == rec@.1 {
                    assert(groups@[idx as int].0@[0] == rec.class@[0]);
                    assert(groups@[idx as int].0@[1] == rec.class@[1]);
                    assert(groups@[idx as int].0@[2] == rec.class@[2]);
                }
            }
        }
        idx = idx + 1;
    }
    let kind = rec.class;
    let mut fresh: Vec<RawNmea> = Vec::new();
    let ghost recv = rec@;
    fresh.push(rec);
    proof {
        assert(fresh@.map_values(|r: RawNmea| r@) =~= seq![recv]);
    }
    groups.push((kind, fresh));
    proof {
        lemma_insert_rec_absent(g0, recv);
        assert(ngroups_view(groups@) =~= g0.push((recv.1, seq![recv])));
    }
}

/// XOR the bytes `s[a..b]`.
fn xor_range(s: &[u8], a: usize, b: usize) -> (r: u8)
    requires
        a <= b <= s@.len(),
    ensures
        r == xor_fold(s@.subrange(a as int, b as int)),
{
    let mut acc: u8 = 0;
    let mut j: usize = a;
    while j < b
        invariant
            a <= j <= b <= s@.len(),
            acc == xor_fold(s@.subrange(a as int, j as int)),
        decreases b - j,
    {
        acc = acc ^ s[j];
        proof {
            assert(s@.subrange(a as int, j + 1).drop_last() =~= s@.subrange(a as int, j as int));
            assert(s@.subrange(a as int, j + 1).last() == s@[j as int]);
        }
        j = j + 1;
    }
    acc
}

/// Whether `b` is an upper-case hex digit.
fn hex_up(b: u8) -> (r: bool)
    ensures
        r == is_hex_up(b),
{
    (48 <= b && b <= 57) || (65 <= b && b <= 70)
}

/// The value of an upper-case hex digit.
fn hex_digit_val(b: u8) -> (r: u8)
    requires
        is_hex_up(b),
    ensures
        r as int == hex_val(b),
{
    if b <= 57 {
        b - 48
    } else {
        b - 55
    }
}

/// Find the terminator that closes a data field starting at `q`.
fn find_term(s: &[u8], q: usize) -> (r: Option<usize>)
    requires
        q <= s@.len(),
    ensures
        match r {
            Some(t) => term_pos(s@, q as int) == t && term_at(s@, t as int),
            None => term_pos(s@, q as int) == -1,
        },
{
    let mut i: usize = q;
    while i < s.len()
        invariant
            q <= i <= s@.len(),
            term_pos(s@, q as int) == term_pos(s@, i as int),
        decreases s@.len() - i,
    {
        if s[i] == 42 && s.len() - i >= 3 {
            if hex_up(s[i + 1]) && hex_up(s[i + 2]) {
                return Some(i);
            }
        }
        if s[i] == 10 {
            return None;
        }
        i = i + 1;
    }
    None
}

/// Scan `s` from `p`, folding every checksum-valid sentence into the
/// groups.
fn scan_from(s: &[u8], p: usize, groups: &mut Vec<([u8; 3], Vec<RawNmea>)>)
    requires
        p <= s@.len(),
    ensures
        ngroups_view(final(groups)@) == spec_group_into(ngroups_view(old(groups)@),
            spec_scan(s@, p as int)),
    decreases s@.len() - p,
{
    if p >= s.len() {
        return;
    }
    proof {
        lemma_term_pos_bounds(s@, p + 7);
    }
    let head_ok = s.len() - p >= 7 && s[p] == 36 && 65 <= s[p + 1] && s[p + 1] <= 90 && 65 <= s[p
        + 2] && s[p + 2] <= 90 && 65 <= s[p + 3] && s[p + 3] <= 90 && 65 <= s[p + 4] && s[p + 4]
        <= 90 && 65 <= s[p + 5] && s[p + 5] <= 90 && s[p + 6] == 44;
    if head_ok {
        match find_term(s, p + 7) {
            Some(q) => {
                let ghost g0 = ngroups_view(groups@);
                let ghost recs = spec_scan(s@, p as int);
                let ghost rest = spec_scan(s@, q + 3);
                let ghost recv = (s@.subrange(p + 1, p + 3), s@.subrange(p + 3, p + 6),
                    s@.subrange(p + 7, q as int));
                let calc = xor_range(s, p + 1, q);
                let cks = 16 * hex_digit_val(s[q + 1]) + hex_digit_val(s[q + 2]);
                if calc == cks {
                    let id: [u8; 2] = [s[p + 1], s[p + 2]];
                    let kind: [u8; 3] = [s[p + 3], s[p + 4], s[p + 5]];
                    let data: Vec<u8> = slice_to_vec(slice_subrange(s, p + 7, q));
                    let rec = RawNmea { id, class: kind, data };
                    proof {
                        assert(rec@.0 =~= s@.subrange(p + 1, p + 3));
                        assert(rec@.1 =~= s@.subrange(p + 3, p + 6));
                        assert(rec@ == recv);
                        assert(recs == seq![recv] + rest);
                        assert(recs[0] == recv);
                        assert(recs.drop_first() =~= rest);
                    }
                    insert_rec(groups, rec);
                    proof {
                        assert(ngroups_view(groups@) == spec_insert_rec(g0, recv));
                        assert(spec_group_into(g0, recs) == spec_group_into(spec_insert_rec(g0,
                            recv), rest));
                    }
                } else {
                    proof {
                        assert(recs == rest);
                    }
                }
                scan_from(s, q + 3, groups);
            },
            None => {
                scan_from(s, p + 1, groups);
            },
        }
    } else {
        scan_from(s, p + 1, groups);
    }
}

/// The value of a run of decimal digits, most significant first.
pub open spec fn digits_val(s: Seq<u8>) -> int
    decreases s.len(),
{
    if s.len() == 0 {
        0
    } else {
        digits_val(s.drop_last()) * 10 + (s.last() - 48)
    }
}

/// Every byte is a decimal digit.
pub open spec fn all_digits(s: Seq<u8>) -> bool {
    forall|i: int| 0 <= i < s.len() ==> is_digit(#[trigger] s[i])
}

proof fn lemma_digits_val_nonneg(s: Seq<u8>)
    requires
        all_digits(s),
    ensures
        digits_val(s) >= 0,
    decreases s.len(),
{
    if s.len() > 0 {
        assert(all_digits(s.drop_last()));
        lemma_digits_val_nonneg(s.drop_last());
    }
}

proof fn lemma_digits_val_prefix(s: Seq<u8>, k: int)
    requires
        all_digits(s),
        0 <= k <= s.len(),
    ensures
        digits_val(s.take(k)) <= digits_val(s),
    decreases s.len() - k,
{
    if k == s.len() {
        assert(s.take(k) =~= s);
    } else {
        lemma_digits_val_prefix(s, k + 1);
        assert(s.take(k + 1).drop_last() =~= s.take(k));
        assert(all_digits(s.take(k)));
        lemma_digits_val_nonneg(s.take(k));
    }
}

/// Parse the digit run `s[a..b]`; `None` when the value exceeds `max`.
fn parse_uint(s: &[u8], a: usize, b: usize, max: u64) -> (r: Option<u64>)
    requires
        a <= b <= s@.len(),
        all_digits(s@.subrange(a as int, b as int)),
    ensures
        ({
            let v = digits_val(s@.subrange(a as int, b as int));
            match r {
                Some(x) => x as int == v && v <= max,
                None => v > max,
            }
        }),
{
    let ghost whole = s@.subrange(a as int, b as int);
    let mut acc: u64 = 0;
    let mut j: usize = a;
    while j < b
        invariant
            a <= j <= b <= s@.len(),
            all_digits(whole),
            whole == s@.subrange(a as int, b as int),
            acc as int == digits_val(whole.take(j - a)),
            acc <= max,
        decreases b - j,
    {
        proof {
            assert(whole[j - a] == s@[j as int]);
            assert(is_digit(s@[j as int]));
        }
        let d: u64 = (s[j] - 48) as u64;
        proof {
            assert(whole.take(j - a + 1).drop_last() =~= whole.take(j - a));
            assert(whole.take(j - a + 1).last() == whole[j - a]);
            vstd::arithmetic::div_mod::lemma_fundamental_div_mod(max as int, 10);
        }
        if acc > max / 10 || (acc == max / 10 && d > max % 10) {
            proof {
                assert(digits_val(whole.take(j - a + 1)) > max);
                lemma_digits_val_prefix(whole, j - a + 1);
            }
            return None;
        }
        acc = acc * 10 + d;
        j = j + 1;
    }
    proof {
        assert(whole.take(b - a) =~= whole);
    }
    Some(acc)
}

/// What `.parse()` to an integer type with ceiling `max`, with parse
/// failures defaulted to zero, yields: the run's value when it is all
/// digits, at least one, and in range; zero otherwise.
pub open spec fn spec_uint_or_zero(s: Seq<u8>, max: int) -> int {
    if s.len() >= 1 && all_digits(s) && digits_val(s) <= max {
        digits_val(s)
    } else {
        0
    }
}

/// Parse the run `s[a..b]` as an integer with ceiling `max`, zero on any
/// failure.
fn uint_or_zero(s: &[u8], a: usize, b: usize, max: u64) -> (r: u64)
    requires
        a <= b <= s@.len(),
    ensures
        r as int == spec_uint_or_zero(s@.subrange(a as int, b as int), max as int),
        r <= max,
{
    let ghost whole = s@.subrange(a as int, b as int);
    let mut j: usize = a;
    while j < b
        invariant
            a <= j <= b <= s@.len(),
            whole == s@.subrange(a as int, b as int),
            forall|k: int| 0 <= k < j - a ==> is_digit(#[trigger] whole[k]),
        decreases b - j,
    {
        if !(48 <= s[j] && s[j] <= 57) {
            proof {
                assert(!is_digit(whole[j - a]));
            }
            return 0;
        }
        j = j + 1;
    }
    if a == b {
        return 0;
    }
    proof {
        assert(all_digits(whole));
    }
    match parse_uint(s, a, b, max) {
        Some(x) => x,
        None => 0,
    }
}

/// The end of the run of decimal digits starting at `i`.
pub open spec fn run_end_digit(s: Seq<u8>, i: int) -> int
    decreases s.len() - i,
{
    if i < 0 || i >= s.len() {
        s.len() as int
    } else if !is_digit(s[i]) {
        i
    } else {
        run_end_digit(s, i + 1)
    }
}

/// A digit or a dot, the shape of an unsigned decimal field.
pub open spec fn is_numdot(b: u8) -> bool {
    is_digit(b) || b == 46
}

/// The end of the run of digits and dots starting at `i`.
pub open spec fn run_end_numdot(s: Seq<u8>, i: int) -> int
    decreases s.len() - i,
{
    if i < 0 || i >= s.len() {
        s.len() as int
    } else if !is_numdot(s[i]) {
        i
    } else {
        run_end_numdot(s, i + 1)
    }
}

/// A digit, a dot or a minus sign, the shape of a signed decimal field.
pub open spec fn is_signnumdot(b: u8) -> bool {
    is_numdot(b) || b == 45
}

/// The end of the run of digits, dots and minus signs starting at `i`.
pub open spec fn run_end_signnumdot(s: Seq<u8>, i: int) -> int
    decreases s.len() - i,
{
    if i < 0 || i >= s.len() {
        s.len() as int
    } else if !is_signnumdot(s[i]) {
        i
    } else {
        run_end_signnumdot(s, i + 1)
    }
}

/// A digit or a comma, the shape of the satellites-in-view payload.
pub open spec fn is_numcomma(b: u8) -> bool {
    is_digit(b) || b == 44
}

/// The end of the run of digits and commas starting at `i`.
pub open spec fn run_end_numcomma(s: Seq<u8>, i: int) -> int
    decreases s.len() - i,
{
    if i < 0 || i >= s.len() {
        s.len() as int
    } else if !is_numcomma(s[i]) {
        i
    } else {
        run_end_numcomma(s, i + 1)
    }
}

/// Find the end of the digit run starting at `i`.
fn digit_run(s: &[u8], i: usize) -> (r: usize)
    requires
        i <= s@.len(),
    ensures
        r == run_end_digit(s@, i as int),
        i <= r <= s@.len(),
{
    let mut j: usize = i;
    while j < s.len()
        invariant
            i <= j <= s@.len(),
            run_end_digit(s@, i as int) == run_end_digit(s@, j as int),
        decreases s@.len() - j,
    {
        if !(48 <= s[j] && s[j] <= 57) {
            return j;
        }
        j = j + 1;
    }
    j
}

/// Find the end of the digits-and-dots run starting at `i`.
fn numdot_run(s: &[u8], i: usize) -> (r: usize)
    requires
        i <= s@.len(),
    ensures
        r == run_end_numdot(s@, i as int),
        i <= r <= s@.len(),
{
    let mut j: usize = i;
    while j < s.len()
        invariant
            i <= j <= s@.len(),
            run_end_numdot(s@, i as int) == run_end_numdot(s@, j as int),
        decreases s@.len() - j,
    {
        if !((48 <= s[j] && s[j] <= 57) || s[j] == 46) {
            return j;
        }
        j = j + 1;
    }
    j
}

/// Find the end of the signed-decimal run starting at `i`.
fn signnumdot_run(s: &[u8], i: usize) -> (r: usize)
    requires
        i <= s@.len(),
    ensures
        r == run_end_signnumdot(s@, i as int),
        i <= r <= s@.len(),
{
    let mut j: usize = i;
    while j < s.len()
        invariant
            i <= j <= s@.len(),
            run_end_signnumdot(s@, i as int) == run_end_signnumdot(s@, j as int),
        decreases s@.len() - j,
    {
        if !((48 <= s[j] && s[j] <= 57) || s[j] == 46 || s[j] == 45) {
            return j;
        }
        j = j + 1;
    }
    j
}

/// Find the end of the digits-and-commas run starting at `i`.
fn numcomma_run(s: &[u8], i: usize) -> (r: usize)
    requires
        i <= s@.len(),
    ensures
        r == run_end_numcomma(s@, i as int),
        i <= r <= s@.len(),
{
    let mut j: usize = i;
    while j < s.len()
        invariant
            i <= j <= s@.len(),
            run_end_numcomma(s@, i as int) == run_end_numcomma(s@, j as int),
        decreases s@.len() - j,
    {
        if !((48 <= s[j] && s[j] <= 57) || s[j] == 44) {
            return j;
        }
        j = j + 1;
    }
    j
}

/// An exact decimal number: the value is
/// `(neg ? -1 : 1) * mant / 10^scale`.
#[derive(Debug, Copy, Clone, PartialEq, Eq, Structural, Hash)]
pub struct Dec {
    /// Whether the number is negative.
    pub neg: bool,
    /// The digits of the number as an integer mantissa.
    pub mant: u64,
    /// How many of the mantissa's trailing digits are fractional.
    pub scale: u8,
}

impl Dec {
    /// The decimal zero.
    pub fn zero() -> (r: Dec)
        ensures
            r == (Dec { neg: false, mant: 0u64, scale: 0u8 }),
    {
        Dec { neg: false, mant: 0, scale: 0 }
    }
}

/// The position of the earliest dot at or after `i`, or `t.len()`.
pub open spec fn dot_from(t: Seq<u8>, i: int) -> int
    decreases t.len() - i,
{
    if i < 0 || i >= t.len() {
        t.len() as int
    } else if t[i] == 46 {
        i
    } else {
        dot_from(t, i + 1)
    }
}

/// What parsing a decimal field yields: an optional minus sign, digits
/// with at most one dot among them and at least one digit, the mantissa
/// within range.  This is the shape a numeric NMEA field can take.
pub open spec fn spec_parse_dec(s: Seq<u8>) -> Option<Dec> {
    let neg = s.len() > 0 && s[0] == 45;
    let t = if neg {
        s.drop_first()
    } else {
        s
    };
    let d = dot_from(t, 0);
    let digits = if d < t.len() {
        t.subrange(0, d) + t.subrange(d + 1, t.len() as int)
    } else {
        t
    };
    let scale = if d < t.len() {
        t.len() - d - 1
    } else {
        0
    };
    if digits.len() >= 1 && all_digits(digits) && scale <= 255 && digits_val(digits)
        <= 0xFFFF_FFFF_FFFF_FFFF {
        Some(Dec { neg, mant: digits_val(digits) as u64, scale: scale as u8 })
    } else {
        None
    }
}

/// A parse with failures defaulted to the decimal zero.
pub open spec fn spec_dec_or_zero(s: Seq<u8>) -> Dec {
    match spec_parse_dec(s) {
        Some(d) => d,
        None => Dec { neg: false, mant: 0u64, scale: 0u8 },
    }
}

/// Find the first dot in `s[ts..b]`.
fn dot_scan(s: &[u8], ts: usize, b: usize) -> (r: usize)
    requires
        ts <= b <= s@.len(),
    ensures
        ts <= r <= b,
        r - ts == dot_from(s@.subrange(ts as int, b as int), 0),
        r < b ==> s@[r as int] == 46,
{
    let ghost t = s@.subrange(ts as int, b as int);
    let mut j: usize = ts;
    while j < b
        invariant
            ts <= j <= b <= s@.len(),
            t == s@.subrange(ts as int, b as int),
            dot_from(t, 0) == dot_from(t, j - ts),
        decreases b - j,
    {
        proof {
            assert(t[j - ts] == s@[j as int]);
        }
        if s[j] == 46 {
            return j;
        }
        j = j + 1;
    }
    j
}

/// Parse the decimal field `s[a..b]`.
fn parse_dec(s: &[u8], a: usize, b: usize) -> (r: Option<Dec>)
    requires
        a <= b <= s@.len(),
    ensures
        r == spec_parse_dec(s@.subrange(a as int, b as int)),
{
    let ghost whole = s@.subrange(a as int, b as int);
    let neg = b > a && s[a] == 45;
    let ts: usize = if neg {
        a + 1
    } else {
        a
    };
    let ghost t = if neg {
        whole.drop_first()
    } else {
        whole
    };
    proof {
        assert(t =~= s@.subrange(ts as int, b as int));
    }
    let dd = dot_scan(s, ts, b);
    let ghost drel = dd - ts as int;
    let ghost digits = if drel < t.len() {
        t.subrange(0, drel) + t.subrange(drel + 1, t.len() as int)
    } else {
        t
    };
    proof {
        assert(dd < b ==> drel < t.len());
        assert(dd == b ==> drel == t.len());
        assert forall|k: int| 0 <= k < digits.len() implies #[trigger] digits[k] == (if k < drel {
            t[k]
        } else {
            t[k + 1]
        }) by {
            if drel < t.len() {
                if k < drel {
                    assert(digits[k] == t.subrange(0, drel)[k]);
                } else {
                    assert(digits[k] == t.subrange(drel + 1, t.len() as int)[k - drel]);
                }
            }
        }
    }
    // every byte but the dot must be a digit
    let mut j: usize = ts;
    while j < b
        invariant
            ts <= j <= b <= s@.len(),
            ts <= dd <= b,
            whole == s@.subrange(a as int, b as int),
            neg == (whole.len() > 0 && whole[0] == 45),
            ts == if neg { a + 1 } else { a as int },
            t == s@.subrange(ts as int, b as int),
            t == (if neg { whole.drop_first() } else { whole }),
            drel == dd - ts,
            drel == dot_from(t, 0),
            dd < b ==> drel < t.len(),
            dd >= b ==> drel == t.len(),
            digits == (if drel < t.len() {
                t.subrange(0, drel) + t.subrange(drel + 1, t.len() as int)
            } else {
                t
            }),
            forall|k: int| 0 <= k < digits.len() ==> #[trigger] digits[k] == (if k < drel {
                t[k]
            } else {
                t[k + 1]
            }),
            forall|k: int| ts <= k < j && k != dd ==> is_digit(#[trigger] s@[k]),
        decreases b - j,
    {
        if j != dd && !(48 <= s[j] && s[j] <= 57) {
            proof {
                let ji = j as int;
                let k: int = if ji < dd {
                    ji - ts
                } else {
                    ji - ts - 1
                };
                assert(digits[k] == t[ji - ts]);
                assert(t[ji - ts] == s@[ji]);
                assert(!is_digit(digits[k]));
            }
            return None;
        }
        j = j + 1;
    }
    proof {
        assert forall|k: int| 0 <= k < digits.len() implies is_digit(#[trigger] digits[k]) by {
            if k < drel {
                assert(digits[k] == t[k]);
                assert(t[k] == s@[ts + k]);
            } else {
                assert(digits[k] == t[k + 1]);
                assert(t[k + 1] == s@[ts + k + 1]);
            }
        }
        assert(all_digits(digits));
    }
    let ndigits: usize = if dd < b {
        b - ts - 1
    } else {
        b - ts
    };
    proof {
        assert(digits.len() == ndigits);
    }
    if ndigits == 0 {
        return None;
    }
    let scale: usize = if dd < b {
        b - dd - 1
    } else {
        0
    };
    if scale > 255 {
        return None;
    }
    // accumulate the mantissa
    let mut acc: u64 = 0;
    let mut j2: usize = ts;
    while j2 < b
        invariant
            ts <= j2 <= b <= s@.len(),
            ts <= dd <= b,
            t == s@.subrange(ts as int, b as int),
            all_digits(digits),
            digits == (if drel < t.len() {
                t.subrange(0, drel) + t.subrange(drel + 1, t.len() as int)
            } else {
                t
            }),
            digits.len() == ndigits,
            drel == dd - ts,
            drel == dot_from(t, 0),
            whole == s@.subrange(a as int, b as int),
            neg == (whole.len() > 0 && whole[0] == 45),
            ts == if neg { a + 1 } else { a as int },
            t == (if neg { whole.drop_first() } else { whole }),
            dd < b ==> drel < t.len(),
            dd >= b ==> drel == t.len(),
            scale == if dd < b { b - dd - 1 } else { 0int },
            scale <= 255,
            ndigits >= 1,
            forall|k: int| 0 <= k < digits.len() ==> #[trigger] digits[k] == (if k < drel {
                t[k]
            } else {
                t[k + 1]
            }),
            acc as int == digits_val(digits.take(
                if j2 <= dd {
                    j2 - ts
                } else {
                    j2 - ts - 1
                })),
        decreases b - j2,
    {
        if j2 != dd {
            let ghost cnt: int = if j2 <= dd {
                j2 - ts
            } else {
                j2 - ts - 1
            };
            proof {
                let ji = j2 as int;
                assert(digits[cnt] == t[ji - ts]);
                assert(t[ji - ts] == s@[ji]);
                assert(is_digit(digits[cnt]));
                assert(digits.take(cnt + 1).drop_last() =~= digits.take(cnt));
                assert(digits.take(cnt + 1).last() == digits[cnt]);
                vstd::arithmetic::div_mod::lemma_fundamental_div_mod(
                    0xFFFF_FFFF_FFFF_FFFFu64 as int, 10);
            }
            let d: u64 = (s[j2] - 48) as u64;
            if acc > u64::MAX / 10 || (acc == u64::MAX / 10 && d > u64::MAX % 10) {
                proof {
                    assert(digits_val(digits.take(cnt + 1)) > 0xFFFF_FFFF_FFFF_FFFF);
                    lemma_digits_val_prefix(digits, cnt + 1);
                }
                return None;
            }
            acc = acc * 10 + d;
        }
        j2 = j2 + 1;
    }
    proof {
        assert(digits.take(digits.len() as int) =~= digits);
    }
    Some(Dec { neg, mant: acc, scale: scale as u8 })
}

/// Parse the decimal field `s[a..b]`, zero on failure.
fn dec_or_zero(s: &[u8], a: usize, b: usize) -> (r: Dec)
    requires
        a <= b <= s@.len(),
    ensures
        r == spec_dec_or_zero(s@.subrange(a as int, b as int)),
{
    match parse_dec(s, a, b) {
        Some(d) => d,
        None => Dec::zero(),
    }
}

/// The errors of the NMEA fix path.
#[derive(Debug, Clone)]
pub enum GpsError {
    /// No ZDA sentence validated: no fix has been acquired yet.
    NoFix,
    /// An expected sentence or field is absent.
    PatternNotFound,
    /// A numeric field is malformed, or the buffer is not UTF-8.
    ParseError(String),
}

/// The view of a [`GpsError`], with the parse message as characters.
pub enum GpsErrView {
    /// No ZDA sentence validated.
    NoFix,
    /// An expected sentence or field is absent.
    PatternNotFound,
    /// A malformed field, with its message.
    Parse(Seq<char>),
}

impl View for GpsError {
    type V = GpsErrView;

    open spec fn view(&self) -> GpsErrView {
        match self {
            GpsError::NoFix => GpsErrView::NoFix,
            GpsError::PatternNotFound => GpsErrView::PatternNotFound,
            GpsError::ParseError(m) => GpsErrView::Parse(m@),
        }
    }
}

/// A UTC civil time.
#[derive(Debug, Copy, Clone, PartialEq, Eq, Structural, Hash)]
pub struct UtcTime {
    /// Calendar year.
    pub year: u16,
    /// Month, 1 to 12.
    pub month: u8,
    /// Day of month, 1-based.
    pub day: u8,
    /// Hour, 0 to 23.
    pub hour: u8,
    /// Minute, 0 to 59.
    pub minute: u8,
    /// Second, 0 to 59.
    pub second: u8,
    /// Centiseconds, 0 to 99.
    pub centis: u8,
}

/// Whether the year is a leap year.
pub open spec fn is_leap_year(y: int) -> bool {
    (y % 4 == 0 && y % 100 != 0) || y % 400 == 0
}

/// How many days the month has.
pub open spec fn days_in_month(y: int, m: int) -> int {
    if m == 1 || m == 3 || m == 5 || m == 7 || m == 8 || m == 10 || m == 12 {
        31
    } else if m == 4 || m == 6 || m == 9 || m == 11 {
        30
    } else if is_leap_year(y) {
        29
    } else {
        28
    }
}

/// Whether the time names a real calendar instant.
pub open spec fn utc_time_valid(t: UtcTime) -> bool {
    &&& 1 <= t.month <= 12
    &&& 1 <= t.day <= days_in_month(t.year as int, t.month as int)
    &&& t.hour <= 23
    &&& t.minute <= 59
    &&& t.second <= 59
    &&& t.centis <= 99
}

/// Whether the ZDA shape `hhmmss.cc,dd,mm,yyyy` starts at `p`.
pub open spec fn zda_at(s: Seq<u8>, p: int) -> bool {
    &&& 0 <= p
    &&& p + 20 <= s.len()
    &&& all_digits(s.subrange(p, p + 6))
    &&& s[p + 6] == 46
    &&& all_digits(s.subrange(p + 7, p + 9))
    &&& s[p + 9] == 44
    &&& all_digits(s.subrange(p + 10, p + 12))
    &&& s[p + 12] == 44
    &&& all_digits(s.subrange(p + 13, p + 15))
    &&& s[p + 15] == 44
    &&& all_digits(s.subrange(p + 16, p + 20))
}

/// The earliest position where the ZDA shape starts, or `-1`.
pub open spec fn zda_pos(s: Seq<u8>, p: int) -> int
    decreases s.len() - p,
{
    if !(0 <= p < s.len()) {
        -1
    } else if zda_at(s, p) {
        p
    } else {
        zda_pos(s, p + 1)
    }
}

/// The time the ZDA shape at `p` spells.
pub open spec fn zda_time_at(s: Seq<u8>, p: int) -> UtcTime
    recommends
        zda_at(s, p),
{
    UtcTime {
        year: digits_val(s.subrange(p + 16, p + 20)) as u16,
        month: digits_val(s.subrange(p + 13, p + 15)) as u8,
        day: digits_val(s.subrange(p + 10, p + 12)) as u8,
        hour: digits_val(s.subrange(p, p + 2)) as u8,
        minute: digits_val(s.subrange(p + 2, p + 4)) as u8,
        second: digits_val(s.subrange(p + 4, p + 6)) as u8,
        centis: digits_val(s.subrange(p + 7, p + 9)) as u8,
    }
}

/// What the ZDA time parser yields: the time spelled at the earliest
/// shape match when it names a real calendar instant; otherwise which of
/// the two failures occurred.
pub open spec fn spec_parse_zda(s: Seq<u8>) -> Result<UtcTime, GpsErrView> {
    let p = zda_pos(s, 0);
    if p == -1 {
        Err(GpsErrView::PatternNotFound)
    } else if utc_time_valid(zda_time_at(s, p)) {
        Ok(zda_time_at(s, p))
    } else {
        Err(GpsErrView::Parse("invalid date or time"@))
    }
}

/// Ten to the power `n`.
pub open spec fn pow10(n: nat) -> int
    decreases n,
{
    if n == 0 {
        1
    } else {
        10 * pow10((n - 1) as nat)
    }
}

proof fn lemma_pow10_mono(a: nat, b: nat)
    requires
        a <= b,
    ensures
        pow10(a) <= pow10(b),
    decreases b,
{
    if a < b {
        lemma_pow10_mono(a, (b - 1) as nat);
        assert(pow10((b - 1) as nat) >= 1) by {
            lemma_pow10_mono(0, (b - 1) as nat);
        }
    }
}

/// Whether `s[a..b]` is all decimal digits.
fn check_digits(s: &[u8], a: usize, b: usize) -> (r: bool)
    requires
        a <= b <= s@.len(),
    ensures
        r == all_digits(s@.subrange(a as int, b as int)),
{
    let ghost whole = s@.subrange(a as int, b as int);
    let mut j: usize = a;
    while j < b
        invariant
            a <= j <= b <= s@.len(),
            whole == s@.subrange(a as int, b as int),
            forall|k: int| 0 <= k < j - a ==> is_digit(#[trigger] whole[k]),
        decreases b - j,
    {
        if !(48 <= s[j] && s[j] <= 57) {
            proof {
                assert(whole[j - a] == s@[j as int]);
            }
            return false;
        }
        j = j + 1;
    }
    true
}

/// Read the value of the fixed-width digit run `s[i..i+k]`.
fn digits_fixed(s: &[u8], i: usize, k: usize) -> (r: u32)
    requires
        i + k <= s@.len(),
        k <= 9,
        all_digits(s@.subrange(i as int, i + k as int)),
    ensures
        r as int == digits_val(s@.subrange(i as int, i + k as int)),
        (r as int) < pow10(k as nat),
{
    let ghost whole = s@.subrange(i as int, i + k as int);
    let slen = s.len();
    let mut acc: u32 = 0;
    let mut j: usize = 0;
    while j < k
        invariant
            j <= k <= 9,
            i + k <= s@.len(),
            slen == s@.len(),
            whole == s@.subrange(i as int, i + k as int),
            all_digits(whole),
            acc as int == digits_val(whole.take(j as int)),
            (acc as int) < pow10(j as nat),
        decreases k - j,
    {
        proof {
            assert(whole[j as int] == s@[i + j]);
            assert(whole.take(j + 1).drop_last() =~= whole.take(j as int));
            assert(whole.take(j + 1).last() == whole[j as int]);
            lemma_pow10_mono(j as nat, 8);
            assert(pow10(8) == 100000000) by {
                    reveal_with_fuel(pow10, 10);
                }
        }
        let d: u32 = (s[i + j] - 48) as u32;
        acc = acc * 10 + d;
        j = j + 1;
    }
    proof {
        assert(whole.take(k as int) =~= whole);
    }
    acc
}

/// Check whether the time names a real calendar instant.
fn time_valid(t: &UtcTime) -> (r: bool)
    ensures
        r == utc_time_valid(*t),
{
    if !(1 <= t.month && t.month <= 12) {
        return false;
    }
    let dim: u8 = if t.month == 1 || t.month == 3 || t.month == 5 || t.month == 7 || t.month == 8
        || t.month == 10 || t.month == 12 {
        31
    } else if t.month == 4 || t.month == 6 || t.month == 9 || t.month == 11 {
        30
    } else if (t.year % 4 == 0 && t.year % 100 != 0) || t.year % 400 == 0 {
        29
    } else {
        28
    };
    1 <= t.day && t.day <= dim && t.hour <= 23 && t.minute <= 59 && t.second <= 59 && t.centis
        <= 99
}

/// Check the ZDA shape at `p`.
fn zda_check(s: &[u8], p: usize) -> (r: bool)
    requires
        p <= s@.len(),
    ensures
        r == zda_at(s@, p as int),
{
    if s.len() - p < 20 {
        return false;
    }
    check_digits(s, p, p + 6) && s[p + 6] == 46 && check_digits(s, p + 7, p + 9) && s[p + 9]
        == 44 && check_digits(s, p + 10, p + 12) && s[p + 12] == 44 && check_digits(s, p + 13, p
        + 15) && s[p + 15] == 44 && check_digits(s, p + 16, p + 20)
}

/// Parse a ZDA data field into the UTC time it spells.
fn parse_zda(s: &[u8]) -> (r: Result<UtcTime, GpsError>)
    ensures
        match r {
            Ok(t) => spec_parse_zda(s@) == Ok::<UtcTime, GpsErrView>(t),
            Err(e) => spec_parse_zda(s@) == Err::<UtcTime, GpsErrView>(e@),
        },
{
    let mut p: usize = 0;
    while p < s.len()
        invariant
            p <= s@.len(),
            zda_pos(s@, 0) == zda_pos(s@, p as int),
        decreases s@.len() - p,
    {
        if zda_check(s, p) {
            proof {
                assert(zda_pos(s@, p as int) == p);
                let sv = s@;
                let pi = p as int;
                assert forall|k: int| 0 <= k < sv.subrange(pi, pi + 2).len() implies is_digit(
                    #[trigger] sv.subrange(pi, pi + 2)[k]) by {
                    assert(sv.subrange(pi, pi + 2)[k] == sv.subrange(pi, pi + 6)[k
                        + 0]);
                }
                assert(all_digits(sv.subrange(pi, pi + 2)));
                assert forall|k: int| 0 <= k < sv.subrange(pi + 2, pi + 4).len() implies is_digit(
                    #[trigger] sv.subrange(pi + 2, pi + 4)[k]) by {
                    assert(sv.subrange(pi + 2, pi + 4)[k] == sv.subrange(pi, pi + 6)[k
                        + 2]);
                }
                assert(all_digits(sv.subrange(pi + 2, pi + 4)));
                assert forall|k: int| 0 <= k < sv.subrange(pi + 4, pi + 6).len() implies is_digit(
                    #[trigger] sv.subrange(pi + 4, pi + 6)[k]) by {
                    assert(sv.subrange(pi + 4, pi + 6)[k] == sv.subrange(pi, pi + 6)[k
                        + 4]);
                }
                assert(all_digits(sv.subrange(pi + 4, pi + 6)));
            }
            let t = UtcTime {
                year: digits_fixed(s, p + 16, 4) as u16,
                month: digits_fixed(s, p + 13, 2) as u8,
                day: digits_fixed(s, p + 10, 2) as u8,
                hour: digits_fixed(s, p, 2) as u8,
                minute: digits_fixed(s, p + 2, 2) as u8,
                second: digits_fixed(s, p + 4, 2) as u8,
                centis: digits_fixed(s, p + 7, 2) as u8,
            };
            proof {
                assert(pow10(2) == 100 && pow10(4) == 10000) by {
                    reveal_with_fuel(pow10, 10);
                }
                assert(t == zda_time_at(s@, p as int));
            }
            if time_valid(&t) {
                return Ok(t);
            } else {
                return Err(GpsError::ParseError("invalid date or time".to_owned()));
            }
        }
        p = p + 1;
    }
    Err(GpsError::PatternNotFound)
}

/// A latitude or longitude from GGA: whole degrees, decimal minutes
/// scaled by 100000, and the sign from the hemisphere letter.  The value
/// in signed degrees is `(neg ? -1 : 1) * (deg + min_100k / 6000000)`.
#[derive(Debug, Copy, Clone, PartialEq, Eq, Structural, Hash)]
pub struct Coord {
    /// Whole degrees.
    pub deg: u16,
    /// Decimal minutes scaled by 100000.
    pub min_100k: u32,
    /// Whether the hemisphere letter makes the coordinate negative.
    pub neg: bool,
}

/// Whether the latitude shape `ddmm.mmmmm` starts at `p`.
pub open spec fn lat_at(s: Seq<u8>, p: int) -> bool {
    &&& 0 <= p
    &&& p + 10 <= s.len()
    &&& all_digits(s.subrange(p, p + 4))
    &&& s[p + 4] == 46
    &&& all_digits(s.subrange(p + 5, p + 10))
}

/// The earliest position where the latitude shape starts, or `-1`.
pub open spec fn lat_pos(s: Seq<u8>, p: int) -> int
    decreases s.len() - p,
{
    if !(0 <= p < s.len()) {
        -1
    } else if lat_at(s, p) {
        p
    } else {
        lat_pos(s, p + 1)
    }
}

/// What the latitude parser yields: degrees plus decimal minutes read at
/// the earliest shape match, negative for the southern hemisphere.
pub open spec fn spec_parse_lat(s: Seq<u8>, dir: Seq<u8>) -> Result<Coord, GpsErrView> {
    let p = lat_pos(s, 0);
    if p == -1 {
        Err(GpsErrView::PatternNotFound)
    } else {
        Ok(Coord {
            deg: digits_val(s.subrange(p, p + 2)) as u16,
            min_100k: (digits_val(s.subrange(p + 2, p + 4)) * 100000 + digits_val(s.subrange(
                p + 5, p + 10))) as u32,
            neg: dir == seq![83u8],
        })
    }
}

/// Whether the longitude shape `dddmm.mmmmm` starts at `p`.
pub open spec fn lon_at(s: Seq<u8>, p: int) -> bool {
    &&& 0 <= p
    &&& p + 11 <= s.len()
    &&& all_digits(s.subrange(p, p + 5))
    &&& s[p + 5] == 46
    &&& all_digits(s.subrange(p + 6, p + 11))
}

/// The earliest position where the longitude shape starts, or `-1`.
pub open spec fn lon_pos(s: Seq<u8>, p: int) -> int
    decreases s.len() - p,
{
    if !(0 <= p < s.len()) {
        -1
    } else if lon_at(s, p) {
        p
    } else {
        lon_pos(s, p + 1)
    }
}

/// What the longitude parser yields: degrees plus decimal minutes read
/// at the earliest shape match, negative for the western hemisphere.
pub open spec fn spec_parse_lon(s: Seq<u8>, dir: Seq<u8>) -> Result<Coord, GpsErrView> {
    let p = lon_pos(s, 0);
    if p == -1 {
        Err(GpsErrView::PatternNotFound)
    } else {
        Ok(Coord {
            deg: digits_val(s.subrange(p, p + 3)) as u16,
            min_100k: (digits_val(s.subrange(p + 3, p + 5)) * 100000 + digits_val(s.subrange(
                p + 6, p + 11))) as u32,
            neg: dir == seq![87u8],
        })
    }
}

/// Whether a one-letter hemisphere field equals the given letter.
fn dir_is(dir: &[u8], letter: u8) -> (r: bool)
    ensures
        r == (dir@ == seq![letter]),
{
    if dir.len() == 1 && dir[0] == letter {
        proof {
            assert(dir@ =~= seq![letter]);
        }
        true
    } else {
        proof {
            if dir@ == seq![letter] {
                assert(dir@.len() == 1 && dir@[0] == letter);
            }
        }
        false
    }
}

/// Parse a latitude field and its hemisphere letter.
fn parse_lat(inp: &[u8], dir: &[u8]) -> (r: Result<Coord, GpsError>)
    ensures
        match r {
            Ok(c) => spec_parse_lat(inp@, dir@) == Ok::<Coord, GpsErrView>(c),
            Err(e) => spec_parse_lat(inp@, dir@) == Err::<Coord, GpsErrView>(e@),
        },
{
    let neg = dir_is(dir, 83);
    let mut p: usize = 0;
    while p < inp.len()
        invariant
            p <= inp@.len(),
            lat_pos(inp@, 0) == lat_pos(inp@, p as int),
            neg == (dir@ == seq![83u8]),
        decreases inp@.len() - p,
    {
        let shape = inp.len() - p >= 10 && check_digits(inp, p, p + 4) && inp[p + 4] == 46
            && check_digits(inp, p + 5, p + 10);
        if shape {
            proof {
                assert(lat_at(inp@, p as int));
                assert(lat_pos(inp@, p as int) == p);
                let sv = inp@;
                let pi = p as int;
                assert forall|k: int| 0 <= k < sv.subrange(pi, pi + 2).len() implies is_digit(
                    #[trigger] sv.subrange(pi, pi + 2)[k]) by {
                    assert(sv.subrange(pi, pi + 2)[k] == sv.subrange(pi, pi + 4)[k
                        + 0]);
                }
                assert(all_digits(sv.subrange(pi, pi + 2)));
                assert forall|k: int| 0 <= k < sv.subrange(pi + 2, pi + 4).len() implies is_digit(
                    #[trigger] sv.subrange(pi + 2, pi + 4)[k]) by {
                    assert(sv.subrange(pi + 2, pi + 4)[k] == sv.subrange(pi, pi + 4)[k
                        + 2]);
                }
                assert(all_digits(sv.subrange(pi + 2, pi + 4)));
            }
            let deg = digits_fixed(inp, p, 2) as u16;
            let mm = digits_fixed(inp, p + 2, 2);
            let frac = digits_fixed(inp, p + 5, 5);
            proof {
                assert(pow10(2) == 100 && pow10(5) == 100000) by {
                    reveal_with_fuel(pow10, 10);
                }
            }
            return Ok(Coord { deg, min_100k: mm * 100000 + frac, neg });
        }
        p = p + 1;
    }
    Err(GpsError::PatternNotFound)
}

/// Parse a longitude field and its hemisphere letter.
fn parse_lon(inp: &[u8], dir: &[u8]) -> (r: Result<Coord, GpsError>)
    ensures
        match r {
            Ok(c) => spec_parse_lon(inp@, dir@) == Ok::<Coord, GpsErrView>(c),
            Err(e) => spec_parse_lon(inp@, dir@) == Err::<Coord, GpsErrView>(e@),
        },
{
    let neg = dir_is(dir, 87);
    let mut p: usize = 0;
    while p < inp.len()
        invariant
            p <= inp@.len(),
            lon_pos(inp@, 0) == lon_pos(inp@, p as int),
            neg == (dir@ == seq![87u8]),
        decreases inp@.len() - p,
    {
        let shape = inp.len() - p >= 11 && check_digits(inp, p, p + 5) && inp[p + 5] == 46
            && check_digits(inp, p + 6, p + 11);
        if shape {
            proof {
                assert(lon_at(inp@, p as int));
                assert(lon_pos(inp@, p as int) == p);
                let sv = inp@;
                let pi = p as int;
                assert forall|k: int| 0 <= k < sv.subrange(pi, pi + 3).len() implies is_digit(
                    #[trigger] sv.subrange(pi, pi + 3)[k]) by {
                    assert(sv.subrange(pi, pi + 3)[k] == sv.subrange(pi, pi + 5)[k
                        + 0]);
                }
                assert(all_digits(sv.subrange(pi, pi + 3)));
                assert forall|k: int| 0 <= k < sv.subrange(pi + 3, pi + 5).len() implies is_digit(
                    #[trigger] sv.subrange(pi + 3, pi + 5)[k]) by {
                    assert(sv.subrange(pi + 3, pi + 5)[k] == sv.subrange(pi, pi + 5)[k
                        + 3]);
                }
                assert(all_digits(sv.subrange(pi + 3, pi + 5)));
            }
            let deg = digits_fixed(inp, p, 3) as u16;
            let mm = digits_fixed(inp, p + 3, 2);
            let frac = digits_fixed(inp, p + 6, 5);
            proof {
                assert(pow10(2) == 100 && pow10(3) == 1000 && pow10(5) == 100000) by {
                    reveal_with_fuel(pow10, 10);
                }
            }
            return Ok(Coord { deg, min_100k: mm * 100000 + frac, neg });
        }
        p = p + 1;
    }
    Err(GpsError::PatternNotFound)
}

proof fn lemma_run_end_digit_bounds(s: Seq<u8>, i: int)
    requires
        0 <= i <= s.len(),
    ensures
        i <= run_end_digit(s, i) <= s.len(),
    decreases s.len() - i,
{
    if i < s.len() && is_digit(s[i]) {
        lemma_run_end_digit_bounds(s, i + 1);
    }
}

proof fn lemma_run_end_numdot_bounds(s: Seq<u8>, i: int)
    requires
        0 <= i <= s.len(),
    ensures
        i <= run_end_numdot(s, i) <= s.len(),
    decreases s.len() - i,
{
    if i < s.len() && is_numdot(s[i]) {
        lemma_run_end_numdot_bounds(s, i + 1);
    }
}

proof fn lemma_run_end_signnumdot_bounds(s: Seq<u8>, i: int)
    requires
        0 <= i <= s.len(),
    ensures
        i <= run_end_signnumdot(s, i) <= s.len(),
    decreases s.len() - i,
{
    if i < s.len() && is_signnumdot(s[i]) {
        lemma_run_end_signnumdot_bounds(s, i + 1);
    }
}

proof fn lemma_run_end_numcomma_bounds(s: Seq<u8>, i: int)
    requires
        0 <= i <= s.len(),
    ensures
        i <= run_end_numcomma(s, i) <= s.len(),
    decreases s.len() - i,
{
    if i < s.len() && is_numcomma(s[i]) {
        lemma_run_end_numcomma_bounds(s, i + 1);
    }
}

/// The fields a GGA sentence names, as byte runs and single letters.
pub struct GgaView {
    /// The latitude field bytes.
    pub lat: Seq<u8>,
    /// The latitude hemisphere letter, `N` or `S`.
    pub lat_dir: u8,
    /// The longitude field bytes.
    pub lon: Seq<u8>,
    /// The longitude hemisphere letter, `E` or `W`.
    pub lon_dir: u8,
    /// The fix-quality hex digit.
    pub quality_ch: u8,
    /// The altitude field bytes.
    pub alt: Seq<u8>,
    /// The geoid-separation (mean-sea-level) field bytes.
    pub msl: Seq<u8>,
}

/// Whether the GGA shape starts at `p`: the fix time, latitude and
/// hemisphere, longitude and hemisphere, quality digit, satellite
/// count, HDOP, and the altitude, MSL and separation fields each closed
/// by `,M,` or a comma.
pub open spec fn gga_at(s: Seq<u8>, p: int) -> bool {
    if !(0 <= p && p + 10 <= s.len()) {
        false
    } else if !(all_digits(s.subrange(p, p + 6)) && s[p + 6] == 46 && all_digits(s.subrange(
        p + 7, p + 9)) && s[p + 9] == 44) {
        false
    } else {
        let la = run_end_numdot(s, p + 10);
        if !(la + 2 < s.len() && s[la] == 44 && (s[la + 1] == 78 || s[la + 1] == 83) && s[la + 2]
            == 44) {
            false
        } else {
            let lo = run_end_numdot(s, la + 3);
            if !(lo + 2 < s.len() && s[lo] == 44 && (s[lo + 1] == 69 || s[lo + 1] == 87) && s[lo
                + 2] == 44) {
                false
            } else {
                let qp = lo + 3;
                if !(qp + 1 < s.len() && is_hex_up(s[qp]) && s[qp + 1] == 44) {
                    false
                } else {
                    let sv = run_end_digit(s, qp + 2);
                    if !(sv < s.len() && s[sv] == 44) {
                        false
                    } else {
                        let sk = run_end_numdot(s, sv + 1);
                        if !(sk < s.len() && s[sk] == 44) {
                            false
                        } else {
                            let al = run_end_signnumdot(s, sk + 1);
                            if !(al + 2 < s.len() && s[al] == 44 && s[al + 1] == 77 && s[al + 2]
                                == 44) {
                                false
                            } else {
                                let ms = run_end_signnumdot(s, al + 3);
                                if !(ms + 2 < s.len() && s[ms] == 44 && s[ms + 1] == 77 && s[ms
                                    + 2] == 44) {
                                    false
                                } else {
                                    let sp = run_end_signnumdot(s, ms + 3);
                                    sp < s.len() && s[sp] == 44
                                }
                            }
                        }
                    }
                }
            }
        }
    }
}

/// The fields of the GGA shape at `p`.
pub open spec fn gga_fields(s: Seq<u8>, p: int) -> GgaView
    recommends
        gga_at(s, p),
{
    let la = run_end_numdot(s, p + 10);
    let lo = run_end_numdot(s, la + 3);
    let qp = lo + 3;
    let sv = run_end_digit(s, qp + 2);
    let sk = run_end_numdot(s, sv + 1);
    let al = run_end_signnumdot(s, sk + 1);
    let ms = run_end_signnumdot(s, al + 3);
    GgaView {
        lat: s.subrange(p + 10, la),
        lat_dir: s[la + 1],
        lon: s.subrange(la + 3, lo),
        lon_dir: s[lo + 1],
        quality_ch: s[qp],
        alt: s.subrange(sk + 1, al),
        msl: s.subrange(al + 3, ms),
    }
}

/// The earliest position where the GGA shape starts, or `-1`.
pub open spec fn gga_pos(s: Seq<u8>, p: int) -> int
    decreases s.len() - p,
{
    if !(0 <= p < s.len()) {
        -1
    } else if gga_at(s, p) {
        p
    } else {
        gga_pos(s, p + 1)
    }
}

/// What the GGA parser yields: the fields at the earliest shape match.
pub open spec fn spec_parse_gga(s: Seq<u8>) -> Result<GgaView, GpsErrView> {
    let p = gga_pos(s, 0);
    if p == -1 {
        Err(GpsErrView::PatternNotFound)
    } else {
        Ok(gga_fields(s, p))
    }
}

/// The fields a GGA sentence names, held as bytes.
pub struct GgaFields {
    /// The latitude field bytes.
    pub lat: Vec<u8>,
    /// The latitude hemisphere letter, `N` or `S`.
    pub lat_dir: u8,
    /// The longitude field bytes.
    pub lon: Vec<u8>,
    /// The longitude hemisphere letter, `E` or `W`.
    pub lon_dir: u8,
    /// The fix-quality hex digit.
    pub quality_ch: u8,
    /// The altitude field bytes.
    pub alt: Vec<u8>,
    /// The geoid-separation (mean-sea-level) field bytes.
    pub msl: Vec<u8>,
}

impl View for GgaFields {
    type V = GgaView;

    open spec fn view(&self) -> GgaView {
        GgaView {
            lat: self.lat@,
            lat_dir: self.lat_dir,
            lon: self.lon@,
            lon_dir: self.lon_dir,
            quality_ch: self.quality_ch,
            alt: self.alt@,
            msl: self.msl@,
        }
    }
}

/// Try to read the GGA shape at `p`.
fn try_gga_at(s: &[u8], p: usize) -> (r: Option<GgaFields>)
    requires
        p <= s@.len(),
    ensures
        match r {
            Some(f) => gga_at(s@, p as int) && f@ == gga_fields(s@, p as int) && is_hex_up(
                f@.quality_ch),
            None => !gga_at(s@, p as int),
        },
{
    if s.len() - p < 10 {
        return None;
    }
    if !(check_digits(s, p, p + 6) && s[p + 6] == 46 && check_digits(s, p + 7, p + 9) && s[p + 9]
        == 44) {
        return None;
    }
    let la = numdot_run(s, p + 10);
    if !(s.len() - la > 2 && s[la] == 44 && (s[la + 1] == 78 || s[la + 1] == 83) && s[la + 2]
        == 44) {
        return None;
    }
    let lo = numdot_run(s, la + 3);
    if !(s.len() - lo > 2 && s[lo] == 44 && (s[lo + 1] == 69 || s[lo + 1] == 87) && s[lo + 2]
        == 44) {
        return None;
    }
    let qp = lo + 3;
    if !(s.len() - qp > 1 && hex_up(s[qp]) && s[qp + 1] == 44) {
        return None;
    }
    let sv = digit_run(s, qp + 2);
    if !(sv < s.len() && s[sv] == 44) {
        return None;
    }
    let sk = numdot_run(s, sv + 1);
    if !(sk < s.len() && s[sk] == 44) {
        return None;
    }
    let al = signnumdot_run(s, sk + 1);
    if !(s.len() - al > 2 && s[al] == 44 && s[al + 1] == 77 && s[al + 2] == 44) {
        return None;
    }
    let ms = signnumdot_run(s, al + 3);
    if !(s.len() - ms > 2 && s[ms] == 44 && s[ms + 1] == 77 && s[ms + 2] == 44) {
        return None;
    }
    let sp = signnumdot_run(s, ms + 3);
    if !(sp < s.len() && s[sp] == 44) {
        return None;
    }
    Some(GgaFields {
        lat: slice_to_vec(slice_subrange(s, p + 10, la)),
        lat_dir: s[la + 1],
        lon: slice_to_vec(slice_subrange(s, la + 3, lo)),
        lon_dir: s[lo + 1],
        quality_ch: s[qp],
        alt: slice_to_vec(slice_subrange(s, sk + 1, al)),
        msl: slice_to_vec(slice_subrange(s, al + 3, ms)),
    })
}

/// Parse a GGA data field into its named pieces.
fn parse_gga(s: &[u8]) -> (r: Result<GgaFields, GpsError>)
    ensures
        match r {
            Ok(f) => spec_parse_gga(s@) == Ok::<GgaView, GpsErrView>(f@) && is_hex_up(
                f@.quality_ch),
            Err(e) => spec_parse_gga(s@) == Err::<GgaView, GpsErrView>(e@),
        },
{
    let mut p: usize = 0;
    while p < s.len()
        invariant
            p <= s@.len(),
            gga_pos(s@, 0) == gga_pos(s@, p as int),
        decreases s@.len() - p,
    {
        match try_gga_at(s, p) {
            Some(f) => {
                proof {
                    assert(gga_pos(s@, p as int) == p);
                }
                return Ok(f);
            },
            None => {
            },
        }
        p = p + 1;
    }
    Err(GpsError::PatternNotFound)
}


/// The decimal fields a VTG sentence names.
pub struct VtgView {
    /// The true-heading field bytes.
    pub true_heading: Seq<u8>,
    /// The magnetic-heading field bytes.
    pub mag_heading: Seq<u8>,
    /// The ground-speed field bytes, in km/h.
    pub ground_speed: Seq<u8>,
}

/// Whether the VTG shape starts at `p`: heading `,T,`, magnetic heading
/// `,M,`, speed in knots `,N,`, and speed in km/h `,K,`.
pub open spec fn vtg_at(s: Seq<u8>, p: int) -> bool {
    if !(0 <= p && p <= s.len()) {
        false
    } else {
        let th = run_end_signnumdot(s, p);
        if !(th + 2 < s.len() && s[th] == 44 && s[th + 1] == 84 && s[th + 2] == 44) {
            false
        } else {
            let mh = run_end_signnumdot(s, th + 3);
            if !(mh + 2 < s.len() && s[mh] == 44 && s[mh + 1] == 77 && s[mh + 2] == 44) {
                false
            } else {
                let kn = run_end_numdot(s, mh + 3);
                if !(kn + 2 < s.len() && s[kn] == 44 && s[kn + 1] == 78 && s[kn + 2] == 44) {
                    false
                } else {
                    let gs = run_end_numdot(s, kn + 3);
                    gs + 2 < s.len() && s[gs] == 44 && s[gs + 1] == 75 && s[gs + 2] == 44
                }
            }
        }
    }
}

/// The fields of the VTG shape at `p`.
pub open spec fn vtg_fields(s: Seq<u8>, p: int) -> VtgView
    recommends
        vtg_at(s, p),
{
    let th = run_end_signnumdot(s, p);
    let mh = run_end_signnumdot(s, th + 3);
    let kn = run_end_numdot(s, mh + 3);
    let gs = run_end_numdot(s, kn + 3);
    VtgView {
        true_heading: s.subrange(p, th),
        mag_heading: s.subrange(th + 3, mh),
        ground_speed: s.subrange(kn + 3, gs),
    }
}

/// The earliest position where the VTG shape starts, or `-1`.
pub open spec fn vtg_pos(s: Seq<u8>, p: int) -> int
    decreases s.len() - p,
{
    if !(0 <= p < s.len()) {
        -1
    } else if vtg_at(s, p) {
        p
    } else {
        vtg_pos(s, p + 1)
    }
}

/// What the VTG parser yields: the fields at the earliest shape match.
pub open spec fn spec_parse_vtg(s: Seq<u8>) -> Result<VtgView, GpsErrView> {
    let p = vtg_pos(s, 0);
    if p == -1 {
        Err(GpsErrView::PatternNotFound)
    } else {
        Ok(vtg_fields(s, p))
    }
}

/// The heading and speed fields of a VTG sentence, held as bytes.
pub struct VtgFields {
    /// The true-heading field bytes.
    pub true_heading: Vec<u8>,
    /// The magnetic-heading field bytes.
    pub mag_heading: Vec<u8>,
    /// The ground-speed field bytes, in km/h.
    pub ground_speed: Vec<u8>,
}

impl View for VtgFields {
    type V = VtgView;

    open spec fn view(&self) -> VtgView {
        VtgView {
            true_heading: self.true_heading@,
            mag_heading: self.mag_heading@,
            ground_speed: self.ground_speed@,
        }
    }
}

/// Try to read the VTG shape at `p`.
fn try_vtg_at(s: &[u8], p: usize) -> (r: Option<VtgFields>)
    requires
        p <= s@.len(),
    ensures
        match r {
            Some(f) => vtg_at(s@, p as int) && f@ == vtg_fields(s@, p as int),
            None => !vtg_at(s@, p as int),
        },
{
    let th = signnumdot_run(s, p);
    if !(s.len() - th > 2 && s[th] == 44 && s[th + 1] == 84 && s[th + 2] == 44) {
        return None;
    }
    let mh = signnumdot_run(s, th + 3);
    if !(s.len() - mh > 2 && s[mh] == 44 && s[mh + 1] == 77 && s[mh + 2] == 44) {
        return None;
    }
    let kn = numdot_run(s, mh + 3);
    if !(s.len() - kn > 2 && s[kn] == 44 && s[kn + 1] == 78 && s[kn + 2] == 44) {
        return None;
    }
    let gs = numdot_run(s, kn + 3);
    if !(s.len() - gs > 2 && s[gs] == 44 && s[gs + 1] == 75 && s[gs + 2] == 44) {
        return None;
    }
    Some(VtgFields {
        true_heading: slice_to_vec(slice_subrange(s, p, th)),
        mag_heading: slice_to_vec(slice_subrange(s, th + 3, mh)),
        ground_speed: slice_to_vec(slice_subrange(s, kn + 3, gs)),
    })
}

/// Parse a VTG data field into its named pieces.
fn parse_vtg(s: &[u8]) -> (r: Result<VtgFields, GpsError>)
    ensures
        match r {
            Ok(f) => spec_parse_vtg(s@) == Ok::<VtgView, GpsErrView>(f@),
            Err(e) => spec_parse_vtg(s@) == Err::<VtgView, GpsErrView>(e@),
        },
{
    let mut p: usize = 0;
    while p < s.len()
        invariant
            p <= s@.len(),
            vtg_pos(s@, 0) == vtg_pos(s@, p as int),
        decreases s@.len() - p,
    {
        match try_vtg_at(s, p) {
            Some(f) => {
                proof {
                    assert(vtg_pos(s@, p as int) == p);
                }
                return Ok(f);
            },
            None => {
            },
        }
        p = p + 1;
    }
    Err(GpsError::PatternNotFound)
}

/// The dilution-of-precision fields a GSA sentence names.
pub struct GsaView {
    /// The positional DOP field bytes.
    pub pdop: Seq<u8>,
    /// The horizontal DOP field bytes.
    pub hdop: Seq<u8>,
    /// The vertical DOP field bytes.
    pub vdop: Seq<u8>,
}

/// The position after `n` comma-closed digit fields from `i`, or `-1`.
pub open spec fn gsa_skip(s: Seq<u8>, i: int, n: int) -> int
    decreases n,
{
    if !(0 <= i <= s.len()) {
        -1
    } else if n <= 0 {
        i
    } else {
        let e = run_end_digit(s, i);
        if e < s.len() && s[e] == 44 {
            gsa_skip(s, e + 1, n - 1)
        } else {
            -1
        }
    }
}

/// Whether the GSA shape starts at `p`: the mode letter, the fix kind
/// digit, twelve satellite slots, and the three DOP fields.
pub open spec fn gsa_at(s: Seq<u8>, p: int) -> bool {
    if !(0 <= p && p + 4 <= s.len() && (s[p] == 65 || s[p] == 77) && s[p + 1] == 44 && is_digit(
        s[p + 2]) && s[p + 3] == 44) {
        false
    } else {
        let d = gsa_skip(s, p + 4, 12);
        if d == -1 {
            false
        } else {
            let pd = run_end_numdot(s, d);
            if !(pd < s.len() && s[pd] == 44) {
                false
            } else {
                let hd = run_end_numdot(s, pd + 1);
                if !(hd < s.len() && s[hd] == 44) {
                    false
                } else {
                    let vd = run_end_numdot(s, hd + 1);
                    vd < s.len() && s[vd] == 44
                }
            }
        }
    }
}

/// The fields of the GSA shape at `p`.
pub open spec fn gsa_fields(s: Seq<u8>, p: int) -> GsaView
    recommends
        gsa_at(s, p),
{
    let d = gsa_skip(s, p + 4, 12);
    let pd = run_end_numdot(s, d);
    let hd = run_end_numdot(s, pd + 1);
    let vd = run_end_numdot(s, hd + 1);
    GsaView {
        pdop: s.subrange(d, pd),
        hdop: s.subrange(pd + 1, hd),
        vdop: s.subrange(hd + 1, vd),
    }
}

/// The earliest position where the GSA shape starts, or `-1`.
pub open spec fn gsa_pos(s: Seq<u8>, p: int) -> int
    decreases s.len() - p,
{
    if !(0 <= p < s.len()) {
        -1
    } else if gsa_at(s, p) {
        p
    } else {
        gsa_pos(s, p + 1)
    }
}

/// What the GSA parser yields: the DOP fields at the earliest shape
/// match.
pub open spec fn spec_parse_gsa(s: Seq<u8>) -> Result<GsaView, GpsErrView> {
    let p = gsa_pos(s, 0);
    if p == -1 {
        Err(GpsErrView::PatternNotFound)
    } else {
        Ok(gsa_fields(s, p))
    }
}

/// The dilution-of-precision fields of a GSA sentence, held as bytes.
pub struct GsaFields {
    /// The positional DOP field bytes.
    pub pdop: Vec<u8>,
    /// The horizontal DOP field bytes.
    pub hdop: Vec<u8>,
    /// The vertical DOP field bytes.
    pub vdop: Vec<u8>,
}

impl View for GsaFields {
    type V = GsaView;

    open spec fn view(&self) -> GsaView {
        GsaView { pdop: self.pdop@, hdop: self.hdop@, vdop: self.vdop@ }
    }
}

/// Skip `n` comma-closed digit fields from `i`.
fn gsa_skip_fields(s: &[u8], i: usize, n: usize) -> (r: Option<usize>)
    requires
        i <= s@.len(),
    ensures
        match r {
            Some(d) => gsa_skip(s@, i as int, n as int) == d && d <= s@.len(),
            None => gsa_skip(s@, i as int, n as int) == -1,
        },
    decreases n,
{
    if n == 0 {
        return Some(i);
    }
    let e = digit_run(s, i);
    if e < s.len() && s[e] == 44 {
        gsa_skip_fields(s, e + 1, n - 1)
    } else {
        None
    }
}

/// Try to read the GSA shape at `p`.
fn try_gsa_at(s: &[u8], p: usize) -> (r: Option<GsaFields>)
    requires
        p <= s@.len(),
    ensures
        match r {
            Some(f) => gsa_at(s@, p as int) && f@ == gsa_fields(s@, p as int),
            None => !gsa_at(s@, p as int),
        },
{
    if !(s.len() - p >= 4 && (s[p] == 65 || s[p] == 77) && s[p + 1] == 44 && 48 <= s[p + 2]
        && s[p + 2] <= 57 && s[p + 3] == 44) {
        return None;
    }
    let d = match gsa_skip_fields(s, p + 4, 12) {
        Some(d) => d,
        None => {
            return None;
        },
    };
    let pd = numdot_run(s, d);
    if !(pd < s.len() && s[pd] == 44) {
        return None;
    }
    let hd = numdot_run(s, pd + 1);
    if !(hd < s.len() && s[hd] == 44) {
        return None;
    }
    let vd = numdot_run(s, hd + 1);
    if !(vd < s.len() && s[vd] == 44) {
        return None;
    }
    Some(GsaFields {
        pdop: slice_to_vec(slice_subrange(s, d, pd)),
        hdop: slice_to_vec(slice_subrange(s, pd + 1, hd)),
        vdop: slice_to_vec(slice_subrange(s, hd + 1, vd)),
    })
}

/// Parse a GSA data field into its DOP pieces.
fn parse_gsa(s: &[u8]) -> (r: Result<GsaFields, GpsError>)
    ensures
        match r {
            Ok(f) => spec_parse_gsa(s@) == Ok::<GsaView, GpsErrView>(f@),
            Err(e) => spec_parse_gsa(s@) == Err::<GsaView, GpsErrView>(e@),
        },
{
    let mut p: usize = 0;
    while p < s.len()
        invariant
            p <= s@.len(),
            gsa_pos(s@, 0) == gsa_pos(s@, p as int),
        decreases s@.len() - p,
    {
        match try_gsa_at(s, p) {
            Some(f) => {
                proof {
                    assert(gsa_pos(s@, p as int) == p);
                }
                return Ok(f);
            },
            None => {
            },
        }
        p = p + 1;
    }
    Err(GpsError::PatternNotFound)
}


/// The last digit position in `s[lo..hi)`, or `-1`.
pub open spec fn last_digit_before(s: Seq<u8>, lo: int, hi: int) -> int
    decreases hi - lo,
{
    if hi <= lo {
        -1
    } else if is_digit(s[hi - 1]) {
        hi - 1
    } else {
        last_digit_before(s, lo, hi - 1)
    }
}

/// Whether the GSV shape starts at `p`: three comma-closed digit fields
/// and a digits-and-commas payload closed by a single hex digit.  The
/// payload is greedy: when the byte after the run is not a hex digit,
/// the last digit inside the run closes it instead.
pub open spec fn gsv_at(s: Seq<u8>, p: int) -> bool {
    if !(0 <= p && p <= s.len()) {
        false
    } else {
        let a = run_end_digit(s, p);
        if !(a < s.len() && s[a] == 44) {
            false
        } else {
            let b = run_end_digit(s, a + 1);
            if !(b < s.len() && s[b] == 44) {
                false
            } else {
                let c = run_end_digit(s, b + 1);
                if !(c < s.len() && s[c] == 44) {
                    false
                } else {
                    let e = run_end_numcomma(s, c + 1);
                    if e < s.len() && is_hex_up(s[e]) {
                        true
                    } else {
                        last_digit_before(s, c + 1, e) != -1
                    }
                }
            }
        }
    }
}

/// The satellites-in-view payload of the GSV shape at `p`.
pub open spec fn gsv_payload(s: Seq<u8>, p: int) -> Seq<u8>
    recommends
        gsv_at(s, p),
{
    let a = run_end_digit(s, p);
    let b = run_end_digit(s, a + 1);
    let c = run_end_digit(s, b + 1);
    let e = run_end_numcomma(s, c + 1);
    if e < s.len() && is_hex_up(s[e]) {
        s.subrange(c + 1, e)
    } else {
        s.subrange(c + 1, last_digit_before(s, c + 1, e))
    }
}

/// The earliest position where the GSV shape starts, or `-1`.
pub open spec fn gsv_pos(s: Seq<u8>, p: int) -> int
    decreases s.len() - p,
{
    if !(0 <= p < s.len()) {
        -1
    } else if gsv_at(s, p) {
        p
    } else {
        gsv_pos(s, p + 1)
    }
}

/// Whether one satellite entry starts at `p` of the payload: four
/// comma-closed digit fields (SVID, elevation, azimuth, SNR).
pub open spec fn xtract_at(t: Seq<u8>, p: int) -> bool {
    if !(0 <= p && p <= t.len()) {
        false
    } else {
        let r1 = run_end_digit(t, p);
        if !(r1 < t.len() && t[r1] == 44) {
            false
        } else {
            let r2 = run_end_digit(t, r1 + 1);
            if !(r2 < t.len() && t[r2] == 44) {
                false
            } else {
                let r3 = run_end_digit(t, r2 + 1);
                if !(r3 < t.len() && t[r3] == 44) {
                    false
                } else {
                    let r4 = run_end_digit(t, r3 + 1);
                    r4 < t.len() && t[r4] == 44
                }
            }
        }
    }
}

/// Where the satellite entry at `p` ends: just after its fourth comma.
pub open spec fn xtract_end(t: Seq<u8>, p: int) -> int
    recommends
        xtract_at(t, p),
{
    let r1 = run_end_digit(t, p);
    let r2 = run_end_digit(t, r1 + 1);
    let r3 = run_end_digit(t, r2 + 1);
    let r4 = run_end_digit(t, r3 + 1);
    r4 + 1
}

/// The `(SVID, elevation, azimuth)` values of the entry at `p`, each
/// defaulted to zero when empty or out of range.
pub open spec fn xtract_item(t: Seq<u8>, p: int) -> (u8, i8, u16)
    recommends
        xtract_at(t, p),
{
    let r1 = run_end_digit(t, p);
    let r2 = run_end_digit(t, r1 + 1);
    let r3 = run_end_digit(t, r2 + 1);
    (spec_uint_or_zero(t.subrange(p, r1), 255) as u8, spec_uint_or_zero(t.subrange(r1 + 1, r2),
        127) as i8, spec_uint_or_zero(t.subrange(r2 + 1, r3), 65535) as u16)
}

#[via_fn]
proof fn gsv_items_dec(t: Seq<u8>, p: int) {
    if 0 <= p < t.len() && xtract_at(t, p) {
        lemma_run_end_digit_bounds(t, p);
        let r1 = run_end_digit(t, p);
        lemma_run_end_digit_bounds(t, r1 + 1);
        let r2 = run_end_digit(t, r1 + 1);
        lemma_run_end_digit_bounds(t, r2 + 1);
        let r3 = run_end_digit(t, r2 + 1);
        lemma_run_end_digit_bounds(t, r3 + 1);
    }
}

/// Every satellite entry of the payload from `p` on, in order.
pub open spec fn gsv_items(t: Seq<u8>, p: int) -> Seq<(u8, i8, u16)>
    decreases t.len() - p,
        via gsv_items_dec
{
    if !(0 <= p < t.len()) {
        Seq::empty()
    } else if xtract_at(t, p) {
        seq![xtract_item(t, p)] + gsv_items(t, xtract_end(t, p))
    } else {
        gsv_items(t, p + 1)
    }
}

/// What the GSV parser yields: the satellite entries of the payload at
/// the earliest shape match.
pub open spec fn spec_parse_gsv(s: Seq<u8>) -> Result<Seq<(u8, i8, u16)>, GpsErrView> {
    let p = gsv_pos(s, 0);
    if p == -1 {
        Err(GpsErrView::PatternNotFound)
    } else {
        Ok(gsv_items(gsv_payload(s, p), 0))
    }
}

/// Find the last digit in `s[lo..hi)`.
fn last_digit_scan(s: &[u8], lo: usize, hi: usize) -> (r: Option<usize>)
    requires
        lo <= hi <= s@.len(),
    ensures
        match r {
            Some(d) => last_digit_before(s@, lo as int, hi as int) == d && lo <= d < hi,
            None => last_digit_before(s@, lo as int, hi as int) == -1,
        },
{
    let mut h: usize = hi;
    while h > lo
        invariant
            lo <= h <= hi <= s@.len(),
            last_digit_before(s@, lo as int, hi as int) == last_digit_before(s@, lo as int,
                h as int),
        decreases h,
    {
        if 48 <= s[h - 1] && s[h - 1] <= 57 {
            return Some(h - 1);
        }
        h = h - 1;
    }
    None
}

/// Try to read the GSV shape at `p`, yielding the payload bytes.
fn try_gsv_at(s: &[u8], p: usize) -> (r: Option<Vec<u8>>)
    requires
        p <= s@.len(),
    ensures
        match r {
            Some(v) => gsv_at(s@, p as int) && v@ == gsv_payload(s@, p as int),
            None => !gsv_at(s@, p as int),
        },
{
    let a = digit_run(s, p);
    if !(a < s.len() && s[a] == 44) {
        return None;
    }
    let b = digit_run(s, a + 1);
    if !(b < s.len() && s[b] == 44) {
        return None;
    }
    let c = digit_run(s, b + 1);
    if !(c < s.len() && s[c] == 44) {
        return None;
    }
    let e = numcomma_run(s, c + 1);
    if e < s.len() && hex_up(s[e]) {
        return Some(slice_to_vec(slice_subrange(s, c + 1, e)));
    }
    match last_digit_scan(s, c + 1, e) {
        Some(d) => Some(slice_to_vec(slice_subrange(s, c + 1, d))),
        None => None,
    }
}

/// Collect the satellite entries of the payload from `p` on.
fn gsv_take_items(t: &[u8], p: usize, out: &mut Vec<(u8, i8, u16)>)
    requires
        p <= t@.len(),
    ensures
        final(out)@ == old(out)@ + gsv_items(t@, p as int),
    decreases t@.len() - p,
{
    if p >= t.len() {
        proof {
            assert(out@ =~= old(out)@ + gsv_items(t@, p as int));
        }
        return;
    }
    let r1 = digit_run(t, p);
    let shape1 = r1 < t.len() && t[r1] == 44;
    if shape1 {
        let r2 = digit_run(t, r1 + 1);
        let shape2 = r2 < t.len() && t[r2] == 44;
        if shape2 {
            let r3 = digit_run(t, r2 + 1);
            let shape3 = r3 < t.len() && t[r3] == 44;
            if shape3 {
                let r4 = digit_run(t, r3 + 1);
                let shape4 = r4 < t.len() && t[r4] == 44;
                if shape4 {
                    let svid = uint_or_zero(t, p, r1, 255) as u8;
                    let elev = uint_or_zero(t, r1 + 1, r2, 127) as i8;
                    let az = uint_or_zero(t, r2 + 1, r3, 65535) as u16;
                    out.push((svid, elev, az));
                    proof {
                        assert(xtract_at(t@, p as int));
                        assert((svid, elev, az) == xtract_item(t@, p as int));
                        assert(xtract_end(t@, p as int) == r4 + 1);
                    }
                    gsv_take_items(t, r4 + 1, out);
                    proof {
                        assert(out@ =~= old(out)@ + gsv_items(t@, p as int));
                    }
                    return;
                }
            }
        }
    }
    proof {
        assert(!xtract_at(t@, p as int));
    }
    gsv_take_items(t, p + 1, out);
}

/// Parse a GSV data field into its satellite entries: SVID, elevation
/// and azimuth, each defaulted to zero when empty or out of range.
fn parse_gsv(s: &[u8]) -> (r: Result<Vec<(u8, i8, u16)>, GpsError>)
    ensures
        match r {
            Ok(v) => spec_parse_gsv(s@) == Ok::<Seq<(u8, i8, u16)>, GpsErrView>(v@),
            Err(e) => spec_parse_gsv(s@) == Err::<Seq<(u8, i8, u16)>, GpsErrView>(e@),
        },
{
    let mut p: usize = 0;
    while p < s.len()
        invariant
            p <= s@.len(),
            gsv_pos(s@, 0) == gsv_pos(s@, p as int),
        decreases s@.len() - p,
    {
        match try_gsv_at(s, p) {
            Some(payload) => {
                proof {
                    assert(gsv_pos(s@, p as int) == p);
                }
                let mut items: Vec<(u8, i8, u16)> = Vec::new();
                gsv_take_items(payload.as_slice(), 0, &mut items);
                proof {
                    assert(items@ =~= gsv_items(payload@, 0));
                }
                return Ok(items);
            },
            None => {
            },
        }
        p = p + 1;
    }
    Err(GpsError::PatternNotFound)
}


/// The sentences of the group with the given kind, if any.
pub open spec fn spec_find_group(g: Seq<(Seq<u8>, Seq<(Seq<u8>, Seq<u8>, Seq<u8>)>)>,
    kind: Seq<u8>) -> Option<Seq<(Seq<u8>, Seq<u8>, Seq<u8>)>>
    decreases g.len(),
{
    if g.len() == 0 {
        None
    } else if g[0].0 == kind {
        Some(g[0].1)
    } else {
        spec_find_group(g.drop_first(), kind)
    }
}

proof fn lemma_find_group_at(g: Seq<(Seq<u8>, Seq<(Seq<u8>, Seq<u8>, Seq<u8>)>)>, kind: Seq<u8>,
    idx: int)
    requires
        0 <= idx < g.len(),
        g[idx].0 == kind,
        forall|j: int| 0 <= j < idx ==> (#[trigger] g[j]).0 != kind,
    ensures
        spec_find_group(g, kind) == Some(g[idx].1),
    decreases idx,
{
    if idx > 0 {
        lemma_find_group_at(g.drop_first(), kind, idx - 1);
        assert(g.drop_first()[idx - 1] == g[idx]);
    }
}

proof fn lemma_find_group_absent(g: Seq<(Seq<u8>, Seq<(Seq<u8>, Seq<u8>, Seq<u8>)>)>,
    kind: Seq<u8>)
    requires
        forall|j: int| 0 <= j < g.len() ==> (#[trigger] g[j]).0 != kind,
    ensures
        spec_find_group(g, kind) is None,
    decreases g.len(),
{
    if g.len() > 0 {
        lemma_find_group_absent(g.drop_first(), kind);
    }
}

/// Find the index of the group with the given kind.
fn find_group_idx(data: &Vec<([u8; 3], Vec<RawNmea>)>, kind: [u8; 3]) -> (r: Option<usize>)
    ensures
        match r {
            Some(i) => i < data@.len() && spec_find_group(ngroups_view(data@), kind@)
                == Some(ngroups_view(data@)[i as int].1),
            None => spec_find_group(ngroups_view(data@), kind@) is None,
        },
{
    let mut i: usize = 0;
    let n = data.len();
    while i < n
        invariant
            i <= n == data@.len(),
            forall|j: int| 0 <= j < i ==> (#[trigger] ngroups_view(data@)[j]).0 != kind@,
        decreases n - i,
    {
        let k = data[i].0;
        if k[0] == kind[0] && k[1] == kind[1] && k[2] == kind[2] {
            proof {
                assert(k@ =~= kind@);
                assert(ngroups_view(data@)[i as int].0 == kind@);
                lemma_find_group_at(ngroups_view(data@), kind@, i as int);
            }
            return Some(i);
        }
        proof {
            assert(ngroups_view(data@)[i as int].0 == data@[i as int].0@);
            assert(data@[i as int].0@ != kind@) by {
                if data@[i as int].0@ == kind@ {
                    assert(data@[i as int].0@[0] == kind@[0]);
                    assert(data@[i as int].0@[1] == kind@[1]);
                    assert(data@[i as int].0@[2] == kind@[2]);
                }
            }
        }
        i = i + 1;
    }
    proof {
        lemma_find_group_absent(ngroups_view(data@), kind@);
    }
    None
}

/// Set the sky position of a satellite: a satellite already seen has its
/// entry updated in place, a new one is appended.
pub open spec fn spec_sv_insert(v: Seq<(GnssSatellite, (i8, u16))>, sat: GnssSatellite,
    ea: (i8, u16)) -> Seq<(GnssSatellite, (i8, u16))>
    decreases v.len(),
{
    if v.len() == 0 {
        seq![(sat, ea)]
    } else if v[0].0 == sat {
        seq![(sat, ea)] + v.drop_first()
    } else {
        seq![v[0]] + spec_sv_insert(v.drop_first(), sat, ea)
    }
}

proof fn lemma_sv_insert_found(v: Seq<(GnssSatellite, (i8, u16))>, sat: GnssSatellite,
    ea: (i8, u16), idx: int)
    requires
        0 <= idx < v.len(),
        v[idx].0 == sat,
        forall|j: int| 0 <= j < idx ==> (#[trigger] v[j]).0 != sat,
    ensures
        spec_sv_insert(v, sat, ea) == v.update(idx, (sat, ea)),
    decreases idx,
{
    if idx == 0 {
        assert(spec_sv_insert(v, sat, ea) =~= v.update(0, (sat, ea)));
    } else {
        lemma_sv_insert_found(v.drop_first(), sat, ea, idx - 1);
        assert(v.drop_first()[idx - 1] == v[idx]);
        assert(seq![v[0]] + v.drop_first().update(idx - 1, (sat, ea)) =~= v.update(idx, (sat,
            ea)));
    }
}

proof fn lemma_sv_insert_absent(v: Seq<(GnssSatellite, (i8, u16))>, sat: GnssSatellite,
    ea: (i8, u16))
    requires
        forall|j: int| 0 <= j < v.len() ==> (#[trigger] v[j]).0 != sat,
    ensures
        spec_sv_insert(v, sat, ea) == v.push((sat, ea)),
    decreases v.len(),
{
    if v.len() == 0 {
        assert(spec_sv_insert(v, sat, ea) =~= v.push((sat, ea)));
    } else {
        lemma_sv_insert_absent(v.drop_first(), sat, ea);
        assert(seq![v[0]] + v.drop_first().push((sat, ea)) =~= v.push((sat, ea)));
    }
}

/// Set the sky position of a satellite.
fn sv_insert(views: &mut Vec<(GnssSatellite, (i8, u16))>, sat: GnssSatellite, ea: (i8, u16))
    ensures
        final(views)@ == spec_sv_insert(old(views)@, sat, ea),
{
    let mut i: usize = 0;
    let n = views.len();
    while i < n
        invariant
            i <= n == views@.len(),
            views@ == old(views)@,
            forall|j: int| 0 <= j < i ==> (#[trigger] views@[j]).0 != sat,
        decreases n - i,
    {
        if views[i].0 == sat {
            views.set(i, (sat, ea));
            proof {
                lemma_sv_insert_found(old(views)@, sat, ea, i as int);
            }
            return;
        }
        i = i + 1;
    }
    views.push((sat, ea));
    proof {
        lemma_sv_insert_absent(old(views)@, sat, ea);
    }
}

/// Fold the entries of one GSV sentence into the sky view.  An entry is
/// dropped when its talker names no constellation, or when a Glonass
/// SVID sits below the bias of 64 so that no normalized PRN exists.
pub open spec fn spec_sv_items(v: Seq<(GnssSatellite, (i8, u16))>, items: Seq<(u8, i8, u16)>,
    talker: Seq<u8>) -> Seq<(GnssSatellite, (i8, u16))>
    decreases items.len(),
{
    if items.len() == 0 {
        v
    } else {
        let it = items[0];
        let v2 = if crate::gnss::nmea_talker_known(talker) && !(talker[1] == 76 && it.0 < 64) {
            spec_sv_insert(v, crate::gnss::spec_from_nmea_svid(talker, it.0), (it.1, it.2))
        } else {
            v
        };
        spec_sv_items(v2, items.drop_first(), talker)
    }
}

/// Fold every parseable GSV sentence of the group into the sky view.
pub open spec fn spec_gsv_all(v: Seq<(GnssSatellite, (i8, u16))>,
    recs: Seq<(Seq<u8>, Seq<u8>, Seq<u8>)>) -> Seq<(GnssSatellite, (i8, u16))>
    decreases recs.len(),
{
    if recs.len() == 0 {
        v
    } else {
        let v2 = match spec_parse_gsv(recs[0].2) {
            Ok(items) => spec_sv_items(v, items, recs[0].0),
            Err(_) => v,
        };
        spec_gsv_all(v2, recs.drop_first())
    }
}

/// Fold the entries of one sentence into the sky view, from index `i`.
fn sv_apply_items(items: &Vec<(u8, i8, u16)>, i: usize, talker: [u8; 2],
    views: &mut Vec<(GnssSatellite, (i8, u16))>)
    requires
        i <= items@.len(),
    ensures
        final(views)@ == spec_sv_items(old(views)@, items@.skip(i as int), talker@),
    decreases items@.len() - i,
{
    if i >= items.len() {
        proof {
            assert(items@.skip(i as int) =~= Seq::<(u8, i8, u16)>::empty());
        }
        return;
    }
    proof {
        assert(items@.skip(i as int)[0] == items@[i as int]);
        assert(items@.skip(i as int).drop_first() =~= items@.skip(i + 1));
    }
    let (svid, el, az): (u8, i8, u16) = items[i];
    let known = talker[0] == 71 && (talker[1] == 80 || talker[1] == 66 || talker[1] == 65
        || talker[1] == 76 || talker[1] == 78 || talker[1] == 81);
    if known && !(talker[1] == 76 && svid < 64) {
        let mut tv: Vec<u8> = Vec::new();
        tv.push(talker[0]);
        tv.push(talker[1]);
        proof {
            assert(tv@ =~= talker@);
        }
        let sat = GnssSatellite::from_nmea_svid(tv.as_slice(), svid);
        sv_insert(views, sat, (el, az));
    }
    sv_apply_items(items, i + 1, talker, views);
}

/// Fold the GSV sentences of the group into the sky view, from `j` on.
fn gsv_apply(recs: &Vec<RawNmea>, j: usize, views: &mut Vec<(GnssSatellite, (i8, u16))>)
    requires
        j <= recs@.len(),
    ensures
        final(views)@ == spec_gsv_all(old(views)@, recs@.map_values(|r: RawNmea| r@).skip(
            j as int)),
    decreases recs@.len() - j,
{
    let ghost rv = recs@.map_values(|r: RawNmea| r@);
    if j >= recs.len() {
        proof {
            assert(rv.skip(j as int) =~= Seq::<(Seq<u8>, Seq<u8>, Seq<u8>)>::empty());
        }
        return;
    }
    proof {
        assert(rv.skip(j as int)[0] == rv[j as int]);
        assert(rv.skip(j as int).drop_first() =~= rv.skip(j + 1));
    }
    let talker: [u8; 2] = recs[j].id;
    match parse_gsv(recs[j].data.as_slice()) {
        Ok(items) => {
            sv_apply_items(&items, 0, talker, views);
            proof {
                assert(items@.skip(0) =~= items@);
            }
        },
        Err(_) => {
        },
    }
    gsv_apply(recs, j + 1, views);
}

/// A position fix read from NMEA sentences: time, location, headings,
/// speed, fix quality, dilution of precision, and per-satellite sky
/// geometry.  Decimal fields are exact scaled integers as parsed.
#[derive(Debug)]
pub struct NmeaGpsInfo {
    /// Timestamp of the fix.
    pub time: UtcTime,
    /// Location of the fix: latitude, longitude, altitude.
    pub loc: (Coord, Coord, Dec),
    /// Altitude above mean sea level.
    pub msl: Dec,
    /// True heading in degrees.
    pub true_heading: Dec,
    /// Magnetic heading in degrees.
    pub mag_heading: Dec,
    /// Ground speed in km/h.
    pub ground_speed: Dec,
    /// Quality of the fix.
    pub quality: u8,
    /// Horizontal dilution of precision.
    pub hdop: Dec,
    /// Vertical dilution of precision.
    pub vdop: Dec,
    /// Position dilution of precision.
    pub pdop: Dec,
    /// Elevation and azimuth of the satellites in view.
    pub sat_views: Vec<(GnssSatellite, (i8, u16))>,
}

/// The view of a [`NmeaGpsInfo`].
pub struct NmeaInfoV {
    /// Timestamp of the fix.
    pub time: UtcTime,
    /// Location of the fix: latitude, longitude, altitude.
    pub loc: (Coord, Coord, Dec),
    /// Altitude above mean sea level.
    pub msl: Dec,
    /// True heading in degrees.
    pub true_heading: Dec,
    /// Magnetic heading in degrees.
    pub mag_heading: Dec,
    /// Ground speed in km/h.
    pub ground_speed: Dec,
    /// Quality of the fix.
    pub quality: u8,
    /// Horizontal dilution of precision.
    pub hdop: Dec,
    /// Vertical dilution of precision.
    pub vdop: Dec,
    /// Position dilution of precision.
    pub pdop: Dec,
    /// Elevation and azimuth of the satellites in view.
    pub sat_views: Seq<(GnssSatellite, (i8, u16))>,
}

impl View for NmeaGpsInfo {
    type V = NmeaInfoV;

    open spec fn view(&self) -> NmeaInfoV {
        NmeaInfoV {
            time: self.time,
            loc: self.loc,
            msl: self.msl,
            true_heading: self.true_heading,
            mag_heading: self.mag_heading,
            ground_speed: self.ground_speed,
            quality: self.quality,
            hdop: self.hdop,
            vdop: self.vdop,
            pdop: self.pdop,
            sat_views: self.sat_views@,
        }
    }
}

/// What building a fix from grouped sentences yields.  A missing or
/// empty ZDA group is `NoFix`; a missing or empty GGA group is
/// `PatternNotFound`; the ZDA time, the GGA fields, the latitude, the
/// longitude and the altitude are parsed in that order and the first
/// failure is returned; headings, speed and DOPs come from the first
/// VTG and GSA sentences when they parse, zero otherwise; the sky view
/// is folded from every GSV sentence when `process_gsv` is set.
pub open spec fn spec_create(g: Seq<(Seq<u8>, Seq<(Seq<u8>, Seq<u8>, Seq<u8>)>)>,
    process_gsv: bool) -> Result<NmeaInfoV, GpsErrView> {
    let zda = spec_find_group(g, seq![90u8, 68u8, 65u8]);
    let gga = spec_find_group(g, seq![71u8, 71u8, 65u8]);
    if zda is None || zda.unwrap().len() == 0 {
        Err(GpsErrView::NoFix)
    } else if gga is None || gga.unwrap().len() == 0 {
        Err(GpsErrView::PatternNotFound)
    } else {
        match spec_parse_zda(zda.unwrap()[0].2) {
            Err(e) => Err(e),
            Ok(time) => match spec_parse_gga(gga.unwrap()[0].2) {
                Err(e) => Err(e),
                Ok(gf) => match spec_parse_lat(gf.lat, seq![gf.lat_dir]) {
                    Err(e) => Err(e),
                    Ok(lat) => match spec_parse_lon(gf.lon, seq![gf.lon_dir]) {
                        Err(e) => Err(e),
                        Ok(lon) => match spec_parse_dec(gf.alt) {
                            None => Err(GpsErrView::Parse("Altitude"@)),
                            Some(alt) => {
                                let vtg = spec_find_group(g, seq![86u8, 84u8, 71u8]);
                                let headings = if vtg is Some && vtg.unwrap().len() > 0 {
                                    match spec_parse_vtg(vtg.unwrap()[0].2) {
                                        Ok(vf) => (spec_dec_or_zero(vf.true_heading),
                                            spec_dec_or_zero(vf.mag_heading), spec_dec_or_zero(
                                            vf.ground_speed)),
                                        Err(_) => (Dec { neg: false, mant: 0u64, scale: 0u8 },
                                            Dec { neg: false, mant: 0u64, scale: 0u8 }, Dec {
                                            neg: false, mant: 0u64, scale: 0u8 }),
                                    }
                                } else {
                                    (Dec { neg: false, mant: 0u64, scale: 0u8 }, Dec {
                                        neg: false, mant: 0u64, scale: 0u8 }, Dec {
                                        neg: false, mant: 0u64, scale: 0u8 })
                                };
                                let gsa = spec_find_group(g, seq![71u8, 83u8, 65u8]);
                                let dops = if gsa is Some && gsa.unwrap().len() > 0 {
                                    match spec_parse_gsa(gsa.unwrap()[0].2) {
                                        Ok(df) => (spec_dec_or_zero(df.pdop), spec_dec_or_zero(
                                            df.hdop), spec_dec_or_zero(df.vdop)),
                                        Err(_) => (Dec { neg: false, mant: 0u64, scale: 0u8 },
                                            Dec { neg: false, mant: 0u64, scale: 0u8 }, Dec {
                                            neg: false, mant: 0u64, scale: 0u8 }),
                                    }
                                } else {
                                    (Dec { neg: false, mant: 0u64, scale: 0u8 }, Dec {
                                        neg: false, mant: 0u64, scale: 0u8 }, Dec {
                                        neg: false, mant: 0u64, scale: 0u8 })
                                };
                                let gsv = spec_find_group(g, seq![71u8, 83u8, 86u8]);
                                let sat_views = if process_gsv && gsv is Some {
                                    spec_gsv_all(Seq::empty(), gsv.unwrap())
                                } else {
                                    Seq::empty()
                                };
                                Ok(NmeaInfoV {
                                    time,
                                    loc: (lat, lon, alt),
                                    msl: spec_dec_or_zero(gf.msl),
                                    true_heading: headings.0,
                                    mag_heading: headings.1,
                                    ground_speed: headings.2,
                                    quality: hex_val(gf.quality_ch) as u8,
                                    hdop: dops.1,
                                    vdop: dops.2,
                                    pdop: dops.0,
                                    sat_views,
                                })
                            },
                        },
                    },
                },
            },
        }
    }
}

impl NmeaGpsInfo {
    /// Build a position fix from grouped sentences.
    ///
    /// A missing or empty ZDA group means no fix has been acquired; a
    /// missing or empty GGA group means the expected sentence is absent.
    /// The ZDA time, GGA fields, latitude, longitude and altitude must
    /// parse; headings, speed and DOPs default to zero when their
    /// sentences are absent or malformed; the per-satellite sky view is
    /// read from every GSV sentence when `process_gsv` is set.
    pub fn create(data: &Vec<([u8; 3], Vec<RawNmea>)>, process_gsv: bool)
        -> (r: Result<NmeaGpsInfo, GpsError>)
        ensures
            match r {
                Ok(info) => spec_create(ngroups_view(data@), process_gsv) == Ok::<NmeaInfoV,
                    GpsErrView>(info@),
                Err(e) => spec_create(ngroups_view(data@), process_gsv) == Err::<NmeaInfoV,
                    GpsErrView>(e@),
            },
    {
        let ghost g = ngroups_view(data@);
        let zi = match find_group_idx(data, [90, 68, 65]) {
            Some(zi) => zi,
            None => {
                return Err(GpsError::NoFix);
            },
        };
        if data[zi].1.len() == 0 {
            return Err(GpsError::NoFix);
        }
        let gi = match find_group_idx(data, [71, 71, 65]) {
            Some(gi) => gi,
            None => {
                return Err(GpsError::PatternNotFound);
            },
        };
        if data[gi].1.len() == 0 {
            return Err(GpsError::PatternNotFound);
        }
        proof {
            assert(g[zi as int].1[0] == data@[zi as int].1@.map_values(|r: RawNmea| r@)[0]);
            assert(g[gi as int].1[0] == data@[gi as int].1@.map_values(|r: RawNmea| r@)[0]);
        }
        let time = match parse_zda(data[zi].1[0].data.as_slice()) {
            Ok(t) => t,
            Err(e) => {
                return Err(e);
            },
        };
        let gf = match parse_gga(data[gi].1[0].data.as_slice()) {
            Ok(f) => f,
            Err(e) => {
                return Err(e);
            },
        };
        let mut latdir: Vec<u8> = Vec::new();
        latdir.push(gf.lat_dir);
        proof {
            assert(latdir@ =~= seq![gf.lat_dir]);
        }
        let lat = match parse_lat(gf.lat.as_slice(), latdir.as_slice()) {
            Ok(c) => c,
            Err(e) => {
                return Err(e);
            },
        };
        let mut londir: Vec<u8> = Vec::new();
        londir.push(gf.lon_dir);
        proof {
            assert(londir@ =~= seq![gf.lon_dir]);
        }
        let lon = match parse_lon(gf.lon.as_slice(), londir.as_slice()) {
            Ok(c) => c,
            Err(e) => {
                return Err(e);
            },
        };
        let alt = match parse_dec(gf.alt.as_slice(), 0, gf.alt.len()) {
            Some(d) => d,
            None => {
                proof {
                    assert(gf.alt@.subrange(0, gf.alt@.len() as int) =~= gf.alt@);
                }
                return Err(GpsError::ParseError("Altitude".to_owned()));
            },
        };
        proof {
            assert(gf.alt@.subrange(0, gf.alt@.len() as int) =~= gf.alt@);
        }
        let quality = hex_digit_val(gf.quality_ch);
        let msl = dec_or_zero(gf.msl.as_slice(), 0, gf.msl.len());
        proof {
            assert(gf.msl@.subrange(0, gf.msl@.len() as int) =~= gf.msl@);
        }
        let mut true_heading = Dec::zero();
        let mut mag_heading = Dec::zero();
        let mut ground_speed = Dec::zero();
        match find_group_idx(data, [86, 84, 71]) {
            Some(vi) => {
                if data[vi].1.len() > 0 {
                    proof {
                        assert(g[vi as int].1[0] == data@[vi as int].1@.map_values(
                            |r: RawNmea| r@)[0]);
                    }
                    match parse_vtg(data[vi].1[0].data.as_slice()) {
                        Ok(vf) => {
                            true_heading = dec_or_zero(vf.true_heading.as_slice(), 0,
                                vf.true_heading.len());
                            mag_heading = dec_or_zero(vf.mag_heading.as_slice(), 0,
                                vf.mag_heading.len());
                            ground_speed = dec_or_zero(vf.ground_speed.as_slice(), 0,
                                vf.ground_speed.len());
                            proof {
                                assert(vf.true_heading@.subrange(0,
                                    vf.true_heading@.len() as int) =~= vf.true_heading@);
                                assert(vf.mag_heading@.subrange(0, vf.mag_heading@.len() as int)
                                    =~= vf.mag_heading@);
                                assert(vf.ground_speed@.subrange(0,
                                    vf.ground_speed@.len() as int) =~= vf.ground_speed@);
                            }
                        },
                        Err(_) => {
                        },
                    }
                }
            },
            None => {
            },
        }
        let mut pdop = Dec::zero();
        let mut hdop = Dec::zero();
        let mut vdop = Dec::zero();
        match find_group_idx(data, [71, 83, 65]) {
            Some(si) => {
                if data[si].1.len() > 0 {
                    proof {
                        assert(g[si as int].1[0] == data@[si as int].1@.map_values(
                            |r: RawNmea| r@)[0]);
                    }
                    match parse_gsa(data[si].1[0].data.as_slice()) {
                        Ok(df) => {
                            pdop = dec_or_zero(df.pdop.as_slice(), 0, df.pdop.len());
                            hdop = dec_or_zero(df.hdop.as_slice(), 0, df.hdop.len());
                            vdop = dec_or_zero(df.vdop.as_slice(), 0, df.vdop.len());
                            proof {
                                assert(df.pdop@.subrange(0, df.pdop@.len() as int)
                                    =~= df.pdop@);
                                assert(df.hdop@.subrange(0, df.hdop@.len() as int)
                                    =~= df.hdop@);
                                assert(df.vdop@.subrange(0, df.vdop@.len() as int)
                                    =~= df.vdop@);
                            }
                        },
                        Err(_) => {
                        },
                    }
                }
            },
            None => {
            },
        }
        let mut sat_views: Vec<(GnssSatellite, (i8, u16))> = Vec::new();
        if process_gsv {
            match find_group_idx(data, [71, 83, 86]) {
                Some(wi) => {
                    gsv_apply(&data[wi].1, 0, &mut sat_views);
                    proof {
                        let rv = data@[wi as int].1@.map_values(|r: RawNmea| r@);
                        assert(rv.skip(0) =~= rv);
                        assert(g[wi as int].1 == rv);
                    }
                },
                None => {
                },
            }
        }
        Ok(NmeaGpsInfo {
            time,
            loc: (lat, lon, alt),
            msl,
            true_heading,
            mag_heading,
            ground_speed,
            quality,
            hdop,
            vdop,
            pdop,
            sat_views,
        })
    }
}


impl RawNmea {
    /// Scan a buffer for NMEA sentences, keep those whose XOR checksum
    /// matches, and group them by sentence kind in first-seen order.
    pub fn parse_str(data: &[u8]) -> (r: Vec<([u8; 3], Vec<RawNmea>)>)
        ensures
            ngroups_view(r@) == spec_nmea_groups(data@),
    {
        let mut groups: Vec<([u8; 3], Vec<RawNmea>)> = Vec::new();
        scan_from(data, 0, &mut groups);
        proof {
            assert(ngroups_view(Seq::<([u8; 3], Vec<RawNmea>)>::empty()) =~= Seq::<(Seq<u8>,
                Seq<(Seq<u8>, Seq<u8>, Seq<u8>)>)>::empty());
        }
        groups
    }
}

} // verus!
