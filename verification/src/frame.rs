//! Framing and checksumming of u-blox binary frames in a mixed byte stream.
//!
//! A frame is `B5 62 | class | id | length (LE16) | payload | ckA | ckB`,
//! with the two checksum bytes computed by the two-byte Fletcher running
//! sum over `class || id || length || payload`, each accumulator modulo
//! 256.  The splitter scans a buffer for the earliest sync pair,
//! validates the frame there, excises it on success, and leaves the bytes
//! of invalid frames in the residual: a frame whose checksum does not
//! match is skipped past its sync pair, and a frame whose length header
//! points beyond the buffer end stops the scan so that an incomplete
//! tail survives for a later pass.

use vstd::prelude::*;
use vstd::slice::{slice_subrange, slice_to_vec};

verus! {

/// A u-blox message: class, id, and the payload with framing stripped.
#[derive(Debug, Clone)]
pub struct UbxMessage {
    /// Message class
    pub class: u8,
    /// Message ID
    pub id: u8,
    /// Message payload
    pub payload: Vec<u8>,
}

impl View for UbxMessage {
    type V = (u8, u8, Seq<u8>);

    open spec fn view(&self) -> (u8, u8, Seq<u8>) {
        (self.class, self.id, self.payload@)
    }
}

/// The views of a sequence of messages.
pub open spec fn msgs_view(v: Seq<UbxMessage>) -> Seq<(u8, u8, Seq<u8>)> {
    v.map_values(|m: UbxMessage| m@)
}

/// One step of the two-byte Fletcher running sum.
pub open spec fn ck_step(ck: (u8, u8), b: u8) -> (u8, u8) {
    let a = ((ck.0 + b) % 256) as u8;
    let c = ((ck.1 + a) % 256) as u8;
    (a, c)
}

/// The two-byte Fletcher checksum of a byte sequence, starting from
/// `(0, 0)` and folding [`ck_step`] over the bytes from the left.
pub open spec fn spec_checksum(s: Seq<u8>) -> (u8, u8)
    decreases s.len(),
{
    if s.len() == 0 {
        (0u8, 0u8)
    } else {
        ck_step(spec_checksum(s.drop_last()), s.last())
    }
}

/// Compute the two-byte Fletcher checksum over a byte slice.
pub fn rxm_checksum(buf: &[u8]) -> (r: (u8, u8))
    ensures
        r == spec_checksum(buf@),
{
    let mut ck_a: u8 = 0;
    let mut ck_b: u8 = 0;
    let mut i: usize = 0;
    while i < buf.len()
        invariant
            i <= buf@.len(),
            (ck_a, ck_b) == spec_checksum(buf@.take(i as int)),
        decreases buf@.len() - i,
    {
        let b = buf[i];
        ck_a = ((ck_a as u16 + b as u16) % 256) as u8;
        ck_b = ((ck_b as u16 + ck_a as u16) % 256) as u8;
        proof {
            assert(buf@.take(i + 1).drop_last() =~= buf@.take(i as int));
            assert(buf@.take(i + 1).last() == buf@[i as int]);
        }
        i = i + 1;
    }
    proof {
        assert(buf@.take(buf@.len() as int) =~= buf@);
    }
    (ck_a, ck_b)
}

/// Whether a sync pair `B5 62` starts at position `i`.
pub open spec fn is_sync_at(s: Seq<u8>, i: int) -> bool {
    0 <= i && i + 2 <= s.len() && s[i] == 0xB5 && s[i + 1] == 0x62
}

/// The position of the earliest sync pair at or after `p`, or `s.len()`
/// when there is none.
pub open spec fn sync_pos(s: Seq<u8>, p: int) -> int
    decreases s.len() - p,
{
    if p < 0 || p + 2 > s.len() {
        s.len() as int
    } else if is_sync_at(s, p) {
        p
    } else {
        sync_pos(s, p + 1)
    }
}

/// `sync_pos` lands on the earliest sync pair: nothing before it is one,
/// and the position itself is one unless it is the end sentinel.
pub proof fn lemma_sync_pos_spec(s: Seq<u8>, p: int)
    requires
        0 <= p <= s.len(),
    ensures
        p <= sync_pos(s, p) <= s.len(),
        sync_pos(s, p) < s.len() ==> is_sync_at(s, sync_pos(s, p)),
        forall|i: int| p <= i < sync_pos(s, p) ==> !is_sync_at(s, i),
    decreases s.len() - p,
{
    if p + 2 > s.len() {
        assert(forall|i: int| p <= i < s.len() ==> !is_sync_at(s, i));
    } else if is_sync_at(s, p) {
    } else {
        lemma_sync_pos_spec(s, p + 1);
    }
}

/// The payload length named by the length header of the frame at `i`.
pub open spec fn payload_len_at(s: Seq<u8>, i: int) -> int
    recommends
        0 <= i && i + 6 <= s.len(),
{
    s[i + 4] as int + 256 * (s[i + 5] as int)
}

#[via_fn]
proof fn spec_split_dec(s: Seq<u8>, p: int) {
    if 0 <= p <= s.len() {
        lemma_sync_pos_spec(s, p);
    }
}

/// What the splitter recovers from `s`, scanning from position `p`:
/// the validated frames as `(class, id, payload)` triples, in byte order,
/// and the residual bytes with each validated frame excised.
///
/// At the earliest sync pair the frame there is validated.  On success it
/// is excised and the scan continues right after it; on a checksum
/// mismatch the scan continues past the sync pair and the bytes stay; a
/// length header that points beyond the buffer end stops the scan so the
/// incomplete tail stays for a later pass.
pub open spec fn spec_split(s: Seq<u8>, p: int) -> (Seq<(u8, u8, Seq<u8>)>, Seq<u8>)
    recommends
        0 <= p <= s.len(),
    decreases s.len() - p,
        via spec_split_dec
{
    if !(0 <= p <= s.len()) {
        (Seq::empty(), Seq::empty())
    } else {
        let i = sync_pos(s, p);
        if i == s.len() {
            (Seq::empty(), s.subrange(p, s.len() as int))
        } else if s.len() - (i + 2) < 4 {
            (Seq::empty(), s.subrange(p, s.len() as int))
        } else {
            let need = i + 8 + payload_len_at(s, i);
            if s.len() < need {
                (Seq::empty(), s.subrange(p, s.len() as int))
            } else if spec_checksum(s.subrange(i + 2, need - 2)) == (s[need - 2], s[need - 1]) {
                let rest = spec_split(s, need);
                (seq![(s[i + 2], s[i + 3], s.subrange(i + 6, need - 2))] + rest.0,
                    s.subrange(p, i) + rest.1)
            } else {
                let rest = spec_split(s, i + 2);
                (rest.0, s.subrange(p, i + 2) + rest.1)
            }
        }
    }
}

/// Find the earliest sync pair at or after `from`.
fn find_sync(buf: &[u8], from: usize) -> (r: Option<usize>)
    requires
        from <= buf@.len(),
    ensures
        match r {
            Some(i) => i == sync_pos(buf@, from as int) && i < buf@.len(),
            None => sync_pos(buf@, from as int) == buf@.len(),
        },
{
    let mut i: usize = from;
    while i < buf.len()
        invariant
            from <= i <= buf@.len(),
            sync_pos(buf@, from as int) == sync_pos(buf@, i as int),
        decreases buf@.len() - i,
    {
        if i + 1 < buf.len() && buf[i] == 0xB5 && buf[i + 1] == 0x62 {
            return Some(i);
        }
        i = i + 1;
    }
    None
}

/// Append `buf[a..b]` to `out`.
fn extend_from(out: &mut Vec<u8>, buf: &[u8], a: usize, b: usize)
    requires
        a <= b <= buf@.len(),
    ensures
        final(out)@ == old(out)@ + buf@.subrange(a as int, b as int),
{
    let mut j: usize = a;
    while j < b
        invariant
            a <= j <= b <= buf@.len(),
            out@ == old(out)@ + buf@.subrange(a as int, j as int),
        decreases b - j,
    {
        out.push(buf[j]);
        proof {
            assert(buf@.subrange(a as int, j + 1) =~= buf@.subrange(a as int, j as int)
                + seq![buf@[j as int]]);
        }
        j = j + 1;
    }
}

/// Scan `buf` from `p`, appending recovered messages and residual bytes.
fn split_scan(buf: &[u8], p: usize, msgs: &mut Vec<UbxMessage>, residual: &mut Vec<u8>)
    requires
        p <= buf@.len(),
    ensures
        msgs_view(final(msgs)@) == msgs_view(old(msgs)@) + spec_split(buf@, p as int).0,
        final(residual)@ == old(residual)@ + spec_split(buf@, p as int).1,
    decreases buf@.len() - p,
{
    proof {
        lemma_sync_pos_spec(buf@, p as int);
    }
    match find_sync(buf, p) {
        None => {
            extend_from(residual, buf, p, buf.len());
            proof {
                assert(msgs_view(msgs@) =~= msgs_view(old(msgs)@) + spec_split(buf@, p as int).0);
            }
        },
        Some(i) => {
            if buf.len() - (i + 2) < 4 {
                extend_from(residual, buf, p, buf.len());
                proof {
                    assert(msgs_view(msgs@) =~= msgs_view(old(msgs)@)
                        + spec_split(buf@, p as int).0);
                }
                return;
            }
            let l: usize = buf[i + 4] as usize + 256 * (buf[i + 5] as usize);
            if buf.len() - (i + 6) < l + 2 {
                extend_from(residual, buf, p, buf.len());
                proof {
                    assert(buf@.len() < i + 8 + payload_len_at(buf@, i as int));
                    assert(msgs_view(msgs@) =~= msgs_view(old(msgs)@)
                        + spec_split(buf@, p as int).0);
                }
                return;
            }
            let need: usize = i + 8 + l;
            let ck = rxm_checksum(slice_subrange(buf, i + 2, need - 2));
            if ck.0 == buf[need - 2] && ck.1 == buf[need - 1] {
                let payload: Vec<u8> = slice_to_vec(slice_subrange(buf, i + 6, need - 2));
                let msg = UbxMessage { class: buf[i + 2], id: buf[i + 3], payload };
                msgs.push(msg);
                extend_from(residual, buf, p, i);
                let ghost msgs_mid = msgs@;
                split_scan(buf, need, msgs, residual);
                proof {
                    let s = buf@;
                    let pi = p as int;
                    let ii = i as int;
                    assert(msgs_view(msgs_mid) =~= msgs_view(old(msgs)@)
                        + seq![(s[ii + 2], s[ii + 3], s.subrange(ii + 6, need - 2))]);
                    assert(msgs_view(msgs@) =~= msgs_view(old(msgs)@)
                        + spec_split(s, pi).0);
                    assert(residual@ =~= old(residual)@ + spec_split(s, pi).1);
                }
            } else {
                extend_from(residual, buf, p, i + 2);
                split_scan(buf, i + 2, msgs, residual);
                proof {
                    let s = buf@;
                    let pi = p as int;
                    assert((spec_checksum(s.subrange(i + 2, need - 2)) == (s[need - 2], s[
                        need - 1])) == false);
                    assert(msgs_view(msgs@) =~= msgs_view(old(msgs)@)
                        + spec_split(s, pi).0);
                    assert(residual@ =~= old(residual)@ + spec_split(s, pi).1);
                }
            }
        },
    }
}

/// Remove every validated u-blox frame from the buffer: return the parsed
/// messages, in byte order, and the residual bytes with the framed
/// regions excised.
///
/// Invalid frames are not excised: a checksum mismatch leaves its bytes
/// in the residual and the scan continues past the sync pair, and an
/// incomplete tail stops the scan so its bytes survive for a later pass.
pub fn split_ubx(buf: Vec<u8>) -> (r: (Vec<UbxMessage>, Vec<u8>))
    ensures
        msgs_view(r.0@) == spec_split(buf@, 0).0,
        r.1@ == spec_split(buf@, 0).1,
{
    let mut msgs: Vec<UbxMessage> = Vec::new();
    let mut residual: Vec<u8> = Vec::new();
    split_scan(buf.as_slice(), 0, &mut msgs, &mut residual);
    proof {
        assert(msgs_view(Seq::<UbxMessage>::empty()) =~= Seq::<(u8, u8, Seq<u8>)>::empty());
        assert(msgs_view(msgs@) =~= spec_split(buf@, 0).0);
    }
    (msgs, residual)
}

/// The on-wire bytes of a frame: sync pair, class, id, little-endian
/// payload length, payload, and the two Fletcher checksum bytes.
pub open spec fn frame_bytes(class: u8, id: u8, payload: Seq<u8>) -> Seq<u8>
    recommends
        payload.len() <= 0xFFFF,
{
    let body = seq![class, id, (payload.len() % 256) as u8, (payload.len() / 256) as u8]
        + payload;
    let ck = spec_checksum(body);
    seq![0xB5u8, 0x62u8] + body + seq![ck.0, ck.1]
}

/// When nothing in `s[p..]` is a sync pair, the scan recovers no frame
/// and every byte stays in the residual.
proof fn lemma_split_no_sync(s: Seq<u8>, p: int)
    requires
        0 <= p <= s.len(),
        forall|i: int| p <= i < s.len() ==> !is_sync_at(s, i),
    ensures
        spec_split(s, p) == (Seq::<(u8, u8, Seq<u8>)>::empty(), s.subrange(p, s.len() as int)),
{
    lemma_sync_pos_spec(s, p);
}

/// Law: framing round-trips through the splitter.  Appending the Fletcher
/// checksum to `class || id || length || payload` and prepending the sync
/// pair yields a buffer from which the splitter recovers exactly that one
/// frame, with an empty residual.
pub proof fn lemma_frame_round_trip(class: u8, id: u8, payload: Seq<u8>)
    requires
        payload.len() <= 0xFFFF,
    ensures
        spec_split(frame_bytes(class, id, payload), 0).0 == seq![(class, id, payload)],
        spec_split(frame_bytes(class, id, payload), 0).1 == Seq::<u8>::empty(),
{
    let s = frame_bytes(class, id, payload);
    let len = payload.len() as int;
    let body = seq![class, id, (payload.len() % 256) as u8, (payload.len() / 256) as u8]
        + payload;
    let ck = spec_checksum(body);
    assert(s.len() == len + 8);
    assert(s[0] == 0xB5 && s[1] == 0x62);
    assert(is_sync_at(s, 0));
    assert(sync_pos(s, 0) == 0);
    assert(s[4] == (payload.len() % 256) as u8);
    assert(s[5] == (payload.len() / 256) as u8);
    assert(payload_len_at(s, 0) == len) by {
        vstd::arithmetic::div_mod::lemma_fundamental_div_mod(len, 256);
    }
    let need = 8 + len;
    assert(s.subrange(2, need - 2) =~= body);
    assert(s[need - 2] == ck.0 && s[need - 1] == ck.1);
    assert(sync_pos(s, need) == s.len());
    assert(spec_split(s, need) == (Seq::<(u8, u8, Seq<u8>)>::empty(),
        s.subrange(need, s.len() as int)));
    assert(s.subrange(need, s.len() as int) =~= Seq::<u8>::empty());
    assert(s.subrange(6, need - 2) =~= payload);
    assert(spec_split(s, 0).0 =~= seq![(class, id, payload)]);
    assert(spec_split(s, 0).1 =~= Seq::<u8>::empty());
}

/// Law: a frame whose checksum byte was altered yields no frame, and all
/// of its bytes stay in the residual.
///
/// `which` selects the corrupted byte: the first or the second checksum
/// byte; `t` is the corrupted buffer.  The one hypothesis beyond the
/// corruption itself is that no sync pair starts inside `t` after
/// position zero; a payload that embeds a whole valid frame of its own
/// would otherwise surface it.
pub proof fn lemma_corrupt_checksum_rejected(class: u8, id: u8, payload: Seq<u8>, which: bool,
    b: u8, t: Seq<u8>)
    requires
        payload.len() <= 0xFFFF,
        t == frame_bytes(class, id, payload).update(
            if which {
                frame_bytes(class, id, payload).len() - 2
            } else {
                frame_bytes(class, id, payload).len() - 1
            }, b),
        b != if which {
            spec_checksum(frame_bytes(class, id, payload).subrange(2,
                payload.len() as int + 6)).0
        } else {
            spec_checksum(frame_bytes(class, id, payload).subrange(2,
                payload.len() as int + 6)).1
        },
        forall|i: int| 1 <= i < t.len() ==> !(#[trigger] is_sync_at(t, i)),
    ensures
        spec_split(t, 0).0 == Seq::<(u8, u8, Seq<u8>)>::empty(),
        spec_split(t, 0).1 == t,
{
    let s = frame_bytes(class, id, payload);
    let len = payload.len() as int;
    let body = seq![class, id, (payload.len() % 256) as u8, (payload.len() / 256) as u8]
        + payload;
    let ck = spec_checksum(body);
    let pos: int = if which { s.len() - 2 } else { s.len() - 1 };
    assert(t.len() == len + 8);
    assert(t[0] == 0xB5 && t[1] == 0x62);
    assert(is_sync_at(t, 0));
    assert(sync_pos(t, 0) == 0);
    assert(payload_len_at(t, 0) == len) by {
        vstd::arithmetic::div_mod::lemma_fundamental_div_mod(len, 256);
    }
    let need = 8 + len;
    assert(s.subrange(2, need - 2) =~= body);
    assert(t.subrange(2, need - 2) =~= body);
    if which {
        assert(t[need - 2] == b && b != ck.0);
    } else {
        assert(t[need - 1] == b && b != ck.1);
    }
    assert((spec_checksum(t.subrange(2, need - 2)) == (t[need - 2], t[need - 1])) == false);
    lemma_split_no_sync(t, 2);
    assert(spec_split(t, 0).0 =~= Seq::<(u8, u8, Seq<u8>)>::empty());
    assert(spec_split(t, 0).1 =~= t.subrange(0, 2) + t.subrange(2, t.len() as int));
    assert(t.subrange(0, 2) + t.subrange(2, t.len() as int) =~= t);
}

/// Law: cutting any number of bytes from the end of a frame yields no
/// frame, and every remaining byte stays in the residual: the incomplete
/// tail survives for a later pass.
pub proof fn lemma_truncated_frame_rejected(class: u8, id: u8, payload: Seq<u8>, k: int)
    requires
        payload.len() <= 0xFFFF,
        1 <= k <= frame_bytes(class, id, payload).len(),
    ensures
        spec_split(frame_bytes(class, id, payload).take(
            frame_bytes(class, id, payload).len() - k), 0).0 == Seq::<(u8, u8,
            Seq<u8>)>::empty(),
        spec_split(frame_bytes(class, id, payload).take(
            frame_bytes(class, id, payload).len() - k), 0).1 == frame_bytes(class, id,
            payload).take(frame_bytes(class, id, payload).len() - k),
{
    let s = frame_bytes(class, id, payload);
    let len = payload.len() as int;
    let m = s.len() - k;
    let t = s.take(m);
    assert(t.len() == m);
    if m < 2 {
        assert(sync_pos(t, 0) == t.len());
        assert(spec_split(t, 0).1 =~= t);
    } else {
        assert(t[0] == 0xB5 && t[1] == 0x62);
        assert(is_sync_at(t, 0));
        assert(sync_pos(t, 0) == 0);
        if m - 2 < 4 {
            assert(spec_split(t, 0).1 =~= t);
        } else {
            assert(t[4] == (payload.len() % 256) as u8);
            assert(t[5] == (payload.len() / 256) as u8);
            assert(payload_len_at(t, 0) == len) by {
                vstd::arithmetic::div_mod::lemma_fundamental_div_mod(len, 256);
            }
            assert(t.len() < 8 + len);
            assert(spec_split(t, 0).1 =~= t);
        }
    }
}

/// What a single validation pass over the whole buffer reports: the
/// bounds `(start, end)` of the earliest frame together with its class
/// and id, or the error naming what went wrong there.
pub open spec fn spec_find_rxm(s: Seq<u8>) -> Result<(int, int, u8, u8), Seq<char>> {
    let i = sync_pos(s, 0);
    if i == s.len() {
        Err("No UBX message found"@)
    } else if s.len() - (i + 2) < 4 {
        Err("Insufficient data to get packet length"@)
    } else {
        let need = i + 8 + payload_len_at(s, i);
        if s.len() < need {
            Err("Incomplete packet"@)
        } else if spec_checksum(s.subrange(i + 2, need - 2)) == (s[need - 2], s[need - 1]) {
            Ok((i, need, s[i + 2], s[i + 3]))
        } else {
            Err("Checksum mismatch"@)
        }
    }
}

/// Validate the frame at the earliest sync pair of the buffer.
///
/// On success the result is `(start, end, class, id)`: the frame occupies
/// `buf[start..end]`.  The errors name, in order, a missing sync pair, a
/// length header cut short, a frame whose length points past the buffer
/// end, and a checksum mismatch.
pub fn find_rxm_raw(buf: &[u8]) -> (r: Result<(usize, usize, u8, u8), &'static str>)
    ensures
        match r {
            Ok((a, b, c, d)) => spec_find_rxm(buf@) == Ok::<_, Seq<char>>((a as int, b as int, c,
                d)),
            Err(e) => spec_find_rxm(buf@) == Err::<(int, int, u8, u8), _>(e@),
        },
{
    proof {
        lemma_sync_pos_spec(buf@, 0);
    }
    match find_sync(buf, 0) {
        None => Err("No UBX message found"),
        Some(i) => {
            if buf.len() - (i + 2) < 4 {
                return Err("Insufficient data to get packet length");
            }
            let l: usize = buf[i + 4] as usize + 256 * (buf[i + 5] as usize);
            if buf.len() - (i + 6) < l + 2 {
                proof {
                    assert(buf@.len() < i + 8 + payload_len_at(buf@, i as int));
                }
                return Err("Incomplete packet");
            }
            let need: usize = i + 8 + l;
            let ck = rxm_checksum(slice_subrange(buf, i + 2, need - 2));
            if ck.0 == buf[need - 2] && ck.1 == buf[need - 1] {
                Ok((i, need, buf[i + 2], buf[i + 3]))
            } else {
                proof {
                    assert((spec_checksum(buf@.subrange(i + 2, need - 2)) == (buf@[need - 2],
                        buf@[need - 1])) == false);
                }
                Err("Checksum mismatch")
            }
        },
    }
}

} // verus!
