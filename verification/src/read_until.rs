//! Delimited-record reading from a captured byte stream.
//!
//! A [`ReadUntil`] hands out one delimited record at a time: each call of
//! [`ReadUntil::read_to_end`] appends the bytes up to but not including
//! the next occurrence of the delimiter, consumes the delimiter, and
//! returns the record length.  When the stream ends before a delimiter
//! is seen, whatever bytes remain are returned, possibly none.  The
//! delimiter itself never appears inside a returned record.

use vstd::prelude::*;
use vstd::slice::slice_subrange;

verus! {

/// Whether `pat` occurs in `s` starting at `i`.
pub open spec fn match_at(s: Seq<u8>, pat: Seq<u8>, i: int) -> bool {
    0 <= i && i + pat.len() <= s.len() && s.subrange(i, i + pat.len()) == pat
}

/// The position of the earliest occurrence of `pat` at or after `p`, or
/// `s.len()` when there is none.
pub open spec fn pat_pos(s: Seq<u8>, pat: Seq<u8>, p: int) -> int
    decreases s.len() - p,
{
    if p < 0 || pat.len() <= 0 || p + pat.len() > s.len() {
        s.len() as int
    } else if match_at(s, pat, p) {
        p
    } else {
        pat_pos(s, pat, p + 1)
    }
}

/// `pat_pos` lands on the earliest occurrence: nothing before it is one,
/// and the position itself is one unless it is the end sentinel.
pub proof fn lemma_pat_pos_spec(s: Seq<u8>, pat: Seq<u8>, p: int)
    requires
        0 <= p <= s.len(),
        pat.len() >= 1,
    ensures
        p <= pat_pos(s, pat, p) <= s.len(),
        pat_pos(s, pat, p) < s.len() ==> match_at(s, pat, pat_pos(s, pat, p)),
        forall|i: int| p <= i < pat_pos(s, pat, p) ==> !match_at(s, pat, i),
    decreases s.len() - p,
{
    if p + pat.len() > s.len() {
        assert(forall|i: int| p <= i < s.len() ==> !match_at(s, pat, i));
    } else if match_at(s, pat, p) {
    } else {
        lemma_pat_pos_spec(s, pat, p + 1);
    }
}

/// Law: the delimiter never occurs inside a returned record.  The record
/// a read yields is `s.take(q)` for `q = pat_pos(s, pat, 0)`, and no
/// window of it equals the delimiter.
pub proof fn lemma_delim_not_in_payload(s: Seq<u8>, pat: Seq<u8>)
    requires
        pat.len() >= 1,
    ensures
        forall|i: int|
            0 <= i && i + pat.len() <= pat_pos(s, pat, 0) ==> (#[trigger] s.take(pat_pos(s, pat,
                0)).subrange(i, i + pat.len())) != pat,
{
    let q = pat_pos(s, pat, 0);
    lemma_pat_pos_spec(s, pat, 0);
    assert forall|i: int| 0 <= i && i + pat.len() <= q implies (#[trigger] s.take(q).subrange(i,
        i + pat.len())) != pat by {
        assert(!match_at(s, pat, i));
        assert(s.take(q).subrange(i, i + pat.len()) =~= s.subrange(i, i + pat.len()));
    }
}

/// Compare `pat` against `hay` at position `i`.
fn window_eq(hay: &[u8], i: usize, pat: &[u8]) -> (r: bool)
    requires
        i + pat@.len() <= hay@.len(),
    ensures
        r == match_at(hay@, pat@, i as int),
{
    let hlen = hay.len();
    let mut j: usize = 0;
    while j < pat.len()
        invariant
            j <= pat@.len(),
            i + pat@.len() <= hay@.len(),
            hlen == hay@.len(),
            forall|k: int| 0 <= k < j ==> hay@[i + k] == pat@[k],
        decreases pat@.len() - j,
    {
        if hay[i + j] != pat[j] {
            proof {
                assert(hay@.subrange(i as int, i + pat@.len())[j as int] != pat@[j as int]);
            }
            return false;
        }
        j = j + 1;
    }
    proof {
        assert(hay@.subrange(i as int, i + pat@.len()) =~= pat@);
    }
    true
}

/// Find the earliest occurrence of `pat` in `hay` at or after `from`;
/// `hay.len()` means there is none.
fn find_pattern(hay: &[u8], from: usize, pat: &[u8]) -> (r: usize)
    requires
        from <= hay@.len(),
        pat@.len() >= 1,
    ensures
        r == pat_pos(hay@, pat@, from as int),
        from <= r <= hay@.len(),
{
    let mut i: usize = from;
    while i < hay.len()
        invariant
            from <= i <= hay@.len(),
            pat@.len() >= 1,
            pat_pos(hay@, pat@, from as int) == pat_pos(hay@, pat@, i as int),
        decreases hay@.len() - i,
    {
        if pat.len() <= hay.len() - i {
            if window_eq(hay, i, pat) {
                return i;
            }
        }
        i = i + 1;
    }
    hay.len()
}

/// A byte-stream adapter that yields one delimited record per read.
pub struct ReadUntil {
    data: Vec<u8>,
    pos: usize,
    until: Vec<u8>,
}

impl ReadUntil {
    /// Whether the adapter is in its valid state: the consumed prefix is
    /// within bounds and the delimiter is non-empty.
    pub closed spec fn wf(&self) -> bool {
        self.pos <= self.data@.len() && self.until@.len() >= 1
    }

    /// The bytes not yet consumed.
    pub closed spec fn remaining(&self) -> Seq<u8> {
        self.data@.skip(self.pos as int)
    }

    /// The delimiter pattern.
    pub closed spec fn delim(&self) -> Seq<u8> {
        self.until@
    }

    /// Append the next record to `buf`: the bytes up to but not
    /// including the next delimiter occurrence, with the delimiter
    /// consumed; or, when no delimiter remains, every remaining byte.
    /// Returns the record length, 0 at end of stream.
    pub fn read_to_end(&mut self, buf: &mut Vec<u8>) -> (n: usize)
        requires
            old(self).wf(),
        ensures
            final(self).wf(),
            final(self).delim() == old(self).delim(),
            ({
                let rem = old(self).remaining();
                let pat = old(self).delim();
                let q = pat_pos(rem, pat, 0);
                if q < rem.len() {
                    &&& final(buf)@ == old(buf)@ + rem.take(q)
                    &&& n == q
                    &&& final(self).remaining() == rem.skip(q + pat.len() as int)
                } else {
                    &&& final(buf)@ == old(buf)@ + rem
                    &&& n == rem.len()
                    &&& final(self).remaining() == Seq::<u8>::empty()
                }
            }),
    {
        let ghost rem = self.remaining();
        let ghost pat = self.until@;
        let datalen = self.data.len();
        let remslice = slice_subrange(self.data.as_slice(), self.pos, datalen);
        proof {
            assert(remslice@ == rem);
            lemma_pat_pos_spec(rem, pat, 0);
        }
        let q = find_pattern(remslice, 0, self.until.as_slice());
        let mut j: usize = 0;
        while j < q
            invariant
                j <= q <= remslice@.len(),
                remslice@ == rem,
                buf@ == old(buf)@ + rem.take(j as int),
            decreases q - j,
        {
            buf.push(remslice[j]);
            proof {
                assert(rem.take(j + 1) =~= rem.take(j as int) + seq![rem[j as int]]);
            }
            j = j + 1;
        }
        if q < remslice.len() {
            self.pos = self.pos + q + self.until.len();
            proof {
                assert(q + pat.len() <= rem.len());
                assert(self.remaining() =~= rem.skip(q + pat.len() as int));
            }
            q
        } else {
            self.pos = datalen;
            proof {
                assert(rem.take(q as int) =~= rem);
                assert(self.remaining() =~= Seq::<u8>::empty());
            }
            q
        }
    }
}

/// Wrap captured bytes in a delimited-record reader.
pub fn get_reader(data: Vec<u8>, until: &[u8]) -> (r: ReadUntil)
    requires
        until@.len() >= 1,
    ensures
        r.wf(),
        r.remaining() == data@,
        r.delim() == until@,
{
    let until_vec = vstd::slice::slice_to_vec(until);
    let r = ReadUntil { data, pos: 0, until: until_vec };
    proof {
        assert(r.remaining() =~= r.data@);
    }
    r
}

} // verus!
