//! The binary layout of a run file, as mathematics.
//!
//! [`spec_encode`] maps a run model to the byte sequence that the file holds;
//! [`spec_decode`] maps a byte sequence back to a run model or to the exact
//! parse error. The executable codec in [`crate::splits_file`] is proved
//! equal to these functions, and [`lemma_encode_decode_round_trip`] shows
//! that decoding an encoded run reconstructs it exactly.
//!
//! Layout, all lengths single bytes and all integers little-endian:
//! a 4-byte signature, a version byte, a length-prefixed run name, a split
//! count followed by that many length-prefixed split names, and an attempt
//! count followed by that many attempts. One attempt is 8 bytes of whole
//! seconds, 4 bytes of sub-second nanoseconds, a count of recorded split
//! times, and 8 bytes for each split time (the bit pattern of its value in
//! seconds).

use vstd::bytes::{spec_u32_to_le_bytes, spec_u64_to_le_bytes};
use vstd::prelude::*;

use crate::interval::NANOS_PER_SEC;

verus! {

/// The one format version this codec reads and writes.
pub const FORMAT_VERSION: u8 = 0;

/// Byte length cap on the run name, each split name, the split list and the
/// attempt list: every length in the layout is a single unsigned byte.
pub const MAX_LEN: usize = 255;

/// The fixed four bytes that open every run file: an ASCII "bss" tag plus
/// one marker byte.
pub open spec fn spec_signature() -> Seq<u8> {
    seq![98u8, 115u8, 115u8, 69u8]
}

/// One recorded attempt: a total duration in whole seconds plus sub-second
/// nanoseconds, and the recorded split times (bit patterns of their values
/// in seconds).
pub struct AttemptModel {
    pub total_secs: u64,
    pub total_nanos: u32,
    pub split_bits: Seq<u64>,
}

/// A run definition plus its attempt history, as stored in a run file.
pub struct RunModel {
    pub version: u8,
    pub name: Seq<u8>,
    pub splits: Seq<Seq<u8>>,
    pub attempts: Seq<AttemptModel>,
}

/// The distinct ways a byte buffer can fail to parse as a run file.
#[derive(Clone, Copy, Debug, PartialEq, Eq, Structural)]
pub enum ParseErr {
    InvalidHeaderLength,
    InvalidSignature,
    InvalidRunName,
    UnknownVersion,
    InvalidSplitsChunk,
    InvalidAttemptsChunk,
}

/// The distinct ways a run value can fail to serialize: a field or list
/// longer than [`MAX_LEN`], or an attempt recording more split times than
/// the run has splits. The index says which split name or attempt.
#[derive(Clone, Copy, Debug, PartialEq, Eq, Structural)]
pub enum EncodeErr {
    NameTooLong,
    TooManySplits,
    SplitNameTooLong(usize),
    TooManyAttempts,
    AttemptSplitsMismatch(usize),
}

// ---------------------------------------------------------------------------
// Encoding
// ---------------------------------------------------------------------------

/// A length-prefixed byte string.
pub open spec fn enc_str(s: Seq<u8>) -> Seq<u8>
    recommends
        s.len() <= MAX_LEN,
{
    seq![s.len() as u8] + s
}

/// The split-name list, each name length-prefixed, in order.
pub open spec fn enc_strs(ss: Seq<Seq<u8>>) -> Seq<u8>
    decreases ss.len(),
{
    if ss.len() == 0 {
        Seq::empty()
    } else {
        enc_str(ss.first()) + enc_strs(ss.drop_first())
    }
}

/// The split times of one attempt, 8 bytes each.
pub open spec fn enc_bits(bs: Seq<u64>) -> Seq<u8>
    decreases bs.len(),
{
    if bs.len() == 0 {
        Seq::empty()
    } else {
        spec_u64_to_le_bytes(bs.first()) + enc_bits(bs.drop_first())
    }
}

/// One attempt: total seconds, total nanoseconds, split-time count, times.
pub open spec fn enc_attempt(a: AttemptModel) -> Seq<u8>
    recommends
        a.split_bits.len() <= MAX_LEN,
{
    spec_u64_to_le_bytes(a.total_secs) + spec_u32_to_le_bytes(a.total_nanos) + seq![
        a.split_bits.len() as u8,
    ] + enc_bits(a.split_bits)
}

/// The attempt list, in order.
pub open spec fn enc_attempts(aa: Seq<AttemptModel>) -> Seq<u8>
    decreases aa.len(),
{
    if aa.len() == 0 {
        Seq::empty()
    } else {
        enc_attempt(aa.first()) + enc_attempts(aa.drop_first())
    }
}

/// The whole file for a run model that satisfies the size caps.
pub open spec fn spec_encode(m: RunModel) -> Seq<u8>
    recommends
        spec_encode_err(m) is None,
{
    spec_signature() + seq![m.version] + enc_str(m.name) + seq![m.splits.len() as u8] + enc_strs(
        m.splits,
    ) + seq![m.attempts.len() as u8] + enc_attempts(m.attempts)
}

///`i` is the position of the first split name longer than [`MAX_LEN`].
pub open spec fn is_first_long_split(ss: Seq<Seq<u8>>, i: int) -> bool {
    &&& 0 <= i < ss.len()
    &&& ss[i].len() > MAX_LEN
    &&& forall|j: int| 0 <= j < i ==> #[trigger] ss[j].len() <= MAX_LEN
}

/// `i` is the position of the first attempt recording more than
/// `splits_len` split times.
pub open spec fn is_first_oversized_attempt(aa: Seq<AttemptModel>, splits_len: int, i: int) -> bool {
    &&& 0 <= i < aa.len()
    &&& aa[i].split_bits.len() > splits_len
    &&& forall|j: int| 0 <= j < i ==> #[trigger] aa[j].split_bits.len() <= splits_len
}

/// The error that serializing `m` reports, or `None` when `m` serializes.
/// The checks run in the order the fields are written: run name, split
/// count, split names in order, attempt count, attempts in order.
pub open spec fn spec_encode_err(m: RunModel) -> Option<EncodeErr> {
    if m.name.len() > MAX_LEN {
        Some(EncodeErr::NameTooLong)
    } else if m.splits.len() > MAX_LEN {
        Some(EncodeErr::TooManySplits)
    } else if exists|i: int| is_first_long_split(m.splits, i) {
        Some(
            EncodeErr::SplitNameTooLong(
                (choose|i: int| is_first_long_split(m.splits, i)) as usize,
            ),
        )
    } else if m.attempts.len() > MAX_LEN {
        Some(EncodeErr::TooManyAttempts)
    } else if exists|i: int| is_first_oversized_attempt(m.attempts, m.splits.len() as int, i) {
        Some(
            EncodeErr::AttemptSplitsMismatch(
                (choose|i: int|
                    is_first_oversized_attempt(m.attempts, m.splits.len() as int, i)) as usize,
            ),
        )
    } else {
        None
    }
}

/// At most one position is the first faulty one.
pub proof fn lemma_first_long_split_unique(ss: Seq<Seq<u8>>, i: int, j: int)
    requires
        is_first_long_split(ss, i),
        is_first_long_split(ss, j),
    ensures
        i == j,
{
}

/// At most one position is the first faulty one.
pub proof fn lemma_first_oversized_attempt_unique(
    aa: Seq<AttemptModel>,
    splits_len: int,
    i: int,
    j: int,
)
    requires
        is_first_oversized_attempt(aa, splits_len, i),
        is_first_oversized_attempt(aa, splits_len, j),
    ensures
        i == j,
{
}

// ---------------------------------------------------------------------------
// Decoding
// ---------------------------------------------------------------------------

/// Read `n` length-prefixed split names starting at `off`; yield them and
/// the offset just past them, or the error for a truncated chunk.
pub open spec fn dec_splits(b: Seq<u8>, off: int, n: int) -> Result<(Seq<Seq<u8>>, int), ParseErr>
    recommends
        0 <= off <= b.len(),
    decreases n,
{
    if n <= 0 {
        Ok((Seq::empty(), off))
    } else if off >= b.len() {
        Err(ParseErr::InvalidSplitsChunk)
    } else {
        let l = b[off] as int;
        if b.len() - (off + 1) < l {
            Err(ParseErr::InvalidSplitsChunk)
        } else {
            match dec_splits(b, off + 1 + l, n - 1) {
                Ok((rest, end)) => Ok((seq![b.subrange(off + 1, off + 1 + l)] + rest, end)),
                Err(e) => Err(e),
            }
        }
    }
}

/// Read `n` 8-byte split times starting at `off`.
pub open spec fn dec_bits(b: Seq<u8>, off: int, n: int) -> Result<(Seq<u64>, int), ParseErr>
    recommends
        0 <= off <= b.len(),
    decreases n,
{
    if n <= 0 {
        Ok((Seq::empty(), off))
    } else if b.len() - off < 8 {
        Err(ParseErr::InvalidAttemptsChunk)
    } else {
        match dec_bits(b, off + 8, n - 1) {
            Ok((rest, end)) => Ok(
                (seq![vstd::bytes::spec_u64_from_le_bytes(b.subrange(off, off + 8))] + rest, end),
            ),
            Err(e) => Err(e),
        }
    }
}

/// Read `n` attempts starting at `off`. An attempt whose nanosecond field
/// is not a sub-second remainder does not describe a duration and is
/// rejected with the truncated-attempts error.
pub open spec fn dec_attempts(b: Seq<u8>, off: int, n: int) -> Result<
    (Seq<AttemptModel>, int),
    ParseErr,
>
    recommends
        0 <= off <= b.len(),
    decreases n,
{
    if n <= 0 {
        Ok((Seq::empty(), off))
    } else if b.len() - off < 13 {
        Err(ParseErr::InvalidAttemptsChunk)
    } else {
        let secs = vstd::bytes::spec_u64_from_le_bytes(b.subrange(off, off + 8));
        let nanos = vstd::bytes::spec_u32_from_le_bytes(b.subrange(off + 8, off + 12));
        let used = b[off + 12] as int;
        if nanos >= NANOS_PER_SEC {
            Err(ParseErr::InvalidAttemptsChunk)
        } else {
            match dec_bits(b, off + 13, used) {
                Ok((bits, mid)) => match dec_attempts(b, mid, n - 1) {
                    Ok((rest, end)) => Ok(
                        (
                            seq![
                                AttemptModel {
                                    total_secs: secs,
                                    total_nanos: nanos,
                                    split_bits: bits,
                                },
                            ] + rest,
                            end,
                        ),
                    ),
                    Err(e) => Err(e),
                },
                Err(e) => Err(e),
            }
        }
    }
}

/// Parse a whole buffer. Bytes after the attempt list are ignored.
pub open spec fn spec_decode(b: Seq<u8>) -> Result<RunModel, ParseErr> {
    if b.len() < 6 {
        Err(ParseErr::InvalidHeaderLength)
    } else if b.subrange(0, 4) != spec_signature() {
        Err(ParseErr::InvalidSignature)
    } else if b[4] > FORMAT_VERSION {
        Err(ParseErr::UnknownVersion)
    } else if b[5] == 0 {
        Err(ParseErr::InvalidRunName)
    } else if b.len() - 6 < b[5] as int {
        Err(ParseErr::InvalidHeaderLength)
    } else {
        let name_end = 6 + b[5] as int;
        let name = b.subrange(6, name_end);
        if name_end >= b.len() {
            Err(ParseErr::InvalidSplitsChunk)
        } else {
            match dec_splits(b, name_end + 1, b[name_end] as int) {
                Err(e) => Err(e),
                Ok((splits, splits_end)) => {
                    if splits_end >= b.len() {
                        Err(ParseErr::InvalidAttemptsChunk)
                    } else {
                        match dec_attempts(b, splits_end + 1, b[splits_end] as int) {
                            Err(e) => Err(e),
                            Ok((attempts, _)) => Ok(
                                RunModel { version: b[4], name, splits, attempts },
                            ),
                        }
                    }
                },
            }
        }
    }
}

// ---------------------------------------------------------------------------
// The round-trip law
// ---------------------------------------------------------------------------

/// A run value the format can carry faithfully: the size caps hold, every
/// attempt's nanosecond part is a sub-second remainder, the name is not
/// empty, and the version is the one this codec writes.
pub open spec fn valid_run(m: RunModel) -> bool {
    &&& m.version == FORMAT_VERSION
    &&& 1 <= m.name.len() <= MAX_LEN
    &&& m.splits.len() <= MAX_LEN
    &&& (forall|i: int| 0 <= i < m.splits.len() ==> (#[trigger] m.splits[i]).len() <= MAX_LEN)
    &&& m.attempts.len() <= MAX_LEN
    &&& (forall|i: int|
        0 <= i < m.attempts.len() ==> (#[trigger] m.attempts[i]).split_bits.len()
            <= m.splits.len())
    &&& (forall|i: int|
        0 <= i < m.attempts.len() ==> (#[trigger] m.attempts[i]).total_nanos < NANOS_PER_SEC)
}

/// Encoding one more split name appends its encoding.
pub proof fn lemma_enc_strs_app(a: Seq<Seq<u8>>, b: Seq<Seq<u8>>)
    ensures
        enc_strs(a + b) == enc_strs(a) + enc_strs(b),
    decreases a.len(),
{
    if a.len() == 0 {
        assert(a + b =~= b);
        assert(enc_strs(a) + enc_strs(b) =~= enc_strs(b));
    } else {
        assert((a + b).drop_first() =~= a.drop_first() + b);
        lemma_enc_strs_app(a.drop_first(), b);
        assert(enc_str(a.first()) + (enc_strs(a.drop_first()) + enc_strs(b)) =~= (enc_str(a.first())
            + enc_strs(a.drop_first())) + enc_strs(b));
        assert((a + b).first() == a.first());
    }
}

/// Encoding one more split time appends its encoding.
pub proof fn lemma_enc_bits_app(a: Seq<u64>, b: Seq<u64>)
    ensures
        enc_bits(a + b) == enc_bits(a) + enc_bits(b),
    decreases a.len(),
{
    if a.len() == 0 {
        assert(a + b =~= b);
        assert(enc_bits(a) + enc_bits(b) =~= enc_bits(b));
    } else {
        assert((a + b).drop_first() =~= a.drop_first() + b);
        lemma_enc_bits_app(a.drop_first(), b);
        assert(spec_u64_to_le_bytes(a.first()) + (enc_bits(a.drop_first()) + enc_bits(b)) =~= (
        spec_u64_to_le_bytes(a.first()) + enc_bits(a.drop_first())) + enc_bits(b));
        assert((a + b).first() == a.first());
    }
}

/// Encoding one more attempt appends its encoding.
pub proof fn lemma_enc_attempts_app(a: Seq<AttemptModel>, b: Seq<AttemptModel>)
    ensures
        enc_attempts(a + b) == enc_attempts(a) + enc_attempts(b),
    decreases a.len(),
{
    if a.len() == 0 {
        assert(a + b =~= b);
        assert(enc_attempts(a) + enc_attempts(b) =~= enc_attempts(b));
    } else {
        assert((a + b).drop_first() =~= a.drop_first() + b);
        lemma_enc_attempts_app(a.drop_first(), b);
        assert(enc_attempt(a.first()) + (enc_attempts(a.drop_first()) + enc_attempts(b)) =~= (
        enc_attempt(a.first()) + enc_attempts(a.drop_first())) + enc_attempts(b));
        assert((a + b).first() == a.first());
    }
}

/// A one-name list encodes as that name's encoding.
pub proof fn lemma_enc_strs_singleton(s: Seq<u8>)
    ensures
        enc_strs(seq![s]) == enc_str(s),
{
    let one = seq![s];
    assert(one.first() == s);
    assert(one.drop_first() =~= Seq::<Seq<u8>>::empty());
    assert(enc_strs(one.drop_first()) =~= Seq::<u8>::empty());
    assert(enc_str(s) + Seq::<u8>::empty() =~= enc_str(s));
}

/// A one-time list encodes as that time's 8 bytes.
pub proof fn lemma_enc_bits_singleton(x: u64)
    ensures
        enc_bits(seq![x]) == spec_u64_to_le_bytes(x),
{
    let one = seq![x];
    assert(one.first() == x);
    assert(one.drop_first() =~= Seq::<u64>::empty());
    assert(enc_bits(one.drop_first()) =~= Seq::<u8>::empty());
    assert(spec_u64_to_le_bytes(x) + Seq::<u8>::empty() =~= spec_u64_to_le_bytes(x));
}

/// A one-attempt list encodes as that attempt's encoding.
pub proof fn lemma_enc_attempts_singleton(a: AttemptModel)
    ensures
        enc_attempts(seq![a]) == enc_attempt(a),
{
    let one = seq![a];
    assert(one.first() == a);
    assert(one.drop_first() =~= Seq::<AttemptModel>::empty());
    assert(enc_attempts(one.drop_first()) =~= Seq::<u8>::empty());
    assert(enc_attempt(a) + Seq::<u8>::empty() =~= enc_attempt(a));
}

/// Reading the split-name list back out of its own encoding, wherever it
/// sits in a larger buffer, yields exactly the names that went in.
pub proof fn lemma_dec_splits_of_enc(b: Seq<u8>, off: int, ss: Seq<Seq<u8>>)
    requires
        0 <= off,
        off + enc_strs(ss).len() <= b.len(),
        forall|i: int| 0 <= i < ss.len() ==> (#[trigger] ss[i]).len() <= MAX_LEN,
        b.subrange(off, off + enc_strs(ss).len() as int) == enc_strs(ss),
    ensures
        dec_splits(b, off, ss.len() as int) == Ok::<_, ParseErr>(
            (ss, off + enc_strs(ss).len() as int),
        ),
    decreases ss.len(),
{
    let e = enc_strs(ss);
    assert forall|k: int| 0 <= k < e.len() implies e[k] == b[off + k] by {
        assert(e[k] == b.subrange(off, off + e.len() as int)[k]);
    }
    if ss.len() == 0 {
        assert(ss =~= Seq::<Seq<u8>>::empty());
    } else {
        let s0 = ss.first();
        let rest = ss.drop_first();
        let e0 = enc_str(s0);
        let er = enc_strs(rest);
        let l = s0.len() as int;
        assert(e == e0 + er);
        assert(e0.len() == 1 + l);
        assert(e[0] == e0[0]);
        assert(e0[0] == s0.len() as u8);
        assert(b[off] == s0.len() as u8);
        assert(b[off] as int == l);
        assert(b.len() - (off + 1) >= l);
        assert(b.subrange(off + 1, off + 1 + l) =~= s0) by {
            assert forall|k: int| 0 <= k < l implies b[off + 1 + k] == s0[k] by {
                assert(e[1 + k] == e0[1 + k]);
                assert(e0[1 + k] == s0[k]);
            }
        }
        assert(b.subrange(off + 1 + l, off + 1 + l + er.len() as int) =~= er) by {
            assert forall|k: int| 0 <= k < er.len() implies b[off + 1 + l + k] == er[k] by {
                assert(e[1 + l + k] == er[k]);
            }
        }
        lemma_dec_splits_of_enc(b, off + 1 + l, rest);
        assert(seq![b.subrange(off + 1, off + 1 + l)] + rest =~= ss);
        assert(off + 1 + l + er.len() as int == off + e.len() as int);
    }
}

/// Reading split times back out of their own encoding yields the values
/// that went in.
pub proof fn lemma_dec_bits_of_enc(b: Seq<u8>, off: int, bs: Seq<u64>)
    requires
        0 <= off,
        off + enc_bits(bs).len() <= b.len(),
        b.subrange(off, off + enc_bits(bs).len() as int) == enc_bits(bs),
    ensures
        dec_bits(b, off, bs.len() as int) == Ok::<_, ParseErr>(
            (bs, off + enc_bits(bs).len() as int),
        ),
    decreases bs.len(),
{
    vstd::bytes::lemma_auto_spec_u64_to_from_le_bytes();
    let e = enc_bits(bs);
    assert forall|k: int| 0 <= k < e.len() implies e[k] == b[off + k] by {
        assert(e[k] == b.subrange(off, off + e.len() as int)[k]);
    }
    if bs.len() == 0 {
        assert(bs =~= Seq::<u64>::empty());
    } else {
        let x0 = bs.first();
        let rest = bs.drop_first();
        let e0 = spec_u64_to_le_bytes(x0);
        let er = enc_bits(rest);
        assert(e == e0 + er);
        assert(e0.len() == 8);
        assert(b.subrange(off, off + 8) =~= e0) by {
            assert forall|k: int| 0 <= k < 8 implies b[off + k] == e0[k] by {
                assert(e[k] == e0[k]);
            }
        }
        assert(vstd::bytes::spec_u64_from_le_bytes(b.subrange(off, off + 8)) == x0);
        assert(b.subrange(off + 8, off + 8 + er.len() as int) =~= er) by {
            assert forall|k: int| 0 <= k < er.len() implies b[off + 8 + k] == er[k] by {
                assert(e[8 + k] == er[k]);
            }
        }
        lemma_dec_bits_of_enc(b, off + 8, rest);
        assert(seq![x0] + rest =~= bs);
        assert(off + 8 + er.len() as int == off + e.len() as int);
    }
}

/// Reading the attempt list back out of its own encoding yields exactly the
/// attempts that went in.
pub proof fn lemma_dec_attempts_of_enc(b: Seq<u8>, off: int, aa: Seq<AttemptModel>)
    requires
        0 <= off,
        off + enc_attempts(aa).len() <= b.len(),
        forall|i: int| 0 <= i < aa.len() ==> (#[trigger] aa[i]).split_bits.len() <= MAX_LEN,
        forall|i: int| 0 <= i < aa.len() ==> (#[trigger] aa[i]).total_nanos < NANOS_PER_SEC,
        b.subrange(off, off + enc_attempts(aa).len() as int) == enc_attempts(aa),
    ensures
        dec_attempts(b, off, aa.len() as int) == Ok::<_, ParseErr>(
            (aa, off + enc_attempts(aa).len() as int),
        ),
    decreases aa.len(),
{
    vstd::bytes::lemma_auto_spec_u64_to_from_le_bytes();
    vstd::bytes::lemma_auto_spec_u32_to_from_le_bytes();
    let e = enc_attempts(aa);
    assert forall|k: int| 0 <= k < e.len() implies e[k] == b[off + k] by {
        assert(e[k] == b.subrange(off, off + e.len() as int)[k]);
    }
    if aa.len() == 0 {
        assert(aa =~= Seq::<AttemptModel>::empty());
    } else {
        let a0 = aa.first();
        let rest = aa.drop_first();
        let e0 = enc_attempt(a0);
        let er = enc_attempts(rest);
        let bits = enc_bits(a0.split_bits);
        assert(e == e0 + er);
        let se = spec_u64_to_le_bytes(a0.total_secs);
        let ne = spec_u32_to_le_bytes(a0.total_nanos);
        assert(se.len() == 8);
        assert(ne.len() == 4);
        assert(e0 == se + ne + seq![a0.split_bits.len() as u8] + bits);
        assert(e0.len() == 13 + bits.len());
        assert forall|k: int| 0 <= k < e0.len() implies e0[k] == b[off + k] by {
            assert(e[k] == e0[k]);
        }
        assert(b.len() - off >= 13);
        assert(b.subrange(off, off + 8) =~= se) by {
            assert forall|k: int| 0 <= k < 8 implies b[off + k] == se[k] by {
                assert(e0[k] == se[k]);
            }
        }
        assert(b.subrange(off + 8, off + 12) =~= ne) by {
            assert forall|k: int| 0 <= k < 4 implies b[off + 8 + k] == ne[k] by {
                assert(e0[8 + k] == ne[k]);
            }
        }
        assert(vstd::bytes::spec_u64_from_le_bytes(b.subrange(off, off + 8)) == a0.total_secs);
        assert(vstd::bytes::spec_u32_from_le_bytes(b.subrange(off + 8, off + 12))
            == a0.total_nanos);
        assert(e0[12] == a0.split_bits.len() as u8);
        assert(b[off + 12] == a0.split_bits.len() as u8);
        assert(b[off + 12] as int == a0.split_bits.len() as int);
        assert(b.subrange(off + 13, off + 13 + bits.len() as int) =~= bits) by {
            assert forall|k: int| 0 <= k < bits.len() implies b[off + 13 + k] == bits[k] by {
                assert(e0[13 + k] == bits[k]);
            }
        }
        lemma_dec_bits_of_enc(b, off + 13, a0.split_bits);
        let mid = off + 13 + bits.len() as int;
        assert(b.subrange(mid, mid + er.len() as int) =~= er) by {
            assert forall|k: int| 0 <= k < er.len() implies b[mid + k] == er[k] by {
                assert(e[e0.len() + k] == er[k]);
            }
        }
        lemma_dec_attempts_of_enc(b, mid, rest);
        let a0_again = AttemptModel {
            total_secs: a0.total_secs,
            total_nanos: a0.total_nanos,
            split_bits: a0.split_bits,
        };
        assert(a0_again == a0);
        assert(seq![a0_again] + rest =~= aa);
        assert(mid + er.len() as int == off + e.len() as int);
    }
}

/// The round-trip law: decoding the encoding of any run value the format
/// can carry reconstructs that value exactly - version, name, split names
/// in order, and attempts with equal totals and equal split-time lists.
pub proof fn lemma_encode_decode_round_trip(m: RunModel)
    requires
        valid_run(m),
    ensures
        spec_decode(spec_encode(m)) == Ok::<RunModel, ParseErr>(m),
{
    let b = spec_encode(m);
    let nl = m.name.len() as int;
    let es = enc_strs(m.splits);
    let ea = enc_attempts(m.attempts);
    let p1 = spec_signature() + seq![m.version];
    let p2 = p1 + enc_str(m.name);
    let p3 = p2 + seq![m.splits.len() as u8];
    let p4 = p3 + es;
    let p5 = p4 + seq![m.attempts.len() as u8];
    assert(b == p5 + ea);
    assert(p1.len() == 5);
    assert(enc_str(m.name).len() == 1 + nl);
    assert(p2.len() == 6 + nl);
    assert(p4.len() == 7 + nl + es.len());
    assert(p5.len() == 8 + nl + es.len());
    assert(b.len() == 8 + nl + es.len() + ea.len());

    assert(b.subrange(0, 4) =~= spec_signature()) by {
        assert forall|k: int| 0 <= k < 4 implies b[k] == spec_signature()[k] by {
            assert(b[k] == p1[k]);
        }
    }
    assert(b[4] == p1[4]);
    assert(b[4] == m.version);
    assert(b[5] == p2[5]);
    assert(p2[5] == enc_str(m.name)[0]);
    assert(b[5] == m.name.len() as u8);
    assert(b[5] as int == nl);
    assert(b[5] != 0);
    assert(b.len() - 6 >= nl);

    let name_end = 6 + nl;
    assert(b.subrange(6, name_end) =~= m.name) by {
        assert forall|k: int| 0 <= k < nl implies b[6 + k] == m.name[k] by {
            assert(b[6 + k] == p2[6 + k]);
            assert(p2[6 + k] == enc_str(m.name)[1 + k]);
        }
    }
    assert(name_end < b.len());
    assert(b[name_end] == p3[name_end]);
    assert(b[name_end] == m.splits.len() as u8);
    assert(b[name_end] as int == m.splits.len() as int);

    assert(b.subrange(name_end + 1, name_end + 1 + es.len() as int) =~= es) by {
        assert forall|k: int| 0 <= k < es.len() implies b[name_end + 1 + k] == es[k] by {
            assert(b[name_end + 1 + k] == p4[name_end + 1 + k]);
            assert(p4[p3.len() + k] == es[k]);
        }
    }
    lemma_dec_splits_of_enc(b, name_end + 1, m.splits);
    let splits_end = name_end + 1 + es.len() as int;
    assert(dec_splits(b, name_end + 1, b[name_end] as int) == Ok::<_, ParseErr>(
        (m.splits, splits_end),
    ));

    assert(splits_end < b.len());
    assert(b[splits_end] == p5[splits_end]);
    assert(b[splits_end] == m.attempts.len() as u8);
    assert(b[splits_end] as int == m.attempts.len() as int);

    assert(b.subrange(splits_end + 1, splits_end + 1 + ea.len() as int) =~= ea) by {
        assert forall|k: int| 0 <= k < ea.len() implies b[splits_end + 1 + k] == ea[k] by {
            assert(b[p5.len() + k] == ea[k]);
        }
    }
    assert forall|i: int| 0 <= i < m.attempts.len() implies (#[trigger] m.attempts[i]).split_bits.len()
        <= MAX_LEN by {
        assert(m.attempts[i].split_bits.len() <= m.splits.len());
    }
    lemma_dec_attempts_of_enc(b, splits_end + 1, m.attempts);
    assert(dec_attempts(b, splits_end + 1, b[splits_end] as int) == Ok::<_, ParseErr>(
        (m.attempts, splits_end + 1 + ea.len() as int),
    ));

    assert(RunModel {
        version: b[4],
        name: b.subrange(6, name_end),
        splits: m.splits,
        attempts: m.attempts,
    } == m);
}

} // verus!
