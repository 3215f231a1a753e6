//! Decoders for the platform's internal binary record formats: commit
//! keys, commit values and group partition assignments. All integers on
//! the wire are big-endian; strings carry a signed 16-bit length prefix
//! followed by that many UTF-8 bytes.

use crate::model::{AssignmentView, CommitKeyView, MemberAssignment, OffsetAndMetadata, OffsetValue};
use vstd::prelude::*;
use vstd::utf8::{decode_utf8, encode_utf8, valid_utf8};

verus! {

/// Why a raw record failed to decode.
#[derive(Clone, Copy, Debug, PartialEq, Eq, Structural)]
pub enum DecodeError {
    /// The buffer ends before a field it declares.
    TruncatedInput,
    /// Bytes where a string was expected are not valid UTF-8.
    InvalidEncoding,
    /// Reserved for record versions outside the handled branches; no
    /// version triggers it today.
    UnsupportedVariant,
}

/// The unsigned value of two big-endian bytes.
pub open spec fn be_u16(b0: u8, b1: u8) -> u16 {
    (b0 as u16) << 8 | (b1 as u16)
}

/// The unsigned value of four big-endian bytes.
pub open spec fn be_u32(b0: u8, b1: u8, b2: u8, b3: u8) -> u32 {
    (b0 as u32) << 24 | (b1 as u32) << 16 | (b2 as u32) << 8 | (b3 as u32)
}

/// The unsigned value of eight big-endian bytes.
pub open spec fn be_u64(b: Seq<u8>) -> u64
    recommends
        b.len() == 8,
{
    (b[0] as u64) << 56 | (b[1] as u64) << 48 | (b[2] as u64) << 40 | (b[3] as u64) << 32 | (
    b[4] as u64) << 24 | (b[5] as u64) << 16 | (b[6] as u64) << 8 | (b[7] as u64)
}

/// The signed reading of a 16-bit unsigned value (two's complement).
pub open spec fn as_signed_16(u: u16) -> i16 {
    if u < 0x8000 {
        u as i16
    } else {
        (u - 0x10000) as i16
    }
}

/// The signed reading of a 32-bit unsigned value (two's complement).
pub open spec fn as_signed_32(u: u32) -> i32 {
    if u < 0x8000_0000 {
        u as i32
    } else {
        (u - 0x1_0000_0000) as i32
    }
}

/// The signed reading of a 64-bit unsigned value (two's complement).
pub open spec fn as_signed_64(u: u64) -> i64 {
    if u < 0x8000_0000_0000_0000 {
        u as i64
    } else {
        (u - 0x1_0000_0000_0000_0000) as i64
    }
}

/// Reads a big-endian `i16` off the front of the buffer, returning the
/// value and the remaining bytes.
pub open spec fn spec_read_i16(b: Seq<u8>) -> Result<(i16, Seq<u8>), DecodeError> {
    if b.len() < 2 {
        Err(DecodeError::TruncatedInput)
    } else {
        Ok((as_signed_16(be_u16(b[0], b[1])), b.skip(2)))
    }
}

/// Reads a big-endian `i32` off the front of the buffer.
pub open spec fn spec_read_i32(b: Seq<u8>) -> Result<(i32, Seq<u8>), DecodeError> {
    if b.len() < 4 {
        Err(DecodeError::TruncatedInput)
    } else {
        Ok((as_signed_32(be_u32(b[0], b[1], b[2], b[3])), b.skip(4)))
    }
}

/// Reads a big-endian `i64` off the front of the buffer.
pub open spec fn spec_read_i64(b: Seq<u8>) -> Result<(i64, Seq<u8>), DecodeError> {
    if b.len() < 8 {
        Err(DecodeError::TruncatedInput)
    } else {
        Ok((as_signed_64(be_u64(b.take(8))), b.skip(8)))
    }
}

/// Reads a length-prefixed string off the front of the buffer. A
/// negative declared length always declares more bytes than remain
/// (its unsigned reading exceeds any buffer) and is rejected as
/// truncation; bytes that are not valid UTF-8 are an encoding error.
pub open spec fn spec_decode_string(b: Seq<u8>) -> Result<(Seq<char>, Seq<u8>), DecodeError> {
    match spec_read_i16(b) {
        Err(e) => Err(e),
        Ok((len, rest)) => {
            if len < 0 || rest.len() < len {
                Err(DecodeError::TruncatedInput)
            } else {
                let sb = rest.take(len as int);
                if valid_utf8(sb) {
                    Ok((decode_utf8(sb), rest.skip(len as int)))
                } else {
                    Err(DecodeError::InvalidEncoding)
                }
            }
        },
    }
}

/// Decodes a commit-log key: a version, a group string, and — for
/// versions up to 1 — a topic string and a partition id. A greater
/// version marks group-metadata bookkeeping and carries only the
/// group. Bytes past the parsed fields are ignored.
pub open spec fn spec_decode_commit_key(b: Seq<u8>) -> Result<CommitKeyView, DecodeError> {
    match spec_read_i16(b) {
        Err(e) => Err(e),
        Ok((version, r1)) => match spec_decode_string(r1) {
            Err(e) => Err(e),
            Ok((group, r2)) => {
                if version > 1 {
                    Ok(CommitKeyView::GroupMetadataKey { group })
                } else {
                    match spec_decode_string(r2) {
                        Err(e) => Err(e),
                        Ok((topic, r3)) => match spec_read_i32(r3) {
                            Err(e) => Err(e),
                            Ok((partition, _)) => Ok(
                                CommitKeyView::OffsetKey { group, topic, partition },
                            ),
                        },
                    }
                }
            },
        },
    }
}

/// Decodes a commit-log value: a version (discarded) and the committed
/// offset. Any further fields of the record are ignored.
pub open spec fn spec_decode_commit_value(b: Seq<u8>) -> Result<i64, DecodeError> {
    match spec_read_i16(b) {
        Err(e) => Err(e),
        Ok((_version, r1)) => match spec_read_i64(r1) {
            Err(e) => Err(e),
            Ok((offset, _)) => Ok(offset),
        },
    }
}

/// Reads `n` big-endian partition ids off the front of the buffer.
pub open spec fn spec_decode_partitions(b: Seq<u8>, n: int) -> Result<
    (Seq<i32>, Seq<u8>),
    DecodeError,
>
    decreases n,
{
    if n <= 0 {
        Ok((Seq::empty(), b))
    } else {
        match spec_read_i32(b) {
            Err(e) => Err(e),
            Ok((p, r)) => match spec_decode_partitions(r, n - 1) {
                Err(e) => Err(e),
                Ok((ps, r2)) => Ok((seq![p] + ps, r2)),
            },
        }
    }
}

/// Reads one topic assignment: a topic string, a partition count, and
/// that many partition ids. A negative count, like a negative string
/// length, declares what no buffer can hold and is rejected as
/// truncation.
pub open spec fn spec_decode_entry(b: Seq<u8>) -> Result<(AssignmentView, Seq<u8>), DecodeError> {
    match spec_decode_string(b) {
        Err(e) => Err(e),
        Ok((topic, r1)) => match spec_read_i32(r1) {
            Err(e) => Err(e),
            Ok((count, r2)) => {
                if count < 0 {
                    Err(DecodeError::TruncatedInput)
                } else {
                    match spec_decode_partitions(r2, count as int) {
                        Err(e) => Err(e),
                        Ok((ps, r3)) => Ok((AssignmentView { topic, partitions: ps }, r3)),
                    }
                }
            },
        },
    }
}

/// Reads `n` topic assignments off the front of the buffer.
pub open spec fn spec_decode_entries(b: Seq<u8>, n: int) -> Result<
    (Seq<AssignmentView>, Seq<u8>),
    DecodeError,
>
    decreases n,
{
    if n <= 0 {
        Ok((Seq::empty(), b))
    } else {
        match spec_decode_entry(b) {
            Err(e) => Err(e),
            Ok((a, r)) => match spec_decode_entries(r, n - 1) {
                Err(e) => Err(e),
                Ok((es, r2)) => Ok((seq![a] + es, r2)),
            },
        }
    }
}

/// Decodes a member-assignment payload: a version (discarded), an
/// entry count, and that many topic assignments. A negative entry
/// count is rejected as truncation; bytes past the parsed entries are
/// ignored.
pub open spec fn spec_decode_assignment(b: Seq<u8>) -> Result<Seq<AssignmentView>, DecodeError> {
    match spec_read_i16(b) {
        Err(e) => Err(e),
        Ok((_version, r1)) => match spec_read_i32(r1) {
            Err(e) => Err(e),
            Ok((count, r2)) => {
                if count < 0 {
                    Err(DecodeError::TruncatedInput)
                } else {
                    match spec_decode_entries(r2, count as int) {
                        Err(e) => Err(e),
                        Ok((es, _)) => Ok(es),
                    }
                }
            },
        },
    }
}

/// Relies on `String::from_utf8`: it succeeds exactly on bytes that
/// are valid UTF-8 and then returns the string those bytes encode.
#[verifier::external_body]
fn utf8_to_string(b: &[u8]) -> (r: Option<String>)
    ensures
        r is Some <==> valid_utf8(b@),
        r matches Some(s) ==> s@ == decode_utf8(b@),
{
    String::from_utf8(b.to_vec()).ok()
}

/// Reads two big-endian bytes at `pos` as a signed 16-bit integer.
fn read_i16(b: &[u8], pos: usize) -> (r: Result<(i16, usize), DecodeError>)
    requires
        pos <= b@.len(),
    ensures
        match r {
            Ok((v, np)) => {
                &&& spec_read_i16(b@.skip(pos as int)) matches Ok(p) && p.0 == v && p.1 == b@.skip(
                    np as int,
                )
                &&& np == pos + 2
            },
            Err(e) => spec_read_i16(b@.skip(pos as int)) matches Err(e2) && e2 == e,
        },
{
    if b.len() - pos < 2 {
        return Err(DecodeError::TruncatedInput);
    }
    let b0 = b[pos];
    let b1 = b[pos + 1];
    let u: u16 = (b0 as u16) << 8 | (b1 as u16);
    let v: i16 = if u < 0x8000 {
        u as i16
    } else {
        ((u as i32) - 0x10000) as i16
    };
    proof {
        let s = b@.skip(pos as int);
        assert(s[0] == b@[pos as int] && s[1] == b@[pos as int + 1]);
        assert(b@.skip(pos as int + 2) =~= s.skip(2));
    }
    Ok((v, pos + 2))
}

/// Reads four big-endian bytes at `pos` as a signed 32-bit integer.
fn read_i32(b: &[u8], pos: usize) -> (r: Result<(i32, usize), DecodeError>)
    requires
        pos <= b@.len(),
    ensures
        match r {
            Ok((v, np)) => {
                &&& spec_read_i32(b@.skip(pos as int)) matches Ok(p) && p.0 == v && p.1 == b@.skip(
                    np as int,
                )
                &&& np == pos + 4
            },
            Err(e) => spec_read_i32(b@.skip(pos as int)) matches Err(e2) && e2 == e,
        },
{
    if b.len() - pos < 4 {
        return Err(DecodeError::TruncatedInput);
    }
    let u: u32 = (b[pos] as u32) << 24 | (b[pos + 1] as u32) << 16 | (b[pos + 2] as u32) << 8 | (
    b[pos + 3] as u32);
    let v: i32 = if u < 0x8000_0000 {
        u as i32
    } else {
        ((u as i64) - 0x1_0000_0000) as i32
    };
    proof {
        let s = b@.skip(pos as int);
        assert(s[0] == b@[pos as int] && s[1] == b@[pos as int + 1] && s[2] == b@[pos as int + 2]
            && s[3] == b@[pos as int + 3]);
        assert(b@.skip(pos as int + 4) =~= s.skip(4));
    }
    Ok((v, pos + 4))
}

/// Reads eight big-endian bytes at `pos` as a signed 64-bit integer.
fn read_i64(b: &[u8], pos: usize) -> (r: Result<(i64, usize), DecodeError>)
    requires
        pos <= b@.len(),
    ensures
        match r {
            Ok((v, np)) => {
                &&& spec_read_i64(b@.skip(pos as int)) matches Ok(p) && p.0 == v && p.1 == b@.skip(
                    np as int,
                )
                &&& np == pos + 8
            },
            Err(e) => spec_read_i64(b@.skip(pos as int)) matches Err(e2) && e2 == e,
        },
{
    if b.len() - pos < 8 {
        return Err(DecodeError::TruncatedInput);
    }
    let u: u64 = (b[pos] as u64) << 56 | (b[pos + 1] as u64) << 48 | (b[pos + 2] as u64) << 40 | (
    b[pos + 3] as u64) << 32 | (b[pos + 4] as u64) << 24 | (b[pos + 5] as u64) << 16 | (b[pos
        + 6] as u64) << 8 | (b[pos + 7] as u64);
    let v: i64 = if u < 0x8000_0000_0000_0000 {
        u as i64
    } else {
        proof {
            assert(u - 0x1_0000_0000_0000_0000 >= i64::MIN);
        }
        ((u - 0x8000_0000_0000_0000) as i64) + i64::MIN
    };
    proof {
        let s = b@.skip(pos as int);
        let t = s.take(8);
        assert(forall|k: int| 0 <= k < 8 ==> t[k] == b@[pos as int + k]);
        assert(b@.skip(pos as int + 8) =~= s.skip(8));
        assert(v == as_signed_64(u));
    }
    Ok((v, pos + 8))
}

/// Reads a length-prefixed UTF-8 string at `pos`, returning it and the
/// position just past its bytes.
pub fn decode_string(b: &[u8], pos: usize) -> (r: Result<(String, usize), DecodeError>)
    requires
        pos <= b@.len(),
    ensures
        match r {
            Ok((out, np)) => {
                &&& spec_decode_string(b@.skip(pos as int)) matches Ok(p) && p.0 == out@ && p.1
                    == b@.skip(np as int)
                &&& pos <= np <= b@.len()
            },
            Err(e) => spec_decode_string(b@.skip(pos as int)) matches Err(e2) && e2 == e,
        },
{
    let (len, p2) = match read_i16(b, pos) {
        Ok(x) => x,
        Err(e) => { return Err(e) },
    };
    if len < 0 {
        return Err(DecodeError::TruncatedInput);
    }
    let len_u = len as usize;
    if b.len() - p2 < len_u {
        return Err(DecodeError::TruncatedInput);
    }
    let sb = vstd::slice::slice_subrange(b, p2, p2 + len_u);
    proof {
        let s = b@.skip(pos as int);
        let rest = s.skip(2);
        assert(sb@ =~= rest.take(len as int));
        assert(b@.skip(p2 + len_u as int) =~= rest.skip(len as int));
    }
    match utf8_to_string(sb) {
        Some(out) => Ok((out, p2 + len_u)),
        None => Err(DecodeError::InvalidEncoding),
    }
}

/// Decodes a commit-log key into its tagged form.
pub fn decode_commit_key(b: &[u8]) -> (r: Result<OffsetAndMetadata, DecodeError>)
    ensures
        match r {
            Ok(k) => spec_decode_commit_key(b@) matches Ok(kv) && kv == k@,
            Err(e) => spec_decode_commit_key(b@) matches Err(e2) && e2 == e,
        },
{
    proof {
        assert(b@.skip(0) =~= b@);
    }
    let (version, p1) = match read_i16(b, 0) {
        Ok(x) => x,
        Err(e) => { return Err(e) },
    };
    let (group, p2) = match decode_string(b, p1) {
        Ok(x) => x,
        Err(e) => { return Err(e) },
    };
    if version > 1 {
        return Ok(OffsetAndMetadata::GroupMetadataKey { group });
    }
    let (topic, p3) = match decode_string(b, p2) {
        Ok(x) => x,
        Err(e) => { return Err(e) },
    };
    let (partition, _p4) = match read_i32(b, p3) {
        Ok(x) => x,
        Err(e) => { return Err(e) },
    };
    Ok(OffsetAndMetadata::OffsetKey { group, topic, partition })
}

/// Decodes a commit-log value, keeping only the committed offset.
pub fn decode_commit_value(b: &[u8]) -> (r: Result<OffsetValue, DecodeError>)
    ensures
        match r {
            Ok(v) => spec_decode_commit_value(b@) matches Ok(o) && o == v.offset,
            Err(e) => spec_decode_commit_value(b@) matches Err(e2) && e2 == e,
        },
{
    proof {
        assert(b@.skip(0) =~= b@);
    }
    let (_version, p1) = match read_i16(b, 0) {
        Ok(x) => x,
        Err(e) => { return Err(e) },
    };
    let (offset, _p2) = match read_i64(b, p1) {
        Ok(x) => x,
        Err(e) => { return Err(e) },
    };
    Ok(OffsetValue { offset })
}

/// Reads `n` partition ids starting at `pos`.
fn read_partitions(b: &[u8], pos: usize, n: i32) -> (r: Result<(Vec<i32>, usize), DecodeError>)
    requires
        pos <= b@.len(),
    ensures
        match r {
            Ok((ps, np)) => {
                &&& pos <= np <= b@.len()
                &&& spec_decode_partitions(b@.skip(pos as int), n as int) matches Ok(p) && p.0
                    == ps@ && p.1 == b@.skip(np as int)
            },
            Err(e) => spec_decode_partitions(b@.skip(pos as int), n as int) matches Err(e2) && e2
                == e,
        },
{
    let iters: usize = if n <= 0 {
        0
    } else {
        n as usize
    };
    let mut acc: Vec<i32> = Vec::new();
    let mut i: usize = 0;
    let mut cur: usize = pos;
    while i < iters
        invariant
            pos <= cur <= b@.len(),
            i <= iters,
            iters == (if n <= 0 {
                0int
            } else {
                n as int
            }),
            match spec_decode_partitions(b@.skip(cur as int), n - i) {
                Ok((ps, rest)) => spec_decode_partitions(b@.skip(pos as int), n as int)
                    == Ok::<_, DecodeError>((acc@ + ps, rest)),
                Err(e) => spec_decode_partitions(b@.skip(pos as int), n as int) == Err::<
                    (Seq<i32>, Seq<u8>),
                    _,
                >(e),
            },
        decreases iters - i,
    {
        match read_i32(b, cur) {
            Ok((p, np)) => {
                proof {
                    let tail = spec_decode_partitions(b@.skip(np as int), n - i - 1);
                    match tail {
                        Ok((ps2, _rest2)) => {
                            assert(acc@ + (seq![p] + ps2) =~= acc@.push(p) + ps2);
                        },
                        Err(_) => {},
                    }
                }
                acc.push(p);
                cur = np;
            },
            Err(e) => {
                return Err(e);
            },
        }
        i += 1;
    }
    proof {
        assert(acc@ + Seq::<i32>::empty() =~= acc@);
    }
    Ok((acc, cur))
}

/// Decodes a member-assignment payload into its topic assignments.
pub fn decode_assignment(b: &[u8]) -> (r: Result<Vec<MemberAssignment>, DecodeError>)
    ensures
        match r {
            Ok(v) => spec_decode_assignment(b@) matches Ok(es) && es == v@.map_values(
                |m: MemberAssignment| m@,
            ),
            Err(e) => spec_decode_assignment(b@) matches Err(e2) && e2 == e,
        },
{
    proof {
        assert(b@.skip(0) =~= b@);
    }
    let (_version, p1) = match read_i16(b, 0) {
        Ok(x) => x,
        Err(e) => { return Err(e) },
    };
    let (count, p2) = match read_i32(b, p1) {
        Ok(x) => x,
        Err(e) => { return Err(e) },
    };
    if count < 0 {
        return Err(DecodeError::TruncatedInput);
    }
    let iters: usize = count as usize;
    let mut acc: Vec<MemberAssignment> = Vec::new();
    let mut i: usize = 0;
    let mut cur: usize = p2;
    while i < iters
        invariant
            cur <= b@.len(),
            i <= iters,
            count >= 0,
            iters == count as int,
            match spec_decode_entries(b@.skip(cur as int), count - i) {
                Ok((es, rest)) => spec_decode_entries(b@.skip(p2 as int), count as int)
                    == Ok::<_, DecodeError>((acc@.map_values(|m: MemberAssignment| m@) + es, rest)),
                Err(e) => spec_decode_entries(b@.skip(p2 as int), count as int) == Err::<
                    (Seq<AssignmentView>, Seq<u8>),
                    _,
                >(e),
            },
            match spec_decode_entries(b@.skip(p2 as int), count as int) {
                Ok((es, _)) => spec_decode_assignment(b@) == Ok::<Seq<AssignmentView>, DecodeError>(
                    es,
                ),
                Err(e) => spec_decode_assignment(b@) == Err::<Seq<AssignmentView>, DecodeError>(e),
            },
        decreases iters - i,
    {
        let (topic, t1) = match decode_string(b, cur) {
            Ok(x) => x,
            Err(e) => { return Err(e) },
        };
        let (pcount, t2) = match read_i32(b, t1) {
            Ok(x) => x,
            Err(e) => { return Err(e) },
        };
        if pcount < 0 {
            return Err(DecodeError::TruncatedInput);
        }
        let (partitions, t3) = match read_partitions(b, t2, pcount) {
            Ok(x) => x,
            Err(e) => { return Err(e) },
        };
        let entry = MemberAssignment { topic, partitions };
        proof {
            let entry_view = AssignmentView { topic: topic@, partitions: partitions@ };
            assert(spec_decode_entry(b@.skip(cur as int)) == Ok::<_, DecodeError>(
                (entry_view, b@.skip(t3 as int)),
            ));
            let tail = spec_decode_entries(b@.skip(t3 as int), count - i - 1);
            match tail {
                Ok((es2, _rest2)) => {
                    let f = |m: MemberAssignment| m@;
                    assert(acc@.push(entry).map_values(f) =~= acc@.map_values(f).push(entry_view));
                    assert(acc@.map_values(f) + (seq![entry_view] + es2) =~= acc@.push(
                        entry,
                    ).map_values(f) + es2);
                },
                Err(_) => {},
            }
        }
        acc.push(entry);
        cur = t3;
        i += 1;
    }
    proof {
        let f = |m: MemberAssignment| m@;
        assert(acc@.map_values(f) + Seq::<AssignmentView>::empty() =~= acc@.map_values(f));
    }
    Ok(acc)
}

/// The two's-complement 16-bit image of a signed value.
pub open spec fn as_unsigned_16(v: i16) -> u16 {
    if v >= 0 {
        v as u16
    } else {
        (v + 0x10000) as u16
    }
}

/// The two's-complement 32-bit image of a signed value.
pub open spec fn as_unsigned_32(v: i32) -> u32 {
    if v >= 0 {
        v as u32
    } else {
        (v + 0x1_0000_0000) as u32
    }
}

/// A signed 16-bit value as two big-endian bytes.
pub open spec fn spec_encode_i16(v: i16) -> Seq<u8> {
    let u = as_unsigned_16(v);
    seq![((u >> 8) & 0xff) as u8, (u & 0xff) as u8]
}

/// A signed 32-bit value as four big-endian bytes.
pub open spec fn spec_encode_i32(v: i32) -> Seq<u8> {
    let u = as_unsigned_32(v);
    seq![
        ((u >> 24) & 0xff) as u8,
        ((u >> 16) & 0xff) as u8,
        ((u >> 8) & 0xff) as u8,
        (u & 0xff) as u8,
    ]
}

/// A string as its length prefix and UTF-8 bytes. Meaningful when the
/// byte length fits the signed 16-bit prefix.
pub open spec fn spec_encode_string(s: Seq<char>) -> Seq<u8>
    recommends
        encode_utf8(s).len() <= 0x7FFF,
{
    spec_encode_i16(encode_utf8(s).len() as i16) + encode_utf8(s)
}

/// A sequence of partition ids, each as four big-endian bytes.
pub open spec fn spec_encode_partitions(ps: Seq<i32>) -> Seq<u8>
    decreases ps.len(),
{
    if ps.len() == 0 {
        Seq::empty()
    } else {
        spec_encode_i32(ps[0]) + spec_encode_partitions(ps.drop_first())
    }
}

/// One topic assignment: topic string, partition count, partition ids.
pub open spec fn spec_encode_entry(e: AssignmentView) -> Seq<u8> {
    spec_encode_string(e.topic) + spec_encode_i32(e.partitions.len() as i32)
        + spec_encode_partitions(e.partitions)
}

/// A sequence of topic assignments, one after the other.
pub open spec fn spec_encode_entries(es: Seq<AssignmentView>) -> Seq<u8>
    decreases es.len(),
{
    if es.len() == 0 {
        Seq::empty()
    } else {
        spec_encode_entry(es[0]) + spec_encode_entries(es.drop_first())
    }
}

/// A whole member-assignment payload: version, entry count, entries.
pub open spec fn spec_encode_assignment(version: i16, es: Seq<AssignmentView>) -> Seq<u8> {
    spec_encode_i16(version) + spec_encode_i32(es.len() as i32) + spec_encode_entries(es)
}

/// Whether one topic assignment fits the wire format's length fields.
pub open spec fn entry_encodable(e: AssignmentView) -> bool {
    encode_utf8(e.topic).len() <= 0x7FFF && e.partitions.len() <= 0x7FFF_FFFF
}

/// Whether a whole assignment sequence fits the wire format.
pub open spec fn assignment_encodable(es: Seq<AssignmentView>) -> bool {
    es.len() <= 0x7FFF_FFFF && forall|i: int| 0 <= i < es.len() ==> entry_encodable(es[i])
}

proof fn lemma_read_i16_encode(v: i16, rest: Seq<u8>)
    ensures
        spec_read_i16(spec_encode_i16(v) + rest) == Ok::<(i16, Seq<u8>), DecodeError>((v, rest)),
{
    let u = as_unsigned_16(v);
    let e = spec_encode_i16(v) + rest;
    let hi = (u >> 8) & 0xff;
    let lo = u & 0xff;
    assert(((u >> 8) & 0xff) < 256 && (u & 0xff) < 256) by (bit_vector);
    assert((((u >> 8) & 0xff) << 8 | (u & 0xff)) == u) by (bit_vector);
    assert(e[0] == hi as u8 && e[1] == lo as u8);
    assert(be_u16(e[0], e[1]) == u);
    assert(as_signed_16(u) == v);
    assert(e.skip(2) =~= rest);
}

proof fn lemma_read_i32_encode(v: i32, rest: Seq<u8>)
    ensures
        spec_read_i32(spec_encode_i32(v) + rest) == Ok::<(i32, Seq<u8>), DecodeError>((v, rest)),
{
    let u = as_unsigned_32(v);
    let e = spec_encode_i32(v) + rest;
    let b0 = (u >> 24) & 0xff;
    let b1 = (u >> 16) & 0xff;
    let b2 = (u >> 8) & 0xff;
    let b3 = u & 0xff;
    assert(((u >> 24) & 0xff) < 256 && ((u >> 16) & 0xff) < 256 && ((u >> 8) & 0xff) < 256 && (u
        & 0xff) < 256) by (bit_vector);
    assert((((u >> 24) & 0xff) << 24 | ((u >> 16) & 0xff) << 16 | ((u >> 8) & 0xff) << 8 | (u
        & 0xff)) == u) by (bit_vector);
    assert(e[0] == b0 as u8 && e[1] == b1 as u8 && e[2] == b2 as u8 && e[3] == b3 as u8);
    assert(be_u32(e[0], e[1], e[2], e[3]) == u);
    assert(as_signed_32(u) == v);
    assert(e.skip(4) =~= rest);
}

proof fn lemma_decode_string_encode(s: Seq<char>, rest: Seq<u8>)
    requires
        encode_utf8(s).len() <= 0x7FFF,
    ensures
        spec_decode_string(spec_encode_string(s) + rest) == Ok::<(Seq<char>, Seq<u8>), DecodeError>(
            (s, rest),
        ),
{
    broadcast use vstd::utf8::encode_utf8_valid_utf8, vstd::utf8::encode_utf8_decode_utf8;

    let bytes = encode_utf8(s);
    let len = bytes.len() as i16;
    assert(spec_encode_string(s) + rest =~= spec_encode_i16(len) + (bytes + rest));
    lemma_read_i16_encode(len, bytes + rest);
    assert((bytes + rest).take(len as int) =~= bytes);
    assert((bytes + rest).skip(len as int) =~= rest);
}

proof fn lemma_decode_partitions_encode(ps: Seq<i32>, rest: Seq<u8>)
    ensures
        spec_decode_partitions(spec_encode_partitions(ps) + rest, ps.len() as int) == Ok::<
            (Seq<i32>, Seq<u8>),
            DecodeError,
        >((ps, rest)),
    decreases ps.len(),
{
    if ps.len() == 0 {
        assert(spec_encode_partitions(ps) + rest =~= rest);
        assert(ps =~= Seq::<i32>::empty());
    } else {
        let tail_enc = spec_encode_partitions(ps.drop_first());
        assert(spec_encode_partitions(ps) + rest =~= spec_encode_i32(ps[0]) + (tail_enc + rest));
        lemma_read_i32_encode(ps[0], tail_enc + rest);
        lemma_decode_partitions_encode(ps.drop_first(), rest);
        assert(seq![ps[0]] + ps.drop_first() =~= ps);
    }
}

proof fn lemma_decode_entry_encode(e: AssignmentView, rest: Seq<u8>)
    requires
        entry_encodable(e),
    ensures
        spec_decode_entry(spec_encode_entry(e) + rest) == Ok::<
            (AssignmentView, Seq<u8>),
            DecodeError,
        >((e, rest)),
{
    let s_enc = spec_encode_string(e.topic);
    let c_enc = spec_encode_i32(e.partitions.len() as i32);
    let p_enc = spec_encode_partitions(e.partitions);
    assert(spec_encode_entry(e) + rest =~= s_enc + (c_enc + (p_enc + rest)));
    lemma_decode_string_encode(e.topic, c_enc + (p_enc + rest));
    lemma_read_i32_encode(e.partitions.len() as i32, p_enc + rest);
    lemma_decode_partitions_encode(e.partitions, rest);
    assert((e.partitions.len() as i32) as int == e.partitions.len() as int);
}

proof fn lemma_decode_entries_encode(es: Seq<AssignmentView>, rest: Seq<u8>)
    requires
        forall|i: int| 0 <= i < es.len() ==> entry_encodable(es[i]),
    ensures
        spec_decode_entries(spec_encode_entries(es) + rest, es.len() as int) == Ok::<
            (Seq<AssignmentView>, Seq<u8>),
            DecodeError,
        >((es, rest)),
    decreases es.len(),
{
    if es.len() == 0 {
        assert(spec_encode_entries(es) + rest =~= rest);
        assert(es =~= Seq::<AssignmentView>::empty());
    } else {
        let tail_enc = spec_encode_entries(es.drop_first());
        assert(spec_encode_entries(es) + rest =~= spec_encode_entry(es[0]) + (tail_enc + rest));
        lemma_decode_entry_encode(es[0], tail_enc + rest);
        assert(forall|i: int|
            0 <= i < es.drop_first().len() ==> entry_encodable(es.drop_first()[i]));
        lemma_decode_entries_encode(es.drop_first(), rest);
        assert(seq![es[0]] + es.drop_first() =~= es);
    }
}

/// Encoding a member-assignment payload and decoding it again yields
/// the assignments that were encoded, whatever the version word.
pub proof fn lemma_assignment_roundtrip(version: i16, es: Seq<AssignmentView>)
    requires
        assignment_encodable(es),
    ensures
        spec_decode_assignment(spec_encode_assignment(version, es)) == Ok::<
            Seq<AssignmentView>,
            DecodeError,
        >(es),
{
    let c_enc = spec_encode_i32(es.len() as i32);
    let e_enc = spec_encode_entries(es);
    assert(spec_encode_assignment(version, es) =~= spec_encode_i16(version) + (c_enc + e_enc));
    lemma_read_i16_encode(version, c_enc + e_enc);
    lemma_read_i32_encode(es.len() as i32, e_enc);
    assert(e_enc =~= e_enc + Seq::<u8>::empty());
    lemma_decode_entries_encode(es, Seq::empty());
    assert((es.len() as i32) as int == es.len() as int);
}

proof fn lemma_encode_partitions_snoc(ps: Seq<i32>, p: i32)
    ensures
        spec_encode_partitions(ps.push(p)) == spec_encode_partitions(ps) + spec_encode_i32(p),
    decreases ps.len(),
{
    let ps2 = ps.push(p);
    if ps.len() == 0 {
        assert(ps2.drop_first() =~= ps);
        assert(spec_encode_i32(p) + Seq::<u8>::empty() =~= Seq::<u8>::empty() + spec_encode_i32(
            p,
        ));
        assert(spec_encode_partitions(ps) =~= Seq::<u8>::empty());
        assert(spec_encode_partitions(ps.push(p)) =~= spec_encode_partitions(ps)
            + spec_encode_i32(p));
    } else {
        assert(ps2.drop_first() =~= ps.drop_first().push(p));
        lemma_encode_partitions_snoc(ps.drop_first(), p);
        assert(spec_encode_i32(ps2[0]) + (spec_encode_partitions(ps.drop_first())
            + spec_encode_i32(p)) =~= (spec_encode_i32(ps[0]) + spec_encode_partitions(
            ps.drop_first(),
        )) + spec_encode_i32(p));
        assert(spec_encode_partitions(ps.push(p)) =~= spec_encode_partitions(ps)
            + spec_encode_i32(p));
    }
}

proof fn lemma_encode_entries_snoc(es: Seq<AssignmentView>, e: AssignmentView)
    ensures
        spec_encode_entries(es.push(e)) == spec_encode_entries(es) + spec_encode_entry(e),
    decreases es.len(),
{
    let es2 = es.push(e);
    if es.len() == 0 {
        assert(es2.drop_first() =~= es);
        assert(spec_encode_entry(e) + Seq::<u8>::empty() =~= Seq::<u8>::empty()
            + spec_encode_entry(e));
        assert(spec_encode_entries(es) =~= Seq::<u8>::empty());
        assert(spec_encode_entries(es.push(e)) =~= spec_encode_entries(es) + spec_encode_entry(e));
    } else {
        assert(es2.drop_first() =~= es.drop_first().push(e));
        lemma_encode_entries_snoc(es.drop_first(), e);
        assert(spec_encode_entry(es2[0]) + (spec_encode_entries(es.drop_first())
            + spec_encode_entry(e)) =~= (spec_encode_entry(es[0]) + spec_encode_entries(
            es.drop_first(),
        )) + spec_encode_entry(e));
        assert(spec_encode_entries(es.push(e)) =~= spec_encode_entries(es) + spec_encode_entry(e));
    }
}

/// Appends a signed 16-bit value as two big-endian bytes.
fn push_i16(out: &mut Vec<u8>, v: i16)
    ensures
        final(out)@ == old(out)@ + spec_encode_i16(v),
{
    let u: u16 = if v >= 0 {
        v as u16
    } else {
        ((v as i32) + 0x10000) as u16
    };
    proof {
        assert(u == as_unsigned_16(v));
        assert(((u >> 8) & 0xff) < 256 && (u & 0xff) < 256) by (bit_vector);
        assert((u >> 8) < 256) by (bit_vector);
        assert(((u >> 8) & 0xff) == (u >> 8)) by (bit_vector);
    }
    let hi = (u >> 8) as u8;
    let lo = (u & 0xff) as u8;
    out.push(hi);
    out.push(lo);
    proof {
        assert(out@ =~= old(out)@ + spec_encode_i16(v));
    }
}

/// Appends a signed 32-bit value as four big-endian bytes.
fn push_i32(out: &mut Vec<u8>, v: i32)
    ensures
        final(out)@ == old(out)@ + spec_encode_i32(v),
{
    let u: u32 = if v >= 0 {
        v as u32
    } else {
        ((v as i64) + 0x1_0000_0000) as u32
    };
    proof {
        assert(u == as_unsigned_32(v));
        assert(((u >> 24) & 0xff) < 256 && ((u >> 16) & 0xff) < 256 && ((u >> 8) & 0xff) < 256 && (
        u & 0xff) < 256) by (bit_vector);
        assert((u >> 24) < 256) by (bit_vector);
        assert(((u >> 24) & 0xff) == (u >> 24) && ((u >> 16) & 0xff) == ((u >> 16) & 0xff) && ((u
            >> 8) & 0xff) == ((u >> 8) & 0xff)) by (bit_vector);
    }
    let b0 = (u >> 24) as u8;
    let b1 = ((u >> 16) & 0xff) as u8;
    let b2 = ((u >> 8) & 0xff) as u8;
    let b3 = (u & 0xff) as u8;
    out.push(b0);
    out.push(b1);
    out.push(b2);
    out.push(b3);
    proof {
        assert(out@ =~= old(out)@ + spec_encode_i32(v));
    }
}

/// Appends a string's length prefix and UTF-8 bytes; refuses a string
/// whose byte length does not fit the signed 16-bit prefix.
fn push_string(out: &mut Vec<u8>, s: &String) -> (ok: bool)
    ensures
        ok ==> final(out)@ == old(out)@ + spec_encode_string(s@) && encode_utf8(s@).len() <= 0x7FFF,
        !ok ==> final(out)@ == old(out)@ && encode_utf8(s@).len() > 0x7FFF,
{
    let mut bytes = s.as_str().as_bytes_vec();
    if bytes.len() > 0x7FFF {
        return false;
    }
    push_i16(out, bytes.len() as i16);
    out.append(&mut bytes);
    proof {
        assert(out@ =~= old(out)@ + spec_encode_string(s@));
    }
    true
}

/// Encodes topic assignments into a member-assignment payload under
/// the given version word. Returns `None` exactly when a topic name or
/// a count does not fit the wire format's length fields; decoding the
/// returned payload yields the given assignments again.
pub fn encode_assignment(version: i16, assignments: &Vec<MemberAssignment>) -> (r: Option<Vec<u8>>)
    ensures
        r is Some <==> assignment_encodable(assignments@.map_values(|m: MemberAssignment| m@)),
        r matches Some(out) ==> {
            &&& out@ == spec_encode_assignment(
                version,
                assignments@.map_values(|m: MemberAssignment| m@),
            )
            &&& spec_decode_assignment(out@) == Ok::<Seq<AssignmentView>, DecodeError>(
                assignments@.map_values(|m: MemberAssignment| m@),
            )
        },
{
    let ghost views = assignments@.map_values(|m: MemberAssignment| m@);
    let n = assignments.len();
    if n > 0x7FFF_FFFF {
        return None;
    }
    let mut out: Vec<u8> = Vec::new();
    push_i16(&mut out, version);
    push_i32(&mut out, n as i32);
    proof {
        assert(Seq::<u8>::empty() + spec_encode_i16(version) =~= spec_encode_i16(version));
        assert(out@ + spec_encode_entries(views.take(0)) =~= out@);
    }
    let mut i: usize = 0;
    while i < n
        invariant
            n == assignments@.len(),
            n <= 0x7FFF_FFFF,
            i <= n,
            views == assignments@.map_values(|m: MemberAssignment| m@),
            out@ == spec_encode_i16(version) + spec_encode_i32(n as i32) + spec_encode_entries(
                views.take(i as int),
            ),
            forall|k: int| 0 <= k < i ==> entry_encodable(views[k]),
        decreases n - i,
    {
        let entry = &assignments[i];
        let ghost entry_view = views[i as int];
        if !push_string(&mut out, &entry.topic) {
            proof {
                assert(!entry_encodable(views[i as int]));
                assert(!assignment_encodable(views));
            }
            return None;
        }
        let pn = entry.partitions.len();
        if pn > 0x7FFF_FFFF {
            proof {
                assert(!entry_encodable(views[i as int]));
                assert(!assignment_encodable(views));
            }
            return None;
        }
        push_i32(&mut out, pn as i32);
        let ghost parts_base = out@;
        let mut j: usize = 0;
        while j < pn
            invariant
                pn == assignments@[i as int].partitions@.len(),
                i < assignments@.len(),
                j <= pn,
                entry == &assignments@[i as int],
                out@ == parts_base + spec_encode_partitions(
                    assignments@[i as int].partitions@.take(j as int),
                ),
            decreases pn - j,
        {
            let p = entry.partitions[j];
            proof {
                let taken = assignments@[i as int].partitions@.take(j as int);
                lemma_encode_partitions_snoc(taken, p);
                assert(taken.push(p) =~= assignments@[i as int].partitions@.take(j + 1));
            }
            push_i32(&mut out, p);
            proof {
                assert(out@ =~= parts_base + spec_encode_partitions(
                    assignments@[i as int].partitions@.take(j + 1),
                ));
            }
            j += 1;
        }
        proof {
            let parts = assignments@[i as int].partitions@;
            assert(parts.take(pn as int) =~= parts);
            assert(entry_view.topic == assignments@[i as int].topic@ && entry_view.partitions
                == parts);
            lemma_encode_entries_snoc(views.take(i as int), entry_view);
            assert(views.take(i as int).push(entry_view) =~= views.take(i + 1));
            assert(out@ =~= spec_encode_i16(version) + spec_encode_i32(n as i32)
                + spec_encode_entries(views.take(i + 1)));
        }
        i += 1;
    }
    proof {
        assert(views.take(n as int) =~= views);
        assert(assignment_encodable(views));
        lemma_assignment_roundtrip(version, views);
    }
    Some(out)
}

/// A well-formed commit key on the wire, for versions up to 1:
/// version, group, topic, partition.
pub open spec fn spec_encode_commit_key(
    version: i16,
    group: Seq<char>,
    topic: Seq<char>,
    partition: i32,
) -> Seq<u8> {
    spec_encode_i16(version) + spec_encode_string(group) + spec_encode_string(topic)
        + spec_encode_i32(partition)
}

/// A well-formed group-metadata key on the wire: version and group.
pub open spec fn spec_encode_metadata_key(version: i16, group: Seq<char>) -> Seq<u8> {
    spec_encode_i16(version) + spec_encode_string(group)
}

/// Well-formed commit-key bytes with a version of at most 1 decode to
/// a partition commit whose fields are exactly the encoded group,
/// topic and partition, whatever bytes trail the parsed fields.
pub proof fn lemma_decode_commit_key_exact(
    version: i16,
    group: Seq<char>,
    topic: Seq<char>,
    partition: i32,
    tail: Seq<u8>,
)
    requires
        version <= 1,
        encode_utf8(group).len() <= 0x7FFF,
        encode_utf8(topic).len() <= 0x7FFF,
    ensures
        spec_decode_commit_key(spec_encode_commit_key(version, group, topic, partition) + tail)
            == Ok::<CommitKeyView, DecodeError>(
            CommitKeyView::OffsetKey { group, topic, partition },
        ),
{
    let g_enc = spec_encode_string(group);
    let t_enc = spec_encode_string(topic);
    let p_enc = spec_encode_i32(partition);
    assert(spec_encode_commit_key(version, group, topic, partition) + tail =~= spec_encode_i16(
        version,
    ) + (g_enc + (t_enc + (p_enc + tail))));
    lemma_read_i16_encode(version, g_enc + (t_enc + (p_enc + tail)));
    lemma_decode_string_encode(group, t_enc + (p_enc + tail));
    lemma_decode_string_encode(topic, p_enc + tail);
    lemma_read_i32_encode(partition, tail);
}

/// Well-formed key bytes with a version greater than 1 decode to a
/// group-metadata key carrying exactly the encoded group; whatever
/// follows the group — where topic and partition would stand — is
/// never read.
pub proof fn lemma_decode_metadata_key_exact(version: i16, group: Seq<char>, tail: Seq<u8>)
    requires
        version > 1,
        encode_utf8(group).len() <= 0x7FFF,
    ensures
        spec_decode_commit_key(spec_encode_metadata_key(version, group) + tail) == Ok::<
            CommitKeyView,
            DecodeError,
        >(CommitKeyView::GroupMetadataKey { group }),
{
    let g_enc = spec_encode_string(group);
    assert(spec_encode_metadata_key(version, group) + tail =~= spec_encode_i16(version) + (g_enc
        + tail));
    lemma_read_i16_encode(version, g_enc + tail);
    lemma_decode_string_encode(group, tail);
}

/// A buffer shorter than a commit key's fixed minimum — the version
/// word and the group's length prefix — fails as truncated.
pub proof fn lemma_commit_key_min_len(b: Seq<u8>)
    requires
        b.len() < 4,
    ensures
        spec_decode_commit_key(b) == Err::<CommitKeyView, DecodeError>(DecodeError::TruncatedInput),
{
}

/// A buffer shorter than a commit value's fixed minimum — the version
/// word and the offset — fails as truncated.
pub proof fn lemma_commit_value_min_len(b: Seq<u8>)
    requires
        b.len() < 10,
    ensures
        spec_decode_commit_value(b) == Err::<i64, DecodeError>(DecodeError::TruncatedInput),
{
}

/// A buffer shorter than an assignment payload's fixed minimum — the
/// version word and the entry count — fails as truncated.
pub proof fn lemma_assignment_min_len(b: Seq<u8>)
    requires
        b.len() < 6,
    ensures
        spec_decode_assignment(b) == Err::<Seq<AssignmentView>, DecodeError>(
            DecodeError::TruncatedInput,
        ),
{
}

/// A buffer shorter than a string's length prefix fails as truncated.
pub proof fn lemma_string_min_len(b: Seq<u8>)
    requires
        b.len() < 2,
    ensures
        spec_decode_string(b) == Err::<(Seq<char>, Seq<u8>), DecodeError>(
            DecodeError::TruncatedInput,
        ),
{
}

} // verus!
