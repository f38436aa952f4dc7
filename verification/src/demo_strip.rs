//! Cutting the console-command records out of a demo file.
//!
//! A demo is a fixed-size header followed by a stream of records, each a
//! type byte and a tick, then a body whose shape the type decides. Console
//! command records (type 4) often hold exec'd cheat configs, so they are
//! removed in place and everything else is kept byte for byte.
use vstd::prelude::*;

verus! {

/// Bytes of the demo header, which the record stream follows.
pub const HEADER_SIZE: usize = 1072;

/// Why a demo could not be walked.
#[derive(Debug, PartialEq, Eq, Clone, Copy)]
pub enum StripError {
    /// A length field lies past the end of the data.
    Truncated,
    /// A console command record ends past the end of the data.
    CommandPastEnd,
    /// A record of a type the format does not have.
    UnknownPacket(u8),
}

/// The little-endian `u32` stored at `at`.
pub open spec fn le_u32(s: Seq<u8>, at: int) -> int {
    s[at] + 256 * s[at + 1] + 65536 * s[at + 2] + 16777216 * s[at + 3]
}

/// Whether four bytes can be read at `at`.
pub open spec fn readable(s: Seq<u8>, at: int) -> bool {
    0 <= at && at + 4 <= s.len()
}

/// The index just past the type byte and tick of the record starting at `ind`
/// (a Stop record's tick is three bytes long, every other one four).
pub open spec fn after_tick(t: u8, ind: int) -> int {
    ind + 1 + if t == 7 {
        3int
    } else {
        4int
    }
}

/// How much of the record stream is left to walk from `ind`.
pub open spec fn remaining(len: int, ind: int) -> nat {
    if ind < len {
        (len - ind) as nat
    } else {
        0
    }
}

/// Walks the record stream of `data` from `ind`, with `count` console
/// commands already removed, and gives the data left once every remaining
/// console command record is cut out, with the total count.
pub open spec fn strip_from(data: Seq<u8>, ind: int, count: nat) -> Result<
    (Seq<u8>, nat),
    StripError,
>
    decreases remaining(data.len() as int, ind),
{
    if ind < 0 || ind >= data.len() {
        Ok((data, count))
    } else {
        let t = data[ind];
        let p = after_tick(t, ind);
        if t == 1 || t == 2 {
            if !readable(data, p + 84) {
                Err(StripError::Truncated)
            } else {
                strip_from(data, p + 84 + 4 + le_u32(data, p + 84), count)
            }
        } else if t == 3 || t == 7 {
            strip_from(data, p, count)
        } else if t == 4 {
            if !readable(data, p) {
                Err(StripError::Truncated)
            } else if ind + 9 + le_u32(data, p) > data.len() {
                Err(StripError::CommandPastEnd)
            } else {
                strip_from(
                    data.subrange(0, ind) + data.subrange(ind + 9 + le_u32(data, p), data.len() as int),
                    ind,
                    count + 1,
                )
            }
        } else if t == 5 {
            if !readable(data, p + 4) {
                Err(StripError::Truncated)
            } else {
                strip_from(data, p + 4 + 4 + le_u32(data, p + 4), count)
            }
        } else if t == 6 || t == 8 {
            if !readable(data, p) {
                Err(StripError::Truncated)
            } else {
                strip_from(data, p + 4 + le_u32(data, p), count)
            }
        } else {
            Err(StripError::UnknownPacket(t))
        }
    }
}

/// The result of stripping a whole demo.
pub open spec fn strip_spec(data: Seq<u8>) -> Result<(Seq<u8>, nat), StripError> {
    strip_from(data, HEADER_SIZE as int, 0)
}

/// Stripping never lengthens a demo, and leaves it byte for byte unchanged
/// exactly when it removes no console command.
pub proof fn lemma_strip_from_shrinks(data: Seq<u8>, ind: int, count: nat)
    requires
        strip_from(data, ind, count) is Ok,
    ensures
        ({
            let (s, n) = strip_from(data, ind, count)->Ok_0;
            &&& s.len() <= data.len()
            &&& n >= count
            &&& (n == count <==> s == data)
        }),
    decreases remaining(data.len() as int, ind),
{
    if ind < 0 || ind >= data.len() {
    } else {
        let t = data[ind];
        let p = after_tick(t, ind);
        if t == 1 || t == 2 {
            lemma_strip_from_shrinks(data, p + 84 + 4 + le_u32(data, p + 84), count);
        } else if t == 3 || t == 7 {
            lemma_strip_from_shrinks(data, p, count);
        } else if t == 4 {
            let d2 = data.subrange(0, ind) + data.subrange(ind + 9 + le_u32(data, p), data.len() as int);
            lemma_strip_from_shrinks(d2, ind, count + 1);
        } else if t == 5 {
            lemma_strip_from_shrinks(data, p + 4 + 4 + le_u32(data, p + 4), count);
        } else if t == 6 || t == 8 {
            lemma_strip_from_shrinks(data, p + 4 + le_u32(data, p), count);
        }
    }
}

/// Stripping a whole demo never lengthens it, and the count of removed
/// console commands is zero exactly when the data comes back unchanged.
pub proof fn lemma_strip_shrinks(data: Seq<u8>)
    requires
        strip_spec(data) is Ok,
    ensures
        strip_spec(data)->Ok_0.0.len() <= data.len(),
        strip_spec(data)->Ok_0.1 == 0 <==> strip_spec(data)->Ok_0.0 == data,
{
    lemma_strip_from_shrinks(data, HEADER_SIZE as int, 0);
}

/// Where the walk goes next from a record at `ind` that is not a console
/// command and passes its checks.
pub open spec fn next_index(data: Seq<u8>, ind: int) -> int {
    let t = data[ind];
    let p = after_tick(t, ind);
    if t == 1 || t == 2 {
        p + 84 + 4 + le_u32(data, p + 84)
    } else if t == 5 {
        p + 4 + 4 + le_u32(data, p + 4)
    } else if t == 6 || t == 8 {
        p + 4 + le_u32(data, p)
    } else {
        p
    }
}

/// Stripping leaves everything before the walk's position as it was.
proof fn lemma_strip_from_prefix(data: Seq<u8>, ind: int, count: nat)
    requires
        0 <= ind,
        strip_from(data, ind, count) is Ok,
    ensures
        ({
            let s = strip_from(data, ind, count)->Ok_0.0;
            let k = if ind < data.len() {
                ind
            } else {
                data.len() as int
            };
            &&& s.len() >= k
            &&& forall|i: int| 0 <= i < k ==> s[i] == data[i]
        }),
    decreases remaining(data.len() as int, ind),
{
    if ind >= data.len() {
    } else {
        let t = data[ind];
        let p = after_tick(t, ind);
        if t == 4 {
            let d2 = data.subrange(0, ind) + data.subrange(ind + 9 + le_u32(data, p), data.len() as int);
            lemma_strip_from_prefix(d2, ind, count + 1);
        } else if t == 1 || t == 2 || t == 3 || t == 7 || t == 5 || t == 6 || t == 8 {
            lemma_strip_from_prefix(data, next_index(data, ind), count);
        }
    }
}

/// What a walk leaves holds no console command record: walking it again
/// from the same place removes nothing and succeeds.
pub proof fn lemma_strip_from_again(data: Seq<u8>, ind: int, count: nat, again: nat)
    requires
        0 <= ind,
        strip_from(data, ind, count) is Ok,
    ensures
        strip_from(strip_from(data, ind, count)->Ok_0.0, ind, again) == Ok::<(Seq<u8>, nat), StripError>(
            (strip_from(data, ind, count)->Ok_0.0, again),
        ),
    decreases remaining(data.len() as int, ind),
{
    let s = strip_from(data, ind, count)->Ok_0.0;
    if ind >= data.len() {
    } else {
        let t = data[ind];
        let p = after_tick(t, ind);
        if t == 4 {
            let d2 = data.subrange(0, ind) + data.subrange(ind + 9 + le_u32(data, p), data.len() as int);
            lemma_strip_from_again(d2, ind, count + 1, again);
        } else {
            let q = next_index(data, ind);
            lemma_strip_from_again(data, q, count, again);
            if q >= data.len() {
                assert(s == data);
            } else {
                lemma_strip_from_prefix(data, q, count);
                assert(s[ind] == data[ind]);
                if t == 1 || t == 2 {
                    assert(s[p + 84] == data[p + 84] && s[p + 85] == data[p + 85] && s[p + 86] == data[p + 86]
                        && s[p + 87] == data[p + 87]);
                } else if t == 5 {
                    assert(s[p + 4] == data[p + 4] && s[p + 5] == data[p + 5] && s[p + 6] == data[p + 6]
                        && s[p + 7] == data[p + 7]);
                } else if t == 6 || t == 8 {
                    assert(s[p] == data[p] && s[p + 1] == data[p + 1] && s[p + 2] == data[p + 2] && s[p + 3]
                        == data[p + 3]);
                }
            }
        }
    }
}

/// Stripping a stripped demo changes nothing and removes nothing.
pub proof fn lemma_strip_idempotent(data: Seq<u8>)
    requires
        strip_spec(data) is Ok,
    ensures
        strip_spec(strip_spec(data)->Ok_0.0) == Ok::<(Seq<u8>, nat), StripError>(
            (strip_spec(data)->Ok_0.0, 0),
        ),
{
    lemma_strip_from_again(data, HEADER_SIZE as int, 0, 0);
}

/// A demo no longer than its header has no record to walk: it comes back
/// unchanged, with nothing removed.
pub proof fn lemma_strip_header_only(data: Seq<u8>)
    requires
        data.len() <= HEADER_SIZE,
    ensures
        strip_spec(data) == Ok::<(Seq<u8>, nat), StripError>((data, 0)),
{
}

/// The bytes between a record's type byte and its length field: the tick
/// (three bytes for Stop, four otherwise), then, for Signon and Packet
/// records, an 84-byte command-info block, and for UserCmd records a
/// four-byte sequence number.
pub open spec fn record_head_len(kind: u8) -> int {
    if kind == 1 || kind == 2 {
        88
    } else if kind == 5 {
        8
    } else if kind == 7 {
        3
    } else {
        4
    }
}

/// Whether records of this kind end with a length-prefixed payload: every
/// kind but SyncTick (3) and Stop (7).
pub open spec fn record_has_payload(kind: u8) -> bool {
    kind != 3 && kind != 7
}

/// The record types a demo has: Signon (1), Packet (2), SyncTick (3),
/// ConsoleCmd (4), UserCmd (5), DataTables (6), Stop (7), StringTables (8).
pub open spec fn record_kind_known(kind: u8) -> bool {
    1 <= kind <= 8
}

/// Whether `head`, `len_field` and `payload` make a record of `kind`: the
/// head has its kind's length, and where the kind has a payload, the
/// four-byte length field gives the payload's length.
pub open spec fn record_parts_fit(kind: u8, head: Seq<u8>, len_field: Seq<u8>, payload: Seq<u8>) -> bool {
    &&& record_kind_known(kind)
    &&& head.len() == record_head_len(kind)
    &&& record_has_payload(kind) ==> len_field.len() == 4 && le_u32(len_field, 0) == payload.len()
}

/// A record's bytes: its type byte, its head, and, where its kind has one,
/// its length field and payload.
pub open spec fn record_bytes(kind: u8, head: Seq<u8>, len_field: Seq<u8>, payload: Seq<u8>) -> Seq<u8> {
    if record_has_payload(kind) {
        seq![kind] + head + len_field + payload
    } else {
        seq![kind] + head
    }
}

/// Walking from `count` rather than 0 adds `count` to the total and
/// changes nothing else.
proof fn lemma_strip_from_count(data: Seq<u8>, ind: int, count: nat)
    ensures
        match strip_from(data, ind, 0) {
            Ok((s, n)) => strip_from(data, ind, count) == Ok::<(Seq<u8>, nat), StripError>((s, n + count)),
            Err(e) => strip_from(data, ind, count) == Err::<(Seq<u8>, nat), StripError>(e),
        },
    decreases remaining(data.len() as int, ind),
{
    if 0 <= ind < data.len() {
        let t = data[ind];
        let p = after_tick(t, ind);
        if t == 4 {
            if readable(data, p) && ind + 9 + le_u32(data, p) <= data.len() {
                let d2 = data.subrange(0, ind) + data.subrange(ind + 9 + le_u32(data, p), data.len() as int);
                lemma_strip_from_count(d2, ind, count + 1);
                lemma_strip_from_count(d2, ind, 1);
            }
        } else if t == 1 || t == 2 || t == 3 || t == 7 || t == 5 || t == 6 || t == 8 {
            lemma_strip_from_count(data, next_index(data, ind), count);
        }
    }
}

/// The walk over `pre + rest` from the end of `pre` is the walk over `rest`
/// from its start, with `pre` kept in front.
proof fn lemma_strip_from_shift(pre: Seq<u8>, rest: Seq<u8>, k: int, count: nat)
    requires
        0 <= k,
    ensures
        match strip_from(rest, k, count) {
            Ok((s, n)) => strip_from(pre + rest, pre.len() + k, count) == Ok::<(Seq<u8>, nat), StripError>(
                (pre + s, n),
            ),
            Err(e) => strip_from(pre + rest, pre.len() + k, count) == Err::<(Seq<u8>, nat), StripError>(e),
        },
    decreases remaining(rest.len() as int, k),
{
    let whole = pre + rest;
    let q = pre.len() + k;
    if k < rest.len() {
        let t = rest[k];
        assert(whole[q] == t);
        let p = after_tick(t, k);
        assert(after_tick(t, q) == pre.len() + p);
        assert forall|x: int| 0 <= x && x + 4 <= rest.len() implies le_u32(whole, pre.len() + x) == le_u32(rest, x)
            && readable(whole, pre.len() + x) by {
            assert(whole[pre.len() + x] == rest[x]);
            assert(whole[pre.len() + x + 1] == rest[x + 1]);
            assert(whole[pre.len() + x + 2] == rest[x + 2]);
            assert(whole[pre.len() + x + 3] == rest[x + 3]);
        }
        if t == 4 {
            if readable(rest, p) && k + 9 + le_u32(rest, p) <= rest.len() {
                let r2 = rest.subrange(0, k) + rest.subrange(k + 9 + le_u32(rest, p), rest.len() as int);
                lemma_strip_from_shift(pre, r2, k, count + 1);
                assert(whole.subrange(0, q) + whole.subrange(q + 9 + le_u32(rest, p), whole.len() as int) == pre
                    + r2);
            }
        } else if t == 1 || t == 2 || t == 3 || t == 7 || t == 5 || t == 6 || t == 8 {
            let nk = next_index(rest, k);
            let rp = if t == 1 || t == 2 {
                p + 84
            } else if t == 5 {
                p + 4
            } else {
                p
            };
            if t == 3 || t == 7 || readable(rest, rp) {
                lemma_strip_from_shift(pre, rest, nk, count);
                assert(next_index(whole, q) == pre.len() + nk);
            }
        }
    } else {
        assert(q >= whole.len());
    }
}

/// What a record does to the stripped demo, for every record layout: a
/// console command record (type 4) is cut out whole and counted; any other
/// record is skipped whole, by its kind's head and its length-prefixed
/// payload, and kept byte for byte. So stripping a demo made of a header,
/// a record and the rest is stripping the header and the rest, with the
/// record added back or counted.
pub proof fn lemma_strip_record(header: Seq<u8>, kind: u8, head: Seq<u8>, len_field: Seq<u8>, payload: Seq<u8>, rest: Seq<u8>)
    requires
        header.len() == HEADER_SIZE,
        record_parts_fit(kind, head, len_field, payload),
    ensures
        ({
            let rec = record_bytes(kind, head, len_field, payload);
            match strip_spec(header + rest) {
                Ok((s, n)) => strip_spec(header + rec + rest) == Ok::<(Seq<u8>, nat), StripError>(
                    if kind == 4 {
                        (s, n + 1)
                    } else {
                        (header + rec + s.subrange(HEADER_SIZE as int, s.len() as int), n)
                    },
                ),
                Err(e) => strip_spec(header + rec + rest) == Err::<(Seq<u8>, nat), StripError>(e),
            }
        }),
{
    let rec = record_bytes(kind, head, len_field, payload);
    let x = rec + rest;
    assert(header + rec + rest == header + x);
    lemma_strip_from_shift(header, x, 0, 0);
    lemma_strip_from_shift(header, rest, 0, 0);
    lemma_strip_from_shift(rec, rest, 0, 0);
    assert(x[0] == kind);
    let p = after_tick(kind, 0);
    if record_has_payload(kind) {
        assert forall|j: int| 0 <= j < 4 implies x[1 + head.len() + j] == len_field[j] by {
            assert(x[1 + head.len() + j] == rec[1 + head.len() + j]);
        }
        assert(le_u32(x, 1 + head.len() as int) == payload.len());
    }
    if kind == 4 {
        let q = after_tick(kind, 0);
        assert(q == 5);
        assert(x.subrange(0, 0) + x.subrange(9 + payload.len() as int, x.len() as int) == rest);
        lemma_strip_from_count(rest, 0, 1);
    } else {
        assert(next_index(x, 0) == rec.len());
        match strip_spec(header + rest) {
            Ok((s, n)) => {
                assert((header + (rec + strip_from(rest, 0, 0)->Ok_0.0)) == header + rec + s.subrange(
                    HEADER_SIZE as int,
                    s.len() as int,
                ));
            },
            Err(e) => {},
        }
    }
}

/// Reads the little-endian `u32` at `at`, or fails when the four bytes are
/// not all there.
pub fn read_u32_le(data: &[u8], at: usize) -> (r: Result<u32, StripError>)
    requires
        at + 4 <= usize::MAX,
    ensures
        readable(data@, at as int) ==> r == Ok::<u32, StripError>(le_u32(data@, at as int) as u32),
        !readable(data@, at as int) ==> r == Err::<u32, StripError>(StripError::Truncated),
        r is Ok ==> r->Ok_0 as int == le_u32(data@, at as int),
{
    if at + 4 > data.len() {
        return Err(StripError::Truncated);
    }
    let v: u32 = data[at] as u32 + 256 * (data[at + 1] as u32) + 65536 * (data[at + 2] as u32)
        + 16777216 * (data[at + 3] as u32);
    Ok(v)
}

/// An owned copy of `data`.
pub fn copy_bytes(data: &[u8]) -> (v: Vec<u8>)
    ensures
        v@ == data@,
{
    let mut v: Vec<u8> = Vec::with_capacity(data.len());
    let mut i: usize = 0;
    while i < data.len()
        invariant
            i <= data.len(),
            v@ == data@.subrange(0, i as int),
        decreases data.len() - i,
    {
        v.push(data[i]);
        i += 1;
    }
    v
}

/// Removes `data[start..end]`.
fn cut(data: &mut Vec<u8>, start: usize, end: usize)
    requires
        start <= end <= old(data).len(),
    ensures
        final(data)@ == old(data)@.subrange(0, start as int) + old(data)@.subrange(
            end as int,
            old(data)@.len() as int,
        ),
{
    let mut tail = data.split_off(end);
    data.truncate(start);
    data.append(&mut tail);
}

/// Reads the little-endian `u32` at `at`, where `at` may lie anywhere past
/// the end of the data.
fn read_at(data: &[u8], at: u128) -> (r: Result<u32, StripError>)
    requires
        at + 4 <= u128::MAX,
    ensures
        readable(data@, at as int) ==> r == Ok::<u32, StripError>(le_u32(data@, at as int) as u32),
        !readable(data@, at as int) ==> r == Err::<u32, StripError>(StripError::Truncated),
        r is Ok ==> r->Ok_0 as int == le_u32(data@, at as int),
{
    if at + 4 > data.len() as u128 {
        return Err(StripError::Truncated);
    }
    read_u32_le(data, at as usize)
}

/// Cuts every console command record out of a demo, and gives the data that
/// is left with the number of records removed.
pub fn strip_console_commands(data: &[u8]) -> (r: Result<(Vec<u8>, usize), StripError>)
    ensures
        match strip_spec(data@) {
            Ok((s, n)) => r matches Ok((v, m)) && v@ == s && m == n,
            Err(e) => r == Err::<(Vec<u8>, usize), StripError>(e),
        },
{
    let mut buf = copy_bytes(data);
    let ghost whole = buf@;
    assert(whole.len() == buf.len());
    let mut ind: u128 = HEADER_SIZE as u128;
    let mut stripped: usize = 0;
    while ind < buf.len() as u128
        invariant
            buf.len() <= whole.len(),
            whole == data@,
            whole.len() <= usize::MAX,
            ind <= buf.len() + 0x1_0000_0100,
            stripped <= whole.len() - buf.len(),
            strip_from(buf@, ind as int, stripped as nat) == strip_spec(whole),
        decreases remaining(buf.len() as int, ind as int),
    {
        let packet_type = buf[ind as usize];
        let ghost start = ind;
        ind += 1;
        ind += if packet_type == 7 {
            3
        } else {
            4
        };
        assert(ind as int == after_tick(packet_type, start as int));
        match packet_type {
            1 | 2 => {
                ind += 84;
                let length = match read_at(&buf, ind) {
                    Ok(v) => v as u128,
                    Err(e) => return Err(e),
                };
                ind += 4 + length;
            },
            3 | 7 => {},
            4 => {
                let length = match read_at(&buf, ind) {
                    Ok(v) => v as u128,
                    Err(e) => return Err(e),
                };
                ind -= 1 + 4;
                let room = buf.len() as u128 - ind;
                if room < 9 || room - 9 < length {
                    return Err(StripError::CommandPastEnd);
                }
                let end = ind + 1 + 4 + 4 + length;
                cut(&mut buf, ind as usize, end as usize);
                stripped += 1;
            },
            5 => {
                ind += 4;
                let length = match read_at(&buf, ind) {
                    Ok(v) => v as u128,
                    Err(e) => return Err(e),
                };
                ind += 4 + length;
            },
            6 | 8 => {
                let length = match read_at(&buf, ind) {
                    Ok(v) => v as u128,
                    Err(e) => return Err(e),
                };
                ind += 4 + length;
            },
            other => {
                return Err(StripError::UnknownPacket(other));
            },
        }
    }
    Ok((buf, stripped))
}

} // verus!
