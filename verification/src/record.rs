use crate::errors::DbError;
use crate::types::{Record, SpecValue, Value};
use vstd::prelude::*;

verus! {

/// Length in bytes of the variable-length integer starting at `i` in `b`,
/// counted from the `k`-th byte of the encoding: up to eight bytes carry a
/// continuation bit; a ninth byte, if reached, always ends the encoding.
/// `None` when the bytes run out first.
pub open spec fn spec_varint_len(b: Seq<u8>, i: int, k: int) -> Option<int>
    decreases 9 - k,
{
    if k >= 8 {
        if 0 <= i && i + 8 < b.len() {
            Some(9)
        } else {
            None
        }
    } else if !(0 <= i && i + k < b.len()) {
        None
    } else if b[i + k] < 0x80 {
        Some(k + 1)
    } else {
        spec_varint_len(b, i, k + 1)
    }
}

/// Value of the `len`-byte variable-length integer at `i`: each of the
/// first eight bytes contributes its low seven bits, most significant
/// first; a ninth byte contributes all eight of its bits.
pub open spec fn spec_varint_value(b: Seq<u8>, i: int, len: int) -> u64
    decreases len,
{
    if len <= 0 {
        0u64
    } else if len == 9 {
        (spec_varint_value(b, i, 8) << 8) | (b[i + 8] as u64)
    } else {
        (spec_varint_value(b, i, len - 1) << 7) | ((b[i + len - 1] & 0x7f) as u64)
    }
}

/// A variable-length integer is one to nine bytes long and lies entirely
/// within `b`.
pub proof fn lemma_varint_len_some(b: Seq<u8>, i: int, k: int)
    requires
        0 <= k <= 8,
        spec_varint_len(b, i, k) is Some,
    ensures
        k + 1 <= spec_varint_len(b, i, k)->Some_0 <= 9,
        0 <= i && i + spec_varint_len(b, i, k)->Some_0 <= b.len(),
    decreases 9 - k,
{
    if k >= 8 {
    } else if 0 <= i && i + k < b.len() && b[i + k] >= 0x80 {
        lemma_varint_len_some(b, i, k + 1);
    }
}

/// Parse the variable-length integer at `pos`, reading no byte at or past
/// `end`. Returns the decoded value and the number of bytes consumed.
pub fn parse_varint(b: &Vec<u8>, pos: usize, end: usize) -> (r: Option<(u64, usize)>)
    requires
        end <= b@.len(),
    ensures
        r matches Some(p) ==> {
            &&& spec_varint_len(b@, pos as int, 0) == Some(p.1 as int)
            &&& p.0 == spec_varint_value(b@, pos as int, p.1 as int)
            &&& 1 <= p.1 <= 9
            &&& pos + p.1 <= end
        },
        r is None ==> (spec_varint_len(b@, pos as int, 0) is None
            || pos + spec_varint_len(b@, pos as int, 0)->Some_0 > end),
{
    let mut acc: u64 = 0;
    let mut k: usize = 0;
    while k < 8
        invariant
            end <= b@.len(),
            k <= 8,
            acc == spec_varint_value(b@, pos as int, k as int),
            spec_varint_len(b@, pos as int, 0) == spec_varint_len(b@, pos as int, k as int),
            forall|j: int| 0 <= j < k ==> pos + j < end && #[trigger] b@[pos + j] >= 0x80,
        decreases 8 - k,
    {
        if pos >= end || end - pos <= k {
            proof {
                if spec_varint_len(b@, pos as int, k as int) is Some {
                    lemma_varint_len_some(b@, pos as int, k as int);
                }
            }
            return None;
        }
        let byte = b[pos + k];
        acc = (acc << 7) | ((byte & 0x7f) as u64);
        if byte < 0x80 {
            proof {
                assert(spec_varint_len(b@, pos as int, k as int) == Some(k + 1));
                assert(acc == spec_varint_value(b@, pos as int, k + 1));
            }
            return Some((acc, k + 1));
        }
        k = k + 1;
    }
    // ninth byte: ends the encoding unconditionally
    if pos >= end || end - pos <= 8 {
        proof {
            if spec_varint_len(b@, pos as int, 8) is Some {
                lemma_varint_len_some(b@, pos as int, 8);
            }
        }
        return None;
    }
    let byte = b[pos + 8];
    acc = (acc << 8) | (byte as u64);
    proof {
        assert(spec_varint_len(b@, pos as int, 8) == Some(9int));
    }
    Some((acc, 9))
}

/// Size in bytes of the body of a column with the given serial type, or -1
/// for the types this core does not interpret: floating point (7) and the
/// reserved codes 10 and 11.
pub open spec fn spec_serial_size(t: u64) -> int {
    if t == 0 || t == 8 || t == 9 {
        0
    } else if t == 1 {
        1
    } else if t == 2 {
        2
    } else if t == 3 {
        3
    } else if t == 4 {
        4
    } else if t == 5 {
        6
    } else if t == 6 {
        8
    } else if t >= 12 {
        ((t - 12) / 2) as int
    } else {
        -1
    }
}

/// Body size of a serial type; `None` for the uninterpreted types.
pub fn serial_size(t: u64) -> (r: Option<u64>)
    ensures
        r matches Some(n) ==> n == spec_serial_size(t),
        r is None <==> spec_serial_size(t) < 0,
{
    if t == 0 || t == 8 || t == 9 {
        Some(0)
    } else if t == 1 {
        Some(1)
    } else if t == 2 {
        Some(2)
    } else if t == 3 {
        Some(3)
    } else if t == 4 {
        Some(4)
    } else if t == 5 {
        Some(6)
    } else if t == 6 {
        Some(8)
    } else if t >= 12 {
        Some((t - 12) / 2)
    } else {
        None
    }
}

/// The unsigned big-endian integer held by the `n` bytes at `i`.
pub open spec fn spec_be_uint(b: Seq<u8>, i: int, n: int) -> u64
    decreases n,
{
    if n <= 0 {
        0u64
    } else {
        (spec_be_uint(b, i, n - 1) << 8) | (b[i + n - 1] as u64)
    }
}

/// The two's-complement signed integer held by the `n` bytes at `i`,
/// big-endian, sign-extended to 64 bits.
pub open spec fn spec_be_int(b: Seq<u8>, i: int, n: int) -> i64 {
    let raw = spec_be_uint(b, i, n);
    if n < 8 && (raw >> ((8 * n - 1) as u64)) & 1 == 1 {
        (raw | (u64::MAX << ((8 * n) as u64))) as i64
    } else {
        raw as i64
    }
}

pub fn decode_be_int(b: &Vec<u8>, i: usize, n: usize) -> (r: i64)
    requires
        1 <= n <= 8,
        i + n <= b@.len(),
    ensures
        r == spec_be_int(b@, i as int, n as int),
{
    let blen: usize = b.len();
    let mut raw: u64 = 0;
    let mut k: usize = 0;
    while k < n
        invariant
            1 <= n <= 8,
            i + n <= b@.len(),
            b@.len() == blen,
            k <= n,
            raw == spec_be_uint(b@, i as int, k as int),
        decreases n - k,
    {
        raw = (raw << 8) | (b[i + k] as u64);
        k = k + 1;
    }
    if n < 8 && (raw >> ((8 * n - 1) as u64)) & 1 == 1 {
        raw = raw | (u64::MAX << ((8 * n) as u64));
    }
    #[verifier::truncate] (raw as i64)
}

/// What it means for a column value to be decoded from serial type `t`
/// with its body at `b[i..]`: `Null` for type 0; integers from the fixed-
/// width two's-complement bodies or the constant types 8 and 9; text and
/// blob bodies of `(t-13)/2` resp. `(t-12)/2` bytes, text carried as the
/// UTF-8 encoding of the value's characters.
pub open spec fn spec_value_fits(v: SpecValue, t: u64, b: Seq<u8>, i: int) -> bool {
    match v {
        SpecValue::Null => t == 0,
        SpecValue::Integer(x) => {
            if t == 8 {
                x == 0
            } else if t == 9 {
                x == 1
            } else if 1 <= t <= 6 {
                x == spec_be_int(b, i, spec_serial_size(t)) as int
            } else {
                false
            }
        },
        SpecValue::Text(cs) => t >= 13 && t % 2 == 1 && vstd::utf8::encode_utf8(cs)
            == b.subrange(i, i + spec_serial_size(t)),
        SpecValue::Blob(bs) => t >= 12 && t % 2 == 0 && bs == b.subrange(
            i,
            i + spec_serial_size(t),
        ),
    }
}

/// Byte-for-byte copy of `b[start..start+len)`.
fn copy_range(b: &Vec<u8>, start: usize, len: usize) -> (r: Vec<u8>)
    requires
        start + len <= b@.len(),
    ensures
        r@ == b@.subrange(start as int, start + len),
{
    let blen: usize = b.len();
    let mut r: Vec<u8> = Vec::new();
    let mut k: usize = 0;
    while k < len
        invariant
            start + len <= b@.len(),
            b@.len() == blen,
            k <= len,
            r@ == b@.subrange(start as int, start + k),
        decreases len - k,
    {
        r.push(b[start + k]);
        k = k + 1;
        proof {
            assert(r@ =~= b@.subrange(start as int, start + k));
        }
    }
    proof {
        assert(r@ =~= b@.subrange(start as int, start + len));
    }
    r
}

/// Relies on `String::from_utf8`: returns the string whose UTF-8 encoding
/// is exactly the given bytes, and fails exactly when no character
/// sequence has that encoding.
#[verifier::external_body]
fn string_from_utf8(b: Vec<u8>) -> (r: Option<String>)
    ensures
        r matches Some(s) ==> vstd::utf8::encode_utf8(s@) == b@,
        r is None ==> !(exists|cs: Seq<char>| vstd::utf8::encode_utf8(cs) == b@),
{
    match String::from_utf8(b) {
        core::result::Result::Ok(s) => Some(s),
        core::result::Result::Err(_) => None,
    }
}

/// Decode one column body at `i` given its serial type. The only failure
/// is a text body that is not valid UTF-8.
pub fn decode_value(b: &Vec<u8>, i: usize, t: u64, end: usize) -> (r: Result<Value, DbError>)
    requires
        end <= b@.len(),
        spec_serial_size(t) >= 0,
        i + spec_serial_size(t) <= end,
    ensures
        r matches Ok(v) ==> spec_value_fits(v@, t, b@, i as int),
        r is Err ==> r == Err::<Value, DbError>(DbError::Corrupt) && t >= 13 && t % 2 == 1 && !(
        exists|cs: Seq<char>|
            vstd::utf8::encode_utf8(cs) == b@.subrange(i as int, i + spec_serial_size(t))),
{
    if t == 0 {
        Ok(Value::Null)
    } else if t == 8 {
        Ok(Value::Integer(0))
    } else if t == 9 {
        Ok(Value::Integer(1))
    } else if t >= 1 && t <= 6 {
        let n: usize = if t == 1 {
            1
        } else if t == 2 {
            2
        } else if t == 3 {
            3
        } else if t == 4 {
            4
        } else if t == 5 {
            6
        } else {
            8
        };
        Ok(Value::Integer(decode_be_int(b, i, n)))
    } else if t >= 12 {
        let len: u64 = (t - 12) / 2;
        let body = copy_range(b, i, len as usize);
        if t % 2 == 0 {
            Ok(Value::Blob(body))
        } else {
            match string_from_utf8(body) {
                Some(s) => Ok(Value::Text(s)),
                None => Err(DbError::Corrupt),
            }
        }
    } else {
        // serial types 7, 10 and 11: ruled out by the precondition
        proof {
            assert(false);
        }
        Err(DbError::Corrupt)
    }
}

/// The serial types listed by the varints that fill `b[pos..end)` exactly;
/// `None` when they do not parse or do not end exactly at `end`.
pub open spec fn spec_serial_types(b: Seq<u8>, pos: int, end: int) -> Option<Seq<u64>>
    decreases end - pos
        when pos <= end
        via spec_serial_types_decreases

{
    if pos == end {
        Some(Seq::empty())
    } else {
        match spec_varint_len(b, pos, 0) {
            None => None,
            Some(l) => if pos + l <= end {
                match spec_serial_types(b, pos + l, end) {
                    None => None,
                    Some(rest) => Some(seq![spec_varint_value(b, pos, l)] + rest),
                }
            } else {
                None
            },
        }
    }
}

#[via_fn]
proof fn spec_serial_types_decreases(b: Seq<u8>, pos: int, end: int) {
    if pos != end && spec_varint_len(b, pos, 0) is Some {
        lemma_varint_len_some(b, pos, 0);
    }
}

/// Sum of the body sizes of the first `k` serial types.
pub open spec fn spec_size_sum(ts: Seq<u64>, k: int) -> int
    decreases k,
{
    if k <= 0 {
        0
    } else {
        spec_size_sum(ts, k - 1) + spec_serial_size(ts[k - 1])
    }
}

/// What it means for `vs` to be the columns of the record payload at
/// `b[pos..end)`: a header-length varint whose value spans the serial
/// types, then one packed body per serial type, all within `end`.
pub open spec fn spec_record_matches(b: Seq<u8>, pos: int, end: int, vs: Seq<SpecValue>) -> bool {
    &&& spec_varint_len(b, pos, 0) is Some
    &&& {
        let hl = spec_varint_len(b, pos, 0)->Some_0;
        let hsize = spec_varint_value(b, pos, hl) as int;
        let hend = pos + hsize;
        &&& hl <= hsize
        &&& hend <= end
        &&& spec_serial_types(b, pos + hl, hend) is Some
        &&& {
            let ts = spec_serial_types(b, pos + hl, hend)->Some_0;
            &&& vs.len() == ts.len()
            &&& (forall|k: int| 0 <= k < ts.len() ==> spec_serial_size(#[trigger] ts[k]) >= 0)
            &&& hend + spec_size_sum(ts, ts.len() as int) <= end
            &&& (forall|k: int|
                0 <= k < ts.len() ==> spec_value_fits(
                    #[trigger] vs[k],
                    ts[k],
                    b,
                    hend + spec_size_sum(ts, k),
                ))
        }
    }
}

/// Decode the record payload at `b[pos..end)` into its column values.
pub fn decode_record(b: &Vec<u8>, pos: usize, end: usize) -> (r: Result<Record, DbError>)
    requires
        end <= b@.len(),
    ensures
        r matches Ok(rec) ==> spec_record_matches(b@, pos as int, end as int, rec@),
        r is Err ==> forall|vs: Seq<SpecValue>| !spec_record_matches(b@, pos as int, end as int, vs),
{
    let (hsize_u, hl) = match parse_varint(b, pos, end) {
        None => {
            proof {
                assert forall|vs: Seq<SpecValue>| !spec_record_matches(
                    b@,
                    pos as int,
                    end as int,
                    vs,
                ) by {
                    if spec_record_matches(b@, pos as int, end as int, vs) {
                        lemma_varint_len_some(b@, pos as int, 0);
                    }
                }
            }
            return Err(DbError::Corrupt);
        },
        Some(p) => p,
    };
    if pos >= end || hsize_u > (end - pos) as u64 || hsize_u < hl as u64 {
        proof {
            assert forall|vs: Seq<SpecValue>| !spec_record_matches(
                b@,
                pos as int,
                end as int,
                vs,
            ) by {}
        }
        return Err(DbError::Corrupt);
    }
    let hsize: usize = hsize_u as usize;
    let hend: usize = pos + hsize;
    let ghost g_hend = hend as int;

    // First pass: the serial types, and the total body size they demand.
    let mut ts: Vec<u64> = Vec::new();
    let mut sizes: Vec<u64> = Vec::new();
    let mut body: u64 = 0;
    let mut p: usize = pos + hl;
    proof {
        if spec_serial_types(b@, pos + hl, g_hend) is Some {
            assert(Seq::<u64>::empty() + spec_serial_types(b@, pos + hl, g_hend)->Some_0
                =~= spec_serial_types(b@, pos + hl, g_hend)->Some_0);
        }
    }
    while p < hend
        invariant
            end <= b@.len(),
            pos + hl <= p <= hend,
            hend <= end,
            g_hend == hend as int,
            spec_varint_len(b@, pos as int, 0) == Some(hl as int),
            hsize_u == spec_varint_value(b@, pos as int, hl as int),
            hl <= hsize_u,
            g_hend == pos + hsize_u,
            spec_serial_types(b@, p as int, g_hend) matches Some(rest) ==> spec_serial_types(
                b@,
                pos + hl,
                g_hend,
            ) == Some(ts@ + rest),
            spec_serial_types(b@, p as int, g_hend) is None ==> spec_serial_types(
                b@,
                pos + hl,
                g_hend,
            ) is None,
            sizes@.len() == ts@.len(),
            forall|k: int| 0 <= k < ts@.len() ==> #[trigger] sizes@[k] == spec_serial_size(ts@[k]),
            forall|k: int| 0 <= k < ts@.len() ==> spec_serial_size(#[trigger] ts@[k]) >= 0,
            body == spec_size_sum(ts@, ts@.len() as int),
            body <= end - hend,
        decreases hend - p,
    {
        let ghost pre_ts = ts@;
        let (t, l) = match parse_varint(b, p, hend) {
            None => {
                proof {
                    assert(spec_serial_types(b@, p as int, g_hend) is None) by {
                        if spec_varint_len(b@, p as int, 0) is Some {
                            lemma_varint_len_some(b@, p as int, 0);
                        }
                    }
                    assert forall|vs: Seq<SpecValue>| !spec_record_matches(
                        b@,
                        pos as int,
                        end as int,
                        vs,
                    ) by {}
                }
                return Err(DbError::Corrupt);
            },
            Some(q) => q,
        };
        let ghost g_rest_holds = spec_serial_types(b@, p + l, g_hend);
        proof {
            if spec_serial_types(b@, pos + hl, g_hend) is Some {
                // the whole header parses, so the suffix here does too, and
                // its first serial type is the one just read
                assert(spec_serial_types(b@, p as int, g_hend) is Some);
                assert(spec_serial_types(b@, p + l, g_hend) is Some);
                let rest2 = spec_serial_types(b@, p + l, g_hend)->Some_0;
                assert(spec_serial_types(b@, p as int, g_hend) == Some(seq![t] + rest2));
                assert(spec_serial_types(b@, pos + hl, g_hend) == Some(ts@ + (seq![t] + rest2)));
                assert((ts@ + (seq![t] + rest2))[ts@.len() as int] == t);
            }
        }
        let sz = match serial_size(t) {
            None => {
                proof {
                    assert forall|vs: Seq<SpecValue>| !spec_record_matches(
                        b@,
                        pos as int,
                        end as int,
                        vs,
                    ) by {
                        if spec_record_matches(b@, pos as int, end as int, vs) {
                            let full = spec_serial_types(b@, pos + hl, g_hend)->Some_0;
                            assert(spec_serial_size(full[ts@.len() as int]) >= 0);
                        }
                    }
                }
                return Err(DbError::Corrupt);
            },
            Some(s) => s,
        };
        if sz > (end - hend) as u64 - body {
            proof {
                assert forall|vs: Seq<SpecValue>| !spec_record_matches(
                    b@,
                    pos as int,
                    end as int,
                    vs,
                ) by {
                    if spec_record_matches(b@, pos as int, end as int, vs) {
                        let full = spec_serial_types(b@, pos + hl, g_hend)->Some_0;
                        let k = ts@.len() as int;
                        assert(full == ts@ + (seq![t] + g_rest_holds->Some_0));
                        assert(forall|j: int| 0 <= j < k ==> full[j] == ts@[j]);
                        lemma_size_sum_prefix(full, ts@, k);
                        assert(spec_size_sum(full, k + 1) == spec_size_sum(full, k)
                            + spec_serial_size(full[k]));
                        assert(full[k] == t);
                        lemma_size_sum_bounds(full, k + 1, full.len() as int);
                        assert(spec_size_sum(full, full.len() as int) >= body + sz);
                    }
                }
            }
            return Err(DbError::Corrupt);
        }
        let ghost p_old = p as int;
        ts.push(t);
        sizes.push(sz);
        body = body + sz;
        p = p + l;
        proof {
            assert(ts@ =~= pre_ts.push(t));
            lemma_size_sum_push(pre_ts, t);
            if spec_serial_types(b@, p as int, g_hend) is Some {
                let rest = spec_serial_types(b@, p as int, g_hend)->Some_0;
                assert(p_old != g_hend);
                assert(spec_varint_len(b@, p_old, 0) == Some(l as int));
                assert(p_old + l <= g_hend);
                assert(spec_serial_types(b@, p_old + l, g_hend) == Some(rest));
                assert(spec_serial_types(b@, p_old, g_hend) == Some(
                    seq![spec_varint_value(b@, p_old, l as int)] + rest,
                ));
                assert(pre_ts + (seq![t] + rest) =~= ts@ + rest);
            } else {
                assert(spec_serial_types(b@, p_old, g_hend) is None);
            }
        }
    }
    let ghost g_ts = ts@;
    proof {
        assert(spec_serial_types(b@, g_hend, g_hend) == Some(Seq::<u64>::empty()));
        assert(ts@ + Seq::<u64>::empty() =~= ts@);
        assert(spec_serial_types(b@, pos + hl, g_hend) == Some(ts@));
    }

    // Second pass: one body per serial type.
    let mut values: Vec<Value> = Vec::new();
    let mut off: usize = hend;
    let mut k: usize = 0;
    while k < ts.len()
        invariant
            end <= b@.len(),
            hend <= end,
            g_hend == hend as int,
            spec_varint_len(b@, pos as int, 0) == Some(hl as int),
            hsize_u == spec_varint_value(b@, pos as int, hl as int),
            hl <= hsize_u,
            g_hend == pos + hsize_u,
            spec_serial_types(b@, pos + hl, g_hend) == Some(g_ts),
            ts@ == g_ts,
            sizes@.len() == ts@.len(),
            forall|j: int| 0 <= j < ts@.len() ==> #[trigger] sizes@[j] == spec_serial_size(ts@[j]),
            forall|j: int| 0 <= j < ts@.len() ==> spec_serial_size(#[trigger] ts@[j]) >= 0,
            k <= ts@.len(),
            values@.len() == k,
            off == hend + spec_size_sum(ts@, k as int),
            hend + spec_size_sum(ts@, ts@.len() as int) <= end,
            forall|j: int| 0 <= j < k ==> spec_value_fits(
                #[trigger] values@[j]@,
                ts@[j],
                b@,
                g_hend + spec_size_sum(ts@, j),
            ),
        decreases ts@.len() - k,
    {
        proof {
            lemma_size_sum_bounds(ts@, k as int, ts@.len() as int);
        }
        let t = ts[k];
        let sz = sizes[k];
        let v = match decode_value(b, off, t, end) {
            Err(e) => {
                proof {
                    assert forall|vs: Seq<SpecValue>| !spec_record_matches(
                        b@,
                        pos as int,
                        end as int,
                        vs,
                    ) by {
                        if spec_record_matches(b@, pos as int, end as int, vs) {
                            assert(spec_value_fits(
                                vs[k as int],
                                g_ts[k as int],
                                b@,
                                g_hend + spec_size_sum(g_ts, k as int),
                            ));
                        }
                    }
                }
                return Err(e);
            },
            Ok(v) => v,
        };
        values.push(v);
        proof {
            assert(values@[k as int] == v);
            assert(values@[k as int]@ == v@);
        }
        off = off + sz as usize;
        k = k + 1;
    }
    let rec = Record::new(values);
    proof {
        assert forall|j: int| 0 <= j < g_ts.len() implies spec_value_fits(
            #[trigger] rec@[j],
            g_ts[j],
            b@,
            g_hend + spec_size_sum(g_ts, j),
        ) by {
            assert(rec@[j] == values@[j]@);
        }
        assert(spec_record_matches(b@, pos as int, end as int, rec@));
    }
    Ok(rec)
}

/// Appending one serial type adds its size to the running sum.
pub proof fn lemma_size_sum_push(ts: Seq<u64>, t: u64)
    ensures
        spec_size_sum(ts.push(t), ts.len() as int + 1) == spec_size_sum(ts, ts.len() as int)
            + spec_serial_size(t),
{
    lemma_size_sum_prefix(ts.push(t), ts, ts.len() as int);
}

/// The size sum over a prefix agrees between a sequence and its extension.
pub proof fn lemma_size_sum_prefix(ts1: Seq<u64>, ts2: Seq<u64>, k: int)
    requires
        k <= ts1.len(),
        k <= ts2.len(),
        forall|j: int| 0 <= j < k ==> ts1[j] == ts2[j],
    ensures
        spec_size_sum(ts1, k) == spec_size_sum(ts2, k),
    decreases k,
{
    if k > 0 {
        lemma_size_sum_prefix(ts1, ts2, k - 1);
    }
}

/// When every serial type is supported, the size sum is monotone in its
/// bound.
pub proof fn lemma_size_sum_bounds(ts: Seq<u64>, k: int, n: int)
    requires
        0 <= k <= n <= ts.len(),
        forall|j: int| 0 <= j < ts.len() ==> spec_serial_size(#[trigger] ts[j]) >= 0,
    ensures
        spec_size_sum(ts, k) <= spec_size_sum(ts, n),
        k < n ==> spec_size_sum(ts, k) + spec_serial_size(ts[k]) <= spec_size_sum(ts, n),
    decreases n - k,
{
    if k < n {
        lemma_size_sum_bounds(ts, k + 1, n);
    }
}

} // verus!
