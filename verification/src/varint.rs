//! Little-endian base-128 ("varint") integers, the primitive length and tag
//! encoding of the wire format: seven value bits per byte, the high bit set
//! on every byte except the last. A varint of more than ten bytes, or whose
//! value does not fit in 64 bits, is rejected.

use vstd::prelude::*;

verus! {

/// The base-128 encoding of `n`.
pub open spec fn enc_varint(n: nat) -> Seq<u8>
    decreases n,
{
    if n < 128 {
        seq![n as u8]
    } else {
        seq![(128 + n % 128) as u8] + enc_varint(n / 128)
    }
}

/// Reads base-128 groups from `b` starting at `pos` and stopping at the
/// first byte without the continuation bit, never looking at or past `end`.
/// Yields the decoded value and the position just after its last byte.
pub open spec fn parse_varint_raw(b: Seq<u8>, pos: int, end: int) -> Option<(nat, int)>
    decreases end - pos,
{
    if pos < 0 || pos >= end || end > b.len() {
        None
    } else if b[pos] < 128 {
        Some((b[pos] as nat, pos + 1))
    } else {
        match parse_varint_raw(b, pos + 1, end) {
            Some(t) => Some((((b[pos] - 128) as nat + 128 * t.0), t.1)),
            None => None,
        }
    }
}

/// A varint is accepted when it spans at most ten bytes and its value fits
/// in 64 bits.
pub open spec fn parse_varint(b: Seq<u8>, pos: int, end: int) -> Option<(u64, int)> {
    match parse_varint_raw(b, pos, end) {
        Some(t) => if t.1 - pos <= 10 && t.0 < 0x1_0000_0000_0000_0000 {
            Some((t.0 as u64, t.1))
        } else {
            None
        },
        None => None,
    }
}

/// A successful raw parse consumed at least one byte and stayed inside the
/// window.
pub proof fn lemma_parse_varint_raw_bounds(b: Seq<u8>, pos: int, end: int)
    requires
        parse_varint_raw(b, pos, end) is Some,
    ensures
        pos < parse_varint_raw(b, pos, end).unwrap().1 <= end,
    decreases end - pos,
{
    if pos < 0 || pos >= end || end > b.len() {
    } else if b[pos] < 128 {
    } else {
        lemma_parse_varint_raw_bounds(b, pos + 1, end);
    }
}

/// A successful parse consumed at least one byte and stayed inside the
/// window.
pub proof fn lemma_parse_varint_bounds(b: Seq<u8>, pos: int, end: int)
    requires
        parse_varint(b, pos, end) is Some,
    ensures
        pos < parse_varint(b, pos, end).unwrap().1 <= end,
{
    lemma_parse_varint_raw_bounds(b, pos, end);
}

/// 128 raised to the `k`-th power.
pub open spec fn pow128(k: nat) -> nat
    decreases k,
{
    if k == 0 {
        1
    } else {
        128 * pow128((k - 1) as nat)
    }
}

/// A value below `128^k` encodes in at most `k` bytes.
proof fn lemma_enc_varint_len_small(n: nat, k: nat)
    requires
        k >= 1,
        n < pow128(k),
    ensures
        enc_varint(n).len() <= k,
    decreases k,
{
    if n >= 128 {
        assert(pow128(k) == 128 * pow128((k - 1) as nat));
        assert(n / 128 < pow128((k - 1) as nat)) by (nonlinear_arith)
            requires
                n < pow128(k),
                pow128(k) == 128 * pow128((k - 1) as nat),
                n >= 128,
        ;
        lemma_enc_varint_len_small(n / 128, (k - 1) as nat);
    }
}

/// A 64-bit value encodes in at most ten bytes (and every value in at least
/// one).
pub proof fn lemma_enc_varint_len(n: nat)
    ensures
        1 <= enc_varint(n).len(),
        n < 0x1_0000_0000_0000_0000 ==> enc_varint(n).len() <= 10,
{
    if n < 0x1_0000_0000_0000_0000 {
        assert(pow128(10) == 0x40_0000_0000_0000_0000) by {
            reveal_with_fuel(pow128, 11);
        }
        lemma_enc_varint_len_small(n, 10);
    }
}

/// Parsing recovers exactly what `enc_varint` produced: if the window holds
/// the encoding of `n` at `pos`, the parse succeeds with value `n` and stops
/// right after the encoding.
pub proof fn lemma_parse_enc_varint(b: Seq<u8>, pos: int, end: int, n: nat)
    requires
        n < 0x1_0000_0000_0000_0000,
        0 <= pos,
        pos + enc_varint(n).len() <= end,
        end <= b.len(),
        b.subrange(pos, pos + enc_varint(n).len() as int) =~= enc_varint(n),
    ensures
        parse_varint(b, pos, end) == Some((n as u64, pos + enc_varint(n).len())),
{
    lemma_parse_enc_varint_raw(b, pos, end, n);
    lemma_enc_varint_len(n);
}

proof fn lemma_parse_enc_varint_raw(b: Seq<u8>, pos: int, end: int, n: nat)
    requires
        0 <= pos,
        pos + enc_varint(n).len() <= end,
        end <= b.len(),
        b.subrange(pos, pos + enc_varint(n).len() as int) =~= enc_varint(n),
    ensures
        parse_varint_raw(b, pos, end) == Some((n, pos + enc_varint(n).len())),
    decreases n,
{
    let e = enc_varint(n);
    assert(b[pos] == e[0]);
    if n < 128 {
        assert(b[pos] == n as u8);
    } else {
        let rest = enc_varint(n / 128);
        assert(e == seq![(128 + n % 128) as u8] + rest);
        assert(b[pos] == (128 + n % 128) as u8);
        assert(b[pos] >= 128);
        assert(b.subrange(pos + 1, pos + 1 + rest.len() as int) =~= rest) by {
            assert forall|i: int| 0 <= i < rest.len() implies b[pos + 1 + i] == rest[i] by {
                assert(e[1 + i] == rest[i]);
                assert(b.subrange(pos, pos + e.len() as int)[1 + i] == b[pos + 1 + i]);
            }
        }
        lemma_parse_enc_varint_raw(b, pos + 1, end, n / 128);
        assert((b[pos] - 128) as nat + 128 * (n / 128) == n);
    }
}

/// No strict prefix of a varint encoding parses: every byte before the
/// last carries the continuation bit, so a truncated varint runs out of
/// window before reaching a final byte.
pub proof fn lemma_parse_enc_varint_prefix_fails(b: Seq<u8>, pos: int, n: nat, m: int)
    requires
        0 <= pos,
        0 <= m < enc_varint(n).len(),
        pos + m == b.len(),
        b.subrange(pos, pos + m) =~= enc_varint(n).take(m),
    ensures
        parse_varint_raw(b, pos, b.len() as int) is None,
    decreases n,
{
    if m > 0 {
        let e = enc_varint(n);
        assert(b[pos] == e.take(m)[0]);
        assert(b[pos] == e[0]);
        if n < 128 {
            assert(e.len() == 1);
        } else {
            assert(b[pos] == (128 + n % 128) as u8);
            assert(b[pos] >= 128);
            let rest = enc_varint(n / 128);
            assert(e == seq![(128 + n % 128) as u8] + rest);
            assert(b.subrange(pos + 1, pos + m) =~= rest.take(m - 1)) by {
                assert forall|i: int| 0 <= i < m - 1 implies b[pos + 1 + i] == rest[i] by {
                    assert(b.subrange(pos, pos + m)[1 + i] == b[pos + 1 + i]);
                    assert(e.take(m)[1 + i] == e[1 + i]);
                    assert(e[1 + i] == rest[i]);
                }
            }
            lemma_parse_enc_varint_prefix_fails(b, pos + 1, n / 128, m - 1);
        }
    }
}

/// Appends the base-128 encoding of `n` to `buf`.
pub fn write_varint(buf: &mut Vec<u8>, n: u64)
    ensures
        final(buf)@ =~= old(buf)@ + enc_varint(n as nat),
    decreases n,
{
    if n < 128 {
        buf.push(n as u8);
    } else {
        buf.push((128 + n % 128) as u8);
        write_varint(buf, n / 128);
    }
}

/// Reads a varint from `b[pos..end]`, accepting at most `fuel` bytes.
fn read_varint_limited(b: &Vec<u8>, pos: usize, end: usize, fuel: usize) -> (r: Option<
    (u64, usize),
>)
    requires
        end <= b@.len(),
    ensures
        match parse_varint_raw(b@, pos as int, end as int) {
            Some(t) => if t.1 - pos <= fuel && t.0 < 0x1_0000_0000_0000_0000 {
                r == Some((t.0 as u64, t.1 as usize))
            } else {
                r is None
            },
            None => r is None,
        },
    decreases fuel,
{
    if fuel == 0 || pos >= end {
        proof {
            if parse_varint_raw(b@, pos as int, end as int) is Some {
                lemma_parse_varint_raw_bounds(b@, pos as int, end as int);
            }
        }
        return None;
    }
    let byte: u8 = b[pos];
    if byte < 128 {
        Some((byte as u64, pos + 1))
    } else {
        let rest = read_varint_limited(b, pos + 1, end, fuel - 1);
        proof {
            if parse_varint_raw(b@, pos + 1, end as int) is Some {
                lemma_parse_varint_raw_bounds(b@, pos + 1, end as int);
            }
        }
        match rest {
            None => None,
            Some((v, e)) => {
                let low: u64 = (byte - 128) as u64;
                let limit: u64 = (u64::MAX - low) / 128;
                if v <= limit {
                    proof {
                        assert(v as nat * 128 <= limit as nat * 128);
                        assert(limit as nat * 128 <= (u64::MAX - low) as nat);
                    }
                    let value: u64 = low + v * 128;
                    Some((value, e))
                } else {
                    proof {
                        let t = parse_varint_raw(b@, pos as int, end as int).unwrap();
                        let trest = parse_varint_raw(b@, pos + 1, end as int).unwrap();
                        assert(t.0 == (byte - 128) as nat + 128 * trest.0);
                        assert(trest.0 == v as nat);
                        assert((v as nat) * 128 >= (limit as nat + 1) * 128);
                        assert((limit as nat + 1) * 128 > (u64::MAX - low) as nat);
                        assert(t.0 >= 0x1_0000_0000_0000_0000);
                    }
                    None
                }
            },
        }
    }
}

/// Reads one varint from `b[pos..end]`; `None` when the bytes there do not
/// form an accepted varint.
pub fn read_varint(b: &Vec<u8>, pos: usize, end: usize) -> (r: Option<(u64, usize)>)
    requires
        end <= b@.len(),
    ensures
        match parse_varint(b@, pos as int, end as int) {
            Some(t) => r == Some((t.0, t.1 as usize)) && pos < t.1 <= end,
            None => r is None,
        },
        r matches Some(x) ==> pos < x.1 <= end,
{
    let r = read_varint_limited(b, pos, end, 10);
    proof {
        if parse_varint_raw(b@, pos as int, end as int) is Some {
            lemma_parse_varint_raw_bounds(b@, pos as int, end as int);
        }
    }
    r
}

} // verus!
