//! Wire codec: the SCALE byte format the bridge shares with the host.
//!
//! Spec functions define the encoding of each primitive as a sequence of
//! bytes, and a matching spec decoder reads a value back out of a byte
//! sequence at a given offset. Executable encoders append to a growing
//! buffer; executable decoders return the value together with the offset of
//! the first byte they did not consume. Round-trip lemmas state that decoding
//! an encoded value out of any surrounding buffer yields the value back.

use vstd::prelude::*;

verus! {

/// `256^n`, the number of values representable in `n` bytes.
pub open spec fn pow256(n: nat) -> nat
    decreases n,
{
    if n == 0 {
        1
    } else {
        256 * pow256((n - 1) as nat)
    }
}

/// The low `n` bytes of `v`, least significant first.
pub open spec fn le_bytes(v: nat, n: nat) -> Seq<u8>
    decreases n,
{
    if n == 0 {
        Seq::empty()
    } else {
        seq![(v % 256) as u8] + le_bytes(v / 256, (n - 1) as nat)
    }
}

/// The value read back from a little-endian byte sequence.
pub open spec fn from_le(s: Seq<u8>) -> nat
    decreases s.len(),
{
    if s.len() == 0 {
        0
    } else {
        s[0] as nat + 256 * from_le(s.drop_first())
    }
}

/// Number of bytes needed to hold `v`: the shortest `n` with `v < 256^n`,
/// except that zero still takes one byte.
pub open spec fn byte_len(v: nat) -> nat
    decreases v,
{
    if v < 256 {
        1
    } else {
        1 + byte_len(v / 256)
    }
}

pub proof fn lemma_le_bytes_len(v: nat, n: nat)
    ensures
        le_bytes(v, n).len() == n,
    decreases n,
{
    if n > 0 {
        lemma_le_bytes_len(v / 256, (n - 1) as nat);
    }
}

/// Reading back the low `n` bytes of `v` recovers `v` whenever `v` fits.
pub proof fn lemma_from_le_le_bytes(v: nat, n: nat)
    requires
        v < pow256(n),
    ensures
        from_le(le_bytes(v, n)) == v,
    decreases n,
{
    if n > 0 {
        let s = le_bytes(v, n);
        lemma_le_bytes_len(v / 256, (n - 1) as nat);
        assert(s.drop_first() =~= le_bytes(v / 256, (n - 1) as nat));
        assert(v / 256 < pow256((n - 1) as nat)) by {
            assert(pow256(n) == 256 * pow256((n - 1) as nat));
        }
        lemma_from_le_le_bytes(v / 256, (n - 1) as nat);
        assert(from_le(s) == v % 256 + 256 * (v / 256));
    }
}

/// Any `n`-byte sequence reads back to a value below `256^n`.
pub proof fn lemma_from_le_bound(s: Seq<u8>)
    ensures
        from_le(s) < pow256(s.len()),
    decreases s.len(),
{
    if s.len() > 0 {
        lemma_from_le_bound(s.drop_first());
    }
}

/// `pow256` is positive.
pub proof fn lemma_pow256_pos(n: nat)
    ensures
        pow256(n) >= 1,
    decreases n,
{
    if n > 0 {
        lemma_pow256_pos((n - 1) as nat);
    }
}

/// `byte_len` is the least width that holds `v`.
pub proof fn lemma_byte_len(v: nat)
    ensures
        1 <= byte_len(v),
        v < pow256(byte_len(v)),
        v >= 256 ==> pow256((byte_len(v) - 1) as nat) <= v,
    decreases v,
{
    if v >= 256 {
        lemma_byte_len(v / 256);
        let m = byte_len(v / 256);
        assert(pow256(m + 1) == 256 * pow256(m));
        assert(v < 256 * (v / 256) + 256);
        assert(v < 256 * pow256(m)) by (nonlinear_arith)
            requires
                v / 256 < pow256(m),
                v < 256 * (v / 256) + 256,
        ;
        assert(byte_len(v) == m + 1);
        assert(pow256(byte_len(v)) == 256 * pow256(m));
        if v / 256 >= 256 {
            assert(pow256((m - 1) as nat) <= v / 256);
            assert(256 * pow256((m - 1) as nat) <= 256 * (v / 256)) by (nonlinear_arith)
                requires
                    pow256((m - 1) as nat) <= v / 256,
            ;
            assert(256 * (v / 256) <= v);
        } else {
            assert(m == 1);
            assert(pow256(1) == 256 * pow256(0));
        }
    } else {
        assert(pow256(1) == 256 * pow256(0));
        assert(pow256(0) == 1);
    }
}

/// `pow256` grows monotonically.
pub proof fn lemma_pow256_mono(a: nat, b: nat)
    requires
        a <= b,
    ensures
        pow256(a) <= pow256(b),
    decreases b,
{
    if a < b {
        lemma_pow256_mono(a, (b - 1) as nat);
        lemma_pow256_pos((b - 1) as nat);
    }
}

/// The powers of 256 the codec reasons about, written out.
pub proof fn lemma_pow256_values()
    ensures
        pow256(0) == 1,
        pow256(1) == 0x100,
        pow256(2) == 0x10000,
        pow256(3) == 0x1000000,
        pow256(4) == 0x100000000,
        pow256(15) == 0x1000000000000000000000000000000,
        pow256(16) == 0x100000000000000000000000000000000,
{
    assert(pow256(0) == 1);
    assert(pow256(1) == 256 * pow256(0));
    assert(pow256(2) == 256 * pow256(1));
    assert(pow256(3) == 256 * pow256(2));
    assert(pow256(4) == 256 * pow256(3));
    assert(pow256(5) == 256 * pow256(4));
    assert(pow256(6) == 256 * pow256(5));
    assert(pow256(7) == 256 * pow256(6));
    assert(pow256(8) == 256 * pow256(7));
    assert(pow256(9) == 256 * pow256(8));
    assert(pow256(10) == 256 * pow256(9));
    assert(pow256(11) == 256 * pow256(10));
    assert(pow256(12) == 256 * pow256(11));
    assert(pow256(13) == 256 * pow256(12));
    assert(pow256(14) == 256 * pow256(13));
    assert(pow256(15) == 256 * pow256(14));
    assert(pow256(16) == 256 * pow256(15));
}

/// Splitting a little-endian encoding: the low `k` bytes of `v` followed by
/// the bytes of `v / 256^k` make up the full `n`-byte encoding.
pub proof fn lemma_le_bytes_split(v: nat, k: nat, n: nat)
    requires
        k <= n,
    ensures
        le_bytes(v, n) =~= le_bytes(v, k) + le_bytes(v / pow256(k), (n - k) as nat),
    decreases k,
{
    if k > 0 {
        lemma_le_bytes_split(v / 256, (k - 1) as nat, (n - 1) as nat);
        assert((v / 256) / pow256((k - 1) as nat) == v / pow256(k)) by {
            lemma_pow256_pos((k - 1) as nat);
            vstd::arithmetic::div_mod::lemma_div_denominator(
                v as int,
                256,
                pow256((k - 1) as nat) as int,
            );
            assert(256 * pow256((k - 1) as nat) == pow256(k));
        }
    } else {
        assert(pow256(0) == 1);
        assert(le_bytes(v, 0) =~= Seq::<u8>::empty());
        assert(v / 1 == v);
    }
}

/// `le_bytes` at width one, written out.
pub proof fn lemma_le_bytes_1(x: nat)
    ensures
        le_bytes(x, 1) =~= seq![(x % 256) as u8],
{
    assert(le_bytes(x, 1) == seq![(x % 256) as u8] + le_bytes(x / 256, 0));
    assert(le_bytes(x / 256, 0) == Seq::<u8>::empty());
}

/// `le_bytes` at width two, written out.
pub proof fn lemma_le_bytes_2(x: nat)
    ensures
        le_bytes(x, 2) =~= seq![(x % 256) as u8, (x / 256 % 256) as u8],
{
    assert(le_bytes(x, 2) == seq![(x % 256) as u8] + le_bytes(x / 256, 1));
    assert(le_bytes(x / 256, 1) == seq![(x / 256 % 256) as u8] + le_bytes(x / 256 / 256, 0));
    assert(le_bytes(x / 256 / 256, 0) == Seq::<u8>::empty());
}

/// `le_bytes` at width four, written out.
pub proof fn lemma_le_bytes_4(x: nat)
    ensures
        le_bytes(x, 4) =~= seq![
            (x % 256) as u8,
            (x / 256 % 256) as u8,
            (x / 65536 % 256) as u8,
            (x / 16777216 % 256) as u8,
        ],
{
    assert(x / 256 / 256 == x / 65536) by {
        vstd::arithmetic::div_mod::lemma_div_denominator(x as int, 256, 256);
    }
    assert(x / 65536 / 256 == x / 16777216) by {
        vstd::arithmetic::div_mod::lemma_div_denominator(x as int, 65536, 256);
    }
    assert(le_bytes(x, 4) == seq![(x % 256) as u8] + le_bytes(x / 256, 3));
    assert(le_bytes(x / 256, 3) == seq![(x / 256 % 256) as u8] + le_bytes(x / 65536, 2));
    assert(le_bytes(x / 65536, 2) == seq![(x / 65536 % 256) as u8] + le_bytes(x / 16777216, 1));
    assert(le_bytes(x / 16777216, 1) == seq![(x / 16777216 % 256) as u8] + le_bytes(
        x / 16777216 / 256,
        0,
    ));
    assert(le_bytes(x / 16777216 / 256, 0) == Seq::<u8>::empty());
}

/// Reading two bytes little-endian, written out.
pub proof fn lemma_from_le_2(s: Seq<u8>)
    requires
        s.len() == 2,
    ensures
        from_le(s) == s[0] + 256 * s[1],
{
    let t = s.drop_first();
    assert(from_le(s) == s[0] + 256 * from_le(t));
    assert(from_le(t) == t[0] + 256 * from_le(t.drop_first()));
    assert(from_le(t.drop_first()) == 0);
    assert(t[0] == s[1]);
}

/// Reading four bytes little-endian, written out.
pub proof fn lemma_from_le_4(s: Seq<u8>)
    requires
        s.len() == 4,
    ensures
        from_le(s) == s[0] + 256 * s[1] + 65536 * s[2] + 16777216 * s[3],
{
    let t1 = s.drop_first();
    let t2 = t1.drop_first();
    let t3 = t2.drop_first();
    assert(from_le(s) == s[0] + 256 * from_le(t1));
    assert(from_le(t1) == t1[0] + 256 * from_le(t2));
    assert(from_le(t2) == t2[0] + 256 * from_le(t3));
    assert(from_le(t3) == t3[0] + 256 * from_le(t3.drop_first()));
    assert(from_le(t3.drop_first()) == 0);
    assert(t1[0] == s[1] && t2[0] == s[2] && t3[0] == s[3]);
}

/// SCALE compact encoding: a self-describing variable-length representation
/// of an unsigned integer whose length is derived from the magnitude of the
/// value. The two low bits of the first byte select the width: `0b00` a
/// single byte holding `v * 4`, `0b01` two bytes holding `v * 4 + 1`
/// little-endian, `0b10` four bytes holding `v * 4 + 2` little-endian, and
/// `0b11` a header byte holding `(n - 4) * 4 + 3` followed by the `n`-byte
/// little-endian encoding of `v`, where `n` is the least width that holds
/// `v`.
pub open spec fn spec_compact(v: u128) -> Seq<u8> {
    if v < 64 {
        seq![(v * 4) as u8]
    } else if v < 16384 {
        le_bytes(v as nat * 4 + 1, 2)
    } else if v < 0x40000000 {
        le_bytes(v as nat * 4 + 2, 4)
    } else {
        seq![((byte_len(v as nat) - 4) * 4 + 3) as u8] + le_bytes(v as nat, byte_len(v as nat))
    }
}

/// Decoding a compact integer out of `s` at offset `i`: the value and the
/// offset just past it, or nothing if the bytes there are not a compact
/// encoding that fits the declared 128-bit width class.
pub open spec fn spec_dec_compact(s: Seq<u8>, i: nat) -> Option<(u128, nat)> {
    if i < s.len() {
        let b = s[i as int];
        if b % 4 == 0 {
            Some(((b / 4) as u128, (i + 1) as nat))
        } else if b % 4 == 1 {
            if i + 2 <= s.len() {
                Some(((from_le(s.subrange(i as int, i as int + 2)) / 4) as u128, (i + 2) as nat))
            } else {
                None
            }
        } else if b % 4 == 2 {
            if i + 4 <= s.len() {
                Some(((from_le(s.subrange(i as int, i as int + 4)) / 4) as u128, (i + 4) as nat))
            } else {
                None
            }
        } else {
            let n = b / 4 + 4;
            if n <= 16 && i + 1 + n <= s.len() {
                Some(
                    (from_le(s.subrange(i as int + 1, i as int + 1 + n)) as u128, (i + 1
                        + n) as nat),
                )
            } else {
                None
            }
        }
    } else {
        None
    }
}

/// For values in the largest width class, the minimal byte width lies
/// between 4 and 16.
pub proof fn lemma_byte_len_range(v: u128)
    requires
        v >= 0x40000000,
    ensures
        4 <= byte_len(v as nat) <= 16,
{
    lemma_byte_len(v as nat);
    lemma_pow256_values();
    let n = byte_len(v as nat);
    if n < 4 {
        lemma_pow256_mono(n, 3);
        assert((v as nat) < pow256(3));
    }
    if n > 16 {
        lemma_pow256_mono(16, (n - 1) as nat);
        assert(pow256((n - 1) as nat) <= v as nat);
    }
}

/// The width classes of `spec_compact`: the length is determined by the
/// magnitude alone.
pub proof fn lemma_compact_len(v: u128)
    ensures
        v < 64 ==> spec_compact(v).len() == 1,
        64 <= v < 16384 ==> spec_compact(v).len() == 2,
        16384 <= v < 0x40000000 ==> spec_compact(v).len() == 4,
        0x40000000 <= v ==> spec_compact(v).len() == 1 + byte_len(v as nat),
        1 <= spec_compact(v).len() <= 17,
{
    if v < 64 {
    } else if v < 16384 {
        lemma_le_bytes_len(v as nat * 4 + 1, 2);
    } else if v < 0x40000000 {
        lemma_le_bytes_len(v as nat * 4 + 2, 4);
    } else {
        lemma_le_bytes_len(v as nat, byte_len(v as nat));
        lemma_byte_len_range(v);
    }
}

/// Round trip for compact integers: wherever a buffer holds the encoding of
/// `v` at offset `i`, decoding at `i` yields `v` and stops just past it.
pub proof fn lemma_compact_round_trip(v: u128, s: Seq<u8>, i: nat)
    requires
        i + spec_compact(v).len() <= s.len(),
        s.subrange(i as int, i as int + spec_compact(v).len() as int) == spec_compact(v),
    ensures
        spec_dec_compact(s, i) == Some((v, (i + spec_compact(v).len()) as nat)),
{
    lemma_compact_len(v);
    let enc = spec_compact(v);
    assert(s[i as int] == s.subrange(i as int, i as int + enc.len() as int)[0]);
    if v < 64 {
        let b = (v * 4) as u8;
        assert(b == v * 4);
        assert(b % 4 == 0 && b / 4 == v);
    } else if v < 16384 {
        let x = v as nat * 4 + 1;
        lemma_pow256_values();
        lemma_from_le_le_bytes(x, 2);
        lemma_le_bytes_2(x);
        assert(enc[0] == (x % 256) as u8);
        assert(x % 256 % 4 == x % 4) by {
            vstd::arithmetic::div_mod::lemma_mod_mod(x as int, 64, 4);
        }
        assert(x % 4 == 1) by {
            vstd::arithmetic::div_mod::lemma_mod_multiples_vanish(v as int, 1, 4);
        }
        assert(s.subrange(i as int, i as int + 2) =~= enc);
        assert(x / 4 == v) by {
            vstd::arithmetic::div_mod::lemma_div_multiples_vanish_fancy(v as int, 1, 4);
        }
    } else if v < 0x40000000 {
        let x = v as nat * 4 + 2;
        lemma_pow256_values();
        lemma_from_le_le_bytes(x, 4);
        lemma_le_bytes_4(x);
        assert(enc[0] == (x % 256) as u8);
        assert(x % 256 % 4 == x % 4) by {
            vstd::arithmetic::div_mod::lemma_mod_mod(x as int, 64, 4);
        }
        assert(x % 4 == 2) by {
            vstd::arithmetic::div_mod::lemma_mod_multiples_vanish(v as int, 2, 4);
        }
        assert(s.subrange(i as int, i as int + 4) =~= enc);
        assert(x / 4 == v) by {
            vstd::arithmetic::div_mod::lemma_div_multiples_vanish_fancy(v as int, 2, 4);
        }
    } else {
        let n = byte_len(v as nat);
        lemma_byte_len_range(v);
        lemma_byte_len(v as nat);
        let h = ((n - 4) * 4 + 3) as u8;
        assert(h == (n - 4) * 4 + 3);
        assert(h % 4 == 3) by {
            vstd::arithmetic::div_mod::lemma_mod_multiples_vanish((n - 4) as int, 3, 4);
        }
        assert(h / 4 == n - 4) by {
            vstd::arithmetic::div_mod::lemma_div_multiples_vanish_fancy((n - 4) as int, 3, 4);
        }
        lemma_le_bytes_len(v as nat, n);
        assert(s.subrange(i as int + 1, i as int + 1 + n) =~= le_bytes(v as nat, n)) by {
            assert forall|k: int| 0 <= k < n implies s.subrange(i as int + 1, i as int + 1 + n)[k]
                == le_bytes(v as nat, n)[k] by {
                assert(s[i as int + 1 + k] == s.subrange(
                    i as int,
                    i as int + enc.len() as int,
                )[1 + k]);
            }
        }
        lemma_from_le_le_bytes(v as nat, n);
    }
}

/// Appends the compact encoding of `v` to `out`.
pub fn encode_compact_u128(v: u128, out: &mut Vec<u8>)
    ensures
        final(out)@ == old(out)@ + spec_compact(v),
{
    if v < 64 {
        out.push((v as u8) * 4);
        assert(out@ =~= old(out)@ + spec_compact(v));
    } else if v < 16384 {
        let x: u16 = (v as u16) * 4 + 1;
        out.push((x % 256) as u8);
        out.push((x / 256) as u8);
        proof {
            let xn = v as nat * 4 + 1;
            lemma_le_bytes_2(xn);
            assert(xn / 256 < 256);
            assert(out@ =~= old(out)@ + spec_compact(v));
        }
    } else if v < 0x40000000 {
        let x: u32 = (v as u32) * 4 + 2;
        out.push((x % 256) as u8);
        out.push((x / 256 % 256) as u8);
        out.push((x / 65536 % 256) as u8);
        out.push((x / 16777216 % 256) as u8);
        proof {
            let xn = v as nat * 4 + 2;
            lemma_le_bytes_4(xn);
            assert(out@ =~= old(out)@ + spec_compact(v));
        }
    } else {
        let ghost width = byte_len(v as nat);
        proof {
            lemma_byte_len_range(v);
            lemma_byte_len(v as nat);
        }
        let mut n: usize = 0;
        let mut cur: u128 = v;
        while cur > 0
            invariant
                4 <= width <= 16,
                width == byte_len(v as nat),
                cur > 0 ==> width == n + byte_len(cur as nat),
                cur == 0 ==> width == n,
            decreases cur,
        {
            proof {
                lemma_byte_len(cur as nat);
                if cur >= 256 {
                    assert(byte_len(cur as nat) == 1 + byte_len(cur as nat / 256));
                    lemma_byte_len(cur as nat / 256);
                } else {
                    assert(byte_len(cur as nat) == 1);
                }
            }
            n = n + 1;
            cur = cur / 256;
        }
        let h: u8 = ((n as u8) - 4) * 4 + 3;
        out.push(h);
        let ghost base = out@;
        let mut j: usize = 0;
        let mut rest: u128 = v;
        proof {
            assert(le_bytes(v as nat, 0) =~= Seq::<u8>::empty());
            assert(base + le_bytes(v as nat, 0) =~= base);
            assert(pow256(0) == 1);
            assert(v as nat / 1 == v as nat);
        }
        while j < n
            invariant
                j <= n,
                n == width,
                4 <= width <= 16,
                width == byte_len(v as nat),
                (v as nat) < pow256(width),
                out@ == base + le_bytes(v as nat, j as nat),
                rest as nat == v as nat / pow256(j as nat),
            decreases n - j,
        {
            out.push((rest % 256) as u8);
            proof {
                lemma_le_bytes_split(v as nat, j as nat, j as nat + 1);
                lemma_le_bytes_1(v as nat / pow256(j as nat));
                assert(out@ =~= base + le_bytes(v as nat, j as nat + 1));
                lemma_pow256_pos(j as nat);
                vstd::arithmetic::div_mod::lemma_div_denominator(
                    v as int,
                    pow256(j as nat) as int,
                    256,
                );
                assert(pow256(j as nat) * 256 == pow256(j as nat + 1)) by {
                    assert(pow256(j as nat + 1) == 256 * pow256(j as nat));
                }
            }
            rest = rest / 256;
            j = j + 1;
        }
        proof {
            assert(out@ =~= old(out)@ + spec_compact(v));
        }
    }
}

/// Decodes a compact integer from `bytes` at offset `i`, returning the value
/// and the offset just past it.
pub fn decode_compact_u128(bytes: &Vec<u8>, i: usize) -> (r: Option<(u128, usize)>)
    ensures
        match r {
            Some(p) => spec_dec_compact(bytes@, i as nat) == Some((p.0, p.1 as nat)),
            None => spec_dec_compact(bytes@, i as nat) is None,
        },
{
    let blen = bytes.len();
    if i >= blen {
        return None;
    }
    let b = bytes[i];
    if b % 4 == 0 {
        Some(((b / 4) as u128, i + 1))
    } else if b % 4 == 1 {
        if blen - i >= 2 {
            let x: u32 = (bytes[i] as u32) + 256 * (bytes[i + 1] as u32);
            proof {
                let sub = bytes@.subrange(i as int, i as int + 2);
                lemma_from_le_2(sub);
            }
            Some(((x / 4) as u128, i + 2))
        } else {
            None
        }
    } else if b % 4 == 2 {
        if blen - i >= 4 {
            let x: u32 = (bytes[i] as u32) + 256 * (bytes[i + 1] as u32) + 65536 * (bytes[i
                + 2] as u32) + 16777216 * (bytes[i + 3] as u32);
            proof {
                let sub = bytes@.subrange(i as int, i as int + 4);
                lemma_from_le_4(sub);
            }
            Some(((x / 4) as u128, i + 4))
        } else {
            None
        }
    } else {
        let n: usize = (b / 4) as usize + 4;
        if n <= 16 && blen - i >= n + 1 {
            let mut acc: u128 = 0;
            let mut k: usize = n;
            proof {
                assert(bytes@.subrange(i as int + 1 + n, i as int + 1 + n) =~= Seq::<u8>::empty());
            }
            while k > 0
                invariant
                    k <= n <= 16,
                    i + 1 + n <= blen,
                    blen == bytes@.len(),
                    acc == from_le(bytes@.subrange(i as int + 1 + k, i as int + 1 + n)),
                decreases k,
            {
                proof {
                    let tail = bytes@.subrange(i as int + k, i as int + 1 + n);
                    assert(tail.drop_first() =~= bytes@.subrange(i as int + 1 + k, i as int + 1
                        + n));
                    assert(from_le(tail) == tail[0] + 256 * from_le(tail.drop_first()));
                    lemma_from_le_bound(bytes@.subrange(i as int + 1 + k, i as int + 1 + n));
                    lemma_pow256_mono((n - k) as nat, 15);
                    lemma_pow256_values();
                }
                k = k - 1;
                acc = acc * 256 + (bytes[i + 1 + k] as u128);
                assert(acc == from_le(bytes@.subrange(i as int + 1 + k, i as int + 1 + n)));
            }
            proof {
                lemma_from_le_bound(bytes@.subrange(i as int + 1, i as int + 1 + n));
                lemma_pow256_mono(n as nat, 16);
                lemma_pow256_values();
            }
            Some((acc, i + 1 + n))
        } else {
            None
        }
    }
}

/// When a compact integer decodes, the next offset lies past `i` and within
/// the buffer.
pub proof fn lemma_dec_compact_range(s: Seq<u8>, i: nat)
    requires
        spec_dec_compact(s, i) is Some,
    ensures
        i < spec_dec_compact(s, i).unwrap().1 <= s.len(),
{
}

/// Encoding of a single byte.
pub open spec fn spec_u8(v: u8) -> Seq<u8> {
    seq![v]
}

/// Decoding a single byte.
pub open spec fn spec_dec_u8(s: Seq<u8>, i: nat) -> Option<(u8, nat)> {
    if i + 1 <= s.len() {
        Some((s[i as int], (i + 1) as nat))
    } else {
        None
    }
}

/// Fixed-width little-endian encoding of a `u32`.
pub open spec fn spec_u32(v: u32) -> Seq<u8> {
    le_bytes(v as nat, 4)
}

/// Decoding a fixed-width little-endian `u32`.
pub open spec fn spec_dec_u32(s: Seq<u8>, i: nat) -> Option<(u32, nat)> {
    if i + 4 <= s.len() {
        Some((from_le(s.subrange(i as int, i as int + 4)) as u32, (i + 4) as nat))
    } else {
        None
    }
}

/// Encoding of a `bool`: one byte, `1` for true and `0` for false.
pub open spec fn spec_bool(v: bool) -> Seq<u8> {
    seq![if v { 1u8 } else { 0u8 }]
}

/// Decoding a `bool`; any byte other than `0` or `1` is malformed.
pub open spec fn spec_dec_bool(s: Seq<u8>, i: nat) -> Option<(bool, nat)> {
    if i + 1 <= s.len() {
        if s[i as int] == 0 {
            Some((false, (i + 1) as nat))
        } else if s[i as int] == 1 {
            Some((true, (i + 1) as nat))
        } else {
            None
        }
    } else {
        None
    }
}

/// Length-prefixed byte sequence: the compact-encoded length followed by the
/// bytes themselves.
pub open spec fn spec_bytes(b: Seq<u8>) -> Seq<u8> {
    spec_compact(b.len() as u128) + b
}

/// Decoding a length-prefixed byte sequence; the length prefix must fit the
/// 32-bit width class the wire format declares for lengths.
pub open spec fn spec_dec_bytes(s: Seq<u8>, i: nat) -> Option<(Seq<u8>, nat)> {
    match spec_dec_compact(s, i) {
        Some((len, j)) => if len <= u32::MAX && j + len <= s.len() {
            Some((s.subrange(j as int, j as int + len as int), (j + len) as nat))
        } else {
            None
        },
        None => None,
    }
}

/// Round trip for `u32`.
pub proof fn lemma_u32_round_trip(v: u32, s: Seq<u8>, i: nat)
    requires
        i + 4 <= s.len(),
        s.subrange(i as int, i as int + 4) == spec_u32(v),
    ensures
        spec_dec_u32(s, i) == Some((v, (i + 4) as nat)),
{
    lemma_le_bytes_len(v as nat, 4);
    lemma_pow256_values();
    lemma_from_le_le_bytes(v as nat, 4);
}

/// Round trip for `u8`.
pub proof fn lemma_u8_round_trip(v: u8, s: Seq<u8>, i: nat)
    requires
        i + 1 <= s.len(),
        s.subrange(i as int, i as int + 1) == spec_u8(v),
    ensures
        spec_dec_u8(s, i) == Some((v, (i + 1) as nat)),
{
    assert(s[i as int] == s.subrange(i as int, i as int + 1)[0]);
}

/// Round trip for `bool`.
pub proof fn lemma_bool_round_trip(v: bool, s: Seq<u8>, i: nat)
    requires
        i + 1 <= s.len(),
        s.subrange(i as int, i as int + 1) == spec_bool(v),
    ensures
        spec_dec_bool(s, i) == Some((v, (i + 1) as nat)),
{
    assert(s[i as int] == s.subrange(i as int, i as int + 1)[0]);
}

/// Round trip for length-prefixed byte sequences.
pub proof fn lemma_bytes_round_trip(b: Seq<u8>, s: Seq<u8>, i: nat)
    requires
        b.len() <= u32::MAX,
        i + spec_bytes(b).len() <= s.len(),
        s.subrange(i as int, i as int + spec_bytes(b).len() as int) == spec_bytes(b),
    ensures
        spec_dec_bytes(s, i) == Some((b, (i + spec_bytes(b).len()) as nat)),
{
    let len = b.len() as u128;
    let clen = spec_compact(len).len();
    lemma_compact_len(len);
    assert(s.subrange(i as int, i as int + clen as int) =~= spec_compact(len)) by {
        assert forall|k: int| 0 <= k < clen implies s.subrange(i as int, i as int + clen as int)[k]
            == spec_compact(len)[k] by {
            assert(s[i as int + k] == s.subrange(
                i as int,
                i as int + spec_bytes(b).len() as int,
            )[k]);
        }
    }
    lemma_compact_round_trip(len, s, i);
    let j = i + clen;
    assert(s.subrange(j as int, j as int + b.len() as int) =~= b) by {
        assert forall|k: int| 0 <= k < b.len() implies s.subrange(
            j as int,
            j as int + b.len() as int,
        )[k] == b[k] by {
            assert(s[j + k] == s.subrange(i as int, i as int + spec_bytes(b).len() as int)[clen
                + k]);
        }
    }
}

/// Appends the single-byte encoding of `v` to `out`.
pub fn encode_u8(v: u8, out: &mut Vec<u8>)
    ensures
        final(out)@ == old(out)@ + spec_u8(v),
{
    out.push(v);
    assert(out@ =~= old(out)@ + spec_u8(v));
}

/// Decodes a single byte from `bytes` at offset `i`.
pub fn decode_u8(bytes: &Vec<u8>, i: usize) -> (r: Option<(u8, usize)>)
    ensures
        match r {
            Some(p) => spec_dec_u8(bytes@, i as nat) == Some((p.0, p.1 as nat)),
            None => spec_dec_u8(bytes@, i as nat) is None,
        },
{
    if i < bytes.len() {
        Some((bytes[i], i + 1))
    } else {
        None
    }
}

/// Appends the four-byte little-endian encoding of `v` to `out`.
pub fn encode_u32(v: u32, out: &mut Vec<u8>)
    ensures
        final(out)@ == old(out)@ + spec_u32(v),
{
    out.push((v % 256) as u8);
    out.push((v / 256 % 256) as u8);
    out.push((v / 65536 % 256) as u8);
    out.push((v / 16777216 % 256) as u8);
    proof {
        lemma_le_bytes_4(v as nat);
        assert(out@ =~= old(out)@ + spec_u32(v));
    }
}

/// Decodes a four-byte little-endian `u32` from `bytes` at offset `i`.
pub fn decode_u32(bytes: &Vec<u8>, i: usize) -> (r: Option<(u32, usize)>)
    ensures
        match r {
            Some(p) => spec_dec_u32(bytes@, i as nat) == Some((p.0, p.1 as nat)),
            None => spec_dec_u32(bytes@, i as nat) is None,
        },
{
    let blen = bytes.len();
    if i < blen && blen - i >= 4 {
        let x: u32 = (bytes[i] as u32) + 256 * (bytes[i + 1] as u32) + 65536 * (bytes[i
            + 2] as u32) + 16777216 * (bytes[i + 3] as u32);
        proof {
            let sub = bytes@.subrange(i as int, i as int + 4);
            lemma_from_le_4(sub);
        }
        Some((x, i + 4))
    } else {
        None
    }
}

/// Appends the one-byte encoding of `v` to `out`.
pub fn encode_bool(v: bool, out: &mut Vec<u8>)
    ensures
        final(out)@ == old(out)@ + spec_bool(v),
{
    out.push(if v { 1 } else { 0 });
    assert(out@ =~= old(out)@ + spec_bool(v));
}

/// Decodes a `bool` from `bytes` at offset `i`.
pub fn decode_bool(bytes: &Vec<u8>, i: usize) -> (r: Option<(bool, usize)>)
    ensures
        match r {
            Some(p) => spec_dec_bool(bytes@, i as nat) == Some((p.0, p.1 as nat)),
            None => spec_dec_bool(bytes@, i as nat) is None,
        },
{
    if i < bytes.len() {
        let b = bytes[i];
        if b == 0 {
            Some((false, i + 1))
        } else if b == 1 {
            Some((true, i + 1))
        } else {
            None
        }
    } else {
        None
    }
}

/// Appends the length-prefixed encoding of `data` to `out`. The wire format
/// declares lengths in a 32-bit width class, so longer sequences cannot be
/// framed.
pub fn encode_bytes(data: &Vec<u8>, out: &mut Vec<u8>)
    requires
        data@.len() <= u32::MAX,
    ensures
        final(out)@ == old(out)@ + spec_bytes(data@),
{
    encode_compact_u128(data.len() as u128, out);
    let ghost base = out@;
    let mut idx: usize = 0;
    proof {
        assert(base + data@.take(0) =~= base);
    }
    while idx < data.len()
        invariant
            idx <= data@.len(),
            out@ == base + data@.take(idx as int),
        decreases data@.len() - idx,
    {
        out.push(data[idx]);
        proof {
            assert(data@.take(idx as int) + seq![data@[idx as int]] =~= data@.take(idx as int + 1));
            assert(out@ =~= base + data@.take(idx as int + 1));
        }
        idx = idx + 1;
    }
    proof {
        assert(data@.take(data@.len() as int) =~= data@);
        assert(out@ =~= old(out)@ + spec_bytes(data@));
    }
}

/// Decodes a length-prefixed byte sequence from `bytes` at offset `i`.
pub fn decode_bytes(bytes: &Vec<u8>, i: usize) -> (r: Option<(Vec<u8>, usize)>)
    ensures
        match r {
            Some(p) => spec_dec_bytes(bytes@, i as nat) == Some((p.0@, p.1 as nat)),
            None => spec_dec_bytes(bytes@, i as nat) is None,
        },
{
    match decode_compact_u128(bytes, i) {
        None => None,
        Some((len, j)) => {
            proof {
                lemma_dec_compact_range(bytes@, i as nat);
            }
            let blen = bytes.len();
            if len <= u32::MAX as u128 && len <= (blen - j) as u128 {
                let n = len as usize;
                let mut data: Vec<u8> = Vec::new();
                let mut idx: usize = 0;
                proof {
                    assert(data@ =~= bytes@.subrange(j as int, j as int));
                }
                while idx < n
                    invariant
                        idx <= n,
                        blen == bytes@.len(),
                        j + n <= blen,
                        data@ == bytes@.subrange(j as int, j as int + idx as int),
                    decreases n - idx,
                {
                    data.push(bytes[j + idx]);
                    proof {
                        assert(bytes@.subrange(j as int, j as int + idx as int) + seq![
                            bytes@[j as int + idx as int],
                        ] =~= bytes@.subrange(j as int, j as int + idx as int + 1));
                    }
                    idx = idx + 1;
                }
                Some((data, j + n))
            } else {
                None
            }
        },
    }
}

/// If a buffer holds `a + b` at offset `i`, it holds `a` at `i` and `b` just
/// past it.
pub proof fn lemma_concat_at(s: Seq<u8>, i: nat, a: Seq<u8>, b: Seq<u8>)
    requires
        i + a.len() + b.len() <= s.len(),
        s.subrange(i as int, i as int + a.len() + b.len()) == a + b,
    ensures
        s.subrange(i as int, i as int + a.len() as int) == a,
        s.subrange(i as int + a.len() as int, i as int + a.len() + b.len()) == b,
{
    let whole = s.subrange(i as int, i as int + a.len() + b.len());
    assert(s.subrange(i as int, i as int + a.len() as int) =~= a) by {
        assert forall|k: int| 0 <= k < a.len() implies s.subrange(
            i as int,
            i as int + a.len() as int,
        )[k] == a[k] by {
            assert(s[i + k] == whole[k]);
        }
    }
    assert(s.subrange(i as int + a.len() as int, i as int + a.len() + b.len()) =~= b) by {
        assert forall|k: int| 0 <= k < b.len() implies s.subrange(
            i as int + a.len() as int,
            i as int + a.len() + b.len(),
        )[k] == b[k] by {
            assert(s[i + a.len() + k] == whole[a.len() + k]);
        }
    }
}

/// Appends `data` to `out` unchanged.
pub fn encode_raw(data: &Vec<u8>, out: &mut Vec<u8>)
    ensures
        final(out)@ == old(out)@ + data@,
{
    let ghost base = out@;
    let mut idx: usize = 0;
    proof {
        assert(base + data@.take(0) =~= base);
    }
    while idx < data.len()
        invariant
            idx <= data@.len(),
            out@ == base + data@.take(idx as int),
        decreases data@.len() - idx,
    {
        out.push(data[idx]);
        proof {
            assert(data@.take(idx as int) + seq![data@[idx as int]] =~= data@.take(idx as int + 1));
            assert(out@ =~= base + data@.take(idx as int + 1));
        }
        idx = idx + 1;
    }
    proof {
        assert(data@.take(data@.len() as int) =~= data@);
    }
}

/// Copies `n` bytes out of `bytes` starting at offset `i`, returning them
/// with the offset just past them.
pub fn decode_raw(bytes: &Vec<u8>, i: usize, n: usize) -> (r: Option<(Vec<u8>, usize)>)
    ensures
        match r {
            Some(p) => i + n <= bytes@.len() && p.0@ == bytes@.subrange(
                i as int,
                i as int + n as int,
            ) && p.1 == i + n,
            None => i + n > bytes@.len(),
        },
{
    let blen = bytes.len();
    if i <= blen && blen - i >= n {
        let mut data: Vec<u8> = Vec::new();
        let mut idx: usize = 0;
        proof {
            assert(data@ =~= bytes@.subrange(i as int, i as int));
        }
        while idx < n
            invariant
                idx <= n,
                blen == bytes@.len(),
                i + n <= blen,
                data@ == bytes@.subrange(i as int, i as int + idx as int),
            decreases n - idx,
        {
            data.push(bytes[i + idx]);
            proof {
                assert(bytes@.subrange(i as int, i as int + idx as int) + seq![
                    bytes@[i as int + idx as int],
                ] =~= bytes@.subrange(i as int, i as int + idx as int + 1));
            }
            idx = idx + 1;
        }
        Some((data, i + n))
    } else {
        None
    }
}

/// Compact encoding is canonical: distinct values never share an encoding.
pub proof fn lemma_compact_injective(v1: u128, v2: u128)
    requires
        spec_compact(v1) == spec_compact(v2),
    ensures
        v1 == v2,
{
    let s = spec_compact(v1);
    assert(s.subrange(0, s.len() as int) =~= s);
    lemma_compact_round_trip(v1, s, 0);
    lemma_compact_round_trip(v2, s, 0);
}

} // verus!
