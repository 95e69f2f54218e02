//! The compact-size encoding of unsigned integers used for the
//! variable-length fields of the token prefix: one leading byte either holds
//! the value itself (below `0xfd`) or selects a 2-, 4- or 8-byte
//! little-endian payload.

use vstd::prelude::*;

verus! {

/// Value of a byte sequence read as a little-endian integer.
pub open spec fn le_val(s: Seq<u8>) -> nat
    decreases s.len(),
{
    if s.len() == 0 {
        0
    } else {
        s[0] as nat + 256 * le_val(s.subrange(1, s.len() as int))
    }
}

/// The `n` little-endian bytes of `v`; drops anything at or above `256^n`.
pub open spec fn le_bytes(v: nat, n: nat) -> Seq<u8>
    decreases n,
{
    if n == 0 {
        Seq::empty()
    } else {
        seq![(v % 256) as u8] + le_bytes(v / 256, (n - 1) as nat)
    }
}

/// `256^n`.
pub open spec fn pow256(n: nat) -> nat
    decreases n,
{
    if n == 0 {
        1
    } else {
        256 * pow256((n - 1) as nat)
    }
}

pub proof fn lemma_pow256_values()
    ensures
        pow256(1) == 0x100,
        pow256(2) == 0x1_0000,
        pow256(4) == 0x1_0000_0000,
        pow256(7) == 0x100_0000_0000_0000,
        pow256(8) == 0x1_0000_0000_0000_0000,
{
    assert(pow256(0) == 1);
    assert(pow256(1) == 0x100);
    assert(pow256(2) == 0x1_0000);
    assert(pow256(3) == 0x100_0000);
    assert(pow256(4) == 0x1_0000_0000);
    assert(pow256(5) == 0x100_0000_0000);
    assert(pow256(6) == 0x1_0000_0000_0000);
    assert(pow256(7) == 0x100_0000_0000_0000);
    assert(pow256(8) == 0x1_0000_0000_0000_0000);
}

pub proof fn lemma_pow256_mono(m: nat, n: nat)
    requires
        m <= n,
    ensures
        pow256(m) <= pow256(n),
    decreases n,
{
    if m < n {
        lemma_pow256_mono(m, (n - 1) as nat);
    }
}

pub proof fn lemma_le_bytes_len(v: nat, n: nat)
    ensures
        le_bytes(v, n).len() == n,
    decreases n,
{
    if n > 0 {
        lemma_le_bytes_len(v / 256, (n - 1) as nat);
    }
}

pub proof fn lemma_le_val_bound(s: Seq<u8>)
    ensures
        le_val(s) < pow256(s.len()),
    decreases s.len(),
{
    if s.len() > 0 {
        lemma_le_val_bound(s.subrange(1, s.len() as int));
    }
}

/// Reading back the little-endian bytes of a value recovers the value.
pub proof fn lemma_le_round_trip(v: nat, n: nat)
    requires
        v < pow256(n),
    ensures
        le_val(le_bytes(v, n)) == v,
    decreases n,
{
    if n == 0 {
    } else {
        let q = v / 256;
        assert(q < pow256((n - 1) as nat)) by (nonlinear_arith)
            requires
                v < 256 * pow256((n - 1) as nat),
                q == v / 256,
        ;
        lemma_le_round_trip(q, (n - 1) as nat);
        lemma_le_bytes_len(v, n);
        lemma_le_bytes_len(q, (n - 1) as nat);
        let bs = le_bytes(v, n);
        assert(bs.subrange(1, bs.len() as int) =~= le_bytes(q, (n - 1) as nat));
        vstd::arithmetic::div_mod::lemma_fundamental_div_mod(v as int, 256);
    }
}

/// Compact-size value decoded at position `pos` of `s`: the value and the
/// position just past it.  Fails exactly when fewer bytes remain than the
/// leading byte demands.
pub open spec fn cs_decode(s: Seq<u8>, pos: int) -> Option<(u64, int)> {
    if !(0 <= pos < s.len()) {
        Option::None
    } else {
        let b0 = s[pos];
        if b0 < 0xfd {
            Option::Some((b0 as u64, pos + 1))
        } else {
            let n: int = if b0 == 0xfd {
                2
            } else if b0 == 0xfe {
                4
            } else {
                8
            };
            if pos + 1 + n <= s.len() {
                Option::Some((le_val(s.subrange(pos + 1, pos + 1 + n)) as u64, pos + 1 + n))
            } else {
                Option::None
            }
        }
    }
}

/// Canonical compact-size encoding of `v`.
pub open spec fn cs_encode(v: u64) -> Seq<u8> {
    if v < 0xfd {
        seq![v as u8]
    } else if v <= 0xffff {
        seq![0xfdu8] + le_bytes(v as nat, 2)
    } else if v <= 0xffff_ffff {
        seq![0xfeu8] + le_bytes(v as nat, 4)
    } else {
        seq![0xffu8] + le_bytes(v as nat, 8)
    }
}

pub proof fn lemma_cs_encode_len(v: u64)
    ensures
        1 <= cs_encode(v).len() <= 9,
        v < 0xfd ==> cs_encode(v).len() == 1,
        0xfd <= v <= 0xffff ==> cs_encode(v).len() == 3,
        0xffff < v <= 0xffff_ffff ==> cs_encode(v).len() == 5,
        0xffff_ffff < v ==> cs_encode(v).len() == 9,
{
    if v < 0xfd {
    } else if v <= 0xffff {
        lemma_le_bytes_len(v as nat, 2);
    } else if v <= 0xffff_ffff {
        lemma_le_bytes_len(v as nat, 4);
    } else {
        lemma_le_bytes_len(v as nat, 8);
    }
}

/// Decoding at a position where the canonical encoding of `v` was laid down
/// yields `v` and stops right after it.
pub proof fn lemma_cs_decode_encode(s: Seq<u8>, pos: int, v: u64)
    requires
        0 <= pos,
        pos + cs_encode(v).len() <= s.len(),
        s.subrange(pos, pos + cs_encode(v).len() as int) == cs_encode(v),
    ensures
        cs_decode(s, pos) == Option::Some((v, pos + cs_encode(v).len() as int)),
{
    lemma_cs_encode_len(v);
    lemma_pow256_values();
    let e = cs_encode(v);
    assert(s[pos] == s.subrange(pos, pos + e.len() as int)[0]);
    if v < 0xfd {
        assert(s[pos] == v as u8);
    } else {
        let n: int = if v <= 0xffff {
            2
        } else if v <= 0xffff_ffff {
            4
        } else {
            8
        };
        lemma_le_bytes_len(v as nat, n as nat);
        assert(e[0] == if n == 2 {
            0xfdu8
        } else if n == 4 {
            0xfeu8
        } else {
            0xffu8
        });
        assert(s[pos] == e[0]);
        assert(s.subrange(pos + 1, pos + 1 + n) =~= le_bytes(v as nat, n as nat)) by {
            assert forall|i: int| 0 <= i < n implies s.subrange(pos + 1, pos + 1 + n)[i]
                == #[trigger] le_bytes(v as nat, n as nat)[i] by {
                assert(s.subrange(pos + 1, pos + 1 + n)[i] == s[pos + 1 + i]);
                assert(s[pos + 1 + i] == s.subrange(pos, pos + e.len() as int)[1 + i]);
                assert(e[1 + i] == le_bytes(v as nat, n as nat)[i]);
            }
        }
        lemma_le_round_trip(v as nat, n as nat);
    }
}

/// Reads the `n`-byte little-endian integer at `s[pos..pos + n]`.
fn read_le(s: &Vec<u8>, pos: usize, n: usize) -> (r: u64)
    requires
        pos + n <= s@.len(),
        n <= 8,
    ensures
        r == le_val(s@.subrange(pos as int, pos + n as int)),
{
    proof {
        lemma_pow256_values();
    }
    let len = s.len();
    let mut r: u64 = 0;
    let mut k: usize = n;
    while k > 0
        invariant
            pos + n <= len,
            len == s@.len(),
            n <= 8,
            k <= n,
            r == le_val(s@.subrange(pos + k as int, pos + n as int)),
            r < pow256((n - k) as nat),
        decreases k,
    {
        k = k - 1;
        proof {
            lemma_pow256_mono(((n - k) as nat), 8);
            lemma_pow256_values();
            assert(pow256((n - k) as nat) == 256 * pow256((n - k - 1) as nat));
            let t = s@.subrange(pos + k as int, pos + n as int);
            assert(t.subrange(1, t.len() as int) =~= s@.subrange(pos + k + 1, pos + n as int));
            assert(le_val(t) == t[0] as nat + 256 * le_val(
                s@.subrange(pos + k + 1, pos + n as int),
            ));
        }
        r = r * 256 + (s[pos + k] as u64);
    }
    proof {
        assert(s@.subrange(pos as int, pos + n as int) == s@.subrange(pos + 0, pos + n as int));
    }
    r
}

/// Reads the compact-size integer at `pos`; `None` when fewer bytes remain
/// than its leading byte demands.
pub fn read_compact_size(s: &Vec<u8>, pos: usize) -> (r: Option<(u64, usize)>)
    requires
        pos <= s@.len(),
    ensures
        match r {
            Option::Some(p) => cs_decode(s@, pos as int) == Option::Some((p.0, p.1 as int)) && pos
                < p.1 <= s@.len(),
            Option::None => cs_decode(s@, pos as int) is None,
        },
{
    if pos >= s.len() {
        return Option::None;
    }
    let b0 = s[pos];
    if b0 < 0xfd {
        Option::Some((b0 as u64, pos + 1))
    } else {
        let n: usize = if b0 == 0xfd {
            2
        } else if b0 == 0xfe {
            4
        } else {
            8
        };
        if s.len() - pos - 1 >= n {
            let v = read_le(s, pos + 1, n);
            proof {
                lemma_le_val_bound(s@.subrange(pos + 1, pos + 1 + n as int));
                lemma_pow256_mono(n as nat, 8);
                lemma_pow256_values();
            }
            Option::Some((v, pos + 1 + n))
        } else {
            Option::None
        }
    }
}

} // verus!
