//! Big-endian integers and the masking transform of the wire format.
use vstd::prelude::*;

verus! {

/// `256` to the power `n`.
pub open spec fn pow256(n: nat) -> nat
    decreases n,
{
    if n == 0 {
        1
    } else {
        256 * pow256((n - 1) as nat)
    }
}

/// The unsigned integer that `s` encodes in big-endian order.
pub open spec fn be_value(s: Seq<u8>) -> nat
    decreases s.len(),
{
    if s.len() == 0 {
        0
    } else {
        be_value(s.drop_last()) * 256 + s.last() as nat
    }
}

/// The `n` low bytes of `v`, most significant first.
pub open spec fn be_bytes(v: nat, n: nat) -> Seq<u8>
    decreases n,
{
    if n == 0 {
        Seq::empty()
    } else {
        be_bytes(v / 256, (n - 1) as nat).push((v % 256) as u8)
    }
}

/// The values of `n` big-endian bytes are those below `256^n`.
pub proof fn lemma_be_value_bound(s: Seq<u8>)
    ensures
        be_value(s) < pow256(s.len()),
    decreases s.len(),
{
    if s.len() > 0 {
        lemma_be_value_bound(s.drop_last());
        let p = pow256((s.len() - 1) as nat);
        let v = be_value(s.drop_last());
        let l = s.last() as nat;
        assert(v * 256 + l < 256 * p) by (nonlinear_arith)
            requires
                v < p,
                l < 256,
        ;
    }
}

/// Writing `n` big-endian bytes and reading them back gives the value, where it fits.
pub proof fn lemma_be_round_trip(v: nat, n: nat)
    requires
        v < pow256(n),
    ensures
        be_bytes(v, n).len() == n,
        be_value(be_bytes(v, n)) == v,
    decreases n,
{
    if n > 0 {
        let p = pow256((n - 1) as nat);
        assert(v / 256 < p) by (nonlinear_arith)
            requires
                v < 256 * p,
        ;
        lemma_be_round_trip(v / 256, (n - 1) as nat);
        let s = be_bytes(v, n);
        assert(s.drop_last() =~= be_bytes(v / 256, (n - 1) as nat));
    }
}

/// `256^n` for the widths that the wire format uses.
pub proof fn lemma_pow256_values()
    ensures
        pow256(2) == 0x1_0000,
        pow256(4) == 0x1_0000_0000,
        pow256(8) == 0x1_0000_0000_0000_0000,
{
    reveal_with_fuel(pow256, 9);
}

/// Reads the `n` bytes of `s` from `start` as a big-endian integer.
pub fn read_be(s: &[u8], start: usize, n: usize) -> (r: u64)
    requires
        start + n <= s@.len(),
        n <= 8,
    ensures
        r == be_value(s@.subrange(start as int, start + n)),
{
    let len = s.len();
    let mut v: u64 = 0;
    let mut i: usize = 0;
    proof {
        assert(s@.subrange(start as int, start as int) =~= Seq::<u8>::empty());
    }
    while i < n
        invariant
            i <= n,
            n <= 8,
            start + n <= s@.len(),
            len == s@.len(),
            v == be_value(s@.subrange(start as int, start + i)),
        decreases n - i,
    {
        let ghost prefix = s@.subrange(start as int, start + i);
        let ghost next = s@.subrange(start as int, start + i + 1);
        proof {
            assert(next.drop_last() =~= prefix);
            lemma_be_value_bound(prefix);
            lemma_pow256_values();
            lemma_pow256_monotone(i as nat, 7);
            assert(v * 256 + 255 <= 0xffff_ffff_ffff_ffff) by (nonlinear_arith)
                requires
                    v < pow256(i as nat),
                    pow256(i as nat) <= pow256(7),
                    pow256(8) == 256 * pow256(7),
                    pow256(8) == 0x1_0000_0000_0000_0000,
            ;
        }
        let b = s[start + i];
        v = v * 256 + b as u64;
        i = i + 1;
    }
    v
}

/// `256^n` grows with `n`.
pub proof fn lemma_pow256_monotone(a: nat, b: nat)
    requires
        a <= b,
    ensures
        pow256(a) <= pow256(b),
    decreases b,
{
    if a < b {
        lemma_pow256_monotone(a, (b - 1) as nat);
    }
}

/// Appends the `n` low bytes of `v` to `out`, most significant first.
pub fn push_be(out: &mut Vec<u8>, v: u64, n: usize)
    ensures
        final(out)@ == old(out)@ + be_bytes(v as nat, n as nat),
    decreases n,
{
    if n == 0 {
        assert(old(out)@ + Seq::<u8>::empty() =~= old(out)@);
    } else {
        push_be(out, v / 256, n - 1);
        out.push((v % 256) as u8);
        assert(final(out)@ =~= old(out)@ + be_bytes(v as nat, n as nat));
    }
}

/// The key byte that masks byte `i` of a payload: byte `i mod 4` of the key, big-endian.
pub open spec fn mask_byte(key: u32, i: int) -> u8 {
    be_bytes(key as nat, 4)[i % 4]
}

/// `data` with each byte XORed by its key byte.
pub open spec fn masked(data: Seq<u8>, key: u32) -> Seq<u8> {
    Seq::new(data.len(), |i: int| data[i] ^ mask_byte(key, i))
}

/// Masking twice with one key gives the data back; masking keeps the length and
/// XORs byte `i` with key byte `i mod 4`.
pub proof fn lemma_mask_symmetry(data: Seq<u8>, key: u32)
    ensures
        masked(masked(data, key), key) == data,
        masked(data, key).len() == data.len(),
        forall|i: int|
            0 <= i < data.len() ==> #[trigger] masked(data, key)[i] == data[i] ^ be_bytes(
                key as nat,
                4,
            )[i % 4],
{
    let m = masked(data, key);
    assert forall|i: int| 0 <= i < data.len() implies #[trigger] masked(m, key)[i] == data[i] by {
        let a = data[i];
        let b = mask_byte(key, i);
        assert((a ^ b) ^ b == a) by (bit_vector);
    }
    assert(masked(m, key) =~= data);
}

/// Masks (or unmasks) `buf` in place with `key`.
pub fn apply_mask(buf: &mut Vec<u8>, key: u32)
    ensures
        final(buf)@ == masked(old(buf)@, key),
{
    let mut kb: Vec<u8> = Vec::new();
    push_be(&mut kb, key as u64, 4);
    proof {
        lemma_pow256_values();
        lemma_be_round_trip(key as nat, 4);
        assert(kb@ =~= be_bytes(key as nat, 4));
    }
    let n = buf.len();
    let mut i: usize = 0;
    while i < n
        invariant
            n == buf@.len(),
            n == old(buf)@.len(),
            i <= n,
            kb@ == be_bytes(key as nat, 4),
            kb@.len() == 4,
            forall|j: int| 0 <= j < i ==> buf@[j] == #[trigger] masked(old(buf)@, key)[j],
            forall|j: int| i <= j < n ==> buf@[j] == old(buf)@[j],
        decreases n - i,
    {
        let b = buf[i] ^ kb[i % 4];
        buf[i] = b;
        i = i + 1;
    }
    assert(buf@ =~= masked(old(buf)@, key));
}

} // verus!
