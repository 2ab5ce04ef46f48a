//! Little-endian encoding of immediates, as x86 stores them.
use vstd::prelude::*;

verus! {

/// `256` to the power `k`.
pub open spec fn pow256(k: nat) -> nat
    decreases k,
{
    if k == 0 {
        1
    } else {
        256 * pow256((k - 1) as nat)
    }
}

/// The `n` low bytes of `v`, lowest first.
pub open spec fn le_bytes(v: nat, n: nat) -> Seq<u8>
    decreases n,
{
    if n == 0 {
        seq![]
    } else {
        le_bytes(v, (n - 1) as nat).push(((v / pow256((n - 1) as nat)) % 256) as u8)
    }
}

/// The number whose little-endian bytes are `bytes`.
pub open spec fn le_value(bytes: Seq<u8>) -> nat
    decreases bytes.len(),
{
    if bytes.len() == 0 {
        0
    } else {
        le_value(bytes.drop_last()) + (bytes.last() as nat) * pow256((bytes.len() - 1) as nat)
    }
}

proof fn lemma_pow256_positive(k: nat)
    ensures
        pow256(k) > 0,
    decreases k,
{
    if k > 0 {
        lemma_pow256_positive((k - 1) as nat);
    }
}

/// Encoding `n` bytes of a number and decoding them gives the number back,
/// modulo `256^n`; `n` bytes are written.
pub proof fn lemma_le_roundtrip(v: nat, n: nat)
    ensures
        le_bytes(v, n).len() == n,
        le_value(le_bytes(v, n)) == v % pow256(n),
    decreases n,
{
    if n > 0 {
        let k = (n - 1) as nat;
        lemma_le_roundtrip(v, k);
        lemma_pow256_positive(k);
        let bytes = le_bytes(v, n);
        assert(bytes.drop_last() =~= le_bytes(v, k));
        assert(pow256(n) == pow256(k) * 256);
        vstd::arithmetic::div_mod::lemma_mod_breakdown(v as int, pow256(k) as int, 256);
        vstd::arithmetic::mul::lemma_mul_is_commutative(
            pow256(k) as int,
            ((v / pow256(k)) % 256) as int,
        );
    }
}

/// Writing the `n` low bytes of `v` one at a time: byte `k` of the encoding
/// is `v / 256^k` modulo 256.
proof fn lemma_le_bytes_index(v: nat, n: nat, k: int)
    requires
        0 <= k < n,
    ensures
        le_bytes(v, n)[k] == ((v / pow256(k as nat)) % 256) as u8,
    decreases n,
{
    lemma_le_roundtrip(v, n);
    if k < n - 1 {
        lemma_le_bytes_index(v, (n - 1) as nat, k);
        lemma_le_roundtrip(v, (n - 1) as nat);
    }
}

/// Dividing by `256^k` and then by 256 is dividing by `256^(k+1)`.
proof fn lemma_pow256_div_step(v: nat, k: nat)
    ensures
        (v / pow256(k)) / 256 == v / pow256(k + 1),
{
    lemma_pow256_positive(k);
    vstd::arithmetic::div_mod::lemma_div_denominator(v as int, pow256(k) as int, 256);
    assert(pow256(k + 1) == 256 * pow256(k));
    vstd::arithmetic::mul::lemma_mul_is_commutative(256, pow256(k) as int);
}

/// Appends the `n` low bytes of `value` to `target`, lowest first.
pub fn push_le_bytes(target: &mut Vec<u8>, value: u64, n: usize)
    requires
        n <= 8,
    ensures
        final(target)@ == old(target)@ + le_bytes(value as nat, n as nat),
{
    let mut rest = value;
    let mut k: usize = 0;
    assert(pow256(0) == 1);
    assert(value as nat / 1 == value as nat);
    while k < n
        invariant
            k <= n,
            rest == value as nat / pow256(k as nat),
            target@ == old(target)@ + le_bytes(value as nat, k as nat),
        decreases n - k,
    {
        target.push((rest % 256) as u8);
        proof {
            lemma_pow256_div_step(value as nat, k as nat);
            assert(le_bytes(value as nat, (k + 1) as nat) == le_bytes(value as nat, k as nat).push(
                ((value as nat / pow256(k as nat)) % 256) as u8,
            ));
            assert(old(target)@ + le_bytes(value as nat, (k + 1) as nat) =~= (old(target)@
                + le_bytes(value as nat, k as nat)).push(((rest % 256) as u8)));
        }
        rest = rest / 256;
        k = k + 1;
    }
}

/// Writes the 8 little-endian bytes of `value` over `code[at..at + 8]`.
pub fn place_le_u64(code: &mut Vec<u8>, at: usize, value: u64)
    requires
        at + 8 <= old(code)@.len(),
    ensures
        final(code)@.len() == old(code)@.len(),
        final(code)@.subrange(at as int, at + 8) == le_bytes(value as nat, 8),
        forall|i: int|
            0 <= i < old(code)@.len() && !(at <= i < at + 8) ==> #[trigger] final(code)@[i] == old(
                code,
            )@[i],
{
    let mut rest = value;
    let mut k: usize = 0;
    let len = code.len();
    assert(pow256(0) == 1);
    assert(value as nat / 1 == value as nat);
    proof {
        lemma_le_roundtrip(value as nat, 8);
    }
    while k < 8
        invariant
            k <= 8,
            len == code@.len(),
            at + 8 <= code@.len(),
            code@.len() == old(code)@.len(),
            rest == value as nat / pow256(k as nat),
            forall|i: int| 0 <= i < k ==> #[trigger] code@[at + i] == le_bytes(value as nat, 8)[i],
            forall|i: int|
                0 <= i < old(code)@.len() && !(at <= i < at + k) ==> #[trigger] code@[i] == old(
                    code,
                )@[i],
        decreases 8 - k,
    {
        proof {
            lemma_le_bytes_index(value as nat, 8, k as int);
            lemma_pow256_div_step(value as nat, k as nat);
        }
        code.set(at + k, (rest % 256) as u8);
        rest = rest / 256;
        k = k + 1;
    }
    assert forall|i: int| 0 <= i < 8 implies #[trigger] code@.subrange(at as int, at + 8)[i]
        == le_bytes(value as nat, 8)[i] by {
        assert(code@.subrange(at as int, at + 8)[i] == code@[at + i]);
    }
    assert(code@.subrange(at as int, at + 8) =~= le_bytes(value as nat, 8));
}

} // verus!
