//! Canonical encoding of Boolean vectors: most significant bit first.
use vstd::arithmetic::power2::{lemma2_to64, lemma2_to64_rest, lemma_pow2_unfold, pow2};
use vstd::prelude::*;

verus! {

/// The integer that a Boolean vector spells, first element most significant.
pub open spec fn encode(v: Seq<bool>) -> nat
    decreases v.len(),
{
    if v.len() == 0 {
        0
    } else {
        2 * encode(v.drop_last()) + (if v.last() { 1nat } else { 0nat })
    }
}

/// `k` shifted right by `j` places in base `b`.
pub open spec fn shifted(k: nat, b: nat, j: nat) -> nat
    decreases j,
{
    if j == 0 {
        k
    } else {
        shifted(k, b, (j - 1) as nat) / b
    }
}

/// Digit `j` (least significant first) of `k` written in base `b`.
pub open spec fn digit(k: nat, b: nat, j: nat) -> nat {
    shifted(k, b, j) % b
}

/// The `n` bits of `k`, most significant first.
pub open spec fn decode(k: nat, n: nat) -> Seq<bool> {
    Seq::new(n, |i: int| digit(k, 2, (n - 1 - i) as nat) == 1)
}

/// One more shift divides once more.
pub proof fn lemma_shifted_next(k: nat, b: nat, j: nat)
    ensures
        shifted(k, b, j + 1) == shifted(k, b, j) / b,
{
}

proof fn lemma_shifted_step(k: nat, b: nat, j: nat)
    requires
        b > 0,
    ensures
        shifted(k, b, j + 1) == shifted(k / b, b, j),
    decreases j,
{
    assert(shifted(k, b, j + 1) == shifted(k, b, j) / b);
    if j > 0 {
        lemma_shifted_step(k, b, (j - 1) as nat);
        assert(shifted(k / b, b, j) == shifted(k / b, b, (j - 1) as nat) / b);
    } else {
        assert(shifted(k, b, 0) == k);
    }
}

proof fn lemma_decode_drop_last(k: nat, n: nat)
    requires
        n > 0,
    ensures
        decode(k, n).drop_last() =~= decode(k / 2, (n - 1) as nat),
        decode(k, n).last() == (k % 2 == 1),
{
    assert forall|i: int| 0 <= i < n - 1 implies decode(k, n)[i] == decode(k / 2, (n - 1) as nat)[i] by {
        lemma_shifted_step(k, 2, (n - 2 - i) as nat);
    }
}

/// Decoding then encoding gives back every integer below `2^n`.
pub proof fn lemma_encode_decode(k: nat, n: nat)
    requires
        k < pow2(n),
    ensures
        encode(decode(k, n)) == k,
        decode(k, n).len() == n,
    decreases n,
{
    if n == 0 {
        lemma2_to64();
    } else {
        lemma_pow2_unfold(n);
        lemma_decode_drop_last(k, n);
        lemma_encode_decode(k / 2, (n - 1) as nat);
    }
}

/// Encoding then decoding gives back every Boolean vector.
pub proof fn lemma_decode_encode(v: Seq<bool>)
    ensures
        decode(encode(v), v.len()) =~= v,
    decreases v.len(),
{
    if v.len() > 0 {
        let n = v.len();
        lemma_decode_encode(v.drop_last());
        lemma_decode_drop_last(encode(v), n);
        assert(encode(v) / 2 == encode(v.drop_last()));
        assert forall|i: int| 0 <= i < n implies decode(encode(v), n)[i] == v[i] by {
            if i < n - 1 {
                assert(decode(encode(v), n).drop_last()[i] == v.drop_last()[i]);
            }
        }
    }
}

/// The encoding of a vector of length `n` lies below `2^n`.
pub proof fn lemma_encode_bound(v: Seq<bool>)
    ensures
        encode(v) < pow2(v.len()),
    decreases v.len(),
{
    if v.len() == 0 {
        lemma2_to64();
    } else {
        lemma_encode_bound(v.drop_last());
        lemma_pow2_unfold(v.len());
    }
}

/// A table of at most four inputs has at most 16 rows and there are at most
/// 65536 such tables.
pub proof fn lemma_table_sizes(n: nat)
    requires
        n <= 4,
    ensures
        1 <= pow2(n) <= 16,
        pow2(pow2(n)) <= 65536,
{
    lemma2_to64();
}

/// The canonical encoding of `input`, most significant bit first.
pub fn binary_to_dec(input: &[bool]) -> (r: u64)
    requires
        input@.len() <= 64,
    ensures
        r == encode(input@),
{
    let mut result: u64 = 0;
    let mut i: usize = 0;
    proof {
        lemma2_to64();
        lemma2_to64_rest();
    }
    while i < input.len()
        invariant
            i <= input@.len() <= 64,
            result == encode(input@.subrange(0, i as int)),
            result < pow2(i as nat),
            pow2(64) == 0x10000000000000000,
        decreases input@.len() - i,
    {
        proof {
            let s = input@.subrange(0, i as int + 1);
            assert(s.drop_last() =~= input@.subrange(0, i as int));
            lemma_pow2_unfold((i + 1) as nat);
            if i + 1 < 64 {
                vstd::arithmetic::power2::lemma_pow2_strictly_increases((i + 1) as nat, 64);
            }
        }
        result = 2 * result + if input[i] { 1u64 } else { 0u64 };
        i = i + 1;
    }
    assert(input@.subrange(0, i as int) =~= input@);
    result
}

/// The `n` bits of `k`, most significant first.
pub fn dec_to_binary(k: u64, n: usize) -> (r: Vec<bool>)
    requires
        n <= 64,
    ensures
        r@ == decode(k as nat, n as nat),
{
    let mut bits: Vec<bool> = Vec::new();
    let mut j: usize = 0;
    while j < n
        invariant
            j <= n,
            bits@.len() == j,
        decreases n - j,
    {
        bits.push(false);
        j = j + 1;
    }
    let mut rest: u64 = k;
    j = 0;
    while j < n
        invariant
            j <= n,
            bits@.len() == n,
            rest as nat == shifted(k as nat, 2, j as nat),
            forall|i: int| n - j <= i < n ==> bits@[i] == decode(k as nat, n as nat)[i],
        decreases n - j,
    {
        let pos = n - 1 - j;
        bits.set(pos, rest % 2 == 1);
        rest = rest / 2;
        j = j + 1;
    }
    assert(bits@ =~= decode(k as nat, n as nat));
    bits
}


/// The encodings of the inputs of the true rows among the first `k`, in row
/// order.
pub open spec fn true_rows(inputs: Seq<Seq<bool>>, output: Seq<bool>, k: nat) -> Seq<nat>
    decreases k,
{
    if k == 0 {
        seq![]
    } else if output[k - 1] {
        true_rows(inputs, output, (k - 1) as nat).push(encode(inputs[k - 1]))
    } else {
        true_rows(inputs, output, (k - 1) as nat)
    }
}

/// The encodings of the inputs of the rows whose output is true, in row order.
pub fn program_to_set(inputs: &[Vec<bool>], output: &[bool]) -> (r: Vec<u64>)
    requires
        inputs@.len() == output@.len(),
        forall|i: int| 0 <= i < inputs@.len() ==> (#[trigger] inputs@[i])@.len() <= 64,
    ensures
        r@.map_values(|x: u64| x as nat) == true_rows(inputs@.map_values(|v: Vec<bool>| v@), output@, output@.len()),
{
    let ghost ins = inputs@.map_values(|v: Vec<bool>| v@);
    let mut trues: Vec<u64> = Vec::new();
    let mut i: usize = 0;
    while i < output.len()
        invariant
            i <= output@.len() == inputs@.len(),
            ins == inputs@.map_values(|v: Vec<bool>| v@),
            forall|j: int| 0 <= j < inputs@.len() ==> (#[trigger] inputs@[j])@.len() <= 64,
            trues@.map_values(|x: u64| x as nat) == true_rows(ins, output@, i as nat),
        decreases output@.len() - i,
    {
        if output[i] {
            let c = binary_to_dec(inputs[i].as_slice());
            let ghost before = trues@;
            trues.push(c);
            assert(trues@.map_values(|x: u64| x as nat) =~= before.map_values(|x: u64| x as nat).push(c as nat));
        }
        i = i + 1;
    }
    trues
}

} // verus!
