use vstd::prelude::*;

verus! {

/// The integer value of four bytes read in big-endian order.
pub open spec fn be_u32_of(s: Seq<u8>) -> int
    recommends
        s.len() == 4,
{
    (s[0] as int) * 0x100_0000 + (s[1] as int) * 0x1_0000 + (s[2] as int) * 0x100 + (s[3] as int)
}

/// The four bytes of a 32-bit value, most significant first.
pub open spec fn be_bytes_of_u32(n: int) -> Seq<u8>
    recommends
        0 <= n < 0x1_0000_0000,
{
    seq![
        (n / 0x100_0000 % 0x100) as u8,
        (n / 0x1_0000 % 0x100) as u8,
        (n / 0x100 % 0x100) as u8,
        (n % 0x100) as u8,
    ]
}

/// Writing a 32-bit value as four big-endian bytes and reading them back
/// yields the value again.
pub proof fn lemma_be_u32_round_trip(n: int)
    requires
        0 <= n < 0x1_0000_0000,
    ensures
        be_bytes_of_u32(n).len() == 4,
        be_u32_of(be_bytes_of_u32(n)) == n,
{
    assert((n / 0x100_0000 % 0x100) * 0x100_0000 + (n / 0x1_0000 % 0x100) * 0x1_0000 + (n / 0x100
        % 0x100) * 0x100 + n % 0x100 == n) by (nonlinear_arith)
        requires
            0 <= n < 0x1_0000_0000,
    ;
}

/// Reading four bytes as a big-endian value and writing that value back
/// yields the same four bytes.
pub proof fn lemma_be_u32_bytes_round_trip(s: Seq<u8>)
    requires
        s.len() == 4,
    ensures
        0 <= be_u32_of(s) < 0x1_0000_0000,
        be_bytes_of_u32(be_u32_of(s)) == s,
{
    let n = be_u32_of(s);
    let b0 = s[0] as int;
    let b1 = s[1] as int;
    let b2 = s[2] as int;
    let b3 = s[3] as int;
    let q2 = b0 * 0x1_0000 + b1 * 0x100 + b2;
    let q1 = b0 * 0x100 + b1;
    vstd::arithmetic::div_mod::lemma_fundamental_div_mod_converse(n, 0x100, q2, b3);
    vstd::arithmetic::div_mod::lemma_fundamental_div_mod_converse(q2, 0x100, q1, b2);
    vstd::arithmetic::div_mod::lemma_fundamental_div_mod_converse(q1, 0x100, b0, b1);
    vstd::arithmetic::div_mod::lemma_div_denominator(n, 0x100, 0x100);
    assert(0x100 * 0x100 == 0x1_0000);
    assert(n / 0x1_0000 == q1);
    vstd::arithmetic::div_mod::lemma_div_denominator(n, 0x1_0000, 0x100);
    assert(0x1_0000 * 0x100 == 0x100_0000);
    assert(n / 0x100_0000 == b0);
    vstd::arithmetic::div_mod::lemma_small_mod(s[0] as nat, 0x100);
    assert(n % 0x100 == b3 && n / 0x100 % 0x100 == b2 && n / 0x1_0000 % 0x100 == b1 && n
        / 0x100_0000 % 0x100 == b0);
    assert(be_bytes_of_u32(n) =~= s);
}

/// Reads the four bytes at `pos` as a big-endian 32-bit value.
pub fn read_be_u32(data: &[u8], pos: usize) -> (r: u32)
    requires
        pos + 4 <= data@.len(),
    ensures
        r as int == be_u32_of(data@.subrange(pos as int, pos as int + 4)),
{
    let b0 = data[pos] as u32;
    let b1 = data[pos + 1] as u32;
    let b2 = data[pos + 2] as u32;
    let b3 = data[pos + 3] as u32;
    b0 * 0x100_0000 + b1 * 0x1_0000 + b2 * 0x100 + b3
}

/// Appends the four big-endian bytes of `n` to `out`.
pub fn push_be_u32(out: &mut Vec<u8>, n: u32)
    ensures
        final(out)@ == old(out)@ + be_bytes_of_u32(n as int),
{
    out.push((n / 0x100_0000 % 0x100) as u8);
    out.push((n / 0x1_0000 % 0x100) as u8);
    out.push((n / 0x100 % 0x100) as u8);
    out.push((n % 0x100) as u8);
    proof {
        assert(out@ =~= old(out)@ + be_bytes_of_u32(n as int));
    }
}

/// Appends every byte of `src` to `out`, in order.
pub fn append_bytes(out: &mut Vec<u8>, src: &[u8])
    ensures
        final(out)@ == old(out)@ + src@,
{
    let mut i: usize = 0;
    while i < src.len()
        invariant
            0 <= i <= src@.len(),
            out@ == old(out)@ + src@.take(i as int),
        decreases src@.len() - i,
    {
        out.push(src[i]);
        i = i + 1;
        proof {
            assert(out@ =~= old(out)@ + src@.take(i as int));
        }
    }
    proof {
        assert(out@ =~= old(out)@ + src@);
    }
}

/// Copies `data[start..end]` into a fresh vector.
pub fn copy_range(data: &[u8], start: usize, end: usize) -> (r: Vec<u8>)
    requires
        start <= end <= data@.len(),
    ensures
        r@ == data@.subrange(start as int, end as int),
{
    let sub = vstd::slice::slice_subrange(data, start, end);
    vstd::slice::slice_to_vec(sub)
}

}
