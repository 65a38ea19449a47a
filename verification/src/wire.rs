use vstd::prelude::*;

verus! {

/// The two octets of `v` in network (big-endian) order.
pub open spec fn spec_u16_be(v: u16) -> Seq<u8> {
    seq![(v / 256) as u8, (v % 256) as u8]
}

/// The 16-bit number whose big-endian octets are `hi` and `lo`.
pub open spec fn spec_u16_from_be(hi: u8, lo: u8) -> u16 {
    (hi * 256 + lo) as u16
}

/// Reading back what `spec_u16_be` wrote gives the number again.
pub proof fn lemma_u16_be_round_trip(v: u16)
    ensures
        spec_u16_be(v).len() == 2,
        spec_u16_from_be(spec_u16_be(v)[0], spec_u16_be(v)[1]) == v,
{
}

/// Appends the big-endian octets of `v` to `out`.
pub fn push_u16_be(out: &mut Vec<u8>, v: u16)
    ensures
        final(out)@ == old(out)@ + spec_u16_be(v),
{
    out.push((v / 256) as u8);
    out.push((v % 256) as u8);
    assert(out@ =~= old(out)@ + spec_u16_be(v));
}

/// The 16-bit number whose big-endian octets are `hi` and `lo`.
pub fn u16_from_be(hi: u8, lo: u8) -> (v: u16)
    ensures
        v == spec_u16_from_be(hi, lo),
{
    (hi as u16) * 256 + (lo as u16)
}

/// Appends a copy of `src` to `out`.
pub fn push_all(out: &mut Vec<u8>, src: &[u8])
    ensures
        final(out)@ == old(out)@ + src@,
{
    let mut i: usize = 0;
    while i < src.len()
        invariant
            i <= src.len(),
            out@ == old(out)@ + src@.take(i as int),
        decreases src.len() - i,
    {
        out.push(src[i]);
        i = i + 1;
        assert(out@ =~= old(out)@ + src@.take(i as int));
    }
    assert(src@.take(src@.len() as int) =~= src@);
}

} // verus!
