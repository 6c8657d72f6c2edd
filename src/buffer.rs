use vstd::prelude::*;

verus! {

/// What a local buffer holds once it is sized to `len` bytes: its first bytes
/// kept, cut at `len` or padded with zeros up to it.
pub open spec fn sized_to(old: Seq<u8>, len: nat) -> Seq<u8> {
    if len <= old.len() {
        old.take(len as int)
    } else {
        old + Seq::new((len - old.len()) as nat, |i: int| 0u8)
    }
}

/// Sizes a caller-owned buffer to exactly the byte length that the host
/// reported, so that the read that follows fills it without truncation or
/// overflow. The buffer is reused: bytes it already holds are kept.
pub fn size_read_buffer(buf: &mut Vec<u8>, len: u32)
    ensures
        final(buf)@ == sized_to(old(buf)@, len as nat),
        final(buf)@.len() == len,
{
    let ghost before = buf@;
    buf.resize(len as usize, 0u8);
    proof {
        if len as nat > before.len() {
            let pad = Seq::new((len - before.len()) as nat, |i: int| 0u8);
            assert forall|i: int| 0 <= i < len implies buf@[i] == (before + pad)[i] by {
                if i >= before.len() {
                    assert(cloned::<u8>(0u8, buf@[i]));
                } else {
                    assert(buf@.subrange(0, before.len() as int)[i] == before[i]);
                }
            }
            assert(buf@ =~= before + pad);
        }
    }
}

/// The length of a local byte range as the 32-bit value a boundary call takes,
/// or `None` where it does not fit.
pub fn boundary_len(n: usize) -> (r: Option<u32>)
    ensures
        r matches Some(l) ==> l as nat == n as nat,
        r is None <==> n > u32::MAX,
{
    if n <= u32::MAX as usize {
        Some(n as u32)
    } else {
        None
    }
}

} // verus!
