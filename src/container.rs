use crate::crypto::{IV_LEN, SALT_LEN};
use crate::errors::PasswordError;
use vstd::prelude::*;

verus! {

/// Length of the fixed header: the salt followed by the IV.
pub const HEADER_LEN: usize = 48;

/// The on-disk container: salt, then IV, then ciphertext, with no framing.
pub open spec fn container_bytes(salt: Seq<u8>, iv: Seq<u8>, ciphertext: Seq<u8>) -> Seq<u8> {
    salt + iv + ciphertext
}

/// The bytes `data[from..to]` as a new vector.
fn copy_range(data: &[u8], from: usize, to: usize) -> (r: Vec<u8>)
    requires
        from <= to <= data@.len(),
    ensures
        r@ == data@.subrange(from as int, to as int),
{
    let mut r: Vec<u8> = Vec::new();
    let mut i: usize = from;
    while i < to
        invariant
            from <= i <= to,
            to <= data@.len(),
            r@ == data@.subrange(from as int, i as int),
        decreases to - i,
    {
        r.push(data[i]);
        assert(data@.subrange(from as int, i + 1) =~= data@.subrange(from as int, i as int).push(
            data@[i as int],
        ));
        i = i + 1;
    }
    r
}

fn append_all(out: &mut Vec<u8>, data: &[u8])
    ensures
        final(out)@ == old(out)@ + data@,
{
    let ghost start = out@;
    let mut i: usize = 0;
    while i < data.len()
        invariant
            i <= data@.len(),
            out@ == start + data@.subrange(0, i as int),
        decreases data@.len() - i,
    {
        out.push(data[i]);
        assert(data@.subrange(0, i + 1) =~= data@.subrange(0, i as int).push(data@[i as int]));
        i = i + 1;
    }
    assert(data@.subrange(0, data@.len() as int) =~= data@);
}

/// Lays out a container: salt, IV and ciphertext in that order.
pub fn encode_container(salt: &[u8], iv: &[u8], ciphertext: &[u8]) -> (r: Vec<u8>)
    ensures
        r@ == container_bytes(salt@, iv@, ciphertext@),
{
    let mut out: Vec<u8> = Vec::new();
    append_all(&mut out, salt);
    append_all(&mut out, iv);
    append_all(&mut out, ciphertext);
    assert(out@ =~= container_bytes(salt@, iv@, ciphertext@));
    out
}

/// Splits a container into salt (32 bytes), IV (16 bytes) and ciphertext (the rest).
/// Fails with `InvalidFormat` exactly when it is shorter than the header.
pub fn decode_container(data: &[u8]) -> (r: Result<(Vec<u8>, Vec<u8>, Vec<u8>), PasswordError>)
    ensures
        data@.len() < HEADER_LEN <==> r is Err,
        r matches Err(e) ==> e == PasswordError::InvalidFormat,
        r matches Ok((salt, iv, ct)) ==> salt@ == data@.subrange(0, SALT_LEN as int) && iv@
            == data@.subrange(SALT_LEN as int, HEADER_LEN as int) && ct@ == data@.subrange(
            HEADER_LEN as int,
            data@.len() as int,
        ) && data@ == container_bytes(salt@, iv@, ct@),
{
    if data.len() < HEADER_LEN {
        return Err(PasswordError::InvalidFormat);
    }
    let salt = copy_range(data, 0, SALT_LEN);
    let iv = copy_range(data, SALT_LEN, SALT_LEN + IV_LEN);
    let ct = copy_range(data, HEADER_LEN, data.len());
    assert(data@ =~= container_bytes(salt@, iv@, ct@));
    Ok((salt, iv, ct))
}

} // verus!
