use vstd::prelude::*;

verus! {

pub uninterp spec fn md5_of(data: Seq<u8>) -> Seq<u8>;

/// Relies on md5::compute: the digest is a function of the input bytes
/// alone, and its lowercase-hex rendering is 32 characters long.
#[verifier::external_body]
pub fn md5_hex(data: &Vec<u8>) -> (r: Vec<u8>)
    ensures
        r@ == md5_of(data@),
        r@.len() == 32,
{
    let digest = md5::compute(data.as_slice());
    format!("{:x}", digest).into_bytes()
}

} // verus!
