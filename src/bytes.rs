//! Byte-level helpers shared by the parsers and classifiers.
use vstd::prelude::*;

verus! {

/// `data[off..]` begins with `prefix`.
pub open spec fn has_prefix_at(data: Seq<u8>, off: int, prefix: Seq<u8>) -> bool {
    0 <= off && off + prefix.len() <= data.len() && data.subrange(off, off + prefix.len())
        == prefix
}

/// Tests whether `data[off..]` begins with `prefix`.
pub fn starts_with_at(data: &[u8], off: usize, prefix: &[u8]) -> (r: bool)
    ensures
        r == has_prefix_at(data@, off as int, prefix@),
{
    if off > data.len() || prefix.len() > data.len() - off {
        return false;
    }
    let mut i: usize = 0;
    while i < prefix.len()
        invariant
            off + prefix.len() <= data.len(),
            i <= prefix.len(),
            forall|j: int| 0 <= j < i ==> data@[off + j] == prefix@[j],
        decreases prefix.len() - i,
    {
        if data[off + i] != prefix[i] {
            assert(data@.subrange(off as int, off + prefix.len())[i as int] != prefix@[i as int]);
            return false;
        }
        i += 1;
    }
    assert(data@.subrange(off as int, off + prefix.len()) =~= prefix@);
    true
}

/// "SSH-", the start of an SSH identification string.
pub open spec fn ssh_banner() -> Seq<u8> {
    seq![0x53u8, 0x53, 0x48, 0x2D]
}

/// "GET "
pub open spec fn get_method() -> Seq<u8> {
    seq![0x47u8, 0x45, 0x54, 0x20]
}

/// "POST "
pub open spec fn post_method() -> Seq<u8> {
    seq![0x50u8, 0x4F, 0x53, 0x54, 0x20]
}

/// "PUT "
pub open spec fn put_method() -> Seq<u8> {
    seq![0x50u8, 0x55, 0x54, 0x20]
}

/// "DELETE "
pub open spec fn delete_method() -> Seq<u8> {
    seq![0x44u8, 0x45, 0x4C, 0x45, 0x54, 0x45, 0x20]
}

/// "HTTP/", the start of an HTTP response line.
pub open spec fn http_version() -> Seq<u8> {
    seq![0x48u8, 0x54, 0x54, 0x50, 0x2F]
}

/// `data[off..]` starts like an HTTP request or response.
pub open spec fn http_start_at(data: Seq<u8>, off: int) -> bool {
    has_prefix_at(data, off, get_method()) || has_prefix_at(data, off, post_method())
        || has_prefix_at(data, off, put_method()) || has_prefix_at(data, off, delete_method())
        || has_prefix_at(data, off, http_version())
}

pub fn is_ssh_banner_at(data: &[u8], off: usize) -> (r: bool)
    ensures
        r == has_prefix_at(data@, off as int, ssh_banner()),
{
    starts_with_at(data, off, &[0x53u8, 0x53, 0x48, 0x2D])
}

pub fn is_http_start_at(data: &[u8], off: usize) -> (r: bool)
    ensures
        r == http_start_at(data@, off as int),
{
    starts_with_at(data, off, &[0x47u8, 0x45, 0x54, 0x20])
        || starts_with_at(data, off, &[0x50u8, 0x4F, 0x53, 0x54, 0x20])
        || starts_with_at(data, off, &[0x50u8, 0x55, 0x54, 0x20])
        || starts_with_at(data, off, &[0x44u8, 0x45, 0x4C, 0x45, 0x54, 0x45, 0x20])
        || starts_with_at(data, off, &[0x48u8, 0x54, 0x54, 0x50, 0x2F])
}

/// The big-endian 16-bit value held in `data[i]` and `data[i + 1]`.
pub open spec fn be16_at(data: Seq<u8>, i: int) -> int {
    data[i] as int * 256 + data[i + 1] as int
}

pub fn read_be16(data: &[u8], i: usize) -> (r: u16)
    requires
        i + 1 < data@.len(),
    ensures
        r as int == be16_at(data@, i as int),
{
    data[i] as u16 * 256 + data[i + 1] as u16
}

/// The IP version held in the top four bits of a header's first byte.
pub open spec fn ip_version(b: u8) -> int {
    b as int / 16
}

} // verus!
