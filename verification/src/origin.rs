//! The network origin gate: a request-level policy deciding whether a caller
//! may reach the operator surface.

use vstd::prelude::*;
use vstd::string::StrSliceExecFns;

verus! {

/// A caller's network address as the origin policy reads it: the four octets
/// of a version-4 address, or the 128 bits of a version-6 address.
#[derive(Clone, Copy, PartialEq, Eq, Structural, Debug)]
pub enum IpAddress {
    V4(u8, u8, u8, u8),
    V6(u128),
}

/// Trusted origins: version-4 loopback (127.0.0.0/8), the private block
/// 172.16.0.0/12 conventionally used for container bridge networks, and the
/// version-6 loopback `::1`. This trusts the immediate peer address only; it
/// is network-layer access control, not authentication, and offers no
/// protection against spoofed or proxied requests.
pub open spec fn trusted_spec(ip: IpAddress) -> bool {
    match ip {
        IpAddress::V4(a, b, _, _) => a == 127 || (a == 172 && 16 <= b <= 31),
        IpAddress::V6(bits) => bits == 1,
    }
}

pub fn is_trusted(ip: &IpAddress) -> (r: bool)
    ensures
        r == trusted_spec(*ip),
{
    match ip {
        IpAddress::V4(a, b, _, _) => *a == 127 || (*a == 172 && 16 <= *b && *b <= 31),
        IpAddress::V6(bits) => *bits == 1,
    }
}

/// The operator surface is every path under `/admin`.
pub open spec fn admin_path_spec(path: Seq<char>) -> bool {
    path.len() >= 6 && path.subrange(0, 6) == "/admin"@
}

pub fn is_admin_path(path: &str) -> (r: bool)
    ensures
        r == admin_path_spec(path@),
{
    let n = path.unicode_len();
    if n < 6 {
        return false;
    }
    let ok = path.get_char(0) == '/' && path.get_char(1) == 'a' && path.get_char(2) == 'd'
        && path.get_char(3) == 'm' && path.get_char(4) == 'i' && path.get_char(5) == 'n';
    proof {
        reveal_strlit("/admin");
        assert(path@.subrange(0, 6)[0] == path@[0]);
        assert(path@.subrange(0, 6)[1] == path@[1]);
        assert(path@.subrange(0, 6)[2] == path@[2]);
        assert(path@.subrange(0, 6)[3] == path@[3]);
        assert(path@.subrange(0, 6)[4] == path@[4]);
        assert(path@.subrange(0, 6)[5] == path@[5]);
        if ok {
            assert(path@.subrange(0, 6) =~= "/admin"@);
        }
    }
    ok
}

/// The admission decision for one request: a path under the operator surface
/// is admitted only from a trusted origin; every other path is always
/// admitted.
pub fn request_allowed(path: &str, ip: &IpAddress) -> (r: bool)
    ensures
        r == (admin_path_spec(path@) ==> trusted_spec(*ip)),
{
    !is_admin_path(path) || is_trusted(ip)
}

} // verus!
