//! Client addresses: their stored form and their quota groups.

use vstd::prelude::*;

use crate::bytes;
use crate::bytes::{from_be, to_be};

verus! {

/// An IP address as a number in network byte order.
#[derive(Clone, Copy, Debug, PartialEq, Eq, Structural)]
pub enum IpAddr {
    V4(u32),
    V6(u128),
}

/// The v6 block that stands for v4 addresses begins here.
pub const MAPPED_BASE: u128 = 0xffff_0000_0000;

/// The number of addresses in a v6 /64 network.
pub const NET_SIZE: u128 = 0x1_0000_0000_0000_0000;

/// The number under which an address is stored: a v6 address as it is, a v4
/// address in the v6 block that stands for v4.
pub open spec fn db_value(ip: IpAddr) -> nat {
    match ip {
        IpAddr::V4(v) => (MAPPED_BASE + v) as nat,
        IpAddr::V6(v) => v as nat,
    }
}

/// The sixteen bytes under which an address is stored.
pub open spec fn db_bytes(ip: IpAddr) -> Seq<u8> {
    bytes::be_bytes(db_value(ip), 16)
}

/// A v6 address that stands for a v4 address.
pub open spec fn is_mapped(v: nat) -> bool {
    v / 0x1_0000_0000 == 0xffff
}

/// The address that a stored number denotes.
pub open spec fn from_db_value(v: nat) -> IpAddr {
    if is_mapped(v) {
        IpAddr::V4((v % 0x1_0000_0000) as u32)
    } else {
        IpAddr::V6(v as u128)
    }
}

/// The stored form of an address.
pub fn to_db_bytes(ip: IpAddr) -> (r: [u8; 16])
    ensures
        r@ == db_bytes(ip),
{
    let v: u128 = match ip {
        IpAddr::V4(v) => MAPPED_BASE + v as u128,
        IpAddr::V6(v) => v,
    };
    let list = to_be(v, 16);
    proof {
        bytes::lemma_byte_ranges();
        bytes::lemma_be_round_trip(v as nat, 16);
    }
    let mut out: [u8; 16] = [0u8; 16];
    for i in 0..16usize
        invariant
            list@.len() == 16,
            forall|k: int| 0 <= k < i ==> out@[k] == list@[k],
    {
        out[i] = list[i];
    }
    assert(out@ =~= list@);
    out
}

/// The address behind a stored form; `None` if it is not exactly sixteen bytes
/// long.
pub fn from_db_bytes(data: &[u8]) -> (r: Option<IpAddr>)
    ensures
        r == (if data@.len() == 16 {
            Some(from_db_value(bytes::be_value(data@)))
        } else {
            None::<IpAddr>
        }),
{
    if data.len() != 16 {
        return None;
    }
    let v: u128 = from_be(data);
    if v / 0x1_0000_0000 == 0xffff {
        Some(IpAddr::V4((v % 0x1_0000_0000) as u32))
    } else {
        Some(IpAddr::V6(v))
    }
}

/// Reading a stored form gives back the address, except that a v6 address
/// standing for a v4 one comes back as that v4 address.
pub proof fn lemma_db_round_trip(ip: IpAddr)
    requires
        ip matches IpAddr::V6(v) ==> !is_mapped(v as nat),
    ensures
        db_bytes(ip).len() == 16,
        from_db_value(bytes::be_value(db_bytes(ip))) == ip,
{
    bytes::lemma_byte_ranges();
    bytes::lemma_be_round_trip(db_value(ip), 16);
}

/// Stored v4 addresses are ordered as their numbers are.
pub proof fn lemma_v4_order_preserved(a: u32, b: u32)
    ensures
        bytes::lex_less(db_bytes(IpAddr::V4(a)), db_bytes(IpAddr::V4(b))) == (a < b),
{
    bytes::lemma_byte_ranges();
    bytes::lemma_be_order(db_value(IpAddr::V4(a)), db_value(IpAddr::V4(b)), 16);
}

/// Whether both addresses are v4 or both are v6.
pub fn same_family(a: IpAddr, b: IpAddr) -> (r: bool)
    ensures
        r == (a is V4 <==> b is V4),
{
    match (a, b) {
        (IpAddr::V4(_), IpAddr::V4(_)) => true,
        (IpAddr::V6(_), IpAddr::V6(_)) => true,
        _ => false,
    }
}

/// The address that stands for a client's quota: a v4 address itself, the
/// network address of the /64 of a v6 address.
pub open spec fn quota_address(ip: IpAddr) -> IpAddr {
    match ip {
        IpAddr::V4(_) => ip,
        IpAddr::V6(v) => IpAddr::V6((v - v % NET_SIZE) as u128),
    }
}

/// The /64 network address of a v6 address, for quota purposes.
pub fn normalize_for_quota(ip: IpAddr) -> (r: IpAddr)
    ensures
        r == quota_address(ip),
{
    match ip {
        IpAddr::V4(_) => ip,
        IpAddr::V6(v) => IpAddr::V6(v - v % NET_SIZE),
    }
}

/// The first and last address of a client's quota group.
pub fn quota_range(ip: IpAddr) -> (r: (IpAddr, IpAddr))
    ensures
        r.0 == quota_address(ip),
        ip is V4 ==> r.1 == ip,
        ip matches IpAddr::V6(v) ==> r.1 == IpAddr::V6((v - v % NET_SIZE + (NET_SIZE - 1)) as u128),
{
    match ip {
        IpAddr::V4(_) => (ip, ip),
        IpAddr::V6(v) => {
            let start: u128 = v - v % NET_SIZE;
            assert(start + (NET_SIZE - 1) <= u128::MAX);
            (IpAddr::V6(start), IpAddr::V6(start + (NET_SIZE - 1)))
        },
    }
}

/// Normalizing twice is normalizing once.
pub proof fn lemma_quota_address_idempotent(ip: IpAddr)
    ensures
        quota_address(quota_address(ip)) == quota_address(ip),
{
    if let IpAddr::V6(v) = ip {
        assert((v - v % NET_SIZE) % (NET_SIZE as int) == 0) by (nonlinear_arith)
            requires
                NET_SIZE == 0x1_0000_0000_0000_0000u128,
        ;
    }
}

/// Two v6 addresses share a quota exactly when they are in the same /64.
pub proof fn lemma_quota_groups_are_networks(a: u128, b: u128)
    ensures
        (quota_address(IpAddr::V6(a)) == quota_address(IpAddr::V6(b))) == (a / NET_SIZE == b
            / NET_SIZE),
{
    assert(a - a % NET_SIZE == (a / NET_SIZE) * NET_SIZE) by (nonlinear_arith)
        requires
            NET_SIZE == 0x1_0000_0000_0000_0000u128,
    ;
    assert(b - b % NET_SIZE == (b / NET_SIZE) * NET_SIZE) by (nonlinear_arith)
        requires
            NET_SIZE == 0x1_0000_0000_0000_0000u128,
    ;
}

/// In the stored order the quota range of a v6 address covers the whole of its
/// /64, and no v6 address outside it.
pub proof fn lemma_quota_range_is_network(ip: u128, other: u128)
    ensures
        ({
            let start = db_bytes(quota_address(IpAddr::V6(ip)));
            let end = db_bytes(IpAddr::V6((ip - ip % NET_SIZE + (NET_SIZE - 1)) as u128));
            let x = db_bytes(IpAddr::V6(other));
            (bytes::lex_le(start, x) && bytes::lex_le(x, end)) == (ip / NET_SIZE == other
                / NET_SIZE)
        }),
{
    let first = (ip - ip % NET_SIZE) as u128;
    let last = (ip - ip % NET_SIZE + (NET_SIZE - 1)) as u128;
    assert(first == (ip / NET_SIZE) * NET_SIZE) by (nonlinear_arith)
        requires
            first == ip - ip % NET_SIZE,
            NET_SIZE == 0x1_0000_0000_0000_0000u128,
    ;
    assert(ip - ip % NET_SIZE + (NET_SIZE - 1) <= u128::MAX);
    bytes::lemma_byte_ranges();
    bytes::lemma_be_order(first as nat, other as nat, 16);
    bytes::lemma_be_order(other as nat, last as nat, 16);
    assert((first <= other <= last) == (ip / NET_SIZE == other / NET_SIZE));
}

/// A v4 address is stored behind ten zero bytes and two bytes of ones, a v6
/// address as its sixteen bytes.
pub proof fn lemma_stored_form(v: u32, w: u128)
    ensures
        db_bytes(IpAddr::V4(v)) == seq![0u8, 0, 0, 0, 0, 0, 0, 0, 0, 0, 0xff, 0xff]
            + bytes::be_bytes(v as nat, 4),
        db_bytes(IpAddr::V6(w)) == bytes::be_bytes(w as nat, 16),
        db_bytes(IpAddr::V4(v)).len() == 16,
        db_bytes(IpAddr::V6(w)).len() == 16,
{
    bytes::lemma_byte_ranges();
    bytes::lemma_be_round_trip(db_value(IpAddr::V4(v)), 16);
    bytes::lemma_be_round_trip(w as nat, 16);
    bytes::lemma_be_round_trip(v as nat, 4);
    let n = (0xffff_0000_0000 + v) as nat;
    assert(db_value(IpAddr::V4(v)) == n);
    bytes::lemma_be_split(n, 12, 4);
    assert(n / 0x1_0000_0000 == 0xffff);
    lemma_mapped_front();
    lemma_mapped_back(v as nat);
}

proof fn lemma_mapped_front()
    ensures
        bytes::be_bytes(0xffff, 12) == seq![0u8, 0, 0, 0, 0, 0, 0, 0, 0, 0, 0xff, 0xff],
{
    reveal_with_fuel(bytes::be_bytes, 13);
    assert(bytes::be_bytes(0xffff, 12) =~= seq![0u8, 0, 0, 0, 0, 0, 0, 0, 0, 0, 0xff, 0xff]);
}

proof fn lemma_mapped_back(v: nat)
    requires
        v < 0x1_0000_0000,
    ensures
        bytes::be_bytes(0xffff_0000_0000 + v, 4) == bytes::be_bytes(v, 4),
{
    let n = 0xffff_0000_0000 + v;
    reveal_with_fuel(bytes::be_bytes, 5);
    assert(n % 256 == v % 256);
    assert(n / 256 == 0xffff_0000_00 + v / 256);
    assert(n / 256 % 256 == v / 256 % 256);
    assert(n / 256 / 256 == 0xffff_0000 + v / 256 / 256);
    assert(n / 256 / 256 % 256 == v / 256 / 256 % 256);
    assert(n / 256 / 256 / 256 == 0xffff_00 + v / 256 / 256 / 256);
    assert(n / 256 / 256 / 256 % 256 == v / 256 / 256 / 256 % 256);
    assert(bytes::be_bytes(n, 4) =~= bytes::be_bytes(v, 4));
}

/// The stored number of a v4 address is told from those of v6 addresses: it
/// lies in the block that stands for v4, and reading it gives back the v4
/// address, also where it was written as a v6 one.
pub proof fn lemma_mapped_addresses(v: u32, w: u128)
    ensures
        from_db_value(db_value(IpAddr::V4(v))) == IpAddr::V4(v),
        is_mapped(w as nat) <==> 0xffff_0000_0000 <= w <= 0xffff_ffff_ffff,
        is_mapped(w as nat) ==> from_db_value(db_value(IpAddr::V6(w))) == IpAddr::V4(
            (w - 0xffff_0000_0000) as u32,
        ),
        !is_mapped(w as nat) ==> from_db_value(db_value(IpAddr::V6(w))) == IpAddr::V6(w),
{
}

/// A v4 address has a quota of its own; the quota of a v6 address is that of
/// the first address of its network, whose last 64 bits are zero.
pub proof fn lemma_quota_of_an_address(v: u32, w: u128)
    ensures
        quota_address(IpAddr::V4(v)) == IpAddr::V4(v),
        quota_address(IpAddr::V6(w)) matches IpAddr::V6(x) && x <= w && w - x
            < 0x1_0000_0000_0000_0000 && x % 0x1_0000_0000_0000_0000u128 == 0,
{
    let x = (w - w % NET_SIZE) as u128;
    assert(x % 0x1_0000_0000_0000_0000u128 == 0) by (nonlinear_arith)
        requires
            x == w - w % 0x1_0000_0000_0000_0000u128,
    ;
}

} // verus!
