//! IP addresses and which of them are public.

use vstd::arithmetic::power2::{lemma2_to64, pow2};
use vstd::prelude::*;

verus! {

/// An IPv4 address: its four octets, most significant first.
#[derive(Clone, Copy, Debug, PartialEq, Eq)]
pub struct Ipv4Addr {
    pub octets: [u8; 4],
}

/// An IPv6 address: its eight 16-bit segments, most significant first.
#[derive(Clone, Copy, Debug, PartialEq, Eq)]
pub struct Ipv6Addr {
    pub segments: [u16; 8],
}

/// The 32-bit number that four octets spell.
pub open spec fn v4_number(a: int, b: int, c: int, d: int) -> int {
    a * 0x1000000 + b * 0x10000 + c * 0x100 + d
}

impl Ipv4Addr {
    /// The address as a 32-bit number.
    pub open spec fn number(self) -> int {
        v4_number(
            self.octets[0] as int,
            self.octets[1] as int,
            self.octets[2] as int,
            self.octets[3] as int,
        )
    }
}

/// The IPv4 address with number `n` lies in the block that starts at `base` and fixes the first
/// `prefix` bits.
pub open spec fn in_v4_block(n: int, base: int, prefix: int) -> bool {
    base <= n < base + pow2((32 - prefix) as nat)
}

/// The IPv4 address with number `n` lies in one of the blocks that are not reachable in public:
/// this network (0/8), loopback (127/8), private (10/8, 172.16/12, 192.168/16), link-local
/// (169.254/16), shared address space (100.64/10), broadcast (255.255.255.255) and multicast
/// (224/4).
pub open spec fn blocked_v4_number(n: int) -> bool {
    ||| in_v4_block(n, v4_number(0, 0, 0, 0), 8)
    ||| in_v4_block(n, v4_number(127, 0, 0, 0), 8)
    ||| in_v4_block(n, v4_number(10, 0, 0, 0), 8)
    ||| in_v4_block(n, v4_number(172, 16, 0, 0), 12)
    ||| in_v4_block(n, v4_number(192, 168, 0, 0), 16)
    ||| in_v4_block(n, v4_number(169, 254, 0, 0), 16)
    ||| in_v4_block(n, v4_number(100, 64, 0, 0), 10)
    ||| in_v4_block(n, v4_number(255, 255, 255, 255), 32)
    ||| in_v4_block(n, v4_number(224, 0, 0, 0), 4)
}

impl Ipv6Addr {
    /// All segments before the last `n` are zero.
    pub open spec fn zero_before_last(self, n: int) -> bool {
        forall|i: int| 0 <= i < 8 - n ==> #[trigger] self.segments[i] == 0
    }

    /// `::ffff:a.b.c.d`, which a socket reaches as the IPv4 address `a.b.c.d`.
    pub open spec fn is_ipv4_mapped(self) -> bool {
        self.zero_before_last(3) && self.segments[5] == 0xffff
    }

    /// The IPv4 address in the last 32 bits.
    pub open spec fn low_ipv4_number(self) -> int {
        self.segments[6] * 0x10000 + self.segments[7]
    }
}

/// The address is unspecified (`::`), loopback (`::1`), link-local (fe80::/10), unique-local
/// (fc00::/7) or multicast (ff00::/8).
pub open spec fn blocked_ipv6(ip: Ipv6Addr) -> bool {
    ||| ip.zero_before_last(1) && ip.segments[7] <= 1
    ||| 0xfe80 <= ip.segments[0] <= 0xfebf
    ||| 0xfc00 <= ip.segments[0] <= 0xfdff
    ||| 0xff00 <= ip.segments[0]
}

/// An IPv4 address is public unless it is blocked.
pub open spec fn public_ipv4(ip: Ipv4Addr) -> bool {
    !blocked_v4_number(ip.number())
}

/// An IPv4-mapped address is judged by the IPv4 address that it holds; any other is public unless
/// it is blocked.
pub open spec fn public_ipv6(ip: Ipv6Addr) -> bool {
    if ip.is_ipv4_mapped() {
        !blocked_v4_number(ip.low_ipv4_number())
    } else {
        !blocked_ipv6(ip)
    }
}

/// An IPv4 address and its IPv4-mapped form are judged alike: a blocked target cannot be spelled
/// as a public one.
pub proof fn mapped_form_is_judged_alike(v4: Ipv4Addr, v6: Ipv6Addr)
    requires
        v6.is_ipv4_mapped(),
        v6.low_ipv4_number() == v4.number(),
    ensures
        public_ipv6(v6) == public_ipv4(v4),
{
}

/// IPv4: rejects unspecified/"this network" (0/8), loopback, private, link-local (with the cloud
/// metadata address 169.254.169.254), shared address space (100.64/10), broadcast and multicast.
pub fn is_public_ipv4(ip: Ipv4Addr) -> (r: bool)
    ensures
        r == public_ipv4(ip),
{
    proof {
        lemma2_to64();
    }
    let a = ip.octets[0];
    let b = ip.octets[1];
    let c = ip.octets[2];
    let d = ip.octets[3];
    let loopback = a == 127;
    let private = a == 10 || (a == 172 && b >= 16 && b <= 31) || (a == 192 && b == 168);
    let link_local = a == 169 && b == 254;
    let shared = a == 100 && b >= 64 && b <= 127;
    let broadcast = a == 255 && b == 255 && c == 255 && d == 255;
    let multicast = a >= 224 && a <= 239;
    !(a == 0 || loopback || private || link_local || shared || broadcast || multicast)
}

/// The IPv4 address that an IPv4-mapped address (`::ffff:a.b.c.d`) holds.
pub fn to_ipv4_mapped(ip: Ipv6Addr) -> (r: Option<Ipv4Addr>)
    ensures
        r is Some <==> ip.is_ipv4_mapped(),
        r matches Some(v4) ==> v4.number() == ip.low_ipv4_number(),
{
    let s = ip.segments;
    if s[0] == 0 && s[1] == 0 && s[2] == 0 && s[3] == 0 && s[4] == 0 && s[5] == 0xffff {
        assert forall|i: int| 0 <= i < 5 implies #[trigger] ip.segments[i] == 0 by {
            assert(i == 0 || i == 1 || i == 2 || i == 3 || i == 4);
        }
        let octets = [
            (s[6] / 256) as u8,
            (s[6] % 256) as u8,
            (s[7] / 256) as u8,
            (s[7] % 256) as u8,
        ];
        Some(Ipv4Addr { octets })
    } else {
        None
    }
}

/// IPv6: an IPv4-mapped address is judged by its embedded IPv4 address, which is what the socket
/// reaches. Otherwise rejects unspecified (`::`), loopback, link-local (fe80::/10), unique-local
/// (fc00::/7) and multicast.
pub fn is_public_ipv6(ip: Ipv6Addr) -> (r: bool)
    ensures
        r == public_ipv6(ip),
{
    if let Some(v4) = to_ipv4_mapped(ip) {
        return is_public_ipv4(v4);
    }
    let s = ip.segments;
    let first = s[0];
    let low = s[0] == 0 && s[1] == 0 && s[2] == 0 && s[3] == 0 && s[4] == 0 && s[5] == 0 && s[6]
        == 0;
    let unspecified = low && s[7] == 0;
    let loopback = low && s[7] == 1;
    let multicast = (first & 0xff00) == 0xff00;
    assert(low ==> ip.zero_before_last(1)) by {
        assert forall|i: int| low && 0 <= i < 7 implies #[trigger] ip.segments[i] == 0 by {
            assert(i == 0 || i == 1 || i == 2 || i == 3 || i == 4 || i == 5 || i == 6);
        }
    }
    assert((first & 0xffc0) == 0xfe80 <==> 0xfe80 <= first <= 0xfebf) by (bit_vector);
    assert((first & 0xfe00) == 0xfc00 <==> 0xfc00 <= first <= 0xfdff) by (bit_vector);
    assert((first & 0xff00) == 0xff00 <==> 0xff00 <= first) by (bit_vector);
    !(unspecified || loopback || (first & 0xffc0) == 0xfe80 || (first & 0xfe00) == 0xfc00
        || multicast)
}

/// The verdict on an IPv4 address `a.b.c.d`, in both directions: it is rejected if and only if it
/// is `0.x.x.x`, `10.x.x.x`, `100.64.x.x` to `100.127.x.x`, `127.x.x.x`, `169.254.x.x`,
/// `172.16.x.x` to `172.31.x.x`, `192.168.x.x`, `224.x.x.x` to `239.x.x.x` or `255.255.255.255`.
pub proof fn ipv4_is_judged_by_its_octets(ip: Ipv4Addr, public: bool)
    requires
        call_ensures(is_public_ipv4, (ip,), public),
    ensures
        ({
            let (a, b, c, d) = (ip.octets[0], ip.octets[1], ip.octets[2], ip.octets[3]);
            !public <==> {
                ||| a == 0 || a == 10 || a == 127 || 224 <= a <= 239
                ||| a == 100 && 64 <= b <= 127
                ||| a == 169 && b == 254
                ||| a == 172 && 16 <= b <= 31
                ||| a == 192 && b == 168
                ||| a == 255 && b == 255 && c == 255 && d == 255
            }
        }),
        public_ipv4(ip) == public,
{
    lemma2_to64();
}

/// An IPv6 address is IPv4-mapped if and only if its first five segments are zero and the sixth is
/// `ffff`; it then holds the IPv4 address whose octets are those of its last two segments.
pub proof fn mapped_form_holds_its_octets(ip: Ipv6Addr, r: Option<Ipv4Addr>)
    requires
        call_ensures(to_ipv4_mapped, (ip,), r),
    ensures
        r is Some <==> {
            &&& ip.segments[0] == 0 && ip.segments[1] == 0 && ip.segments[2] == 0
            &&& ip.segments[3] == 0 && ip.segments[4] == 0 && ip.segments[5] == 0xffff
        },
        r matches Some(v4) ==> {
            &&& v4.octets[0] == ip.segments[6] / 256 && v4.octets[1] == ip.segments[6] % 256
            &&& v4.octets[2] == ip.segments[7] / 256 && v4.octets[3] == ip.segments[7] % 256
        },
{
    if ip.segments[0] == 0 && ip.segments[1] == 0 && ip.segments[2] == 0 && ip.segments[3] == 0
        && ip.segments[4] == 0 {
        assert forall|i: int| 0 <= i < 5 implies #[trigger] ip.segments[i] == 0 by {
            assert(i == 0 || i == 1 || i == 2 || i == 3 || i == 4);
        }
    }
}

/// The verdict on an IPv6 address, in both directions: the IPv4-mapped form of an IPv4 address is
/// judged as that address is; any other address is rejected if and only if it is `::` or `::1` or
/// its first segment lies in `fe80` to `febf`, in `fc00` to `fdff` or in `ff00` to `ffff`.
pub proof fn ipv6_is_judged_by_its_segments(
    ip: Ipv6Addr,
    public: bool,
    v4: Ipv4Addr,
    v4_public: bool,
)
    requires
        call_ensures(is_public_ipv6, (ip,), public),
        call_ensures(is_public_ipv4, (v4,), v4_public),
    ensures
        ({
            let s = ip.segments;
            let zero5 = s[0] == 0 && s[1] == 0 && s[2] == 0 && s[3] == 0 && s[4] == 0;
            let holds_v4 = {
                &&& s[6] == v4.octets[0] * 256 + v4.octets[1]
                &&& s[7] == v4.octets[2] * 256 + v4.octets[3]
            };
            &&& zero5 && s[5] == 0xffff && holds_v4 ==> public == v4_public
            &&& !(zero5 && s[5] == 0xffff) ==> (!public <==> {
                ||| zero5 && s[5] == 0 && s[6] == 0 && (s[7] == 0 || s[7] == 1)
                ||| 0xfe80 <= s[0] <= 0xfebf
                ||| 0xfc00 <= s[0] <= 0xfdff
                ||| 0xff00 <= s[0] <= 0xffff
            })
        }),
        public_ipv6(ip) == public,
{
    let s = ip.segments;
    if s[0] == 0 && s[1] == 0 && s[2] == 0 && s[3] == 0 && s[4] == 0 {
        assert forall|i: int| 0 <= i < 5 implies #[trigger] ip.segments[i] == 0 by {
            assert(i == 0 || i == 1 || i == 2 || i == 3 || i == 4);
        }
        if s[5] == 0 && s[6] == 0 {
            assert forall|i: int| 0 <= i < 7 implies #[trigger] ip.segments[i] == 0 by {
                assert(i < 5 || i == 5 || i == 6);
            }
        }
    }
}

} // verus!
