//! IP addresses and socket addresses as plain octets.
use vstd::prelude::*;

verus! {

/// An IPv4 or IPv6 address, by its octets in network order.
#[derive(Clone, Copy, Debug, PartialEq, Eq, Hash, PartialOrd, Ord)]
pub enum IpAddress {
    V4([u8; 4]),
    V6([u8; 16]),
}

/// An IP address and a port.
#[derive(Clone, Copy, Debug, PartialEq, Eq, Hash, PartialOrd, Ord)]
pub struct SocketAddress {
    pub ip: IpAddress,
    pub port: u16,
}

/// Mathematical content of an IP address.
pub enum IpView {
    V4(Seq<u8>),
    V6(Seq<u8>),
}

/// Mathematical content of a socket address.
pub struct AddressView {
    pub ip: IpView,
    pub port: u16,
}

impl View for IpAddress {
    type V = IpView;

    open spec fn view(&self) -> IpView {
        match *self {
            IpAddress::V4(octets) => IpView::V4(octets@),
            IpAddress::V6(octets) => IpView::V6(octets@),
        }
    }
}

impl View for SocketAddress {
    type V = AddressView;

    open spec fn view(&self) -> AddressView {
        AddressView { ip: self.ip@, port: self.port }
    }
}

pub open spec fn ip_view_wf(ip: IpView) -> bool {
    match ip {
        IpView::V4(o) => o.len() == 4,
        IpView::V6(o) => o.len() == 16,
    }
}

impl IpAddress {
    /// Whether this is the all-zero address of its family.
    pub open spec fn spec_is_unspecified(self) -> bool {
        match self {
            IpAddress::V4(o) => forall|i: int| 0 <= i < 4 ==> o@[i] == 0,
            IpAddress::V6(o) => forall|i: int| 0 <= i < 16 ==> o@[i] == 0,
        }
    }

    #[verifier::loop_isolation(false)]
    pub fn is_unspecified(&self) -> (unspecified: bool)
        ensures
            unspecified == self.spec_is_unspecified(),
    {
        match self {
            IpAddress::V4(o) => {
                let mut i: usize = 0;
                while i < 4
                    invariant
                        i <= 4,
                        o@.len() == 4,
                        forall|j: int| 0 <= j < i ==> o@[j] == 0,
                    decreases 4 - i,
                {
                    if o[i] != 0 {
                        assert(o@[i as int] != 0);
                        return false;
                    }
                    i = i + 1;
                }
                true
            },
            IpAddress::V6(o) => {
                let mut i: usize = 0;
                while i < 16
                    invariant
                        i <= 16,
                        o@.len() == 16,
                        forall|j: int| 0 <= j < i ==> o@[j] == 0,
                    decreases 16 - i,
                {
                    if o[i] != 0 {
                        assert(o@[i as int] != 0);
                        return false;
                    }
                    i = i + 1;
                }
                true
            },
        }
    }
}

/// Compares two IP addresses.
#[verifier::loop_isolation(false)]
pub fn ip_address_equal(a: &IpAddress, b: &IpAddress) -> (equal: bool)
    ensures
        equal == (a@ == b@),
{
    match (a, b) {
        (IpAddress::V4(x), IpAddress::V4(y)) => {
            let mut i: usize = 0;
            while i < 4
                invariant
                    i <= 4,
                    x@.len() == 4,
                    y@.len() == 4,
                    forall|j: int| 0 <= j < i ==> x@[j] == y@[j],
                decreases 4 - i,
            {
                if x[i] != y[i] {
                    assert(x@[i as int] != y@[i as int]);
                    assert(x@ != y@);
                    return false;
                }
                i = i + 1;
            }
            assert(x@ =~= y@);
            true
        },
        (IpAddress::V6(x), IpAddress::V6(y)) => {
            let mut i: usize = 0;
            while i < 16
                invariant
                    i <= 16,
                    x@.len() == 16,
                    y@.len() == 16,
                    forall|j: int| 0 <= j < i ==> x@[j] == y@[j],
                decreases 16 - i,
            {
                if x[i] != y[i] {
                    assert(x@[i as int] != y@[i as int]);
                    assert(x@ != y@);
                    return false;
                }
                i = i + 1;
            }
            assert(x@ =~= y@);
            true
        },
        _ => false,
    }
}

/// Compares two socket addresses.
pub fn socket_address_equal(a: &SocketAddress, b: &SocketAddress) -> (equal: bool)
    ensures
        equal == (a@ == b@),
{
    a.port == b.port && ip_address_equal(&a.ip, &b.ip)
}

} // verus!
