//! Fake addresses: the resolver answers a query for a host name with a
//! synthetic IPv4 address, so that a flow to that address can be told to be
//! a flow to the host.
//!
//! Each name gets the next address of a range, in the order in which the
//! names are first asked for, and keeps it.

use crate::addr::IpAddress;
use crate::text::str_eq;
use vstd::prelude::*;

verus! {

/// The names that were given an address, in the order of their addresses.
#[derive(Debug)]
pub struct FakeIpPool {
    /// The address of the first name.
    pub first: u32,
    /// The number of addresses of the range.
    pub size: u32,
    pub names: Vec<String>,
}

/// Whether no name occurs twice.
pub open spec fn distinct(names: Seq<String>) -> bool {
    forall|i: int, j: int| 0 <= i < j < names.len() ==> (#[trigger] names[i])@ != (#[trigger] names[j])@
}

/// Whether the name at `i` is `name`.
pub open spec fn is_name_at(names: Seq<String>, name: Seq<char>, i: int) -> bool {
    0 <= i < names.len() && names[i]@ == name
}

impl FakeIpPool {
    /// Whether the range lies within the IPv4 addresses, holds every name,
    /// and no name occurs twice.
    pub open spec fn wf(&self) -> bool {
        &&& self.first + self.size <= 0x1_0000_0000
        &&& self.names@.len() <= self.size
        &&& distinct(self.names@)
    }

    /// The address of the name at `i`.
    pub open spec fn address(&self, i: int) -> u32 {
        (self.first + i) as u32
    }

    /// The pool of the `size` addresses from `first` on, which has given out
    /// none; or nothing where the range does not lie within the IPv4
    /// addresses.
    pub fn new(first: u32, size: u32) -> (r: Option<FakeIpPool>)
        ensures
            match r {
                Some(p) => p.wf() && p.first == first && p.size == size && p.names@.len() == 0,
                None => first + size > 0x1_0000_0000,
            },
    {
        if size as u64 + first as u64 > 0x1_0000_0000 {
            None
        } else {
            Some(FakeIpPool { first, size, names: Vec::new() })
        }
    }

    /// The place of the name.
    fn position(&self, domain: &str) -> (r: Option<usize>)
        ensures
            match r {
                Some(i) => is_name_at(self.names@, domain@, i as int),
                None => forall|i: int| !is_name_at(self.names@, domain@, i),
            },
    {
        let mut i: usize = 0;
        while i < self.names.len()
            invariant
                i <= self.names@.len(),
                forall|j: int| 0 <= j < i ==> !is_name_at(self.names@, domain@, j),
            decreases self.names@.len() - i,
        {
            if str_eq(self.names[i].as_str(), domain) {
                return Some(i);
            }
            i += 1;
        }
        None
    }

    /// The address that stands for the host name: the one that it was given
    /// before, else the next of the range. There is none where the range is
    /// used up.
    pub fn domain_to_ip(&mut self, domain: &str) -> (r: Option<IpAddress>)
        requires
            old(self).wf(),
        ensures
            final(self).wf(),
            final(self).first == old(self).first,
            final(self).size == old(self).size,
            if exists|i: int| is_name_at(old(self).names@, domain@, i) {
                &&& final(self).names@ == old(self).names@
                &&& exists|i: int|
                    #[trigger] is_name_at(old(self).names@, domain@, i) && r == Some(
                        IpAddress::V4(old(self).address(i)),
                    )
            } else if old(self).names@.len() < old(self).size {
                &&& r == Some(IpAddress::V4(old(self).address(old(self).names@.len() as int)))
                &&& final(self).names@.len() == old(self).names@.len() + 1
                &&& final(self).names@.subrange(0, old(self).names@.len() as int) == old(self).names@
                &&& final(self).names@.last()@ == domain@
            } else {
                r is None && final(self).names@ == old(self).names@
            },
    {
        match self.position(domain) {
            Some(i) => Some(IpAddress::V4(self.first + i as u32)),
            None => {
                if self.names.len() >= self.size as usize {
                    return None;
                }
                let i = self.names.len();
                let ghost before = self.names@;
                self.names.push(domain.to_owned());
                proof {
                    let after = self.names@;
                    assert(after.subrange(0, before.len() as int) =~= before);
                    assert forall|a: int, b: int| 0 <= a < b < after.len() implies (#[trigger] after[a])@ != (
                    #[trigger] after[b])@ by {
                        if b < before.len() {
                            assert(before[a]@ != before[b]@);
                        } else {
                            assert(!is_name_at(before, domain@, a));
                        }
                    }
                }
                Some(IpAddress::V4(self.first + i as u32))
            },
        }
    }

    /// The host name that the address stands for, if it stands for one.
    pub fn ip_to_domain(&self, ip: IpAddress) -> (r: Option<&String>)
        requires
            self.wf(),
        ensures
            match r {
                Some(name) => exists|i: int|
                    0 <= i < self.names@.len() && ip == IpAddress::V4(self.address(i)) && *name
                        == #[trigger] self.names@[i],
                None => forall|i: int| 0 <= i < self.names@.len() ==> ip != IpAddress::V4(self.address(i)),
            },
    {
        match ip {
            IpAddress::V4(a) => {
                if a >= self.first && ((a - self.first) as usize) < self.names.len() {
                    let i = (a - self.first) as usize;
                    assert(self.address(i as int) == a);
                    Some(&self.names[i])
                } else {
                    None
                }
            },
            IpAddress::V6(_) => None,
        }
    }
}

/// Names and addresses stand for each other, one for one: two names have
/// the same address only if they are the same name.
pub proof fn fake_ip_one_to_one(p: FakeIpPool, i: int, j: int)
    requires
        p.wf(),
        0 <= i < p.names@.len(),
        0 <= j < p.names@.len(),
    ensures
        p.address(i) == p.address(j) <==> i == j,
        p.names@[i]@ == p.names@[j]@ <==> i == j,
{
    if i < j {
        assert(p.names@[i]@ != p.names@[j]@);
    } else if j < i {
        assert(p.names@[j]@ != p.names@[i]@);
    }
}

} // verus!
