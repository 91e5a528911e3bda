use vstd::prelude::*;
use std::collections::HashMap;

verus! {

broadcast use vstd::std_specs::hash::group_hash_axioms;

/// An IP address, held by the integer that its octets spell out (big endian).
#[derive(Clone, Copy, Debug, PartialEq, Eq, Structural, Hash)]
pub enum IpAddress {
    V4(u32),
    V6(u128),
}

impl IpAddress {
    /// The IPv4 address `0.0.0.0`.
    pub fn unspecified_v4() -> (r: IpAddress)
        ensures
            r == IpAddress::V4(0),
    {
        IpAddress::V4(0)
    }

    pub fn is_ipv4(&self) -> (r: bool)
        ensures
            r == (*self is V4),
    {
        match self {
            IpAddress::V4(_) => true,
            IpAddress::V6(_) => false,
        }
    }
}

/// A finite map from IP addresses to IP addresses, kept as one hash map per
/// address family.
#[derive(Clone, Debug)]
pub struct IpMap {
    pub v4: HashMap<u32, IpAddress>,
    pub v6: HashMap<u128, IpAddress>,
}

impl View for IpMap {
    type V = Map<IpAddress, IpAddress>;

    open spec fn view(&self) -> Map<IpAddress, IpAddress> {
        Map::new(
            |k: IpAddress|
                match k {
                    IpAddress::V4(a) => self.v4@.contains_key(a),
                    IpAddress::V6(a) => self.v6@.contains_key(a),
                },
            |k: IpAddress|
                match k {
                    IpAddress::V4(a) => self.v4@[a],
                    IpAddress::V6(a) => self.v6@[a],
                },
        )
    }
}

impl IpMap {
    pub fn new() -> (r: IpMap)
        ensures
            r@ == Map::<IpAddress, IpAddress>::empty(),
    {
        let r = IpMap { v4: HashMap::new(), v6: HashMap::new() };
        assert(r@ =~= Map::<IpAddress, IpAddress>::empty());
        r
    }

    pub fn clear(&mut self)
        ensures
            final(self)@ == Map::<IpAddress, IpAddress>::empty(),
    {
        self.v4.clear();
        self.v6.clear();
        assert(self@ =~= Map::<IpAddress, IpAddress>::empty());
    }

    pub fn insert(&mut self, key: IpAddress, value: IpAddress)
        ensures
            final(self)@ == old(self)@.insert(key, value),
    {
        match key {
            IpAddress::V4(a) => {
                self.v4.insert(a, value);
            },
            IpAddress::V6(a) => {
                self.v6.insert(a, value);
            },
        }
        assert(self@ =~= old(self)@.insert(key, value));
    }

    pub fn contains_key(&self, key: &IpAddress) -> (r: bool)
        ensures
            r == self@.contains_key(*key),
    {
        match key {
            IpAddress::V4(a) => self.v4.contains_key(a),
            IpAddress::V6(a) => self.v6.contains_key(a),
        }
    }

    pub fn get(&self, key: &IpAddress) -> (r: Option<IpAddress>)
        ensures
            r == (if self@.contains_key(*key) { Some(self@[*key]) } else { None::<IpAddress> }),
    {
        match key {
            IpAddress::V4(a) => match self.v4.get(a) {
                Some(v) => Some(*v),
                None => None,
            },
            IpAddress::V6(a) => match self.v6.get(a) {
                Some(v) => Some(*v),
                None => None,
            },
        }
    }

    /// A copy of the map.
    pub fn snapshot(&self) -> (r: IpMap)
        ensures
            r@ == self@,
    {
        let r = IpMap { v4: self.v4.clone(), v6: self.v6.clone() };
        assert(r@ =~= self@);
        r
    }
}

} // verus!
