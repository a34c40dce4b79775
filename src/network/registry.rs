//! The registry of named networks and the decisions of `network create`.
use crate::cmd::NetCreateArgs;
use crate::msg::Msg;
use crate::network::ipam::{
    add_spec, allocate_at_spec, raw_view, release_spec, restorable, restored, IpamError, IPAM,
};
use vstd::prelude::*;
use vstd::string::{StrSliceExecFns, StringExecFns};

verus! {

/// A named network: its block, its gateway address and its driver.
#[derive(Debug)]
pub struct Network {
    pub name: String,
    pub cidr: String,
    pub gateway: u32,
    pub driver: String,
}

/// Why a network could not be created.
#[derive(Debug, Clone, Copy, PartialEq, Eq, Structural)]
pub enum NetError {
    /// A network of that name exists.
    AlreadyExists,
    /// Only the `bridge` driver exists.
    UnsupportedDriver,
    /// The address manager refused the subnet or its gateway.
    Address(IpamError),
}

/// The networks, each name once, and the address manager behind them.
#[derive(Debug)]
pub struct Networks {
    pub ipam: IPAM,
    pub networks: Vec<Network>,
}

/// Whether a network of this name is in the list.
pub open spec fn has_name(nets: Seq<Network>, name: Seq<char>) -> bool {
    exists|i: int| 0 <= i < nets.len() && nets[i].name@ == name
}

impl Networks {
    pub open spec fn list(&self) -> Seq<Network> {
        self.networks@
    }

    pub open spec fn wf(&self) -> bool {
        &&& self.ipam.wf()
        &&& forall|i: int, j: int| 0 <= i < j < self.list().len() ==> #[trigger] self.list()[i].name@
            != #[trigger] self.list()[j].name@
    }

    /// No networks and no subnets.
    pub fn empty() -> (r: Self)
        ensures
            r.wf(),
            r.list().len() == 0,
            r.ipam.pool().len() == 0,
    {
        Networks { ipam: IPAM::empty(), networks: Vec::new() }
    }

    /// The network of this name.
    pub fn get(&self, name: &String) -> (r: Option<&Network>)
        ensures
            match r {
                Some(n) => has_name(self.list(), name@) && n.name@ == name@ && exists|i: int|
                    0 <= i < self.list().len() && self.list()[i] == *n,
                None => !has_name(self.list(), name@),
            },
    {
        let mut i: usize = 0;
        while i < self.networks.len()
            invariant
                i <= self.networks@.len(),
                forall|j: int| 0 <= j < i ==> self.networks@[j].name@ != name@,
            decreases self.networks@.len() - i,
        {
            if self.networks[i].name == *name {
                return Some(&self.networks[i]);
            }
            i = i + 1;
        }
        None
    }

    /// The first steps of `network create`: checks the driver and the name,
    /// takes the subnet in and reserves its gateway, whose address it returns.
    /// The bridge is then built outside, and `finish_create` records the
    /// outcome.
    pub fn prepare_create(&mut self, args: &NetCreateArgs) -> (r: Result<u32, NetError>)
        requires
            old(self).wf(),
        ensures
            final(self).wf(),
            final(self).list() == old(self).list(),
            args.driver@ != "bridge"@ ==> r == Err::<u32, NetError>(NetError::UnsupportedDriver)
                && final(self).ipam.pool() == old(self).ipam.pool(),
            args.driver@ == "bridge"@ && has_name(old(self).list(), args.name@) ==> r == Err::<u32, NetError>(NetError::AlreadyExists)
                && final(self).ipam.pool() == old(self).ipam.pool(),
            args.driver@ == "bridge"@ && !has_name(old(self).list(), args.name@) ==> {
                let (p1, a) = add_spec(old(self).ipam.pool(), args.subnet@);
                let (p2, g) = allocate_at_spec(p1, args.subnet@, 0);
                match a {
                    Err(e) => r == Err::<u32, NetError>(NetError::Address(e)) && final(self).ipam.pool() == p1,
                    Ok(_) => final(self).ipam.pool() == p2 && match g {
                        Ok(ip) => r == Ok::<u32, NetError>(ip),
                        Err(e) => r == Err::<u32, NetError>(NetError::Address(e)),
                    },
                }
            },
    {
        proof {
            reveal_strlit("bridge");
        }
        let bridge = String::from_str("bridge");
        if !(args.driver == bridge) {
            return Err(NetError::UnsupportedDriver);
        }
        if let Some(_) = self.get(&args.name) {
            return Err(NetError::AlreadyExists);
        }
        match self.ipam.add_subnet(args.subnet.as_str()) {
            Err(e) => {
                return Err(NetError::Address(e));
            },
            Ok(()) => {},
        }
        match self.ipam.allocate_gateway(args.subnet.as_str()) {
            Ok(ip) => Ok(ip),
            Err(e) => Err(NetError::Address(e)),
        }
    }
    /// The last step of `network create`: records the network once its bridge
    /// is built, or gives the gateway back when building it failed.
    pub fn finish_create(&mut self, args: NetCreateArgs, gateway: u32, built: Result<(), String>) -> (r: Msg)
        requires
            old(self).wf(),
            !has_name(old(self).list(), args.name@),
        ensures
            final(self).wf(),
            match built {
                Ok(()) => {
                    &&& final(self).ipam.pool() == old(self).ipam.pool()
                    &&& final(self).list().len() == old(self).list().len() + 1
                    &&& final(self).list().drop_last() == old(self).list()
                    &&& final(self).list().last().name@ == args.name@
                    &&& final(self).list().last().cidr@ == args.subnet@
                    &&& final(self).list().last().gateway == gateway
                    &&& final(self).list().last().driver@ == args.driver@
                    &&& r matches Msg::OkContent(t) && t@ == "Network "@ + args.name@ + " created"@
                },
                Err(e) => {
                    &&& final(self).ipam.pool() == release_spec(old(self).ipam.pool(), args.subnet@, gateway).0
                    &&& final(self).list() == old(self).list()
                    &&& r matches Msg::Error(t) && t@ == "Failed to create network, driver error: "@ + e@
                },
            },
    {
        proof {
            reveal_strlit("Network ");
            reveal_strlit(" created");
            reveal_strlit("Failed to create network, driver error: ");
        }
        match built {
            Ok(()) => {
                let text = String::from_str("Network ").concat(args.name.as_str()).concat(" created");
                let ghost before = self.networks@;
                self.networks.push(Network {
                    name: args.name,
                    cidr: args.subnet,
                    gateway,
                    driver: args.driver,
                });
                assert(self.list().drop_last() == before);
                assert forall|i: int, j: int| 0 <= i < j < self.list().len() implies #[trigger] self.list()[i].name@
                    != #[trigger] self.list()[j].name@ by {
                    if j == before.len() {
                        assert(self.list()[i] == before[i]);
                    }
                }
                Msg::OkContent(text)
            },
            Err(e) => {
                let _ = self.ipam.release_ip(args.subnet.as_str(), gateway);
                Msg::Error(String::from_str("Failed to create network, driver error: ").concat(e.as_str()))
            },
        }
    }
}

impl NetError {
    /// The failure as the client shows it.
    pub fn message(&self, args: &NetCreateArgs) -> (r: String)
        ensures
            *self == NetError::AlreadyExists ==> r@ == "Failed to create network, network already exists: "@ + args.name@,
            *self == NetError::UnsupportedDriver ==> r@ == "Failed to create network, invalid driver: "@ + args.driver@,
            self is Address ==> r@ == "Failed to create network, address error: "@ + args.subnet@,
    {
        proof {
            reveal_strlit("Failed to create network, network already exists: ");
            reveal_strlit("Failed to create network, invalid driver: ");
            reveal_strlit("Failed to create network, address error: ");
        }
        match self {
            NetError::AlreadyExists => String::from_str("Failed to create network, network already exists: ").concat(
                args.name.as_str(),
            ),
            NetError::UnsupportedDriver => String::from_str("Failed to create network, invalid driver: ").concat(
                args.driver.as_str(),
            ),
            NetError::Address(_) => String::from_str("Failed to create network, address error: ").concat(
                args.subnet.as_str(),
            ),
        }
    }
}

impl Networks {
    /// The registry that saved parts describe: the address manager's raw
    /// entries and the networks, each name once.
    pub fn restore(raw: Vec<(String, Vec<u8>)>, networks: Vec<Network>) -> (r: Result<Networks, NetError>)
        ensures
            r is Ok <==> restorable(raw_view(raw@)) && forall|i: int, j: int|
                0 <= i < j < networks@.len() ==> #[trigger] networks@[i].name@ != #[trigger] networks@[j].name@,
            r matches Ok(n) ==> n.wf() && n.list() == networks@ && n.ipam.pool() == restored(raw_view(raw@)),
    {
        let ipam = match IPAM::from_raw(raw) {
            Ok(ipam) => ipam,
            Err(e) => {
                return Err(NetError::Address(e));
            },
        };
        let mut i: usize = 0;
        while i < networks.len()
            invariant
                i <= networks@.len(),
                forall|a: int, b: int| 0 <= a < b < networks@.len() && a < i ==> #[trigger] networks@[a].name@
                    != #[trigger] networks@[b].name@,
            decreases networks@.len() - i,
        {
            let mut j: usize = i + 1;
            while j < networks.len()
                invariant
                    i < j <= networks@.len(),
                    forall|a: int, b: int| 0 <= a < b < networks@.len() && a < i ==> #[trigger] networks@[a].name@
                        != #[trigger] networks@[b].name@,
                    forall|b: int| i < b < j ==> networks@[i as int].name@ != #[trigger] networks@[b].name@,
                decreases networks@.len() - j,
            {
                if networks[i].name == networks[j].name {
                    return Err(NetError::AlreadyExists);
                }
                j = j + 1;
            }
            i = i + 1;
        }
        Ok(Networks { ipam, networks })
    }
}

} // verus!
