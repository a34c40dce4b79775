//! What the bridge driver asks of the host, as data: the NAT rules of a
//! network and the names of an endpoint's veth pair.
use vstd::prelude::*;
use vstd::string::{StrSliceExecFns, StringExecFns};

verus! {

/// The bridge driver. It holds no state: each call works on a fresh
/// netlink connection.
#[derive(Debug, Clone, Copy)]
pub struct BridgeDriver {}

/// The words of `s` as texts.
pub open spec fn words(s: Seq<String>) -> Seq<Seq<char>> {
    s.map_values(|w: String| w@)
}

fn word(s: &str) -> (r: String)
    ensures
        r@ == s@,
{
    s.to_owned()
}

impl BridgeDriver {
    /// The `iptables` arguments that let traffic leave through the bridge:
    /// `-A FORWARD -i <bridge> -j ACCEPT`.
    pub fn forward_rule(&self, bridge: &str) -> (r: Vec<String>)
        ensures
            words(r@) == seq!["-A"@, "FORWARD"@, "-i"@, bridge@, "-j"@, "ACCEPT"@],
    {
        let r = vec![word("-A"), word("FORWARD"), word("-i"), word(bridge), word("-j"), word("ACCEPT")];
        assert(words(r@) =~= seq!["-A"@, "FORWARD"@, "-i"@, bridge@, "-j"@, "ACCEPT"@]);
        r
    }

    /// The `iptables` arguments that masquerade the network's traffic:
    /// `-t nat -A POSTROUTING -s <cidr> -j MASQUERADE`.
    pub fn masquerade_rule(&self, cidr: &str) -> (r: Vec<String>)
        ensures
            words(r@) == seq!["-t"@, "nat"@, "-A"@, "POSTROUTING"@, "-s"@, cidr@, "-j"@, "MASQUERADE"@],
    {
        let r = vec![
            word("-t"),
            word("nat"),
            word("-A"),
            word("POSTROUTING"),
            word("-s"),
            word(cidr),
            word("-j"),
            word("MASQUERADE"),
        ];
        assert(words(r@) =~= seq!["-t"@, "nat"@, "-A"@, "POSTROUTING"@, "-s"@, cidr@, "-j"@, "MASQUERADE"@]);
        r
    }

    /// The names of the veth pair of an endpoint: `veth-<tag>` on the host,
    /// `ceth-<tag>` for the container.
    pub fn veth_names(&self, tag: &str) -> (r: (String, String))
        ensures
            r.0@ == "veth-"@ + tag@,
            r.1@ == "ceth-"@ + tag@,
    {
        proof {
            reveal_strlit("veth-");
            reveal_strlit("ceth-");
        }
        (String::from_str("veth-").concat(tag), String::from_str("ceth-").concat(tag))
    }

    /// The namespace file of a process, which the peer end is moved into.
    pub fn netns_path(&self, pid: u64) -> (r: String)
        ensures
            r@ == "/proc/"@ + crate::container::text::decimal(pid as nat) + "/ns/net"@,
    {
        proof {
            reveal_strlit("/proc/");
            reveal_strlit("/ns/net");
        }
        String::from_str("/proc/").concat(crate::container::text::decimal_text(pid).as_str()).concat("/ns/net")
    }
}

} // verus!
