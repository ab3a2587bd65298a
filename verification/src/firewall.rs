//! Bounded, platform-neutral firewall and MSS-clamp planning.
//!
//! The functions only build validated nftables argument vectors; applying
//! them is an explicit, privileged caller decision, so ordinary TUN testing
//! never rewrites host firewall policy.

use vstd::prelude::*;

use crate::error::{has_control_char, has_non_whitespace, msg, Result, ShphError};
use crate::text::decimal;
use crate::tun::{DEFAULT_TUN_MTU_BYTES, MAX_TUN_PACKET_BYTES, MIN_TUN_MTU_BYTES};

verus! {

/// nftables table of the killswitch.
pub const KILLSWITCH_TABLE_NAME: &'static str = "shph_killswitch";

/// nftables table of the MSS clamp.
pub const MSS_CLAMP_TABLE_NAME: &'static str = "shph_mss_clamp";

/// nftables table of the NAT gateway rules.
pub const NAT_TABLE_NAME: &'static str = "shph_nat";

/// Transport protocol of the encrypted peers.
#[derive(Debug, Clone, Copy, PartialEq, Eq, Structural)]
pub enum FirewallTransport {
    Tcp,
    Udp,
}

/// The nftables protocol name of a transport.
pub open spec fn protocol_name(t: FirewallTransport) -> Seq<char> {
    match t {
        FirewallTransport::Tcp => "tcp"@,
        FirewallTransport::Udp => "udp"@,
    }
}

impl FirewallTransport {
    /// The nftables protocol name.
    pub fn protocol_name(self) -> (s: &'static str)
        ensures
            s@ == protocol_name(self),
    {
        match self {
            FirewallTransport::Tcp => "tcp",
            FirewallTransport::Udp => "udp",
        }
    }

    /// The IP protocol number, as Windows Filtering Platform conditions
    /// carry it.
    pub fn protocol_number(self) -> (n: u8)
        ensures
            n == match self {
                FirewallTransport::Tcp => 6u8,
                FirewallTransport::Udp => 17u8,
            },
    {
        match self {
            FirewallTransport::Tcp => 6,
            FirewallTransport::Udp => 17,
        }
    }
}

/// A literal peer endpoint: its address family, its address as text and
/// its port.
#[derive(Debug, Clone)]
pub struct PeerEndpoint {
    pub is_ipv6: bool,
    pub address: String,
    pub port: u16,
}

/// An interface name the firewall accepts: some non-whitespace character and
/// no control character.
pub open spec fn interface_ok(name: Seq<char>) -> bool {
    (exists|i: int| 0 <= i < name.len() && !crate::error::whitespace_char(#[trigger] name[i]))
        && !(exists|i: int| 0 <= i < name.len() && crate::error::control_char(#[trigger] name[i]))
}

/// Refuses a blank interface name or one holding control characters.
pub fn validate_firewall_interface(interface_name: &str) -> (r: Result<()>)
    ensures
        r is Ok <==> interface_ok(interface_name@),
        r matches Err(e) ==> e matches ShphError::InvalidArgument(m) && m@ == "firewall interface name is invalid"@,
{
    if !has_non_whitespace(interface_name) || has_control_char(interface_name) {
        return Err(ShphError::InvalidArgument(msg("firewall interface name is invalid")));
    }
    Ok(())
}

/// Refuses an empty peer list, and peers with port zero.
pub fn validate_peer_allowlist(peers: &[PeerEndpoint]) -> (r: Result<()>)
    ensures
        peers@.len() == 0 ==> (r matches Err(ShphError::Config(m)) && m@
            == "killswitch requires at least one literal peer endpoint"@),
        peers@.len() > 0 && (exists|i: int| 0 <= i < peers@.len() && #[trigger] peers@[i].port == 0) ==> (r matches Err(
            ShphError::Config(m),
        ) && m@ == "killswitch peer endpoints must use non-zero ports"@),
        peers@.len() > 0 && (forall|i: int| 0 <= i < peers@.len() ==> #[trigger] peers@[i].port != 0) ==> r is Ok,
{
    if peers.len() == 0 {
        return Err(ShphError::Config(msg("killswitch requires at least one literal peer endpoint")));
    }
    let mut i: usize = 0;
    while i < peers.len()
        invariant
            i <= peers@.len(),
            forall|k: int| 0 <= k < i ==> #[trigger] peers@[k].port != 0,
        decreases peers@.len() - i,
    {
        if peers[i].port == 0 {
            return Err(ShphError::Config(msg("killswitch peer endpoints must use non-zero ports")));
        }
        i = i + 1;
    }
    Ok(())
}

/// The text of each argument of each command.
pub open spec fn command_texts(commands: Seq<Vec<String>>) -> Seq<Seq<Seq<char>>> {
    commands.map_values(|c: Vec<String>| string_texts(c@))
}

/// The text of each string.
pub open spec fn string_texts(strings: Seq<String>) -> Seq<Seq<char>> {
    strings.map_values(|s: String| s@)
}

/// The text of each word.
pub open spec fn word_texts(words: Seq<&str>) -> Seq<Seq<char>> {
    words.map_values(|w: &str| w@)
}

/// A command from literal words.
fn command(words: &[&str]) -> (c: Vec<String>)
    ensures
        string_texts(c@) == word_texts(words@),
{
    let mut c: Vec<String> = Vec::new();
    let mut i: usize = 0;
    while i < words.len()
        invariant
            i <= words@.len(),
            c@.len() == i,
            string_texts(c@) == word_texts(words@.take(i as int)),
        decreases words@.len() - i,
    {
        let ghost old_c = c@;
        let w = String::from_str(words[i]);
        c.push(w);
        assert forall|k: int| 0 <= k < i + 1 implies #[trigger] string_texts(c@)[k] == word_texts(
            words@.take(i + 1),
        )[k] by {
            if k < i {
                assert(c@[k] == old_c[k]);
                assert(string_texts(old_c)[k] == word_texts(words@.take(i as int))[k]);
                assert(words@.take(i as int)[k] == words@.take(i + 1)[k]);
            } else {
                assert(c@[k] == w);
            }
        }
        i = i + 1;
        assert(string_texts(c@) =~= word_texts(words@.take(i as int)));
    }
    assert(words@.take(words@.len() as int) =~= words@);
    c
}

/// The killswitch commands before the per-peer rules.
pub open spec fn killswitch_base(interface: Seq<char>) -> Seq<Seq<Seq<char>>> {
    seq![
        seq!["nft"@, "add"@, "table"@, "inet"@, "shph_killswitch"@],
        seq![
            "nft"@, "add"@, "chain"@, "inet"@, "shph_killswitch"@, "output"@, "{"@, "type"@, "filter"@, "hook"@,
            "output"@, "priority"@, "0"@, ";"@, "policy"@, "drop"@, ";"@, "}"@,
        ],
        seq!["nft"@, "add"@, "rule"@, "inet"@, "shph_killswitch"@, "output"@, "oifname"@, "lo"@, "accept"@],
        seq!["nft"@, "add"@, "rule"@, "inet"@, "shph_killswitch"@, "output"@, "oifname"@, interface, "accept"@],
    ]
}

/// The killswitch rule that accepts one peer.
pub open spec fn killswitch_peer_rule(peer: PeerEndpoint, transport: FirewallTransport) -> Seq<Seq<char>> {
    seq![
        "nft"@,
        "add"@,
        "rule"@,
        "inet"@,
        "shph_killswitch"@,
        "output"@,
        if peer.is_ipv6 { "ip6"@ } else { "ip"@ },
        "daddr"@,
        peer.address@,
        protocol_name(transport),
        "dport"@,
        decimal(peer.port as nat),
        "accept"@,
    ]
}

/// The complete killswitch plan.
pub open spec fn killswitch_plan(interface: Seq<char>, peers: Seq<PeerEndpoint>, transport: FirewallTransport) -> Seq<
    Seq<Seq<char>>,
> {
    killswitch_base(interface) + Seq::new(peers.len(), |i: int| killswitch_peer_rule(peers[i], transport))
}

fn peer_rule(peer: &PeerEndpoint, transport: FirewallTransport) -> (c: Vec<String>)
    ensures
        string_texts(c@) == killswitch_peer_rule(*peer, transport),
{
    proof {
        reveal_strlit("ip6");
        reveal_strlit("ip");
    }
    let family = if peer.is_ipv6 { "ip6" } else { "ip" };
    let port = crate::text::decimal_string(peer.port as u64);
    let c = command(
        &[
            "nft",
            "add",
            "rule",
            "inet",
            KILLSWITCH_TABLE_NAME,
            "output",
            family,
            "daddr",
            peer.address.as_str(),
            transport.protocol_name(),
            "dport",
            port.as_str(),
            "accept",
        ],
    );
    c
}

/// An nftables output policy that drops all traffic except loopback, the
/// named TUN interface and the configured encrypted transport peers. No
/// delete command is included: removing a stale table is the caller's
/// best-effort step, never mistaken for a successful install.
pub fn build_linux_killswitch_commands(interface_name: &str, peers: &[PeerEndpoint], transport: FirewallTransport) -> (r:
    Result<Vec<Vec<String>>>)
    ensures
        !interface_ok(interface_name@) ==> (r matches Err(ShphError::InvalidArgument(m)) && m@
            == "firewall interface name is invalid"@),
        interface_ok(interface_name@) && peers@.len() == 0 ==> (r matches Err(ShphError::Config(m)) && m@
            == "killswitch requires at least one literal peer endpoint"@),
        interface_ok(interface_name@) && peers@.len() > 0 && (exists|i: int| 0 <= i < peers@.len() && #[trigger] peers@[i].port == 0)
            ==> (r matches Err(ShphError::Config(m)) && m@ == "killswitch peer endpoints must use non-zero ports"@),
        r is Ok <==> interface_ok(interface_name@) && peers@.len() > 0 && (forall|i: int|
            0 <= i < peers@.len() ==> #[trigger] peers@[i].port != 0),
        r matches Ok(cs) ==> command_texts(cs@) == killswitch_plan(interface_name@, peers@, transport),
        r matches Ok(cs) ==> (cs@.len() > 1 && string_texts(cs@[1]@) == seq![
            "nft"@, "add"@, "chain"@, "inet"@, "shph_killswitch"@, "output"@, "{"@, "type"@, "filter"@, "hook"@,
            "output"@, "priority"@, "0"@, ";"@, "policy"@, "drop"@, ";"@, "}"@,
        ]),
{
    match validate_firewall_interface(interface_name) {
        Ok(()) => {},
        Err(e) => return Err(e),
    }
    match validate_peer_allowlist(peers) {
        Ok(()) => {},
        Err(e) => return Err(e),
    }
    proof {
        reveal_strlit("shph_killswitch");
    }
    let mut commands: Vec<Vec<String>> = Vec::new();
    commands.push(command(&["nft", "add", "table", "inet", KILLSWITCH_TABLE_NAME]));
    commands.push(
        command(
            &[
                "nft",
                "add",
                "chain",
                "inet",
                KILLSWITCH_TABLE_NAME,
                "output",
                "{",
                "type",
                "filter",
                "hook",
                "output",
                "priority",
                "0",
                ";",
                "policy",
                "drop",
                ";",
                "}",
            ],
        ),
    );
    commands.push(command(&["nft", "add", "rule", "inet", KILLSWITCH_TABLE_NAME, "output", "oifname", "lo", "accept"]));
    commands.push(
        command(&["nft", "add", "rule", "inet", KILLSWITCH_TABLE_NAME, "output", "oifname", interface_name, "accept"]),
    );
    let ghost base = killswitch_base(interface_name@);
    assert(command_texts(commands@) =~~= base);
    let mut i: usize = 0;
    while i < peers.len()
        invariant
            i <= peers@.len(),
            base == killswitch_base(interface_name@),
            base.len() == 4,
            commands@.len() == 4 + i,
            command_texts(commands@) == base + Seq::new(i as nat, |k: int| killswitch_peer_rule(peers@[k], transport)),
        decreases peers@.len() - i,
    {
        let ghost old_cs = commands@;
        let rule = peer_rule(&peers[i], transport);
        commands.push(rule);
        proof {
            let next = base + Seq::new((i + 1) as nat, |k: int| killswitch_peer_rule(peers@[k], transport));
            let prev = base + Seq::new(i as nat, |k: int| killswitch_peer_rule(peers@[k], transport));
            assert forall|k: int| 0 <= k < commands@.len() implies #[trigger] command_texts(commands@)[k] == next[k] by {
                if k < old_cs.len() {
                    assert(commands@[k] == old_cs[k]);
                    assert(command_texts(old_cs)[k] == prev[k]);
                    if k >= 4 {
                        assert(prev[k] == killswitch_peer_rule(peers@[k - 4], transport));
                        assert(next[k] == killswitch_peer_rule(peers@[k - 4], transport));
                    }
                } else {
                    assert(commands@[k] == rule);
                    assert(k == 4 + i);
                    assert(next[k] == killswitch_peer_rule(peers@[i as int], transport));
                }
            }
            assert(command_texts(commands@) =~= next);
        }
        i = i + 1;
    }
    proof {
        assert(command_texts(commands@)[1] == string_texts(commands@[1]@));
        assert(command_texts(commands@)[1] == base[1]);
    }
    Ok(commands)
}

/// The killswitch output chain drops by default: whatever the interface,
/// peers and transport, the plan's second command creates the output hook
/// chain with policy drop, so only the explicitly accepted traffic leaves.
pub proof fn lemma_killswitch_chain_policy_drop(
    interface: Seq<char>,
    peers: Seq<PeerEndpoint>,
    transport: FirewallTransport,
)
    ensures
        killswitch_plan(interface, peers, transport).len() == 4 + peers.len(),
        killswitch_plan(interface, peers, transport)[1] == seq![
            "nft"@, "add"@, "chain"@, "inet"@, "shph_killswitch"@, "output"@, "{"@, "type"@, "filter"@, "hook"@,
            "output"@, "priority"@, "0"@, ";"@, "policy"@, "drop"@, ";"@, "}"@,
        ],
{
}

/// Deletes the killswitch table.
pub fn build_linux_killswitch_cleanup_commands() -> (cs: Vec<Vec<String>>)
    ensures
        command_texts(cs@) == seq![seq!["nft"@, "delete"@, "table"@, "inet"@, "shph_killswitch"@]],
{
    proof {
        reveal_strlit("shph_killswitch");
    }
    let mut cs: Vec<Vec<String>> = Vec::new();
    cs.push(command(&["nft", "delete", "table", "inet", KILLSWITCH_TABLE_NAME]));
    assert(command_texts(cs@) =~~= seq![seq!["nft"@, "delete"@, "table"@, "inet"@, "shph_killswitch"@]]);
    cs
}

/// The MSS clamp plan.
pub open spec fn mss_clamp_plan(interface: Seq<char>) -> Seq<Seq<Seq<char>>> {
    seq![
        seq!["nft"@, "add"@, "table"@, "inet"@, "shph_mss_clamp"@],
        seq![
            "nft"@, "add"@, "chain"@, "inet"@, "shph_mss_clamp"@, "forward"@, "{"@, "type"@, "filter"@, "hook"@,
            "forward"@, "priority"@, "-150"@, ";"@, "policy"@, "accept"@, ";"@, "}"@,
        ],
        seq![
            "nft"@, "add"@, "rule"@, "inet"@, "shph_mss_clamp"@, "forward"@, "oifname"@, interface, "tcp"@, "flags"@,
            "syn"@, "tcp"@, "option"@, "maxseg"@, "size"@, "set"@, "rt"@, "mtu"@,
        ],
        seq![
            "nft"@, "add"@, "rule"@, "inet"@, "shph_mss_clamp"@, "forward"@, "iifname"@, interface, "tcp"@, "flags"@,
            "syn"@, "tcp"@, "option"@, "maxseg"@, "size"@, "set"@, "rt"@, "mtu"@,
        ],
    ]
}

/// Bidirectional TCP SYN MSS clamping rules for the named TUN interface, in
/// their own table so cleanup cannot touch unrelated nftables policy.
pub fn build_linux_mss_clamp_commands(interface_name: &str, mtu: usize) -> (r: Result<Vec<Vec<String>>>)
    ensures
        !interface_ok(interface_name@) ==> (r matches Err(ShphError::InvalidArgument(m)) && m@
            == "firewall interface name is invalid"@),
        interface_ok(interface_name@) && !(MIN_TUN_MTU_BYTES <= mtu <= MAX_TUN_PACKET_BYTES) ==> (r matches Err(e)
            && e is Config),
        r is Ok <==> interface_ok(interface_name@) && MIN_TUN_MTU_BYTES <= mtu <= MAX_TUN_PACKET_BYTES,
        r matches Ok(cs) ==> command_texts(cs@) == mss_clamp_plan(interface_name@),
{
    match validate_firewall_interface(interface_name) {
        Ok(()) => {},
        Err(e) => return Err(e),
    }
    match crate::tun::validate_tun_mtu(mtu) {
        Ok(()) => {},
        Err(e) => return Err(e),
    }
    proof {
        reveal_strlit("shph_mss_clamp");
    }
    let mut commands: Vec<Vec<String>> = Vec::new();
    commands.push(command(&["nft", "add", "table", "inet", MSS_CLAMP_TABLE_NAME]));
    commands.push(
        command(
            &[
                "nft",
                "add",
                "chain",
                "inet",
                MSS_CLAMP_TABLE_NAME,
                "forward",
                "{",
                "type",
                "filter",
                "hook",
                "forward",
                "priority",
                "-150",
                ";",
                "policy",
                "accept",
                ";",
                "}",
            ],
        ),
    );
    commands.push(
        command(
            &[
                "nft",
                "add",
                "rule",
                "inet",
                MSS_CLAMP_TABLE_NAME,
                "forward",
                "oifname",
                interface_name,
                "tcp",
                "flags",
                "syn",
                "tcp",
                "option",
                "maxseg",
                "size",
                "set",
                "rt",
                "mtu",
            ],
        ),
    );
    commands.push(
        command(
            &[
                "nft",
                "add",
                "rule",
                "inet",
                MSS_CLAMP_TABLE_NAME,
                "forward",
                "iifname",
                interface_name,
                "tcp",
                "flags",
                "syn",
                "tcp",
                "option",
                "maxseg",
                "size",
                "set",
                "rt",
                "mtu",
            ],
        ),
    );
    assert(command_texts(commands@) =~~= mss_clamp_plan(interface_name@));
    Ok(commands)
}

/// Deletes the MSS clamp table.
pub fn build_linux_mss_clamp_cleanup_commands() -> (cs: Vec<Vec<String>>)
    ensures
        command_texts(cs@) == seq![seq!["nft"@, "delete"@, "table"@, "inet"@, "shph_mss_clamp"@]],
{
    proof {
        reveal_strlit("shph_mss_clamp");
    }
    let mut cs: Vec<Vec<String>> = Vec::new();
    cs.push(command(&["nft", "delete", "table", "inet", MSS_CLAMP_TABLE_NAME]));
    assert(command_texts(cs@) =~~= seq![seq!["nft"@, "delete"@, "table"@, "inet"@, "shph_mss_clamp"@]]);
    cs
}

/// The NAT gateway plan.
pub open spec fn nat_plan(interface: Seq<char>) -> Seq<Seq<Seq<char>>> {
    seq![
        seq!["nft"@, "add"@, "table"@, "inet"@, "shph_nat"@],
        seq![
            "nft"@, "add"@, "chain"@, "inet"@, "shph_nat"@, "forward"@, "{"@, "type"@, "filter"@, "hook"@, "forward"@,
            "priority"@, "0"@, ";"@, "policy"@, "accept"@, ";"@, "}"@,
        ],
        seq!["nft"@, "add"@, "table"@, "ip"@, "shph_nat"@],
        seq![
            "nft"@, "add"@, "chain"@, "ip"@, "shph_nat"@, "postrouting"@, "{"@, "type"@, "nat"@, "hook"@,
            "postrouting"@, "priority"@, "100"@, ";"@, "policy"@, "accept"@, ";"@, "}"@,
        ],
        seq!["nft"@, "add"@, "rule"@, "ip"@, "shph_nat"@, "postrouting"@, "iifname"@, interface, "masquerade"@],
    ]
}

/// Forwarding and masquerade rules for a host gateway, scoped to traffic
/// entering through the named TUN interface, in tables of their own.
pub fn build_linux_nat_commands(interface_name: &str) -> (r: Result<Vec<Vec<String>>>)
    ensures
        r is Ok <==> interface_ok(interface_name@),
        r matches Err(e) ==> e matches ShphError::InvalidArgument(m) && m@ == "firewall interface name is invalid"@,
        r matches Ok(cs) ==> command_texts(cs@) == nat_plan(interface_name@),
{
    match validate_firewall_interface(interface_name) {
        Ok(()) => {},
        Err(e) => return Err(e),
    }
    proof {
        reveal_strlit("shph_nat");
    }
    let mut commands: Vec<Vec<String>> = Vec::new();
    commands.push(command(&["nft", "add", "table", "inet", NAT_TABLE_NAME]));
    commands.push(
        command(
            &[
                "nft",
                "add",
                "chain",
                "inet",
                NAT_TABLE_NAME,
                "forward",
                "{",
                "type",
                "filter",
                "hook",
                "forward",
                "priority",
                "0",
                ";",
                "policy",
                "accept",
                ";",
                "}",
            ],
        ),
    );
    commands.push(command(&["nft", "add", "table", "ip", NAT_TABLE_NAME]));
    commands.push(
        command(
            &[
                "nft",
                "add",
                "chain",
                "ip",
                NAT_TABLE_NAME,
                "postrouting",
                "{",
                "type",
                "nat",
                "hook",
                "postrouting",
                "priority",
                "100",
                ";",
                "policy",
                "accept",
                ";",
                "}",
            ],
        ),
    );
    commands.push(command(&["nft", "add", "rule", "ip", NAT_TABLE_NAME, "postrouting", "iifname", interface_name, "masquerade"]));
    assert(command_texts(commands@) =~~= nat_plan(interface_name@));
    Ok(commands)
}

/// Deletes the NAT tables, the IPv4 one first.
pub fn build_linux_nat_cleanup_commands() -> (cs: Vec<Vec<String>>)
    ensures
        command_texts(cs@) == seq![
            seq!["nft"@, "delete"@, "table"@, "ip"@, "shph_nat"@],
            seq!["nft"@, "delete"@, "table"@, "inet"@, "shph_nat"@],
        ],
{
    proof {
        reveal_strlit("shph_nat");
    }
    let mut cs: Vec<Vec<String>> = Vec::new();
    cs.push(command(&["nft", "delete", "table", "ip", NAT_TABLE_NAME]));
    cs.push(command(&["nft", "delete", "table", "inet", NAT_TABLE_NAME]));
    assert(command_texts(cs@) =~~= seq![
        seq!["nft"@, "delete"@, "table"@, "ip"@, "shph_nat"@],
        seq!["nft"@, "delete"@, "table"@, "inet"@, "shph_nat"@],
    ]);
    cs
}

/// The MTU the MSS clamp plan assumes by default.
pub fn default_mtu_for_mss_clamp() -> (m: usize)
    ensures
        m == DEFAULT_TUN_MTU_BYTES,
{
    DEFAULT_TUN_MTU_BYTES
}

} // verus!
