//! Firewall redirect rules, as data.
//!
//! The rule set bypasses the private ranges, loopback, and the tunnel
//! server's own address, and redirects TCP ports 80 and 443 to the
//! proxy's listen port. This module builds the exact rule text and
//! argument lists; detecting a backend and running the commands is the
//! embedding program's concern.

use vstd::prelude::*;
use vstd::string::StringSliceAdditionalSpecFns;
use crate::util::dec_digits;
use crate::util::push_all;
use crate::util::push_decimal;
use crate::util::views_of;

verus! {

/// Which firewall tool manages the redirect rules.
#[derive(Debug, Clone, Copy, PartialEq, Eq, Structural)]
pub enum FirewallBackend {
    Nftables,
    Iptables,
}

/// The nftables ruleset installing the redirect: bypass the server's
/// own address, the RFC-1918 ranges and loopback, then redirect web
/// ports to the listen port.
pub open spec fn spec_nft_ruleset(listen_port: u16, server_ip: Seq<u8>) -> Seq<u8> {
    "table ip xr_proxy {\n    chain prerouting {\n        type nat hook prerouting priority dstnat; policy accept;\n        ip daddr ".spec_bytes()
        + server_ip
        + " return\n        ip daddr 10.0.0.0/8 return\n        ip daddr 172.16.0.0/12 return\n        ip daddr 192.168.0.0/16 return\n        ip daddr 127.0.0.0/8 return\n        tcp dport { 80, 443 } redirect to :".spec_bytes()
        + dec_digits(listen_port as nat) + "\n    }\n}\n".spec_bytes()
}

/// Build the nftables ruleset text.
pub fn nftables_ruleset(listen_port: u16, server_ip: &[u8]) -> (r: Vec<u8>)
    ensures
        r@ == spec_nft_ruleset(listen_port, server_ip@),
{
    let mut r: Vec<u8> = Vec::new();
    push_all(
        &mut r,
        "table ip xr_proxy {\n    chain prerouting {\n        type nat hook prerouting priority dstnat; policy accept;\n        ip daddr ".as_bytes(),
    );
    push_all(&mut r, server_ip);
    push_all(
        &mut r,
        " return\n        ip daddr 10.0.0.0/8 return\n        ip daddr 172.16.0.0/12 return\n        ip daddr 192.168.0.0/16 return\n        ip daddr 127.0.0.0/8 return\n        tcp dport { 80, 443 } redirect to :".as_bytes(),
    );
    push_decimal(&mut r, listen_port as u64);
    push_all(&mut r, "\n    }\n}\n".as_bytes());
    proof {
        assert(r@ =~= spec_nft_ruleset(listen_port, server_ip@));
    }
    r
}

/// The arguments that delete the nftables table, idempotently
/// removable on shutdown.
pub open spec fn spec_nft_cleanup_args() -> Seq<Seq<u8>> {
    seq![
        "delete".spec_bytes(),
        "table".spec_bytes(),
        "ip".spec_bytes(),
        "xr_proxy".spec_bytes(),
    ]
}

/// Build the nft arguments that remove the redirect table.
pub fn nftables_cleanup_args() -> (r: Vec<Vec<u8>>)
    ensures
        views_of(r@) == spec_nft_cleanup_args(),
{
    let mut r: Vec<Vec<u8>> = Vec::new();
    r.push(arg("delete"));
    r.push(arg("table"));
    r.push(arg("ip"));
    r.push(arg("xr_proxy"));
    proof {
        assert(views_of(r@) =~= spec_nft_cleanup_args());
    }
    r
}

/// One iptables invocation appending a RETURN rule for `dest` to the
/// proxy chain.
pub open spec fn spec_ipt_return_args(dest: Seq<u8>) -> Seq<Seq<u8>> {
    seq![
        "-t".spec_bytes(),
        "nat".spec_bytes(),
        "-A".spec_bytes(),
        "XR_PROXY".spec_bytes(),
        "-d".spec_bytes(),
        dest,
        "-j".spec_bytes(),
        "RETURN".spec_bytes(),
    ]
}

/// The iptables invocations that install the redirect: create the
/// chain, bypass the server and the private and loopback ranges,
/// redirect ports 80 and 443 to the listen port, and hook the chain
/// into PREROUTING.
pub open spec fn spec_ipt_setup(listen_port: u16, server_ip: Seq<u8>) -> Seq<Seq<Seq<u8>>> {
    seq![
        seq![
            "-t".spec_bytes(),
            "nat".spec_bytes(),
            "-N".spec_bytes(),
            "XR_PROXY".spec_bytes(),
        ],
        spec_ipt_return_args(server_ip),
        spec_ipt_return_args("10.0.0.0/8".spec_bytes()),
        spec_ipt_return_args("172.16.0.0/12".spec_bytes()),
        spec_ipt_return_args("192.168.0.0/16".spec_bytes()),
        spec_ipt_return_args("127.0.0.0/8".spec_bytes()),
        seq![
            "-t".spec_bytes(),
            "nat".spec_bytes(),
            "-A".spec_bytes(),
            "XR_PROXY".spec_bytes(),
            "-p".spec_bytes(),
            "tcp".spec_bytes(),
            "-m".spec_bytes(),
            "multiport".spec_bytes(),
            "--dports".spec_bytes(),
            "80,443".spec_bytes(),
            "-j".spec_bytes(),
            "REDIRECT".spec_bytes(),
            "--to-ports".spec_bytes(),
            dec_digits(listen_port as nat),
        ],
        seq![
            "-t".spec_bytes(),
            "nat".spec_bytes(),
            "-A".spec_bytes(),
            "PREROUTING".spec_bytes(),
            "-j".spec_bytes(),
            "XR_PROXY".spec_bytes(),
        ],
    ]
}

/// The iptables invocations that remove the redirect: unhook the
/// chain, flush it, delete it.
pub open spec fn spec_ipt_cleanup() -> Seq<Seq<Seq<u8>>> {
    seq![
        seq![
            "-t".spec_bytes(),
            "nat".spec_bytes(),
            "-D".spec_bytes(),
            "PREROUTING".spec_bytes(),
            "-j".spec_bytes(),
            "XR_PROXY".spec_bytes(),
        ],
        seq![
            "-t".spec_bytes(),
            "nat".spec_bytes(),
            "-F".spec_bytes(),
            "XR_PROXY".spec_bytes(),
        ],
        seq![
            "-t".spec_bytes(),
            "nat".spec_bytes(),
            "-X".spec_bytes(),
            "XR_PROXY".spec_bytes(),
        ],
    ]
}

/// The argument vectors of a sequence of invocations.
pub open spec fn views2_of(cs: Seq<Vec<Vec<u8>>>) -> Seq<Seq<Seq<u8>>> {
    Seq::new(cs.len(), |i: int| views_of(cs[i]@))
}

/// One argument as bytes.
fn arg(s: &str) -> (r: Vec<u8>)
    ensures
        r@ == s.spec_bytes(),
{
    let mut r: Vec<u8> = Vec::new();
    push_all(&mut r, s.as_bytes());
    proof {
        assert(r@ =~= s.spec_bytes());
    }
    r
}

/// An iptables RETURN rule for `dest`.
fn ipt_return_args(dest: &[u8]) -> (r: Vec<Vec<u8>>)
    ensures
        views_of(r@) == spec_ipt_return_args(dest@),
{
    let mut r: Vec<Vec<u8>> = Vec::new();
    r.push(arg("-t"));
    r.push(arg("nat"));
    r.push(arg("-A"));
    r.push(arg("XR_PROXY"));
    r.push(arg("-d"));
    let mut d: Vec<u8> = Vec::new();
    push_all(&mut d, dest);
    proof {
        assert(d@ =~= dest@);
    }
    r.push(d);
    r.push(arg("-j"));
    r.push(arg("RETURN"));
    proof {
        assert(views_of(r@) =~= spec_ipt_return_args(dest@));
    }
    r
}

/// Build the iptables invocations that install the redirect.
pub fn iptables_setup_commands(listen_port: u16, server_ip: &[u8]) -> (r: Vec<Vec<Vec<u8>>>)
    ensures
        views2_of(r@) == spec_ipt_setup(listen_port, server_ip@),
{
    let mut r: Vec<Vec<Vec<u8>>> = Vec::new();
    let mut mk: Vec<Vec<u8>> = Vec::new();
    mk.push(arg("-t"));
    mk.push(arg("nat"));
    mk.push(arg("-N"));
    mk.push(arg("XR_PROXY"));
    proof {
        assert(views_of(mk@) =~= spec_ipt_setup(listen_port, server_ip@)[0]);
    }
    r.push(mk);
    r.push(ipt_return_args(server_ip));
    r.push(ipt_return_args("10.0.0.0/8".as_bytes()));
    r.push(ipt_return_args("172.16.0.0/12".as_bytes()));
    r.push(ipt_return_args("192.168.0.0/16".as_bytes()));
    r.push(ipt_return_args("127.0.0.0/8".as_bytes()));
    let mut rd: Vec<Vec<u8>> = Vec::new();
    rd.push(arg("-t"));
    rd.push(arg("nat"));
    rd.push(arg("-A"));
    rd.push(arg("XR_PROXY"));
    rd.push(arg("-p"));
    rd.push(arg("tcp"));
    rd.push(arg("-m"));
    rd.push(arg("multiport"));
    rd.push(arg("--dports"));
    rd.push(arg("80,443"));
    rd.push(arg("-j"));
    rd.push(arg("REDIRECT"));
    rd.push(arg("--to-ports"));
    let mut port: Vec<u8> = Vec::new();
    push_decimal(&mut port, listen_port as u64);
    proof {
        assert(port@ =~= dec_digits(listen_port as nat));
    }
    rd.push(port);
    proof {
        assert(views_of(rd@) =~= spec_ipt_setup(listen_port, server_ip@)[6]);
    }
    r.push(rd);
    let mut hook: Vec<Vec<u8>> = Vec::new();
    hook.push(arg("-t"));
    hook.push(arg("nat"));
    hook.push(arg("-A"));
    hook.push(arg("PREROUTING"));
    hook.push(arg("-j"));
    hook.push(arg("XR_PROXY"));
    proof {
        assert(views_of(hook@) =~= spec_ipt_setup(listen_port, server_ip@)[7]);
    }
    r.push(hook);
    proof {
        assert(views2_of(r@) =~= spec_ipt_setup(listen_port, server_ip@));
    }
    r
}

/// Build the iptables invocations that remove the redirect.
pub fn iptables_cleanup_commands() -> (r: Vec<Vec<Vec<u8>>>)
    ensures
        views2_of(r@) == spec_ipt_cleanup(),
{
    let mut r: Vec<Vec<Vec<u8>>> = Vec::new();
    let mut unhook: Vec<Vec<u8>> = Vec::new();
    unhook.push(arg("-t"));
    unhook.push(arg("nat"));
    unhook.push(arg("-D"));
    unhook.push(arg("PREROUTING"));
    unhook.push(arg("-j"));
    unhook.push(arg("XR_PROXY"));
    proof {
        assert(views_of(unhook@) =~= spec_ipt_cleanup()[0]);
    }
    r.push(unhook);
    let mut flush: Vec<Vec<u8>> = Vec::new();
    flush.push(arg("-t"));
    flush.push(arg("nat"));
    flush.push(arg("-F"));
    flush.push(arg("XR_PROXY"));
    proof {
        assert(views_of(flush@) =~= spec_ipt_cleanup()[1]);
    }
    r.push(flush);
    let mut del: Vec<Vec<u8>> = Vec::new();
    del.push(arg("-t"));
    del.push(arg("nat"));
    del.push(arg("-X"));
    del.push(arg("XR_PROXY"));
    proof {
        assert(views_of(del@) =~= spec_ipt_cleanup()[2]);
    }
    r.push(del);
    proof {
        assert(views2_of(r@) =~= spec_ipt_cleanup());
    }
    r
}

} // verus!
