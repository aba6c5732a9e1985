use vstd::prelude::*;
use vstd::string::StringExecFns;
use crate::text::{decimal, decimal_text, dotted, http_url, ipv4_text};

verus! {

pub open spec fn views(v: Seq<String>) -> Seq<Seq<char>> {
    v.map_values(|s: String| s@)
}

/// Appends a copy of `s` to `v`.
pub fn push_str(v: &mut Vec<String>, s: &str)
    ensures
        views(final(v)@) == views(old(v)@).push(s@),
{
    v.push(String::from_str(s));
    proof {
        assert(views(final(v)@) =~= views(old(v)@).push(s@));
    }
}

/// The arguments of `ping` towards `a`: five echo requests.
pub fn ping_args(a: u32) -> (r: Vec<String>)
    ensures
        views(r@) == seq!["-c"@, "5"@, dotted(a)],
{
    let mut v: Vec<String> = Vec::new();
    push_str(&mut v, "-c");
    push_str(&mut v, "5");
    push_str(&mut v, ipv4_text(a).as_str());
    proof {
        assert(views(v@) =~= seq!["-c"@, "5"@, dotted(a)]);
    }
    v
}

/// The arguments of `curl` fetching the node's `/sdp` page, verbosely and
/// within ten seconds.
pub fn curl_args(a: u32, port: u16) -> (r: Vec<String>)
    ensures
        views(r@) == seq![
            "-v"@,
            "--max-time"@,
            "10"@,
            "http://"@ + dotted(a) + ":"@ + decimal(port as nat) + "/sdp"@,
        ],
{
    let mut v: Vec<String> = Vec::new();
    push_str(&mut v, "-v");
    push_str(&mut v, "--max-time");
    push_str(&mut v, "10");
    let mut url = http_url(a, port);
    url.append("/sdp");
    push_str(&mut v, url.as_str());
    proof {
        assert(views(v@) =~= seq![
            "-v"@,
            "--max-time"@,
            "10"@,
            "http://"@ + dotted(a) + ":"@ + decimal(port as nat) + "/sdp"@,
        ]);
    }
    v
}

/// The arguments that start a node with secret key `key`, bound to every
/// interface at `port`.
pub fn spawn_node_args(key: &str, port: u16) -> (r: Vec<String>)
    ensures
        views(r@) == seq![
            "run"@,
            "--manifest-path"@,
            "bns-node/Cargo.toml"@,
            "--"@,
            "run"@,
            "-k"@,
            key@,
            "-b"@,
            "0.0.0.0:"@ + decimal(port as nat),
        ],
{
    let mut v: Vec<String> = Vec::new();
    push_str(&mut v, "run");
    push_str(&mut v, "--manifest-path");
    push_str(&mut v, "bns-node/Cargo.toml");
    push_str(&mut v, "--");
    push_str(&mut v, "run");
    push_str(&mut v, "-k");
    push_str(&mut v, key);
    push_str(&mut v, "-b");
    let mut bind = String::from_str("0.0.0.0:");
    bind.append(decimal_text(port as u64).as_str());
    push_str(&mut v, bind.as_str());
    proof {
        assert(views(v@) =~= seq![
            "run"@,
            "--manifest-path"@,
            "bns-node/Cargo.toml"@,
            "--"@,
            "run"@,
            "-k"@,
            key@,
            "-b"@,
            "0.0.0.0:"@ + decimal(port as nat),
        ]);
    }
    v
}

} // verus!
