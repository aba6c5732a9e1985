use vstd::prelude::*;
use vstd::string::{StrSliceExecFns, StringExecFns};
use crate::behavior::Dependence;
use crate::probe::{push_str, views};

verus! {

/// A NAT made by the provisioning tool: its LAN and its router.
#[derive(Clone, Debug)]
pub struct Nat {
    pub lan: String,
    pub router: String,
}

/// A node container made by the provisioning tool.
#[derive(Clone, Debug)]
pub struct Node {
    pub name: String,
    pub router: String,
    pub lan: String,
    pub key: String,
    pub lan_ip: String,
    pub pub_port: Option<u16>,
}

/// The arguments of the provisioning tool that make a NAT, symmetric or
/// port-restricted cone.
pub fn create_nat_args(symmetric: bool) -> (r: Vec<String>)
    ensures
        views(r@) == seq!["nind.py"@, "-f"@, "json"@, "create_nat"@] + if symmetric {
            seq!["--symmetric"@]
        } else {
            Seq::<Seq<char>>::empty()
        },
{
    let mut v: Vec<String> = Vec::new();
    push_str(&mut v, "nind.py");
    push_str(&mut v, "-f");
    push_str(&mut v, "json");
    push_str(&mut v, "create_nat");
    if symmetric {
        push_str(&mut v, "--symmetric");
    }
    proof {
        assert(views(v@) =~= seq!["nind.py"@, "-f"@, "json"@, "create_nat"@] + if symmetric {
            seq!["--symmetric"@]
        } else {
            Seq::<Seq<char>>::empty()
        });
    }
    v
}

/// The arguments of the provisioning tool that make a node behind `gw`,
/// with its control port published as `publish` if given.
pub fn create_node_args(gw: &Nat, publish: Option<&str>) -> (r: Vec<String>)
    ensures
        views(r@) == seq![
            "nind.py"@,
            "-f"@,
            "json"@,
            "create_node"@,
            "-l"@,
            gw.lan@,
            "-r"@,
            gw.router@,
        ] + match publish {
            Some(p) => seq!["-p"@, p@],
            None => Seq::<Seq<char>>::empty(),
        },
{
    let mut v: Vec<String> = Vec::new();
    push_str(&mut v, "nind.py");
    push_str(&mut v, "-f");
    push_str(&mut v, "json");
    push_str(&mut v, "create_node");
    push_str(&mut v, "-l");
    push_str(&mut v, gw.lan.as_str());
    push_str(&mut v, "-r");
    push_str(&mut v, gw.router.as_str());
    if let Some(p) = publish {
        push_str(&mut v, "-p");
        push_str(&mut v, p);
    }
    proof {
        assert(views(v@) =~= seq![
            "nind.py"@,
            "-f"@,
            "json"@,
            "create_node"@,
            "-l"@,
            gw.lan@,
            "-r"@,
            gw.router@,
        ] + match publish {
            Some(p) => seq!["-p"@, p@],
            None => Seq::<Seq<char>>::empty(),
        });
    }
    v
}

/// Which half of a NAT's behaviour a discovery report line is about.
#[derive(Clone, Copy, Debug, PartialEq, Eq, Structural)]
pub enum ReportKind {
    Mapping,
    Filtering,
}

/// The line a NAT discovery run prints for a behaviour.
pub open spec fn report_text(k: ReportKind, d: Dependence) -> Seq<char> {
    match (k, d) {
        (ReportKind::Mapping, Dependence::EndpointIndependent) => "NAT with Endpoint Independent Mapping!"@,
        (ReportKind::Mapping, Dependence::AddressDependent) => "NAT with Address Dependent Mapping!"@,
        (ReportKind::Mapping, Dependence::AddressAndPortDependent) => "NAT with Address and Port Dependent Mapping!"@,
        (ReportKind::Filtering, Dependence::EndpointIndependent) => "NAT with Endpoint Independent Filtering!"@,
        (ReportKind::Filtering, Dependence::AddressDependent) => "NAT with Address Dependent Filtering!"@,
        (ReportKind::Filtering, Dependence::AddressAndPortDependent) => "NAT with Address and Port Dependent Filtering!"@,
    }
}

fn is_line(line: &str, text: &str) -> (r: bool)
    ensures
        r == (line@ == text@),
{
    String::from_str(line) == String::from_str(text)
}

/// Reads one line of a NAT discovery report; `None` where the line is none
/// of the six known ones.
pub fn parse_behavior_report(line: &str) -> (r: Option<(ReportKind, Dependence)>)
    ensures
        r matches Some((k, d)) ==> line@ == report_text(k, d),
        r is None ==> forall|k: ReportKind, d: Dependence| line@ != #[trigger] report_text(k, d),
{
    if is_line(line, "NAT with Endpoint Independent Mapping!") {
        Some((ReportKind::Mapping, Dependence::EndpointIndependent))
    } else if is_line(line, "NAT with Address Dependent Mapping!") {
        Some((ReportKind::Mapping, Dependence::AddressDependent))
    } else if is_line(line, "NAT with Address and Port Dependent Mapping!") {
        Some((ReportKind::Mapping, Dependence::AddressAndPortDependent))
    } else if is_line(line, "NAT with Endpoint Independent Filtering!") {
        Some((ReportKind::Filtering, Dependence::EndpointIndependent))
    } else if is_line(line, "NAT with Address Dependent Filtering!") {
        Some((ReportKind::Filtering, Dependence::AddressDependent))
    } else if is_line(line, "NAT with Address and Port Dependent Filtering!") {
        Some((ReportKind::Filtering, Dependence::AddressAndPortDependent))
    } else {
        None
    }
}

/// The position of the last newline in `s` before `end`, or -1.
pub open spec fn last_newline(s: Seq<char>, end: int) -> int
    decreases end,
{
    if end <= 0 {
        -1
    } else if s[end - 1] == '\n' {
        end - 1
    } else {
        last_newline(s, end - 1)
    }
}

proof fn lemma_last_newline_bounds(s: Seq<char>, end: int)
    ensures
        -1 <= last_newline(s, end) < end || (end <= 0 && last_newline(s, end) == -1),
        last_newline(s, end) >= 0 ==> s[last_newline(s, end)] == '\n',
    decreases end,
{
    if end > 0 && s[end - 1] != '\n' {
        lemma_last_newline_bounds(s, end - 1);
    }
}

/// The line of a discovery run's output that states its result: the third
/// piece from the end when the output is split at its newlines (the output
/// ends with a summary line and a newline). `None` with fewer than two
/// newlines.
pub open spec fn result_line(s: Seq<char>) -> Option<Seq<char>> {
    let n1 = last_newline(s, s.len() as int);
    let n2 = last_newline(s, n1);
    if n1 < 0 || n2 < 0 {
        None
    } else {
        Some(s.subrange(last_newline(s, n2) + 1, n2))
    }
}

fn find_last_newline(s: &str, end: usize) -> (r: i64)
    requires
        end <= s@.len(),
        s@.len() < i64::MAX,
    ensures
        r == last_newline(s@, end as int),
{
    let mut i: usize = end;
    while i > 0
        invariant
            i <= end <= s@.len(),
            s@.len() < i64::MAX,
            last_newline(s@, end as int) == last_newline(s@, i as int),
        decreases i,
    {
        let c = s.get_char(i - 1);
        if c == '\n' {
            assert(last_newline(s@, i as int) == i - 1);
            let j: i64 = (i - 1) as i64;
            return j;
        }
        i = i - 1;
    }
    -1
}

/// Picks the result line out of a discovery run's output.
pub fn report_result_line(output: &str) -> (r: Option<String>)
    requires
        output@.len() < i64::MAX,
    ensures
        r matches Some(l) ==> result_line(output@) == Some(l@),
        r is None ==> result_line(output@) is None,
{
    let len = output.unicode_len();
    let n1 = find_last_newline(output, len);
    proof {
        lemma_last_newline_bounds(output@, len as int);
    }
    if n1 < 0 {
        return None;
    }
    let n2 = find_last_newline(output, n1 as usize);
    proof {
        lemma_last_newline_bounds(output@, n1 as int);
    }
    if n2 < 0 {
        return None;
    }
    let n3 = find_last_newline(output, n2 as usize);
    proof {
        lemma_last_newline_bounds(output@, n2 as int);
    }
    let line = output.substring_char((n3 + 1) as usize, n2 as usize);
    Some(String::from_str(line))
}

/// Classifies a discovery run by its result line.
pub fn classify_report(output: &str) -> (r: Option<(ReportKind, Dependence)>)
    requires
        output@.len() < i64::MAX,
    ensures
        r matches Some((k, d)) ==> result_line(output@) == Some(report_text(k, d)),
        r is None ==> forall|k: ReportKind, d: Dependence|
            result_line(output@) != Some(#[trigger] report_text(k, d)),
{
    match report_result_line(output) {
        Some(line) => parse_behavior_report(line.as_str()),
        None => None,
    }
}

} // verus!
