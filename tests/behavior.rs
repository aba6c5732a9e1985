use ring_sim::behavior::{Dependence, NatBehavior, NatClass};
use ring_sim::provision::{classify_report, parse_behavior_report, report_result_line, ReportKind};

#[test]
fn full_cone_and_symmetric_are_named() {
    let fc = NatBehavior {
        mapping: Dependence::EndpointIndependent,
        filtering: Dependence::EndpointIndependent,
    };
    assert_eq!(fc.classify(), Some(NatClass::FullCone));
    assert!(fc.is_full_cone());
    let sym = NatBehavior {
        mapping: Dependence::AddressAndPortDependent,
        filtering: Dependence::AddressAndPortDependent,
    };
    assert_eq!(sym.classify(), Some(NatClass::Symmetric));
    assert!(sym.is_symmetric());
    assert!(!sym.is_full_cone());
}

#[test]
fn four_classes_round_trip() {
    for c in [
        NatClass::FullCone,
        NatClass::RestrictedCone,
        NatClass::PortRestrictedCone,
        NatClass::Symmetric,
    ] {
        assert_eq!(c.behavior().classify(), Some(c));
    }
    assert_eq!(
        NatClass::RestrictedCone.behavior(),
        NatBehavior {
            mapping: Dependence::EndpointIndependent,
            filtering: Dependence::AddressDependent,
        }
    );
}

#[test]
fn unnamed_combinations() {
    let b = NatBehavior {
        mapping: Dependence::AddressAndPortDependent,
        filtering: Dependence::EndpointIndependent,
    };
    assert_eq!(b.classify(), None);
    let b = NatBehavior {
        mapping: Dependence::AddressDependent,
        filtering: Dependence::AddressDependent,
    };
    assert_eq!(b.classify(), None);
}

#[test]
fn discovery_report_lines() {
    assert_eq!(
        parse_behavior_report("NAT with Endpoint Independent Mapping!"),
        Some((ReportKind::Mapping, Dependence::EndpointIndependent))
    );
    assert_eq!(
        parse_behavior_report("NAT with Address and Port Dependent Mapping!"),
        Some((ReportKind::Mapping, Dependence::AddressAndPortDependent))
    );
    assert_eq!(
        parse_behavior_report("NAT with Address Dependent Mapping!"),
        Some((ReportKind::Mapping, Dependence::AddressDependent))
    );
    assert_eq!(
        parse_behavior_report("NAT with Address and Port Dependent Filtering!"),
        Some((ReportKind::Filtering, Dependence::AddressAndPortDependent))
    );
    assert_eq!(
        parse_behavior_report("NAT with Endpoint Independent Filtering!"),
        Some((ReportKind::Filtering, Dependence::EndpointIndependent))
    );
    assert_eq!(
        parse_behavior_report("NAT with Address Dependent Filtering!"),
        Some((ReportKind::Filtering, Dependence::AddressDependent))
    );
    assert_eq!(parse_behavior_report("NAT with Endpoint Independent Mapping"), None);
    assert_eq!(parse_behavior_report(""), None);
}

#[test]
fn discovery_output_result_line() {
    let out = "starting\nNAT with Endpoint Independent Mapping!\n========\n";
    assert_eq!(
        classify_report(out),
        Some((ReportKind::Mapping, Dependence::EndpointIndependent))
    );
    let out = "x\ny\nNAT with Address and Port Dependent Filtering!\nend\n";
    assert_eq!(
        classify_report(out),
        Some((ReportKind::Filtering, Dependence::AddressAndPortDependent))
    );
    assert_eq!(report_result_line("a\nb\nc"), Some("a".to_string()));
    assert_eq!(report_result_line("w\nx\ny\nz"), Some("x".to_string()));
    assert_eq!(report_result_line("a\nb"), None);
    assert_eq!(report_result_line(""), None);
    assert_eq!(classify_report("no result\nhere\n"), None);
}
