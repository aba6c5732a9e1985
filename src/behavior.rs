use vstd::prelude::*;

verus! {

/// How far a NAT's mapping or filtering depends on the remote endpoint.
#[derive(Clone, Copy, Debug, PartialEq, Eq, Structural)]
pub enum Dependence {
    EndpointIndependent,
    AddressDependent,
    AddressAndPortDependent,
}

/// The behaviour that a NAT route is declared with.
#[derive(Clone, Copy, Debug, PartialEq, Eq, Structural)]
pub struct NatBehavior {
    pub mapping: Dependence,
    pub filtering: Dependence,
}

/// The four named NAT classes.
#[derive(Clone, Copy, Debug, PartialEq, Eq, Structural)]
pub enum NatClass {
    FullCone,
    RestrictedCone,
    PortRestrictedCone,
    Symmetric,
}

/// The behaviour that each named class stands for.
pub open spec fn class_behavior(c: NatClass) -> NatBehavior {
    match c {
        NatClass::FullCone => NatBehavior {
            mapping: Dependence::EndpointIndependent,
            filtering: Dependence::EndpointIndependent,
        },
        NatClass::RestrictedCone => NatBehavior {
            mapping: Dependence::EndpointIndependent,
            filtering: Dependence::AddressDependent,
        },
        NatClass::PortRestrictedCone => NatBehavior {
            mapping: Dependence::EndpointIndependent,
            filtering: Dependence::AddressAndPortDependent,
        },
        NatClass::Symmetric => NatBehavior {
            mapping: Dependence::AddressAndPortDependent,
            filtering: Dependence::AddressAndPortDependent,
        },
    }
}

/// The class a behaviour belongs to, if it is one of the four named ones.
pub open spec fn spec_classify(b: NatBehavior) -> Option<NatClass> {
    if b == class_behavior(NatClass::FullCone) {
        Some(NatClass::FullCone)
    } else if b == class_behavior(NatClass::RestrictedCone) {
        Some(NatClass::RestrictedCone)
    } else if b == class_behavior(NatClass::PortRestrictedCone) {
        Some(NatClass::PortRestrictedCone)
    } else if b == class_behavior(NatClass::Symmetric) {
        Some(NatClass::Symmetric)
    } else {
        None
    }
}

impl NatClass {
    /// The mapping and filtering behaviour of this class.
    pub fn behavior(&self) -> (r: NatBehavior)
        ensures
            r == class_behavior(*self),
    {
        match self {
            NatClass::FullCone => NatBehavior {
                mapping: Dependence::EndpointIndependent,
                filtering: Dependence::EndpointIndependent,
            },
            NatClass::RestrictedCone => NatBehavior {
                mapping: Dependence::EndpointIndependent,
                filtering: Dependence::AddressDependent,
            },
            NatClass::PortRestrictedCone => NatBehavior {
                mapping: Dependence::EndpointIndependent,
                filtering: Dependence::AddressAndPortDependent,
            },
            NatClass::Symmetric => NatBehavior {
                mapping: Dependence::AddressAndPortDependent,
                filtering: Dependence::AddressAndPortDependent,
            },
        }
    }
}

impl NatBehavior {
    /// Both mapping and filtering independent of the remote endpoint.
    pub fn full_cone() -> (r: NatBehavior)
        ensures
            r == class_behavior(NatClass::FullCone),
    {
        NatClass::FullCone.behavior()
    }

    /// Both mapping and filtering dependent on remote address and port.
    pub fn symmetric() -> (r: NatBehavior)
        ensures
            r == class_behavior(NatClass::Symmetric),
    {
        NatClass::Symmetric.behavior()
    }

    /// The named class of this behaviour; `None` for the combinations that
    /// have no name.
    pub fn classify(&self) -> (r: Option<NatClass>)
        ensures
            r == spec_classify(*self),
    {
        match (self.mapping, self.filtering) {
            (Dependence::EndpointIndependent, Dependence::EndpointIndependent) => Some(
                NatClass::FullCone,
            ),
            (Dependence::EndpointIndependent, Dependence::AddressDependent) => Some(
                NatClass::RestrictedCone,
            ),
            (Dependence::EndpointIndependent, Dependence::AddressAndPortDependent) => Some(
                NatClass::PortRestrictedCone,
            ),
            (Dependence::AddressAndPortDependent, Dependence::AddressAndPortDependent) => Some(
                NatClass::Symmetric,
            ),
            _ => None,
        }
    }

    /// Whether this behaviour is the full cone one.
    pub fn is_full_cone(&self) -> (r: bool)
        ensures
            r == (spec_classify(*self) == Some(NatClass::FullCone)),
    {
        self.mapping == Dependence::EndpointIndependent && self.filtering
            == Dependence::EndpointIndependent
    }

    /// Whether this behaviour is the symmetric one.
    pub fn is_symmetric(&self) -> (r: bool)
        ensures
            r == (spec_classify(*self) == Some(NatClass::Symmetric)),
    {
        self.mapping == Dependence::AddressAndPortDependent && self.filtering
            == Dependence::AddressAndPortDependent
    }
}

/// Endpoint-independent mapping and filtering is reported as full cone, and
/// address-and-port-dependent mapping and filtering as symmetric.
pub proof fn lemma_named_extremes()
    ensures
        spec_classify(
            NatBehavior {
                mapping: Dependence::EndpointIndependent,
                filtering: Dependence::EndpointIndependent,
            },
        ) == Some(NatClass::FullCone),
        spec_classify(
            NatBehavior {
                mapping: Dependence::AddressAndPortDependent,
                filtering: Dependence::AddressAndPortDependent,
            },
        ) == Some(NatClass::Symmetric),
{
}

/// The four named classes and their four behaviours correspond one to one:
/// each class is reported for its own behaviour, and a behaviour that is
/// reported as a class is that class's behaviour.
pub proof fn lemma_classes_one_to_one(c: NatClass, b: NatBehavior)
    ensures
        spec_classify(class_behavior(c)) == Some(c),
        spec_classify(b) == Some(c) <==> b == class_behavior(c),
{
}

} // verus!
