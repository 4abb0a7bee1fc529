//! The constitutive models as a closed set of kinds: what each one takes,
//! what it defines, and in which stress measure it is written down.

use vstd::prelude::*;
use crate::error::Error;

verus! {

/// A material law.
#[derive(Clone, Copy, Debug, PartialEq, Eq, Structural)]
pub enum ModelKind {
    AlmansiHamel,
    ArrudaBoyce,
    Fung,
    Gent,
    MooneyRivlin,
    NeoHookean,
    SaintVenantKirchhoff,
}

/// A material parameter.
#[derive(Clone, Copy, Debug, PartialEq, Eq, Structural)]
pub enum Parameter {
    BulkModulus,
    ShearModulus,
    NumberOfLinks,
    ExtraModulus,
    Exponent,
    Extensibility,
}

/// One of the three conjugate stress measures.
#[derive(Clone, Copy, Debug, PartialEq, Eq, Structural)]
pub enum Measure {
    Cauchy,
    FirstPiolaKirchhoff,
    SecondPiolaKirchhoff,
}

impl Parameter {
    /// The attribute under which a parameter is looked up, as characters.
    pub open spec fn name_text(self) -> Seq<char> {
        match self {
            Parameter::BulkModulus => "bulk_modulus"@,
            Parameter::ShearModulus => "shear_modulus"@,
            Parameter::NumberOfLinks => "number_of_links"@,
            Parameter::ExtraModulus => "extra_modulus"@,
            Parameter::Exponent => "exponent"@,
            Parameter::Extensibility => "extensibility"@,
        }
    }

    /// The attribute under which a parameter is looked up.
    pub fn name(&self) -> (text: &'static str)
        ensures
            text@ == self.name_text(),
    {
        match self {
            Parameter::BulkModulus => "bulk_modulus",
            Parameter::ShearModulus => "shear_modulus",
            Parameter::NumberOfLinks => "number_of_links",
            Parameter::ExtraModulus => "extra_modulus",
            Parameter::Exponent => "exponent",
            Parameter::Extensibility => "extensibility",
        }
    }
}

impl ModelKind {
    /// The parameters of a model, in the order in which it takes them.
    pub open spec fn parameter_list(self) -> Seq<Parameter> {
        match self {
            ModelKind::AlmansiHamel => seq![Parameter::BulkModulus, Parameter::ShearModulus],
            ModelKind::ArrudaBoyce => seq![
                Parameter::BulkModulus,
                Parameter::ShearModulus,
                Parameter::NumberOfLinks,
            ],
            ModelKind::Fung => seq![
                Parameter::BulkModulus,
                Parameter::ShearModulus,
                Parameter::ExtraModulus,
                Parameter::Exponent,
            ],
            ModelKind::Gent => seq![
                Parameter::BulkModulus,
                Parameter::ShearModulus,
                Parameter::Extensibility,
            ],
            ModelKind::MooneyRivlin => seq![
                Parameter::BulkModulus,
                Parameter::ShearModulus,
                Parameter::ExtraModulus,
            ],
            ModelKind::NeoHookean => seq![Parameter::BulkModulus, Parameter::ShearModulus],
            ModelKind::SaintVenantKirchhoff => seq![
                Parameter::BulkModulus,
                Parameter::ShearModulus,
            ],
        }
    }

    /// Whether a model derives its stress from a strain-energy density.
    pub open spec fn is_hyperelastic(self) -> bool {
        self != ModelKind::AlmansiHamel
    }

    /// The measure in which a model's stress and tangent are written down.
    pub open spec fn native(self) -> Measure {
        if self == ModelKind::SaintVenantKirchhoff {
            Measure::SecondPiolaKirchhoff
        } else {
            Measure::Cauchy
        }
    }

    /// All kinds, elastic first.
    pub fn all() -> (kinds: Vec<ModelKind>)
        ensures
            kinds@ == seq![
                ModelKind::AlmansiHamel,
                ModelKind::ArrudaBoyce,
                ModelKind::Fung,
                ModelKind::Gent,
                ModelKind::MooneyRivlin,
                ModelKind::NeoHookean,
                ModelKind::SaintVenantKirchhoff,
            ],
    {
        let mut kinds: Vec<ModelKind> = Vec::new();
        kinds.push(ModelKind::AlmansiHamel);
        kinds.push(ModelKind::ArrudaBoyce);
        kinds.push(ModelKind::Fung);
        kinds.push(ModelKind::Gent);
        kinds.push(ModelKind::MooneyRivlin);
        kinds.push(ModelKind::NeoHookean);
        kinds.push(ModelKind::SaintVenantKirchhoff);
        assert(kinds@ =~= seq![
            ModelKind::AlmansiHamel,
            ModelKind::ArrudaBoyce,
            ModelKind::Fung,
            ModelKind::Gent,
            ModelKind::MooneyRivlin,
            ModelKind::NeoHookean,
            ModelKind::SaintVenantKirchhoff,
        ]);
        kinds
    }

    /// The parameters of a model, in the order in which it takes them.
    pub fn parameters(&self) -> (list: Vec<Parameter>)
        ensures
            list@ == self.parameter_list(),
    {
        let mut list: Vec<Parameter> = Vec::new();
        list.push(Parameter::BulkModulus);
        list.push(Parameter::ShearModulus);
        match self {
            ModelKind::ArrudaBoyce => {
                list.push(Parameter::NumberOfLinks);
            },
            ModelKind::Fung => {
                list.push(Parameter::ExtraModulus);
                list.push(Parameter::Exponent);
            },
            ModelKind::Gent => {
                list.push(Parameter::Extensibility);
            },
            ModelKind::MooneyRivlin => {
                list.push(Parameter::ExtraModulus);
            },
            _ => {},
        }
        assert(list@ =~= self.parameter_list());
        list
    }

    /// Whether a model derives its stress from a strain-energy density.
    pub fn defines_energy_density(&self) -> (defined: bool)
        ensures
            defined == self.is_hyperelastic(),
    {
        match self {
            ModelKind::AlmansiHamel => false,
            _ => true,
        }
    }

    /// Admits a request for the energy density: refused for a model that has
    /// none, before any formula is evaluated.
    pub fn require_energy_density(&self) -> (outcome: Result<(), Error>)
        ensures
            outcome is Ok <==> self.is_hyperelastic(),
            outcome is Err ==> outcome == Err::<(), Error>(Error::UnsupportedCapability),
    {
        if self.defines_energy_density() {
            Ok(())
        } else {
            Err(Error::UnsupportedCapability)
        }
    }

    /// Whether evaluating the model needs the inverse Langevin function.
    pub fn uses_inverse_langevin(&self) -> (used: bool)
        ensures
            used == (*self == ModelKind::ArrudaBoyce),
    {
        match self {
            ModelKind::ArrudaBoyce => true,
            _ => false,
        }
    }

    /// The measure in which a model's stress and tangent are written down.
    pub fn native_measure(&self) -> (measure: Measure)
        ensures
            measure == self.native(),
    {
        match self {
            ModelKind::SaintVenantKirchhoff => Measure::SecondPiolaKirchhoff,
            _ => Measure::Cauchy,
        }
    }
}

} // verus!
