//! The data model: feature-flag definitions, rollout strategies and their
//! constraints, together with the ghost views that the contracts of the
//! generator, the JSON codec and the upload planner speak of.

use vstd::prelude::*;

verus! {

/// The closed enumeration of feature-flag kinds.
#[derive(Clone, Copy, Debug, PartialEq, Eq, Structural)]
pub enum FeatureType {
    Release,
    Operational,
    Experiment,
    Permission,
}

/// The wire spelling of a feature type (lower-camel-case identifiers).
pub open spec fn feature_type_label(t: FeatureType) -> Seq<char> {
    match t {
        FeatureType::Release => "release"@,
        FeatureType::Operational => "operational"@,
        FeatureType::Experiment => "experiment"@,
        FeatureType::Permission => "permission"@,
    }
}

/// The feature type selected by a uniform index below four; the table is the
/// explicit contract for random sampling.
pub open spec fn feature_type_of_index(i: int) -> FeatureType {
    if i == 0 {
        FeatureType::Release
    } else if i == 1 {
        FeatureType::Operational
    } else if i == 2 {
        FeatureType::Experiment
    } else {
        FeatureType::Permission
    }
}

impl FeatureType {
    /// The wire spelling of this feature type.
    pub fn label(&self) -> (r: &'static str)
        ensures
            r@ == feature_type_label(*self),
    {
        match self {
            FeatureType::Release => "release",
            FeatureType::Operational => "operational",
            FeatureType::Experiment => "experiment",
            FeatureType::Permission => "permission",
        }
    }

    /// The uniform-index-to-variant table used when drawing a feature type
    /// at random.
    pub fn from_index(i: u32) -> (r: FeatureType)
        requires
            i < 4,
        ensures
            r == feature_type_of_index(i as int),
    {
        match i {
            0 => FeatureType::Release,
            1 => FeatureType::Operational,
            2 => FeatureType::Experiment,
            _ => FeatureType::Permission,
        }
    }
}

/// Comparison operators used by strategy constraints. `Unknown` carries the
/// raw wire spelling of an operator this crate does not know, so that such a
/// value survives a round trip unchanged.
#[derive(Clone, Debug, PartialEq, Eq, PartialOrd, Ord)]
pub enum Operator {
    NotIn,
    In,
    StrEndsWith,
    StrStartsWith,
    StrContains,
    NumEq,
    NumGt,
    NumGte,
    NumLt,
    NumLte,
    DateAfter,
    DateBefore,
    SemverEq,
    SemverLt,
    SemverGt,
    Unknown(String),
}

/// Abstract value of an [`Operator`]: its wire spelling, and whether it is
/// the open `Unknown` variant.
pub ghost struct OperatorView {
    pub label: Seq<char>,
    pub unknown: bool,
}

/// The wire spelling of an operator (upper-snake-case identifiers); an
/// `Unknown` operator is spelled as its payload.
pub open spec fn operator_label(op: Operator) -> Seq<char> {
    match op {
        Operator::NotIn => "NOT_IN"@,
        Operator::In => "IN"@,
        Operator::StrEndsWith => "STR_ENDS_WITH"@,
        Operator::StrStartsWith => "STR_STARTS_WITH"@,
        Operator::StrContains => "STR_CONTAINS"@,
        Operator::NumEq => "NUM_EQ"@,
        Operator::NumGt => "NUM_GT"@,
        Operator::NumGte => "NUM_GTE"@,
        Operator::NumLt => "NUM_LT"@,
        Operator::NumLte => "NUM_LTE"@,
        Operator::DateAfter => "DATE_AFTER"@,
        Operator::DateBefore => "DATE_BEFORE"@,
        Operator::SemverEq => "SEMVER_EQ"@,
        Operator::SemverLt => "SEMVER_LT"@,
        Operator::SemverGt => "SEMVER_GT"@,
        Operator::Unknown(s) => s@,
    }
}

impl View for Operator {
    type V = OperatorView;

    open spec fn view(&self) -> OperatorView {
        OperatorView { label: operator_label(*self), unknown: self is Unknown }
    }
}

/// The operator selected by a uniform index below fifteen; the table is the
/// explicit contract for random sampling (`Unknown` is never drawn).
pub open spec fn operator_of_index(i: int) -> Operator {
    if i == 0 {
        Operator::NotIn
    } else if i == 1 {
        Operator::In
    } else if i == 2 {
        Operator::StrEndsWith
    } else if i == 3 {
        Operator::StrStartsWith
    } else if i == 4 {
        Operator::StrContains
    } else if i == 5 {
        Operator::NumEq
    } else if i == 6 {
        Operator::NumGt
    } else if i == 7 {
        Operator::NumGte
    } else if i == 8 {
        Operator::NumLt
    } else if i == 9 {
        Operator::NumLte
    } else if i == 10 {
        Operator::DateAfter
    } else if i == 11 {
        Operator::DateBefore
    } else if i == 12 {
        Operator::SemverEq
    } else if i == 13 {
        Operator::SemverLt
    } else {
        Operator::SemverGt
    }
}

impl Operator {
    /// The wire spelling of this operator.
    pub fn wire_name(&self) -> (r: &str)
        ensures
            r@ == operator_label(*self),
    {
        match self {
            Operator::NotIn => "NOT_IN",
            Operator::In => "IN",
            Operator::StrEndsWith => "STR_ENDS_WITH",
            Operator::StrStartsWith => "STR_STARTS_WITH",
            Operator::StrContains => "STR_CONTAINS",
            Operator::NumEq => "NUM_EQ",
            Operator::NumGt => "NUM_GT",
            Operator::NumGte => "NUM_GTE",
            Operator::NumLt => "NUM_LT",
            Operator::NumLte => "NUM_LTE",
            Operator::DateAfter => "DATE_AFTER",
            Operator::DateBefore => "DATE_BEFORE",
            Operator::SemverEq => "SEMVER_EQ",
            Operator::SemverLt => "SEMVER_LT",
            Operator::SemverGt => "SEMVER_GT",
            Operator::Unknown(s) => s.as_str(),
        }
    }

    /// The uniform-index-to-variant table used when drawing an operator at
    /// random.
    pub fn from_index(i: u32) -> (r: Operator)
        requires
            i < 15,
        ensures
            r == operator_of_index(i as int),
    {
        match i {
            0 => Operator::NotIn,
            1 => Operator::In,
            2 => Operator::StrEndsWith,
            3 => Operator::StrStartsWith,
            4 => Operator::StrContains,
            5 => Operator::NumEq,
            6 => Operator::NumGt,
            7 => Operator::NumGte,
            8 => Operator::NumLt,
            9 => Operator::NumLte,
            10 => Operator::DateAfter,
            11 => Operator::DateBefore,
            12 => Operator::SemverEq,
            13 => Operator::SemverLt,
            _ => Operator::SemverGt,
        }
    }
}

/// A condition narrowing when a strategy applies. The generator never
/// populates constraints, but the type round-trips through the wire form,
/// where `values` and `value` are always present.
#[derive(Clone, Debug, PartialEq)]
pub struct Constraint {
    pub context_name: String,
    pub operator: Operator,
    pub case_insensitive: bool,
    pub inverted: bool,
    pub values: Vec<String>,
    pub value: String,
}

/// Abstract value of a [`Constraint`].
pub ghost struct ConstraintView {
    pub context_name: Seq<char>,
    pub operator: OperatorView,
    pub case_insensitive: bool,
    pub inverted: bool,
    pub values: Seq<Seq<char>>,
    pub value: Seq<char>,
}

impl View for Constraint {
    type V = ConstraintView;

    open spec fn view(&self) -> ConstraintView {
        ConstraintView {
            context_name: self.context_name@,
            operator: self.operator@,
            case_insensitive: self.case_insensitive,
            inverted: self.inverted,
            values: self.values.deep_view(),
            value: self.value@,
        }
    }
}

/// A named rollout rule attached to a feature within an environment.
#[derive(Clone, Debug, PartialEq)]
pub struct Strategy {
    pub name: String,
    pub title: String,
    pub disabled: bool,
    pub sort_order: u32,
    pub constraints: Vec<Constraint>,
    pub parameters: Vec<(String, String)>,
    pub segments: Vec<u32>,
}

/// Abstract value of a [`Strategy`].
pub ghost struct StrategyView {
    pub name: Seq<char>,
    pub title: Seq<char>,
    pub disabled: bool,
    pub sort_order: u32,
    pub constraints: Seq<ConstraintView>,
    pub parameters: Seq<(Seq<char>, Seq<char>)>,
    pub segments: Seq<u32>,
}

impl View for Strategy {
    type V = StrategyView;

    open spec fn view(&self) -> StrategyView {
        StrategyView {
            name: self.name@,
            title: self.title@,
            disabled: self.disabled,
            sort_order: self.sort_order,
            constraints: Seq::new(self.constraints@.len(), |i: int| self.constraints@[i]@),
            parameters: Seq::new(
                self.parameters@.len(),
                |i: int| (self.parameters@[i].0@, self.parameters@[i].1@),
            ),
            segments: self.segments@,
        }
    }
}

/// A feature-flag definition.
#[derive(Clone, Debug, PartialEq)]
pub struct Feature {
    pub name: String,
    pub description: Option<String>,
    pub feature_type: FeatureType,
    pub impression_data: bool,
}

/// Abstract value of a [`Feature`].
pub ghost struct FeatureView {
    pub name: Seq<char>,
    pub description: Option<Seq<char>>,
    pub feature_type: FeatureType,
    pub impression_data: bool,
}

impl View for Feature {
    type V = FeatureView;

    open spec fn view(&self) -> FeatureView {
        FeatureView {
            name: self.name@,
            description: match self.description {
                Option::Some(d) => Option::Some(d@),
                Option::None => Option::None,
            },
            feature_type: self.feature_type,
            impression_data: self.impression_data,
        }
    }
}

} // verus!
