//! The generator: fabricates `count` features, each with a freshly
//! generated unique name and `strategies_per_feature` gradual-rollout
//! strategies, and the mapping from each feature's name to its strategies.

use vstd::prelude::*;
use crate::idgen::NameSource;
use crate::model::{Feature, FeatureType, Strategy, StrategyView};
use crate::random::{fresh_rng, random_flag, random_in_range};
use crate::text::{chars_to_string, dec_nat, push_dec_u32, push_str_chars};

verus! {

/// The title of the strategy at 0-based index `i` under the feature named
/// `owner`: `strategy_<owner>_<i>`.
pub open spec fn strategy_title(owner: Seq<char>, i: nat) -> Seq<char> {
    "strategy_"@ + owner + "_"@ + dec_nat(i)
}

/// The parameter mapping of a generated strategy: the rollout percentage as
/// a decimal string, the fixed stickiness, and the owning feature's name as
/// the group identifier.
pub open spec fn generated_params(owner: Seq<char>, rollout: u32) -> Seq<(Seq<char>, Seq<char>)> {
    seq![
        ("rollout"@, dec_nat(rollout as nat)),
        ("stickiness"@, "default"@),
        ("groupId"@, owner),
    ]
}

/// What holds of every generated strategy at index `i` under `owner`: the
/// fixed gradual-rollout type name, the derived title, not disabled, a sort
/// order in 1 through 99999, no constraints or segments, and a parameter
/// mapping with a rollout percentage in 1 through 99.
pub open spec fn is_generated_strategy(s: StrategyView, owner: Seq<char>, i: nat) -> bool {
    &&& s.name == "gradualRollout"@
    &&& s.title == strategy_title(owner, i)
    &&& !s.disabled
    &&& 1 <= s.sort_order <= 99999
    &&& s.constraints.len() == 0
    &&& s.segments.len() == 0
    &&& exists|r: u32| 1 <= r <= 99 && s.parameters == generated_params(owner, r)
}

/// The generated collection: the features in generation order, and the
/// mapping from each feature's name to its strategies, in the same order.
pub struct Dataset {
    pub features: Vec<Feature>,
    pub feature_strategies: Vec<(String, Vec<Strategy>)>,
}

/// Builds the strategies of one feature.
fn generate_strategies(
    rng: &mut rand::rngs::ThreadRng,
    owner: &str,
    strategies_per_feature: u32,
) -> (r: Vec<Strategy>)
    ensures
        r@.len() == strategies_per_feature as int,
        forall|j: int|
            0 <= j < strategies_per_feature as int ==> is_generated_strategy(
                #[trigger] r@[j]@,
                owner@,
                j as nat,
            ),
{
    let mut strategies: Vec<Strategy> = Vec::new();
    let mut j: u32 = 0;
    while j < strategies_per_feature
        invariant
            j <= strategies_per_feature,
            strategies@.len() == j as int,
            forall|k: int|
                0 <= k < j as int ==> is_generated_strategy(
                    #[trigger] strategies@[k]@,
                    owner@,
                    k as nat,
                ),
        decreases strategies_per_feature - j,
    {
        let rollout = random_in_range(rng, 1, 100);
        let sort_order = random_in_range(rng, 1, 100000);
        let mut tv: Vec<char> = Vec::new();
        push_str_chars(&mut tv, "strategy_");
        push_str_chars(&mut tv, owner);
        push_str_chars(&mut tv, "_");
        push_dec_u32(&mut tv, j);
        let title = chars_to_string(&tv);
        let mut rv: Vec<char> = Vec::new();
        push_dec_u32(&mut rv, rollout);
        let rollout_text = chars_to_string(&rv);
        let mut parameters: Vec<(String, String)> = Vec::new();
        parameters.push(("rollout".to_owned(), rollout_text));
        parameters.push(("stickiness".to_owned(), "default".to_owned()));
        parameters.push(("groupId".to_owned(), owner.to_owned()));
        let s = Strategy {
            name: "gradualRollout".to_owned(),
            title,
            disabled: false,
            sort_order,
            constraints: Vec::new(),
            parameters,
            segments: Vec::new(),
        };
        proof {
            assert(s@.parameters =~= generated_params(owner@, rollout));
            assert(s@.title =~= strategy_title(owner@, j as nat));
            assert(is_generated_strategy(s@, owner@, j as nat));
        }
        strategies.push(s);
        j = j + 1;
    }
    strategies
}

/// What holds of every generated feature: no description and a fresh
/// 26-character name; its type and impression-data flag are random.
pub open spec fn is_generated_feature(f: crate::model::FeatureView) -> bool {
    &&& f.description is None
    &&& f.name.len() == 26
}

/// Produces exactly `count` features and exactly `count` mapping entries,
/// drawing from one pseudo-random source for the whole run,
/// each with exactly `strategies_per_feature` strategies; feature names are
/// pairwise distinct and each entry is keyed by its feature's name. Returns
/// `None` only if the name source refuses a fresh name (its random bits
/// would overflow), which consumes no resources beyond the names already
/// drawn.
pub fn generate(count: u32, strategies_per_feature: u32, names: &mut NameSource) -> (r: Option<
    Dataset,
>)
    ensures
        r is None ==> count > 0,
        r matches Some(d) ==> {
            &&& d.features@.len() == count as int
            &&& d.feature_strategies@.len() == count as int
            &&& forall|i: int|
                0 <= i < count as int ==> is_generated_feature(#[trigger] d.features@[i]@)
            &&& forall|i: int|
                0 <= i < count as int ==> (#[trigger] d.feature_strategies@[i]).0@
                    == d.features@[i]@.name
            &&& forall|i: int, k: int|
                0 <= i < count as int && 0 <= k < count as int && i != k ==> d.features@[i]@.name
                    != d.features@[k]@.name
            &&& forall|i: int|
                0 <= i < count as int ==> (#[trigger] d.feature_strategies@[i]).1@.len()
                    == strategies_per_feature as int
            &&& forall|i: int, j: int|
                0 <= i < count as int && 0 <= j < strategies_per_feature as int
                    ==> is_generated_strategy(
                    #[trigger] d.feature_strategies@[i].1@[j]@,
                    d.features@[i]@.name,
                    j as nat,
                )
        },
{
    let mut rng = fresh_rng();
    let mut features: Vec<Feature> = Vec::new();
    let mut entries: Vec<(String, Vec<Strategy>)> = Vec::new();
    let mut i: u32 = 0;
    while i < count
        invariant
            i <= count,
            features@.len() == i as int,
            entries@.len() == i as int,
            forall|k: int| 0 <= k < i as int ==> is_generated_feature(#[trigger] features@[k]@),
            forall|k: int|
                0 <= k < i as int ==> names.issued().contains(#[trigger] features@[k]@.name),
            forall|k: int, l: int|
                0 <= k < i as int && 0 <= l < i as int && k != l ==> features@[k]@.name
                    != features@[l]@.name,
            forall|k: int|
                0 <= k < i as int ==> (#[trigger] entries@[k]).0@ == features@[k]@.name,
            forall|k: int|
                0 <= k < i as int ==> (#[trigger] entries@[k]).1@.len()
                    == strategies_per_feature as int,
            forall|k: int, j: int|
                0 <= k < i as int && 0 <= j < strategies_per_feature as int
                    ==> is_generated_strategy(
                    #[trigger] entries@[k].1@[j]@,
                    features@[k]@.name,
                    j as nat,
                ),
        decreases count - i,
    {
        let name = match names.next_name() {
            Some(n) => n,
            None => {
                return None;
            },
        };
        let idx = random_in_range(&mut rng, 0, 4);
        let feature_type = FeatureType::from_index(idx);
        let impression_data = random_flag(&mut rng);
        let feature = Feature {
            name: name.clone(),
            description: None,
            feature_type,
            impression_data,
        };
        let strategies = generate_strategies(&mut rng, name.as_str(), strategies_per_feature);
        features.push(feature);
        entries.push((name, strategies));
        i = i + 1;
    }
    Some(Dataset { features, feature_strategies: entries })
}

} // verus!
