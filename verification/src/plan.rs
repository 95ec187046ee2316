//! The publisher's request plan and run model. For each feature, in
//! generation order: create the feature, create each of its strategies in
//! order, then enable the environment. A run is fail-fast: the outcome of
//! each request gates the next, and the first failure aborts the whole run.

use vstd::prelude::*;
use vstd::string::StringSliceAdditionalSpecFns;
use vstd::utf8::encode_utf8;
use crate::generate::Dataset;
use crate::json::{encode_feature, encode_strategy, json_feature, json_strategy};
use crate::model::{Feature, FeatureView, Strategy, StrategyView};
use crate::urls::{environment_enable_url, environment_enable_url_spec, strategies_url,
    strategies_url_spec};

verus! {

/// Which of the three per-feature steps a request performs; a strategy
/// creation carries the strategy's 0-based index under its feature.
#[derive(Clone, Copy, Debug, PartialEq, Eq, Structural)]
pub enum StepKind {
    CreateFeature,
    CreateStrategy(usize),
    EnableEnvironment,
}

/// One planned HTTP POST: its target URL, its JSON body (`None` stands for
/// an empty body), and which feature and step it belongs to.
#[derive(Clone, Debug)]
pub struct PlannedRequest {
    pub url: String,
    pub body: Option<String>,
    pub feature_index: usize,
    pub kind: StepKind,
}

/// Abstract value of a [`PlannedRequest`].
pub ghost struct RequestView {
    pub url: Seq<char>,
    pub body: Option<Seq<char>>,
    pub feature_index: int,
    pub kind: StepKind,
}

impl View for PlannedRequest {
    type V = RequestView;

    open spec fn view(&self) -> RequestView {
        RequestView {
            url: self.url@,
            body: match self.body {
                Option::Some(b) => Option::Some(b@),
                Option::None => Option::None,
            },
            feature_index: self.feature_index as int,
            kind: self.kind,
        }
    }
}

/// The views of a sequence of planned requests.
pub open spec fn request_views(s: Seq<PlannedRequest>) -> Seq<RequestView> {
    Seq::new(s.len(), |i: int| s[i]@)
}

/// The three-step request sequence of one feature: create it, create its
/// strategies in order, enable the environment.
pub open spec fn feature_requests(
    fu: Seq<char>,
    envb: Seq<u8>,
    f: FeatureView,
    ss: Seq<StrategyView>,
    fi: int,
) -> Seq<RequestView> {
    seq![
        RequestView {
            url: fu,
            body: Option::Some(json_feature(f)),
            feature_index: fi,
            kind: StepKind::CreateFeature,
        },
    ] + Seq::new(
        ss.len(),
        |j: int| RequestView {
            url: strategies_url_spec(fu, encode_utf8(f.name), envb),
            body: Option::Some(json_strategy(ss[j])),
            feature_index: fi,
            kind: StepKind::CreateStrategy(j as usize),
        },
    ) + seq![
        RequestView {
            url: environment_enable_url_spec(fu, encode_utf8(f.name), envb),
            body: Option::None,
            feature_index: fi,
            kind: StepKind::EnableEnvironment,
        },
    ]
}

/// The whole plan for the features from absolute index `fi` on.
pub open spec fn plan_requests_from(
    fu: Seq<char>,
    envb: Seq<u8>,
    features: Seq<FeatureView>,
    strategies: Seq<Seq<StrategyView>>,
    fi: int,
) -> Seq<RequestView>
    decreases features.len(),
{
    if features.len() == 0 {
        Seq::empty()
    } else {
        feature_requests(fu, envb, features[0], strategies[0], fi) + plan_requests_from(
            fu,
            envb,
            features.drop_first(),
            strategies.drop_first(),
            fi + 1,
        )
    }
}

/// The whole plan: features in generation order, three steps each.
pub open spec fn plan_requests(
    fu: Seq<char>,
    envb: Seq<u8>,
    features: Seq<FeatureView>,
    strategies: Seq<Seq<StrategyView>>,
) -> Seq<RequestView> {
    plan_requests_from(fu, envb, features, strategies, 0)
}

impl Dataset {
    /// The views of the generated features, in order.
    pub open spec fn features_view(&self) -> Seq<FeatureView> {
        Seq::new(self.features@.len(), |i: int| self.features@[i]@)
    }

    /// The views of the generated strategies, grouped per feature, in order.
    pub open spec fn strategies_view(&self) -> Seq<Seq<StrategyView>> {
        Seq::new(
            self.feature_strategies@.len(),
            |i: int| Seq::new(
                self.feature_strategies@[i].1@.len(),
                |j: int| self.feature_strategies@[i].1@[j]@,
            ),
        )
    }
}

/// A plan grows by one feature's requests at its end.
#[verifier::rlimit(100)]
proof fn lemma_plan_push(
    fu: Seq<char>,
    envb: Seq<u8>,
    features: Seq<FeatureView>,
    strategies: Seq<Seq<StrategyView>>,
    f: FeatureView,
    ss: Seq<StrategyView>,
    fi: int,
)
    requires
        features.len() == strategies.len(),
    ensures
        plan_requests_from(fu, envb, features.push(f), strategies.push(ss), fi)
            == plan_requests_from(fu, envb, features, strategies, fi) + feature_requests(
            fu,
            envb,
            f,
            ss,
            fi + features.len(),
        ),
    decreases features.len(),
{
    if features.len() == 0 {
        assert(features.push(f)[0] == f);
        assert(strategies.push(ss)[0] == ss);
        assert(features.push(f).drop_first() =~= Seq::<FeatureView>::empty());
        assert(strategies.push(ss).drop_first() =~= Seq::<Seq<StrategyView>>::empty());
        assert(plan_requests_from(
            fu,
            envb,
            Seq::<FeatureView>::empty(),
            Seq::<Seq<StrategyView>>::empty(),
            fi + 1,
        ) == Seq::<RequestView>::empty());
        assert(plan_requests_from(fu, envb, features.push(f), strategies.push(ss), fi)
            =~~= plan_requests_from(fu, envb, features, strategies, fi) + feature_requests(
            fu,
            envb,
            f,
            ss,
            fi + features.len(),
        ));
    } else {
        assert(features.push(f).drop_first() =~= features.drop_first().push(f));
        assert(strategies.push(ss).drop_first() =~= strategies.drop_first().push(ss));
        lemma_plan_push(fu, envb, features.drop_first(), strategies.drop_first(), f, ss, fi + 1);
        assert(plan_requests_from(fu, envb, features.push(f), strategies.push(ss), fi)
            =~~= plan_requests_from(fu, envb, features, strategies, fi) + feature_requests(
            fu,
            envb,
            f,
            ss,
            fi + features.len(),
        ));
    }
}

/// When every feature has the same number of strategies, the plan holds one
/// creation, that many strategy creations, and one enablement per feature.
pub proof fn lemma_plan_length(
    fu: Seq<char>,
    envb: Seq<u8>,
    features: Seq<FeatureView>,
    strategies: Seq<Seq<StrategyView>>,
    per_feature: int,
    fi: int,
)
    requires
        features.len() == strategies.len(),
        forall|i: int| 0 <= i < strategies.len() ==> (#[trigger] strategies[i]).len()
            == per_feature,
        per_feature >= 0,
    ensures
        plan_requests_from(fu, envb, features, strategies, fi).len() == features.len() * (
        per_feature + 2),
    decreases features.len(),
{
    if features.len() == 0 {
    } else {
        assert(strategies[0].len() == per_feature);
        lemma_plan_length(
            fu,
            envb,
            features.drop_first(),
            strategies.drop_first(),
            per_feature,
            fi + 1,
        );
        assert(features.len() * (per_feature + 2) == (features.len() - 1) * (per_feature + 2) + (
        per_feature + 2)) by (nonlinear_arith);
    }
}

/// Builds the requests of one feature.
fn feature_requests_exec(
    fu: &str,
    environment: &str,
    f: &Feature,
    ss: &Vec<Strategy>,
    fi: usize,
) -> (r: Vec<PlannedRequest>)
    ensures
        request_views(r@) == feature_requests(
            fu@,
            environment.spec_bytes(),
            f@,
            Seq::new(ss@.len(), |j: int| ss@[j]@),
            fi as int,
        ),
{
    let ghost ssv = Seq::new(ss@.len(), |j: int| ss@[j]@);
    let ghost goal = feature_requests(fu@, environment.spec_bytes(), f@, ssv, fi as int);
    let mut r: Vec<PlannedRequest> = Vec::new();
    r.push(
        PlannedRequest {
            url: fu.to_owned(),
            body: Some(encode_feature(f)),
            feature_index: fi,
            kind: StepKind::CreateFeature,
        },
    );
    let su = strategies_url(fu, f.name.as_str(), environment);
    let n = ss.len();
    let mut j: usize = 0;
    while j < n
        invariant
            j <= n,
            n == ss@.len(),
            ssv == Seq::new(ss@.len(), |k: int| ss@[k]@),
            su@ == strategies_url_spec(fu@, encode_utf8(f@.name), environment.spec_bytes()),
            r@.len() == j + 1,
            request_views(r@) == goal.take(j + 1 as int),
            goal == feature_requests(fu@, environment.spec_bytes(), f@, ssv, fi as int),
            goal.len() == ssv.len() + 2,
        decreases n - j,
    {
        r.push(
            PlannedRequest {
                url: su.clone(),
                body: Some(encode_strategy(&ss[j])),
                feature_index: fi,
                kind: StepKind::CreateStrategy(j),
            },
        );
        proof {
            assert(request_views(r@) =~~= goal.take(j + 2 as int));
        }
        j = j + 1;
    }
    let eu = environment_enable_url(fu, f.name.as_str(), environment);
    r.push(
        PlannedRequest { url: eu, body: None, feature_index: fi, kind: StepKind::EnableEnvironment },
    );
    proof {
        assert(r@.len() == n + 2);
        assert(goal[n + 1 as int] == feature_requests(
            fu@,
            environment.spec_bytes(),
            f@,
            ssv,
            fi as int,
        )[n + 1 as int]);
        assert forall|m: int| 0 <= m < n + 2 implies request_views(r@)[m] == goal[m] by {
            if m < n + 1 {
                assert(request_views(r@.take(n + 1 as int))[m] == goal.take(n + 1 as int)[m]);
                assert(r@.take(n + 1 as int)[m] == r@[m]);
            } else {
                assert(r@[m]@ == goal[m]) by {
                    assert(goal[m].url =~= environment_enable_url_spec(
                        fu@,
                        encode_utf8(f@.name),
                        environment.spec_bytes(),
                    ));
                }
            }
        }
        assert(request_views(r@) =~~= goal);
    }
    r
}

/// Builds the whole upload plan for a generated collection: for each
/// feature, in generation order, a feature creation at the features URL,
/// its strategies in order at the strategies URL, and the environment
/// enablement, exactly `plan_requests` of the collection's views.
pub fn build_plan(fu: &str, environment: &str, d: &Dataset) -> (r: Vec<PlannedRequest>)
    requires
        d.features@.len() == d.feature_strategies@.len(),
    ensures
        request_views(r@) == plan_requests(
            fu@,
            environment.spec_bytes(),
            d.features_view(),
            d.strategies_view(),
        ),
{
    let ghost fv = d.features_view();
    let ghost sv = d.strategies_view();
    let mut r: Vec<PlannedRequest> = Vec::new();
    let n = d.features.len();
    let mut i: usize = 0;
    while i < n
        invariant
            i <= n,
            n == d.features@.len(),
            n == d.feature_strategies@.len(),
            fv == d.features_view(),
            sv == d.strategies_view(),
            request_views(r@) == plan_requests_from(
                fu@,
                environment.spec_bytes(),
                fv.take(i as int),
                sv.take(i as int),
                0,
            ),
        decreases n - i,
    {
        let mut fr = feature_requests_exec(
            fu,
            environment,
            &d.features[i],
            &d.feature_strategies[i].1,
            i,
        );
        r.append(&mut fr);
        proof {
            assert(fv.take((i + 1) as int) =~= fv.take(i as int).push(fv[i as int]));
            assert(sv.take((i + 1) as int) =~= sv.take(i as int).push(sv[i as int]));
            lemma_plan_push(
                fu@,
                environment.spec_bytes(),
                fv.take(i as int),
                sv.take(i as int),
                fv[i as int],
                sv[i as int],
                0,
            );
            assert(sv[i as int] =~= Seq::new(
                d.feature_strategies@[i as int].1@.len(),
                |j: int| d.feature_strategies@[i as int].1@[j]@,
            ));
            assert(request_views(r@) =~~= plan_requests_from(
                fu@,
                environment.spec_bytes(),
                fv.take((i + 1) as int),
                sv.take((i + 1) as int),
                0,
            ));
        }
        i = i + 1;
    }
    proof {
        assert(fv.take(n as int) =~= fv);
        assert(sv.take(n as int) =~= sv);
    }
    r
}

/// The requests a fail-fast run issues: each request is issued only after
/// every earlier one succeeded, and the first failed request is the last
/// one issued.
pub open spec fn issued_requests(plan: Seq<RequestView>, outcomes: Seq<bool>) -> Seq<RequestView>
    decreases plan.len(),
{
    if plan.len() == 0 || outcomes.len() == 0 {
        Seq::empty()
    } else if outcomes[0] {
        seq![plan[0]] + issued_requests(plan.drop_first(), outcomes.drop_first())
    } else {
        seq![plan[0]]
    }
}

/// While every outcome is a success, the issued requests are exactly the
/// plan's prefix of the same length.
pub proof fn lemma_run_success_prefix(plan: Seq<RequestView>, outcomes: Seq<bool>)
    requires
        outcomes.len() <= plan.len(),
        forall|i: int| 0 <= i < outcomes.len() ==> outcomes[i],
    ensures
        issued_requests(plan, outcomes) == plan.take(outcomes.len() as int),
    decreases plan.len(),
{
    if plan.len() == 0 || outcomes.len() == 0 {
        assert(issued_requests(plan, outcomes) =~= plan.take(outcomes.len() as int));
    } else {
        assert(outcomes[0]);
        lemma_run_success_prefix(plan.drop_first(), outcomes.drop_first());
        assert(issued_requests(plan, outcomes) =~= plan.take(outcomes.len() as int));
    }
}

/// A run whose every outcome is a success issues the whole plan, in order.
pub proof fn lemma_run_all_success(plan: Seq<RequestView>, outcomes: Seq<bool>)
    requires
        outcomes.len() == plan.len(),
        forall|i: int| 0 <= i < outcomes.len() ==> outcomes[i],
    ensures
        issued_requests(plan, outcomes) == plan,
{
    lemma_run_success_prefix(plan, outcomes);
    assert(plan.take(plan.len() as int) =~= plan);
}

/// A run whose first failure is at position `k` issues exactly the plan's
/// requests up to and including `k`, and nothing after it.
pub proof fn lemma_run_fail_fast(plan: Seq<RequestView>, outcomes: Seq<bool>, k: int)
    requires
        0 <= k < plan.len(),
        k < outcomes.len(),
        forall|i: int| 0 <= i < k ==> outcomes[i],
        !outcomes[k],
    ensures
        issued_requests(plan, outcomes) == plan.take(k + 1),
    decreases k,
{
    if k == 0 {
        assert(issued_requests(plan, outcomes) =~= plan.take(1));
    } else {
        assert(outcomes[0]);
        lemma_run_fail_fast(plan.drop_first(), outcomes.drop_first(), k - 1);
        assert(issued_requests(plan, outcomes) =~= plan.take(k + 1));
    }
}


/// The state of one fail-fast upload run over a fixed plan: requests are
/// handed out in plan order, each outcome is recorded, and the first
/// failure aborts the run.
pub struct UploadRun {
    plan: Vec<PlannedRequest>,
    pos: usize,
    aborted: bool,
    outcomes: Ghost<Seq<bool>>,
}

impl UploadRun {
    /// The plan this run works through.
    pub closed spec fn plan_views(&self) -> Seq<RequestView> {
        request_views(self.plan@)
    }

    /// The outcomes recorded so far, in order.
    pub closed spec fn outcomes(&self) -> Seq<bool> {
        self.outcomes@
    }

    /// How many requests have succeeded.
    pub closed spec fn completed(&self) -> int {
        self.pos as int
    }

    /// Whether a failure has aborted the run.
    pub closed spec fn is_aborted(&self) -> bool {
        self.aborted
    }

    /// The requests issued so far.
    pub open spec fn issued(&self) -> Seq<RequestView> {
        issued_requests(self.plan_views(), self.outcomes())
    }

    /// Internal consistency: every recorded outcome but a final failure is a
    /// success, and an aborted run records that failure as its last outcome.
    pub closed spec fn wf(&self) -> bool {
        &&& self.pos <= self.plan@.len()
        &&& (if self.aborted {
            &&& self.outcomes@.len() == self.pos + 1
            &&& self.pos < self.plan@.len()
            &&& !self.outcomes@[self.pos as int]
        } else {
            self.outcomes@.len() == self.pos as int
        })
        &&& forall|i: int| 0 <= i < self.pos as int ==> self.outcomes@[i]
    }

    /// A fresh run over `plan`, with nothing issued.
    pub fn new(plan: Vec<PlannedRequest>) -> (r: UploadRun)
        ensures
            r.wf(),
            r.plan_views() == request_views(plan@),
            r.completed() == 0,
            !r.is_aborted(),
            r.outcomes() == Seq::<bool>::empty(),
    {
        UploadRun { plan, pos: 0, aborted: false, outcomes: Ghost(Seq::empty()) }
    }

    /// The next request to issue: the first not yet attempted, unless the
    /// run is aborted or complete.
    pub fn next_request(&self) -> (r: Option<&PlannedRequest>)
        requires
            self.wf(),
        ensures
            match r {
                Option::Some(q) => !self.is_aborted() && self.completed()
                    < self.plan_views().len() && q@ == self.plan_views()[self.completed()],
                Option::None => self.is_aborted() || self.completed() == self.plan_views().len(),
            },
    {
        if self.aborted || self.pos >= self.plan.len() {
            None
        } else {
            Some(&self.plan[self.pos])
        }
    }

    /// Records the outcome of the request `next_request` handed out. On
    /// success the run moves on; on failure it aborts, and the requests
    /// issued over the whole run are exactly the plan up to and including
    /// the failed request.
    pub fn record(&mut self, ok: bool)
        requires
            old(self).wf(),
            !old(self).is_aborted(),
            old(self).completed() < old(self).plan_views().len(),
        ensures
            final(self).wf(),
            final(self).plan_views() == old(self).plan_views(),
            final(self).outcomes() == old(self).outcomes().push(ok),
            ok ==> !final(self).is_aborted() && final(self).completed() == old(self).completed()
                + 1,
            !ok ==> final(self).is_aborted() && final(self).completed() == old(self).completed(),
            final(self).issued() == final(self).plan_views().take(
                final(self).outcomes().len() as int,
            ),
    {
        proof {
            assert(self.outcomes@.len() == self.pos as int);
        }
        self.outcomes = Ghost(self.outcomes@.push(ok));
        let n = self.plan.len();
        if ok {
            proof {
                assert(self.pos < n);
            }
            self.pos = self.pos + 1;
            proof {
                lemma_run_success_prefix(self.plan_views(), self.outcomes@);
            }
        } else {
            self.aborted = true;
            proof {
                lemma_run_fail_fast(self.plan_views(), self.outcomes@, self.pos as int);
            }
        }
    }

    /// The request whose failure aborted the run, if any.
    pub fn failure(&self) -> (r: Option<&PlannedRequest>)
        requires
            self.wf(),
        ensures
            match r {
                Option::Some(q) => self.is_aborted() && q@ == self.plan_views()[self.completed()],
                Option::None => !self.is_aborted(),
            },
    {
        if self.aborted {
            Some(&self.plan[self.pos])
        } else {
            None
        }
    }

    /// Whether every planned request was issued and succeeded.
    pub fn is_complete(&self) -> (r: bool)
        requires
            self.wf(),
        ensures
            r == (!self.is_aborted() && self.completed() == self.plan_views().len()),
    {
        !self.aborted && self.pos == self.plan.len()
    }
}


/// With `count` features of `per_feature` strategies each, a run in which
/// every request succeeds issues exactly one feature creation, `per_feature`
/// strategy creations and one enablement per feature: `count + count *
/// per_feature + count` requests, in plan order.
pub proof fn lemma_upload_request_count(
    fu: Seq<char>,
    envb: Seq<u8>,
    features: Seq<FeatureView>,
    strategies: Seq<Seq<StrategyView>>,
    per_feature: int,
    outcomes: Seq<bool>,
)
    requires
        features.len() == strategies.len(),
        forall|i: int| 0 <= i < strategies.len() ==> (#[trigger] strategies[i]).len()
            == per_feature,
        per_feature >= 0,
        outcomes.len() == plan_requests(fu, envb, features, strategies).len(),
        forall|i: int| 0 <= i < outcomes.len() ==> outcomes[i],
    ensures
        issued_requests(plan_requests(fu, envb, features, strategies), outcomes) == plan_requests(
            fu,
            envb,
            features,
            strategies,
        ),
        issued_requests(plan_requests(fu, envb, features, strategies), outcomes).len()
            == features.len() + features.len() * per_feature + features.len(),
{
    lemma_plan_length(fu, envb, features, strategies, per_feature, 0);
    lemma_run_all_success(plan_requests(fu, envb, features, strategies), outcomes);
    assert(features.len() * (per_feature + 2) == features.len() + features.len() * per_feature
        + features.len()) by (nonlinear_arith);
}

} // verus!


