use flagseed::generate::generate;
use flagseed::idgen::NameSource;
use flagseed::plan::{build_plan, StepKind, UploadRun};
use flagseed::urls::{features_url, BaseUrl};

fn plan_for(count: u32, per_feature: u32) -> Vec<flagseed::plan::PlannedRequest> {
    let mut names = NameSource::new();
    let d = generate(count, per_feature, &mut names).unwrap();
    let base = BaseUrl::new("http://localhost:4242").unwrap();
    let fu = features_url(&base, "default");
    build_plan(&fu, "development", &d)
}

#[test]
fn plan_counts_one_create_per_entity_plus_one_enable_per_feature() {
    let plan = plan_for(3, 2);
    // C feature creations + C*S strategy creations + C enablements
    assert_eq!(plan.len(), 3 + 3 * 2 + 3);
}

#[test]
fn plan_is_in_per_feature_dependency_order() {
    let plan = plan_for(2, 2);
    let kinds: Vec<StepKind> = plan.iter().map(|r| r.kind).collect();
    assert_eq!(
        kinds,
        vec![
            StepKind::CreateFeature,
            StepKind::CreateStrategy(0),
            StepKind::CreateStrategy(1),
            StepKind::EnableEnvironment,
            StepKind::CreateFeature,
            StepKind::CreateStrategy(0),
            StepKind::CreateStrategy(1),
            StepKind::EnableEnvironment,
        ]
    );
    let indices: Vec<usize> = plan.iter().map(|r| r.feature_index).collect();
    assert_eq!(indices, vec![0, 0, 0, 0, 1, 1, 1, 1]);
}

#[test]
fn plan_urls_and_bodies_follow_the_steps() {
    let mut names = NameSource::new();
    let d = generate(1, 1, &mut names).unwrap();
    let base = BaseUrl::new("http://localhost:4242").unwrap();
    let fu = features_url(&base, "default");
    let plan = build_plan(&fu, "development", &d);
    let name = &d.features[0].name;
    assert_eq!(plan[0].url, fu);
    assert!(plan[0].body.as_ref().unwrap().contains(name.as_str()));
    assert_eq!(
        plan[1].url,
        format!("{}/{}/environments/development/strategies", fu, name)
    );
    assert_eq!(
        plan[2].url,
        format!("{}/{}/environments/development/on", fu, name)
    );
    assert!(plan[2].body.is_none());
}

#[test]
fn successful_run_issues_every_request_in_order() {
    let plan = plan_for(3, 2);
    let texts: Vec<String> = plan.iter().map(|r| r.url.clone()).collect();
    let mut run = UploadRun::new(plan);
    let mut issued: Vec<String> = Vec::new();
    while let Some(req) = run.next_request() {
        issued.push(req.url.clone());
        run.record(true);
    }
    assert!(run.is_complete());
    assert!(run.failure().is_none());
    assert_eq!(issued, texts);
    assert_eq!(issued.len(), 3 + 3 * 2 + 3);
}

#[test]
fn failed_strategy_of_second_feature_aborts_the_run() {
    // three features, two strategies each; the first strategy creation of
    // feature index 1 (the second feature) fails
    let plan = plan_for(3, 2);
    let mut run = UploadRun::new(plan);
    let mut issued: Vec<(usize, StepKind)> = Vec::new();
    while let Some(req) = run.next_request() {
        let tag = (req.feature_index, req.kind);
        issued.push(tag);
        let ok = !(req.feature_index == 1 && req.kind == StepKind::CreateStrategy(0));
        run.record(ok);
    }
    // issued: all four of feature 0, the creation of feature 1, and its
    // first strategy attempt; nothing further
    assert_eq!(
        issued,
        vec![
            (0, StepKind::CreateFeature),
            (0, StepKind::CreateStrategy(0)),
            (0, StepKind::CreateStrategy(1)),
            (0, StepKind::EnableEnvironment),
            (1, StepKind::CreateFeature),
            (1, StepKind::CreateStrategy(0)),
        ]
    );
    assert!(!run.is_complete());
    let failed = run.failure().expect("the run must report its failure");
    assert_eq!(failed.feature_index, 1);
    assert_eq!(failed.kind, StepKind::CreateStrategy(0));
    // no environment enablement for feature 1, nothing at all for feature 2
    assert!(!issued.contains(&(1, StepKind::EnableEnvironment)));
    assert!(issued.iter().all(|(fi, _)| *fi < 2));
}
