use flagseed::generate::generate;
use flagseed::idgen::NameSource;

#[test]
fn generates_exact_counts() {
    let mut names = NameSource::new();
    let d = generate(5, 3, &mut names).expect("name source refused a name");
    assert_eq!(d.features.len(), 5);
    assert_eq!(d.feature_strategies.len(), 5);
    for (_, ss) in &d.feature_strategies {
        assert_eq!(ss.len(), 3);
    }
}

#[test]
fn zero_counts_yield_empty_collections() {
    let mut names = NameSource::new();
    let d = generate(0, 7, &mut names).unwrap();
    assert_eq!(d.features.len(), 0);
    assert_eq!(d.feature_strategies.len(), 0);
    let d = generate(4, 0, &mut names).unwrap();
    assert_eq!(d.features.len(), 4);
    for (_, ss) in &d.feature_strategies {
        assert_eq!(ss.len(), 0);
    }
}

#[test]
fn feature_names_are_pairwise_distinct() {
    let mut names = NameSource::new();
    let d = generate(50, 0, &mut names).unwrap();
    for i in 0..d.features.len() {
        for j in 0..d.features.len() {
            if i != j {
                assert_ne!(d.features[i].name, d.features[j].name);
            }
        }
    }
}

#[test]
fn names_are_distinct_across_one_source() {
    let mut names = NameSource::new();
    let a = generate(3, 0, &mut names).unwrap();
    let b = generate(3, 0, &mut names).unwrap();
    for fa in &a.features {
        for fb in &b.features {
            assert_ne!(fa.name, fb.name);
        }
    }
}

#[test]
fn strategies_carry_stickiness_and_group_id() {
    let mut names = NameSource::new();
    let d = generate(4, 2, &mut names).unwrap();
    for (name, ss) in &d.feature_strategies {
        for s in ss {
            let stickiness = s
                .parameters
                .iter()
                .find(|(k, _)| k == "stickiness")
                .map(|(_, v)| v.clone())
                .expect("stickiness parameter missing");
            assert_eq!(stickiness, "default");
            let group = s
                .parameters
                .iter()
                .find(|(k, _)| k == "groupId")
                .map(|(_, v)| v.clone())
                .expect("groupId parameter missing");
            assert_eq!(&group, name);
        }
    }
}

#[test]
fn rollout_and_sort_order_are_in_range() {
    let mut names = NameSource::new();
    let d = generate(10, 4, &mut names).unwrap();
    for (_, ss) in &d.feature_strategies {
        for s in ss {
            let rollout_text = s
                .parameters
                .iter()
                .find(|(k, _)| k == "rollout")
                .map(|(_, v)| v.clone())
                .expect("rollout parameter missing");
            let rollout: u32 = rollout_text.parse().expect("rollout is not an integer");
            assert!((1..=99).contains(&rollout));
            assert!((1..=99999).contains(&s.sort_order));
        }
    }
}

#[test]
fn strategy_titles_follow_the_pattern() {
    let mut names = NameSource::new();
    let d = generate(2, 3, &mut names).unwrap();
    for (name, ss) in &d.feature_strategies {
        for (i, s) in ss.iter().enumerate() {
            assert_eq!(s.title, format!("strategy_{}_{}", name, i));
            assert_eq!(s.name, "gradualRollout");
            assert!(!s.disabled);
            assert!(s.constraints.is_empty());
            assert!(s.segments.is_empty());
        }
    }
}

#[test]
fn generated_features_have_no_description() {
    let mut names = NameSource::new();
    let d = generate(6, 1, &mut names).unwrap();
    for (f, (name, _)) in d.features.iter().zip(d.feature_strategies.iter()) {
        assert!(f.description.is_none());
        assert_eq!(f.name.len(), 26);
        assert_eq!(&f.name, name);
    }
}
