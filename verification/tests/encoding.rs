use flagseed::json::{encode_constraint, encode_feature, encode_strategy};
use flagseed::model::{Constraint, Feature, FeatureType, Operator, Strategy};

fn sample_constraint() -> Constraint {
    Constraint {
        context_name: "userId".to_string(),
        operator: Operator::StrEndsWith,
        case_insensitive: true,
        inverted: false,
        values: vec!["a".to_string(), "b\"q".to_string()],
        value: String::new(),
    }
}

#[test]
fn feature_encodes_exactly() {
    let f = Feature {
        name: "toggle1".to_string(),
        description: None,
        feature_type: FeatureType::Release,
        impression_data: false,
    };
    assert_eq!(
        encode_feature(&f),
        "{\"name\":\"toggle1\",\"description\":null,\"featureType\":\"release\",\"impressionData\":false}"
    );
    let g = Feature {
        name: "t2".to_string(),
        description: Some("why".to_string()),
        feature_type: FeatureType::Experiment,
        impression_data: true,
    };
    assert_eq!(
        encode_feature(&g),
        "{\"name\":\"t2\",\"description\":\"why\",\"featureType\":\"experiment\",\"impressionData\":true}"
    );
}

#[test]
fn constraint_encodes_exactly_with_escapes() {
    let c = sample_constraint();
    assert_eq!(
        encode_constraint(&c),
        "{\"contextName\":\"userId\",\"operator\":\"STR_ENDS_WITH\",\"caseInsensitive\":true,\"inverted\":false,\"values\":[\"a\",\"b\\\"q\"],\"value\":\"\"}"
    );
}

#[test]
fn unknown_operator_encodes_as_its_payload() {
    let mut c = sample_constraint();
    c.operator = Operator::Unknown("SOMETHING_NEW".to_string());
    let text = encode_constraint(&c);
    assert!(text.contains("\"operator\":\"SOMETHING_NEW\""));
    assert!(!text.contains("UNKNOWN"));
}

#[test]
fn strategy_encodes_exactly() {
    let s = Strategy {
        name: "gradualRollout".to_string(),
        title: "strategy_x_0".to_string(),
        disabled: false,
        sort_order: 42,
        constraints: vec![],
        parameters: vec![
            ("rollout".to_string(), "55".to_string()),
            ("stickiness".to_string(), "default".to_string()),
            ("groupId".to_string(), "x".to_string()),
        ],
        segments: vec![7, 1024],
    };
    assert_eq!(
        encode_strategy(&s),
        "{\"name\":\"gradualRollout\",\"title\":\"strategy_x_0\",\"disabled\":false,\"sortOrder\":42,\"constraints\":[],\"parameters\":{\"rollout\":\"55\",\"stickiness\":\"default\",\"groupId\":\"x\"},\"segments\":[7,1024]}"
    );
}

#[test]
fn strategy_with_constraints_nests_them() {
    let s = Strategy {
        name: "gradualRollout".to_string(),
        title: "t".to_string(),
        disabled: true,
        sort_order: 1,
        constraints: vec![sample_constraint()],
        parameters: vec![],
        segments: vec![],
    };
    let text = encode_strategy(&s);
    assert!(text.starts_with("{\"name\":\"gradualRollout\",\"title\":\"t\",\"disabled\":true,\"sortOrder\":1,\"constraints\":[{\"contextName\":\"userId\""));
    assert!(text.ends_with("\"parameters\":{},\"segments\":[]}"));
}

#[test]
fn escaping_covers_quotes_backslashes_and_controls() {
    let f = Feature {
        name: "a\"b\\c\nd\re\tf".to_string(),
        description: None,
        feature_type: FeatureType::Permission,
        impression_data: false,
    };
    let text = encode_feature(&f);
    assert!(text.starts_with("{\"name\":\"a\\\"b\\\\c\\nd\\re\\tf\""));
}
