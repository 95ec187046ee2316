use flagseed::decode::{decode_constraint, decode_feature, decode_strategy, operator_from_wire};
use flagseed::json::{encode_constraint, encode_feature, encode_strategy};
use flagseed::model::{Constraint, Feature, FeatureType, Operator, Strategy};

fn sample_strategy() -> Strategy {
    Strategy {
        name: "gradualRollout".to_string(),
        title: "strategy_x_1".to_string(),
        disabled: false,
        sort_order: 4242,
        constraints: vec![
            Constraint {
                context_name: "userId".to_string(),
                operator: Operator::Unknown("X".to_string()),
                case_insensitive: true,
                inverted: false,
                values: vec!["one".to_string(), "t\"wo".to_string()],
                value: String::new(),
            },
            Constraint {
                context_name: "env".to_string(),
                operator: Operator::SemverGt,
                case_insensitive: false,
                inverted: true,
                values: vec![],
                value: "1.2.3".to_string(),
            },
        ],
        parameters: vec![
            ("rollout".to_string(), "55".to_string()),
            ("stickiness".to_string(), "default".to_string()),
            ("groupId".to_string(), "x".to_string()),
        ],
        segments: vec![0, 7, 4294967295],
    }
}

#[test]
fn feature_round_trips() {
    let f = Feature {
        name: "01ARZ3NDEKTSV4RRFFQ69G5FAV".to_string(),
        description: None,
        feature_type: FeatureType::Operational,
        impression_data: true,
    };
    assert_eq!(decode_feature(&encode_feature(&f)), Some(f.clone()));
    let g = Feature {
        name: "a\"b\\c\nd".to_string(),
        description: Some("line1\nline2\t\"quoted\"".to_string()),
        feature_type: FeatureType::Permission,
        impression_data: false,
    };
    assert_eq!(decode_feature(&encode_feature(&g)), Some(g.clone()));
}

#[test]
fn constraint_round_trips_with_unknown_operator() {
    let c = Constraint {
        context_name: "appName".to_string(),
        operator: Operator::Unknown("SOMETHING_NEW".to_string()),
        case_insensitive: false,
        inverted: false,
        values: vec!["a".to_string()],
        value: "v".to_string(),
    };
    assert_eq!(decode_constraint(&encode_constraint(&c)), Some(c.clone()));
}

#[test]
fn strategy_round_trips() {
    let s = sample_strategy();
    assert_eq!(decode_strategy(&encode_strategy(&s)), Some(s.clone()));
    let empty = Strategy {
        name: "n".to_string(),
        title: String::new(),
        disabled: true,
        sort_order: 0,
        constraints: vec![],
        parameters: vec![],
        segments: vec![],
    };
    assert_eq!(decode_strategy(&encode_strategy(&empty)), Some(empty.clone()));
}

#[test]
fn unknown_payload_spelling_a_known_operator_decodes_to_it() {
    // the one family of values whose round trip is not the identity: an
    // Unknown payload that spells a known operator comes back as that
    // operator
    let c = Constraint {
        context_name: "x".to_string(),
        operator: Operator::Unknown("NOT_IN".to_string()),
        case_insensitive: false,
        inverted: false,
        values: vec![],
        value: String::new(),
    };
    let decoded = decode_constraint(&encode_constraint(&c)).unwrap();
    assert_eq!(decoded.operator, Operator::NotIn);
}

#[test]
fn operator_wire_names_map_back() {
    let ops = [
        Operator::NotIn,
        Operator::In,
        Operator::StrEndsWith,
        Operator::StrStartsWith,
        Operator::StrContains,
        Operator::NumEq,
        Operator::NumGt,
        Operator::NumGte,
        Operator::NumLt,
        Operator::NumLte,
        Operator::DateAfter,
        Operator::DateBefore,
        Operator::SemverEq,
        Operator::SemverLt,
        Operator::SemverGt,
    ];
    for op in ops {
        assert_eq!(operator_from_wire(op.wire_name()), op);
    }
    assert_eq!(
        operator_from_wire("NO_SUCH_OP"),
        Operator::Unknown("NO_SUCH_OP".to_string())
    );
}

#[test]
fn decoders_refuse_noncanonical_text() {
    assert_eq!(decode_feature(""), None);
    assert_eq!(decode_feature("{\"name\":\"a\"}"), None);
    assert_eq!(decode_strategy("{}"), None);
    let f = Feature {
        name: "a".to_string(),
        description: None,
        feature_type: FeatureType::Release,
        impression_data: false,
    };
    let mut text = encode_feature(&f);
    text.push(' ');
    assert_eq!(decode_feature(&text), None);
}
