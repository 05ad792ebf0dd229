use fel4_config::{
    resolve, resolve_named, BuildProfile, ConfigLayer, Fel4Config, FlatTomlProperty,
    FlatTomlValue, IdentifierKind, LayerScope, NestedKind, RawConfig, RawLayer, RawProperty,
    RequiredPath, ResolutionError, SupportedPlatform, SupportedTarget,
};

const T: SupportedTarget = SupportedTarget::Armv7Sel4Fel4;
const P: SupportedPlatform = SupportedPlatform::Sabre;
const PROF: BuildProfile = BuildProfile::Release;

fn integer(name: &str, value: i64) -> RawProperty {
    RawProperty::new(name.to_string(), toml::Value::Integer(value)).unwrap()
}

fn layer(scope: LayerScope, properties: Vec<RawProperty>) -> RawLayer {
    RawLayer { scope, artifact_path: None, target_specs_path: None, properties }
}

fn global(properties: Vec<RawProperty>) -> RawLayer {
    RawLayer {
        scope: LayerScope::Global,
        artifact_path: Some("artifacts".to_string()),
        target_specs_path: Some("target_specs".to_string()),
        properties,
    }
}

fn sorted(config: &Fel4Config) -> Vec<(String, FlatTomlValue)> {
    let mut v: Vec<(String, FlatTomlValue)> =
        config.properties.iter().map(|p| (p.name.clone(), p.value.clone())).collect();
    v.sort_by(|a, b| a.0.cmp(&b.0));
    v
}

#[test]
fn an_empty_name_makes_no_raw_property() {
    assert!(RawProperty::new(String::new(), toml::Value::Integer(1)).is_none());
    let p = RawProperty::new("a".to_string(), toml::Value::Integer(1)).unwrap();
    assert_eq!(p.name(), "a");
    assert_eq!(p.value(), &toml::Value::Integer(1));
}

#[test]
fn higher_layers_override_lower_ones() {
    let raw = RawConfig {
        layers: vec![
            global(vec![integer("a", 1)]),
            layer(LayerScope::Target(T), vec![integer("a", 2), integer("b", 3)]),
            layer(LayerScope::Platform(P), vec![integer("b", 4)]),
            layer(LayerScope::Profile(PROF), vec![integer("c", 5)]),
        ],
    };
    let config = resolve(&raw, T, P, PROF).unwrap();
    assert_eq!(
        sorted(&config),
        vec![
            ("a".to_string(), FlatTomlValue::Integer(2)),
            ("b".to_string(), FlatTomlValue::Integer(4)),
            ("c".to_string(), FlatTomlValue::Integer(5)),
        ]
    );
    assert_eq!(config.get("a"), Some(&FlatTomlValue::Integer(2)));
    assert_eq!(config.get("b"), Some(&FlatTomlValue::Integer(4)));
    assert_eq!(config.get("c"), Some(&FlatTomlValue::Integer(5)));
    assert_eq!(config.get("d"), None);
    assert_eq!(config.target, T);
    assert_eq!(config.platform, P);
    assert_eq!(config.build_profile, PROF);
    assert_eq!(config.artifact_path, "artifacts");
    assert_eq!(config.target_specs_path, "target_specs");
}

#[test]
fn the_order_of_the_sections_does_not_decide_precedence() {
    let raw = RawConfig {
        layers: vec![
            layer(LayerScope::Profile(PROF), vec![integer("a", 4)]),
            layer(LayerScope::Platform(P), vec![integer("a", 3), integer("b", 3)]),
            layer(LayerScope::Target(T), vec![integer("a", 2), integer("b", 2), integer("c", 2)]),
            global(vec![integer("a", 1), integer("b", 1), integer("c", 1), integer("d", 1)]),
        ],
    };
    let config = resolve(&raw, T, P, PROF).unwrap();
    assert_eq!(
        sorted(&config),
        vec![
            ("a".to_string(), FlatTomlValue::Integer(4)),
            ("b".to_string(), FlatTomlValue::Integer(3)),
            ("c".to_string(), FlatTomlValue::Integer(2)),
            ("d".to_string(), FlatTomlValue::Integer(1)),
        ]
    );
}

#[test]
fn sections_for_other_requests_are_left_out() {
    let raw = RawConfig {
        layers: vec![
            global(vec![integer("a", 1)]),
            layer(LayerScope::Target(SupportedTarget::X8664Sel4Fel4), vec![integer("a", 2)]),
            layer(LayerScope::Platform(SupportedPlatform::PC99), vec![integer("b", 3)]),
            layer(LayerScope::Profile(BuildProfile::Debug), vec![integer("c", 4)]),
        ],
    };
    let config = resolve(&raw, T, P, PROF).unwrap();
    assert_eq!(sorted(&config), vec![("a".to_string(), FlatTomlValue::Integer(1))]);
    let other = resolve(
        &raw,
        SupportedTarget::X8664Sel4Fel4,
        SupportedPlatform::PC99,
        BuildProfile::Debug,
    )
    .unwrap();
    assert_eq!(
        sorted(&other),
        vec![
            ("a".to_string(), FlatTomlValue::Integer(2)),
            ("b".to_string(), FlatTomlValue::Integer(3)),
            ("c".to_string(), FlatTomlValue::Integer(4)),
        ]
    );
}

#[test]
fn a_whole_value_replaces_a_value_of_another_kind() {
    let raw = RawConfig {
        layers: vec![
            global(vec![
                RawProperty::new("a".to_string(), toml::Value::String("x".to_string())).unwrap(),
            ]),
            layer(
                LayerScope::Profile(PROF),
                vec![RawProperty::new("a".to_string(), toml::Value::Boolean(true)).unwrap()],
            ),
        ],
    };
    let config = resolve(&raw, T, P, PROF).unwrap();
    assert_eq!(config.properties.len(), 1);
    assert_eq!(config.get("a"), Some(&FlatTomlValue::Boolean(true)));
}

#[test]
fn resolved_values_keep_their_kind() {
    let d: toml::value::Datetime = "1979-05-27T07:32:00Z".parse().unwrap();
    let raw = RawConfig {
        layers: vec![global(vec![
            RawProperty::new("s".to_string(), toml::Value::String("x".to_string())).unwrap(),
            RawProperty::new("i".to_string(), toml::Value::Integer(9)).unwrap(),
            RawProperty::new("f".to_string(), toml::Value::Float(0.5)).unwrap(),
            RawProperty::new("b".to_string(), toml::Value::Boolean(false)).unwrap(),
            RawProperty::new("d".to_string(), toml::Value::Datetime(d.clone())).unwrap(),
        ])],
    };
    let config = resolve(&raw, T, P, PROF).unwrap();
    assert_eq!(config.get("s"), Some(&FlatTomlValue::String("x".to_string())));
    assert_eq!(config.get("i"), Some(&FlatTomlValue::Integer(9)));
    assert_eq!(config.get("f"), Some(&FlatTomlValue::Float(0.5f64.to_bits())));
    assert_eq!(config.get("b"), Some(&FlatTomlValue::Boolean(false)));
    assert_eq!(config.get("d"), Some(&FlatTomlValue::Datetime(d)));
    assert_eq!(config.properties.len(), 5);
}

#[test]
fn resolving_twice_gives_equal_results() {
    let raw = RawConfig {
        layers: vec![
            global(vec![integer("a", 1), integer("z", 0)]),
            layer(LayerScope::Target(T), vec![integer("a", 2), integer("b", 3)]),
            layer(LayerScope::Platform(P), vec![integer("b", 4)]),
            layer(LayerScope::Profile(PROF), vec![integer("c", 5)]),
        ],
    };
    let first = resolve(&raw, T, P, PROF);
    let second = resolve(&raw, T, P, PROF);
    assert!(first.is_ok());
    assert_eq!(first, second);
    let failing = RawConfig { layers: vec![layer(LayerScope::Global, vec![integer("a", 1)])] };
    assert_eq!(resolve(&failing, T, P, PROF), resolve(&failing, T, P, PROF));
}

#[test]
fn two_sections_for_one_target_are_an_error() {
    let raw = RawConfig {
        layers: vec![
            global(vec![]),
            layer(LayerScope::Target(T), vec![integer("a", 1)]),
            layer(LayerScope::Target(T), vec![integer("a", 2)]),
        ],
    };
    assert_eq!(
        resolve(&raw, T, P, PROF),
        Err(ResolutionError::DuplicateLayerDefinition { scope: LayerScope::Target(T) })
    );
}

#[test]
fn two_sections_for_any_scope_are_an_error() {
    let other = SupportedPlatform::Tx1;
    let raw = RawConfig {
        layers: vec![
            global(vec![]),
            layer(LayerScope::Platform(other), vec![]),
            layer(LayerScope::Profile(PROF), vec![]),
            layer(LayerScope::Platform(other), vec![]),
        ],
    };
    assert_eq!(
        resolve(&raw, T, P, PROF),
        Err(ResolutionError::DuplicateLayerDefinition { scope: LayerScope::Platform(other) })
    );
    let raw = RawConfig { layers: vec![global(vec![]), global(vec![])] };
    assert_eq!(
        resolve(&raw, T, P, PROF),
        Err(ResolutionError::DuplicateLayerDefinition { scope: LayerScope::Global })
    );
    let raw = RawConfig {
        layers: vec![
            global(vec![]),
            layer(LayerScope::Profile(BuildProfile::Debug), vec![]),
            layer(LayerScope::Profile(BuildProfile::Debug), vec![]),
        ],
    };
    assert_eq!(
        resolve(&raw, T, P, PROF),
        Err(ResolutionError::DuplicateLayerDefinition {
            scope: LayerScope::Profile(BuildProfile::Debug)
        })
    );
}

#[test]
fn sections_for_different_targets_are_no_duplicates() {
    let raw = RawConfig {
        layers: vec![
            global(vec![]),
            layer(LayerScope::Target(SupportedTarget::X8664Sel4Fel4), vec![integer("a", 1)]),
            layer(LayerScope::Target(SupportedTarget::Armv7Sel4Fel4), vec![integer("a", 2)]),
            layer(LayerScope::Target(SupportedTarget::Aarch64Sel4Fel4), vec![integer("a", 3)]),
        ],
    };
    let config = resolve(&raw, T, P, PROF).unwrap();
    assert_eq!(config.get("a"), Some(&FlatTomlValue::Integer(2)));
}

#[test]
fn a_duplicate_section_is_reported_before_a_faulty_property() {
    let raw = RawConfig {
        layers: vec![
            global(vec![
                RawProperty::new("a".to_string(), toml::Value::Array(Vec::new())).unwrap(),
            ]),
            layer(LayerScope::Target(T), vec![]),
            layer(LayerScope::Target(T), vec![]),
        ],
    };
    assert_eq!(
        resolve(&raw, T, P, PROF),
        Err(ResolutionError::DuplicateLayerDefinition { scope: LayerScope::Target(T) })
    );
}

#[test]
fn a_property_given_twice_in_a_section_is_an_error() {
    let raw = RawConfig {
        layers: vec![
            global(vec![]),
            layer(LayerScope::Platform(P), vec![integer("a", 1), integer("b", 2), integer("a", 1)]),
        ],
    };
    assert_eq!(
        resolve(&raw, T, P, PROF),
        Err(ResolutionError::DuplicatePropertyName {
            scope: LayerScope::Platform(P),
            name: "a".to_string()
        })
    );
}

#[test]
fn an_array_value_is_an_error() {
    let raw = RawConfig {
        layers: vec![
            global(vec![integer("a", 1)]),
            layer(
                LayerScope::Target(T),
                vec![
                    integer("b", 2),
                    RawProperty::new(
                        "features".to_string(),
                        toml::Value::Array(vec![toml::Value::Integer(1)]),
                    )
                    .unwrap(),
                ],
            ),
        ],
    };
    assert_eq!(
        resolve(&raw, T, P, PROF),
        Err(ResolutionError::UnsupportedNestedValue {
            scope: LayerScope::Target(T),
            name: "features".to_string(),
            found: NestedKind::Array
        })
    );
}

#[test]
fn a_table_value_is_an_error_in_any_section() {
    let mut t = toml::value::Table::new();
    t.insert("k".to_string(), toml::Value::Integer(1));
    let unselected = LayerScope::Profile(BuildProfile::Debug);
    let raw = RawConfig {
        layers: vec![
            global(vec![integer("a", 1)]),
            layer(
                unselected,
                vec![RawProperty::new("env".to_string(), toml::Value::Table(t)).unwrap()],
            ),
        ],
    };
    assert_eq!(
        resolve(&raw, T, P, PROF),
        Err(ResolutionError::UnsupportedNestedValue {
            scope: unselected,
            name: "env".to_string(),
            found: NestedKind::Table
        })
    );
}

#[test]
fn the_first_faulty_property_is_the_one_reported() {
    let raw = RawConfig {
        layers: vec![global(vec![
            integer("a", 1),
            integer("a", 2),
            RawProperty::new("b".to_string(), toml::Value::Array(Vec::new())).unwrap(),
        ])],
    };
    assert_eq!(
        resolve(&raw, T, P, PROF),
        Err(ResolutionError::DuplicatePropertyName {
            scope: LayerScope::Global,
            name: "a".to_string()
        })
    );
    let raw = RawConfig {
        layers: vec![global(vec![
            integer("a", 1),
            RawProperty::new("a".to_string(), toml::Value::Array(Vec::new())).unwrap(),
        ])],
    };
    assert_eq!(
        resolve(&raw, T, P, PROF),
        Err(ResolutionError::UnsupportedNestedValue {
            scope: LayerScope::Global,
            name: "a".to_string(),
            found: NestedKind::Array
        })
    );
}

#[test]
fn a_missing_artifact_path_is_an_error() {
    let raw = RawConfig {
        layers: vec![
            RawLayer {
                scope: LayerScope::Global,
                artifact_path: None,
                target_specs_path: Some("specs".to_string()),
                properties: vec![],
            },
            layer(LayerScope::Target(T), vec![integer("a", 1)]),
        ],
    };
    assert_eq!(
        resolve(&raw, T, P, PROF),
        Err(ResolutionError::MissingRequiredPath { path: RequiredPath::Artifact })
    );
}

#[test]
fn a_missing_target_specs_path_is_an_error() {
    let raw = RawConfig {
        layers: vec![RawLayer {
            scope: LayerScope::Global,
            artifact_path: Some("out".to_string()),
            target_specs_path: None,
            properties: vec![],
        }],
    };
    assert_eq!(
        resolve(&raw, T, P, PROF),
        Err(ResolutionError::MissingRequiredPath { path: RequiredPath::TargetSpecs })
    );
}

#[test]
fn with_both_paths_missing_the_artifact_path_is_named() {
    let raw = RawConfig { layers: vec![] };
    assert_eq!(
        resolve(&raw, T, P, PROF),
        Err(ResolutionError::MissingRequiredPath { path: RequiredPath::Artifact })
    );
}

#[test]
fn a_path_of_an_unselected_section_does_not_count() {
    let raw = RawConfig {
        layers: vec![RawLayer {
            scope: LayerScope::Target(SupportedTarget::X8664Sel4Fel4),
            artifact_path: Some("out".to_string()),
            target_specs_path: Some("specs".to_string()),
            properties: vec![],
        }],
    };
    assert_eq!(
        resolve(&raw, T, P, PROF),
        Err(ResolutionError::MissingRequiredPath { path: RequiredPath::Artifact })
    );
    assert!(resolve(&raw, SupportedTarget::X8664Sel4Fel4, P, PROF).is_ok());
}

#[test]
fn paths_follow_the_precedence_of_the_sections() {
    let raw = RawConfig {
        layers: vec![
            RawLayer {
                scope: LayerScope::Global,
                artifact_path: Some("g-out".to_string()),
                target_specs_path: Some("g-specs".to_string()),
                properties: vec![],
            },
            RawLayer {
                scope: LayerScope::Target(T),
                artifact_path: Some("t-out".to_string()),
                target_specs_path: Some("t-specs".to_string()),
                properties: vec![],
            },
            RawLayer {
                scope: LayerScope::Platform(P),
                artifact_path: Some("p-out".to_string()),
                target_specs_path: None,
                properties: vec![],
            },
            RawLayer {
                scope: LayerScope::Profile(PROF),
                artifact_path: None,
                target_specs_path: None,
                properties: vec![],
            },
        ],
    };
    let config = resolve(&raw, T, P, PROF).unwrap();
    assert_eq!(config.artifact_path, "p-out");
    assert_eq!(config.target_specs_path, "t-specs");
    let config = resolve(&raw, SupportedTarget::X8664Sel4Fel4, SupportedPlatform::PC99, PROF).unwrap();
    assert_eq!(config.artifact_path, "g-out");
    assert_eq!(config.target_specs_path, "g-specs");
}

#[test]
fn a_request_by_names_resolves_as_the_typed_request() {
    let raw = RawConfig {
        layers: vec![
            global(vec![integer("a", 1)]),
            layer(LayerScope::Target(T), vec![integer("a", 2)]),
        ],
    };
    assert_eq!(
        resolve_named(&raw, "armv7-sel4-fel4", "sabre", "release"),
        resolve(&raw, T, P, PROF)
    );
    let config = resolve_named(&raw, "aarch64-sel4-fel4", "tx1", "debug").unwrap();
    assert_eq!(config.target, SupportedTarget::Aarch64Sel4Fel4);
    assert_eq!(config.platform, SupportedPlatform::Tx1);
    assert_eq!(config.build_profile, BuildProfile::Debug);
    assert_eq!(config.get("a"), Some(&FlatTomlValue::Integer(1)));
}

#[test]
fn an_unknown_name_in_a_request_is_an_error() {
    let raw = RawConfig { layers: vec![global(vec![])] };
    assert_eq!(
        resolve_named(&raw, "mips", "sabre", "release"),
        Err(ResolutionError::UnknownIdentifier {
            kind: IdentifierKind::Target,
            input: "mips".to_string()
        })
    );
    assert_eq!(
        resolve_named(&raw, "armv7-sel4-fel4", "Sabre", "release"),
        Err(ResolutionError::UnknownIdentifier {
            kind: IdentifierKind::Platform,
            input: "Sabre".to_string()
        })
    );
    assert_eq!(
        resolve_named(&raw, "armv7-sel4-fel4", "sabre", "fast"),
        Err(ResolutionError::UnknownIdentifier {
            kind: IdentifierKind::BuildProfile,
            input: "fast".to_string()
        })
    );
    assert_eq!(
        resolve_named(&raw, "mips", "Sabre", "fast"),
        Err(ResolutionError::UnknownIdentifier {
            kind: IdentifierKind::Target,
            input: "mips".to_string()
        })
    );
}

#[test]
fn an_unknown_name_is_reported_before_a_faulty_configuration() {
    let raw = RawConfig { layers: vec![global(vec![]), global(vec![])] };
    assert_eq!(
        resolve_named(&raw, "armv7-sel4-fel4", "sabre", "fast"),
        Err(ResolutionError::UnknownIdentifier {
            kind: IdentifierKind::BuildProfile,
            input: "fast".to_string()
        })
    );
}

#[test]
fn a_checked_section_holds_the_flat_properties_in_order() {
    let raw = RawLayer {
        scope: LayerScope::Profile(PROF),
        artifact_path: Some("out".to_string()),
        target_specs_path: None,
        properties: vec![
            integer("b", 2),
            RawProperty::new("a".to_string(), toml::Value::Boolean(true)).unwrap(),
        ],
    };
    assert_eq!(
        ConfigLayer::from_raw(&raw),
        Ok(ConfigLayer {
            scope: LayerScope::Profile(PROF),
            artifact_path: Some("out".to_string()),
            target_specs_path: None,
            properties: vec![
                FlatTomlProperty::new("b".to_string(), FlatTomlValue::Integer(2)),
                FlatTomlProperty::new("a".to_string(), FlatTomlValue::Boolean(true)),
            ],
        })
    );
}

#[test]
fn a_checked_configuration_resolves_like_the_raw_one() {
    let raw = RawConfig {
        layers: vec![
            global(vec![integer("a", 1)]),
            layer(LayerScope::Platform(P), vec![integer("a", 7), integer("b", 8)]),
        ],
    };
    assert_eq!(raw.find_repeated_scope(), None);
    let checked = raw.check().unwrap();
    assert_eq!(checked.layers.len(), 2);
    assert_eq!(checked.resolve(T, P, PROF), resolve(&raw, T, P, PROF));
    assert_eq!(
        checked.layer(LayerScope::Platform(P)).map(|l| l.properties.len()),
        Some(2)
    );
    assert!(checked.layer(LayerScope::Target(T)).is_none());
}

#[test]
fn a_scope_is_written_under_its_name() {
    assert_eq!(LayerScope::Global.full_name(), "global");
    assert_eq!(LayerScope::Target(SupportedTarget::X8664Sel4Fel4).full_name(), "x86_64-sel4-fel4");
    assert_eq!(LayerScope::Platform(SupportedPlatform::Tx1).full_name(), "tx1");
    assert_eq!(LayerScope::Profile(BuildProfile::Debug).full_name(), "debug");
}

#[test]
fn every_scope_name_reads_back() {
    let mut scopes = vec![LayerScope::Global];
    scopes.extend(SupportedTarget::targets().into_iter().map(LayerScope::Target));
    scopes.extend(SupportedPlatform::platforms().into_iter().map(LayerScope::Platform));
    scopes.extend(BuildProfile::build_profiles().into_iter().map(LayerScope::Profile));
    assert_eq!(scopes.len(), 9);
    for s in scopes {
        assert_eq!(LayerScope::parse(s.full_name()), Some(s));
    }
}

#[test]
fn a_name_of_no_scope_reads_as_none() {
    assert_eq!(LayerScope::parse("Global"), None);
    assert_eq!(LayerScope::parse("global "), None);
    assert_eq!(LayerScope::parse("imx6"), None);
    assert_eq!(LayerScope::parse(""), None);
}

#[test]
fn a_name_stands_where_it_was_first_given() {
    let raw = RawConfig {
        layers: vec![
            layer(LayerScope::Profile(PROF), vec![integer("z", 9), integer("b", 8)]),
            global(vec![integer("b", 1), integer("a", 2)]),
            layer(LayerScope::Target(T), vec![integer("c", 3), integer("a", 4)]),
        ],
    };
    let config = resolve(&raw, T, P, PROF).unwrap();
    assert_eq!(
        config.properties,
        vec![
            FlatTomlProperty::new("b".to_string(), FlatTomlValue::Integer(8)),
            FlatTomlProperty::new("a".to_string(), FlatTomlValue::Integer(4)),
            FlatTomlProperty::new("c".to_string(), FlatTomlValue::Integer(3)),
            FlatTomlProperty::new("z".to_string(), FlatTomlValue::Integer(9)),
        ]
    );
}
