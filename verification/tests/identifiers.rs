use fel4_config::{BuildProfile, IdentifierKind, ParseError, SupportedPlatform, SupportedTarget};

#[test]
fn target_full_names() {
    assert_eq!(SupportedTarget::X8664Sel4Fel4.full_name(), "x86_64-sel4-fel4");
    assert_eq!(SupportedTarget::Armv7Sel4Fel4.full_name(), "armv7-sel4-fel4");
    assert_eq!(SupportedTarget::Aarch64Sel4Fel4.full_name(), "aarch64-sel4-fel4");
}

#[test]
fn platform_full_names() {
    assert_eq!(SupportedPlatform::PC99.full_name(), "pc99");
    assert_eq!(SupportedPlatform::Sabre.full_name(), "sabre");
    assert_eq!(SupportedPlatform::Tx1.full_name(), "tx1");
}

#[test]
fn build_profile_full_names() {
    assert_eq!(BuildProfile::Debug.full_name(), "debug");
    assert_eq!(BuildProfile::Release.full_name(), "release");
}

#[test]
fn targets_are_listed_in_order() {
    assert_eq!(
        SupportedTarget::targets(),
        vec![
            SupportedTarget::X8664Sel4Fel4,
            SupportedTarget::Armv7Sel4Fel4,
            SupportedTarget::Aarch64Sel4Fel4
        ]
    );
}

#[test]
fn platforms_are_listed_in_order() {
    assert_eq!(
        SupportedPlatform::platforms(),
        vec![SupportedPlatform::PC99, SupportedPlatform::Sabre, SupportedPlatform::Tx1]
    );
}

#[test]
fn build_profiles_are_listed_in_order() {
    assert_eq!(BuildProfile::build_profiles(), vec![BuildProfile::Debug, BuildProfile::Release]);
}

#[test]
fn target_names_are_canonical() {
    assert_eq!(
        SupportedTarget::target_names(),
        vec![
            "x86_64-sel4-fel4".to_string(),
            "armv7-sel4-fel4".to_string(),
            "aarch64-sel4-fel4".to_string()
        ]
    );
}

#[test]
fn platform_names_are_canonical() {
    assert_eq!(
        SupportedPlatform::platform_names(),
        vec!["pc99".to_string(), "sabre".to_string(), "tx1".to_string()]
    );
}

#[test]
fn build_profile_names_are_canonical() {
    assert_eq!(
        BuildProfile::build_profile_names(),
        vec!["debug".to_string(), "release".to_string()]
    );
}

#[test]
fn names_follow_the_order_of_the_members() {
    let targets = SupportedTarget::targets();
    let names = SupportedTarget::target_names();
    assert_eq!(names.len(), targets.len());
    for (t, n) in targets.iter().zip(names.iter()) {
        assert_eq!(t.full_name(), n.as_str());
    }
    let platforms = SupportedPlatform::platforms();
    let names = SupportedPlatform::platform_names();
    assert_eq!(names.len(), platforms.len());
    for (p, n) in platforms.iter().zip(names.iter()) {
        assert_eq!(p.full_name(), n.as_str());
    }
    let profiles = BuildProfile::build_profiles();
    let names = BuildProfile::build_profile_names();
    assert_eq!(names.len(), profiles.len());
    for (b, n) in profiles.iter().zip(names.iter()) {
        assert_eq!(b.full_name(), n.as_str());
    }
}

#[test]
fn names_do_not_repeat() {
    let mut all = SupportedTarget::target_names();
    all.extend(SupportedPlatform::platform_names());
    all.extend(BuildProfile::build_profile_names());
    assert_eq!(all.len(), 8);
    for i in 0..all.len() {
        for j in (i + 1)..all.len() {
            assert_ne!(all[i], all[j]);
        }
    }
}

#[test]
fn every_target_parses_back() {
    for t in SupportedTarget::targets() {
        assert_eq!(SupportedTarget::parse(t.full_name()), Ok(t));
        assert_eq!(t.full_name().parse::<SupportedTarget>(), Ok(t));
        assert_eq!(SupportedTarget::parse(&t.to_string()), Ok(t));
    }
}

#[test]
fn every_platform_parses_back() {
    for p in SupportedPlatform::platforms() {
        assert_eq!(SupportedPlatform::parse(p.full_name()), Ok(p));
        assert_eq!(p.full_name().parse::<SupportedPlatform>(), Ok(p));
        assert_eq!(SupportedPlatform::parse(&p.to_string()), Ok(p));
    }
}

#[test]
fn every_build_profile_parses_back() {
    for b in BuildProfile::build_profiles() {
        assert_eq!(BuildProfile::parse(b.full_name()), Ok(b));
        assert_eq!(b.full_name().parse::<BuildProfile>(), Ok(b));
        assert_eq!(BuildProfile::parse(&b.to_string()), Ok(b));
    }
}

#[test]
fn to_string_is_the_full_name() {
    assert_eq!(SupportedTarget::Aarch64Sel4Fel4.to_string(), "aarch64-sel4-fel4");
    assert_eq!(SupportedPlatform::Tx1.to_string(), "tx1");
    assert_eq!(BuildProfile::Release.to_string(), "release");
}

#[test]
fn unknown_target_is_rejected_with_its_input() {
    assert_eq!(
        SupportedTarget::parse("riscv64-sel4-fel4"),
        Err(ParseError::UnknownIdentifier {
            kind: IdentifierKind::Target,
            input: "riscv64-sel4-fel4".to_string()
        })
    );
}

#[test]
fn unknown_platform_is_rejected_with_its_input() {
    assert_eq!(
        SupportedPlatform::parse("imx6"),
        Err(ParseError::UnknownIdentifier {
            kind: IdentifierKind::Platform,
            input: "imx6".to_string()
        })
    );
}

#[test]
fn unknown_build_profile_is_rejected_with_its_input() {
    assert_eq!(
        BuildProfile::parse("bench"),
        Err(ParseError::UnknownIdentifier {
            kind: IdentifierKind::BuildProfile,
            input: "bench".to_string()
        })
    );
}

#[test]
fn parsing_is_exact() {
    assert!(SupportedTarget::parse("X86_64-SEL4-FEL4").is_err());
    assert!(SupportedTarget::parse(" x86_64-sel4-fel4").is_err());
    assert!(SupportedTarget::parse("x86_64-sel4-fel4 ").is_err());
    assert!(SupportedTarget::parse("x86_64-sel4").is_err());
    assert!(SupportedTarget::parse("").is_err());
    assert!(SupportedPlatform::parse("PC99").is_err());
    assert!(SupportedPlatform::parse("sabre\n").is_err());
    assert!(SupportedPlatform::parse("tx").is_err());
    assert!(BuildProfile::parse("Debug").is_err());
    assert!(BuildProfile::parse("releas").is_err());
    assert!(BuildProfile::parse("release-").is_err());
}

#[test]
fn a_name_of_one_set_is_unknown_in_the_others() {
    assert!(SupportedTarget::parse("pc99").is_err());
    assert!(SupportedPlatform::parse("debug").is_err());
    assert!(BuildProfile::parse("armv7-sel4-fel4").is_err());
}

#[test]
fn parse_error_lists_the_valid_names() {
    let e = SupportedTarget::parse("nope").unwrap_err();
    assert_eq!(e.valid_names(), SupportedTarget::target_names());
    let e = SupportedPlatform::parse("nope").unwrap_err();
    assert_eq!(e.valid_names(), SupportedPlatform::platform_names());
    let e = BuildProfile::parse("nope").unwrap_err();
    assert_eq!(e.valid_names(), BuildProfile::build_profile_names());
}
