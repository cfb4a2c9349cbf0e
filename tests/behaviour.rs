use std::cmp::Ordering;

use gradle_sync::{
    parse_project_version_from_line, parse_version_code_line, parse_version_name_line,
    replace_project_version_from_line, replace_version_code, replace_version_name,
    sem_version_parse, BuildGradleContent, ConfigDocument, Dialect, Error, GradleVersion,
    PropertiesContent, SemanticVersion,
};

#[test]
fn scenario_build_script_synchronized_to_higher_version() {
    let mut doc = BuildGradleContent::from("versionCode 2\nversionName \"1.1.2\"").unwrap();
    doc.sync_version(&sem_version_parse("1.2.0").unwrap()).unwrap();
    assert_eq!(doc.serialize(), "versionCode 3\nversionName \"1.2.0\"\n");
}

#[test]
fn scenario_properties_synchronized_to_higher_version() {
    let mut doc = PropertiesContent::from("projectVersion=1.2.0").unwrap();
    doc.sync_version(&sem_version_parse("1.3.4").unwrap()).unwrap();
    assert_eq!(doc.serialize(), "projectVersion=1.3.4\n");
}

#[test]
fn scenario_missing_version_code() {
    let r = BuildGradleContent::from("versionName \"1.0.0\"");
    assert_eq!(r.err().unwrap(), Error::VersionNotFound("failed to find versionCode".to_string()));
}

#[test]
fn scenario_lower_target_refused_with_both_versions() {
    let mut v = GradleVersion::new(4, sem_version_parse("0.2.0").unwrap());
    match v.synchronize_version(&sem_version_parse("0.1.2").unwrap()) {
        Err(Error::VersionNotIncreasing(m)) => {
            assert!(m.contains("(old)0.2.0"));
            assert!(m.contains("(new)0.1.2"));
        }
        _ => panic!("expected a refusal"),
    }
    assert_eq!(v.code(), 4);
    assert_eq!(v.version().to_string(), "0.2.0");
}

#[test]
fn build_number_advances_by_one_for_any_jump() {
    let mut v = GradleVersion::new(5, sem_version_parse("0.1.0").unwrap());
    assert_eq!(v.synchronize_version(&sem_version_parse("2.0.0").unwrap()), Ok(true));
    assert_eq!(v.code(), 6);
    assert_eq!(v.version().to_string(), "2.0.0");
    assert_eq!(v.synchronize_version(&sem_version_parse("2.0.0").unwrap()), Ok(false));
    assert_eq!(v.code(), 6);
    assert!(v.synchronize_version(&sem_version_parse("1.9.9").unwrap()).is_err());
    assert_eq!(v.code(), 6);
}

#[test]
fn load_recovers_declared_values() {
    let doc = BuildGradleContent::from("a\n  versionCode 41\n  versionName \"10.20.30\"\nb").unwrap();
    let v = doc.current_version().unwrap();
    assert_eq!(v.code(), 41);
    assert_eq!(v.version(), &SemanticVersion::new(10, 20, 30));
}

#[test]
fn rendering_twice_gives_the_same_lines() {
    let doc = BuildGradleContent::from("x\nversionCode   7\nversionName  \"1.0.0\"\n").unwrap();
    assert_eq!(doc.lines(), doc.lines());
    assert_eq!(doc.serialize(), doc.serialize());
}

#[test]
fn reloading_the_output_gives_the_same_version() {
    let text = "versionCode   7 // build\n\tversionName  \"1.0.9\"\nversionCode 99\n";
    let first = BuildGradleContent::from(text).unwrap();
    let second = BuildGradleContent::from(&first.serialize()).unwrap();
    let a = first.current_version().unwrap();
    let b = second.current_version().unwrap();
    assert_eq!(a.code(), b.code());
    assert_eq!(a.version(), b.version());
    assert_eq!(first.serialize(), "versionCode 7 // build\n\tversionName \"1.0.9\"\nversionCode 7\n");
}

#[test]
fn unmatched_lines_are_kept_verbatim() {
    let text = "  // versionCode x \t\nplugins { id 'x' }\r\nversionCode 1\nversionName \"1.0.0\"";
    let mut doc = BuildGradleContent::from(text).unwrap();
    doc.sync_version(&sem_version_parse("1.0.1").unwrap()).unwrap();
    let lines = doc.lines();
    assert_eq!(lines[0], "  // versionCode x \t");
    assert_eq!(lines[1], "plugins { id 'x' }");
    assert_eq!(lines[2], "versionCode 2");
    assert_eq!(lines[3], "versionName \"1.0.1\"");
}

#[test]
fn first_occurrence_wins_and_duplicates_are_rewritten() {
    let text = "versionCode 3\nversionCode 9\nversionName \"2.0.0\"\nversionName \"0.0.1\"";
    let mut doc = BuildGradleContent::from(text).unwrap();
    assert_eq!(doc.current_version().unwrap().code(), 3);
    assert_eq!(doc.current_version().unwrap().version().to_string(), "2.0.0");
    doc.sync_version(&sem_version_parse("2.1.0").unwrap()).unwrap();
    assert_eq!(
        doc.serialize(),
        "versionCode 4\nversionCode 4\nversionName \"2.1.0\"\nversionName \"2.1.0\"\n"
    );
}

#[test]
fn empty_document_has_no_version() {
    assert_eq!(
        BuildGradleContent::from("").err().unwrap(),
        Error::VersionNotFound("failed to find versionCode".to_string())
    );
    assert_eq!(
        PropertiesContent::from("").err().unwrap(),
        Error::VersionNotFound("failed to find projectVersion".to_string())
    );
}

#[test]
fn properties_build_number_is_one() {
    let doc = PropertiesContent::from("a=b\nprojectVersion = 0.3.0\n").unwrap();
    assert_eq!(doc.current_version().unwrap().code(), 1);
}

#[test]
fn crlf_line_endings_are_split_like_a_line_reader() {
    let doc = ConfigDocument::load(Dialect::Properties, "projectVersion=1.0.0\r\nx\r").unwrap();
    assert_eq!(doc.lines(), vec!["projectVersion=1.0.0".to_string(), "x\r".to_string()]);
}

#[test]
fn write_is_due_only_after_a_change() {
    let mut doc = PropertiesContent::from("projectVersion=1.0.0").unwrap();
    assert_eq!(doc.pending_output(), None);
    doc.sync_version(&sem_version_parse("1.0.0").unwrap()).unwrap();
    assert_eq!(doc.pending_output(), None);
    doc.sync_version(&sem_version_parse("1.0.1").unwrap()).unwrap();
    assert_eq!(doc.pending_output(), Some("projectVersion=1.0.1\n".to_string()));
}

#[test]
fn failed_sync_leaves_document_unchanged() {
    let mut doc = PropertiesContent::from("projectVersion=1.5.0").unwrap();
    assert!(doc.sync_version(&sem_version_parse("1.4.9").unwrap()).is_err());
    assert!(!doc.is_modified());
    assert_eq!(doc.serialize(), "projectVersion=1.5.0\n");
}

#[test]
fn oversized_version_code_declares_nothing() {
    assert_eq!(parse_version_code_line("versionCode 4294967295"), Some(4294967295));
    assert_eq!(parse_version_code_line("versionCode 4294967296"), None);
    assert_eq!(replace_version_code("versionCode 4294967296".to_string(), 1), "versionCode 4294967296");
}

#[test]
fn code_pattern_needs_whitespace_and_digits() {
    assert_eq!(parse_version_code_line("versionCode2"), None);
    assert_eq!(parse_version_code_line("x versionCode\u{a0}17;"), Some(17));
    assert_eq!(parse_version_code_line("versionCode 007"), Some(7));
    assert_eq!(replace_version_code("\tversionCode \t 5 // c".to_string(), 6), "\tversionCode 6 // c");
}

#[test]
fn name_pattern_needs_quotes() {
    assert!(parse_version_name_line("versionName 1.0.0").is_none());
    assert!(parse_version_name_line("versionName \"1.0.0").is_none());
    assert!(parse_version_name_line("versionName \"01.0.0\"").is_none());
    let v = parse_version_name_line("x versionName\t\"4.5.6\" y").unwrap();
    assert_eq!(v, SemanticVersion::new(4, 5, 6));
    assert_eq!(
        replace_version_name("x versionName\t\"4.5.6\" y".to_string(), &SemanticVersion::new(7, 8, 9)),
        "x versionName \"7.8.9\" y"
    );
}

#[test]
fn project_pattern_swaps_only_the_value() {
    let v = sem_version_parse("2.0.0").unwrap();
    assert_eq!(
        replace_project_version_from_line("projectVersion=1.0.0 # 1.0.0".to_string(), &v),
        "projectVersion=2.0.0 # 1.0.0"
    );
    assert!(parse_project_version_from_line("projectVersion: 1.0.0").is_none());
    assert_eq!(
        parse_project_version_from_line("projectVersion\t=\t3.2.1").unwrap(),
        SemanticVersion::new(3, 2, 1)
    );
}

#[test]
fn version_text_and_parse_errors() {
    let v = sem_version_parse("1.2.3-rc.1+build.5").unwrap();
    assert_eq!(v.major, 1);
    assert_eq!(v.pre, "rc.1");
    assert_eq!(v.build, "build.5");
    assert_eq!(v.to_string(), "1.2.3-rc.1+build.5");
    assert_eq!(SemanticVersion::new(18446744073709551615, 0, 10).to_string(), "18446744073709551615.0.10");
    assert_eq!(
        sem_version_parse("1.x").err().unwrap(),
        Error::ParsingFailed("failed to parse version string '1.x'".to_string())
    );
}

#[test]
fn version_order_follows_semver_precedence() {
    let p = |s: &str| sem_version_parse(s).unwrap();
    assert_eq!(p("1.0.0-alpha").compare(&p("1.0.0")), Ordering::Less);
    assert_eq!(p("1.0.0").compare(&p("1.0.0-alpha")), Ordering::Greater);
    assert_eq!(p("1.0.0-alpha.1").compare(&p("1.0.0-alpha.beta")), Ordering::Less);
    assert_eq!(p("1.0.0-beta.11").compare(&p("1.0.0-beta.2")), Ordering::Greater);
    assert_eq!(p("1.0.0+b").compare(&p("1.0.0+a")), Ordering::Greater);
    assert_eq!(p("1.10.0").compare(&p("1.9.0")), Ordering::Greater);
    assert_eq!(p("2.0.0").compare(&p("2.0.0")), Ordering::Equal);
}

#[test]
fn pre_release_target_is_accepted() {
    let mut v = GradleVersion::new(1, sem_version_parse("1.0.0-beta").unwrap());
    assert_eq!(v.synchronize_version(&sem_version_parse("1.0.0").unwrap()), Ok(true));
    assert_eq!(v.code(), 2);
}
