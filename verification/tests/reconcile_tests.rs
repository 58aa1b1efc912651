use cargo_installed::inventory::{get_installed, InstalledKrate};
use cargo_installed::reconcile::{get_all_krates, needs_lookup, Krate};
use cargo_installed::report::column_widths;
use cargo_installed::status::KrateStatus;
use cargo_installed::upgrade::should_upgrade;

fn krate(name: &str, version: &str, from: Option<&str>) -> InstalledKrate {
    InstalledKrate {
        name: name.to_string(),
        version: version.to_string(),
        from: from.map(|f| f.to_string()),
        commands: Vec::new(),
    }
}

fn body(latest: &str) -> Option<String> {
    Some(format!("{{\"versions\":[{{\"num\":\"{}\"}}]}}", latest))
}

fn classify_pair(installed_version: &str, latest: &str) -> KrateStatus {
    let installed = vec![krate("x", installed_version, None)];
    let out = get_all_krates(&installed, &Vec::new(), true, &vec![body(latest)]);
    out[0].status
}

#[test]
fn reconcile_example_outdated_and_local_ignored() {
    let text = "foo v1.2.0:\n    foo\nbar v0.9.0 (/home/me/bar):\n    bar-cli\n";
    let installed = get_installed(text).unwrap();
    let ignored: Vec<String> = Vec::new();
    let bodies = vec![body("2.0.0"), None];
    let out = get_all_krates(&installed, &ignored, true, &bodies);
    assert_eq!(out.len(), 2);
    assert_eq!(out[0].status, KrateStatus::Outdated);
    assert_eq!(out[0].latest, "2.0.0");
    assert_eq!(out[1].status, KrateStatus::Ignored);
    assert_eq!(out[1].latest, "ignored");
}

#[test]
fn explicit_ignore_skips_the_registry() {
    let text = "foo v1.2.0:\n    foo\nbar v0.9.0 (/home/me/bar):\n    bar-cli\n";
    let installed = get_installed(text).unwrap();
    let ignored = vec!["foo".to_string()];
    let mut lookups = 0usize;
    let mut bodies: Vec<Option<String>> = Vec::new();
    for k in &installed {
        if needs_lookup(k, &ignored, false) {
            lookups += 1;
            bodies.push(body("0.9.0"));
        } else {
            bodies.push(None);
        }
    }
    assert_eq!(lookups, 1);
    let out = get_all_krates(&installed, &ignored, false, &bodies);
    assert_eq!(out[0].status, KrateStatus::Ignored);
    assert_eq!(out[0].latest, "ignored");
    assert_eq!(out[1].status, KrateStatus::UpToDate);
}

#[test]
fn reconcile_is_idempotent_on_unchanged_inputs() {
    let installed = vec![
        krate("a", "1.0.0", None),
        krate("b", "2.0.0", Some("/src/b")),
        krate("c", "0.3.0", None),
    ];
    let ignored = vec!["c".to_string()];
    let bodies = vec![body("1.1.0"), None, None];
    let first = get_all_krates(&installed, &ignored, true, &bodies);
    let second = get_all_krates(&installed, &ignored, true, &bodies);
    assert_eq!(first.len(), second.len());
    for (x, y) in first.iter().zip(second.iter()) {
        assert_eq!(x.installed.name, y.installed.name);
        assert_eq!(x.latest, y.latest);
        assert_eq!(x.status, y.status);
    }
}

#[test]
fn missing_body_degrades_to_unknown() {
    let installed = vec![krate("gone", "1.0.0", None)];
    let out = get_all_krates(&installed, &Vec::new(), true, &vec![None]);
    assert_eq!(out[0].status, KrateStatus::Unknown);
    assert_eq!(out[0].latest, "unknown");
}

#[test]
fn malformed_body_degrades_to_unknown() {
    let installed = vec![krate("weird", "1.0.0", None)];
    let out = get_all_krates(&installed, &Vec::new(), true, &vec![Some("not json".to_string())]);
    assert_eq!(out[0].status, KrateStatus::Unknown);
    assert_eq!(out[0].latest, "unknown");
}

#[test]
fn body_without_versions_degrades_to_unknown() {
    let installed = vec![krate("odd", "1.0.0", None)];
    let out = get_all_krates(&installed, &Vec::new(), true, &vec![Some("{}".to_string())]);
    assert_eq!(out[0].status, KrateStatus::Unknown);
    assert_eq!(out[0].latest, "unknown");
}

#[test]
fn unparsable_installed_version_degrades_to_unknown() {
    let installed = vec![krate("vague", "not-a-version", None)];
    let out = get_all_krates(&installed, &Vec::new(), true, &vec![body("1.0.0")]);
    assert_eq!(out[0].status, KrateStatus::Unknown);
    assert_eq!(out[0].latest, "unknown");
}

#[test]
fn equal_versions_are_up_to_date() {
    assert_eq!(classify_pair("1.2.3", "1.2.3"), KrateStatus::UpToDate);
}

#[test]
fn older_latest_is_up_to_date() {
    assert_eq!(classify_pair("2.0.0", "1.9.9"), KrateStatus::UpToDate);
}

#[test]
fn newer_latest_is_outdated() {
    assert_eq!(classify_pair("1.2.0", "2.0.0"), KrateStatus::Outdated);
    assert_eq!(classify_pair("1.2.0", "1.3.0"), KrateStatus::Outdated);
    assert_eq!(classify_pair("1.2.0", "1.2.1"), KrateStatus::Outdated);
}

#[test]
fn prerelease_ranks_below_its_release() {
    assert_eq!(classify_pair("1.0.0-alpha", "1.0.0"), KrateStatus::Outdated);
    assert_eq!(classify_pair("1.0.0", "1.0.1-alpha"), KrateStatus::Outdated);
    assert_eq!(classify_pair("1.0.0", "1.0.0-alpha"), KrateStatus::UpToDate);
}

#[test]
fn prerelease_identifiers_compare_by_precedence() {
    assert_eq!(classify_pair("1.0.0-alpha", "1.0.0-alpha.1"), KrateStatus::Outdated);
    assert_eq!(classify_pair("1.0.0-alpha.1", "1.0.0-alpha"), KrateStatus::UpToDate);
    assert_eq!(classify_pair("1.0.0-alpha", "1.0.0-beta"), KrateStatus::Outdated);
    assert_eq!(classify_pair("1.0.0-alpha.2", "1.0.0-alpha.11"), KrateStatus::Outdated);
    assert_eq!(classify_pair("1.0.0-11", "1.0.0-2"), KrateStatus::UpToDate);
    assert_eq!(classify_pair("1.0.0-1", "1.0.0-alpha"), KrateStatus::Outdated);
    assert_eq!(classify_pair("1.0.0-alpha", "1.0.0-1"), KrateStatus::UpToDate);
}

#[test]
fn status_symbols_and_labels() {
    assert_eq!(KrateStatus::Unknown.symbol(), "?");
    assert_eq!(KrateStatus::Outdated.symbol(), "✗");
    assert_eq!(KrateStatus::UpToDate.symbol(), "✓");
    assert_eq!(KrateStatus::Ignored.symbol(), ".");
    assert_eq!(KrateStatus::Unknown.label(), "unknown");
    assert_eq!(KrateStatus::Ignored.label(), "ignored");
    assert_eq!(KrateStatus::default(), KrateStatus::Unknown);
}

#[test]
fn upgrade_only_touches_outdated_packages() {
    let ignored: Vec<String> = Vec::new();
    let outdated = Krate {
        installed: krate("a", "1.0.0", None),
        latest: "2.0.0".to_string(),
        status: KrateStatus::Outdated,
    };
    let current = Krate {
        installed: krate("b", "1.0.0", None),
        latest: "1.0.0".to_string(),
        status: KrateStatus::UpToDate,
    };
    let unknown = Krate {
        installed: krate("c", "1.0.0", None),
        latest: "unknown".to_string(),
        status: KrateStatus::Unknown,
    };
    assert!(should_upgrade(&outdated, &ignored, true));
    assert!(!should_upgrade(&current, &ignored, true));
    assert!(!should_upgrade(&unknown, &ignored, true));
    assert!(outdated.upgrade_allowed());
    assert!(!current.upgrade_allowed());
}

#[test]
fn upgrade_skips_excluded_names_and_local_sources() {
    let local_outdated = Krate {
        installed: krate("loc", "1.0.0", Some("/home/me/loc")),
        latest: "2.0.0".to_string(),
        status: KrateStatus::Outdated,
    };
    assert!(!should_upgrade(&local_outdated, &Vec::new(), true));
    assert!(should_upgrade(&local_outdated, &Vec::new(), false));
    let named = Krate {
        installed: krate("nom", "1.0.0", None),
        latest: "2.0.0".to_string(),
        status: KrateStatus::Outdated,
    };
    assert!(!should_upgrade(&named, &vec!["nom".to_string()], false));
}

#[test]
fn local_detection_requires_a_path() {
    assert!(krate("a", "1.0.0", Some("/home/x")).is_local());
    assert!(!krate("a", "1.0.0", Some("registry")).is_local());
    assert!(!krate("a", "1.0.0", None).is_local());
}

#[test]
fn column_widths_are_longest_content_plus_padding() {
    let ks = vec![
        Krate {
            installed: krate("short", "1.0.0", None),
            latest: "10.20.30".to_string(),
            status: KrateStatus::Outdated,
        },
        Krate {
            installed: krate("a-much-longer-name", "0.1.0", None),
            latest: "0.1.0".to_string(),
            status: KrateStatus::UpToDate,
        },
    ];
    let (name_w, installed_w, latest_w) = column_widths(&ks);
    assert_eq!(name_w, "a-much-longer-name".len() + 3);
    assert_eq!(installed_w, "Installed".len() + 3);
    assert_eq!(latest_w, "10.20.30".len() + 3);
    let (hn, hi, hl) = column_widths(&Vec::new());
    assert_eq!((hn, hi, hl), (4 + 3, 9 + 3, 6 + 3));
}
