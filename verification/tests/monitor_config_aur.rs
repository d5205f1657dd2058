use jackpoint::aur::{aur_info_url, first_package, AurPackage};
use jackpoint::config::{Config, ConfigError};
use jackpoint::db::{BuildStatus, PackageDb};
use jackpoint::monitor::{record_build_outcome, start_build_if_stale};

#[test]
fn cycle_steps_drive_the_state_machine() {
    let mut db = PackageDb::empty();
    // first observation: stale, so a build starts
    assert!(start_build_if_stale(&mut db, "x", "1.1", 50));
    assert!(matches!(
        db.get("x").unwrap().build_status,
        BuildStatus::Building
    ));
    // the build succeeds
    record_build_outcome(&mut db, "x", "1.1", None, 60);
    let st = db.get("x").unwrap();
    assert_eq!(st.built_version.as_deref(), Some("1.1"));
    assert_eq!(st.last_built, Some(60));
    // re-observing the built version starts nothing
    assert!(!start_build_if_stale(&mut db, "x", "1.1", 70));
    // a newer version starts a build that fails
    assert!(start_build_if_stale(&mut db, "x", "1.2", 80));
    record_build_outcome(&mut db, "x", "1.2", Some("linker error"), 90);
    assert!(matches!(
        db.get("x").unwrap().build_status,
        BuildStatus::Failed(ref r) if r == "linker error"
    ));
}

#[test]
fn config_text_parses() {
    let text = "repo_path /srv/repo\narchitecture x86_64\nport 8080\ncheck_interval 300\n";
    let c = Config::load(text).expect("well-formed config loads");
    assert_eq!(c.repo.path, "/srv/repo");
    assert_eq!(c.repo.architecture, "x86_64");
    assert_eq!(c.server.port, 8080);
    assert_eq!(c.aur.check_interval, 300);
}

#[test]
fn config_rejects_bad_texts() {
    assert!(matches!(Config::load(""), Err(ConfigError::Malformed)));
    assert!(matches!(
        Config::load("repo_path /srv/repo\n"),
        Err(ConfigError::Malformed)
    ));
    // port out of range
    assert!(matches!(
        Config::load("repo_path /srv/repo\narchitecture x86_64\nport 65536\ncheck_interval 300\n"),
        Err(ConfigError::Malformed)
    ));
    // trailing text after the last line
    assert!(matches!(
        Config::load(
            "repo_path /srv/repo\narchitecture x86_64\nport 8080\ncheck_interval 300\nextra junk\n"
        ),
        Err(ConfigError::Malformed)
    ));
    // wrong keyword order
    assert!(matches!(
        Config::load("architecture x86_64\nrepo_path /srv/repo\nport 8080\ncheck_interval 300\n"),
        Err(ConfigError::Malformed)
    ));
}

#[test]
fn config_accepts_edge_port() {
    let text = "repo_path p\narchitecture any\nport 65535\ncheck_interval 1\n";
    let c = Config::load(text).expect("largest port loads");
    assert_eq!(c.server.port, 65535);
}

#[test]
fn info_url_keeps_plain_names() {
    assert_eq!(
        aur_info_url("yay"),
        "https://aur.archlinux.org/rpc/?v=5&type=info&arg[]=yay"
    );
}

#[test]
fn info_url_percent_encodes() {
    assert_eq!(
        aur_info_url("name with/slash"),
        "https://aur.archlinux.org/rpc/?v=5&type=info&arg[]=name%20with%2Fslash"
    );
}

#[test]
fn first_package_picks_the_first_result() {
    assert!(first_package(Vec::new()).is_none());
    let results = vec![
        AurPackage {
            name: String::from("yay"),
            version: String::from("12.0"),
            out_of_date: None,
            maintainer: Some(String::from("someone")),
        },
        AurPackage {
            name: String::from("yay-bin"),
            version: String::from("12.1"),
            out_of_date: Some(1700000000),
            maintainer: None,
        },
    ];
    let p = first_package(results).expect("nonempty answer");
    assert_eq!(p.name, "yay");
    assert_eq!(p.version, "12.0");
}
