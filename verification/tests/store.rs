use jackpoint::db::{BuildStatus, PackageDb};

#[test]
fn first_observation_needs_build() {
    let db = PackageDb::empty();
    assert!(db.needs_build("yay", "1.0"));
    assert!(db.needs_build("yay", "anything-at-all"));
    assert!(db.needs_build("", ""));
}

#[test]
fn building_blocks_any_candidate() {
    let mut db = PackageDb::empty();
    db.mark_building_at("yay", "12.0", 100);
    assert!(!db.needs_build("yay", "12.0"));
    assert!(!db.needs_build("yay", "12.1"));
    assert!(!db.needs_build("yay", ""));
    assert!(db.needs_build("other", "12.0"));
}

#[test]
fn built_version_is_not_rebuilt() {
    let mut db = PackageDb::empty();
    db.mark_building_at("x", "1.0", 10);
    db.mark_built_at("x", "1.0", 20);
    assert!(!db.needs_build("x", "1.0"));
    assert!(db.needs_build("x", "1.1"));
}

#[test]
fn building_then_built_snapshot() {
    let mut db = PackageDb::empty();
    db.mark_building("p", "1.2");
    db.mark_built("p", "1.2");
    let st = db.get("p").expect("p is tracked");
    assert_eq!(st.aur_version, "1.2");
    assert_eq!(st.built_version.as_deref(), Some("1.2"));
    assert!(matches!(st.build_status, BuildStatus::Succeeded));
    assert!(st.last_built.is_some());
}

#[test]
fn building_then_failed_keeps_no_built_version() {
    let mut db = PackageDb::empty();
    db.mark_building("p", "1.2");
    db.mark_failed("p", "boom");
    let st = db.get("p").expect("p is tracked");
    assert!(matches!(st.build_status, BuildStatus::Failed(ref r) if r == "boom"));
    assert!(st.built_version.is_none());
    assert!(st.last_built.is_none());
}

#[test]
fn failed_build_retries_on_reobservation() {
    let mut db = PackageDb::empty();
    // package "x" was built at "1.0" and succeeded
    db.mark_building_at("x", "1.0", 10);
    db.mark_built_at("x", "1.0", 20);
    // upstream reports "1.1"
    assert!(db.needs_build("x", "1.1"));
    db.mark_building_at("x", "1.1", 30);
    // while building, the same candidate does not start another build
    assert!(!db.needs_build("x", "1.1"));
    db.mark_failed("x", "compiler exploded");
    // "1.1" is the recorded upstream observation, so re-observing it does
    // not retry; the next version that differs from it does
    assert!(!db.needs_build("x", "1.1"));
    assert!(db.needs_build("x", "1.2"));
}

#[test]
fn mark_building_clears_prior_success() {
    let mut db = PackageDb::empty();
    db.mark_building_at("p", "1.0", 1);
    db.mark_built_at("p", "1.0", 2);
    db.mark_building_at("p", "2.0", 3);
    let st = db.get("p").expect("p is tracked");
    assert_eq!(st.aur_version, "2.0");
    assert!(st.built_version.is_none());
    assert!(st.last_built.is_none());
    assert!(matches!(st.build_status, BuildStatus::Building));
    assert_eq!(st.last_checked, 3);
}

#[test]
fn failed_rebuild_keeps_prior_success() {
    let mut db = PackageDb::empty();
    db.mark_building_at("p", "1.0", 1);
    db.mark_built_at("p", "1.0", 2);
    db.mark_failed("p", "later failure");
    let st = db.get("p").expect("p is tracked");
    assert_eq!(st.built_version.as_deref(), Some("1.0"));
    assert_eq!(st.last_built, Some(2));
    assert!(matches!(st.build_status, BuildStatus::Failed(ref r) if r == "later failure"));
}

#[test]
fn marks_on_untracked_package_are_no_ops() {
    let mut db = PackageDb::empty();
    db.mark_built_at("ghostly", "1.0", 5);
    assert!(db.get("ghostly").is_none());
    db.mark_failed("ghostly", "no such package");
    assert!(db.get("ghostly").is_none());
}

#[test]
fn status_equality_goes_by_kind() {
    assert!(BuildStatus::Failed(String::from("a")) == BuildStatus::Failed(String::from("b")));
    assert!(BuildStatus::Failed(String::from("a")) != BuildStatus::Building);
    assert!(BuildStatus::Failed(String::from("a")) != BuildStatus::Succeeded);
    assert!(BuildStatus::Failed(String::from("a")) != BuildStatus::Pending);
    assert!(BuildStatus::Pending == BuildStatus::Pending);
    assert!(BuildStatus::Building == BuildStatus::Building);
    assert!(BuildStatus::Succeeded == BuildStatus::Succeeded);
    assert!(BuildStatus::Pending != BuildStatus::Building);
}
