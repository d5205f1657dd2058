use jackpoint::db::{BuildStatus, LoadError, PackageDb};

#[test]
fn rendered_text_is_the_expected_format() {
    let mut db = PackageDb::empty();
    db.mark_building_at("pkg", "1.0", 42);
    assert_eq!(
        db.to_text(),
        "package pkg\nupstream 1.0\nbuilt -\nchecked 42\nfinished -\nstatus building\n"
    );
}

#[test]
fn rendered_text_of_a_built_package() {
    let mut db = PackageDb::empty();
    db.mark_building_at("pkg", "2.1", 7);
    db.mark_built_at("pkg", "2.1", 9);
    assert_eq!(
        db.to_text(),
        "package pkg\nupstream 2.1\nbuilt +2.1\nchecked 7\nfinished 9\nstatus succeeded\n"
    );
}

#[test]
fn empty_store_round_trips() {
    let db = PackageDb::empty();
    let text = db.to_text();
    assert_eq!(text, "");
    let db2 = PackageDb::from_text(&text).expect("empty text loads");
    assert!(db2.get("anything").is_none());
}

#[test]
fn store_round_trips_through_its_text() {
    let mut db = PackageDb::empty();
    db.mark_building_at("alpha", "1.0", 1);
    db.mark_built_at("alpha", "1.0", 2);
    db.mark_building_at("beta", "0.9", 3);
    db.mark_failed("beta", "boom");
    db.mark_building_at("gamma", "3.3", 4);
    let text = db.to_text();
    let db2 = PackageDb::from_text(&text).expect("rendered text loads");

    let a = db2.get("alpha").expect("alpha survives");
    assert_eq!(a.aur_version, "1.0");
    assert_eq!(a.built_version.as_deref(), Some("1.0"));
    assert_eq!(a.last_checked, 1);
    assert_eq!(a.last_built, Some(2));
    assert!(matches!(a.build_status, BuildStatus::Succeeded));

    let b = db2.get("beta").expect("beta survives");
    assert_eq!(b.aur_version, "0.9");
    assert!(b.built_version.is_none());
    assert!(matches!(b.build_status, BuildStatus::Failed(ref r) if r == "boom"));

    let g = db2.get("gamma").expect("gamma survives");
    assert!(matches!(g.build_status, BuildStatus::Building));

    // the reloaded store renders to the identical text
    assert_eq!(db2.to_text(), text);
}

#[test]
fn awkward_strings_round_trip() {
    let mut db = PackageDb::empty();
    db.mark_building_at("pkg with spaces", "ver\\with\\backslashes", 0);
    db.mark_failed("pkg with spaces", "reason\nwith\nnewlines");
    db.mark_building_at("", "", 18446744073709551615);
    let text = db.to_text();
    let db2 = PackageDb::from_text(&text).expect("escaped text loads");

    let p = db2.get("pkg with spaces").expect("tracked");
    assert_eq!(p.aur_version, "ver\\with\\backslashes");
    assert!(matches!(p.build_status, BuildStatus::Failed(ref r) if r == "reason\nwith\nnewlines"));

    let q = db2.get("").expect("the empty name is a name");
    assert_eq!(q.aur_version, "");
    assert_eq!(q.last_checked, u64::MAX);
}

#[test]
fn garbage_is_rejected() {
    assert!(matches!(
        PackageDb::from_text("not a store"),
        Err(LoadError::Malformed)
    ));
    assert!(matches!(
        PackageDb::from_text("package x"),
        Err(LoadError::Malformed)
    ));
    // a record whose lines are in the wrong order
    assert!(matches!(
        PackageDb::from_text("upstream 1.0\npackage x\nbuilt -\nchecked 1\nfinished -\nstatus pending\n"),
        Err(LoadError::Malformed)
    ));
    // a bad status tag
    assert!(matches!(
        PackageDb::from_text("package x\nupstream 1.0\nbuilt -\nchecked 1\nfinished -\nstatus exploded\n"),
        Err(LoadError::Malformed)
    ));
    // a non-numeric timestamp
    assert!(matches!(
        PackageDb::from_text("package x\nupstream 1.0\nbuilt -\nchecked soon\nfinished -\nstatus pending\n"),
        Err(LoadError::Malformed)
    ));
    // a timestamp just past u64::MAX
    assert!(matches!(
        PackageDb::from_text("package x\nupstream 1.0\nbuilt -\nchecked 18446744073709551616\nfinished -\nstatus pending\n"),
        Err(LoadError::Malformed)
    ));
}

#[test]
fn duplicate_package_names_are_rejected() {
    let one = "package x\nupstream 1.0\nbuilt -\nchecked 1\nfinished -\nstatus pending\n";
    let text = format!("{}{}", one, one);
    assert!(matches!(
        PackageDb::from_text(&text),
        Err(LoadError::DuplicateName)
    ));
}

#[test]
fn handwritten_text_loads() {
    let text = "package yay\nupstream 12.0\nbuilt +12.0\nchecked 100\nfinished 200\nstatus failed it broke\n";
    let db = PackageDb::from_text(text).expect("well-formed text loads");
    let st = db.get("yay").expect("tracked");
    assert_eq!(st.aur_version, "12.0");
    assert_eq!(st.built_version.as_deref(), Some("12.0"));
    assert_eq!(st.last_checked, 100);
    assert_eq!(st.last_built, Some(200));
    assert!(matches!(st.build_status, BuildStatus::Failed(ref r) if r == "it broke"));
}
