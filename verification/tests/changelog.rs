use unclog::error::Error;
use unclog::init::plan_init;
use unclog::model::{RawBucketDir, RawCategoryDir, RawComponentDir, RawFile, RawTree};
use unclog::release::{ReleaseAction, ReleaseStage, advance, next_action, plan_release};
use unclog::scan::scan;
use unclog::version::{Version, parse_version, version_lt};
use unclog::build;

fn file(name: &str, text: &str) -> RawFile {
    RawFile { name: name.to_string(), text: text.to_string() }
}

fn component(name: &str, files: Vec<RawFile>) -> RawComponentDir {
    RawComponentDir { name: name.to_string(), files }
}

fn category(name: &str, components: Vec<RawComponentDir>) -> RawCategoryDir {
    RawCategoryDir { name: name.to_string(), components }
}

fn bucket(name: &str, categories: Vec<RawCategoryDir>) -> RawBucketDir {
    RawBucketDir { name: name.to_string(), categories }
}

fn tree(buckets: Vec<RawBucketDir>, epilogue: Option<&str>) -> RawTree {
    RawTree { buckets, epilogue: epilogue.map(|e| e.to_string()) }
}

#[test]
fn build_empty_tree() {
    let out = build(tree(vec![], None)).unwrap();
    assert_eq!(out, "# CHANGELOG\n");
}

#[test]
fn build_one_unreleased_entry() {
    let raw = tree(
        vec![bucket(
            "unreleased",
            vec![category("features", vec![component("core", vec![file("add-x.md", "Add x")])])],
        )],
        None,
    );
    let out = build(raw).unwrap();
    assert_eq!(out, "# CHANGELOG\n\n## Unreleased\n\n### FEATURES\n\n- core\n  - Add x\n");
}

#[test]
fn empty_unreleased_bucket_is_omitted_but_build_succeeds() {
    let raw = tree(
        vec![bucket("unreleased", vec![category("features", vec![])])],
        None,
    );
    let out = build(raw).unwrap();
    assert_eq!(out, "# CHANGELOG\n");
}

#[test]
fn empty_components_and_categories_are_pruned() {
    let raw = tree(
        vec![bucket(
            "unreleased",
            vec![
                category("breaking-changes", vec![component("empty", vec![])]),
                category("features", vec![
                    component("empty", vec![]),
                    component("core", vec![file("a.md", "A")]),
                ]),
            ],
        )],
        None,
    );
    let out = build(raw).unwrap();
    assert_eq!(out, "# CHANGELOG\n\n## Unreleased\n\n### FEATURES\n\n- core\n  - A\n");
}

#[test]
fn entries_render_in_lexical_filename_order() {
    let raw = tree(
        vec![bucket(
            "unreleased",
            vec![category(
                "features",
                vec![component("core", vec![
                    file("b-second.md", "Second"),
                    file("a-first.md", "First"),
                ])],
            )],
        )],
        None,
    );
    let out = build(raw).unwrap();
    assert_eq!(
        out,
        "# CHANGELOG\n\n## Unreleased\n\n### FEATURES\n\n- core\n  - First\n  - Second\n"
    );
}

#[test]
fn components_render_in_lexical_name_order() {
    let raw = tree(
        vec![bucket(
            "unreleased",
            vec![category(
                "features",
                vec![
                    component("zeta", vec![file("z.md", "Z")]),
                    component("alpha", vec![file("a.md", "A")]),
                ],
            )],
        )],
        None,
    );
    let out = build(raw).unwrap();
    assert_eq!(
        out,
        "# CHANGELOG\n\n## Unreleased\n\n### FEATURES\n\n- alpha\n  - A\n\n- zeta\n  - Z\n"
    );
}

#[test]
fn categories_render_in_canonical_order() {
    let raw = tree(
        vec![bucket(
            "unreleased",
            vec![
                category("bug-fixes", vec![component("cli", vec![file("f.md", "Fix")])]),
                category("breaking-changes", vec![component("api", vec![file("b.md", "Break")])]),
            ],
        )],
        None,
    );
    let out = build(raw).unwrap();
    assert_eq!(
        out,
        "# CHANGELOG\n\n## Unreleased\n\n### BREAKING CHANGES\n\n- api\n  - Break\n\n### BUG FIXES\n\n- cli\n  - Fix\n"
    );
}

#[test]
fn build_is_independent_of_listing_order() {
    let forwards = tree(
        vec![
            bucket("unreleased", vec![category("features", vec![
                component("core", vec![file("a.md", "A"), file("b.md", "B")]),
            ])]),
            bucket("v0.1.0", vec![category("bug-fixes", vec![
                component("cli", vec![file("f.md", "F")]),
            ])]),
        ],
        Some("The end."),
    );
    let backwards = tree(
        vec![
            bucket("v0.1.0", vec![category("bug-fixes", vec![
                component("cli", vec![file("f.md", "F")]),
            ])]),
            bucket("unreleased", vec![category("features", vec![
                component("core", vec![file("b.md", "B"), file("a.md", "A")]),
            ])]),
        ],
        Some("The end."),
    );
    assert_eq!(build(forwards).unwrap(), build(backwards).unwrap());
}

#[test]
fn build_twice_is_byte_identical() {
    let make = || {
        tree(
            vec![bucket("unreleased", vec![category("improvements", vec![
                component("docs", vec![file("i.md", "Better docs")]),
            ])])],
            Some("Epilogue text"),
        )
    };
    assert_eq!(build(make()).unwrap(), build(make()).unwrap());
}

#[test]
fn releases_render_newest_first() {
    let raw = tree(
        vec![
            bucket("v0.1.0", vec![category("features", vec![
                component("a", vec![file("a.md", "Old")]),
            ])]),
            bucket("v0.2.0", vec![category("features", vec![
                component("b", vec![file("b.md", "New")]),
            ])]),
        ],
        None,
    );
    let out = build(raw).unwrap();
    assert_eq!(
        out,
        "# CHANGELOG\n\n## v0.2.0\n\n### FEATURES\n\n- b\n  - New\n\n## v0.1.0\n\n### FEATURES\n\n- a\n  - Old\n"
    );
}

#[test]
fn unparsable_labels_sort_after_versions_lexically_descending() {
    let raw = tree(
        vec![
            bucket("alpha", vec![category("features", vec![
                component("x", vec![file("x.md", "X")]),
            ])]),
            bucket("v0.1.0", vec![category("features", vec![
                component("y", vec![file("y.md", "Y")]),
            ])]),
            bucket("beta", vec![category("features", vec![
                component("z", vec![file("z.md", "Z")]),
            ])]),
        ],
        None,
    );
    let out = build(raw).unwrap();
    let v = out.find("## v0.1.0").unwrap();
    let b = out.find("## beta").unwrap();
    let a = out.find("## alpha").unwrap();
    assert!(v < b && b < a);
}

#[test]
fn epilogue_is_appended_verbatim() {
    let raw = tree(vec![], Some("Maintained with care.\n"));
    let out = build(raw).unwrap();
    assert_eq!(out, "# CHANGELOG\n\nMaintained with care.\n");
}

#[test]
fn unrecognized_category_fails_with_its_name() {
    let raw = tree(
        vec![bucket("unreleased", vec![category("misc-stuff", vec![])])],
        None,
    );
    let err = build(raw).unwrap_err();
    assert_eq!(err, Error::Malformed("misc-stuff".to_string()));
}

#[test]
fn duplicate_versions_fail() {
    let raw = tree(
        vec![
            bucket("v1.0.0", vec![]),
            bucket("1.0.0", vec![]),
        ],
        None,
    );
    let err = build(raw).unwrap_err();
    assert!(matches!(err, Error::Malformed(_)));
}

#[test]
fn duplicate_bucket_names_fail() {
    let raw = tree(vec![bucket("unreleased", vec![]), bucket("unreleased", vec![])], None);
    let err = build(raw).unwrap_err();
    assert!(matches!(err, Error::Malformed(_)));
}

#[test]
fn duplicate_category_names_fail() {
    let raw = tree(
        vec![bucket("unreleased", vec![category("features", vec![]), category("features", vec![])])],
        None,
    );
    let err = build(raw).unwrap_err();
    assert!(matches!(err, Error::Malformed(_)));
}

#[test]
fn parse_version_accepts_plain_and_v_prefixed() {
    assert_eq!(parse_version("1.2.3"), Some(Version { major: 1, minor: 2, patch: 3 }));
    assert_eq!(parse_version("v10.0.7"), Some(Version { major: 10, minor: 0, patch: 7 }));
}

#[test]
fn parse_version_rejects_other_shapes() {
    assert_eq!(parse_version(""), None);
    assert_eq!(parse_version("v"), None);
    assert_eq!(parse_version("1.2"), None);
    assert_eq!(parse_version("1.2.3.4"), None);
    assert_eq!(parse_version("1..3"), None);
    assert_eq!(parse_version("abc"), None);
    assert_eq!(parse_version("1.2.x"), None);
    assert_eq!(parse_version("v1.2.3-rc1"), None);
}

#[test]
fn parse_version_digit_bound() {
    assert_eq!(
        parse_version("1234567890123456789.0.0"),
        Some(Version { major: 1234567890123456789, minor: 0, patch: 0 })
    );
    assert_eq!(parse_version("12345678901234567890.0.0"), None);
}

#[test]
fn version_order_is_major_minor_patch() {
    let a = Version { major: 1, minor: 2, patch: 3 };
    let b = Version { major: 1, minor: 3, patch: 0 };
    let c = Version { major: 2, minor: 0, patch: 0 };
    assert!(version_lt(&a, &b));
    assert!(version_lt(&b, &c));
    assert!(!version_lt(&c, &a));
    assert!(!version_lt(&a, &a));
}

#[test]
fn release_with_no_entries_fails_and_mutates_nothing() {
    let raw = tree(
        vec![bucket("unreleased", vec![category("features", vec![component("core", vec![])])])],
        None,
    );
    let before = build(tree(
        vec![bucket("unreleased", vec![category("features", vec![component("core", vec![])])])],
        None,
    ))
    .unwrap();
    let r = plan_release(&raw, &"v1.0.0".to_string());
    assert_eq!(r.unwrap_err(), Error::EmptyRelease);
    // The listing was only borrowed; the tree it denotes is unchanged.
    let after = build(raw).unwrap();
    assert_eq!(before, after);
}

#[test]
fn release_without_unreleased_bucket_fails() {
    let raw = tree(vec![bucket("v0.1.0", vec![])], None);
    let r = plan_release(&raw, &"v1.0.0".to_string());
    assert_eq!(r.unwrap_err(), Error::EmptyRelease);
}

#[test]
fn release_with_empty_version_label_fails() {
    let raw = tree(
        vec![bucket("unreleased", vec![category("features", vec![
            component("core", vec![file("a.md", "A")]),
        ])])],
        None,
    );
    let r = plan_release(&raw, &"".to_string());
    assert!(matches!(r.unwrap_err(), Error::Malformed(_)));
}

#[test]
fn release_of_existing_version_fails() {
    let raw = tree(
        vec![
            bucket("unreleased", vec![category("features", vec![
                component("core", vec![file("a.md", "A")]),
            ])]),
            bucket("v1.0.0", vec![]),
        ],
        None,
    );
    let exact = plan_release(&raw, &"v1.0.0".to_string());
    assert_eq!(exact.unwrap_err(), Error::AlreadyReleased);
    // A differently written label for the same version collides too.
    let normalized = plan_release(&raw, &"1.0.0".to_string());
    assert_eq!(normalized.unwrap_err(), Error::AlreadyReleased);
}

#[test]
fn release_success_moves_entries_and_resets_unreleased() {
    let raw = tree(
        vec![bucket(
            "unreleased",
            vec![
                category("features", vec![component("core", vec![file("add-x.md", "Add x")])]),
                category("bug-fixes", vec![component("cli", vec![file("fix-y.md", "Fix y")])]),
            ],
        )],
        None,
    );
    let version = "v1.0.0".to_string();
    let plan = plan_release(&raw, &version).unwrap();
    assert_eq!(plan.move_from, "unreleased");
    assert_eq!(plan.move_to, "v1.0.0");
    let skeleton: Vec<&str> = plan.skeleton.iter().map(|s| s.as_str()).collect();
    assert_eq!(skeleton, vec!["breaking-changes", "features", "improvements", "bug-fixes"]);

    // Carry the plan out against the in-memory listing, as a caller
    // carries it out against the disk.
    let mut moved = raw;
    let mut unreleased = moved.buckets.remove(0);
    assert_eq!(unreleased.name, plan.move_from);
    unreleased.name = plan.move_to.clone();
    moved.buckets.push(unreleased);
    moved.buckets.push(RawBucketDir {
        name: plan.move_from.clone(),
        categories: plan.skeleton.iter().map(|n| category(n, vec![])).collect(),
    });

    let out = build(moved).unwrap();
    assert_eq!(
        out,
        "# CHANGELOG\n\n## v1.0.0\n\n### FEATURES\n\n- core\n  - Add x\n\n### BUG FIXES\n\n- cli\n  - Fix y\n"
    );
    assert!(!out.contains("Unreleased"));
}

#[test]
fn release_stage_machine_tracks_the_two_steps() {
    let s0 = ReleaseStage::NotStarted;
    assert_eq!(next_action(&s0), Some(ReleaseAction::MoveBucket));
    let s1 = advance(s0, true);
    assert_eq!(s1, ReleaseStage::Moved);
    assert_eq!(next_action(&s1), Some(ReleaseAction::RestoreSkeleton));
    let s2 = advance(s1, true);
    assert_eq!(s2, ReleaseStage::SkeletonRestored);
    assert_eq!(next_action(&s2), None);
}

#[test]
fn release_stage_machine_reports_failures_distinctly() {
    let failed_move = advance(ReleaseStage::NotStarted, false);
    assert_eq!(failed_move, ReleaseStage::Failed(Error::Io));
    assert_eq!(next_action(&failed_move), None);
    let partial = advance(ReleaseStage::Moved, false);
    assert_eq!(partial, ReleaseStage::Failed(Error::PartialMutation));
    assert_eq!(next_action(&partial), None);
}

#[test]
fn init_plan_holds_the_canonical_skeleton() {
    let plan = plan_init(false, Some("tail".to_string())).unwrap();
    assert_eq!(plan.unreleased_dir, "unreleased");
    let dirs: Vec<&str> = plan.category_dirs.iter().map(|s| s.as_str()).collect();
    assert_eq!(dirs, vec!["breaking-changes", "features", "improvements", "bug-fixes"]);
    assert_eq!(plan.epilogue, Some("tail".to_string()));
}

#[test]
fn init_refuses_an_initialized_target() {
    let r = plan_init(true, None);
    assert!(matches!(r.unwrap_err(), Error::Malformed(_)));
}

#[test]
fn error_messages_name_the_failure() {
    assert_eq!(
        Error::EmptyRelease.message(),
        "nothing to release: the unreleased bucket has no entries"
    );
    assert_eq!(
        Error::Malformed("misc-stuff".to_string()).message(),
        "unrecognized changelog structure: misc-stuff"
    );
    assert_eq!(Error::AlreadyReleased.message(), "this version has already been released");
}

#[test]
fn scan_keeps_the_epilogue_and_labels() {
    let raw = tree(
        vec![bucket("v2.0.0", vec![category("features", vec![
            component("core", vec![file("a.md", "A")]),
        ])])],
        Some("tail"),
    );
    let t = scan(raw).unwrap();
    assert!(t.unreleased.is_none());
    assert_eq!(t.releases.len(), 1);
    assert_eq!(t.releases[0].label, "v2.0.0");
    assert_eq!(t.epilogue, Some("tail".to_string()));
}
