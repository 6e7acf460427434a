use std::collections::{BTreeMap, BTreeSet};

use scuffle::body::{tracker_outcome, TrackedBody, TrackedBodyError, Tracker};
use scuffle::bootstrap::{ConfigParser, EmptyConfig};
use scuffle::combinations::find_permutations;
use scuffle::package_features::{test_package_features, PowersetError, XTaskMetadata};
use scuffle::postcompile::{crate_name, exit_status, rust_flag_args, CompileOutput, ExitStatus};
use scuffle::powerset::{flatten_features, parse_features, FeatureMap};
use scuffle::profile_picture::{input_path, output_prefix, upload_name, validate_format, AcceptedFormats};
use scuffle::rtmp::ChannelData;

fn b(s: &str) -> Vec<u8> {
    s.as_bytes().to_vec()
}

fn names(v: &[&str]) -> Vec<Vec<u8>> {
    v.iter().map(|s| b(s)).collect()
}

fn map(entries: &[(&str, &[&str])]) -> FeatureMap {
    entries.iter().map(|(k, v)| (b(k), names(v))).collect()
}

fn set_of(v: &[Vec<u8>]) -> BTreeSet<String> {
    v.iter().map(|x| String::from_utf8(x.clone()).unwrap()).collect()
}

fn sets_of(v: &[Vec<Vec<u8>>]) -> BTreeSet<BTreeSet<String>> {
    v.iter().map(|s| set_of(s)).collect()
}

fn expected(sets: &[&[&str]]) -> BTreeSet<BTreeSet<String>> {
    sets.iter().map(|s| s.iter().map(|x| x.to_string()).collect()).collect()
}

#[test]
fn accepted_formats() {
    assert_eq!(AcceptedFormats::from_content_type("image/jpeg"), Some(AcceptedFormats::Jpeg));
    assert_eq!(AcceptedFormats::from_content_type("image/avif"), Some(AcceptedFormats::Avif));
    assert_eq!(AcceptedFormats::from_content_type("image/JPEG"), None);
    assert_eq!(AcceptedFormats::from_content_type("image/bmp"), None);
    assert_eq!(AcceptedFormats::Jpeg.ext(), "jpg");
    assert_eq!(AcceptedFormats::Png.ext(), "png");
    assert_eq!(AcceptedFormats::Webp.ext(), "webp");
    assert_eq!(AcceptedFormats::Gif.ext(), "gif");
    assert_eq!(AcceptedFormats::Avif.ext(), "avif");
    assert!(validate_format("image/gif"));
    assert!(!validate_format("text/plain"));
}

#[test]
fn each_format_round_trips_through_its_content_type() {
    for (ct, f) in [
        ("image/jpeg", AcceptedFormats::Jpeg),
        ("image/png", AcceptedFormats::Png),
        ("image/webp", AcceptedFormats::Webp),
        ("image/gif", AcceptedFormats::Gif),
        ("image/avif", AcceptedFormats::Avif),
    ] {
        assert_eq!(AcceptedFormats::from_content_type(ct), Some(f));
    }
}

#[test]
fn profile_picture_paths() {
    assert_eq!(input_path("u1", "t9", AcceptedFormats::Png), "u1/profile_pictures/t9/source.png");
    assert_eq!(upload_name(None, AcceptedFormats::Webp), "untitled.webp");
    assert_eq!(upload_name(Some("me.gif".to_string()), AcceptedFormats::Gif), "me.gif");
    assert_eq!(output_prefix("owner", "task"), "owner/task");
}

#[test]
fn compile_output_text() {
    let o = CompileOutput { status: ExitStatus::Success, stdout: "out".to_string(), stderr: String::new() };
    assert_eq!(o.render(), "exit status: Success\n--- stdout \nout\n");
    let o = CompileOutput { status: ExitStatus::Failure, stdout: String::new(), stderr: "err".to_string() };
    assert_eq!(o.render(), "exit status: Failure\n--- stderr \nerr\n");
    let o = CompileOutput { status: exit_status(true), stdout: "a".to_string(), stderr: "b".to_string() };
    assert_eq!(o.render(), "exit status: Success\n--- stderr \nb\n--- stdout \na\n");
    assert_eq!(exit_status(false), ExitStatus::Failure);
}

#[test]
fn compile_arguments() {
    assert_eq!(crate_name("my_crate::tests::some_test"), b("some_test"));
    assert_eq!(crate_name("plain"), b("plain"));
    assert_eq!(crate_name("a::"), b(""));
    assert_eq!(rust_flag_args(b"-C opt-level=3"), names(&["-C", "opt-level=3"]));
    assert_eq!(rust_flag_args(b"a  b"), names(&["a", "", "b"]));
    assert_eq!(rust_flag_args(b""), names(&[""]));
}

struct Limit(usize);

impl Tracker for Limit {
    type Error = String;

    fn on_data(&self, size: usize) -> Result<(), String> {
        if size > self.0 {
            Err(format!("{size} > {}", self.0))
        } else {
            Ok(())
        }
    }
}

struct Quiet;

impl Tracker for Quiet {
    type Error = ();
}

#[test]
fn tracked_body_reports_sizes() {
    let mut body = TrackedBody::new(vec![1u8, 2, 3], Limit(4));
    assert_eq!(body.body_ref(), &vec![1u8, 2, 3]);
    body.body_mut().push(4);
    assert_eq!(body.body_ref().len(), 4);
    assert!(body.track::<()>(3).is_ok());
    match body.track::<()>(5) {
        Err(TrackedBodyError::Tracker(e)) => assert_eq!(e, "5 > 4"),
        _ => panic!("expected the tracker's refusal"),
    }
    let quiet = TrackedBody::new((), Quiet);
    assert!(quiet.track::<()>(usize::MAX).is_ok());
}

#[test]
fn empty_configs_parse() {
    assert!(<() as ConfigParser>::parse().is_ok());
    assert_eq!(EmptyConfig::parse().unwrap(), EmptyConfig);
}

#[test]
fn channel_data_fields() {
    let d = ChannelData::Audio { timestamp: 42, data: bytes::Bytes::from_static(b"aac") };
    assert_eq!(d.timestamp(), 42);
    assert_eq!(d.data().as_ref(), b"aac");
    let d = ChannelData::Metadata { timestamp: 7, data: bytes::Bytes::new() };
    assert_eq!(d.timestamp(), 7);
    assert!(d.data().is_empty());
}

#[test]
fn parse_features_sorts_generic_and_crate_features() {
    let (generic, crates) = parse_features(&names(&["std", "tokio/rt", "tokio/macros", "serde/derive", "std", "a/b/c"]));
    assert_eq!(set_of(&generic), ["std".to_string()].into_iter().collect());
    assert_eq!(generic.len(), 1);
    let got: BTreeMap<String, BTreeSet<String>> = crates
        .entries
        .iter()
        .map(|(k, v)| (String::from_utf8(k.clone()).unwrap(), set_of(v)))
        .collect();
    let mut want = BTreeMap::new();
    want.insert("tokio".to_string(), ["rt".to_string(), "macros".to_string()].into_iter().collect());
    want.insert("serde".to_string(), ["derive".to_string()].into_iter().collect());
    want.insert("a".to_string(), ["b/c".to_string()].into_iter().collect());
    assert_eq!(got, want);
}

#[test]
fn flatten_features_follows_chains() {
    let m = map(&[("a", &[]), ("b", &["a"]), ("c", &["b", "dep:x"])]);
    assert_eq!(set_of(&flatten_features(&names(&["c"]), &m)), ["a", "b", "c"].iter().map(|s| s.to_string()).collect());
    assert_eq!(set_of(&flatten_features(&names(&["b"]), &m)), ["a", "b"].iter().map(|s| s.to_string()).collect());
    assert!(flatten_features(&names(&["x"]), &m).is_empty());
    // Flattening what flattening gave changes nothing.
    let once = flatten_features(&names(&["c"]), &m);
    assert_eq!(set_of(&flatten_features(&once, &m)), set_of(&once));
}

#[test]
fn find_permutations_depth_first() {
    let viable = map(&[("a", &[]), ("b", &["a"]), ("c", &[])]);
    let mut found = Vec::new();
    find_permutations(Vec::new(), 4, &mut found, &viable, &Vec::new());
    assert_eq!(sets_of(&found), expected(&[&[], &["a"], &["b"], &["c"], &["a", "c"], &["b", "c"]]));
    let mut found = Vec::new();
    find_permutations(Vec::new(), 0, &mut found, &viable, &Vec::new());
    assert_eq!(sets_of(&found), expected(&[&[]]));
}

#[test]
fn find_permutations_skips_supersets_of_skipped_sets() {
    let viable = map(&[("a", &[]), ("b", &["a"]), ("c", &[])]);
    let mut found = Vec::new();
    find_permutations(Vec::new(), 4, &mut found, &viable, &vec![names(&["a"])]);
    assert_eq!(sets_of(&found), expected(&[&[], &["b"], &["c"], &["b", "c"]]));
    for s in sets_of(&found) {
        assert!(!s.contains("a"));
    }
}

fn package() -> FeatureMap {
    map(&[("a", &[]), ("b", &["a"]), ("c", &[])])
}

#[test]
fn package_features_default_metadata() {
    let r = test_package_features(&package(), &Vec::new(), &Vec::new(), &XTaskMetadata::default()).unwrap();
    assert_eq!(sets_of(&r), expected(&[&[], &["a"], &["b"], &["c"], &["a", "c"], &["b", "c"]]));
}

#[test]
fn package_features_without_features() {
    let r = test_package_features(&Vec::new(), &Vec::new(), &Vec::new(), &XTaskMetadata::default()).unwrap();
    assert!(r.is_empty());
}

#[test]
fn package_features_additive() {
    let mut md = XTaskMetadata::default();
    md.additive_features = names(&["c"]);
    let r = test_package_features(&package(), &Vec::new(), &Vec::new(), &md).unwrap();
    assert_eq!(sets_of(&r), expected(&[&[], &["a"], &["b"], &["c"], &["a", "c"], &["b", "c"]]));
}

#[test]
fn package_features_deny_list_and_excluded() {
    let mut md = XTaskMetadata::default();
    md.deny_list = names(&["b"]);
    let r = test_package_features(&package(), &Vec::new(), &Vec::new(), &md).unwrap();
    assert_eq!(sets_of(&r), expected(&[&[], &["a"], &["c"], &["a", "c"]]));
    let r = test_package_features(&package(), &Vec::new(), &names(&["a"]), &XTaskMetadata::default()).unwrap();
    assert_eq!(sets_of(&r), expected(&[&[], &["b"], &["c"], &["b", "c"]]));
}

#[test]
fn package_features_always_included_and_max_size() {
    let mut md = XTaskMetadata::default();
    md.always_include_features = names(&["a", "missing"]);
    let r = test_package_features(&package(), &Vec::new(), &Vec::new(), &md).unwrap();
    assert_eq!(sets_of(&r), expected(&[&["a"], &["a", "c"], &["b"], &["b", "c"]]));
    let mut md = XTaskMetadata::default();
    md.max_combination_size = Some(0);
    let r = test_package_features(&package(), &names(&["c"]), &Vec::new(), &md).unwrap();
    assert_eq!(sets_of(&r), expected(&[&["c"]]));
}

#[test]
fn package_features_optional_dependencies() {
    let m = map(&[("dep1", &["dep:dep1"]), ("x", &[])]);
    let r = test_package_features(&m, &Vec::new(), &Vec::new(), &XTaskMetadata::default()).unwrap();
    assert_eq!(sets_of(&r), expected(&[&[], &["x"]]));
    let mut md = XTaskMetadata::default();
    md.extra_features = names(&["dep1"]);
    let r = test_package_features(&m, &Vec::new(), &Vec::new(), &md).unwrap();
    assert_eq!(sets_of(&r), expected(&[&[], &["x"], &["dep1"], &["dep1", "x"]]));
    let used = map(&[("dep1", &["dep:dep1"]), ("x", &["dep:dep1"])]);
    let r = test_package_features(&used, &Vec::new(), &Vec::new(), &XTaskMetadata::default()).unwrap();
    assert!(sets_of(&r).contains(&expected(&[&["dep1"]]).into_iter().next().unwrap()));
    let mut md = XTaskMetadata::default();
    md.skip_optional_dependencies = false;
    let r = test_package_features(&m, &Vec::new(), &Vec::new(), &md).unwrap();
    assert_eq!(sets_of(&r).len(), 4);
}

#[test]
fn package_features_allow_and_deny_conflict() {
    let mut md = XTaskMetadata::default();
    md.allow_list = names(&["a"]);
    md.deny_list = names(&["b"]);
    let e = test_package_features(&package(), &Vec::new(), &Vec::new(), &md).unwrap_err();
    assert_eq!(e, PowersetError::AllowAndDenyList);
    assert_eq!(e.message(), "Cannot specify both allow and deny lists, please specify only one.");
    let mut md = XTaskMetadata::default();
    md.allow_list = names(&["a"]);
    let r = test_package_features(&package(), &Vec::new(), &Vec::new(), &md).unwrap();
    assert_eq!(sets_of(&r), expected(&[&[], &["a"]]));
}

#[test]
fn xtask_metadata_defaults() {
    let md = XTaskMetadata::default();
    assert!(md.skip_optional_dependencies);
    assert!(!md.skip);
    assert!(md.max_combination_size.is_none());
    assert!(md.allow_list.is_empty() && md.deny_list.is_empty() && md.additive_features.is_empty());
}

#[test]
fn find_permutations_adds_at_most_the_steps_allowed() {
    let viable = map(&[("a", &[]), ("b", &["a"]), ("c", &[])]);
    let mut found = Vec::new();
    find_permutations(Vec::new(), 1, &mut found, &viable, &Vec::new());
    assert_eq!(sets_of(&found), expected(&[&[], &["a"], &["b"], &["c"]]));
    let mut found = Vec::new();
    find_permutations(names(&["c"]), 1, &mut found, &viable, &Vec::new());
    assert!(sets_of(&found).iter().all(|s| s.len() <= 2));
}

#[test]
fn tracker_verdicts() {
    assert!(tracker_outcome::<(), String>(Ok(())).is_ok());
    match tracker_outcome::<(), String>(Err("no".to_string())) {
        Err(TrackedBodyError::Tracker(e)) => assert_eq!(e, "no"),
        _ => panic!("expected the tracker's refusal"),
    }
    assert!(Quiet.on_data(10).is_ok());
}
