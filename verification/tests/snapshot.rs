use serde::ser::{Serialize, SerializeStruct, Serializer};
use verify_tests::snapshot::{Check, VerifyTest};

const VERIFY_DIR: &str = "snapshot_results/";

#[derive(Debug, PartialEq)]
struct SampleStruct {
    name: String,
    age: u32,
}

impl Serialize for SampleStruct {
    fn serialize<S: Serializer>(&self, serializer: S) -> Result<S::Ok, S::Error> {
        let mut state = serializer.serialize_struct("SampleStruct", 2)?;
        state.serialize_field("name", &self.name)?;
        state.serialize_field("age", &self.age)?;
        state.end()
    }
}

struct Rect {
    width: u32,
    height: u32,
}

impl Serialize for Rect {
    fn serialize<S: Serializer>(&self, serializer: S) -> Result<S::Ok, S::Error> {
        let mut state = serializer.serialize_struct("Rect", 2)?;
        state.serialize_field("width", &self.width)?;
        state.serialize_field("height", &self.height)?;
        state.end()
    }
}

fn pretty<T: Serialize>(value: &T) -> String {
    serde_json::to_string_pretty(value).unwrap()
}

const LEROY_20: &str = "{\n  \"name\": \"Leroy\",\n  \"age\": 20\n}";

#[test]
fn ensure_matching_snapshot_file_works() {
    let verify = VerifyTest::new(VERIFY_DIR);
    let sample = SampleStruct { name: "Leroy".to_string(), age: 20 };

    let check = verify.assert_snapshot(
        "ensure_matching_snapshot_file_works",
        Some(LEROY_20),
        &pretty(&sample),
    );
    assert!(check.matched);
    assert!(!check.create_accepted);
    assert_eq!(check.write_received, None);
}

#[test]
#[should_panic]
fn ensure_mismatched_snapshot_panics() {
    let verify = VerifyTest::new(VERIFY_DIR);
    let sample = SampleStruct { name: "Leroy".to_string(), age: 23 };

    let check = verify.assert_snapshot(
        "ensure_mismatched_snapshot_panics",
        Some(LEROY_20),
        &pretty(&sample),
    );
    assert!(check.matched);
}

#[test]
fn ensure_accepted_and_received_files_created_on_new_test() {
    let verify = VerifyTest::new(VERIFY_DIR);
    let sample = SampleStruct { name: "Leroy".to_string(), age: 23 };

    let accepted_file = format!(
        "{}ensure_accepted_and_received_files_created_on_new_test.accepted.json",
        VERIFY_DIR
    );
    let received_file = format!(
        "{}ensure_accepted_and_received_files_created_on_new_test.received.json",
        VERIFY_DIR
    );

    let check = verify.assert_snapshot(
        "ensure_accepted_and_received_files_created_on_new_test",
        None,
        &pretty(&sample),
    );

    assert!(check.create_accepted, "Accepted file should be created.");
    assert_eq!(check.accepted_path, accepted_file);
    assert!(check.write_received.is_some(), "Received file should be created.");
    assert_eq!(check.received_path, received_file);
}

#[test]
fn mismatch_writes_the_value_as_given() {
    let verify = VerifyTest::new("snaps");
    let text = "  {\n  \"age\": 23\n}\n";
    let check = verify.verify("t", Some(LEROY_20), text);
    assert_eq!(
        check,
        Check {
            matched: false,
            accepted_path: "snaps/t.accepted.json".to_string(),
            received_path: "snaps/t.received.json".to_string(),
            create_accepted: false,
            write_received: Some(text.to_string()),
        }
    );
}

#[test]
fn first_run_never_matches_a_value() {
    let verify = VerifyTest::new("snaps");
    for text in ["{}", "0", "\"\"", " null ", "[\n  1\n]"] {
        let check = verify.assert_snapshot("fresh", None, text);
        assert!(!check.matched);
        assert!(check.create_accepted);
        assert_eq!(check.write_received, Some(text.to_string()));
    }
}

#[test]
fn first_run_with_a_blank_value_matches_the_empty_baseline() {
    let verify = VerifyTest::new("snaps");
    let check = verify.assert_snapshot("blank", None, " \n");
    assert!(check.matched);
    assert!(check.create_accepted);
    assert_eq!(check.write_received, None);
}

#[test]
fn matching_check_can_be_repeated() {
    let verify = VerifyTest::new(VERIFY_DIR);
    let sample = SampleStruct { name: "Leroy".to_string(), age: 20 };
    let text = pretty(&sample);
    for _ in 0..2 {
        let check = verify.assert_snapshot("again", Some(LEROY_20), &text);
        assert!(check.matched);
        assert!(!check.create_accepted);
        assert_eq!(check.write_received, None);
    }
}

#[test]
fn whitespace_around_the_baseline_is_ignored() {
    let verify = VerifyTest::new("snaps");
    let json = "{\"a\": 1}";
    let accepted = format!("  {}  \n", json);
    let check = verify.assert_snapshot("t", Some(&accepted), json);
    assert!(check.matched);
    let check = verify.assert_snapshot("t", Some(json), &format!("\n{}\n\n", json));
    assert!(check.matched);
}

#[test]
fn whitespace_inside_the_baseline_counts() {
    let verify = VerifyTest::new("snaps");
    let check = verify.assert_snapshot("t", Some("{\"a\":1}"), "{\"a\": 1}");
    assert!(!check.matched);
}

#[test]
fn verify_and_assert_snapshot_agree() {
    let verify = VerifyTest::new("d");
    for (accepted, text) in [(None, "x"), (Some("x"), "x"), (Some("y"), "x"), (Some(" x"), "x ")] {
        assert_eq!(verify.verify("n", accepted, text), verify.assert_snapshot("n", accepted, text));
    }
}

#[test]
fn store_paths_follow_the_directory() {
    let with_slash = VerifyTest::new("out/");
    assert_eq!(with_slash.directory(), "out/");
    assert_eq!(with_slash.accepted_path("rect"), "out/rect.accepted.json");
    assert_eq!(with_slash.received_path("rect"), "out/rect.received.json");
    let without_slash = VerifyTest::new("out");
    assert_eq!(without_slash.accepted_path("rect"), "out/rect.accepted.json");
    let here = VerifyTest::new("");
    assert_eq!(here.received_path("rect"), "rect.received.json");
}

#[test]
fn rect_is_flagged_on_an_empty_baseline() {
    let verify = VerifyTest::new("base");
    let text = pretty(&Rect { width: 30, height: 40 });
    assert_eq!(text, "{\n  \"width\": 30,\n  \"height\": 40\n}");
    let check = verify.assert_snapshot("rect", None, &text);
    assert!(!check.matched);
    assert!(check.create_accepted);
    assert_eq!(check.received_path, "base/rect.received.json");
    assert_eq!(check.accepted_path, "base/rect.accepted.json");
    assert_eq!(check.write_received, Some(text));
}
