use deft::hash::{archive_filename, cached_archive_path, lookup, prebuilt_dir};
use deft::json::Json;
use deft::paths::Platform;
use deft::trace::{merge_unit, profile_document, summary_heading, top_bottlenecks, Bottleneck};

#[test]
fn lookup_misses_when_archive_absent_then_hits_after_store() {
    let home = "/home/u/.deft";
    let key = "deadbeefcafef00d";
    assert!(lookup(home, key, "mylib", Platform::Unix, &[]).is_none());
    let stored = cached_archive_path(home, key, "mylib", Platform::Unix);
    assert_eq!(stored, "/home/u/.deft/cache/prebuilt/deadbeefcafef00d/libmylib.a");
    assert_eq!(lookup(home, key, "mylib", Platform::Unix, &[stored.clone()]), Some(stored));
}

#[test]
fn archive_names_follow_the_platform() {
    assert_eq!(archive_filename("z", Platform::Unix), "libz.a");
    assert_eq!(archive_filename("z", Platform::Windows), "z.lib");
    assert_eq!(prebuilt_dir("/h", "k"), "/h/cache/prebuilt/k");
}

fn number(text: &str) -> Option<i64> {
    text.parse::<f64>().ok().map(|v| v as i64)
}

#[test]
fn aggregates_unit_traces_into_one_profile() {
    let a = Json::parse(
        r#"{"traceEvents": [{"pid":1,"tid":0,"ph":"X","ts":0,"dur":500,"name":"Source","args":{"detail":"a.h"}}]}"#,
        &number,
    )
    .unwrap();
    let b = Json::parse(
        r#"{"traceEvents": [{"pid":1,"tid":0,"ph":"X","ts":0,"dur":9000,"name":"InstantiateFunction","args":{"detail":"foo<int>"}},{"ph":"B","name":"skip"}]}"#,
        &number,
    )
    .unwrap();
    let mut merged = Vec::new();
    let mut bottlenecks = Vec::new();
    assert!(merge_unit(0, "main__cpp", &a, &mut merged, &mut bottlenecks));
    assert!(merge_unit(1, "util__cpp", &b, &mut merged, &mut bottlenecks));
    assert!(!merge_unit(2, "broken", &Json::Null, &mut merged, &mut bottlenecks));
    // 2 process_name metadata events + the 3 events of the units.
    assert_eq!(merged.len(), 5);
    assert_eq!(merged[4].render(), "{\"pid\":1,\"ph\":\"B\",\"name\":\"skip\"}");
    assert_eq!(
        merged[1].render(),
        "{\"pid\":0,\"tid\":0,\"ph\":\"X\",\"ts\":0,\"dur\":500,\"name\":\"Source\",\"args\":{\"detail\":\"a.h\"}}"
    );
    assert_eq!(
        merged[2].render(),
        "{\"pid\":1,\"tid\":0,\"ph\":\"M\",\"name\":\"process_name\",\"args\":{\"name\":\"util__cpp\"}}"
    );
    let top = top_bottlenecks(&bottlenecks);
    assert_eq!(top[0].detail, "foo<int>");
    assert_eq!(top[1].detail, "a.h");
    let doc = profile_document(merged).unwrap();
    assert!(doc.render().starts_with("{\"traceEvents\":[{\"pid\":0"));
    assert!(profile_document(Vec::new()).is_none());
}

#[test]
fn summary_shows_at_most_ten_slowest_first_with_stable_ties() {
    let bs: Vec<Bottleneck> = (0..12)
        .map(|i| Bottleneck {
            source_file: "u".to_string(),
            name: format!("n{i}"),
            detail: format!("d{i}"),
            dur_us: if i % 2 == 0 { 5 } else { i },
        })
        .collect();
    let top = top_bottlenecks(&bs);
    assert_eq!(top.len(), 10);
    let durs: Vec<i64> = top.iter().map(|b| b.dur_us).collect();
    assert_eq!(durs, vec![11, 9, 7, 5, 5, 5, 5, 5, 5, 5]);
    assert_eq!(top[3].name, "n0");
    assert_eq!(top[4].name, "n2");
    assert_eq!(summary_heading(1), "\x1b[1;36m    Profile\x1b[0m top 1 compilation bottleneck");
    assert_eq!(summary_heading(10), "\x1b[1;36m    Profile\x1b[0m top 10 compilation bottlenecks");
}

#[test]
fn every_event_of_a_unit_is_merged_under_its_pid() {
    let a = Json::parse(
        r#"{"traceEvents": [
            {"pid":7,"tid":3,"ph":"M","name":"thread_name","args":{"name":"main"}},
            {"pid":7,"tid":3,"ph":"X","ts":0,"dur":10,"name":"Frontend"},
            {"ph":"i","name":"mark","pid":7,"ts":4}
        ]}"#,
        &number,
    )
    .unwrap();
    let mut merged = Vec::new();
    let mut bottlenecks = Vec::new();
    assert!(merge_unit(0, "a", &a, &mut merged, &mut bottlenecks));
    // The process_name record plus all three events of the unit.
    assert_eq!(merged.len(), 4);
    assert_eq!(
        merged[1].render(),
        "{\"pid\":0,\"tid\":3,\"ph\":\"M\",\"name\":\"thread_name\",\"args\":{\"name\":\"main\"}}"
    );
    assert_eq!(merged[2].render(), "{\"pid\":0,\"tid\":0,\"ph\":\"X\",\"ts\":0,\"dur\":10,\"name\":\"Frontend\"}");
    assert_eq!(merged[3].render(), "{\"pid\":0,\"ph\":\"i\",\"name\":\"mark\",\"ts\":4}");
    // Only duration events with a detail are bottlenecks.
    assert!(bottlenecks.is_empty());
    let doc = profile_document(merged).unwrap();
    assert_eq!(doc.get("traceEvents").and_then(Json::as_array).map(|v| v.len()), Some(4));
}

#[test]
fn a_stored_archive_is_found_whatever_else_exists() {
    let stored = cached_archive_path("/h", "k", "z", Platform::Windows);
    assert_eq!(stored, "/h/cache/prebuilt/k/z.lib");
    let others = vec!["/h/cache/prebuilt/k/y.lib".to_string(), stored.clone()];
    assert_eq!(lookup("/h", "k", "z", Platform::Windows, &others), Some(stored));
    assert!(lookup("/h", "k", "z", Platform::Windows, &others[..1]).is_none());
}
