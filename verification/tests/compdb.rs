use deft::compdb::{database_text, CompileCommandEntry};
use deft::json::Json;

fn number(text: &str) -> Option<i64> {
    text.parse::<i64>().ok()
}

#[test]
fn write_produces_the_clangd_schema() {
    let entries = vec![CompileCommandEntry {
        directory: "/proj".to_string(),
        file: "/proj/src/main.c".to_string(),
        arguments: vec![
            "clang".to_string(),
            "-c".to_string(),
            "-std=c17".to_string(),
            "src/main.c".to_string(),
        ],
    }];
    let content = database_text(&entries);

    let parsed = Json::parse(&content, &number).unwrap();
    let arr = parsed.as_array().unwrap();
    assert_eq!(arr.len(), 1);
    assert_eq!(arr[0].get("directory").and_then(Json::as_str), Some("/proj"));
    assert_eq!(arr[0].get("file").and_then(Json::as_str), Some("/proj/src/main.c"));
    let args = arr[0].get("arguments").and_then(Json::as_array).unwrap();
    assert_eq!(args.len(), 4);
    assert_eq!(args[0].as_str(), Some("clang"));
}

#[test]
fn write_overwrites_an_existing_file() {
    // The whole file is the database text: nothing of a stale file survives.
    assert_eq!(database_text(&[]), "[]");
}

#[test]
fn database_text_is_indented_for_people() {
    let entries = vec![CompileCommandEntry {
        directory: "/p".to_string(),
        file: "a.c".to_string(),
        arguments: vec!["clang".to_string()],
    }];
    assert_eq!(
        database_text(&entries),
        "[\n  {\n    \"directory\": \"/p\",\n    \"file\": \"a.c\",\n    \"arguments\": [\n      \"clang\"\n    ]\n  }\n]"
    );
}
