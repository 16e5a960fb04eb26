use noseyparker_rules::path_order::{rule_file_order, WalkEntry};
use noseyparker_rules::rules::{DirectoryListing, FileContents, IoFailure, LoadError, Rules, Source};
use noseyparker_rules::yaml::{parse_rules_document, ParseProblem};
use serde_yaml::Value;

fn buffer(path: &str, text: &str) -> (String, Vec<u8>) {
    (path.to_string(), text.as_bytes().to_vec())
}

fn file(path: &str, text: &str) -> FileContents {
    FileContents { path: path.to_string(), contents: Ok(text.as_bytes().to_vec()) }
}

fn entry(path: &str, is_dir: bool) -> WalkEntry {
    WalkEntry { path: path.to_string(), is_dir }
}

fn rule_ids(rules: &Rules) -> Vec<String> {
    rules
        .iter()
        .map(|r| r.get("id").and_then(|v| v.as_str()).unwrap_or("").to_string())
        .collect()
}

const TWO_RULES: &str = "rules:\n  - id: one\n    pattern: 'a+'\n  - id: two\n    pattern: 'b+'\n";

#[test]
fn new_collection_is_empty() {
    let rules = Rules::new();
    assert_eq!(rules.len(), 0);
    assert!(rules.is_empty());
    assert_eq!(rules.iter().count(), 0);
    let d = Rules::default();
    assert!(d.is_empty());
}

#[test]
fn document_records_keep_their_order() {
    let rules = Rules::from_paths_and_contents(&[buffer("default.yml", TWO_RULES)]).ok().unwrap();
    assert_eq!(rules.len(), 2);
    assert!(!rules.is_empty());
    assert_eq!(rule_ids(&rules), vec!["one", "two"]);
}

#[test]
fn records_are_the_documents_values() {
    let rules = parse_rules_document(TWO_RULES.as_bytes()).ok().unwrap();
    let expected: Value = serde_yaml::from_str("id: two\npattern: 'b+'\n").unwrap();
    assert_eq!(rules[1], expected);
}

#[test]
fn buffers_merge_in_order() {
    let items = [buffer("x.yml", TWO_RULES), buffer("y.yml", "rules:\n  - id: three\n")];
    let rules = Rules::from_paths_and_contents(&items).ok().unwrap();
    assert_eq!(rule_ids(&rules), vec!["one", "two", "three"]);
}

#[test]
fn extend_appends_after_existing_rules() {
    let mut a = Rules::from_paths_and_contents(&[buffer("a", "rules:\n  - id: a\n")]).ok().unwrap();
    let b = Rules::from_paths_and_contents(&[buffer("b", TWO_RULES)]).ok().unwrap();
    a.extend(b);
    assert_eq!(rule_ids(&a), vec!["a", "one", "two"]);
}

#[test]
fn rules_not_a_list_is_a_parse_error_naming_the_file() {
    let r = Rules::from_yaml_file(&file("bad/rules.yaml", "rules: \"not-a-list\"\n"));
    match r {
        Err(LoadError::Parse { path, problem }) => {
            assert_eq!(path, "bad/rules.yaml");
            assert!(matches!(problem, ParseProblem::RulesNotASequence));
        }
        _ => panic!("expected a parse error"),
    }
}

#[test]
fn malformed_yaml_is_a_syntax_error() {
    let r = Rules::from_paths_and_contents(&[buffer("broken.yml", "rules: [unclosed\n")]);
    match r {
        Err(LoadError::Parse { path, problem: ParseProblem::Syntax { message } }) => {
            assert_eq!(path, "broken.yml");
            assert!(!message.is_empty());
        }
        _ => panic!("expected a syntax error"),
    }
}

#[test]
fn root_that_is_no_mapping_is_rejected() {
    let r = parse_rules_document(b"- id: one\n");
    assert!(matches!(r, Err(ParseProblem::NotAMapping)));
}

#[test]
fn mapping_without_rules_is_rejected() {
    let r = parse_rules_document(b"other: 1\n");
    assert!(matches!(r, Err(ParseProblem::MissingRules)));
}

#[test]
fn empty_rules_list_is_an_empty_collection() {
    let r = parse_rules_document(b"rules: []\n").ok().unwrap();
    assert_eq!(r.len(), 0);
}

#[test]
fn unreadable_file_is_an_io_error() {
    let f = FileContents { path: "gone.yaml".to_string(), contents: Err("not found".to_string()) };
    match Rules::from_yaml_file(&f) {
        Err(LoadError::Io { path, message }) => {
            assert_eq!(path, "gone.yaml");
            assert_eq!(message, "not found");
        }
        _ => panic!("expected an I/O error"),
    }
}

#[test]
fn first_failing_file_decides_the_error() {
    let files = [
        file("a.yaml", TWO_RULES),
        file("b.yaml", "rules: 7\n"),
        FileContents { path: "c.yaml".to_string(), contents: Err("denied".to_string()) },
    ];
    match Rules::from_yaml_files(&files) {
        Err(LoadError::Parse { path, .. }) => assert_eq!(path, "b.yaml"),
        _ => panic!("expected the error of b.yaml"),
    }
}

#[test]
fn failed_walk_is_an_io_error() {
    let dir = DirectoryListing {
        path: "rules".to_string(),
        files: Err(IoFailure { path: "rules/sub".to_string(), message: "denied".to_string() }),
    };
    assert!(matches!(Rules::from_directory(&dir), Err(LoadError::Io { .. })));
}

#[test]
fn directory_files_load_in_sorted_order() {
    let entries = [
        entry("d", true),
        entry("d/c.yaml", false),
        entry("d/a.yaml", false),
        entry("d/b.yaml", false),
    ];
    let order = rule_file_order(&entries);
    assert_eq!(order, vec!["d/a.yaml", "d/b.yaml", "d/c.yaml"]);
    let files: Vec<FileContents> = order
        .iter()
        .map(|p| file(p, &format!("rules:\n  - id: {}\n", &p[2..3])))
        .collect();
    let dir = DirectoryListing { path: "d".to_string(), files: Ok(files) };
    let rules = Rules::from_directory(&dir).ok().unwrap();
    assert_eq!(rule_ids(&rules), vec!["a", "b", "c"]);
}

#[test]
fn walk_order_does_not_change_the_load_order() {
    let one = [entry("r/b.yml", false), entry("r/a.yml", false), entry("r/s/x.yml", false)];
    let two = [entry("r/s/x.yml", false), entry("r/b.yml", false), entry("r/a.yml", false)];
    assert_eq!(rule_file_order(&one), rule_file_order(&two));
}

#[test]
fn paths_sort_by_component() {
    let entries = [entry("a.b", false), entry("a/b", false), entry("a-c", false)];
    assert_eq!(rule_file_order(&entries), vec!["a/b", "a-c", "a.b"]);
}

#[test]
fn empty_directory_yields_no_rules() {
    let entries = [entry("empty", true), entry("empty/sub", true)];
    assert!(rule_file_order(&entries).is_empty());
    let dir = DirectoryListing { path: "empty".to_string(), files: Ok(Vec::new()) };
    let rules = Rules::from_directory(&dir).ok().unwrap();
    assert_eq!(rules.len(), 0);
    assert!(rules.is_empty());
}

#[test]
fn directory_count_is_sum_of_file_counts() {
    let files = vec![
        file("d/a.yaml", TWO_RULES),
        file("d/b.yaml", "rules:\n  - id: x\n"),
        file("d/c.yaml", "rules: []\n"),
    ];
    let mut total = 0;
    for f in &files {
        total += Rules::from_yaml_file(f).ok().unwrap().len();
    }
    let dir = DirectoryListing { path: "d".to_string(), files: Ok(files) };
    assert_eq!(Rules::from_directory(&dir).ok().unwrap().len(), total);
    assert_eq!(total, 3);
}

#[test]
fn missing_path_fails_the_whole_load() {
    let dir = DirectoryListing { path: "valid".to_string(), files: Ok(vec![file("valid/a.yaml", TWO_RULES)]) };
    let sources = [Source::Directory(dir), Source::Other { path: "/path/does/not/exist".to_string() }];
    match Rules::from_paths(&sources) {
        Err(LoadError::InvalidInput { path }) => assert_eq!(path, "/path/does/not/exist"),
        _ => panic!("expected invalid input"),
    }
}

#[test]
fn mixed_sources_merge_in_order() {
    let dir = DirectoryListing { path: "d".to_string(), files: Ok(vec![file("d/a.yaml", "rules:\n  - id: a\n")]) };
    let sources = [Source::File(file("f.yaml", TWO_RULES)), Source::Directory(dir)];
    let rules = Rules::from_paths(&sources).ok().unwrap();
    assert_eq!(rule_ids(&rules), vec!["one", "two", "a"]);
}

#[test]
fn no_sources_give_an_empty_collection() {
    let rules = Rules::from_paths(&[]).ok().unwrap();
    assert!(rules.is_empty());
}

#[test]
fn document_round_trips_through_the_envelope() {
    let first = parse_rules_document(TWO_RULES.as_bytes()).ok().unwrap();
    let mut envelope = serde_yaml::Mapping::new();
    envelope.insert(Value::String("rules".to_string()), Value::Sequence(first.clone()));
    let text = serde_yaml::to_string(&Value::Mapping(envelope)).unwrap();
    let second = parse_rules_document(text.as_bytes()).ok().unwrap();
    assert_eq!(second.len(), first.len());
    assert_eq!(second, first);
}

#[test]
fn into_iter_hands_out_rules_in_order() {
    let rules = Rules::from_paths_and_contents(&[buffer("r.yml", TWO_RULES)]).ok().unwrap();
    let values: Vec<Value> = rules.into_iter().collect();
    assert_eq!(values.len(), 2);
    assert_eq!(values[0].get("id").and_then(|v| v.as_str()), Some("one"));
}
