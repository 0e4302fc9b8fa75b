use semcode::file_survey::{
    fill_reference_counts, is_basic_type, reference_type_name, survey_source, survey_target,
    FileSurvey,
};
use semcode::names::NameMap;
use semcode::syntax::SurveyLanguage;
use semcode::text::normalize;

fn survey(path: &str, source: &str) -> FileSurvey {
    let (language, file) = survey_target("/work", path, true).unwrap();
    survey_source(language, path, file, source).unwrap()
}

#[test]
fn normalizing_leaves_one_space_between_words() {
    let once = normalize("  int\tf (\n void )  ");
    assert_eq!(once, "int f ( void )");
    assert_eq!(normalize(&once), once);
    assert_eq!(normalize(" \n"), "");
}

#[test]
fn surveys_c_syntax_deterministically() {
    let survey = survey(
        "/work/sample.c",
        r#"
struct item { int value; };
typedef unsigned long item_id, *item_ptr;
int declared(struct item *item);
int defined(struct item *item)
{
    helper(item);
    helper(item);
    item->ops->run(item);
    return 0;
}
"#,
    );
    assert_eq!(survey.file, "sample.c");
    assert_eq!(survey.functions_defined, vec![("defined".to_string(), 0)]);
    assert_eq!(
        survey.calls,
        vec![("helper".to_string(), 2), ("item->ops->run".to_string(), 1)]
    );
    assert_eq!(
        survey.types_defined,
        vec![
            ("struct item".to_string(), 0),
            ("item_id".to_string(), 0),
            ("item_ptr".to_string(), 0),
        ]
    );
    assert_eq!(survey.types_mentioned, vec![("struct item".to_string(), 2)]);
    assert_eq!(survey.parse_errors, 0);
    assert!(!survey.truncated);
}

#[test]
fn rejects_paths_outside_workspace() {
    let error = survey_target("/work", "/elsewhere/a.c", true).unwrap_err();
    assert!(error.contains("outside workspace"));
    let error = survey_target("/work", "/workshop/a.c", true).unwrap_err();
    assert!(error.contains("outside workspace"));
}

#[test]
fn refuses_what_is_no_source_file() {
    assert_eq!(
        survey_target("/work", "/work/dir.c", false).unwrap_err(),
        "'/work/dir.c' is not a regular file"
    );
    assert_eq!(
        survey_target("/work", "/work/notes.txt", true).unwrap_err(),
        "unsupported source file '/work/notes.txt'; expected C, C++, Rust, Python, or Zig"
    );
    let (language, file) = survey_target("/", "/src/lib.rs", true).unwrap();
    assert_eq!(language, SurveyLanguage::Rust);
    assert_eq!(file, "src/lib.rs");
}

#[test]
fn returns_more_than_500_unique_entries() {
    let calls = (0..600)
        .map(|index| format!("    function_{index}();\n"))
        .collect::<String>();
    let survey = survey(
        "/work/large.c",
        &format!("void survey(void)\n{{\n{calls}}}\n"),
    );
    assert_eq!(survey.calls.len(), 600);
    assert_eq!(survey.calls.first().unwrap().0, "function_0");
    assert_eq!(survey.calls.last().unwrap().0, "function_99");
    assert!(!survey.truncated);
}

#[test]
fn omits_basic_types() {
    for name in [
        "int",
        "unsigned long",
        "unsigned long long",
        "u8",
        "u64",
        "int32_t",
        "__u32",
        "size_t",
        "ssize_t",
        "off_t",
        "loff_t",
    ] {
        assert!(is_basic_type(SurveyLanguage::C, name), "{name}");
    }
    for name in ["u8", "i64", "usize", "bool", "char", "f32"] {
        assert!(is_basic_type(SurveyLanguage::Rust, name), "{name}");
    }
    for name in ["int", "float", "str", "bytes", "None"] {
        assert!(is_basic_type(SurveyLanguage::Python, name), "{name}");
    }
    for name in ["u8", "i3", "usize", "bool", "f32", "anyerror", "void"] {
        assert!(is_basic_type(SurveyLanguage::Zig, name), "{name}");
    }
    for name in ["struct folio", "vm_fault_t", "sector_t"] {
        assert!(!is_basic_type(SurveyLanguage::C, name), "{name}");
    }
    for name in ["Allocator", "Io"] {
        assert!(!is_basic_type(SurveyLanguage::Zig, name), "{name}");
    }
}

#[test]
fn surveys_zig_syntax_deterministically() {
    let survey = survey(
        "/work/sample.zig",
        r#"
const Point = struct {
    x: i32,
    y: i32,
};

const Bits = packed union(u2) {
    a: i2,
    b: u2,
};

const Width = @Int(.unsigned, 10);

pub fn add(a: i32, b: i32) i32 {
    return helper(a) + b;
}

fn helper(v: i32) i32 {
    return v;
}

test "add" {
    _ = add(1, 2);
}
"#,
    );
    assert_eq!(survey.file, "sample.zig");
    assert!(survey.functions_defined.iter().any(|(n, _)| n == "add"));
    assert!(survey.functions_defined.iter().any(|(n, _)| n == "helper"));
    assert!(survey.functions_defined.iter().any(|(n, _)| n == "\"add\""));
    assert!(survey.calls.iter().any(|(n, _)| n == "helper"));
    assert!(survey.calls.iter().any(|(n, _)| n == "add"));
    assert!(survey.types_defined.iter().any(|(n, _)| n == "Point"));
    assert!(survey.types_defined.iter().any(|(n, _)| n == "Bits"));
    assert!(survey.types_defined.iter().any(|(n, _)| n == "Width"));
    assert_eq!(survey.parse_errors, 0);
}

#[test]
fn surveys_rust_syntax() {
    let survey = survey(
        "/work/src/lib.rs",
        "struct Point { x: i32 }\ntype Alias = Point;\nfn make() -> Point {\n    other(1)\n}\n",
    );
    assert_eq!(survey.file, "src/lib.rs");
    assert_eq!(survey.functions_defined, vec![("make".to_string(), 0)]);
    assert_eq!(survey.calls, vec![("other".to_string(), 1)]);
    assert_eq!(
        survey.types_defined,
        vec![("struct Point".to_string(), 0), ("Alias".to_string(), 0)]
    );
    assert_eq!(survey.types_mentioned, vec![("Point".to_string(), 1)]);
}

#[test]
fn surveys_python_syntax() {
    let survey = survey(
        "/work/a.py",
        "class Shape:\n    def area(self, other: Shape) -> int:\n        return compute(self)\n",
    );
    assert_eq!(survey.functions_defined, vec![("area".to_string(), 0)]);
    assert_eq!(survey.calls, vec![("compute".to_string(), 1)]);
    assert_eq!(survey.types_defined, vec![("class Shape".to_string(), 0)]);
    assert_eq!(survey.types_mentioned, vec![("Shape".to_string(), 1)]);
}

#[test]
fn counts_errors_of_broken_sources() {
    let survey = survey("/work/broken.c", "int f( {\n");
    assert!(survey.parse_errors > 0);
}

#[test]
fn reference_counts_go_to_the_names_they_are_for() {
    let found = survey(
        "/work/a.c",
        "struct item { int v; };\nvoid f(void) {}\nvoid g(void) {}\n",
    );
    let mut functions = NameMap::new();
    functions.insert("f".to_string(), 3);
    let mut types = NameMap::new();
    types.insert("item".to_string(), 5);
    let filled = fill_reference_counts(found, &functions, &types);
    assert_eq!(
        filled.functions_defined,
        vec![("f".to_string(), 3), ("g".to_string(), 0)]
    );
    assert_eq!(filled.types_defined, vec![("struct item".to_string(), 5)]);
}

#[test]
fn types_are_referred_to_by_their_bare_name() {
    assert_eq!(reference_type_name("struct a"), "a");
    assert_eq!(reference_type_name("union a"), "a");
    assert_eq!(reference_type_name("enum a"), "a");
    assert_eq!(reference_type_name("class a"), "a");
    assert_eq!(reference_type_name("a"), "a");
    assert_eq!(reference_type_name("struct struct a"), "struct a");
}
