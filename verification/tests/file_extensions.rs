use semcode::file_extensions::{
    default_extensions, default_extensions_string, is_c_cpp_file, is_python_file,
    is_supported_for_analysis, is_zig_file, supported_extensions,
};

#[test]
fn test_supported_extensions() {
    let exts = supported_extensions();
    assert!(exts.contains(&"c".to_string()));
    assert!(exts.contains(&"rs".to_string()));
    assert!(exts.contains(&"cpp".to_string()));
    assert!(exts.contains(&"zig".to_string()));
}

#[test]
fn test_default_extensions() {
    let exts = default_extensions();
    assert_eq!(exts, vec!["c", "h", "rs", "zig"]);
}

#[test]
fn test_default_extensions_string() {
    assert_eq!(default_extensions_string(), "c,h,rs,zig");
}

#[test]
fn test_is_supported_for_analysis() {
    assert!(is_supported_for_analysis("test.c"));
    assert!(is_supported_for_analysis("test.rs"));
    assert!(is_supported_for_analysis("test.cpp"));
    assert!(is_supported_for_analysis("test.hpp"));
    assert!(is_supported_for_analysis("test.py"));
    assert!(is_supported_for_analysis("test.zig"));
    assert!(!is_supported_for_analysis("test.txt"));
}

#[test]
fn test_is_c_cpp_file() {
    assert!(is_c_cpp_file("test.c"));
    assert!(is_c_cpp_file("test.h"));
    assert!(is_c_cpp_file("test.cpp"));
    assert!(is_c_cpp_file("test.hpp"));
    assert!(is_c_cpp_file("test.cxx"));
    assert!(is_c_cpp_file("test.hxx"));
    assert!(!is_c_cpp_file("test.rs"));
    assert!(!is_c_cpp_file("test.py"));
    assert!(!is_c_cpp_file("test.zig"));
}

#[test]
fn test_is_python_file() {
    assert!(is_python_file("test.py"));
    assert!(!is_python_file("test.c"));
    assert!(!is_python_file("test.rs"));
    assert!(!is_python_file("test.txt"));
}

#[test]
fn test_is_zig_file() {
    assert!(is_zig_file("test.zig"));
    assert!(!is_zig_file("test.c"));
    assert!(!is_zig_file("test.rs"));
    assert!(!is_zig_file("test.zon"));
}

#[test]
fn the_extension_is_that_of_the_last_component() {
    assert!(is_supported_for_analysis("dir.txt/main.c"));
    assert!(!is_supported_for_analysis("dir.c/README"));
    assert!(is_supported_for_analysis("dir/main.c/"));
    assert!(is_supported_for_analysis("dir/main.c/."));
    assert!(!is_supported_for_analysis("main.c/.."));
    assert!(!is_supported_for_analysis(".c"));
    assert!(!is_supported_for_analysis("main."));
    assert!(is_supported_for_analysis("a.b.c"));
    assert!(!is_supported_for_analysis(""));
}

#[test]
fn every_default_extension_is_supported() {
    for extension in default_extensions() {
        assert!(is_supported_for_analysis(&format!("x.{extension}")));
    }
}
