use musimanager::service::python;
use musimanager::service::python::code::{append_code, fix_code_indentation};
use musimanager::service::text::{last_path_segment, str_contains};

#[test]
fn code_indentation_is_fixed_by_the_first_line_and_blank_lines_dropped() {
    let code = "\n    a = 1\n\n      b = 2\n    return a\n  ";
    assert_eq!(fix_code_indentation(code), "a = 1\n  b = 2\nreturn a\n");
    assert_eq!(fix_code_indentation("   \n  \n"), "");
}

#[test]
fn module_fix_keeps_blank_lines() {
    assert_eq!(python::fix_code_indentation("\n    a\n\n    b"), "\na\n\nb\n");
    assert_eq!(python::fix_code_indentation(""), "");
}

#[test]
fn code_is_appended_line_by_line() {
    assert_eq!(append_code("a\nb", "c"), "a\nb\nc");
    assert_eq!(append_code("a\n", "b\n"), "a\nb");
    assert_eq!(python::append_code("x".to_string(), "y\nz".to_string()), "x\ny\nz");
}

#[test]
fn last_path_segment_ignores_a_final_slash() {
    assert_eq!(last_path_segment("/home/user/music"), "music");
    assert_eq!(last_path_segment("/home/user/music/"), "music");
    assert_eq!(last_path_segment("song.mp3"), "song.mp3");
    assert_eq!(last_path_segment("/"), "");
}

#[test]
fn substrings_are_found() {
    assert!(str_contains("\x1b[?62;4;6c", ";4;"));
    assert!(!str_contains("\x1b[?62;6c", ";4;"));
    assert!(str_contains("abc", ""));
    assert!(!str_contains("ab", "abc"));
}

#[test]
fn dedenting_twice_is_dedenting_once() {
    let code = "\n        x = 1\n\n          if x:\n            y = 2\n    ";
    let once = fix_code_indentation(code);
    assert_eq!(once, "x = 1\n  if x:\n    y = 2\n");
    assert_eq!(fix_code_indentation(&once), once);
}
