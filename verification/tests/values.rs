use domino::captures::{copy_group, copy_group_text};
use domino::files::FileTree;
use domino::json_text::{find_field_text, list_members, repeats_key};
use domino::paths::{
    are_components_less, file_name, join, normalize, parent, place_of, split_components,
    split_path, starts_with, strip_prefix, strip_prefix_or_self, tidied,
};
use domino::report::escape::{
    escape_script_close, html_escape, js_str, sanitize_node_id, url_encode_svg,
};
use domino::report::times::{
    format_relative_time, format_relative_time_at, signed_decimal_of, time_of_clock, unix_now,
};
use domino::text::{align_right, decimal_of, format_number, is_less, parse_number, parse_u64};

#[test]
fn numbers_read_back_as_they_are_written() {
    for n in [0u64, 7, 10, 999, 1000, 4294967296, u64::MAX] {
        assert_eq!(parse_u64(&decimal_of(n)), Some(n));
        assert_eq!(format_number(n).replace(',', ""), decimal_of(n));
    }
    assert_eq!(parse_u64("18446744073709551616"), None);
    assert_eq!(parse_u64("+5"), Some(5));
    assert_eq!(parse_number(""), None);
    assert_eq!(parse_number("-1"), None);
}

#[test]
fn numbers_have_a_comma_before_each_group_of_three() {
    assert_eq!(format_number(0), "0");
    assert_eq!(format_number(999), "999");
    assert_eq!(format_number(1000), "1,000");
    assert_eq!(format_number(1234567), "1,234,567");
    assert_eq!(align_right("12", 5), "   12");
    assert_eq!(align_right("123456", 5), "123456");
}

#[test]
fn normal_paths_stay_as_they_are() {
    for p in ["/a/b", "a/../b/./c", "../x", "/..", "", "a//b/"] {
        assert_eq!(normalize(&normalize(p)), normalize(p));
    }
    assert_eq!(normalize("/a/./b/../c"), "/a/c");
    assert_eq!(normalize("../a"), "a");
}

#[test]
fn taking_a_directory_away_undoes_joining_it() {
    assert_eq!(join("/repo", "src/a.ts"), "/repo/src/a.ts");
    assert_eq!(strip_prefix(&join("/repo", "src/a.ts"), "/repo"), Some("src/a.ts".to_string()));
    assert_eq!(strip_prefix(&join("/repo/", "src"), "/repo/"), Some("src".to_string()));
    assert_eq!(strip_prefix("/other/a.ts", "/repo"), None);
    assert_eq!(strip_prefix("/repository/a.ts", "/repo"), None);
    assert_eq!(strip_prefix_or_self("/other/a.ts", "/repo"), "/other/a.ts");
    assert_eq!(join("/repo", "/abs"), "/abs");
    assert!(starts_with("/repo/src", "/repo"));
}

#[test]
fn parts_of_paths() {
    assert_eq!(parent("/a/b.ts"), Some("/a".to_string()));
    assert_eq!(parent("b.ts"), Some(String::new()));
    assert_eq!(parent("/"), None);
    assert_eq!(file_name("a/b.ts"), Some("b.ts".to_string()));
    assert_eq!(file_name("a/.."), None);
    assert_eq!(split_path("./a//b/./c"), vec![".", "a", "b", "c"]);
}

#[test]
fn paths_are_ordered_by_their_components() {
    let less = |a: &str, b: &str| are_components_less(&split_components(a), &split_components(b));
    assert!(less("a/b", "a-b"));
    assert!(is_less("a-b", "a/b"));
    assert!(less("a", "a/b"));
    assert!(less("/z", "a"));
    assert!(less("./z", "../a"));
    assert!(less("../z", "a"));
    assert!(!less("a//b", "a/b"));
    assert!(!less("a/b", "a//b"));
}

#[test]
fn times_are_told_in_words() {
    let now = 10_000_000;
    let at = |ago: i64| format_relative_time_at(now - ago, now);
    assert_eq!(at(-5), "just now");
    assert_eq!(at(44), "just now");
    assert_eq!(at(45), "a minute ago");
    assert_eq!(at(90), "1 minutes ago");
    assert_eq!(at(60 * 45 - 1), "44 minutes ago");
    assert_eq!(at(60 * 45), "an hour ago");
    assert_eq!(at(60 * 90), "1 hours ago");
    assert_eq!(at(60 * 60 * 22), "yesterday");
    assert_eq!(at(60 * 60 * 36), "1 days ago");
    assert_eq!(at(60 * 60 * 24 * 7), "9395200 (run timestamp)");
    assert_eq!(signed_decimal_of(i64::MIN), "-9223372036854775808");
    assert_eq!(time_of_clock(Some(5)), 5);
    assert_eq!(time_of_clock(None), 0);
    assert_eq!(time_of_clock(Some(u64::MAX)), i64::MAX);
    assert!(unix_now() > 1_600_000_000);
}

#[test]
fn texts_are_escaped_for_where_they_stand() {
    assert_eq!(html_escape("<a href=\"x\">'&'</a>"), "&lt;a href=&quot;x&quot;&gt;&#39;&amp;&#39;&lt;/a&gt;");
    assert_eq!(url_encode_svg("<a b=\"#1%\">"), "%3Ca b=%22%231%25%22%3E");
    assert_eq!(sanitize_node_id("@scope/my-lib"), "scope_my_lib");
    assert_eq!(escape_script_close("</script></b>"), "<\\/script><\\/b>");
    assert_eq!(js_str("a\"b\\c\n\u{1}</x"), "\"a\\\"b\\\\c\\n\\u0001<\\/x\"");
}

#[test]
fn groups_beyond_the_last_capture_nothing() {
    let groups = vec![Some((3, "whole".to_string())), None];
    assert_eq!(copy_group(&groups, 0), Some((3, "whole".to_string())));
    assert_eq!(copy_group_text(&groups, 0), Some("whole".to_string()));
    assert_eq!(copy_group_text(&groups, 1), None);
    assert_eq!(copy_group_text(&groups, 2), None);
}

#[test]
fn times_long_before_the_epoch_are_told_by_their_number() {
    let week = 7 * 24 * 60 * 60;
    assert_eq!(format_relative_time(-week), format!("{} (run timestamp)", -week));
    assert_eq!(format_relative_time(i64::MIN), "-9223372036854775808 (run timestamp)");
}

#[test]
fn places_keep_the_way_out() {
    assert_eq!(place_of("../a"), "../a");
    assert_eq!(place_of("a/../../b/./c"), "../b/c");
    assert_eq!(place_of("../../x/.."), "../..");
    assert_eq!(place_of("/../a/"), "/a");
    assert_eq!(place_of("./"), "");
    for p in ["/a/b", "a/../b/./c", "../x", "/..", "", "a//b/", "../../a/.."] {
        assert_eq!(place_of(&place_of(p)), place_of(p));
    }
    assert_eq!(place_of("/a/./b/../c"), normalize("/a/./b/../c"));

    let mut tree = FileTree::new();
    tree.add_file("./y", Some("inside".to_string()));
    assert_eq!(tree.read("y"), Some("inside"));
    assert_eq!(tree.read("a/../y"), Some("inside"));
    assert_eq!(tree.read("../y"), None);
    tree.add_file("../y", Some("outside".to_string()));
    assert_eq!(tree.read("a/../../y"), Some("outside"));
    assert_eq!(tree.read("y"), Some("inside"));
}

#[test]
fn paths_with_the_same_segments_are_the_same() {
    for p in ["a/b", "a//b", "a/./b", "a/b/", "a/b/."] {
        assert_eq!(tidied(p), "a/b");
    }
    assert_eq!(tidied("./a"), "./a");
    assert_eq!(tidied("././a"), "./a");
    assert_eq!(tidied("/./a//"), "/a");
    assert_eq!(tidied("a/../b"), "a/../b");
    assert_eq!(tidied(""), "");
    assert_eq!(tidied("/"), "/");
}

#[test]
fn members_are_listed_as_the_text_has_them() {
    let list = |s: &str| -> Vec<(String, String)> {
        list_members(s).into_iter().map(|(k, v)| (k, v.trim().to_string())).collect()
    };
    let member = |k: &str, v: &str| (k.to_string(), v.to_string());
    assert_eq!(
        list(r#" { "a" : [1, {"x": 2}], "b": "}, \"a\": ]", "a": null } "#),
        vec![member("a", r#"[1, {"x": 2}]"#), member("b", r#""}, \"a\": ]""#), member("a", "null")]
    );
    assert_eq!(list(r#"{"\u0061\\": ":", "": {}}"#), vec![member("a\\", r#"":""#), member("", "{}")]);
    assert_eq!(list("{}"), vec![]);
    assert_eq!(list("{ \n }"), vec![]);
    assert_eq!(list(r#"["a", {"a": 1}]"#), vec![]);
    assert_eq!(list("1"), vec![]);
    assert!(repeats_key(r#"{"a": {"a": 1}, "\u0061": 2}"#, "a"));
    assert!(!repeats_key(r#"{"a": {"b": 1, "b": 2}, "b": 2}"#, "b"));
    assert!(!repeats_key(r#"["a", "a"]"#, "a"));
    assert_eq!(find_field_text(r#"{"a":1,"a":2}"#, "a", 0), Some("2".to_string()));
    assert_eq!(find_field_text(r#"[1,[2,3]]"#, "a", 1), Some("[2,3]".to_string()));
    assert_eq!(find_field_text(r#"[1,[2,3]]"#, "a", 2), None);
    assert_eq!(find_field_text(r#"{"a":1}"#, "b", 0), None);
}
