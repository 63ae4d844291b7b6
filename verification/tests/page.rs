use cargo_run_wasm::page::{check_css, page_template, render_page, GuardError};
use cargo_run_wasm::text::{contains, substitute};

#[test]
fn page_holds_name_and_style_and_no_placeholder() {
    let page = render_page("demo", "body{margin:0}");
    assert!(page.contains("demo"));
    assert!(page.contains("body{margin:0}"));
    assert_eq!(page.matches("{{name}}").count(), 0);
    assert_eq!(page.matches("{{css}}").count(), 0);
}

#[test]
fn page_is_the_template_filled_in() {
    assert_eq!(
        render_page("demo", "body{margin:0}"),
        "<!DOCTYPE html>\n<html>\n<head>\n<meta charset=\"utf-8\">\n<title>demo</title>\n\
         <style type=\"text/css\">\nbody{margin:0}\n</style>\n</head>\n<body>\n\
         <script type=\"module\">\nimport init from \"./demo.js\";\ninit();\n</script>\n\
         </body>\n</html>\n"
    );
}

#[test]
fn template_holds_both_placeholders() {
    let template = page_template();
    assert_eq!(template.matches("{{name}}").count(), 2);
    assert_eq!(template.matches("{{css}}").count(), 1);
}

#[test]
fn page_is_what_two_replacements_give() {
    for (name, css) in [
        ("demo", "body{margin:0}"),
        ("", ""),
        ("{{css}}", "x"),
        ("n", "{{name}}"),
        ("{{name}}", "{{css}}"),
        ("ünï", "a{b:\"é\"}"),
    ] {
        assert_eq!(
            render_page(name, css),
            page_template()
                .replace("{{name}}", name)
                .replace("{{css}}", css)
        );
    }
}

#[test]
fn style_sheet_is_not_read_for_the_name() {
    let page = render_page("demo", "{{name}}");
    assert_eq!(page.matches("{{name}}").count(), 1);
    assert_eq!(page.matches("demo").count(), 2);
}

#[test]
fn closing_style_tag_is_turned_down() {
    assert_eq!(check_css("</style>"), Err(GuardError::StyleEnd));
    assert_eq!(
        check_css("body{} </style><script>alert(1)</script>"),
        Err(GuardError::StyleEnd)
    );
    assert_eq!(check_css("a{}</style>"), Err(GuardError::StyleEnd));
}

#[test]
fn other_style_sheets_pass() {
    assert_eq!(check_css(""), Ok(()));
    assert_eq!(check_css("body { margin: 0px; }"), Ok(()));
    assert_eq!(check_css("</style"), Ok(()));
    assert_eq!(check_css("</ style>"), Ok(()));
    assert_eq!(check_css("</STYLE>"), Ok(()));
    assert_eq!(check_css("<style>"), Ok(()));
}

#[test]
fn guard_says_why() {
    assert_eq!(
        GuardError::StyleEnd.message(),
        "`</style>` detected in the css. This is disallowed to prevent injecting elements into the DOM."
    );
}

#[test]
fn substitute_takes_each_token_once_from_the_left() {
    assert_eq!(substitute("aaa", "aa", "b"), "ba");
    assert_eq!(substitute("aaaa", "aa", "b"), "bb");
    assert_eq!(substitute("abab", "ab", "abab"), "abababab");
    assert_eq!(substitute("xay", "a", ""), "xy");
    assert_eq!(substitute("", "a", "b"), "");
    assert_eq!(substitute("abc", "abcd", "x"), "abc");
    assert_eq!(substitute("abc", "abc", "x"), "x");
}

#[test]
fn substitute_leaves_the_text_for_an_empty_token() {
    assert_eq!(substitute("abc", "", "x"), "abc");
}

#[test]
fn substitute_does_what_replace_does() {
    let texts = ["", "a", "{{name}}", "x{{name}}y{{name}}", "{{{name}}}", "äö{{n}}ü", "{{nam{{name}}e}}"];
    let tokens = ["{{name}}", "{{n}}", "a", "{{", "ö"];
    let values = ["", "v", "{{name}}", "é"];
    for text in texts {
        for token in tokens {
            for value in values {
                assert_eq!(substitute(text, token, value), text.replace(token, value));
            }
        }
    }
}

#[test]
fn contains_finds_what_stands_in_the_text() {
    assert!(contains("abc", ""));
    assert!(contains("", ""));
    assert!(contains("abc", "abc"));
    assert!(contains("abc", "bc"));
    assert!(contains("aab", "ab"));
    assert!(!contains("abc", "abcd"));
    assert!(!contains("abc", "ac"));
    assert!(!contains("", "a"));
    assert!(contains("héllo", "éll"));
}
