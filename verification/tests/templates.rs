use pmt::models::Template;
use pmt::templates::{
    load_templates, parse_heading, parse_templates, trim_trailing_newline, NO_TEMPLATES,
};

fn pairs(templates: &[Template]) -> Vec<(&str, &str)> {
    templates.iter().map(|t| (t.name.as_str(), t.body.as_str())).collect()
}

fn sections_by_std(content: &str) -> Vec<(String, String)> {
    let mut out: Vec<(String, String)> = Vec::new();
    for line in content.lines() {
        let title = line
            .strip_prefix("##")
            .filter(|rest| rest.starts_with(' ') || rest.starts_with('\t'))
            .map(|rest| rest.trim())
            .filter(|title| !title.is_empty());
        match title {
            Some(title) => out.push((title.to_string(), String::new())),
            None => {
                if let Some(last) = out.last_mut() {
                    last.1.push_str(line);
                    last.1.push('\n');
                }
            }
        }
    }
    for section in out.iter_mut() {
        let body = section.1.strip_suffix('\n').unwrap_or(&section.1);
        let body = body.strip_suffix('\r').unwrap_or(body);
        section.1 = body.to_string();
    }
    out
}

#[test]
fn heading_needs_two_hashes_and_a_blank() {
    assert_eq!(parse_heading("## Title"), Some(String::from("Title")));
    assert_eq!(parse_heading("##\tTitle"), Some(String::from("Title")));
    assert_eq!(parse_heading("##   A / B  "), Some(String::from("A / B")));
    assert_eq!(parse_heading("##Title"), None);
    assert_eq!(parse_heading("# Title"), None);
    assert_eq!(parse_heading("### Title"), None);
    assert_eq!(parse_heading(" ## Title"), None);
    assert_eq!(parse_heading("##"), None);
    assert_eq!(parse_heading("## "), None);
    assert_eq!(parse_heading("## \t "), None);
    assert_eq!(parse_heading(""), None);
    assert_eq!(parse_heading("##\u{a0}Title"), None);
    assert_eq!(parse_heading("## 示例/问候"), Some(String::from("示例/问候")));
    assert_eq!(parse_heading("## ## x"), Some(String::from("## x")));
}

#[test]
fn trailing_newline_is_taken_off_once() {
    assert_eq!(trim_trailing_newline("abc\n"), "abc");
    assert_eq!(trim_trailing_newline("abc\r\n"), "abc");
    assert_eq!(trim_trailing_newline("abc\n\n"), "abc\n");
    assert_eq!(trim_trailing_newline("abc\r"), "abc");
    assert_eq!(trim_trailing_newline("abc\n\r"), "abc\n");
    assert_eq!(trim_trailing_newline("abc\r\r\n"), "abc\r");
    assert_eq!(trim_trailing_newline("abc"), "abc");
    assert_eq!(trim_trailing_newline(""), "");
    assert_eq!(trim_trailing_newline("\n"), "");
    assert_eq!(trim_trailing_newline("\r\n"), "");
    assert_eq!(trim_trailing_newline("多字节\n"), "多字节");
}

#[test]
fn one_template() {
    let templates = parse_templates("## A\nbody\n");
    assert_eq!(pairs(&templates), vec![("A", "body")]);
}

#[test]
fn two_templates_and_text_before() {
    let templates = parse_templates("intro\n\n## A\nline 1\nline 2\n\n## B/C\nother\n");
    assert_eq!(pairs(&templates), vec![("A", "line 1\nline 2\n"), ("B/C", "other")]);
}

#[test]
fn no_heading_no_template() {
    assert!(parse_templates("").is_empty());
    assert!(parse_templates("just\ntext\n").is_empty());
    assert!(parse_templates("##nothing\n# one\n### three\n").is_empty());
}

#[test]
fn heading_without_body() {
    assert_eq!(pairs(&parse_templates("## A")), vec![("A", "")]);
    assert_eq!(pairs(&parse_templates("## A\n## B\n")), vec![("A", ""), ("B", "")]);
}

#[test]
fn body_keeps_inner_blank_lines_and_loses_one_line_end() {
    assert_eq!(pairs(&parse_templates("## A\n\n\nx\n\n\n")), vec![("A", "\n\nx\n\n")]);
    assert_eq!(pairs(&parse_templates("## A\nx")), vec![("A", "x")]);
}

#[test]
fn carriage_returns_before_line_feeds_are_dropped() {
    assert_eq!(pairs(&parse_templates("## A\r\nx\r\ny\r\n")), vec![("A", "x\ny")]);
    assert_eq!(pairs(&parse_templates("## A\r\nx\ry\r\n")), vec![("A", "x\ry")]);
}

#[test]
fn default_source() {
    let content = "## 示例/问候\n写一封给 {name|收件人} 的简短问候邮件，主题是 {topic|主题}。\n\n## 示例/评审/检查清单\n请评审 {area|模块}，并列出 {random|\"安全\" \"性能\" \"可用性\"} 风险。\n";
    let templates = parse_templates(content);
    assert_eq!(
        pairs(&templates),
        vec![
            ("示例/问候", "写一封给 {name|收件人} 的简短问候邮件，主题是 {topic|主题}。\n"),
            ("示例/评审/检查清单", "请评审 {area|模块}，并列出 {random|\"安全\" \"性能\" \"可用性\"} 风险。"),
        ]
    );
}

#[test]
fn parsing_agrees_with_std_line_handling() {
    let cases = [
        "",
        "\n",
        "\r\n",
        "## A",
        "## A\n",
        "## A\r",
        "## A\r\n",
        "## A\nx\r",
        "## A\nx\r\n\r\n",
        "## A\n\r\n\n",
        "x\n## A\ny\n##B\n## \n## C\n",
        "## A\n\r",
        "## A\n\r\r\n",
        "##\tT \t\nbody\n\n\n## U\n",
        "## A\nbody without end",
        "## a/b\n{x}\n## a/c\n{random|1 2}\n",
    ];
    for case in cases {
        let got = parse_templates(case);
        let got: Vec<(String, String)> =
            got.into_iter().map(|t| (t.name, t.body)).collect();
        assert_eq!(got, sections_by_std(case), "{:?}", case);
    }
}

#[test]
fn loading_needs_a_template() {
    assert_eq!(load_templates("").err().as_deref(), Some(NO_TEMPLATES));
    assert_eq!(load_templates("text\n##x\n").err().as_deref(), Some(NO_TEMPLATES));
    let loaded = load_templates("## A\nbody\n").expect("templates");
    assert_eq!(pairs(&loaded), vec![("A", "body")]);
}
