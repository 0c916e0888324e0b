use pmt::fields::collect_fields;
use pmt::models::{Field, Template, Token, TreeItem};
use pmt::render::render_template;
use pmt::tokens::{parse_random_options, parse_tokens};
use pmt::tree::build_tree_items;

struct Dice(u64);

impl Dice {
    fn roll(&mut self, sides: usize) -> usize {
        self.0 = self.0.wrapping_mul(6364136223846793005).wrapping_add(1442695040888963407);
        ((self.0 >> 33) as usize) % sides
    }

    fn text(&mut self, alphabet: &[&str], max_len: usize) -> String {
        let len = self.roll(max_len + 1);
        let mut out = String::new();
        for _ in 0..len {
            out.push_str(alphabet[self.roll(alphabet.len())]);
        }
        out
    }
}

#[derive(Debug, PartialEq)]
enum Shape {
    Text(String),
    Var(String, Option<String>, String),
    Random(Vec<String>, String),
}

fn shape_of(token: &Token) -> Shape {
    match token {
        Token::Text(text) => Shape::Text(text.clone()),
        Token::Var { name, desc, raw } => Shape::Var(name.clone(), desc.clone(), raw.clone()),
        Token::Random { options, raw, .. } => Shape::Random(options.clone(), raw.clone()),
    }
}

fn options_by_std(input: &str) -> Vec<String> {
    let mut options: Vec<String> = Vec::new();
    let mut rest = input;
    while let Some(open) = rest.find('"') {
        let after = &rest[open + 1..];
        match after.find('"') {
            Some(close) => {
                if close > 0 {
                    options.push(after[..close].to_string());
                }
                rest = &after[close + 1..];
            }
            None => {
                if !after.is_empty() {
                    options.push(after.to_string());
                }
                rest = "";
            }
        }
    }
    if options.is_empty() {
        options = input
            .split_whitespace()
            .map(|part| part.trim_matches(',').to_string())
            .filter(|part| !part.is_empty())
            .collect();
    }
    options
}

fn placeholder_by_std(inner: &str, raw: &str) -> Shape {
    let trimmed = inner.trim();
    if let Some(rest) = trimmed.strip_prefix("random|") {
        let options = options_by_std(rest);
        if options.is_empty() {
            return Shape::Text(raw.to_string());
        }
        return Shape::Random(options, raw.to_string());
    }
    let mut parts = trimmed.splitn(2, '|');
    let name = parts.next().unwrap_or("").trim();
    if name.is_empty() {
        return Shape::Text(raw.to_string());
    }
    let desc = parts.next().map(|value| value.trim().to_string());
    Shape::Var(name.to_string(), desc, raw.to_string())
}

fn shapes_by_std(body: &str) -> Vec<Shape> {
    let mut shapes = Vec::new();
    let mut index = 0;
    while let Some(start) = body[index..].find('{') {
        let start_idx = index + start;
        if start_idx > index {
            shapes.push(Shape::Text(body[index..start_idx].to_string()));
        }
        let after = &body[start_idx + 1..];
        if let Some(end_rel) = after.find('}') {
            let end_idx = start_idx + 1 + end_rel;
            shapes.push(placeholder_by_std(&body[start_idx + 1..end_idx], &body[start_idx..=end_idx]));
            index = end_idx + 1;
        } else {
            shapes.push(Shape::Text(body[start_idx..].to_string()));
            index = body.len();
        }
    }
    if index < body.len() {
        shapes.push(Shape::Text(body[index..].to_string()));
    }
    shapes
}

fn fields_by_std(tokens: &[Token]) -> Vec<(String, String, String)> {
    let mut fields: Vec<(String, String, String)> = Vec::new();
    for token in tokens {
        if let Token::Var { name, desc, .. } = token {
            if fields.iter().any(|field| field.0 == *name) {
                continue;
            }
            let label = match desc {
                Some(desc) if !desc.is_empty() => format!("{name} ({desc})"),
                _ => name.clone(),
            };
            fields.push((name.clone(), label, String::new()));
        }
    }
    fields
}

fn render_by_std(tokens: &[Token], fields: &[Field]) -> String {
    let mut output = String::new();
    for token in tokens {
        match token {
            Token::Text(text) => output.push_str(text),
            Token::Var { name, raw, .. } => {
                let value = fields
                    .iter()
                    .find(|field| field.name == *name)
                    .map(|field| field.value.as_str())
                    .unwrap_or("");
                output.push_str(if value.is_empty() { raw } else { value });
            }
            Token::Random { choice, raw, .. } => {
                output.push_str(if choice.is_empty() { raw } else { choice });
            }
        }
    }
    output
}

struct Branch {
    name: String,
    template_index: Option<usize>,
    children: Vec<Branch>,
}

fn put(branch: &mut Branch, parts: &[&str], template_index: usize) {
    if parts.is_empty() {
        branch.template_index = Some(template_index);
        return;
    }
    let position = branch.children.iter().position(|child| child.name == parts[0]);
    let position = match position {
        Some(position) => position,
        None => {
            branch.children.push(Branch {
                name: parts[0].to_string(),
                template_index: None,
                children: Vec::new(),
            });
            branch.children.len() - 1
        }
    };
    put(&mut branch.children[position], &parts[1..], template_index);
}

fn walk(branch: &Branch, depth: usize, rows: &mut Vec<(String, usize, Option<usize>)>) {
    for child in &branch.children {
        rows.push((child.name.clone(), depth, child.template_index));
        walk(child, depth + 1, rows);
    }
}

fn rows_by_std(names: &[String]) -> Vec<(String, usize, Option<usize>)> {
    let mut root = Branch { name: String::new(), template_index: None, children: Vec::new() };
    for (index, name) in names.iter().enumerate() {
        let parts: Vec<&str> =
            name.split('/').map(|part| part.trim()).filter(|part| !part.is_empty()).collect();
        put(&mut root, &parts, index);
    }
    let mut rows = Vec::new();
    walk(&root, 0, &mut rows);
    rows
}

const BODY_ALPHABET: [&str; 20] = [
    "a", "b", "x", " ", "  ", "{", "}", "|", "\"", ",", "random|", "random", "\t", "\n", "界",
    "\u{3000}", "{x}", "{random|", "° ", "é",
];

#[test]
fn tokens_agree_with_std_string_handling() {
    let mut dice = Dice(7);
    for _ in 0..4000 {
        let body = dice.text(&BODY_ALPHABET, 14);
        let tokens = parse_tokens(&body);
        let shapes: Vec<Shape> = tokens.iter().map(shape_of).collect();
        assert_eq!(shapes, shapes_by_std(&body), "{:?}", body);
        for token in &tokens {
            if let Token::Random { options, choice, .. } = token {
                assert!(options.contains(choice), "{:?}", body);
                assert!(options.iter().all(|option| !option.is_empty()), "{:?}", body);
            }
        }
    }
}

#[test]
fn options_agree_with_std_string_handling() {
    let mut dice = Dice(11);
    let alphabet = ["a", "b", " ", "\"", ",", "\t", "界", "\u{a0}", ",,", "\"\"", "c d"];
    for _ in 0..4000 {
        let input = dice.text(&alphabet, 10);
        assert_eq!(parse_random_options(&input), options_by_std(&input), "{:?}", input);
    }
}

#[test]
fn fields_and_rendering_agree_with_plain_loops() {
    let mut dice = Dice(13);
    let alphabet = ["a", "b", " ", "{", "}", "|", "{a}", "{b|d}", "{a|e}", "{random|p q}", "c"];
    let values = ["", "", "v", "长", "{a}"];
    for _ in 0..3000 {
        let body = dice.text(&alphabet, 10);
        let tokens = parse_tokens(&body);
        let mut fields = collect_fields(&tokens);
        let got: Vec<(String, String, String)> =
            fields.iter().map(|f| (f.name.clone(), f.label.clone(), f.value.clone())).collect();
        assert_eq!(got, fields_by_std(&tokens), "{:?}", body);
        for field in fields.iter_mut() {
            field.value = values[dice.roll(values.len())].to_string();
        }
        assert_eq!(render_template(&tokens, &fields), render_by_std(&tokens, &fields), "{:?}", body);
    }
}

#[test]
fn unset_fields_give_every_body_without_random_back() {
    let mut dice = Dice(17);
    let alphabet = ["a", " ", "{", "}", "|", "\"", ",", "\n", "界", "{x}", "{y|d}", "{}", "rand"];
    for _ in 0..4000 {
        let body = dice.text(&alphabet, 12);
        let tokens = parse_tokens(&body);
        if tokens.iter().any(|token| matches!(token, Token::Random { .. })) {
            continue;
        }
        let fields = collect_fields(&tokens);
        assert_eq!(render_template(&tokens, &fields), body);
    }
}

#[test]
fn tree_agrees_with_nested_lists() {
    let mut dice = Dice(19);
    let alphabet = ["A", "B", "C", "/", "/", " ", "//", "a b"];
    for _ in 0..3000 {
        let count = dice.roll(7);
        let names: Vec<String> = (0..count).map(|_| dice.text(&alphabet, 7)).collect();
        let templates: Vec<Template> = names
            .iter()
            .map(|name| Template { name: name.clone(), body: String::new() })
            .collect();
        let items: Vec<TreeItem> = build_tree_items(&templates);
        let got: Vec<(String, usize, Option<usize>)> =
            items.into_iter().map(|i| (i.label, i.depth, i.template_index)).collect();
        assert_eq!(got, rows_by_std(&names), "{:?}", names);
    }
}
