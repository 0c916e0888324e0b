use pmt::fields::collect_fields;
use pmt::models::{Field, Token};
use pmt::tokens::parse_tokens;

fn triples(fields: &[Field]) -> Vec<(&str, &str, &str)> {
    fields.iter().map(|f| (f.name.as_str(), f.label.as_str(), f.value.as_str())).collect()
}

#[test]
fn no_tokens_no_fields() {
    assert!(collect_fields(&[]).is_empty());
    assert!(collect_fields(&parse_tokens("just text")).is_empty());
}

#[test]
fn label_is_name_and_description() {
    let fields = collect_fields(&parse_tokens("{name|desc}"));
    assert_eq!(triples(&fields), vec![("name", "name (desc)", "")]);
}

#[test]
fn label_without_description_is_the_name() {
    let fields = collect_fields(&parse_tokens("{name}"));
    assert_eq!(triples(&fields), vec![("name", "name", "")]);
}

#[test]
fn label_with_empty_description_is_the_name() {
    let fields = collect_fields(&parse_tokens("{name|}{other|  }"));
    assert_eq!(triples(&fields), vec![("name", "name", ""), ("other", "other", "")]);
}

#[test]
fn first_occurrence_gives_the_label() {
    let fields = collect_fields(&parse_tokens("{x}...{x|desc}"));
    assert_eq!(triples(&fields), vec![("x", "x", "")]);
    let fields = collect_fields(&parse_tokens("{x|desc}...{x}{x|other}"));
    assert_eq!(triples(&fields), vec![("x", "x (desc)", "")]);
}

#[test]
fn fields_come_in_order_of_first_occurrence() {
    let fields = collect_fields(&parse_tokens("{b} {a|one} {b|two} {c} {a}"));
    assert_eq!(triples(&fields), vec![("b", "b", ""), ("a", "a (one)", ""), ("c", "c", "")]);
}

#[test]
fn random_and_text_give_no_field() {
    let fields = collect_fields(&parse_tokens("t {random|a b} {v} {broken"));
    assert_eq!(triples(&fields), vec![("v", "v", "")]);
}

#[test]
fn extraction_twice_gives_the_same() {
    let tokens = parse_tokens("{b} {a|one} {b|two} {c} {a}");
    let first = collect_fields(&tokens);
    let second = collect_fields(&tokens);
    assert_eq!(triples(&first), triples(&second));
}

#[test]
fn names_differ_by_case_and_are_compared_exactly() {
    let fields = collect_fields(&parse_tokens("{Name}{name}{NAME|x}"));
    assert_eq!(
        triples(&fields),
        vec![("Name", "Name", ""), ("name", "name", ""), ("NAME", "NAME (x)", "")]
    );
}

#[test]
fn fields_of_hand_made_tokens() {
    let tokens = vec![
        Token::Var { name: String::from("k"), desc: Some(String::from("知识")), raw: String::new() },
        Token::Text(String::from("-")),
        Token::Var { name: String::from("k"), desc: None, raw: String::new() },
    ];
    let fields = collect_fields(&tokens);
    assert_eq!(triples(&fields), vec![("k", "k (知识)", "")]);
}
