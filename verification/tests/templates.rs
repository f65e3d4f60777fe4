use escpos_rs::{resolve, Error, Font, Instruction, Justification, PrintData, Segment};

fn hello() -> Instruction {
    Instruction::text("Hello, %name%!", Font::FontA, Justification::Center, vec!["%name%".to_string()])
}

fn plain(template: &str, tokens: &[&str]) -> Instruction {
    Instruction::text(
        template,
        Font::FontA,
        Justification::Left,
        tokens.iter().map(|t| t.to_string()).collect(),
    )
}

fn literal(text: &str) -> Segment {
    Segment::Literal(text.to_string())
}

fn placeholder(token: &str) -> Segment {
    Segment::Placeholder(token.to_string())
}

#[test]
fn resolve_fills_the_placeholder() {
    let data = PrintData::builder().replacement("%name%", "Carlos").build();
    assert_eq!(resolve(&hello(), &data), Ok("Hello, Carlos!".to_string()));
}

#[test]
fn one_instruction_serves_many_jobs() {
    let instruction = hello();
    let first = PrintData::builder().replacement("%name%", "Carlos").build();
    let second = PrintData::builder().replacement("%name%", "John").build();
    assert_eq!(resolve(&instruction, &first), Ok("Hello, Carlos!".to_string()));
    assert_eq!(resolve(&instruction, &second), Ok("Hello, John!".to_string()));
    assert_eq!(resolve(&instruction, &first), Ok("Hello, Carlos!".to_string()));
}

#[test]
fn missing_token_fails() {
    let data = PrintData::builder().build();
    assert_eq!(
        resolve(&hello(), &data),
        Err(Error::MissingSubstitution("%name%".to_string()))
    );
    let other = PrintData::builder().replacement("%nome%", "Carlos").build();
    assert_eq!(
        resolve(&hello(), &other),
        Err(Error::MissingSubstitution("%name%".to_string()))
    );
}

#[test]
fn extra_data_is_ignored() {
    let data = PrintData::builder()
        .replacement("%unused%", "nothing")
        .replacement("%name%", "Carlos")
        .build();
    assert_eq!(resolve(&hello(), &data), Ok("Hello, Carlos!".to_string()));
    let without = PrintData::builder().replacement("%name%", "Carlos").build();
    assert_eq!(resolve(&hello(), &data), resolve(&hello(), &without));
}

#[test]
fn complete_data_leaves_no_placeholder() {
    let instruction = plain("%qty% x %item% = %sum%", &["%qty%", "%item%", "%sum%", "%tax%"]);
    let data = PrintData::builder()
        .replacement("%qty%", "2")
        .replacement("%item%", "tea")
        .replacement("%sum%", "5.00")
        .replacement("%tax%", "0.35")
        .build();
    assert_eq!(resolve(&instruction, &data), Ok("2 x tea = 5.00".to_string()));
}

#[test]
fn the_first_missing_token_is_named() {
    let instruction = plain("%a% and %b% and %c%", &["%a%", "%b%", "%c%"]);
    let data = PrintData::builder().replacement("%a%", "1").build();
    assert_eq!(resolve(&instruction, &data), Err(Error::MissingSubstitution("%b%".to_string())));
    let data = PrintData::builder().replacement("%c%", "3").replacement("%b%", "2").build();
    assert_eq!(resolve(&instruction, &data), Err(Error::MissingSubstitution("%a%".to_string())));
}

#[test]
fn a_declared_token_that_the_template_lacks_needs_no_value() {
    let instruction = plain("Hello, %name%!", &["%name%", "%date%"]);
    let data = PrintData::builder().replacement("%name%", "Carlos").build();
    assert_eq!(resolve(&instruction, &data), Ok("Hello, Carlos!".to_string()));
}

#[test]
fn a_value_is_not_resolved_again() {
    let instruction = plain("%a% %b%", &["%a%", "%b%"]);
    let data = PrintData::builder().replacement("%a%", "%b%").replacement("%b%", "%a%").build();
    assert_eq!(resolve(&instruction, &data), Ok("%b% %a%".to_string()));
    let data = PrintData::builder().replacement("%name%", "%name% %name%").build();
    assert_eq!(resolve(&hello(), &data), Ok("Hello, %name% %name%!".to_string()));
}

#[test]
fn a_token_does_not_match_inside_a_longer_word() {
    let instruction = plain("Hello, %nameX%!", &["%name%"]);
    assert_eq!(instruction.segments(), &vec![literal("Hello, %nameX%!")]);
    let data = PrintData::builder().build();
    assert_eq!(resolve(&instruction, &data), Ok("Hello, %nameX%!".to_string()));
}

#[test]
fn matching_is_case_sensitive() {
    let instruction = plain("%NAME% %name%", &["%name%"]);
    assert_eq!(instruction.segments(), &vec![literal("%NAME% "), placeholder("%name%")]);
}

#[test]
fn the_longest_token_at_a_place_wins() {
    let instruction = plain("[%a%]", &["%a", "%a%"]);
    assert_eq!(instruction.segments(), &vec![literal("["), placeholder("%a%"), literal("]")]);
    let swapped = plain("[%a%]", &["%a%", "%a"]);
    assert_eq!(swapped.segments(), instruction.segments());
}

#[test]
fn matching_goes_from_the_left_without_overlap() {
    let instruction = plain("abc", &["bc", "ab"]);
    assert_eq!(instruction.segments(), &vec![placeholder("ab"), literal("c")]);
    let instruction = plain("aaa", &["aa"]);
    assert_eq!(instruction.segments(), &vec![placeholder("aa"), literal("a")]);
}

#[test]
fn the_template_is_split_into_runs() {
    assert_eq!(
        hello().segments(),
        &vec![literal("Hello, "), placeholder("%name%"), literal("!")]
    );
    let instruction = plain("%a%%b%", &["%a%", "%b%"]);
    assert_eq!(instruction.segments(), &vec![placeholder("%a%"), placeholder("%b%")]);
    assert_eq!(plain("", &["%a%"]).segments(), &Vec::<Segment>::new());
    assert_eq!(plain("%a%", &["%a%"]).segments(), &vec![placeholder("%a%")]);
}

#[test]
fn the_segments_put_together_are_the_template() {
    let template = "Dear %title% %name%, your %item% (%qty%x) costs %sum%%name%";
    let instruction = plain(template, &["%name%", "%title%", "%item%", "%qty%", "%sum%"]);
    let mut joined = String::new();
    for segment in instruction.segments() {
        match segment {
            Segment::Literal(text) => {
                assert!(!text.is_empty());
                for token in instruction.tokens() {
                    assert!(!text.contains(token.as_str()));
                }
                joined.push_str(text)
            },
            Segment::Placeholder(token) => {
                assert!(instruction.tokens().contains(token));
                joined.push_str(token)
            },
        }
    }
    assert_eq!(joined, template);
}

#[test]
fn undeclared_text_stays_literal() {
    let instruction = plain("Hi %x%", &[]);
    assert_eq!(instruction.segments(), &vec![literal("Hi %x%")]);
    let data = PrintData::builder().replacement("%x%", "there").build();
    assert_eq!(resolve(&instruction, &data), Ok("Hi %x%".to_string()));
}

#[test]
fn an_empty_token_is_no_token() {
    let instruction = plain("abc", &["", "b"]);
    assert_eq!(instruction.segments(), &vec![literal("a"), placeholder("b"), literal("c")]);
    let data = PrintData::builder().replacement("b", "-").build();
    assert_eq!(resolve(&instruction, &data), Ok("a-c".to_string()));
}

#[test]
fn a_placeholder_may_occur_many_times() {
    let instruction = plain("%n%, %n% and %n%", &["%n%"]);
    let data = PrintData::builder().replacement("%n%", "tea").build();
    assert_eq!(resolve(&instruction, &data), Ok("tea, tea and tea".to_string()));
}

#[test]
fn tokens_and_values_may_hold_any_characters() {
    let instruction = plain("Preis: \u{ab}p\u{bb} \u{20ac}", &["\u{ab}p\u{bb}"]);
    let data = PrintData::builder().replacement("\u{ab}p\u{bb}", "3,50\n\u{2014}").build();
    assert_eq!(resolve(&instruction, &data), Ok("Preis: 3,50\n\u{2014} \u{20ac}".to_string()));
}

#[test]
fn a_value_may_be_empty() {
    let data = PrintData::builder().replacement("%name%", "").build();
    assert_eq!(resolve(&hello(), &data), Ok("Hello, !".to_string()));
}

#[test]
fn a_later_replacement_overrides_an_earlier_one() {
    let data = PrintData::builder()
        .replacement("%name%", "Carlos")
        .replacement("%other%", "x")
        .replacement("%name%", "John")
        .build();
    assert_eq!(data.len(), 2);
    assert_eq!(data.get(&"%name%".to_string()), Some(&"John".to_string()));
    assert_eq!(data.get(&"%other%".to_string()), Some(&"x".to_string()));
    assert_eq!(data.get(&"%none%".to_string()), None);
    assert_eq!(resolve(&hello(), &data), Ok("Hello, John!".to_string()));
}

#[test]
fn empty_print_data_holds_nothing() {
    let data = PrintData::builder().build();
    assert_eq!(data.len(), 0);
    assert_eq!(data.get(&"%name%".to_string()), None);
}

#[test]
fn an_instruction_keeps_its_font_justification_and_tokens() {
    let instruction = hello();
    assert_eq!(instruction.font(), Font::FontA);
    assert_eq!(instruction.justification(), Justification::Center);
    assert_eq!(instruction.tokens(), &vec!["%name%".to_string()]);
}
