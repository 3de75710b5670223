use tagformat::expression::evaluate;
use tagformat::function::{Error, FuncKind, Function, Registry, standard_functions,
    standard_registry};
use tagformat::metadata::MetadataProvider;
use tagformat::parser::{ParseError, parse};
use tagformat::text::fold_str;
use tagformat::value::{Evaluation, Value};

fn dict(pairs: &[(&str, &str)]) -> MetadataProvider {
    let mut entries: Vec<(String, String)> = Vec::new();
    for (k, v) in pairs {
        entries.push((k.to_string(), v.to_string()));
    }
    MetadataProvider::new(entries)
}

fn render(pattern: &str, md: &MetadataProvider) -> String {
    let registry = standard_registry();
    let expression = parse(pattern, &registry).unwrap();
    evaluate(&expression, md)
}

#[test]
fn test_parser_optional() {
    let registry = standard_registry();
    // tests with optional expressions
    {
        let expression = parse("%tracknumber%. %title%[ (%composer%)]", &registry).unwrap();
        {
            let test_metadata = dict(&[
                ("tracknumber", "9"),
                ("title", "9th Symphony"),
                ("composer", "Beethoven"),
            ]);
            let s = expression.apply(&test_metadata);
            assert_eq!("9. 9th Symphony (Beethoven)", s.to_string().as_str());
        }
        {
            let test_metadata = dict(&[("tracknumber", "5"), ("title", "Greensleeves")]);
            let s = expression.apply(&test_metadata);
            assert_eq!("5. Greensleeves", s.to_string().as_str());
        }
    }
    {
        let expression = parse(
            "%tracknumber%. %title%[ (%composer%)[ '['%testfield%']'] - hop]",
            &registry,
        )
        .unwrap();
        {
            let test_metadata = dict(&[
                ("tracknumber", "9"),
                ("title", "9th Symphony"),
                ("composer", "Beethoven"),
            ]);
            let s = expression.apply(&test_metadata);
            assert_eq!("9. 9th Symphony (Beethoven) - hop", s.to_string().as_str());
        }
        {
            let test_metadata = dict(&[
                ("tracknumber", "5"),
                ("title", "Greensleeves"),
                ("testfield", "OK"),
            ]);
            let s = expression.apply(&test_metadata);
            assert_eq!("5. Greensleeves (?) [OK] - hop", s.to_string().as_str());
        }
        {
            let test_metadata = dict(&[("tracknumber", "5"), ("title", "Greensleeves")]);
            let s = expression.apply(&test_metadata);
            assert_eq!("5. Greensleeves", s.to_string().as_str());
        }
    }
}

#[test]
fn test_parser_functions() {
    let registry = standard_registry();
    // tests with functions
    {
        let test_metadata = dict(&[
            ("tracknumber", "9"),
            ("title", "9th Symphony"),
            ("composer", "Beethoven"),
        ]);
        {
            let expression = parse(
                "%tracknumber%. $if2(%composer%, %tracknumber%) - %title%",
                &registry,
            )
            .unwrap();
            let s = expression.apply(&test_metadata);
            assert_eq!("9. Beethoven - 9th Symphony", s.to_string().as_str());
        }
        {
            let expression = parse(
                "%tracknumber%. $if2(%artist%, %composer%) - %title%",
                &registry,
            )
            .unwrap();
            let s = expression.apply(&test_metadata);
            assert_eq!("9. Beethoven - 9th Symphony", s.to_string().as_str());
        }
        {
            let expression = parse(
                "%tracknumber%. $if2(%composer%, %artist%) - %title%",
                &registry,
            )
            .unwrap();
            let s = expression.apply(&test_metadata);
            assert_eq!("9. Beethoven - 9th Symphony", s.to_string().as_str());
        }
        {
            let expression = parse(
                "%tracknumber%. $if2(%albumartist%, %artist%) - %title%",
                &registry,
            )
            .unwrap();
            let s = expression.apply(&test_metadata);
            assert_eq!("9. ? - 9th Symphony", s.to_string().as_str());
        }
    }
}

#[test]
fn text_only_pattern_is_literal() {
    let md = dict(&[]);
    assert_eq!("just some text.", render("just some text.", &md));
    // a sequence of only text never lets an optional block render
    assert_eq!("", render("[just some text.]", &md));
}

#[test]
fn tag_present_and_absent() {
    let md = dict(&[("title", "Greensleeves")]);
    assert_eq!("Greensleeves", render("%title%", &md));
    assert_eq!("?", render("%composer%", &md));
}

#[test]
fn optional_idempotence() {
    let md = dict(&[("title", "Greensleeves")]);
    assert_eq!("Greensleeves", render("[%title%]", &md));
    assert_eq!("Greensleeves", render("[[%title%]]", &md));
}

#[test]
fn optional_suppression_nested() {
    let md = dict(&[("title", "Greensleeves")]);
    assert_eq!("", render("[ (%composer%)[%albumartist%]]", &md));
    assert_eq!("Greensleeves", render("%title%[ by %artist%]", &md));
}

#[test]
fn if2_takes_first_present() {
    let md = dict(&[("artist", "Anonymous")]);
    assert_eq!("Anonymous", render("$if2(%artist%, %composer%)", &md));
    assert_eq!("Anonymous", render("$if2(%composer%, %artist%)", &md));
    assert_eq!("?", render("$if2(%composer%, %albumartist%)", &md));
}

#[test]
fn if2_lifts_optional_blocks() {
    // a truthy if2 result renders the enclosing optional block
    let md = dict(&[("artist", "Anonymous")]);
    assert_eq!("<Anonymous>", render("['<'$if2(%artist%, %composer%)'>']", &md));
    let none = dict(&[]);
    assert_eq!("", render("['<'$if2(%artist%, %composer%)'>']", &none));
}

#[test]
fn escaping_round_trip() {
    let md = dict(&[("title", "Greensleeves")]);
    assert_eq!("'", render("''", &md));
    assert_eq!("%title%", render("'%title%'", &md));
    assert_eq!("a'b", render("a''b", &md));
}

#[test]
fn empty_pattern_renders_empty() {
    let md = dict(&[]);
    assert_eq!("", render("", &md));
}

#[test]
fn unterminated_tag_is_an_error() {
    let registry = standard_registry();
    assert!(matches!(parse("%title", &registry), Err(ParseError::MalformedTag)));
    assert!(matches!(parse("100% pure", &registry), Err(ParseError::MalformedTag)));
}

#[test]
fn unterminated_quote_is_an_error() {
    let registry = standard_registry();
    assert!(matches!(parse("'oops", &registry), Err(ParseError::UnterminatedQuote)));
}

#[test]
fn malformed_function_is_an_error() {
    let registry = standard_registry();
    assert!(matches!(parse("$if2", &registry), Err(ParseError::MalformedFunction)));
    assert!(matches!(parse("$ (x)", &registry), Err(ParseError::MalformedFunction)));
}

#[test]
fn unmatched_paren_is_an_error() {
    let registry = standard_registry();
    assert!(matches!(parse("$if2(%a%, %b%", &registry), Err(ParseError::UnmatchedParen)));
}

#[test]
fn unmatched_bracket_is_an_error() {
    let registry = standard_registry();
    assert!(matches!(parse("[%title%", &registry), Err(ParseError::UnmatchedBracket)));
}

#[test]
fn stray_bracket_is_an_error() {
    let registry = standard_registry();
    assert!(matches!(parse("abc]", &registry), Err(ParseError::StrayBracket)));
}

#[test]
fn unknown_function_is_an_error() {
    let registry = standard_registry();
    let r = parse("$frobnicate(%title%)", &registry);
    match r {
        Err(ParseError::FunctionNotFound(name)) => assert_eq!("frobnicate", name.as_str()),
        _ => panic!("expected a function-not-found error"),
    }
}

#[test]
fn wrong_argument_count_is_an_error() {
    let registry = standard_registry();
    let r = parse("$if2(%title%)", &registry);
    match r {
        Err(ParseError::ArgumentError(name)) => assert_eq!("if2", name.as_str()),
        _ => panic!("expected an argument-count error"),
    }
    // an empty argument list is one empty argument, still not two
    assert!(matches!(parse("$if2()", &registry), Err(ParseError::ArgumentError(_))));
}

#[test]
fn function_lookup_is_case_insensitive() {
    let md = dict(&[("artist", "Anonymous")]);
    assert_eq!("Anonymous", render("$IF2(%artist%, %composer%)", &md));
    assert_eq!("Anonymous", render("$If2(%artist%, %composer%)", &md));
}

#[test]
fn fold_str_lowercases_ascii() {
    assert_eq!("if2", fold_str("IF2").as_str());
    assert_eq!("mixed_case stays", fold_str("Mixed_Case STAYS").as_str());
    assert_eq!("abc_1 2", fold_str("AbC_1 2").as_str());
}

#[test]
fn registry_first_registration_wins() {
    let mut registry = Registry::empty();
    registry.register(Function::new("if2", FuncKind::If2));
    registry.register(Function::new("IF2", FuncKind::If2));
    let f = registry.lookup("If2").expect("if2 must resolve");
    assert_eq!("if2", f.name());
    assert!(matches!(f.kind(), FuncKind::If2));
}

#[test]
fn standard_functions_has_the_standard_set() {
    let fns = standard_functions();
    assert_eq!(2, fns.len());
    assert_eq!("add", fns[0].name());
    assert_eq!("if2", fns[1].name());
}

#[test]
fn add_sums_numeric_operands() {
    let md = dict(&[("tracknumber", "7"), ("offset", "35")]);
    assert_eq!("42", render("$add(%tracknumber%, %offset%)", &md));
    assert_eq!("7", render("$add(%tracknumber%, 0)", &md));
}

#[test]
fn add_treats_non_numerals_as_zero() {
    let md = dict(&[("title", "Greensleeves"), ("tracknumber", "9")]);
    // a missing tag evaluates to "?", which counts as zero
    assert_eq!("9", render("$add(%tracknumber%, %composer%)", &md));
    assert_eq!("0", render("$add(%title%, -3)", &md));
}

#[test]
fn add_saturates_at_the_largest_value() {
    let md = dict(&[("big", "9999999999999999999")]);
    assert_eq!("18446744073709551615", render("$add(%big%, %big%)", &md));
}

#[test]
fn add_truth_is_the_or_of_its_arguments() {
    let present = dict(&[("tracknumber", "9")]);
    assert_eq!("[10]", render("['['$add(%tracknumber%, 1)']']", &present));
    let absent = dict(&[]);
    assert_eq!("", render("['['$add(%tracknumber%, 1)']']", &absent));
}

#[test]
fn function_apply_checks_arity() {
    let md = dict(&[("title", "Greensleeves")]);
    let f = Function::new("if2", FuncKind::If2);
    let no_args: Vec<tagformat::expression::BoundExpression> = Vec::new();
    assert!(matches!(f.apply(&md, &no_args), Err(Error::ArgumentError)));
}

#[test]
fn evaluation_carries_value_and_truth() {
    let ev = Evaluation::new(Value::Text("x".to_string()), true);
    assert!(ev.truth);
    assert_eq!("x", ev.to_string().as_str());
}

#[test]
fn metadata_provider_first_entry_wins() {
    let md = dict(&[("k", "first"), ("k", "second")]);
    assert_eq!("first", render("%k%", &md));
}

#[test]
fn whitespace_before_arguments_is_skipped() {
    let md = dict(&[("artist", "Anonymous")]);
    assert_eq!("Anonymous", render("$if2( %artist%,  %composer%)", &md));
}
