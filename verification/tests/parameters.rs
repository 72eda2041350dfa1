use python_parser::expressions::{Atom, Expression};
use python_parser::functions::{StarParams, TypedArgsList, UntypedArgsList};
use python_parser::ParseError;

fn name(s: &str) -> Expression {
    Expression::Atom(Atom::Name(s.to_string()))
}

#[test]
fn star_args_alone() {
    assert_eq!(TypedArgsList::parse("*args"), Ok(("",
        TypedArgsList {
            positional_args: vec![],
            star_args: StarParams::Named("args".to_string()),
            keyword_args: vec![],
            star_kwargs: None,
        }
    )));
}

#[test]
fn star_kwargs_alone() {
    assert_eq!(UntypedArgsList::parse("**kwargs"), Ok(("",
        UntypedArgsList {
            positional_args: vec![],
            star_args: StarParams::No,
            keyword_args: vec![],
            star_kwargs: Some("kwargs".to_string()),
        }
    )));
}

#[test]
fn every_kind_of_parameter() {
    assert_eq!(TypedArgsList::parse("a, b=c, *d, e, **f"), Ok(("",
        TypedArgsList {
            positional_args: vec![
                ("a".to_string(), None, None),
                ("b".to_string(), None, Some(name("c"))),
            ],
            star_args: StarParams::Named("d".to_string()),
            keyword_args: vec![("e".to_string(), None, None)],
            star_kwargs: Some("f".to_string()),
        }
    )));
    assert_eq!(UntypedArgsList::parse("a, b=c, *d, e, **f"), Ok(("",
        UntypedArgsList {
            positional_args: vec![
                ("a".to_string(), None),
                ("b".to_string(), Some(name("c"))),
            ],
            star_args: StarParams::Named("d".to_string()),
            keyword_args: vec![("e".to_string(), None)],
            star_kwargs: Some("f".to_string()),
        }
    )));
}

#[test]
fn annotation_and_default_with_spaces() {
    assert_eq!(TypedArgsList::parse("a: x = y"), Ok(("",
        TypedArgsList {
            positional_args: vec![("a".to_string(), Some(name("x")), Some(name("y")))],
            star_args: StarParams::No,
            keyword_args: vec![],
            star_kwargs: None,
        }
    )));
    assert_eq!(UntypedArgsList::parse("a: x = y"), Ok((": x = y",
        UntypedArgsList {
            positional_args: vec![("a".to_string(), None)],
            star_args: StarParams::No,
            keyword_args: vec![],
            star_kwargs: None,
        }
    )));
}

#[test]
fn whitespace_around_the_list() {
    assert_eq!(TypedArgsList::parse(" foo , bar "), Ok(("",
        TypedArgsList {
            positional_args: vec![("foo".to_string(), None, None), ("bar".to_string(), None, None)],
            star_args: StarParams::No,
            keyword_args: vec![],
            star_kwargs: None,
        }
    )));
    // Leading whitespace changes nothing.
    assert_eq!(TypedArgsList::parse("   foo, *args"), TypedArgsList::parse("foo, *args"));
    assert_eq!(UntypedArgsList::parse("\n\tfoo=bar"), UntypedArgsList::parse("foo=bar"));
}

#[test]
fn trailing_comma() {
    assert_eq!(TypedArgsList::parse("foo,"), Ok(("",
        TypedArgsList {
            positional_args: vec![("foo".to_string(), None, None)],
            star_args: StarParams::No,
            keyword_args: vec![],
            star_kwargs: None,
        }
    )));
}

#[test]
fn bare_star_first_takes_no_comma_list() {
    assert_eq!(TypedArgsList::parse("*, bar"), Ok(("bar",
        TypedArgsList {
            positional_args: vec![],
            star_args: StarParams::Anonymous,
            keyword_args: vec![],
            star_kwargs: None,
        }
    )));
}

#[test]
fn no_parameter_list() {
    assert_eq!(TypedArgsList::parse(""), Err(ParseError));
    assert_eq!(TypedArgsList::parse("1"), Err(ParseError));
    assert_eq!(UntypedArgsList::parse(", foo"), Err(ParseError));
}

#[test]
fn parsing_consumes_input() {
    for input in ["foo", "*a", "**b", "x=y, *, z", " foo:bar"] {
        let (rest, _) = TypedArgsList::parse(input).unwrap();
        assert!(rest.len() < input.len());
        assert!(input.ends_with(rest));
    }
}
