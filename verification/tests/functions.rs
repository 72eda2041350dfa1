use python_parser::expressions::{Atom, Expression};
use python_parser::functions::{StarParams, TypedArgsList, UntypedArgsList};

#[test]
fn test_positional() {
    assert_eq!(TypedArgsList::parse("foo"), Ok(("",
        TypedArgsList {
            positional_args: vec![
                ("foo".to_string(), None, None),
            ],
            star_args: StarParams::No,
            keyword_args: vec![],
            star_kwargs: None,
        }
    )));

    assert_eq!(UntypedArgsList::parse("foo"), Ok(("",
        UntypedArgsList {
            positional_args: vec![
                ("foo".to_string(), None),
            ],
            star_args: StarParams::No,
            keyword_args: vec![],
            star_kwargs: None,
        }
    )));

    assert_eq!(TypedArgsList::parse("foo=bar"), Ok(("",
        TypedArgsList {
            positional_args: vec![
                ("foo".to_string(), None, Some(Expression::Atom(Atom::Name("bar".to_string())))),
            ],
            star_args: StarParams::No,
            keyword_args: vec![],
            star_kwargs: None,
        }
    )));

    assert_eq!(UntypedArgsList::parse("foo=bar"), Ok(("",
        UntypedArgsList {
            positional_args: vec![
                ("foo".to_string(), Some(Expression::Atom(Atom::Name("bar".to_string())))),
            ],
            star_args: StarParams::No,
            keyword_args: vec![],
            star_kwargs: None,
        }
    )));

    assert_eq!(TypedArgsList::parse("foo:bar"), Ok(("",
        TypedArgsList {
            positional_args: vec![
                ("foo".to_string(), Some(Expression::Atom(Atom::Name("bar".to_string()))), None),
            ],
            star_args: StarParams::No,
            keyword_args: vec![],
            star_kwargs: None,
        }
    )));

    assert_eq!(UntypedArgsList::parse("foo:bar"), Ok((":bar",
        UntypedArgsList {
            positional_args: vec![
                ("foo".to_string(), None),
            ],
            star_args: StarParams::No,
            keyword_args: vec![],
            star_kwargs: None,
        }
    )));

    assert_eq!(TypedArgsList::parse("foo:bar=baz"), Ok(("",
        TypedArgsList {
            positional_args: vec![
                ("foo".to_string(), Some(Expression::Atom(Atom::Name("bar".to_string()))), Some(Expression::Atom(Atom::Name("baz".to_string())))),
            ],
            star_args: StarParams::No,
            keyword_args: vec![],
            star_kwargs: None,
        }
    )));

    assert_eq!(UntypedArgsList::parse("foo:bar=baz"), Ok((":bar=baz",
        UntypedArgsList {
            positional_args: vec![
                ("foo".to_string(), None),
            ],
            star_args: StarParams::No,
            keyword_args: vec![],
            star_kwargs: None,
        }
    )));

    assert_eq!(TypedArgsList::parse("foo, bar"), Ok(("",
        TypedArgsList {
            positional_args: vec![
                ("foo".to_string(), None, None),
                ("bar".to_string(), None, None),
            ],
            star_args: StarParams::No,
            keyword_args: vec![],
            star_kwargs: None,
        }
    )));

    assert_eq!(UntypedArgsList::parse("foo, bar"), Ok(("",
        UntypedArgsList {
            positional_args: vec![
                ("foo".to_string(), None),
                ("bar".to_string(), None),
            ],
            star_args: StarParams::No,
            keyword_args: vec![],
            star_kwargs: None,
        }
    )));
}

#[test]
fn test_star_args() {
    assert_eq!(TypedArgsList::parse("foo, *, bar"), Ok(("",
        TypedArgsList {
            positional_args: vec![
                ("foo".to_string(), None, None),
            ],
            star_args: StarParams::Anonymous,
            keyword_args: vec![
                ("bar".to_string(), None, None),
            ],
            star_kwargs: None,
        }
    )));

    assert_eq!(UntypedArgsList::parse("foo, *, bar"), Ok(("",
        UntypedArgsList {
            positional_args: vec![
                ("foo".to_string(), None),
            ],
            star_args: StarParams::Anonymous,
            keyword_args: vec![
                ("bar".to_string(), None),
            ],
            star_kwargs: None,
        }
    )));

    assert_eq!(TypedArgsList::parse("foo, *, bar=baz"), Ok(("",
        TypedArgsList {
            positional_args: vec![
                ("foo".to_string(), None, None),
            ],
            star_args: StarParams::Anonymous,
            keyword_args: vec![
                ("bar".to_string(), None, Some(Expression::Atom(Atom::Name("baz".to_string())))),
            ],
            star_kwargs: None,
        }
    )));

    assert_eq!(UntypedArgsList::parse("foo, *, bar=baz"), Ok(("",
        UntypedArgsList {
            positional_args: vec![
                ("foo".to_string(), None),
            ],
            star_args: StarParams::Anonymous,
            keyword_args: vec![
                ("bar".to_string(), Some(Expression::Atom(Atom::Name("baz".to_string())))),
            ],
            star_kwargs: None,
        }
    )));
}

#[test]
fn test_star_kwargs() {
    assert_eq!(TypedArgsList::parse("foo, **kwargs"), Ok(("",
        TypedArgsList {
            positional_args: vec![
                ("foo".to_string(), None, None),
            ],
            star_args: StarParams::No,
            keyword_args: vec![
            ],
            star_kwargs: Some("kwargs".to_string()),
        }
    )));

    assert_eq!(UntypedArgsList::parse("foo, **kwargs"), Ok(("",
        UntypedArgsList {
            positional_args: vec![
                ("foo".to_string(), None),
            ],
            star_args: StarParams::No,
            keyword_args: vec![
            ],
            star_kwargs: Some("kwargs".to_string()),
        }
    )));

    assert_eq!(TypedArgsList::parse("foo, *args, **kwargs"), Ok(("",
        TypedArgsList {
            positional_args: vec![
                ("foo".to_string(), None, None),
            ],
            star_args: StarParams::Named("args".to_string()),
            keyword_args: vec![
            ],
            star_kwargs: Some("kwargs".to_string()),
        }
    )));

    assert_eq!(UntypedArgsList::parse("foo, *args, **kwargs"), Ok(("",
        UntypedArgsList {
            positional_args: vec![
                ("foo".to_string(), None),
            ],
            star_args: StarParams::Named("args".to_string()),
            keyword_args: vec![
            ],
            star_kwargs: Some("kwargs".to_string()),
        }
    )));

    assert_eq!(TypedArgsList::parse("foo, *, bar, **kwargs"), Ok(("",
        TypedArgsList {
            positional_args: vec![
                ("foo".to_string(), None, None),
            ],
            star_args: StarParams::Anonymous,
            keyword_args: vec![
                ("bar".to_string(), None, None),
            ],
            star_kwargs: Some("kwargs".to_string()),
        }
    )));

    assert_eq!(UntypedArgsList::parse("foo, *, bar, **kwargs"), Ok(("",
        UntypedArgsList {
            positional_args: vec![
                ("foo".to_string(), None),
            ],
            star_args: StarParams::Anonymous,
            keyword_args: vec![
                ("bar".to_string(), None),
            ],
            star_kwargs: Some("kwargs".to_string()),
        }
    )));
}
