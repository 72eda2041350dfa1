use python_parser::statements::{block, compound_stmt, statement, CompoundStatement, SmallStatement, Statement};

#[test]
fn test_statement_indent() {
    assert_eq!(statement("del foo", 0, 0), Ok(("", Statement::Simple(vec![SmallStatement::Del(vec!["foo".to_string()])]))));
    assert_eq!(statement(" del foo", 1, 1), Ok(("", Statement::Simple(vec![SmallStatement::Del(vec!["foo".to_string()])]))));
    assert!(statement("del foo", 1, 1).is_err());
    assert!(statement(" del foo", 0, 0).is_err());
}

#[test]
fn test_block() {
    assert_eq!(block("\n del foo", 0), Ok(("", vec![Statement::Simple(vec![SmallStatement::Del(vec!["foo".to_string()])])])));
    assert_eq!(block("\n  del foo", 1), Ok(("", vec![Statement::Simple(vec![SmallStatement::Del(vec!["foo".to_string()])])])));
    assert_eq!(block("\n      del foo", 1), Ok(("", vec![Statement::Simple(vec![SmallStatement::Del(vec!["foo".to_string()])])])));
    assert!(block("\ndel foo", 0).is_err());
    assert!(block("\ndel foo", 1).is_err());
    assert!(block("\n del foo", 1).is_err());
}

#[test]
fn test_if() {
    assert_eq!(compound_stmt("if foo:\n del bar", 0, 0), Ok(("",
        CompoundStatement::If(
            vec![
                (
                    "foo".to_string(),
                    vec![
                        Statement::Simple(vec![
                            SmallStatement::Del(vec!["bar".to_string()])
                        ])
                    ]
                ),
            ],
            None
        )
    )));
}

#[test]
fn test_elif() {
    assert_eq!(compound_stmt("if foo:\n del bar\nelif foo:\n del baz", 0, 0), Ok(("",
        CompoundStatement::If(
            vec![
                (
                    "foo".to_string(),
                    vec![
                        Statement::Simple(vec![
                            SmallStatement::Del(vec!["bar".to_string()])
                        ])
                    ]
                ),
                (
                    "foo".to_string(),
                    vec![
                        Statement::Simple(vec![
                            SmallStatement::Del(vec!["baz".to_string()])
                        ])
                    ]
                ),
            ],
            None
        )
    )));
}

#[test]
fn test_else() {
    assert_eq!(compound_stmt("if foo:\n del bar\nelse:\n del qux", 0, 0), Ok(("",
        CompoundStatement::If(
            vec![
                (
                    "foo".to_string(),
                    vec![
                        Statement::Simple(vec![
                            SmallStatement::Del(vec!["bar".to_string()])
                        ])
                    ]
                ),
            ],
            Some(
                vec![
                    Statement::Simple(vec![
                        SmallStatement::Del(vec!["qux".to_string()])
                    ])
                ]
            )
        )
    )));
}

#[test]
fn test_elif_else() {
    assert_eq!(compound_stmt("if foo:\n del bar\nelif foo:\n del baz\nelse:\n del qux", 0, 0), Ok(("",
        CompoundStatement::If(
            vec![
                (
                    "foo".to_string(),
                    vec![
                        Statement::Simple(vec![
                            SmallStatement::Del(vec!["bar".to_string()])
                        ])
                    ]
                ),
                (
                    "foo".to_string(),
                    vec![
                        Statement::Simple(vec![
                            SmallStatement::Del(vec!["baz".to_string()])
                        ])
                    ]
                ),
            ],
            Some(
                vec![
                    Statement::Simple(vec![
                        SmallStatement::Del(vec!["qux".to_string()])
                    ])
                ]
            )
        )
    )));
}

#[test]
fn test_nested_if() {
    assert_eq!(compound_stmt("if foo:\n if foo:\n  del bar", 0, 0), Ok(("",
        CompoundStatement::If(
            vec![
                (
                    "foo".to_string(),
                    vec![
                        Statement::Compound(Box::new(
                          CompoundStatement::If(
                              vec![
                                  (
                                      "foo".to_string(),
                                      vec![
                                          Statement::Simple(vec![
                                              SmallStatement::Del(vec!["bar".to_string()])
                                          ])
                                      ]
                                  ),
                              ],
                              None
                            )
                        ))
                    ]
                ),
            ],
            None
        )
    )));
}

#[test]
fn test_dangling_else_1() {
    assert_eq!(compound_stmt("if foo:\n if foo:\n  del bar\nelse:\n del qux", 0, 0), Ok(("",
        CompoundStatement::If(
            vec![
                (
                    "foo".to_string(),
                    vec![
                        Statement::Compound(Box::new(
                          CompoundStatement::If(
                              vec![
                                  (
                                      "foo".to_string(),
                                      vec![
                                          Statement::Simple(vec![
                                              SmallStatement::Del(vec!["bar".to_string()])
                                          ])
                                      ]
                                  ),
                              ],
                              None
                            )
                        ))
                    ]
                ),
            ],
            Some(
                vec![
                    Statement::Simple(vec![
                        SmallStatement::Del(vec!["qux".to_string()])
                    ])
                ]
            )
        )
    )));
}

#[test]
fn test_dangling_else_2() {
    assert_eq!(compound_stmt("if foo:\n if foo:\n  del bar\n else:\n  del qux", 0, 0), Ok(("",
        CompoundStatement::If(
            vec![
                (
                    "foo".to_string(),
                    vec![
                        Statement::Compound(Box::new(
                          CompoundStatement::If(
                              vec![
                                  (
                                      "foo".to_string(),
                                      vec![
                                          Statement::Simple(vec![
                                              SmallStatement::Del(vec!["bar".to_string()])
                                          ])
                                      ]
                                  ),
                              ],
                              Some(
                                  vec![
                                      Statement::Simple(vec![
                                          SmallStatement::Del(vec!["qux".to_string()])
                                      ])
                                  ]
                              )
                            )
                        ))
                    ]
                ),
            ],
            None
        )
    )));
}
