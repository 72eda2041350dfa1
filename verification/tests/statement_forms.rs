use python_parser::statements::{block, compound_stmt, statement, CompoundStatement, SmallStatement, Statement};
use python_parser::ParseError;

fn del(names: &[&str]) -> SmallStatement {
    SmallStatement::Del(names.iter().map(|n| n.to_string()).collect())
}

#[test]
fn del_of_several_names() {
    assert_eq!(statement("del a b", 0, 0), Ok(("", Statement::Simple(vec![del(&["a", "b"])]))));
}

#[test]
fn statements_separated_by_semicolons() {
    assert_eq!(
        statement("del a; del b", 0, 0),
        Ok(("", Statement::Simple(vec![del(&["a"]), del(&["b"])])))
    );
    assert_eq!(statement("del a ;del b ", 0, 0), Ok(("", Statement::Simple(vec![del(&["a"]), del(&["b"])]))));
}

#[test]
fn semicolon_after_the_last_statement() {
    assert_eq!(statement("del a;", 0, 0), Err(ParseError));
    assert_eq!(statement("del a; del b;", 0, 0), Err(ParseError));
}

#[test]
fn malformed_del() {
    assert_eq!(statement("del", 0, 0), Err(ParseError));
    assert_eq!(statement("del 1", 0, 0), Err(ParseError));
    assert_eq!(statement("del\tfoo", 0, 0), Err(ParseError));
}

#[test]
fn if_leaves_the_rest() {
    assert_eq!(compound_stmt("if foo:\n del bar\n", 0, 0), Ok(("\n",
        CompoundStatement::If(vec![("foo".to_string(), vec![Statement::Simple(vec![del(&["bar"])])])], None)
    )));
}

#[test]
fn if_with_spaces_around_the_colon() {
    assert_eq!(compound_stmt("if  foo :  \n del bar", 0, 0), Ok(("",
        CompoundStatement::If(vec![("foo".to_string(), vec![Statement::Simple(vec![del(&["bar"])])])], None)
    )));
}

#[test]
fn if_with_another_condition() {
    assert_eq!(compound_stmt("if bar:\n del x", 0, 0), Err(ParseError));
    assert_eq!(compound_stmt("if foo\n del x", 0, 0), Err(ParseError));
    assert_eq!(compound_stmt("if foo:\ndel x", 0, 0), Err(ParseError));
}

#[test]
fn block_holds_its_first_statement() {
    assert_eq!(block("\n del a\n del b", 0), Ok(("\n del b", vec![Statement::Simple(vec![del(&["a"])])])));
}

#[test]
fn indentation_is_leading_spaces() {
    assert_eq!(statement("  del foo", 2, 0), statement("del foo", 0, 0));
    assert_eq!(
        statement("  if foo:\n   del bar", 2, 2),
        Ok(("", Statement::Compound(Box::new(CompoundStatement::If(
            vec![("foo".to_string(), vec![Statement::Simple(vec![del(&["bar"])])])],
            None,
        )))))
    );
    assert_eq!(statement("  del foo", 1, 0), Err(ParseError));
}

#[test]
fn statements_consume_input() {
    for (input, indent) in [("del a", 0), (" del a", 1), ("if foo:\n del a\nelse:\n del b", 0)] {
        let (rest, _) = statement(input, indent, indent).unwrap();
        assert!(rest.len() < input.len());
        assert!(input.ends_with(rest));
    }
}

#[test]
fn cloned_statements_are_equal() {
    let (_, st) = statement("if foo:\n del a\nelif foo:\n del b\nelse:\n del c", 0, 0).unwrap();
    assert_eq!(st.clone(), st);
    let (_, c) = compound_stmt("if foo:\n if foo:\n  del bar", 0, 0).unwrap();
    assert_eq!(c.clone(), c);
}
