use vstd::prelude::*;

use crate::helpers::{
    after_spaces, blank_end, in_class, lemma_semicolon, lemma_span_end, name, parse_name, parse_semicolon,
    semicolon, skip_class, spaces_at, span_end, CharClass, Name, Test,
};
use crate::source::{has_char, has_tag, Source};
use crate::ParseError;

verus! {

#[derive(Clone, Debug, PartialEq, Eq)]
pub enum SmallStatement {
    Del(Vec<Name>),
}

#[derive(Debug, PartialEq, Eq)]
pub enum Statement {
    Simple(Vec<SmallStatement>),
    Compound(Box<CompoundStatement>),
}

#[derive(Debug, PartialEq, Eq)]
pub enum CompoundStatement {
    /// The `if` branch and the `elif` branches, each with its condition, then
    /// the `else` block if there is one.
    If(Vec<(Test, Vec<Statement>)>, Option<Vec<Statement>>),
}

pub enum SmallStatementModel {
    Del(Seq<Seq<char>>),
}

pub enum StatementModel {
    Simple(Seq<SmallStatementModel>),
    Compound(CompoundStatementModel),
}

pub enum CompoundStatementModel {
    If(Seq<(Seq<char>, Seq<StatementModel>)>, Option<Seq<StatementModel>>),
}

pub open spec fn names_view(v: Seq<Name>) -> Seq<Seq<char>> {
    v.map_values(|n: Name| n@)
}

impl View for SmallStatement {
    type V = SmallStatementModel;

    open spec fn view(&self) -> SmallStatementModel {
        match self {
            SmallStatement::Del(names) => SmallStatementModel::Del(names_view(names@)),
        }
    }
}

pub open spec fn smalls_view(v: Seq<SmallStatement>) -> Seq<SmallStatementModel> {
    v.map_values(|x: SmallStatement| x@)
}

pub open spec fn statement_model(st: Statement) -> StatementModel
    decreases st,
{
    match st {
        Statement::Simple(v) => StatementModel::Simple(smalls_view(v@)),
        Statement::Compound(b) => StatementModel::Compound(compound_model(*b)),
    }
}

pub open spec fn compound_model(c: CompoundStatement) -> CompoundStatementModel
    decreases c,
{
    match c {
        CompoundStatement::If(branches, els) => CompoundStatementModel::If(
            branches_model(branches@),
            match els {
                Some(v) => Some(statements_model(v@)),
                None => None,
            },
        ),
    }
}

pub open spec fn statements_model(ss: Seq<Statement>) -> Seq<StatementModel>
    decreases ss,
{
    if ss.len() == 0 {
        Seq::empty()
    } else {
        statements_model(ss.drop_last()).push(statement_model(ss.last()))
    }
}

pub open spec fn branches_model(bs: Seq<(Test, Vec<Statement>)>) -> Seq<(Seq<char>, Seq<StatementModel>)>
    decreases bs,
{
    if bs.len() == 0 {
        Seq::empty()
    } else {
        branches_model(bs.drop_last()).push((bs.last().0@, statements_model(bs.last().1@)))
    }
}

impl View for Statement {
    type V = StatementModel;

    open spec fn view(&self) -> StatementModel {
        statement_model(*self)
    }
}

impl View for CompoundStatement {
    type V = CompoundStatementModel;

    open spec fn view(&self) -> CompoundStatementModel {
        compound_model(*self)
    }
}

/// The number of statements and branches in a statement, nested ones included.
pub open spec fn statement_size(st: Statement) -> nat
    decreases st,
{
    match st {
        Statement::Simple(_) => 1,
        Statement::Compound(b) => 1 + compound_size(*b),
    }
}

pub open spec fn compound_size(c: CompoundStatement) -> nat
    decreases c,
{
    match c {
        CompoundStatement::If(branches, els) => 1 + branches_size(branches@) + match els {
            Some(v) => statements_size(v@),
            None => 0,
        },
    }
}

pub open spec fn statements_size(ss: Seq<Statement>) -> nat
    decreases ss,
{
    if ss.len() == 0 {
        0
    } else {
        statements_size(ss.drop_last()) + statement_size(ss.last())
    }
}

pub open spec fn branches_size(bs: Seq<(Test, Vec<Statement>)>) -> nat
    decreases bs,
{
    if bs.len() == 0 {
        0
    } else {
        branches_size(bs.drop_last()) + 1 + statements_size(bs.last().1@)
    }
}

proof fn lemma_statements_size(ss: Seq<Statement>, i: int)
    requires
        0 <= i < ss.len(),
    ensures
        statement_size(ss[i]) <= statements_size(ss),
    decreases ss.len(),
{
    if i < ss.len() - 1 {
        lemma_statements_size(ss.drop_last(), i);
    }
}

proof fn lemma_branches_size(bs: Seq<(Test, Vec<Statement>)>, i: int)
    requires
        0 <= i < bs.len(),
    ensures
        statements_size(bs[i].1@) < branches_size(bs),
    decreases bs.len(),
{
    if i < bs.len() - 1 {
        lemma_branches_size(bs.drop_last(), i);
    }
}

fn clone_small_statement(small: &SmallStatement) -> (r: SmallStatement)
    ensures
        r@ == small@,
{
    match small {
        SmallStatement::Del(names) => {
            let copy = names.clone();
            assert(names_view(copy@) =~= names_view(names@));
            SmallStatement::Del(copy)
        },
    }
}

fn clone_statement(st: &Statement) -> (r: Statement)
    ensures
        r@ == st@,
    decreases statement_size(*st), 0int,
{
    match st {
        Statement::Simple(smalls) => {
            let mut copy: Vec<SmallStatement> = Vec::new();
            for i in 0..smalls.len()
                invariant
                    copy@.len() == i,
                    forall|j: int| 0 <= j < i ==> #[trigger] copy@[j]@ == smalls@[j]@,
            {
                copy.push(clone_small_statement(&smalls[i]));
            }
            assert(smalls_view(copy@) =~= smalls_view(smalls@));
            Statement::Simple(copy)
        },
        Statement::Compound(c) => Statement::Compound(Box::new(clone_compound(c))),
    }
}

fn clone_compound(c: &CompoundStatement) -> (r: CompoundStatement)
    ensures
        r@ == c@,
    decreases compound_size(*c), 0int,
{
    match c {
        CompoundStatement::If(branches, els) => {
            let ghost size = compound_size(*c);
            let mut copy: Vec<(Test, Vec<Statement>)> = Vec::new();
            for i in 0..branches.len()
                invariant
                    size == compound_size(*c),
                    size > branches_size(branches@),
                    copy@.len() == i,
                    branches_model(copy@) == branches_model(branches@.take(i as int)),
            {
                proof {
                    lemma_branches_size(branches@, i as int);
                }
                let pair = (branches[i].0.clone(), clone_statements(&branches[i].1));
                proof {
                    lemma_branches_model_push(copy@, pair);
                    assert(branches@.take(i + 1).drop_last() =~= branches@.take(i as int));
                }
                copy.push(pair);
            }
            assert(branches@.take(branches@.len() as int) =~= branches@);
            let els_copy = match els {
                Some(body) => Some(clone_statements(body)),
                None => None,
            };
            CompoundStatement::If(copy, els_copy)
        },
    }
}

fn clone_statements(stmts: &Vec<Statement>) -> (r: Vec<Statement>)
    ensures
        statements_model(r@) == statements_model(stmts@),
    decreases statements_size(stmts@), 1int,
{
    let mut copy: Vec<Statement> = Vec::new();
    for i in 0..stmts.len()
        invariant
            copy@.len() == i,
            statements_model(copy@) == statements_model(stmts@.take(i as int)),
    {
        proof {
            lemma_statements_size(stmts@, i as int);
        }
        let st = clone_statement(&stmts[i]);
        proof {
            lemma_statements_model_push(copy@, st);
            assert(stmts@.take(i + 1).drop_last() =~= stmts@.take(i as int));
        }
        copy.push(st);
    }
    assert(stmts@.take(stmts@.len() as int) =~= stmts@);
    copy
}

impl Clone for Statement {
    fn clone(&self) -> (r: Self)
        ensures
            r@ == self@,
    {
        clone_statement(self)
    }
}

impl Clone for CompoundStatement {
    fn clone(&self) -> (r: Self)
        ensures
            r@ == self@,
    {
        clone_compound(self)
    }
}

pub open spec fn del_keyword() -> Seq<char> {
    seq!['d', 'e', 'l', ' ']
}

pub open spec fn if_keyword() -> Seq<char> {
    seq!['i', 'f', ' ']
}

pub open spec fn elif_keyword() -> Seq<char> {
    seq!['e', 'l', 'i', 'f', ' ']
}

pub open spec fn else_keyword() -> Seq<char> {
    seq!['e', 'l', 's', 'e']
}

/// The only condition the `if` and `elif` branches accept so far.
pub open spec fn condition_word() -> Seq<char> {
    seq!['f', 'o', 'o']
}

/// A name after spaces and tabs, if one is there, moves forward and stays in the input.
pub proof fn lemma_blank_name(s: Seq<char>, p: int)
    ensures
        name(s, blank_end(s, p)) matches Some((q, _)) ==> p < q <= s.len(),
{
    if 0 <= p <= s.len() {
        lemma_span_end(s, p, CharClass::Blank);
        crate::helpers::lemma_name(s, blank_end(s, p));
    } else {
        assert(blank_end(s, p) == p);
    }
}

/// `NAME*`, each name after spaces and tabs.
pub open spec fn names_more(s: Seq<char>, p: int) -> (int, Seq<Seq<char>>)
    decreases s.len() - p,
{
    match name(s, blank_end(s, p)) {
        Some((q, n)) => {
            proof {
                lemma_blank_name(s, p);
            }
            let (r, rest) = names_more(s, q);
            (r, seq![n] + rest)
        },
        None => (p, seq![]),
    }
}

/// `'del ' NAME+`, then spaces and tabs.
pub open spec fn del_stmt(s: Seq<char>, p: int) -> Option<(int, Seq<Seq<char>>)> {
    if has_tag(s, p, del_keyword()) && name(s, blank_end(s, p + 4)) is Some {
        let (q, names) = names_more(s, p + 4);
        Some((blank_end(s, q), names))
    } else {
        None
    }
}

pub open spec fn small_stmt(s: Seq<char>, p: int) -> Option<(int, SmallStatementModel)> {
    match del_stmt(s, p) {
        Some((q, names)) => Some((q, SmallStatementModel::Del(names))),
        None => None,
    }
}


pub proof fn lemma_del_stmt(s: Seq<char>, p: int)
    ensures
        del_stmt(s, p) matches Some((q, _)) ==> p < q <= s.len(),
{
    if has_tag(s, p, del_keyword()) && name(s, blank_end(s, p + 4)) is Some {
        lemma_names_more(s, p + 4);
        let q = names_more(s, p + 4).0;
        lemma_span_end(s, q, CharClass::Blank);
    }
}

pub proof fn lemma_names_more(s: Seq<char>, p: int)
    requires
        0 <= p <= s.len(),
    ensures
        p <= names_more(s, p).0 <= s.len(),
    decreases s.len() - p,
{
    lemma_blank_name(s, p);
    if let Some((q, _)) = name(s, blank_end(s, p)) {
        lemma_names_more(s, q);
    }
}

/// One small statement and the semicolon after it move forward and stay in the input.
pub proof fn lemma_small_terminated_step(s: Seq<char>, p: int)
    ensures
        small_stmt(s, p) matches Some((a, _)) ==> (semicolon(s, a) matches Some(b) ==> p < b <= s.len()),
{
    lemma_del_stmt(s, p);
    if let Some((a, _)) = small_stmt(s, p) {
        lemma_semicolon(s, a);
    }
}

/// `(small_stmt ';')*`
pub open spec fn smalls_terminated(s: Seq<char>, p: int) -> (int, Seq<SmallStatementModel>)
    decreases s.len() - p,
{
    match small_stmt(s, p) {
        Some((a, st)) => match semicolon(s, a) {
            Some(b) => {
                proof {
                    lemma_small_terminated_step(s, p);
                }
                let (c, rest) = smalls_terminated(s, b);
                (c, seq![st] + rest)
            },
            None => (p, seq![]),
        },
        None => (p, seq![]),
    }
}

pub proof fn lemma_smalls_terminated(s: Seq<char>, p: int)
    requires
        0 <= p <= s.len(),
    ensures
        p <= smalls_terminated(s, p).0 <= s.len(),
    decreases s.len() - p,
{
    lemma_small_terminated_step(s, p);
    if let Some((a, _)) = small_stmt(s, p) {
        if let Some(b) = semicolon(s, a) {
            lemma_smalls_terminated(s, b);
        }
    }
}

/// A simple statement on a line indented by `indent` spaces:
/// `(small_stmt ';')* small_stmt [';']`.
pub open spec fn simple_stmt(s: Seq<char>, p: int, indent: int) -> Option<(int, Seq<SmallStatementModel>)> {
    if spaces_at(s, p, indent) {
        let (q, firsts) = smalls_terminated(s, p + indent);
        match small_stmt(s, q) {
            Some((r, last)) => Some(
                (
                    match semicolon(s, r) {
                        Some(t) => t,
                        None => r,
                    },
                    firsts.push(last),
                ),
            ),
            None => None,
        }
    } else {
        None
    }
}

pub proof fn lemma_simple_stmt(s: Seq<char>, p: int, indent: int)
    ensures
        simple_stmt(s, p, indent) matches Some((q, _)) ==> p < q <= s.len(),
{
    if spaces_at(s, p, indent) {
        lemma_smalls_terminated(s, p + indent);
        let q = smalls_terminated(s, p + indent).0;
        lemma_del_stmt(s, q);
        if let Some((r, _)) = small_stmt(s, q) {
            lemma_semicolon(s, r);
        }
    }
}

/// Spaces and tabs, a colon, then spaces and tabs: where a block begins, if
/// a colon stands there.
pub open spec fn colon_end(s: Seq<char>, p: int) -> Option<int> {
    let a = blank_end(s, p);
    if has_char(s, a, ':') {
        Some(blank_end(s, a + 1))
    } else {
        None
    }
}

pub proof fn lemma_colon_end(s: Seq<char>, p: int)
    ensures
        colon_end(s, p) matches Some(q) ==> p < q <= s.len(),
{
    if 0 <= p <= s.len() {
        lemma_span_end(s, p, CharClass::Blank);
        let a = blank_end(s, p);
        if has_char(s, a, ':') {
            lemma_span_end(s, a + 1, CharClass::Blank);
        }
    } else {
        assert(blank_end(s, p) == p);
    }
}

/// Where the statements of a block start and how deep they are indented:
/// after a newline, the `indent` spaces of the enclosing block and at least
/// one more space.
pub open spec fn block_start(s: Seq<char>, p: int, indent: int) -> Option<(int, int)> {
    if has_char(s, p, '\n') && spaces_at(s, p + 1, indent) {
        let a = p + 1 + indent;
        let b = span_end(s, a, CharClass::Space);
        if a < b {
            Some((b, indent + (b - a)))
        } else {
            None
        }
    } else {
        None
    }
}

pub proof fn lemma_block_start(s: Seq<char>, p: int, indent: int)
    ensures
        block_start(s, p, indent) matches Some((q, _)) ==> p < q <= s.len(),
{
    if has_char(s, p, '\n') && spaces_at(s, p + 1, indent) {
        lemma_span_end(s, p + 1 + indent, CharClass::Space);
    }
}

/// The indentation and keyword that open an `elif` (`elif_keyword`) or
/// `else` branch of an `if` indented by `indent`: where the keyword ends.
pub open spec fn branch_keyword_end(s: Seq<char>, p: int, indent: int, keyword: Seq<char>) -> Option<int> {
    if has_char(s, p, '\n') && spaces_at(s, p + 1, indent) && has_tag(s, p + 1 + indent, keyword) {
        Some(p + 1 + indent + keyword.len())
    } else {
        None
    }
}

pub proof fn lemma_branch_keyword_end(s: Seq<char>, p: int, indent: int, keyword: Seq<char>)
    ensures
        branch_keyword_end(s, p, indent, keyword) matches Some(q) ==> p < q <= s.len(),
{
}

/// A statement whose first line is indented by `first_indent` spaces, in a
/// block indented by `indent` spaces: a simple statement, else a compound one.
pub open spec fn statement_rule(s: Seq<char>, p: int, first_indent: int, indent: int) -> Option<
    (int, StatementModel),
>
    decreases s.len() - p, 3int,
{
    match simple_stmt(s, p, first_indent) {
        Some((q, smalls)) => Some((q, StatementModel::Simple(smalls))),
        None => match compound_rule(s, p, first_indent, indent) {
            Some((q, c)) => Some((q, StatementModel::Compound(c))),
            None => None,
        },
    }
}

/// `'if ' cond_and_block ('elif ' cond_and_block)* ['else' ':' block]`, the
/// `elif` and `else` lines indented by `indent` spaces.
pub open spec fn compound_rule(s: Seq<char>, p: int, first_indent: int, indent: int) -> Option<
    (int, CompoundStatementModel),
>
    decreases s.len() - p, 2int,
{
    if spaces_at(s, p, first_indent) && has_tag(s, p + first_indent, if_keyword()) {
        match cond_and_block_rule(s, p + first_indent + 3, indent) {
            Some((q, first)) => {
                // Parsing only ever moves forward (see lemma_statement_rule).
                if p < q <= s.len() {
                    let (r, others, els) = if_tail_rule(s, q, indent);
                    Some((r, CompoundStatementModel::If(seq![first] + others, els)))
                } else {
                    None
                }
            },
            None => None,
        }
    } else {
        None
    }
}

/// `('elif ' cond_and_block)* ['else' ':' block]`.
pub open spec fn if_tail_rule(s: Seq<char>, p: int, indent: int) -> (
    int,
    Seq<(Seq<char>, Seq<StatementModel>)>,
    Option<Seq<StatementModel>>,
)
    decreases s.len() - p, 1int,
{
    let elif = match branch_keyword_end(s, p, indent, elif_keyword()) {
        Some(a) => {
            proof {
                lemma_branch_keyword_end(s, p, indent, elif_keyword());
            }
            cond_and_block_rule(s, a, indent)
        },
        None => None,
    };
    match elif {
        Some((q, branch)) => {
            // Parsing only ever moves forward (see lemma_statement_rule).
            if p < q <= s.len() {
                let (r, others, els) = if_tail_rule(s, q, indent);
                (r, seq![branch] + others, els)
            } else {
                (p, seq![], None)
            }
        },
        None => {
            let (r, els) = else_rule(s, p, indent);
            (r, seq![], els)
        },
    }
}

/// `['else' ':' block]`.
pub open spec fn else_rule(s: Seq<char>, p: int, indent: int) -> (int, Option<Seq<StatementModel>>)
    decreases s.len() - p, 0int,
{
    match branch_keyword_end(s, p, indent, else_keyword()) {
        Some(a) => match colon_end(s, a) {
            Some(b) => {
                proof {
                    lemma_branch_keyword_end(s, p, indent, else_keyword());
                    lemma_colon_end(s, a);
                }
                match block_rule(s, b, indent) {
                    Some((q, body)) => (q, Some(body)),
                    None => (p, None),
                }
            },
            None => (p, None),
        },
        None => (p, None),
    }
}

/// A condition, a colon, then the block it guards.
pub open spec fn cond_and_block_rule(s: Seq<char>, p: int, indent: int) -> Option<
    (int, (Seq<char>, Seq<StatementModel>)),
>
    decreases s.len() - p, 0int,
{
    let a = blank_end(s, p);
    if has_tag(s, a, condition_word()) {
        match colon_end(s, a + 3) {
            Some(b) => {
                proof {
                    if !(0 <= p <= s.len()) {
                        assert(a == p);
                    } else {
                        lemma_span_end(s, p, CharClass::Blank);
                    }
                    lemma_colon_end(s, a + 3);
                }
                match block_rule(s, b, indent) {
                    Some((q, body)) => Some((q, (condition_word(), body))),
                    None => None,
                }
            },
            None => None,
        }
    } else {
        None
    }
}

/// A block: a newline, then one or more statements indented deeper than `indent`.
pub open spec fn block_rule(s: Seq<char>, p: int, indent: int) -> Option<(int, Seq<StatementModel>)>
    decreases s.len() - p, 0int,
{
    match block_start(s, p, indent) {
        Some((a, new_indent)) => {
            proof {
                lemma_block_start(s, p, indent);
            }
            stmt_seq_rule(s, a, new_indent)
        },
        None => None,
    }
}

/// One or more statements indented by `indent` spaces.
pub open spec fn stmt_seq_rule(s: Seq<char>, p: int, indent: int) -> Option<(int, Seq<StatementModel>)>
    decreases s.len() - p, 5int,
{
    if statement_rule(s, p, 0, indent) is Some {
        Some(stmts_more_rule(s, p, indent))
    } else {
        None
    }
}

/// Zero or more statements indented by `indent` spaces.
pub open spec fn stmts_more_rule(s: Seq<char>, p: int, indent: int) -> (int, Seq<StatementModel>)
    decreases s.len() - p, 4int,
{
    match statement_rule(s, p, 0, indent) {
        Some((q, st)) => {
            // Parsing only ever moves forward (see lemma_statement_rule).
            if p < q <= s.len() {
                let (r, rest) = stmts_more_rule(s, q, indent);
                (r, seq![st] + rest)
            } else {
                (p, seq![])
            }
        },
        None => (p, seq![]),
    }
}


/// A statement that parses consumes at least one character and ends inside the input.
pub proof fn lemma_statement_rule(s: Seq<char>, p: int, first_indent: int, indent: int)
    ensures
        statement_rule(s, p, first_indent, indent) matches Some((q, _)) ==> p < q <= s.len(),
    decreases s.len() - p, 3int,
{
    lemma_simple_stmt(s, p, first_indent);
    if simple_stmt(s, p, first_indent) is None {
        lemma_compound_rule(s, p, first_indent, indent);
    }
}

pub proof fn lemma_compound_rule(s: Seq<char>, p: int, first_indent: int, indent: int)
    ensures
        compound_rule(s, p, first_indent, indent) matches Some((q, _)) ==> p < q <= s.len(),
    decreases s.len() - p, 2int,
{
    if spaces_at(s, p, first_indent) && has_tag(s, p + first_indent, if_keyword()) {
        lemma_cond_and_block_rule(s, p + first_indent + 3, indent);
        if let Some((q, _)) = cond_and_block_rule(s, p + first_indent + 3, indent) {
            lemma_if_tail_rule(s, q, indent);
        }
    }
}

pub proof fn lemma_if_tail_rule(s: Seq<char>, p: int, indent: int)
    requires
        0 <= p <= s.len(),
    ensures
        p <= if_tail_rule(s, p, indent).0 <= s.len(),
    decreases s.len() - p, 1int,
{
    lemma_branch_keyword_end(s, p, indent, elif_keyword());
    if let Some(a) = branch_keyword_end(s, p, indent, elif_keyword()) {
        lemma_cond_and_block_rule(s, a, indent);
        if let Some((q, _)) = cond_and_block_rule(s, a, indent) {
            lemma_if_tail_rule(s, q, indent);
        } else {
            lemma_else_rule(s, p, indent);
        }
    } else {
        lemma_else_rule(s, p, indent);
    }
}

pub proof fn lemma_else_rule(s: Seq<char>, p: int, indent: int)
    requires
        0 <= p <= s.len(),
    ensures
        p <= else_rule(s, p, indent).0 <= s.len(),
    decreases s.len() - p, 0int,
{
    lemma_branch_keyword_end(s, p, indent, else_keyword());
    if let Some(a) = branch_keyword_end(s, p, indent, else_keyword()) {
        lemma_colon_end(s, a);
        if let Some(b) = colon_end(s, a) {
            lemma_block_rule(s, b, indent);
        }
    }
}

pub proof fn lemma_cond_and_block_rule(s: Seq<char>, p: int, indent: int)
    ensures
        cond_and_block_rule(s, p, indent) matches Some((q, _)) ==> p < q <= s.len(),
    decreases s.len() - p, 0int,
{
    let a = blank_end(s, p);
    if has_tag(s, a, condition_word()) {
        if !(0 <= p <= s.len()) {
            assert(a == p);
        } else {
            lemma_span_end(s, p, CharClass::Blank);
        }
        lemma_colon_end(s, a + 3);
        if let Some(b) = colon_end(s, a + 3) {
            lemma_block_rule(s, b, indent);
        }
    }
}

pub proof fn lemma_block_rule(s: Seq<char>, p: int, indent: int)
    ensures
        block_rule(s, p, indent) matches Some((q, _)) ==> p < q <= s.len(),
    decreases s.len() - p, 0int,
{
    lemma_block_start(s, p, indent);
    if let Some((a, new_indent)) = block_start(s, p, indent) {
        lemma_stmt_seq_rule(s, a, new_indent);
    }
}

pub proof fn lemma_stmt_seq_rule(s: Seq<char>, p: int, indent: int)
    ensures
        stmt_seq_rule(s, p, indent) matches Some((q, _)) ==> p < q <= s.len(),
    decreases s.len() - p, 5int,
{
    lemma_statement_rule(s, p, 0, indent);
    if let Some((q, st)) = statement_rule(s, p, 0, indent) {
        lemma_stmts_more_rule(s, q, indent);
    }
}

pub proof fn lemma_stmts_more_rule(s: Seq<char>, p: int, indent: int)
    requires
        0 <= p <= s.len(),
    ensures
        p <= stmts_more_rule(s, p, indent).0 <= s.len(),
    decreases s.len() - p, 4int,
{
    lemma_statement_rule(s, p, 0, indent);
    if let Some((q, _)) = statement_rule(s, p, 0, indent) {
        lemma_stmts_more_rule(s, q, indent);
    }
}


proof fn lemma_names_view_push(v: Seq<Name>, n: Name)
    ensures
        names_view(v.push(n)) == names_view(v).push(n@),
{
    assert(names_view(v.push(n)) =~= names_view(v).push(n@));
}

proof fn lemma_smalls_view_push(v: Seq<SmallStatement>, x: SmallStatement)
    ensures
        smalls_view(v.push(x)) == smalls_view(v).push(x@),
{
    assert(smalls_view(v.push(x)) =~= smalls_view(v).push(x@));
}

proof fn lemma_statements_model_push(v: Seq<Statement>, x: Statement)
    ensures
        statements_model(v.push(x)) == statements_model(v).push(statement_model(x)),
{
    assert(v.push(x).drop_last() =~= v);
}

proof fn lemma_branches_model_push(v: Seq<(Test, Vec<Statement>)>, x: (Test, Vec<Statement>))
    ensures
        branches_model(v.push(x)) == branches_model(v).push((x.0@, statements_model(x.1@))),
{
    assert(v.push(x).drop_last() =~= v);
}

/// Parses `NAME*` (each name after spaces and tabs), appending the names to `names`.
fn parse_names_more(src: &Source, pos: usize, names: &mut Vec<Name>) -> (end: usize)
    requires
        pos <= src.chars().len(),
    ensures
        end == names_more(src.chars(), pos as int).0,
        names_view(final(names)@) == names_view(old(names)@) + names_more(src.chars(), pos as int).1,
        pos <= end <= src.chars().len(),
{
    let ghost s = src.chars();
    let len = src.len();
    let mut cur = pos;
    assert(names_view(names@) =~= names_view(names@) + Seq::<Seq<char>>::empty());
    loop
        invariant
            pos <= cur <= len,
            len == s.len(),
            s == src.chars(),
            names_more(s, pos as int).0 == names_more(s, cur as int).0,
            names_view(old(names)@) + names_more(s, pos as int).1 == names_view(names@) + names_more(
                s,
                cur as int,
            ).1,
        ensures
            names_more(s, cur as int) == (cur as int, Seq::<Seq<char>>::empty()),
        decreases len - cur,
    {
        let a = skip_class(src, cur, CharClass::Blank);
        match parse_name(src, a) {
            Some((q, n)) => {
                proof {
                    lemma_names_view_push(names@, n);
                    let rest = names_more(s, q as int).1;
                    assert(names_view(names@).push(n@) + rest =~= names_view(names@) + (seq![n@]
                        + rest));
                }
                names.push(n);
                cur = q;
            },
            None => {
                break;
            },
        }
    }
    assert(names_view(names@) + Seq::<Seq<char>>::empty() =~= names_view(names@));
    cur
}

/// Parses `'del ' NAME+`.
pub fn parse_del_stmt(src: &Source, pos: usize) -> (r: Option<(usize, Vec<Name>)>)
    requires
        pos <= src.chars().len(),
    ensures
        match r {
            Some((q, names)) => del_stmt(src.chars(), pos as int) == Some((q as int, names_view(names@))),
            None => del_stmt(src.chars(), pos as int) is None,
        },
{
    let keyword = ['d', 'e', 'l', ' '];
    assert(keyword@ == del_keyword());
    let a = match src.after_tag(pos, &keyword) {
        Some(p4) => skip_class(src, p4, CharClass::Blank),
        None => {
            return None;
        },
    };
    match parse_name(src, a) {
        Some((q, n)) => {
            let mut names: Vec<Name> = Vec::new();
            names.push(n);
            proof {
                assert(names_view(names@) =~= seq![n@]);
            }
            let b = parse_names_more(src, q, &mut names);
            Some((skip_class(src, b, CharClass::Blank), names))
        },
        None => None,
    }
}

pub fn parse_small_stmt(src: &Source, pos: usize) -> (r: Option<(usize, SmallStatement)>)
    requires
        pos <= src.chars().len(),
    ensures
        match r {
            Some((q, st)) => small_stmt(src.chars(), pos as int) == Some((q as int, st@)),
            None => small_stmt(src.chars(), pos as int) is None,
        },
        r matches Some((q, _)) ==> pos < q <= src.chars().len(),
{
    proof {
        lemma_del_stmt(src.chars(), pos as int);
    }
    match parse_del_stmt(src, pos) {
        Some((q, names)) => Some((q, SmallStatement::Del(names))),
        None => None,
    }
}

/// Parses `(small_stmt ';')*`, appending the statements to `smalls`.
fn parse_smalls_terminated(src: &Source, pos: usize, smalls: &mut Vec<SmallStatement>) -> (end: usize)
    requires
        pos <= src.chars().len(),
    ensures
        end == smalls_terminated(src.chars(), pos as int).0,
        smalls_view(final(smalls)@) == smalls_view(old(smalls)@) + smalls_terminated(
            src.chars(),
            pos as int,
        ).1,
        pos <= end <= src.chars().len(),
{
    let ghost s = src.chars();
    let len = src.len();
    let mut cur = pos;
    assert(smalls_view(smalls@) =~= smalls_view(smalls@) + Seq::<SmallStatementModel>::empty());
    loop
        invariant
            pos <= cur <= len,
            len == s.len(),
            s == src.chars(),
            smalls_terminated(s, pos as int).0 == smalls_terminated(s, cur as int).0,
            smalls_view(old(smalls)@) + smalls_terminated(s, pos as int).1 == smalls_view(smalls@)
                + smalls_terminated(s, cur as int).1,
        ensures
            smalls_terminated(s, cur as int) == (cur as int, Seq::<SmallStatementModel>::empty()),
        decreases len - cur,
    {
        match parse_small_stmt(src, cur) {
            Some((a, st)) => match parse_semicolon(src, a) {
                Some(b) => {
                    proof {
                        lemma_smalls_view_push(smalls@, st);
                        let rest = smalls_terminated(s, b as int).1;
                        assert(smalls_view(smalls@).push(st@) + rest =~= smalls_view(smalls@) + (seq![
                            st@,
                        ] + rest));
                    }
                    smalls.push(st);
                    cur = b;
                },
                None => {
                    break;
                },
            },
            None => {
                break;
            },
        }
    }
    assert(smalls_view(smalls@) + Seq::<SmallStatementModel>::empty() =~= smalls_view(smalls@));
    cur
}

/// Parses a simple statement on a line indented by `indent` spaces.
pub fn parse_simple_stmt(src: &Source, pos: usize, indent: usize) -> (r: Option<(usize, Vec<SmallStatement>)>)
    requires
        pos <= src.chars().len(),
    ensures
        match r {
            Some((q, smalls)) => simple_stmt(src.chars(), pos as int, indent as int) == Some(
                (q as int, smalls_view(smalls@)),
            ),
            None => simple_stmt(src.chars(), pos as int, indent as int) is None,
        },
{
    let start = match after_spaces(src, pos, indent) {
        Some(start) => start,
        None => {
            return None;
        },
    };
    let mut smalls: Vec<SmallStatement> = Vec::new();
    proof {
        assert(smalls_view(smalls@) =~= Seq::<SmallStatementModel>::empty());
    }
    let q = parse_smalls_terminated(src, start, &mut smalls);
    match parse_small_stmt(src, q) {
        Some((r, last)) => {
            proof {
                lemma_smalls_view_push(smalls@, last);
            }
            smalls.push(last);
            let end = match parse_semicolon(src, r) {
                Some(t) => t,
                None => r,
            };
            Some((end, smalls))
        },
        None => None,
    }
}

fn parse_colon_end(src: &Source, pos: usize) -> (r: Option<usize>)
    requires
        pos <= src.chars().len(),
    ensures
        match r {
            Some(q) => colon_end(src.chars(), pos as int) == Some(q as int),
            None => colon_end(src.chars(), pos as int) is None,
        },
        r matches Some(q) ==> pos < q <= src.chars().len(),
{
    proof {
        lemma_colon_end(src.chars(), pos as int);
    }
    let a = skip_class(src, pos, CharClass::Blank);
    match src.after_char(a, ':') {
        Some(b) => Some(skip_class(src, b, CharClass::Blank)),
        None => None,
    }
}

fn parse_block_start(src: &Source, pos: usize, indent: usize) -> (r: Option<(usize, usize)>)
    requires
        pos <= src.chars().len(),
    ensures
        match r {
            Some((q, new_indent)) => block_start(src.chars(), pos as int, indent as int) == Some(
                (q as int, new_indent as int),
            ),
            None => block_start(src.chars(), pos as int, indent as int) is None,
        },
        r matches Some((q, _)) ==> pos < q <= src.chars().len(),
{
    proof {
        lemma_block_start(src.chars(), pos as int, indent as int);
    }
    let a = match src.after_char(pos, '\n') {
        Some(line) => match after_spaces(src, line, indent) {
            Some(a) => a,
            None => {
                return None;
            },
        },
        None => {
            return None;
        },
    };
    let b = skip_class(src, a, CharClass::Space);
    if a < b {
        Some((b, indent + (b - a)))
    } else {
        None
    }
}

fn parse_branch_keyword_end(src: &Source, pos: usize, indent: usize, keyword: &[char]) -> (r: Option<usize>)
    requires
        pos <= src.chars().len(),
    ensures
        match r {
            Some(q) => branch_keyword_end(src.chars(), pos as int, indent as int, keyword@) == Some(q as int),
            None => branch_keyword_end(src.chars(), pos as int, indent as int, keyword@) is None,
        },
        r matches Some(q) ==> pos < q <= src.chars().len(),
{
    match src.after_char(pos, '\n') {
        Some(line) => match after_spaces(src, line, indent) {
            Some(a) => src.after_tag(a, keyword),
            None => None,
        },
        None => None,
    }
}

pub open spec fn opt_statements_model(o: Option<Vec<Statement>>) -> Option<Seq<StatementModel>> {
    match o {
        Some(v) => Some(statements_model(v@)),
        None => None,
    }
}

/// Parses a statement whose first line is indented by `first_indent` spaces,
/// in a block indented by `indent` spaces.
pub fn parse_statement(src: &Source, pos: usize, first_indent: usize, indent: usize) -> (r: Option<
    (usize, Statement),
>)
    requires
        pos <= src.chars().len(),
    ensures
        match r {
            Some((q, st)) => statement_rule(src.chars(), pos as int, first_indent as int, indent as int)
                == Some((q as int, st@)),
            None => statement_rule(src.chars(), pos as int, first_indent as int, indent as int) is None,
        },
    decreases src.chars().len() - pos, 3int,
{
    match parse_simple_stmt(src, pos, first_indent) {
        Some((q, smalls)) => Some((q, Statement::Simple(smalls))),
        None => match parse_compound_stmt(src, pos, first_indent, indent) {
            Some((q, c)) => Some((q, Statement::Compound(Box::new(c)))),
            None => None,
        },
    }
}

/// Parses an `if` statement with its `elif` and `else` branches.
pub fn parse_compound_stmt(src: &Source, pos: usize, first_indent: usize, indent: usize) -> (r: Option<
    (usize, CompoundStatement),
>)
    requires
        pos <= src.chars().len(),
    ensures
        match r {
            Some((q, c)) => compound_rule(src.chars(), pos as int, first_indent as int, indent as int)
                == Some((q as int, c@)),
            None => compound_rule(src.chars(), pos as int, first_indent as int, indent as int) is None,
        },
    decreases src.chars().len() - pos, 2int,
{
    let ghost s = src.chars();
    let len = src.len();
    let keyword = ['i', 'f', ' '];
    assert(keyword@ == if_keyword());
    let cond = match after_spaces(src, pos, first_indent) {
        Some(a) => src.after_tag(a, &keyword),
        None => None,
    };
    let cond = match cond {
        Some(cond) => cond,
        None => {
            return None;
        },
    };
    let elif_kw = ['e', 'l', 'i', 'f', ' '];
    assert(elif_kw@ == elif_keyword());
    match parse_cond_and_block(src, cond, indent) {
        None => None,
        Some((q, first)) => {
            proof {
                lemma_cond_and_block_rule(s, cond as int, indent as int);
            }
            let ghost first_model = (first.0@, statements_model(first.1@));
            let mut branches: Vec<(Test, Vec<Statement>)> = Vec::new();
            proof {
                lemma_branches_model_push(branches@, first);
                assert(branches@.push(first).drop_last() =~= branches@);
            }
            branches.push(first);
            assert(branches_model(branches@) =~= seq![first_model]);
            let mut cur = q;
            let mut els: Option<Vec<Statement>> = None;
            loop
                invariant_except_break
                    pos < q <= cur <= len,
                    len == s.len(),
                    s == src.chars(),
                    if_tail_rule(s, q as int, indent as int).0 == if_tail_rule(s, cur as int, indent as int).0,
                    if_tail_rule(s, q as int, indent as int).2 == if_tail_rule(s, cur as int, indent as int).2,
                    seq![first_model] + if_tail_rule(s, q as int, indent as int).1 == branches_model(
                        branches@,
                    ) + if_tail_rule(s, cur as int, indent as int).1,
                    elif_kw@ == elif_keyword(),
                invariant
                    pos < q <= cur <= len,
                ensures
                    cur == if_tail_rule(s, q as int, indent as int).0,
                    opt_statements_model(els) == if_tail_rule(s, q as int, indent as int).2,
                    branches_model(branches@) == seq![first_model] + if_tail_rule(s, q as int, indent as int).1,
                decreases len - cur,
            {
                let elif = match parse_branch_keyword_end(src, cur, indent, &elif_kw) {
                    Some(b) => parse_cond_and_block(src, b, indent),
                    None => None,
                };
                match elif {
                    Some((r, branch)) => {
                        proof {
                            lemma_branch_keyword_end(s, cur as int, indent as int, elif_keyword());
                            let b = branch_keyword_end(s, cur as int, indent as int, elif_keyword()).unwrap();
                            lemma_cond_and_block_rule(s, b, indent as int);
                            lemma_branches_model_push(branches@, branch);
                            let rest = if_tail_rule(s, r as int, indent as int).1;
                            let m = (branch.0@, statements_model(branch.1@));
                            assert(branches_model(branches@).push(m) + rest =~= branches_model(branches@)
                                + (seq![m] + rest));
                        }
                        branches.push(branch);
                        cur = r;
                    },
                    None => {
                        let (r, e) = parse_else(src, cur, indent);
                        proof {
                            assert(branches_model(branches@) + Seq::<(Seq<char>, Seq<StatementModel>)>::empty()
                                =~= branches_model(branches@));
                        }
                        cur = r;
                        els = e;
                        break;
                    },
                }
            }
            Some((cur, CompoundStatement::If(branches, els)))
        },
    }
}

/// Parses `['else' ':' block]`.
fn parse_else(src: &Source, pos: usize, indent: usize) -> (r: (usize, Option<Vec<Statement>>))
    requires
        pos <= src.chars().len(),
    ensures
        else_rule(src.chars(), pos as int, indent as int) == (r.0 as int, opt_statements_model(r.1)),
        pos <= r.0 <= src.chars().len(),
    decreases src.chars().len() - pos, 0int,
{
    proof {
        lemma_else_rule(src.chars(), pos as int, indent as int);
    }
    let keyword = ['e', 'l', 's', 'e'];
    assert(keyword@ == else_keyword());
    match parse_branch_keyword_end(src, pos, indent, &keyword) {
        Some(a) => match parse_colon_end(src, a) {
            Some(b) => match parse_block(src, b, indent) {
                Some((q, body)) => (q, Some(body)),
                None => (pos, None),
            },
            None => (pos, None),
        },
        None => (pos, None),
    }
}

/// Parses a condition, a colon and the block it guards.
pub fn parse_cond_and_block(src: &Source, pos: usize, indent: usize) -> (r: Option<
    (usize, (Test, Vec<Statement>)),
>)
    requires
        pos <= src.chars().len(),
    ensures
        match r {
            Some((q, (cond, body))) => cond_and_block_rule(src.chars(), pos as int, indent as int) == Some(
                (q as int, (cond@, statements_model(body@))),
            ),
            None => cond_and_block_rule(src.chars(), pos as int, indent as int) is None,
        },
    decreases src.chars().len() - pos, 0int,
{
    let a = skip_class(src, pos, CharClass::Blank);
    let word = ['f', 'o', 'o'];
    assert(word@ == condition_word());
    let a3 = match src.after_tag(a, &word) {
        Some(a3) => a3,
        None => {
            return None;
        },
    };
    match parse_colon_end(src, a3) {
        Some(b) => match parse_block(src, b, indent) {
            Some((q, body)) => Some((q, (src.string_between(a, a3), body))),
            None => None,
        },
        None => None,
    }
}

/// Parses a block: a newline, then statements indented deeper than `indent`.
pub fn parse_block(src: &Source, pos: usize, indent: usize) -> (r: Option<(usize, Vec<Statement>)>)
    requires
        pos <= src.chars().len(),
    ensures
        match r {
            Some((q, body)) => block_rule(src.chars(), pos as int, indent as int) == Some(
                (q as int, statements_model(body@)),
            ),
            None => block_rule(src.chars(), pos as int, indent as int) is None,
        },
    decreases src.chars().len() - pos, 0int,
{
    match parse_block_start(src, pos, indent) {
        Some((a, new_indent)) => parse_stmt_seq(src, a, new_indent),
        None => None,
    }
}

/// Parses one or more statements indented by `indent` spaces.
pub fn parse_stmt_seq(src: &Source, pos: usize, indent: usize) -> (r: Option<(usize, Vec<Statement>)>)
    requires
        pos <= src.chars().len(),
    ensures
        match r {
            Some((q, body)) => stmt_seq_rule(src.chars(), pos as int, indent as int) == Some(
                (q as int, statements_model(body@)),
            ),
            None => stmt_seq_rule(src.chars(), pos as int, indent as int) is None,
        },
    decreases src.chars().len() - pos, 5int,
{
    let ghost s = src.chars();
    let len = src.len();
    match parse_statement(src, pos, 0, indent) {
        None => None,
        Some((q, first)) => {
            proof {
                lemma_statement_rule(s, pos as int, 0, indent as int);
            }
            let mut stmts: Vec<Statement> = Vec::new();
            proof {
                lemma_statements_model_push(stmts@, first);
                assert(statements_model(stmts@.push(first)) =~= seq![statement_model(first)]);
            }
            stmts.push(first);
            let mut cur = q;
            loop
                invariant_except_break
                    pos < cur <= len,
                    len == s.len(),
                    s == src.chars(),
                    stmts_more_rule(s, pos as int, indent as int).0 == stmts_more_rule(s, cur as int, indent as int).0,
                    stmts_more_rule(s, pos as int, indent as int).1 == statements_model(stmts@)
                        + stmts_more_rule(s, cur as int, indent as int).1,
                invariant
                    pos < cur <= len,
                ensures
                    cur == stmts_more_rule(s, pos as int, indent as int).0,
                    statements_model(stmts@) == stmts_more_rule(s, pos as int, indent as int).1,
                decreases len - cur,
            {
                match parse_statement(src, cur, 0, indent) {
                    Some((r, st)) => {
                        proof {
                            lemma_statement_rule(s, cur as int, 0, indent as int);
                            lemma_statements_model_push(stmts@, st);
                            let rest = stmts_more_rule(s, r as int, indent as int).1;
                            assert(statements_model(stmts@).push(statement_model(st)) + rest
                                =~= statements_model(stmts@) + (seq![statement_model(st)] + rest));
                        }
                        stmts.push(st);
                        cur = r;
                    },
                    None => {
                        proof {
                            assert(statements_model(stmts@) + Seq::<StatementModel>::empty()
                                =~= statements_model(stmts@));
                        }
                        break;
                    },
                }
            }
            Some((cur, stmts))
        },
    }
}


/// Parses a statement at the start of `input`, its first line indented by
/// `first_indent` spaces, in a block indented by `indent` spaces. Returns the
/// rest of the input and the statement.
pub fn statement<'a>(input: &'a str, first_indent: usize, indent: usize) -> (r: Result<
    (&'a str, Statement),
    ParseError,
>)
    ensures
        match statement_rule(input@, 0, first_indent as int, indent as int) {
            Some((q, m)) => r matches Ok((rest, st)) && rest@ == input@.subrange(q, input@.len() as int)
                && st@ == m,
            None => r is Err,
        },
{
    let src = Source::new(input);
    proof {
        lemma_statement_rule(input@, 0, first_indent as int, indent as int);
    }
    match parse_statement(&src, 0, first_indent, indent) {
        Some((q, st)) => Ok((src.rest(q), st)),
        None => Err(ParseError),
    }
}

/// Parses a block at the start of `input`: a newline, then statements
/// indented deeper than `indent` spaces. Returns the rest of the input and
/// the statements.
pub fn block<'a>(input: &'a str, indent: usize) -> (r: Result<(&'a str, Vec<Statement>), ParseError>)
    ensures
        match block_rule(input@, 0, indent as int) {
            Some((q, m)) => r matches Ok((rest, body)) && rest@ == input@.subrange(q, input@.len() as int)
                && statements_model(body@) == m,
            None => r is Err,
        },
{
    let src = Source::new(input);
    proof {
        lemma_block_rule(input@, 0, indent as int);
    }
    match parse_block(&src, 0, indent) {
        Some((q, body)) => Ok((src.rest(q), body)),
        None => Err(ParseError),
    }
}

/// Parses an `if` statement at the start of `input`, its first line indented
/// by `first_indent` spaces and its `elif` and `else` lines by `indent`
/// spaces. Returns the rest of the input and the statement.
pub fn compound_stmt<'a>(input: &'a str, first_indent: usize, indent: usize) -> (r: Result<
    (&'a str, CompoundStatement),
    ParseError,
>)
    ensures
        match compound_rule(input@, 0, first_indent as int, indent as int) {
            Some((q, m)) => r matches Ok((rest, c)) && rest@ == input@.subrange(q, input@.len() as int)
                && c@ == m,
            None => r is Err,
        },
{
    let src = Source::new(input);
    proof {
        lemma_compound_rule(input@, 0, first_indent as int, indent as int);
    }
    match parse_compound_stmt(&src, 0, first_indent, indent) {
        Some((q, c)) => Ok((src.rest(q), c)),
        None => Err(ParseError),
    }
}


/// Indentation is a run of spaces in front of a statement: parsing a
/// statement whose first line is indented by `first_indent` spaces is
/// parsing those spaces, then a statement with no indentation of its own.
pub proof fn lemma_statement_indentation(s: Seq<char>, p: int, first_indent: int, indent: int)
    ensures
        statement_rule(s, p, first_indent, indent) == if spaces_at(s, p, first_indent) {
            statement_rule(s, p + first_indent, 0, indent)
        } else {
            None
        },
{
    if spaces_at(s, p, first_indent) {
        let a = p + first_indent;
        assert(spaces_at(s, a, 0));
        assert(a + 0 == a);
        if has_tag(s, a, if_keyword()) {
            lemma_cond_and_block_rule(s, a + 3, indent);
        }
    }
}

/// A run of spaces from `a` up to `c`, not followed by another space, ends at `c`.
proof fn lemma_space_run_end(s: Seq<char>, a: int, c: int)
    requires
        0 <= a <= c <= s.len(),
        forall|i: int| a <= i < c ==> s[i] == ' ',
        c < s.len() ==> s[c] != ' ',
    ensures
        span_end(s, a, CharClass::Space) == c,
    decreases c - a,
{
    if a < c {
        lemma_space_run_end(s, a + 1, c);
    }
}

/// The statements of a block are indented absolutely: when the line after the
/// newline starts with exactly `k` spaces, the block's statements are parsed
/// at indentation `k` (not at the `k - indent` spaces it adds to the enclosing
/// block), so an `if` inside the block finds its `elif` and `else` lines at
/// column `k`. A line indented no deeper than the enclosing block starts no block.
pub proof fn lemma_block_indentation(s: Seq<char>, p: int, indent: int, k: int)
    requires
        0 <= indent,
        has_char(s, p, '\n'),
        spaces_at(s, p + 1, k),
        p + 1 + k < s.len() ==> s[p + 1 + k] != ' ',
    ensures
        block_rule(s, p, indent) == if indent < k {
            stmt_seq_rule(s, p + 1 + k, k)
        } else {
            None
        },
{
    if indent <= k {
        assert(spaces_at(s, p + 1, indent));
        lemma_space_run_end(s, p + 1 + indent, p + 1 + k);
    } else {
        assert(!spaces_at(s, p + 1, indent));
    }
}

/// The small statements of a line come out in source order: a small statement
/// followed by a semicolon is put in front of the statements of the rest of
/// the line (for `s1; R` the result is `s1` followed by the result of `R`).
pub proof fn lemma_simple_stmt_order(s: Seq<char>, p: int)
    ensures
        small_stmt(s, p) matches Some((a, first)) ==> (semicolon(s, a) matches Some(b) ==> simple_stmt(s, p, 0)
            == match simple_stmt(s, b, 0) {
            Some((e, rest)) => Some((e, seq![first] + rest)),
            None => None,
        }),
{
    lemma_small_terminated_step(s, p);
    if let Some((a, first)) = small_stmt(s, p) {
        if let Some(b) = semicolon(s, a) {
            assert(spaces_at(s, p, 0));
            assert(spaces_at(s, b, 0));
            let (q, firsts) = smalls_terminated(s, b);
            assert(smalls_terminated(s, p) == (q, seq![first] + firsts));
            if let Some((r, last)) = small_stmt(s, q) {
                assert((seq![first] + firsts).push(last) =~= seq![first] + firsts.push(last));
            }
        }
    }
}

/// The names of a `del` come out in source order: the name after the spaces
/// at `p` is followed by the names after it.
pub proof fn lemma_names_order(s: Seq<char>, p: int)
    ensures
        names_more(s, p) == match name(s, blank_end(s, p)) {
            Some((q, n)) => (names_more(s, q).0, seq![n] + names_more(s, q).1),
            None => (p, Seq::<Seq<char>>::empty()),
        },
{
}

/// The names of `del n1 n2 ...` are its first name followed by the names after it.
pub proof fn lemma_del_stmt_order(s: Seq<char>, p: int)
    ensures
        del_stmt(s, p) matches Some((_, names)) ==> (name(s, blank_end(s, p + 4)) matches Some((q, first))
            && names == seq![first] + names_more(s, q).1),
{
}

/// The statements of a block come out in source order: the first statement,
/// then the statements after it (if any parse there).
pub proof fn lemma_stmt_seq_order(s: Seq<char>, p: int, indent: int)
    ensures
        stmt_seq_rule(s, p, indent) == match statement_rule(s, p, 0, indent) {
            None => None,
            Some((q, first)) => Some(
                match stmt_seq_rule(s, q, indent) {
                    Some((r, rest)) => (r, seq![first] + rest),
                    None => (q, seq![first]),
                },
            ),
        },
{
    lemma_statement_rule(s, p, 0, indent);
    if let Some((q, first)) = statement_rule(s, p, 0, indent) {
        assert(stmts_more_rule(s, p, indent) == (stmts_more_rule(s, q, indent).0, seq![first]
            + stmts_more_rule(s, q, indent).1));
        if statement_rule(s, q, 0, indent) is None {
            assert(stmts_more_rule(s, q, indent) == (q, Seq::<StatementModel>::empty()));
            assert(seq![first] + Seq::<StatementModel>::empty() =~= seq![first]);
        }
    }
}

/// The `elif` branches of an `if` come out in source order, and the `else`
/// block is the one after the last `elif`: an `elif` branch at `p` is followed
/// by the branches after it.
pub proof fn lemma_if_tail_order(s: Seq<char>, p: int, indent: int)
    requires
        0 <= p <= s.len(),
    ensures
        match branch_keyword_end(s, p, indent, elif_keyword()) {
            Some(a) => match cond_and_block_rule(s, a, indent) {
                Some((q, branch)) => if_tail_rule(s, p, indent) == (
                    if_tail_rule(s, q, indent).0,
                    seq![branch] + if_tail_rule(s, q, indent).1,
                    if_tail_rule(s, q, indent).2,
                ),
                None => if_tail_rule(s, p, indent) == (else_rule(s, p, indent).0, Seq::<(Seq<char>, Seq<StatementModel>)>::empty(), else_rule(
                    s,
                    p,
                    indent,
                ).1),
            },
            None => if_tail_rule(s, p, indent) == (else_rule(s, p, indent).0, Seq::<(Seq<char>, Seq<StatementModel>)>::empty(), else_rule(
                s,
                p,
                indent,
            ).1),
        },
{
    lemma_branch_keyword_end(s, p, indent, elif_keyword());
    if let Some(a) = branch_keyword_end(s, p, indent, elif_keyword()) {
        lemma_cond_and_block_rule(s, a, indent);
    }
}

/// The branches of an `if` are its first condition and block followed by the
/// `elif` branches after it, in source order.
pub proof fn lemma_compound_order(s: Seq<char>, p: int, first_indent: int, indent: int)
    ensures
        compound_rule(s, p, first_indent, indent) matches Some((_, CompoundStatementModel::If(branches, els)))
            ==> (cond_and_block_rule(s, p + first_indent + 3, indent) matches Some((q, first)) && branches
            == seq![first] + if_tail_rule(s, q, indent).1 && els == if_tail_rule(s, q, indent).2),
{
}

/// When no `else` block follows, nothing is consumed.
pub proof fn lemma_else_rule_absent(s: Seq<char>, p: int, indent: int)
    ensures
        else_rule(s, p, indent).1 is None ==> else_rule(s, p, indent).0 == p,
{
}

/// An `else` block belongs to an `if` only when the `else` line is indented
/// exactly as the `if`'s `elif` and `else` lines are (`indent` spaces).
pub proof fn lemma_else_rule_indentation(s: Seq<char>, p: int, indent: int)
    ensures
        else_rule(s, p, indent).1 is Some ==> {
            &&& has_char(s, p, '\n')
            &&& spaces_at(s, p + 1, indent)
            &&& has_tag(s, p + 1 + indent, else_keyword())
        },
{
}

/// A `del` statement takes the spaces and tabs after its names: it ends at the
/// end of the input or before a character that is neither.
pub proof fn lemma_del_ends_at_token(s: Seq<char>, p: int)
    ensures
        del_stmt(s, p) matches Some((q, _)) ==> q == s.len() || !in_class(CharClass::Blank, s[q]),
{
    if has_tag(s, p, del_keyword()) && name(s, blank_end(s, p + 4)) is Some {
        lemma_names_more(s, p + 4);
        lemma_span_end(s, names_more(s, p + 4).0, CharClass::Blank);
    }
}

/// An `elif` branch belongs to an `if` only when the `elif` line is indented
/// exactly by the `if`'s `indent` spaces.
pub proof fn lemma_elif_indentation(s: Seq<char>, p: int, indent: int)
    requires
        0 <= p <= s.len(),
    ensures
        if_tail_rule(s, p, indent).1.len() > 0 ==> {
            &&& has_char(s, p, '\n')
            &&& spaces_at(s, p + 1, indent)
            &&& has_tag(s, p + 1 + indent, elif_keyword())
        },
{
    lemma_if_tail_order(s, p, indent);
}

} // verus!
