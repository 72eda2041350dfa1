use vstd::prelude::*;

use crate::expressions::{lemma_test, opt_expr_view, parse_test, Expression, ExpressionModel};
use crate::helpers::{
    in_class, lemma_name, lemma_span_end, name, opt_name, opt_view, parse_name, parse_opt_name,
    skip_class, ws_end, CharClass, Name,
};
use crate::source::{has_char, Source};
use crate::ParseError;

verus! {

/// The single-star part of a parameter list.
#[derive(Clone, Debug, PartialEq, Eq, Hash)]
pub enum StarParams {
    /// No single star
    No,
    /// `*` alone, with no name
    Anonymous,
    /// `*args`
    Named(Name),
}

/// One parameter: its name, its annotation and its default value.
pub type Param = (Name, Option<Expression>, Option<Expression>);

/// A parameter list whose parameters may carry annotations (`def` parameters).
#[derive(Clone, Debug, PartialEq)]
pub struct TypedArgsList {
    pub positional_args: Vec<(Name, Option<Expression>, Option<Expression>)>,
    pub star_args: StarParams,
    pub keyword_args: Vec<(Name, Option<Expression>, Option<Expression>)>,
    pub star_kwargs: Option<Name>,
}

/// A parameter list whose parameters carry no annotations (`lambda` parameters).
#[derive(Clone, Debug, PartialEq)]
pub struct UntypedArgsList {
    pub positional_args: Vec<(Name, Option<Expression>)>,
    pub star_args: StarParams,
    pub keyword_args: Vec<(Name, Option<Expression>)>,
    pub star_kwargs: Option<Name>,
}

pub type ParamModel = (Seq<char>, Option<ExpressionModel>, Option<ExpressionModel>);

pub type UntypedParamModel = (Seq<char>, Option<ExpressionModel>);

pub enum StarParamsModel {
    No,
    Anonymous,
    Named(Seq<char>),
}

pub struct ArgsListModel {
    pub positional_args: Seq<ParamModel>,
    pub star_args: StarParamsModel,
    pub keyword_args: Seq<ParamModel>,
    pub star_kwargs: Option<Seq<char>>,
}

pub struct UntypedArgsListModel {
    pub positional_args: Seq<UntypedParamModel>,
    pub star_args: StarParamsModel,
    pub keyword_args: Seq<UntypedParamModel>,
    pub star_kwargs: Option<Seq<char>>,
}

impl View for StarParams {
    type V = StarParamsModel;

    open spec fn view(&self) -> StarParamsModel {
        match self {
            StarParams::No => StarParamsModel::No,
            StarParams::Anonymous => StarParamsModel::Anonymous,
            StarParams::Named(n) => StarParamsModel::Named(n@),
        }
    }
}

pub open spec fn param_view(p: Param) -> ParamModel {
    (p.0@, opt_expr_view(p.1), opt_expr_view(p.2))
}

pub open spec fn params_view(v: Seq<Param>) -> Seq<ParamModel> {
    v.map_values(|p: Param| param_view(p))
}

pub open spec fn untyped_params_view(v: Seq<(Name, Option<Expression>)>) -> Seq<UntypedParamModel> {
    v.map_values(|p: (Name, Option<Expression>)| (p.0@, opt_expr_view(p.1)))
}

impl View for TypedArgsList {
    type V = ArgsListModel;

    open spec fn view(&self) -> ArgsListModel {
        ArgsListModel {
            positional_args: params_view(self.positional_args@),
            star_args: self.star_args@,
            keyword_args: params_view(self.keyword_args@),
            star_kwargs: opt_view(self.star_kwargs),
        }
    }
}

impl View for UntypedArgsList {
    type V = UntypedArgsListModel;

    open spec fn view(&self) -> UntypedArgsListModel {
        UntypedArgsListModel {
            positional_args: untyped_params_view(self.positional_args@),
            star_args: self.star_args@,
            keyword_args: untyped_params_view(self.keyword_args@),
            star_kwargs: opt_view(self.star_kwargs),
        }
    }
}

/// A parameter without its annotation.
pub open spec fn drop_annotation(p: ParamModel) -> UntypedParamModel {
    (p.0, p.2)
}

/// The untyped list with the same parameters as `m`.
pub open spec fn untyped_model(m: ArgsListModel) -> UntypedArgsListModel {
    UntypedArgsListModel {
        positional_args: m.positional_args.map_values(|p: ParamModel| drop_annotation(p)),
        star_args: m.star_args,
        keyword_args: m.keyword_args.map_values(|p: ParamModel| drop_annotation(p)),
        star_kwargs: m.star_kwargs,
    }
}

pub open spec fn opt_opt_view(o: Option<Option<Name>>) -> Option<Option<Seq<char>>> {
    match o {
        Some(inner) => Some(opt_view(inner)),
        None => None,
    }
}

/// What the single-star part is, from what was found after `*` (if a `*` was found).
pub open spec fn star_params_of(star_args: Option<Option<Seq<char>>>) -> StarParamsModel {
    match star_args {
        Some(Some(n)) => StarParamsModel::Named(n),
        Some(None) => StarParamsModel::Anonymous,
        None => StarParamsModel::No,
    }
}

pub open spec fn args_list(
    positional_args: Seq<ParamModel>,
    star_args: Option<Option<Seq<char>>>,
    keyword_args: Seq<ParamModel>,
    star_kwargs: Option<Seq<char>>,
) -> ArgsListModel {
    ArgsListModel {
        positional_args,
        star_args: star_params_of(star_args),
        keyword_args,
        star_kwargs,
    }
}

/// Builds a parameter list from its parts.
pub fn make_list(
    positional_args: Vec<Param>,
    star_args: Option<Option<Name>>,
    keyword_args: Vec<Param>,
    star_kwargs: Option<Name>,
) -> (list: TypedArgsList)
    ensures
        list@ == args_list(
            params_view(positional_args@),
            opt_opt_view(star_args),
            params_view(keyword_args@),
            opt_view(star_kwargs),
        ),
{
    TypedArgsList {
        positional_args,
        star_args: match star_args {
            Some(Some(name)) => StarParams::Named(name),
            Some(None) => StarParams::Anonymous,
            None => StarParams::No,
        },
        keyword_args,
        star_kwargs,
    }
}

/// `[c test]`: the character `c` followed by an expression, if both are there.
pub open spec fn opt_prefixed_test(s: Seq<char>, p: int, c: char) -> (int, Option<ExpressionModel>) {
    if has_char(s, p, c) {
        match crate::expressions::test(s, p + 1) {
            Some((q, e)) => (q, Some(e)),
            None => (p, None),
        }
    } else {
        (p, None)
    }
}

/// The name of a parameter, with its annotation `':' test` in a typed list.
pub open spec fn fpdef(s: Seq<char>, p: int, typed: bool) -> Option<(int, (Seq<char>, Option<ExpressionModel>))> {
    if typed {
        match name(s, ws_end(s, p)) {
            Some((q, n)) => {
                let (r, annotation) = opt_prefixed_test(s, ws_end(s, q), ':');
                Some((ws_end(s, r), (n, annotation)))
            },
            None => None,
        }
    } else {
        match name(s, p) {
            Some((q, n)) => Some((q, (n, None))),
            None => None,
        }
    }
}

/// A parameter: `fpdef ['=' test]`, with whitespace around its parts.
pub open spec fn fpdef_with_default(s: Seq<char>, p: int, typed: bool) -> Option<(int, ParamModel)> {
    match fpdef(s, ws_end(s, p), typed) {
        Some((q, (n, annotation))) => {
            let (r, default) = opt_prefixed_test(s, ws_end(s, q), '=');
            Some((ws_end(s, r), (n, annotation, default)))
        },
        None => None,
    }
}

pub proof fn lemma_fpdef_with_default(s: Seq<char>, p: int, typed: bool)
    requires
        0 <= p <= s.len(),
    ensures
        fpdef_with_default(s, p, typed) matches Some((q, _)) ==> p < q <= s.len(),
{
    lemma_span_end(s, p, CharClass::Whitespace);
    let a = ws_end(s, p);
    lemma_span_end(s, a, CharClass::Whitespace);
    lemma_name(s, a);
    lemma_name(s, ws_end(s, a));
    if let Some((q, _)) = fpdef(s, a, typed) {
        if typed {
            let (q1, _) = name(s, ws_end(s, a)).unwrap();
            lemma_span_end(s, q1, CharClass::Whitespace);
            let b = ws_end(s, q1);
            if has_char(s, b, ':') {
                lemma_test(s, b + 1);
            }
            lemma_span_end(s, opt_prefixed_test(s, b, ':').0, CharClass::Whitespace);
        }
        lemma_span_end(s, q, CharClass::Whitespace);
        let c = ws_end(s, q);
        if has_char(s, c, '=') {
            lemma_test(s, c + 1);
        }
        lemma_span_end(s, opt_prefixed_test(s, c, '=').0, CharClass::Whitespace);
    }
}

/// One step of a comma-separated list moves forward and stays in the input.
pub proof fn lemma_params_tail_step(s: Seq<char>, p: int, typed: bool, spaced: bool)
    ensures
        ({
            let a = if spaced { ws_end(s, p) } else { p };
            let b = if spaced { ws_end(s, a + 1) } else { a + 1 };
            has_char(s, a, ',') ==> (fpdef_with_default(s, b, typed) matches Some((q, _)) ==> p < q <= s.len())
        }),
{
    let a = if spaced { ws_end(s, p) } else { p };
    if 0 <= p <= s.len() {
        lemma_span_end(s, p, CharClass::Whitespace);
    }
    if has_char(s, a, ',') {
        if p < 0 || p > s.len() {
            assert(a == p);
        }
        lemma_span_end(s, a + 1, CharClass::Whitespace);
        let b = if spaced { ws_end(s, a + 1) } else { a + 1 };
        lemma_fpdef_with_default(s, b, typed);
    }
}

/// `(',' param)*` : the parameters that follow a first one. With `spaced`,
/// whitespace may also stand before each comma and after it.
pub open spec fn params_tail(s: Seq<char>, p: int, typed: bool, spaced: bool) -> (int, Seq<ParamModel>)
    decreases s.len() - p,
{
    let a = if spaced { ws_end(s, p) } else { p };
    if has_char(s, a, ',') {
        let b = if spaced { ws_end(s, a + 1) } else { a + 1 };
        match fpdef_with_default(s, b, typed) {
            Some((q, param)) => {
                proof {
                    lemma_params_tail_step(s, p, typed, spaced);
                }
                let (r, rest) = params_tail(s, q, typed, spaced);
                (r, seq![param] + rest)
            },
            None => (p, seq![]),
        }
    } else {
        (p, seq![])
    }
}

pub proof fn lemma_params_tail(s: Seq<char>, p: int, typed: bool, spaced: bool)
    requires
        0 <= p <= s.len(),
    ensures
        p <= params_tail(s, p, typed, spaced).0 <= s.len(),
    decreases s.len() - p,
{
    lemma_params_tail_step(s, p, typed, spaced);
    let a = if spaced { ws_end(s, p) } else { p };
    if has_char(s, a, ',') {
        let b = if spaced { ws_end(s, a + 1) } else { a + 1 };
        if let Some((q, _)) = fpdef_with_default(s, b, typed) {
            lemma_params_tail(s, q, typed, spaced);
        }
    }
}

/// `param (',' param)*`, the commas standing right after each parameter.
pub open spec fn params_nonempty(s: Seq<char>, p: int, typed: bool) -> Option<(int, Seq<ParamModel>)> {
    match fpdef_with_default(s, p, typed) {
        Some((q, param)) => {
            let (r, rest) = params_tail(s, q, typed, false);
            Some((r, seq![param] + rest))
        },
        None => None,
    }
}

/// `[param (',' param)*]`, with whitespace allowed around the commas.
pub open spec fn params_spaced(s: Seq<char>, p: int, typed: bool) -> (int, Seq<ParamModel>) {
    match fpdef_with_default(s, ws_end(s, p), typed) {
        Some((q, param)) => {
            let (r, rest) = params_tail(s, q, typed, true);
            (r, seq![param] + rest)
        },
        None => (p, seq![]),
    }
}

/// `['**' NAME]`, with nothing between the stars and the name.
pub open spec fn opt_star_star_name(s: Seq<char>, p: int) -> (int, Option<Seq<char>>) {
    if has_char(s, p, '*') && has_char(s, p + 1, '*') {
        match name(s, p + 2) {
            Some((q, n)) => (q, Some(n)),
            None => (p, None),
        }
    } else {
        (p, None)
    }
}

/// A list that starts with `'**' NAME`.
pub open spec fn star_star_branch(s: Seq<char>, p: int) -> Option<(int, ArgsListModel)> {
    let a = ws_end(s, p);
    if has_char(s, a, '*') && has_char(s, a + 1, '*') {
        match name(s, ws_end(s, a + 2)) {
            Some((q, n)) => Some((q, args_list(seq![], None, seq![], Some(n)))),
            None => None,
        }
    } else {
        None
    }
}

/// A list that starts with `'*' [NAME]`.
pub open spec fn star_branch(s: Seq<char>, p: int, typed: bool) -> Option<(int, ArgsListModel)> {
    let a = ws_end(s, p);
    if has_char(s, a, '*') {
        let (b, star) = opt_name(s, ws_end(s, a + 1));
        let (c, keyword_args) = params_spaced(s, ws_end(s, b), typed);
        let d = ws_end(s, c);
        let (e, star_kwargs) = if has_char(s, d, ',') {
            opt_star_star_name(s, d + 1)
        } else {
            (d, None)
        };
        Some((e, args_list(seq![], Some(star), keyword_args, star_kwargs)))
    } else {
        None
    }
}

/// `[',' ['**' NAME]]` with whitespace around the comma and after the name.
pub open spec fn star_kwargs_spaced(s: Seq<char>, p: int) -> (int, Option<Seq<char>>) {
    let a = ws_end(s, p);
    if has_char(s, a, ',') {
        let (b, star_kwargs) = opt_star_star_name(s, ws_end(s, a + 1));
        (ws_end(s, b), star_kwargs)
    } else {
        (p, None)
    }
}

/// What may follow `positional ','`: `'**' NAME`, or `'*' [NAME] [',' params]`
/// then `[',' ['**' NAME]]`; the list it makes, if either stands at `p`.
pub open spec fn positional_rest(s: Seq<char>, p: int, typed: bool, positional: Seq<ParamModel>) -> (
    int,
    Option<ArgsListModel>,
) {
    if has_char(s, p, '*') && has_char(s, p + 1, '*') && name(s, p + 2) is Some {
        let (q, n) = name(s, p + 2).unwrap();
        (q, Some(args_list(positional, None, seq![], Some(n))))
    } else if has_char(s, p, '*') {
        let (a, star) = opt_name(s, p + 1);
        let (b, keyword_args) = if has_char(s, a, ',') {
            match params_nonempty(s, a + 1, typed) {
                Some((b, keyword_args)) => (b, keyword_args),
                None => (a, seq![]),
            }
        } else {
            (a, seq![])
        };
        let (c, star_kwargs) = star_kwargs_spaced(s, b);
        (c, Some(args_list(positional, Some(star), keyword_args, star_kwargs)))
    } else {
        (p, None)
    }
}

/// `[',' [positional_rest]]` after the positional parameters, with whitespace
/// around the comma; the list it makes if a rest was found.
pub open spec fn after_positional(s: Seq<char>, p: int, typed: bool, positional: Seq<ParamModel>) -> (
    int,
    Option<ArgsListModel>,
) {
    let a = ws_end(s, p);
    if has_char(s, a, ',') {
        let (b, list) = positional_rest(s, ws_end(s, a + 1), typed, positional);
        (ws_end(s, b), list)
    } else {
        (p, None)
    }
}

/// A list that starts with positional parameters.
pub open spec fn positional_branch(s: Seq<char>, p: int, typed: bool) -> Option<(int, ArgsListModel)> {
    match params_nonempty(s, ws_end(s, p), typed) {
        Some((q, positional)) => {
            let (r, rest) = after_positional(s, ws_end(s, q), typed, positional);
            Some((
                r,
                match rest {
                    Some(list) => list,
                    None => args_list(positional, None, seq![], None),
                },
            ))
        },
        None => None,
    }
}

/// A parameter list (`typedargslist` when `typed`, else `varargslist`),
/// with the whitespace around it: the first of the three forms that matches.
pub open spec fn paramlist(s: Seq<char>, p: int, typed: bool) -> Option<(int, ArgsListModel)> {
    let found = match star_star_branch(s, p) {
        Some(r) => Some(r),
        None => match star_branch(s, p, typed) {
            Some(r) => Some(r),
            None => positional_branch(s, p, typed),
        },
    };
    match found {
        Some((q, list)) => Some((ws_end(s, q), list)),
        None => None,
    }
}


fn parse_opt_prefixed_test(src: &Source, pos: usize, c: char) -> (r: (usize, Option<Expression>))
    requires
        pos <= src.chars().len(),
    ensures
        opt_prefixed_test(src.chars(), pos as int, c) == (r.0 as int, opt_expr_view(r.1)),
        pos <= r.0 <= src.chars().len(),
{
    match src.after_char(pos, c) {
        Some(a) => match parse_test(src, a) {
            Some((q, e)) => (q, Some(e)),
            None => (pos, None),
        },
        None => (pos, None),
    }
}

/// Parses the name of a parameter (and, in a typed list, its annotation).
pub fn parse_fpdef(src: &Source, pos: usize, typed: bool) -> (r: Option<(usize, (Name, Option<Expression>))>)
    requires
        pos <= src.chars().len(),
    ensures
        match r {
            Some((q, (n, annotation))) => fpdef(src.chars(), pos as int, typed) == Some(
                (q as int, (n@, opt_expr_view(annotation))),
            ),
            None => fpdef(src.chars(), pos as int, typed) is None,
        },
        r matches Some((q, _)) ==> pos < q <= src.chars().len(),
{
    if typed {
        let a = skip_class(src, pos, CharClass::Whitespace);
        match parse_name(src, a) {
            Some((q, n)) => {
                let b = skip_class(src, q, CharClass::Whitespace);
                let (c, annotation) = parse_opt_prefixed_test(src, b, ':');
                Some((skip_class(src, c, CharClass::Whitespace), (n, annotation)))
            },
            None => None,
        }
    } else {
        match parse_name(src, pos) {
            Some((q, n)) => Some((q, (n, None))),
            None => None,
        }
    }
}

/// Parses a parameter with its default value.
pub fn parse_fpdef_with_default(src: &Source, pos: usize, typed: bool) -> (r: Option<(usize, Param)>)
    requires
        pos <= src.chars().len(),
    ensures
        match r {
            Some((q, param)) => fpdef_with_default(src.chars(), pos as int, typed) == Some(
                (q as int, param_view(param)),
            ),
            None => fpdef_with_default(src.chars(), pos as int, typed) is None,
        },
        r matches Some((q, _)) ==> pos < q <= src.chars().len(),
{
    let a = skip_class(src, pos, CharClass::Whitespace);
    match parse_fpdef(src, a, typed) {
        Some((q, (n, annotation))) => {
            let b = skip_class(src, q, CharClass::Whitespace);
            let (c, default) = parse_opt_prefixed_test(src, b, '=');
            Some((skip_class(src, c, CharClass::Whitespace), (n, annotation, default)))
        },
        None => None,
    }
}

proof fn lemma_params_view_push(v: Seq<Param>, p: Param)
    ensures
        params_view(v.push(p)) == params_view(v).push(param_view(p)),
{
    assert(params_view(v.push(p)) =~= params_view(v).push(param_view(p)));
}

/// Parses `(',' param)*` after a first parameter, appending the parameters to `params`.
fn parse_params_tail(src: &Source, pos: usize, typed: bool, spaced: bool, params: &mut Vec<Param>) -> (end: usize)
    requires
        pos <= src.chars().len(),
    ensures
        end == params_tail(src.chars(), pos as int, typed, spaced).0,
        params_view(final(params)@) == params_view(old(params)@) + params_tail(
            src.chars(),
            pos as int,
            typed,
            spaced,
        ).1,
        pos <= end <= src.chars().len(),
{
    let ghost s = src.chars();
    let len = src.len();
    let mut cur = pos;
    assert(params_view(params@) =~= params_view(params@) + Seq::<ParamModel>::empty());
    loop
        invariant
            pos <= cur <= len,
            len == s.len(),
            s == src.chars(),
            params_tail(s, pos as int, typed, spaced).0 == params_tail(s, cur as int, typed, spaced).0,
            params_view(old(params)@) + params_tail(s, pos as int, typed, spaced).1 == params_view(
                params@,
            ) + params_tail(s, cur as int, typed, spaced).1,
        ensures
            params_tail(s, cur as int, typed, spaced) == (cur as int, Seq::<ParamModel>::empty()),
        decreases len - cur,
    {
        let a = if spaced {
            skip_class(src, cur, CharClass::Whitespace)
        } else {
            cur
        };
        let b = match src.after_char(a, ',') {
            Some(a1) => if spaced {
                skip_class(src, a1, CharClass::Whitespace)
            } else {
                a1
            },
            None => {
                break;
            },
        };
        match parse_fpdef_with_default(src, b, typed) {
            Some((q, param)) => {
                proof {
                    lemma_params_view_push(params@, param);
                    let rest = params_tail(s, q as int, typed, spaced).1;
                    assert(params_tail(s, cur as int, typed, spaced).1 == seq![param_view(param)] + rest);
                    assert(params_view(params@).push(param_view(param)) + rest =~= params_view(params@)
                        + (seq![param_view(param)] + rest));
                }
                params.push(param);
                cur = q;
            },
            None => {
                break;
            },
        }
    }
    proof {
        assert(params_view(params@) + Seq::<ParamModel>::empty() =~= params_view(params@));
    }
    cur
}

/// Parses `param (',' param)*`.
pub fn parse_params_nonempty(src: &Source, pos: usize, typed: bool) -> (r: Option<(usize, Vec<Param>)>)
    requires
        pos <= src.chars().len(),
    ensures
        match r {
            Some((q, params)) => params_nonempty(src.chars(), pos as int, typed) == Some(
                (q as int, params_view(params@)),
            ),
            None => params_nonempty(src.chars(), pos as int, typed) is None,
        },
        r matches Some((q, _)) ==> pos < q <= src.chars().len(),
{
    match parse_fpdef_with_default(src, pos, typed) {
        Some((q, param)) => {
            let mut params: Vec<Param> = Vec::new();
            params.push(param);
            proof {
                assert(params_view(params@) =~= seq![param_view(param)]);
            }
            let r = parse_params_tail(src, q, typed, false, &mut params);
            Some((r, params))
        },
        None => None,
    }
}

/// Parses `[param (',' param)*]` with whitespace around the commas.
pub fn parse_params_spaced(src: &Source, pos: usize, typed: bool) -> (r: (usize, Vec<Param>))
    requires
        pos <= src.chars().len(),
    ensures
        params_spaced(src.chars(), pos as int, typed) == (r.0 as int, params_view(r.1@)),
        pos <= r.0 <= src.chars().len(),
{
    let a = skip_class(src, pos, CharClass::Whitespace);
    let mut params: Vec<Param> = Vec::new();
    match parse_fpdef_with_default(src, a, typed) {
        Some((q, param)) => {
            params.push(param);
            proof {
                assert(params_view(params@) =~= seq![param_view(param)]);
            }
            let r = parse_params_tail(src, q, typed, true, &mut params);
            (r, params)
        },
        None => {
            proof {
                assert(params_view(params@) =~= Seq::<ParamModel>::empty());
            }
            (pos, params)
        },
    }
}

fn parse_opt_star_star_name(src: &Source, pos: usize) -> (r: (usize, Option<Name>))
    requires
        pos <= src.chars().len(),
    ensures
        opt_star_star_name(src.chars(), pos as int) == (r.0 as int, opt_view(r.1)),
        pos <= r.0 <= src.chars().len(),
{
    match after_star_star(src, pos) {
        Some(a) => match parse_name(src, a) {
            Some((q, n)) => (q, Some(n)),
            None => (pos, None),
        },
        None => (pos, None),
    }
}

/// The position after `**`, if it stands at `pos`.
fn after_star_star(src: &Source, pos: usize) -> (r: Option<usize>)
    ensures
        match r {
            Some(q) => has_char(src.chars(), pos as int, '*') && has_char(src.chars(), pos + 1, '*')
                && q == pos + 2,
            None => !(has_char(src.chars(), pos as int, '*') && has_char(src.chars(), pos + 1, '*')),
        },
{
    match src.after_char(pos, '*') {
        Some(a) => src.after_char(a, '*'),
        None => None,
    }
}

fn parse_star_star_branch(src: &Source, pos: usize) -> (r: Option<(usize, TypedArgsList)>)
    requires
        pos <= src.chars().len(),
    ensures
        match r {
            Some((q, list)) => star_star_branch(src.chars(), pos as int) == Some((q as int, list@)),
            None => star_star_branch(src.chars(), pos as int) is None,
        },
        r matches Some((q, _)) ==> pos <= q <= src.chars().len(),
{
    let a = skip_class(src, pos, CharClass::Whitespace);
    if let Some(a2) = after_star_star(src, a) {
        let b = skip_class(src, a2, CharClass::Whitespace);
        match parse_name(src, b) {
            Some((q, n)) => {
                let list = make_list(Vec::new(), None, Vec::new(), Some(n));
                proof {
                    assert(params_view(Seq::<Param>::empty()) =~= Seq::<ParamModel>::empty());
                }
                Some((q, list))
            },
            None => None,
        }
    } else {
        None
    }
}

fn parse_star_branch(src: &Source, pos: usize, typed: bool) -> (r: Option<(usize, TypedArgsList)>)
    requires
        pos <= src.chars().len(),
    ensures
        match r {
            Some((q, list)) => star_branch(src.chars(), pos as int, typed) == Some((q as int, list@)),
            None => star_branch(src.chars(), pos as int, typed) is None,
        },
        r matches Some((q, _)) ==> pos <= q <= src.chars().len(),
{
    let a = skip_class(src, pos, CharClass::Whitespace);
    if let Some(a1) = src.after_char(a, '*') {
        let (b, star) = parse_opt_name(src, skip_class(src, a1, CharClass::Whitespace));
        let b1 = skip_class(src, b, CharClass::Whitespace);
        let (c, keyword_args) = parse_params_spaced(src, b1, typed);
        let d = skip_class(src, c, CharClass::Whitespace);
        let (e, star_kwargs) = match src.after_char(d, ',') {
            Some(d1) => parse_opt_star_star_name(src, d1),
            None => (d, None),
        };
        let list = make_list(Vec::new(), Some(star), keyword_args, star_kwargs);
        proof {
            assert(params_view(Seq::<Param>::empty()) =~= Seq::<ParamModel>::empty());
        }
        Some((e, list))
    } else {
        None
    }
}

fn parse_star_kwargs_spaced(src: &Source, pos: usize) -> (r: (usize, Option<Name>))
    requires
        pos <= src.chars().len(),
    ensures
        star_kwargs_spaced(src.chars(), pos as int) == (r.0 as int, opt_view(r.1)),
        pos <= r.0 <= src.chars().len(),
{
    let a = skip_class(src, pos, CharClass::Whitespace);
    match src.after_char(a, ',') {
        Some(a1) => {
            let (b, star_kwargs) = parse_opt_star_star_name(src, skip_class(src, a1, CharClass::Whitespace));
            (skip_class(src, b, CharClass::Whitespace), star_kwargs)
        },
        None => (pos, None),
    }
}

/// Parses what may follow `positional ','`. When neither form stands at `pos`,
/// the positional parameters are handed back unchanged.
fn parse_positional_rest(src: &Source, pos: usize, typed: bool, positional: Vec<Param>) -> (r: (
    usize,
    Result<TypedArgsList, Vec<Param>>,
))
    requires
        pos <= src.chars().len(),
    ensures
        match r.1 {
            Ok(list) => positional_rest(src.chars(), pos as int, typed, params_view(positional@)) == (
                r.0 as int,
                Some(list@),
            ),
            Err(back) => positional_rest(src.chars(), pos as int, typed, params_view(positional@))
                == (r.0 as int, None::<ArgsListModel>) && back@ == positional@,
        },
        pos <= r.0 <= src.chars().len(),
{
    let star_star = match after_star_star(src, pos) {
        Some(a) => parse_name(src, a),
        None => None,
    };
    match star_star {
        Some((q, n)) => {
            let list = make_list(positional, None, Vec::new(), Some(n));
            proof {
                assert(params_view(Seq::<Param>::empty()) =~= Seq::<ParamModel>::empty());
            }
            (q, Ok(list))
        },
        None => {
            if let Some(p1) = src.after_char(pos, '*') {
                let (a, star) = parse_opt_name(src, p1);
                let mut keyword_args: Vec<Param> = Vec::new();
                let mut b = a;
                if let Some(a1) = src.after_char(a, ',') {
                    if let Some((q, params)) = parse_params_nonempty(src, a1, typed) {
                        b = q;
                        keyword_args = params;
                    }
                }
                proof {
                    assert(params_view(Seq::<Param>::empty()) =~= Seq::<ParamModel>::empty());
                }
                let (c, star_kwargs) = parse_star_kwargs_spaced(src, b);
                let list = make_list(positional, Some(star), keyword_args, star_kwargs);
                (c, Ok(list))
            } else {
                (pos, Err(positional))
            }
        },
    }
}

/// Parses `[',' [rest]]` after the positional parameters and makes the whole list.
fn parse_after_positional(src: &Source, pos: usize, typed: bool, positional: Vec<Param>) -> (r: (
    usize,
    TypedArgsList,
))
    requires
        pos <= src.chars().len(),
    ensures
        ({
            let (q, rest) = after_positional(src.chars(), pos as int, typed, params_view(positional@));
            &&& q == r.0
            &&& r.1@ == match rest {
                Some(list) => list,
                None => args_list(params_view(positional@), None, seq![], None),
            }
        }),
        pos <= r.0 <= src.chars().len(),
{
    let a = skip_class(src, pos, CharClass::Whitespace);
    let (q, rest) = match src.after_char(a, ',') {
        Some(a1) => {
            let (b, rest) = parse_positional_rest(src, skip_class(src, a1, CharClass::Whitespace), typed, positional);
            (skip_class(src, b, CharClass::Whitespace), rest)
        },
        None => (pos, Err(positional)),
    };
    match rest {
        Ok(list) => (q, list),
        Err(positional) => {
            proof {
                assert(params_view(Seq::<Param>::empty()) =~= Seq::<ParamModel>::empty());
            }
            (q, make_list(positional, None, Vec::new(), None))
        },
    }
}

fn parse_positional_branch(src: &Source, pos: usize, typed: bool) -> (r: Option<(usize, TypedArgsList)>)
    requires
        pos <= src.chars().len(),
    ensures
        match r {
            Some((q, list)) => positional_branch(src.chars(), pos as int, typed) == Some((q as int, list@)),
            None => positional_branch(src.chars(), pos as int, typed) is None,
        },
        r matches Some((q, _)) ==> pos <= q <= src.chars().len(),
{
    let a = skip_class(src, pos, CharClass::Whitespace);
    match parse_params_nonempty(src, a, typed) {
        Some((q, positional)) => {
            let q1 = skip_class(src, q, CharClass::Whitespace);
            let (r, list) = parse_after_positional(src, q1, typed, positional);
            Some((r, list))
        },
        None => None,
    }
}

/// Parses a parameter list at `pos`: typed (`typedargslist`) or not (`varargslist`).
pub fn parse_paramlist(src: &Source, pos: usize, typed: bool) -> (r: Option<(usize, TypedArgsList)>)
    requires
        pos <= src.chars().len(),
    ensures
        match r {
            Some((q, list)) => paramlist(src.chars(), pos as int, typed) == Some((q as int, list@)),
            None => paramlist(src.chars(), pos as int, typed) is None,
        },
        r matches Some((q, _)) ==> pos <= q <= src.chars().len(),
{
    let found = match parse_star_star_branch(src, pos) {
        Some(r) => Some(r),
        None => match parse_star_branch(src, pos, typed) {
            Some(r) => Some(r),
            None => parse_positional_branch(src, pos, typed),
        },
    };
    match found {
        Some((q, list)) => Some((skip_class(src, q, CharClass::Whitespace), list)),
        None => None,
    }
}


/// The same parameters without their annotations.
pub fn drop_annotations(params: Vec<Param>) -> (r: Vec<(Name, Option<Expression>)>)
    ensures
        untyped_params_view(r@) == params_view(params@).map_values(|p: ParamModel| drop_annotation(p)),
{
    let ghost all = params@;
    let mut out: Vec<(Name, Option<Expression>)> = Vec::new();
    for param in it: params.into_iter()
        invariant
            it.seq() == all,
            out@.len() == it.index(),
            forall|j: int| #![trigger out@[j]] 0 <= j < out@.len() ==> out@[j].0 == all[j].0 && out@[j].1 == all[j].2,
    {
        let (n, _annotation, default) = param;
        out.push((n, default));
    }
    assert(untyped_params_view(out@) =~= params_view(all).map_values(|p: ParamModel| drop_annotation(p)));
    out
}

/// Builds an untyped parameter list from a list whose parameters carry no
/// annotation, dropping the annotation slots.
pub fn make_untyped_list(list: TypedArgsList) -> (r: UntypedArgsList)
    ensures
        r@ == untyped_model(list@),
{
    UntypedArgsList {
        positional_args: drop_annotations(list.positional_args),
        star_args: list.star_args,
        keyword_args: drop_annotations(list.keyword_args),
        star_kwargs: list.star_kwargs,
    }
}

impl TypedArgsList {
    /// Parses a typed parameter list (as between the brackets of a `def`) at
    /// the start of `input`, with the whitespace around it. Returns the rest of
    /// the input and the list.
    pub fn parse<'a>(input: &'a str) -> (r: Result<(&'a str, TypedArgsList), ParseError>)
        ensures
            match paramlist(input@, 0, true) {
                Some((q, m)) => r matches Ok((rest, list)) && rest@ == input@.subrange(q, input@.len() as int)
                    && list@ == m,
                None => r is Err,
            },
    {
        let src = Source::new(input);
        match parse_paramlist(&src, 0, true) {
            Some((q, list)) => Ok((src.rest(q), list)),
            None => Err(ParseError),
        }
    }
}

impl UntypedArgsList {
    /// Parses an untyped parameter list (as after `lambda`) at the start of
    /// `input`, with the whitespace around it. Returns the rest of the input
    /// and the list.
    pub fn parse<'a>(input: &'a str) -> (r: Result<(&'a str, UntypedArgsList), ParseError>)
        ensures
            match paramlist(input@, 0, false) {
                Some((q, m)) => r matches Ok((rest, list)) && rest@ == input@.subrange(q, input@.len() as int)
                    && list@ == untyped_model(m),
                None => r is Err,
            },
    {
        let src = Source::new(input);
        match parse_paramlist(&src, 0, false) {
            Some((q, list)) => Ok((src.rest(q), make_untyped_list(list))),
            None => Err(ParseError),
        }
    }
}


/// A parameter list that parses ends inside the input, after where it started.
pub proof fn lemma_paramlist(s: Seq<char>, p: int, typed: bool)
    requires
        0 <= p <= s.len(),
    ensures
        paramlist(s, p, typed) matches Some((q, _)) ==> p <= q <= s.len(),
{
    lemma_span_end(s, p, CharClass::Whitespace);
    let a = ws_end(s, p);
    lemma_span_end(s, a, CharClass::Whitespace);
    let found = match star_star_branch(s, p) {
        Some(r) => Some(r),
        None => match star_branch(s, p, typed) {
            Some(r) => Some(r),
            None => positional_branch(s, p, typed),
        },
    };
    if star_star_branch(s, p) is Some {
        if has_char(s, a, '*') && has_char(s, a + 1, '*') {
            lemma_span_end(s, a + 2, CharClass::Whitespace);
            lemma_name(s, ws_end(s, a + 2));
        }
    } else if star_branch(s, p, typed) is Some {
        lemma_star_branch(s, p, typed);
    } else {
        lemma_positional_branch(s, p, typed);
    }
    if let Some((q, _)) = found {
        lemma_span_end(s, q, CharClass::Whitespace);
    }
}

proof fn lemma_opt_name(s: Seq<char>, p: int)
    requires
        0 <= p <= s.len(),
    ensures
        p <= opt_name(s, p).0 <= s.len(),
{
    lemma_name(s, p);
}

proof fn lemma_opt_star_star_name(s: Seq<char>, p: int)
    requires
        0 <= p <= s.len(),
    ensures
        p <= opt_star_star_name(s, p).0 <= s.len(),
{
    if has_char(s, p, '*') && has_char(s, p + 1, '*') {
        lemma_name(s, p + 2);
    }
}

proof fn lemma_params_lists(s: Seq<char>, p: int, typed: bool)
    requires
        0 <= p <= s.len(),
    ensures
        p <= params_spaced(s, p, typed).0 <= s.len(),
        params_nonempty(s, p, typed) matches Some((q, _)) ==> p < q <= s.len(),
{
    lemma_span_end(s, p, CharClass::Whitespace);
    lemma_fpdef_with_default(s, ws_end(s, p), typed);
    lemma_fpdef_with_default(s, p, typed);
    if let Some((q, _)) = fpdef_with_default(s, ws_end(s, p), typed) {
        lemma_params_tail(s, q, typed, true);
    }
    if let Some((q, _)) = fpdef_with_default(s, p, typed) {
        lemma_params_tail(s, q, typed, false);
    }
}

proof fn lemma_star_kwargs_spaced(s: Seq<char>, p: int)
    requires
        0 <= p <= s.len(),
    ensures
        p <= star_kwargs_spaced(s, p).0 <= s.len(),
{
    lemma_span_end(s, p, CharClass::Whitespace);
    let a = ws_end(s, p);
    if has_char(s, a, ',') {
        lemma_span_end(s, a + 1, CharClass::Whitespace);
        lemma_opt_star_star_name(s, ws_end(s, a + 1));
        lemma_span_end(s, opt_star_star_name(s, ws_end(s, a + 1)).0, CharClass::Whitespace);
    }
}

proof fn lemma_star_branch(s: Seq<char>, p: int, typed: bool)
    requires
        0 <= p <= s.len(),
    ensures
        star_branch(s, p, typed) matches Some((q, _)) ==> p <= q <= s.len(),
{
    lemma_span_end(s, p, CharClass::Whitespace);
    let a = ws_end(s, p);
    if has_char(s, a, '*') {
        lemma_span_end(s, a + 1, CharClass::Whitespace);
        lemma_opt_name(s, ws_end(s, a + 1));
        let b = opt_name(s, ws_end(s, a + 1)).0;
        lemma_span_end(s, b, CharClass::Whitespace);
        lemma_params_lists(s, ws_end(s, b), typed);
        let c = params_spaced(s, ws_end(s, b), typed).0;
        lemma_span_end(s, c, CharClass::Whitespace);
        let d = ws_end(s, c);
        if has_char(s, d, ',') {
            lemma_opt_star_star_name(s, d + 1);
        }
    }
}

proof fn lemma_positional_rest(s: Seq<char>, p: int, typed: bool, positional: Seq<ParamModel>)
    requires
        0 <= p <= s.len(),
    ensures
        p <= positional_rest(s, p, typed, positional).0 <= s.len(),
{
    if has_char(s, p, '*') && has_char(s, p + 1, '*') && name(s, p + 2) is Some {
        lemma_name(s, p + 2);
    } else if has_char(s, p, '*') {
        lemma_opt_name(s, p + 1);
        let a = opt_name(s, p + 1).0;
        if has_char(s, a, ',') {
            lemma_params_lists(s, a + 1, typed);
        }
        let b = if has_char(s, a, ',') {
            match params_nonempty(s, a + 1, typed) {
                Some((b, _)) => b,
                None => a,
            }
        } else {
            a
        };
        lemma_star_kwargs_spaced(s, b);
    }
}

proof fn lemma_positional_branch(s: Seq<char>, p: int, typed: bool)
    requires
        0 <= p <= s.len(),
    ensures
        positional_branch(s, p, typed) matches Some((q, _)) ==> p <= q <= s.len(),
{
    lemma_span_end(s, p, CharClass::Whitespace);
    lemma_params_lists(s, ws_end(s, p), typed);
    if let Some((q, positional)) = params_nonempty(s, ws_end(s, p), typed) {
        lemma_span_end(s, q, CharClass::Whitespace);
        let b = ws_end(s, q);
        lemma_span_end(s, b, CharClass::Whitespace);
        let a = ws_end(s, b);
        if has_char(s, a, ',') {
            lemma_span_end(s, a + 1, CharClass::Whitespace);
            lemma_positional_rest(s, ws_end(s, a + 1), typed, positional);
            lemma_span_end(s, positional_rest(s, ws_end(s, a + 1), typed, positional).0, CharClass::Whitespace);
        }
    }
}

/// Whitespace in front of a parameter list changes nothing but where it starts.
pub proof fn lemma_paramlist_leading_whitespace(s: Seq<char>, p: int, typed: bool)
    requires
        0 <= p <= s.len(),
    ensures
        paramlist(s, p, typed) == paramlist(s, ws_end(s, p), typed),
{
    lemma_span_end(s, p, CharClass::Whitespace);
}

/// A comma-separated parameter list is its first parameter followed, after
/// the comma, by a list of the same kind: every parameter of the list, not
/// only the first, is read by the same parameter rule (typed or untyped).
/// Where no parameter follows the comma, the list ends before the comma.
pub proof fn lemma_params_nonempty_split(s: Seq<char>, p: int, typed: bool)
    ensures
        match fpdef_with_default(s, p, typed) {
            None => params_nonempty(s, p, typed) is None,
            Some((q, first)) => params_nonempty(s, p, typed) == if has_char(s, q, ',') && params_nonempty(
                s,
                q + 1,
                typed,
            ) is Some {
                let (r, rest) = params_nonempty(s, q + 1, typed).unwrap();
                Some((r, seq![first] + rest))
            } else {
                Some((q, seq![first]))
            },
        },
{
    if let Some((q, first)) = fpdef_with_default(s, p, typed) {
        lemma_params_tail_step(s, q, typed, false);
    }
}

/// The keyword parameters after `*`: the first parameter (if any) followed,
/// after a comma with whitespace around it, by a list of the same kind.
pub proof fn lemma_params_spaced_split(s: Seq<char>, p: int, typed: bool)
    requires
        0 <= p <= s.len(),
    ensures
        match fpdef_with_default(s, ws_end(s, p), typed) {
            None => params_spaced(s, p, typed) == (p, Seq::<ParamModel>::empty()),
            Some((q, first)) => {
                let a = ws_end(s, q);
                params_spaced(s, p, typed) == if has_char(s, a, ',') && params_spaced(
                    s,
                    a + 1,
                    typed,
                ).1.len() > 0 {
                    let (r, rest) = params_spaced(s, a + 1, typed);
                    (r, seq![first] + rest)
                } else {
                    (q, seq![first])
                }
            },
        },
{
    if let Some((q, first)) = fpdef_with_default(s, ws_end(s, p), typed) {
        lemma_params_tail_step(s, q, typed, true);
        let a = ws_end(s, q);
        if has_char(s, a, ',') {
            let b = ws_end(s, a + 1);
            if let Some((q2, prm)) = fpdef_with_default(s, b, typed) {
                lemma_span_end(s, a + 1, CharClass::Whitespace);
                lemma_fpdef_with_default(s, b, typed);
                lemma_params_tail(s, q2, typed, true);
            }
        }
    }
}

/// An untyped parameter carries no annotation.
pub proof fn lemma_untyped_param_unannotated(s: Seq<char>, p: int)
    ensures
        fpdef_with_default(s, p, false) matches Some((_, param)) ==> param.1 is None,
{
}

/// The parameters that follow the first one in an untyped list carry no annotation.
pub proof fn lemma_untyped_tail_unannotated(s: Seq<char>, p: int, spaced: bool)
    ensures
        forall|i: int|
            0 <= i < params_tail(s, p, false, spaced).1.len() ==> (#[trigger] params_tail(s, p, false, spaced).1[i]).1
                is None,
    decreases s.len() - p,
{
    let a = if spaced { ws_end(s, p) } else { p };
    if has_char(s, a, ',') {
        let b = if spaced { ws_end(s, a + 1) } else { a + 1 };
        if let Some((q, param)) = fpdef_with_default(s, b, false) {
            lemma_params_tail_step(s, p, false, spaced);
            lemma_untyped_tail_unannotated(s, q, spaced);
            let rest = params_tail(s, q, false, spaced).1;
            assert forall|i: int| 0 <= i < (seq![param] + rest).len() implies (#[trigger] (seq![param]
                + rest)[i]).1 is None by {
                if i > 0 {
                    assert((seq![param] + rest)[i] == rest[i - 1]);
                }
            }
        }
    }
}

/// No parameter of `ps` carries an annotation.
pub open spec fn unannotated(ps: Seq<ParamModel>) -> bool {
    forall|i: int| 0 <= i < ps.len() ==> (#[trigger] ps[i]).1 is None
}

proof fn lemma_unannotated_prepend(param: ParamModel, rest: Seq<ParamModel>)
    requires
        param.1 is None,
        unannotated(rest),
    ensures
        unannotated(seq![param] + rest),
{
    assert forall|i: int| 0 <= i < (seq![param] + rest).len() implies (#[trigger] (seq![param] + rest)[i]).1
        is None by {
        if i > 0 {
            assert((seq![param] + rest)[i] == rest[i - 1]);
        }
    }
}

proof fn lemma_untyped_lists_unannotated(s: Seq<char>, p: int)
    ensures
        params_nonempty(s, p, false) matches Some((_, ps)) ==> unannotated(ps),
        unannotated(params_spaced(s, p, false).1),
{
    if let Some((q, param)) = fpdef_with_default(s, p, false) {
        lemma_untyped_tail_unannotated(s, q, false);
        assert(unannotated(params_tail(s, q, false, false).1));
        lemma_unannotated_prepend(param, params_tail(s, q, false, false).1);
    }
    if let Some((q, param)) = fpdef_with_default(s, ws_end(s, p), false) {
        lemma_untyped_tail_unannotated(s, q, true);
        assert(unannotated(params_tail(s, q, false, true).1));
        lemma_unannotated_prepend(param, params_tail(s, q, false, true).1);
    } else {
        assert(unannotated(Seq::<ParamModel>::empty()));
    }
}

/// An untyped (`varargslist`) parameter never takes an annotation, wherever it
/// stands in the list: no parameter of an untyped list has one.
pub proof fn lemma_untyped_list_unannotated(s: Seq<char>, p: int)
    ensures
        paramlist(s, p, false) matches Some((_, list)) ==> unannotated(list.positional_args) && unannotated(
            list.keyword_args,
        ),
{
    let empty = Seq::<ParamModel>::empty();
    assert(unannotated(empty));
    if star_star_branch(s, p) is None {
        let a = ws_end(s, p);
        let b = opt_name(s, ws_end(s, a + 1)).0;
        lemma_untyped_lists_unannotated(s, ws_end(s, b));
        if star_branch(s, p, false) is None {
            lemma_untyped_lists_unannotated(s, ws_end(s, p));
            if let Some((q, positional)) = params_nonempty(s, ws_end(s, p), false) {
                let c = ws_end(s, ws_end(s, q));
                let d = ws_end(s, c + 1);
                let e = opt_name(s, d + 1).0;
                lemma_untyped_lists_unannotated(s, e + 1);
            }
        }
    }
}

/// No colon stands anywhere in `s`.
pub open spec fn colon_free(s: Seq<char>) -> bool {
    forall|i: int| 0 <= i < s.len() ==> s[i] != ':'
}

proof fn lemma_colon_free_param(s: Seq<char>, p: int)
    requires
        colon_free(s),
    ensures
        fpdef_with_default(s, p, true) == fpdef_with_default(s, p, false),
{
    let a = ws_end(s, p);
    if 0 <= p <= s.len() {
        lemma_span_end(s, p, CharClass::Whitespace);
    } else {
        assert(a == p);
    }
    assert(ws_end(s, a) == a);
    if let Some((q, n)) = name(s, a) {
        lemma_name(s, a);
        lemma_span_end(s, q, CharClass::Whitespace);
        let c = ws_end(s, q);
        assert(!has_char(s, c, ':'));
    }
}

proof fn lemma_colon_free_tail(s: Seq<char>, p: int, spaced: bool)
    requires
        colon_free(s),
    ensures
        params_tail(s, p, true, spaced) == params_tail(s, p, false, spaced),
    decreases s.len() - p,
{
    let a = if spaced { ws_end(s, p) } else { p };
    if has_char(s, a, ',') {
        let b = if spaced { ws_end(s, a + 1) } else { a + 1 };
        lemma_colon_free_param(s, b);
        lemma_params_tail_step(s, p, false, spaced);
        if let Some((q, _)) = fpdef_with_default(s, b, false) {
            lemma_colon_free_tail(s, q, spaced);
        }
    }
}

/// Where no colon stands in the text, a typed and an untyped parameter list
/// read the same parameters, with no annotations, and end at the same place:
/// the two kinds of list differ only in the annotations a typed one accepts.
pub proof fn lemma_typed_untyped_agree(s: Seq<char>, p: int)
    requires
        colon_free(s),
    ensures
        paramlist(s, p, true) == paramlist(s, p, false),
{
    assert forall|x: int| #[trigger] fpdef_with_default(s, x, true) == fpdef_with_default(s, x, false) by {
        lemma_colon_free_param(s, x);
    }
    assert forall|x: int, sp: bool| #[trigger] params_tail(s, x, true, sp) == params_tail(s, x, false, sp) by {
        lemma_colon_free_tail(s, x, sp);
    }
    assert forall|x: int| #[trigger] params_nonempty(s, x, true) == params_nonempty(s, x, false) by {
        let _ = fpdef_with_default(s, x, true);
        let _ = fpdef_with_default(s, x, false);
    }
    assert forall|x: int| #[trigger] params_spaced(s, x, true) == params_spaced(s, x, false) by {
        let _ = fpdef_with_default(s, ws_end(s, x), true);
    }
    assert forall|x: int, ps: Seq<ParamModel>| #[trigger] positional_rest(s, x, true, ps) == positional_rest(
        s,
        x,
        false,
        ps,
    ) by {
        let a = opt_name(s, x + 1).0;
        let _ = params_nonempty(s, a + 1, true);
    }
    assert forall|x: int, ps: Seq<ParamModel>| #[trigger] after_positional(s, x, true, ps) == after_positional(
        s,
        x,
        false,
        ps,
    ) by {
        let _ = positional_rest(s, ws_end(s, ws_end(s, x) + 1), true, ps);
    }
    let a = ws_end(s, p);
    let b = opt_name(s, ws_end(s, a + 1)).0;
    let _ = params_spaced(s, ws_end(s, b), true);
    let _ = params_nonempty(s, ws_end(s, p), true);
    if let Some((q, positional)) = params_nonempty(s, ws_end(s, p), true) {
        let _ = after_positional(s, ws_end(s, q), true, positional);
    }
    assert(star_branch(s, p, true) == star_branch(s, p, false));
    assert(positional_branch(s, p, true) == positional_branch(s, p, false));
}

/// An annotation (`':' test`) or a default (`'=' test`) is read only when both
/// its character and an expression stand there; otherwise nothing is consumed.
pub proof fn lemma_opt_prefixed_test(s: Seq<char>, p: int, c: char)
    ensures
        match opt_prefixed_test(s, p, c) {
            (q, Some(e)) => has_char(s, p, c) && crate::expressions::test(s, p + 1) == Some((q, e)),
            (q, None) => q == p && !(has_char(s, p, c) && crate::expressions::test(s, p + 1) is Some),
        },
{
}

/// A parameter list takes the whitespace after it: it ends at the end of the
/// input or before a character that is not whitespace.
pub proof fn lemma_paramlist_ends_at_token(s: Seq<char>, p: int, typed: bool)
    requires
        0 <= p <= s.len(),
    ensures
        paramlist(s, p, typed) matches Some((q, _)) ==> q == s.len() || !in_class(CharClass::Whitespace, s[q]),
{
    lemma_paramlist(s, p, typed);
    let found = match star_star_branch(s, p) {
        Some(r) => Some(r),
        None => match star_branch(s, p, typed) {
            Some(r) => Some(r),
            None => positional_branch(s, p, typed),
        },
    };
    if let Some((q0, _)) = found {
        if let Some((q, _)) = paramlist(s, p, typed) {
            assert(q == ws_end(s, q0));
            if 0 <= q0 <= s.len() {
                lemma_span_end(s, q0, CharClass::Whitespace);
            } else {
                assert(q == q0);
            }
        }
    }
}

/// `param` is what the parameter rule (typed or not) reads at some position of `s`.
pub open spec fn read_by_rule(s: Seq<char>, typed: bool, param: ParamModel) -> bool {
    exists|x: int| #[trigger] fpdef_with_default(s, x, typed) is Some && fpdef_with_default(s, x, typed).unwrap().1 == param
}

/// Every parameter of `ps` is what the parameter rule reads somewhere in `s`.
pub open spec fn all_read_by_rule(s: Seq<char>, typed: bool, ps: Seq<ParamModel>) -> bool {
    forall|i: int| 0 <= i < ps.len() ==> read_by_rule(s, typed, #[trigger] ps[i])
}

proof fn lemma_all_read_prepend(s: Seq<char>, typed: bool, param: ParamModel, rest: Seq<ParamModel>)
    requires
        read_by_rule(s, typed, param),
        all_read_by_rule(s, typed, rest),
    ensures
        all_read_by_rule(s, typed, seq![param] + rest),
{
    assert forall|i: int| 0 <= i < (seq![param] + rest).len() implies read_by_rule(
        s,
        typed,
        #[trigger] (seq![param] + rest)[i],
    ) by {
        if i > 0 {
            assert((seq![param] + rest)[i] == rest[i - 1]);
        }
    }
}

proof fn lemma_tail_read_by_rule(s: Seq<char>, p: int, typed: bool, spaced: bool)
    ensures
        all_read_by_rule(s, typed, params_tail(s, p, typed, spaced).1),
    decreases s.len() - p,
{
    let a = if spaced { ws_end(s, p) } else { p };
    if has_char(s, a, ',') {
        let b = if spaced { ws_end(s, a + 1) } else { a + 1 };
        if let Some((q, param)) = fpdef_with_default(s, b, typed) {
            lemma_params_tail_step(s, p, typed, spaced);
            lemma_tail_read_by_rule(s, q, typed, spaced);
            assert(read_by_rule(s, typed, param));
            lemma_all_read_prepend(s, typed, param, params_tail(s, q, typed, spaced).1);
            return;
        }
    }
    assert(all_read_by_rule(s, typed, Seq::<ParamModel>::empty()));
}

proof fn lemma_lists_read_by_rule(s: Seq<char>, p: int, typed: bool)
    ensures
        params_nonempty(s, p, typed) matches Some((_, ps)) ==> all_read_by_rule(s, typed, ps),
        all_read_by_rule(s, typed, params_spaced(s, p, typed).1),
{
    if let Some((q, param)) = fpdef_with_default(s, p, typed) {
        lemma_tail_read_by_rule(s, q, typed, false);
        assert(read_by_rule(s, typed, param));
        lemma_all_read_prepend(s, typed, param, params_tail(s, q, typed, false).1);
    }
    if let Some((q, param)) = fpdef_with_default(s, ws_end(s, p), typed) {
        lemma_tail_read_by_rule(s, q, typed, true);
        assert(read_by_rule(s, typed, param));
        lemma_all_read_prepend(s, typed, param, params_tail(s, q, typed, true).1);
    } else {
        assert(all_read_by_rule(s, typed, Seq::<ParamModel>::empty()));
    }
}

/// Every parameter of a list, positional or keyword-only, first or not, is
/// read by the one parameter rule of the list's kind: a typed list reads each
/// with its annotation (`NAME [':' test] ['=' test]`), an untyped list each
/// without (`NAME ['=' test]`).
pub proof fn lemma_paramlist_params_read_by_rule(s: Seq<char>, p: int, typed: bool)
    ensures
        paramlist(s, p, typed) matches Some((_, list)) ==> all_read_by_rule(s, typed, list.positional_args)
            && all_read_by_rule(s, typed, list.keyword_args),
{
    assert(all_read_by_rule(s, typed, Seq::<ParamModel>::empty()));
    if star_star_branch(s, p) is None {
        let a = ws_end(s, p);
        let b = opt_name(s, ws_end(s, a + 1)).0;
        lemma_lists_read_by_rule(s, ws_end(s, b), typed);
        if star_branch(s, p, typed) is None {
            lemma_lists_read_by_rule(s, ws_end(s, p), typed);
            if let Some((q, positional)) = params_nonempty(s, ws_end(s, p), typed) {
                let c = ws_end(s, ws_end(s, q));
                let d = ws_end(s, c + 1);
                let e = opt_name(s, d + 1).0;
                lemma_lists_read_by_rule(s, e + 1, typed);
            }
        }
    }
}

} // verus!
