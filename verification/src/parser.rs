//! The executable parser.  Every method is proved equal to the spec
//! functions of [`crate::grammar`].

use vstd::prelude::*;
use vstd::string::StrSliceExecFns;
use vstd::string::StringExecFns;
use crate::grammar::{
    agg, classify, con_match_at, constant_digits, decl_match_at, find_con, find_decl, find_obj,
    lemma_agg_err_extends, lemma_agg_push, lemma_terms_result_err_extends,
    lemma_terms_result_push, obj_match_at, parse_components, parse_constraint_spec,
    parse_declaration, parse_objective_spec, parse_term, parse_vars, pieces_from, rel_of,
    split_plus, statement_result, statements_from, statements_of, term_fits, term_result,
    term_var, terms_result, TermSpec,
};
use crate::model::{
    vars_view, Coefficient, Component, Components, Constraint, LineType, Objective, ObjectiveView,
    ParseError, Relation, VarView, WeightedVariable,
};
use crate::number::{accumulate_digits, digits_value, lemma_digits_value_prefix_le};
use crate::text::{
    contains_pat_exec, has_pat_at_exec, is_digit_exec, is_space_exec, is_word_exec, rtrim_exec,
    scan_digits_exec, scan_to_char_exec, scan_to_rel_exec, scan_word_exec, skip_spaces_exec,
    lemma_scan_digits_all_digits,
};

verus! {

/// The parser.  It holds no state: every method is a pure function of
/// its text argument.
pub struct Parser {}

/// Copies the character range `[a, b)` of `s` into an owned name.
fn make_name(s: &str, n: usize, a: usize, b: usize) -> (r: String)
    requires
        n == s@.len(),
        a <= b <= n,
    ensures
        r@ == s@.subrange(a as int, b as int),
{
    String::from_str(s.substring_char(a, b))
}

/// Whether the declaration pattern matches at position `i`.
fn decl_match_exec(s: &str, n: usize, i: usize) -> (r: bool)
    requires
        n == s@.len(),
    ensures
        r == decl_match_at(s@, i as int),
{
    proof {
        reveal_strlit("var");
    }
    if !has_pat_at_exec(s, n, "var", 3, i) {
        return false;
    }
    if i + 3 >= n {
        return false;
    }
    if !is_space_exec(s.get_char(i + 3)) {
        return false;
    }
    let k = skip_spaces_exec(s, n, i + 3, n);
    k < n && is_word_exec(s.get_char(k))
}

/// Whether the objective pattern matches at position `i`.
fn obj_match_exec(s: &str, n: usize, i: usize) -> (r: bool)
    requires
        n == s@.len(),
    ensures
        r == obj_match_at(s@, i as int),
{
    proof {
        reveal_strlit("minimize");
        reveal_strlit("maximize");
    }
    let kw = has_pat_at_exec(s, n, "minimize", 8, i) || has_pat_at_exec(s, n, "maximize", 8, i);
    if !kw {
        return false;
    }
    if i + 8 >= n {
        return false;
    }
    if !is_space_exec(s.get_char(i + 8)) {
        return false;
    }
    let k = skip_spaces_exec(s, n, i + 8, n);
    let ke = scan_word_exec(s, n, k);
    if !(ke > k) {
        return false;
    }
    let m = skip_spaces_exec(s, n, ke, n);
    m < n && s.get_char(m) == ':'
}

/// Whether the constraint pattern matches at position `i`.
fn con_match_exec(s: &str, n: usize, i: usize) -> (r: bool)
    requires
        n == s@.len(),
    ensures
        r == con_match_at(s@, i as int),
{
    proof {
        reveal_strlit("subject to ");
    }
    if !has_pat_at_exec(s, n, "subject to ", 11, i) {
        return false;
    }
    let k = i + 11;
    let ke = scan_word_exec(s, n, k);
    if !(ke < n) || s.get_char(ke) != ':' {
        return false;
    }
    let r = scan_to_rel_exec(s, n, ke + 1);
    if !(r > ke + 1) {
        return false;
    }
    if r >= n {
        return false;
    }
    if !(r + 1 < n) || s.get_char(r + 1) != '=' {
        return false;
    }
    let c0 = skip_spaces_exec(s, n, r + 2, n);
    c0 < n && is_digit_exec(s.get_char(c0))
}

/// The first position where the declaration pattern matches.
fn find_decl_exec(s: &str, n: usize) -> (r: Option<usize>)
    requires
        n == s@.len(),
    ensures
        match r {
            Some(i) => find_decl(s@, 0) == Some(i as int) && decl_match_at(s@, i as int) && i < n,
            None => find_decl(s@, 0) is None,
        },
{
    let mut i: usize = 0;
    while i < n
        invariant
            i <= n,
            n == s@.len(),
            find_decl(s@, 0) == find_decl(s@, i as int),
        decreases n - i,
    {
        if decl_match_exec(s, n, i) {
            return Some(i);
        }
        i += 1;
    }
    None
}

/// The first position where the objective pattern matches.
fn find_obj_exec(s: &str, n: usize) -> (r: Option<usize>)
    requires
        n == s@.len(),
    ensures
        match r {
            Some(i) => find_obj(s@, 0) == Some(i as int) && obj_match_at(s@, i as int) && i < n,
            None => find_obj(s@, 0) is None,
        },
{
    let mut i: usize = 0;
    while i < n
        invariant
            i <= n,
            n == s@.len(),
            find_obj(s@, 0) == find_obj(s@, i as int),
        decreases n - i,
    {
        if obj_match_exec(s, n, i) {
            return Some(i);
        }
        i += 1;
    }
    None
}

/// The first position where the constraint pattern matches.
fn find_con_exec(s: &str, n: usize) -> (r: Option<usize>)
    requires
        n == s@.len(),
    ensures
        match r {
            Some(i) => find_con(s@, 0) == Some(i as int) && con_match_at(s@, i as int) && i < n,
            None => find_con(s@, 0) is None,
        },
{
    let mut i: usize = 0;
    while i < n
        invariant
            i <= n,
            n == s@.len(),
            find_con(s@, 0) == find_con(s@, i as int),
        decreases n - i,
    {
        if con_match_exec(s, n, i) {
            return Some(i);
        }
        i += 1;
    }
    None
}

impl Parser {
    /// The parser is stateless; the constructor only names the value.
    pub fn new() -> (p: Parser)
    {
        Parser {  }
    }

    /// Classifies one trimmed statement by the fixed keyword priority:
    /// comment, declaration, objective, constraint.
    pub fn get_line_type(&self, line: &str) -> (r: Result<LineType, ParseError>)
        ensures
            match r {
                Ok(t) => classify(line@) == Some(t),
                Err(e) => classify(line@) is None && e == ParseError::MalformedStatement,
            },
    {
        let n = line.unicode_len();
        proof {
            reveal_strlit("#");
            reveal_strlit("var");
            reveal_strlit("minimize");
            reveal_strlit("maximize");
            reveal_strlit("subject to");
        }
        if contains_pat_exec(line, n, "#", 1) {
            Ok(LineType::Comment)
        } else if contains_pat_exec(line, n, "var", 3) {
            Ok(LineType::Variable)
        } else if contains_pat_exec(line, n, "minimize", 8) || contains_pat_exec(
            line,
            n,
            "maximize",
            8,
        ) {
            Ok(LineType::Objective)
        } else if contains_pat_exec(line, n, "subject to", 10) {
            Ok(LineType::Constraint)
        } else {
            Err(ParseError::MalformedStatement)
        }
    }

    /// Parses a declaration statement into a variable with the
    /// sentinel weight zero.
    pub fn parse_variable_declaration(&self, data: &str) -> (r: Result<
        WeightedVariable,
        ParseError,
    >)
        ensures
            match r {
                Ok(v) => parse_declaration(data@) == Ok::<VarView, ParseError>(v@),
                Err(e) => parse_declaration(data@) == Err::<VarView, ParseError>(e),
            },
    {
        let n = data.unicode_len();
        match find_decl_exec(data, n) {
            None => Err(ParseError::UnmatchedPattern),
            Some(i) => {
                let k = skip_spaces_exec(data, n, i + 3, n);
                let ke = scan_word_exec(data, n, k);
                let name = make_name(data, n, k, ke);
                Ok(WeightedVariable { name, coefficient: Coefficient::zero() })
            },
        }
    }

    /// Parses one signed, optionally weighted term.
    pub fn parse_variable(&self, data: &str) -> (r: Result<WeightedVariable, ParseError>)
        ensures
            match r {
                Ok(v) => term_result(data@) == Ok::<VarView, ParseError>(v@),
                Err(e) => term_result(data@) == Err::<VarView, ParseError>(e),
            },
    {
        let n = data.unicode_len();
        let i0 = skip_spaces_exec(data, n, 0, n);
        let neg = i0 < n && data.get_char(i0) == '-';
        let i1 = if neg {
            skip_spaces_exec(data, n, i0 + 1, n)
        } else {
            i0
        };
        let d_end = scan_digits_exec(data, n, i1);
        let has_int = d_end > i1;
        let has_frac = has_int && d_end < n && data.get_char(d_end) == '.';
        let num_end = if has_frac {
            scan_digits_exec(data, n, d_end + 1)
        } else {
            d_end
        };
        let star = skip_spaces_exec(data, n, num_end, n);
        let has_coeff = has_int && star < n && data.get_char(star) == '*';
        let name_start = if has_coeff {
            skip_spaces_exec(data, n, star + 1, n)
        } else {
            i1
        };
        let name_end = scan_word_exec(data, n, name_start);
        if !(name_start < name_end) {
            assert(parse_term(data@) is None);
            return Err(ParseError::UnmatchedPattern);
        }
        if skip_spaces_exec(data, n, name_end, n) != n {
            assert(parse_term(data@) is None);
            return Err(ParseError::UnmatchedPattern);
        }
        let ghost ds = data@.subrange(i1 as int, d_end as int) + if has_frac {
            data@.subrange(d_end as int + 1, num_end as int)
        } else {
            Seq::<char>::empty()
        };
        let ghost ts = TermSpec {
            negative: neg,
            digits: if has_coeff {
                Some(ds)
            } else {
                None
            },
            scale: if has_coeff && has_frac {
                num_end - (d_end + 1)
            } else {
                0
            },
            name: data@.subrange(name_start as int, name_end as int),
        };
        assert(parse_term(data@) == Some(ts));
        let coefficient: Coefficient;
        if has_coeff {
            proof {
                lemma_scan_digits_all_digits(data@, i1 as int);
                if has_frac {
                    lemma_scan_digits_all_digits(data@, d_end as int + 1);
                }
                assert(forall|j: int| 0 <= j < ds.len() ==> crate::text::is_digit_char(ds[j]));
            }
            assert(digits_value(Seq::<char>::empty()) == 0);
            let first = accumulate_digits(data, n, i1, d_end, 0, Ghost(Seq::<char>::empty()));
            proof {
                assert(Seq::<char>::empty() + data@.subrange(i1 as int, d_end as int)
                    =~= data@.subrange(i1 as int, d_end as int));
            }
            let whole: Option<u64> = match first {
                None => None,
                Some(v1) => {
                    if has_frac {
                        accumulate_digits(
                            data,
                            n,
                            d_end + 1,
                            num_end,
                            v1,
                            Ghost(data@.subrange(i1 as int, d_end as int)),
                        )
                    } else {
                        proof {
                            assert(data@.subrange(i1 as int, d_end as int)
                                + Seq::<char>::empty() =~= data@.subrange(
                                i1 as int,
                                d_end as int,
                            ));
                        }
                        Some(v1)
                    }
                },
            };
            match whole {
                None => {
                    proof {
                        if first is None {
                            assert(ds.subrange(0, d_end - i1) =~= data@.subrange(
                                i1 as int,
                                d_end as int,
                            ));
                            lemma_digits_value_prefix_le(ds, d_end - i1);
                        }
                        assert(digits_value(ds) > u64::MAX);
                        assert(!term_fits(ts));
                    }
                    return Err(ParseError::InvalidNumericLiteral);
                },
                Some(v) => {
                    assert(v == digits_value(ds));
                    let scale: usize = if has_frac {
                        num_end - (d_end + 1)
                    } else {
                        0
                    };
                    coefficient = Coefficient { negative: neg, mantissa: v, scale };
                },
            }
        } else {
            coefficient = Coefficient { negative: neg, mantissa: 1, scale: 0 };
        }
        let name = make_name(data, n, name_start, name_end);
        let w = WeightedVariable { name, coefficient };
        assert(w@ == term_var(ts));
        Ok(w)
    }

    /// Parses a whole sum-of-terms expression, splitting on `+`.
    pub fn parse_objective_vars(&self, data: &str) -> (r: Result<Vec<WeightedVariable>, ParseError>)
        ensures
            match r {
                Ok(v) => parse_vars(data@) == Ok::<Seq<VarView>, ParseError>(vars_view(v@)),
                Err(e) => parse_vars(data@) == Err::<Seq<VarView>, ParseError>(e),
            },
    {
        let n = data.unicode_len();
        let mut pos: usize = 0;
        let mut out: Vec<WeightedVariable> = Vec::new();
        let ghost mut done: Seq<Seq<char>> = Seq::<Seq<char>>::empty();
        proof {
            assert(done + pieces_from(data@, 0) =~= pieces_from(data@, 0));
            assert(vars_view(out@) =~= Seq::<VarView>::empty());
        }
        loop
            invariant
                pos <= n,
                n == data@.len(),
                split_plus(data@) == done + pieces_from(data@, pos as int),
                terms_result(done) == Ok::<Seq<VarView>, ParseError>(vars_view(out@)),
            decreases n - pos,
        {
            let p = scan_to_char_exec(data, n, pos, '+');
            let ghost piece = data@.subrange(pos as int, p as int);
            proof {
                if p < n {
                    assert(pieces_from(data@, pos as int) == seq![piece] + pieces_from(
                        data@,
                        p as int + 1,
                    ));
                } else {
                    assert(pieces_from(data@, pos as int) == seq![piece]);
                }
            }
            let piece_str = data.substring_char(pos, p);
            match self.parse_variable(piece_str) {
                Err(e) => {
                    proof {
                        lemma_terms_result_push(done, piece);
                        if p < n {
                            assert(done + pieces_from(data@, pos as int) =~= done.push(piece)
                                + pieces_from(data@, p as int + 1));
                            lemma_terms_result_err_extends(
                                done.push(piece),
                                pieces_from(data@, p as int + 1),
                            );
                        } else {
                            assert(done + pieces_from(data@, pos as int) =~= done.push(piece));
                        }
                    }
                    return Err(e);
                },
                Ok(w) => {
                    proof {
                        lemma_terms_result_push(done, piece);
                        crate::model::lemma_vars_view_push(out@, w);
                        assert(done + seq![piece] =~= done.push(piece));
                        if p < n {
                            assert(done + pieces_from(data@, pos as int) =~= done.push(piece)
                                + pieces_from(data@, p as int + 1));
                        }
                        done = done.push(piece);
                    }
                    out.push(w);
                },
            }
            if p == n {
                assert(split_plus(data@) == done);
                assert(terms_result(done) == Ok::<Seq<VarView>, ParseError>(vars_view(out@)));
                return Ok(out);
            }
            pos = p + 1;
        }
    }

    /// Parses an objective statement: direction keyword, name, `:`,
    /// and the term expression up to the statement end.
    pub fn parse_objective(&self, data: &str) -> (r: Result<Objective, ParseError>)
        ensures
            match r {
                Ok(o) => parse_objective_spec(data@) == Ok::<ObjectiveView, ParseError>(o@),
                Err(e) => parse_objective_spec(data@) == Err::<ObjectiveView, ParseError>(e),
            },
    {
        let n = data.unicode_len();
        match find_obj_exec(data, n) {
            None => Err(ParseError::UnmatchedPattern),
            Some(i) => {
                let k = skip_spaces_exec(data, n, i + 8, n);
                let ke = scan_word_exec(data, n, k);
                let m = skip_spaces_exec(data, n, ke, n);
                let eq = data.substring_char(m + 1, n);
                match self.parse_objective_vars(eq) {
                    Err(e) => Err(e),
                    Ok(terms) => {
                        proof {
                            reveal_strlit("maximize");
                        }
                        let maximize = has_pat_at_exec(data, n, "maximize", 8, i);
                        let name = make_name(data, n, k, ke);
                        Ok(Objective { name, terms, maximize })
                    },
                }
            },
        }
    }

    /// Parses a constraint statement: keyword, name, `:`, left-hand
    /// terms, relational token, numeric constant.
    pub fn parse_constraint(&self, data: &str) -> (r: Result<Constraint, ParseError>)
        ensures
            match r {
                Ok(c) => parse_constraint_spec(data@) == Ok::<
                    crate::model::ConstraintView,
                    ParseError,
                >(c@),
                Err(e) => parse_constraint_spec(data@) == Err::<
                    crate::model::ConstraintView,
                    ParseError,
                >(e),
            },
    {
        let n = data.unicode_len();
        match find_con_exec(data, n) {
            None => Err(ParseError::UnmatchedPattern),
            Some(i) => {
                let k = i + 11;
                let ke = scan_word_exec(data, n, k);
                let rp = scan_to_rel_exec(data, n, ke + 1);
                let t0 = skip_spaces_exec(data, n, ke + 1, n);
                proof {
                    crate::text::lemma_skip_spaces_to_spaces(data@, ke as int + 1, n as int);
                    crate::text::lemma_scan_to_rel_bounds(data@, ke as int + 1);
                    if t0 > rp {
                        assert(crate::text::is_space_char(data@[rp as int]));
                        assert(false);
                    }
                }
                let t1 = rtrim_exec(data, n, t0, rp);
                let c0 = skip_spaces_exec(data, n, rp + 2, n);
                let c_end = scan_digits_exec(data, n, c0);
                let has_frac = c_end < n && data.get_char(c_end) == '.';
                let f_end = if has_frac {
                    scan_digits_exec(data, n, c_end + 1)
                } else {
                    c_end
                };
                let ghost ds = data@.subrange(c0 as int, c_end as int) + if has_frac {
                    data@.subrange(c_end as int + 1, f_end as int)
                } else {
                    Seq::<char>::empty()
                };
                let ghost sc: int = if has_frac {
                    f_end - (c_end + 1)
                } else {
                    0
                };
                assert(constant_digits(data@, c0 as int) == (ds, sc));
                proof {
                    lemma_scan_digits_all_digits(data@, c0 as int);
                    if has_frac {
                        lemma_scan_digits_all_digits(data@, c_end as int + 1);
                    }
                    assert(forall|j: int| 0 <= j < ds.len() ==> crate::text::is_digit_char(ds[j]));
                    assert(digits_value(Seq::<char>::empty()) == 0);
                }
                let first = accumulate_digits(data, n, c0, c_end, 0, Ghost(Seq::<char>::empty()));
                proof {
                    assert(Seq::<char>::empty() + data@.subrange(c0 as int, c_end as int)
                        =~= data@.subrange(c0 as int, c_end as int));
                }
                let whole: Option<u64> = match first {
                    None => None,
                    Some(v1) => {
                        if has_frac {
                            accumulate_digits(
                                data,
                                n,
                                c_end + 1,
                                f_end,
                                v1,
                                Ghost(data@.subrange(c0 as int, c_end as int)),
                            )
                        } else {
                            proof {
                                assert(data@.subrange(c0 as int, c_end as int)
                                    + Seq::<char>::empty() =~= data@.subrange(
                                    c0 as int,
                                    c_end as int,
                                ));
                            }
                            Some(v1)
                        }
                    },
                };
                match whole {
                    None => {
                        proof {
                            if first is None {
                                assert(ds.subrange(0, c_end - c0) =~= data@.subrange(
                                    c0 as int,
                                    c_end as int,
                                ));
                                lemma_digits_value_prefix_le(ds, c_end - c0);
                            }
                            assert(digits_value(ds) > u64::MAX);
                        }
                        Err(ParseError::InvalidNumericLiteral)
                    },
                    Some(v) => {
                        let scale: usize = if has_frac {
                            f_end - (c_end + 1)
                        } else {
                            0
                        };
                        let terms_str = data.substring_char(t0, t1);
                        match self.parse_objective_vars(terms_str) {
                            Err(e) => Err(e),
                            Ok(terms) => {
                                let rc = data.get_char(rp);
                                let relation = if rc == '<' {
                                    Relation::LessOrEqual
                                } else if rc == '>' {
                                    Relation::GreaterOrEqual
                                } else {
                                    Relation::Equal
                                };
                                assert(relation == rel_of(data@[rp as int]));
                                let name = make_name(data, n, k, ke);
                                let constant = Coefficient { negative: false, mantissa: v, scale };
                                Ok(Constraint { name, terms, constant, relation })
                            },
                        }
                    },
                }
            },
        }
    }

    /// Classifies one statement and runs the matching parser.
    pub fn component_from_line(&self, line: &str) -> (r: Result<Component, ParseError>)
        ensures
            match r {
                Ok(c) => statement_result(line@) == Ok::<crate::model::ComponentView, ParseError>(
                    c@,
                ),
                Err(e) => statement_result(line@) == Err::<
                    crate::model::ComponentView,
                    ParseError,
                >(e),
            },
    {
        match self.get_line_type(line) {
            Err(e) => Err(e),
            Ok(LineType::Comment) => Ok(Component::Comment),
            Ok(LineType::Variable) => match self.parse_variable_declaration(line) {
                Err(e) => Err(e),
                Ok(v) => Ok(Component::Variable(v)),
            },
            Ok(LineType::Objective) => match self.parse_objective(line) {
                Err(e) => Err(e),
                Ok(o) => Ok(Component::Objective(o)),
            },
            Ok(LineType::Constraint) => match self.parse_constraint(line) {
                Err(e) => Err(e),
                Ok(c) => Ok(Component::Constraint(c)),
            },
        }
    }

    /// Parses a whole document: segmentation on the terminator,
    /// per-statement parsing in document order, aggregation, and the
    /// mandatory-objective check.
    pub fn get_components(&self, text: &str) -> (r: Result<Components, ParseError>)
        ensures
            match r {
                Ok(c) => parse_components(text@) == Ok::<crate::model::ComponentsView, ParseError>(
                    c@,
                ),
                Err(e) => parse_components(text@) == Err::<
                    crate::model::ComponentsView,
                    ParseError,
                >(e),
            },
    {
        let n = text.unicode_len();
        let mut pos: usize = 0;
        let mut variables: Vec<WeightedVariable> = Vec::new();
        let mut constraints: Vec<Constraint> = Vec::new();
        let mut objective: Option<Objective> = None;
        let ghost mut done: Seq<Seq<char>> = Seq::<Seq<char>>::empty();
        proof {
            assert(done + statements_from(text@, 0) =~= statements_from(text@, 0));
            assert(vars_view(variables@) =~= Seq::<VarView>::empty());
            assert(crate::model::cons_view(constraints@)
                =~= Seq::<crate::model::ConstraintView>::empty());
        }
        loop
            invariant
                pos <= n,
                n == text@.len(),
                statements_of(text@) == done + statements_from(text@, pos as int),
                agg(done) == Ok::<crate::grammar::AggView, ParseError>(
                    crate::grammar::AggView {
                        variables: vars_view(variables@),
                        constraints: crate::model::cons_view(constraints@),
                        objective: opt_obj_view(objective),
                    },
                ),
            decreases n - pos,
        {
            let p = scan_to_char_exec(text, n, pos, ';');
            let a = skip_spaces_exec(text, n, pos, p);
            let b = rtrim_exec(text, n, a, p);
            let ghost stmt = crate::text::trim_range(text@, pos as int, p as int);
            assert(stmt == text@.subrange(a as int, b as int));
            proof {
                if p < n {
                    assert(statements_from(text@, pos as int) == (if stmt.len() > 0 {
                        seq![stmt] + statements_from(text@, p as int + 1)
                    } else {
                        statements_from(text@, p as int + 1)
                    }));
                } else {
                    assert(statements_from(text@, pos as int) == (if stmt.len() > 0 {
                        seq![stmt]
                    } else {
                        Seq::<Seq<char>>::empty()
                    }));
                }
            }
            if a < b {
                let stmt_str = text.substring_char(a, b);
                match self.component_from_line(stmt_str) {
                    Err(e) => {
                        proof {
                            lemma_agg_push(done, stmt);
                            if p < n {
                                assert(done + statements_from(text@, pos as int) =~= done.push(
                                    stmt,
                                ) + statements_from(text@, p as int + 1));
                                lemma_agg_err_extends(
                                    done.push(stmt),
                                    statements_from(text@, p as int + 1),
                                );
                            } else {
                                assert(done + statements_from(text@, pos as int) =~= done.push(
                                    stmt,
                                ));
                            }
                        }
                        return Err(e);
                    },
                    Ok(c) => {
                        proof {
                            lemma_agg_push(done, stmt);
                            assert(done + seq![stmt] =~= done.push(stmt));
                            if p < n {
                                assert(done + statements_from(text@, pos as int) =~= done.push(
                                    stmt,
                                ) + statements_from(text@, p as int + 1));
                            }
                            done = done.push(stmt);
                        }
                        match c {
                            Component::Variable(w) => {
                                proof {
                                    crate::model::lemma_vars_view_push(variables@, w);
                                }
                                variables.push(w);
                            },
                            Component::Constraint(con) => {
                                proof {
                                    crate::model::lemma_cons_view_push(constraints@, con);
                                }
                                constraints.push(con);
                            },
                            Component::Objective(o) => {
                                objective = Some(o);
                            },
                            Component::Comment => {},
                        }
                    },
                }
            } else {
                assert(stmt.len() == 0);
            }
            if p == n {
                proof {
                    assert(done + Seq::<Seq<char>>::empty() =~= done);
                    assert(statements_of(text@) == done);
                }
                match objective {
                    None => {
                        return Err(ParseError::MissingObjective);
                    },
                    Some(o) => {
                        let c = Components { variables, constraints, objective: o };
                        return Ok(c);
                    },
                }
            }
            pos = p + 1;
        }
    }

    /// Parses a document in one call, with a fresh parser.
    pub fn parse_components_from_text(text: &str) -> (r: Result<Components, ParseError>)
        ensures
            match r {
                Ok(c) => parse_components(text@) == Ok::<crate::model::ComponentsView, ParseError>(
                    c@,
                ),
                Err(e) => parse_components(text@) == Err::<
                    crate::model::ComponentsView,
                    ParseError,
                >(e),
            },
    {
        let p = Parser::new();
        p.get_components(text)
    }
}

/// The view of the objective bucket while a parse is in progress.
pub open spec fn opt_obj_view(o: Option<Objective>) -> Option<crate::model::ObjectiveView> {
    match o {
        Some(x) => Some(x@),
        None => None,
    }
}

} // verus!
