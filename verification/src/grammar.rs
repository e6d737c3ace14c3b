//! The specification of the grammar: spec functions that say, over
//! sequences of characters, what every fragment of a document parses
//! into.  The executable parser is proved equal to these functions.
//!
//! Classification is substring-based with a fixed priority (comment,
//! then declaration, then objective, then constraint), so a statement
//! whose name contains another keyword keeps the higher-priority kind.

use vstd::prelude::*;
use crate::model::{
    CoeffView, ComponentView, ConstraintView, LineType, ObjectiveView, ParseError, Relation,
    VarView,
};
use crate::number::digits_value;
use crate::text::{
    contains_pat, has_pat_at, is_space_char, is_word_char, rtrim, scan_digits, scan_to_char,
    scan_to_rel, scan_word, skip_spaces_to, trim_range,
};

verus! {

pub open spec fn kw_comment() -> Seq<char> {
    "#"@
}

pub open spec fn kw_var() -> Seq<char> {
    "var"@
}

pub open spec fn kw_minimize() -> Seq<char> {
    "minimize"@
}

pub open spec fn kw_maximize() -> Seq<char> {
    "maximize"@
}

pub open spec fn kw_subject() -> Seq<char> {
    "subject to"@
}

/// The constraint pattern wants the keyword followed by one space.
pub open spec fn kw_subject_sp() -> Seq<char> {
    "subject to "@
}

/// One parsed term, as written: sign, the digits of the coefficient
/// with the dot removed (`None` when no `coefficient*` part is
/// present), the count of fractional digits, and the name.
pub ghost struct TermSpec {
    pub negative: bool,
    pub digits: Option<Seq<char>>,
    pub scale: int,
    pub name: Seq<char>,
}

/// The shape of one term: optional whitespace, an optional negative
/// sign, an optional `coefficient *` part, a mandatory name of word
/// characters, optional trailing whitespace.  `None` when the text
/// does not have that shape.
pub open spec fn parse_term(t: Seq<char>) -> Option<TermSpec> {
    let n = t.len() as int;
    let i0 = skip_spaces_to(t, 0, n);
    let neg = i0 < n && t[i0] == '-';
    let i1 = if neg {
        skip_spaces_to(t, i0 + 1, n)
    } else {
        i0
    };
    let d_end = scan_digits(t, i1);
    let has_int = d_end > i1;
    let has_frac = has_int && d_end < n && t[d_end] == '.';
    let num_end = if has_frac {
        scan_digits(t, d_end + 1)
    } else {
        d_end
    };
    let star = skip_spaces_to(t, num_end, n);
    let has_coeff = has_int && star < n && t[star] == '*';
    let name_start = if has_coeff {
        skip_spaces_to(t, star + 1, n)
    } else {
        i1
    };
    let name_end = scan_word(t, name_start);
    if name_start < name_end && skip_spaces_to(t, name_end, n) == n {
        Some(
            TermSpec {
                negative: neg,
                digits: if has_coeff {
                    Some(
                        t.subrange(i1, d_end) + if has_frac {
                            t.subrange(d_end + 1, num_end)
                        } else {
                            Seq::<char>::empty()
                        },
                    )
                } else {
                    None
                },
                scale: if has_coeff && has_frac {
                    num_end - (d_end + 1)
                } else {
                    0
                },
                name: t.subrange(name_start, name_end),
            },
        )
    } else {
        None
    }
}

/// A missing coefficient means magnitude one; the stored coefficient
/// is the written magnitude carrying the sign.
pub open spec fn term_coeff(t: TermSpec) -> CoeffView {
    match t.digits {
        None => CoeffView { negative: t.negative, mantissa: 1, scale: 0 },
        Some(ds) => CoeffView { negative: t.negative, mantissa: digits_value(ds), scale: t.scale },
    }
}

/// Whether the written coefficient fits the executable mantissa.
pub open spec fn term_fits(t: TermSpec) -> bool {
    match t.digits {
        None => true,
        Some(ds) => digits_value(ds) <= u64::MAX,
    }
}

pub open spec fn term_var(t: TermSpec) -> VarView {
    VarView { name: t.name, coefficient: term_coeff(t) }
}

/// What one `+`-separated piece of an expression parses into.
pub open spec fn term_result(piece: Seq<char>) -> Result<VarView, ParseError> {
    match parse_term(piece) {
        None => Err(ParseError::UnmatchedPattern),
        Some(t) => if term_fits(t) {
            Ok(term_var(t))
        } else {
            Err(ParseError::InvalidNumericLiteral)
        },
    }
}

/// The `+`-separated pieces of `t` from position `i` on: no piece
/// contains a `+`, and the pieces joined by `+` give back the text.
pub open spec fn pieces_from(t: Seq<char>, i: int) -> Seq<Seq<char>>
    decreases t.len() - i,
{
    let p = scan_to_char(t, i, '+');
    if i <= p < t.len() {
        seq![t.subrange(i, p)] + pieces_from(t, p + 1)
    } else {
        seq![t.subrange(i, t.len() as int)]
    }
}

/// Splits on every `+`.  An expression of k terms has k pieces.
pub open spec fn split_plus(t: Seq<char>) -> Seq<Seq<char>> {
    pieces_from(t, 0)
}

/// The terms of a piece list, left to right; the first failing piece
/// decides the error.
pub open spec fn terms_result(pieces: Seq<Seq<char>>) -> Result<Seq<VarView>, ParseError>
    decreases pieces.len(),
{
    if pieces.len() == 0 {
        Ok(Seq::<VarView>::empty())
    } else {
        match terms_result(pieces.drop_last()) {
            Err(e) => Err(e),
            Ok(vs) => match term_result(pieces.last()) {
                Err(e) => Err(e),
                Ok(v) => Ok(vs.push(v)),
            },
        }
    }
}

/// What a whole sum-of-terms expression parses into.
pub open spec fn parse_vars(data: Seq<char>) -> Result<Seq<VarView>, ParseError> {
    terms_result(split_plus(data))
}

/// One more piece extends a term list by that piece's result, with an
/// earlier error kept.
pub proof fn lemma_terms_result_push(pieces: Seq<Seq<char>>, piece: Seq<char>)
    ensures
        terms_result(pieces.push(piece)) == (match terms_result(pieces) {
            Err(e) => Err::<Seq<VarView>, ParseError>(e),
            Ok(vs) => match term_result(piece) {
                Err(e) => Err(e),
                Ok(v) => Ok(vs.push(v)),
            },
        }),
{
    assert(pieces.push(piece).drop_last() =~= pieces);
    assert(pieces.push(piece).last() == piece);
}

/// A failing prefix decides the result of the whole list.
pub proof fn lemma_terms_result_err_extends(a: Seq<Seq<char>>, b: Seq<Seq<char>>)
    requires
        terms_result(a) is Err,
    ensures
        terms_result(a + b) == terms_result(a),
    decreases b.len(),
{
    if b.len() == 0 {
        assert(a + b =~= a);
    } else {
        assert((a + b).drop_last() =~= a + b.drop_last());
        lemma_terms_result_err_extends(a, b.drop_last());
    }
}

/// Whether the declaration pattern `var`, whitespace, name matches
/// starting at position `i`.
pub open spec fn decl_match_at(s: Seq<char>, i: int) -> bool {
    has_pat_at(s, kw_var(), i) && i + 3 < s.len() && is_space_char(s[i + 3]) && {
        let k = skip_spaces_to(s, i + 3, s.len() as int);
        k < s.len() && is_word_char(s[k])
    }
}

/// The first position from `i` on where the declaration pattern
/// matches.
pub open spec fn find_decl(s: Seq<char>, i: int) -> Option<int>
    decreases s.len() - i,
{
    if i >= s.len() {
        None
    } else if decl_match_at(s, i) {
        Some(i)
    } else {
        find_decl(s, i + 1)
    }
}

/// A declaration names a variable with the sentinel weight zero.
pub open spec fn parse_declaration(s: Seq<char>) -> Result<VarView, ParseError> {
    match find_decl(s, 0) {
        None => Err(ParseError::UnmatchedPattern),
        Some(i) => {
            let k = skip_spaces_to(s, i + 3, s.len() as int);
            let ke = scan_word(s, k);
            Ok(
                VarView {
                    name: s.subrange(k, ke),
                    coefficient: CoeffView { negative: false, mantissa: 0, scale: 0 },
                },
            )
        },
    }
}

/// Whether the objective pattern (either direction keyword,
/// whitespace, name, optional whitespace, `:`) matches at `i`.
pub open spec fn obj_match_at(s: Seq<char>, i: int) -> bool {
    (has_pat_at(s, kw_minimize(), i) || has_pat_at(s, kw_maximize(), i)) && i + 8 < s.len()
        && is_space_char(s[i + 8]) && {
        let k = skip_spaces_to(s, i + 8, s.len() as int);
        let ke = scan_word(s, k);
        ke > k && {
            let m = skip_spaces_to(s, ke, s.len() as int);
            m < s.len() && s[m] == ':'
        }
    }
}

pub open spec fn find_obj(s: Seq<char>, i: int) -> Option<int>
    decreases s.len() - i,
{
    if i >= s.len() {
        None
    } else if obj_match_at(s, i) {
        Some(i)
    } else {
        find_obj(s, i + 1)
    }
}

/// An objective: direction keyword, name, `:`, then a term expression
/// running to the end of the statement.  The direction is maximize
/// exactly when the matched keyword is the `maximize` spelling.
pub open spec fn parse_objective_spec(s: Seq<char>) -> Result<ObjectiveView, ParseError> {
    match find_obj(s, 0) {
        None => Err(ParseError::UnmatchedPattern),
        Some(i) => {
            let k = skip_spaces_to(s, i + 8, s.len() as int);
            let ke = scan_word(s, k);
            let m = skip_spaces_to(s, ke, s.len() as int);
            match parse_vars(s.subrange(m + 1, s.len() as int)) {
                Err(e) => Err(e),
                Ok(ts) => Ok(
                    ObjectiveView {
                        name: s.subrange(k, ke),
                        terms: ts,
                        maximize: has_pat_at(s, kw_maximize(), i),
                    },
                ),
            }
        },
    }
}

/// Token containing `<` means at-most, `>` at-least, and `==` equality.
pub open spec fn rel_of(c: char) -> Relation {
    if c == '<' {
        Relation::LessOrEqual
    } else if c == '>' {
        Relation::GreaterOrEqual
    } else {
        Relation::Equal
    }
}

/// Whether the constraint pattern matches at `i`: the keyword and one
/// space, a (possibly empty) name, `:`, at least one character of
/// left-hand side, a two-character relational token whose second
/// character is `=`, and a numeric constant.
pub open spec fn con_match_at(s: Seq<char>, i: int) -> bool {
    has_pat_at(s, kw_subject_sp(), i) && {
        let k = i + 11;
        let ke = scan_word(s, k);
        ke < s.len() && s[ke] == ':' && {
            let r = scan_to_rel(s, ke + 1);
            r > ke + 1 && r + 1 < s.len() && s[r + 1] == '=' && {
                let c0 = skip_spaces_to(s, r + 2, s.len() as int);
                c0 < s.len() && crate::text::is_digit_char(s[c0])
            }
        }
    }
}

pub open spec fn find_con(s: Seq<char>, i: int) -> Option<int>
    decreases s.len() - i,
{
    if i >= s.len() {
        None
    } else if con_match_at(s, i) {
        Some(i)
    } else {
        find_con(s, i + 1)
    }
}

/// The digits of the constraint's constant, dot removed, with the
/// count of fractional digits.
pub open spec fn constant_digits(s: Seq<char>, c0: int) -> (Seq<char>, int) {
    let c_end = scan_digits(s, c0);
    if c_end < s.len() && s[c_end] == '.' {
        let f_end = scan_digits(s, c_end + 1);
        (s.subrange(c0, c_end) + s.subrange(c_end + 1, f_end), f_end - (c_end + 1))
    } else {
        (s.subrange(c0, c_end), 0)
    }
}

/// A constraint: keyword, name, `:`, left-hand terms, relational
/// token, non-negative numeric constant.  Text after the constant is
/// ignored, as the pattern is a search, not an anchor.
pub open spec fn parse_constraint_spec(s: Seq<char>) -> Result<ConstraintView, ParseError> {
    match find_con(s, 0) {
        None => Err(ParseError::UnmatchedPattern),
        Some(i) => {
            let k = i + 11;
            let ke = scan_word(s, k);
            let r = scan_to_rel(s, ke + 1);
            let t0 = skip_spaces_to(s, ke + 1, s.len() as int);
            let t1 = rtrim(s, t0, r);
            let c0 = skip_spaces_to(s, r + 2, s.len() as int);
            let (ds, sc) = constant_digits(s, c0);
            if digits_value(ds) > u64::MAX {
                Err(ParseError::InvalidNumericLiteral)
            } else {
                match parse_vars(s.subrange(t0, t1)) {
                    Err(e) => Err(e),
                    Ok(ts) => Ok(
                        ConstraintView {
                            name: s.subrange(k, ke),
                            terms: ts,
                            constant: CoeffView {
                                negative: false,
                                mantissa: digits_value(ds),
                                scale: sc,
                            },
                            relation: rel_of(s[r]),
                        },
                    ),
                }
            }
        },
    }
}

/// The classifier: fixed priority order over substring tests; `None`
/// when no keyword marker occurs anywhere in the statement.
pub open spec fn classify(t: Seq<char>) -> Option<LineType> {
    if contains_pat(t, kw_comment()) {
        Some(LineType::Comment)
    } else if contains_pat(t, kw_var()) {
        Some(LineType::Variable)
    } else if contains_pat(t, kw_minimize()) || contains_pat(t, kw_maximize()) {
        Some(LineType::Objective)
    } else if contains_pat(t, kw_subject()) {
        Some(LineType::Constraint)
    } else {
        None
    }
}

/// What one trimmed statement parses into: classification, then the
/// kind-specific pattern.
pub open spec fn statement_result(t: Seq<char>) -> Result<ComponentView, ParseError> {
    match classify(t) {
        None => Err(ParseError::MalformedStatement),
        Some(LineType::Comment) => Ok(ComponentView::Comment),
        Some(LineType::Variable) => match parse_declaration(t) {
            Err(e) => Err(e),
            Ok(v) => Ok(ComponentView::Variable(v)),
        },
        Some(LineType::Objective) => match parse_objective_spec(t) {
            Err(e) => Err(e),
            Ok(o) => Ok(ComponentView::Objective(o)),
        },
        Some(LineType::Constraint) => match parse_constraint_spec(t) {
            Err(e) => Err(e),
            Ok(c) => Ok(ComponentView::Constraint(c)),
        },
    }
}

/// The trimmed, non-empty statements of the text from position `i` on,
/// split on the terminator.
pub open spec fn statements_from(s: Seq<char>, i: int) -> Seq<Seq<char>>
    decreases s.len() - i,
{
    let p = scan_to_char(s, i, ';');
    if i <= p < s.len() {
        let stmt = trim_range(s, i, p);
        let rest = statements_from(s, p + 1);
        if stmt.len() > 0 {
            seq![stmt] + rest
        } else {
            rest
        }
    } else {
        let stmt = trim_range(s, i, s.len() as int);
        if stmt.len() > 0 {
            seq![stmt]
        } else {
            Seq::<Seq<char>>::empty()
        }
    }
}

pub open spec fn statements_of(s: Seq<char>) -> Seq<Seq<char>> {
    statements_from(s, 0)
}

/// The accumulating buckets, before the single-objective check.
pub ghost struct AggView {
    pub variables: Seq<VarView>,
    pub constraints: Seq<ConstraintView>,
    pub objective: Option<ObjectiveView>,
}

/// Routes one parsed component into its bucket; a later objective
/// silently overwrites an earlier one.
pub open spec fn add_component(st: AggView, c: ComponentView) -> AggView {
    match c {
        ComponentView::Variable(v) => AggView {
            variables: st.variables.push(v),
            constraints: st.constraints,
            objective: st.objective,
        },
        ComponentView::Constraint(con) => AggView {
            variables: st.variables,
            constraints: st.constraints.push(con),
            objective: st.objective,
        },
        ComponentView::Objective(o) => AggView {
            variables: st.variables,
            constraints: st.constraints,
            objective: Some(o),
        },
        ComponentView::Comment => st,
    }
}

pub open spec fn agg_empty() -> AggView {
    AggView {
        variables: Seq::<VarView>::empty(),
        constraints: Seq::<ConstraintView>::empty(),
        objective: None,
    }
}

/// Folds the statements in document order; the first failing statement
/// aborts the whole parse with its error.
pub open spec fn agg(stmts: Seq<Seq<char>>) -> Result<AggView, ParseError>
    decreases stmts.len(),
{
    if stmts.len() == 0 {
        Ok(agg_empty())
    } else {
        match agg(stmts.drop_last()) {
            Err(e) => Err(e),
            Ok(st) => match statement_result(stmts.last()) {
                Err(e) => Err(e),
                Ok(c) => Ok(add_component(st, c)),
            },
        }
    }
}

/// One more statement extends the fold by its component, with an
/// earlier error kept.
pub proof fn lemma_agg_push(stmts: Seq<Seq<char>>, t: Seq<char>)
    ensures
        agg(stmts.push(t)) == (match agg(stmts) {
            Err(e) => Err::<AggView, ParseError>(e),
            Ok(st) => match statement_result(t) {
                Err(e) => Err(e),
                Ok(c) => Ok(add_component(st, c)),
            },
        }),
{
    assert(stmts.push(t).drop_last() =~= stmts);
    assert(stmts.push(t).last() == t);
}

/// A failing prefix of statements decides the whole fold.
pub proof fn lemma_agg_err_extends(a: Seq<Seq<char>>, b: Seq<Seq<char>>)
    requires
        agg(a) is Err,
    ensures
        agg(a + b) == agg(a),
    decreases b.len(),
{
    if b.len() == 0 {
        assert(a + b =~= a);
    } else {
        assert((a + b).drop_last() =~= a + b.drop_last());
        lemma_agg_err_extends(a, b.drop_last());
    }
}

/// What a whole document parses into: segmentation, per-statement
/// parsing, aggregation, and the mandatory-objective check.
pub open spec fn parse_components(s: Seq<char>) -> Result<crate::model::ComponentsView, ParseError> {
    match agg(statements_of(s)) {
        Err(e) => Err(e),
        Ok(st) => match st.objective {
            None => Err(ParseError::MissingObjective),
            Some(o) => Ok(
                crate::model::ComponentsView {
                    variables: st.variables,
                    constraints: st.constraints,
                    objective: o,
                },
            ),
        },
    }
}

} // verus!
