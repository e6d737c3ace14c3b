//! Document-level laws of the parser, proved once and for all inputs:
//! how the aggregation buckets relate to the statements of the
//! document, and when a parse is bound to fail.

use vstd::prelude::*;
use crate::grammar::{agg, classify, parse_components, statement_result, statements_of, AggView};
use crate::model::{ComponentView, ComponentsView, ParseError};

verus! {

/// Whether a statement parses as a constraint.
pub open spec fn is_constraint_stmt(t: Seq<char>) -> bool {
    statement_result(t) matches Ok(ComponentView::Constraint(_))
}

/// Whether a statement parses as an objective.
pub open spec fn is_objective_stmt(t: Seq<char>) -> bool {
    statement_result(t) matches Ok(ComponentView::Objective(_))
}

/// How many statements of the list parse as constraints.
pub open spec fn constraint_count(stmts: Seq<Seq<char>>) -> int
    decreases stmts.len(),
{
    if stmts.len() == 0 {
        0
    } else {
        constraint_count(stmts.drop_last()) + if is_constraint_stmt(stmts.last()) {
            1int
        } else {
            0int
        }
    }
}

/// How many statements of the list parse as objectives.
pub open spec fn objective_count(stmts: Seq<Seq<char>>) -> int
    decreases stmts.len(),
{
    if stmts.len() == 0 {
        0
    } else {
        objective_count(stmts.drop_last()) + if is_objective_stmt(stmts.last()) {
            1int
        } else {
            0int
        }
    }
}

/// A successful fold fills the constraint bucket with one entry per
/// constraint statement and holds an objective exactly when one was
/// seen, namely the parse of one of the objective statements.
proof fn lemma_agg_buckets(stmts: Seq<Seq<char>>, st: AggView)
    requires
        agg(stmts) == Ok::<AggView, ParseError>(st),
    ensures
        st.constraints.len() == constraint_count(stmts),
        st.objective is None ==> objective_count(stmts) == 0,
        st.objective matches Some(o) ==> exists|i: int|
            0 <= i < stmts.len() && statement_result(stmts[i]) == Ok::<
                ComponentView,
                ParseError,
            >(ComponentView::Objective(o)),
    decreases stmts.len(),
{
    if stmts.len() > 0 {
        match agg(stmts.drop_last()) {
            Ok(pst) => {
                lemma_agg_buckets(stmts.drop_last(), pst);
                match pst.objective {
                    Some(po) => {
                        let i = choose|i: int|
                            0 <= i < stmts.drop_last().len() && statement_result(
                                stmts.drop_last()[i],
                            ) == Ok::<ComponentView, ParseError>(ComponentView::Objective(po));
                        assert(stmts[i] == stmts.drop_last()[i]);
                    },
                    None => {},
                }
                match statement_result(stmts.last()) {
                    Ok(c) => match c {
                        ComponentView::Objective(o) => {
                            assert(statement_result(stmts[stmts.len() - 1]) == Ok::<
                                ComponentView,
                                ParseError,
                            >(ComponentView::Objective(o)));
                        },
                        _ => {},
                    },
                    Err(_) => {
                        assert(false);
                    },
                }
            },
            Err(_) => {
                assert(false);
            },
        }
    }
}

proof fn lemma_objective_count_nonneg(stmts: Seq<Seq<char>>)
    ensures
        objective_count(stmts) >= 0,
    decreases stmts.len(),
{
    if stmts.len() > 0 {
        lemma_objective_count_nonneg(stmts.drop_last());
    }
}

/// An objective statement anywhere in the list makes the objective
/// count positive.
proof fn lemma_objective_count_pos(stmts: Seq<Seq<char>>, i: int)
    requires
        0 <= i < stmts.len(),
        is_objective_stmt(stmts[i]),
    ensures
        objective_count(stmts) > 0,
    decreases stmts.len(),
{
    if i < stmts.len() - 1 {
        assert(stmts.drop_last()[i] == stmts[i]);
        lemma_objective_count_pos(stmts.drop_last(), i);
    } else {
        lemma_objective_count_nonneg(stmts.drop_last());
    }
}

/// A successful fold means every statement of the list parsed.
proof fn lemma_agg_ok_each(stmts: Seq<Seq<char>>, i: int)
    requires
        agg(stmts) matches Ok(_),
        0 <= i < stmts.len(),
    ensures
        statement_result(stmts[i]) matches Ok(_),
    decreases stmts.len(),
{
    if i < stmts.len() - 1 {
        assert(stmts.drop_last()[i] == stmts[i]);
        lemma_agg_ok_each(stmts.drop_last(), i);
    }
}

/// In a successfully parsed document the constraints bucket has
/// exactly one entry per statement that parses as a constraint, and
/// the objective of the result is the parse of one of the document's
/// objective statements.  In a document with exactly one objective
/// statement it is therefore that sole parsed objective.
pub proof fn lemma_objective_and_constraints(doc: Seq<char>, c: ComponentsView)
    requires
        parse_components(doc) == Ok::<ComponentsView, ParseError>(c),
    ensures
        c.constraints.len() == constraint_count(statements_of(doc)),
        exists|i: int|
            0 <= i < statements_of(doc).len() && statement_result(statements_of(doc)[i]) == Ok::<
                ComponentView,
                ParseError,
            >(ComponentView::Objective(c.objective)),
{
    match agg(statements_of(doc)) {
        Ok(st) => {
            lemma_agg_buckets(statements_of(doc), st);
        },
        Err(_) => {
            assert(false);
        },
    }
}

/// A document with zero objective statements never parses
/// successfully; when each of its statements itself parses, the
/// reported error is the missing objective.
pub proof fn lemma_missing_objective(doc: Seq<char>)
    requires
        objective_count(statements_of(doc)) == 0,
    ensures
        parse_components(doc) matches Err(_),
        agg(statements_of(doc)) matches Ok(_) ==> parse_components(doc) == Err::<
            ComponentsView,
            ParseError,
        >(ParseError::MissingObjective),
{
    match agg(statements_of(doc)) {
        Ok(st) => {
            lemma_agg_buckets(statements_of(doc), st);
            match st.objective {
                Some(o) => {
                    let i = choose|i: int|
                        0 <= i < statements_of(doc).len() && statement_result(
                            statements_of(doc)[i],
                        ) == Ok::<ComponentView, ParseError>(ComponentView::Objective(o));
                    lemma_objective_count_pos(statements_of(doc), i);
                },
                None => {},
            }
        },
        Err(_) => {},
    }
}

/// A statement holding none of the four keyword markers fails as
/// malformed.
pub proof fn lemma_malformed_statement(t: Seq<char>)
    requires
        classify(t) is None,
    ensures
        statement_result(t) == Err::<ComponentView, ParseError>(ParseError::MalformedStatement),
{
}

/// A document with such a statement never parses successfully.
pub proof fn lemma_malformed_statement_fails(doc: Seq<char>, i: int)
    requires
        0 <= i < statements_of(doc).len(),
        classify(statements_of(doc)[i]) is None,
    ensures
        parse_components(doc) matches Err(_),
{
    if agg(statements_of(doc)) matches Ok(_) {
        lemma_agg_ok_each(statements_of(doc), i);
    }
}

} // verus!
