use rulp::model::{Coefficient, Component, LineType, ParseError, Relation, WeightedVariable};
use rulp::parser::Parser;

fn coeff_to_f64(c: &Coefficient) -> f64 {
    let magnitude = c.mantissa as f64 / 10f64.powi(c.scale as i32);
    if c.negative {
        -magnitude
    } else {
        magnitude
    }
}

fn generate_var(name: String, negative: bool, mantissa: u64, scale: usize) -> WeightedVariable {
    WeightedVariable { name, coefficient: Coefficient { negative, mantissa, scale } }
}

#[test]
fn line_type_test() {
    let p = Parser::new();

    let comment = "# This is a comment;";
    let variable = "var a;";
    let min_objective = "minimize obj: 3*a;";
    let max_objective = "maximize obj: 3*a;";
    let constraint = "subject to foo_constraint: a == 10;";

    assert_eq!(p.get_line_type(comment), Ok(LineType::Comment));
    assert_eq!(p.get_line_type(variable), Ok(LineType::Variable));
    assert_eq!(p.get_line_type(min_objective), Ok(LineType::Objective));
    assert_eq!(p.get_line_type(max_objective), Ok(LineType::Objective));
    assert_eq!(p.get_line_type(constraint), Ok(LineType::Constraint));
}

#[test]
fn parse_variable_declaration_test() {
    let p = Parser::new();

    let variable = "var a;";
    let expected = WeightedVariable {
        name: "a".to_string(),
        coefficient: Coefficient { negative: false, mantissa: 0, scale: 0 },
    };

    assert_eq!(p.parse_variable_declaration(variable).unwrap(), expected);
    assert_eq!(coeff_to_f64(&p.parse_variable_declaration(variable).unwrap().coefficient), 0.);
}

#[test]
fn parse_vars_test() {
    let p = Parser::new();

    let data = "3.5*a + 1.5*b + -0.5*c";
    let expected = vec![
        generate_var("a".to_string(), false, 35, 1),
        generate_var("b".to_string(), false, 15, 1),
        generate_var("c".to_string(), true, 5, 1),
    ];

    let got = p.parse_objective_vars(data).unwrap();
    assert_eq!(got, expected);
    assert_eq!(coeff_to_f64(&got[0].coefficient), 3.5);
    assert_eq!(coeff_to_f64(&got[1].coefficient), 1.5);
    assert_eq!(coeff_to_f64(&got[2].coefficient), -0.5);
}

#[test]
fn parse_vars_implicit_coefficient_test() {
    let p = Parser::new();

    let got = p.parse_objective_vars("a + b").unwrap();
    assert_eq!(got.len(), 2);
    assert_eq!(got[0].name, "a");
    assert_eq!(coeff_to_f64(&got[0].coefficient), 1.0);
    assert_eq!(got[1].name, "b");
    assert_eq!(coeff_to_f64(&got[1].coefficient), 1.0);
}

#[test]
fn parse_negated_bare_variable_test() {
    let p = Parser::new();

    let got = p.parse_variable("-a").unwrap();
    assert_eq!(got.name, "a");
    assert_eq!(coeff_to_f64(&got.coefficient), -1.0);
    assert!(got.coefficient.negative);
    assert_eq!(got.coefficient.mantissa, 1);
}

#[test]
fn parse_vars_keeps_duplicates_and_order_test() {
    let p = Parser::new();

    let got = p.parse_objective_vars("a + 2*a").unwrap();
    assert_eq!(got.len(), 2);
    assert_eq!(got[0].name, "a");
    assert_eq!(coeff_to_f64(&got[0].coefficient), 1.0);
    assert_eq!(got[1].name, "a");
    assert_eq!(coeff_to_f64(&got[1].coefficient), 2.0);
}

#[test]
fn relation_resolution_test() {
    let p = Parser::new();

    let le = p.parse_constraint("subject to c: a <= 10").unwrap();
    assert_eq!(le.relation, Relation::LessOrEqual);
    let ge = p.parse_constraint("subject to c: a >= 10").unwrap();
    assert_eq!(ge.relation, Relation::GreaterOrEqual);
    let eq = p.parse_constraint("subject to c: a == 10").unwrap();
    assert_eq!(eq.relation, Relation::Equal);
}

#[test]
fn parse_constraint_parts_test() {
    let p = Parser::new();

    let c = p.parse_constraint("subject to limit: 2*a + -3.5*b <= 42.5").unwrap();
    assert_eq!(c.name, "limit");
    assert_eq!(c.terms.len(), 2);
    assert_eq!(c.terms[0].name, "a");
    assert_eq!(coeff_to_f64(&c.terms[0].coefficient), 2.0);
    assert_eq!(c.terms[1].name, "b");
    assert_eq!(coeff_to_f64(&c.terms[1].coefficient), -3.5);
    assert_eq!(coeff_to_f64(&c.constant), 42.5);
    assert_eq!(c.relation, Relation::LessOrEqual);
}

#[test]
fn parse_objective_parts_test() {
    let p = Parser::new();

    let o = p.parse_objective("minimize cost: 3*a + b").unwrap();
    assert_eq!(o.name, "cost");
    assert!(!o.maximize);
    assert_eq!(o.terms.len(), 2);
    assert_eq!(coeff_to_f64(&o.terms[0].coefficient), 3.0);
    assert_eq!(coeff_to_f64(&o.terms[1].coefficient), 1.0);

    let o = p.parse_objective("maximize profit: a").unwrap();
    assert!(o.maximize);
}

#[test]
fn missing_objective_test() {
    let p = Parser::new();

    let doc = "var a; var b; subject to c: a + b <= 10;";
    assert_eq!(p.get_components(doc).unwrap_err(), ParseError::MissingObjective);
    assert_eq!(p.get_components("").unwrap_err(), ParseError::MissingObjective);
}

#[test]
fn malformed_statement_test() {
    let p = Parser::new();

    assert_eq!(p.get_line_type("hello world").unwrap_err(), ParseError::MalformedStatement);
    let doc = "hello world; var a;";
    assert_eq!(p.get_components(doc).unwrap_err(), ParseError::MalformedStatement);
}

#[test]
fn unmatched_pattern_test() {
    let p = Parser::new();

    match p.component_from_line("var ;") {
        Err(ParseError::UnmatchedPattern) => {},
        other => panic!("expected an unmatched pattern, got {:?}", other),
    }
    let doc = "var a; maximize obj; subject to c: a <= 1;";
    assert_eq!(p.get_components(doc).unwrap_err(), ParseError::UnmatchedPattern);
}

#[test]
fn invalid_numeric_literal_test() {
    let p = Parser::new();

    let big = "99999999999999999999999*a";
    assert_eq!(p.parse_variable(big).unwrap_err(), ParseError::InvalidNumericLiteral);
    let doc = "var a; maximize obj: a; subject to c: a <= 99999999999999999999999;";
    assert_eq!(p.get_components(doc).unwrap_err(), ParseError::InvalidNumericLiteral);
}

#[test]
fn comment_statements_are_dropped_test() {
    let p = Parser::new();

    assert!(matches!(p.component_from_line("# var x"), Ok(Component::Comment)));
    let doc = "# declares a; var a; maximize obj: a;";
    let c = p.get_components(doc).unwrap();
    assert_eq!(c.variables.len(), 1);
    assert_eq!(c.constraints.len(), 0);
}

#[test]
fn last_objective_wins_test() {
    let p = Parser::new();

    let doc = "var a; minimize first: a; maximize second: 2*a;";
    let c = p.get_components(doc).unwrap();
    assert_eq!(c.objective.name, "second");
    assert!(c.objective.maximize);
    assert_eq!(coeff_to_f64(&c.objective.terms[0].coefficient), 2.0);
}

#[test]
fn statement_spans_lines_test() {
    let p = Parser::new();

    let doc = "var\n  a;\nmaximize obj:\n  3*a +\n  b;";
    let c = p.get_components(doc).unwrap();
    assert_eq!(c.variables.len(), 1);
    assert_eq!(c.variables[0].name, "a");
    assert_eq!(c.objective.terms.len(), 2);
}

#[test]
fn end_to_end_test() {
    let p = Parser::new();

    let doc = "
        var television;
        var newspaper;
        var radio;

        maximize objective: 100000*television + 40000*newspaper + 18000*radio;

        subject to constraint_1: 20*television + 6*newspaper + 3*radio <= 182;
        subject to constraint_2: newspaper <= 10;
        subject to constraint_3: -1*television + -1*newspaper + radio <= 0;
        subject to constraint_4: -9*television + newspaper + radio <= 0;
    ";
    let c = p.get_components(doc).unwrap();

    assert_eq!(c.variables.len(), 3);
    assert_eq!(c.variables[0].name, "television");
    assert_eq!(c.variables[1].name, "newspaper");
    assert_eq!(c.variables[2].name, "radio");

    assert_eq!(c.constraints.len(), 4);
    assert_eq!(c.constraints[0].name, "constraint_1");
    assert_eq!(coeff_to_f64(&c.constraints[0].constant), 182.0);
    assert_eq!(c.constraints[0].relation, Relation::LessOrEqual);
    assert_eq!(coeff_to_f64(&c.constraints[2].terms[0].coefficient), -1.0);
    assert_eq!(coeff_to_f64(&c.constraints[3].terms[0].coefficient), -9.0);

    assert!(c.objective.maximize);
    let expected_terms = vec![
        ("television", 100000.0),
        ("newspaper", 40000.0),
        ("radio", 18000.0),
    ];
    assert_eq!(c.objective.terms.len(), 3);
    for (term, (name, value)) in c.objective.terms.iter().zip(expected_terms.iter()) {
        assert_eq!(&term.name, name);
        assert_eq!(coeff_to_f64(&term.coefficient), *value);
    }
}

#[test]
fn parse_components_from_text_test() {
    let doc = "var a; maximize obj: a; subject to c: a <= 5;";
    let c = Parser::parse_components_from_text(doc).unwrap();
    assert_eq!(c.variables.len(), 1);
    assert_eq!(c.constraints.len(), 1);
    assert_eq!(c.objective.name, "obj");
}

#[test]
fn fractional_constant_without_digits_test() {
    let p = Parser::new();

    let c = p.parse_constraint("subject to c: a <= 182.").unwrap();
    assert_eq!(coeff_to_f64(&c.constant), 182.0);
    assert_eq!(c.constant.mantissa, 182);
    assert_eq!(c.constant.scale, 0);
}
