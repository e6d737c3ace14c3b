//! The data model: the typed records a parsed document turns into, and
//! the error kinds a malformed document fails with.

use vstd::prelude::*;

verus! {

/// How a constraint bounds its weighted sum of variables.
#[derive(Clone, Copy, Debug, PartialEq, Eq, Structural)]
pub enum Relation {
    LessOrEqual,
    GreaterOrEqual,
    Equal,
}

/// Why a parse failed.  Every failure aborts the whole parse.
#[derive(Clone, Copy, Debug, PartialEq, Eq, Structural)]
pub enum ParseError {
    /// A statement matches none of the four recognized shapes.
    MalformedStatement,
    /// The document contains zero objective statements.
    MissingObjective,
    /// A keyword is present but a required sub-element is not.
    UnmatchedPattern,
    /// A captured numeric literal does not fit the coefficient type.
    InvalidNumericLiteral,
}

/// The four statement kinds, in classification priority order.
#[derive(Clone, Copy, Debug, PartialEq, Eq, Structural)]
pub enum LineType {
    Variable,
    Constraint,
    Objective,
    Comment,
}

/// An exact decimal number, as written in the source text:
/// the value is `mantissa / 10^scale`, negated when `negative` holds.
///
/// `3.5` is held as mantissa `35`, scale `1`; a bare name carries the
/// implicit coefficient `1`, and a declaration the sentinel `0`.
#[derive(Clone, Copy, Debug, PartialEq, Eq, Structural)]
pub struct Coefficient {
    pub negative: bool,
    pub mantissa: u64,
    pub scale: usize,
}

/// The mathematical value of a [`Coefficient`].
pub ghost struct CoeffView {
    pub negative: bool,
    pub mantissa: int,
    pub scale: int,
}

impl View for Coefficient {
    type V = CoeffView;

    open spec fn view(&self) -> CoeffView {
        CoeffView {
            negative: self.negative,
            mantissa: self.mantissa as int,
            scale: self.scale as int,
        }
    }
}

impl Coefficient {
    /// The sentinel weight of a declaration-only variable occurrence.
    pub fn zero() -> (r: Coefficient)
        ensures
            r@ == (CoeffView { negative: false, mantissa: 0, scale: 0 }),
    {
        Coefficient { negative: false, mantissa: 0, scale: 0 }
    }
}

/// One occurrence of a variable with a signed decimal weight.
#[derive(Debug, Clone)]
pub struct WeightedVariable {
    pub name: String,
    pub coefficient: Coefficient,
}

pub ghost struct VarView {
    pub name: Seq<char>,
    pub coefficient: CoeffView,
}

impl View for WeightedVariable {
    type V = VarView;

    open spec fn view(&self) -> VarView {
        VarView { name: self.name@, coefficient: self.coefficient@ }
    }
}

impl PartialEq for WeightedVariable {
    fn eq(&self, other: &WeightedVariable) -> bool {
        self.name == other.name && self.coefficient == other.coefficient
    }
}

impl vstd::std_specs::cmp::PartialEqSpecImpl for WeightedVariable {
    open spec fn obeys_eq_spec() -> bool {
        true
    }

    open spec fn eq_spec(&self, other: &WeightedVariable) -> bool {
        self.name@ == other.name@ && self.coefficient == other.coefficient
    }
}

/// The views of a sequence of weighted variables.
pub open spec fn vars_view(s: Seq<WeightedVariable>) -> Seq<VarView> {
    s.map_values(|t: WeightedVariable| t@)
}

pub broadcast proof fn lemma_vars_view_push(s: Seq<WeightedVariable>, w: WeightedVariable)
    ensures
        #[trigger] vars_view(s.push(w)) == vars_view(s).push(w@),
{
    assert(vars_view(s.push(w)) =~= vars_view(s).push(w@));
}

/// A named bound on a weighted sum: `terms relation constant`.
#[derive(Debug, Clone)]
pub struct Constraint {
    pub name: String,
    pub terms: Vec<WeightedVariable>,
    pub constant: Coefficient,
    pub relation: Relation,
}

pub ghost struct ConstraintView {
    pub name: Seq<char>,
    pub terms: Seq<VarView>,
    pub constant: CoeffView,
    pub relation: Relation,
}

impl View for Constraint {
    type V = ConstraintView;

    open spec fn view(&self) -> ConstraintView {
        ConstraintView {
            name: self.name@,
            terms: vars_view(self.terms@),
            constant: self.constant@,
            relation: self.relation,
        }
    }
}

/// The quantity to optimize and in which direction.
#[derive(Debug, Clone)]
pub struct Objective {
    pub name: String,
    pub terms: Vec<WeightedVariable>,
    pub maximize: bool,
}

pub ghost struct ObjectiveView {
    pub name: Seq<char>,
    pub terms: Seq<VarView>,
    pub maximize: bool,
}

impl View for Objective {
    type V = ObjectiveView;

    open spec fn view(&self) -> ObjectiveView {
        ObjectiveView {
            name: self.name@,
            terms: vars_view(self.terms@),
            maximize: self.maximize,
        }
    }
}

/// Everything a well-formed document parses into.
#[derive(Debug, Clone)]
pub struct Components {
    pub variables: Vec<WeightedVariable>,
    pub constraints: Vec<Constraint>,
    pub objective: Objective,
}

pub ghost struct ComponentsView {
    pub variables: Seq<VarView>,
    pub constraints: Seq<ConstraintView>,
    pub objective: ObjectiveView,
}

/// The views of a sequence of constraints.
pub open spec fn cons_view(s: Seq<Constraint>) -> Seq<ConstraintView> {
    s.map_values(|c: Constraint| c@)
}

pub broadcast proof fn lemma_cons_view_push(s: Seq<Constraint>, c: Constraint)
    ensures
        #[trigger] cons_view(s.push(c)) == cons_view(s).push(c@),
{
    assert(cons_view(s.push(c)) =~= cons_view(s).push(c@));
}

impl View for Components {
    type V = ComponentsView;

    open spec fn view(&self) -> ComponentsView {
        ComponentsView {
            variables: vars_view(self.variables@),
            constraints: cons_view(self.constraints@),
            objective: self.objective@,
        }
    }
}

/// What one classified statement parses into.
#[derive(Debug)]
pub enum Component {
    Variable(WeightedVariable),
    Constraint(Constraint),
    Objective(Objective),
    Comment,
}

pub ghost enum ComponentView {
    Variable(VarView),
    Constraint(ConstraintView),
    Objective(ObjectiveView),
    Comment,
}

impl View for Component {
    type V = ComponentView;

    open spec fn view(&self) -> ComponentView {
        match self {
            Component::Variable(v) => ComponentView::Variable(v@),
            Component::Constraint(c) => ComponentView::Constraint(c@),
            Component::Objective(o) => ComponentView::Objective(o@),
            Component::Comment => ComponentView::Comment,
        }
    }
}

} // verus!
