//! Abstract syntax for assignment statements, together with the scope the
//! analyzer resolves names against.
//!
//! Names are interned symbols, carried as plain numbers; the symbol table
//! that assigns them lives outside this library. Analysis annotates each
//! expression with the type context it was checked under.

use crate::source::{SrcPos, WithPos};
use vstd::prelude::*;

verus! {

/// A resolved type, by its entity number.
#[derive(Clone, Copy, PartialEq, Eq, Structural, Debug)]
pub struct TypeEnt {
    pub id: u64,
}

/// What kind of object a declaration names.
#[derive(Clone, Copy, PartialEq, Eq, Structural, Debug)]
pub enum ObjectClass {
    Signal,
    Variable,
    Constant,
}

/// One visible declaration: a named object of some class, with its resolved
/// subtype when one is known.
#[derive(Clone, Copy, PartialEq, Eq, Structural, Debug)]
pub struct Declaration {
    pub designator: u64,
    pub class: ObjectClass,
    pub subtype: Option<TypeEnt>,
}

/// The name-resolution context the analyzer queries: the declarations
/// visible at the assignment, earlier entries shadowing later ones.
#[derive(Debug)]
pub struct Scope {
    pub decls: Vec<Declaration>,
}

/// The first declaration of a designator among the given ones.
pub open spec fn lookup(decls: Seq<Declaration>, designator: u64) -> Option<Declaration>
    decreases decls.len(),
{
    if decls.len() == 0 {
        None
    } else if decls[0].designator == designator {
        Some(decls[0])
    } else {
        lookup(decls.drop_first(), designator)
    }
}

impl Scope {
    pub fn new() -> (s: Scope)
        ensures
            s.decls@ == Seq::<Declaration>::empty(),
    {
        Scope { decls: Vec::new() }
    }

    /// Make a declaration visible, behind those already present.
    pub fn add(&mut self, decl: Declaration)
        ensures
            final(self).decls@ == old(self).decls@.push(decl),
    {
        self.decls.push(decl);
    }

    /// The first visible declaration of the designator, when there is one.
    pub fn resolve(&self, designator: u64) -> (r: Option<Declaration>)
        ensures
            r == lookup(self.decls@, designator),
    {
        let mut i: usize = 0;
        proof {
            assert(self.decls@.skip(0) =~= self.decls@);
        }
        while i < self.decls.len()
            invariant
                i <= self.decls@.len(),
                lookup(self.decls@, designator) == lookup(
                    self.decls@.skip(i as int),
                    designator,
                ),
                forall|j: int| 0 <= j < i ==> (#[trigger] self.decls@[j]).designator
                    != designator,
            decreases self.decls@.len() - i,
        {
            let d = self.decls[i];
            proof {
                assert(self.decls@.skip(i as int)[0] == d);
            }
            if d.designator == designator {
                return Some(d);
            }
            proof {
                assert(self.decls@.skip(i as int).drop_first() =~= self.decls@.skip(i + 1));
            }
            i = i + 1;
        }
        proof {
            assert(self.decls@.skip(i as int).len() == 0);
        }
        None
    }
}

/// Whether an assignment writes a signal or a variable.
#[derive(Clone, Copy, PartialEq, Eq, Structural, Debug)]
pub enum AssignmentType {
    Signal,
    Variable,
}

/// Whether a declared object may stand as the target of an assignment of
/// the given kind.
pub open spec fn class_matches(class: ObjectClass, assignment_type: AssignmentType) -> bool {
    match assignment_type {
        AssignmentType::Signal => class is Signal,
        AssignmentType::Variable => class is Variable,
    }
}

/// The left-hand side of an assignment: the named object being written.
#[derive(Clone, Copy, PartialEq, Eq, Structural, Debug)]
pub struct Target {
    pub designator: u64,
}

/// The shape of an expression: a reference to a declared name, or a
/// literal value.
#[derive(Clone, Copy, PartialEq, Eq, Structural, Debug)]
pub enum ExprKind {
    Name(u64),
    Literal(u64),
}

/// The note analysis leaves on an expression: the target type it was
/// checked against, or none for an untargeted check.
#[derive(Clone, Copy, PartialEq, Eq, Debug)]
pub struct AnalysisMark {
    pub target_type: Option<TypeEnt>,
}

/// An expression, with the annotation slot analysis fills.
#[derive(Clone, Copy, PartialEq, Eq, Debug)]
pub struct Expression {
    pub kind: ExprKind,
    pub annotation: Option<AnalysisMark>,
}

impl Expression {
    /// A fresh, unanalyzed expression.
    pub fn new(kind: ExprKind) -> (e: Expression)
        ensures
            e.kind == kind,
            e.annotation is None,
    {
        Expression { kind, annotation: None }
    }
}

/// One step of a signal's future: a value and the delay after which it
/// applies.
#[derive(Debug)]
pub struct WaveformElement {
    pub value: WithPos<Expression>,
    pub after: Option<WithPos<Expression>>,
}

/// What an assignment gives a signal: a sequence of value/delay steps, or
/// the marker that the signal keeps its value.
#[derive(Debug)]
pub enum Waveform {
    Elements(Vec<WaveformElement>),
    Unaffected,
}

/// One guarded alternative of a conditional right-hand side.
#[derive(Debug)]
pub struct Conditional<T> {
    pub condition: WithPos<Expression>,
    pub item: T,
}

/// The ordered guarded alternatives of a conditional right-hand side, with
/// the optional unguarded last one.
#[derive(Debug)]
pub struct Conditionals<T> {
    pub conditionals: Vec<Conditional<T>>,
    pub else_item: Option<T>,
}

/// One pattern a selected alternative may match.
#[derive(Clone, Copy, Debug)]
pub enum Choice {
    Expression(Expression),
    Others,
}

/// One alternative of a selected right-hand side: its patterns and its
/// value.
#[derive(Debug)]
pub struct Alternative<T> {
    pub choices: Vec<WithPos<Choice>>,
    pub item: T,
}

/// The selector and the alternatives of a selected right-hand side.
#[derive(Debug)]
pub struct Selection<T> {
    pub expression: WithPos<Expression>,
    pub alternatives: Vec<Alternative<T>>,
}

/// The right-hand side of an assignment: one unconditional value, a
/// guarded chain, or a choice-indexed selection.
#[derive(Debug)]
pub enum AssignmentRightHand<T> {
    Simple(T),
    Conditional(Conditionals<T>),
    Selected(Selection<T>),
}

} // verus!
