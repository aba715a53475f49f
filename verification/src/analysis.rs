//! Semantic analysis of assignment statements: the target is resolved once
//! against the scope, and its type context is broadcast into every
//! alternative of the right-hand side, each of which is analyzed on its own.
//!
//! Failures come in two tiers. A target that resolves to no declaration is
//! fatal: the statement's analysis is abandoned and the error propagated.
//! Everything else is a diagnostic: it is appended to the caller's sink and
//! analysis of the remaining alternatives goes on, so one malformed branch
//! never silences its siblings.

use crate::ast::{
    class_matches, lookup, Alternative, AnalysisMark, AssignmentRightHand, AssignmentType, Choice,
    Conditional, Conditionals, Declaration, ExprKind, Expression, Scope, Selection, Target,
    TypeEnt, Waveform, WaveformElement,
};
use crate::context::dec_rep;
use crate::diagnostic::{diag_at, diag_views, Diagnostic, DiagnosticView};
use crate::source::{SrcPos, WithPos};
use vstd::prelude::*;

verus! {

/// The failure that abandons the analysis of one statement: no meaningful
/// work is left once the assignment's target cannot be resolved at all.
#[derive(Clone, Copy, PartialEq, Eq, Structural, Debug)]
pub struct Fatal {}

/// The result of an analysis step that yields no value: it either went
/// through (diagnostics aside) or was abandoned.
pub type FatalNullResult = Result<(), Fatal>;

/// The message reporting an unresolvable name.
pub open spec fn msg_no_declaration(designator: u64) -> Seq<char> {
    "no declaration of symbol "@ + dec_rep(designator as nat)
}

/// The message reporting a target whose object class does not fit the
/// assignment: a signal assignment must write a signal, a variable
/// assignment a variable.
pub open spec fn msg_not_assignable(designator: u64, assignment_type: AssignmentType) -> Seq<
    char,
> {
    "symbol "@ + dec_rep(designator as nat) + match assignment_type {
        AssignmentType::Signal => " is not a signal"@,
        AssignmentType::Variable => " is not a variable"@,
    }
}

/// The message reporting a typed name that does not carry the target's
/// type.
pub open spec fn msg_type_mismatch(found: TypeEnt, expected: TypeEnt) -> Seq<char> {
    "type "@ + dec_rep(found.id as nat) + " does not match target type "@ + dec_rep(
        expected.id as nat,
    )
}

/// The owned value of an optional borrowed type.
pub open spec fn opt_ty(t: Option<&TypeEnt>) -> Option<TypeEnt> {
    match t {
        Some(t) => Some(*t),
        None => None,
    }
}

/// An expression annotated as analyzed under the given type context.
pub open spec fn marked_bare(ttyp: Option<TypeEnt>, e: Expression) -> Expression {
    Expression { kind: e.kind, annotation: Some(AnalysisMark { target_type: ttyp }) }
}

/// A located expression annotated as analyzed under the given type context.
pub open spec fn marked(ttyp: Option<TypeEnt>, e: WithPos<Expression>) -> WithPos<Expression> {
    WithPos { item: marked_bare(ttyp, e.item), pos: e.pos }
}

/// The diagnostics analyzing one expression yields under a type context: an
/// unresolvable name is reported, as is a typed name that does not carry
/// the target type; a literal and an untyped name pass.
pub open spec fn expr_diags_at(
    decls: Seq<Declaration>,
    ttyp: Option<TypeEnt>,
    pos: SrcPos,
    e: Expression,
) -> Seq<DiagnosticView> {
    match e.kind {
        ExprKind::Name(designator) => match lookup(decls, designator) {
            Option::None => seq![diag_at(pos, msg_no_declaration(designator))],
            Option::Some(d) => match ttyp {
                Option::Some(t) => match d.subtype {
                    Option::Some(s) => if s != t {
                        seq![diag_at(pos, msg_type_mismatch(s, t))]
                    } else {
                        Seq::<DiagnosticView>::empty()
                    },
                    Option::None => Seq::<DiagnosticView>::empty(),
                },
                Option::None => Seq::<DiagnosticView>::empty(),
            },
        },
        ExprKind::Literal(_) => Seq::<DiagnosticView>::empty(),
    }
}

/// The diagnostics of one located expression.
pub open spec fn expr_diags(
    decls: Seq<Declaration>,
    ttyp: Option<TypeEnt>,
    e: WithPos<Expression>,
) -> Seq<DiagnosticView> {
    expr_diags_at(decls, ttyp, e.pos, e.item)
}

/// The type an assignment's resolved target hands to every alternative of
/// its right-hand side: the declared subtype when the target names an
/// object of the fitting class, and nothing otherwise.
pub open spec fn resolved_target_type(
    decls: Seq<Declaration>,
    target: Target,
    assignment_type: AssignmentType,
) -> Option<TypeEnt> {
    match lookup(decls, target.designator) {
        Option::Some(d) => if class_matches(d.class, assignment_type) {
            d.subtype
        } else {
            Option::None
        },
        Option::None => Option::None,
    }
}

/// The diagnostics resolving a target yields: a resolvable target of the
/// wrong object class is reported (and analysis goes on untyped); an
/// unresolvable one yields no diagnostic here, since that failure is fatal.
pub open spec fn target_diags(
    decls: Seq<Declaration>,
    target: WithPos<Target>,
    assignment_type: AssignmentType,
) -> Seq<DiagnosticView> {
    match lookup(decls, target.item.designator) {
        Option::Some(d) => if class_matches(d.class, assignment_type) {
            Seq::<DiagnosticView>::empty()
        } else {
            seq![diag_at(target.pos, msg_not_assignable(target.item.designator, assignment_type))]
        },
        Option::None => Seq::<DiagnosticView>::empty(),
    }
}

/// The part of the type-checking engine that assignment analysis runs in.
#[derive(Debug)]
pub struct AnalyzeContext {}

impl AnalyzeContext {
    pub fn new() -> (r: AnalyzeContext) {
        AnalyzeContext {}
    }

    /// The rendered text of `msg_no_declaration`.
    fn no_declaration_message(&self, designator: u64) -> (m: String)
        ensures
            m@ == msg_no_declaration(designator),
    {
        let mut m = String::new();
        m.push_str("no declaration of symbol ");
        let (digits, _) = crate::context::dec_string(designator);
        m.push_str(digits.as_str());
        m
    }

    /// The rendered text of `msg_not_assignable`.
    fn not_assignable_message(&self, designator: u64, assignment_type: AssignmentType) -> (m:
        String)
        ensures
            m@ == msg_not_assignable(designator, assignment_type),
    {
        let mut m = String::new();
        m.push_str("symbol ");
        let (digits, _) = crate::context::dec_string(designator);
        m.push_str(digits.as_str());
        match assignment_type {
            AssignmentType::Signal => m.push_str(" is not a signal"),
            AssignmentType::Variable => m.push_str(" is not a variable"),
        }
        m
    }

    /// The rendered text of `msg_type_mismatch`.
    fn type_mismatch_message(&self, found: TypeEnt, expected: TypeEnt) -> (m: String)
        ensures
            m@ == msg_type_mismatch(found, expected),
    {
        let mut m = String::new();
        m.push_str("type ");
        let (digits, _) = crate::context::dec_string(found.id);
        m.push_str(digits.as_str());
        m.push_str(" does not match target type ");
        let (digits2, _) = crate::context::dec_string(expected.id);
        m.push_str(digits2.as_str());
        m
    }

    /// Resolve the assignment's target against the scope. An unresolvable
    /// target is fatal; a resolvable one of the wrong object class is
    /// reported and leaves the assignment untyped; otherwise the target's
    /// declared subtype, when known, becomes the statement's type context.
    pub fn resolve_target(
        &self,
        scope: &Scope,
        target: &mut WithPos<Target>,
        assignment_type: AssignmentType,
        diagnostics: &mut Vec<Diagnostic>,
    ) -> (r: Result<Option<TypeEnt>, Fatal>)
        ensures
            *final(target) == *old(target),
            match r {
                Ok(tt) => {
                    &&& lookup(scope.decls@, old(target).item.designator) is Some
                    &&& tt == resolved_target_type(
                        scope.decls@,
                        old(target).item,
                        assignment_type,
                    )
                    &&& diag_views(final(diagnostics)@) == diag_views(old(diagnostics)@)
                        + target_diags(scope.decls@, *old(target), assignment_type)
                },
                Err(_) => {
                    &&& lookup(scope.decls@, old(target).item.designator) is None
                    &&& final(diagnostics)@ == old(diagnostics)@
                },
            },
    {
        match scope.resolve(target.item.designator) {
            None => Err(Fatal {}),
            Some(d) => {
                let ok = match assignment_type {
                    AssignmentType::Signal => matches!(d.class, crate::ast::ObjectClass::Signal),
                    AssignmentType::Variable => matches!(
                        d.class,
                        crate::ast::ObjectClass::Variable,
                    ),
                };
                if ok {
                    Ok(d.subtype)
                } else {
                    let msg = self.not_assignable_message(target.item.designator, assignment_type);
                    let diag = Diagnostic::error(&target.pos, msg);
                    diagnostics.push(diag);
                    proof {
                        assert(diag_views(diagnostics@) =~= diag_views(old(diagnostics)@)
                            + target_diags(scope.decls@, *old(target), assignment_type));
                    }
                    Ok(None)
                }
            },
        }
    }

    /// Analyze one expression at the given span under an optional type
    /// context, and annotate it as analyzed under that context.
    pub fn analyze_expression_pos(
        &self,
        scope: &Scope,
        ttyp: Option<&TypeEnt>,
        pos: &SrcPos,
        expr: &mut Expression,
        diagnostics: &mut Vec<Diagnostic>,
    ) -> (r: FatalNullResult)
        ensures
            r is Ok,
            *final(expr) == marked_bare(opt_ty(ttyp), *old(expr)),
            diag_views(final(diagnostics)@) == diag_views(old(diagnostics)@) + expr_diags_at(
                scope.decls@,
                opt_ty(ttyp),
                SrcPos { source: pos.source, range: pos.range },
                *old(expr),
            ),
    {
        let ghost spos = SrcPos { source: pos.source, range: pos.range };
        match expr.kind {
            ExprKind::Name(designator) => {
                match scope.resolve(designator) {
                    None => {
                        let msg = self.no_declaration_message(designator);
                        let diag = Diagnostic::error(pos, msg);
                        diagnostics.push(diag);
                        proof {
                            assert(diag_views(diagnostics@) =~= diag_views(old(diagnostics)@)
                                + expr_diags_at(scope.decls@, opt_ty(ttyp), spos, *old(expr)));
                        }
                    },
                    Some(d) => {
                        match ttyp {
                            Some(t) => {
                                match d.subtype {
                                    Some(s) => {
                                        if s.id != t.id {
                                            let msg = self.type_mismatch_message(s, *t);
                                            let diag = Diagnostic::error(pos, msg);
                                            diagnostics.push(diag);
                                            proof {
                                                assert(s != *t);
                                                assert(diag_views(diagnostics@) =~= diag_views(
                                                    old(diagnostics)@,
                                                ) + expr_diags_at(
                                                    scope.decls@,
                                                    opt_ty(ttyp),
                                                    spos,
                                                    *old(expr),
                                                ));
                                            }
                                        } else {
                                            proof {
                                                assert(s == *t);
                                                assert(diag_views(diagnostics@) =~= diag_views(
                                                    old(diagnostics)@,
                                                ) + expr_diags_at(
                                                    scope.decls@,
                                                    opt_ty(ttyp),
                                                    spos,
                                                    *old(expr),
                                                ));
                                            }
                                        }
                                    },
                                    None => {
                                        proof {
                                            assert(diag_views(diagnostics@) =~= diag_views(
                                                old(diagnostics)@,
                                            ) + expr_diags_at(
                                                scope.decls@,
                                                opt_ty(ttyp),
                                                spos,
                                                *old(expr),
                                            ));
                                        }
                                    },
                                }
                            },
                            None => {
                                proof {
                                    assert(diag_views(diagnostics@) =~= diag_views(
                                        old(diagnostics)@,
                                    ) + expr_diags_at(scope.decls@, opt_ty(ttyp), spos, *old(expr)));
                                }
                            },
                        }
                    },
                }
            },
            ExprKind::Literal(_) => {
                proof {
                    assert(diag_views(diagnostics@) =~= diag_views(old(diagnostics)@)
                        + expr_diags_at(scope.decls@, opt_ty(ttyp), spos, *old(expr)));
                }
            },
        }
        let mark = match ttyp {
            Some(t) => AnalysisMark { target_type: Some(*t) },
            None => AnalysisMark { target_type: None },
        };
        expr.annotation = Some(mark);
        Ok(())
    }

    /// Analyze a located expression under an optional target type: with one,
    /// the expression is checked against it; without one, it is analyzed
    /// standalone. Either way the expression is visited and annotated.
    pub fn analyze_expression_for_target(
        &self,
        scope: &Scope,
        ttyp: Option<&TypeEnt>,
        expr: &mut WithPos<Expression>,
        diagnostics: &mut Vec<Diagnostic>,
    ) -> (r: FatalNullResult)
        ensures
            r is Ok,
            *final(expr) == marked(opt_ty(ttyp), *old(expr)),
            diag_views(final(diagnostics)@) == diag_views(old(diagnostics)@) + expr_diags(
                scope.decls@,
                opt_ty(ttyp),
                *old(expr),
            ),
    {
        let r = self.analyze_expression_pos(scope, ttyp, &expr.pos, &mut expr.item, diagnostics);
        proof {
            assert(*final(expr) == marked(opt_ty(ttyp), *old(expr)));
        }
        r
    }

    /// Analyze an expression standalone, with no target type: the form used
    /// for conditions, selectors, choices and delays.
    pub fn analyze_expression(
        &self,
        scope: &Scope,
        expr: &mut WithPos<Expression>,
        diagnostics: &mut Vec<Diagnostic>,
    ) -> (r: FatalNullResult)
        ensures
            r is Ok,
            *final(expr) == marked(None, *old(expr)),
            diag_views(final(diagnostics)@) == diag_views(old(diagnostics)@) + expr_diags(
                scope.decls@,
                None,
                *old(expr),
            ),
    {
        self.analyze_expression_for_target(scope, None, expr, diagnostics)
    }
}


/// The diagnostics of one choice pattern: a choice expression is analyzed
/// standalone; `others` carries nothing to analyze.
pub open spec fn choice_diags(decls: Seq<Declaration>, c: WithPos<Choice>) -> Seq<
    DiagnosticView,
> {
    match c.item {
        Choice::Expression(e) => expr_diags_at(decls, None, c.pos, e),
        Choice::Others => Seq::<DiagnosticView>::empty(),
    }
}

/// The diagnostics of a pattern list, in source order.
pub open spec fn choices_diags(decls: Seq<Declaration>, cs: Seq<WithPos<Choice>>) -> Seq<
    DiagnosticView,
>
    decreases cs.len(),
{
    if cs.len() == 0 {
        Seq::<DiagnosticView>::empty()
    } else {
        choice_diags(decls, cs[0]) + choices_diags(decls, cs.drop_first())
    }
}

/// How one analyzed choice relates to what it was before: a choice
/// expression comes back annotated as untargeted, `others` stays itself.
pub open spec fn choice_marked(c0: WithPos<Choice>, c1: WithPos<Choice>) -> bool {
    &&& c1.pos == c0.pos
    &&& match c0.item {
        Choice::Expression(e0) => c1.item == Choice::Expression(marked_bare(None, e0)),
        Choice::Others => c1.item is Others,
    }
}

/// How an analyzed pattern list relates to what it was before.
pub open spec fn choices_marked(cs0: Seq<WithPos<Choice>>, cs1: Seq<WithPos<Choice>>) -> bool {
    &&& cs1.len() == cs0.len()
    &&& forall|i: int| 0 <= i < cs0.len() ==> choice_marked(cs0[i], #[trigger] cs1[i])
}

/// The diagnostics of one waveform step: its value under the ambient type
/// context, its delay standalone.
pub open spec fn elem_diags(
    decls: Seq<Declaration>,
    ttyp: Option<TypeEnt>,
    el: WaveformElement,
) -> Seq<DiagnosticView> {
    expr_diags(decls, ttyp, el.value) + match el.after {
        Some(a) => expr_diags(decls, None, a),
        None => Seq::<DiagnosticView>::empty(),
    }
}

/// The diagnostics of a sequence of waveform steps, in source order.
pub open spec fn elems_diags(
    decls: Seq<Declaration>,
    ttyp: Option<TypeEnt>,
    es: Seq<WaveformElement>,
) -> Seq<DiagnosticView>
    decreases es.len(),
{
    if es.len() == 0 {
        Seq::<DiagnosticView>::empty()
    } else {
        elem_diags(decls, ttyp, es[0]) + elems_diags(decls, ttyp, es.drop_first())
    }
}

/// The diagnostics of a waveform: `unaffected` carries nothing to analyze.
pub open spec fn wave_diags(decls: Seq<Declaration>, ttyp: Option<TypeEnt>, w: Waveform) -> Seq<
    DiagnosticView,
> {
    match w {
        Waveform::Elements(es) => elems_diags(decls, ttyp, es@),
        Waveform::Unaffected => Seq::<DiagnosticView>::empty(),
    }
}

/// How one analyzed waveform step relates to what it was before.
pub open spec fn elem_marked(
    ttyp: Option<TypeEnt>,
    el0: WaveformElement,
    el1: WaveformElement,
) -> bool {
    &&& el1.value == marked(ttyp, el0.value)
    &&& match el0.after {
        Some(a0) => el1.after == Some(marked(None, a0)),
        None => el1.after is None,
    }
}

/// How an analyzed waveform relates to what it was before.
pub open spec fn wave_marked(ttyp: Option<TypeEnt>, w0: Waveform, w1: Waveform) -> bool {
    match w0 {
        Waveform::Elements(es0) => match w1 {
            Waveform::Elements(es1) => {
                &&& es1@.len() == es0@.len()
                &&& forall|i: int| 0 <= i < es0@.len() ==> elem_marked(
                    ttyp,
                    es0@[i],
                    #[trigger] es1@[i],
                )
            },
            _ => false,
        },
        Waveform::Unaffected => w1 is Unaffected,
    }
}

impl AnalyzeContext {
    /// Analyze every pattern of a selected alternative, each standalone.
    pub fn analyze_choices(
        &self,
        scope: &Scope,
        choices: &mut Vec<WithPos<Choice>>,
        diagnostics: &mut Vec<Diagnostic>,
    ) -> (r: FatalNullResult)
        ensures
            r is Ok,
            choices_marked(old(choices)@, final(choices)@),
            diag_views(final(diagnostics)@) == diag_views(old(diagnostics)@) + choices_diags(
                scope.decls@,
                old(choices)@,
            ),
    {
        let ghost cs0 = choices@;
        let ghost d0 = diag_views(diagnostics@);
        let n = choices.len();
        let mut i: usize = 0;
        proof {
            assert(cs0.skip(0) =~= cs0);
        }
        while i < n
            invariant
                i <= n,
                n == choices@.len(),
                cs0.len() == n,
                forall|j: int| 0 <= j < i ==> choice_marked(cs0[j], #[trigger] choices@[j]),
                forall|j: int| i <= j < n ==> #[trigger] choices@[j] == cs0[j],
                diag_views(diagnostics@) + choices_diags(scope.decls@, cs0.skip(i as int)) == d0
                    + choices_diags(scope.decls@, cs0),
            decreases n - i,
        {
            let ghost dpre = diag_views(diagnostics@);
            let item = choices[i].item;
            match item {
                Choice::Expression(e) => {
                    let mut ex = e;
                    let _ = self.analyze_expression_pos(
                        scope,
                        None,
                        &choices[i].pos,
                        &mut ex,
                        diagnostics,
                    );
                    choices[i].item = Choice::Expression(ex);
                },
                Choice::Others => {
                },
            }
            proof {
                assert(cs0.skip(i as int)[0] == cs0[i as int]);
                assert(cs0.skip(i as int).drop_first() =~= cs0.skip(i + 1));
                assert(choices_diags(scope.decls@, cs0.skip(i as int)) == choice_diags(
                    scope.decls@,
                    cs0[i as int],
                ) + choices_diags(scope.decls@, cs0.skip(i + 1)));
                assert(diag_views(diagnostics@) =~= dpre + choice_diags(
                    scope.decls@,
                    cs0[i as int],
                ));
                assert(diag_views(diagnostics@) + choices_diags(scope.decls@, cs0.skip(i + 1))
                    =~= d0 + choices_diags(scope.decls@, cs0));
            }
            i = i + 1;
        }
        proof {
            assert(cs0.skip(n as int) =~= Seq::<WithPos<Choice>>::empty());
            assert(diag_views(diagnostics@) =~= d0 + choices_diags(scope.decls@, cs0));
        }
        Ok(())
    }

    /// Analyze every step of a waveform: each value under the ambient type
    /// context, each delay standalone; `unaffected` has no steps.
    pub fn analyze_waveform(
        &self,
        scope: &Scope,
        ttyp: Option<&TypeEnt>,
        wavf: &mut Waveform,
        diagnostics: &mut Vec<Diagnostic>,
    ) -> (r: FatalNullResult)
        ensures
            r is Ok,
            wave_marked(opt_ty(ttyp), *old(wavf), *final(wavf)),
            diag_views(final(diagnostics)@) == diag_views(old(diagnostics)@) + wave_diags(
                scope.decls@,
                opt_ty(ttyp),
                *old(wavf),
            ),
    {
        match wavf {
            Waveform::Elements(elems) => {
                let ghost es0 = elems@;
                let ghost d0 = diag_views(diagnostics@);
                let n = elems.len();
                let mut i: usize = 0;
                proof {
                    assert(es0.skip(0) =~= es0);
                }
                while i < n
                    invariant
                        i <= n,
                        n == elems@.len(),
                        es0.len() == n,
                        forall|j: int| 0 <= j < i ==> elem_marked(
                            opt_ty(ttyp),
                            es0[j],
                            #[trigger] elems@[j],
                        ),
                        forall|j: int| i <= j < n ==> #[trigger] elems@[j] == es0[j],
                        diag_views(diagnostics@) + elems_diags(
                            scope.decls@,
                            opt_ty(ttyp),
                            es0.skip(i as int),
                        ) == d0 + elems_diags(scope.decls@, opt_ty(ttyp), es0),
                    decreases n - i,
                {
                    let ghost dpre = diag_views(diagnostics@);
                    let _ = self.analyze_expression_for_target(
                        scope,
                        ttyp,
                        &mut elems[i].value,
                        diagnostics,
                    );
                    let after = elems[i].after.take();
                    match after {
                        Some(mut a) => {
                            let _ = self.analyze_expression(scope, &mut a, diagnostics);
                            elems[i].after = Some(a);
                        },
                        None => {
                        },
                    }
                    proof {
                        assert(es0.skip(i as int)[0] == es0[i as int]);
                        assert(es0.skip(i as int).drop_first() =~= es0.skip(i + 1));
                        assert(elems_diags(scope.decls@, opt_ty(ttyp), es0.skip(i as int))
                            == elem_diags(scope.decls@, opt_ty(ttyp), es0[i as int]) + elems_diags(
                            scope.decls@,
                            opt_ty(ttyp),
                            es0.skip(i + 1),
                        ));
                        assert(diag_views(diagnostics@) =~= dpre + elem_diags(
                            scope.decls@,
                            opt_ty(ttyp),
                            es0[i as int],
                        ));
                        assert(diag_views(diagnostics@) + elems_diags(
                            scope.decls@,
                            opt_ty(ttyp),
                            es0.skip(i + 1),
                        ) =~= d0 + elems_diags(scope.decls@, opt_ty(ttyp), es0));
                        assert(elem_marked(opt_ty(ttyp), es0[i as int], elems@[i as int]));
                    }
                    i = i + 1;
                }
                proof {
                    assert(es0.skip(n as int) =~= Seq::<WaveformElement>::empty());
                    assert(diag_views(diagnostics@) =~= d0 + elems_diags(
                        scope.decls@,
                        opt_ty(ttyp),
                        es0,
                    ));
                }
            },
            Waveform::Unaffected => {
            },
        }
        Ok(())
    }
}


/// The diagnostics of a chain of guarded expression alternatives: for each,
/// in source order, the item under the type context, then the guard
/// standalone.
pub open spec fn expr_conds_diags(
    decls: Seq<Declaration>,
    ttyp: Option<TypeEnt>,
    cs: Seq<Conditional<WithPos<Expression>>>,
) -> Seq<DiagnosticView>
    decreases cs.len(),
{
    if cs.len() == 0 {
        Seq::<DiagnosticView>::empty()
    } else {
        expr_diags(decls, ttyp, cs[0].item) + expr_diags(decls, None, cs[0].condition)
            + expr_conds_diags(decls, ttyp, cs.drop_first())
    }
}

/// The diagnostics of the alternatives of a selected expression right-hand
/// side: for each, in source order, the item under the type context, then
/// its patterns.
pub open spec fn expr_alts_diags(
    decls: Seq<Declaration>,
    ttyp: Option<TypeEnt>,
    alts: Seq<Alternative<WithPos<Expression>>>,
) -> Seq<DiagnosticView>
    decreases alts.len(),
{
    if alts.len() == 0 {
        Seq::<DiagnosticView>::empty()
    } else {
        expr_diags(decls, ttyp, alts[0].item) + choices_diags(decls, alts[0].choices@)
            + expr_alts_diags(decls, ttyp, alts.drop_first())
    }
}

/// The diagnostics of an expression right-hand side under the type context
/// the resolved target hands down: every alternative is visited, whatever
/// the others held.
pub open spec fn expr_rhs_diags(
    decls: Seq<Declaration>,
    ttyp: Option<TypeEnt>,
    r: AssignmentRightHand<WithPos<Expression>>,
) -> Seq<DiagnosticView> {
    match r {
        AssignmentRightHand::Simple(e) => expr_diags(decls, ttyp, e),
        AssignmentRightHand::Conditional(c) => expr_conds_diags(decls, ttyp, c.conditionals@)
            + match c.else_item {
            Some(e) => expr_diags(decls, ttyp, e),
            None => Seq::<DiagnosticView>::empty(),
        },
        AssignmentRightHand::Selected(s) => expr_diags(decls, None, s.expression)
            + expr_alts_diags(decls, ttyp, s.alternatives@),
    }
}

/// How one analyzed guarded expression alternative relates to what it was
/// before: the item marked with the broadcast type context, the guard
/// marked as untargeted.
pub open spec fn expr_cond_marked(
    ttyp: Option<TypeEnt>,
    c0: Conditional<WithPos<Expression>>,
    c1: Conditional<WithPos<Expression>>,
) -> bool {
    &&& c1.item == marked(ttyp, c0.item)
    &&& c1.condition == marked(None, c0.condition)
}

/// How one analyzed selected expression alternative relates to what it was
/// before.
pub open spec fn expr_alt_marked(
    ttyp: Option<TypeEnt>,
    a0: Alternative<WithPos<Expression>>,
    a1: Alternative<WithPos<Expression>>,
) -> bool {
    &&& a1.item == marked(ttyp, a0.item)
    &&& choices_marked(a0.choices@, a1.choices@)
}

/// How an analyzed expression right-hand side relates to what it was
/// before: one and the same type context reaches every alternative.
pub open spec fn expr_rhs_marked(
    ttyp: Option<TypeEnt>,
    r0: AssignmentRightHand<WithPos<Expression>>,
    r1: AssignmentRightHand<WithPos<Expression>>,
) -> bool {
    match r0 {
        AssignmentRightHand::Simple(e0) => match r1 {
            AssignmentRightHand::Simple(e1) => e1 == marked(ttyp, e0),
            _ => false,
        },
        AssignmentRightHand::Conditional(c0) => match r1 {
            AssignmentRightHand::Conditional(c1) => {
                &&& c1.conditionals@.len() == c0.conditionals@.len()
                &&& forall|i: int| 0 <= i < c0.conditionals@.len() ==> expr_cond_marked(
                    ttyp,
                    c0.conditionals@[i],
                    #[trigger] c1.conditionals@[i],
                )
                &&& match c0.else_item {
                    Some(e0) => c1.else_item == Some(marked(ttyp, e0)),
                    None => c1.else_item is None,
                }
            },
            _ => false,
        },
        AssignmentRightHand::Selected(s0) => match r1 {
            AssignmentRightHand::Selected(s1) => {
                &&& s1.expression == marked(None, s0.expression)
                &&& s1.alternatives@.len() == s0.alternatives@.len()
                &&& forall|i: int| 0 <= i < s0.alternatives@.len() ==> expr_alt_marked(
                    ttyp,
                    s0.alternatives@[i],
                    #[trigger] s1.alternatives@[i],
                )
            },
            _ => false,
        },
    }
}

/// The diagnostics of a chain of guarded waveform alternatives.
pub open spec fn wave_conds_diags(
    decls: Seq<Declaration>,
    ttyp: Option<TypeEnt>,
    cs: Seq<Conditional<Waveform>>,
) -> Seq<DiagnosticView>
    decreases cs.len(),
{
    if cs.len() == 0 {
        Seq::<DiagnosticView>::empty()
    } else {
        wave_diags(decls, ttyp, cs[0].item) + expr_diags(decls, None, cs[0].condition)
            + wave_conds_diags(decls, ttyp, cs.drop_first())
    }
}

/// The diagnostics of the alternatives of a selected waveform right-hand
/// side.
pub open spec fn wave_alts_diags(
    decls: Seq<Declaration>,
    ttyp: Option<TypeEnt>,
    alts: Seq<Alternative<Waveform>>,
) -> Seq<DiagnosticView>
    decreases alts.len(),
{
    if alts.len() == 0 {
        Seq::<DiagnosticView>::empty()
    } else {
        wave_diags(decls, ttyp, alts[0].item) + choices_diags(decls, alts[0].choices@)
            + wave_alts_diags(decls, ttyp, alts.drop_first())
    }
}

/// The diagnostics of a waveform right-hand side under the broadcast type
/// context.
pub open spec fn wave_rhs_diags(
    decls: Seq<Declaration>,
    ttyp: Option<TypeEnt>,
    r: AssignmentRightHand<Waveform>,
) -> Seq<DiagnosticView> {
    match r {
        AssignmentRightHand::Simple(w) => wave_diags(decls, ttyp, w),
        AssignmentRightHand::Conditional(c) => wave_conds_diags(decls, ttyp, c.conditionals@)
            + match c.else_item {
            Some(w) => wave_diags(decls, ttyp, w),
            None => Seq::<DiagnosticView>::empty(),
        },
        AssignmentRightHand::Selected(s) => expr_diags(decls, None, s.expression)
            + wave_alts_diags(decls, ttyp, s.alternatives@),
    }
}

/// How one analyzed guarded waveform alternative relates to what it was
/// before.
pub open spec fn wave_cond_marked(
    ttyp: Option<TypeEnt>,
    c0: Conditional<Waveform>,
    c1: Conditional<Waveform>,
) -> bool {
    &&& wave_marked(ttyp, c0.item, c1.item)
    &&& c1.condition == marked(None, c0.condition)
}

/// How one analyzed selected waveform alternative relates to what it was
/// before.
pub open spec fn wave_alt_marked(
    ttyp: Option<TypeEnt>,
    a0: Alternative<Waveform>,
    a1: Alternative<Waveform>,
) -> bool {
    &&& wave_marked(ttyp, a0.item, a1.item)
    &&& choices_marked(a0.choices@, a1.choices@)
}

/// How an analyzed waveform right-hand side relates to what it was before.
pub open spec fn wave_rhs_marked(
    ttyp: Option<TypeEnt>,
    r0: AssignmentRightHand<Waveform>,
    r1: AssignmentRightHand<Waveform>,
) -> bool {
    match r0 {
        AssignmentRightHand::Simple(w0) => match r1 {
            AssignmentRightHand::Simple(w1) => wave_marked(ttyp, w0, w1),
            _ => false,
        },
        AssignmentRightHand::Conditional(c0) => match r1 {
            AssignmentRightHand::Conditional(c1) => {
                &&& c1.conditionals@.len() == c0.conditionals@.len()
                &&& forall|i: int| 0 <= i < c0.conditionals@.len() ==> wave_cond_marked(
                    ttyp,
                    c0.conditionals@[i],
                    #[trigger] c1.conditionals@[i],
                )
                &&& match c0.else_item {
                    Some(w0) => match c1.else_item {
                        Some(w1) => wave_marked(ttyp, w0, w1),
                        None => false,
                    },
                    None => c1.else_item is None,
                }
            },
            _ => false,
        },
        AssignmentRightHand::Selected(s0) => match r1 {
            AssignmentRightHand::Selected(s1) => {
                &&& s1.expression == marked(None, s0.expression)
                &&& s1.alternatives@.len() == s0.alternatives@.len()
                &&& forall|i: int| 0 <= i < s0.alternatives@.len() ==> wave_alt_marked(
                    ttyp,
                    s0.alternatives@[i],
                    #[trigger] s1.alternatives@[i],
                )
            },
            _ => false,
        },
    }
}


impl AnalyzeContext {
    /// Analyze one expression assignment statement: resolve the target once,
    /// then analyze every alternative of the right-hand side against the one
    /// resolved type context. All alternatives are visited even though only
    /// one is taken at run time: this is static analysis, not evaluation.
    pub fn analyze_expr_assignment(
        &self,
        scope: &Scope,
        target: &mut WithPos<Target>,
        assignment_type: AssignmentType,
        rhs: &mut AssignmentRightHand<WithPos<Expression>>,
        diagnostics: &mut Vec<Diagnostic>,
    ) -> (r: FatalNullResult)
        ensures
            *final(target) == *old(target),
            match r {
                Ok(_) => {
                    &&& lookup(scope.decls@, old(target).item.designator) is Some
                    &&& expr_rhs_marked(
                        resolved_target_type(scope.decls@, old(target).item, assignment_type),
                        *old(rhs),
                        *final(rhs),
                    )
                    &&& diag_views(final(diagnostics)@) == diag_views(old(diagnostics)@)
                        + target_diags(scope.decls@, *old(target), assignment_type)
                        + expr_rhs_diags(
                        scope.decls@,
                        resolved_target_type(scope.decls@, old(target).item, assignment_type),
                        *old(rhs),
                    )
                },
                Err(_) => {
                    &&& lookup(scope.decls@, old(target).item.designator) is None
                    &&& *final(rhs) == *old(rhs)
                    &&& final(diagnostics)@ == old(diagnostics)@
                },
            },
    {
        let ttyp = self.resolve_target(scope, target, assignment_type, diagnostics)?;
        let ghost tt = resolved_target_type(scope.decls@, old(target).item, assignment_type);
        let ghost d1 = diag_views(diagnostics@);
        let tr = ttyp.as_ref();
        proof {
            assert(opt_ty(tr) == tt);
        }
        match rhs {
            AssignmentRightHand::Simple(expr) => {
                self.analyze_expression_for_target(scope, tr, expr, diagnostics)?;
                proof {
                    assert(expr_rhs_marked(tt, *old(rhs), *rhs));
                    assert(diag_views(diagnostics@) =~= diag_views(old(diagnostics)@)
                        + target_diags(scope.decls@, *old(target), assignment_type)
                        + expr_rhs_diags(scope.decls@, tt, *old(rhs)));
                }
            },
            AssignmentRightHand::Conditional(conditionals) => {
                let ghost cs0 = conditionals.conditionals@;
                let ghost e0 = conditionals.else_item;
                let n = conditionals.conditionals.len();
                let mut i: usize = 0;
                proof {
                    assert(cs0.skip(0) =~= cs0);
                }
                while i < n
                    invariant
                        i <= n,
                        n == conditionals.conditionals@.len(),
                        cs0.len() == n,
                        conditionals.else_item == e0,
                        forall|j: int| 0 <= j < i ==> expr_cond_marked(
                            tt,
                            cs0[j],
                            #[trigger] conditionals.conditionals@[j],
                        ),
                        forall|j: int| i <= j < n ==> #[trigger] conditionals.conditionals@[j]
                            == cs0[j],
                        opt_ty(tr) == tt,
                        diag_views(diagnostics@) + expr_conds_diags(
                            scope.decls@,
                            tt,
                            cs0.skip(i as int),
                        ) == d1 + expr_conds_diags(scope.decls@, tt, cs0),
                    decreases n - i,
                {
                    let ghost dpre = diag_views(diagnostics@);
                    self.analyze_expression_for_target(
                        scope,
                        tr,
                        &mut conditionals.conditionals[i].item,
                        diagnostics,
                    )?;
                    self.analyze_expression(
                        scope,
                        &mut conditionals.conditionals[i].condition,
                        diagnostics,
                    )?;
                    proof {
                        assert(cs0.skip(i as int)[0] == cs0[i as int]);
                        assert(cs0.skip(i as int).drop_first() =~= cs0.skip(i + 1));
                        assert(expr_conds_diags(scope.decls@, tt, cs0.skip(i as int))
                            == expr_diags(scope.decls@, tt, cs0[i as int].item) + expr_diags(
                            scope.decls@,
                            None,
                            cs0[i as int].condition,
                        ) + expr_conds_diags(scope.decls@, tt, cs0.skip(i + 1)));
                        assert(diag_views(diagnostics@) =~= dpre + expr_diags(
                            scope.decls@,
                            tt,
                            cs0[i as int].item,
                        ) + expr_diags(scope.decls@, None, cs0[i as int].condition));
                        assert(diag_views(diagnostics@) + expr_conds_diags(
                            scope.decls@,
                            tt,
                            cs0.skip(i + 1),
                        ) =~= d1 + expr_conds_diags(scope.decls@, tt, cs0));
                    }
                    i = i + 1;
                }
                proof {
                    assert(cs0.skip(n as int)
                        =~= Seq::<Conditional<WithPos<Expression>>>::empty());
                    assert(diag_views(diagnostics@) =~= d1 + expr_conds_diags(
                        scope.decls@,
                        tt,
                        cs0,
                    ));
                }
                let else_taken = conditionals.else_item.take();
                match else_taken {
                    Some(mut expr) => {
                        self.analyze_expression_for_target(scope, tr, &mut expr, diagnostics)?;
                        conditionals.else_item = Some(expr);
                    },
                    None => {
                    },
                }
                proof {
                    assert(expr_rhs_marked(tt, *old(rhs), *rhs)) by {
                        let c0 = old(rhs)->Conditional_0;
                        let c1 = rhs->Conditional_0;
                        assert(c1.conditionals@.len() == c0.conditionals@.len());
                        assert forall|k: int|
                            0 <= k < c0.conditionals@.len() implies expr_cond_marked(
                            tt,
                            c0.conditionals@[k],
                            #[trigger] c1.conditionals@[k],
                        ) by {
                            assert(expr_cond_marked(
                                tt,
                                cs0[k],
                                rhs->Conditional_0.conditionals@[k],
                            ));
                        }
                        assert(c0.else_item == e0);
                        assert(match e0 {
                            Some(x) => c1.else_item == Some(marked(tt, x)),
                            None => c1.else_item is None,
                        });
                    }
                    assert(diag_views(diagnostics@) =~= diag_views(old(diagnostics)@)
                        + target_diags(scope.decls@, *old(target), assignment_type)
                        + expr_rhs_diags(scope.decls@, tt, *old(rhs)));
                }
            },
            AssignmentRightHand::Selected(selection) => {
                self.analyze_expression(scope, &mut selection.expression, diagnostics)?;
                let ghost sx = selection.expression;
                let ghost d2 = diag_views(diagnostics@);
                let ghost as0 = selection.alternatives@;
                let n = selection.alternatives.len();
                let mut i: usize = 0;
                proof {
                    assert(as0.skip(0) =~= as0);
                }
                while i < n
                    invariant
                        i <= n,
                        n == selection.alternatives@.len(),
                        as0.len() == n,
                        forall|j: int| 0 <= j < i ==> expr_alt_marked(
                            tt,
                            as0[j],
                            #[trigger] selection.alternatives@[j],
                        ),
                        forall|j: int| i <= j < n ==> #[trigger] selection.alternatives@[j]
                            == as0[j],
                        selection.expression == sx,
                        opt_ty(tr) == tt,
                        diag_views(diagnostics@) + expr_alts_diags(
                            scope.decls@,
                            tt,
                            as0.skip(i as int),
                        ) == d2 + expr_alts_diags(scope.decls@, tt, as0),
                    decreases n - i,
                {
                    let ghost dpre = diag_views(diagnostics@);
                    self.analyze_expression_for_target(
                        scope,
                        tr,
                        &mut selection.alternatives[i].item,
                        diagnostics,
                    )?;
                    self.analyze_choices(scope, &mut selection.alternatives[i].choices, diagnostics)?;
                    proof {
                        assert(as0.skip(i as int)[0] == as0[i as int]);
                        assert(as0.skip(i as int).drop_first() =~= as0.skip(i + 1));
                        assert(expr_alts_diags(scope.decls@, tt, as0.skip(i as int))
                            == expr_diags(scope.decls@, tt, as0[i as int].item) + choices_diags(
                            scope.decls@,
                            as0[i as int].choices@,
                        ) + expr_alts_diags(scope.decls@, tt, as0.skip(i + 1)));
                        assert(diag_views(diagnostics@) =~= dpre + expr_diags(
                            scope.decls@,
                            tt,
                            as0[i as int].item,
                        ) + choices_diags(scope.decls@, as0[i as int].choices@));
                        assert(diag_views(diagnostics@) + expr_alts_diags(
                            scope.decls@,
                            tt,
                            as0.skip(i + 1),
                        ) =~= d2 + expr_alts_diags(scope.decls@, tt, as0));
                    }
                    i = i + 1;
                }
                proof {
                    assert(as0.skip(n as int)
                        =~= Seq::<Alternative<WithPos<Expression>>>::empty());
                    assert(expr_rhs_marked(tt, *old(rhs), *rhs)) by {
                        let s0 = old(rhs)->Selected_0;
                        let s1 = rhs->Selected_0;
                        assert(s1.expression == marked(None, s0.expression));
                        assert(s1.alternatives@.len() == s0.alternatives@.len());
                        assert forall|k: int|
                            0 <= k < s0.alternatives@.len() implies expr_alt_marked(
                            tt,
                            s0.alternatives@[k],
                            #[trigger] s1.alternatives@[k],
                        ) by {
                            assert(expr_alt_marked(
                                tt,
                                as0[k],
                                rhs->Selected_0.alternatives@[k],
                            ));
                        }
                    }
                    assert(diag_views(diagnostics@) =~= diag_views(old(diagnostics)@)
                        + target_diags(scope.decls@, *old(target), assignment_type)
                        + expr_rhs_diags(scope.decls@, tt, *old(rhs)));
                }
            },
        }
        Ok(())
    }
}


impl AnalyzeContext {
    /// Analyze one signal (waveform) assignment statement: resolve the
    /// target once, then analyze every waveform alternative of the
    /// right-hand side under the one resolved type context.
    pub fn analyze_waveform_assignment(
        &self,
        scope: &Scope,
        target: &mut WithPos<Target>,
        assignment_type: AssignmentType,
        rhs: &mut AssignmentRightHand<Waveform>,
        diagnostics: &mut Vec<Diagnostic>,
    ) -> (r: FatalNullResult)
        ensures
            *final(target) == *old(target),
            match r {
                Ok(_) => {
                    &&& lookup(scope.decls@, old(target).item.designator) is Some
                    &&& wave_rhs_marked(
                        resolved_target_type(scope.decls@, old(target).item, assignment_type),
                        *old(rhs),
                        *final(rhs),
                    )
                    &&& diag_views(final(diagnostics)@) == diag_views(old(diagnostics)@)
                        + target_diags(scope.decls@, *old(target), assignment_type)
                        + wave_rhs_diags(
                        scope.decls@,
                        resolved_target_type(scope.decls@, old(target).item, assignment_type),
                        *old(rhs),
                    )
                },
                Err(_) => {
                    &&& lookup(scope.decls@, old(target).item.designator) is None
                    &&& *final(rhs) == *old(rhs)
                    &&& final(diagnostics)@ == old(diagnostics)@
                },
            },
    {
        let ttyp = self.resolve_target(scope, target, assignment_type, diagnostics)?;
        let ghost tt = resolved_target_type(scope.decls@, old(target).item, assignment_type);
        let ghost d1 = diag_views(diagnostics@);
        let tr = ttyp.as_ref();
        proof {
            assert(opt_ty(tr) == tt);
        }
        match rhs {
            AssignmentRightHand::Simple(wavf) => {
                self.analyze_waveform(scope, tr, wavf, diagnostics)?;
                proof {
                    assert(wave_rhs_marked(tt, *old(rhs), *rhs));
                    assert(diag_views(diagnostics@) =~= diag_views(old(diagnostics)@)
                        + target_diags(scope.decls@, *old(target), assignment_type)
                        + wave_rhs_diags(scope.decls@, tt, *old(rhs)));
                }
            },
            AssignmentRightHand::Conditional(conditionals) => {
                let ghost cs0 = conditionals.conditionals@;
                let ghost e0_is_none = conditionals.else_item is None;
                let n = conditionals.conditionals.len();
                let mut i: usize = 0;
                proof {
                    assert(cs0.skip(0) =~= cs0);
                }
                while i < n
                    invariant
                        i <= n,
                        n == conditionals.conditionals@.len(),
                        cs0.len() == n,
                        conditionals.else_item == old(rhs)->Conditional_0.else_item,
                        forall|j: int| 0 <= j < i ==> wave_cond_marked(
                            tt,
                            cs0[j],
                            #[trigger] conditionals.conditionals@[j],
                        ),
                        forall|j: int| i <= j < n ==> #[trigger] conditionals.conditionals@[j]
                            == cs0[j],
                        opt_ty(tr) == tt,
                        diag_views(diagnostics@) + wave_conds_diags(
                            scope.decls@,
                            tt,
                            cs0.skip(i as int),
                        ) == d1 + wave_conds_diags(scope.decls@, tt, cs0),
                    decreases n - i,
                {
                    let ghost dpre = diag_views(diagnostics@);
                    self.analyze_waveform(
                        scope,
                        tr,
                        &mut conditionals.conditionals[i].item,
                        diagnostics,
                    )?;
                    self.analyze_expression(
                        scope,
                        &mut conditionals.conditionals[i].condition,
                        diagnostics,
                    )?;
                    proof {
                        assert(cs0.skip(i as int)[0] == cs0[i as int]);
                        assert(cs0.skip(i as int).drop_first() =~= cs0.skip(i + 1));
                        assert(wave_conds_diags(scope.decls@, tt, cs0.skip(i as int))
                            == wave_diags(scope.decls@, tt, cs0[i as int].item) + expr_diags(
                            scope.decls@,
                            None,
                            cs0[i as int].condition,
                        ) + wave_conds_diags(scope.decls@, tt, cs0.skip(i + 1)));
                        assert(diag_views(diagnostics@) =~= dpre + wave_diags(
                            scope.decls@,
                            tt,
                            cs0[i as int].item,
                        ) + expr_diags(scope.decls@, None, cs0[i as int].condition));
                        assert(diag_views(diagnostics@) + wave_conds_diags(
                            scope.decls@,
                            tt,
                            cs0.skip(i + 1),
                        ) =~= d1 + wave_conds_diags(scope.decls@, tt, cs0));
                    }
                    i = i + 1;
                }
                proof {
                    assert(cs0.skip(n as int) =~= Seq::<Conditional<Waveform>>::empty());
                    assert(diag_views(diagnostics@) =~= d1 + wave_conds_diags(
                        scope.decls@,
                        tt,
                        cs0,
                    ));
                }
                let else_taken = conditionals.else_item.take();
                let ghost e0 = else_taken;
                match else_taken {
                    Some(mut wavf) => {
                        self.analyze_waveform(scope, tr, &mut wavf, diagnostics)?;
                        conditionals.else_item = Some(wavf);
                    },
                    None => {
                    },
                }
                proof {
                    assert(wave_rhs_marked(tt, *old(rhs), *rhs)) by {
                        let c0 = old(rhs)->Conditional_0;
                        let c1 = rhs->Conditional_0;
                        assert(c1.conditionals@.len() == c0.conditionals@.len());
                        assert forall|k: int|
                            0 <= k < c0.conditionals@.len() implies wave_cond_marked(
                            tt,
                            c0.conditionals@[k],
                            #[trigger] c1.conditionals@[k],
                        ) by {
                            assert(wave_cond_marked(
                                tt,
                                cs0[k],
                                rhs->Conditional_0.conditionals@[k],
                            ));
                        }
                        assert(c0.else_item == e0);
                    }
                    assert(diag_views(diagnostics@) =~= diag_views(old(diagnostics)@)
                        + target_diags(scope.decls@, *old(target), assignment_type)
                        + wave_rhs_diags(scope.decls@, tt, *old(rhs)));
                }
            },
            AssignmentRightHand::Selected(selection) => {
                self.analyze_expression(scope, &mut selection.expression, diagnostics)?;
                let ghost sx = selection.expression;
                let ghost d2 = diag_views(diagnostics@);
                let ghost as0 = selection.alternatives@;
                let n = selection.alternatives.len();
                let mut i: usize = 0;
                proof {
                    assert(as0.skip(0) =~= as0);
                }
                while i < n
                    invariant
                        i <= n,
                        n == selection.alternatives@.len(),
                        as0.len() == n,
                        forall|j: int| 0 <= j < i ==> wave_alt_marked(
                            tt,
                            as0[j],
                            #[trigger] selection.alternatives@[j],
                        ),
                        forall|j: int| i <= j < n ==> #[trigger] selection.alternatives@[j]
                            == as0[j],
                        selection.expression == sx,
                        opt_ty(tr) == tt,
                        diag_views(diagnostics@) + wave_alts_diags(
                            scope.decls@,
                            tt,
                            as0.skip(i as int),
                        ) == d2 + wave_alts_diags(scope.decls@, tt, as0),
                    decreases n - i,
                {
                    let ghost dpre = diag_views(diagnostics@);
                    self.analyze_waveform(
                        scope,
                        tr,
                        &mut selection.alternatives[i].item,
                        diagnostics,
                    )?;
                    self.analyze_choices(scope, &mut selection.alternatives[i].choices, diagnostics)?;
                    proof {
                        assert(as0.skip(i as int)[0] == as0[i as int]);
                        assert(as0.skip(i as int).drop_first() =~= as0.skip(i + 1));
                        assert(wave_alts_diags(scope.decls@, tt, as0.skip(i as int))
                            == wave_diags(scope.decls@, tt, as0[i as int].item) + choices_diags(
                            scope.decls@,
                            as0[i as int].choices@,
                        ) + wave_alts_diags(scope.decls@, tt, as0.skip(i + 1)));
                        assert(diag_views(diagnostics@) =~= dpre + wave_diags(
                            scope.decls@,
                            tt,
                            as0[i as int].item,
                        ) + choices_diags(scope.decls@, as0[i as int].choices@));
                        assert(diag_views(diagnostics@) + wave_alts_diags(
                            scope.decls@,
                            tt,
                            as0.skip(i + 1),
                        ) =~= d2 + wave_alts_diags(scope.decls@, tt, as0));
                    }
                    i = i + 1;
                }
                proof {
                    assert(as0.skip(n as int) =~= Seq::<Alternative<Waveform>>::empty());
                    assert(wave_rhs_marked(tt, *old(rhs), *rhs)) by {
                        let s0 = old(rhs)->Selected_0;
                        let s1 = rhs->Selected_0;
                        assert(s1.expression == marked(None, s0.expression));
                        assert(s1.alternatives@.len() == s0.alternatives@.len());
                        assert forall|k: int|
                            0 <= k < s0.alternatives@.len() implies wave_alt_marked(
                            tt,
                            s0.alternatives@[k],
                            #[trigger] s1.alternatives@[k],
                        ) by {
                            assert(wave_alt_marked(
                                tt,
                                as0[k],
                                rhs->Selected_0.alternatives@[k],
                            ));
                        }
                    }
                    assert(diag_views(diagnostics@) =~= diag_views(old(diagnostics)@)
                        + target_diags(scope.decls@, *old(target), assignment_type)
                        + wave_rhs_diags(scope.decls@, tt, *old(rhs)));
                }
            },
        }
        Ok(())
    }
}


/// Whether every alternative of an analyzed expression right-hand side
/// carries the same type-context note.
pub open spec fn expr_rhs_items_marked_with(
    ttyp: Option<TypeEnt>,
    r: AssignmentRightHand<WithPos<Expression>>,
) -> bool {
    match r {
        AssignmentRightHand::Simple(e) => e.item.annotation == Some(
            AnalysisMark { target_type: ttyp },
        ),
        AssignmentRightHand::Conditional(c) => {
            &&& forall|i: int| 0 <= i < c.conditionals@.len() ==> (#[trigger] c.conditionals@[i]).item.item.annotation
                == Some(AnalysisMark { target_type: ttyp })
            &&& match c.else_item {
                Some(e) => e.item.annotation == Some(AnalysisMark { target_type: ttyp }),
                None => true,
            }
        },
        AssignmentRightHand::Selected(s) => forall|i: int|
            0 <= i < s.alternatives@.len() ==> (#[trigger] s.alternatives@[i]).item.item.annotation
                == Some(AnalysisMark { target_type: ttyp }),
    }
}

/// Whether every waveform alternative of an analyzed waveform right-hand
/// side carries the same type-context note on each of its values.
pub open spec fn wave_items_marked_with(ttyp: Option<TypeEnt>, w: Waveform) -> bool {
    match w {
        Waveform::Elements(es) => forall|i: int|
            0 <= i < es@.len() ==> (#[trigger] es@[i]).value.item.annotation == Some(
                AnalysisMark { target_type: ttyp },
            ),
        Waveform::Unaffected => true,
    }
}

/// Whether every alternative of an analyzed waveform right-hand side
/// carries the same type-context note.
pub open spec fn wave_rhs_items_marked_with(
    ttyp: Option<TypeEnt>,
    r: AssignmentRightHand<Waveform>,
) -> bool {
    match r {
        AssignmentRightHand::Simple(w) => wave_items_marked_with(ttyp, w),
        AssignmentRightHand::Conditional(c) => {
            &&& forall|i: int| 0 <= i < c.conditionals@.len() ==> wave_items_marked_with(
                ttyp,
                (#[trigger] c.conditionals@[i]).item,
            )
            &&& match c.else_item {
                Some(w) => wave_items_marked_with(ttyp, w),
                None => true,
            }
        },
        AssignmentRightHand::Selected(s) => forall|i: int|
            0 <= i < s.alternatives@.len() ==> wave_items_marked_with(
                ttyp,
                (#[trigger] s.alternatives@[i]).item,
            ),
    }
}

/// The target type is broadcast: after an expression assignment is analyzed,
/// every alternative of its right-hand side carries one and the same type
/// context — the resolved target type when there is one, and the untargeted
/// note when the target could not be typed. In the latter case every branch
/// was still visited: each carries a note.
pub proof fn lemma_target_type_broadcast(
    ttyp: Option<TypeEnt>,
    r0: AssignmentRightHand<WithPos<Expression>>,
    r1: AssignmentRightHand<WithPos<Expression>>,
)
    requires
        expr_rhs_marked(ttyp, r0, r1),
    ensures
        expr_rhs_items_marked_with(ttyp, r1),
{
    match r0 {
        AssignmentRightHand::Simple(e0) => {
        },
        AssignmentRightHand::Conditional(c0) => {
            let c1 = r1->Conditional_0;
            assert forall|i: int|
                0 <= i < c1.conditionals@.len() implies (#[trigger] c1.conditionals@[i]).item.item.annotation
                == Some(AnalysisMark { target_type: ttyp }) by {
                assert(expr_cond_marked(ttyp, c0.conditionals@[i], c1.conditionals@[i]));
            }
        },
        AssignmentRightHand::Selected(s0) => {
            let s1 = r1->Selected_0;
            assert forall|i: int|
                0 <= i < s1.alternatives@.len() implies (#[trigger] s1.alternatives@[i]).item.item.annotation
                == Some(AnalysisMark { target_type: ttyp }) by {
                assert(expr_alt_marked(ttyp, s0.alternatives@[i], s1.alternatives@[i]));
            }
        },
    }
}

/// The target type is broadcast into waveform assignments as well: after a
/// waveform assignment is analyzed, every value of every waveform
/// alternative carries one and the same type context.
pub proof fn lemma_waveform_target_type_broadcast(
    ttyp: Option<TypeEnt>,
    r0: AssignmentRightHand<Waveform>,
    r1: AssignmentRightHand<Waveform>,
)
    requires
        wave_rhs_marked(ttyp, r0, r1),
    ensures
        wave_rhs_items_marked_with(ttyp, r1),
{
    match r0 {
        AssignmentRightHand::Simple(w0) => {
            lemma_wave_items_marked(ttyp, w0, r1->Simple_0);
        },
        AssignmentRightHand::Conditional(c0) => {
            let c1 = r1->Conditional_0;
            assert forall|i: int| 0 <= i < c1.conditionals@.len() implies wave_items_marked_with(
                ttyp,
                (#[trigger] c1.conditionals@[i]).item,
            ) by {
                assert(wave_cond_marked(ttyp, c0.conditionals@[i], c1.conditionals@[i]));
                lemma_wave_items_marked(ttyp, c0.conditionals@[i].item, c1.conditionals@[i].item);
            }
            match c0.else_item {
                Some(w0) => {
                    lemma_wave_items_marked(ttyp, w0, c1.else_item->0);
                },
                None => {
                },
            }
        },
        AssignmentRightHand::Selected(s0) => {
            let s1 = r1->Selected_0;
            assert forall|i: int| 0 <= i < s1.alternatives@.len() implies wave_items_marked_with(
                ttyp,
                (#[trigger] s1.alternatives@[i]).item,
            ) by {
                assert(wave_alt_marked(ttyp, s0.alternatives@[i], s1.alternatives@[i]));
                lemma_wave_items_marked(ttyp, s0.alternatives@[i].item, s1.alternatives@[i].item);
            }
        },
    }
}

/// An analyzed waveform carries the broadcast type context on each value.
proof fn lemma_wave_items_marked(ttyp: Option<TypeEnt>, w0: Waveform, w1: Waveform)
    requires
        wave_marked(ttyp, w0, w1),
    ensures
        wave_items_marked_with(ttyp, w1),
{
    match w0 {
        Waveform::Elements(es0) => {
            let es1 = w1->Elements_0;
            assert forall|i: int|
                0 <= i < es1@.len() implies (#[trigger] es1@[i]).value.item.annotation == Some(
                AnalysisMark { target_type: ttyp },
            ) by {
                assert(elem_marked(ttyp, es0@[i], es1@[i]));
            }
        },
        Waveform::Unaffected => {
        },
    }
}

/// Every branch of a conditional right-hand side is visited, and its
/// diagnostics stand in the whole exactly between those of the earlier and
/// the later branches: what one branch holds never suppresses the
/// diagnostics of its siblings.
#[verifier::rlimit(60)]
pub proof fn lemma_sibling_branches_reported(
    decls: Seq<Declaration>,
    ttyp: Option<TypeEnt>,
    cs: Seq<Conditional<WithPos<Expression>>>,
    i: int,
)
    requires
        0 <= i < cs.len(),
    ensures
        expr_conds_diags(decls, ttyp, cs) == expr_conds_diags(decls, ttyp, cs.take(i))
            + expr_diags(decls, ttyp, cs[i].item) + expr_diags(decls, None, cs[i].condition)
            + expr_conds_diags(decls, ttyp, cs.skip(i + 1)),
    decreases i,
{
    if i == 0 {
        assert(cs.take(0) =~= Seq::<Conditional<WithPos<Expression>>>::empty());
        assert(cs.skip(1) =~= cs.drop_first());
        assert(expr_conds_diags(decls, ttyp, cs) =~= expr_conds_diags(decls, ttyp, cs.take(0))
            + expr_diags(decls, ttyp, cs[0].item) + expr_diags(decls, None, cs[0].condition)
            + expr_conds_diags(decls, ttyp, cs.skip(1)));
    } else {
        let rest = cs.drop_first();
        lemma_sibling_branches_reported(decls, ttyp, rest, i - 1);
        assert(rest.take(i - 1) =~= cs.take(i).drop_first());
        assert(rest.skip(i) =~= cs.skip(i + 1));
        assert(rest[i - 1] == cs[i]);
        assert(expr_conds_diags(decls, ttyp, cs.take(i)) == expr_diags(
            decls,
            ttyp,
            cs.take(i)[0].item,
        ) + expr_diags(decls, None, cs.take(i)[0].condition) + expr_conds_diags(
            decls,
            ttyp,
            cs.take(i).drop_first(),
        ));
        assert(cs.take(i)[0] == cs[0]);
        assert(expr_conds_diags(decls, ttyp, cs) =~= expr_conds_diags(decls, ttyp, cs.take(i))
            + expr_diags(decls, ttyp, cs[i].item) + expr_diags(decls, None, cs[i].condition)
            + expr_conds_diags(decls, ttyp, cs.skip(i + 1)));
    }
}

/// The same for the alternatives of a selected right-hand side: each
/// alternative's diagnostics stand in the whole between those of its
/// siblings.
#[verifier::rlimit(60)]
pub proof fn lemma_sibling_alternatives_reported(
    decls: Seq<Declaration>,
    ttyp: Option<TypeEnt>,
    alts: Seq<Alternative<WithPos<Expression>>>,
    i: int,
)
    requires
        0 <= i < alts.len(),
    ensures
        expr_alts_diags(decls, ttyp, alts) == expr_alts_diags(decls, ttyp, alts.take(i))
            + expr_diags(decls, ttyp, alts[i].item) + choices_diags(decls, alts[i].choices@)
            + expr_alts_diags(decls, ttyp, alts.skip(i + 1)),
    decreases i,
{
    if i == 0 {
        assert(alts.take(0) =~= Seq::<Alternative<WithPos<Expression>>>::empty());
        assert(alts.skip(1) =~= alts.drop_first());
        assert(expr_alts_diags(decls, ttyp, alts) =~= expr_alts_diags(
            decls,
            ttyp,
            alts.take(0),
        ) + expr_diags(decls, ttyp, alts[0].item) + choices_diags(decls, alts[0].choices@)
            + expr_alts_diags(decls, ttyp, alts.skip(1)));
    } else {
        let rest = alts.drop_first();
        lemma_sibling_alternatives_reported(decls, ttyp, rest, i - 1);
        assert(rest.take(i - 1) =~= alts.take(i).drop_first());
        assert(rest.skip(i) =~= alts.skip(i + 1));
        assert(rest[i - 1] == alts[i]);
        assert(expr_alts_diags(decls, ttyp, alts.take(i)) == expr_diags(
            decls,
            ttyp,
            alts.take(i)[0].item,
        ) + choices_diags(decls, alts.take(i)[0].choices@) + expr_alts_diags(
            decls,
            ttyp,
            alts.take(i).drop_first(),
        ));
        assert(alts.take(i)[0] == alts[0]);
        assert(expr_alts_diags(decls, ttyp, alts) =~= expr_alts_diags(decls, ttyp, alts.take(i))
            + expr_diags(decls, ttyp, alts[i].item) + choices_diags(decls, alts[i].choices@)
            + expr_alts_diags(decls, ttyp, alts.skip(i + 1)));
    }
}

} // verus!
