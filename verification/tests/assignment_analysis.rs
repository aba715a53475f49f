use vhdl_lang::{
    AnalysisMark, AnalyzeContext, AssignmentRightHand, AssignmentType, Choice, Conditional,
    Conditionals, Declaration, Diagnostic, ExprKind, Expression, ObjectClass, Position, Scope,
    Selection, Source, SrcPos, Target, TypeEnt, Waveform, WaveformElement, WithPos,
};
use vhdl_lang::Alternative;

const BIT: TypeEnt = TypeEnt { id: 10 };
const BOOLEAN: TypeEnt = TypeEnt { id: 20 };

fn dummy_pos(source: &Source, n: u64) -> SrcPos {
    source.pos(Position::new(0, n), Position::new(0, n + 1))
}

fn scope_with(decls: &[(u64, ObjectClass, Option<TypeEnt>)]) -> Scope {
    let mut scope = Scope::new();
    for (designator, class, subtype) in decls.iter() {
        scope.add(Declaration {
            designator: *designator,
            class: *class,
            subtype: *subtype,
        });
    }
    scope
}

fn name(source: &Source, designator: u64) -> WithPos<Expression> {
    WithPos::from(
        Expression::new(ExprKind::Name(designator)),
        dummy_pos(source, designator),
    )
}

fn wave_of(source: &Source, designator: u64) -> Waveform {
    Waveform::Elements(vec![WaveformElement {
        value: name(source, designator),
        after: None,
    }])
}

fn target(source: &Source, designator: u64) -> WithPos<Target> {
    WithPos::from(Target { designator }, dummy_pos(source, designator))
}

fn annotation_of(w: &Waveform) -> Option<AnalysisMark> {
    match w {
        Waveform::Elements(es) => es[0].value.item.annotation,
        Waveform::Unaffected => None,
    }
}

/// The scenario `x <= a when cond1 else b when cond2 else c;` with target
/// type `bit`: the three values are analyzed under `bit`, the two guards
/// untargeted, and nothing else.
#[test]
fn conditional_waveform_broadcasts_target_type() {
    let source = Source::inline_utf8("t.vhd", "x <= a when cond1 else b when cond2 else c;\n")
        .unwrap();
    let x = 1u64;
    let a = 2u64;
    let b = 3u64;
    let c = 4u64;
    let cond1 = 5u64;
    let cond2 = 6u64;
    let scope = scope_with(&[
        (x, ObjectClass::Signal, Some(BIT)),
        (a, ObjectClass::Signal, Some(BIT)),
        (b, ObjectClass::Signal, Some(BIT)),
        (c, ObjectClass::Signal, Some(BIT)),
        (cond1, ObjectClass::Signal, Some(BOOLEAN)),
        (cond2, ObjectClass::Signal, Some(BOOLEAN)),
    ]);
    let mut tgt = target(&source, x);
    let mut rhs = AssignmentRightHand::Conditional(Conditionals {
        conditionals: vec![
            Conditional { condition: name(&source, cond1), item: wave_of(&source, a) },
            Conditional { condition: name(&source, cond2), item: wave_of(&source, b) },
        ],
        else_item: Some(wave_of(&source, c)),
    });
    let mut diagnostics: Vec<Diagnostic> = Vec::new();
    let ctx = AnalyzeContext::new();
    let r = ctx.analyze_waveform_assignment(
        &scope,
        &mut tgt,
        AssignmentType::Signal,
        &mut rhs,
        &mut diagnostics,
    );
    assert!(r.is_ok());
    assert!(diagnostics.is_empty());

    let mut targeted = 0;
    let mut untargeted = 0;
    match &rhs {
        AssignmentRightHand::Conditional(conds) => {
            for cond in conds.conditionals.iter() {
                assert_eq!(
                    annotation_of(&cond.item),
                    Some(AnalysisMark { target_type: Some(BIT) })
                );
                targeted += 1;
                assert_eq!(
                    cond.condition.item.annotation,
                    Some(AnalysisMark { target_type: None })
                );
                untargeted += 1;
            }
            let else_item = conds.else_item.as_ref().unwrap();
            assert_eq!(
                annotation_of(else_item),
                Some(AnalysisMark { target_type: Some(BIT) })
            );
            targeted += 1;
        }
        _ => panic!("variant changed by analysis"),
    }
    assert_eq!(targeted, 3);
    assert_eq!(untargeted, 2);
}

/// With an untypeable target every branch is still visited, and none
/// receives a target type.
#[test]
fn unresolved_target_type_still_visits_every_branch() {
    let source = Source::inline_utf8("t.vhd", "x <= a when c1 else b;\n").unwrap();
    let scope = scope_with(&[
        (1, ObjectClass::Signal, None),  // x: class fits, subtype unknown
        (2, ObjectClass::Signal, Some(BIT)),
        (3, ObjectClass::Signal, Some(BIT)),
        (5, ObjectClass::Signal, Some(BOOLEAN)),
    ]);
    let mut tgt = target(&source, 1);
    let mut rhs = AssignmentRightHand::Conditional(Conditionals {
        conditionals: vec![Conditional {
            condition: name(&source, 5),
            item: wave_of(&source, 2),
        }],
        else_item: Some(wave_of(&source, 3)),
    });
    let mut diagnostics: Vec<Diagnostic> = Vec::new();
    let ctx = AnalyzeContext::new();
    let r = ctx.analyze_waveform_assignment(
        &scope,
        &mut tgt,
        AssignmentType::Signal,
        &mut rhs,
        &mut diagnostics,
    );
    assert!(r.is_ok());
    assert!(diagnostics.is_empty());
    match &rhs {
        AssignmentRightHand::Conditional(conds) => {
            assert_eq!(
                annotation_of(&conds.conditionals[0].item),
                Some(AnalysisMark { target_type: None })
            );
            assert_eq!(
                annotation_of(conds.else_item.as_ref().unwrap()),
                Some(AnalysisMark { target_type: None })
            );
        }
        _ => panic!("variant changed by analysis"),
    }
}

/// A branch with an unresolvable name does not stop its siblings from being
/// analyzed: each independently-unresolvable identifier is reported.
#[test]
fn sibling_branches_keep_their_diagnostics() {
    let source = Source::inline_utf8("t.vhd", "x := bad1 when c else bad2;\n").unwrap();
    let scope = scope_with(&[
        (1, ObjectClass::Variable, Some(BIT)),
        (5, ObjectClass::Signal, Some(BOOLEAN)),
    ]);
    let mut tgt = target(&source, 1);
    let mut rhs = AssignmentRightHand::Conditional(Conditionals {
        conditionals: vec![Conditional {
            condition: name(&source, 5),
            item: name(&source, 91),
        }],
        else_item: Some(name(&source, 92)),
    });
    let mut diagnostics: Vec<Diagnostic> = Vec::new();
    let ctx = AnalyzeContext::new();
    let r = ctx.analyze_expr_assignment(
        &scope,
        &mut tgt,
        AssignmentType::Variable,
        &mut rhs,
        &mut diagnostics,
    );
    assert!(r.is_ok());
    assert_eq!(diagnostics.len(), 2);
    assert_eq!(diagnostics[0].message, "no declaration of symbol 91");
    assert_eq!(diagnostics[1].message, "no declaration of symbol 92");
}

/// An unresolvable target is fatal: the statement's analysis is abandoned
/// and nothing of the right-hand side is visited.
#[test]
fn unresolvable_target_is_fatal() {
    let source = Source::inline_utf8("t.vhd", "ghost <= a;\n").unwrap();
    let scope = scope_with(&[(2, ObjectClass::Signal, Some(BIT))]);
    let mut tgt = target(&source, 77);
    let mut rhs = AssignmentRightHand::Simple(wave_of(&source, 2));
    let mut diagnostics: Vec<Diagnostic> = Vec::new();
    let ctx = AnalyzeContext::new();
    let r = ctx.analyze_waveform_assignment(
        &scope,
        &mut tgt,
        AssignmentType::Signal,
        &mut rhs,
        &mut diagnostics,
    );
    assert!(r.is_err());
    assert!(diagnostics.is_empty());
    match &rhs {
        AssignmentRightHand::Simple(w) => assert_eq!(annotation_of(w), None),
        _ => panic!("variant changed by analysis"),
    }
}

/// A target of the wrong object class is reported, and analysis goes on
/// untyped.
#[test]
fn class_mismatch_is_reported_not_fatal() {
    let source = Source::inline_utf8("t.vhd", "k <= a;\n").unwrap();
    let scope = scope_with(&[
        (7, ObjectClass::Constant, Some(BIT)),
        (2, ObjectClass::Signal, Some(BIT)),
    ]);
    let mut tgt = target(&source, 7);
    let mut rhs = AssignmentRightHand::Simple(wave_of(&source, 2));
    let mut diagnostics: Vec<Diagnostic> = Vec::new();
    let ctx = AnalyzeContext::new();
    let r = ctx.analyze_waveform_assignment(
        &scope,
        &mut tgt,
        AssignmentType::Signal,
        &mut rhs,
        &mut diagnostics,
    );
    assert!(r.is_ok());
    assert_eq!(diagnostics.len(), 1);
    assert_eq!(diagnostics[0].message, "symbol 7 is not a signal");
    match &rhs {
        AssignmentRightHand::Simple(w) => assert_eq!(
            annotation_of(w),
            Some(AnalysisMark { target_type: None })
        ),
        _ => panic!("variant changed by analysis"),
    }
}

/// A typed name that does not carry the target's type is reported with both
/// types named.
#[test]
fn type_mismatch_is_reported() {
    let source = Source::inline_utf8("t.vhd", "x := b;\n").unwrap();
    let scope = scope_with(&[
        (1, ObjectClass::Variable, Some(BIT)),
        (3, ObjectClass::Variable, Some(BOOLEAN)),
    ]);
    let mut tgt = target(&source, 1);
    let mut rhs = AssignmentRightHand::Simple(name(&source, 3));
    let mut diagnostics: Vec<Diagnostic> = Vec::new();
    let ctx = AnalyzeContext::new();
    let r = ctx.analyze_expr_assignment(
        &scope,
        &mut tgt,
        AssignmentType::Variable,
        &mut rhs,
        &mut diagnostics,
    );
    assert!(r.is_ok());
    assert_eq!(diagnostics.len(), 1);
    assert_eq!(diagnostics[0].message, "type 20 does not match target type 10");
}

/// A selected assignment analyzes the selector untargeted, every
/// alternative's item under the target type, and every choice pattern.
#[test]
fn selected_assignment_visits_selector_alternatives_and_choices() {
    let source = Source::inline_utf8("t.vhd", "with sel select x <= a when p, b when others;\n")
        .unwrap();
    let scope = scope_with(&[
        (1, ObjectClass::Signal, Some(BIT)),
        (2, ObjectClass::Signal, Some(BIT)),
        (3, ObjectClass::Signal, Some(BIT)),
        (8, ObjectClass::Signal, Some(BOOLEAN)),
    ]);
    let mut tgt = target(&source, 1);
    let mut rhs = AssignmentRightHand::Selected(Selection {
        expression: name(&source, 8),
        alternatives: vec![
            Alternative {
                choices: vec![WithPos::from(
                    Choice::Expression(Expression::new(ExprKind::Name(99))),
                    dummy_pos(&source, 30),
                )],
                item: wave_of(&source, 2),
            },
            Alternative {
                choices: vec![WithPos::from(Choice::Others, dummy_pos(&source, 31))],
                item: wave_of(&source, 3),
            },
        ],
    });
    let mut diagnostics: Vec<Diagnostic> = Vec::new();
    let ctx = AnalyzeContext::new();
    let r = ctx.analyze_waveform_assignment(
        &scope,
        &mut tgt,
        AssignmentType::Signal,
        &mut rhs,
        &mut diagnostics,
    );
    assert!(r.is_ok());
    // The unresolvable choice pattern is reported; sibling work went on.
    assert_eq!(diagnostics.len(), 1);
    assert_eq!(diagnostics[0].message, "no declaration of symbol 99");
    match &rhs {
        AssignmentRightHand::Selected(sel) => {
            assert_eq!(
                sel.expression.item.annotation,
                Some(AnalysisMark { target_type: None })
            );
            assert_eq!(
                annotation_of(&sel.alternatives[0].item),
                Some(AnalysisMark { target_type: Some(BIT) })
            );
            assert_eq!(
                annotation_of(&sel.alternatives[1].item),
                Some(AnalysisMark { target_type: Some(BIT) })
            );
            match &sel.alternatives[0].choices[0].item {
                Choice::Expression(e) => assert_eq!(
                    e.annotation,
                    Some(AnalysisMark { target_type: None })
                ),
                Choice::Others => panic!("choice changed by analysis"),
            }
        }
        _ => panic!("variant changed by analysis"),
    }
}

/// `unaffected` carries no sub-expressions: nothing is analyzed and nothing
/// reported.
#[test]
fn unaffected_waveform_contributes_nothing() {
    let source = Source::inline_utf8("t.vhd", "x <= unaffected;\n").unwrap();
    let scope = scope_with(&[(1, ObjectClass::Signal, Some(BIT))]);
    let mut tgt = target(&source, 1);
    let mut rhs = AssignmentRightHand::Simple(Waveform::Unaffected);
    let mut diagnostics: Vec<Diagnostic> = Vec::new();
    let ctx = AnalyzeContext::new();
    let r = ctx.analyze_waveform_assignment(
        &scope,
        &mut tgt,
        AssignmentType::Signal,
        &mut rhs,
        &mut diagnostics,
    );
    assert!(r.is_ok());
    assert!(diagnostics.is_empty());
}

/// A waveform's delay expression is analyzed untargeted, beside its value.
#[test]
fn waveform_delay_is_analyzed_untargeted() {
    let source = Source::inline_utf8("t.vhd", "x <= a after t;\n").unwrap();
    let scope = scope_with(&[
        (1, ObjectClass::Signal, Some(BIT)),
        (2, ObjectClass::Signal, Some(BIT)),
    ]);
    let mut tgt = target(&source, 1);
    let mut rhs = AssignmentRightHand::Simple(Waveform::Elements(vec![WaveformElement {
        value: name(&source, 2),
        after: Some(name(&source, 55)),
    }]));
    let mut diagnostics: Vec<Diagnostic> = Vec::new();
    let ctx = AnalyzeContext::new();
    let r = ctx.analyze_waveform_assignment(
        &scope,
        &mut tgt,
        AssignmentType::Signal,
        &mut rhs,
        &mut diagnostics,
    );
    assert!(r.is_ok());
    assert_eq!(diagnostics.len(), 1);
    assert_eq!(diagnostics[0].message, "no declaration of symbol 55");
    match &rhs {
        AssignmentRightHand::Simple(Waveform::Elements(es)) => {
            assert_eq!(
                es[0].value.item.annotation,
                Some(AnalysisMark { target_type: Some(BIT) })
            );
            assert_eq!(
                es[0].after.as_ref().unwrap().item.annotation,
                Some(AnalysisMark { target_type: None })
            );
        }
        _ => panic!("variant changed by analysis"),
    }
}

/// Literals carry no name to resolve: they pass under any target type.
#[test]
fn literal_passes_under_any_target_type() {
    let source = Source::inline_utf8("t.vhd", "x := 1;\n").unwrap();
    let scope = scope_with(&[(1, ObjectClass::Variable, Some(BIT))]);
    let mut tgt = target(&source, 1);
    let mut rhs = AssignmentRightHand::Simple(WithPos::from(
        Expression::new(ExprKind::Literal(1)),
        dummy_pos(&source, 40),
    ));
    let mut diagnostics: Vec<Diagnostic> = Vec::new();
    let ctx = AnalyzeContext::new();
    let r = ctx.analyze_expr_assignment(
        &scope,
        &mut tgt,
        AssignmentType::Variable,
        &mut rhs,
        &mut diagnostics,
    );
    assert!(r.is_ok());
    assert!(diagnostics.is_empty());
}
