//! Source-position and document model for a hardware-description-language
//! front end, together with the semantic analysis of assignment statements.

mod analysis;
mod ast;
mod contents;
mod context;
mod diagnostic;
mod latin1;
mod source;

pub use analysis::{
    choice_diags, choice_marked, choices_diags, choices_marked, elem_diags, elem_marked,
    elems_diags, expr_alt_marked, expr_alts_diags, expr_cond_marked, expr_conds_diags, expr_diags,
    expr_diags_at, expr_rhs_diags, expr_rhs_items_marked_with, expr_rhs_marked,
    lemma_sibling_alternatives_reported, lemma_sibling_branches_reported,
    lemma_target_type_broadcast, lemma_waveform_target_type_broadcast, marked, marked_bare,
    msg_no_declaration, msg_not_assignable, msg_type_mismatch, opt_ty, resolved_target_type,
    target_diags, wave_alt_marked, wave_alts_diags, wave_cond_marked, wave_conds_diags, wave_diags,
    wave_items_marked_with, wave_marked, wave_rhs_diags, wave_rhs_items_marked_with,
    wave_rhs_marked, AnalyzeContext, Fatal, FatalNullResult,
};
pub use ast::{
    class_matches, lookup, Alternative, AnalysisMark, AssignmentRightHand, AssignmentType, Choice,
    Conditional, Conditionals, Declaration, ExprKind, Expression, ObjectClass, Scope, Selection,
    Target, TypeEnt, Waveform, WaveformElement,
};
pub use diagnostic::{diag_at, diag_views, Diagnostic, DiagnosticView, ParseResult};
pub use contents::{
    char_clamp, lemma_offset_split, lemma_wf_flat_unique, nl, pos_offset, seq_views, spliced,
    wf_line, wf_lines, Contents,
};
pub use context::{code_context_spec, dec_rep, show_spec, LINE_CONTEXT};
pub use latin1::{l1_char, latin1_encodable, latin1_of, Latin1String, Utf8ToLatin1Error};
pub use source::{
    combined_range, lemma_combine_order_independent, lemma_identity_excludes_content, pos_le,
    pos_lt, pos_max, pos_min, HasSource, HasSrcPos, Position, Range, Source, SourceView, SrcPos,
    WithPos,
};
