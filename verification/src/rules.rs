//! The rules, each a check over a parsed module, and the diagnostics they report.
//!
//! The rule table holds GR001 to GR012. Two rule documents claim the code GR012:
//! `explicit-instance-data` and `public-attribute-properties`. Both flag the same stores, a
//! public attribute written through a method's receiver, so running both under one code would
//! report each such store twice; the table registers `explicit-instance-data`, the fuller of
//! the two, under GR012, and `public_attribute_properties` offers the other as a check of its
//! own that the table does not run.
use vstd::prelude::*;
use crate::syntax::TextRange;

pub mod definitions;
pub mod dunder_all;
pub mod exception_swallowing;
pub mod bindings;
pub mod final_constants;
pub mod flow_states;
pub mod guarded_tails;
pub mod input_conventions;
pub mod explicit_instance_data;
pub mod positive_branch_conditions;
pub mod public_attribute_properties;
pub mod single_consumer;
pub mod subsumed_comments;


verus! {

/// What a rule reports before suppression: a message, the range it flags, and the offset
/// whose row a `# noqa` comment must sit on, when the rule fixes one.
pub struct Diagnostic {
    pub message: Vec<char>,
    pub range: TextRange,
    pub noqa_offset: Option<usize>,
}

/// A diagnostic as a mathematical value.
pub struct DiagnosticView {
    pub message: Seq<char>,
    pub range: TextRange,
    pub noqa_offset: Option<usize>,
}

impl View for Diagnostic {
    type V = DiagnosticView;

    open spec fn view(&self) -> DiagnosticView {
        DiagnosticView { message: self.message@, range: self.range, noqa_offset: self.noqa_offset }
    }
}

pub open spec fn diagnostic_views(diagnostics: Seq<Diagnostic>) -> Seq<DiagnosticView> {
    diagnostics.map_values(|d: Diagnostic| d@)
}

/// Appends `more` to `out`, diagnostic after diagnostic.
pub fn extend_diagnostics(out: &mut Vec<Diagnostic>, more: Vec<Diagnostic>)
    ensures
        diagnostic_views(final(out)@) == diagnostic_views(old(out)@) + diagnostic_views(more@),
{
    let mut more = more;
    let ghost a = out@;
    let ghost b = more@;
    out.append(&mut more);
    assert(diagnostic_views(out@) =~= diagnostic_views(a) + diagnostic_views(b));
}

/// A diagnostic of either part is one of the concatenation.
pub proof fn lemma_concat_keeps(a: Seq<DiagnosticView>, b: Seq<DiagnosticView>, d: DiagnosticView)
    ensures
        (a.contains(d) || b.contains(d)) ==> (a + b).contains(d),
{
    if a.contains(d) {
        let k = choose|k: int| 0 <= k < a.len() && a[k] == d;
        assert((a + b)[k] == d);
    } else if b.contains(d) {
        let k = choose|k: int| 0 <= k < b.len() && b[k] == d;
        assert((a + b)[a.len() + k] == d);
    }
}

} // verus!
