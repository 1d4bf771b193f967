//! Widget template rendering: literal substitution of the fixed placeholder
//! tokens with per-account and per-invocation values.

use vstd::prelude::*;
use crate::text::{occurs, replaced, replace_all, lemma_replaced_identity};

verus! {

/// The `{{NAMESPACE}}` placeholder token.
pub open spec fn namespace_token() -> Seq<char> {
    "{{NAMESPACE}}"@
}

/// The `{{REGION}}` placeholder token.
pub open spec fn region_token() -> Seq<char> {
    "{{REGION}}"@
}

/// The `{{PERIOD_START}}` placeholder token.
pub open spec fn period_start_token() -> Seq<char> {
    "{{PERIOD_START}}"@
}

/// The `{{PERIOD_END}}` placeholder token.
pub open spec fn period_end_token() -> Seq<char> {
    "{{PERIOD_END}}"@
}

/// The `{{PERIOD}}` placeholder token.
pub open spec fn period_token() -> Seq<char> {
    "{{PERIOD}}"@
}

/// The fully rendered widget document: every occurrence of every placeholder
/// token replaced by its value, one token after the other, the two longer
/// period tokens before the bare period token.
pub open spec fn rendered(
    text: Seq<char>,
    namespace: Seq<char>,
    region: Seq<char>,
    start: Seq<char>,
    end: Seq<char>,
    period: Seq<char>,
) -> Seq<char> {
    replaced(
        replaced(
            replaced(
                replaced(replaced(text, namespace_token(), namespace), region_token(), region),
                period_start_token(),
                start,
            ),
            period_end_token(),
            end,
        ),
        period_token(),
        period,
    )
}

/// Renders the widget template for one account: substitutes the namespace,
/// region and time-window values for their placeholder tokens.
pub fn get_metrics_json(
    template: &str,
    region: &str,
    namespace: &str,
    start: &str,
    end: &str,
    period: &str,
) -> (r: String)
    ensures
        r@ == rendered(template@, namespace@, region@, start@, end@, period@),
{
    let a = replace_all(template, "{{NAMESPACE}}", namespace);
    let b = replace_all(a.as_str(), "{{REGION}}", region);
    let c = replace_all(b.as_str(), "{{PERIOD_START}}", start);
    let d = replace_all(c.as_str(), "{{PERIOD_END}}", end);
    replace_all(d.as_str(), "{{PERIOD}}", period)
}

/// Law: rendering is the identity on a template that contains none of the
/// placeholder tokens; rendering such a text again therefore changes nothing.
pub proof fn lemma_render_identity(
    text: Seq<char>,
    namespace: Seq<char>,
    region: Seq<char>,
    start: Seq<char>,
    end: Seq<char>,
    period: Seq<char>,
)
    requires
        !occurs(text, namespace_token()),
        !occurs(text, region_token()),
        !occurs(text, period_start_token()),
        !occurs(text, period_end_token()),
        !occurs(text, period_token()),
    ensures
        rendered(text, namespace, region, start, end, period) == text,
{
    lemma_replaced_identity(text, namespace_token(), namespace);
    lemma_replaced_identity(text, region_token(), region);
    lemma_replaced_identity(text, period_start_token(), start);
    lemma_replaced_identity(text, period_end_token(), end);
    lemma_replaced_identity(text, period_token(), period);
}

} // verus!
