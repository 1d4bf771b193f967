//! The per-account batch pipeline: request parameters, the linear state
//! machine each account steps through, and outcome bookkeeping that keeps
//! one account's failure from touching any other account.

use vstd::prelude::*;
use crate::account::AccountConfig;
use crate::template::{rendered, get_metrics_json};

verus! {

/// The display and time-window values one widget-image request is built
/// from; constructed fresh per account.
pub struct GetWidgetProps {
    pub region: Option<String>,
    pub app_name: String,
    pub title: String,
    pub verbose: bool,
    pub start: String,
    pub end: String,
    pub period: String,
}

/// The region one request is issued against: the account's own when given,
/// the default region otherwise.
pub open spec fn effective_region_view(region: Option<String>) -> Seq<char> {
    match region {
        Some(s) => s@,
        None => "us-west-2"@,
    }
}

/// The region actually used for a request.
pub fn replaced_region(region: &Option<String>) -> (r: String)
    ensures
        r@ == effective_region_view(*region),
{
    match region {
        Some(s) => s.clone(),
        None => String::from_str("us-west-2"),
    }
}

/// Builds one account's request parameters from the invocation-wide values
/// and the account's own namespace and region.
pub fn widget_props(
    title: &str,
    start: &str,
    end: &str,
    period: &str,
    verbose: bool,
    acc: AccountConfig,
) -> (r: GetWidgetProps)
    ensures
        r.title@ == title@,
        r.start@ == start@,
        r.end@ == end@,
        r.period@ == period@,
        r.verbose == verbose,
        r.app_name@ == acc.namespace@,
        r.region matches Some(s) && s@ == acc.region@,
{
    GetWidgetProps {
        title: String::from_str(title),
        region: Some(acc.region),
        app_name: acc.namespace,
        start: String::from_str(start),
        end: String::from_str(end),
        period: String::from_str(period),
        verbose,
    }
}

/// The widget document submitted for one account: the shared template with
/// the account's namespace, its effective region and the window values
/// substituted for the placeholder tokens.
pub fn prepare_request(props: &GetWidgetProps, template: &str) -> (r: String)
    ensures
        r@ == rendered(
            template@,
            props.app_name@,
            effective_region_view(props.region),
            props.start@,
            props.end@,
            props.period@,
        ),
{
    let region = replaced_region(&props.region);
    get_metrics_json(
        template,
        region.as_str(),
        props.app_name.as_str(),
        props.start.as_str(),
        props.end.as_str(),
        props.period.as_str(),
    )
}

/// One account's progress through the pipeline; `ImageSaved` and `Failed`
/// are the two terminal verdicts.
#[derive(Clone, Copy, Debug, PartialEq, Eq, Structural)]
pub enum PipelineState {
    Start,
    CredentialsResolved,
    ClientConfigured,
    TemplateRendered,
    ImageRequested,
    ImageSaved,
    Failed,
}

/// What the driver reports back after performing one step's outside work.
#[derive(Clone, Copy, Debug, PartialEq, Eq, Structural)]
pub enum PipelineEvent {
    CredsOk,
    ClientOk,
    RenderOk,
    RequestOk,
    SaveOk,
    StepFailed,
}

/// The transition table: each stage advances on exactly the success event it
/// waits for; any failure, and any event a stage does not expect, is that
/// account's failure. Terminal verdicts absorb every further event.
pub open spec fn spec_advance(s: PipelineState, e: PipelineEvent) -> PipelineState {
    match (s, e) {
        (PipelineState::Start, PipelineEvent::CredsOk) => PipelineState::CredentialsResolved,
        (PipelineState::CredentialsResolved, PipelineEvent::ClientOk)
            => PipelineState::ClientConfigured,
        (PipelineState::ClientConfigured, PipelineEvent::RenderOk)
            => PipelineState::TemplateRendered,
        (PipelineState::TemplateRendered, PipelineEvent::RequestOk)
            => PipelineState::ImageRequested,
        (PipelineState::ImageRequested, PipelineEvent::SaveOk) => PipelineState::ImageSaved,
        (PipelineState::ImageSaved, _) => PipelineState::ImageSaved,
        (PipelineState::Failed, _) => PipelineState::Failed,
        _ => PipelineState::Failed,
    }
}

/// The account is done, well or badly.
pub open spec fn is_terminal(s: PipelineState) -> bool {
    s == PipelineState::ImageSaved || s == PipelineState::Failed
}

/// Advances one account's pipeline by one driver event.
pub fn advance(s: PipelineState, e: PipelineEvent) -> (r: PipelineState)
    ensures
        r == spec_advance(s, e),
{
    match (s, e) {
        (PipelineState::Start, PipelineEvent::CredsOk) => PipelineState::CredentialsResolved,
        (PipelineState::CredentialsResolved, PipelineEvent::ClientOk)
            => PipelineState::ClientConfigured,
        (PipelineState::ClientConfigured, PipelineEvent::RenderOk)
            => PipelineState::TemplateRendered,
        (PipelineState::TemplateRendered, PipelineEvent::RequestOk)
            => PipelineState::ImageRequested,
        (PipelineState::ImageRequested, PipelineEvent::SaveOk) => PipelineState::ImageSaved,
        (PipelineState::ImageSaved, _) => PipelineState::ImageSaved,
        (PipelineState::Failed, _) => PipelineState::Failed,
        _ => PipelineState::Failed,
    }
}

/// How far from a verdict a stage still is.
pub open spec fn rank(s: PipelineState) -> nat {
    match s {
        PipelineState::Start => 5,
        PipelineState::CredentialsResolved => 4,
        PipelineState::ClientConfigured => 3,
        PipelineState::TemplateRendered => 2,
        PipelineState::ImageRequested => 1,
        PipelineState::ImageSaved => 0,
        PipelineState::Failed => 0,
    }
}

/// Law: every event strictly advances a non-terminal pipeline toward a
/// verdict, so a driver reaches `ImageSaved` or `Failed` within five events.
pub proof fn lemma_advance_progress(s: PipelineState, e: PipelineEvent)
    requires
        !is_terminal(s),
    ensures
        rank(spec_advance(s, e)) < rank(s),
{
}

/// The verdict one account reaches after its own sequence of driver events.
pub open spec fn run_events(events: Seq<PipelineEvent>) -> PipelineState
    decreases events.len(),
{
    if events.len() == 0 {
        PipelineState::Start
    } else {
        spec_advance(run_events(events.drop_last()), events.last())
    }
}

/// The verdicts of a whole batch, one per account, in batch order.
pub open spec fn batch_outcomes(batches: Seq<Seq<PipelineEvent>>) -> Seq<PipelineState> {
    batches.map_values(|es: Seq<PipelineEvent>| run_events(es))
}

/// Law (failure isolation): the batch yields one verdict per account, and
/// account `i`'s verdict is a function of account `i`'s own events alone,
/// whatever events — failures included — any other account saw.
pub proof fn lemma_batch_isolation(batches: Seq<Seq<PipelineEvent>>, i: int)
    requires
        0 <= i < batches.len(),
    ensures
        batch_outcomes(batches).len() == batches.len(),
        batch_outcomes(batches)[i] == run_events(batches[i]),
{
}

/// The outcome counts of one whole run.
#[derive(Clone, Copy, Debug, PartialEq, Eq, Structural)]
pub struct BatchSummary {
    pub saved: usize,
    pub failed: usize,
}

/// Adds one account's verdict to the running counts.
pub fn record_outcome(sum: BatchSummary, s: PipelineState) -> (r: BatchSummary)
    requires
        is_terminal(s),
        sum.saved < usize::MAX,
        sum.failed < usize::MAX,
    ensures
        s == PipelineState::ImageSaved ==> r == (BatchSummary {
            saved: (sum.saved + 1) as usize,
            failed: sum.failed,
        }),
        s == PipelineState::Failed ==> r == (BatchSummary {
            saved: sum.saved,
            failed: (sum.failed + 1) as usize,
        }),
{
    match s {
        PipelineState::ImageSaved => BatchSummary { saved: sum.saved + 1, failed: sum.failed },
        _ => BatchSummary { saved: sum.saved, failed: sum.failed + 1 },
    }
}

/// The process exit code: zero exactly when no account failed.
pub fn exit_code(sum: &BatchSummary) -> (r: i32)
    ensures
        (r == 0) <==> sum.failed == 0,
        r == 0 || r == 1,
{
    if sum.failed == 0 {
        0
    } else {
        1
    }
}

} // verus!
