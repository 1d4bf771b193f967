use cw_images::account::AccountConfig;
use cw_images::batch::{
    GetWidgetProps, PipelineEvent, PipelineState, BatchSummary, advance, exit_code,
    prepare_request, record_outcome, replaced_region, widget_props,
};
use cw_images::creds::{load_creds, CredentialError};
use cw_images::metrics::{Dimension, Metric, metrics_report};

fn acc(ns: &str, id: &str, region: &str) -> AccountConfig {
    AccountConfig {
        namespace: String::from(ns),
        account_id: String::from(id),
        region: String::from(region),
    }
}

fn run(events: &[PipelineEvent]) -> PipelineState {
    let mut s = PipelineState::Start;
    for e in events {
        s = advance(s, *e);
    }
    s
}

#[test]
fn successful_account_reaches_image_saved() {
    let s = run(&[
        PipelineEvent::CredsOk,
        PipelineEvent::ClientOk,
        PipelineEvent::RenderOk,
        PipelineEvent::RequestOk,
        PipelineEvent::SaveOk,
    ]);
    assert_eq!(s, PipelineState::ImageSaved);
}

#[test]
fn failure_at_any_stage_ends_in_failed() {
    assert_eq!(run(&[PipelineEvent::StepFailed]), PipelineState::Failed);
    assert_eq!(
        run(&[PipelineEvent::CredsOk, PipelineEvent::StepFailed]),
        PipelineState::Failed
    );
    assert_eq!(
        run(&[
            PipelineEvent::CredsOk,
            PipelineEvent::ClientOk,
            PipelineEvent::RenderOk,
            PipelineEvent::RequestOk,
            PipelineEvent::StepFailed,
        ]),
        PipelineState::Failed
    );
}

#[test]
fn middle_account_failure_leaves_other_accounts_saved() {
    let batches: Vec<Vec<PipelineEvent>> = vec![
        vec![
            PipelineEvent::CredsOk,
            PipelineEvent::ClientOk,
            PipelineEvent::RenderOk,
            PipelineEvent::RequestOk,
            PipelineEvent::SaveOk,
        ],
        vec![
            PipelineEvent::CredsOk,
            PipelineEvent::ClientOk,
            PipelineEvent::RenderOk,
            PipelineEvent::StepFailed,
        ],
        vec![
            PipelineEvent::CredsOk,
            PipelineEvent::ClientOk,
            PipelineEvent::RenderOk,
            PipelineEvent::RequestOk,
            PipelineEvent::SaveOk,
        ],
    ];
    let mut sum = BatchSummary { saved: 0, failed: 0 };
    let mut outcomes = Vec::new();
    for events in &batches {
        let s = run(events);
        outcomes.push(s);
        sum = record_outcome(sum, s);
    }
    assert_eq!(
        outcomes,
        vec![PipelineState::ImageSaved, PipelineState::Failed, PipelineState::ImageSaved]
    );
    assert_eq!(sum.saved, 2);
    assert_eq!(sum.failed, 1);
    assert_eq!(exit_code(&sum), 1);
}

#[test]
fn exit_code_is_zero_only_without_failures() {
    assert_eq!(exit_code(&BatchSummary { saved: 3, failed: 0 }), 0);
    assert_eq!(exit_code(&BatchSummary { saved: 0, failed: 0 }), 0);
    assert_eq!(exit_code(&BatchSummary { saved: 2, failed: 1 }), 1);
}

#[test]
fn empty_batch_performs_no_steps_and_exits_clean() {
    let accounts: Vec<AccountConfig> = Vec::new();
    let mut sum = BatchSummary { saved: 0, failed: 0 };
    for _a in &accounts {
        sum = record_outcome(sum, PipelineState::Failed);
    }
    assert_eq!(sum.saved, 0);
    assert_eq!(sum.failed, 0);
    assert_eq!(exit_code(&sum), 0);
}

#[test]
fn widget_props_carries_the_account_context() {
    let p = widget_props("metric", "4320H", "0H", "3600", true, acc("Foo", "111", "eu-west-1"));
    assert_eq!(p.title, "metric");
    assert_eq!(p.start, "4320H");
    assert_eq!(p.end, "0H");
    assert_eq!(p.period, "3600");
    assert_eq!(p.app_name, "Foo");
    assert_eq!(p.region.as_deref(), Some("eu-west-1"));
    assert!(p.verbose);
}

#[test]
fn replaced_region_defaults_when_absent() {
    assert_eq!(replaced_region(&None), "us-west-2");
    assert_eq!(replaced_region(&Some(String::from("eu-west-1"))), "eu-west-1");
}

#[test]
fn prepare_request_renders_with_the_effective_region() {
    let p = GetWidgetProps {
        region: None,
        app_name: String::from("Foo"),
        title: String::from("metric"),
        verbose: false,
        start: String::from("4320H"),
        end: String::from("0H"),
        period: String::from("3600"),
    };
    let out = prepare_request(&p, "{{NAMESPACE}}@{{REGION}}");
    assert_eq!(out, "Foo@us-west-2");
}

#[test]
fn load_creds_requires_account_id_and_region() {
    let ok = load_creds(&acc("Foo", "111", "us-east-1")).expect("complete record resolves");
    assert_eq!(ok.profile_name, "111");
    assert_eq!(ok.region, "us-east-1");
    assert_eq!(
        load_creds(&acc("Foo", "", "us-east-1")).unwrap_err(),
        CredentialError::MissingAccountId
    );
    assert_eq!(
        load_creds(&acc("Foo", "111", "")).unwrap_err(),
        CredentialError::MissingRegion
    );
}

#[test]
fn metrics_report_lists_each_metric_and_the_count() {
    let metrics = vec![
        Metric {
            namespace: String::from("AWS/EC2"),
            metric_name: String::from("CPUUtilization"),
            dimensions: vec![Dimension {
                name: String::from("InstanceId"),
                value: String::from("i-123"),
            }],
        },
        Metric {
            namespace: String::from("AWS/S3"),
            metric_name: String::from("BucketSizeBytes"),
            dimensions: Vec::new(),
        },
    ];
    let report = metrics_report(&metrics);
    let expected = "Namespace: AWS/EC2\nName:      CPUUtilization\nDimensions:\n  Name:  InstanceId\n  Value: i-123\n\n\nNamespace: AWS/S3\nName:      BucketSizeBytes\nDimensions:\n\nFound 2 metrics.\n";
    assert_eq!(report, expected);
}

#[test]
fn metrics_report_on_empty_list() {
    let report = metrics_report(&Vec::new());
    assert_eq!(report, "Found 0 metrics.\n");
}
