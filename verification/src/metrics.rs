//! The metrics listing report: the textual summary printed for the metrics
//! visible under one account and region.

use vstd::prelude::*;
use crate::naming::dec_of;
use crate::naming::u64_to_dec;

verus! {

/// One dimension of a metric.
pub struct Dimension {
    pub name: String,
    pub value: String,
}

/// The mathematical content of a dimension.
pub struct DimensionView {
    pub name: Seq<char>,
    pub value: Seq<char>,
}

impl View for Dimension {
    type V = DimensionView;

    open spec fn view(&self) -> DimensionView {
        DimensionView { name: self.name@, value: self.value@ }
    }
}

impl DeepView for Dimension {
    type V = DimensionView;

    open spec fn deep_view(&self) -> DimensionView {
        self@
    }
}

/// One metric visible under the configured account and region.
pub struct Metric {
    pub namespace: String,
    pub metric_name: String,
    pub dimensions: Vec<Dimension>,
}

/// The mathematical content of a metric.
pub struct MetricView {
    pub namespace: Seq<char>,
    pub metric_name: Seq<char>,
    pub dimensions: Seq<DimensionView>,
}

impl View for Metric {
    type V = MetricView;

    open spec fn view(&self) -> MetricView {
        MetricView {
            namespace: self.namespace@,
            metric_name: self.metric_name@,
            dimensions: self.dimensions.deep_view(),
        }
    }
}

impl DeepView for Metric {
    type V = MetricView;

    open spec fn deep_view(&self) -> MetricView {
        self@
    }
}

/// The report block for one dimension.
pub open spec fn dim_text(d: DimensionView) -> Seq<char> {
    "  Name:  "@ + d.name + "\n  Value: "@ + d.value + "\n\n"@
}

/// The report blocks of a dimension list, in order.
pub open spec fn dims_text(ds: Seq<DimensionView>) -> Seq<char>
    decreases ds.len(),
{
    if ds.len() == 0 {
        Seq::empty()
    } else {
        dims_text(ds.drop_last()) + dim_text(ds.last())
    }
}

/// The report block for one metric.
pub open spec fn metric_text(m: MetricView) -> Seq<char> {
    "Namespace: "@ + m.namespace + "\nName:      "@ + m.metric_name + "\nDimensions:\n"@
        + dims_text(m.dimensions) + "\n"@
}

/// The report blocks of a metric list, in order.
pub open spec fn metrics_text(ms: Seq<MetricView>) -> Seq<char>
    decreases ms.len(),
{
    if ms.len() == 0 {
        Seq::empty()
    } else {
        metrics_text(ms.drop_last()) + metric_text(ms.last())
    }
}

/// The whole report: every metric's block followed by the count line.
pub open spec fn report_text(ms: Seq<MetricView>) -> Seq<char> {
    metrics_text(ms) + "Found "@ + dec_of(ms.len() as int) + " metrics.\n"@
}

fn append_dimension(out: &mut String, d: &Dimension)
    ensures
        final(out)@ == old(out)@ + dim_text(d@),
{
    let ghost start = out@;
    out.append("  Name:  ");
    out.append(d.name.as_str());
    out.append("\n  Value: ");
    out.append(d.value.as_str());
    out.append("\n\n");
    proof {
        assert(out@ =~= start + dim_text(d@));
    }
}

fn append_metric(out: &mut String, m: &Metric)
    ensures
        final(out)@ == old(out)@ + metric_text(m@),
{
    let ghost start = out@;
    out.append("Namespace: ");
    out.append(m.namespace.as_str());
    out.append("\nName:      ");
    out.append(m.metric_name.as_str());
    out.append("\nDimensions:\n");
    let ghost mid = out@;
    let mut j: usize = 0;
    #[verifier::loop_isolation(false)]
    while j < m.dimensions.len()
        invariant
            j <= m.dimensions.len(),
            out@ == mid + dims_text(m.dimensions.deep_view().take(j as int)),
        decreases m.dimensions.len() - j,
    {
        let ghost before = out@;
        let ghost dv = m.dimensions.deep_view();
        append_dimension(out, &m.dimensions[j]);
        proof {
            assert(dv.take(j + 1).drop_last() =~= dv.take(j as int));
            assert(dv.take(j + 1).last() == dv[j as int]);
            assert(dv[j as int] == m.dimensions[j as int]@);
            assert(out@ =~= mid + dims_text(dv.take(j + 1)));
        }
        j += 1;
    }
    out.append("\n");
    proof {
        let dv = m.dimensions.deep_view();
        assert(dv.take(dv.len() as int) =~= dv);
        assert(out@ =~= start + metric_text(m@));
    }
}

/// Builds the report text for the given metric list: one block per metric
/// with its dimensions, then the line counting the metrics found.
pub fn metrics_report(metrics: &Vec<Metric>) -> (r: String)
    ensures
        r@ == report_text(metrics.deep_view()),
{
    let mut out = String::new();
    let mut i: usize = 0;
    proof {
        assert(out@ =~= dims_text(Seq::<DimensionView>::empty()));
        assert(metrics.deep_view().take(0) =~= Seq::<MetricView>::empty());
        assert(out@ =~= metrics_text(metrics.deep_view().take(0)));
    }
    #[verifier::loop_isolation(false)]
    while i < metrics.len()
        invariant
            i <= metrics.len(),
            out@ == metrics_text(metrics.deep_view().take(i as int)),
        decreases metrics.len() - i,
    {
        let ghost mv = metrics.deep_view();
        append_metric(&mut out, &metrics[i]);
        proof {
            assert(mv.take(i + 1).drop_last() =~= mv.take(i as int));
            assert(mv.take(i + 1).last() == mv[i as int]);
            assert(mv[i as int] == metrics[i as int]@);
        }
        i += 1;
    }
    proof {
        assert(metrics.deep_view().take(metrics.deep_view().len() as int) =~= metrics.deep_view());
    }
    out.append("Found ");
    let count = u64_to_dec(metrics.len() as u64);
    out.append(count.as_str());
    out.append(" metrics.\n");
    proof {
        assert(out@ =~= report_text(metrics.deep_view()));
    }
    out
}

} // verus!
