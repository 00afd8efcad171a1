//! Laying out parsed histograms for the two chart kinds.  A renderer
//! computes the exact points each chart draws — filtered percentile
//! curves for the line chart, per-row count differences for the violin
//! chart — and hands them out as a plan; turning a plan into pixels is
//! the caller's business.
use crate::hgrm::{dec_lt, rows_view, Decimal, DecimalView, HgrmView, PercentileView, HGRMs};
use vstd::prelude::*;

verus! {

/// The renderer selected on the command line.
#[derive(Clone, Copy, Debug)]
pub enum RendererInput {
    Violin,
    Line,
}

/// One histogram prepared for a line chart: every row below the 100th
/// percentile as a (percentile, latency) pair, with the label data.
pub struct LineSeries {
    pub name: Option<String>,
    pub total_count: u64,
    pub points: Vec<(Decimal, Decimal)>,
}

/// One histogram prepared for a violin chart: each row's latency paired
/// with the count that row added (the difference of consecutive
/// cumulative counts), with the label data.
pub struct ViolinSeries {
    pub name: Option<String>,
    pub total_count: u64,
    pub points: Vec<(Decimal, i128)>,
}

/// What a renderer computes from the parsed data.
pub enum RenderPlan {
    Line(Vec<LineSeries>),
    Violin(Vec<ViolinSeries>),
}

/// A renderer bound to the collection it lays out.
pub enum Renderer {
    Violin(HGRMs),
    Line(HGRMs),
}

/// The name of a series, as a character sequence.
pub open spec fn name_view(n: Option<String>) -> Option<Seq<char>> {
    match n {
        Some(s) => Some(s@),
        None => None,
    }
}

/// The values of a sequence of decimal point pairs.
pub open spec fn points_view(v: Seq<(Decimal, Decimal)>) -> Seq<(DecimalView, DecimalView)> {
    v.map(|i: int, q: (Decimal, Decimal)| (q.0@, q.1@))
}

/// The decimal one: the percentile of the terminal row.
pub open spec fn dec_one() -> DecimalView {
    DecimalView { mantissa: 1, scale: 0 }
}

/// The rows a line chart keeps: those strictly below the 100th
/// percentile.
pub open spec fn below_one(p: PercentileView) -> bool {
    dec_lt(p.percentile, dec_one())
}

/// The line-chart points of a sequence of rows: those below the 100th
/// percentile, as (percentile, latency) pairs.
pub open spec fn line_pts(s: Seq<PercentileView>) -> Seq<(DecimalView, DecimalView)> {
    s.filter(|p: PercentileView| below_one(p)).map_values(
        |p: PercentileView| (p.percentile, p.value),
    )
}

/// The line-chart points of one histogram.
pub open spec fn line_points(h: HgrmView) -> Seq<(DecimalView, DecimalView)> {
    line_pts(h.percentiles)
}

/// The count a row adds over the row before it.
pub open spec fn count_diff(h: HgrmView, j: int) -> int {
    h.percentiles[j].total_count - if j == 0 {
        0
    } else {
        h.percentiles[j - 1].total_count as int
    }
}

proof fn lemma_filter_push<A>(s: Seq<A>, x: A, pred: spec_fn(A) -> bool)
    ensures
        s.push(x).filter(pred) == if pred(x) {
            s.filter(pred).push(x)
        } else {
            s.filter(pred)
        },
{
    reveal(Seq::filter);
    assert(s.push(x).drop_last() =~= s);
    assert(s.push(x).last() == x);
    assert(s.push(x).len() == s.len() + 1);
}

/// One more row extends the line-chart points exactly when it lies below
/// the 100th percentile.
proof fn lemma_line_pts_push(s: Seq<PercentileView>, x: PercentileView)
    ensures
        line_pts(s.push(x)) == if below_one(x) {
            line_pts(s).push((x.percentile, x.value))
        } else {
            line_pts(s)
        },
{
    let pred = |p: PercentileView| below_one(p);
    let f = |p: PercentileView| (p.percentile, p.value);
    lemma_filter_push(s, x, pred);
    if pred(x) {
        assert(s.filter(pred).push(x).map_values(f) =~= s.filter(pred).map_values(f).push(f(x)));
    }
}

proof fn lemma_points_view_push(v: Seq<(Decimal, Decimal)>, q: (Decimal, Decimal))
    ensures
        points_view(v.push(q)) == points_view(v).push((q.0@, q.1@)),
{
    assert(points_view(v.push(q)) =~= points_view(v).push((q.0@, q.1@)));
}

impl Renderer {
    /// The histograms this renderer will lay out.
    pub open spec fn histograms(self) -> Seq<HgrmView> {
        match self {
            Renderer::Violin(h) => h@,
            Renderer::Line(h) => h@,
        }
    }

    /// Every decimal in the held collection is well formed.
    pub open spec fn wf(self) -> bool {
        match self {
            Renderer::Violin(h) => h.wf(),
            Renderer::Line(h) => h.wf(),
        }
    }

    pub fn new(input: RendererInput, histograms: HGRMs) -> (r: Renderer)
        ensures
            r.histograms() == histograms@,
            r.wf() == histograms.wf(),
            match input {
                RendererInput::Violin => r is Violin,
                RendererInput::Line => r is Line,
            },
    {
        match input {
            RendererInput::Violin => Renderer::Violin(histograms),
            RendererInput::Line => Renderer::Line(histograms),
        }
    }

    /// Lay the data out for the selected chart.
    ///
    /// For a line chart, each histogram becomes the sequence of its rows
    /// strictly below the 100th percentile, in order, as (percentile,
    /// latency) pairs.  For a violin chart, each histogram becomes one
    /// point per row: the row's latency and the count it added over the
    /// row before it.  Either way the series carry the histogram's name
    /// and total count for labelling, in document order.
    pub fn render(&self) -> (plan: RenderPlan)
        requires
            self.wf(),
        ensures
            match plan {
                RenderPlan::Line(series) => {
                    &&& self is Line
                    &&& series@.len() == self.histograms().len()
                    &&& forall|i: int|
                        0 <= i < series@.len() ==> points_view((#[trigger] series@[i]).points@)
                            == line_points(self.histograms()[i]) && name_view(series@[i].name)
                            == self.histograms()[i].name && series@[i].total_count
                            == self.histograms()[i].total_count
                },
                RenderPlan::Violin(series) => {
                    &&& self is Violin
                    &&& series@.len() == self.histograms().len()
                    &&& forall|i: int|
                        0 <= i < series@.len() ==> (#[trigger] series@[i]).points@.len() == self
                            .histograms()[i].percentiles.len() && name_view(series@[i].name)
                            == self.histograms()[i].name && series@[i].total_count == self
                            .histograms()[i].total_count && (forall|j: int|
                            0 <= j < series@[i].points@.len() ==> (
                            #[trigger] series@[i].points@[j]).0@ == self.histograms()[
                                i
                            ].percentiles[j].value && series@[i].points@[j].1 == count_diff(
                                self.histograms()[i],
                                j,
                            ) as i128)
                },
            },
    {
        match self {
            Renderer::Line(hs) => {
                let mut series: Vec<LineSeries> = Vec::new();
                let n = hs.len();
                let mut i: usize = 0;
                while i < n
                    invariant
                        0 <= i <= n == hs@.len(),
                        hs@ == self.histograms(),
                        hs@.len() == hs.0@.len(),
                        hs.wf(),
                        series@.len() == i,
                        forall|a: int|
                            0 <= a < i ==> points_view((#[trigger] series@[a]).points@)
                                == line_points(hs@[a]) && name_view(series@[a].name) == hs@[a].name
                                && series@[a].total_count == hs@[a].total_count,
                    decreases n - i,
                {
                    let h = hs.get(i);
                    let mut points: Vec<(Decimal, Decimal)> = Vec::new();
                    let m = h.percentiles.len();
                    let one = Decimal::new(1, 0);
                    let mut j: usize = 0;
                    while j < m
                        invariant
                            0 <= j <= m == h.percentiles@.len(),
                            h@ == hs@[i as int],
                            *h == hs.0@[i as int],
                            i < hs@.len(),
                            hs@.len() == hs.0@.len(),
                            hs.wf(),
                            one@ == dec_one(),
                            one.wf(),
                            points_view(points@) == line_pts(
                                rows_view(h.percentiles@).subrange(0, j as int),
                            ),
                        decreases m - j,
                    {
                        let p = &h.percentiles[j];
                        let ghost pv = h.percentiles@[j as int]@;
                        proof {
                            assert(hs.0@[i as int].wf());
                            assert(h.percentiles@[j as int].wf());
                            assert(rows_view(h.percentiles@).subrange(0, j as int + 1)
                                =~= rows_view(h.percentiles@).subrange(0, j as int).push(pv));
                            lemma_line_pts_push(
                                rows_view(h.percentiles@).subrange(0, j as int),
                                pv,
                            );
                        }
                        if p.percentile.lt(&one) {
                            let q = (p.percentile.dup(), p.value.dup());
                            proof {
                                lemma_points_view_push(points@, q);
                                assert((q.0@, q.1@) == (pv.percentile, pv.value));
                            }
                            points.push(q);
                        }
                        j = j + 1;
                    }
                    proof {
                        assert(rows_view(h.percentiles@).subrange(
                            0,
                            h.percentiles@.len() as int,
                        ) =~= rows_view(h.percentiles@));
                        assert(line_pts(rows_view(h.percentiles@)) == line_points(h@));
                    }
                    let s = LineSeries {
                        name: match &h.name {
                            Some(n) => Some(n.clone()),
                            None => None,
                        },
                        total_count: h.total_count,
                        points,
                    };
                    series.push(s);
                    i = i + 1;
                }
                RenderPlan::Line(series)
            },
            Renderer::Violin(hs) => {
                let mut series: Vec<ViolinSeries> = Vec::new();
                let n = hs.len();
                let mut i: usize = 0;
                while i < n
                    invariant
                        0 <= i <= n == hs@.len(),
                        hs@ == self.histograms(),
                        hs@.len() == hs.0@.len(),
                        hs.wf(),
                        series@.len() == i,
                        forall|a: int|
                            0 <= a < i ==> (#[trigger] series@[a]).points@.len() == hs@[
                                a
                            ].percentiles.len() && name_view(series@[a].name) == hs@[a].name
                                && series@[a].total_count == hs@[a].total_count && (forall|b: int|
                                0 <= b < series@[a].points@.len() ==> (
                                #[trigger] series@[a].points@[b]).0@ == hs@[a].percentiles[b].value
                                    && series@[a].points@[b].1 == count_diff(hs@[a], b) as i128),
                    decreases n - i,
                {
                    let h = hs.get(i);
                    let mut points: Vec<(Decimal, i128)> = Vec::new();
                    let m = h.percentiles.len();
                    let mut prev: u64 = 0;
                    let mut j: usize = 0;
                    while j < m
                        invariant
                            0 <= j <= m == h.percentiles@.len(),
                            h@ == hs@[i as int],
                            i < hs@.len(),
                            points@.len() == j,
                            prev == if j == 0 {
                                0
                            } else {
                                h.percentiles@[j as int - 1].total_count
                            },
                            forall|b: int|
                                0 <= b < j ==> (#[trigger] points@[b]).0@ == hs@[
                                    i as int
                                ].percentiles[b].value && points@[b].1 == count_diff(
                                    hs@[i as int],
                                    b,
                                ) as i128,
                        decreases m - j,
                    {
                        let p = &h.percentiles[j];
                        let diff: i128 = (p.total_count as i128) - (prev as i128);
                        points.push((p.value.dup(), diff));
                        prev = p.total_count;
                        j = j + 1;
                    }
                    let s = ViolinSeries {
                        name: match &h.name {
                            Some(n) => Some(n.clone()),
                            None => None,
                        },
                        total_count: h.total_count,
                        points,
                    };
                    series.push(s);
                    i = i + 1;
                }
                RenderPlan::Violin(series)
            },
        }
    }
}

} // verus!
