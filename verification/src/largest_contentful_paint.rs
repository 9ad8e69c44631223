//! The largest contentful paint of each pipeline.
use crate::fx::{empty_map, empty_set, holds_key, insert_entry, insert_key, remove_entry, remove_key};
use crate::ids::{PipelineId, WebViewId};
use rustc_hash::{FxHashMap, FxHashSet};
use vstd::prelude::*;

verus! {

/// Names what was painted.
#[derive(Clone, Copy, Debug, PartialEq, Eq, Structural)]
pub struct LCPCandidateID(pub usize);

/// Content that was painted and may be the largest.
#[derive(Debug, PartialEq, Eq)]
pub struct LCPCandidate {
    pub id: LCPCandidateID,
    pub area: usize,
    pub url: Option<String>,
}

impl LCPCandidate {
    pub fn new(id: LCPCandidateID, area: usize, url: Option<String>) -> (candidate: Self)
        ensures
            candidate == (LCPCandidate { id, area, url }),
    {
        LCPCandidate { id, area, url }
    }
}

/// A point of time that all processes share, in nanoseconds.
#[derive(Clone, Copy, Debug, PartialEq, Eq, PartialOrd, Ord, Structural)]
pub struct CrossProcessInstant(pub u64);

/// When a frame was presented: by the clock of the host, or in document time.
#[derive(Clone, Copy, Debug, PartialEq, Eq, Structural)]
pub enum PaintMetricTime {
    Host(CrossProcessInstant),
    Document(u64),
}

impl PaintMetricTime {
    /// The time by which the paint is dated: for document time that is the start of host time.
    pub open spec fn spec_calculator_time(self) -> CrossProcessInstant {
        match self {
            PaintMetricTime::Host(time) => time,
            PaintMetricTime::Document(_) => CrossProcessInstant(0),
        }
    }

    /// The time by which the paint is dated: for document time that is the start of host time.
    #[verifier::when_used_as_spec(spec_calculator_time)]
    pub fn calculator_time(self) -> (time: CrossProcessInstant)
        ensures
            time == self.spec_calculator_time(),
    {
        match self {
            PaintMetricTime::Host(time) => time,
            PaintMetricTime::Document(_) => CrossProcessInstant(0),
        }
    }
}

/// The largest content painted so far.
#[derive(Debug, PartialEq, Eq)]
pub struct LargestContentfulPaint {
    pub id: LCPCandidateID,
    pub area: usize,
    pub paint_time: CrossProcessInstant,
    pub url: Option<String>,
}

/// The largest content painted so far, and when its frame was presented.
#[derive(Debug, PartialEq, Eq)]
pub struct LargestContentfulPaintMetric {
    pub paint: LargestContentfulPaint,
    pub time: PaintMetricTime,
}

/// A metric as mathematical values.
pub struct MetricView {
    pub id: LCPCandidateID,
    pub area: int,
    pub paint_time: CrossProcessInstant,
    pub url: Option<Seq<char>>,
    pub time: PaintMetricTime,
}

/// A candidate as mathematical values.
pub struct CandidateView {
    pub id: LCPCandidateID,
    pub area: int,
    pub url: Option<Seq<char>>,
}

pub open spec fn url_view(url: Option<String>) -> Option<Seq<char>> {
    match url {
        Some(url) => Some(url@),
        None => None,
    }
}

impl View for LCPCandidate {
    type V = CandidateView;

    open spec fn view(&self) -> CandidateView {
        CandidateView { id: self.id, area: self.area as int, url: url_view(self.url) }
    }
}

impl View for LargestContentfulPaintMetric {
    type V = MetricView;

    open spec fn view(&self) -> MetricView {
        MetricView {
            id: self.paint.id,
            area: self.paint.area as int,
            paint_time: self.paint.paint_time,
            url: url_view(self.paint.url),
            time: self.time,
        }
    }
}

impl CandidateView {
    /// The metric of a candidate whose frame was presented at a time.
    pub open spec fn metric(self, time: PaintMetricTime) -> MetricView {
        MetricView {
            id: self.id,
            area: self.area,
            paint_time: time.calculator_time(),
            url: self.url,
            time,
        }
    }
}

impl LargestContentfulPaintMetric {
    /// A copy of the metric.
    pub fn copied(&self) -> (copy: Self)
        ensures
            copy@ == self@,
    {
        let url = match &self.paint.url {
            Some(url) => Some(String::from_str(url.as_str())),
            None => None,
        };
        LargestContentfulPaintMetric {
            paint: LargestContentfulPaint {
                id: self.paint.id,
                area: self.paint.area,
                paint_time: self.paint.paint_time,
                url,
            },
            time: self.time,
        }
    }
}

/// Of the first `count` candidates the one with the greatest area; of several the last.
pub open spec fn largest(candidates: Seq<LCPCandidate>, count: int) -> int
    decreases count,
{
    if count <= 1 || count > candidates.len() {
        0
    } else {
        let before = largest(candidates, count - 1);
        if candidates[count - 1].area >= candidates[before].area {
            count - 1
        } else {
            before
        }
    }
}

proof fn lemma_largest(candidates: Seq<LCPCandidate>, count: int)
    requires
        0 < count <= candidates.len(),
    ensures
        0 <= largest(candidates, count) < count,
    decreases count,
{
    if count > 1 {
        lemma_largest(candidates, count - 1);
    }
}

/// The candidates of a pipeline since the last frame, and the largest of the frames before.
#[derive(Debug)]
pub struct LargestContentfulPaintsContainer {
    pub lcp_candidates: Vec<LCPCandidate>,
    pub latest_lcp: Option<LargestContentfulPaintMetric>,
}

pub open spec fn latest_view(latest: Option<LargestContentfulPaintMetric>) -> Option<MetricView> {
    match latest {
        Some(metric) => Some(metric@),
        None => None,
    }
}

/// The largest after a frame: the largest candidate, if it is larger than what was the largest
/// before; what stays keeps its time.
pub open spec fn largest_after(
    candidates: Seq<LCPCandidate>,
    latest: Option<MetricView>,
    time: PaintMetricTime,
) -> Option<MetricView> {
    if candidates.len() == 0 {
        latest
    } else {
        let candidate = candidates[largest(candidates, candidates.len() as int)]@;
        match latest {
            Some(metric) => if candidate.area > metric.area {
                Some(candidate.metric(time))
            } else {
                Some(metric)
            },
            None => Some(candidate.metric(time)),
        }
    }
}

impl LargestContentfulPaintsContainer {
    pub fn new() -> (container: Self)
        ensures
            container.lcp_candidates@.len() == 0,
            container.latest_lcp is None,
    {
        LargestContentfulPaintsContainer { lcp_candidates: Vec::new(), latest_lcp: None }
    }

    /// Settles the candidates of a frame that was presented at a time, and gives the largest.
    pub fn calculate_largest_contentful_paint(&mut self, metric_time: PaintMetricTime) -> (metric:
        Option<LargestContentfulPaintMetric>)
        ensures
            latest_view(metric) == largest_after(
                old(self).lcp_candidates@,
                latest_view(old(self).latest_lcp),
                metric_time,
            ),
            latest_view(final(self).latest_lcp) == latest_view(metric),
            final(self).lcp_candidates@.len() == 0,
    {
        let mut candidates: Vec<LCPCandidate> = Vec::new();
        std::mem::swap(&mut candidates, &mut self.lcp_candidates);
        let ghost all = candidates@;
        let mut found: usize = 0;
        let mut index: usize = 1;
        while index < candidates.len()
            invariant
                1 <= index,
                candidates@ == all,
                all.len() > 0 ==> index <= all.len(),
                found == largest(all, index as int),
                all.len() > 0 ==> found < all.len(),
            decreases candidates.len() - index,
        {
            if candidates[index].area >= candidates[found].area {
                found = index;
            }
            index = index + 1;
        }
        if candidates.len() > 0 {
            let candidate = candidates.swap_remove(found);
            let replaces = match &self.latest_lcp {
                Some(latest) => candidate.area > latest.paint.area,
                None => true,
            };
            if replaces {
                self.latest_lcp = Some(
                    LargestContentfulPaintMetric {
                        paint: LargestContentfulPaint {
                            id: candidate.id,
                            area: candidate.area,
                            paint_time: metric_time.calculator_time(),
                            url: candidate.url,
                        },
                        time: metric_time,
                    },
                );
            }
        }
        match &self.latest_lcp {
            Some(latest) => Some(latest.copied()),
            None => None,
        }
    }
}

/// The candidates of all pipelines. Web views whose user has interacted are left out.
#[derive(Debug)]
pub struct LargestContentfulPaintCalculator {
    pub lcp_containers: FxHashMap<u64, LargestContentfulPaintsContainer>,
    pub disabled_webviews: FxHashSet<u64>,
}

/// A container as mathematical values.
pub struct ContainerView {
    pub candidates: Seq<LCPCandidate>,
    pub latest: Option<MetricView>,
}

impl View for LargestContentfulPaintsContainer {
    type V = ContainerView;

    open spec fn view(&self) -> ContainerView {
        ContainerView {
            candidates: self.lcp_candidates@,
            latest: latest_view(self.latest_lcp),
        }
    }
}

/// A calculator as mathematical values.
pub struct CalculatorView {
    pub containers: Map<u64, ContainerView>,
    pub disabled: Set<u64>,
}

impl View for LargestContentfulPaintCalculator {
    type V = CalculatorView;

    open spec fn view(&self) -> CalculatorView {
        CalculatorView {
            containers: self.lcp_containers@.map_values(
                |container: LargestContentfulPaintsContainer| container@,
            ),
            disabled: self.disabled_webviews@,
        }
    }
}

impl CalculatorView {
    /// What there is of a pipeline.
    pub open spec fn container(self, pipeline: u64) -> ContainerView {
        if self.containers.dom().contains(pipeline) {
            self.containers[pipeline]
        } else {
            ContainerView { candidates: Seq::empty(), latest: None }
        }
    }
}

impl LargestContentfulPaintCalculator {
    pub fn new() -> (calculator: Self)
        ensures
            calculator@.containers =~= Map::empty(),
            calculator@.disabled =~= Set::empty(),
    {
        LargestContentfulPaintCalculator {
            lcp_containers: empty_map(),
            disabled_webviews: empty_set(),
        }
    }

    /// Adds a candidate of a pipeline, whose web view must not be left out.
    pub fn append_lcp_candidate(
        &mut self,
        candidate: LCPCandidate,
        pipeline_id: PipelineId,
        webview_id: &WebViewId,
    )
        requires
            !old(self)@.disabled.contains(webview_id.0),
        ensures
            final(self)@.disabled == old(self)@.disabled,
            final(self)@.containers =~= old(self)@.containers.insert(
                pipeline_id.0,
                ContainerView {
                    candidates: old(self)@.container(pipeline_id.0).candidates.push(candidate),
                    latest: old(self)@.container(pipeline_id.0).latest,
                },
            ),
    {
        let ghost before = self@;
        let mut container = match remove_entry(&mut self.lcp_containers, pipeline_id.0) {
            Some(container) => container,
            None => LargestContentfulPaintsContainer::new(),
        };
        assert(container@.candidates =~= before.container(pipeline_id.0).candidates);
        container.lcp_candidates.push(candidate);
        insert_entry(&mut self.lcp_containers, pipeline_id.0, container);
    }

    /// Paints of a web view count.
    pub fn enabled_for_webview(&self, webview_id: &WebViewId) -> (enabled: bool)
        ensures
            enabled == !self@.disabled.contains(webview_id.0),
    {
        !holds_key(&self.disabled_webviews, webview_id.0)
    }

    /// Forgets a pipeline.
    pub fn remove_lcp_candidates_for_pipeline(&mut self, pipeline_id: &PipelineId)
        ensures
            final(self)@.disabled == old(self)@.disabled,
            final(self)@.containers =~= old(self)@.containers.remove(pipeline_id.0),
    {
        let _ = remove_entry(&mut self.lcp_containers, pipeline_id.0);
    }

    /// Settles the candidates of a pipeline whose frame was presented at a time, and gives the
    /// largest.
    pub fn calculate_largest_contentful_paint(
        &mut self,
        metric_time: PaintMetricTime,
        pipeline_id: PipelineId,
    ) -> (metric: Option<LargestContentfulPaintMetric>)
        ensures
            final(self)@.disabled == old(self)@.disabled,
            ({
                let container = old(self)@.container(pipeline_id.0);
                let largest = largest_after(container.candidates, container.latest, metric_time);
                &&& latest_view(metric) == largest
                &&& final(self)@.containers =~= (if old(self)@.containers.dom().contains(
                    pipeline_id.0,
                ) {
                    old(self)@.containers.insert(
                        pipeline_id.0,
                        ContainerView { candidates: Seq::empty(), latest: largest },
                    )
                } else {
                    old(self)@.containers
                })
            }),
    {
        let ghost before = self@;
        match remove_entry(&mut self.lcp_containers, pipeline_id.0) {
            Some(container) => {
                let mut container = container;
                assert(before.container(pipeline_id.0) == container@);
                let metric = container.calculate_largest_contentful_paint(metric_time);
                assert(container@.candidates =~= Seq::empty());
                insert_entry(&mut self.lcp_containers, pipeline_id.0, container);
                metric
            },
            None => None,
        }
    }

    /// Paints of a web view count no longer.
    pub fn disable_for_webview(&mut self, webview_id: WebViewId)
        ensures
            final(self)@.disabled == old(self)@.disabled.insert(webview_id.0),
            final(self)@.containers == old(self)@.containers,
    {
        insert_key(&mut self.disabled_webviews, webview_id.0);
    }

    /// Paints of a web view count again.
    pub fn enable_for_webview(&mut self, webview_id: &WebViewId)
        ensures
            final(self)@.disabled == old(self)@.disabled.remove(webview_id.0),
            final(self)@.containers == old(self)@.containers,
    {
        remove_key(&mut self.disabled_webviews, webview_id.0);
    }
}

/// The candidate that counts has the greatest area of all, and no candidate behind it has as much.
pub proof fn law_largest_is_the_greatest(candidates: Seq<LCPCandidate>, count: int, index: int)
    requires
        0 <= index < count <= candidates.len(),
    ensures
        0 <= largest(candidates, count) < count,
        candidates[index].area <= candidates[largest(candidates, count)].area,
        index > largest(candidates, count) ==> candidates[index].area < candidates[largest(
            candidates,
            count,
        )].area,
    decreases count,
{
    lemma_largest(candidates, count);
    if count > 1 {
        lemma_largest(candidates, count - 1);
        if index < count - 1 {
            law_largest_is_the_greatest(candidates, count - 1, index);
        }
    }
}

/// The largest never shrinks, and as long as nothing larger comes it keeps its time.
pub proof fn law_largest_never_shrinks(
    candidates: Seq<LCPCandidate>,
    latest: MetricView,
    time: PaintMetricTime,
)
    ensures
        largest_after(candidates, Some(latest), time) matches Some(after) && after.area
            >= latest.area && (after.area == latest.area ==> after == latest),
{
}

/// What counts after a frame is the largest of what counted before and of all candidates of the
/// frame; it is the last of those that are as large. A candidate replaces what counted only if it is
/// larger, and is dated by its frame: by the host's time, or by the start of it where the frame has
/// document time.
pub proof fn law_larger_paint_replaces_the_largest(
    candidates: Seq<LCPCandidate>,
    latest: Option<MetricView>,
    time: PaintMetricTime,
    best: int,
)
    requires
        0 <= best < candidates.len(),
        forall|i: int|
            0 <= i < candidates.len() ==> (#[trigger] candidates[i]).area <= candidates[best].area,
        forall|i: int|
            best < i < candidates.len() ==> (#[trigger] candidates[i]).area < candidates[best].area,
    ensures
        ({
            let after = largest_after(candidates, latest, time);
            let replaces = latest is None || latest->0.area < candidates[best].area;
            &&& after is Some
            &&& replaces ==> {
                &&& after->0.id == candidates[best].id
                &&& after->0.area == candidates[best].area
                &&& after->0.url == url_view(candidates[best].url)
                &&& after->0.time == time
                &&& after->0.paint_time == match time {
                    PaintMetricTime::Host(instant) => instant,
                    PaintMetricTime::Document(_) => CrossProcessInstant(0),
                }
            }
            &&& !replaces ==> after == latest
        }),
{
    let count = candidates.len() as int;
    lemma_largest(candidates, count);
    let found = largest(candidates, count);
    law_largest_is_the_greatest(candidates, count, best);
    if found != best {
        assert(candidates[found].area <= candidates[best].area);
    }
}

/// A frame without candidates changes nothing.
pub proof fn law_no_candidate_changes_nothing(latest: Option<MetricView>, time: PaintMetricTime)
    ensures
        largest_after(Seq::empty(), latest, time) == latest,
{
}

} // verus!
