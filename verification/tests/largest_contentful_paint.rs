use pliego_core::ids::{PipelineId, WebViewId};
use pliego_core::largest_contentful_paint::{
    CrossProcessInstant, LCPCandidate, LCPCandidateID, LargestContentfulPaintCalculator,
    LargestContentfulPaintsContainer, PaintMetricTime,
};

fn candidate(id: usize, area: usize) -> LCPCandidate {
    LCPCandidate::new(LCPCandidateID(id), area, None)
}

#[test]
fn smaller_host_candidate_retains_the_original_metric_time() {
    let first_time = CrossProcessInstant(0);
    let later_time = CrossProcessInstant(1_000_000);
    assert_ne!(first_time, later_time);
    let mut container = LargestContentfulPaintsContainer::new();
    container.lcp_candidates.push(candidate(1, 100));
    let first = container
        .calculate_largest_contentful_paint(PaintMetricTime::Host(first_time))
        .expect("candidate should produce an LCP metric");
    container.lcp_candidates.push(candidate(2, 50));
    let retained = container
        .calculate_largest_contentful_paint(PaintMetricTime::Host(later_time))
        .expect("candidate should retain an LCP metric");

    assert_eq!(first.paint.area, 100);
    assert_eq!(retained.paint.area, 100);
    assert_eq!(retained.paint.paint_time, first_time);
    assert_eq!(retained.time, PaintMetricTime::Host(first_time));
}

#[test]
fn smaller_document_candidate_retains_the_original_metric_time() {
    let mut container = LargestContentfulPaintsContainer::new();
    container.lcp_candidates.push(candidate(1, 100));
    container
        .calculate_largest_contentful_paint(PaintMetricTime::Document(10))
        .expect("candidate should produce an LCP metric");
    container.lcp_candidates.push(candidate(2, 50));
    let retained = container
        .calculate_largest_contentful_paint(PaintMetricTime::Document(20))
        .expect("candidate should retain an LCP metric");

    assert_eq!(retained.paint.area, 100);
    assert_eq!(retained.time, PaintMetricTime::Document(10));
}

#[test]
fn larger_candidate_replaces_area_and_metric_time() {
    let mut container = LargestContentfulPaintsContainer::new();
    container.lcp_candidates.push(candidate(1, 100));
    container
        .calculate_largest_contentful_paint(PaintMetricTime::Document(10))
        .expect("candidate should produce an LCP metric");
    container.lcp_candidates.push(candidate(2, 200));
    let replaced = container
        .calculate_largest_contentful_paint(PaintMetricTime::Document(20))
        .expect("larger candidate should replace the LCP metric");

    assert_eq!(replaced.paint.area, 200);
    assert_eq!(replaced.time, PaintMetricTime::Document(20));
}

#[test]
fn of_equal_candidates_the_last_counts() {
    let mut container = LargestContentfulPaintsContainer::new();
    container.lcp_candidates.push(candidate(1, 100));
    container.lcp_candidates.push(candidate(2, 100));
    container.lcp_candidates.push(candidate(3, 99));
    let metric = container
        .calculate_largest_contentful_paint(PaintMetricTime::Host(CrossProcessInstant(5)))
        .unwrap();
    assert_eq!(metric.paint.id, LCPCandidateID(2));
    assert_eq!(metric.paint.paint_time, CrossProcessInstant(5));
}

#[test]
fn a_calculator_keeps_pipelines_apart_and_forgets_them_on_request() {
    let mut calculator = LargestContentfulPaintCalculator::new();
    let webview = WebViewId(1);
    let time = PaintMetricTime::Document(10);
    assert_eq!(calculator.calculate_largest_contentful_paint(time, PipelineId(1)), None);
    let url = Some(String::from("https://example.org/image.png"));
    calculator.append_lcp_candidate(
        LCPCandidate::new(LCPCandidateID(1), 7, url.clone()),
        PipelineId(1),
        &webview,
    );
    calculator.append_lcp_candidate(candidate(2, 9), PipelineId(2), &webview);
    let metric = calculator
        .calculate_largest_contentful_paint(time, PipelineId(1))
        .expect("the pipeline has a candidate");
    assert_eq!((metric.paint.id, metric.paint.area), (LCPCandidateID(1), 7));
    assert_eq!(metric.paint.url, url);
    calculator.remove_lcp_candidates_for_pipeline(&PipelineId(1));
    assert_eq!(calculator.calculate_largest_contentful_paint(time, PipelineId(1)), None);
    assert_eq!(
        calculator
            .calculate_largest_contentful_paint(time, PipelineId(2))
            .map(|metric| metric.paint.area),
        Some(9)
    );
}

#[test]
fn web_views_are_left_out_and_taken_in_again() {
    let mut calculator = LargestContentfulPaintCalculator::new();
    assert!(calculator.enabled_for_webview(&WebViewId(1)));
    calculator.disable_for_webview(WebViewId(1));
    assert!(!calculator.enabled_for_webview(&WebViewId(1)));
    assert!(calculator.enabled_for_webview(&WebViewId(2)));
    calculator.enable_for_webview(&WebViewId(1));
    assert!(calculator.enabled_for_webview(&WebViewId(1)));
}
