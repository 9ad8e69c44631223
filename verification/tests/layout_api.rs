use pliego_core::clock::TimeSpan;
use pliego_core::ids::{Epoch, NodeId};
use pliego_core::layout_api::animation::{
    AnimatingImages, FrameStep, ImageAnimationState, ImageFrame, RasterImage, Repeat,
};
use pliego_core::layout_api::view_box::{sides, SVGElementData};
use pliego_core::layout_api::{
    combine_id_with_fragment_type, node_id_from_scroll_id, with_layout_state, AxesOverflow,
    DomParallelInfo, FragmentType, OffsetParentResponse, Overflow, PseudoElement, ReflowGoal,
    ReflowPhasesRun, ReflowRequest, ReflowRequestRestyle,
    ReflowStatistics, RestyleReason, ScriptSelection, ThreadState, BUILT_DISPLAY_LIST, BUILT_STACKING_CONTEXT_TREE,
    FRAGMENT_TYPE_MASK, RAN_LAYOUT, RESTYLE_DOM_CHANGED, UPDATED_ACCESSIBILITY_TREE,
    UPDATED_IMAGE_DATA, UPDATED_SCROLL_NODE_OFFSET,
};
use pliego_core::retained_canvas::ImageKey;

#[test]
fn fragment_type_low_bits_are_stable_and_distinct() {
    let node_id = 0x1000;
    let cases = [
        (None, FragmentType::FragmentBody, 0, 0x1000),
        (Some(PseudoElement::Before), FragmentType::BeforePseudoContent, 1, 0x1001),
        (Some(PseudoElement::After), FragmentType::AfterPseudoContent, 2, 0x1002),
        (Some(PseudoElement::Marker), FragmentType::MarkerPseudoContent, 3, 0x1003),
    ];

    for (pseudo, expected_type, expected_low_bits, expected_id) in cases {
        assert_eq!(FragmentType::from(pseudo), expected_type);
        assert_eq!(expected_type.low_bits(), expected_low_bits);
        assert_eq!(
            combine_id_with_fragment_type(node_id, expected_type),
            expected_id
        );
    }
}

#[test]
fn non_fragment_pseudo_elements_map_to_the_fragment_body() {
    for pseudo in [
        PseudoElement::Selection,
        PseudoElement::FirstLetter,
        PseudoElement::Backdrop,
        PseudoElement::DetailsContent,
        PseudoElement::ColorSwatch,
        PseudoElement::FileSelectorButton,
        PseudoElement::Placeholder,
        PseudoElement::SliderFill,
        PseudoElement::SliderThumb,
        PseudoElement::SliderTrack,
        PseudoElement::ServoTextControlInnerContainer,
        PseudoElement::ServoTextControlInnerEditor,
        PseudoElement::ServoAnonymousBox,
        PseudoElement::ServoAnonymousTable,
        PseudoElement::ServoAnonymousTableCell,
        PseudoElement::ServoAnonymousTableRow,
        PseudoElement::ServoTableGrid,
        PseudoElement::ServoTableWrapper,
    ] {
        assert_eq!(FragmentType::from(Some(pseudo)), FragmentType::FragmentBody);
    }
}

#[test]
fn maximum_aligned_node_id_has_four_distinct_round_tripping_fragment_ids() {
    let node_id = usize::MAX & !FRAGMENT_TYPE_MASK;
    let cases = [
        (FragmentType::FragmentBody, 0usize),
        (FragmentType::BeforePseudoContent, 1),
        (FragmentType::AfterPseudoContent, 2),
        (FragmentType::MarkerPseudoContent, 3),
    ];
    let mut fragment_ids = Vec::new();

    for (fragment_type, expected_low_bits) in cases {
        let fragment_id = combine_id_with_fragment_type(node_id, fragment_type);
        assert_eq!(fragment_id, node_id as u64 | expected_low_bits as u64);
        assert_eq!(node_id_from_scroll_id(fragment_id as usize), node_id);
        fragment_ids.push(fragment_id);
    }

    fragment_ids.sort_unstable();
    fragment_ids.dedup();
    assert_eq!(fragment_ids.len(), 4);
}

fn image(frame_count: usize, loop_count: Repeat) -> RasterImage {
    RasterImage {
        id: None,
        frames: vec![
            ImageFrame { delay: Some(TimeSpan::from_millis(100)), width: 100, height: 100 };
            frame_count
        ],
        loop_count: Some(loop_count),
    }
}

fn seconds(span: TimeSpan) -> f64 {
    span.0 as f64 / 1e9
}

/// Updates the active frame for a timeline value, with the time that is left as a number.
fn update(state: &mut ImageAnimationState, now: f64) -> bool {
    let Some(delay) = state.begin_frame_update() else {
        return false;
    };
    let mut remaining = now - f64::from_bits(state.frame_start_time) - seconds(delay);
    let mut frame = state.active_frame;
    loop {
        match state.update_frame_for_animation_timeline_value(
            frame,
            remaining > 0.0,
            now.to_bits(),
        ) {
            FrameStep::Subtract { frame: next, delay } => {
                frame = next;
                remaining -= seconds(delay);
            },
            FrameStep::Done { changed } => return changed,
        }
    }
}

#[test]
fn test_animated_image_update() {
    let mut state = ImageAnimationState::new(image(10, Repeat::Infinite), 0.0_f64.to_bits());

    assert_eq!(state.active_frame, 0);
    assert_eq!(f64::from_bits(state.frame_start_time), 0.0);
    assert_eq!(update(&mut state, 0.101), true);
    assert_eq!(state.active_frame, 1);
    assert_eq!(f64::from_bits(state.frame_start_time), 0.101);
    assert_eq!(update(&mut state, 0.116), false);
    assert_eq!(state.active_frame, 1);
    assert_eq!(f64::from_bits(state.frame_start_time), 0.101);
}

#[test]
fn test_finite_image_repeat() {
    let mut state = ImageAnimationState::new(image(2, Repeat::Finite(1)), 0.0_f64.to_bits());

    assert_eq!(state.active_frame, 0);
    assert_eq!(f64::from_bits(state.frame_start_time), 0.0);
    assert_eq!(update(&mut state, 0.101), true);
    assert_eq!(state.active_frame, 1);
    assert_eq!(f64::from_bits(state.frame_start_time), 0.101);
    assert_eq!(update(&mut state, 0.202), false);
    assert_eq!(update(&mut state, 0.303), false);

    assert_eq!(state.active_frame, 1);
}

#[test]
fn an_animation_that_ends_early_in_a_frame_jumps_to_its_last() {
    let mut state = ImageAnimationState::new(image(3, Repeat::Finite(1)), 0.0_f64.to_bits());
    assert!(update(&mut state, 10.0));
    assert_eq!(state.active_frame, 2);
    assert_eq!(state.completed_loops, Some(1));
    assert!(state.is_finished());
    assert_eq!(state.duration_to_next_frame(TimeSpan(0)), None);
}

#[test]
fn endless_animations_count_no_loops() {
    let mut state = ImageAnimationState::new(image(2, Repeat::Infinite), 0.0_f64.to_bits());
    assert_eq!(state.completed_loops, None);
    assert!(!update(&mut state, 0.25));
    assert_eq!(state.active_frame, 0);
    assert_eq!(
        state.duration_to_next_frame(TimeSpan::from_millis(30)),
        Some(TimeSpan::from_millis(70))
    );
    assert_eq!(
        state.duration_to_next_frame(TimeSpan::from_millis(130)),
        Some(TimeSpan::zero())
    );
    assert_eq!(state.image_key(), None);
}

#[test]
fn nodes_keep_their_animation_until_their_image_changes() {
    let mut images = AnimatingImages::new();
    assert!(images.is_empty());
    let of_key = |key: u32| RasterImage {
        id: Some(ImageKey { namespace: 1, key }),
        ..image(2, Repeat::Infinite)
    };
    images.maybe_insert_or_update(7, of_key(1), 5);
    assert!(images.clear_dirty());
    assert!(!images.clear_dirty());
    images.maybe_insert_or_update(7, of_key(1), 6);
    assert!(!images.clear_dirty());
    assert_eq!(images.node_to_state_map[&7].frame_start_time, 5);
    images.maybe_insert_or_update(7, of_key(2), 6);
    assert!(images.clear_dirty());
    assert_eq!(images.node_to_state_map[&7].frame_start_time, 6);
    images.remove(8);
    assert!(!images.clear_dirty());
    assert!(!images.is_empty());
    images.remove(7);
    assert!(images.clear_dirty());
    assert!(images.is_empty());
}

fn view_box(text: &str) -> Option<(u32, u32)> {
    SVGElementData { view_box: Some(String::from(text)) }.ratio_from_view_box()
}

#[test]
fn view_boxes_give_two_positive_sides() {
    assert_eq!(view_box("0 0 200 100"), Some((200, 100)));
    assert_eq!(view_box("  -5 +7 3 4 \t\n"), Some((3, 4)));
    assert_eq!(view_box("0 0 0 100"), None);
    assert_eq!(view_box("0 0 100 0"), None);
    assert_eq!(view_box("0 0 100"), None);
    assert_eq!(view_box("0 0 -100 100"), None);
    assert_eq!(view_box("0 0 100 100 x"), None);
    assert_eq!(view_box("a 0 100 100"), None);
    assert_eq!(SVGElementData { view_box: None }.ratio_from_view_box(), None);
}

#[test]
fn sides_need_all_four_numbers_and_nothing_behind_them() {
    assert_eq!(sides(Ok(0), Ok(0), Ok(2), Ok(1), " \u{c}\r"), Some((2, 1)));
    assert_eq!(sides(Ok(0), Ok(0), Ok(2), Ok(1), "\u{a0}"), None);
    assert_eq!(sides(Err(()), Ok(0), Ok(2), Ok(1), ""), None);
    assert_eq!(sides(Ok(0), Err(()), Ok(2), Ok(1), ""), None);
    assert_eq!(sides(Ok(0), Ok(0), Err(()), Ok(1), ""), None);
    assert_eq!(sides(Ok(0), Ok(0), Ok(2), Err(()), ""), None);
}

#[test]
fn only_some_phases_need_a_frame() {
    for phase in [BUILT_DISPLAY_LIST, UPDATED_SCROLL_NODE_OFFSET, UPDATED_IMAGE_DATA] {
        assert!(ReflowPhasesRun { bits: phase }.needs_frame());
        assert!(ReflowPhasesRun { bits: phase | RAN_LAYOUT }.needs_frame());
    }
    for phase in [0, RAN_LAYOUT, BUILT_STACKING_CONTEXT_TREE, UPDATED_ACCESSIBILITY_TREE] {
        assert!(!ReflowPhasesRun { bits: phase }.needs_frame());
    }
}

#[test]
fn any_reason_needs_a_restyle() {
    assert!(!RestyleReason { bits: 0 }.needs_restyle());
    assert!(RestyleReason { bits: RESTYLE_DOM_CHANGED }.needs_restyle());
    let mut request = ReflowRequest {
        document: NodeId(4),
        epoch: Epoch(1),
        restyle: None,
        reflow_goal: ReflowGoal::UpdateTheRendering,
        animation_timeline_value: 0,
        highlighted_dom_node: None,
    };
    assert!(!request.stylesheets_changed());
    request.restyle = Some(ReflowRequestRestyle {
        reason: RestyleReason { bits: RESTYLE_DOM_CHANGED },
        dirty_root: None,
        stylesheets_changed: true,
    });
    assert!(request.stylesheets_changed());
    assert_eq!(ReflowStatistics::default().rebuilt_fragment_count, 0);
}

#[test]
fn overflow_becomes_scrollable() {
    let overflow = AxesOverflow { x: Overflow::Clip, y: Overflow::Visible };
    assert!(!overflow.establishes_scroll_container());
    assert_eq!(
        overflow.to_scrollable(),
        AxesOverflow { x: Overflow::Hidden, y: Overflow::Auto }
    );
    assert!(overflow.to_scrollable().establishes_scroll_container());
    assert!(!AxesOverflow::default().establishes_scroll_container());
    assert_eq!(Overflow::Scroll.to_scrollable(), Overflow::Scroll);
}

#[test]
fn layout_code_runs_between_script_code() {
    let mut state = ThreadState { script: true, layout: false };
    let mut seen = None;
    let result = with_layout_state(&mut state, |inside| {
        seen = Some(inside);
        5
    });
    assert_eq!(result, 5);
    assert_eq!(seen, Some(ThreadState { script: false, layout: true }));
    assert_eq!(state, ThreadState { script: true, layout: false });
    state.enter_layout();
    assert_eq!(state, ThreadState { script: false, layout: true });
    state.leave_layout();
    assert_eq!(state, ThreadState { script: true, layout: false });
}

#[test]
fn images_that_show_no_other_frame_need_no_delay() {
    let mut single = image(1, Repeat::Infinite);
    single.frames[0].delay = None;
    let mut state = ImageAnimationState::new(single, 0.0_f64.to_bits());
    assert!(!update(&mut state, 5.0));
    let mut ended = image(2, Repeat::Finite(1));
    ended.frames[1].delay = None;
    let mut state = ImageAnimationState::new(ended, 0.0_f64.to_bits());
    state.active_frame = 1;
    state.completed_loops = Some(1);
    assert!(!update(&mut state, 5.0));
    assert_eq!(state.active_frame, 1);
}

#[test]
fn an_image_that_already_runs_needs_no_loop_count() {
    let mut images = AnimatingImages::new();
    images.maybe_insert_or_update(7, image(2, Repeat::Infinite), 5);
    assert!(images.clear_dirty());
    let mut same = image(2, Repeat::Infinite);
    same.loop_count = None;
    images.maybe_insert_or_update(7, same, 6);
    assert!(!images.clear_dirty());
    assert_eq!(images.node_to_state_map[&7].frame_start_time, 5);
}

#[test]
fn nothing_is_noted_by_default() {
    assert_eq!(DomParallelInfo::default().children_to_process, 0);
    assert!(!RestyleReason::default().needs_restyle());
    assert!(!ReflowPhasesRun::default().needs_frame());
    let selection = ScriptSelection::default();
    assert_eq!((selection.range.start, selection.range.end), (0, 0));
    assert_eq!((selection.character_start, selection.character_end), (0, 0));
    assert!(!selection.enabled);
    let response = OffsetParentResponse::default();
    assert_eq!(response.node_address, None);
    assert_eq!((response.rect.left.0, response.rect.size.width.0), (0, 0));
    assert!(AnimatingImages::default().is_empty());
}
