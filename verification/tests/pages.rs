use pliego_core::au::Au;
use pliego_core::layout_debug::{
    LayoutDebugContinuation, LayoutDebugPage, LayoutDebugPageAppUnits,
    LayoutDebugPageContinuation, LayoutDebugPageSequence, LayoutDebugPageStyleSource,
    LayoutDebugPageWarning, LayoutDebugTableConstraint, LayoutDebugTableGroupRepeatAppUnits,
};
use pliego_core::pages::flow::{
    BlockBoundaryPlacement, BlockContinuationToken, BlockPageBuilder, BlockPaginationOutcome,
    BlockPaginationRequest, BlockPaginationWarning, ChildPageBreaks, FragmentainerContinuation,
    InlineContinuationToken, PageContinuation, TableContinuationToken, TableGroupRepeatDecision,
    TableGroupUnsupportedReason,
};
use pliego_core::pages::geometry::{
    parallel_layout_allowed, select_layout_root, ContinuousViewport, CssLength, LayoutRoot,
    PageDefinition, PageGeometryError, PageMargins, PageSequenceContext, PhysicalRect,
    PhysicalSides, PhysicalSize, SurfaceSize,
};
use pliego_core::pages::inline_flow::{InlineLine, InlineResumePoint};
use pliego_core::pages::sequence::{
    BlockPaginationController, FragmentainerOverflow, PageSequence,
};
use pliego_core::pages::table_flow::{
    TableChildPlacement, TableChildPlacementOutcome, TABLE_ROW_RETRY_LIMIT,
};
use pliego_core::pages::table_rules::{
    TableCellFragment, TableRow, TableRowGroup, TableRowGroupKind,
};

/// A length in CSS pixels.
fn px(value: f32) -> CssLength {
    CssLength { bits: value.to_bits(), length: Au(app_units::Au::from_f32_px(value).0) }
}

fn margins_of(top: f32, right: f32, bottom: f32, left: f32) -> [f32; 4] {
    [top, right, bottom, left]
}

/// A page whose numbers, and the sums of whose margins, are single-precision numbers.
fn page_of(
    width: f32,
    height: f32,
    [top, right, bottom, left]: [f32; 4],
) -> Result<PageDefinition, PageGeometryError> {
    PageDefinition::new(
        px(width),
        px(height),
        PageMargins::new(px(top), px(right), px(bottom), px(left)),
        (left + right).to_bits(),
        (top + bottom).to_bits(),
    )
}

fn to_px(length: Au) -> f32 {
    app_units::Au(length.0).to_f32_px()
}

fn page() -> PageDefinition {
    page_of(612.0, 792.0, margins_of(72.0, 54.0, 36.0, 18.0))
        .expect("test page geometry should be valid")
}

#[test]
fn exact_app_unit_page_construction_does_not_narrow_large_contract_values() {
    let page = PageDefinition::from_app_units(i32::MAX, i32::MAX - 1, [1, 2, 3, i32::MAX - 3])
        .expect("valid app-unit geometry should not pass through f32");
    assert_eq!(page.size.width, Au(i32::MAX));
    assert_eq!(page.size.height, Au(i32::MAX - 1));
    assert_eq!(page.margins.top, Au(1));
    assert_eq!(page.margins.right, Au(2));
    assert_eq!(page.margins.bottom, Au(3));
    assert_eq!(page.margins.left, Au(i32::MAX - 3));

    assert_eq!(
        PageDefinition::from_app_units(100, 100, [0, 50, 0, 50]),
        Err(PageGeometryError::MarginsConsumePage)
    );
}

#[test]
fn surface_pixel_size_ceil_is_exact_at_app_unit_boundaries() {
    let zero_margins = [0; 4];
    let maximum = PageDefinition::from_app_units(i32::MAX, i32::MAX, zero_margins)
        .expect("maximum positive app-unit dimensions should be valid");
    assert_eq!(
        maximum.surface_pixel_size(),
        Some(SurfaceSize { width: 35_791_395, height: 35_791_395 })
    );

    let exact_multiples = PageDefinition::from_app_units(60, 120, zero_margins)
        .expect("exact pixel multiples should be valid");
    assert_eq!(
        exact_multiples.surface_pixel_size(),
        Some(SurfaceSize { width: 1, height: 2 })
    );

    let one_app_unit_remainders = PageDefinition::from_app_units(61, 121, zero_margins)
        .expect("one-app-unit remainders should be valid");
    assert_eq!(
        one_app_unit_remainders.surface_pixel_size(),
        Some(SurfaceSize { width: 2, height: 3 })
    );

    let one_app_unit_before_boundaries = PageDefinition::from_app_units(59, 119, zero_margins)
        .expect("near-boundary app-unit dimensions should be valid");
    assert_eq!(
        one_app_unit_before_boundaries.surface_pixel_size(),
        Some(SurfaceSize { width: 1, height: 2 })
    );
}

#[test]
fn surface_pixel_size_preserves_ordinary_api1_a4_rounding() {
    let page = page_of(
        793.7008,
        1122.5197,
        margins_of(45.3543, 60.4724, 45.3543, 60.4724),
    )
    .expect("A4 API 1 geometry should be valid");

    assert_eq!(
        page.surface_pixel_size(),
        Some(SurfaceSize {
            width: to_px(page.width()).ceil() as u32,
            height: to_px(page.height()).ceil() as u32,
        })
    );
    assert_eq!(
        page.surface_pixel_size(),
        Some(SurfaceSize { width: 794, height: 1123 })
    );
}

fn short_table_page_builder() -> BlockPageBuilder {
    BlockPageBuilder::new(BlockPaginationRequest {
        available_block_size: Au::from_px(100),
        page_stride: Au::from_px(120),
    })
}

fn placed(outcome: TableChildPlacementOutcome, context: &str) -> TableChildPlacement {
    let TableChildPlacementOutcome::Placed(placement) = outcome else {
        panic!("{context}: {outcome:?}");
    };
    placement
}

fn header_body_table(body_block_size: i32) -> ([TableRow; 2], [TableRowGroup; 2]) {
    (
        [
            TableRow {
                row_index: 0,
                row_group_index: Some(0),
                cell_count: 1,
                has_rowspan: false,
                block_start: Au::zero(),
                block_size: Au::from_px(20),
                breaks: ChildPageBreaks::default(),
            },
            TableRow {
                row_index: 1,
                row_group_index: Some(1),
                cell_count: 1,
                has_rowspan: false,
                block_start: Au::from_px(20),
                block_size: Au::from_px(body_block_size),
                breaks: ChildPageBreaks::default(),
            },
        ],
        [
            TableRowGroup {
                tag_id: Some(11),
                row_group_index: 0,
                first_row_index: 0,
                end_row_index: 1,
                block_start: Au::zero(),
                block_size: Au::from_px(20),
                kind: TableRowGroupKind::Header,
                breaks: ChildPageBreaks::default(),
            },
            TableRowGroup {
                tag_id: None,
                row_group_index: 1,
                first_row_index: 1,
                end_row_index: 2,
                block_start: Au::from_px(20),
                block_size: Au::from_px(body_block_size),
                kind: TableRowGroupKind::Body,
                breaks: ChildPageBreaks::default(),
            },
        ],
    )
}

#[test]
fn page_geometry_resolves_explicit_size_and_margins() {
    let page = page();
    assert_eq!(to_px(page.width()), 612.0);
    assert_eq!(to_px(page.height()), 792.0);
    assert_eq!(
        page.margins(),
        PhysicalSides {
            top: Au::from_px(72),
            right: Au::from_px(54),
            bottom: Au::from_px(36),
            left: Au::from_px(18),
        }
    );
    assert_eq!(
        page.content_rect(),
        PhysicalRect {
            left: Au::from_px(18),
            top: Au::from_px(72),
            size: PhysicalSize { width: Au::from_px(540), height: Au::from_px(684) },
        }
    );
}

#[test]
fn page_debug_geometry_retains_large_app_units_without_float_round_trip() {
    let definition =
        PageDefinition::from_app_units(100_000_001, 100_000_019, [7, 11, 13, 17]).unwrap();
    let exact = definition.debug_app_units();

    assert_eq!(
        exact,
        LayoutDebugPageAppUnits {
            width: 100_000_001,
            height: 100_000_019,
            margin_top: 7,
            margin_right: 11,
            margin_bottom: 13,
            margin_left: 17,
            available_inline_size: 99_999_973,
            available_block_size: 99_999_999,
        }
    );
    assert_ne!(app_units::Au::from_f32_px(to_px(definition.width())).0, exact.width);
    assert_ne!(app_units::Au::from_f32_px(to_px(definition.height())).0, exact.height);
}

#[test]
fn table_repeat_debug_geometry_retains_original_app_units() {
    let repeat = TableGroupRepeatDecision {
        page_index: 1,
        table_node: Some(7),
        header_tag_id: 11,
        row_group_index: 0,
        source_block_start: Au(100_000_001),
        target_block_start: Au(100_000_019),
        block_size: Au(601),
    };
    let sequence = PageSequence {
        pages: Vec::new(),
        table_breaks: Vec::new(),
        table_cell_continuations: Vec::new(),
        table_group_repeats: vec![repeat],
        warnings: Vec::new(),
    };
    let debug = sequence.debug_snapshot();
    let [retained] = debug.table_group_repeats.as_slice() else {
        panic!("the original repeat must be retained exactly once");
    };
    let exact = LayoutDebugTableGroupRepeatAppUnits {
        source_block_start: 100_000_001,
        target_block_start: 100_000_019,
        block_size: 601,
    };
    assert_eq!(retained.app_units, Some(exact));
    assert_eq!(retained.page_index, repeat.page_index);
    assert_eq!(retained.table_node, repeat.table_node);
    assert_eq!(retained.header_tag_id, repeat.header_tag_id);
    assert_eq!(retained.row_group_index, repeat.row_group_index);
    assert_eq!(
        retained.source_block_start,
        repeat.source_block_start
    );
    assert_eq!(
        retained.target_block_start,
        repeat.target_block_start
    );
    assert_eq!(retained.block_size, repeat.block_size);
    assert_ne!(
        app_units::Au::from_f32_px(to_px(retained.source_block_start)).0,
        exact.source_block_start
    );
    assert_ne!(
        app_units::Au::from_f32_px(to_px(retained.target_block_start)).0,
        exact.target_block_start
    );
}

#[test]
fn paged_root_creates_exactly_one_page_and_fragmentainer() {
    let page = page();
    let LayoutRoot::Paged(context) = select_layout_root(
        Some(page),
        false,
        PhysicalSize { width: Au::from_px(1), height: Au::from_px(1) },
    ) else {
        panic!("a configured top-level document should use the paged root")
    };
    let sequence = context.one_page_sequence();
    assert_eq!(sequence.pages.len(), 1);
    let page = sequence.pages[0];
    assert_eq!(page.definition, context.definition);
    assert_eq!(page.fragmentainer.page_index, 0);
    assert_eq!(to_px(page.fragmentainer.available_inline_size), 540.0);
    assert_eq!(to_px(page.fragmentainer.available_block_size), 684.0);
    assert_eq!(page.fragmentainer.continuation, None);
    assert!(sequence.warnings.is_empty());
    assert_eq!(
        sequence.debug_snapshot(),
        LayoutDebugPageSequence {
            pages: vec![LayoutDebugPage {
                index: 0,
                style_source: LayoutDebugPageStyleSource::RequestDefaults,
                app_units: LayoutDebugPageAppUnits {
                    width: 36_720,
                    height: 47_520,
                    margin_top: 4_320,
                    margin_right: 3_240,
                    margin_bottom: 2_160,
                    margin_left: 1_080,
                    available_inline_size: 32_400,
                    available_block_size: 41_040,
                },
                width: Au::from_px(612),
                height: Au::from_px(792),
                margin_top: Au::from_px(72),
                margin_right: Au::from_px(54),
                margin_bottom: Au::from_px(36),
                margin_left: Au::from_px(18),
                available_inline_size: Au::from_px(540),
                available_block_size: Au::from_px(684),
            }],
            continuations: vec![],
            table_breaks: vec![],
            table_cell_continuations: vec![],
            table_group_repeats: vec![],
            warnings: vec![],
        }
    );
}

#[test]
fn one_page_fragmentainer_retains_overflow_for_later_fragmentation() {
    let LayoutRoot::Paged(context) = select_layout_root(
        Some(page()),
        false,
        PhysicalSize { width: Au::from_px(1), height: Au::from_px(1) },
    ) else {
        panic!("a configured top-level document should use the paged root")
    };
    let sequence = context.one_page_sequence();
    assert_eq!(
        sequence.pages[0].fragmentainer.overflow,
        FragmentainerOverflow::RetainInFragmentTree
    );
}

#[test]
fn continuous_is_the_default_and_iframes_stay_continuous() {
    let viewport = PhysicalSize { width: Au::from_px(800), height: Au::from_px(600) };
    assert!(matches!(
        select_layout_root(None, false, viewport),
        LayoutRoot::Continuous(ContinuousViewport { size }) if size == viewport
    ));
    assert!(matches!(
        select_layout_root(Some(page()), true, viewport),
        LayoutRoot::Continuous(ContinuousViewport { size }) if size == viewport
    ));
    assert!(matches!(
        select_layout_root(Some(page()), false, viewport),
        LayoutRoot::Paged(_)
    ));
    assert!(parallel_layout_allowed(None, false, true));
    assert!(parallel_layout_allowed(Some(page()), true, true));
    assert!(!parallel_layout_allowed(Some(page()), false, true));
    assert!(!parallel_layout_allowed(None, false, false));
}

#[test]
fn block_children_continue_at_monotonic_child_boundaries() {
    let mut builder = BlockPageBuilder::new(BlockPaginationRequest {
        available_block_size: Au::from_px(100),
        page_stride: Au::from_px(120),
    });
    assert_eq!(
        builder.place_child(
            0,
            Some(10),
            Au::from_px(0),
            Au::from_px(60),
            Au::from_px(60),
            ChildPageBreaks::default(),
        ),
        BlockBoundaryPlacement::CurrentPage
    );
    assert_eq!(
        builder.place_child(
            1,
            Some(20),
            Au::from_px(60),
            Au::from_px(60),
            Au::from_px(60),
            ChildPageBreaks::default(),
        ),
        BlockBoundaryPlacement::NewPage {
            block_origin: Au::from_px(120),
        }
    );
    assert_eq!(
        builder.place_child(
            2,
            Some(30),
            Au::from_px(180),
            Au::from_px(20),
            Au::from_px(20),
            ChildPageBreaks::default(),
        ),
        BlockBoundaryPlacement::CurrentPage
    );

    let outcome = builder.finish();
    assert_eq!(outcome.page_count, 2);
    assert_eq!(
        outcome.continuations,
        vec![PageContinuation {
            page_index: 0,
            token: FragmentainerContinuation::Block(BlockContinuationToken {
                next_child_index: 1,
                next_node: Some(20),
                forced: false,
                break_inside_avoid: false,
                retry_count: 0,
                resume_page_index: 1,
            }),
        }]
    );
    assert!(outcome.warnings.is_empty());
    assert_eq!(
        PageSequenceContext { definition: page() }
            .page_sequence(outcome)
            .debug_snapshot()
            .continuations,
        vec![LayoutDebugPageContinuation {
            page_index: 0,
            token: LayoutDebugContinuation::Block {
                next_child_index: 1,
                next_node: Some(20),
                forced: false,
                break_inside_avoid: false,
                retry_count: 0,
                resume_page_index: 1,
            },
        }]
    );
}

#[test]
fn forced_breaks_collapse_without_empty_edge_pages() {
    let mut builder = BlockPageBuilder::new(BlockPaginationRequest {
        available_block_size: Au::from_px(100),
        page_stride: Au::from_px(120),
    });
    assert_eq!(
        builder.place_child(
            0,
            Some(10),
            Au::zero(),
            Au::from_px(20),
            Au::from_px(20),
            ChildPageBreaks {
                before: true,
                after: true,
                inside_avoid: false,
            },
        ),
        BlockBoundaryPlacement::CurrentPage
    );
    assert_eq!(
        builder.place_child(
            1,
            Some(20),
            Au::from_px(20),
            Au::from_px(20),
            Au::from_px(20),
            ChildPageBreaks {
                before: true,
                after: false,
                inside_avoid: false,
            },
        ),
        BlockBoundaryPlacement::NewPage {
            block_origin: Au::from_px(120),
        }
    );
    assert_eq!(
        builder.place_child(
            2,
            Some(30),
            Au::from_px(140),
            Au::from_px(20),
            Au::from_px(20),
            ChildPageBreaks {
                before: true,
                after: true,
                inside_avoid: false,
            },
        ),
        BlockBoundaryPlacement::NewPage {
            block_origin: Au::from_px(240),
        }
    );

    let outcome = builder.finish();
    assert_eq!(outcome.page_count, 3);
    assert_eq!(
        outcome.continuations,
        vec![
            PageContinuation {
                page_index: 0,
                token: FragmentainerContinuation::Block(BlockContinuationToken {
                    next_child_index: 1,
                    next_node: Some(20),
                    forced: true,
                    break_inside_avoid: false,
                    retry_count: 0,
                    resume_page_index: 1,
                }),
            },
            PageContinuation {
                page_index: 1,
                token: FragmentainerContinuation::Block(BlockContinuationToken {
                    next_child_index: 2,
                    next_node: Some(30),
                    forced: true,
                    break_inside_avoid: false,
                    retry_count: 0,
                    resume_page_index: 2,
                }),
            },
        ]
    );
    assert_eq!(
        PageSequenceContext { definition: page() }
            .page_sequence(outcome)
            .debug_snapshot()
            .continuations,
        vec![
            LayoutDebugPageContinuation {
                page_index: 0,
                token: LayoutDebugContinuation::Block {
                    next_child_index: 1,
                    next_node: Some(20),
                    forced: true,
                    break_inside_avoid: false,
                    retry_count: 0,
                    resume_page_index: 1,
                },
            },
            LayoutDebugPageContinuation {
                page_index: 1,
                token: LayoutDebugContinuation::Block {
                    next_child_index: 2,
                    next_node: Some(30),
                    forced: true,
                    break_inside_avoid: false,
                    retry_count: 0,
                    resume_page_index: 2,
                },
            },
        ]
    );
}

#[test]
fn break_inside_avoid_moves_a_fitting_child_once() {
    let mut builder = BlockPageBuilder::new(BlockPaginationRequest {
        available_block_size: Au::from_px(100),
        page_stride: Au::from_px(120),
    });
    assert_eq!(
        builder.place_child(
            0,
            Some(10),
            Au::zero(),
            Au::from_px(80),
            Au::from_px(80),
            ChildPageBreaks::default(),
        ),
        BlockBoundaryPlacement::CurrentPage
    );
    assert_eq!(
        builder.place_child(
            1,
            Some(20),
            Au::from_px(80),
            Au::from_px(40),
            Au::from_px(40),
            ChildPageBreaks {
                inside_avoid: true,
                ..Default::default()
            },
        ),
        BlockBoundaryPlacement::NewPage {
            block_origin: Au::from_px(120),
        }
    );

    let snapshot = PageSequenceContext { definition: page() }
        .page_sequence(builder.finish())
        .debug_snapshot();
    assert!(snapshot.warnings.is_empty());
    assert_eq!(snapshot.pages.len(), 2);
    assert_eq!(
        snapshot.continuations,
        vec![LayoutDebugPageContinuation {
            page_index: 0,
            token: LayoutDebugContinuation::Block {
                next_child_index: 1,
                next_node: Some(20),
                forced: false,
                break_inside_avoid: true,
                retry_count: 1,
                resume_page_index: 1,
            },
        }]
    );
}

#[test]
fn oversized_break_inside_avoid_fragments_without_retrying() {
    let lines = (0..3)
        .map(|line_index| InlineLine {
            block_start: Au::from_px(line_index as i32 * 40),
            block_size: Au::from_px(40),
            source_start: line_index * 4,
            source_end: line_index * 4 + 4,
            resume: InlineResumePoint {
                inline_item_index: 0,
                text_offset: line_index * 4,
                shaping_result_index: line_index,
            },
        })
        .collect::<Vec<_>>();
    let mut builder = BlockPageBuilder::new(BlockPaginationRequest {
        available_block_size: Au::from_px(100),
        page_stride: Au::from_px(120),
    });
    let placement = builder
        .place_inline_child(
            0,
            Some(10),
            Au::zero(),
            &lines,
            ChildPageBreaks {
                inside_avoid: true,
                ..Default::default()
            },
        )
        .unwrap();
    assert_eq!(
        placement.line_translations,
        vec![Au::zero(), Au::zero(), Au::from_px(40)]
    );

    let snapshot = PageSequenceContext { definition: page() }
        .page_sequence(builder.finish())
        .debug_snapshot();
    assert_eq!(snapshot.pages.len(), 2);
    assert_eq!(
        snapshot.warnings,
        vec![LayoutDebugPageWarning::OversizedBreakInsideAvoid {
            child_index: 0,
            node: Some(10),
            block_size: Au::from_px(120),
            available_block_size: Au::from_px(100),
            retry_count: 0,
        }]
    );
    assert!(matches!(
        snapshot.continuations.as_slice(),
        [LayoutDebugPageContinuation {
            token: LayoutDebugContinuation::Inline { .. },
            ..
        }]
    ));
}

#[test]
fn a_forced_break_moves_retained_inline_lines_as_one_child() {
    let mut builder = BlockPageBuilder::new(BlockPaginationRequest {
        available_block_size: Au::from_px(100),
        page_stride: Au::from_px(120),
    });
    assert_eq!(
        builder.place_child(
            0,
            Some(10),
            Au::zero(),
            Au::from_px(20),
            Au::from_px(20),
            ChildPageBreaks {
                before: false,
                after: true,
                inside_avoid: false,
            },
        ),
        BlockBoundaryPlacement::CurrentPage
    );
    let lines = [
        InlineLine {
            block_start: Au::from_px(20),
            block_size: Au::from_px(20),
            source_start: 0,
            source_end: 4,
            resume: InlineResumePoint {
                inline_item_index: 0,
                text_offset: 0,
                shaping_result_index: 0,
            },
        },
        InlineLine {
            block_start: Au::from_px(40),
            block_size: Au::from_px(20),
            source_start: 4,
            source_end: 8,
            resume: InlineResumePoint {
                inline_item_index: 0,
                text_offset: 4,
                shaping_result_index: 1,
            },
        },
    ];
    let placement = builder
        .place_inline_child(
            1,
            Some(20),
            Au::from_px(20),
            &lines,
            ChildPageBreaks {
                before: true,
                after: false,
                inside_avoid: false,
            },
        )
        .unwrap();
    assert_eq!(
        placement.line_translations,
        vec![Au::from_px(100), Au::from_px(100)]
    );
    let outcome = builder.finish();
    assert_eq!(outcome.page_count, 2);
    assert_eq!(
        outcome.continuations,
        vec![PageContinuation {
            page_index: 0,
            token: FragmentainerContinuation::Block(BlockContinuationToken {
                next_child_index: 1,
                next_node: Some(20),
                forced: true,
                break_inside_avoid: false,
                retry_count: 0,
                resume_page_index: 1,
            }),
        }]
    );
}

#[test]
fn paragraph_lines_continue_without_text_loss_or_duplicate_progress() {
    let source = "abcdefghijklmnopqrst";
    let lines = (0..5)
        .map(|line_index| InlineLine {
            block_start: Au::from_px(line_index as i32 * 40),
            block_size: Au::from_px(40),
            source_start: line_index * 4,
            source_end: line_index * 4 + 4,
            resume: InlineResumePoint {
                inline_item_index: 3,
                text_offset: line_index * 4,
                shaping_result_index: line_index,
            },
        })
        .collect::<Vec<_>>();
    let mut builder = BlockPageBuilder::new(BlockPaginationRequest {
        available_block_size: Au::from_px(100),
        page_stride: Au::from_px(120),
    });

    let placement = builder
        .place_inline_child(0, Some(10), Au::zero(), &lines, ChildPageBreaks::default())
        .unwrap();
    assert_eq!(
        placement.line_translations,
        vec![
            Au::from_px(0),
            Au::from_px(0),
            Au::from_px(40),
            Au::from_px(40),
            Au::from_px(80),
        ]
    );
    assert_eq!(placement.added_block_size, Au::from_px(80));
    assert_eq!(placement.line_translations.len(), lines.len());
    assert_eq!(
        lines
            .iter()
            .map(|line| &source[line.source_start..line.source_end])
            .collect::<String>(),
        source
    );

    let outcome = builder.finish();
    assert_eq!(outcome.page_count, 3);
    assert_eq!(
        outcome.continuations,
        vec![
            PageContinuation {
                page_index: 0,
                token: FragmentainerContinuation::Inline(InlineContinuationToken {
                    child_index: 0,
                    next_line_index: 2,
                    inline_item_index: 3,
                    text_offset: 8,
                    shaping_result_index: 2,
                    resume_page_index: 1,
                }),
            },
            PageContinuation {
                page_index: 1,
                token: FragmentainerContinuation::Inline(InlineContinuationToken {
                    child_index: 0,
                    next_line_index: 4,
                    inline_item_index: 3,
                    text_offset: 16,
                    shaping_result_index: 4,
                    resume_page_index: 2,
                }),
            },
        ]
    );
    assert_eq!(
        PageSequenceContext { definition: page() }
            .page_sequence(outcome)
            .debug_snapshot()
            .continuations,
        vec![
            LayoutDebugPageContinuation {
                page_index: 0,
                token: LayoutDebugContinuation::Inline {
                    child_index: 0,
                    next_line_index: 2,
                    inline_item_index: 3,
                    text_offset: 8,
                    shaping_result_index: 2,
                    resume_page_index: 1,
                },
            },
            LayoutDebugPageContinuation {
                page_index: 1,
                token: LayoutDebugContinuation::Inline {
                    child_index: 0,
                    next_line_index: 4,
                    inline_item_index: 3,
                    text_offset: 16,
                    shaping_result_index: 4,
                    resume_page_index: 2,
                },
            },
        ]
    );
}

#[test]
fn table_rows_continue_once_at_stable_row_boundaries() {
    let rows = (0..5)
        .map(|row_index| TableRow {
            row_index,
            row_group_index: Some(0),
            cell_count: 2,
            has_rowspan: false,
            block_start: Au::from_px(row_index as i32 * 40),
            block_size: Au::from_px(40),
            breaks: ChildPageBreaks::default(),
        })
        .collect::<Vec<_>>();
    let row_groups = [TableRowGroup {
        tag_id: None,
        row_group_index: 0,
        first_row_index: 0,
        end_row_index: rows.len(),
        block_start: Au::zero(),
        block_size: Au::from_px(200),
        kind: TableRowGroupKind::Body,
        breaks: ChildPageBreaks::default(),
    }];
    let mut builder = BlockPageBuilder::new(BlockPaginationRequest {
        available_block_size: Au::from_px(100),
        page_stride: Au::from_px(120),
    });

    let placement = placed(
        builder.place_table_child(
            0,
            Some(10),
            Au::zero(),
            Au::from_px(200),
            &rows,
            &row_groups,
            &[],
            ChildPageBreaks::default(),
        ),
        "basic retained rows should paginate",
    );
    assert_eq!(
        placement.row_translations,
        vec![
            Au::zero(),
            Au::zero(),
            Au::from_px(40),
            Au::from_px(40),
            Au::from_px(80),
        ]
    );
    assert_eq!(placement.added_block_size, Au::from_px(80));

    let outcome = builder.finish();
    assert_eq!(outcome.page_count, 3);
    assert_eq!(
        outcome.continuations,
        vec![
            PageContinuation {
                page_index: 0,
                token: FragmentainerContinuation::Table(TableContinuationToken {
                    child_index: 0,
                    table_node: Some(10),
                    row_group_index: Some(0),
                    next_row_index: 2,
                    resume_page_index: 1,
                }),
            },
            PageContinuation {
                page_index: 1,
                token: FragmentainerContinuation::Table(TableContinuationToken {
                    child_index: 0,
                    table_node: Some(10),
                    row_group_index: Some(0),
                    next_row_index: 4,
                    resume_page_index: 2,
                }),
            },
        ]
    );
    assert_eq!(
        outcome
            .table_breaks
            .iter()
            .map(|decision| (decision.next_row_index, decision.selected))
            .collect::<Vec<_>>(),
        vec![(1, false), (2, true), (3, false), (4, true)]
    );
    let snapshot = PageSequenceContext { definition: page() }
        .page_sequence(outcome)
        .debug_snapshot();
    assert_eq!(
        snapshot
            .table_breaks
            .iter()
            .filter(|decision| decision.selected)
            .map(|decision| decision.next_row_index)
            .collect::<Vec<_>>(),
        vec![2, 4]
    );
}

#[test]
fn oversized_avoided_row_group_warns_once_and_propagates_break_after() {
    let rows = (0..2)
        .map(|row_index| TableRow {
            row_index,
            row_group_index: Some(0),
            cell_count: 1,
            has_rowspan: false,
            block_start: Au::from_px(row_index as i32 * 60),
            block_size: Au::from_px(60),
            breaks: ChildPageBreaks::default(),
        })
        .collect::<Vec<_>>();
    let row_groups = [TableRowGroup {
        tag_id: None,
        row_group_index: 0,
        first_row_index: 0,
        end_row_index: rows.len(),
        block_start: Au::zero(),
        block_size: Au::from_px(120),
        kind: TableRowGroupKind::Body,
        breaks: ChildPageBreaks {
            after: true,
            inside_avoid: true,
            ..Default::default()
        },
    }];
    let mut builder = BlockPageBuilder::new(BlockPaginationRequest {
        available_block_size: Au::from_px(100),
        page_stride: Au::from_px(120),
    });

    let placement = placed(
        builder.place_table_child(
            0,
            Some(10),
            Au::zero(),
            Au::from_px(120),
            &rows,
            &row_groups,
            &[],
            ChildPageBreaks::default(),
        ),
        "an oversized avoided row group falls back to row pagination",
    );
    assert_eq!(
        placement.row_translations,
        vec![Au::zero(), Au::from_px(60)]
    );
    assert_eq!(
        builder.place_child(
            1,
            Some(20),
            Au::from_px(180),
            Au::from_px(20),
            Au::from_px(20),
            ChildPageBreaks::default(),
        ),
        BlockBoundaryPlacement::NewPage {
            block_origin: Au::from_px(240),
        }
    );

    assert_eq!(
        builder.finish().warnings,
        vec![
            BlockPaginationWarning::OversizedTableRowGroupBreakInsideAvoid {
                child_index: 0,
                table_node: Some(10),
                row_group_index: 0,
                block_size: Au::from_px(120),
                available_block_size: Au::from_px(100),
                retry_count: 0,
                retry_limit: TABLE_ROW_RETRY_LIMIT,
            },
        ]
    );
}

#[test]
fn unsupported_table_rows_leave_the_child_boundary_unclaimed() {
    let mut builder = BlockPageBuilder::new(BlockPaginationRequest {
        available_block_size: Au::from_px(100),
        page_stride: Au::from_px(120),
    });
    let invalid_rows = [
        TableRow {
            row_index: 0,
            row_group_index: None,
            cell_count: 2,
            has_rowspan: false,
            block_start: Au::zero(),
            block_size: Au::from_px(40),
            breaks: ChildPageBreaks::default(),
        },
        TableRow {
            row_index: 2,
            row_group_index: None,
            cell_count: 2,
            has_rowspan: false,
            block_start: Au::from_px(40),
            block_size: Au::from_px(40),
            breaks: ChildPageBreaks::default(),
        },
    ];
    assert_eq!(
        builder.place_table_child(
            0,
            Some(10),
            Au::zero(),
            Au::from_px(80),
            &invalid_rows,
            &[],
            &[],
            ChildPageBreaks::default(),
        ),
        TableChildPlacementOutcome::Unsupported
    );
    assert_eq!(
        builder.place_child(
            0,
            Some(10),
            Au::zero(),
            Au::from_px(80),
            Au::from_px(80),
            ChildPageBreaks::default(),
        ),
        BlockBoundaryPlacement::CurrentPage
    );
}

#[test]
fn unsupported_table_caption_pagination_is_a_typed_warning() {
    let mut builder = BlockPageBuilder::new(BlockPaginationRequest {
        available_block_size: Au::from_px(100),
        page_stride: Au::from_px(120),
    });
    builder.warn_unsupported_table_caption_pagination(0, Some(20));
    assert_eq!(
        builder.place_child(
            0,
            Some(20),
            Au::zero(),
            Au::from_px(80),
            Au::from_px(80),
            ChildPageBreaks::default(),
        ),
        BlockBoundaryPlacement::CurrentPage
    );

    let snapshot = PageSequenceContext { definition: page() }
        .page_sequence(builder.finish())
        .debug_snapshot();
    assert_eq!(
        snapshot.warnings,
        vec![LayoutDebugPageWarning::UnsupportedTableCaptionPagination {
            child_index: 0,
            node: Some(20),
        }]
    );
}

#[test]
fn oversized_row_retains_per_cell_progress_on_the_stable_grid() {
    let rows = [TableRow {
        row_index: 0,
        row_group_index: Some(0),
        cell_count: 2,
        has_rowspan: false,
        block_start: Au::from_px(30),
        block_size: Au::from_px(120),
        breaks: ChildPageBreaks::default(),
    }];
    let row_groups = [TableRowGroup {
        tag_id: None,
        row_group_index: 0,
        first_row_index: 0,
        end_row_index: 1,
        block_start: Au::from_px(30),
        block_size: Au::from_px(120),
        kind: TableRowGroupKind::Body,
        breaks: ChildPageBreaks::default(),
    }];
    let fragments = [
        TableCellFragment {
            row_index: 0,
            cell_index: 0,
            fragment_index: 0,
            block_start: Au::from_px(30),
            block_size: Au::from_px(40),
        },
        TableCellFragment {
            row_index: 0,
            cell_index: 0,
            fragment_index: 1,
            block_start: Au::from_px(70),
            block_size: Au::from_px(40),
        },
        TableCellFragment {
            row_index: 0,
            cell_index: 0,
            fragment_index: 2,
            block_start: Au::from_px(110),
            block_size: Au::from_px(40),
        },
        TableCellFragment {
            row_index: 0,
            cell_index: 1,
            fragment_index: 0,
            block_start: Au::from_px(30),
            block_size: Au::from_px(30),
        },
        TableCellFragment {
            row_index: 0,
            cell_index: 1,
            fragment_index: 1,
            block_start: Au::from_px(60),
            block_size: Au::from_px(30),
        },
        TableCellFragment {
            row_index: 0,
            cell_index: 1,
            fragment_index: 2,
            block_start: Au::from_px(90),
            block_size: Au::from_px(30),
        },
    ];
    let mut builder = BlockPageBuilder::new(BlockPaginationRequest {
        available_block_size: Au::from_px(100),
        page_stride: Au::from_px(120),
    });

    let placement = placed(
        builder.place_table_child(
            0,
            Some(10),
            Au::from_px(30),
            Au::from_px(120),
            &rows,
            &row_groups,
            &fragments,
            ChildPageBreaks::default(),
        ),
        "breakable cell fragments must make progress",
    );
    assert_eq!(placement.row_translations, vec![Au::zero()]);
    assert_eq!(placement.row_block_extensions, vec![Au::from_px(50)]);
    assert_eq!(
        placement.cell_fragment_translations,
        vec![
            Au::zero(),
            Au::from_px(50),
            Au::from_px(50),
            Au::zero(),
            Au::zero(),
            Au::from_px(30),
        ]
    );
    assert_eq!(placement.added_block_size, Au::from_px(50));

    let snapshot = PageSequenceContext { definition: page() }
        .page_sequence(builder.finish())
        .debug_snapshot();
    assert_eq!(snapshot.pages.len(), 2);
    assert_eq!(snapshot.table_cell_continuations.len(), 2);
    assert_eq!(
        snapshot
            .table_cell_continuations
            .iter()
            .map(|resume| (resume.cell_index, resume.next_fragment_index))
            .collect::<Vec<_>>(),
        vec![(0, Some(1)), (1, Some(2))]
    );
}

#[test]
fn oversized_atomic_cell_warns_once_and_claims_the_table() {
    let rows = [TableRow {
        row_index: 0,
        row_group_index: None,
        cell_count: 1,
        has_rowspan: false,
        block_start: Au::zero(),
        block_size: Au::from_px(140),
        breaks: ChildPageBreaks::default(),
    }];
    let fragments = [TableCellFragment {
        row_index: 0,
        cell_index: 0,
        fragment_index: 0,
        block_start: Au::zero(),
        block_size: Au::from_px(140),
    }];
    let mut builder = BlockPageBuilder::new(BlockPaginationRequest {
        available_block_size: Au::from_px(100),
        page_stride: Au::from_px(120),
    });

    let placement = placed(
        builder.place_table_child(
            0,
            Some(10),
            Au::zero(),
            Au::from_px(140),
            &rows,
            &[],
            &fragments,
            ChildPageBreaks::default(),
        ),
        "an unbreakable cell is retained with a typed warning",
    );
    assert_eq!(placement.added_block_size, Au::zero());
    let outcome = builder.finish();
    assert_eq!(outcome.warnings.len(), 1);
    assert_eq!(
        outcome.warnings[0],
        BlockPaginationWarning::OversizedTableCell {
            child_index: 0,
            table_node: Some(10),
            row_index: 0,
            cell_index: 0,
            fragment_index: 0,
            block_size: Au::from_px(140),
            available_block_size: Au::from_px(100),
        }
    );
}

#[test]
fn fitting_wrapper_avoid_yields_to_forced_row_boundaries() {
    let rows = [
        TableRow {
            row_index: 0,
            row_group_index: Some(0),
            cell_count: 1,
            has_rowspan: false,
            block_start: Au::zero(),
            block_size: Au::from_px(40),
            breaks: ChildPageBreaks::default(),
        },
        TableRow {
            row_index: 1,
            row_group_index: Some(0),
            cell_count: 1,
            has_rowspan: false,
            block_start: Au::from_px(40),
            block_size: Au::from_px(40),
            breaks: ChildPageBreaks {
                before: true,
                after: true,
                inside_avoid: false,
            },
        },
    ];
    let row_groups = [TableRowGroup {
        tag_id: None,
        row_group_index: 0,
        first_row_index: 0,
        end_row_index: rows.len(),
        block_start: Au::zero(),
        block_size: Au::from_px(80),
        kind: TableRowGroupKind::Body,
        breaks: ChildPageBreaks::default(),
    }];
    let mut builder = short_table_page_builder();

    let placement = placed(
        builder.place_table_child(
            0,
            Some(10),
            Au::zero(),
            Au::from_px(80),
            &rows,
            &row_groups,
            &[],
            ChildPageBreaks {
                inside_avoid: true,
                ..Default::default()
            },
        ),
        "forced row breaks must outrank a fitting wrapper avoid",
    );
    assert_eq!(
        placement.row_translations,
        vec![Au::zero(), Au::from_px(80)]
    );
    assert_eq!(
        builder.place_child(
            1,
            Some(20),
            Au::from_px(160),
            Au::from_px(20),
            Au::from_px(20),
            ChildPageBreaks::default(),
        ),
        BlockBoundaryPlacement::NewPage {
            block_origin: Au::from_px(240),
        }
    );

    let outcome = builder.finish();
    assert_eq!(
        outcome
            .table_breaks
            .iter()
            .map(|decision| (decision.constraint, decision.selected))
            .collect::<Vec<_>>(),
        vec![(LayoutDebugTableConstraint::ForcedBefore, true)]
    );
    assert!(outcome.warnings.is_empty());
}

#[test]
fn fitting_wrapper_avoid_explicitly_yields_the_whole_child() {
    let rows = [
        TableRow {
            row_index: 0,
            row_group_index: Some(0),
            cell_count: 1,
            has_rowspan: false,
            block_start: Au::zero(),
            block_size: Au::from_px(40),
            breaks: ChildPageBreaks::default(),
        },
        TableRow {
            row_index: 1,
            row_group_index: Some(0),
            cell_count: 1,
            has_rowspan: false,
            block_start: Au::from_px(40),
            block_size: Au::from_px(40),
            breaks: ChildPageBreaks::default(),
        },
    ];
    let row_groups = [TableRowGroup {
        tag_id: None,
        row_group_index: 0,
        first_row_index: 0,
        end_row_index: rows.len(),
        block_start: Au::zero(),
        block_size: Au::from_px(80),
        kind: TableRowGroupKind::Body,
        breaks: ChildPageBreaks::default(),
    }];
    let mut builder = short_table_page_builder();

    assert_eq!(
        builder.place_table_child(
            0,
            Some(10),
            Au::zero(),
            Au::from_px(80),
            &rows,
            &row_groups,
            &[],
            ChildPageBreaks {
                inside_avoid: true,
                ..Default::default()
            },
        ),
        TableChildPlacementOutcome::WholeChild
    );
    assert_eq!(
        builder.place_child(
            0,
            Some(10),
            Au::zero(),
            Au::from_px(80),
            Au::from_px(80),
            ChildPageBreaks {
                inside_avoid: true,
                ..Default::default()
            },
        ),
        BlockBoundaryPlacement::CurrentPage
    );
    assert!(builder.finish().warnings.is_empty());
}

#[test]
fn header_reduced_oversized_row_without_fragment_progress_is_unsupported() {
    let (rows, row_groups) = header_body_table(90);
    let fragments = [TableCellFragment {
        row_index: 1,
        cell_index: 0,
        fragment_index: 0,
        block_start: Au::from_px(20),
        block_size: Au::from_px(10),
    }];
    let mut builder = short_table_page_builder();

    assert_eq!(
        builder.place_table_child(
            0,
            Some(10),
            Au::zero(),
            Au::from_px(110),
            &rows,
            &row_groups,
            &fragments,
            ChildPageBreaks::default(),
        ),
        TableChildPlacementOutcome::Unsupported
    );
    assert_eq!(
        builder.finish().warnings,
        vec![BlockPaginationWarning::UnsupportedTableGroupPagination {
            child_index: 0,
            table_node: Some(10),
            reason: TableGroupUnsupportedReason::UnsupportedLayout,
        },]
    );
}

#[test]
fn natural_cell_page_advance_reserves_the_repeated_header() {
    let (rows, row_groups) = header_body_table(140);
    let fragments = [
        TableCellFragment {
            row_index: 1,
            cell_index: 0,
            fragment_index: 0,
            block_start: Au::from_px(20),
            block_size: Au::from_px(20),
        },
        TableCellFragment {
            row_index: 1,
            cell_index: 0,
            fragment_index: 1,
            block_start: Au::from_px(120),
            block_size: Au::from_px(20),
        },
    ];
    let mut builder = short_table_page_builder();

    let placement = placed(
        builder.place_table_child(
            0,
            Some(10),
            Au::zero(),
            Au::from_px(160),
            &rows,
            &row_groups,
            &fragments,
            ChildPageBreaks::default(),
        ),
        "retained fragments cross the header-reduced body capacity",
    );
    assert_eq!(
        placement.cell_fragment_translations,
        vec![Au::zero(), Au::from_px(20)]
    );
    assert_eq!(
        placement.row_block_extensions,
        vec![Au::zero(), Au::from_px(20)]
    );

    let outcome = builder.finish();
    assert_eq!(
        outcome.table_group_repeats,
        vec![TableGroupRepeatDecision {
            page_index: 1,
            table_node: Some(10),
            header_tag_id: 11,
            row_group_index: 0,
            source_block_start: Au::zero(),
            target_block_start: Au::from_px(120),
            block_size: Au::from_px(20),
        }]
    );
    assert!(outcome.warnings.is_empty());
}

#[test]
fn outer_unsupported_container_prevents_a_nested_claim() {
    let mut controller = BlockPaginationController::new();
    controller.begin(page());
    assert!(controller.claim(1, true, false).is_none());
    assert!(controller.claim(3, false, false).is_none());
    assert!(controller.claim(3, true, false).is_none());
    assert_eq!(controller.finish().page_count, 0);
}

#[test]
fn a_single_wrapper_passes_the_paged_root_to_a_fragmentable_child() {
    let mut controller = BlockPaginationController::new();
    controller.begin(page());
    assert!(controller.claim(1, true, false).is_none());
    assert!(controller.claim(1, true, true).is_some());
}

#[test]
fn fixed_subtrees_cannot_claim_or_extend_the_final_page_count() {
    let mut controller = BlockPaginationController::new();
    assert_eq!(controller.fixed_page_layout(), None);
    controller.begin(page());
    let stride = page().size.height;
    assert_eq!(controller.fixed_page_layout(), Some((1, stride)));
    assert!(controller.claim(12, true, false).is_none());
    assert_eq!(controller.finish().page_count, 0);

    controller.begin(page());
    assert!(controller.claim(12, true, false).is_some());
    controller.complete(BlockPaginationOutcome {
        page_count: 12,
        ..Default::default()
    });
    assert_eq!(controller.fixed_page_layout(), Some((12, stride)));
    assert_eq!(controller.fixed_page_layout(), Some((12, stride)));
    assert!(controller.claim(100, true, false).is_none());
    assert_eq!(controller.finish().page_count, 12);
    assert_eq!(controller.fixed_page_layout(), None);
}

#[test]
fn out_of_flow_placeholders_preserve_breaks_and_source_child_indices() {
    let mut builder = BlockPageBuilder::new(BlockPaginationRequest {
        available_block_size: Au::from_px(100),
        page_stride: Au::from_px(120),
    });
    builder.skip_out_of_flow_child(0);
    assert_eq!(
        builder.place_child(
            1,
            Some(10),
            Au::zero(),
            Au::from_px(20),
            Au::from_px(20),
            ChildPageBreaks {
                after: true,
                ..Default::default()
            },
        ),
        BlockBoundaryPlacement::CurrentPage
    );
    builder.skip_out_of_flow_child(2);
    assert_eq!(
        builder.place_child(
            3,
            Some(20),
            Au::from_px(20),
            Au::from_px(20),
            Au::from_px(20),
            ChildPageBreaks::default(),
        ),
        BlockBoundaryPlacement::NewPage {
            block_origin: Au::from_px(120),
        }
    );
    builder.skip_out_of_flow_child(4);
    let outcome = builder.finish();
    assert_eq!(outcome.page_count, 2);
    assert!(outcome.warnings.is_empty());
    assert!(matches!(
        outcome.continuations[0].token,
        FragmentainerContinuation::Block(BlockContinuationToken {
            next_child_index: 3,
            ..
        })
    ));
}

#[test]
fn oversized_unbreakable_child_warns_and_next_child_still_advances() {
    let mut builder = BlockPageBuilder::new(BlockPaginationRequest {
        available_block_size: Au::from_px(100),
        page_stride: Au::from_px(120),
    });
    assert_eq!(
        builder.place_child(
            0,
            Some(10),
            Au::from_px(0),
            Au::from_px(150),
            Au::from_px(150),
            ChildPageBreaks::default(),
        ),
        BlockBoundaryPlacement::CurrentPage
    );
    assert_eq!(
        builder.place_child(
            1,
            Some(20),
            Au::from_px(150),
            Au::from_px(10),
            Au::from_px(10),
            ChildPageBreaks::default(),
        ),
        BlockBoundaryPlacement::NewPage {
            block_origin: Au::from_px(240),
        }
    );

    let outcome = builder.finish();
    assert_eq!(outcome.page_count, 3);
    assert!(matches!(
        outcome.continuations[0].token,
        FragmentainerContinuation::Block(BlockContinuationToken {
            next_child_index: 1,
            resume_page_index: 2,
            ..
        })
    ));
    assert_eq!(
        outcome.warnings,
        vec![BlockPaginationWarning::OversizedUnbreakable {
            child_index: 0,
            node: Some(10),
            block_size: Au::from_px(150),
            available_block_size: Au::from_px(100),
        }]
    );
    assert_eq!(
        PageSequenceContext { definition: page() }
            .page_sequence(outcome)
            .debug_snapshot()
            .warnings,
        vec![LayoutDebugPageWarning::OversizedUnbreakable {
            child_index: 0,
            node: Some(10),
            block_size: Au::from_px(150),
            available_block_size: Au::from_px(100),
        }]
    );
}

#[test]
fn invalid_or_consumed_page_geometry_is_rejected() {
    let zero = margins_of(0.0, 0.0, 0.0, 0.0);
    assert_eq!(
        page_of(f32::NAN, 792.0, zero),
        Err(PageGeometryError::InvalidPageSize)
    );
    assert_eq!(
        page_of(612.0, 792.0, margins_of(-0.0, 0.0, 0.0, 0.0)),
        Err(PageGeometryError::InvalidPageMargin)
    );
    let infinite_margin = margins_of(0.0, f32::INFINITY, 0.0, 0.0);
    assert_eq!(
        page_of(612.0, 792.0, infinite_margin),
        Err(PageGeometryError::InvalidPageMargin)
    );
    assert_eq!(
        page_of(100.0, 100.0, margins_of(50.0, 0.0, 50.0, 0.0)),
        Err(PageGeometryError::MarginsConsumePage)
    );
    assert_eq!(
        page_of(100.0, 100.0, margins_of(0.0, 75.0, 0.0, 25.0)),
        Err(PageGeometryError::MarginsConsumePage)
    );
}
