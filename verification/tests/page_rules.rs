use pliego_core::au::Au;
use pliego_core::pages::flow::{
    BlockBoundaryPlacement, BlockPageBuilder, BlockPaginationRequest, BlockPaginationWarning,
    ChildPageBreaks, FragmentainerContinuation, TableGroupUnsupportedReason,
};
use pliego_core::pages::geometry::{
    PageConfigurationState, PageDefinition, PageGeometryError, ProcessPageConfiguration,
};
use pliego_core::pages::inline_flow::{InlineLine, InlineResumePoint};
use pliego_core::pages::table_flow::TableChildPlacementOutcome;
use pliego_core::pages::table_rules::{
    table_rowspan_ranges, RowRange, TableCellFragment, TableRow, TableRowGroup, TableRowGroupKind,
};

fn builder() -> BlockPageBuilder {
    BlockPageBuilder::new(BlockPaginationRequest {
        available_block_size: Au::from_px(100),
        page_stride: Au::from_px(120),
    })
}

fn definition(width: i32) -> PageDefinition {
    PageDefinition::from_app_units(width, 1000, [10; 4]).expect("the page has space")
}

#[test]
fn the_page_of_a_process_is_set_once() {
    let mut configuration = ProcessPageConfiguration::new();
    assert!(!configuration.has_paged_document_configuration());
    let first = configuration
        .reserve_for_process(definition(500))
        .expect("nobody has claimed the page");
    assert_eq!(
        configuration.reserve_for_process(definition(600)),
        Err(definition(600))
    );
    configuration.release(first);
    assert_eq!(configuration.state, PageConfigurationState::Available);
    let second = configuration
        .reserve_for_process(definition(600))
        .expect("the claim was given up");
    assert_eq!(configuration.commit(second), Ok(()));
    assert!(configuration.has_paged_document_configuration());
    assert_eq!(configuration.definition, Some(definition(600)));
    assert_eq!(
        configuration.configure_for_process(definition(700)),
        Err(definition(700))
    );
}

#[test]
fn each_fault_of_a_page_has_its_error_and_its_words() {
    assert_eq!(
        PageDefinition::from_app_units(0, 10, [0; 4]),
        Err(PageGeometryError::InvalidPageSize)
    );
    assert_eq!(
        PageDefinition::from_app_units(10, 10, [0, -1, 0, 0]),
        Err(PageGeometryError::InvalidPageMargin)
    );
    assert_eq!(
        PageDefinition::from_app_units(10, 10, [5, 0, 5, 0]),
        Err(PageGeometryError::MarginsConsumePage)
    );
    assert_eq!(
        PageGeometryError::InvalidPageSize.message(),
        "page width and height must be finite and positive"
    );
    assert_eq!(
        PageGeometryError::InvalidPageMargin.message(),
        "page margins must be finite and nonnegative"
    );
    assert_eq!(
        PageGeometryError::MarginsConsumePage.message(),
        "page margins must leave positive inline and block space"
    );
}

fn row(row_index: usize, block_start: i32, block_size: i32, has_rowspan: bool) -> TableRow {
    TableRow {
        row_index,
        row_group_index: None,
        cell_count: 1,
        has_rowspan,
        block_start: Au::from_px(block_start),
        block_size: Au::from_px(block_size),
        breaks: ChildPageBreaks::default(),
    }
}

fn group(
    kind: TableRowGroupKind,
    row_group_index: usize,
    rows: RowRange,
    block_start: i32,
    block_size: i32,
) -> TableRowGroup {
    TableRowGroup {
        tag_id: Some(row_group_index as u64),
        row_group_index,
        first_row_index: rows.start,
        end_row_index: rows.end,
        block_start: Au::from_px(block_start),
        block_size: Au::from_px(block_size),
        kind,
        breaks: ChildPageBreaks::default(),
    }
}

fn place(
    builder: &mut BlockPageBuilder,
    rows: &[TableRow],
    groups: &[TableRowGroup],
    fragments: &[TableCellFragment],
) -> TableChildPlacementOutcome {
    builder.place_table_child(
        0,
        Some(9),
        Au::zero(),
        Au::from_px(rows.len() as i32 * 40),
        rows,
        groups,
        fragments,
        ChildPageBreaks::default(),
    )
}

#[test]
fn adjacent_rows_with_a_rowspan_are_tied_together() {
    let rows = [
        row(0, 0, 40, true),
        row(1, 40, 40, true),
        row(2, 80, 40, false),
        row(3, 120, 40, true),
    ];
    assert_eq!(
        table_rowspan_ranges(&rows),
        vec![RowRange { start: 0, end: 2 }, RowRange { start: 3, end: 4 }]
    );
}

#[test]
fn rows_that_are_tied_together_but_do_not_fit_are_refused_with_their_size() {
    let rows = [row(0, 0, 40, true), row(1, 40, 40, true), row(2, 80, 40, true)];
    let mut pages = builder();
    let ranges = table_rowspan_ranges(&rows);
    assert_eq!(place(&mut pages, &rows, &[], &[]), TableChildPlacementOutcome::Unsupported);
    assert_eq!(
        pages.finish().warnings,
        vec![BlockPaginationWarning::UnsupportedTableRowspanPagination {
            child_index: 0,
            table_node: Some(9),
            first_row_index: ranges[0].start,
            end_row_index: ranges[0].end,
            block_size: Au::from_px(120),
            available_block_size: Au::from_px(100),
            forced_break_inside: false,
        }]
    );
}

#[test]
fn a_footer_must_fit_below_the_header() {
    let rows = [row(0, 0, 40, false), row(1, 40, 40, false), row(2, 80, 70, false)];
    let groups = [
        group(TableRowGroupKind::Header, 0, RowRange { start: 0, end: 1 }, 0, 40),
        group(TableRowGroupKind::Body, 1, RowRange { start: 1, end: 2 }, 40, 40),
        group(TableRowGroupKind::Footer, 2, RowRange { start: 2, end: 3 }, 80, 70),
    ];
    let rows = rows.map(|row| TableRow { row_group_index: Some(row.row_index), ..row });
    let mut pages = builder();
    assert_eq!(place(&mut pages, &rows, &groups, &[]), TableChildPlacementOutcome::Unsupported);
    assert_eq!(
        pages.finish().warnings,
        vec![BlockPaginationWarning::UnsupportedTableGroupPagination {
            child_index: 0,
            table_node: Some(9),
            reason: TableGroupUnsupportedReason::FooterTooTallAfterHeader,
        }]
    );
}

#[test]
fn a_header_is_repeated_where_its_table_goes_on() {
    let rows = [
        row(0, 0, 20, false),
        row(1, 20, 40, false),
        row(2, 60, 40, false),
        row(3, 100, 40, false),
    ];
    let rows = rows.map(|row| TableRow {
        row_group_index: Some(if row.row_index == 0 { 0 } else { 1 }),
        ..row
    });
    let groups = [
        group(TableRowGroupKind::Header, 0, RowRange { start: 0, end: 1 }, 0, 20),
        group(TableRowGroupKind::Body, 1, RowRange { start: 1, end: 4 }, 20, 120),
    ];
    let mut pages = builder();
    let TableChildPlacementOutcome::Placed(placement) = place(&mut pages, &rows, &groups, &[])
    else {
        panic!("the rows fit pages");
    };
    // The last row moves to the second page, below the repeated header.
    assert_eq!(
        placement.row_translations,
        vec![Au::zero(), Au::zero(), Au::zero(), Au::from_px(40)]
    );
    let outcome = pages.finish();
    assert_eq!(outcome.page_count, 2);
    assert_eq!(
        outcome
            .table_group_repeats
            .iter()
            .map(|repeat| (repeat.page_index, repeat.target_block_start))
            .collect::<Vec<_>>(),
        vec![(1, Au::from_px(120))]
    );
}

#[test]
fn lines_that_are_out_of_order_leave_the_child_whole() {
    let line = |block_start: i32, text_offset: usize| InlineLine {
        block_start: Au::from_px(block_start),
        block_size: Au::from_px(40),
        source_start: text_offset,
        source_end: text_offset + 1,
        resume: InlineResumePoint {
            inline_item_index: 0,
            text_offset,
            shaping_result_index: text_offset,
        },
    };
    let mut pages = builder();
    let lines = [line(0, 1), line(40, 0)];
    assert!(!pages.supports_inline_lines(&lines));
    assert!(pages
        .place_inline_child(0, None, Au::zero(), &lines, ChildPageBreaks::default())
        .is_none());
    assert_eq!(
        pages.place_child(
            0,
            None,
            Au::zero(),
            Au::from_px(80),
            Au::from_px(80),
            ChildPageBreaks::default()
        ),
        BlockBoundaryPlacement::CurrentPage
    );
}

#[test]
fn each_page_but_the_last_leaves_one_continuation() {
    let mut pages = builder();
    for child in 0..5 {
        let position = pages.current_page_origin;
        let placement = pages.place_child(
            child,
            Some(child as u64),
            if child == 0 { position } else { position.plus(Au::from_px(70)) },
            Au::from_px(70),
            Au::from_px(70),
            ChildPageBreaks::default(),
        );
        assert_eq!(matches!(placement, BlockBoundaryPlacement::NewPage { .. }), child > 0);
    }
    let outcome = pages.finish();
    assert_eq!(outcome.page_count, 5);
    for (index, continuation) in outcome.continuations.iter().enumerate() {
        assert_eq!(continuation.page_index, index);
        assert!(matches!(
            continuation.token,
            FragmentainerContinuation::Block(token) if token.next_child_index == index + 1
                && token.resume_page_index == index + 1
        ));
    }
}

#[test]
fn a_refused_table_is_placed_as_a_child() {
    let rows = [row(0, 0, 40, true), row(1, 40, 40, true), row(2, 80, 40, true)];
    let whole = |pages: &mut BlockPageBuilder| {
        pages.place_child(
            0,
            Some(9),
            Au::zero(),
            Au::from_px(120),
            Au::from_px(120),
            ChildPageBreaks::default(),
        )
    };
    let mut tried = builder();
    assert_eq!(place(&mut tried, &rows, &[], &[]), TableChildPlacementOutcome::Unsupported);
    let mut plain = builder();
    assert_eq!(whole(&mut tried), whole(&mut plain));
    let (tried, plain) = (tried.finish(), plain.finish());
    assert_eq!(tried.page_count, plain.page_count);
    assert_eq!(tried.continuations, plain.continuations);
    assert!(tried.table_breaks.is_empty() && tried.table_group_repeats.is_empty());
    assert_eq!(tried.warnings.len(), plain.warnings.len() + 1);
    assert_eq!(tried.warnings[1..], plain.warnings[..]);
}

#[test]
fn every_continuation_behind_the_header_repeats_it() {
    let rows: Vec<TableRow> = (0..6)
        .map(|index| TableRow {
            row_group_index: Some(usize::from(index > 0)),
            ..row(index, index as i32 * 40, 40, false)
        })
        .collect();
    let groups = [
        TableRowGroup {
            tag_id: Some(3),
            ..group(TableRowGroupKind::Header, 0, RowRange { start: 0, end: 1 }, 0, 40)
        },
        group(TableRowGroupKind::Body, 1, RowRange { start: 1, end: 6 }, 40, 200),
    ];
    let mut pages = builder();
    let TableChildPlacementOutcome::Placed(placement) = place(&mut pages, &rows, &groups, &[])
    else {
        panic!("the table can be divided");
    };
    assert!(placement.row_block_extensions.iter().all(|extension| extension.0 >= 0));
    assert!(placement.cell_fragment_translations.iter().all(|moved| moved.0 >= 0));
    let outcome = pages.finish();
    let resumed: Vec<usize> = outcome
        .continuations
        .iter()
        .map(|continuation| match continuation.token {
            FragmentainerContinuation::Table(token) => token.resume_page_index,
            _ => panic!("only the table is continued"),
        })
        .collect();
    let repeated: Vec<usize> =
        outcome.table_group_repeats.iter().map(|repeat| repeat.page_index).collect();
    assert_eq!(resumed, vec![1, 2, 3, 4]);
    assert_eq!(repeated, resumed);
    assert!(outcome.table_group_repeats.iter().all(|repeat| repeat.header_tag_id == 3));
}
