use pliego_core::au::Au;
use pliego_core::ids::NodeId;
use pliego_core::table::borders::{
    BorderStyle, BorderStyleColor, CollapsedBorder, PhysicalVec, SpecificTableGridInfo, SrgbColor,
};
use pliego_core::table::{
    BaseFragmentInfo, IndependentFormattingContext, LayoutBoxBase, StyleId, Table, TableCaption,
    TableLevelBox, TableSlot, TableSlotCell, TableSlotCoordinates, TableSlotOffset, TableTrack,
    TableTrackGroup, TableTrackGroupType, TrackRange,
};

fn color(red: f32, alpha: f32) -> SrgbColor {
    SrgbColor {
        red: red.to_bits(),
        green: 0.0_f32.to_bits(),
        blue: 0.0_f32.to_bits(),
        alpha: alpha.to_bits(),
        missing_components: 0,
    }
}

fn border(width: i32, red: f32) -> CollapsedBorder {
    CollapsedBorder {
        style_color: BorderStyleColor::new(BorderStyle::Solid, color(red, 1.0)),
        width: Au::from_px(width),
    }
}

fn one_cell_grid(border: CollapsedBorder) -> SpecificTableGridInfo {
    SpecificTableGridInfo {
        collapsed_borders: PhysicalVec {
            x: vec![vec![border], vec![border]],
            y: vec![vec![border], vec![border]],
        },
        track_sizes: PhysicalVec { x: vec![Au::from_px(10)], y: vec![Au::from_px(10)] },
    }
}

fn invisible_borders() -> [CollapsedBorder; 4] {
    let mut none = border(3, 0.5);
    none.style_color.style = BorderStyle::Absent;
    let mut hidden = border(3, 0.5);
    hidden.style_color.style = BorderStyle::Hidden;
    let transparent = CollapsedBorder {
        style_color: BorderStyleColor::new(BorderStyle::Dashed, color(0.5, 0.0)),
        width: Au::from_px(4),
    };
    [border(0, 0.5), none, hidden, transparent]
}

fn horizontal_grid() -> SpecificTableGridInfo {
    SpecificTableGridInfo {
        collapsed_borders: PhysicalVec {
            x: vec![vec![border(0, 0.0); 2]; 3],
            y: vec![
                vec![border(0, 0.0); 2],
                vec![border(2, 0.5); 2],
                vec![border(1, 0.75); 2],
            ],
        },
        track_sizes: PhysicalVec { x: vec![Au::from_px(10); 2], y: vec![Au::from_px(10); 2] },
    }
}

#[test]
fn accepts_full_width_horizontal_rules_with_distinct_header_and_body_values() {
    let info = horizontal_grid();
    assert!(info.has_solid_horizontal_borders());
    assert!(!info.has_no_visible_borders());
    assert!(info.uniform_solid_visible_border().is_none());
}

#[test]
fn accepts_entirely_invisible_horizontal_boundaries_without_paint() {
    for invisible in invisible_borders() {
        let mut info = horizontal_grid();
        info.collapsed_borders.y[0][0] = invisible;
        assert!(info.has_solid_horizontal_borders());
    }
    let mut info = horizontal_grid();
    for line in &mut info.collapsed_borders.y {
        line.fill(border(0, 0.0));
    }
    assert!(!info.has_solid_horizontal_borders());
    assert!(info.has_no_visible_borders());
}

#[test]
fn horizontal_rules_reject_visible_or_nonzero_invisible_vertical_edges() {
    let mut info = horizontal_grid();
    info.collapsed_borders.x[1][0] = border(1, 0.5);
    assert!(!info.has_solid_horizontal_borders());
    for invisible in invisible_borders().into_iter().skip(1) {
        info.collapsed_borders.x[1][0] = invisible;
        assert!(!info.has_solid_horizontal_borders());
    }
}

#[test]
fn horizontal_rules_reject_dashed_partial_and_nonuniform_lines() {
    let mut info = horizontal_grid();
    info.collapsed_borders.y[1][0].style_color.style = BorderStyle::Dashed;
    assert!(!info.has_solid_horizontal_borders());
    for invisible in invisible_borders() {
        for column in 0..2 {
            let mut info = horizontal_grid();
            info.collapsed_borders.y[1][column] = invisible;
            assert!(!info.has_solid_horizontal_borders());
        }
    }
    for different in [border(1, 0.5), border(2, 0.75)] {
        let mut info = horizontal_grid();
        info.collapsed_borders.y[1][1] = different;
        assert!(!info.has_solid_horizontal_borders());
    }
}

#[test]
fn horizontal_rules_reject_negative_widths_and_empty_edges() {
    for horizontal in [false, true] {
        let mut info = horizontal_grid();
        if horizontal {
            info.collapsed_borders.y[0][0].width = Au(-1);
        } else {
            info.collapsed_borders.x[0][0].width = Au(-1);
        }
        assert!(!info.has_solid_horizontal_borders());
    }
    let mut info = horizontal_grid();
    info.collapsed_borders.x.clear();
    assert!(!info.has_solid_horizontal_borders());
    let mut info = horizontal_grid();
    info.collapsed_borders.y[1].clear();
    assert!(!info.has_solid_horizontal_borders());
}

#[test]
fn accepts_only_entirely_invisible_resolved_borders() {
    for invisible in invisible_borders() {
        let info = one_cell_grid(invisible);
        assert!(info.has_no_visible_borders());
        assert!(info.uniform_solid_visible_border().is_none());
    }

    let [zero, none, hidden, transparent] = invisible_borders();
    let mut info = one_cell_grid(zero);
    info.collapsed_borders.x[1][0] = none;
    info.collapsed_borders.y[0][0] = hidden;
    info.collapsed_borders.y[1][0] = transparent;
    assert!(info.has_no_visible_borders());
    assert!(info.uniform_solid_visible_border().is_none());
}

#[test]
fn rejects_mixed_visible_and_invisible_resolved_borders() {
    assert!(!one_cell_grid(border(2, 0.5)).has_no_visible_borders());
    for invisible in invisible_borders() {
        let mut info = one_cell_grid(border(2, 0.5));
        info.collapsed_borders.y[1][0] = invisible;
        assert!(!info.has_no_visible_borders());
        assert!(info.uniform_solid_visible_border().is_none());
    }
}

#[test]
fn invisible_borders_do_not_accept_negative_widths_or_empty_edges() {
    for mut invisible in invisible_borders() {
        invisible.width = Au(-1);
        assert!(!one_cell_grid(invisible).has_no_visible_borders());
    }
    let mut empty = one_cell_grid(border(0, 0.5));
    empty.collapsed_borders.x.clear();
    empty.collapsed_borders.y.clear();
    assert!(!empty.has_no_visible_borders());
    assert!(empty.uniform_solid_visible_border().is_none());
}

#[test]
fn requires_one_resolved_collapsed_border_value() {
    let uniform = border(2, 0.5);
    let mut info = SpecificTableGridInfo {
        collapsed_borders: PhysicalVec {
            x: vec![vec![uniform], vec![uniform]],
            y: vec![vec![uniform], vec![uniform]],
        },
        track_sizes: PhysicalVec { x: vec![Au::from_px(10)], y: vec![Au::from_px(10)] },
    };
    assert_eq!(info.uniform_solid_visible_border(), Some(&uniform));

    info.collapsed_borders.y[1][0] = border(3, 0.5);
    assert!(info.uniform_solid_visible_border().is_none());
    info.collapsed_borders.y[1][0] = border(2, 0.75);
    assert!(info.uniform_solid_visible_border().is_none());
}

#[test]
fn colors_compare_as_numbers_do() {
    assert!(color(0.0, 1.0).equals(color(-0.0, 1.0)));
    assert!(!color(f32::NAN, 1.0).equals(color(f32::NAN, 1.0)));
    assert!(!color(0.25, 1.0).equals(color(0.5, 1.0)));
    let mut missing = color(0.0, 1.0);
    missing.missing_components = 1;
    assert!(!missing.equals(color(0.0, 1.0)));
    // What is not a number is neither above zero nor at most zero.
    let strange = CollapsedBorder {
        style_color: BorderStyleColor::new(BorderStyle::Solid, color(0.5, f32::NAN)),
        width: Au::from_px(1),
    };
    assert!(!strange.is_invisible());
    assert!(!strange.is_solid_visible());
    let negative = CollapsedBorder {
        style_color: BorderStyleColor::new(BorderStyle::Solid, color(0.5, -1.0)),
        width: Au::from_px(1),
    };
    assert!(negative.is_invisible());
}

#[test]
fn a_single_border_serves_for_its_grid_whatever_its_color_compares_to() {
    let mut lone = one_cell_grid(CollapsedBorder {
        style_color: BorderStyleColor::new(BorderStyle::Solid, color(f32::NAN, 1.0)),
        width: Au::from_px(1),
    });
    assert!(lone.uniform_solid_visible_border().is_none());
    lone.collapsed_borders.x = vec![vec![], vec![lone.collapsed_borders.x[0][0]]];
    lone.collapsed_borders.y.clear();
    assert!(lone.uniform_solid_visible_border().is_some());
    assert!(!lone.has_solid_horizontal_borders());
}

fn style() -> BaseFragmentInfo {
    BaseFragmentInfo { tag: Some(NodeId(1)) }
}

#[test]
fn spanned_slots_lead_back_to_their_cell() {
    let mut table = Table::new(StyleId(1), StyleId(2), style(), true);
    table.slots = vec![
        vec![
            TableSlot::Cell(TableSlotCell::mock_for_testing(11, 2, 2)),
            TableSlot::new_spanned(TableSlotOffset { x: 1, y: 0 }),
        ],
        vec![
            TableSlot::new_spanned(TableSlotOffset { x: 0, y: 1 }),
            TableSlot::new_spanned(TableSlotOffset { x: 1, y: 1 }),
            TableSlot::Empty,
            TableSlot::Cell(TableSlotCell::mock_for_testing(12, 1, 1)),
        ],
    ];
    let at = |x: usize, y: usize| TableSlotCoordinates { x, y };
    for coords in [at(0, 0), at(1, 0), at(0, 1), at(1, 1)] {
        assert_eq!(table.resolve_first_cell_coords(coords), Some(at(0, 0)));
        assert_eq!(table.resolve_first_cell(coords).map(TableSlotCell::node_id), Some(11));
    }
    assert_eq!(table.resolve_first_cell(at(3, 1)).map(TableSlotCell::node_id), Some(12));
    assert!(table.resolve_first_cell_coords(at(2, 1)).is_none());
    assert!(table.resolve_first_cell(at(2, 0)).is_none());
    assert!(table.get_slot(at(0, 2)).is_none());
    assert!(matches!(table.get_slot(at(2, 1)), Some(TableSlot::Empty)));
    assert_eq!(table.subtree_size(), 2);
}

#[test]
fn an_anonymous_cell_has_node_zero() {
    let mut cell = TableSlotCell::mock_for_testing(11, 1, 1);
    cell.context.base.base_fragment_info.tag = None;
    assert_eq!(cell.node_id(), 0);
}

#[test]
fn repairing_a_style_reaches_what_draws_with_it() {
    let mut table = Table::new(StyleId(1), StyleId(2), style(), false);
    table.repair_style(StyleId(3), StyleId(4));
    assert_eq!((table.style, table.grid_style), (StyleId(3), StyleId(4)));

    let base = LayoutBoxBase { base_fragment_info: style(), style: StyleId(1) };
    let track = TableTrack {
        base,
        group_index: Some(2),
        is_anonymous: false,
        shared_background_style: StyleId(1),
    };
    let group = TableTrackGroup {
        base,
        group_type: TableTrackGroupType::RowGroup,
        track_range: TrackRange { start: 1, end: 3 },
        shared_background_style: StyleId(1),
    };
    assert!(!group.is_empty());
    assert!(TableTrackGroup { track_range: TrackRange { start: 3, end: 3 }, ..group }.is_empty());
    let context = IndependentFormattingContext { base, subtree_size: 1 };
    let parts = [
        TableLevelBox::Caption(TableCaption { context }),
        TableLevelBox::Cell(TableSlotCell { context, colspan: 1, rowspan: 1 }),
        TableLevelBox::TrackGroup(group),
        TableLevelBox::Track(track),
    ];
    let attached = [true, true, false, false];
    for (part, by_itself) in parts.into_iter().zip(attached) {
        let mut part = part;
        part.repair_style(StyleId(9));
        assert_eq!(part.with_base(|base| base.style), StyleId(9));
        assert_eq!(part.attaches_by_itself(), by_itself);
        part.with_base_mut().style = StyleId(9);
        match part {
            TableLevelBox::TrackGroup(group) => {
                assert_eq!(group.shared_background_style, StyleId(9));
            },
            TableLevelBox::Track(track) => {
                assert_eq!(track.shared_background_style, StyleId(9));
            },
            _ => {},
        }
    }
}
