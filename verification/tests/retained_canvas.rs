use pliego_core::retained_canvas::{
    associate_image_key, canvas_size, finish_canvas, mark_unsupported, recreate_canvas,
    register_canvas, retain_fill_rect, retain_pixel_readback, retention_budget_exceeded,
    snapshot_for_image_key, start_retaining_canvas_commands,
    start_retaining_canvas_commands_for_testing, start_retaining_canvas_commands_with_limits,
    stop_retaining_canvas_commands, CanvasId, CanvasRetention, CanvasTransform, FillOrStrokeStyle,
    FillRectRequest, FilledRect, ImageKey, Registry, RetainedCanvasCommand,
    RetainedCanvasFallbackReason, RetainedCanvasSnapshot, RetainedCanvasUnsupportedReason,
    MAX_RETAINED_COMMANDS, MAX_RETAINED_OBJECTS, MAX_RETAINED_RASTER_BYTES,
};

fn bits(value: f64) -> u64 {
    value.to_bits()
}

fn identity() -> CanvasTransform {
    CanvasTransform {
        m11: bits(1.0),
        m12: bits(0.0),
        m21: bits(0.0),
        m22: bits(1.0),
        m31: bits(0.0),
        m32: bits(0.0),
    }
}

fn plain_request(width: f32, height: f32) -> FillRectRequest {
    FillRectRequest {
        draws_shadow: false,
        transform: identity(),
        alpha: bits(1.0),
        source_over: true,
        style: FillOrStrokeStyle::Color,
        width: width.to_bits(),
        height: height.to_bits(),
    }
}

fn filled(x: f64, y: f64, width: f64, height: f64) -> FilledRect {
    FilledRect {
        x: bits(x),
        y: bits(y),
        width: bits(width),
        height: bits(height),
        red: bits(0.0),
        green: bits(0.0),
        blue: bits(0.0),
        alpha: bits(1.0),
    }
}

fn snapshot(width: u32, height: u32) -> RetainedCanvasSnapshot {
    RetainedCanvasSnapshot { width, height, commands: Vec::new(), unsupported: None }
}

#[test]
fn retains_only_while_the_capture_guard_is_live() {
    let mut retention = CanvasRetention::new();
    let key = ImageKey { namespace: 7, key: 11 };
    let second_key = ImageKey { namespace: 7, key: 13 };
    let guard = start_retaining_canvas_commands(&mut retention);
    register_canvas(&mut retention, CanvasId(3), 20, 10);
    associate_image_key(&mut retention, CanvasId(3), key);
    associate_image_key(&mut retention, CanvasId(3), second_key);
    retain_fill_rect(
        &mut retention,
        CanvasId(3),
        plain_request(4.0, 5.0),
        Some(filled(2.0, 3.0, 4.0, 5.0)),
    );
    let shown = snapshot_for_image_key(&retention, 7, 11).unwrap();
    assert_eq!((shown.width, shown.height), (20, 10));
    match shown.commands.as_slice() {
        [RetainedCanvasCommand::FillRect(rect)] => {
            assert_eq!(f64::from_bits(rect.x), 2.0);
            assert_eq!(f64::from_bits(rect.y), 3.0);
            assert_eq!(f64::from_bits(rect.width), 4.0);
            assert_eq!(f64::from_bits(rect.height), 5.0);
        },
        _ => panic!("one filled rectangle is retained"),
    }
    finish_canvas(&mut retention, CanvasId(3));
    assert!(retention.registry.canvases.is_empty());
    assert!(retention.registry.image_keys.is_empty());
    let first = snapshot_for_image_key(&retention, 7, 11).unwrap();
    let second = snapshot_for_image_key(&retention, 7, 13).unwrap();
    assert!(std::ptr::eq(first, second));
    assert_eq!(retention.registry.retained_object_count, 3);
    stop_retaining_canvas_commands(&mut retention, guard);
    assert!(snapshot_for_image_key(&retention, 7, 11).is_none());
}

#[test]
fn aggregate_budget_fails_before_crossing_across_canvases_and_readbacks() {
    let mut registry = Registry::new(3, 8, MAX_RETAINED_OBJECTS);
    for canvas_id in [CanvasId(20), CanvasId(21)] {
        registry.canvases.insert(canvas_id.0, snapshot(2, 2));
    }

    assert!(registry.reserve_command(CanvasId(20), 4, false));
    assert!(registry.reserve_command(CanvasId(20), 4, false));
    assert!(!registry.reserve_command(CanvasId(21), 4, false));
    assert_eq!(registry.retained_command_count, 2);
    assert_eq!(registry.retained_raster_bytes, 8);
    assert_eq!(
        registry.canvases[&21]
            .unsupported
            .as_ref()
            .map(|unsupported| unsupported.reason),
        Some(RetainedCanvasUnsupportedReason::RetentionBudget)
    );
    assert!(!registry.reserve_command(CanvasId(20), 0, false));
    assert_eq!(registry.retained_command_count, 2);

    let mut command_registry =
        Registry::new(2, MAX_RETAINED_RASTER_BYTES, MAX_RETAINED_OBJECTS);
    command_registry.canvases.insert(22, snapshot(2, 2));
    assert!(command_registry.reserve_command(CanvasId(22), 0, false));
    assert!(command_registry.reserve_command(CanvasId(22), 0, false));
    assert!(!command_registry.reserve_command(CanvasId(22), 0, false));
    assert_eq!(command_registry.retained_command_count, 2);
    assert_eq!(command_registry.retained_raster_bytes, 0);
}

#[test]
fn object_budget_rejects_canvas_and_image_key_insertions_before_crossing() {
    let mut retention = CanvasRetention::new();
    let _guard = start_retaining_canvas_commands_with_limits(&mut retention, 64, 64, 2);
    let first_key = ImageKey { namespace: 8, key: 1 };
    let rejected_key = ImageKey { namespace: 8, key: 2 };

    register_canvas(&mut retention, CanvasId(30), 2, 2);
    associate_image_key(&mut retention, CanvasId(30), first_key);
    associate_image_key(&mut retention, CanvasId(30), rejected_key);
    register_canvas(&mut retention, CanvasId(31), 2, 2);

    let registry = &retention.registry;
    assert_eq!(registry.retained_object_count, 2);
    assert_eq!(registry.canvases.len(), 1);
    assert_eq!(registry.image_keys.len(), 1);
    assert!(registry.image_keys.contains_key(&first_key.code()));
    assert!(!registry.image_keys.contains_key(&rejected_key.code()));
    assert!(retention_budget_exceeded(&retention));
}

#[test]
fn full_readback_replaces_unsupported_commands_with_authoritative_pixels() {
    let mut retention = CanvasRetention::new();
    let key = ImageKey { namespace: 7, key: 12 };
    let _guard = start_retaining_canvas_commands(&mut retention);
    register_canvas(&mut retention, CanvasId(4), 2, 2);
    associate_image_key(&mut retention, CanvasId(4), key);
    mark_unsupported(
        &mut retention,
        CanvasId(4),
        "fill_path",
        RetainedCanvasUnsupportedReason::UnsupportedCommand,
    );

    retain_pixel_readback(&mut retention, CanvasId(4), 0, 0, 2, 2, vec![255; 16]);

    let shown = snapshot_for_image_key(&retention, 7, 12).unwrap();
    assert!(shown.unsupported.is_none());
    assert_eq!(
        shown.commands,
        vec![RetainedCanvasCommand::RasterPatch {
            x: 0,
            y: 0,
            width: 2,
            height: 2,
            premultiplied_rgba: vec![255; 16],
            reason: RetainedCanvasFallbackReason::PixelReadback,
        }]
    );
}

#[test]
fn nothing_is_retained_before_retention_starts() {
    let mut retention = CanvasRetention::new();
    register_canvas(&mut retention, CanvasId(1), 2, 2);
    associate_image_key(&mut retention, CanvasId(1), ImageKey { namespace: 1, key: 1 });
    recreate_canvas(&mut retention, CanvasId(1), None);
    finish_canvas(&mut retention, CanvasId(1));
    retain_pixel_readback(&mut retention, CanvasId(1), 0, 0, 1, 1, vec![0; 4]);
    assert!(retention.registry.canvases.is_empty());
    assert!(!retention_budget_exceeded(&retention));
    assert_eq!(canvas_size(&retention, CanvasId(1)), None);
    assert_eq!(retention.registry.max_retained_commands, MAX_RETAINED_COMMANDS);
}

#[test]
fn each_kind_of_unsupported_fill_has_its_reason() {
    let plain = plain_request(1.0, 1.0);
    let cases = [
        (
            FillRectRequest { draws_shadow: true, ..plain },
            Some(RetainedCanvasUnsupportedReason::Shadow),
        ),
        (
            FillRectRequest {
                transform: CanvasTransform { m31: bits(1.0), ..identity() },
                ..plain
            },
            Some(RetainedCanvasUnsupportedReason::Transform),
        ),
        (
            FillRectRequest { alpha: bits(0.5), ..plain },
            Some(RetainedCanvasUnsupportedReason::Compositing),
        ),
        (
            FillRectRequest { source_over: false, ..plain },
            Some(RetainedCanvasUnsupportedReason::Compositing),
        ),
        (
            FillRectRequest { style: FillOrStrokeStyle::LinearGradient, ..plain },
            Some(RetainedCanvasUnsupportedReason::Paint),
        ),
        (
            FillRectRequest { width: (-1.0_f32).to_bits(), ..plain },
            Some(RetainedCanvasUnsupportedReason::Paint),
        ),
        (FillRectRequest { height: (-0.0_f32).to_bits(), ..plain }, None),
        (FillRectRequest { height: f32::NAN.to_bits(), ..plain }, None),
        (
            FillRectRequest {
                transform: CanvasTransform { m12: bits(-0.0), ..identity() },
                ..plain
            },
            None,
        ),
        (plain, None),
    ];
    for (request, expected) in cases {
        assert_eq!(request.unsupported(), expected);
        let mut retention = CanvasRetention::new();
        let _guard = start_retaining_canvas_commands(&mut retention);
        register_canvas(&mut retention, CanvasId(1), 2, 2);
        retain_fill_rect(
            &mut retention,
            CanvasId(1),
            request,
            Some(filled(0.0, 0.0, 1.0, 1.0)),
        );
        let canvas = &retention.registry.canvases[&1];
        assert_eq!(canvas.unsupported.map(|unsupported| unsupported.reason), expected);
        assert_eq!(canvas.commands.len(), if expected.is_none() { 1 } else { 0 });
    }
}

#[test]
fn what_lies_outside_the_canvas_costs_nothing() {
    let mut retention = CanvasRetention::new();
    let _guard = start_retaining_canvas_commands(&mut retention);
    register_canvas(&mut retention, CanvasId(1), 2, 3);
    assert_eq!(canvas_size(&retention, CanvasId(1)), Some((2, 3)));
    retain_fill_rect(&mut retention, CanvasId(1), plain_request(1.0, 1.0), None);
    assert_eq!(retention.registry.retained_command_count, 0);
}

#[test]
fn large_readbacks_are_unsupported() {
    for (width, height) in [(16_385, 1), (1, 16_385), (10_001, 10_000), (8_192, 8_193)] {
        let mut retention = CanvasRetention::new();
        let _guard = start_retaining_canvas_commands(&mut retention);
        register_canvas(&mut retention, CanvasId(1), 2, 2);
        retain_pixel_readback(&mut retention, CanvasId(1), 0, 0, width, height, Vec::new());
        let canvas = &retention.registry.canvases[&1];
        assert_eq!(
            canvas.unsupported.map(|unsupported| (unsupported.command, unsupported.reason)),
            Some(("get_image_data", RetainedCanvasUnsupportedReason::RasterLimit))
        );
        assert!(!retention_budget_exceeded(&retention));
    }
}

#[test]
fn a_partial_readback_does_not_repair_an_unsupported_canvas() {
    let mut retention = CanvasRetention::new();
    let _guard = start_retaining_canvas_commands(&mut retention);
    register_canvas(&mut retention, CanvasId(1), 2, 2);
    retain_pixel_readback(&mut retention, CanvasId(1), 1, 0, 1, 1, vec![9; 4]);
    assert_eq!(retention.registry.canvases[&1].commands.len(), 1);
    mark_unsupported(
        &mut retention,
        CanvasId(1),
        "clip",
        RetainedCanvasUnsupportedReason::Clip,
    );
    mark_unsupported(
        &mut retention,
        CanvasId(1),
        "later",
        RetainedCanvasUnsupportedReason::Paint,
    );
    retain_pixel_readback(&mut retention, CanvasId(1), 1, 0, 1, 1, vec![9; 4]);
    let canvas = &retention.registry.canvases[&1];
    assert_eq!(canvas.commands.len(), 1);
    assert_eq!(canvas.unsupported.map(|unsupported| unsupported.command), Some("clip"));
}

#[test]
fn charges_are_not_refunded() {
    let mut retention = CanvasRetention::new();
    let _guard = start_retaining_canvas_commands_for_testing(&mut retention, 8, 8, 8);
    register_canvas(&mut retention, CanvasId(1), 1, 1);
    retain_pixel_readback(&mut retention, CanvasId(1), 0, 0, 1, 1, vec![1; 4]);
    retain_pixel_readback(&mut retention, CanvasId(1), 0, 0, 1, 1, vec![2; 4]);
    assert_eq!(retention.registry.retained_raster_bytes, 8);
    recreate_canvas(&mut retention, CanvasId(1), Some((1, 1)));
    assert_eq!(retention.registry.retained_raster_bytes, 8);
    assert_eq!(retention.registry.canvases[&1].commands.len(), 0);
    retain_pixel_readback(&mut retention, CanvasId(1), 0, 0, 1, 1, vec![3; 4]);
    assert!(retention_budget_exceeded(&retention));
    assert_eq!(
        retention.registry.canvases[&1]
            .unsupported
            .map(|unsupported| unsupported.reason),
        Some(RetainedCanvasUnsupportedReason::RetentionBudget)
    );
}

#[test]
fn sizes_that_do_not_fit_are_left_out_or_unsupported() {
    let mut retention = CanvasRetention::new();
    let _guard = start_retaining_canvas_commands(&mut retention);
    register_canvas(&mut retention, CanvasId(1), u64::from(u32::MAX) + 1, 1);
    assert!(retention.registry.canvases.is_empty());
    register_canvas(&mut retention, CanvasId(1), 1, 1);
    recreate_canvas(&mut retention, CanvasId(1), Some((1, u64::from(u32::MAX) + 1)));
    assert_eq!(
        retention.registry.canvases[&1]
            .unsupported
            .map(|unsupported| (unsupported.command, unsupported.reason)),
        Some(("recreate", RetainedCanvasUnsupportedReason::RasterLimit))
    );
    recreate_canvas(&mut retention, CanvasId(1), None);
    assert!(retention.registry.canvases[&1].unsupported.is_none());
}

#[test]
fn a_finished_image_key_can_show_another_canvas() {
    let mut retention = CanvasRetention::new();
    let _guard = start_retaining_canvas_commands(&mut retention);
    let key = ImageKey { namespace: 1, key: 2 };
    register_canvas(&mut retention, CanvasId(1), 1, 1);
    associate_image_key(&mut retention, CanvasId(1), key);
    finish_canvas(&mut retention, CanvasId(1));
    register_canvas(&mut retention, CanvasId(2), 5, 5);
    associate_image_key(&mut retention, CanvasId(2), key);
    assert_eq!(retention.registry.retained_object_count, 3);
    assert_eq!(
        snapshot_for_image_key(&retention, 1, 2).map(|snapshot| snapshot.width),
        Some(5)
    );
}
