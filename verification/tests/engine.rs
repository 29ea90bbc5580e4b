use raster_canvas::canvas::{Canvas, CanvasError};
use raster_canvas::chunks::RasterChunk;
use raster_canvas::layer::{RasterLayer, RasterLayerAction};
use raster_canvas::pixels::Pixel;
use raster_canvas::position::{CanvasPosition, CanvasRect, Dimensions, PixelPosition};
use raster_canvas::view::CanvasView;

fn rendered_pixel(chunk: &RasterChunk, x: usize, y: usize) -> Pixel {
    chunk.pixels()[y * chunk.width() + x]
}

#[test]
fn pixel_byte_round_trip_exact() {
    let cases: [(u8, u8, u8, u8); 5] = [
        (0, 0, 0, 0),
        (255, 255, 255, 255),
        (12, 34, 56, 78),
        (1, 0, 255, 128),
        (200, 100, 50, 25),
    ];
    for (r, g, b, a) in cases {
        let p = Pixel::new_rgba(r, g, b, a);
        assert_eq!(p.as_rgba(), (r, g, b, a));
    }
}

#[test]
fn pixel_rgb_is_fully_opaque() {
    let p = Pixel::new_rgb(10, 20, 30);
    assert_eq!(p.as_rgba(), (10, 20, 30, 255));
}

#[test]
fn pixel_packed_layout() {
    assert_eq!(Pixel::new_rgba(1, 2, 3, 4).0, 0x0102_0304);
    assert_eq!(Pixel::new_rgba(0, 0, 0, 0).0, 0);
}

#[test]
fn chunk_from_pixels_checks_count() {
    let dims = Dimensions { width: 2, height: 2 };
    assert!(RasterChunk::from_pixels(vec![Pixel(1); 3], dims).is_none());
    let chunk = RasterChunk::from_pixels(vec![Pixel(7); 4], dims).unwrap();
    assert_eq!(chunk.width(), 2);
    assert_eq!(chunk.height(), 2);
    assert_eq!(chunk.pixels().len(), 4);
    assert_eq!(chunk.get_pixel(1, 1), Pixel(7));
}

#[test]
fn chunk_image_data_flattens_rgba() {
    let dims = Dimensions { width: 2, height: 1 };
    let chunk = RasterChunk::from_pixels(
        vec![Pixel::new_rgba(1, 2, 3, 4), Pixel::new_rgba(5, 6, 7, 8)],
        dims,
    )
    .unwrap();
    assert_eq!(chunk.image_data(), vec![1, 2, 3, 4, 5, 6, 7, 8]);
}

#[test]
fn fill_rect_idempotent() {
    let paint = Pixel::new_rgb(9, 9, 9);
    let action = RasterLayerAction::fill_rect(CanvasRect::new(1, 2, 5, 4), paint);
    let query = CanvasRect::new(0, 0, 10, 10);

    let mut canvas = Canvas::new();
    canvas.add_layer(RasterLayer::new(8));
    assert_eq!(canvas.perform_raster_action(0, action), Ok(Some(action.target())));
    let once = canvas.render_canvas_rect(query).pixels().clone();
    assert_eq!(canvas.perform_raster_action(0, action), Ok(Some(action.target())));
    let twice = canvas.render_canvas_rect(query).pixels().clone();
    assert_eq!(once, twice);
}

#[test]
fn fill_rect_containment() {
    let paint = Pixel::new_rgb(1, 2, 3);
    let rect = CanvasRect::new(1, 1, 4, 3);
    let mut canvas = Canvas::new();
    canvas.add_layer(RasterLayer::new(8));
    canvas.perform_raster_action(0, RasterLayerAction::fill_rect(rect, paint)).unwrap();

    let inside = canvas.render_canvas_rect(rect);
    for p in inside.pixels() {
        assert_eq!(*p, paint);
    }

    let around = canvas.render_canvas_rect(CanvasRect::new(0, 0, 8, 8));
    for y in 0..8usize {
        for x in 0..8usize {
            let expected = if (1..5).contains(&(x as i64)) && (1..4).contains(&(y as i64)) {
                paint
            } else {
                Pixel(0)
            };
            assert_eq!(rendered_pixel(&around, x, y), expected, "at ({x},{y})");
        }
    }
}

#[test]
fn fill_oval_boundary_mask() {
    // For the 4x4 rectangle the inclusion rule reduces to dx^2 + dy^2 <= 16
    // with dx, dy in {-3, -1, 1, 3}: the four corner centers fall outside,
    // every other center falls inside.
    let expected_mask: [[u8; 4]; 4] = [
        [0, 1, 1, 0],
        [1, 1, 1, 1],
        [1, 1, 1, 1],
        [0, 1, 1, 0],
    ];
    let paint = Pixel::new_rgb(4, 4, 4);
    let rect = CanvasRect::new(0, 0, 4, 4);
    let mut canvas = Canvas::new();
    canvas.add_layer(RasterLayer::new(8));
    canvas.perform_raster_action(0, RasterLayerAction::fill_oval(rect, paint)).unwrap();
    let out = canvas.render_canvas_rect(rect);
    for y in 0..4usize {
        for x in 0..4usize {
            let expected = if expected_mask[y][x] == 1 { paint } else { Pixel(0) };
            assert_eq!(rendered_pixel(&out, x, y), expected, "at ({x},{y})");
        }
    }
}

#[test]
fn fill_rect_across_chunk_boundary() {
    let paint = Pixel::new_rgb(200, 10, 10);
    let rect = CanvasRect::new(500, 500, 20, 20);
    let mut canvas = Canvas::new();
    canvas.add_layer(RasterLayer::new(512));
    canvas.perform_raster_action(0, RasterLayerAction::fill_rect(rect, paint)).unwrap();
    let out = canvas.render_canvas_rect(CanvasRect::new(490, 490, 40, 40));
    // The composited pixels must match a reference single-block fill: the
    // chunk grid at 512 must not show through in any way.
    for y in 0..40usize {
        for x in 0..40usize {
            let cx = 490 + x as i64;
            let cy = 490 + y as i64;
            let expected = if (500..520).contains(&cx) && (500..520).contains(&cy) {
                paint
            } else {
                Pixel(0)
            };
            assert_eq!(rendered_pixel(&out, x, y), expected, "at ({cx},{cy})");
        }
    }
}

#[test]
fn layering_upper_fill_wins_inside_lower_shows_elsewhere() {
    let a = Pixel::new_rgb(10, 0, 0);
    let b = Pixel::new_rgb(0, 10, 0);
    let region = CanvasRect::new(0, 0, 6, 6);
    let sub_region = CanvasRect::new(2, 2, 2, 2);
    let mut canvas = Canvas::new();
    canvas.add_layer(RasterLayer::new(8));
    canvas.add_layer(RasterLayer::new(8));
    canvas.perform_raster_action(0, RasterLayerAction::fill_rect(region, a)).unwrap();
    canvas.perform_raster_action(1, RasterLayerAction::fill_rect(sub_region, b)).unwrap();
    let out = canvas.render_canvas_rect(region);
    for y in 0..6usize {
        for x in 0..6usize {
            let expected = if (2..4).contains(&x) && (2..4).contains(&y) { b } else { a };
            assert_eq!(rendered_pixel(&out, x, y), expected, "at ({x},{y})");
        }
    }
}

#[test]
fn degenerate_fill_touches_nothing() {
    let paint = Pixel::new_rgb(1, 1, 1);
    let mut canvas = Canvas::new();
    canvas.add_layer(RasterLayer::new(8));
    let r = canvas.perform_raster_action(
        0,
        RasterLayerAction::fill_rect(CanvasRect::new(3, 3, 0, 5), paint),
    );
    assert_eq!(r, Ok(None));
    let out = canvas.render_canvas_rect(CanvasRect::new(0, 0, 8, 8));
    for p in out.pixels() {
        assert_eq!(*p, Pixel(0));
    }
}

#[test]
fn out_of_range_layer_index_is_reported() {
    let paint = Pixel::new_rgb(1, 1, 1);
    let action = RasterLayerAction::fill_rect(CanvasRect::new(0, 0, 2, 2), paint);
    let mut canvas = Canvas::new();
    assert_eq!(canvas.perform_raster_action(0, action), Err(CanvasError::LayerIndexOutOfBounds));
    canvas.add_layer(RasterLayer::new(8));
    assert_eq!(
        canvas.perform_raster_action(1, action),
        Err(CanvasError::LayerIndexOutOfBounds)
    );
    assert_eq!(canvas.layer_count(), 1);
    assert_eq!(canvas.perform_raster_action(0, action), Ok(Some(action.target())));
}

#[test]
fn view_transform_round_trip() {
    let mut view = CanvasView::new(10, 8);
    view.translate(5, -3);
    for (x, y) in [(0usize, 0usize), (2, 3), (9, 7)] {
        let c = view.transform_view_to_canvas(PixelPosition { x, y });
        assert_eq!(c, CanvasPosition { x: 5 + x as i64, y: -3 + y as i64 });
        assert_eq!(view.transform_canvas_to_view(c), Some(PixelPosition { x, y }));
    }
    assert_eq!(view.transform_canvas_to_view(CanvasPosition { x: 4, y: 0 }), None);
    assert_eq!(view.transform_canvas_to_view(CanvasPosition { x: 15, y: 0 }), None);
    assert_eq!(view.transform_canvas_to_view(CanvasPosition { x: 5, y: 5 }), None);
}

#[test]
fn pin_resize_keeps_proportional_anchor() {
    let mut view = CanvasView::new(100, 100);
    view.translate(50, 50);
    view.pin_resize_canvas(Dimensions { width: 200, height: 200 });
    assert_eq!(view.anchor_x(), 100);
    assert_eq!(view.anchor_y(), 100);
    assert_eq!(view.canvas_width(), 200);
    assert_eq!(view.canvas_height(), 200);
    assert_eq!(view.view_width(), 100);

    let mut shrunk = CanvasView::new(100, 100);
    shrunk.translate(-50, 30);
    shrunk.pin_resize_canvas(Dimensions { width: 50, height: 10 });
    assert_eq!(shrunk.anchor_x(), -25);
    assert_eq!(shrunk.anchor_y(), 3);
}

#[test]
fn pin_resize_with_vanished_extent_keeps_anchor() {
    let mut view = CanvasView::new(4, 4);
    view.translate(7, 9);
    view.resize_canvas_source(0, 0);
    view.pin_resize_canvas(Dimensions { width: 12, height: 12 });
    assert_eq!(view.anchor_x(), 7);
    assert_eq!(view.anchor_y(), 9);
}

#[test]
fn view_mutators_touch_only_their_fields() {
    let mut view = CanvasView::new(30, 20);
    view.resize_view(60, 40);
    assert_eq!(view.view_width(), 60);
    assert_eq!(view.view_height(), 40);
    assert_eq!(view.canvas_width(), 30);
    assert_eq!(view.canvas_height(), 20);
    view.resize_canvas_source(300, 200);
    assert_eq!(view.canvas_width(), 300);
    assert_eq!(view.canvas_height(), 200);
    assert_eq!(view.view_width(), 60);
    assert_eq!(view.anchor_x(), 0);
    assert_eq!(view.anchor_y(), 0);
}

#[test]
fn canvas_rect_clips_to_view_rect() {
    let mut view = CanvasView::new(10, 10);
    view.translate(5, 5);

    let overlapping = CanvasRect::new(3, 3, 4, 4);
    let clipped = overlapping.to_view_rect(&view).unwrap();
    assert_eq!(clipped.top_left(), PixelPosition { x: 0, y: 0 });
    assert_eq!(clipped.width(), 2);
    assert_eq!(clipped.height(), 2);

    let inner = CanvasRect::new(6, 7, 2, 3);
    let inner_clipped = inner.to_view_rect(&view).unwrap();
    assert_eq!(inner_clipped.top_left(), PixelPosition { x: 1, y: 2 });
    assert_eq!(inner_clipped.width(), 2);
    assert_eq!(inner_clipped.height(), 3);

    assert!(CanvasRect::new(0, 0, 5, 5).to_view_rect(&view).is_none());
    assert!(CanvasRect::new(15, 15, 3, 3).to_view_rect(&view).is_none());
    assert!(CanvasRect::new(7, 7, 0, 4).to_view_rect(&view).is_none());
}

#[test]
fn render_via_view_matches_explicit_rect() {
    let paint = Pixel::new_rgb(77, 0, 77);
    let mut canvas = Canvas::new();
    canvas.add_layer(RasterLayer::new(8));
    canvas
        .perform_raster_action(
            0,
            RasterLayerAction::fill_rect(CanvasRect::new(-2, -2, 6, 6), paint),
        )
        .unwrap();
    let mut view = CanvasView::new(5, 5);
    view.translate(-3, -3);
    let via_view = canvas.render(&view);
    let via_rect = canvas.render_canvas_rect(CanvasRect::new(-3, -3, 5, 5));
    assert_eq!(via_view.pixels(), via_rect.pixels());
    assert_eq!(via_view.width(), 5);
    assert_eq!(via_view.height(), 5);
    assert_eq!(rendered_pixel(&via_view, 0, 0), Pixel(0));
    assert_eq!(rendered_pixel(&via_view, 1, 1), paint);
}

#[test]
fn empty_canvas_renders_default_pixels() {
    let canvas = Canvas::new();
    let out = canvas.render_canvas_rect(CanvasRect::new(-5, -5, 10, 10));
    assert_eq!(out.pixels().len(), 100);
    for p in out.pixels() {
        assert_eq!(*p, Pixel(0));
    }
}

#[test]
fn fill_oval_across_chunk_boundary() {
    // An oval spanning four chunks must show the same mask as the same oval
    // far from any chunk boundary.
    let paint = Pixel::new_rgb(3, 30, 3);
    let near = CanvasRect::new(6, 6, 5, 4);
    let far = CanvasRect::new(100, 100, 5, 4);
    let mut canvas = Canvas::new();
    canvas.add_layer(RasterLayer::new(8));
    canvas.add_layer(RasterLayer::new(8));
    canvas.perform_raster_action(0, RasterLayerAction::fill_oval(near, paint)).unwrap();
    canvas.perform_raster_action(1, RasterLayerAction::fill_oval(far, paint)).unwrap();
    let near_out = canvas.render_canvas_rect(near);
    let far_out = canvas.render_canvas_rect(far);
    assert_eq!(near_out.pixels(), far_out.pixels());
}

#[test]
fn negative_coordinates_store_and_render() {
    let paint = Pixel::new_rgba(5, 6, 7, 8);
    let rect = CanvasRect::new(-10, -10, 4, 4);
    let mut canvas = Canvas::new();
    canvas.add_layer(RasterLayer::new(8));
    canvas.perform_raster_action(0, RasterLayerAction::fill_rect(rect, paint)).unwrap();
    let out = canvas.render_canvas_rect(CanvasRect::new(-12, -12, 8, 8));
    for y in 0..8usize {
        for x in 0..8usize {
            let cx = -12 + x as i64;
            let cy = -12 + y as i64;
            let expected = if (-10..-6).contains(&cx) && (-10..-6).contains(&cy) {
                paint
            } else {
                Pixel(0)
            };
            assert_eq!(rendered_pixel(&out, x, y), expected, "at ({cx},{cy})");
        }
    }
}

#[test]
fn rect_and_chunk_accessors() {
    let rect = CanvasRect::new(-7, 3, 11, 13);
    assert_eq!(rect.width(), 11);
    assert_eq!(rect.height(), 13);
    assert_eq!(rect.top_left(), CanvasPosition { x: -7, y: 3 });

    let layer = RasterLayer::new(512);
    assert_eq!(layer.chunk_size(), 512);

    let dims = Dimensions { width: 3, height: 2 };
    let chunk = RasterChunk::from_pixels(vec![Pixel(9); 6], dims).unwrap();
    assert_eq!(chunk.dimensions(), dims);
}
