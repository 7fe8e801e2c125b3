use depict::asset::{Asset, Font, Image};
use depict::assets::Assets;
use depict::atlas::{Atlas, PackError, PackedRect};
use depict::bitmap::Bitmap;
use depict::color::Color;
use depict::fonts::{tint, Raster};
use depict::frame::{render_all, request_all, Context, ContextStep};
use depict::glyph::{Glyph, GlyphMetrics, TextRenderingData, UNASSIGNED};
use depict::id::IDFactory;
use depict::properties::{Align, Properties, Size};
use depict::renderable::{FrameError, Renderable};
use depict::renderer::{Renderer, Vertex, GLYPH_ATLAS, IMAGE_ATLAS, NO_TEXTURE};
use depict::shapes::{Background, Rectangle, Triangle};
use depict::text::{aligned, Text};

fn properties() -> Properties {
    Properties { size: Size::new(800, 600), scale_factor: 100 }
}

fn assets() -> Assets {
    Assets::new(Atlas::new(16, 64), Atlas::new(16, 64))
}

fn metrics() -> GlyphMetrics {
    GlyphMetrics { advance_width: 10, width: 8, height: 12, xmin: 1, ymin: -2 }
}

/// A raster of eight by twelve pixels; the character decides the coverage.
fn rasterize(glyph: &Glyph) -> Raster {
    let cover = (glyph.character as u32 % 200) as u8 + 1;
    Raster { metrics: metrics(), width: 8, height: 12, coverage: vec![cover; 96] }
}

/// What the host does between the request and the render phase.
fn resolve(assets: &mut Assets) -> (usize, Result<(), PackError>) {
    let mut calls = 0;
    while let Some((at, glyph)) = assets.fonts.next() {
        calls += 1;
        assets.fonts.supply(at, &rasterize(&glyph));
    }
    (calls, assets.resolve())
}

fn apart(a: &PackedRect, b: &PackedRect) -> bool {
    a.x + a.width <= b.x || b.x + b.width <= a.x || a.y + a.height <= b.y || b.y + b.height <= a.y
}

#[test]
fn four_glyphs_three_identities() {
    let mut ids = IDFactory::new();
    let text = Text::new(&mut ids, 100, 50, "abca".to_string(), Asset::<Font>::new(0));
    assert_eq!(text.size, 16);
    let scene = vec![text];
    let mut assets = assets();
    request_all(&scene, &mut assets, &properties());
    assert_eq!(assets.fonts.data.len(), 1);
    assert_eq!(assets.fonts.data[0].data.glyphs.len(), 4);
    assert!(assets.fonts.data[0].data.glyphs.iter().all(|g| g.image_id == UNASSIGNED));

    let (calls, packed) = resolve(&mut assets);
    assert_eq!(calls, 3);
    assert_eq!(packed, Ok(()));
    assert_eq!(assets.fonts.atlas.len(), 3);
    let run = &assets.fonts.data[0].data;
    assert!(run.resolved());
    assert_eq!(run.glyphs[0].image_id, run.glyphs[3].image_id);
    let rects: Vec<PackedRect> =
        assets.fonts.atlas.entries().iter().map(|e| e.placement().unwrap()).collect();
    for (i, a) in rects.iter().enumerate() {
        assert_eq!((a.width, a.height), (8, 12));
        assert!(a.x + a.width <= a.side && a.y + a.height <= a.side);
        for b in rects.iter().skip(i + 1) {
            assert!(apart(a, b));
        }
    }

    let mut renderer = Renderer::new();
    assert_eq!(render_all(&scene, &assets, &mut renderer, &properties(), false), Ok(()));
    assert_eq!(renderer.vertex_count(), 24);
    assert_eq!(renderer.index_data().len(), 24);
    let mut corners: Vec<(u32, u32)> =
        renderer.vertex_data().chunks(6).map(|quad| (quad[2].u, quad[2].v)).collect();
    assert_eq!(corners[0], corners[3]);
    corners.sort();
    corners.dedup();
    assert_eq!(corners.len(), 3);
    assert!(renderer.vertex_data().iter().all(|v| v.tex_idx == GLYPH_ATLAS));
}

#[test]
fn glyph_rectangles_follow_the_pen() {
    let mut ids = IDFactory::new();
    let text = Text::new(&mut ids, 100, 50, "ab\nc".to_string(), Asset::<Font>::new(0));
    let scene = vec![text];
    let mut assets = assets();
    request_all(&scene, &mut assets, &properties());
    assert_eq!(resolve(&mut assets).1, Ok(()));
    let mut renderer = Renderer::new();
    assert_eq!(render_all(&scene, &assets, &mut renderer, &properties(), false), Ok(()));
    let placed = |index: usize| {
        let id = assets.fonts.data[0].data.glyphs[index].image_id;
        assets.fonts.atlas.get(id).unwrap()
    };
    let quad = |left: i32, base: i32, at: PackedRect| {
        let corner = |x, y, u, v| Vertex::new(x, y, u, v, Color::clear(), GLYPH_ATLAS);
        let (right, top) = (left + 8, base - 12);
        let (u0, v0, u1, v1) = (at.x, at.y, at.x + at.width, at.y + at.height);
        vec![
            corner(left, base, u0, v1),
            corner(right, base, u1, v1),
            corner(left, top, u0, v0),
            corner(right, base, u1, v1),
            corner(left, top, u0, v0),
            corner(right, top, u1, v0),
        ]
    };
    // The base line lies one size below the top; the next line 19 further.
    let mut expected = quad(101, 68, placed(0));
    expected.extend(quad(111, 68, placed(1)));
    expected.extend(quad(101, 87, placed(3)));
    assert_eq!(renderer.vertex_data(), &expected);
}

#[test]
fn carriage_return_stays_on_the_row() {
    let mut ids = IDFactory::new();
    let text = Text::new(&mut ids, 0, 0, "a\rb\nc".to_string(), Asset::<Font>::new(0));
    let scene = vec![text];
    let mut assets = assets();
    request_all(&scene, &mut assets, &properties());
    assert_eq!(resolve(&mut assets).1, Ok(()));
    let mut renderer = Renderer::new();
    assert_eq!(render_all(&scene, &assets, &mut renderer, &properties(), false), Ok(()));
    let bases: Vec<i32> = renderer.vertex_data().chunks(6).map(|quad| quad[0].y).collect();
    assert_eq!(bases, vec![18, 18, 37]);
}

#[test]
fn lines_are_aligned_in_the_box() {
    assert_eq!(aligned(Align::Left, 100, 30), 0);
    assert_eq!(aligned(Align::Center, 100, 30), 35);
    assert_eq!(aligned(Align::Center, 100, 31), 34);
    assert_eq!(aligned(Align::Right, 100, 30), 70);
    assert_eq!(aligned(Align::Center, 30, 100), -35);
    assert_eq!(aligned(Align::Center, 30, 101), -35);
    assert_eq!(aligned(Align::Right, 30, 100), -70);

    let mut ids = IDFactory::new();
    for (align, lefts) in [
        (Align::Left, vec![1, 11, 21, 1]),
        (Align::Center, vec![1, 11, 21, 11]),
        (Align::Right, vec![1, 11, 21, 21]),
    ] {
        let text = Text::new(&mut ids, 0, 0, "aaa\nb".to_string(), Asset::<Font>::new(0))
            .with_align(align);
        let scene = vec![text];
        let mut assets = assets();
        request_all(&scene, &mut assets, &properties());
        assert_eq!(resolve(&mut assets).1, Ok(()));
        let mut renderer = Renderer::new();
        assert_eq!(render_all(&scene, &assets, &mut renderer, &properties(), false), Ok(()));
        let found: Vec<i32> = renderer.vertex_data().chunks(6).map(|quad| quad[0].x).collect();
        assert_eq!(found, lefts);
    }
}

#[test]
fn text_wraps_in_its_width() {
    let mut ids = IDFactory::new();
    let text = Text::new(&mut ids, 0, 0, "aa bb".to_string(), Asset::<Font>::new(0)).with_width(30);
    let data = TextRenderingData {
        glyphs: "aa bb".chars().map(|c| text.glyph(c, &properties())).collect(),
        metrics: vec![metrics(); 5],
    };
    let (lines, width) = text.lines(&data);
    assert_eq!(lines.len(), 2);
    assert_eq!(lines[0].indices, vec![0, 1, 2]);
    assert_eq!(lines[1].indices, vec![3, 4]);
    assert_eq!(width, 30);
}

#[test]
fn transparent_text_asks_for_nothing_and_draws_nothing() {
    let mut ids = IDFactory::new();
    let text = Text::new(&mut ids, 0, 0, "abc".to_string(), Asset::<Font>::new(0))
        .with_color(Color::clear());
    let scene = vec![text];
    let mut assets = assets();
    request_all(&scene, &mut assets, &properties());
    assert!(assets.fonts.data.is_empty());
    let mut renderer = Renderer::new();
    assert_eq!(render_all(&scene, &assets, &mut renderer, &properties(), true), Ok(()));
    assert_eq!(renderer.vertex_count(), 0);
}

#[test]
fn unresolved_text_is_a_layout_data_mismatch() {
    let mut ids = IDFactory::new();
    let text = Text::new(&mut ids, 0, 0, "abc".to_string(), Asset::<Font>::new(0));
    let id = text.id;
    let scene = vec![text];
    let mut assets = assets();
    let mut renderer = Renderer::new();
    // Never requested.
    assert_eq!(
        render_all(&scene, &assets, &mut renderer, &properties(), true),
        Err(FrameError::LayoutDataMismatch { text: id })
    );
    // Requested, but the glyphs have no metrics yet.
    request_all(&scene, &mut assets, &properties());
    assert_eq!(
        render_all(&scene, &assets, &mut renderer, &properties(), true),
        Err(FrameError::LayoutDataMismatch { text: id })
    );
    assert_eq!(renderer.vertex_count(), 0);
}

#[test]
fn glyph_without_placement_is_a_stale_identity() {
    let mut ids = IDFactory::new();
    let triangle = Triangle::new(&mut ids, 0, 0, 4, 0, 0, 4).with_color(Color::black());
    let text = Text::new(&mut ids, 0, 0, "ab".to_string(), Asset::<Font>::new(0));
    let mut assets = assets();
    text.request(&mut assets, &properties());
    while let Some((at, glyph)) = assets.fonts.next() {
        assets.fonts.supply(at, &rasterize(&glyph));
    }
    // The atlas was never packed: the glyphs have identifiers but no place.
    let stale = assets.fonts.data[0].data.glyphs[0].image_id;
    let mut renderer = Renderer::new();
    let mut batch = renderer.batch(false);
    assert_eq!(triangle.render(&mut batch, &assets, &properties()), Ok(()));
    assert_eq!(
        text.render(&mut batch, &assets, &properties()),
        Err(FrameError::StaleIdentity { atlas: GLYPH_ATLAS, id: stale })
    );
    assert_eq!(batch.len(), 3);
    assert_eq!(
        render_all(&vec![text], &assets, &mut renderer, &properties(), false),
        Err(FrameError::StaleIdentity { atlas: GLYPH_ATLAS, id: stale })
    );
    assert_eq!(renderer.vertex_count(), 0);
}

#[test]
fn rectangle_in_a_colour() {
    let mut ids = IDFactory::new();
    let rectangle = Rectangle::new(&mut ids, 10, 20, 30, 40)
        .with_background(Background::Color(Color::from_rgb(1, 2, 3)));
    let mut renderer = Renderer::new();
    assert_eq!(
        render_all(&vec![rectangle], &assets(), &mut renderer, &properties(), true),
        Ok(())
    );
    let corner = |x, y| Vertex::new(x, y, 0, 0, Color::from_rgb(1, 2, 3), NO_TEXTURE);
    assert_eq!(
        renderer.vertex_data(),
        &vec![corner(10, 20), corner(40, 20), corner(10, 60), corner(40, 60)]
    );
    assert_eq!(renderer.index_data(), &vec![0, 1, 2, 1, 2, 3]);
}

#[test]
fn rectangle_showing_an_image() {
    let mut assets = assets();
    let image = assets.images.add(Bitmap::new(5, 3, vec![9; 60]).unwrap());
    assert_eq!(assets.resolve(), Ok(()));
    let mut ids = IDFactory::new();
    let rectangle = Rectangle::new(&mut ids, 0, 0, 50, 30)
        .with_background(Background::Image(Asset::<Image>::new(image)));
    let scene = vec![rectangle];
    // The rectangle asks for its image again, so the sweep leaves it.
    request_all(&scene, &mut assets, &properties());
    assert_eq!(assets.resolve(), Ok(()));
    let at = assets.images.get(image).unwrap();
    let mut renderer = Renderer::new();
    assert_eq!(render_all(&scene, &assets, &mut renderer, &properties(), false), Ok(()));
    let corner = |x, y, u, v| Vertex::new(x, y, u, v, Color::clear(), IMAGE_ATLAS);
    assert_eq!(
        renderer.vertex_data()[..3],
        [
            corner(0, 0, at.x, at.y),
            corner(50, 0, at.x + 5, at.y),
            corner(0, 30, at.x, at.y + 3),
        ]
    );
    assert_eq!(renderer.vertex_data()[5], corner(50, 30, at.x + 5, at.y + 3));
    // Nobody asks in the next cycle: the image is swept away.
    assert_eq!(assets.resolve(), Ok(()));
    assert_eq!(
        render_all(&scene, &assets, &mut renderer, &properties(), false),
        Err(FrameError::StaleIdentity { atlas: IMAGE_ATLAS, id: image })
    );
    assert_eq!(renderer.vertex_count(), 6);
}

#[test]
fn triangle_keeps_its_corner_order() {
    let mut ids = IDFactory::new();
    let triangle = Triangle::new(&mut ids, 1, 2, 3, 4, 5, 6);
    let hidden = triangle.clone();
    let shown = triangle.with_color(Color::from_hex(0xFF0000FF));
    let mut renderer = Renderer::new();
    assert_eq!(
        render_all(&vec![hidden, shown], &assets(), &mut renderer, &properties(), false),
        Ok(())
    );
    let corner = |x, y| Vertex::new(x, y, 0, 0, Color::from_rgb(255, 0, 0), NO_TEXTURE);
    assert_eq!(renderer.vertex_data(), &vec![corner(1, 2), corner(3, 4), corner(5, 6)]);
}

#[test]
fn context_collects_drawables() {
    let mut ids = IDFactory::new();
    let mut context: Context<Triangle> = Context::new(ContextStep::Render);
    assert_eq!(context.step(), ContextStep::Render);
    context.draw(Triangle::new(&mut ids, 0, 0, 1, 0, 0, 1));
    context.draw_all(vec![
        Triangle::new(&mut ids, 0, 0, 2, 0, 0, 2),
        Triangle::new(&mut ids, 0, 0, 3, 0, 0, 3),
    ]);
    let ids: Vec<u32> = context.renderables().iter().map(|t| t.id).collect();
    assert_eq!(ids, vec![0, 1, 2]);
}

#[test]
fn tint_scales_opacity_by_coverage() {
    let raster = Raster { metrics: metrics(), width: 2, height: 2, coverage: vec![0, 255, 128, 1] };
    assert!(raster.is_wf());
    let bitmap = tint(&raster, Color::from_rgba(10, 20, 30, 200));
    assert_eq!((bitmap.width(), bitmap.height()), (2, 2));
    assert_eq!(
        bitmap.bytes(),
        &vec![0, 0, 0, 0, 10, 20, 30, 200, 10, 20, 30, 100, 10, 20, 30, 0]
    );
    assert!(!Raster { metrics: metrics(), width: 2, height: 2, coverage: vec![0; 3] }.is_wf());
}

#[test]
fn line_breaks_need_no_raster() {
    let mut ids = IDFactory::new();
    let text = Text::new(&mut ids, 0, 0, "a\n\na".to_string(), Asset::<Font>::new(0));
    let mut assets = assets();
    text.request(&mut assets, &properties());
    let (calls, packed) = resolve(&mut assets);
    assert_eq!((calls, packed), (1, Ok(())));
    let run = &assets.fonts.data[0].data;
    assert_eq!(run.metrics[1], GlyphMetrics::empty());
    assert_eq!(run.metrics[2], GlyphMetrics::empty());
    assert_eq!(run.metrics[3], metrics());
    assert_eq!(run.glyphs[1].image_id, UNASSIGNED);
    assert_eq!(run.glyphs[3].image_id, run.glyphs[0].image_id);
}

#[test]
fn text_registered_twice_replaces_its_glyphs() {
    let mut ids = IDFactory::new();
    let text = Text::new(&mut ids, 0, 0, "ab".to_string(), Asset::<Font>::new(0));
    let other = Text::new(&mut ids, 0, 0, "xyz".to_string(), Asset::<Font>::new(0));
    let mut assets = assets();
    text.request(&mut assets, &properties());
    other.request(&mut assets, &properties());
    let longer = text.clone().with_text("abcd".to_string());
    longer.request(&mut assets, &properties());
    assert_eq!(assets.fonts.data.len(), 2);
    assert_eq!(assets.fonts.position(text.id), Some(0));
    assert_eq!(assets.fonts.get(text.id).unwrap().glyphs.len(), 4);
    assert_eq!(assets.fonts.get(other.id).unwrap().glyphs.len(), 3);
    assert!(assets.fonts.get(77).is_none());
}

#[test]
fn glyph_size_follows_the_scale_factor() {
    let mut ids = IDFactory::new();
    let text = Text::new(&mut ids, 0, 0, "a".to_string(), Asset::<Font>::new(4)).with_size(20);
    let doubled = Properties { size: Size::new(800, 600), scale_factor: 200 };
    let glyph = text.glyph('a', &doubled);
    assert_eq!((glyph.size, glyph.font_id, glyph.image_id), (40, 4, UNASSIGNED));
    assert_eq!(glyph, text.glyph('a', &doubled));
    assert_ne!(glyph, text.glyph('a', &properties()));
}

#[test]
fn too_many_vertices_give_up_the_frame() {
    let mut ids = IDFactory::new();
    let mut scene = Vec::new();
    for i in 0..21845 {
        scene.push(Triangle::new(&mut ids, i, 0, i + 1, 0, i, 1).with_color(Color::black()));
    }
    let mut renderer = Renderer::new();
    assert_eq!(render_all(&scene, &assets(), &mut renderer, &properties(), false), Ok(()));
    assert_eq!(renderer.vertex_count(), 65535);
    assert_eq!(renderer.index_data()[65534], 65534);

    scene.push(Triangle::new(&mut ids, 0, 0, 1, 0, 0, 1).with_color(Color::black()));
    let mut renderer = Renderer::new();
    assert_eq!(
        render_all(&scene, &assets(), &mut renderer, &properties(), false),
        Err(FrameError::TooManyVertices)
    );
    assert_eq!(renderer.vertex_count(), 0);
    assert!(renderer.index_data().is_empty());
}
