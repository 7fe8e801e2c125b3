use depict::color::Color;
use depict::renderer::{Bounds, Renderer, Vertex, NO_TEXTURE};

fn v(x: i32, y: i32) -> Vertex {
    Vertex::new(x, y, 0, 0, Color::black(), NO_TEXTURE)
}

fn topology(renderer: &Renderer) -> Vec<Vertex> {
    renderer.index_data().iter().map(|&i| renderer.vertex_data()[i as usize]).collect()
}

#[test]
fn empty_batch_has_no_bounds() {
    let renderer = Renderer::new();
    let batch = renderer.batch(true);
    assert_eq!(batch.bounds(), None);
    assert_eq!(batch.len(), 0);
    assert!(batch.deduplicate());
}

#[test]
fn bounds_are_the_exact_extremes() {
    let renderer = Renderer::new();
    let mut batch = renderer.batch(false);
    batch.triangle(v(5, 7), v(9, 20), v(6, 8));
    assert_eq!(
        batch.bounds(),
        Some(Bounds { lower_x: 5, lower_y: 7, upper_x: 9, upper_y: 20 })
    );
    batch.triangle(v(-3, 10), v(8, 9), v(7, 30));
    assert_eq!(
        batch.bounds(),
        Some(Bounds { lower_x: -3, lower_y: 7, upper_x: 9, upper_y: 30 })
    );
}

#[test]
fn bounds_do_not_depend_on_the_order() {
    let renderer = Renderer::new();
    let mut first = renderer.batch(false);
    first.triangle(v(1, 2), v(3, 4), v(5, 6));
    first.triangle(v(-1, 9), v(0, 0), v(2, 2));
    let mut second = renderer.batch(false);
    second.triangle(v(2, 2), v(5, 6), v(0, 0));
    second.triangle(v(3, 4), v(-1, 9), v(1, 2));
    assert_eq!(first.bounds(), second.bounds());
    assert_eq!(
        first.bounds(),
        Some(Bounds { lower_x: -1, lower_y: 0, upper_x: 5, upper_y: 9 })
    );
}

#[test]
fn shared_vertex_is_stored_once_with_deduplication() {
    let shared = v(10, 10);
    let mut plain = Renderer::new();
    let mut batch = plain.batch(false);
    batch.triangle(v(0, 0), shared, v(0, 10));
    batch.triangle(shared, v(20, 0), v(20, 10));
    batch.finish(&mut plain);

    let mut reusing = Renderer::new();
    let mut batch = reusing.batch(true);
    batch.triangle(v(0, 0), shared, v(0, 10));
    batch.triangle(shared, v(20, 0), v(20, 10));
    batch.finish(&mut reusing);

    assert_eq!(plain.vertex_count(), 6);
    assert_eq!(reusing.vertex_count(), 5);
    assert_eq!(plain.index_data(), &vec![0, 1, 2, 3, 4, 5]);
    assert_eq!(reusing.index_data(), &vec![0, 1, 2, 1, 3, 4]);
    assert_eq!(topology(&plain), topology(&reusing));
}

#[test]
fn deduplication_compares_every_field() {
    let mut renderer = Renderer::new();
    let mut batch = renderer.batch(true);
    let a = Vertex::new(1, 1, 0, 0, Color::black(), NO_TEXTURE);
    let b = Vertex::new(1, 1, 0, 0, Color::black(), 0);
    let c = Vertex::new(1, 1, 0, 1, Color::black(), NO_TEXTURE);
    batch.triangle(a, b, c);
    batch.triangle(a, Vertex::new(1, 1, 0, 0, Color::clear(), NO_TEXTURE), c);
    batch.finish(&mut renderer);
    assert_eq!(renderer.vertex_count(), 4);
    assert_eq!(renderer.index_data(), &vec![0, 1, 2, 0, 3, 2]);
}

#[test]
fn deduplication_reuses_vertices_of_earlier_batches() {
    let mut renderer = Renderer::new();
    let mut batch = renderer.batch(true);
    batch.triangle(v(0, 0), v(1, 0), v(0, 1));
    batch.finish(&mut renderer);
    let mut batch = renderer.batch(true);
    batch.set_deduplicate(true);
    batch.triangle(v(1, 0), v(0, 1), v(1, 1));
    batch.finish(&mut renderer);
    assert_eq!(renderer.vertex_count(), 4);
    assert_eq!(renderer.index_data(), &vec![0, 1, 2, 1, 2, 3]);
    renderer.clear();
    assert_eq!(renderer.vertex_count(), 0);
    assert!(renderer.index_data().is_empty());
}

#[test]
fn quad_is_two_triangles() {
    let renderer = Renderer::new();
    let mut batch = renderer.batch(false);
    batch.quad(1, 2, 11, 22, 3, 4, 13, 24, Color::clear(), 1);
    let mut target = Renderer::new();
    batch.finish(&mut target);
    let corner = |x, y, u, v| Vertex::new(x, y, u, v, Color::clear(), 1);
    assert_eq!(
        target.vertex_data(),
        &vec![
            corner(1, 2, 3, 4),
            corner(11, 2, 13, 4),
            corner(1, 22, 3, 24),
            corner(11, 2, 13, 4),
            corner(1, 22, 3, 24),
            corner(11, 22, 13, 24),
        ]
    );
}

#[test]
fn deduplication_under_load() {
    // A grid of thirty by thirty squares; neighbours share their corners.
    let mut plain = Renderer::new();
    let mut reusing = Renderer::new();
    let mut first = plain.batch(false);
    let mut second = reusing.batch(true);
    for row in 0..30 {
        for column in 0..30 {
            let (x, y) = (column * 10, row * 10);
            for batch in [&mut first, &mut second] {
                batch.triangle(v(x, y), v(x + 10, y), v(x, y + 10));
                batch.triangle(v(x + 10, y), v(x, y + 10), v(x + 10, y + 10));
            }
        }
    }
    first.finish(&mut plain);
    second.finish(&mut reusing);
    assert_eq!(plain.vertex_count(), 5400);
    assert_eq!(reusing.vertex_count(), 31 * 31);
    assert_eq!(plain.index_data().len(), 5400);
    assert_eq!(topology(&plain), topology(&reusing));
    assert_eq!(
        first.bounds(),
        Some(Bounds { lower_x: 0, lower_y: 0, upper_x: 300, upper_y: 300 })
    );
}
