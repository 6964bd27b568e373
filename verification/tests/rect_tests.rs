//! Bounding-rectangle behaviour.

use streets_sim::error::Error;
use streets_sim::graph::rect::Rect;
use streets_sim::models::graph_input::Vertex;

#[test]
fn test_in_rect() {
    let rect = Rect::new(vec![
        Vertex {
            x: 1,
            y: 1,
            osm_id: 1,
        },
        Vertex {
            x: 2,
            y: 2,
            osm_id: 2,
        },
        Vertex {
            x: 3,
            y: 3,
            osm_id: 3,
        },
    ])
    .unwrap();

    assert!(rect.in_rect(Vertex {
        x: 1,
        y: 1,
        osm_id: 1
    }));
    assert!(!rect.in_rect(Vertex {
        x: 4,
        y: 4,
        osm_id: 4
    }));
}

#[test]
fn test_set_top_right_bottom_left() {
    let mut rect = Rect::new(vec![
        Vertex {
            x: 1,
            y: 1,
            osm_id: 1,
        },
        Vertex {
            x: 2,
            y: 2,
            osm_id: 2,
        },
        Vertex {
            x: 3,
            y: 3,
            osm_id: 3,
        },
    ])
    .unwrap();

    rect = rect.set_top_right_bottom_left();

    assert_eq!(rect.bottom_left.x, 1);
    assert_eq!(rect.bottom_left.y, 1);
    assert_eq!(rect.top_right.x, 3);
    assert_eq!(rect.top_right.y, 3);
}

#[test]
fn empty_vertex_list_is_rejected() {
    let r = Rect::new(vec![]);
    assert_eq!(r.unwrap_err(), Error::EmptyInput);
}

#[test]
fn rect_ignores_y_axis() {
    let rect = Rect::new(vec![
        Vertex {
            x: 0,
            y: 0,
            osm_id: 1,
        },
        Vertex {
            x: 10,
            y: 5,
            osm_id: 2,
        },
    ])
    .unwrap();
    // A vertex far outside the y extent still counts as inside.
    assert!(rect.in_rect(Vertex {
        x: 5,
        y: 1000,
        osm_id: 3
    }));
    // A vertex outside the x band does not.
    assert!(!rect.in_rect(Vertex {
        x: 11,
        y: 0,
        osm_id: 4
    }));
}
