use nbody::canvas::{Method, Path};
use nbody::vector::{Color, Vec2};

fn v(x: f64, y: f64) -> Vec2<f64> {
    Vec2 { x, y }
}

#[test]
fn a_primitive_flattens_to_itself() {
    let p = Path::Circle { pos: v(1.0, 2.0), rad: 3.0 };
    assert_eq!(p.flatten(), vec![Path::Circle { pos: v(1.0, 2.0), rad: 3.0 }]);
    let c: Path<f64> = Path::Close;
    assert_eq!(c.flatten(), vec![Path::Close]);
}

#[test]
fn every_primitive_keeps_its_fields() {
    let all: Vec<Path<f64>> = vec![
        Path::Arc { pos: v(1.0, 2.0), rad: 3.0, angle: v(4.0, 5.0) },
        Path::Circle { pos: v(6.0, 7.0), rad: 8.0 },
        Path::MoveTo { pos: v(9.0, 10.0) },
        Path::LineTo { pos: v(11.0, 12.0) },
        Path::BezierTo { cp1: v(13.0, 14.0), cp2: v(15.0, 16.0), pos: v(17.0, 18.0) },
        Path::QuadraticTo { cp1: v(19.0, 20.0), pos: v(21.0, 22.0) },
        Path::Ellipse { pos: v(23.0, 24.0), rad: v(25.0, 26.0), rot: 27.0, angle: v(28.0, 29.0) },
        Path::Rect { pos: v(30.0, 31.0), size: v(32.0, 33.0) },
        Path::Close,
    ];
    for p in &all {
        let flat = p.flatten();
        assert_eq!(flat.len(), 1);
        assert_eq!(&flat[0], p);
    }
}

#[test]
fn an_empty_list_draws_nothing() {
    let p: Path<f64> = Path::List { paths: Vec::new() };
    assert_eq!(p.flatten(), Vec::new());
}

#[test]
fn nested_lists_flatten_in_drawing_order() {
    let p = Path::List {
        paths: vec![
            Path::MoveTo { pos: v(0.0, 0.0) },
            Path::List {
                paths: vec![
                    Path::LineTo { pos: v(1.0, 0.0) },
                    Path::List { paths: vec![] },
                    Path::List { paths: vec![Path::LineTo { pos: v(1.0, 1.0) }] },
                ],
            },
            Path::Close,
        ],
    };
    assert_eq!(
        p.flatten(),
        vec![
            Path::MoveTo { pos: v(0.0, 0.0) },
            Path::LineTo { pos: v(1.0, 0.0) },
            Path::LineTo { pos: v(1.0, 1.0) },
            Path::Close,
        ]
    );
}

#[test]
fn draw_into_appends_after_what_is_there() {
    let mut out = vec![Path::Close];
    Path::List { paths: vec![Path::MoveTo { pos: v(1.0, 1.0) }, Path::Close] }.draw_into(&mut out);
    assert_eq!(out, vec![Path::Close, Path::MoveTo { pos: v(1.0, 1.0) }, Path::Close]);
}

#[test]
fn methods_carry_their_colour() {
    let c = Color { r: 0.1, g: 0.2, b: 0.3, a: 1.0 };
    let fill = Method::Fill { color: c };
    let stroke = Method::Stroke { color: c, width: 2.0 };
    assert_ne!(fill, stroke);
    assert_eq!(fill, Method::Fill { color: c });
}

#[test]
fn flattening_hands_out_no_list() {
    let p: Path<f64> = Path::List {
        paths: vec![
            Path::List { paths: vec![Path::Close, Path::List { paths: vec![Path::Close] }] },
            Path::List { paths: vec![] },
            Path::Rect { pos: v(0.0, 0.0), size: v(1.0, 1.0) },
        ],
    };
    let flat = p.flatten();
    assert_eq!(flat.len(), 3);
    assert!(flat.iter().all(|s| !matches!(s, Path::List { .. })));
}
