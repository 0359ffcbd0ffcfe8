use prefix_expr::ast::Expr;
use prefix_expr::parser::parse;
use prefix_expr::render::to_prefix;

#[test]
fn literals_render_as_their_digits() {
    assert_eq!(to_prefix(&Expr::Num(0)), b"0".to_vec());
    assert_eq!(to_prefix(&Expr::Num(7)), b"7".to_vec());
    assert_eq!(to_prefix(&Expr::Num(120)), b"120".to_vec());
    assert_eq!(to_prefix(&Expr::Num(u64::MAX)), b"18446744073709551615".to_vec());
}

#[test]
fn operator_nodes_render_in_prefix_notation() {
    let e = Expr::Mul(
        Box::new(Expr::Add(Box::new(Expr::Num(1)), Box::new(Expr::Num(3)))),
        Box::new(Expr::Num(2)),
    );
    assert_eq!(to_prefix(&e), b"* + 1 3 2".to_vec());
}

#[test]
fn parse_render_parse_round_trip() {
    // irregular spacing is lost in rendering, but the node survives the trip
    let (rest, node) = parse(b"*   + 1  3 + 2 5").expect("input must parse");
    assert_eq!(rest, 16);
    let rendered = to_prefix(&node);
    assert_eq!(rendered, b"* + 1 3 + 2 5".to_vec());
    let (rest2, node2) = parse(&rendered).expect("a rendering must parse");
    assert_eq!(rest2, rendered.len());
    assert_eq!(node2, node);
}

#[test]
fn render_of_literal_round_trips() {
    let node = Expr::Num(18446744073709551615);
    let rendered = to_prefix(&node);
    let (rest, back) = parse(&rendered).expect("a rendering must parse");
    assert_eq!(rest, rendered.len());
    assert_eq!(back, node);
}
