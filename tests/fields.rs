use editor::choice::{Coord, Ident};
use editor::color::{string_to_rgb, Rgb};
use editor::dialogs::{confirm_answer, Gate};

#[test]
fn coordinate_text_upper_bound() {
    let c = Coord::from_text("<45");
    assert_eq!(c.upper(), Some(45));
    assert_eq!(c.exact(), None);
    assert_eq!(c.lower(), None);
}

#[test]
fn coordinate_text_exact() {
    let c = Coord::from_text("7");
    assert_eq!(c.exact(), Some(7));
    assert_eq!(c.lower(), None);
    assert_eq!(c.upper(), None);
}

#[test]
fn coordinate_text_not_a_number() {
    let c = Coord::from_text("abc");
    assert_eq!(c.exact(), None);
    assert_eq!(c.lower(), None);
    assert_eq!(c.upper(), None);
    assert_eq!(Coord::from_text("<abc"), Coord::Any);
    assert_eq!(Coord::from_text(""), Coord::Any);
    assert_eq!(Coord::from_text(">"), Coord::Any);
}

#[test]
fn coordinate_text_lower_bound_and_signs() {
    assert_eq!(Coord::from_text(">-5"), Coord::Above(-5));
    assert_eq!(Coord::from_text("+12"), Coord::Exact(12));
    assert_eq!(Coord::from_text("2147483648"), Coord::Any);
    assert_eq!(Coord::from_text("-2147483648"), Coord::Exact(i32::MIN));
    assert_eq!(Coord::from_text(" 3"), Coord::Any);
}

#[test]
fn coordinate_shown_as_text() {
    assert_eq!(Coord::Exact(-12).text(), "-12");
    assert_eq!(Coord::Above(5).text(), ">5");
    assert_eq!(Coord::Below(45).text(), "<45");
    assert_eq!(Coord::Any.text(), "");
    for c in [Coord::Exact(7), Coord::Above(-1), Coord::Below(300), Coord::Any] {
        assert_eq!(Coord::from_text(&c.text()), c);
    }
}

#[test]
fn coordinate_setters_clear_the_others() {
    let mut c = Coord::Exact(1);
    c.set_lower(3);
    assert_eq!((c.exact(), c.lower(), c.upper()), (None, Some(3), None));
    c.set_upper(4);
    assert_eq!((c.exact(), c.lower(), c.upper()), (None, None, Some(4)));
    c.set_exact(5);
    assert_eq!((c.exact(), c.lower(), c.upper()), (Some(5), None, None));
    c.set_text(">9");
    assert_eq!((c.exact(), c.lower(), c.upper()), (None, Some(9), None));
}

#[test]
fn identity_from_text() {
    let i = Ident::from_text("12");
    assert_eq!(i.reference(), Some(12));
    assert_eq!(i.name(), None);
    let i = Ident::from_text("Stone Block");
    assert_eq!(i.reference(), None);
    assert_eq!(i.name(), Some("Stone Block".to_string()));
    let i = Ident::from_text("");
    assert_eq!(i.reference(), None);
    assert_eq!(i.name(), None);
    assert_eq!(Ident::Ref(-4).text(), "-4");
    assert_eq!(Ident::Name("a".to_string()).text(), "a");
}

#[test]
fn identity_setters_clear_the_other() {
    let mut i = Ident::Name("x".to_string());
    i.set_reference(3);
    assert_eq!((i.reference(), i.name()), (Some(3), None));
    i.set_name("y".to_string());
    assert_eq!((i.reference(), i.name()), (None, Some("y".to_string())));
    i.set_text("77");
    assert_eq!((i.reference(), i.name()), (Some(77), None));
    i.set_text("");
    assert_eq!((i.reference(), i.name()), (None, None));
}

#[test]
fn colors_from_text() {
    assert_eq!(string_to_rgb("#ff8000"), Rgb { r: 255, g: 128, b: 0 });
    assert_eq!(string_to_rgb("##0A0B0c"), Rgb { r: 10, g: 11, b: 12 });
    assert_eq!(string_to_rgb("zz"), Rgb { r: 0, g: 0, b: 0 });
    assert_eq!(string_to_rgb(""), Rgb { r: 0, g: 0, b: 0 });
    assert_eq!(string_to_rgb("#-1"), Rgb { r: 255, g: 255, b: 255 });
    assert_eq!(string_to_rgb("1ff0000"), Rgb { r: 255, g: 0, b: 0 });
}

#[test]
fn colors_to_text() {
    assert_eq!(Rgb { r: 255, g: 128, b: 0 }.to_text(), "#ff8000");
    assert_eq!(Rgb { r: 1, g: 2, b: 3 }.to_text(), "#010203");
    let c = Rgb { r: 18, g: 52, b: 86 };
    assert_eq!(string_to_rgb(&c.to_text()), c);
    for t in ["#00ff7a", "#123456", "#ffffff"] {
        assert_eq!(string_to_rgb(t).to_text(), t);
    }
}

#[test]
fn confirmation_answers() {
    assert_eq!(confirm_answer(false, false, false, false), None);
    assert_eq!(confirm_answer(true, false, false, false), Some(false));
    assert_eq!(confirm_answer(false, true, false, false), Some(true));
    assert_eq!(confirm_answer(true, true, false, false), Some(true));
    assert_eq!(confirm_answer(false, true, true, false), Some(false));
    assert_eq!(confirm_answer(false, false, true, true), Some(true));
}

#[test]
fn gate_keeps_first_request() {
    let mut g = Gate::new();
    assert!(g.request(2));
    assert!(!g.request(5));
    assert_eq!(g.pending(), Some(2));
    assert_eq!(g.resolve(true), Some(2));
    assert_eq!(g.pending(), None);
    assert_eq!(g.resolve(true), None);
    assert!(g.request(5));
    assert_eq!(g.resolve(false), None);
    assert_eq!(g.pending(), None);
}
