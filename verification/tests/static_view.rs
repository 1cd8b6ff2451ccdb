use tachy_reaccy::view::class::{class_change, toggled_class_to_html, ClassChange};
use tachy_reaccy::view::static_types::{static_attr, CursorStep, Static};
use tachy_reaccy::view::Position;

#[test]
fn a_static_attribute_is_written_as_key_and_quoted_value() {
    let input_type = static_attr("type", "text");
    let mut buf = String::new();
    let mut classes = String::new();
    let mut styles = String::new();
    input_type.to_html(&mut buf, &mut classes, &mut styles);
    assert_eq!(buf, " type=\"text\"");
    assert_eq!(classes, "");
    assert_eq!(styles, "");

    let mut position = Position::FirstChild;
    static_attr("id", "main").to_template(&mut buf, &mut position);
    assert_eq!(buf, " type=\"text\" id=\"main\"");
    assert_eq!(position, Position::FirstChild);
    assert_eq!(input_type.build(), ("type", "text"));
}

#[test]
fn static_text_is_kept_apart_from_the_sibling_before_it() {
    let text = Static { value: "hello" };
    let cases = [
        (Position::Current, "hello"),
        (Position::FirstChild, "hello"),
        (Position::OnlyChild, "hello"),
        (Position::NextChild, "<!>hello"),
        (Position::LastChild, "<!>hello"),
    ];
    for (position, expected) in cases {
        let mut buf = String::from("<p>");
        text.to_html(&mut buf, &position);
        assert_eq!(buf, format!("<p>{expected}"));

        let mut buf = String::new();
        let mut moving = position;
        text.to_template(&mut buf, &mut moving);
        assert_eq!(buf, expected);
        assert_eq!(moving, Position::NextChild);
    }
    assert_eq!(text.build(), Some("hello"));
}

#[test]
fn hydrating_static_text_moves_the_cursor() {
    let text = Static { value: "hello" };
    let mut position = Position::FirstChild;
    assert_eq!(text.hydrate(&mut position), CursorStep::Child);
    assert_eq!(position, Position::NextChild);
    assert_eq!(text.hydrate(&mut position), CursorStep::Sibling);
    assert_eq!(position, Position::NextChild);
    let mut position = Position::LastChild;
    assert_eq!(text.hydrate(&mut position), CursorStep::Sibling);
    assert_eq!(position, Position::NextChild);
}

#[test]
fn a_toggled_class_touches_the_list_only_on_change() {
    assert_eq!(class_change(None, true), ClassChange::Add);
    assert_eq!(class_change(None, false), ClassChange::Remove);
    assert_eq!(class_change(Some(true), true), ClassChange::Keep);
    assert_eq!(class_change(Some(false), false), ClassChange::Keep);
    assert_eq!(class_change(Some(false), true), ClassChange::Add);
    assert_eq!(class_change(Some(true), false), ClassChange::Remove);

    let mut class = String::from("a ");
    toggled_class_to_html("open", false, &mut class);
    assert_eq!(class, "a ");
    toggled_class_to_html("open", true, &mut class);
    assert_eq!(class, "a open");
}
