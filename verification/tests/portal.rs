use theme_sync::portal::{key, namespace, react_to_value};
use theme_sync::theme::{Reaction, Theme, UnexpectedValue};
use zbus::zvariant::{OwnedValue, Value};

#[test]
fn the_followed_setting_is_the_color_scheme() {
    assert_eq!(namespace(), "org.freedesktop.appearance");
    assert_eq!(key(), "color-scheme");
}

#[test]
fn unsigned_zero_applies_light() {
    assert_eq!(
        react_to_value(OwnedValue::from(0u32)),
        Reaction::Apply(Theme::Light)
    );
}

#[test]
fn unsigned_one_applies_dark() {
    assert_eq!(
        react_to_value(OwnedValue::from(1u32)),
        Reaction::Apply(Theme::Dark)
    );
}

#[test]
fn unsigned_two_stops_the_program() {
    assert_eq!(
        react_to_value(OwnedValue::from(2u32)),
        Reaction::Abort(UnexpectedValue { value: 2 })
    );
}

#[test]
fn a_large_unsigned_value_stops_the_program() {
    assert_eq!(
        react_to_value(OwnedValue::from(u32::MAX)),
        Reaction::Abort(UnexpectedValue { value: u32::MAX })
    );
}

#[test]
fn a_string_value_is_skipped() {
    let value = OwnedValue::from(Value::from(String::from("dark")));
    assert_eq!(react_to_value(value), Reaction::Skip);
}

#[test]
fn a_boolean_value_is_skipped() {
    assert_eq!(react_to_value(OwnedValue::from(true)), Reaction::Skip);
}

#[test]
fn an_integer_of_another_width_is_skipped() {
    assert_eq!(react_to_value(OwnedValue::from(1u8)), Reaction::Skip);
    assert_eq!(react_to_value(OwnedValue::from(1u64)), Reaction::Skip);
    assert_eq!(react_to_value(OwnedValue::from(1i32)), Reaction::Skip);
}

#[test]
fn a_skipped_value_does_not_end_the_stream() {
    let first = react_to_value(OwnedValue::from(Value::from(String::from("?"))));
    let second = react_to_value(OwnedValue::from(0u32));
    assert_eq!(first, Reaction::Skip);
    assert_eq!(second, Reaction::Apply(Theme::Light));
}
