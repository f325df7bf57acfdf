use theme_sync::theme::{react, Payload, Reaction, Theme, UnexpectedValue};

#[test]
fn zero_decodes_to_light() {
    assert_eq!(Theme::decode(0), Ok(Theme::Light));
}

#[test]
fn one_decodes_to_dark() {
    assert_eq!(Theme::decode(1), Ok(Theme::Dark));
}

#[test]
fn two_is_unexpected() {
    assert_eq!(Theme::decode(2), Err(UnexpectedValue { value: 2 }));
}

#[test]
fn every_value_above_one_is_unexpected() {
    for value in [2u32, 3, 7, 255, 256, 65_536, u32::MAX - 1, u32::MAX] {
        assert_eq!(Theme::decode(value), Err(UnexpectedValue { value }));
    }
}

#[test]
fn each_theme_has_the_other_as_opposite() {
    assert_eq!(Theme::Light.opposite(), Theme::Dark);
    assert_eq!(Theme::Dark.opposite(), Theme::Light);
    assert_eq!(Theme::Light.opposite().opposite(), Theme::Light);
}

#[test]
fn a_theme_value_is_applied() {
    assert_eq!(react(Payload::Unsigned(0)), Reaction::Apply(Theme::Light));
    assert_eq!(react(Payload::Unsigned(1)), Reaction::Apply(Theme::Dark));
}

#[test]
fn value_two_stops_the_program() {
    assert_eq!(
        react(Payload::Unsigned(2)),
        Reaction::Abort(UnexpectedValue { value: 2 })
    );
}

#[test]
fn an_unreadable_payload_is_skipped_and_the_next_is_handled() {
    let stream = [Payload::Unreadable, Payload::Unsigned(1)];
    let reactions: Vec<Reaction> = stream.iter().map(|payload| react(*payload)).collect();
    assert_eq!(reactions, vec![Reaction::Skip, Reaction::Apply(Theme::Dark)]);
}

#[test]
fn themes_print_by_name() {
    assert_eq!(format!("{:?}", Theme::Light), "Light");
    assert_eq!(format!("{:?}", Theme::Dark), "Dark");
}
