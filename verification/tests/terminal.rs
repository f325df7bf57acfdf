use theme_sync::terminal::{
    archive_variant, promoted_variant, swap_steps, Outcome, Rename, RenameError, TerminalDir,
    TerminalFile,
};
use theme_sync::theme::Theme;

fn text(s: &str) -> Option<String> {
    Some(s.to_string())
}

fn dir(active: Option<&str>, light: Option<&str>, dark: Option<&str>) -> TerminalDir {
    TerminalDir {
        active: active.map(String::from),
        light_variant: light.map(String::from),
        dark_variant: dark.map(String::from),
    }
}

const TO_ARCHIVE_LIGHT: Rename = Rename {
    source: TerminalFile::Active,
    target: TerminalFile::LightVariant,
};
const TO_ARCHIVE_DARK: Rename = Rename {
    source: TerminalFile::Active,
    target: TerminalFile::DarkVariant,
};
const PROMOTE_LIGHT: Rename = Rename {
    source: TerminalFile::LightVariant,
    target: TerminalFile::Active,
};
const PROMOTE_DARK: Rename = Rename {
    source: TerminalFile::DarkVariant,
    target: TerminalFile::Active,
};

#[test]
fn the_three_files_lie_in_the_alacritty_directory() {
    assert_eq!(TerminalFile::Active.relative_path(), "alacritty/alacritty.toml");
    assert_eq!(
        TerminalFile::LightVariant.relative_path(),
        "alacritty/alacritty.light.toml"
    );
    assert_eq!(
        TerminalFile::DarkVariant.relative_path(),
        "alacritty/alacritty.dark.toml"
    );
}

#[test]
fn a_change_to_light_promotes_the_dark_variant() {
    assert_eq!(promoted_variant(Theme::Light), TerminalFile::DarkVariant);
    assert_eq!(archive_variant(Theme::Light), TerminalFile::LightVariant);
}

#[test]
fn a_change_to_dark_promotes_the_light_variant() {
    assert_eq!(promoted_variant(Theme::Dark), TerminalFile::LightVariant);
    assert_eq!(archive_variant(Theme::Dark), TerminalFile::DarkVariant);
}

#[test]
fn no_rename_is_planned_without_the_promoted_variant() {
    assert_eq!(swap_steps(Theme::Light, false), vec![]);
    assert_eq!(swap_steps(Theme::Dark, false), vec![]);
}

#[test]
fn the_active_file_is_archived_before_the_variant_is_promoted() {
    assert_eq!(swap_steps(Theme::Light, true), vec![TO_ARCHIVE_LIGHT, PROMOTE_DARK]);
    assert_eq!(swap_steps(Theme::Dark, true), vec![TO_ARCHIVE_DARK, PROMOTE_LIGHT]);
}

#[test]
fn a_change_to_dark_swaps_the_light_variant_in() {
    let mut d = dir(Some("X"), Some("Y"), None);
    assert_eq!(d.apply(Theme::Dark), Ok(Outcome::Swapped));
    assert_eq!(d.dark_variant, text("X"));
    assert_eq!(d.active, text("Y"));
    assert_eq!(d.light_variant, None);
    assert!(!d.has(TerminalFile::LightVariant));
}

#[test]
fn a_change_to_light_swaps_the_dark_variant_in() {
    let mut d = dir(Some("X"), None, Some("Z"));
    assert_eq!(d.apply(Theme::Light), Ok(Outcome::Swapped));
    assert_eq!(d, dir(Some("Z"), Some("X"), None));
}

#[test]
fn without_variants_a_change_to_light_does_nothing() {
    let mut d = dir(Some("X"), None, None);
    assert_eq!(d.apply(Theme::Light), Ok(Outcome::NothingToDo));
    assert_eq!(d, dir(Some("X"), None, None));
}

#[test]
fn without_the_promoted_variant_nothing_is_done() {
    let mut d = dir(Some("X"), Some("Y"), None);
    assert_eq!(d.apply(Theme::Light), Ok(Outcome::NothingToDo));
    assert_eq!(d, dir(Some("X"), Some("Y"), None));
    let mut e = dir(None, None, Some("Z"));
    assert_eq!(e.apply(Theme::Dark), Ok(Outcome::NothingToDo));
    assert_eq!(e, dir(None, None, Some("Z")));
}

#[test]
fn a_second_run_for_the_same_theme_does_nothing() {
    for theme in [Theme::Light, Theme::Dark] {
        let mut d = dir(Some("X"), Some("Y"), Some("Z"));
        assert_eq!(d.apply(theme), Ok(Outcome::Swapped));
        let once = d.clone();
        assert!(!d.has(promoted_variant(theme)));
        assert_eq!(d.apply(theme), Ok(Outcome::NothingToDo));
        assert_eq!(d, once);
    }
}

#[test]
fn light_then_dark_gives_the_directory_back() {
    let mut d = dir(Some("X"), None, Some("Z"));
    assert_eq!(d.apply(Theme::Light), Ok(Outcome::Swapped));
    assert_eq!(d.apply(Theme::Dark), Ok(Outcome::Swapped));
    assert_eq!(d, dir(Some("X"), None, Some("Z")));
}

#[test]
fn dark_then_light_gives_the_directory_back() {
    let mut d = dir(Some("X"), Some("Y"), None);
    assert_eq!(d.apply(Theme::Dark), Ok(Outcome::Swapped));
    assert_eq!(d.apply(Theme::Light), Ok(Outcome::Swapped));
    assert_eq!(d, dir(Some("X"), Some("Y"), None));
}

#[test]
fn an_archive_variant_that_exists_is_lost_on_the_way() {
    let mut d = dir(Some("X"), Some("Y"), Some("Z"));
    assert_eq!(d.apply(Theme::Light), Ok(Outcome::Swapped));
    assert_eq!(d, dir(Some("Z"), Some("X"), None));
    assert_eq!(d.apply(Theme::Dark), Ok(Outcome::Swapped));
    assert_eq!(d, dir(Some("X"), None, Some("Z")));
}

#[test]
fn a_directory_with_only_the_light_variant_does_not_come_back() {
    let mut d = dir(Some("X"), Some("Y"), None);
    assert_eq!(d.apply(Theme::Light), Ok(Outcome::NothingToDo));
    assert_eq!(d.apply(Theme::Dark), Ok(Outcome::Swapped));
    assert_eq!(d, dir(Some("Y"), None, Some("X")));
}

#[test]
fn without_an_active_file_the_first_rename_fails() {
    let mut d = dir(None, Some("Y"), None);
    assert_eq!(d.apply(Theme::Dark), Err(RenameError { step: TO_ARCHIVE_DARK }));
    assert_eq!(d, dir(None, Some("Y"), None));
    let mut e = dir(None, Some("Y"), Some("Z"));
    assert_eq!(e.apply(Theme::Light), Err(RenameError { step: TO_ARCHIVE_LIGHT }));
    assert_eq!(e, dir(None, Some("Y"), Some("Z")));
}

#[test]
fn after_the_first_rename_alone_no_active_file_is_left() {
    let mut d = dir(Some("X"), Some("Y"), None);
    let steps = swap_steps(Theme::Dark, d.has(promoted_variant(Theme::Dark)));
    assert_eq!(d.rename(steps[0]), Ok(()));
    assert_eq!(d, dir(None, Some("Y"), Some("X")));
    assert_eq!(d.rename(steps[1]), Ok(()));
    assert_eq!(d, dir(Some("Y"), None, Some("X")));
}

#[test]
fn a_rename_moves_the_text_and_removes_the_source() {
    let mut d = dir(Some("X"), None, None);
    assert_eq!(d.rename(TO_ARCHIVE_LIGHT), Ok(()));
    assert_eq!(d, dir(None, Some("X"), None));
}

#[test]
fn a_rename_replaces_what_the_target_held() {
    let mut d = dir(Some("X"), Some("Y"), Some("Z"));
    assert_eq!(d.rename(PROMOTE_DARK), Ok(()));
    assert_eq!(d, dir(Some("Z"), Some("Y"), None));
}

#[test]
fn a_rename_of_a_missing_file_fails_and_changes_nothing() {
    let mut d = dir(Some("X"), None, None);
    assert_eq!(d.rename(PROMOTE_LIGHT), Err(RenameError { step: PROMOTE_LIGHT }));
    assert_eq!(d, dir(Some("X"), None, None));
}

#[test]
fn a_rename_onto_itself_changes_nothing() {
    let same = Rename { source: TerminalFile::Active, target: TerminalFile::Active };
    let mut d = dir(Some("X"), None, None);
    assert_eq!(d.rename(same), Ok(()));
    assert_eq!(d, dir(Some("X"), None, None));
    let mut e = dir(None, Some("Y"), None);
    assert_eq!(e.rename(same), Err(RenameError { step: same }));
    assert_eq!(e, dir(None, Some("Y"), None));
}

#[test]
fn renames_stop_at_the_first_that_fails() {
    let mut d = dir(Some("X"), None, None);
    let steps = vec![TO_ARCHIVE_DARK, PROMOTE_LIGHT, PROMOTE_DARK];
    assert_eq!(d.perform(&steps), Err(RenameError { step: PROMOTE_LIGHT }));
    assert_eq!(d, dir(None, None, Some("X")));
}

#[test]
fn renames_are_made_in_order() {
    let mut d = dir(Some("X"), None, None);
    let steps = vec![TO_ARCHIVE_DARK, PROMOTE_DARK, TO_ARCHIVE_LIGHT];
    assert_eq!(d.perform(&steps), Ok(()));
    assert_eq!(d, dir(None, Some("X"), None));
    assert_eq!(d.perform(&vec![]), Ok(()));
    assert_eq!(d, dir(None, Some("X"), None));
}

#[test]
fn a_file_is_there_exactly_where_it_has_text() {
    let d = dir(Some(""), None, Some("Z"));
    assert!(d.has(TerminalFile::Active));
    assert!(!d.has(TerminalFile::LightVariant));
    assert!(d.has(TerminalFile::DarkVariant));
}
