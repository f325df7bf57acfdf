//! The editor configuration, which names the editor's theme somewhere in its
//! text.

use crate::text::{
    agree_at, apart, contains, lemma_apart_symmetric, lemma_replaced_absent,
    lemma_replaced_back, lemma_replaced_clears, occurs_in, replace, replaced, unbordered,
};
use crate::theme::Theme;
use vstd::prelude::*;

verus! {

/// The name of the editor's light theme.
pub open spec fn light_token() -> Seq<char> {
    "catppuccin_latte"@
}

/// The name of the editor's dark theme.
pub open spec fn dark_token() -> Seq<char> {
    "catppuccin_mocha"@
}

/// The theme name that a change to `theme` takes out of the configuration.
pub open spec fn stale_token(theme: Theme) -> Seq<char> {
    match theme {
        Theme::Light => dark_token(),
        Theme::Dark => light_token(),
    }
}

/// The theme name that a change to `theme` puts into the configuration.
pub open spec fn fresh_token(theme: Theme) -> Seq<char> {
    match theme {
        Theme::Light => light_token(),
        Theme::Dark => dark_token(),
    }
}

/// The editor configuration's path below the user's configuration directory.
pub open spec fn spec_config_path() -> Seq<char> {
    "helix/config.toml"@
}

/// The editor configuration's path below the user's configuration directory.
pub fn config_path() -> (path: &'static str)
    ensures
        path@ == spec_config_path(),
{
    "helix/config.toml"
}

/// The theme name to take out and the theme name to put in, in this order,
/// when the desktop changes to `theme`.
pub fn tokens(theme: Theme) -> (pair: (&'static str, &'static str))
    ensures
        pair.0@ == stale_token(theme),
        pair.1@ == fresh_token(theme),
{
    match theme {
        Theme::Light => ("catppuccin_mocha", "catppuccin_latte"),
        Theme::Dark => ("catppuccin_latte", "catppuccin_mocha"),
    }
}

/// What the configuration holds once it has been brought to `theme`: every
/// stale theme name replaced by the fresh one, or `content` as it was where no
/// stale name occurs.
pub open spec fn rethemed(content: Seq<char>, theme: Theme) -> Seq<char> {
    if occurs_in(stale_token(theme), content) {
        replaced(content, stale_token(theme), fresh_token(theme))
    } else {
        content
    }
}

/// Brings the configuration text to `theme`. Returns the text to write back
/// in place of `content`, or `None` where `content` names no stale theme and
/// nothing is to be written. The text returned names no stale theme, so that
/// a second call on it returns `None`.
pub fn retheme(content: &str, theme: Theme) -> (update: Option<String>)
    ensures
        update is Some <==> occurs_in(stale_token(theme), content@),
        update matches Some(text) ==> {
            &&& text@ == replaced(content@, stale_token(theme), fresh_token(theme))
            &&& text@ == rethemed(content@, theme)
            &&& !occurs_in(stale_token(theme), text@)
        },
{
    let (stale, fresh) = tokens(theme);
    if contains(content, stale) {
        proof {
            lemma_retheme_idempotent(content@, theme);
        }
        Some(replace(content, stale, fresh))
    } else {
        None
    }
}

/// One position at which `a`, laid over `b` at `shift`, shows another
/// character than `b` is enough for the two not to agree there.
proof fn lemma_differ(a: Seq<char>, b: Seq<char>, shift: int, i: int)
    requires
        0 <= i < a.len(),
        0 <= i + shift < b.len(),
        a[i] != b[i + shift],
    ensures
        !agree_at(a, b, shift),
{
}

/// The two theme names are apart, and neither overlaps itself.
pub proof fn lemma_tokens_apart()
    ensures
        apart(dark_token(), light_token()),
        unbordered(dark_token()),
        unbordered(light_token()),
{
    reveal_strlit("catppuccin_latte");
    reveal_strlit("catppuccin_mocha");
    let dark = dark_token();
    let light = light_token();
    assert(dark.len() == 16 && light.len() == 16);
    lemma_differ(dark, light, 0, 11);
    assert forall|shift: int| 0 < shift < 16 implies !agree_at(dark, light, shift) by {
        if shift == 6 || shift == 7 {
            lemma_differ(dark, light, shift, 1);
        } else {
            lemma_differ(dark, light, shift, 0);
        }
    }
    assert forall|shift: int| 0 < shift < 16 implies !agree_at(light, dark, shift) by {
        if shift == 6 || shift == 7 || shift == 13 {
            lemma_differ(light, dark, shift, 1);
        } else {
            lemma_differ(light, dark, shift, 0);
        }
    }
    assert forall|shift: int| 0 < shift < 16 implies !agree_at(dark, dark, shift) by {
        if shift == 6 || shift == 7 || shift == 13 {
            lemma_differ(dark, dark, shift, 1);
        } else {
            lemma_differ(dark, dark, shift, 0);
        }
    }
    assert forall|shift: int| 0 < shift < 16 implies !agree_at(light, light, shift) by {
        if shift == 6 || shift == 7 {
            lemma_differ(light, light, shift, 1);
        } else {
            lemma_differ(light, light, shift, 0);
        }
    }
}

/// A configuration that has been brought to `theme` names no stale theme any
/// more: bringing it to `theme` again finds nothing to replace and leaves it
/// as it is.
pub proof fn lemma_retheme_idempotent(content: Seq<char>, theme: Theme)
    ensures
        !occurs_in(stale_token(theme), rethemed(content, theme)),
        rethemed(rethemed(content, theme), theme) == rethemed(content, theme),
{
    lemma_tokens_apart();
    lemma_apart_symmetric(dark_token(), light_token());
    lemma_replaced_clears(content, stale_token(theme), fresh_token(theme));
}

/// Bringing a configuration to `theme` and then to the other theme gives it
/// back unchanged exactly where it did not name the fresh theme of `theme`
/// to begin with.
pub proof fn lemma_retheme_round_trip(content: Seq<char>, theme: Theme)
    ensures
        rethemed(rethemed(content, theme), theme.opposite()) == content <==> !occurs_in(
            fresh_token(theme),
            content,
        ),
{
    lemma_tokens_apart();
    lemma_apart_symmetric(dark_token(), light_token());
    let stale = stale_token(theme);
    let fresh = fresh_token(theme);
    let there = rethemed(content, theme);
    let back = rethemed(there, theme.opposite());
    assert(stale.len() > 0 && fresh.len() > 0) by {
        reveal_strlit("catppuccin_latte");
        reveal_strlit("catppuccin_mocha");
    }
    assert(there == replaced(content, stale, fresh)) by {
        if !occurs_in(stale, content) {
            lemma_replaced_absent(content, stale, fresh);
        }
    }
    assert(back == replaced(there, fresh, stale)) by {
        if !occurs_in(fresh, there) {
            lemma_replaced_absent(there, fresh, stale);
        }
    }
    lemma_replaced_clears(there, fresh, stale);
    if !occurs_in(fresh, content) {
        lemma_replaced_back(content, stale, fresh);
    }
}

} // verus!
