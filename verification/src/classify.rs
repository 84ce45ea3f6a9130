//! The classifier: maps a window's (instance, class) identity pair to one of
//! a fixed, closed set of application categories by first-match-wins ordered
//! rules, with case-sensitive exact string equality.

use vstd::prelude::*;
use crate::text::str_eq;

verus! {

/// The coarse application category of a window. Exactly one category is
/// assigned to every successfully identified window.
#[derive(Clone, Copy, Debug, PartialEq, Eq, Structural)]
pub enum WindowCategory {
    Console,
    Firefox,
    Spotify,
    Discord,
    GenericWindow,
}

/// The category the ordered rules assign to the identity pair
/// `(instance, class)`: a `kitty` class is a console; otherwise a `spotify`
/// instance wins over every class-based rule; then the `firefox` and
/// `discord` classes; anything else is a generic window.
pub open spec fn category_spec(instance: Seq<char>, class: Seq<char>) -> WindowCategory {
    if class == "kitty"@ {
        WindowCategory::Console
    } else if instance == "spotify"@ {
        WindowCategory::Spotify
    } else if class == "firefox"@ {
        WindowCategory::Firefox
    } else if class == "discord"@ {
        WindowCategory::Discord
    } else {
        WindowCategory::GenericWindow
    }
}

/// Classifies an identity pair `(instance, class)`. Total and deterministic:
/// every pair receives exactly one category.
pub fn classify_window(identity: (String, String)) -> (r: WindowCategory)
    ensures
        r == category_spec(identity.0@, identity.1@),
{
    let (instance, class) = identity;
    if str_eq(class.as_str(), "kitty") {
        WindowCategory::Console
    } else if str_eq(instance.as_str(), "spotify") {
        WindowCategory::Spotify
    } else if str_eq(class.as_str(), "firefox") {
        WindowCategory::Firefox
    } else if str_eq(class.as_str(), "discord") {
        WindowCategory::Discord
    } else {
        WindowCategory::GenericWindow
    }
}

/// The classifier's rule order: a `kitty` class always yields `Console`; for
/// any other class, a `spotify` instance yields `Spotify` no matter what the
/// class is; and a pair no rule matches yields `GenericWindow`.
pub proof fn lemma_classifier_rules(instance: Seq<char>, class: Seq<char>)
    ensures
        class == "kitty"@ ==> category_spec(instance, class) == WindowCategory::Console,
        class != "kitty"@ && instance == "spotify"@ ==> category_spec(instance, class)
            == WindowCategory::Spotify,
        class != "kitty"@ && class != "firefox"@ && class != "discord"@ && instance != "spotify"@
            ==> category_spec(instance, class) == WindowCategory::GenericWindow,
{
}

} // verus!
