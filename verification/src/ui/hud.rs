//! Retained HUD widget data: a nameplate shows a verbatim display name and an
//! optional translated subtitle line. The engine binds it to a text node.

use vstd::prelude::*;
use crate::text::{push_char, push_str};
use fluent::FluentValue;
use crate::ui::catalog::{fallback_chain, marker_text, resolves_in, TransArgs};
use crate::ui::i18n::I18nBundle;

verus! {

/// A nameplate: a display name shown verbatim (never routed through the
/// catalog) plus an optional i18n key for a subtitle line.
#[derive(Debug, Clone, PartialEq, Default)]
pub struct Nameplate {
    /// Display name, shown verbatim.
    pub name: String,
    /// Optional i18n key for a subtitle/rank line.
    pub subtitle_key: Option<String>,
}

impl Nameplate {
    /// A nameplate showing `name` with no subtitle.
    pub fn new(name: &str) -> (n: Self)
        ensures
            n.name@ == name@,
            n.subtitle_key is None,
    {
        Nameplate { name: name.to_owned(), subtitle_key: None }
    }

    /// Attach a translated subtitle line, addressed by i18n key.
    pub fn with_subtitle(self, key: &str) -> (n: Self)
        ensures
            n.name == self.name,
            n.subtitle_key matches Some(k) && k@ == key@,
    {
        Nameplate { name: self.name, subtitle_key: Some(key.to_owned()) }
    }

    /// The display string: the verbatim name, and, when a key is set, a
    /// second line with the key translated in the active locale (loudly
    /// `⟦key⟧` when it resolves nowhere).
    pub fn resolve(&self, i18n: &I18nBundle) -> (r: String)
        ensures
            self.subtitle_key is None ==> r@ == self.name@,
            self.subtitle_key matches Some(k) ==> r@ == self.name@ + seq!['\n']
                + i18n.catalog_spec().translation(
                i18n.view().locale,
                k@,
                Map::<Seq<char>, FluentValue>::empty(),
            ),
            self.subtitle_key matches Some(k) ==> exists|sub: Seq<char>|
                r@ == self.name@ + seq!['\n'] + sub && ((forall|j: int|
                    0 <= j < fallback_chain(i18n.view().locale, i18n.view().catalog.default_locale).len()
                        ==> !resolves_in(
                        i18n.view().catalog,
                        #[trigger] fallback_chain(
                            i18n.view().locale,
                            i18n.view().catalog.default_locale,
                        )[j],
                        k@,
                    )) ==> sub == marker_text(k@)),
    {
        match &self.subtitle_key {
            Some(key) => {
                let args = TransArgs::new();
                let sub = i18n.t(key.as_str(), &args);
                let mut s = String::new();
                push_str(&mut s, self.name.as_str());
                push_char(&mut s, '\n');
                push_str(&mut s, sub.as_str());
                assert(s@ =~= self.name@ + seq!['\n'] + sub@);
                s
            },
            None => self.name.clone(),
        }
    }
}

} // verus!
