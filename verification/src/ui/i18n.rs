//! Runtime i18n state: the active locale, the compiled [`Catalog`] and a
//! [`LocaleFormatter`] for the active locale. The engine wraps it in a
//! resource together with the `.ftl` asset handles used for hot-reload.

use vstd::prelude::*;
use crate::ui::catalog::{
    add_error_is, add_succeeds, built_from, fallback_chain, initial_view, marker_text,
    resolves_in, source_views, supported, Catalog, CatalogView, TransArgs,
};
use crate::ui::error::I18nError;
use crate::ui::format::{rules_for_locale, LocaleFormatter, LocaleRules};

verus! {

/// What an [`I18nBundle`] holds: the active locale, the catalog, and the
/// locale and rules of its formatter.
pub ghost struct I18nView {
    pub locale: Seq<char>,
    pub catalog: CatalogView,
    pub formatter_locale: Seq<char>,
    pub formatter_rules: LocaleRules,
}

/// Whether the formatter follows the active locale.
pub open spec fn formatter_follows(v: I18nView) -> bool {
    &&& v.formatter_locale == v.locale
    &&& v.formatter_rules == rules_for_locale(v.locale)
}

/// The active locale, the compiled catalog, and a formatter that always
/// follows the active locale.
pub struct I18nBundle {
    current_locale: String,
    catalog: Catalog,
    formatter: LocaleFormatter,
}

impl I18nBundle {
    /// The active locale, the catalog and the formatter's locale and rules.
    pub closed spec fn view(&self) -> I18nView {
        I18nView {
            locale: self.current_locale@,
            catalog: self.catalog@,
            formatter_locale: self.formatter.locale_tag(),
            formatter_rules: self.formatter.rules(),
        }
    }

    /// The compiled catalog itself.
    pub closed spec fn catalog_spec(&self) -> Catalog {
        self.catalog
    }

    /// The catalog's view is the view's catalog.
    pub proof fn lemma_catalog_spec(&self)
        ensures
            self.catalog_spec()@ == self.view().catalog,
    {
    }

    /// Build from `(locale, ftl)` sources: `default_locale` becomes the active
    /// locale and the formatter's locale; the catalog is built as
    /// [`Catalog::from_sources`] builds it, and fails as it fails.
    pub fn from_sources(default_locale: &str, sources: &[(&str, &str)]) -> (r: Result<Self, I18nError>)
        ensures
            r is Ok <==> forall|i: int| 0 <= i < sources@.len() ==> add_succeeds(#[trigger] sources@[i].1@),
            r matches Ok(b) ==> b.view().locale == default_locale@ && formatter_follows(b.view())
                && b.view().catalog == built_from(
                initial_view(source_views(sources@)),
                source_views(sources@),
            ),
            r matches Err(e) ==> exists|i: int|
                0 <= i < sources@.len() && !add_succeeds(sources@[i].1@) && (forall|j: int|
                    0 <= j < i ==> add_succeeds(#[trigger] sources@[j].1@)) && add_error_is(
                    e,
                    sources@[i].0@,
                    sources@[i].1@,
                ),
    {
        let catalog = match Catalog::from_sources(sources) {
            Ok(c) => c,
            Err(e) => {
                return Err(e);
            },
        };
        Ok(I18nBundle {
            current_locale: default_locale.to_owned(),
            catalog,
            formatter: LocaleFormatter::new(default_locale),
        })
    }

    /// The active locale.
    pub fn current_locale(&self) -> (r: &str)
        ensures
            r@ == self.view().locale,
    {
        self.current_locale.as_str()
    }

    /// Shared access to the compiled catalog.
    pub fn catalog(&self) -> (r: &Catalog)
        ensures
            r@ == self.view().catalog,
            *r == self.catalog_spec(),
    {
        &self.catalog
    }

    /// Mutable access to the catalog (e.g. to add or replace a bundle on
    /// hot-reload); the active locale and the formatter are untouched.
    pub fn catalog_mut(&mut self) -> (r: &mut Catalog)
        ensures
            r@ == old(self).view().catalog,
            final(self).view() == (I18nView { catalog: final(r)@, ..old(self).view() }),
    {
        &mut self.catalog
    }

    /// The formatter for the active locale.
    pub fn formatter(&self) -> (r: &LocaleFormatter)
        ensures
            r.locale_tag() == self.view().formatter_locale,
            r.rules() == self.view().formatter_rules,
    {
        &self.formatter
    }

    /// Translate `key` in the active locale; a key that resolves nowhere
    /// along the fallback chain renders loudly as `⟦key⟧`.
    pub fn t(&self, key: &str, args: &TransArgs) -> (r: String)
        ensures
            r@ == self.catalog_spec().translation(self.view().locale, key@, args.values()),
            (forall|k: int|
                0 <= k < fallback_chain(self.view().locale, self.view().catalog.default_locale).len()
                    ==> !resolves_in(
                    self.view().catalog,
                    #[trigger] fallback_chain(
                        self.view().locale,
                        self.view().catalog.default_locale,
                    )[k],
                    key@,
                )) ==> r@ == marker_text(key@),
    {
        let r = self.catalog.t(self.current_locale.as_str(), key, args);
        assert(self.view().locale == self.current_locale@ && self.view().catalog == self.catalog@);
        r
    }

    /// Switch the active locale, and the formatter with it, when the catalog
    /// supports the locale or one of its parents; otherwise keep the current
    /// locale, so a typo cannot drop the player into blank strings.
    pub fn set_locale(&mut self, locale: &str)
        ensures
            supported(old(self).view().catalog, locale@) ==> final(self).view().locale == locale@
                && final(self).view().catalog == old(self).view().catalog && formatter_follows(
                final(self).view(),
            ),
            !supported(old(self).view().catalog, locale@) ==> final(self).view() == old(self).view(),
    {
        if self.catalog.supports(locale) {
            let formatter = LocaleFormatter::new(locale);
            let owned = locale.to_owned();
            self.formatter = formatter;
            self.current_locale = owned;
        }
    }
}

impl Default for I18nBundle {
    fn default() -> (b: Self)
        ensures
            b.view().locale == "en"@,
            b.view().catalog.default_locale == "en"@,
            b.view().catalog.bundles.len() == 0,
            formatter_follows(b.view()),
    {
        I18nBundle {
            current_locale: "en".to_owned(),
            catalog: Catalog::default(),
            formatter: LocaleFormatter::default(),
        }
    }
}

} // verus!
