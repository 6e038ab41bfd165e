//! The headless i18n catalog: compiled Fluent bundles keyed by locale, a
//! fallback chain from a locale to its parents and the default locale, and
//! `t(key, args)`, which renders a missing key loudly as `⟦key⟧`.

use vstd::prelude::*;
use vstd::string::StrSliceExecFns;
use fluent::{FluentArgs, FluentAttribute, FluentMessage, FluentResource, FluentValue};
use fluent_syntax::ast::Pattern;
use unic_langid::LanguageIdentifier;
use crate::text::{push_char, push_str, str_equal};
use crate::ui::error::I18nError;

verus! {

/// The index of the first `.` in `k` at or after `from`, or `k.len()`.
pub open spec fn next_dot(k: Seq<char>, from: int) -> int
    decreases k.len() - from,
{
    if from >= k.len() {
        k.len() as int
    } else if k[from] == '.' {
        from
    } else {
        next_dot(k, from + 1)
    }
}

fn find_dot(s: &str, from: usize) -> (r: usize)
    requires
        from <= s@.len(),
    ensures
        r == next_dot(s@, from as int),
        from <= r <= s@.len(),
    decreases s@.len() - from,
{
    let n = s.unicode_len();
    if from >= n {
        n
    } else if s.get_char(from) == '.' {
        from
    } else {
        find_dot(s, from + 1)
    }
}

/// Split a lookup key into `(message_id, optional_attribute)` at its first
/// `.`: `login.submit` addresses the `submit` attribute of `login`.
pub fn split_key(key: &str) -> (r: (&str, Option<&str>))
    ensures
        r.0@ == key_id(key@),
        r.1 is None <==> key_attr(key@) is None,
        r.1 matches Some(a) ==> key_attr(key@) == Some(a@),
{
    let n = key.unicode_len();
    let d = find_dot(key, 0);
    if d < n {
        (key.substring_char(0, d), Some(key.substring_char(d + 1, n)))
    } else {
        (key, None)
    }
}

/// The message id that a lookup key addresses: the key up to its first `.`.
pub open spec fn key_id(key: Seq<char>) -> Seq<char> {
    key.subrange(0, next_dot(key, 0))
}

/// The attribute that a lookup key addresses: what follows its first `.`,
/// if it has one.
pub open spec fn key_attr(key: Seq<char>) -> Option<Seq<char>> {
    if next_dot(key, 0) < key.len() {
        Some(key.subrange(next_dot(key, 0) + 1, key.len() as int))
    } else {
        None
    }
}

/// The marker rendered for a key that resolves in no fallback locale.
pub open spec fn marker_text(key: Seq<char>) -> Seq<char> {
    seq!['⟦'] + key + seq!['⟧']
}

/// The loud marker rendered when a key resolves in no fallback locale:
/// `⟦key⟧`.
pub fn missing_marker(key: &str) -> (s: String)
    ensures
        s@ == marker_text(key@),
{
    let mut s = String::new();
    push_char(&mut s, '⟦');
    push_str(&mut s, key);
    push_char(&mut s, '⟧');
    assert(s@ =~= marker_text(key@));
    s
}

} // verus!

verus! {

// ---------------------------------------------------------------------------
// Outside types and what the catalog relies on of them.
// ---------------------------------------------------------------------------

#[verifier::external_type_specification]
#[verifier::external_body]
#[verifier::reject_recursive_types(R)]
#[verifier::reject_recursive_types(M)]
pub struct ExFluentBundle<R, M>(fluent::bundle::FluentBundle<R, M>);

#[verifier::external_type_specification]
#[verifier::external_body]
pub struct ExIntlLangMemoizer(intl_memoizer::concurrent::IntlLangMemoizer);

#[verifier::external_type_specification]
#[verifier::external_body]
pub struct ExFluentResource(FluentResource);

#[verifier::external_type_specification]
#[verifier::external_body]
pub struct ExFluentMessage<'m>(FluentMessage<'m>);

#[verifier::external_type_specification]
#[verifier::external_body]
pub struct ExFluentAttribute<'m>(FluentAttribute<'m>);

#[verifier::external_type_specification]
#[verifier::external_body]
#[verifier::reject_recursive_types(S)]
pub struct ExPattern<S>(Pattern<S>);

#[verifier::external_type_specification]
#[verifier::external_body]
pub struct ExFluentArgs<'a>(FluentArgs<'a>);

#[verifier::external_type_specification]
#[verifier::external_body]
pub struct ExFluentValue<'a>(FluentValue<'a>);

#[verifier::external_type_specification]
#[verifier::external_body]
pub struct ExLanguageIdentifier(LanguageIdentifier);

/// A compiled, thread-safe Fluent bundle.
pub type Bundle = fluent::concurrent::FluentBundle<FluentResource>;

/// What a bundle or resource knows of one id: `Some((has_value, attributes))`
/// for a message, `None` for a term.
pub type EntryShape = Option<(bool, Set<Seq<char>>)>;

/// The entries of a compiled bundle, by id.
pub uninterp spec fn bundle_entries(
    b: Bundle,
) -> Map<Seq<char>, EntryShape>;

/// The locale a bundle was created for.
pub uninterp spec fn bundle_langid(b: Bundle) -> LanguageIdentifier;

/// Whether a bundle wraps interpolated arguments in Unicode bidi isolation
/// marks.
pub uninterp spec fn bundle_isolating(b: Bundle) -> bool;

/// What parsing a locale tag gives: the language identifier, or nothing when
/// the tag is not well-formed.
pub uninterp spec fn parsed_langid(tag: Seq<char>) -> Option<LanguageIdentifier>;

/// The message and term entries of a parsed resource, in source order.
pub uninterp spec fn resource_entries(r: FluentResource) -> Seq<(Seq<char>, EntryShape)>;

/// The value and attribute names that a message holds.
pub uninterp spec fn message_parts(m: &FluentMessage) -> (bool, Set<Seq<char>>);

/// The values that an argument set binds, by id.
pub uninterp spec fn args_map(a: FluentArgs<'_>) -> Map<Seq<char>, FluentValue<'_>>;

/// The Fluent value made from an integer.
pub uninterp spec fn number_value(n: i64) -> FluentValue<'static>;

/// The Fluent value that borrows a string.
pub uninterp spec fn text_value(s: Seq<char>) -> FluentValue<'static>;

/// The Fluent value that owns a string.
pub uninterp spec fn owned_text_value(s: Seq<char>) -> FluentValue<'static>;

/// The message that a bundle holds under an id.
pub uninterp spec fn message_of(b: &Bundle, id: Seq<char>) -> FluentMessage<'_>;

/// A message's own pattern.
pub uninterp spec fn value_of(m: FluentMessage<'_>) -> Pattern<&str>;

/// A message's attribute of this name.
pub uninterp spec fn attribute_of(m: FluentMessage<'_>, name: Seq<char>) -> FluentAttribute<'_>;

/// An attribute's pattern.
pub uninterp spec fn attribute_pattern(a: FluentAttribute<'_>) -> Pattern<&str>;

/// The text that a bundle renders from a pattern with these argument values,
/// by id.
pub uninterp spec fn pattern_text(
    b: Bundle,
    p: Pattern<&str>,
    args: Map<Seq<char>, FluentValue<'_>>,
) -> Seq<char>;

/// The text that a bundle renders for lookup key `key` with these
/// arguments: the pattern of message `key_id(key)`, or of its attribute
/// `key_attr(key)` for a dotted key.
pub open spec fn key_text(b: &Bundle, key: Seq<char>, args: Map<Seq<char>, FluentValue<'_>>) -> Seq<char> {
    let m = message_of(b, key_id(key));
    match key_attr(key) {
        Some(a) => pattern_text(*b, attribute_pattern(attribute_of(m, a)), args),
        None => pattern_text(*b, value_of(m), args),
    }
}

/// What parsing an FTL source gives: its entries, or the rendering of the
/// parser errors.
pub uninterp spec fn ftl_parse(source: Seq<char>) -> Result<Seq<(Seq<char>, EntryShape)>, Seq<char>>;

/// The rendering of the errors that adding `entries` to a bundle holding
/// `existing` reports.
pub uninterp spec fn overriding_errors(
    existing: Map<Seq<char>, EntryShape>,
    entries: Seq<(Seq<char>, EntryShape)>,
) -> Seq<char>;

/// A bundle with no entries.
pub open spec fn no_entries() -> Map<Seq<char>, EntryShape> {
    Map::empty()
}

/// A parse that gave these entries.
pub open spec fn parsed_as(
    entries: Seq<(Seq<char>, EntryShape)>,
) -> Result<Seq<(Seq<char>, EntryShape)>, Seq<char>> {
    Ok(entries)
}

/// A parse that failed with this rendering of its errors.
pub open spec fn rejected_with(detail: Seq<char>) -> Result<Seq<(Seq<char>, EntryShape)>, Seq<char>> {
    Err(detail)
}

/// The entries of `existing` after adding `entries` one by one, where an id
/// that is already present keeps its first entry.
pub open spec fn add_entries(
    existing: Map<Seq<char>, EntryShape>,
    entries: Seq<(Seq<char>, EntryShape)>,
) -> Map<Seq<char>, EntryShape>
    decreases entries.len(),
{
    if entries.len() == 0 {
        existing
    } else {
        let m = add_entries(existing, entries.drop_last());
        let e = entries.last();
        if m.contains_key(e.0) {
            m
        } else {
            m.insert(e.0, e.1)
        }
    }
}

/// Whether no entry of `entries` repeats an id of `existing` or an earlier
/// entry.
pub open spec fn all_fresh(
    existing: Map<Seq<char>, EntryShape>,
    entries: Seq<(Seq<char>, EntryShape)>,
) -> bool
    decreases entries.len(),
{
    if entries.len() == 0 {
        true
    } else {
        all_fresh(existing, entries.drop_last()) && !add_entries(
            existing,
            entries.drop_last(),
        ).contains_key(entries.last().0)
    }
}

/// `LanguageIdentifier::from_str`: the parsed identifier, or `None` when
/// the tag is not well-formed (the parse error itself is dropped).
#[verifier::external_body]
fn parse_langid(locale: &str) -> (r: Option<LanguageIdentifier>)
    ensures
        r == parsed_langid(locale@),
{
    locale.parse().ok()
}

/// `LanguageIdentifier::default`: the undetermined language, with no
/// script, region or variant, which is also what parsing `und` gives.
#[verifier::external_body]
fn default_langid() -> (r: LanguageIdentifier)
    ensures
        parsed_langid("und"@) == Some(r),
{
    LanguageIdentifier::default()
}

/// `FluentBundle::new_concurrent`: a bundle for one locale, holding no
/// entries yet, and isolating interpolated arguments.
#[verifier::external_body]
fn new_bundle(langid: LanguageIdentifier) -> (r: Bundle)
    ensures
        bundle_entries(r) == no_entries(),
        bundle_langid(r) == langid,
        bundle_isolating(r),
{
    fluent::concurrent::FluentBundle::new_concurrent(vec![langid])
}

/// `FluentBundle::set_use_isolating`: sets whether interpolated arguments
/// are bidi-isolated; the entries and the locale are untouched.
#[verifier::external_body]
fn set_isolating(b: &mut Bundle, on: bool)
    ensures
        bundle_entries(*final(b)) == bundle_entries(*old(b)),
        bundle_langid(*final(b)) == bundle_langid(*old(b)),
        bundle_isolating(*final(b)) == on,
{
    b.set_use_isolating(on)
}

/// `FluentResource::try_new`: parses an FTL source; on failure, the parser
/// errors rendered with `Debug`.
#[verifier::external_body]
fn parse_resource(source: String) -> (r: Result<FluentResource, String>)
    ensures
        r matches Ok(res) ==> ftl_parse(source@) == parsed_as(resource_entries(res)),
        r matches Err(d) ==> ftl_parse(source@) == rejected_with(d@),
{
    FluentResource::try_new(source).map_err(|(_, errs)| format!("{errs:?}"))
}

/// `FluentBundle::add_resource`: adds each message and term of the resource
/// whose id is not yet taken (the locale and isolation are untouched); it fails, with the overriding errors rendered
/// with `Debug`, when some id was taken.
#[verifier::external_body]
fn add_resource(
    b: &mut Bundle,
    res: FluentResource,
) -> (r: Result<(), String>)
    ensures
        bundle_entries(*final(b)) == add_entries(bundle_entries(*old(b)), resource_entries(res)),
        bundle_langid(*final(b)) == bundle_langid(*old(b)),
        bundle_isolating(*final(b)) == bundle_isolating(*old(b)),
        r is Ok <==> all_fresh(bundle_entries(*old(b)), resource_entries(res)),
        r matches Err(d) ==> d@ == overriding_errors(
            bundle_entries(*old(b)),
            resource_entries(res),
        ),
{
    b.add_resource(res).map_err(|errs| format!("{errs:?}"))
}

/// `FluentBundle::get_message`: the message entry with this id, if any.
#[verifier::external_body]
fn bundle_message<'l>(
    b: &'l Bundle,
    id: &str,
) -> (r: Option<FluentMessage<'l>>)
    ensures
        r is Some <==> (bundle_entries(*b).contains_key(id@) && bundle_entries(*b)[id@] is Some),
        r matches Some(m) ==> Some(message_parts(&m)) == bundle_entries(*b)[id@],
        r matches Some(m) ==> m == message_of(b, id@),
{
    b.get_message(id)
}

/// `FluentMessage::value`: the message's own pattern, if it has one.
#[verifier::external_body]
fn message_value<'m>(m: &FluentMessage<'m>) -> (r: Option<&'m Pattern<&'m str>>)
    ensures
        r is Some <==> message_parts(m).0,
        r matches Some(p) ==> *p == value_of(*m),
{
    m.value()
}

/// `FluentMessage::get_attribute`: the attribute with this name, if any.
#[verifier::external_body]
fn message_attribute<'m>(m: &FluentMessage<'m>, name: &str) -> (r: Option<FluentAttribute<'m>>)
    ensures
        r is Some <==> message_parts(m).1.contains(name@),
        r matches Some(a) ==> a == attribute_of(*m, name@),
{
    m.get_attribute(name)
}

/// `FluentAttribute::value`: the attribute's pattern.
#[verifier::external_body]
fn attribute_value<'m>(a: &FluentAttribute<'m>) -> (r: &'m Pattern<&'m str>)
    ensures
        *r == attribute_pattern(*a),
{
    a.value()
}

/// `FluentBundle::format_pattern`: the pattern rendered with the arguments
/// (formatting errors are collected and dropped, as the text is still
/// rendered). The text is a function of the bundle (its locale, plural
/// rules and isolation flag), the pattern and the arguments, and is stated
/// through the name [`pattern_text`]; what that text is for given values
/// (interpolation, plural and select choices) is not spelled out.
#[verifier::external_body]
fn format_pattern<'b>(
    b: &'b Bundle,
    p: &'b Pattern<&'b str>,
    args: &FluentArgs,
) -> (r: String)
    ensures
        r@ == pattern_text(*b, *p, args_map(*args)),
{
    let mut errors = Vec::new();
    b.format_pattern(p, Some(args), &mut errors).into_owned()
}

/// `FluentArgs::new`: binds nothing.
#[verifier::external_body]
fn new_fluent_args<'a>() -> (r: FluentArgs<'a>)
    ensures
        args_map(r).dom().is_empty(),
{
    FluentArgs::new()
}

/// `FluentArgs::set`: binds `key` to `value`, replacing an earlier binding
/// of `key` (the arguments are a vector sorted by key with each key once,
/// and are only ever read by key).
#[verifier::external_body]
fn fluent_args_set<'a>(a: &mut FluentArgs<'a>, key: &'a str, value: FluentValue<'a>)
    ensures
        args_map(*final(a)) == args_map(*old(a)).insert(key@, value),
{
    a.set(key, value)
}

// ---------------------------------------------------------------------------
// Arguments.
// ---------------------------------------------------------------------------

/// Builder for Fluent arguments: numbers drive plural selection, strings
/// drive gender/select.
pub struct TransArgs<'a> {
    inner: FluentArgs<'a>,
}

/// `FluentValue::from(i64)`: a number.
#[verifier::external_body]
fn number_fluent_value<'a>(n: i64) -> (r: FluentValue<'a>)
    ensures
        r == number_value(n),
{
    FluentValue::from(n)
}

/// `FluentValue::from(&str)`: a string that borrows `s`.
#[verifier::external_body]
fn text_fluent_value<'a>(s: &'a str) -> (r: FluentValue<'a>)
    ensures
        r == text_value(s@),
{
    FluentValue::from(s)
}

/// `FluentValue::from(String)`: a string that owns `s`.
#[verifier::external_body]
fn owned_text_fluent_value<'a>(s: String) -> (r: FluentValue<'a>)
    ensures
        r == owned_text_value(s@),
{
    FluentValue::from(s)
}

/// A value that can be bound as a Fluent argument: numbers drive plural
/// selection, strings drive select expressions and interpolation.
pub trait ArgValue<'a> {
    /// The Fluent value this becomes.
    spec fn fluent_value(&self) -> FluentValue<'a>;

    /// Convert into the Fluent value.
    fn into_fluent(self) -> (r: FluentValue<'a>)
        ensures
            r == self.fluent_value(),
    ;
}

impl<'a> ArgValue<'a> for i64 {
    open spec fn fluent_value(&self) -> FluentValue<'a> {
        number_value(*self)
    }

    fn into_fluent(self) -> (r: FluentValue<'a>) {
        number_fluent_value(self)
    }
}

impl<'a> ArgValue<'a> for &'a str {
    open spec fn fluent_value(&self) -> FluentValue<'a> {
        text_value(self@)
    }

    fn into_fluent(self) -> (r: FluentValue<'a>) {
        text_fluent_value(self)
    }
}

impl<'a> ArgValue<'a> for String {
    open spec fn fluent_value(&self) -> FluentValue<'a> {
        owned_text_value(self@)
    }

    fn into_fluent(self) -> (r: FluentValue<'a>) {
        owned_text_fluent_value(self)
    }
}

impl<'a> TransArgs<'a> {
    /// The values bound so far, by id.
    pub closed spec fn values(&self) -> Map<Seq<char>, FluentValue<'a>> {
        args_map(self.inner)
    }

    /// The ids bound so far.
    pub open spec fn keys(&self) -> Set<Seq<char>> {
        self.values().dom()
    }

    /// An empty argument set.
    pub fn new() -> (r: Self)
        ensures
            r.values() == Map::<Seq<char>, FluentValue<'a>>::empty(),
    {
        let r = TransArgs { inner: new_fluent_args() };
        assert(r.values() =~= Map::<Seq<char>, FluentValue<'a>>::empty());
        r
    }

    /// Bind `key` to `value` (replacing an earlier binding); chainable.
    pub fn set<V: ArgValue<'a>>(self, key: &'a str, value: V) -> (r: Self)
        ensures
            r.values() == self.values().insert(key@, value.fluent_value()),
    {
        let mut inner = self.inner;
        let v = value.into_fluent();
        fluent_args_set(&mut inner, key, v);
        TransArgs { inner }
    }

    fn as_fluent(&self) -> (r: &FluentArgs<'a>)
        ensures
            args_map(*r) == self.values(),
    {
        &self.inner
    }
}

impl<'a> Default for TransArgs<'a> {
    fn default() -> (r: Self)
        ensures
            r.values() == Map::<Seq<char>, FluentValue<'a>>::empty(),
    {
        TransArgs::new()
    }
}

// ---------------------------------------------------------------------------
// Fallback chains.
// ---------------------------------------------------------------------------

/// The index of the last `-` in `s`, or `-1` when it has none.
pub open spec fn last_dash(s: Seq<char>) -> int
    decreases s.len(),
{
    if s.len() == 0 {
        -1
    } else if s.last() == '-' {
        s.len() - 1
    } else {
        last_dash(s.drop_last())
    }
}

/// A locale tag followed by its parents, most specific first: `fr-CA` gives
/// `fr-CA`, `fr`.
pub open spec fn parents(s: Seq<char>) -> Seq<Seq<char>>
    decreases s.len(),
{
    let i = last_dash(s);
    if 0 <= i < s.len() {
        seq![s] + parents(s.subrange(0, i))
    } else {
        seq![s]
    }
}

/// The locales that a lookup tries, in order: the locale, its parents, then
/// the default locale unless it is already among them.
pub open spec fn fallback_chain(locale: Seq<char>, default_locale: Seq<char>) -> Seq<Seq<char>> {
    if parents(locale).contains(default_locale) {
        parents(locale)
    } else {
        parents(locale).push(default_locale)
    }
}

proof fn lemma_last_dash(s: Seq<char>)
    ensures
        -1 <= last_dash(s) < s.len(),
        last_dash(s) >= 0 ==> s[last_dash(s)] == '-',
        forall|j: int| last_dash(s) < j < s.len() ==> s[j] != '-',
    decreases s.len(),
{
    if s.len() > 0 && s.last() != '-' {
        let t = s.drop_last();
        lemma_last_dash(t);
        assert forall|j: int| last_dash(s) < j < s.len() implies s[j] != '-' by {
            if j < t.len() {
                assert(t[j] == s[j]);
            }
        }
    }
}

proof fn lemma_parents_nonempty(s: Seq<char>)
    ensures
        parents(s).len() >= 1,
        parents(s)[0] == s,
    decreases s.len(),
{
    lemma_last_dash(s);
    let i = last_dash(s);
    if 0 <= i < s.len() {
        lemma_parents_nonempty(s.subrange(0, i));
    }
}

/// The index of the last `-` in `s`, if any.
fn find_last_dash(s: &str) -> (r: Option<usize>)
    ensures
        match r {
            Some(i) => i == last_dash(s@) && i < s@.len(),
            None => last_dash(s@) < 0,
        },
{
    let n = s.unicode_len();
    let mut k: usize = n;
    proof {
        lemma_last_dash(s@);
    }
    while k > 0
        invariant
            k <= n == s@.len(),
            last_dash(s@) < k as int,
            -1 <= last_dash(s@) < s@.len(),
            last_dash(s@) >= 0 ==> s@[last_dash(s@)] == '-',
            forall|j: int| last_dash(s@) < j < s@.len() ==> s@[j] != '-',
        decreases k,
    {
        if s.get_char(k - 1) == '-' {
            return Some(k - 1);
        }
        k = k - 1;
    }
    None
}

// ---------------------------------------------------------------------------
// The catalog.
// ---------------------------------------------------------------------------

/// What a compiled bundle holds: its entries by id, the locale it was
/// created for (which picks its plural rules), and whether it isolates
/// interpolated arguments.
pub ghost struct BundleView {
    pub entries: Map<Seq<char>, EntryShape>,
    pub langid: LanguageIdentifier,
    pub isolating: bool,
}

/// What a bundle holds.
pub open spec fn bundle_view_of(b: Bundle) -> BundleView {
    BundleView { entries: bundle_entries(b), langid: bundle_langid(b), isolating: bundle_isolating(b) }
}

/// The language identifier a catalog uses for locale tag `tag`: the parsed
/// tag, or the undetermined language when it does not parse.
pub open spec fn langid_for(tag: Seq<char>) -> LanguageIdentifier {
    match parsed_langid(tag) {
        Some(l) => l,
        None => parsed_langid("und"@)->0,
    }
}

/// The bundle compiled from `source` for locale `tag`, with isolation `on`.
pub open spec fn compiled(tag: Seq<char>, source: Seq<char>, on: bool) -> BundleView {
    BundleView { entries: ftl_entries(source), langid: langid_for(tag), isolating: on }
}

/// What a catalog holds: its default (final-fallback) locale, its bundles
/// by locale, in the order the locales were first added, and whether bundles
/// added from now on isolate interpolated arguments.
pub ghost struct CatalogView {
    pub default_locale: Seq<char>,
    pub bundles: Seq<(Seq<char>, BundleView)>,
    pub isolating: bool,
}

/// Whether `i` is the first position of locale `loc` in `bundles`.
pub open spec fn is_first_index(
    bundles: Seq<(Seq<char>, BundleView)>,
    loc: Seq<char>,
    i: int,
) -> bool {
    &&& 0 <= i < bundles.len()
    &&& bundles[i].0 == loc
    &&& forall|j: int| 0 <= j < i ==> bundles[j].0 != loc
}

/// The bundle registered for exactly `loc`, if any.
pub open spec fn bundle_at(v: CatalogView, loc: Seq<char>) -> Option<BundleView> {
    if exists|i: int| is_first_index(v.bundles, loc, i) {
        Some(v.bundles[choose|i: int| is_first_index(v.bundles, loc, i)].1)
    } else {
        None
    }
}

/// The entries of the bundle registered for exactly `loc`, if any.
pub open spec fn entries_for(v: CatalogView, loc: Seq<char>) -> Option<Map<Seq<char>, EntryShape>> {
    match bundle_at(v, loc) {
        Some(b) => Some(b.entries),
        None => None,
    }
}

/// Whether a bundle is registered for `loc` or one of its parents.
pub open spec fn supported(v: CatalogView, loc: Seq<char>) -> bool {
    exists|k: int| 0 <= k < parents(loc).len() && (#[trigger] entries_for(v, parents(loc)[k])) is Some
}

/// `v` with `b` as the bundle for `loc`: replaced in place when the locale
/// is registered, appended otherwise.
pub open spec fn with_bundle(
    v: CatalogView,
    loc: Seq<char>,
    entries: BundleView,
) -> CatalogView {
    if exists|i: int| is_first_index(v.bundles, loc, i) {
        CatalogView {
            bundles: v.bundles.update(choose|i: int| is_first_index(v.bundles, loc, i), (loc, entries)),
            ..v
        }
    } else {
        CatalogView { bundles: v.bundles.push((loc, entries)), ..v }
    }
}

/// Whether the locales of `bundles` are pairwise distinct.
pub open spec fn distinct_locales(bundles: Seq<(Seq<char>, BundleView)>) -> bool {
    forall|i: int, j: int|
        0 <= i < bundles.len() && 0 <= j < bundles.len() && i != j ==> bundles[i].0 != bundles[j].0
}

/// Whether adding `source` to a catalog succeeds: it parses, and no id
/// repeats within it.
pub open spec fn add_succeeds(source: Seq<char>) -> bool {
    match ftl_parse(source) {
        Ok(es) => all_fresh(no_entries(), es),
        Err(_) => false,
    }
}

/// The entries of the bundle compiled from `source`.
pub open spec fn ftl_entries(source: Seq<char>) -> Map<Seq<char>, EntryShape> {
    match ftl_parse(source) {
        Ok(es) => add_entries(no_entries(), es),
        Err(_) => no_entries(),
    }
}

/// Whether `e` is the error that adding `source` for `locale` reports.
pub open spec fn add_error_is(e: I18nError, locale: Seq<char>, source: Seq<char>) -> bool {
    match ftl_parse(source) {
        Err(d) => e matches I18nError::FluentParse { locale: l, detail } && l@ == locale && detail@
            == d,
        Ok(es) => e matches I18nError::ResourceAdd { locale: l, detail } && l@ == locale
            && detail@ == overriding_errors(no_entries(), es),
    }
}

/// `v` after adding each `(locale, source)` pair in turn, all of which
/// succeed.
pub open spec fn built_from(v: CatalogView, srcs: Seq<(Seq<char>, Seq<char>)>) -> CatalogView
    decreases srcs.len(),
{
    if srcs.len() == 0 {
        v
    } else {
        with_bundle(
            built_from(v, srcs.drop_last()),
            srcs.last().0,
            compiled(srcs.last().0, srcs.last().1, v.isolating),
        )
    }
}

/// The catalog that [`Catalog::from_sources`] starts from: the first
/// pair's locale is the default locale (`en` when there is no pair).
pub open spec fn initial_view(srcs: Seq<(Seq<char>, Seq<char>)>) -> CatalogView {
    CatalogView {
        default_locale: if srcs.len() == 0 {
            "en"@
        } else {
            srcs[0].0
        },
        bundles: Seq::empty(),
        isolating: false,
    }
}

/// The `(locale, source)` pairs as character sequences.
pub open spec fn source_views(sources: Seq<(&str, &str)>) -> Seq<(Seq<char>, Seq<char>)> {
    sources.map_values(|p: (&str, &str)| (p.0@, p.1@))
}

/// Whether a bundle's entries give a pattern for message `id` (its value,
/// or its attribute `attr`).
pub open spec fn resolves(
    entries: Map<Seq<char>, EntryShape>,
    id: Seq<char>,
    attr: Option<Seq<char>>,
) -> bool {
    &&& entries.contains_key(id)
    &&& match entries[id] {
        Some(shape) => match attr {
            Some(a) => shape.1.contains(a),
            None => shape.0,
        },
        None => false,
    }
}

/// Whether lookup key `key` resolves in the bundle registered for `loc`.
pub open spec fn resolves_in(v: CatalogView, loc: Seq<char>, key: Seq<char>) -> bool {
    match entries_for(v, loc) {
        Some(m) => resolves(m, key_id(key), key_attr(key)),
        None => false,
    }
}

/// Whether position `k` of `chain` is the first at which lookup key `key`
/// resolves.
pub open spec fn first_resolving(v: CatalogView, chain: Seq<Seq<char>>, key: Seq<char>, k: int) -> bool {
    &&& 0 <= k < chain.len()
    &&& resolves_in(v, chain[k], key)
    &&& forall|q: int| 0 <= q < k ==> !resolves_in(v, #[trigger] chain[q], key)
}

proof fn lemma_first_resolving_unique(v: CatalogView, chain: Seq<Seq<char>>, key: Seq<char>, k: int)
    requires
        first_resolving(v, chain, key, k),
    ensures
        (choose|j: int| first_resolving(v, chain, key, j)) == k,
{
    let j = choose|j: int| first_resolving(v, chain, key, j);
    assert(first_resolving(v, chain, key, j));
    if j < k {
        assert(resolves_in(v, chain[j], key));
    } else if k < j {
        assert(resolves_in(v, chain[k], key));
    }
}

proof fn lemma_first_index_unique(
    bundles: Seq<(Seq<char>, BundleView)>,
    loc: Seq<char>,
    i: int,
)
    requires
        is_first_index(bundles, loc, i),
    ensures
        (choose|j: int| is_first_index(bundles, loc, j)) == i,
{
    let j = choose|j: int| is_first_index(bundles, loc, j);
    assert(is_first_index(bundles, loc, j));
    if j < i {
        assert(bundles[j].0 != loc);
    } else if i < j {
        assert(bundles[i].0 != loc);
    }
}

/// Registering a bundle for `loc` is what a later lookup of `loc` sees, and
/// every other locale keeps the bundle it had; locales stay distinct.
pub proof fn lemma_with_bundle_lookup(
    v: CatalogView,
    loc: Seq<char>,
    entries: BundleView,
    other: Seq<char>,
)
    ensures
        bundle_at(with_bundle(v, loc, entries), loc) == Some(entries),
        other != loc ==> bundle_at(with_bundle(v, loc, entries), other) == bundle_at(v, other),
        distinct_locales(v.bundles) ==> distinct_locales(with_bundle(v, loc, entries).bundles),
{
    let w = with_bundle(v, loc, entries);
    if exists|i: int| is_first_index(v.bundles, loc, i) {
        let i = choose|i: int| is_first_index(v.bundles, loc, i);
        assert(w.bundles == v.bundles.update(i, (loc, entries)));
        assert(is_first_index(w.bundles, loc, i));
        lemma_first_index_unique(w.bundles, loc, i);
        if other != loc {
            assert forall|j: int| is_first_index(w.bundles, other, j) <==> is_first_index(v.bundles, other, j) by {
                if 0 <= j < w.bundles.len() {
                    assert(w.bundles[j].0 == v.bundles[j].0);
                }
                if is_first_index(v.bundles, other, j) {
                    assert forall|q: int| 0 <= q < j implies w.bundles[q].0 != other by {
                        assert(w.bundles[q].0 == v.bundles[q].0);
                    }
                }
                if is_first_index(w.bundles, other, j) {
                    assert forall|q: int| 0 <= q < j implies v.bundles[q].0 != other by {
                        assert(w.bundles[q].0 == v.bundles[q].0);
                    }
                }
            }
            if exists|j: int| is_first_index(v.bundles, other, j) {
                let j = choose|j: int| is_first_index(v.bundles, other, j);
                lemma_first_index_unique(w.bundles, other, j);
                assert(w.bundles[j] == v.bundles[j]);
            }
        }
        if distinct_locales(v.bundles) {
            assert forall|a: int, b: int|
                0 <= a < w.bundles.len() && 0 <= b < w.bundles.len() && a != b implies w.bundles[a].0
                != w.bundles[b].0 by {
                assert(w.bundles[a].0 == v.bundles[a].0);
                assert(w.bundles[b].0 == v.bundles[b].0);
            }
        }
    } else {
        let n = v.bundles.len() as int;
        assert(w.bundles == v.bundles.push((loc, entries)));
        assert forall|q: int| 0 <= q < n implies v.bundles[q].0 != loc by {
            if v.bundles[q].0 == loc {
                lemma_some_first_index(v.bundles, loc, q);
            }
        }
        assert(is_first_index(w.bundles, loc, n));
        lemma_first_index_unique(w.bundles, loc, n);
        if other != loc {
            assert forall|j: int| is_first_index(w.bundles, other, j) <==> is_first_index(v.bundles, other, j) by {
                if 0 <= j < n {
                    assert(w.bundles[j].0 == v.bundles[j].0);
                }
                if is_first_index(v.bundles, other, j) {
                    assert forall|q: int| 0 <= q < j implies w.bundles[q].0 != other by {
                        assert(w.bundles[q].0 == v.bundles[q].0);
                    }
                }
                if is_first_index(w.bundles, other, j) {
                    assert forall|q: int| 0 <= q < j implies v.bundles[q].0 != other by {
                        assert(w.bundles[q].0 == v.bundles[q].0);
                    }
                }
            }
            if exists|j: int| is_first_index(v.bundles, other, j) {
                let j = choose|j: int| is_first_index(v.bundles, other, j);
                lemma_first_index_unique(w.bundles, other, j);
                assert(w.bundles[j] == v.bundles[j]);
            }
        }
        if distinct_locales(v.bundles) {
            assert forall|a: int, b: int|
                0 <= a < w.bundles.len() && 0 <= b < w.bundles.len() && a != b implies w.bundles[a].0
                != w.bundles[b].0 by {
                if a < n && b < n {
                    assert(w.bundles[a].0 == v.bundles[a].0);
                    assert(w.bundles[b].0 == v.bundles[b].0);
                } else if a < n {
                    assert(w.bundles[a].0 == v.bundles[a].0);
                } else if b < n {
                    assert(w.bundles[b].0 == v.bundles[b].0);
                }
            }
        }
    }
}

/// A locale that occurs in `bundles` has a first position there.
proof fn lemma_some_first_index(
    bundles: Seq<(Seq<char>, BundleView)>,
    loc: Seq<char>,
    q: int,
)
    requires
        0 <= q < bundles.len(),
        bundles[q].0 == loc,
    ensures
        exists|i: int| is_first_index(bundles, loc, i),
    decreases q,
{
    if exists|j: int| 0 <= j < q && bundles[j].0 == loc {
        let j = choose|j: int| 0 <= j < q && bundles[j].0 == loc;
        lemma_some_first_index(bundles, loc, j);
    } else {
        assert(is_first_index(bundles, loc, q));
    }
}

/// Compiled Fluent bundles keyed by BCP-47 locale, with a fallback chain.
/// Purely in memory: build it from FTL sources, query it with
/// [`Catalog::t`].
pub struct Catalog {
    bundles: Vec<(String, Bundle)>,
    default_locale: String,
    use_isolating: bool,
}

impl View for Catalog {
    type V = CatalogView;

    closed spec fn view(&self) -> CatalogView {
        CatalogView {
            default_locale: self.default_locale@,
            bundles: self.bundles@.map_values(|e: (String, Bundle)| (e.0@, bundle_view_of(e.1))),
            isolating: self.use_isolating,
        }
    }
}

impl Default for Catalog {
    fn default() -> (c: Self)
        ensures
            c@.default_locale == "en"@,
            c@.bundles.len() == 0,
            !c@.isolating,
    {
        Catalog::new("en")
    }
}

impl Catalog {
    /// An empty catalog with `default_locale` as the final fallback.
    pub fn new(default_locale: &str) -> (c: Self)
        ensures
            c@.default_locale == default_locale@,
            c@.bundles.len() == 0,
            !c@.isolating,
    {
        let c = Catalog { bundles: Vec::new(), default_locale: default_locale.to_owned(), use_isolating: false };
        assert(c@.bundles =~= Seq::<(Seq<char>, BundleView)>::empty());
        c
    }

    /// Toggle Unicode bidi isolation of interpolated arguments for bundles
    /// added from now on.
    pub fn isolating(self, on: bool) -> (c: Self)
        ensures
            c@ == (CatalogView { isolating: on, ..self@ }),
    {
        let mut c = self;
        c.use_isolating = on;
        c
    }

    /// The compiled bundle registered for exactly `loc`, when there is one.
    pub closed spec fn bundle_for(&self, loc: Seq<char>) -> Bundle {
        self.bundles@[choose|i: int| is_first_index(self@.bundles, loc, i)].1
    }

    /// The compiled bundle registered for a locale is the one the view
    /// describes: its entries, locale and isolation.
    pub proof fn lemma_bundle_for(&self, loc: Seq<char>)
        requires
            bundle_at(self@, loc) is Some,
        ensures
            bundle_view_of(self.bundle_for(loc)) == bundle_at(self@, loc)->0,
    {
        let i = choose|i: int| is_first_index(self@.bundles, loc, i);
        assert(self@.bundles[i] == (self.bundles@[i].0@, bundle_view_of(self.bundles@[i].1)));
    }

    /// What [`Catalog::t`] renders for `key` in `locale`: the text of the
    /// first locale along the fallback chain whose bundle resolves the key,
    /// rendered with `args`; the marker `⟦key⟧` when none does.
    pub open spec fn translation(
        &self,
        locale: Seq<char>,
        key: Seq<char>,
        args: Map<Seq<char>, FluentValue<'_>>,
    ) -> Seq<char> {
        let chain = fallback_chain(locale, self@.default_locale);
        if exists|k: int| first_resolving(self@, chain, key, k) {
            let k = choose|k: int| first_resolving(self@, chain, key, k);
            key_text(&self.bundle_for(chain[k]), key, args)
        } else {
            marker_text(key)
        }
    }

    /// The position of the bundle registered for exactly `loc`.
    fn find(&self, loc: &str) -> (r: Option<usize>)
        ensures
            match r {
                Some(i) => is_first_index(self@.bundles, loc@, i as int),
                None => forall|j: int| 0 <= j < self@.bundles.len() ==> self@.bundles[j].0 != loc@,
            },
    {
        let mut i: usize = 0;
        while i < self.bundles.len()
            invariant
                i <= self.bundles.len() == self@.bundles.len(),
                forall|j: int| 0 <= j < i ==> self@.bundles[j].0 != loc@,
            decreases self.bundles.len() - i,
        {
            if str_equal(self.bundles[i].0.as_str(), loc) {
                return Some(i);
            }
            i = i + 1;
        }
        None
    }

    /// True if a bundle is registered for this exact locale.
    pub fn has_locale(&self, locale: &str) -> (r: bool)
        ensures
            r == entries_for(self@, locale@) is Some,
    {
        match self.find(locale) {
            Some(i) => {
                assert(is_first_index(self@.bundles, locale@, i as int));
                true
            },
            None => false,
        }
    }

    /// True if this locale or one of its parents has a bundle; the default
    /// locale does not count, so this reflects genuine support.
    pub fn supports(&self, locale: &str) -> (r: bool)
        ensures
            r == supported(self@, locale@),
    {
        let mut cur: &str = locale;
        let ghost mut k: int = 0;
        proof {
            lemma_parents_nonempty(locale@);
        }
        loop
            invariant
                0 <= k < parents(locale@).len(),
                cur@ == parents(locale@)[k],
                parents(cur@) =~= parents(locale@).subrange(k, parents(locale@).len() as int),
                forall|q: int| 0 <= q < k ==> entries_for(self@, #[trigger] parents(locale@)[q]) is None,
            decreases parents(locale@).len() - k,
        {
            if self.has_locale(cur) {
                return true;
            }
            match find_last_dash(cur) {
                Some(idx) => {
                    proof {
                        lemma_last_dash(cur@);
                        lemma_parents_nonempty(cur@.subrange(0, idx as int));
                        assert(parents(cur@) == seq![cur@] + parents(cur@.subrange(0, idx as int)));
                        assert(parents(cur@.subrange(0, idx as int)) =~= parents(cur@).subrange(1, parents(cur@).len() as int));
                    }
                    cur = cur.substring_char(0, idx);
                    proof {
                        k = k + 1;
                    }
                },
                None => {
                    proof {
                        assert(parents(cur@) == seq![cur@]);
                        assert forall|q: int| 0 <= q < parents(locale@).len() implies
                            entries_for(self@, #[trigger] parents(locale@)[q]) is None by {
                            if q >= k {
                                assert(q == k);
                            }
                        }
                    }
                    return false;
                },
            }
        }
    }

    /// The default (final-fallback) locale.
    pub fn default_locale(&self) -> (r: &str)
        ensures
            r@ == self@.default_locale,
    {
        self.default_locale.as_str()
    }

    /// The registered locales, in the order they were first added.
    pub fn locales(&self) -> (r: Vec<&str>)
        ensures
            r@.len() == self@.bundles.len(),
            forall|i: int| 0 <= i < r@.len() ==> r@[i]@ == self@.bundles[i].0,
    {
        let mut out: Vec<&str> = Vec::new();
        let mut i: usize = 0;
        while i < self.bundles.len()
            invariant
                i <= self.bundles.len() == self@.bundles.len(),
                out@.len() == i,
                forall|j: int| 0 <= j < i ==> out@[j]@ == self@.bundles[j].0,
            decreases self.bundles.len() - i,
        {
            out.push(self.bundles[i].0.as_str());
            i = i + 1;
        }
        out
    }

    fn insert_bundle(&mut self, locale: &str, bundle: Bundle)
        ensures
            final(self)@ == with_bundle(old(self)@, locale@, bundle_view_of(bundle)),
    {
        let ghost entries = bundle_view_of(bundle);
        match self.find(locale) {
            Some(i) => {
                proof {
                    lemma_first_index_unique(self@.bundles, locale@, i as int);
                }
                let ghost before = self@;
                self.bundles.set(i, (locale.to_owned(), bundle));
                assert(self@.bundles =~= before.bundles.update(i as int, (locale@, entries)));
            },
            None => {
                let ghost before = self@;
                self.bundles.push((locale.to_owned(), bundle));
                assert(self@.bundles =~= before.bundles.push((locale@, entries)));
            },
        }
    }

    /// Compile `source` and register (or replace) the bundle for `locale`.
    /// Fails, leaving the catalog unchanged, when the source does not parse
    /// or repeats an id.
    pub fn add(&mut self, locale: &str, source: &str) -> (r: Result<(), I18nError>)
        ensures
            r is Ok <==> add_succeeds(source@),
            r is Ok ==> final(self)@ == with_bundle(
                old(self)@,
                locale@,
                compiled(locale@, source@, old(self)@.isolating),
            ),
            r is Err ==> final(self)@ == old(self)@,
            r matches Err(e) ==> add_error_is(e, locale@, source@),
    {
        let langid = match parse_langid(locale) {
            Some(l) => l,
            None => default_langid(),
        };
        let mut bundle = new_bundle(langid);
        set_isolating(&mut bundle, self.use_isolating);
        let resource = match parse_resource(source.to_owned()) {
            Ok(res) => res,
            Err(detail) => {
                return Err(I18nError::FluentParse { locale: locale.to_owned(), detail });
            },
        };
        match add_resource(&mut bundle, resource) {
            Ok(()) => {},
            Err(detail) => {
                return Err(I18nError::ResourceAdd { locale: locale.to_owned(), detail });
            },
        }
        self.insert_bundle(locale, bundle);
        Ok(())
    }

    /// Build a catalog from `(locale, ftl_source)` pairs, added in order; the
    /// first pair's locale becomes the default locale. Fails with the error
    /// of the first pair that does not add.
    pub fn from_sources(sources: &[(&str, &str)]) -> (r: Result<Self, I18nError>)
        ensures
            r is Ok <==> forall|i: int| 0 <= i < sources@.len() ==> add_succeeds(#[trigger] sources@[i].1@),
            r matches Ok(c) ==> c@ == built_from(initial_view(source_views(sources@)), source_views(sources@)),
            r matches Err(e) ==> exists|i: int|
                0 <= i < sources@.len() && !add_succeeds(sources@[i].1@) && (forall|j: int|
                    0 <= j < i ==> add_succeeds(#[trigger] sources@[j].1@)) && add_error_is(
                    e,
                    sources@[i].0@,
                    sources@[i].1@,
                ),
    {
        let ghost srcs = source_views(sources@);
        if sources.len() == 0 {
            let c = Catalog::default();
            assert(c@.bundles =~= initial_view(srcs).bundles);
            assert(c@ == initial_view(srcs));
            assert(srcs.len() == 0);
            return Ok(c);
        }
        let mut cat = Catalog::new(sources[0].0);
        proof {
            assert(srcs[0].0 == sources@[0].0@);
            assert(cat@.bundles =~= initial_view(srcs).bundles);
            assert(cat@ == initial_view(srcs));
            assert(srcs.take(0).len() == 0);
        }
        let mut i: usize = 0;
        while i < sources.len()
            invariant
                i <= sources@.len(),
                srcs == source_views(sources@),
                sources@.len() > 0,
                cat@ == built_from(initial_view(srcs), srcs.take(i as int)),
                cat@.isolating == initial_view(srcs).isolating,
                forall|j: int| 0 <= j < i ==> add_succeeds(#[trigger] sources@[j].1@),
            decreases sources@.len() - i,
        {
            let (locale, source) = sources[i];
            match cat.add(locale, source) {
                Ok(()) => {},
                Err(e) => {
                    return Err(e);
                },
            }
            assert(srcs.take(i + 1).drop_last() =~= srcs.take(i as int));
            i = i + 1;
        }
        assert(srcs.take(i as int) =~= srcs);
        Ok(cat)
    }

    /// Translate `key` for `locale`, walking the fallback chain: the text of
    /// the first locale along the chain whose bundle holds the message (or
    /// its attribute, for a dotted key), rendered with `args`. A key that
    /// resolves nowhere renders loudly as `⟦key⟧`.
    pub fn t(&self, locale: &str, key: &str, args: &TransArgs) -> (r: String)
        ensures
            r@ == self.translation(locale@, key@, args.values()),
            (forall|k: int|
                0 <= k < fallback_chain(locale@, self@.default_locale).len() ==> !resolves_in(
                    self@,
                    #[trigger] fallback_chain(locale@, self@.default_locale)[k],
                    key@,
                )) ==> r@ == marker_text(key@),
    {
        let (id, attr) = split_key(key);
        let chain = self.fallback_chain(locale);
        let ghost spec_chain = fallback_chain(locale@, self@.default_locale);
        let mut i: usize = 0;
        while i < chain.len()
            invariant
                i <= chain@.len() == spec_chain.len(),
                spec_chain == fallback_chain(locale@, self@.default_locale),
                forall|q: int| 0 <= q < chain@.len() ==> chain@[q]@ == spec_chain[q],
                id@ == key_id(key@),
                attr is None <==> key_attr(key@) is None,
                attr matches Some(a) ==> key_attr(key@) == Some(a@),
                forall|q: int| 0 <= q < i ==> !resolves_in(self@, #[trigger] spec_chain[q], key@),
            decreases chain@.len() - i,
        {
            let loc = chain[i].as_str();
            match self.find(loc) {
                None => {
                    assert(entries_for(self@, loc@) is None);
                },
                Some(bi) => {
                    proof {
                        lemma_first_index_unique(self@.bundles, loc@, bi as int);
                    }
                    let bundle = &self.bundles[bi].1;
                    assert(entries_for(self@, loc@) == Some(bundle_entries(*bundle)));
                    assert(self.bundle_for(loc@) == *bundle);
                    match bundle_message(bundle, id) {
                        None => {},
                        Some(msg) => {
                            match attr {
                                Some(a) => match message_attribute(&msg, a) {
                                    Some(at) => {
                                        assert(resolves_in(self@, spec_chain[i as int], key@));
                                        let p = attribute_value(&at);
                                        let text = format_pattern(bundle, p, args.as_fluent());
                                        proof {
                                            assert(first_resolving(self@, spec_chain, key@, i as int));
                                            lemma_first_resolving_unique(self@, spec_chain, key@, i as int);
                                        }
                                        return text;
                                    },
                                    None => {},
                                },
                                None => match message_value(&msg) {
                                    Some(p) => {
                                        assert(resolves_in(self@, spec_chain[i as int], key@));
                                        let text = format_pattern(bundle, p, args.as_fluent());
                                        proof {
                                            assert(first_resolving(self@, spec_chain, key@, i as int));
                                            lemma_first_resolving_unique(self@, spec_chain, key@, i as int);
                                        }
                                        return text;
                                    },
                                    None => {},
                                },
                            }
                        },
                    }
                },
            }
            assert(!resolves_in(self@, spec_chain[i as int], key@));
            i = i + 1;
        }
        assert(!exists|k: int| first_resolving(self@, spec_chain, key@, k));
        missing_marker(key)
    }

    /// The locales to try for `locale`, in order: the locale itself, its
    /// progressively truncated parents (`fr-CA`, then `fr`), then the default
    /// locale unless it already appeared.
    pub fn fallback_chain(&self, locale: &str) -> (r: Vec<String>)
        ensures
            r@.len() == fallback_chain(locale@, self@.default_locale).len(),
            forall|i: int| 0 <= i < r@.len() ==> r@[i]@ == fallback_chain(locale@, self@.default_locale)[i],
    {
        let mut chain: Vec<String> = Vec::new();
        let mut cur: &str = locale;
        let mut seen_default = false;
        let ghost mut k: int = 0;
        proof {
            lemma_parents_nonempty(locale@);
        }
        loop
            invariant_except_break
                0 <= k < parents(locale@).len(),
                cur@ == parents(locale@)[k],
                parents(cur@) =~= parents(locale@).subrange(k, parents(locale@).len() as int),
            invariant
                0 <= k <= parents(locale@).len(),
                chain@.len() == k,
                forall|q: int| 0 <= q < k ==> chain@[q]@ == parents(locale@)[q],
                seen_default == parents(locale@).subrange(0, k).contains(self@.default_locale),
            ensures
                k == parents(locale@).len(),
            decreases parents(locale@).len() - k,
        {
            if str_equal(cur, self.default_locale.as_str()) {
                seen_default = true;
            }
            chain.push(cur.to_owned());
            proof {
                let before = parents(locale@).subrange(0, k);
                let after = parents(locale@).subrange(0, k + 1);
                assert(after =~= before.push(cur@));
                if before.contains(self@.default_locale) {
                    let w = choose|w: int| 0 <= w < before.len() && before[w] == self@.default_locale;
                    assert(after[w] == self@.default_locale);
                }
                if cur@ == self@.default_locale {
                    assert(after[k] == self@.default_locale);
                }
                if after.contains(self@.default_locale) {
                    let w = choose|w: int| 0 <= w < after.len() && after[w] == self@.default_locale;
                    if w < k {
                        assert(before[w] == self@.default_locale);
                    }
                }
                k = k + 1;
            }
            match find_last_dash(cur) {
                Some(idx) => {
                    proof {
                        lemma_last_dash(cur@);
                        lemma_parents_nonempty(cur@.subrange(0, idx as int));
                        assert(parents(cur@) == seq![cur@] + parents(cur@.subrange(0, idx as int)));
                        assert(parents(cur@.subrange(0, idx as int)) =~= parents(cur@).subrange(1, parents(cur@).len() as int));
                    }
                    cur = cur.substring_char(0, idx);
                },
                None => {
                    proof {
                        assert(parents(cur@) == seq![cur@]);
                        assert(k == parents(locale@).len());
                        assert(parents(locale@).subrange(0, k) =~= parents(locale@));
                    }
                    break;
                },
            }
        }
        proof {
            assert(parents(locale@).subrange(0, k) =~= parents(locale@));
        }
        if !seen_default {
            chain.push(self.default_locale.clone());
        }
        chain
    }
}

} // verus!
