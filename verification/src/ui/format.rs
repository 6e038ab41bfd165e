//! Locale-aware formatting for integers, money and dates, computed from
//! locale rules (never stored as strings). Money is carried as integer minor
//! units. Unknown locales fall back to `en` rules; group separators use an
//! ASCII space where CLDR prefers a narrow no-break space.

use vstd::prelude::*;
use vstd::string::StrSliceExecFns;
use crate::text::{decimal, pow10, push_char, push_padded, push_str, str_equal, zero_pad};

verus! {

/// Grouping / decimal separators for a locale's number system.
#[derive(Clone, Copy, Debug, PartialEq, Eq, Structural)]
struct NumberSpec {
    decimal: char,
    group: char,
    group_size: usize,
}

/// Order of numeric date components for a locale.
#[derive(Clone, Copy, Debug, PartialEq, Eq, Structural)]
pub enum DateOrder {
    /// Year-Month-Day (e.g. `ja`, `zh`).
    Ymd,
    /// Day-Month-Year (most of Europe).
    Dmy,
    /// Month-Day-Year (`en-US`).
    Mdy,
}

/// The formatting rules of a locale.
pub ghost struct LocaleRules {
    pub decimal: char,
    pub group: char,
    pub group_size: nat,
    pub date: DateOrder,
    pub date_sep: char,
    pub symbol_prefix: bool,
}

/// A currency: ISO 4217 code, display symbol, and minor-unit digit count.
#[derive(Clone, Copy, Debug, PartialEq, Eq)]
pub struct Currency {
    /// ISO 4217 code, e.g. `"USD"`.
    pub code: &'static str,
    /// Display symbol, e.g. `"$"`.
    pub symbol: &'static str,
    /// Number of minor-unit digits (2 for USD/EUR, 0 for JPY).
    pub minor_digits: u32,
}

impl Currency {
    /// US dollar.
    pub fn usd() -> (c: Currency)
        ensures
            c.code@ == "USD"@ && c.symbol@ == "$"@ && c.minor_digits == 2,
    {
        Currency { code: "USD", symbol: "$", minor_digits: 2 }
    }

    /// Euro.
    pub fn eur() -> (c: Currency)
        ensures
            c.code@ == "EUR"@ && c.symbol@ == "€"@ && c.minor_digits == 2,
    {
        Currency { code: "EUR", symbol: "€", minor_digits: 2 }
    }

    /// Pound sterling.
    pub fn gbp() -> (c: Currency)
        ensures
            c.code@ == "GBP"@ && c.symbol@ == "£"@ && c.minor_digits == 2,
    {
        Currency { code: "GBP", symbol: "£", minor_digits: 2 }
    }

    /// Japanese yen (no minor units).
    pub fn jpy() -> (c: Currency)
        ensures
            c.code@ == "JPY"@ && c.symbol@ == "¥"@ && c.minor_digits == 0,
    {
        Currency { code: "JPY", symbol: "¥", minor_digits: 0 }
    }
}

/// `c` separates the language and region parts of a locale tag.
pub open spec fn is_tag_sep(c: char) -> bool {
    c == '-' || c == '_'
}

/// The index of the first separator of `l` at or after `from`, or `l.len()`.
pub open spec fn next_sep(l: Seq<char>, from: int) -> int
    decreases l.len() - from,
{
    if from >= l.len() {
        l.len() as int
    } else if is_tag_sep(l[from]) {
        from
    } else {
        next_sep(l, from + 1)
    }
}

/// The language part of a locale tag: everything before the first separator.
pub open spec fn lang_part(l: Seq<char>) -> Seq<char> {
    l.subrange(0, next_sep(l, 0))
}

/// The region part: the text between the first and the second separator,
/// when there is a first separator.
pub open spec fn region_part(l: Seq<char>) -> Option<Seq<char>> {
    if next_sep(l, 0) < l.len() {
        Some(l.subrange(next_sep(l, 0) + 1, next_sep(l, next_sep(l, 0) + 1)))
    } else {
        None
    }
}

/// The locale rules table for the curated launch set.
pub open spec fn rules_for_parts(lang: Seq<char>, region: Option<Seq<char>>) -> LocaleRules {
    if lang == "en"@ {
        if region == Some("GB"@) {
            LocaleRules { decimal: '.', group: ',', group_size: 3, date: DateOrder::Dmy, date_sep: '/', symbol_prefix: true }
        } else {
            LocaleRules { decimal: '.', group: ',', group_size: 3, date: DateOrder::Mdy, date_sep: '/', symbol_prefix: true }
        }
    } else if lang == "de"@ {
        LocaleRules { decimal: ',', group: '.', group_size: 3, date: DateOrder::Dmy, date_sep: '.', symbol_prefix: false }
    } else if lang == "fr"@ {
        LocaleRules { decimal: ',', group: ' ', group_size: 3, date: DateOrder::Dmy, date_sep: '/', symbol_prefix: false }
    } else if lang == "es"@ || lang == "it"@ || lang == "pt"@ {
        LocaleRules { decimal: ',', group: '.', group_size: 3, date: DateOrder::Dmy, date_sep: '/', symbol_prefix: false }
    } else if lang == "pl"@ || lang == "ru"@ {
        LocaleRules { decimal: ',', group: ' ', group_size: 3, date: DateOrder::Dmy, date_sep: '.', symbol_prefix: false }
    } else if lang == "ja"@ || lang == "zh"@ {
        LocaleRules { decimal: '.', group: ',', group_size: 3, date: DateOrder::Ymd, date_sep: '/', symbol_prefix: true }
    } else {
        LocaleRules { decimal: '.', group: ',', group_size: 3, date: DateOrder::Mdy, date_sep: '/', symbol_prefix: true }
    }
}

/// The rules a formatter built for locale tag `l` follows.
pub open spec fn rules_for_locale(l: Seq<char>) -> LocaleRules {
    rules_for_parts(lang_part(l), region_part(l))
}

/// Digits `d` with `sep` inserted before every digit (but the first) whose
/// distance from the end is a multiple of `size`; the first `i` digits only.
pub open spec fn grouped_prefix(d: Seq<char>, i: nat, sep: char, size: nat) -> Seq<char>
    decreases i,
{
    if i == 0 {
        seq![]
    } else {
        let j = (i - 1) as nat;
        grouped_prefix(d, j, sep, size) + if j > 0 && (d.len() - j) % (size as int) == 0 {
            seq![sep, d[j as int]]
        } else {
            seq![d[j as int]]
        }
    }
}

/// Digits `d` with locale grouping: `1234567` → `1,234,567` for size 3.
pub open spec fn grouped(d: Seq<char>, sep: char, size: nat) -> Seq<char> {
    grouped_prefix(d, d.len(), sep, size)
}

/// Every character but the separator `sep`.
pub open spec fn not_sep(sep: char) -> spec_fn(char) -> bool {
    |c: char| c != sep
}

proof fn lemma_grouped_prefix_digits(d: Seq<char>, i: nat, sep: char, size: nat)
    requires
        i <= d.len(),
        !d.contains(sep),
    ensures
        grouped_prefix(d, i, sep, size).filter(not_sep(sep)) == d.take(i as int),
        d.len() <= size ==> grouped_prefix(d, i, sep, size) == d.take(i as int),
    decreases i,
{
    broadcast use Seq::filter_distributes_over_add, Seq::lemma_filter_push;

    if i > 0 {
        let j = (i - 1) as nat;
        lemma_grouped_prefix_digits(d, j, sep, size);
        let head = grouped_prefix(d, j, sep, size);
        let tail = if j > 0 && (d.len() - j) % (size as int) == 0 {
            seq![sep, d[j as int]]
        } else {
            seq![d[j as int]]
        };
        assert(d[j as int] != sep) by {
            if d[j as int] == sep {
                assert(d.contains(sep));
            }
        }
        let none = Seq::<char>::empty();
        assert(none.filter(not_sep(sep)) == none);
        assert(seq![d[j as int]] == none.push(d[j as int]));
        assert(seq![d[j as int]].filter(not_sep(sep)) == seq![d[j as int]]);
        if j > 0 && (d.len() - j) % (size as int) == 0 {
            assert(seq![sep] == none.push(sep));
            assert(seq![sep].filter(not_sep(sep)) == none);
            assert(tail == seq![sep] + seq![d[j as int]]);
            assert(tail.filter(not_sep(sep)) =~= seq![d[j as int]]);
        }
        assert(grouped_prefix(d, i, sep, size) == head + tail);
        assert(d.take(i as int) =~= d.take(j as int) + seq![d[j as int]]);
        if d.len() <= size && j > 0 {
            assert(0 < d.len() - j < size);
            vstd::arithmetic::div_mod::lemma_small_mod((d.len() - j) as nat, size);
        }
    }
}

/// Grouping only inserts separators: with them taken out the digits come
/// back unchanged, and a number no longer than one group gets none.
pub proof fn lemma_grouping_keeps_digits(d: Seq<char>, sep: char, size: nat)
    requires
        !d.contains(sep),
    ensures
        grouped(d, sep, size).filter(not_sep(sep)) == d,
        d.len() <= size ==> grouped(d, sep, size) == d,
{
    lemma_grouped_prefix_digits(d, d.len(), sep, size);
    assert(d.take(d.len() as int) =~= d);
}

/// The magnitude of `v`.
pub open spec fn abs_nat(v: int) -> nat {
    if v < 0 {
        (-v) as nat
    } else {
        v as nat
    }
}

/// A leading minus sign for negative values.
pub open spec fn sign_text(v: int) -> Seq<char> {
    if v < 0 {
        seq!['-']
    } else {
        seq![]
    }
}

/// An integer with locale grouping.
pub open spec fn integer_text(r: LocaleRules, v: int) -> Seq<char> {
    sign_text(v) + grouped(decimal(abs_nat(v)), r.group, r.group_size)
}

/// The amount part of money: grouped major units, then the decimal
/// separator and exactly `minor_digits` minor digits when there are any.
pub open spec fn amount_text(r: LocaleRules, mag: nat, minor_digits: nat) -> Seq<char> {
    grouped(decimal(mag / pow10(minor_digits)), r.group, r.group_size) + if minor_digits > 0 {
        seq![r.decimal] + zero_pad(decimal(mag % pow10(minor_digits)), minor_digits)
    } else {
        seq![]
    }
}

/// Money given in minor units, symbol placed per locale.
pub open spec fn currency_text(r: LocaleRules, minor_units: int, c: Currency) -> Seq<char> {
    let amount = amount_text(r, abs_nat(minor_units), c.minor_digits as nat);
    sign_text(minor_units) + if r.symbol_prefix {
        c.symbol@ + amount
    } else {
        amount + seq![' '] + c.symbol@
    }
}

/// A negative amount is the positive one with a leading minus sign, for
/// every locale and currency, whichever side the symbol goes on.
pub proof fn lemma_negative_currency_is_signed(r: LocaleRules, m: int, c: Currency)
    requires
        m > 0,
    ensures
        currency_text(r, -m, c) == seq!['-'] + currency_text(r, m, c),
{
    assert(abs_nat(-m) == abs_nat(m));
    assert(sign_text(m) =~= Seq::<char>::empty());
    let tail = if r.symbol_prefix {
        c.symbol@ + amount_text(r, abs_nat(m), c.minor_digits as nat)
    } else {
        amount_text(r, abs_nat(m), c.minor_digits as nat) + seq![' '] + c.symbol@
    };
    assert(currency_text(r, m, c) =~= tail);
}

/// A negative value keeps its minus sign whenever any digit of its
/// magnitude, in the integer part or the fraction, is non-zero, and loses
/// it only when every digit is zero (no `-0.00`); the rest of the text does
/// not depend on the sign. The same holds of percentages.
pub proof fn lemma_decimal_sign(r: LocaleRules, magnitude: Seq<char>)
    ensures
        (exists|j: int| 0 <= j < magnitude.len() && '1' <= #[trigger] magnitude[j] <= '9') ==> {
            &&& decimal_text(r, magnitude, true) == seq!['-'] + decimal_text(r, magnitude, false)
            &&& percent_text(r, magnitude, true) == seq!['-'] + percent_text(r, magnitude, false)
        },
        !(exists|j: int| 0 <= j < magnitude.len() && '1' <= #[trigger] magnitude[j] <= '9') ==> {
            &&& decimal_text(r, magnitude, true) == decimal_text(r, magnitude, false)
            &&& percent_text(r, magnitude, true) == percent_text(r, magnitude, false)
        },
{
    let dot = first_dot(magnitude);
    let int_part = magnitude.take(dot);
    let frac = if dot < magnitude.len() {
        magnitude.skip(dot + 1)
    } else {
        seq![]
    };
    let body = grouped(int_part, r.group, r.group_size) + if frac.len() > 0 {
        seq![r.decimal] + frac
    } else {
        seq![]
    };
    let pct = if r.symbol_prefix {
        seq!['%']
    } else {
        seq![' ', '%']
    };
    assert(decimal_text(r, magnitude, false) =~= body);
    if has_nonzero_digit(magnitude) {
        assert(decimal_text(r, magnitude, true) =~= seq!['-'] + body);
        assert(percent_text(r, magnitude, true) =~= seq!['-'] + percent_text(r, magnitude, false));
    } else {
        assert(decimal_text(r, magnitude, true) =~= body);
    }
}

/// `v` zero-padded to `width` characters with the sign counting toward the
/// width, as `{:0width}` formats it.
pub open spec fn signed_padded(v: int, width: nat) -> Seq<char> {
    if v < 0 {
        seq!['-'] + zero_pad(decimal(abs_nat(v)), (width - 1) as nat)
    } else {
        zero_pad(decimal(v as nat), width)
    }
}

/// A numeric date in the locale's component order and separator.
pub open spec fn date_text(r: LocaleRules, year: int, month: nat, day: nat) -> Seq<char> {
    let y = signed_padded(year, 4);
    let m = zero_pad(decimal(month), 2);
    let d = zero_pad(decimal(day), 2);
    let s = r.date_sep;
    match r.date {
        DateOrder::Ymd => y + seq![s] + m + seq![s] + d,
        DateOrder::Dmy => d + seq![s] + m + seq![s] + y,
        DateOrder::Mdy => m + seq![s] + d + seq![s] + y,
    }
}

/// The index of the first `.` in `s`, or `s.len()`.
pub open spec fn first_dot(s: Seq<char>) -> int
    decreases s.len(),
{
    if s.len() == 0 {
        0
    } else if s.last() != '.' && first_dot(s.drop_last()) == s.len() - 1 {
        s.len() as int
    } else if first_dot(s.drop_last()) < s.len() - 1 {
        first_dot(s.drop_last())
    } else {
        s.len() - 1
    }
}

/// Whether `s` holds a digit other than `0`.
pub open spec fn has_nonzero_digit(s: Seq<char>) -> bool {
    exists|i: int| 0 <= i < s.len() && '1' <= #[trigger] s[i] <= '9'
}

/// A decimal whose magnitude is already written out (`12345.50`) and whose
/// sign bit is `negative`: the integer digits grouped, the fraction after
/// the locale's decimal separator, and a minus sign only when a non-zero
/// digit survives (no `-0.00`).
pub open spec fn decimal_text(r: LocaleRules, magnitude: Seq<char>, negative: bool) -> Seq<char> {
    let dot = first_dot(magnitude);
    let int_part = magnitude.take(dot);
    let frac = if dot < magnitude.len() {
        magnitude.skip(dot + 1)
    } else {
        seq![]
    };
    (if negative && has_nonzero_digit(magnitude) {
        seq!['-']
    } else {
        seq![]
    }) + grouped(int_part, r.group, r.group_size) + if frac.len() > 0 {
        seq![r.decimal] + frac
    } else {
        seq![]
    }
}

/// A percentage written like [`decimal_text`], then `%` (glued for locales
/// that put symbols first, spaced otherwise).
pub open spec fn percent_text(r: LocaleRules, magnitude: Seq<char>, negative: bool) -> Seq<char> {
    decimal_text(r, magnitude, negative) + if r.symbol_prefix {
        seq!['%']
    } else {
        seq![' ', '%']
    }
}

/// Formats numbers, money, and dates for a single locale.
#[derive(Debug)]
pub struct LocaleFormatter {
    locale: String,
    number: NumberSpec,
    date: DateOrder,
    date_sep: char,
    symbol_prefix: bool,
}

impl LocaleFormatter {
    #[verifier::type_invariant]
    spec fn groups_nonempty(self) -> bool {
        self.number.group_size >= 1
    }

    /// The locale tag this formatter was built for.
    pub closed spec fn locale_tag(&self) -> Seq<char> {
        self.locale@
    }

    /// The rules this formatter follows.
    pub closed spec fn rules(&self) -> LocaleRules {
        LocaleRules {
            decimal: self.number.decimal,
            group: self.number.group,
            group_size: self.number.group_size as nat,
            date: self.date,
            date_sep: self.date_sep,
            symbol_prefix: self.symbol_prefix,
        }
    }

    /// Build a formatter for `locale` (language + optional region, separated
    /// by `-` or `_`).
    pub fn new(locale: &str) -> (f: Self)
        ensures
            f.locale_tag() == locale@,
            f.rules() == rules_for_locale(locale@),
    {
        let n = locale.unicode_len();
        let first = find_sep(locale, 0);
        let lang = locale.substring_char(0, first);
        let region: Option<&str> = if first < n {
            let second = find_sep(locale, first + 1);
            Some(locale.substring_char(first + 1, second))
        } else {
            None
        };
        let (number, date, date_sep, symbol_prefix) = rules_for(lang, region);
        let mut owned = String::new();
        push_str(&mut owned, locale);
        Self { locale: owned, number, date, date_sep, symbol_prefix }
    }

    /// The locale this formatter was built for.
    pub fn locale(&self) -> (s: &str)
        ensures
            s@ == self.locale_tag(),
    {
        self.locale.as_str()
    }

    /// Append `digits` with locale grouping.
    fn push_grouped(&self, out: &mut String, digits: &Vec<char>)
        ensures
            final(out)@ == old(out)@ + grouped(digits@, self.rules().group, self.rules().group_size),
    {
        proof {
            use_type_invariant(self);
        }
        let n = digits.len();
        let size = self.number.group_size;
        let ghost start = out@;
        let mut i: usize = 0;
        while i < n
            invariant
                i <= n,
                n == digits@.len(),
                size == self.number.group_size,
                size >= 1,
                out@ == start + grouped_prefix(digits@, i as nat, self.number.group, size as nat),
            decreases n - i,
        {
            if i > 0 && (n - i) % size == 0 {
                push_char(out, self.number.group);
            }
            push_char(out, digits[i]);
            i = i + 1;
            assert(out@ =~= start + grouped_prefix(digits@, i as nat, self.number.group, size as nat));
        }
    }

    /// Format an integer with locale grouping, e.g. `1234567` → `1,234,567`.
    pub fn format_integer(&self, value: i64) -> (s: String)
        ensures
            s@ == integer_text(self.rules(), value as int),
    {
        let mut s = String::new();
        if value < 0 {
            push_char(&mut s, '-');
        }
        let digits = decimal_chars(magnitude(value));
        self.push_grouped(&mut s, &digits);
        assert(s@ =~= integer_text(self.rules(), value as int));
        s
    }

    /// Format a decimal whose magnitude is already rendered with its
    /// fraction digits (as `{:.N}` renders `|value|`, e.g. `1234.50`), and
    /// whose sign bit is `negative`: `1,234.50` in `en`, `1.234,50` in `de`.
    pub fn format_decimal_text(&self, magnitude: &str, negative: bool) -> (s: String)
        ensures
            s@ == decimal_text(self.rules(), magnitude@, negative),
    {
        let n = magnitude.unicode_len();
        let mut int_digits: Vec<char> = Vec::new();
        let mut i: usize = 0;
        let mut nonzero = false;
        let ghost m = magnitude@;
        proof {
            lemma_first_dot_bounds(m);
        }
        while i < n && magnitude.get_char(i) != '.'
            invariant
                n == m.len(),
                m == magnitude@,
                i <= n,
                int_digits@ == m.take(i as int),
                forall|j: int| 0 <= j < i ==> m[j] != '.',
                nonzero == exists|j: int| 0 <= j < i && '1' <= #[trigger] m[j] <= '9',
            decreases n - i,
        {
            let c = magnitude.get_char(i);
            if '1' <= c && c <= '9' {
                nonzero = true;
            }
            int_digits.push(c);
            i = i + 1;
            assert(int_digits@ =~= m.take(i as int));
        }
        proof {
            lemma_first_dot_is(m, i as int);
        }
        let dot = i;
        let mut frac = String::new();
        if dot < n {
            i = dot + 1;
            while i < n
                invariant
                    n == m.len(),
                    m == magnitude@,
                    dot < i <= n,
                    frac@ == m.subrange(dot + 1, i as int),
                    nonzero == exists|j: int| 0 <= j < i && '1' <= #[trigger] m[j] <= '9',
                decreases n - i,
            {
                let c = magnitude.get_char(i);
                if '1' <= c && c <= '9' {
                    nonzero = true;
                }
                push_char(&mut frac, c);
                i = i + 1;
                assert(frac@ =~= m.subrange(dot + 1, i as int));
            }
            assert(m.skip(dot + 1) =~= m.subrange(dot + 1, n as int));
        }
        assert(nonzero == has_nonzero_digit(m));
        let mut s = String::new();
        if negative && nonzero {
            push_char(&mut s, '-');
        }
        self.push_grouped(&mut s, &int_digits);
        if frac.unicode_len() > 0 {
            push_char(&mut s, self.number.decimal);
            push_str(&mut s, frac.as_str());
        }
        assert(s@ =~= decimal_text(self.rules(), m, negative));
        s
    }

    /// Format a percentage whose magnitude is already rendered (e.g. `12.3`
    /// for 12.3 %): the decimal as [`Self::format_decimal_text`] writes it,
    /// then `%`, spaced in locales that put symbols after amounts.
    pub fn format_percent_text(&self, magnitude: &str, negative: bool) -> (s: String)
        ensures
            s@ == percent_text(self.rules(), magnitude@, negative),
    {
        let mut s = self.format_decimal_text(magnitude, negative);
        if !self.symbol_prefix {
            push_char(&mut s, ' ');
        }
        push_char(&mut s, '%');
        assert(s@ =~= percent_text(self.rules(), magnitude@, negative));
        s
    }

    /// Format money given as integer minor units, e.g. `1234567` USD →
    /// `$12,345.67`.
    pub fn format_currency(&self, minor_units: i64, currency: Currency) -> (s: String)
        requires
            currency.minor_digits <= 19,
        ensures
            s@ == currency_text(self.rules(), minor_units as int, currency),
    {
        let mag = magnitude(minor_units);
        let divisor = pow10_u64(currency.minor_digits);
        let mut amount = String::new();
        let digits = decimal_chars(mag / divisor);
        self.push_grouped(&mut amount, &digits);
        if currency.minor_digits > 0 {
            push_char(&mut amount, self.number.decimal);
            push_padded(&mut amount, mag % divisor, currency.minor_digits as usize);
        }
        assert(amount@ =~= amount_text(self.rules(), abs_nat(minor_units as int), currency.minor_digits as nat));
        let mut s = String::new();
        if minor_units < 0 {
            push_char(&mut s, '-');
        }
        if self.symbol_prefix {
            push_str(&mut s, currency.symbol);
            push_str(&mut s, amount.as_str());
        } else {
            push_str(&mut s, amount.as_str());
            push_char(&mut s, ' ');
            push_str(&mut s, currency.symbol);
        }
        assert(s@ =~= currency_text(self.rules(), minor_units as int, currency));
        s
    }

    /// Format a numeric date in the locale's component order and separator.
    pub fn format_date(&self, year: i32, month: u32, day: u32) -> (s: String)
        ensures
            s@ == date_text(self.rules(), year as int, month as nat, day as nat),
    {
        let mut y = String::new();
        if year < 0 {
            push_char(&mut y, '-');
            push_padded(&mut y, magnitude(year as i64), 3);
        } else {
            push_padded(&mut y, year as u64, 4);
        }
        assert(y@ =~= signed_padded(year as int, 4));
        let mut m = String::new();
        push_padded(&mut m, month as u64, 2);
        let mut d = String::new();
        push_padded(&mut d, day as u64, 2);
        let sep = self.date_sep;
        let mut s = String::new();
        match self.date {
            DateOrder::Ymd => {
                push_str(&mut s, y.as_str());
                push_char(&mut s, sep);
                push_str(&mut s, m.as_str());
                push_char(&mut s, sep);
                push_str(&mut s, d.as_str());
            },
            DateOrder::Dmy => {
                push_str(&mut s, d.as_str());
                push_char(&mut s, sep);
                push_str(&mut s, m.as_str());
                push_char(&mut s, sep);
                push_str(&mut s, y.as_str());
            },
            DateOrder::Mdy => {
                push_str(&mut s, m.as_str());
                push_char(&mut s, sep);
                push_str(&mut s, d.as_str());
                push_char(&mut s, sep);
                push_str(&mut s, y.as_str());
            },
        }
        assert(s@ =~= date_text(self.rules(), year as int, month as nat, day as nat));
        s
    }
}

impl Clone for LocaleFormatter {
    fn clone(&self) -> (f: Self)
        ensures
            f.locale_tag() == self.locale_tag(),
            f.rules() == self.rules(),
    {
        proof {
            use_type_invariant(self);
        }
        Self {
            locale: self.locale.clone(),
            number: self.number,
            date: self.date,
            date_sep: self.date_sep,
            symbol_prefix: self.symbol_prefix,
        }
    }
}

impl Default for LocaleFormatter {
    /// A formatter for `en`.
    fn default() -> (f: Self)
        ensures
            f.locale_tag() == "en"@,
            f.rules() == rules_for_locale("en"@),
    {
        Self::new("en")
    }
}

/// The magnitude of `v` as an unsigned value (`i64::unsigned_abs`).
fn magnitude(v: i64) -> (m: u64)
    ensures
        m == abs_nat(v as int),
{
    if v >= 0 {
        v as u64
    } else if v == i64::MIN {
        9223372036854775808u64
    } else {
        (-v) as u64
    }
}

/// `10^k` for `k <= 19`.
fn pow10_u64(k: u32) -> (r: u64)
    requires
        k <= 19,
    ensures
        r == pow10(k as nat),
        r >= 1,
{
    let mut r: u64 = 1;
    let mut i: u32 = 0;
    while i < k
        invariant
            i <= k <= 19,
            r == pow10(i as nat),
            1 <= r <= pow10(i as nat),
        decreases k - i,
    {
        proof {
            lemma_pow10_bound(i as nat);
        }
        r = r * 10;
        i = i + 1;
    }
    r
}

proof fn lemma_pow10_mono(i: nat, j: nat)
    requires
        i <= j,
    ensures
        pow10(i) <= pow10(j),
    decreases j,
{
    if i < j {
        lemma_pow10_mono(i, (j - 1) as nat);
    }
}

proof fn lemma_pow10_bound(i: nat)
    requires
        i < 19,
    ensures
        pow10(i) * 10 <= 10000000000000000000,
        pow10(i + 1) == pow10(i) * 10,
{
    reveal_with_fuel(pow10, 20);
    assert(pow10(18) == 1000000000000000000nat);
    lemma_pow10_mono(i, 18);
}

/// The decimal digits of `n`, most significant first.
fn decimal_chars(n: u64) -> (v: Vec<char>)
    ensures
        v@ == decimal(n as nat),
    decreases n,
{
    let mut v = if n >= 10 {
        decimal_chars(n / 10)
    } else {
        Vec::new()
    };
    let d: u8 = 48u8 + ((n % 10) as u8);
    v.push(d as char);
    assert(v@ =~= decimal(n as nat));
    v
}

/// The index of the first tag separator of `s` at or after `from`.
fn find_sep(s: &str, from: usize) -> (r: usize)
    requires
        from <= s@.len(),
    ensures
        r == next_sep(s@, from as int),
        from <= r <= s@.len(),
    decreases s@.len() - from,
{
    let n = s.unicode_len();
    if from >= n {
        n
    } else {
        let c = s.get_char(from);
        if c == '-' || c == '_' {
            from
        } else {
            find_sep(s, from + 1)
        }
    }
}

/// The locale rules table for the curated launch set:
/// `(number spec, date order, date separator, currency-symbol-prefix)`.
fn rules_for(lang: &str, region: Option<&str>) -> (r: (NumberSpec, DateOrder, char, bool))
    ensures
        ({
            let want = rules_for_parts(lang@, match region {
                Some(x) => Some(x@),
                None => None,
            });
            &&& r.0.decimal == want.decimal
            &&& r.0.group == want.group
            &&& r.0.group_size == want.group_size
            &&& r.1 == want.date
            &&& r.2 == want.date_sep
            &&& r.3 == want.symbol_prefix
        }),
{
    let dot_comma = NumberSpec { decimal: '.', group: ',', group_size: 3 };
    let comma_dot = NumberSpec { decimal: ',', group: '.', group_size: 3 };
    let comma_space = NumberSpec { decimal: ',', group: ' ', group_size: 3 };
    if str_equal(lang, "en") {
        let gb = match region {
            Some(r) => str_equal(r, "GB"),
            None => false,
        };
        if gb {
            (dot_comma, DateOrder::Dmy, '/', true)
        } else {
            (dot_comma, DateOrder::Mdy, '/', true)
        }
    } else if str_equal(lang, "de") {
        (comma_dot, DateOrder::Dmy, '.', false)
    } else if str_equal(lang, "fr") {
        (comma_space, DateOrder::Dmy, '/', false)
    } else if str_equal(lang, "es") || str_equal(lang, "it") || str_equal(lang, "pt") {
        (comma_dot, DateOrder::Dmy, '/', false)
    } else if str_equal(lang, "pl") || str_equal(lang, "ru") {
        (comma_space, DateOrder::Dmy, '.', false)
    } else if str_equal(lang, "ja") || str_equal(lang, "zh") {
        (dot_comma, DateOrder::Ymd, '/', true)
    } else {
        (dot_comma, DateOrder::Mdy, '/', true)
    }
}

proof fn lemma_first_dot_bounds(s: Seq<char>)
    ensures
        0 <= first_dot(s) <= s.len(),
        first_dot(s) < s.len() ==> s[first_dot(s)] == '.',
        forall|j: int| 0 <= j < first_dot(s) ==> s[j] != '.',
    decreases s.len(),
{
    if s.len() > 0 {
        let t = s.drop_last();
        lemma_first_dot_bounds(t);
        assert forall|j: int| 0 <= j < first_dot(s) implies s[j] != '.' by {
            if j < t.len() {
                assert(s[j] == t[j]);
            }
        }
        if first_dot(t) < t.len() {
            assert(s[first_dot(t)] == t[first_dot(t)]);
        }
    }
}

/// The first dot is where a scan for `.` stops.
proof fn lemma_first_dot_is(s: Seq<char>, i: int)
    requires
        0 <= i <= s.len(),
        i < s.len() ==> s[i] == '.',
        forall|j: int| 0 <= j < i ==> s[j] != '.',
    ensures
        first_dot(s) == i,
{
    lemma_first_dot_bounds(s);
    let d = first_dot(s);
    if d < i {
        assert(s[d] == '.');
    } else if i < d {
        assert(s[i] != '.');
    }
}

} // verus!
