//! Currency conversion to US dollars from a table of reference rates.
//!
//! Rates are fixed-point: a rate counts millionths of a currency unit per unit
//! of the reference currency, so that 1.0823 is held as 1_082_300. Amounts
//! count hundredths of a unit.
use vstd::prelude::*;

use crate::lookup::{key_index, lemma_key_index_is};
use crate::text::{
    all_digits, capped_digits, chars_of, contains, contains_text, digits_value, min_nat, pow10,
    text_equals,
};

verus! {

/// Millionths: the scale of a stored rate.
pub const RATE_SCALE: u64 = 1_000_000;

/// The code of the currency that every amount is converted to.
pub const USD: &'static str = "USD";

/// A table of reference rates, at most one per currency code.
pub struct ExchangeRates {
    rates: Vec<(String, u64)>,
}

pub open spec fn rate_entry_view(e: (String, u64)) -> (Seq<char>, u64) {
    (e.0@, e.1)
}

/// Where `code` stands in a rate table, or -1.
pub open spec fn code_index(rates: Seq<(Seq<char>, u64)>, code: Seq<char>) -> int
    decreases rates.len(),
{
    if rates.len() == 0 {
        -1
    } else if rates[0].0 == code {
        0
    } else {
        let i = code_index(rates.skip(1), code);
        if i < 0 {
            -1
        } else {
            i + 1
        }
    }
}

pub proof fn lemma_code_index(rates: Seq<(Seq<char>, u64)>, code: Seq<char>)
    ensures
        -1 <= code_index(rates, code) < rates.len(),
        code_index(rates, code) == -1 <==> forall|k: int| 0 <= k < rates.len() ==> rates[k].0 != code,
        code_index(rates, code) >= 0 ==> rates[code_index(rates, code)].0 == code,
        forall|k: int| 0 <= k < code_index(rates, code) ==> rates[k].0 != code,
    decreases rates.len(),
{
    if rates.len() > 0 {
        lemma_code_index(rates.skip(1), code);
        if rates[0].0 != code {
            assert forall|k: int| 1 <= k < rates.len() implies rates[k] == rates.skip(1)[k - 1] by {}
        }
    }
}

/// Tables that list the same codes in the same order find a code at the same place.
pub proof fn lemma_same_codes(a: Seq<(Seq<char>, u64)>, b: Seq<(Seq<char>, u64)>, code: Seq<char>)
    requires
        a.len() == b.len(),
        forall|k: int| 0 <= k < a.len() ==> #[trigger] a[k].0 == b[k].0,
    ensures
        code_index(a, code) == code_index(b, code),
{
    lemma_code_index(a, code);
    lemma_code_index(b, code);
    let f = code_index(a, code);
    let g = code_index(b, code);
    if f >= 0 && g >= 0 {
        if f < g {
            assert(b[f].0 == a[f].0);
        }
        if g < f {
            assert(a[g].0 == b[g].0);
        }
    } else if f >= 0 {
        assert(b[f].0 == a[f].0);
    } else if g >= 0 {
        assert(a[g].0 == b[g].0);
    }
}

/// The rate of `code`, if the table has one.
pub open spec fn rate_of(rates: Seq<(Seq<char>, u64)>, code: Seq<char>) -> Option<u64> {
    let i = code_index(rates, code);
    if i < 0 {
        None
    } else {
        Some(rates[i].1)
    }
}

/// The dollar value of `amount` hundredths of `code`: the amount times the dollar
/// rate over the currency's rate, rounded down to a hundredth, except that a value
/// above zero but below one hundredth counts as one hundredth, and capped at
/// `u64::MAX`. Zero when the table has no rate for the currency, or a rate of zero.
pub open spec fn usd_value(rates: Seq<(Seq<char>, u64)>, code: Seq<char>, amount: u64) -> u64 {
    match (rate_of(rates, USD@), rate_of(rates, code)) {
        (Some(usd), Some(rate)) => if rate == 0 {
            0
        } else if (amount * usd) / (rate as int) > u64::MAX {
            u64::MAX
        } else if (amount * usd) / (rate as int) == 0 && amount * usd > 0 {
            1
        } else {
            ((amount * usd) / (rate as int)) as u64
        },
        _ => 0,
    }
}

/// The table has a dollar rate, which every conversion needs.
pub open spec fn has_dollar_rate(rates: Seq<(Seq<char>, u64)>) -> bool {
    rate_of(rates, USD@) is Some
}

pub open spec fn codes_unique(rates: Seq<(Seq<char>, u64)>) -> bool {
    forall|i: int, j: int| 0 <= i < j < rates.len() ==> rates[i].0 != rates[j].0
}

impl View for ExchangeRates {
    type V = Seq<(Seq<char>, u64)>;

    closed spec fn view(&self) -> Seq<(Seq<char>, u64)> {
        self.rates@.map_values(|e: (String, u64)| rate_entry_view(e))
    }
}

impl ExchangeRates {
    /// At most one rate per currency, and a dollar rate.
    pub open spec fn wf(&self) -> bool {
        codes_unique(self@) && has_dollar_rate(self@)
    }

    fn empty() -> (r: ExchangeRates)
        ensures
            codes_unique(r@),
            r@.len() == 0,
    {
        let r = ExchangeRates { rates: Vec::new() };
        assert(r@ =~= Seq::<(Seq<char>, u64)>::empty());
        r
    }

    /// A table that holds only the dollar rate.
    pub fn new(usd_rate: u64) -> (r: ExchangeRates)
        ensures
            r.wf(),
            r@ == seq![(USD@, usd_rate)],
    {
        let mut r = ExchangeRates::empty();
        r.set_rate(USD, usd_rate);
        proof {
            lemma_code_index(Seq::<(Seq<char>, u64)>::empty(), USD@);
            lemma_table_set_finds(Seq::<(Seq<char>, u64)>::empty(), USD@, usd_rate);
        }
        assert(r@ =~= seq![(USD@, usd_rate)]);
        r
    }

    fn index_of(&self, code: &str) -> (r: Option<usize>)
        ensures
            r matches Some(i) ==> code_index(self@, code@) == i,
            r is None ==> code_index(self@, code@) == -1,
    {
        proof {
            lemma_code_index(self@, code@);
        }
        let mut i: usize = 0;
        while i < self.rates.len()
            invariant
                i <= self.rates@.len(),
                forall|k: int| 0 <= k < i ==> self@[k].0 != code@,
            decreases self.rates.len() - i,
        {
            assert(self@[i as int] == rate_entry_view(self.rates@[i as int]));
            if text_equals(self.rates[i].0.as_str(), code) {
                proof {
                    lemma_code_index(self@, code@);
                    let f = code_index(self@, code@);
                    assert(self@[i as int].0 == code@);
                    if f < i {
                        assert(self@[f].0 != code@);
                    }
                    if f > i {
                        assert(self@[i as int].0 != code@);
                    }
                }
                return Some(i);
            }
            i = i + 1;
        }
        None
    }

    /// The rate of `code`, if the table has one.
    pub fn get_rate(&self, code: &str) -> (r: Option<u64>)
        ensures
            r == rate_of(self@, code@),
    {
        proof {
            lemma_code_index(self@, code@);
        }
        match self.index_of(code) {
            Some(i) => {
                assert(self@[i as int] == rate_entry_view(self.rates@[i as int]));
                Some(self.rates[i].1)
            },
            None => None,
        }
    }

    /// Sets the rate of `code`, replacing the one it had.
    pub fn set_rate(&mut self, code: &str, rate: u64)
        requires
            codes_unique(old(self)@),
        ensures
            codes_unique(final(self)@),
            has_dollar_rate(old(self)@) ==> has_dollar_rate(final(self)@),
            final(self)@ == table_set(old(self)@, code@, rate),
            forall|c: Seq<char>| #[trigger]
                rate_of(final(self)@, c) == if c == code@ {
                    Some(rate)
                } else {
                    rate_of(old(self)@, c)
                },
    {
        proof {
            lemma_code_index(self@, code@);
        }
        let ghost before = self@;
        let name = String::from_str(code);
        match self.index_of(code) {
            Some(i) => {
                self.rates.set(i, (name, rate));
                assert(self@ =~= before.update(i as int, (code@, rate)));
                assert forall|c: Seq<char>| #[trigger]
                    rate_of(self@, c) == if c == code@ {
                        Some(rate)
                    } else {
                        rate_of(before, c)
                    } by {
                    lemma_code_index(self@, c);
                    lemma_code_index(before, c);
                    lemma_same_codes(self@, before, c);
                }
            },
            None => {
                self.rates.push((name, rate));
                assert(self@ =~= before.push((code@, rate)));
                assert forall|c: Seq<char>| #[trigger]
                    rate_of(self@, c) == if c == code@ {
                        Some(rate)
                    } else {
                        rate_of(before, c)
                    } by {
                    lemma_code_index(self@, c);
                    lemma_code_index(before, c);
                    let f = code_index(self@, c);
                    if c == code@ {
                        assert(self@[before.len() as int].0 == code@);
                        if f < before.len() {
                            assert(self@[f] == before[f]);
                        }
                    } else {
                        let g = code_index(before, c);
                        if g >= 0 {
                            assert(self@[g] == before[g]);
                        }
                        if f >= 0 {
                            assert(f < before.len());
                            assert(self@[f] == before[f]);
                        }
                    }
                }
            },
        }
    }

    /// The dollar value, in hundredths, of `amount` hundredths of `currency`;
    /// zero for a currency the table does not know.
    pub fn get_usd(&self, currency: &str, amount: u64) -> (r: u64)
        requires
            self.wf(),
        ensures
            r == usd_value(self@, currency@, amount),
    {
        let usd = self.get_rate(USD);
        let rate = self.get_rate(currency);
        match (usd, rate) {
            (Some(u), Some(c)) => {
                if c == 0 {
                    0
                } else {
                    assert((amount as u128) * (u as u128) <= u128::MAX) by (nonlinear_arith)
                        requires
                            amount <= u64::MAX,
                            u <= u64::MAX,
                    ;
                    let product: u128 = amount as u128 * u as u128;
                    let value: u128 = product / c as u128;
                    if value > u64::MAX as u128 {
                        u64::MAX
                    } else if value == 0 && product > 0 {
                        1
                    } else {
                        value as u64
                    }
                }
            },
            _ => 0,
        }
    }
}

/// The largest whole number of units whose rate fits in a `u64`.
pub const MAX_RATE_UNITS: u64 = 18_446_744_073_709;

/// The rate of the Russian rouble, which the reference table does not carry.
pub const RUB_RATE: u64 = 102_330_000;

/// Where the first `.` of `s` stands, or -1.
pub open spec fn dot_index(s: Seq<char>) -> int {
    key_index(s, |c: char| c, '.')
}

/// Up to six decimals, in millionths; further decimals are cut off.
pub open spec fn fraction_value(b: Seq<char>) -> nat {
    if b.len() >= 6 {
        digits_value(b.take(6))
    } else {
        digits_value(b) * pow10((6 - b.len()) as nat)
    }
}

/// The value in millionths of a decimal written as digits with at most one `.`
/// and at least one digit; `None` for any other text.
pub open spec fn rate_text_value(s: Seq<char>) -> Option<nat> {
    let d = dot_index(s);
    if d < 0 {
        if s.len() > 0 && all_digits(s) {
            Some(digits_value(s) * 1_000_000)
        } else {
            None
        }
    } else {
        let a = s.take(d);
        let b = s.skip(d + 1);
        if a.len() + b.len() > 0 && all_digits(a) && all_digits(b) {
            Some(digits_value(a) * 1_000_000 + fraction_value(b))
        } else {
            None
        }
    }
}

/// A rate written in decimal, when it is one and fits.
pub open spec fn rate_from_text(s: Seq<char>) -> Option<u64> {
    match rate_text_value(s) {
        Some(v) => if v <= u64::MAX {
            Some(v as u64)
        } else {
            None
        },
        None => None,
    }
}

pub proof fn lemma_digits_below(s: Seq<char>)
    requires
        all_digits(s),
    ensures
        digits_value(s) < pow10(s.len()),
    decreases s.len(),
{
    if s.len() > 0 {
        assert(crate::text::is_digit(s[s.len() - 1]));
        assert forall|j: int| 0 <= j < s.drop_last().len() implies crate::text::is_digit(
            #[trigger] s.drop_last()[j],
        ) by {
            assert(s.drop_last()[j] == s[j]);
        }
        lemma_digits_below(s.drop_last());
        let v = digits_value(s.drop_last());
        let p = pow10(s.drop_last().len());
        let d = (s.last() as nat - '0' as nat) as nat;
        assert(d <= 9 ==> v * 10 + d < 10 * p) by (nonlinear_arith)
            requires
                v < p,
        ;
        if d > 9 {
            assert(digits_value(s) == v * 10 + d);
        }
    }
}

fn scale_of(k: usize) -> (r: u64)
    requires
        k <= 6,
    ensures
        r == pow10((6 - k) as nat),
{
    reveal_with_fuel(pow10, 7);
    if k == 0 {
        1_000_000
    } else if k == 1 {
        100_000
    } else if k == 2 {
        10_000
    } else if k == 3 {
        1_000
    } else if k == 4 {
        100
    } else if k == 5 {
        10
    } else {
        1
    }
}

/// Reads a rate written as a plain decimal (`1.0823`) as millionths
/// (`1_082_300`). Only digits with at most one `.` and at least one digit are
/// read: a sign, an exponent or any other character gives `None`, as does a
/// value beyond `u64::MAX` millionths. Decimals past the sixth are cut off.
pub fn parse_rate(s: &str) -> (r: Option<u64>)
    ensures
        r == rate_from_text(s@),
{
    let cs = chars_of(s);
    let n = cs.len();
    let mut d: usize = 0;
    while d < n && cs[d] != '.'
        invariant
            n == cs@.len(),
            d <= n,
            forall|k: int| 0 <= k < d ==> cs@[k] != '.',
        decreases n - d,
    {
        d = d + 1;
    }
    proof {
        lemma_key_index_is(cs@, |c: char| c, '.', if d < n { d as int } else { -1 });
        assert(cs@ == s@);
    }
    let ghost a = s@.take(d as int);
    assert(cs@.subrange(0, d as int) =~= a);
    let units = match capped_digits(&cs, 0, d, MAX_RATE_UNITS) {
        Some(u) => u,
        None => {
            return None;
        },
    };
    if units > MAX_RATE_UNITS {
        assert(digits_value(a) * 1_000_000 > u64::MAX) by (nonlinear_arith)
            requires
                digits_value(a) >= 18_446_744_073_710,
        ;
        if d == n {
            assert(a =~= s@);
        }
        return None;
    }
    assert(units == digits_value(a));
    assert(units * 1_000_000 <= u64::MAX) by (nonlinear_arith)
        requires
            units <= 18_446_744_073_709,
    ;
    if d == n {
        assert(a =~= s@);
        if n == 0 {
            return None;
        }
        return Some(units * 1_000_000);
    }
    let ghost b = s@.skip(d + 1);
    assert(cs@.subrange(d + 1, n as int) =~= b);
    let f = match fraction_of(&cs, d + 1) {
        Some(f) => f,
        None => {
            return None;
        },
    };
    if d == 0 && n == 1 {
        assert(a.len() + b.len() == 0);
        return None;
    }
    let total: u128 = units as u128 * 1_000_000 + f as u128;
    if total > u64::MAX as u128 {
        return None;
    }
    Some(total as u64)
}

proof fn lemma_powers(k: nat)
    requires
        k <= 6,
    ensures
        pow10(k) * pow10((6 - k) as nat) == 1_000_000,
        pow10(k) <= 1_000_000,
{
    reveal_with_fuel(pow10, 7);
    assert(pow10(0) == 1 && pow10(1) == 10 && pow10(2) == 100 && pow10(3) == 1000);
    assert(pow10(4) == 10000 && pow10(5) == 100000 && pow10(6) == 1000000);
    if k == 0 {
    } else if k == 1 {
    } else if k == 2 {
    } else if k == 3 {
    } else if k == 4 {
    } else if k == 5 {
    } else {
    }
}

/// The millionths written by the digits `cs[from..]`, if they are all digits.
fn fraction_of(cs: &Vec<char>, from: usize) -> (r: Option<u64>)
    requires
        from <= cs@.len(),
    ensures
        r is Some <==> all_digits(cs@.skip(from as int)),
        r matches Some(f) ==> f == fraction_value(cs@.skip(from as int)) && f < 1_000_000,
{
    let n = cs.len();
    let ghost b = cs@.skip(from as int);
    assert(cs@.subrange(from as int, n as int) =~= b);
    match capped_digits(cs, from, n, 0) {
        Some(_) => {},
        None => {
            return None;
        },
    }
    let k: usize = if n - from >= 6 {
        6
    } else {
        n - from
    };
    assert(cs@.subrange(from as int, (from + k) as int) =~= b.take(k as int));
    assert(all_digits(b.take(k as int))) by {
        assert forall|j: int| 0 <= j < k implies crate::text::is_digit(#[trigger] b.take(k as int)[j]) by {
            assert(b.take(k as int)[j] == b[j]);
        }
    }
    let f = match capped_digits(cs, from, from + k, 999_999) {
        Some(f) => f,
        None => {
            return None;
        },
    };
    proof {
        lemma_digits_below(b.take(k as int));
        lemma_powers(k as nat);
        if k < 6 {
            assert(b.take(k as int) =~= b);
        }
    }
    assert(f == digits_value(b.take(k as int)));
    let scale = scale_of(k);
    assert(f * scale < 1_000_000) by (nonlinear_arith)
        requires
            f < pow10(k as nat),
            scale == pow10((6 - k) as nat),
            pow10(k as nat) * pow10((6 - k) as nat) == 1_000_000,
    ;
    proof {
        reveal_with_fuel(pow10, 2);
        assert(b.len() == n - from);
        if k == 6 {
            assert(scale == 1);
            assert(b.take(6) == b.take(k as int));
            assert(fraction_value(b) == f);
            assert(f * scale == f) by (nonlinear_arith)
                requires
                    scale == 1,
            ;
        } else {
            assert(b.take(k as int) == b);
            assert(k == b.len());
            assert(fraction_value(b) == digits_value(b) * pow10((6 - k) as nat));
            assert(f == digits_value(b));
            assert(f * scale == digits_value(b) * pow10((6 - k) as nat));
        }
    }
    assert(f * scale == fraction_value(b));
    Some(f * scale)
}

/// An element of an XML document that has no content: its name and its
/// attributes in document order.
pub struct XmlElement {
    pub name: String,
    pub attributes: Vec<(String, String)>,
}

/// The mathematical value of an `XmlElement`.
pub struct XmlElementView {
    pub name: Seq<char>,
    pub attributes: Seq<(Seq<char>, Seq<char>)>,
}

pub open spec fn pair_view(p: (String, String)) -> (Seq<char>, Seq<char>) {
    (p.0@, p.1@)
}

impl View for XmlElement {
    type V = XmlElementView;

    open spec fn view(&self) -> XmlElementView {
        XmlElementView {
            name: self.name@,
            attributes: self.attributes@.map_values(|p: (String, String)| pair_view(p)),
        }
    }
}

pub open spec fn element_views(v: Seq<XmlElement>) -> Seq<XmlElementView> {
    v.map_values(|e: XmlElement| e@)
}

/// Why a document gave no rate table.
#[derive(Clone, Copy, Debug, PartialEq, Eq, Structural)]
pub enum RatesError {
    /// A `Cube` whose currency equals its rate, such as one with neither.
    Unlabelled,
    /// A rate that is not a decimal number or does not fit.
    BadRate,
    /// No rate at all.
    NoRates,
    /// Rates, but none for the dollar.
    NoDollarRate,
    /// The document is not well-formed XML.
    Malformed,
}

/// The value of the last attribute named `key`, or empty text.
pub open spec fn attribute(attrs: Seq<(Seq<char>, Seq<char>)>, key: Seq<char>) -> Seq<char>
    decreases attrs.len(),
{
    if attrs.len() == 0 {
        seq![]
    } else if attrs.last().0 == key {
        attrs.last().1
    } else {
        attribute(attrs.drop_last(), key)
    }
}

/// The table with `code` at `rate`: replaced in place, or added at the end.
pub open spec fn table_set(t: Seq<(Seq<char>, u64)>, code: Seq<char>, rate: u64) -> Seq<(Seq<char>, u64)> {
    let i = code_index(t, code);
    if i < 0 {
        t.push((code, rate))
    } else {
        t.update(i, (code, rate))
    }
}

/// The table after one element: a `Cube` sets the rate of its currency.
pub open spec fn after_element(t: Seq<(Seq<char>, u64)>, e: XmlElementView) -> Result<Seq<(Seq<char>, u64)>, RatesError> {
    if e.name != "Cube"@ {
        Ok(t)
    } else {
        let c = attribute(e.attributes, "currency"@);
        let v = attribute(e.attributes, "rate"@);
        if c == v {
            Err(RatesError::Unlabelled)
        } else {
            match rate_from_text(v) {
                Some(r) => Ok(table_set(t, c, r)),
                None => Err(RatesError::BadRate),
            }
        }
    }
}

/// The table read from the elements, in document order; the first error stops it.
pub open spec fn table_from(es: Seq<XmlElementView>) -> Result<Seq<(Seq<char>, u64)>, RatesError>
    decreases es.len(),
{
    if es.len() == 0 {
        Ok(seq![])
    } else {
        match table_from(es.drop_last()) {
            Ok(t) => after_element(t, es.last()),
            Err(e) => Err(e),
        }
    }
}

/// The reference table of a document: its `Cube` rates, which must not be
/// empty and must hold the dollar, with the rouble added.
pub open spec fn reference_table(es: Seq<XmlElementView>) -> Result<Seq<(Seq<char>, u64)>, RatesError> {
    match table_from(es) {
        Ok(t) => if t.len() == 0 {
            Err(RatesError::NoRates)
        } else if !has_dollar_rate(t) {
            Err(RatesError::NoDollarRate)
        } else {
            Ok(table_set(t, "RUB"@, RUB_RATE))
        },
        Err(e) => Err(e),
    }
}

fn attribute_of(attrs: &Vec<(String, String)>, key: &str) -> (r: String)
    ensures
        r@ == attribute(attrs@.map_values(|p: (String, String)| pair_view(p)), key@),
{
    let ghost av = attrs@.map_values(|p: (String, String)| pair_view(p));
    let mut r = String::new();
    let mut i: usize = 0;
    while i < attrs.len()
        invariant
            av == attrs@.map_values(|p: (String, String)| pair_view(p)),
            i <= attrs@.len(),
            r@ == attribute(av.take(i as int), key@),
        decreases attrs.len() - i,
    {
        assert(av.take(i + 1).drop_last() =~= av.take(i as int));
        assert(av[i as int] == pair_view(attrs@[i as int]));
        if text_equals(attrs[i].0.as_str(), key) {
            r = attrs[i].1.clone();
        }
        i = i + 1;
    }
    assert(av.take(i as int) =~= av);
    r
}

impl ExchangeRates {
    /// Reads the reference rates from the empty elements of a rates document.
    /// Each `Cube` element sets the rate of its `currency` attribute to its `rate`
    /// attribute, read by `parse_rate`. A `Cube` whose two attributes are equal,
    /// a rate that is no plain decimal, a document without rates or without a
    /// dollar rate is refused. The rouble, which the document does not carry, is
    /// added.
    pub fn from_elements(elements: &Vec<XmlElement>) -> (r: Result<ExchangeRates, RatesError>)
        ensures
            match r {
                Ok(t) => t.wf() && reference_table(element_views(elements@)) == Ok::<
                    Seq<(Seq<char>, u64)>,
                    RatesError,
                >(t@),
                Err(e) => reference_table(element_views(elements@)) == Err::<
                    Seq<(Seq<char>, u64)>,
                    RatesError,
                >(e),
            },
    {
        let ghost es = element_views(elements@);
        let mut table = ExchangeRates::empty();
        let mut i: usize = 0;
        assert(es.take(0) =~= Seq::<XmlElementView>::empty());
        assert(table@ =~= Seq::<(Seq<char>, u64)>::empty());
        while i < elements.len()
            invariant
                es == element_views(elements@),
                i <= elements@.len(),
                codes_unique(table@),
                table_from(es.take(i as int)) == Ok::<Seq<(Seq<char>, u64)>, RatesError>(table@),
            decreases elements.len() - i,
        {
            assert(es.take(i + 1).drop_last() =~= es.take(i as int));
            assert(es[i as int] == elements@[i as int]@);
            let e = &elements[i];
            if text_equals(e.name.as_str(), "Cube") {
                let c = attribute_of(&e.attributes, "currency");
                let v = attribute_of(&e.attributes, "rate");
                if c == v {
                    proof {
                        lemma_table_from_stops(es, (i + 1) as nat, RatesError::Unlabelled);
                    }
                    return Err(RatesError::Unlabelled);
                }
                match parse_rate(v.as_str()) {
                    Some(rate) => {
                        table.set_rate(c.as_str(), rate);
                    },
                    None => {
                        proof {
                            lemma_table_from_stops(es, (i + 1) as nat, RatesError::BadRate);
                        }
                        return Err(RatesError::BadRate);
                    },
                }
            }
            i = i + 1;
        }
        assert(es.take(i as int) =~= es);
        if table.rates.len() == 0 {
            return Err(RatesError::NoRates);
        }
        if table.get_rate(USD).is_none() {
            return Err(RatesError::NoDollarRate);
        }
        table.set_rate("RUB", RUB_RATE);
        Ok(table)
    }
}

/// Once the table fails on the first `n` elements, it fails with that error on
/// all of them.
pub proof fn lemma_table_from_stops(es: Seq<XmlElementView>, n: nat, e: RatesError)
    requires
        n <= es.len(),
        table_from(es.take(n as int)) == Err::<Seq<(Seq<char>, u64)>, RatesError>(e),
    ensures
        table_from(es) == Err::<Seq<(Seq<char>, u64)>, RatesError>(e),
    decreases es.len() - n,
{
    if n < es.len() {
        assert(es.take(n as int + 1).drop_last() =~= es.take(n as int));
        lemma_table_from_stops(es, n + 1, e);
    } else {
        assert(es.take(n as int) =~= es);
    }
}

#[verifier::external_type_specification]
#[verifier::external_body]
#[verifier::reject_recursive_types(R)]
pub struct ExReader<R>(quick_xml::reader::Reader<R>);

#[verifier::external_type_specification]
#[verifier::external_body]
pub struct ExBytesStart<'a>(quick_xml::events::BytesStart<'a>);

#[verifier::external_type_specification]
#[verifier::external_body]
pub struct ExXmlError(quick_xml::Error);

#[verifier::external_type_specification]
#[verifier::external_body]
pub struct ExAttrError(quick_xml::events::attributes::AttrError);

/// What reading a document yields next.
pub enum XmlEvent {
    /// An element without content.
    Empty(quick_xml::events::BytesStart<'static>),
    /// The end of the document.
    End,
    /// Anything else: a start or end tag, text, a comment, a declaration.
    Other,
}

/// Relies on quick_xml::reader::Reader::from_str: a reader at the start of `text`.
#[verifier::external_body]
fn xml_reader<'a>(text: &'a str) -> quick_xml::reader::Reader<&'a [u8]> {
    quick_xml::reader::Reader::from_str(text)
}

/// Relies on quick_xml::reader::Reader::read_event_into: the next event of the
/// document, an empty element taken out of the buffer.
#[verifier::external_body]
fn next_event(r: &mut quick_xml::reader::Reader<&[u8]>) -> Result<XmlEvent, quick_xml::Error> {
    let mut buf = Vec::new();
    match r.read_event_into(&mut buf) {
        Ok(quick_xml::events::Event::Empty(e)) => Ok(XmlEvent::Empty(e.into_owned())),
        Ok(quick_xml::events::Event::Eof) => Ok(XmlEvent::End),
        Ok(_) => Ok(XmlEvent::Other),
        Err(e) => Err(e),
    }
}

/// Relies on quick_xml::events::BytesStart::name: the element's name, as text.
#[verifier::external_body]
fn element_name(e: &quick_xml::events::BytesStart<'static>) -> String {
    String::from_utf8_lossy(e.name().as_ref()).into_owned()
}

/// Relies on quick_xml::events::BytesStart::attributes: the element's attributes
/// in order, keys and values as text.
#[verifier::external_body]
fn element_attributes(
    e: &quick_xml::events::BytesStart<'static>,
) -> Result<Vec<(String, String)>, quick_xml::events::attributes::AttrError> {
    let mut out = Vec::new();
    for a in e.attributes() {
        let a = a?;
        out.push((String::from_utf8_lossy(a.key.as_ref()).into_owned(), String::from_utf8_lossy(&a.value).into_owned()));
    }
    Ok(out)
}

pub proof fn lemma_table_set_finds(t: Seq<(Seq<char>, u64)>, code: Seq<char>, rate: u64)
    ensures
        rate_of(table_set(t, code, rate), code) == Some(rate),
{
    lemma_code_index(t, code);
    let u = table_set(t, code, rate);
    lemma_code_index(u, code);
    let i = code_index(t, code);
    let j = code_index(u, code);
    if i < 0 {
        assert(u[t.len() as int].0 == code);
        if j < t.len() {
            assert(u[j] == t[j]);
        }
    } else {
        assert(u[i].0 == code);
        if j < i {
            assert(u[j] == t[j]);
        }
    }
}

impl ExchangeRates {
    /// Reads a rates document: its empty elements, in order, go to
    /// `from_elements`, so that what comes back is the reference table of some
    /// sequence of elements, or the error that such a sequence gives (a `Cube`
    /// whose currency equals its rate, a rate that is no plain decimal, no rate,
    /// no dollar rate). A document that is not well-formed XML, or that holds
    /// more events than characters, is `Malformed`.
    pub fn parse_xml(body: &str) -> (r: Result<ExchangeRates, RatesError>)
        ensures
            match r {
                Ok(t) => t.wf() && rate_of(t@, "RUB"@) == Some(RUB_RATE) && exists|es: Seq<XmlElementView>|
                    reference_table(es) == Ok::<Seq<(Seq<char>, u64)>, RatesError>(t@),
                Err(e) => e == RatesError::Malformed || exists|es: Seq<XmlElementView>|
                    reference_table(es) == Err::<Seq<(Seq<char>, u64)>, RatesError>(e),
            },
    {
        let n = body.unicode_len();
        let mut reader = xml_reader(body);
        let mut elements: Vec<XmlElement> = Vec::new();
        let mut steps: usize = 0;
        loop
            invariant
                steps <= n,
            decreases n - steps,
        {
            match next_event(&mut reader) {
                Ok(XmlEvent::Empty(e)) => {
                    let attributes = match element_attributes(&e) {
                        Ok(a) => a,
                        Err(_) => {
                            return Err(RatesError::Malformed);
                        },
                    };
                    elements.push(XmlElement { name: element_name(&e), attributes });
                },
                Ok(XmlEvent::End) => {
                    let r = ExchangeRates::from_elements(&elements);
                    let ghost es = element_views(elements@);
                    proof {
                        if let Ok(t0) = table_from(es) {
                            lemma_table_set_finds(t0, "RUB"@, RUB_RATE);
                        }
                    }
                    match r {
                        Ok(t) => {
                            assert(reference_table(es) == Ok::<Seq<(Seq<char>, u64)>, RatesError>(t@));
                            return Ok(t);
                        },
                        Err(e) => {
                            assert(reference_table(es) == Err::<Seq<(Seq<char>, u64)>, RatesError>(e));
                            return Err(e);
                        },
                    }
                },
                Ok(XmlEvent::Other) => {},
                Err(_) => {
                    return Err(RatesError::Malformed);
                },
            }
            if steps == n {
                return Err(RatesError::Malformed);
            }
            steps = steps + 1;
        }
    }
}

/// Whether a fetched text is the reference rates document.
pub fn is_reference_document(text: &str) -> (r: bool)
    ensures
        r == contains_text(text@, "Reference rates"@),
{
    contains(text, "Reference rates")
}

} // verus!
