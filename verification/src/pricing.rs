//! Which rates a use of a model is priced with.
use vstd::prelude::*;

use crate::pricing_laws;
use crate::text;
use crate::time::{day_of_date, day_of_instant, Timestamp};
use crate::time;
use crate::usage::{EventView, TokenEvent};

verus! {

/// A price or a factor: a double, carried by its IEEE 754 bit pattern.
#[derive(Debug, Clone, Copy, PartialEq, Eq, Structural)]
pub struct Rate {
    pub bits: u64,
}

/// What a million tokens of a model cost, and how the price changes for long prompts and for the
/// fast tier.
#[derive(Debug, Clone, Copy, PartialEq, Eq, Structural)]
pub struct ModelRates {
    pub input_per_million: Rate,
    pub output_per_million: Rate,
    pub cache_read_per_million: Rate,
    pub input_above_200k_per_million: Option<Rate>,
    pub output_above_200k_per_million: Option<Rate>,
    pub cache_read_above_200k_per_million: Option<Rate>,
    pub long_context_threshold_tokens: u64,
    pub cache_read_is_explicit: bool,
    pub fast_multiplier: Rate,
}

/// The tokens that a use is priced for.
#[derive(Debug, Clone, Copy, PartialEq, Eq, Structural)]
pub struct TokenBreakdown {
    pub input: u64,
    pub cache_read: u64,
    pub output: u64,
    pub is_fast: bool,
}

/// The rates that a use is priced with, and the tokens it is priced for.
#[derive(Debug, Clone, Copy, PartialEq, Eq, Structural)]
pub struct CostQuote {
    pub rates: ModelRates,
    pub tokens: TokenBreakdown,
}

/// 0.04 as a double.
pub const RATE_0_04: u64 = 0x3fa4_7ae1_47ae_147b;

/// 0.4 as a double.
pub const RATE_0_4: u64 = 0x3fd9_9999_9999_999a;

/// 0.5 as a double.
pub const RATE_0_5: u64 = 0x3fe0_0000_0000_0000;

/// 1.0 as a double.
pub const RATE_1: u64 = 0x3ff0_0000_0000_0000;

/// 1.8 as a double.
pub const RATE_1_8: u64 = 0x3ffc_cccc_cccc_cccd;

/// 2.0 as a double.
pub const RATE_2: u64 = 0x4000_0000_0000_0000;

/// 2.5 as a double.
pub const RATE_2_5: u64 = 0x4004_0000_0000_0000;

/// 4.0 as a double.
pub const RATE_4: u64 = 0x4010_0000_0000_0000;

/// 5.0 as a double.
pub const RATE_5: u64 = 0x4014_0000_0000_0000;

/// 10.0 as a double.
pub const RATE_10: u64 = 0x4024_0000_0000_0000;

/// 18.0 as a double.
pub const RATE_18: u64 = 0x4032_0000_0000_0000;

/// 22.5 as a double.
pub const RATE_22_5: u64 = 0x4036_8000_0000_0000;

/// 45.0 as a double.
pub const RATE_45: u64 = 0x4046_8000_0000_0000;

/// 60.0 as a double.
pub const RATE_60: u64 = 0x404e_0000_0000_0000;

/// 270.0 as a double.
pub const RATE_270: u64 = 0x4070_e000_0000_0000;

/// The prompt tokens above which the long-context rates apply.
pub const LONG_CONTEXT_TOKENS: u64 = 272_000;

/// Whether `c` is an ASCII digit.
pub open spec fn is_digit(c: char) -> bool {
    '0' <= c <= '9'
}

/// Whether the text has the shape `-YYYY-MM-DD`.
pub open spec fn is_dashed_date(tail: Seq<char>) -> bool {
    &&& tail.len() == 11
    &&& tail[0] == '-' && tail[5] == '-' && tail[8] == '-'
    &&& is_digit(tail[1]) && is_digit(tail[2]) && is_digit(tail[3]) && is_digit(tail[4])
    &&& is_digit(tail[6]) && is_digit(tail[7]) && is_digit(tail[9]) && is_digit(tail[10])
}

/// Whether the text has the shape `-YYYYMMDD`.
pub open spec fn is_plain_date(tail: Seq<char>) -> bool {
    &&& tail.len() == 9
    &&& tail[0] == '-'
    &&& forall|i: int| 1 <= i < 9 ==> is_digit(#[trigger] tail[i])
}

/// The name of a model without the date that may end it.
pub open spec fn base_model(model: Seq<char>) -> Seq<char> {
    if model.len() >= 11 && is_dashed_date(model.skip(model.len() - 11)) {
        model.take(model.len() - 11)
    } else if model.len() >= 9 && is_plain_date(model.skip(model.len() - 9)) {
        model.take(model.len() - 9)
    } else {
        model
    }
}

/// Whether `c` is an ASCII digit.
fn digit(c: char) -> (is: bool)
    ensures
        is == is_digit(c),
{
    '0' <= c && c <= '9'
}

/// The name of a model without the date that may end it.
pub fn dated_base_model(model: &str) -> (base: String)
    ensures
        base@ == base_model(model@),
{
    let chars = text::characters(model);
    let len: usize = chars.len();
    if len >= 11 {
        let at: usize = len - 11;
        let ghost tail = model@.skip(at as int);
        if chars[at] == '-' && digit(chars[at + 1]) && digit(chars[at + 2]) && digit(chars[at + 3])
            && digit(chars[at + 4]) && chars[at + 5] == '-' && digit(chars[at + 6]) && digit(
            chars[at + 7],
        ) && chars[at + 8] == '-' && digit(chars[at + 9]) && digit(chars[at + 10]) {
            assert(is_dashed_date(tail));
            return text::text_of(&chars, 0, at);
        }
        assert(!is_dashed_date(tail));
    }
    if len >= 9 {
        let at: usize = len - 9;
        let ghost tail = model@.skip(at as int);
        if chars[at] == '-' {
            let mut i: usize = 1;
            while i < 9
                invariant
                    chars@ == model@,
                    len == chars@.len(),
                    at + 9 == len,
                    tail == model@.skip(at as int),
                    1 <= i <= 9,
                    forall|k: int| 1 <= k < i ==> is_digit(#[trigger] tail[k]),
                    len >= 11 ==> !is_dashed_date(model@.skip(len - 11)),
                decreases 9 - i,
            {
                assert(tail[i as int] == chars@[at + i]);
                if !digit(chars[at + i]) {
                    assert(!is_plain_date(tail));
                    return model.to_owned();
                }
                i += 1;
            }
            return text::text_of(&chars, 0, at);
        }
    }
    model.to_owned()
}

/// Whether cached input of that model costs as much as other input.
pub open spec fn has_no_cache_discount(model: Seq<char>) -> bool {
    base_model(model) == "gpt-5.4-pro"@ || base_model(model) == "gpt-5.5-pro"@
}

/// Whether cached input of that model costs as much as other input.
pub fn codex_model_has_no_cache_discount(model: &str) -> (none: bool)
    ensures
        none == has_no_cache_discount(model@),
{
    let base = dated_base_model(model);
    text::same_text(base.as_str(), "gpt-5.4-pro") || text::same_text(base.as_str(), "gpt-5.5-pro")
}

/// The input, output and cached-input rates for long prompts.
pub open spec fn rates3(input: u64, output: u64, cache_read: u64) -> (Rate, Rate, Rate) {
    (Rate { bits: input }, Rate { bits: output }, Rate { bits: cache_read })
}

/// The input, output and cached-input rates of a model for long prompts.
pub open spec fn long_context_rates(model: Seq<char>) -> Option<(Rate, Rate, Rate)> {
    let base = base_model(model);
    if base == "gpt-5.4"@ {
        Some(rates3(RATE_5, RATE_22_5, RATE_0_5))
    } else if base == "gpt-5.4-pro"@ {
        Some(rates3(RATE_60, RATE_270, RATE_60))
    } else if base == "gpt-5.5"@ {
        Some(rates3(RATE_10, RATE_45, RATE_1))
    } else if base == "gpt-5.5-pro"@ {
        Some(rates3(RATE_60, RATE_270, RATE_60))
    } else if base == "gpt-5.6-sol"@ {
        Some(rates3(RATE_10, RATE_45, RATE_1))
    } else if base == "gpt-5.6-terra"@ {
        Some(rates3(RATE_4, RATE_18, RATE_0_4))
    } else if base == "gpt-5.6-luna"@ {
        Some(rates3(RATE_0_4, RATE_1_8, RATE_0_04))
    } else {
        None
    }
}

/// The input, output and cached-input rates of a model for long prompts.
pub fn codex_long_context_rates(model: &str) -> (rates: Option<(Rate, Rate, Rate)>)
    ensures
        rates == long_context_rates(model@),
{
    let base_text = dated_base_model(model);
    let base = base_text.as_str();
    if text::same_text(base, "gpt-5.4") {
        Some((Rate { bits: RATE_5 }, Rate { bits: RATE_22_5 }, Rate { bits: RATE_0_5 }))
    } else if text::same_text(base, "gpt-5.4-pro") {
        Some((Rate { bits: RATE_60 }, Rate { bits: RATE_270 }, Rate { bits: RATE_60 }))
    } else if text::same_text(base, "gpt-5.5") {
        Some((Rate { bits: RATE_10 }, Rate { bits: RATE_45 }, Rate { bits: RATE_1 }))
    } else if text::same_text(base, "gpt-5.5-pro") {
        Some((Rate { bits: RATE_60 }, Rate { bits: RATE_270 }, Rate { bits: RATE_60 }))
    } else if text::same_text(base, "gpt-5.6-sol") {
        Some((Rate { bits: RATE_10 }, Rate { bits: RATE_45 }, Rate { bits: RATE_1 }))
    } else if text::same_text(base, "gpt-5.6-terra") {
        Some((Rate { bits: RATE_4 }, Rate { bits: RATE_18 }, Rate { bits: RATE_0_4 }))
    } else if text::same_text(base, "gpt-5.6-luna") {
        Some((Rate { bits: RATE_0_4 }, Rate { bits: RATE_1_8 }, Rate { bits: RATE_0_04 }))
    } else {
        None
    }
}

/// What the fast tier multiplies the price of a model by: a factor of its own for some models,
/// else the one in the rates, where one in the rates counts as none and stands for two.
pub open spec fn priority_multiplier(model: Seq<char>, rates: ModelRates) -> Rate {
    let base = base_model(model);
    if base == "gpt-5.5"@ || base == "gpt-5.5-pro"@ {
        Rate { bits: RATE_2_5 }
    } else if base == "gpt-5.4"@ || base == "gpt-5.4-pro"@ || base == "gpt-5.6-sol"@ || base
        == "gpt-5.6-terra"@ || base == "gpt-5.6-luna"@ || rates.fast_multiplier.bits == RATE_1 {
        Rate { bits: RATE_2 }
    } else {
        rates.fast_multiplier
    }
}

/// What the fast tier multiplies the price of a model by.
pub fn codex_priority_multiplier(model: &str, rates: ModelRates) -> (factor: Rate)
    ensures
        factor == priority_multiplier(model@, rates),
{
    let base_text = dated_base_model(model);
    let base = base_text.as_str();
    if text::same_text(base, "gpt-5.5") || text::same_text(base, "gpt-5.5-pro") {
        Rate { bits: RATE_2_5 }
    } else if text::same_text(base, "gpt-5.4") || text::same_text(base, "gpt-5.4-pro")
        || text::same_text(base, "gpt-5.6-sol") || text::same_text(base, "gpt-5.6-terra")
        || text::same_text(base, "gpt-5.6-luna") || rates.fast_multiplier.bits == RATE_1 {
        Rate { bits: RATE_2 }
    } else {
        rates.fast_multiplier
    }
}

/// The rates of a model with its long-context rates in them.
pub open spec fn with_long_context(rates: ModelRates, model: Seq<char>) -> ModelRates {
    match long_context_rates(model) {
        Some((input, output, cache_read)) => ModelRates {
            input_above_200k_per_million: Some(input),
            output_above_200k_per_million: Some(output),
            cache_read_above_200k_per_million: Some(cache_read),
            long_context_threshold_tokens: LONG_CONTEXT_TOKENS,
            ..rates
        },
        None => rates,
    }
}

/// The rates with cached input at the price of other input, where no discount applies or none was
/// stated.
pub open spec fn with_cache_price(rates: ModelRates, model: Seq<char>) -> ModelRates {
    if has_no_cache_discount(model) || !rates.cache_read_is_explicit {
        ModelRates {
            cache_read_per_million: rates.input_per_million,
            cache_read_above_200k_per_million: rates.input_above_200k_per_million,
            ..rates
        }
    } else {
        rates
    }
}

/// The rates that a use of a model is priced with.
pub open spec fn rates_applied(rates: ModelRates, model: Seq<char>) -> ModelRates {
    let adjusted = with_cache_price(with_long_context(rates, model), model);
    ModelRates { fast_multiplier: priority_multiplier(model, adjusted), ..adjusted }
}

/// The tokens that a use is priced for: those not cached, those cached, and the output.
pub open spec fn tokens_priced(event: EventView, fast_tier: bool) -> TokenBreakdown {
    TokenBreakdown {
        input: if event.input > event.cached {
            (event.input - event.cached) as u64
        } else {
            0
        },
        cache_read: event.cached,
        output: event.output,
        is_fast: fast_tier,
    }
}

/// The rates that a use of a model is priced with, and the tokens it is priced for.
pub fn codex_cost(rates: ModelRates, event: &TokenEvent, model: &str, fast_tier: bool) -> (quote:
    CostQuote)
    ensures
        quote == (CostQuote {
            rates: rates_applied(rates, model@),
            tokens: tokens_priced(event@, fast_tier),
        }),
        quote.rates.input_per_million == rates.input_per_million,
        quote.rates.output_per_million == rates.output_per_million,
        forall|base: Seq<char>| #[trigger]
            pricing_laws::is_version_of(model@, base) && rates.cache_read_is_explicit && base
                != "gpt-5.4-pro"@ && base != "gpt-5.5-pro"@ ==> quote.rates.cache_read_per_million
                == rates.cache_read_per_million,
        quote.tokens.output == event.output,
        quote.tokens.cache_read == event.cached,
        event.cached <= event.input ==> quote.tokens.input == event.input - event.cached,
        quote.tokens.is_fast == fast_tier,
{
    proof {
        assert forall|base: Seq<char>| #[trigger]
            pricing_laws::is_version_of(model@, base) && rates.cache_read_is_explicit && base
                != "gpt-5.4-pro"@ && base != "gpt-5.5-pro"@ implies rates_applied(
            rates,
            model@,
        ).cache_read_per_million == rates.cache_read_per_million by {
            pricing_laws::a_stated_cache_price_is_kept(rates, model@, base);
        }
    }
    let mut applied = rates;
    if let Some((input, output, cache_read)) = codex_long_context_rates(model) {
        applied.input_above_200k_per_million = Some(input);
        applied.output_above_200k_per_million = Some(output);
        applied.cache_read_above_200k_per_million = Some(cache_read);
        applied.long_context_threshold_tokens = LONG_CONTEXT_TOKENS;
    }
    if codex_model_has_no_cache_discount(model) || !applied.cache_read_is_explicit {
        applied.cache_read_per_million = applied.input_per_million;
        applied.cache_read_above_200k_per_million = applied.input_above_200k_per_million;
    }
    applied.fast_multiplier = codex_priority_multiplier(model, applied);
    CostQuote {
        rates: applied,
        tokens: TokenBreakdown {
            input: event.input.saturating_sub(event.cached),
            cache_read: event.cached,
            output: event.output,
            is_fast: fast_tier,
        },
    }
}

/// The model that reviewed on a UTC day: the latest one released by then.
pub open spec fn review_model(day: int) -> Seq<char> {
    if day >= time::gregorian_day(2026, 4, 23) {
        "gpt-5.5"@
    } else if day >= time::gregorian_day(2026, 3, 5) {
        "gpt-5.4"@
    } else if day >= time::gregorian_day(2026, 2, 5) {
        "gpt-5.3-codex"@
    } else if day >= time::gregorian_day(2025, 12, 11) {
        "gpt-5.2-codex"@
    } else if day >= time::gregorian_day(2025, 11, 13) {
        "gpt-5.1-codex"@
    } else if day >= time::gregorian_day(2025, 9, 15) {
        "gpt-5-codex"@
    } else {
        "gpt-5"@
    }
}

/// The model that reviewed at an instant.
pub fn auto_review_fallback(timestamp: &Timestamp) -> (model: &'static str)
    ensures
        model@ == review_model(time::utc_day(*timestamp)),
{
    let day: i64 = day_of_instant(*timestamp);
    if day >= day_of_date(2026, 4, 23) {
        "gpt-5.5"
    } else if day >= day_of_date(2026, 3, 5) {
        "gpt-5.4"
    } else if day >= day_of_date(2026, 2, 5) {
        "gpt-5.3-codex"
    } else if day >= day_of_date(2025, 12, 11) {
        "gpt-5.2-codex"
    } else if day >= day_of_date(2025, 11, 13) {
        "gpt-5.1-codex"
    } else if day >= day_of_date(2025, 9, 15) {
        "gpt-5-codex"
    } else {
        "gpt-5"
    }
}

/// The model whose price a use has: the one it names, or, for an automatic review, the one that
/// reviewed then.
pub open spec fn model_priced(event: EventView) -> Seq<char> {
    if text::trimmed(event.model) == "codex-auto-review"@ {
        review_model(time::utc_day(event.timestamp))
    } else {
        text::trimmed(event.model)
    }
}

/// The model whose price a use has.
pub fn priced_model(event: &TokenEvent) -> (model: String)
    ensures
        model@ == model_priced(event@),
{
    let display = text::trim(event.model.as_str());
    if text::same_text(display.as_str(), "codex-auto-review") {
        auto_review_fallback(&event.timestamp).to_owned()
    } else {
        display
    }
}

/// Under which name the rates of a model are looked up, and whether the model is the fast variant
/// of that name.
#[derive(Debug)]
pub struct RateLookup {
    pub rate_model: String,
    pub is_fast_alias: bool,
}

/// Whether a name is that of a fast variant: something before the ending `-fast`.
pub open spec fn is_fast_name(name: Seq<char>) -> bool {
    name.len() > 5 && name.skip(name.len() - 5) == "-fast"@
}

/// The name under which rates are looked up: that of the model that a fast variant varies, else
/// the name itself.
pub open spec fn lookup_name(name: Seq<char>) -> Seq<char> {
    if is_fast_name(name) {
        name.take(name.len() - 5)
    } else {
        name
    }
}

/// Under which name the rates of a model are looked up, `canonical` being the name that the price
/// list has for it, if it has one.
pub fn rate_lookup(model: &str, canonical: Option<&str>) -> (lookup: RateLookup)
    ensures
        ({
            let name = match canonical {
                Some(inner) => inner@,
                None => model@,
            };
            lookup.rate_model@ == lookup_name(name) && lookup.is_fast_alias == is_fast_name(name)
        }),
        lookup.is_fast_alias ==> lookup.rate_model@.len() > 0 && lookup.rate_model@ + "-fast"@ == (
        if canonical is Some {
            canonical->0@
        } else {
            model@
        }),
        !lookup.is_fast_alias ==> lookup.rate_model@ == (if canonical is Some {
            canonical->0@
        } else {
            model@
        }),
{
    let name = match canonical {
        Some(inner) => inner,
        None => model,
    };
    let chars = text::characters(name);
    let len: usize = chars.len();
    if len > 5 {
        let tail = text::text_of(&chars, len - 5, len);
        assert(tail@ =~= name@.skip(len - 5));
        if text::same_text(tail.as_str(), "-fast") {
            let base = text::text_of(&chars, 0, len - 5);
            assert(base@ =~= name@.take(len - 5));
            assert(base@ + "-fast"@ =~= name@);
            return RateLookup { rate_model: base, is_fast_alias: true };
        }
    }
    RateLookup { rate_model: name.to_owned(), is_fast_alias: false }
}

/// How a use is priced: with the rates found under the lookup name, else with those of the model
/// itself, else not at all. A fast variant is priced on the fast tier where the rates are those of
/// the model it varies; any other use where it was on the fast tier.
pub open spec fn quote_for(
    event: EventView,
    rate_model: Seq<char>,
    is_fast_alias: bool,
    base_rates: Option<ModelRates>,
    own_rates: Option<ModelRates>,
) -> Option<CostQuote> {
    let fast_tier = if is_fast_alias {
        base_rates is Some
    } else {
        event.is_fast
    };
    let rates = match base_rates {
        Some(_) => base_rates,
        None => own_rates,
    };
    match rates {
        Some(inner) => Some(
            CostQuote {
                rates: rates_applied(inner, rate_model),
                tokens: tokens_priced(event, fast_tier),
            },
        ),
        None => None,
    }
}

/// How a use is priced, `base_rates` being the rates found under the lookup name and `own_rates`
/// those found under the name of the model.
pub fn estimate_cost(
    event: &TokenEvent,
    lookup: &RateLookup,
    base_rates: Option<ModelRates>,
    own_rates: Option<ModelRates>,
) -> (quote: Option<CostQuote>)
    ensures
        quote == quote_for(
            event@,
            lookup.rate_model@,
            lookup.is_fast_alias,
            base_rates,
            own_rates,
        ),
        quote is Some == (base_rates is Some || own_rates is Some),
        quote matches Some(inner) ==> {
            &&& inner.tokens.output == event.output
            &&& inner.tokens.cache_read == event.cached
            &&& inner.tokens.is_fast == (if lookup.is_fast_alias {
                base_rates is Some
            } else {
                event.is_fast
            })
            &&& inner.rates.input_per_million == (if base_rates is Some {
                base_rates->0.input_per_million
            } else {
                own_rates->0.input_per_million
            })
        },
{
    let fast_tier = if lookup.is_fast_alias {
        base_rates.is_some()
    } else {
        event.is_fast
    };
    let rates = match base_rates {
        Some(_) => base_rates,
        None => own_rates,
    };
    match rates {
        Some(inner) => Some(codex_cost(inner, event, lookup.rate_model.as_str(), fast_tier)),
        None => None,
    }
}

/// A name that ends in a date is the name before it, with a date.
pub proof fn a_date_names_a_version(base: Seq<char>, date: Seq<char>)
    requires
        is_dashed_date(date) || is_plain_date(date),
    ensures
        base_model(base + date) == base,
{
    let name = base + date;
    assert(name.skip(name.len() - date.len()) =~= date);
    assert(name.take(name.len() - date.len()) =~= base);
    if is_plain_date(date) && name.len() >= 11 {
        let tail = name.skip(name.len() - 11);
        assert(tail[2] == date[0]);
        assert(!is_dashed_date(tail));
    }
}

/// A dated version of a model is priced as the model is.
pub proof fn a_dated_version_has_the_rates_of_its_model(
    rates: ModelRates,
    model: Seq<char>,
    date: Seq<char>,
)
    requires
        is_dashed_date(date) || is_plain_date(date),
        base_model(model) == model,
    ensures
        rates_applied(rates, model + date) == rates_applied(rates, model),
{
    a_date_names_a_version(model, date);
}

/// A fast variant whose rates are those of the model it varies is priced on the fast tier, and one
/// that has only rates of its own is not, whatever tier the use was on.
pub proof fn a_fast_variant_is_multiplied_once(
    event: EventView,
    name: Seq<char>,
    base_rates: Option<ModelRates>,
    own_rates: Option<ModelRates>,
)
    requires
        is_fast_name(name),
    ensures
        quote_for(event, lookup_name(name), true, base_rates, own_rates) matches Some(quote)
            ==> quote.tokens.is_fast == (base_rates is Some),
{
}

/// Every input token is priced once, as cached or as not cached.
pub proof fn every_input_token_is_priced_once(event: EventView, fast_tier: bool)
    requires
        event.cached <= event.input,
    ensures
        tokens_priced(event, fast_tier).input + tokens_priced(event, fast_tier).cache_read
            == event.input,
{
}

/// The days, counted from 1970-01-01, on which the reviewing model changes.
pub proof fn the_reviewer_changes_on_these_days(day: int)
    ensures
        day >= 20_566 ==> review_model(day) == "gpt-5.5"@,
        20_517 <= day < 20_566 ==> review_model(day) == "gpt-5.4"@,
        20_489 <= day < 20_517 ==> review_model(day) == "gpt-5.3-codex"@,
        20_433 <= day < 20_489 ==> review_model(day) == "gpt-5.2-codex"@,
        20_405 <= day < 20_433 ==> review_model(day) == "gpt-5.1-codex"@,
        20_346 <= day < 20_405 ==> review_model(day) == "gpt-5-codex"@,
        day < 20_346 ==> review_model(day) == "gpt-5"@,
{
}

} // verus!
