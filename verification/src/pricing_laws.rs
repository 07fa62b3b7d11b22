//! What a use of a model is priced with, whatever its rates and its name.
use vstd::prelude::*;

use crate::pricing;
use crate::pricing::{ModelRates, Rate};
use crate::text;
use crate::time;
use crate::usage::EventView;

verus! {

/// Whether a character is a decimal digit.
pub open spec fn is_number(c: char) -> bool {
    48 <= c as int <= 57
}

/// Whether a text writes a day behind a dash, with dashes between its year, month and day or
/// without.
pub open spec fn writes_day(tail: Seq<char>) -> bool {
    ||| tail.len() == 9 && tail[0] == '-' && forall|i: int|
        1 <= i < 9 ==> is_number(#[trigger] tail[i])
    ||| tail.len() == 11 && tail[0] == '-' && tail[5] == '-' && tail[8] == '-' && forall|i: int|
        0 < i < 11 && i != 5 && i != 8 ==> is_number(#[trigger] tail[i])
}

/// Whether a name ends in a day.
pub open spec fn is_dated(name: Seq<char>) -> bool {
    ||| name.len() >= 9 && writes_day(name.skip(name.len() - 9))
    ||| name.len() >= 11 && writes_day(name.skip(name.len() - 11))
}

/// Whether a name is that of a model, as such or in a version of some day.
pub open spec fn is_version_of(name: Seq<char>, model: Seq<char>) -> bool {
    ||| name == model && !is_dated(name)
    ||| exists|tail: Seq<char>| writes_day(tail) && name == #[trigger] (model + tail)
}

/// The base of a name is the name without the day that ends it.
pub proof fn the_base_of_a_name_has_no_day(name: Seq<char>, model: Seq<char>)
    requires
        is_version_of(name, model),
    ensures
        pricing::base_model(name) == model,
{
    if name == model && !is_dated(name) {
        if name.len() >= 9 {
            let tail = name.skip(name.len() - 9);
            assert(!writes_day(tail));
            if pricing::is_plain_date(tail) {
                assert forall|i: int| 1 <= i < 9 implies is_number(#[trigger] tail[i]) by {
                    assert(pricing::is_digit(tail[i]));
                }
            }
        }
        if name.len() >= 11 {
            assert(!writes_day(name.skip(name.len() - 11)));
        }
    } else {
        let tail = choose|tail: Seq<char>| writes_day(tail) && name == #[trigger] (model + tail);
        if tail.len() == 9 {
            assert forall|i: int| 1 <= i < 9 implies pricing::is_digit(#[trigger] tail[i]) by {
                assert(is_number(tail[i]));
            }
            assert(pricing::is_plain_date(tail));
        } else {
            assert(is_number(tail[1]) && is_number(tail[2]) && is_number(tail[3]) && is_number(
                tail[4],
            ));
            assert(is_number(tail[6]) && is_number(tail[7]) && is_number(tail[9]) && is_number(
                tail[10],
            ));
            assert(pricing::is_dashed_date(tail));
        }
        pricing::a_date_names_a_version(model, tail);
    }
}

/// The names of the models that have prices of their own.
proof fn lemma_models_differ()
    ensures
        "gpt-5.4"@ != "gpt-5.5"@,
        "gpt-5.4"@ != "gpt-5.4-pro"@,
        "gpt-5.4"@ != "gpt-5.5-pro"@,
        "gpt-5.4"@ != "gpt-5.6-sol"@,
        "gpt-5.4"@ != "gpt-5.6-terra"@,
        "gpt-5.4"@ != "gpt-5.6-luna"@,
        "gpt-5.5"@ != "gpt-5.4-pro"@,
        "gpt-5.5"@ != "gpt-5.5-pro"@,
        "gpt-5.5"@ != "gpt-5.6-sol"@,
        "gpt-5.5"@ != "gpt-5.6-terra"@,
        "gpt-5.5"@ != "gpt-5.6-luna"@,
        "gpt-5.4-pro"@ != "gpt-5.5-pro"@,
        "gpt-5.4-pro"@ != "gpt-5.6-sol"@,
        "gpt-5.4-pro"@ != "gpt-5.6-terra"@,
        "gpt-5.4-pro"@ != "gpt-5.6-luna"@,
        "gpt-5.5-pro"@ != "gpt-5.6-sol"@,
        "gpt-5.5-pro"@ != "gpt-5.6-terra"@,
        "gpt-5.5-pro"@ != "gpt-5.6-luna"@,
        "gpt-5.6-sol"@ != "gpt-5.6-terra"@,
        "gpt-5.6-sol"@ != "gpt-5.6-luna"@,
        "gpt-5.6-terra"@ != "gpt-5.6-luna"@,
{
    reveal_strlit("gpt-5.4");
    reveal_strlit("gpt-5.5");
    reveal_strlit("gpt-5.4-pro");
    reveal_strlit("gpt-5.5-pro");
    reveal_strlit("gpt-5.6-sol");
    reveal_strlit("gpt-5.6-terra");
    reveal_strlit("gpt-5.6-luna");
    assert("gpt-5.4"@.len() == 7 && "gpt-5.5"@.len() == 7);
    assert("gpt-5.4-pro"@.len() == 11 && "gpt-5.5-pro"@.len() == 11 && "gpt-5.6-sol"@.len() == 11);
    assert("gpt-5.6-terra"@.len() == 13 && "gpt-5.6-luna"@.len() == 12);
    assert("gpt-5.4"@[6] == '4' && "gpt-5.5"@[6] == '5');
    assert("gpt-5.4-pro"@[6] == '4' && "gpt-5.5-pro"@[6] == '5' && "gpt-5.6-sol"@[6] == '6');
}

/// The bit pattern of a double.
pub open spec fn double(bits: u64) -> Rate {
    Rate { bits }
}

/// Whether a model has rates of its own for long prompts, by its base name.
pub open spec fn has_long_prices(base: Seq<char>) -> bool {
    ||| base == "gpt-5.4"@
    ||| base == "gpt-5.5"@
    ||| base == "gpt-5.6-sol"@
    ||| base == "gpt-5.6-terra"@
    ||| base == "gpt-5.6-luna"@
    ||| is_pro(base)
}

/// Whether a base name is one of those whose cached input is not cheaper.
pub open spec fn is_pro(base: Seq<char>) -> bool {
    base == "gpt-5.4-pro"@ || base == "gpt-5.5-pro"@
}

/// The rates of a quote, whatever the model: input and output keep their price, and which price is
/// stated for cached input does not matter to them.
pub proof fn input_and_output_keep_their_price(rates: ModelRates, name: Seq<char>)
    ensures
        ({
            let applied = pricing::rates_applied(rates, name);
            &&& applied.input_per_million == rates.input_per_million
            &&& applied.output_per_million == rates.output_per_million
            &&& applied.cache_read_is_explicit == rates.cache_read_is_explicit
        }),
{
}

/// A stated price of cached input is kept, for every model but the two without a discount; and so
/// is the one for long prompts, where the model has no rates of its own for them.
pub proof fn a_stated_cache_price_is_kept(
    rates: ModelRates,
    name: Seq<char>,
    model: Seq<char>,
)
    requires
        is_version_of(name, model),
        rates.cache_read_is_explicit,
        model != "gpt-5.4-pro"@,
        model != "gpt-5.5-pro"@,
    ensures
        pricing::rates_applied(rates, name).cache_read_per_million == rates.cache_read_per_million,
        !has_long_prices(model) ==> pricing::rates_applied(
            rates,
            name,
        ).cache_read_above_200k_per_million == rates.cache_read_above_200k_per_million,
{
    the_base_of_a_name_has_no_day(name, model);
}

/// Cached input costs as much as other input, in short and in long prompts, for the two models
/// without a discount and wherever no price of cached input is stated.
pub proof fn without_a_stated_discount_cached_input_costs_as_input(
    rates: ModelRates,
    name: Seq<char>,
    model: Seq<char>,
)
    requires
        is_version_of(name, model),
        !rates.cache_read_is_explicit || model == "gpt-5.4-pro"@ || model == "gpt-5.5-pro"@,
    ensures
        ({
            let applied = pricing::rates_applied(rates, name);
            &&& applied.cache_read_per_million == rates.input_per_million
            &&& applied.cache_read_above_200k_per_million == applied.input_above_200k_per_million
        }),
{
    the_base_of_a_name_has_no_day(name, model);
}

/// A model without rates of its own for long prompts keeps those of the price list.
pub proof fn other_models_keep_their_long_prices(
    rates: ModelRates,
    name: Seq<char>,
    model: Seq<char>,
)
    requires
        is_version_of(name, model),
        !has_long_prices(model),
    ensures
        ({
            let applied = pricing::rates_applied(rates, name);
            &&& applied.input_above_200k_per_million == rates.input_above_200k_per_million
            &&& applied.output_above_200k_per_million == rates.output_above_200k_per_million
            &&& applied.long_context_threshold_tokens == rates.long_context_threshold_tokens
        }),
{
    the_base_of_a_name_has_no_day(name, model);
}

/// The models with rates of their own for prompts above 272,000 tokens, in dollars for a million
/// tokens of input and of output: 5 and 22.5 for `gpt-5.4`, 60 and 270 for the two without a
/// discount, 10 and 45 for `gpt-5.5` and `gpt-5.6-sol`, 4 and 18 for `gpt-5.6-terra`, 0.4 and 1.8
/// for `gpt-5.6-luna`. Where its price is stated, cached input costs a tenth of other input, but for
/// the two without a discount.
pub proof fn these_models_have_long_prices(rates: ModelRates, name: Seq<char>, model: Seq<char>)
    requires
        is_version_of(name, model),
    ensures
        ({
            let applied = pricing::rates_applied(rates, name);
            let input = applied.input_above_200k_per_million;
            let output = applied.output_above_200k_per_million;
            let cached = applied.cache_read_above_200k_per_million;
            &&& has_long_prices(model) ==> applied.long_context_threshold_tokens == 272_000
            &&& model == "gpt-5.4"@ ==> {
                &&& input == Some(double(0x4014_0000_0000_0000))
                &&& output == Some(double(0x4036_8000_0000_0000))
                &&& rates.cache_read_is_explicit ==> cached == Some(double(0x3fe0_0000_0000_0000))
            }
            &&& is_pro(model) ==> {
                &&& input == Some(double(0x404e_0000_0000_0000))
                &&& output == Some(double(0x4070_e000_0000_0000))
                &&& cached == Some(double(0x404e_0000_0000_0000))
            }
            &&& model == "gpt-5.5"@ || model == "gpt-5.6-sol"@ ==> {
                &&& input == Some(double(0x4024_0000_0000_0000))
                &&& output == Some(double(0x4046_8000_0000_0000))
                &&& rates.cache_read_is_explicit ==> cached == Some(double(0x3ff0_0000_0000_0000))
            }
            &&& model == "gpt-5.6-terra"@ ==> {
                &&& input == Some(double(0x4010_0000_0000_0000))
                &&& output == Some(double(0x4032_0000_0000_0000))
                &&& rates.cache_read_is_explicit ==> cached == Some(double(0x3fd9_9999_9999_999a))
            }
            &&& model == "gpt-5.6-luna"@ ==> {
                &&& input == Some(double(0x3fd9_9999_9999_999a))
                &&& output == Some(double(0x3ffc_cccc_cccc_cccd))
                &&& rates.cache_read_is_explicit ==> cached == Some(double(0x3fa4_7ae1_47ae_147b))
            }
        }),
{
    the_base_of_a_name_has_no_day(name, model);
    lemma_models_differ();
}

/// The fast tier multiplies the price by 2.5 for `gpt-5.5` and its version without a discount, by 2
/// for the other models with long prices and for models whose factor is one, and for all others by
/// the factor of the price list.
pub proof fn the_fast_tier_has_these_factors(rates: ModelRates, name: Seq<char>, model: Seq<char>)
    requires
        is_version_of(name, model),
    ensures
        ({
            let factor = pricing::rates_applied(rates, name).fast_multiplier;
            &&& model == "gpt-5.5"@ || model == "gpt-5.5-pro"@ ==> factor == double(
                0x4004_0000_0000_0000,
            )
            &&& has_long_prices(model) && model != "gpt-5.5"@ && model != "gpt-5.5-pro"@ ==> factor
                == double(0x4000_0000_0000_0000)
            &&& !has_long_prices(model) && rates.fast_multiplier.bits == 0x3ff0_0000_0000_0000
                ==> factor == double(0x4000_0000_0000_0000)
            &&& !has_long_prices(model) && rates.fast_multiplier.bits != 0x3ff0_0000_0000_0000
                ==> factor == rates.fast_multiplier
        }),
{
    the_base_of_a_name_has_no_day(name, model);
    lemma_models_differ();
}

/// A quote is for the tokens of the use: its output, its cached input, and the rest of its input.
pub proof fn a_quote_is_for_the_tokens_of_the_use(event: EventView, fast_tier: bool)
    ensures
        ({
            let tokens = pricing::tokens_priced(event, fast_tier);
            &&& tokens.output == event.output
            &&& tokens.cache_read == event.cached
            &&& event.cached <= event.input ==> tokens.input == event.input - event.cached
            &&& event.cached > event.input ==> tokens.input == 0
            &&& tokens.is_fast == fast_tier
        }),
{
}

/// A use has a price where there are rates under the name that is looked up or under that of the
/// model, and the former count where there are both. It is priced on the fast tier where it was on
/// it, or, for a fast variant, where the rates are those of the model that it varies.
pub proof fn rates_of_the_looked_up_name_come_first(
    event: EventView,
    rate_model: Seq<char>,
    is_fast_alias: bool,
    base_rates: Option<ModelRates>,
    own_rates: Option<ModelRates>,
)
    ensures
        ({
            let quote = pricing::quote_for(event, rate_model, is_fast_alias, base_rates, own_rates);
            &&& quote is Some == (base_rates is Some || own_rates is Some)
            &&& quote matches Some(inner) ==> {
                &&& base_rates matches Some(rates) ==> inner.rates == pricing::rates_applied(
                    rates,
                    rate_model,
                )
                &&& base_rates is None ==> inner.rates == pricing::rates_applied(
                    own_rates->0,
                    rate_model,
                )
                &&& inner.tokens.output == event.output
                &&& inner.tokens.cache_read == event.cached
                &&& event.cached <= event.input ==> inner.tokens.input + event.cached == event.input
                &&& !is_fast_alias ==> inner.tokens.is_fast == event.is_fast
                &&& is_fast_alias ==> inner.tokens.is_fast == (base_rates is Some)
            }
        }),
{
}

/// The rates of a fast variant are looked up under the name before `-fast`, and those of any other
/// model under its own name.
pub proof fn a_fast_variant_is_looked_up_without_its_ending(name: Seq<char>, base: Seq<char>)
    requires
        base.len() > 0,
    ensures
        name == base + "-fast"@ ==> pricing::is_fast_name(name) && pricing::lookup_name(name)
            == base,
        (forall|other: Seq<char>| name != #[trigger] (other + "-fast"@)) ==> !pricing::is_fast_name(
            name,
        ) && pricing::lookup_name(name) == name,
        !pricing::is_fast_name("-fast"@),
{
    reveal_strlit("-fast");
    if name == base + "-fast"@ {
        assert(name.skip(name.len() - 5) =~= "-fast"@);
        assert(name.take(name.len() - 5) =~= base);
    }
    if pricing::is_fast_name(name) {
        assert(name =~= name.take(name.len() - 5) + "-fast"@);
    }
}

/// A use has the price of the model that it names, blanks around the name left aside; an automatic
/// review has that of the model that reviewed on its day, the days being 2025-09-15, 2025-11-13,
/// 2025-12-11, 2026-02-05, 2026-03-05 and 2026-04-23 in UTC.
pub proof fn reviews_have_the_price_of_the_reviewer(event: EventView)
    ensures
        ({
            let model = pricing::model_priced(event);
            let second = event.timestamp.secs;
            let is_review = text::trimmed(event.model) == "codex-auto-review"@;
            &&& !is_review ==> model == text::trimmed(event.model)
            &&& is_review && second >= 1_776_902_400 ==> model == "gpt-5.5"@
            &&& is_review && 1_772_668_800 <= second < 1_776_902_400 ==> model == "gpt-5.4"@
            &&& is_review && 1_770_249_600 <= second < 1_772_668_800 ==> model == "gpt-5.3-codex"@
            &&& is_review && 1_765_411_200 <= second < 1_770_249_600 ==> model == "gpt-5.2-codex"@
            &&& is_review && 1_762_992_000 <= second < 1_765_411_200 ==> model == "gpt-5.1-codex"@
            &&& is_review && 1_757_894_400 <= second < 1_762_992_000 ==> model == "gpt-5-codex"@
            &&& is_review && second < 1_757_894_400 ==> model == "gpt-5"@
        }),
{
    pricing::the_reviewer_changes_on_these_days(event.timestamp.secs as int / 86_400);
}

/// Calendar days are counted one by one: the days of a month follow each other, a month follows the
/// one before it after as many days as that has, and a year follows after 365 days or, where it is
/// one of the leap years, 366. The count starts on 1970-01-01.
pub proof fn calendar_days_follow_each_other(year: int, month: int, day: int)
    requires
        year >= 1,
        1 <= month <= 12,
    ensures
        time::gregorian_day(1970, 1, 1) == 0,
        time::gregorian_day(year, month, day + 1) == time::gregorian_day(year, month, day) + 1,
        ({
            let is_leap = (year % 4 == 0 && year % 100 != 0) || year % 400 == 0;
            let days: int = if month == 2 {
                if is_leap {
                    29
                } else {
                    28
                }
            } else if month == 4 || month == 6 || month == 9 || month == 11 {
                30
            } else {
                31
            };
            &&& month < 12 ==> time::gregorian_day(year, month + 1, 1) == time::gregorian_day(
                year,
                month,
                1,
            ) + days
            &&& month == 12 ==> time::gregorian_day(year + 1, 1, 1) == time::gregorian_day(
                year,
                month,
                1,
            ) + days
        }),
{
}

} // verus!
