//! The rules by which the memorial service differs from the retired one.
use crate::domain::{ContentKind, DeviceClock};
use crate::ints::{clip64, max64, max_int, saturating_mul, saturating_sub};
use crate::magnitude::Toward;
use crate::number::{Real, ONE, ZERO};
use crate::text::{
    chars_of, decimal, digit, digits, is_digit, is_whitespace, lower, lower_char, push_chars,
    push_decimal, text_of, trim_bounds, trim_start, trimmed, whitespace,
};
use vstd::prelude::*;

verus! {

pub const POLICY_VERSION: u32 = 1;

pub const PASS_SEASONS: i64 = 13;

pub const SKILL_RESET_SECONDS: i64 = 300;

/// The pattern of 3600.
pub const ENCORE_BASE_SECONDS: u64 = 0x40ac_2000_0000_0000;

pub const MAX_SINGLE_STAGE_ENERGY_COST: i64 = 5;

pub const PASS_POINT_MULTIPLIER: i64 = 10;

/// The pattern of the number nearest to one tenth.
pub const TENTH: u64 = 0x3fb9_9999_9999_999a;

/// The pattern of the number nearest to three tenths.
pub const THREE_TENTHS: u64 = 0x3fd3_3333_3333_3333;

/// A setting that the client asks for at its start.
pub struct Setting {
    pub key: &'static str,
    pub value: &'static str,
}

/// The settings of the client.
pub open spec fn settings() -> Seq<(Seq<char>, Seq<char>)> {
    seq![
        ("shop_call_wait"@, "0"@),
        ("ad_cancel_delay"@, "0"@),
        ("force_menu_restric"@, "N"@),
        ("max_bundle_texutre_loading"@, "10"@),
        ("weather_snow"@, "N"@),
        ("check_time_cheat"@, "N"@),
        ("ap_max"@, "200"@),
        ("ap_time"@, "1"@),
        ("ap_use"@, "5"@),
        ("character_exp"@, "450"@),
    ]
}

pub fn default_settings() -> (r: Vec<Setting>)
    ensures
        r@.map_values(|s: Setting| (s.key@, s.value@)) == settings(),
{
    let r = vec![
        Setting { key: "shop_call_wait", value: "0" },
        Setting { key: "ad_cancel_delay", value: "0" },
        Setting { key: "force_menu_restric", value: "N" },
        Setting { key: "max_bundle_texutre_loading", value: "10" },
        Setting { key: "weather_snow", value: "N" },
        Setting { key: "check_time_cheat", value: "N" },
        Setting { key: "ap_max", value: "200" },
        Setting { key: "ap_time", value: "1" },
        Setting { key: "ap_use", value: "5" },
        Setting { key: "character_exp", value: "450" },
    ];
    proof {
        assert(r@.map_values(|s: Setting| (s.key@, s.value@)) =~= settings());
    }
    r
}

/// The policy manifest.
#[derive(Clone, Debug)]
pub struct MemorialPolicy {
    pub version: u32,
    pub follower_gift_icons: Vec<(i64, String)>,
    pub legacy_items: Vec<LegacyItemPolicy>,
    pub progression_multiplier: Real,
    pub scaled_achievement_ids: Vec<i64>,
    pub preserve_skill_unlock_requirements: bool,
    pub cosmetic_price: i64,
    pub skill_cooldown_multiplier: Real,
    pub skill_reset_seconds: i64,
    pub encore_base_seconds: Real,
    pub max_single_stage_energy_cost: i64,
    pub ch3_energy_cap: i64,
    pub ch3_energy_restore_seconds: i64,
    pub ch3_reward_multiplier: i64,
    pub ch3_profile_exp_per_clear: i64,
    pub pass_point_multiplier: i64,
    pub upgrade_costs: UpgradeCostPolicy,
    pub memorial_shop: MemorialShopPolicy,
}

/// A discontinued piece of content that can still be sent.
#[derive(Clone, Copy, Debug)]
pub struct LegacyItemPolicy {
    pub kind: ContentKind,
    pub area: i32,
    pub id: i64,
}

/// Which upgrades cost single digits, and the range of their highest price.
#[derive(Clone, Debug)]
pub struct UpgradeCostPolicy {
    pub single_digit_currencies: Vec<String>,
    pub formula_cap_min: i64,
    pub formula_cap_max: i64,
}

/// The shop of the memorial service.
#[derive(Clone, Debug)]
pub struct MemorialShopPolicy {
    pub shop_category: i64,
    pub product_type: i64,
    pub sell_type: i64,
    pub sell_value: i64,
    pub area_list: String,
    pub items: Vec<MemorialShopItem>,
}

/// One item of the shop, with its texts by language.
#[derive(Clone, Debug)]
pub struct MemorialShopItem {
    pub id: i64,
    pub product_id_ios: String,
    pub product_id_android: String,
    pub resource_name: String,
    pub reward_group: i64,
    pub sort_index: i16,
    pub title: Vec<(String, String)>,
    pub description: Vec<(String, String)>,
    pub rewards: Vec<MemorialShopReward>,
}

/// One reward of an item.
#[derive(Clone, Copy, Debug)]
pub struct MemorialShopReward {
    pub reward_type: i16,
    pub id: i32,
    pub quantity: Real,
}

/// The bonus of a costume: its own, if it is the first, or a common one.
pub open spec fn fan_bonus(
    area: i32,
    is_default: bool,
    official: Real,
    category_max: Real,
) -> Real {
    if is_default {
        official
    } else if area == 1 {
        Real { bits: THREE_TENTHS }
    } else {
        category_max
    }
}

pub fn costume_fan_bonus(
    area: i32,
    is_default: bool,
    official: Real,
    category_max: Real,
) -> (r: Real)
    ensures
        r == fan_bonus(area, is_default, official, category_max),
{
    if is_default {
        official
    } else if area == 1 {
        Real { bits: THREE_TENTHS }
    } else {
        category_max
    }
}

/// Whether two texts differ at most in ASCII capitals.
pub open spec fn same_ignoring_case(a: Seq<char>, b: Seq<char>) -> bool {
    a.len() == b.len() && forall|i: int|
        0 <= i < a.len() ==> lower(#[trigger] a[i]) == lower(b[i])
}

pub fn eq_ignore_case(a: &str, b: &str) -> (r: bool)
    ensures
        r == same_ignoring_case(a@, b@),
{
    let x = chars_of(a);
    let y = chars_of(b);
    if x.len() != y.len() {
        return false;
    }
    let mut i: usize = 0;
    while i < x.len()
        invariant
            x@ == a@,
            y@ == b@,
            i <= x@.len() == y@.len(),
            forall|j: int| 0 <= j < i ==> lower(#[trigger] a@[j]) == lower(b@[j]),
        decreases x@.len() - i,
    {
        if lower_char(x[i]) != lower_char(y[i]) {
            proof {
                assert(lower(a@[i as int]) != lower(b@[i as int]));
            }
            return false;
        }
        i = i + 1;
    }
    true
}

impl MemorialPolicy {
    pub fn uses_single_digit_cost(&self, currency: &str) -> (r: bool)
        ensures
            r == exists|i: int|
                0 <= i < self.upgrade_costs.single_digit_currencies@.len() && same_ignoring_case(
                    (#[trigger] self.upgrade_costs.single_digit_currencies@[i])@,
                    currency@,
                ),
    {
        let names = &self.upgrade_costs.single_digit_currencies;
        let mut i: usize = 0;
        while i < names.len()
            invariant
                i <= names@.len(),
                names == self.upgrade_costs.single_digit_currencies,
                forall|j: int|
                    0 <= j < i ==> !same_ignoring_case((#[trigger] names@[j])@, currency@),
            decreases names@.len() - i,
        {
            if eq_ignore_case(names[i].as_str(), currency) {
                return true;
            }
            i = i + 1;
        }
        false
    }

    /// What an achievement requires: a tenth, if it is one of those listed.
    pub fn achievement_requirement(&self, id: i64, official: Real) -> (r: Real)
        ensures
            r == if self.scaled_achievement_ids@.contains(id) {
                requirement(official, false)
            } else {
                official
            },
    {
        let mut i: usize = 0;
        while i < self.scaled_achievement_ids.len()
            invariant
                i <= self.scaled_achievement_ids@.len(),
                forall|j: int| 0 <= j < i ==> self.scaled_achievement_ids@[j] != id,
            decreases self.scaled_achievement_ids@.len() - i,
        {
            if self.scaled_achievement_ids[i] == id {
                proof {
                    assert(self.scaled_achievement_ids@.contains(id));
                }
                return scaled_requirement(official, false);
            }
            i = i + 1;
        }
        official
    }
}

/// How many characters of a number stand at the front: digits and points.
pub open spec fn number_run(s: Seq<char>) -> nat
    decreases s.len(),
{
    if s.len() > 0 && (is_digit(s[0]) || s[0] == '.') {
        1 + number_run(s.drop_first())
    } else {
        0
    }
}

/// Whether a percent sign is next, but for white space.
pub open spec fn percent_next(s: Seq<char>) -> bool {
    let t = trim_start(s);
    t.len() > 0 && (t[0] == '%' || t[0] == '\u{ff05}')
}

/// A text with every percentage replaced, and all else as it is.
pub open spec fn with_percentage(s: Seq<char>, percent: int) -> Seq<char>
    decreases s.len(),
{
    if s.len() == 0 {
        Seq::empty()
    } else if !is_digit(s[0]) {
        seq![s[0]] + with_percentage(s.drop_first(), percent)
    } else {
        let n = number_run(s);
        let rest = s.skip(n as int);
        if 0 < n <= s.len() {
            (if percent_next(rest) {
                decimal(percent)
            } else {
                s.take(n as int)
            }) + with_percentage(rest, percent)
        } else {
            Seq::empty()
        }
    }
}

proof fn lemma_number_run(s: Seq<char>)
    ensures
        number_run(s) <= s.len(),
    decreases s.len(),
{
    if s.len() > 0 && (is_digit(s[0]) || s[0] == '.') {
        lemma_number_run(s.drop_first());
    }
}

fn exec_percent_next(v: &Vec<char>, from: usize) -> (r: bool)
    requires
        from <= v@.len(),
    ensures
        r == percent_next(v@.skip(from as int)),
{
    let mut i: usize = from;
    while i < v.len() && is_whitespace(v[i])
        invariant
            from <= i <= v@.len(),
            trim_start(v@.skip(from as int)) == trim_start(v@.skip(i as int)),
        decreases v@.len() - i,
    {
        proof {
            assert(v@.skip(i as int).drop_first() =~= v@.skip(i + 1));
        }
        i = i + 1;
    }
    i < v.len() && (v[i] == '%' || v[i] == '\u{ff05}')
}

/// Replaces the percentages of a text.
pub fn rewrite_percentage(source: &str, percent: i32) -> (r: String)
    ensures
        r@ == with_percentage(source@, percent as int),
{
    let v = chars_of(source);
    let mut result = String::new();
    let mut i: usize = 0;
    proof {
        assert(v@.skip(0) =~= v@);
        assert(Seq::<char>::empty() + with_percentage(v@, percent as int) =~= with_percentage(
            v@,
            percent as int,
        ));
    }
    while i < v.len()
        invariant
            i <= v@.len(),
            result@ + with_percentage(v@.skip(i as int), percent as int) == with_percentage(
                v@,
                percent as int,
            ),
        decreases v@.len() - i,
    {
        let c = v[i];
        let ghost here = v@.skip(i as int);
        let ghost before = result@;
        if !('0' <= c && c <= '9') {
            result.push(c);
            proof {
                assert(here.drop_first() =~= v@.skip(i + 1));
                let tail = with_percentage(v@.skip(i + 1), percent as int);
                assert(before + (seq![c] + tail) =~= result@ + tail);
            }
            i = i + 1;
        } else {
            let start: usize = i;
            let mut end: usize = i;
            proof {
                lemma_number_run(here);
                assert(v@.skip(end as int) =~= here);
            }
            while end < v.len() && (('0' <= v[end] && v[end] <= '9') || v[end] == '.')
                invariant
                    start <= end <= v@.len(),
                    number_run(here) == (end - start) + number_run(v@.skip(end as int)),
                decreases v@.len() - end,
            {
                proof {
                    assert(v@.skip(end as int).drop_first() =~= v@.skip(end + 1));
                }
                end = end + 1;
            }
            proof {
                assert(number_run(here) == end - start);
                assert(here.skip(end - start) =~= v@.skip(end as int));
                assert(here.take(end - start) =~= v@.subrange(start as int, end as int));
                assert(end > start) by {
                    assert(here[0] == c);
                }
            }
            if exec_percent_next(&v, end) {
                push_decimal(&mut result, percent as i64);
            } else {
                push_chars(&mut result, &v, start, end);
            }
            proof {
                let tail = with_percentage(v@.skip(end as int), percent as int);
                assert(result@ + tail =~= before + with_percentage(here, percent as int));
            }
            i = end;
        }
    }
    proof {
        assert(v@.skip(i as int) =~= Seq::empty());
        assert(result@ + Seq::<char>::empty() =~= result@);
    }
    result
}

/// What stands outside the numbers of a text, a number being a digit with the
/// digits and points that follow it.
pub open spec fn outside_numbers(s: Seq<char>) -> Seq<char>
    decreases s.len(),
{
    if s.len() == 0 {
        Seq::empty()
    } else if !is_digit(s[0]) {
        seq![s[0]] + outside_numbers(s.drop_first())
    } else {
        let n = number_run(s);
        if 0 < n <= s.len() {
            outside_numbers(s.skip(n as int))
        } else {
            Seq::empty()
        }
    }
}

/// Whether a text is a number: a digit with digits and points behind it.
spec fn number_text(s: Seq<char>) -> bool {
    s.len() > 0 && is_digit(s[0]) && forall|i: int|
        0 <= i < s.len() ==> is_digit(#[trigger] s[i]) || s[i] == '.'
}

proof fn lemma_digits_text(n: nat)
    ensures
        digits(n).len() > 0,
        forall|i: int| 0 <= i < digits(n).len() ==> is_digit(#[trigger] digits(n)[i]),
    decreases n,
{
    if n >= 10 {
        lemma_digits_text(n / 10);
    }
}

proof fn lemma_run_text(s: Seq<char>)
    requires
        s.len() > 0,
        is_digit(s[0]),
    ensures
        0 < number_run(s) <= s.len(),
        number_text(s.take(number_run(s) as int)),
{
    lemma_number_run(s);
    lemma_run_chars(s);
    assert(s.take(number_run(s) as int)[0] == s[0]);
}

proof fn lemma_run_chars(s: Seq<char>)
    ensures
        number_run(s) <= s.len(),
        forall|i: int|
            0 <= i < number_run(s) ==> is_digit(#[trigger] s[i]) || s[i] == '.',
        number_run(s) < s.len() ==> !is_digit(s[number_run(s) as int]) && s[number_run(s) as int]
            != '.',
    decreases s.len(),
{
    if s.len() > 0 && (is_digit(s[0]) || s[0] == '.') {
        let t = s.drop_first();
        lemma_run_chars(t);
        assert forall|i: int| 0 <= i < number_run(s) implies is_digit(#[trigger] s[i]) || s[i]
            == '.' by {
            if i > 0 {
                assert(s[i] == t[i - 1]);
            }
        }
    }
}

/// A number in front of something else is as long as it is.
proof fn lemma_run_prefix(head: Seq<char>, tail: Seq<char>)
    requires
        forall|i: int| 0 <= i < head.len() ==> is_digit(#[trigger] head[i]) || head[i] == '.',
        tail.len() > 0 ==> !is_digit(tail[0]) && tail[0] != '.',
    ensures
        number_run(head + tail) == head.len(),
    decreases head.len(),
{
    let s = head + tail;
    if head.len() > 0 {
        assert(s[0] == head[0]);
        assert(s.drop_first() =~= head.drop_first() + tail);
        lemma_run_prefix(head.drop_first(), tail);
    } else {
        assert(s =~= tail);
    }
}

/// What a number of a text is replaced with.
spec fn number_kept(s: Seq<char>, percent: int) -> Seq<char> {
    let n = number_run(s);
    if percent_next(s.skip(n as int)) {
        decimal(percent)
    } else {
        s.take(n as int)
    }
}

proof fn lemma_kept(s: Seq<char>, percent: int)
    requires
        percent >= 0,
        s.len() > 0,
        is_digit(s[0]),
    ensures
        number_text(number_kept(s, percent)),
        0 < number_run(s) <= s.len(),
        with_percentage(s, percent) == number_kept(s, percent) + with_percentage(
            s.skip(number_run(s) as int),
            percent,
        ),
        number_run(with_percentage(s, percent)) == number_kept(s, percent).len(),
        with_percentage(s, percent).skip(number_kept(s, percent).len() as int) == with_percentage(
            s.skip(number_run(s) as int),
            percent,
        ),
        with_percentage(s, percent).take(number_kept(s, percent).len() as int) == number_kept(
            s,
            percent,
        ),
{
    lemma_run_text(s);
    lemma_run_chars(s);
    lemma_digits_text(percent as nat);
    let head = number_kept(s, percent);
    let rest = s.skip(number_run(s) as int);
    let tail = with_percentage(rest, percent);
    if rest.len() > 0 {
        assert(rest[0] == s[number_run(s) as int]);
        assert(tail[0] == rest[0]);
    }
    lemma_run_prefix(head, tail);
    assert((head + tail).skip(head.len() as int) =~= tail);
    assert((head + tail).take(head.len() as int) =~= head);
}

/// Whether a percent sign is next does not depend on the percentages behind.
proof fn lemma_percent_next(s: Seq<char>, percent: int)
    requires
        percent >= 0,
    ensures
        percent_next(with_percentage(s, percent)) == percent_next(s),
    decreases s.len(),
{
    if s.len() > 0 {
        let t = with_percentage(s, percent);
        if is_digit(s[0]) {
            lemma_kept(s, percent);
            assert(t[0] == number_kept(s, percent)[0]);
        } else {
            assert(t[0] == s[0]);
            assert(t.drop_first() =~= with_percentage(s.drop_first(), percent));
            lemma_percent_next(s.drop_first(), percent);
        }
    }
}

/// Of two rewritings the last one counts.
pub proof fn law_last_percentage_counts(s: Seq<char>, first: int, last: int)
    requires
        first >= 0,
    ensures
        with_percentage(with_percentage(s, first), last) == with_percentage(s, last),
    decreases s.len(),
{
    let t = with_percentage(s, first);
    if s.len() > 0 {
        if is_digit(s[0]) {
            let rest = s.skip(number_run(s) as int);
            let head = number_kept(s, first);
            lemma_kept(s, first);
            lemma_percent_next(rest, first);
            law_last_percentage_counts(rest, first, last);
            assert(t[0] == head[0]);
            assert(t.len() >= head.len());
        } else {
            assert(t[0] == s[0]);
            assert(t.drop_first() =~= with_percentage(s.drop_first(), first));
            law_last_percentage_counts(s.drop_first(), first, last);
        }
    }
}

proof fn lemma_trim_within(s: Seq<char>)
    ensures
        trim_start(s).len() > 0 ==> s.contains(trim_start(s)[0]),
    decreases s.len(),
{
    if s.len() > 0 && whitespace(s[0]) {
        let t = s.drop_first();
        lemma_trim_within(t);
        if trim_start(t).len() > 0 {
            let i = choose|i: int| 0 <= i < t.len() && t[i] == trim_start(t)[0];
            assert(s[i + 1] == trim_start(s)[0]);
        }
    } else if s.len() > 0 {
        assert(s[0] == trim_start(s)[0]);
    }
}

/// A text without a percent sign stays as it is.
pub proof fn law_no_percentage(s: Seq<char>, percent: int)
    requires
        forall|i: int| 0 <= i < s.len() ==> #[trigger] s[i] != '%' && s[i] != '\u{ff05}',
    ensures
        with_percentage(s, percent) == s,
    decreases s.len(),
{
    if s.len() > 0 {
        if is_digit(s[0]) {
            lemma_run_text(s);
            let n = number_run(s) as int;
            let rest = s.skip(n);
            assert forall|i: int| 0 <= i < rest.len() implies #[trigger] rest[i] != '%' && rest[i]
                != '\u{ff05}' by {
                assert(rest[i] == s[i + n]);
            }
            lemma_trim_within(rest);
            law_no_percentage(rest, percent);
            assert(s.take(n) + rest =~= s);
        } else {
            let rest = s.drop_first();
            assert forall|i: int| 0 <= i < rest.len() implies #[trigger] rest[i] != '%' && rest[i]
                != '\u{ff05}' by {
                assert(rest[i] == s[i + 1]);
            }
            law_no_percentage(rest, percent);
            assert(seq![s[0]] + rest =~= s);
        }
    }
}

/// Rewriting touches numbers alone: what stands outside them stays, in its order.
pub proof fn law_percentage_spares_the_rest(s: Seq<char>, percent: int)
    requires
        percent >= 0,
    ensures
        outside_numbers(with_percentage(s, percent)) == outside_numbers(s),
    decreases s.len(),
{
    let t = with_percentage(s, percent);
    if s.len() > 0 {
        if is_digit(s[0]) {
            lemma_kept(s, percent);
            law_percentage_spares_the_rest(s.skip(number_run(s) as int), percent);
            assert(t[0] == number_kept(s, percent)[0]);
            assert(t.len() >= number_kept(s, percent).len());
        } else {
            assert(t[0] == s[0]);
            assert(t.drop_first() =~= with_percentage(s.drop_first(), percent));
            law_percentage_spares_the_rest(s.drop_first(), percent);
        }
    }
}

/// A number is replaced exactly where a percent sign is next, but for white space; all
/// other characters stay, and what follows is rewritten likewise.
pub proof fn law_percentages_are_replaced(
    number: Seq<char>,
    rest: Seq<char>,
    c: char,
    percent: int,
)
    requires
        number.len() > 0,
        '0' <= number[0] <= '9',
        forall|i: int|
            0 <= i < number.len() ==> '0' <= #[trigger] number[i] <= '9' || number[i] == '.',
        rest.len() > 0 ==> !('0' <= rest[0] <= '9') && rest[0] != '.',
        !('0' <= c <= '9'),
    ensures
        with_percentage(number + rest, percent) == (if percent_next(rest) {
            decimal(percent)
        } else {
            number
        }) + with_percentage(rest, percent),
        with_percentage(seq![c] + rest, percent) == seq![c] + with_percentage(rest, percent),
        with_percentage(Seq::empty(), percent) == Seq::<char>::empty(),
        percent_next(seq!['%'] + rest),
        c == '%' || c == '\u{ff05}' || crate::text::whitespace(c) || !percent_next(
            seq![c] + rest,
        ),
{
    let s = number + rest;
    assert(s[0] == number[0]);
    lemma_run_prefix(number, rest);
    assert(s.take(number.len() as int) =~= number);
    assert(s.skip(number.len() as int) =~= rest);
    let t = seq![c] + rest;
    assert(t[0] == c);
    assert(t.drop_first() =~= rest);
    let u = seq!['%'] + rest;
    assert(u[0] == '%');
}

/// A tenth of a requirement, rounded up, and at least one.
pub open spec fn requirement(official: Real, preserve_first_fan_level: bool) -> Real {
    if preserve_first_fan_level || official.le(Real { bits: ZERO }) {
        official
    } else {
        official.times(Real { bits: TENTH }).ceiling().or_larger(Real { bits: ONE })
    }
}

pub fn scaled_requirement(official: Real, preserve_first_fan_level: bool) -> (r: Real)
    ensures
        r == requirement(official, preserve_first_fan_level),
{
    if preserve_first_fan_level || official.at_most(&Real { bits: ZERO }) {
        official
    } else {
        official.mul(&Real { bits: TENTH }).ceil().max(&Real { bits: ONE })
    }
}

/// The first level, and a tenth, rounded up, of what a requirement is above it.
pub open spec fn fan_requirement(official: Real, first_level: Real) -> Real {
    if official.le(first_level) {
        official
    } else {
        first_level.plus(official.minus(first_level).times(Real { bits: TENTH }).ceiling())
    }
}

pub fn scaled_fan_requirement(official: Real, first_level: Real) -> (r: Real)
    ensures
        r == fan_requirement(official, first_level),
{
    if official.at_most(&first_level) {
        official
    } else {
        first_level.add(&official.sub(&first_level).mul(&Real { bits: TENTH }).ceil())
    }
}

/// The number that decimal digits write.
pub open spec fn digits_value(s: Seq<char>) -> nat
    decreases s.len(),
{
    if s.len() == 0 {
        0
    } else {
        digits_value(s.drop_last()) * 10 + (s.last() as nat - 48) as nat
    }
}

pub open spec fn all_digits(s: Seq<char>) -> bool {
    forall|i: int| 0 <= i < s.len() ==> is_digit(#[trigger] s[i])
}

/// A decimal text divided by ten, rounded up, or nothing where it is no such
/// text.
pub open spec fn tenth_text(official: Seq<char>) -> Option<Seq<char>> {
    let value = trimmed(official);
    if value.len() == 0 || !all_digits(value) {
        None
    } else {
        Some(digits((digits_value(value) + 9) / 10))
    }
}

/// Digits without a leading zero are the digits of their value.
proof fn lemma_canonical(s: Seq<char>)
    requires
        all_digits(s),
        s.len() > 0,
        s.len() > 1 ==> s[0] != '0',
    ensures
        digits(digits_value(s)) == s,
        s.len() > 1 ==> digits_value(s) >= 10,
        s[0] != '0' ==> digits_value(s) > 0,
    decreases s.len(),
{
    let front = s.drop_last();
    let d = (s.last() as nat - 48) as nat;
    assert(is_digit(s.last()));
    assert(digit(d) == s.last());
    if s.len() == 1 {
        assert(front =~= Seq::empty());
        assert(digits_value(front) == 0);
        assert(seq![s.last()] =~= s);
        assert(is_digit(s[0]));
    } else {
        assert forall|i: int| 0 <= i < front.len() implies is_digit(#[trigger] front[i]) by {
            assert(front[i] == s[i]);
        }
        lemma_canonical(front);
        assert(front[0] == s[0]);
        let v = digits_value(s);
        assert(digits_value(front) >= 1);
        assert(v / 10 == digits_value(front));
        assert(v % 10 == d);
        assert(front.push(s.last()) =~= s);
    }
}

/// Leading zeros add nothing.
proof fn lemma_leading_zero(s: Seq<char>)
    requires
        s.len() > 0,
        s[0] == '0',
    ensures
        digits_value(s) == digits_value(s.drop_first()),
    decreases s.len(),
{
    if s.len() == 1 {
        assert(s.drop_last() =~= Seq::empty());
        assert(s.drop_first() =~= Seq::empty());
        assert(digits_value(s.drop_last()) == 0);
    } else {
        lemma_leading_zero(s.drop_last());
        assert(s.drop_last().drop_first() =~= s.drop_first().drop_last());
        assert(s.drop_first().last() == s.last());
    }
}

/// Digits one higher.
pub open spec fn incremented(s: Seq<char>) -> Seq<char>
    decreases s.len(),
{
    if s.len() == 0 {
        seq!['1']
    } else if s.last() == '9' {
        incremented(s.drop_last()).push('0')
    } else {
        s.drop_last().push((s.last() as u32 + 1) as char)
    }
}

proof fn lemma_incremented(s: Seq<char>)
    requires
        all_digits(s),
        s.len() > 1 ==> s[0] != '0',
    ensures
        all_digits(incremented(s)),
        digits_value(incremented(s)) == digits_value(s) + 1,
        incremented(s).len() > 0,
        incremented(s).len() > 1 ==> incremented(s)[0] != '0',
        s.len() > 0 ==> incremented(s)[0] != '0',
    decreases s.len(),
{
    let t = incremented(s);
    if s.len() == 0 {
        assert(t.drop_last() =~= Seq::empty());
        assert(digits_value(t.drop_last()) == 0);
    } else {
        let front = s.drop_last();
        assert(is_digit(s.last()));
        assert forall|i: int| 0 <= i < front.len() implies is_digit(#[trigger] front[i]) by {
            assert(front[i] == s[i]);
        }
        if s.last() == '9' {
            assert(front.len() > 1 ==> front[0] == s[0]);
            lemma_incremented(front);
            assert(t.drop_last() =~= incremented(front));
            if s.len() == 1 {
                assert(front =~= Seq::empty());
                assert(incremented(front)[0] == '1');
            } else {
                assert(front[0] == s[0]);
            }
            assert(t[0] == incremented(front)[0]);
        } else {
            assert(t.drop_last() =~= front);
            if s.len() > 1 {
                assert(t[0] == s[0]);
            } else {
                assert(t[0] == (s[0] as u32 + 1) as char);
            }
        }
    }
}

/// Raises digits by one.
fn increment(v: &mut Vec<char>)
    requires
        all_digits(old(v)@),
    ensures
        final(v)@ == incremented(old(v)@),
{
    let ghost start = v@;
    let mut zeros: usize = 0;
    let total: usize = v.len();
    proof {
        assert(incremented(start) + Seq::<char>::empty() =~= incremented(start));
    }
    while v.len() > 0 && v[v.len() - 1] == '9'
        invariant
            all_digits(v@),
            zeros + v@.len() == total,
            incremented(start) == incremented(v@) + Seq::new(zeros as nat, |i: int| '0'),
        decreases v@.len(),
    {
        let ghost before = v@;
        v.pop();
        zeros = zeros + 1;
        proof {
            assert(v@ =~= before.drop_last());
            assert(incremented(before) + Seq::new((zeros - 1) as nat, |i: int| '0')
                =~= incremented(v@) + Seq::new(zeros as nat, |i: int| '0'));
        }
    }
    let ghost stem = v@;
    match v.pop() {
        None => {
            v.push('1');
            proof {
                assert(v@ =~= incremented(stem));
            }
        },
        Some(last) => {
            proof {
                assert(is_digit(stem.last()));
            }
            v.push((last as u8 + 1) as char);
            proof {
                assert(v@ =~= incremented(stem));
            }
        },
    }
    let mut i: usize = 0;
    while i < zeros
        invariant
            i <= zeros,
            v@ == incremented(stem) + Seq::new(i as nat, |j: int| '0'),
        decreases zeros - i,
    {
        v.push('0');
        i = i + 1;
        proof {
            assert(v@ =~= incremented(stem) + Seq::new(i as nat, |j: int| '0'));
        }
    }
}

/// A decimal text divided by ten, rounded up, whatever its length.
pub fn scaled_requirement_text(official: &str) -> (r: Option<String>)
    ensures
        match r {
            Some(text) => tenth_text(official@) == Some(text@),
            None => tenth_text(official@) is None,
        },
{
    let v = chars_of(official);
    let (a, b) = trim_bounds(&v);
    let ghost value = trimmed(official@);
    if a == b {
        return None;
    }
    let mut i: usize = a;
    while i < b
        invariant
            a <= i <= b <= v@.len(),
            value == v@.subrange(a as int, b as int),
            value == trimmed(official@),
            forall|j: int| 0 <= j < i - a ==> is_digit(#[trigger] value[j]),
        decreases b - i,
    {
        if !('0' <= v[i] && v[i] <= '9') {
            proof {
                assert(value[i - a] == v@[i as int]);
            }
            return None;
        }
        i = i + 1;
    }
    assert(all_digits(value));
    let mut s: usize = a;
    while s < b && v[s] == '0'
        invariant
            a <= s <= b <= v@.len(),
            value == v@.subrange(a as int, b as int),
            all_digits(value),
            digits_value(value) == digits_value(v@.subrange(s as int, b as int)),
        decreases b - s,
    {
        proof {
            let rest = v@.subrange(s as int, b as int);
            lemma_leading_zero(rest);
            assert(rest.drop_first() =~= v@.subrange(s + 1, b as int));
        }
        s = s + 1;
    }
    let ghost canonical = v@.subrange(s as int, b as int);
    let mut out: Vec<char> = Vec::new();
    if s == b {
        out.push('0');
        proof {
            assert(canonical =~= Seq::empty());
            assert(digits_value(canonical) == 0);
            assert(out@ =~= digits(0));
        }
        return Some(text_of(&out));
    }
    let mut j: usize = s;
    while j < b - 1
        invariant
            s <= j <= b - 1,
            b <= v@.len(),
            out@ == v@.subrange(s as int, j as int),
        decreases b - j,
    {
        out.push(v[j]);
        proof {
            assert(out@ =~= v@.subrange(s as int, j + 1));
        }
        j = j + 1;
    }
    let last = v[b - 1];
    let ghost front = canonical.drop_last();
    proof {
        assert(out@ =~= front);
        assert(canonical.last() == last);
        assert forall|k: int| 0 <= k < canonical.len() implies is_digit(
            #[trigger] canonical[k],
        ) by {
            assert(canonical[k] == value[k + s - a]);
        }
        assert(is_digit(canonical.last()));
        assert(canonical[0] == v@[s as int]);
        assert forall|k: int| 0 <= k < front.len() implies is_digit(#[trigger] front[k]) by {
            assert(front[k] == canonical[k]);
        }
        assert(front.len() > 0 ==> front[0] == canonical[0]);
    }
    let ghost total = digits_value(value);
    proof {
        assert(total == digits_value(front) * 10 + (last as nat - 48) as nat);
    }
    if out.len() == 0 {
        out.push('0');
    }
    proof {
        if front.len() == 0 {
            assert(out@.drop_last() =~= Seq::empty());
            assert(digits_value(out@.drop_last()) == 0);
            assert(digits_value(front) == 0);
        }
        assert(digits_value(out@) == digits_value(front));
        assert(all_digits(out@));
    }
    if last != '0' {
        let ghost before = out@;
        increment(&mut out);
        proof {
            lemma_incremented(before);
            lemma_canonical(out@);
        }
    } else {
        proof {
            lemma_canonical(out@);
        }
    }
    Some(text_of(&out))
}

/// The price of the `rank`-th of the distinct prices, from 1 to 10.
pub open spec fn upgrade_cost(rank: nat, distinct_price_count: nat) -> nat {
    if distinct_price_count == 0 {
        0
    } else if distinct_price_count == 1 {
        1
    } else {
        let last = (distinct_price_count - 1) as nat;
        1 + 9 * (if rank < last {
            rank
        } else {
            last
        }) / last
    }
}

pub fn memorial_upgrade_cost(rank: usize, distinct_price_count: usize) -> (cost: i64)
    requires
        9 * rank <= usize::MAX || 9 * distinct_price_count <= usize::MAX,
    ensures
        cost == upgrade_cost(rank as nat, distinct_price_count as nat),
{
    if distinct_price_count == 0 {
        0
    } else if distinct_price_count == 1 {
        1
    } else {
        let last: usize = distinct_price_count - 1;
        let place: usize = if rank < last {
            rank
        } else {
            last
        };
        proof {
            law_upgrade_cost_range(rank as nat, distinct_price_count as nat);
        }
        1 + (9 * place / last) as i64
    }
}

/// Every price is between 1 and 10; the first is 1 and the last is 10.
pub proof fn law_upgrade_cost_range(rank: nat, count: nat)
    requires
        count > 1,
    ensures
        1 <= upgrade_cost(rank, count) <= 10,
        upgrade_cost(0, count) == 1,
        rank >= count - 1 ==> upgrade_cost(rank, count) == 10,
{
    let last = (count - 1) as nat;
    let place = if rank < last {
        rank
    } else {
        last
    };
    assert(0 <= 9 * place / last <= 9) by (nonlinear_arith)
        requires
            0 <= place <= last,
            last > 0,
    ;
    assert(9 * last / last == 9) by (nonlinear_arith)
        requires
            last > 0,
    ;
    assert(9 * 0nat / last == 0) by (nonlinear_arith)
        requires
            last > 0,
    ;
}

/// A higher rank is never cheaper.
pub proof fn law_upgrade_cost_monotonic(a: nat, b: nat, count: nat)
    requires
        a <= b,
    ensures
        upgrade_cost(a, count) <= upgrade_cost(b, count),
{
    if count > 1 {
        let last = (count - 1) as nat;
        let x = if a < last {
            a
        } else {
            last
        };
        let y = if b < last {
            b
        } else {
            last
        };
        vstd::arithmetic::div_mod::lemma_div_is_ordered(
            (9 * x) as int,
            (9 * y) as int,
            last as int,
        );
    }
}

/// The highest price of an upgrade: by where its official price stands between
/// the least and the greatest.
pub open spec fn upgrade_cap(
    low: int,
    high: int,
    final_price: Real,
    minimum: Real,
    maximum: Real,
) -> int {
    if final_price.le(Real { bits: ZERO }) {
        0
    } else if maximum.le(minimum) {
        low
    } else {
        let ratio = final_price.minus(minimum).over(maximum.minus(minimum)).within(
            Real { bits: ZERO },
            Real { bits: ONE },
        );
        low + ratio.times(Real::of(high - low)).rounding(Toward::Nearest).as_int()
    }
}

pub fn premium_upgrade_cap(
    costs: &UpgradeCostPolicy,
    final_price: Real,
    minimum: Real,
    maximum: Real,
) -> (cap: i64)
    requires
        i64::MIN <= costs.formula_cap_max - costs.formula_cap_min <= i64::MAX,
        i64::MIN <= upgrade_cap(
            costs.formula_cap_min as int,
            costs.formula_cap_max as int,
            final_price,
            minimum,
            maximum,
        ) <= i64::MAX,
    ensures
        cap == upgrade_cap(
            costs.formula_cap_min as int,
            costs.formula_cap_max as int,
            final_price,
            minimum,
            maximum,
        ),
{
    if final_price.at_most(&Real { bits: ZERO }) {
        return 0;
    }
    if maximum.at_most(&minimum) {
        return costs.formula_cap_min;
    }
    let ratio = final_price.sub(&minimum).div(&maximum.sub(&minimum)).clamp(
        &Real { bits: ZERO },
        &Real { bits: ONE },
    );
    costs.formula_cap_min + ratio.mul(
        &Real::from_i64(costs.formula_cap_max - costs.formula_cap_min),
    ).round().to_i64()
}

/// What every level adds, so that the last one costs the cap.
pub open spec fn level_increment(
    max_level: int,
    official_base: Real,
    first_target_level: int,
    cap: int,
) -> Real {
    if (Real { bits: ZERO }).lt(official_base) && max_level > first_target_level {
        Real::of(cap - 1).over(Real::of(max_level - first_target_level))
    } else {
        Real { bits: ZERO }
    }
}

pub fn premium_upgrade_increment(
    max_level: i64,
    official_base: Real,
    first_target_level: i64,
    cap: i64,
) -> (r: Real)
    requires
        cap > i64::MIN,
        max_level - first_target_level <= i64::MAX,
    ensures
        r == level_increment(
            max_level as int,
            official_base,
            first_target_level as int,
            cap as int,
        ),
{
    if (Real { bits: ZERO }).less_than(&official_base) && max_level > first_target_level {
        Real::from_i64(cap - 1).div(&Real::from_i64(max_level - first_target_level))
    } else {
        Real { bits: ZERO }
    }
}

/// A tenth of a cooldown.
pub fn skill_cooldown(official_seconds: Real) -> (r: Real)
    ensures
        r == official_seconds.times((Real { bits: TENTH })).or_larger((Real { bits: ZERO })),
{
    official_seconds.mul(&Real { bits: TENTH }).max(&Real { bits: ZERO })
}

/// An hour, shortened as the official cooldown is at a level.
pub open spec fn encore_seconds(official_at_level: Real, official_base: Real) -> Real {
    let hour = Real { bits: ENCORE_BASE_SECONDS };
    if official_base.le(Real { bits: ZERO }) {
        hour
    } else {
        hour.times(
            official_at_level.over(official_base).within(Real { bits: ZERO }, Real { bits: ONE }),
        )
    }
}

pub fn encore_cooldown(official_at_level: Real, official_base: Real) -> (r: Real)
    ensures
        r == encore_seconds(official_at_level, official_base),
{
    let hour = Real { bits: ENCORE_BASE_SECONDS };
    if official_base.at_most(&Real { bits: ZERO }) {
        hour
    } else {
        hour.mul(
            &official_at_level.div(&official_base).clamp(
                &Real { bits: ZERO },
                &Real { bits: ONE },
            ),
        )
    }
}

/// The season of a local day, one a day from the anchor on, in a circle.
pub open spec fn season_on(day: int, anchor_day: int, anchor_season: int) -> int {
    (anchor_season - 1 + clip64(day - anchor_day)) % 13 + 1
}

pub fn pass_season(clock: DeviceClock, anchor_day: i64, anchor_season: i64) -> (season: i64)
    requires
        clock.representable(),
        i64::MIN <= anchor_season - 1,
        i64::MIN <= anchor_season - 1 + clip64(clock.local_day() - anchor_day) <= i64::MAX,
    ensures
        season == season_on(clock.local_day(), anchor_day as int, anchor_season as int),
{
    let elapsed: i64 = saturating_sub(clock.local_epoch_day(), anchor_day);
    let place: i64 = anchor_season - 1 + elapsed;
    match place.checked_rem_euclid(PASS_SEASONS) {
        Some(r) => r + 1,
        None => 1,
    }
}

/// A season is one of thirteen; the anchor's is that of its day, and every local
/// day brings the next.
pub proof fn law_pass_rotation(day: int, anchor_day: int, anchor_season: int)
    requires
        i64::MIN <= day - anchor_day,
        day + 1 - anchor_day <= i64::MAX,
    ensures
        1 <= season_on(day, anchor_day, anchor_season) <= 13,
        1 <= anchor_season <= 13 ==> season_on(anchor_day, anchor_day, anchor_season)
            == anchor_season,
        season_on(day + 1, anchor_day, anchor_season) == season_on(day, anchor_day, anchor_season)
            % 13 + 1,
{
}

pub fn ch3_energy_cap(max_single_run_cost: i64) -> (cap: i64)
    ensures
        cap == clip64(max_single_run_cost * 5),
{
    saturating_mul(max_single_run_cost, 5)
}

/// The energy for five runs, or the cap of the policy, if that is larger.
pub fn memorial_ch3_energy_cap(policy: &MemorialPolicy) -> (cap: i64)
    ensures
        cap == max_int(
            policy.ch3_energy_cap as int,
            clip64(policy.max_single_stage_energy_cost * 5) as int,
        ),
{
    max64(policy.ch3_energy_cap, ch3_energy_cap(policy.max_single_stage_energy_cost))
}

} // verus!
