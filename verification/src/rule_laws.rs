//! What the rules of the game, its clock and its log promise.
use crate::boot_log::{fitting, joined, line_cost, logged, marked, starts};
use crate::command::Rules;
use crate::consume_reward::ConsumeReward;
use crate::domain::{ContentKind, CurrencyKind, DeviceClock, MailboxSnapshot, Reward, RewardGrant};
use crate::errors::RewardFault;
use crate::magnitude::Toward;
use crate::mail::{
    carries, delivered, inbox, letter, letters, mailbox_shown, opened_letters, pending, stored,
    stored_grant,
};
use crate::mail_laws::{brings, owned_already};
use crate::master::{digit_runs, gift_worth, missing, positive_numbers, row_cells};
use crate::names::law_find_name_put;
use crate::number::{larger, Real, ONE, ZERO};
use crate::player::PlayerModel;
use crate::policy::{
    all_digits, digits_value, encore_seconds, fan_bonus, fan_requirement, level_increment,
    requirement, same_ignoring_case, tenth_text, upgrade_cap,
};
use crate::reward_laws::{gives, pays_into};
use crate::rewards::consumed_currency;
use crate::rounding::{lemma_two_pos, lemma_two_values, two, units};
use crate::rows::MailModel;
use crate::startup::{capability_of, hex_digit, start_code};
use crate::store::usable_rules;
use crate::table::{find, k1, k2, k3, Key};
use crate::text::{digits, is_digit, lower, parsed_i64, trimmed};
use vstd::prelude::*;
use vstd::utf8::encode_utf8;

verus! {

/// A local day is the number of whole days since the start of 1970, on the clock of the
/// player.
pub proof fn law_local_day(clock: DeviceClock)
    ensures
        clock.local_day() * 86_400 <= clock.unix_seconds + clock.utc_offset_minutes * 60
            < clock.local_day() * 86_400 + 86_400,
{
}

/// Different parts make different keys.
pub proof fn law_keys_differ(a: i64, b: i64, c: i64, x: i64, y: i64, z: i64)
    ensures
        k1(a as int) == k1(x as int) <==> a == x,
        k2(a as int, b as int) == k2(x as int, y as int) <==> a == x && b == y,
        k3(a as int, b as int, c as int) == k3(x as int, y as int, z as int) <==> a == x && b == y
            && c == z,
{
}

/// Capitals do not matter, and nothing else is passed over.
pub proof fn law_capitals(a: Seq<char>, b: Seq<char>)
    ensures
        same_ignoring_case(a, a),
        same_ignoring_case(a, b) <==> same_ignoring_case(b, a),
        same_ignoring_case(a, b) ==> a.len() == b.len() && forall|i: int|
            0 <= i < a.len() ==> #[trigger] a[i] == b[i] || (('A' <= a[i] <= 'Z' || 'a' <= a[i]
                <= 'z') && (a[i] as int - b[i] as int == 32 || b[i] as int - a[i] as int == 32)),
{
    if same_ignoring_case(a, b) {
        assert forall|i: int| 0 <= i < b.len() implies lower(#[trigger] b[i])
            == lower(a[i]) by {
            assert(lower(a[i]) == lower(b[i]));
        }
    }
    if same_ignoring_case(b, a) {
        assert forall|i: int| 0 <= i < a.len() implies lower(#[trigger] a[i])
            == lower(b[i]) by {
            assert(lower(b[i]) == lower(a[i]));
        }
    }
}

/// The first costume keeps its bonus, the others of the first channel have three tenths,
/// and those of other channels the most that there is.
pub proof fn law_costume_bonus(area: i32, official: Real, category_max: Real)
    ensures
        fan_bonus(area, true, official, category_max) == official,
        fan_bonus(1, false, official, category_max) == (Real { bits: 0x3fd3_3333_3333_3333 }),
        area != 1 ==> fan_bonus(area, false, official, category_max) == category_max,
{
}

/// A requirement is a tenth of the official one, rounded up, but at least one; the first
/// level of fans and what asks for nothing stay as they are.
pub proof fn law_requirements(official: Real, first: Real)
    ensures
        requirement(official, true) == official,
        official.le(Real { bits: ZERO }) ==> requirement(official, false) == official,
        !official.le(Real { bits: ZERO }) ==> requirement(official, false) == official.times(
            Real { bits: 0x3fb9_9999_9999_999a },
        ).ceiling().or_larger(Real { bits: ONE }),
        official.le(first) ==> fan_requirement(official, first) == official,
        !official.le(first) ==> fan_requirement(official, first) == first.plus(
            official.minus(first).times(Real { bits: 0x3fb9_9999_9999_999a }).ceiling(),
        ),
{
}

/// A price in digits becomes the least number whose tenfold is not below it; what is no
/// number in digits, but for white space around it, is refused.
pub proof fn law_tenth(official: Seq<char>)
    ensures
        ({
            let value = trimmed(official);
            match tenth_text(official) {
                None => value.len() == 0 || !all_digits(value),
                Some(text) => value.len() > 0 && all_digits(value) && exists|r: nat|
                    text == #[trigger] digits(r) && digits_value(value) <= 10 * r
                        < digits_value(value) + 10,
            }
        }),
{
    let n = digits_value(trimmed(official));
    if let Some(text) = tenth_text(official) {
        assert(text == digits((n + 9) / 10));
    }
}

/// The highest price of an upgrade goes by where its official price stands between the
/// least and the greatest; what costs nothing stays so.
pub proof fn law_upgrade_caps(low: int, high: int, price: Real, minimum: Real, maximum: Real)
    ensures
        price.le(Real { bits: ZERO }) ==> upgrade_cap(low, high, price, minimum, maximum) == 0,
        !price.le(Real { bits: ZERO }) && maximum.le(minimum) ==> upgrade_cap(
            low,
            high,
            price,
            minimum,
            maximum,
        ) == low,
        !price.le(Real { bits: ZERO }) && !maximum.le(minimum) ==> upgrade_cap(
            low,
            high,
            price,
            minimum,
            maximum,
        ) == low + price.minus(minimum).over(maximum.minus(minimum)).within(
            Real { bits: ZERO },
            Real { bits: ONE },
        ).times(Real::of(high - low)).rounding(Toward::Nearest).as_int(),
{
}

/// What every level adds is the same part of what the last costs more than the first, and
/// nothing where there is but one price.
pub proof fn law_level_increments(max_level: int, base: Real, first: int, cap: int)
    ensures
        !(Real { bits: ZERO }).lt(base) || max_level <= first ==> level_increment(
            max_level,
            base,
            first,
            cap,
        ) == (Real { bits: ZERO }),
        (Real { bits: ZERO }).lt(base) && max_level > first ==> level_increment(
            max_level,
            base,
            first,
            cap,
        ) == Real::of(cap - 1).over(Real::of(max_level - first)),
{
}

/// An encore is ready after an hour, shortened as the official time is at its level.
pub proof fn law_encore_seconds(at_level: Real, base: Real)
    ensures
        base.le(Real { bits: ZERO }) ==> encore_seconds(at_level, base) == (Real {
            bits: 0x40ac_2000_0000_0000,
        }),
        !base.le(Real { bits: ZERO }) ==> encore_seconds(at_level, base) == (Real {
            bits: 0x40ac_2000_0000_0000,
        }).times(at_level.over(base).within(Real { bits: ZERO }, Real { bits: ONE })),
{
}

/// The log keeps its last 256 lines, in order; a new one is the last, with a mark of its
/// weight unless it has one.
pub proof fn law_log(lines: Seq<Seq<char>>, message: Seq<char>, i: int)
    requires
        lines.len() <= 256,
    ensures
        logged(lines, message).len() == if lines.len() == 256 {
            256nat
        } else {
            lines.len() + 1
        },
        logged(lines, message).last() == marked(message),
        0 <= i < logged(lines, message).len() - 1 ==> logged(lines, message)[i] == lines[if
            lines.len() == 256 {
            i + 1
        } else {
            i
        }],
        starts(message, "["@) ==> marked(message) == message,
        !starts(message, "["@) && starts(message, "fatal."@) ==> marked(message) == "[ERROR] "@
            + message,
        !starts(message, "["@) && !starts(message, "fatal."@) ==> marked(message) == "[INFO] "@
            + message,
{
}

/// How many bytes lines take when they follow `used` bytes.
pub open spec fn bytes_of(lines: Seq<Seq<char>>, used: nat) -> nat
    decreases lines.len(),
{
    if lines.len() == 0 {
        used
    } else {
        bytes_of(lines.drop_first(), used + line_cost(lines[0], used))
    }
}

/// As many lines are handed out as fit with a byte to spare, and one more would not fit.
pub proof fn law_lines_fit(lines: Seq<Seq<char>>, used: nat, capacity: nat)
    requires
        used < capacity,
    ensures
        ({
            let n = fitting(lines, used, capacity);
            &&& n <= lines.len()
            &&& bytes_of(lines.take(n as int), used) < capacity
            &&& n < lines.len() ==> bytes_of(lines.take(n as int + 1), used) >= capacity
        }),
    decreases lines.len(),
{
    let n = fitting(lines, used, capacity);
    if lines.len() == 0 || used + line_cost(lines[0], used) >= capacity {
        assert(lines.take(0) =~= Seq::empty());
        if lines.len() > 0 {
            let one = lines.take(1);
            assert(one.drop_first() =~= Seq::<Seq<char>>::empty());
            assert(one[0] == lines[0]);
            reveal_with_fuel(bytes_of, 2);
        }
    } else {
        let rest = lines.drop_first();
        let next = used + line_cost(lines[0], used);
        law_lines_fit(rest, next, capacity);
        let k = fitting(rest, next, capacity);
        assert(lines.take(n as int).drop_first() =~= rest.take(k as int));
        assert(lines.take(n as int)[0] == lines[0]);
        if n < lines.len() {
            assert(lines.take(n as int + 1).drop_first() =~= rest.take(k as int + 1));
            assert(lines.take(n as int + 1)[0] == lines[0]);
        }
    }
}

/// Lines are joined in order, with an end between them.
pub proof fn law_lines_are_joined(lines: Seq<Seq<char>>, line: Seq<char>)
    ensures
        joined(Seq::empty()) == Seq::<u8>::empty(),
        joined(lines.push(line)) == (if joined(lines).len() > 0 {
            joined(lines) + seq![10u8]
        } else {
            joined(lines)
        }) + encode_utf8(line),
{
    assert(lines.push(line).drop_last() =~= lines);
    assert(joined(lines).push(10) =~= joined(lines) + seq![10u8]);
}

/// A start is refused with the first reason that holds: arguments that are missing, that
/// cannot be read or are no capability, a clock that is wrong, or a service that runs.
pub proof fn law_start_codes(
    present: bool,
    readable: bool,
    capability: Seq<char>,
    offset: i32,
    running: bool,
)
    ensures
        ({
            let code = start_code(present, readable, capability, offset, running);
            let good = readable && capability_of(capability) is Some;
            let timely = -840 <= offset <= 840;
            &&& !present ==> code == Some((-1) as i32)
            &&& present && !good ==> code == Some((-2) as i32)
            &&& present && good && !timely ==> code == Some((-3) as i32)
            &&& present && good && timely && running ==> code == Some(1i32)
            &&& present && good && timely && !running ==> code is None
        }),
{
}

/// A capability has 64 hexadecimal digits, and is the same in small letters.
pub proof fn law_capability(s: Seq<char>, i: int)
    ensures
        capability_of(s) is Some ==> s.len() == 64 && capability_of(s)->Some_0.len() == 64,
        capability_of(s) is Some && 0 <= i < 64 ==> ('0' <= s[i] <= '9' || 'a' <= s[i] <= 'f'
            || 'A' <= s[i] <= 'F') && capability_of(s)->Some_0[i] == (if 'A' <= s[i] <= 'F' {
            (s[i] as int + 32) as char
        } else {
            s[i]
        }),
        s.len() == 64 && (forall|j: int|
            0 <= j < 64 ==> ('0' <= #[trigger] s[j] <= '9' || 'a' <= s[j] <= 'f' || 'A' <= s[j]
                <= 'F')) ==> capability_of(s) is Some,
{
    if capability_of(s) is Some && 0 <= i < 64 {
        assert(hex_digit(s[i]));
    }
}

/// The cell of the last column with a name counts, and those of other names stay.
pub proof fn law_cells<V>(
    columns: Seq<Seq<char>>,
    cells: Seq<V>,
    column: Seq<char>,
    cell: V,
    other: Seq<char>,
)
    ensures
        find(row_cells(columns.push(column), cells.push(cell)), column) == Some(cell),
        other != column ==> find(row_cells(columns.push(column), cells.push(cell)), other) == find(
            row_cells(columns, cells),
            other,
        ),
        row_cells(Seq::empty(), cells) == Seq::<(Seq<char>, V)>::empty(),
{
    assert(columns.push(column).drop_last() =~= columns);
    assert(cells.push(cell).drop_last() =~= cells);
    law_find_name_put(row_cells(columns, cells), column, cell, column);
    law_find_name_put(row_cells(columns, cells), column, cell, other);
}

/// The table that is missing is the first that is not present; none is where all are.
pub proof fn law_missing_table(names: Seq<Seq<char>>, present: Seq<Seq<char>>, i: int)
    ensures
        match missing(names, present) {
            None => 0 <= i < names.len() ==> present.contains(names[i]),
            Some(name) => !present.contains(name) && exists|j: int|
                0 <= j < names.len() && #[trigger] names[j] == name && (0 <= i < j
                    ==> present.contains(names[i])),
        },
    decreases names.len(),
{
    if names.len() > 0 {
        let front = names.drop_last();
        let n = names.len() - 1;
        law_missing_table(front, present, i);
        if 0 <= i < n {
            assert(front[i] == names[i]);
        }
        match missing(front, present) {
            Some(name) => {
                let j = choose|j: int|
                    0 <= j < front.len() && #[trigger] front[j] == name && (0 <= i < j
                        ==> present.contains(front[i]));
                assert(names[j] == front[j]);
            },
            None => {
                if !present.contains(names.last()) {
                    assert(names[n] == names.last());
                }
            },
        }
    }
}

/// The ids of a list are the positive numbers among its runs of digits, in order.
pub proof fn law_ids(runs: Seq<Seq<char>>, run: Seq<char>)
    ensures
        positive_numbers(Seq::empty()) == Seq::<i64>::empty(),
        positive_numbers(runs.push(run)) == match parsed_i64(run) {
            Some(id) => if id > 0 {
                positive_numbers(runs).push(id)
            } else {
                positive_numbers(runs)
            },
            None => positive_numbers(runs),
        },
{
    assert(runs.push(run).drop_last() =~= runs);
}

/// A digit lengthens the last run of digits, and anything else begins a new one.
pub proof fn law_digit_runs(s: Seq<char>, c: char)
    ensures
        digit_runs(Seq::empty()) == seq![Seq::<char>::empty()],
        digit_runs(s).len() > 0,
        digit_runs(s.push(c)).len() == digit_runs(s).len() + if '0' <= c <= '9' {
            0int
        } else {
            1
        },
        digit_runs(s.push(c)).last() == if '0' <= c <= '9' {
            digit_runs(s).last().push(c)
        } else {
            Seq::empty()
        },
        '0' <= c <= '9' ==> digit_runs(s.push(c)).drop_last() == digit_runs(s).drop_last(),
        !('0' <= c <= '9') ==> digit_runs(s.push(c)).drop_last() == digit_runs(s),
    decreases s.len(),
{
    if s.len() > 0 {
        law_digit_runs(s.drop_last(), s.last());
        assert(s.drop_last().push(s.last()) =~= s);
    }
    let t = s.push(c);
    assert(t.drop_last() =~= s);
    let before = digit_runs(s);
    if is_digit(c) {
        assert(digit_runs(t).drop_last() =~= before.drop_last());
    } else {
        assert(digit_runs(t).drop_last() =~= before);
    }
}

/// No gift is worth less than nothing, and none more than its row says.
pub proof fn law_gift_worth(value: Real)
    ensures
        gift_worth(value) == value.or_larger(Real { bits: ZERO }).as_int(),
        gift_worth(value) >= 0,
{
    let zero = Real { bits: ZERO };
    let n = larger(value.num(), zero.num(), 53);
    lemma_two_values();
    assert(value.or_larger(zero).num() == n);
    assert(n.neg ==> n.mag == 0);
    if n.neg {
        lemma_two_pos(1074);
        let t = two(1074);
        assert(units(0, 53) == 0);
        assert(0nat / t == 0) by (nonlinear_arith)
            requires
                t > 0,
        ;
    }
}

/// What a consumable reward adds to is what its meaning says; only fans and energy are
/// given otherwise.
pub proof fn law_consumables_mean(id: i32, kind: CurrencyKind)
    ensures
        consumed_currency(id) == Some(kind) <==> pays_into(id, kind),
        ConsumeReward::meaning(id) is Some <==> 1 <= id <= 11,
        ConsumeReward::meaning(id) matches Some(c) ==> c.id == id,
        (ConsumeReward::meaning(id) matches Some(c) && c.currency == Some(kind)) <==> pays_into(
            id,
            kind,
        ) || ((id == 8 || id == 9) && kind == CurrencyKind::Fans),
{
}

/// Content that is sent by mail is counted as the reward that gives this content, and a
/// balance as one that adds to this balance, with its amount.
pub proof fn law_mail_counts(reward: Reward)
    ensures
        match reward {
            Reward::Content { content, area, content_id } => match stored_grant(stored(reward)) {
                Err(_) => content == ContentKind::Character,
                Ok(grant) => {
                    &&& gives(grant.reward_type, content) || (grant.reward_type == 11 && content
                        == ContentKind::Gift)
                    &&& 0 <= content_id <= i32::MAX ==> grant.reward_id == content_id
                    &&& grant.amount == Real { bits: ONE }
                },
            },
            Reward::Currency { currency, amount } => match stored_grant(stored(reward)) {
                Err(_) => currency == CurrencyKind::Gingerbread || currency
                    == CurrencyKind::ChocoMilk,
                Ok(grant) => {
                    &&& grant.reward_type == 1
                    &&& pays_into(grant.reward_id, currency) || (currency == CurrencyKind::Fans
                        && grant.reward_id == 8)
                    &&& grant.amount == amount
                },
            },
        },
{
}

/// Content is delivered where it is owned for the channel or for all, and pending where a
/// mail brings it so.
pub proof fn law_delivery(p: PlayerModel, kind: ContentKind, area: i32, id: i64)
    ensures
        delivered(p, kind, area, id as int) <==> owned_already(p, kind, area, id),
        pending(p, kind, area, id as int) <==> exists|i: int|
            0 <= i < p.mail.len() && brings((#[trigger] p.mail[i]).1, kind, area, id),
{
    if pending(p, kind, area, id as int) {
        let i = choose|i: int|
            0 <= i < p.mail.len() && carries(
                (#[trigger] p.mail[i]).1.state,
                kind,
                area,
                id as int,
            );
        assert(brings(p.mail[i].1, kind, area, id));
    }
    if exists|i: int| 0 <= i < p.mail.len() && brings((#[trigger] p.mail[i]).1, kind, area, id) {
        let i = choose|i: int|
            0 <= i < p.mail.len() && brings((#[trigger] p.mail[i]).1, kind, area, id);
        assert(carries(p.mail[i].1.state, kind, area, id as int));
    }
}

/// A mailbox shows how often it was changed and the letters of the inbox, in its order.
pub proof fn law_mailbox(p: PlayerModel, s: MailboxSnapshot, i: int)
    requires
        mailbox_shown(p, Ok(s)),
    ensures
        s.cursor == p.mail_cursor,
        opened_letters(inbox(p.mail)) matches Ok(shown) && shown.len() == s.mail@.len() && (0 <= i
            < shown.len() ==> {
            let (x, y) = (s.mail@[i], shown[i]);
            x.post_id == y.post_id && x.subject@ == y.subject && x.body@ == y.body && x.created_at
                == y.created_at && x.read == y.read && x.claimed == y.claimed && x.reward
                == y.reward
        }),
{
    let shown = opened_letters(inbox(p.mail))->Ok_0;
    assert(letters(s.mail@).len() == s.mail@.len());
    if 0 <= i < shown.len() {
        assert(letters(s.mail@)[i] == letter(s.mail@[i]));
    }
}

/// Bonuses of costumes can be used if every costume has a positive number, a channel among
/// the first two and a bonus that is an amount.
pub proof fn law_usable_rules(rules: Rules)
    ensures
        usable_rules(rules) <==> forall|i: int|
            0 <= i < rules.len() ==> (#[trigger] rules[i]).0.a >= 1 && (rules[i].1.area == 1
                || rules[i].1.area == 2) && rules[i].1.bonus.amount(),
{
}

/// Every mail of an inbox is a letter with its number, its texts, when it came, whether it
/// was read and claimed, and its reward.
pub proof fn law_letters(inbox: Seq<(Key, MailModel)>, i: int)
    requires
        forall|j: int| 0 <= j < inbox.len() ==> (#[trigger] inbox[j]).1.state.reward is Some,
    ensures
        opened_letters(inbox) matches Ok(shown) ==> shown.len() == inbox.len() && (0 <= i
            < inbox.len() ==> {
            let (x, (key, row)) = (shown[i], inbox[i]);
            &&& x.post_id == (-1 - key.b) as i64
            &&& x.subject == row.subject_key && x.body == row.body_key
            &&& x.created_at == row.state.created_at
            &&& x.read == (row.state.read_at is Some)
            &&& x.claimed == (row.state.claimed_at is Some)
            &&& stored_grant(row.state.reward->Some_0) == Ok::<RewardGrant, RewardFault>(x.reward)
        }),
        opened_letters(inbox) is Err ==> exists|j: int|
            0 <= j < inbox.len() && stored_grant(
                (#[trigger] inbox[j]).1.state.reward->Some_0,
            ) is Err,
    decreases inbox.len(),
{
    if inbox.len() > 0 {
        let front = inbox.drop_last();
        let n = inbox.len() - 1;
        assert forall|j: int| 0 <= j < front.len() implies (
        #[trigger] front[j]).1.state.reward is Some by {
            assert(front[j] == inbox[j]);
        }
        assert(inbox[n].1.state.reward is Some);
        law_letters(front, i);
        if 0 <= i < n {
            assert(front[i] == inbox[i]);
        }
        if opened_letters(front) is Err {
            let j = choose|j: int|
                0 <= j < front.len() && stored_grant(
                    (#[trigger] front[j]).1.state.reward->Some_0,
                ) is Err;
            assert(inbox[j] == front[j]);
        }
    }
}

} // verus!
