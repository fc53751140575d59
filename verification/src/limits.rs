//! What the supply can deliver, and the checks that nothing beyond it is sent.

use vstd::arithmetic::power2::{lemma_pow2_adds, lemma_pow2_pos, pow2};
use vstd::prelude::*;

use crate::double::{
    below_512, between_zero_and, finite, law_tenths_read_back, lemma_nearest_close, lemma_nearest_order,
    lemma_nearest_whole, lemma_whole_number, nearest, negative, one, product, product_43, product_44, product_exceeds,
    product_tenths, product_text, read_tenths, significand, tenths_text, thousandths, units, within, FOUR, SIGN,
    SIXTEEN,
};

verus! {

/// The pattern of 60, the highest voltage in volts.
pub const V_MAX: u64 = 0x404E_0000_0000_0000;

/// The pattern of 10, the highest current in amperes.
pub const A_MAX: u64 = 0x4024_0000_0000_0000;

/// The highest power, 300 W and a margin of a billionth for rounding, in steps
/// of two to the power of -44 W.
pub const P_MAX: u64 = 5277655813342392;

/// A number as it was asked for: its double precision bit pattern, and the
/// text in which it is shown.
#[derive(Debug, PartialEq, Eq)]
pub struct Quantity {
    pub bits: u64,
    pub shown: String,
}

/// The voltage is one that the supply has.
pub open spec fn volt_in_range(bits: u64) -> bool {
    between_zero_and(bits, 60)
}

/// The current is one that the supply has.
pub open spec fn curr_in_range(bits: u64) -> bool {
    between_zero_and(bits, 10)
}

/// The power is more than the supply has.
pub open spec fn over_power(volt: u64, curr: u64) -> bool {
    product_44(volt, curr) > P_MAX
}

/// The supply can be set to this voltage and this current together.
pub open spec fn deliverable(volt: u64, curr: u64) -> bool {
    volt_in_range(volt) && curr_in_range(curr) && !over_power(volt, curr)
}

proof fn lemma_rated()
    ensures
        finite(V_MAX),
        finite(A_MAX),
        units(V_MAX) == 60 * one(),
        units(A_MAX) == 10 * one(),
{
    vstd::arithmetic::power2::lemma2_to64();
    vstd::arithmetic::power2::lemma2_to64_rest();
    assert(significand(V_MAX) == 60 * pow2(47));
    lemma_whole_number(V_MAX, 60, 47);
    assert(significand(A_MAX) == 10 * pow2(49));
    lemma_whole_number(A_MAX, 10, 49);
}

/// Whether the voltage lies between 0 and 60 V.
pub fn volt_ok(bits: u64) -> (r: bool)
    ensures
        r == volt_in_range(bits),
{
    proof {
        lemma_rated();
    }
    within(bits, V_MAX)
}

/// Whether the current lies between 0 and 10 A.
pub fn curr_ok(bits: u64) -> (r: bool)
    ensures
        r == curr_in_range(bits),
{
    proof {
        lemma_rated();
    }
    within(bits, A_MAX)
}

/// Whether the power exceeds 300 W.
pub fn power_exceeded(volt: u64, curr: u64) -> (r: bool)
    requires
        volt_in_range(volt),
        curr_in_range(curr),
    ensures
        r == over_power(volt, curr),
        r ==> SIXTEEN <= volt < SIGN && FOUR <= curr < SIGN,
{
    product_exceeds(volt, curr, P_MAX)
}

/// The message on a value outside of its range.
pub open spec fn range_message(what: Seq<char>, shown: Seq<char>, range: Seq<char>) -> Seq<char> {
    what + "範囲外: "@ + shown + range
}

/// The message on too much power.
pub open spec fn power_message(volt: Quantity, curr: Quantity) -> Seq<char> {
    "電力超過: "@ + volt.shown@ + "V×"@ + curr.shown@ + "A="@ + tenths_text(
        product_tenths(volt.bits, curr.bits),
    ) + "W (>300W)"@
}

/// Why a voltage and a current cannot be set, if they cannot.
pub open spec fn va_error(volt: Quantity, curr: Quantity) -> Option<Seq<char>> {
    if !volt_in_range(volt.bits) {
        Some(range_message("V"@, volt.shown@, " (0-60V)"@))
    } else if !curr_in_range(curr.bits) {
        Some(range_message("A"@, curr.shown@, " (0-10A)"@))
    } else if over_power(volt.bits, curr.bits) {
        Some(power_message(volt, curr))
    } else {
        None
    }
}

/// Why protection limits cannot be set, if they cannot.
pub open spec fn protect_error(ovp: Quantity, ocp: Quantity) -> Option<Seq<char>> {
    if !volt_in_range(ovp.bits) {
        Some(range_message("OVP"@, ovp.shown@, " (0-60V)"@))
    } else if !curr_in_range(ocp.bits) {
        Some(range_message("OCP"@, ocp.shown@, " (0-10A)"@))
    } else {
        None
    }
}

/// The outcome of a check: passed where there is no error, or the message.
pub open spec fn checked(r: Result<(), String>, error: Option<Seq<char>>) -> bool {
    match error {
        Some(m) => r matches Err(e) && e@ == m,
        None => r is Ok,
    }
}

fn range_error(what: &str, shown: &str, range: &str) -> (s: String)
    ensures
        s@ == range_message(what@, shown@, range@),
{
    let mut s: String = what.to_string();
    s.append("範囲外: ");
    s.append(shown);
    s.append(range);
    s
}

/// Checks a voltage, a current and their power against what the supply has.
pub fn check_va(volt: &Quantity, curr: &Quantity) -> (r: Result<(), String>)
    ensures
        checked(r, va_error(*volt, *curr)),
        r is Ok <==> deliverable(volt.bits, curr.bits),
{
    if !volt_ok(volt.bits) {
        return Err(range_error("V", &volt.shown, " (0-60V)"));
    }
    if !curr_ok(curr.bits) {
        return Err(range_error("A", &curr.shown, " (0-10A)"));
    }
    if power_exceeded(volt.bits, curr.bits) {
        let mut s: String = "電力超過: ".to_string();
        s.append(&volt.shown);
        s.append("V×");
        s.append(&curr.shown);
        s.append("A=");
        s.append(&product_text(volt.bits, curr.bits));
        s.append("W (>300W)");
        return Err(s);
    }
    Ok(())
}

/// Checks protection limits against what the supply has.
pub fn check_protect(ovp: &Quantity, ocp: &Quantity) -> (r: Result<(), String>)
    ensures
        checked(r, protect_error(*ovp, *ocp)),
        r is Ok <==> volt_in_range(ovp.bits) && curr_in_range(ocp.bits),
{
    if !volt_ok(ovp.bits) {
        return Err(range_error("OVP", &ovp.shown, " (0-60V)"));
    }
    if !curr_ok(ocp.bits) {
        return Err(range_error("OCP", &ocp.shown, " (0-10A)"));
    }
    Ok(())
}

// What the checks come to.

/// What passes the check is at most 60 V, at most 10 A, and at most 300 W but
/// for the margin.
pub proof fn law_what_is_sent_is_within_the_limits(volt: u64, curr: u64)
    requires
        deliverable(volt, curr),
    ensures
        units(volt) <= 60 * one(),
        units(curr) <= 10 * one(),
        2 * product(volt, curr) <= (2 * P_MAX + 1) * pow2(2104),
        P_MAX * 1_000_000_000 <= 300_000_000_001 * 0x1000_0000_0000,
{
    lemma_pow2_pos(2104);
    lemma_nearest_close(product(volt, curr), pow2(2104));
    let n = product_44(volt, curr);
    assert(2 * (n * pow2(2104)) + pow2(2104) <= (2 * P_MAX + 1) * pow2(2104)) by (nonlinear_arith)
        requires
            n <= P_MAX,
    ;
}

/// Whatever is at most 60 V, at most 10 A and at most 300 W passes the check.
pub proof fn law_what_is_within_the_limits_passes(volt: u64, curr: u64)
    requires
        volt_in_range(volt),
        curr_in_range(curr),
        product(volt, curr) <= 300 * pow2(2148),
    ensures
        deliverable(volt, curr),
{
    vstd::arithmetic::power2::lemma2_to64();
    vstd::arithmetic::power2::lemma2_to64_rest();
    lemma_pow2_pos(2104);
    lemma_pow2_adds(44, 2104);
    let steps = 300 * pow2(44);
    assert(300 * pow2(2148) == steps * pow2(2104)) by (nonlinear_arith)
        requires
            pow2(2148) == pow2(44) * pow2(2104),
            steps == 300 * pow2(44),
    ;
    lemma_nearest_order(product(volt, curr), steps * pow2(2104), pow2(2104));
    lemma_nearest_whole(steps, pow2(2104));
}

/// The text of a setting is no more than half a thousandth away from it, and
/// a setting in range has a text in range.
pub proof fn law_text_is_close_to_the_setting(bits: u64, limit: nat)
    requires
        between_zero_and(bits, limit),
    ensures
        2 * (units(bits) * 1000) <= 2 * (thousandths(bits) * one()) + one(),
        2 * (thousandths(bits) * one()) <= 2 * (units(bits) * 1000) + one(),
        thousandths(bits) <= limit * 1000,
{
    lemma_pow2_pos(1074);
    lemma_nearest_close(units(bits) * 1000, one());
    assert(units(bits) * 1000 <= (limit * 1000) * one()) by (nonlinear_arith)
        requires
            units(bits) <= limit * one(),
    ;
    lemma_nearest_order(units(bits) * 1000, (limit * 1000) * one(), one());
    lemma_nearest_whole(limit * 1000, one());
}

/// A voltage and a current pass the check exactly if the voltage is a number
/// from 0 to 60, the current is one from 0 to 10, and the power is not too much.
/// All power of up to 300.000000001 W passes, and none of more than
/// 300.000000002 W.
pub proof fn law_what_passes_the_check(volt: u64, curr: u64)
    ensures
        volt_in_range(volt) <==> finite(volt) && (negative(volt) ==> units(volt) == 0) && units(volt) <= 60 * pow2(
            1074,
        ),
        curr_in_range(curr) <==> finite(curr) && (negative(curr) ==> units(curr) == 0) && units(curr) <= 10 * pow2(
            1074,
        ),
        deliverable(volt, curr) ==> volt_in_range(volt) && curr_in_range(curr),
        volt_in_range(volt) && curr_in_range(curr) && units(volt) * units(curr) * 1_000_000_000 <= 300_000_000_001
            * pow2(2148) ==> deliverable(volt, curr),
        deliverable(volt, curr) ==> units(volt) * units(curr) * 1_000_000_000 <= 300_000_000_002 * pow2(2148),
{
    vstd::arithmetic::power2::lemma2_to64();
    vstd::arithmetic::power2::lemma2_to64_rest();
    lemma_pow2_adds(44, 2104);
    lemma_pow2_pos(2104);
    let x = units(volt) * units(curr);
    let k = pow2(2104);
    if over_power(volt, curr) && x * 1_000_000_000 <= 300_000_000_001 * pow2(2148) {
        let n = product_44(volt, curr);
        lemma_nearest_close(x, k);
        assert(false) by (nonlinear_arith)
            requires
                n >= 5277655813342393,
                2 * (n * k) <= 2 * x + k,
                x * 1_000_000_000 <= 300_000_000_001 * (0x1000_0000_0000 * k),
                k > 0,
        ;
    }
    if deliverable(volt, curr) {
        law_what_is_sent_is_within_the_limits(volt, curr);
        assert(x * 1_000_000_000 <= 300_000_000_002 * (0x1000_0000_0000 * k)) by (nonlinear_arith)
            requires
                2 * x <= (2 * 5277655813342392 + 1) * k,
                k >= 0,
        ;
    }
}

/// Why a voltage and a current are refused, word by word: the voltage first, then
/// the current, then their power. Each message says what was asked for.
pub proof fn law_messages_on_settings(volt: Quantity, curr: Quantity)
    ensures
        !volt_in_range(volt.bits) ==> va_error(volt, curr) == Some("V範囲外: "@ + volt.shown@ + " (0-60V)"@),
        volt_in_range(volt.bits) && !curr_in_range(curr.bits) ==> va_error(volt, curr) == Some(
            "A範囲外: "@ + curr.shown@ + " (0-10A)"@,
        ),
        volt_in_range(volt.bits) && curr_in_range(curr.bits) && !deliverable(volt.bits, curr.bits) ==> va_error(
            volt,
            curr,
        ) == Some(
            "電力超過: "@ + volt.shown@ + "V×"@ + curr.shown@ + "A="@ + tenths_text(
                product_tenths(volt.bits, curr.bits),
            ) + "W (>300W)"@,
        ),
        va_error(volt, curr) is None <==> deliverable(volt.bits, curr.bits),
{
    lemma_range_words();
}

/// Why protection limits are refused, word by word, and that no others are.
pub proof fn law_messages_on_protection_limits(ovp: Quantity, ocp: Quantity)
    ensures
        !volt_in_range(ovp.bits) ==> protect_error(ovp, ocp) == Some("OVP範囲外: "@ + ovp.shown@ + " (0-60V)"@),
        volt_in_range(ovp.bits) && !curr_in_range(ocp.bits) ==> protect_error(ovp, ocp) == Some(
            "OCP範囲外: "@ + ocp.shown@ + " (0-10A)"@,
        ),
        protect_error(ovp, ocp) is None <==> volt_in_range(ovp.bits) && curr_in_range(ocp.bits),
{
    lemma_range_words();
}

proof fn lemma_range_words()
    ensures
        "V"@ + "範囲外: "@ == "V範囲外: "@,
        "A"@ + "範囲外: "@ == "A範囲外: "@,
        "OVP"@ + "範囲外: "@ == "OVP範囲外: "@,
        "OCP"@ + "範囲外: "@ == "OCP範囲外: "@,
{
    reveal_strlit("範囲外: ");
    reveal_strlit("V");
    reveal_strlit("A");
    reveal_strlit("OVP");
    reveal_strlit("OCP");
    reveal_strlit("V範囲外: ");
    reveal_strlit("A範囲外: ");
    reveal_strlit("OVP範囲外: ");
    reveal_strlit("OCP範囲外: ");
    assert("V"@ + "範囲外: "@ =~= "V範囲外: "@);
    assert("A"@ + "範囲外: "@ =~= "A範囲外: "@);
    assert("OVP"@ + "範囲外: "@ =~= "OVP範囲外: "@);
    assert("OCP"@ + "範囲外: "@ =~= "OCP範囲外: "@);
}

/// The watts in the message on too much power are the product of the voltage and
/// the current, with one digit after the point: no more than half a tenth away
/// from it, but for what the multiplication rounds.
pub proof fn law_watts_in_the_message(volt: u64, curr: u64)
    ensures
        read_tenths(tenths_text(product_tenths(volt, curr))) matches Some(t) && {
            &&& 2 * (10 * (units(volt) * units(curr))) <= 2 * (t * pow2(2148)) + pow2(2148) + 20 * pow2(2104)
            &&& 2 * (t * pow2(2148)) <= 2 * (10 * (units(volt) * units(curr))) + pow2(2148) + 20 * pow2(2104)
        },
{
    let x = product(volt, curr);
    let t = product_tenths(volt, curr);
    law_tenths_read_back(t);
    lemma_pow2_pos(43);
    lemma_pow2_pos(44);
    lemma_pow2_pos(2104);
    lemma_pow2_pos(2105);
    lemma_pow2_adds(1, 2104);
    lemma_pow2_adds(44, 2104);
    lemma_pow2_adds(43, 2105);
    vstd::arithmetic::power2::lemma2_to64();
    if below_512(volt, curr) {
        lemma_rounded_twice(x, product_44(volt, curr), t, pow2(2104), pow2(44));
    } else {
        lemma_rounded_twice(x, product_43(volt, curr), t, pow2(2105), pow2(43));
    }
}

/// A number that is rounded to a step, and then to a tenth, is off by half of each
/// at most.
proof fn lemma_rounded_twice(x: nat, p: nat, t: nat, step: nat, steps: nat)
    requires
        step > 0,
        steps > 0,
        p == nearest(x, step),
        t == nearest(p * 10, steps),
    ensures
        2 * (10 * x) <= 2 * (t * (steps * step)) + steps * step + 10 * step,
        2 * (t * (steps * step)) <= 2 * (10 * x) + steps * step + 10 * step,
{
    lemma_nearest_close(x, step);
    lemma_nearest_close(p * 10, steps);
    assert(2 * (10 * x) <= 2 * (t * (steps * step)) + steps * step + 10 * step) by (nonlinear_arith)
        requires
            2 * x <= 2 * (p * step) + step,
            2 * (p * 10) <= 2 * (t * steps) + steps,
    ;
    assert(2 * (t * (steps * step)) <= 2 * (10 * x) + steps * step + 10 * step) by (nonlinear_arith)
        requires
            2 * (p * step) <= 2 * x + step,
            2 * (t * steps) <= 2 * (p * 10) + steps,
    ;
}

/// A check fails exactly if there is an error to tell, and then with its message.
pub proof fn law_outcome_of_a_check(r: Result<(), String>, message: Seq<char>)
    ensures
        checked(r, None) <==> r is Ok,
        checked(r, Some(message)) <==> r is Err && r->Err_0@ == message,
{
}

} // verus!
