//! Plain value transfers: reading an amount, and the request to pay it.

use crate::internal::payment::{
    built, make_request, plan_issue, recipient_described, recipient_of, request_of, text_result,
    validate_recipient, zatoshis, IssueModel, PaymentIssue, PaymentPlan, PlanModel, RequestIssue,
    MAX_MONEY,
};
use crate::network::Network;
use crate::sort::views;
use crate::text::{
    all_digits, decimal_value, digit_value, digits_only, find_char, is_digit, is_white_space,
    lemma_find_char_unique, opt_str, parse_digits, slice_of, string_of, trim, trim_chars, trimmed,
};
use vstd::prelude::*;
use vstd::string::*;
use vstd::utf8::*;

verus! {

/// The zatoshi of one coin.
pub const COIN: u64 = 100_000_000;

/// What stands before the first dot, and what stands behind it.
pub open spec fn amount_parts(s: Seq<char>) -> (Seq<char>, Seq<char>) {
    let p = find_char(s, '.') as int;
    if p < s.len() {
        (s.take(p), s.skip(p + 1))
    } else {
        (s, Seq::empty())
    }
}

/// Ten to the power of `n`.
pub open spec fn pow10(n: nat) -> nat
    decreases n,
{
    if n == 0 {
        1
    } else {
        10 * pow10((n - 1) as nat)
    }
}

/// The zatoshi that whole coins and a fraction of at most eight digits make up.
pub open spec fn amount_value(whole: Seq<char>, frac: Seq<char>) -> nat {
    decimal_value(whole) * COIN as nat + decimal_value(frac) * pow10((8 - frac.len()) as nat)
}

/// The amount that a text stands for, or why it stands for none.
pub open spec fn zec_amount(input: Seq<char>) -> Result<u64, Seq<char>> {
    let s = trimmed(input);
    let (whole, frac) = amount_parts(s);
    if s.len() == 0 {
        Err("enter an amount"@)
    } else if encode_utf8(frac).len() > 8 {
        Err("at most 8 decimal places"@)
    } else if !all_digits(whole) || !all_digits(frac) {
        Err("not a valid amount"@)
    } else if amount_value(whole, frac) == 0 {
        Err("amount must be greater than zero"@)
    } else if amount_value(whole, frac) > MAX_MONEY {
        Err("amount is too large"@)
    } else {
        Ok(amount_value(whole, frac) as u64)
    }
}

/// The views of a parsed amount.
pub open spec fn amount_model(r: Result<u64, String>) -> Result<u64, Seq<char>> {
    match r {
        Ok(v) => Ok(v),
        Err(e) => Err(e@),
    }
}

/// Digits are ASCII: they have as many bytes as characters.
proof fn lemma_digits_len(s: Seq<char>)
    requires
        all_digits(s),
    ensures
        encode_utf8(s).len() == s.len(),
{
    assert(is_ascii_chars(s)) by {
        assert forall|i| 0 <= i < s.len() implies '\0' <= #[trigger] s[i] <= '\u{7f}' by {
            assert(is_digit(s[i]));
        }
    }
    is_ascii_chars_encode_utf8(s);
}

proof fn lemma_fraction_bound(s: Seq<char>)
    requires
        all_digits(s),
    ensures
        decimal_value(s) < pow10(s.len()),
    decreases s.len(),
{
    if s.len() > 0 {
        let t = s.drop_last();
        assert forall|i: int| 0 <= i < t.len() implies is_digit(#[trigger] t[i]) by {
            assert(t[i] == s[i]);
        }
        lemma_fraction_bound(t);
        assert(is_digit(s[s.len() - 1]));
    }
}

proof fn lemma_pow10_eight(n: nat)
    requires
        n <= 8,
    ensures
        pow10(n) * pow10((8 - n) as nat) == COIN,
        pow10((8 - n) as nat) <= COIN,
        pow10((8 - n) as nat) >= 1,
{
    assert(pow10(0) == 1);
    assert(pow10(1) == 10);
    assert(pow10(2) == 100);
    assert(pow10(3) == 1_000);
    assert(pow10(4) == 10_000);
    assert(pow10(5) == 100_000);
    assert(pow10(6) == 1_000_000);
    assert(pow10(7) == 10_000_000);
    assert(pow10(8) == 100_000_000);
    assert(n == 0 || n == 1 || n == 2 || n == 3 || n == 4 || n == 5 || n == 6 || n == 7 || n == 8);
}

/// The fraction in zatoshi: its digits, with zeros behind them up to eight.
fn fraction_zats(frac: &[char]) -> (r: u64)
    requires
        all_digits(frac@),
        frac@.len() <= 8,
    ensures
        r == decimal_value(frac@) * pow10((8 - frac@.len()) as nat),
        r < COIN,
{
    let ghost n = frac@.len();
    proof {
        lemma_fraction_bound(frac@);
        lemma_pow10_eight(n);
        let v = decimal_value(frac@);
        let a = pow10(n);
        let b = pow10((8 - n) as nat);
        assert(v * b < a * b) by (nonlinear_arith)
            requires
                v < a,
                b >= 1,
        ;
        assert(v <= v * b) by (nonlinear_arith)
            requires
                b >= 1,
        ;
    }
    let mut v: u64 = match parse_digits(frac) {
        Some(v) => v,
        None => 0,
    };
    let ghost start = v as nat;
    let mut k: usize = frac.len();
    while k < 8
        invariant
            n <= k <= 8,
            n == frac@.len(),
            start * pow10((8 - n) as nat) < COIN,
            v as nat * pow10((8 - k) as nat) == start * pow10((8 - n) as nat),
        decreases 8 - k,
    {
        proof {
            lemma_pow10_eight(k as nat);
            lemma_pow10_eight((k + 1) as nat);
            let p = pow10((8 - k - 1) as nat);
            assert(pow10((8 - k) as nat) == 10 * p);
            assert(v as nat * (10 * p) == (v * 10) as nat * p) by (nonlinear_arith)
                requires
                    p >= 0,
            ;
            assert((v * 10) <= (v * 10) as nat * p) by (nonlinear_arith)
                requires
                    p >= 1,
                    v >= 0,
            ;
        }
        v = v * 10;
        k += 1;
    }
    proof {
        let one = pow10((8 - k) as nat);
        assert(one == 1);
        assert(v as nat * one == v) by (nonlinear_arith)
            requires
                one == 1,
        ;
    }
    v
}

/// Reads a decimal amount of coins.
pub fn parse_zec(input: &str) -> (r: Result<u64, String>)
    ensures
        amount_model(r) == zec_amount(input@),
{
    let s = trim_chars(input);
    if s.len() == 0 {
        return Err("enter an amount".to_owned());
    }
    let mut p: usize = 0;
    while p < s.len() && s[p] != '.'
        invariant
            p <= s.len(),
            forall|i: int| 0 <= i < p ==> #[trigger] s@[i] != '.',
        decreases s.len() - p,
    {
        p += 1;
    }
    proof {
        lemma_find_char_unique(s@, '.', p as int);
    }
    let whole = slice_of(s.as_slice(), 0, p);
    let frac = if p < s.len() {
        slice_of(s.as_slice(), p + 1, s.len())
    } else {
        Vec::new()
    };
    proof {
        assert(whole@ =~= amount_parts(s@).0);
        assert(frac@ =~= amount_parts(s@).1);
    }
    let frac_text = string_of(frac.as_slice());
    if frac_text.as_str().as_bytes().len() > 8 {
        return Err("at most 8 decimal places".to_owned());
    }
    if !digits_only(whole.as_slice()) || !digits_only(frac.as_slice()) {
        return Err("not a valid amount".to_owned());
    }
    proof {
        lemma_digits_len(frac@);
    }
    let part: u64 = fraction_zats(frac.as_slice());
    let coins: u64 = match parse_digits(whole.as_slice()) {
        Some(w) => w,
        None => {
            return Err("amount is too large".to_owned());
        },
    };
    let whole_zats: u64 = match coins.checked_mul(COIN) {
        Some(w) => w,
        None => {
            return Err("amount is too large".to_owned());
        },
    };
    let zats: u64 = match whole_zats.checked_add(part) {
        Some(z) => z,
        None => {
            return Err("amount is too large".to_owned());
        },
    };
    assert(zats == amount_value(whole@, frac@));
    if zats == 0 {
        return Err("amount must be greater than zero".to_owned());
    }
    match zatoshis(zats) {
        Some(z) => Ok(z),
        None => Err("amount is too large".to_owned()),
    }
}

/// The memo of a transfer: the text without the white space around it, unless
/// nothing is left.
pub open spec fn transfer_memo(memo: Option<Seq<char>>) -> Option<Seq<char>> {
    match memo {
        Some(m) => if trimmed(m).len() > 0 {
            Some(trimmed(m))
        } else {
            None
        },
        None => None,
    }
}

/// The one payment of a transfer.
pub open spec fn transfer_plan(recipient: Seq<char>, zats: u64, memo: Option<Seq<char>>) -> PlanModel {
    PlanModel { address: trimmed(recipient), zats, memo: transfer_memo(memo) }
}

/// What is said of a transfer that cannot be requested.
pub open spec fn transfer_fault(e: Result<IssueModel, Seq<char>>) -> Seq<char> {
    match e {
        Ok(IssueModel::BadAddress(t)) => "bad address: "@ + t,
        Ok(IssueModel::BadMemo(t)) => "invalid memo: "@ + t,
        Ok(IssueModel::Refused(t)) => "this recipient can't receive a memo: "@ + t,
        Err(t) => "bad tx request: "@ + t,
    }
}

/// Says why a transfer cannot be requested.
pub fn transfer_fault_text(e: RequestIssue) -> (r: String)
    ensures
        r@ == transfer_fault(
            match e {
                RequestIssue::Payment(i) => Ok(i@),
                RequestIssue::Request(t) => Err(t@),
            },
        ),
{
    let mut r = String::new();
    match e {
        RequestIssue::Payment(PaymentIssue::BadAddress(t)) => {
            r.append("bad address: ");
            r.append(t.as_str());
            assert(r@ =~= "bad address: "@ + t@);
        },
        RequestIssue::Payment(PaymentIssue::BadMemo(t)) => {
            r.append("invalid memo: ");
            r.append(t.as_str());
            assert(r@ =~= "invalid memo: "@ + t@);
        },
        RequestIssue::Payment(PaymentIssue::Refused(t)) => {
            r.append("this recipient can't receive a memo: ");
            r.append(t.as_str());
            assert(r@ =~= "this recipient can't receive a memo: "@ + t@);
        },
        RequestIssue::Request(t) => {
            r.append("bad tx request: ");
            r.append(t.as_str());
            assert(r@ =~= "bad tx request: "@ + t@);
        },
    }
    r
}

/// The request for a transfer, or why there is none.
pub open spec fn transfer(
    recipient: Seq<char>,
    network: Network,
    zats: u64,
    memo: Option<Seq<char>>,
) -> Result<Seq<char>, Seq<char>> {
    match recipient_described(trimmed(recipient), network) {
        Err(e) => Err(e),
        Ok(_) => match built(seq![transfer_plan(recipient, zats, memo)]) {
            Ok(uri) => Ok(uri),
            Err(e) => Err(transfer_fault(e)),
        },
    }
}

/// The request for a transfer: the recipient is checked against the network
/// first, so that nothing is ever sent to another one.
pub fn send_funds(recipient: &str, network: Network, zats: u64, memo: Option<&str>) -> (r: Result<
    String,
    String,
>)
    requires
        zats <= MAX_MONEY,
    ensures
        text_result(r) == transfer(recipient@, network, zats, opt_str(memo)),
{
    let to = trim(recipient);
    match validate_recipient(to.as_str(), network) {
        Err(e) => {
            return Err(e);
        },
        Ok(_) => {},
    }
    let text: Option<String> = match memo {
        Some(m) => {
            let t = trim(m);
            if t.as_str().is_empty() {
                None
            } else {
                Some(t)
            }
        },
        None => None,
    };
    let mut plans: Vec<PaymentPlan> = Vec::new();
    plans.push(PaymentPlan { address: to, zats, memo: text });
    assert(views(plans@) =~= seq![transfer_plan(recipient@, zats, opt_str(memo))]);
    match make_request(&plans) {
        Ok(uri) => Ok(uri),
        Err(e) => Err(transfer_fault_text(e)),
    }
}

proof fn lemma_digits_are_trimmed(s: Seq<char>)
    requires
        s.len() > 0,
        is_digit(s[0]) || s[0] == '.',
        is_digit(s.last()) || s.last() == '.',
    ensures
        trimmed(s) == s,
{
    assert(!is_white_space(s[0]));
    assert(!is_white_space(s.last()));
}

/// An amount is read exactly: whole coins count a hundred million zatoshi each, and
/// a fraction of up to eight digits what its digits are worth. Nothing is rounded.
/// Zero, and more than there is, are refused.
pub proof fn amounts_are_read_exactly(whole: Seq<char>, frac: Seq<char>)
    requires
        all_digits(whole),
        all_digits(frac),
        whole.len() > 0,
        frac.len() <= 8,
    ensures
        ({
            let coins = decimal_value(whole);
            let v = coins * 100_000_000 + decimal_value(frac) * pow10((8 - frac.len()) as nat);
            let r = zec_amount(whole + seq!['.'] + frac);
            &&& 0 < v <= 2_100_000_000_000_000 ==> r == Ok::<u64, Seq<char>>(v as u64)
            &&& v == 0 || v > 2_100_000_000_000_000 ==> r is Err
            &&& 0 < coins <= 21_000_000 ==> zec_amount(whole) == Ok::<u64, Seq<char>>(
                (coins * 100_000_000) as u64,
            )
            &&& coins == 0 || coins > 21_000_000 ==> zec_amount(whole) is Err
        }),
{
    let s = whole + seq!['.'] + frac;
    let none = Seq::<char>::empty();
    assert(is_digit(whole[0]));
    assert(is_digit(whole[whole.len() - 1]));
    if frac.len() > 0 {
        assert(is_digit(frac[frac.len() - 1]));
    }
    lemma_digits_are_trimmed(s);
    lemma_digits_are_trimmed(whole);
    assert forall|i: int| 0 <= i < whole.len() implies #[trigger] s[i] != '.' by {
        assert(is_digit(whole[i]));
    }
    assert forall|i: int| 0 <= i < whole.len() implies #[trigger] whole[i] != '.' by {
        assert(is_digit(whole[i]));
    }
    lemma_find_char_unique(s, '.', whole.len() as int);
    lemma_find_char_unique(whole, '.', whole.len() as int);
    assert(s.take(whole.len() as int) =~= whole);
    assert(s.skip(whole.len() as int + 1) =~= frac);
    assert(all_digits(none));
    lemma_digits_len(frac);
    lemma_digits_len(none);
    lemma_pow10_eight(frac.len());
    assert(decimal_value(none) == 0);
    assert(0 * pow10(8) == 0) by (nonlinear_arith);
}

/// Zeros behind a fraction change nothing, and eight digits count as they stand.
pub proof fn zeros_behind_a_fraction_change_nothing(frac: Seq<char>)
    requires
        all_digits(frac),
        frac.len() < 8,
    ensures
        decimal_value(frac.push('0')) * pow10((8 - frac.push('0').len()) as nat) == decimal_value(
            frac,
        ) * pow10((8 - frac.len()) as nat),
        pow10(0) == 1,
{
    let t = frac.push('0');
    assert(t.drop_last() =~= frac);
    let v = decimal_value(frac);
    let p = pow10((8 - t.len()) as nat);
    assert(pow10((8 - frac.len()) as nat) == 10 * p);
    assert(digit_value('0') == 0);
    assert((v * 10) * p == v * (10 * p)) by (nonlinear_arith);
}

/// What is no amount is refused: nothing, more than eight decimal places, and
/// anything but digits and one dot.
pub proof fn what_is_no_amount_is_refused(input: Seq<char>)
    ensures
        trimmed(input).len() == 0 ==> zec_amount(input) is Err,
        zec_amount(input) is Ok ==> {
            let (whole, frac) = amount_parts(trimmed(input));
            &&& all_digits(whole)
            &&& all_digits(frac)
            &&& frac.len() <= 8
            &&& 0 < zec_amount(input)->Ok_0 <= 2_100_000_000_000_000
        },
{
    if zec_amount(input) is Ok {
        lemma_digits_len(amount_parts(trimmed(input)).1);
    }
}

/// A transfer pays the recipient what was asked, with the memo without the white
/// space around it; a memo of nothing else is none.
pub proof fn a_transfer_pays_what_was_asked(
    recipient: Seq<char>,
    zats: u64,
    memo: Option<Seq<char>>,
)
    ensures
        transfer_plan(recipient, zats, memo).address == trimmed(recipient),
        transfer_plan(recipient, zats, memo).zats == zats,
        memo is None ==> transfer_plan(recipient, zats, memo).memo is None,
        memo matches Some(m) ==> (trimmed(m).len() == 0 ==> transfer_plan(
            recipient,
            zats,
            memo,
        ).memo is None),
        memo matches Some(m) ==> (trimmed(m).len() > 0 ==> transfer_plan(
            recipient,
            zats,
            memo,
        ).memo == Some(trimmed(m))),
{
}

/// Nothing is ever sent to another network, to what is no address, or to nobody; and
/// a transfer that can be made asks for one payment, of the amount, to the recipient.
pub proof fn nothing_is_sent_to_another_network(
    recipient: Seq<char>,
    network: Network,
    zats: u64,
    memo: Option<Seq<char>>,
)
    ensures
        trimmed(recipient).len() == 0 ==> transfer(recipient, network, zats, memo) is Err,
        recipient_of(trimmed(recipient), network) is WrongNetwork ==> transfer(
            recipient,
            network,
            zats,
            memo,
        ) is Err,
        recipient_of(trimmed(recipient), network) is NotAnAddress ==> transfer(
            recipient,
            network,
            zats,
            memo,
        ) is Err,
        recipient_of(trimmed(recipient), network) is Unsupported ==> transfer(
            recipient,
            network,
            zats,
            memo,
        ) is Err,
        ({
            let p = PlanModel { address: trimmed(recipient), zats, memo: transfer_memo(memo) };
            let paid = transfer(recipient, network, zats, memo);
            &&& plan_issue(p) is Some ==> paid is Err
            &&& paid matches Ok(uri) ==> request_of(seq![p]) == Ok::<Seq<char>, Seq<char>>(uri)
        }),
{
    let p = transfer_plan(recipient, zats, memo);
    crate::text::trimming_twice_is_trimming_once(recipient);
    crate::internal::payment::a_request_fails_at_its_first_fault(seq![p], 0);
    assert(seq![p][0] == p);
}

} // verus!
