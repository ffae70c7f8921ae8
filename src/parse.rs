//! The configuration grammar.
//!
//! A configuration is text of lines. Blank lines and lines whose first
//! non-blank character is `#` say nothing. Every other line is
//! `KEY[+KEY...]<blank>ACTION[, ACTION...]`, an action being a verb and its
//! blank-separated arguments. Blanks are the characters of Unicode's
//! White_Space property.
//!
//! The text is read as a sequence of characters; each function over a range
//! `[lo, hi)` of `cs` reads `cs@.subrange(lo, hi)`.
use vstd::prelude::*;

use crate::config::{names_view, KeynavAction, MouseButton, RawConfig};
use crate::geometry::{Fraction, SCALE};

verus! {

/// Unicode's White_Space property.
pub open spec fn is_space(c: char) -> bool {
    let u = c as u32;
    ||| 0x09 <= u <= 0x0D
    ||| u == 0x20
    ||| u == 0x85
    ||| u == 0xA0
    ||| u == 0x1680
    ||| 0x2000 <= u <= 0x200A
    ||| u == 0x2028
    ||| u == 0x2029
    ||| u == 0x202F
    ||| u == 0x205F
    ||| u == 0x3000
}

pub fn is_space_char(c: char) -> (r: bool)
    ensures
        r == is_space(c),
{
    let u = c as u32;
    (0x09 <= u && u <= 0x0D) || u == 0x20 || u == 0x85 || u == 0xA0 || u == 0x1680 || (0x2000 <= u
        && u <= 0x200A) || u == 0x2028 || u == 0x2029 || u == 0x202F || u == 0x205F || u == 0x3000
}

pub open spec fn is_digit(c: char) -> bool {
    '0' <= c <= '9'
}

pub open spec fn all_digits(s: Seq<char>) -> bool {
    forall|i: int| 0 <= i < s.len() ==> is_digit(#[trigger] s[i])
}

/// The decimal value of a string of digits.
pub open spec fn digits_value(s: Seq<char>) -> int
    decreases s.len(),
{
    if s.len() == 0 {
        0
    } else {
        digits_value(s.drop_last()) * 10 + (s.last() as int - '0' as int)
    }
}

pub open spec fn pow10(n: nat) -> int
    decreases n,
{
    if n == 0 {
        1
    } else {
        10 * pow10((n - 1) as nat)
    }
}

/// The text without a leading `+`.
pub open spec fn strip_plus(s: Seq<char>) -> Seq<char> {
    if s.len() > 0 && s[0] == '+' {
        s.drop_first()
    } else {
        s
    }
}

/// An unsigned 32-bit number: an optional `+`, then decimal digits.
pub open spec fn u32_of(s: Seq<char>) -> Option<u32> {
    let d = strip_plus(s);
    if d.len() > 0 && all_digits(d) && digits_value(d) <= u32::MAX {
        Some(digits_value(d) as u32)
    } else {
        None
    }
}

/// The first index at or after `i` that holds `c`, or the length.
pub open spec fn index_from(s: Seq<char>, c: char, i: int) -> int
    decreases s.len() - i,
{
    if i < 0 || i >= s.len() {
        s.len() as int
    } else if s[i] == c {
        i
    } else {
        index_from(s, c, i + 1)
    }
}

/// The ticks of a decimal fraction written with at most nine decimals
/// (integer digits, a point, decimal digits; at least one digit), or
/// `None`.
pub open spec fn ticks_of(s: Seq<char>) -> Option<int> {
    let d = strip_plus(s);
    let k = index_from(d, '.', 0);
    let ip = d.take(k);
    let fp = if k < d.len() {
        d.skip(k + 1)
    } else {
        Seq::empty()
    };
    if ip.len() + fp.len() == 0 || !all_digits(ip) || !all_digits(fp) || fp.len() > 9 {
        None
    } else {
        Some(digits_value(ip) * SCALE + digits_value(fp) * pow10((9 - fp.len()) as nat))
    }
}

/// A fraction: an optional `+`, then a decimal number with at most nine
/// decimals whose ticks fit in 64 bits.
pub open spec fn fraction_of(s: Seq<char>) -> Option<Fraction> {
    match ticks_of(s) {
        Some(t) => if t <= u64::MAX {
            Some(Fraction { ticks: t as u64 })
        } else {
            None
        },
        None => None,
    }
}

/// The button numbered `1`, `2` or `3`.
pub open spec fn button_of(s: Seq<char>) -> Option<MouseButton> {
    match u32_of(s) {
        Some(1) => Some(MouseButton::Left),
        Some(2) => Some(MouseButton::Right),
        Some(3) => Some(MouseButton::Middle),
        _ => None,
    }
}

proof fn lemma_digits_value_grows(s: Seq<char>)
    requires
        all_digits(s),
    ensures
        digits_value(s) >= 0,
        s.len() > 0 ==> digits_value(s) >= digits_value(s.drop_last()),
    decreases s.len(),
{
    if s.len() > 0 {
        assert(is_digit(s[s.len() - 1]));
        lemma_digits_value_grows(s.drop_last());
    }
}

/// The value of the digits in `[lo, hi)` where they are all digits and the
/// value is at most `cap`.
fn digits_upto(cs: &Vec<char>, lo: usize, hi: usize, cap: u64) -> (r: Option<u64>)
    requires
        lo <= hi <= cs@.len(),
    ensures
        r == (if all_digits(cs@.subrange(lo as int, hi as int)) && digits_value(
            cs@.subrange(lo as int, hi as int),
        ) <= cap {
            Some(digits_value(cs@.subrange(lo as int, hi as int)) as u64)
        } else {
            None::<u64>
        }),
{
    let mut acc: u64 = 0;
    let mut over = false;
    let mut i: usize = lo;
    while i < hi
        invariant
            lo <= i <= hi <= cs@.len(),
            all_digits(cs@.subrange(lo as int, i as int)),
            !over ==> acc == digits_value(cs@.subrange(lo as int, i as int)) && acc <= cap,
            over ==> digits_value(cs@.subrange(lo as int, i as int)) > cap,
        decreases hi - i,
    {
        let c = cs[i];
        let ghost prefix = cs@.subrange(lo as int, i as int);
        let ghost next = cs@.subrange(lo as int, i + 1);
        assert(next.drop_last() =~= prefix);
        if !('0' <= c && c <= '9') {
            assert(!all_digits(cs@.subrange(lo as int, hi as int))) by {
                assert(cs@.subrange(lo as int, hi as int)[i - lo] == c);
            }
            return None;
        }
        assert(all_digits(next)) by {
            assert forall|j: int| 0 <= j < next.len() implies is_digit(#[trigger] next[j]) by {
                if j < prefix.len() {
                    assert(next[j] == prefix[j]);
                }
            }
        }
        proof {
            lemma_digits_value_grows(next);
        }
        if !over {
            let d: u64 = (c as u32 - '0' as u32) as u64;
            let v: u128 = (acc as u128) * 10 + d as u128;
            if v > cap as u128 {
                over = true;
            } else {
                acc = v as u64;
            }
        }
        i = i + 1;
    }
    if over {
        proof {
            let whole = cs@.subrange(lo as int, hi as int);
            assert(whole =~= cs@.subrange(lo as int, i as int));
        }
        None
    } else {
        assert(cs@.subrange(lo as int, hi as int) =~= cs@.subrange(lo as int, i as int));
        Some(acc)
    }
}

fn pow10_upto9(n: usize) -> (r: u64)
    requires
        n <= 9,
    ensures
        r == pow10(n as nat),
{
    proof {
        reveal_with_fuel(pow10, 10);
    }
    match n {
        0 => 1,
        1 => 10,
        2 => 100,
        3 => 1000,
        4 => 10000,
        5 => 100000,
        6 => 1000000,
        7 => 10000000,
        8 => 100000000,
        _ => 1000000000,
    }
}

/// Where the text after an optional leading `+` starts.
fn after_plus(cs: &Vec<char>, lo: usize, hi: usize) -> (r: usize)
    requires
        lo <= hi <= cs@.len(),
    ensures
        lo <= r <= hi,
        cs@.subrange(r as int, hi as int) == strip_plus(cs@.subrange(lo as int, hi as int)),
{
    if lo < hi && cs[lo] == '+' {
        assert(cs@.subrange(lo + 1, hi as int) =~= cs@.subrange(lo as int, hi as int).drop_first());
        lo + 1
    } else {
        lo
    }
}

/// The unsigned 32-bit number written in `[lo, hi)`.
fn u32_in(cs: &Vec<char>, lo: usize, hi: usize) -> (r: Option<u32>)
    requires
        lo <= hi <= cs@.len(),
    ensures
        r == u32_of(cs@.subrange(lo as int, hi as int)),
{
    let start = after_plus(cs, lo, hi);
    if start == hi {
        return None;
    }
    let ghost d = cs@.subrange(start as int, hi as int);
    match digits_upto(cs, start, hi, u32::MAX as u64) {
        Some(v) => {
            proof {
                lemma_digits_value_grows(d);
            }
            Some(v as u32)
        },
        None => None,
    }
}

/// The fraction written in `[lo, hi)`.
fn fraction_in(cs: &Vec<char>, lo: usize, hi: usize) -> (r: Option<Fraction>)
    requires
        lo <= hi <= cs@.len(),
    ensures
        r == fraction_of(cs@.subrange(lo as int, hi as int)),
{
    let start = after_plus(cs, lo, hi);
    let ghost d = cs@.subrange(start as int, hi as int);
    let mut k: usize = start;
    while k < hi && cs[k] != '.'
        invariant
            start <= k <= hi <= cs@.len(),
            d == cs@.subrange(start as int, hi as int),
            index_from(d, '.', 0) == index_from(d, '.', k - start),
        decreases hi - k,
    {
        k = k + 1;
    }
    assert(index_from(d, '.', 0) == k - start);
    let frac_lo: usize = if k < hi {
        k + 1
    } else {
        hi
    };
    assert(d.take(k - start) =~= cs@.subrange(start as int, k as int));
    assert(k < hi ==> d.skip(k - start + 1) =~= cs@.subrange(frac_lo as int, hi as int));
    assert(k == hi ==> cs@.subrange(frac_lo as int, hi as int) =~= Seq::<char>::empty());
    let frac_len = hi - frac_lo;
    if (k - start) + frac_len == 0 || frac_len > 9 {
        return None;
    }
    let ip = digits_upto(cs, start, k, u64::MAX);
    let fp = digits_upto(cs, frac_lo, hi, u64::MAX);
    match (ip, fp) {
        (Some(ip), Some(fp)) => {
            let p = pow10_upto9(9 - frac_len);
            proof {
                let f = cs@.subrange(frac_lo as int, hi as int);
                lemma_digits_value_grows(cs@.subrange(start as int, k as int));
                lemma_digits_value_bound(f);
                lemma_pow10_add(f.len(), (9 - frac_len) as nat);
                reveal_with_fuel(pow10, 10);
                assert((fp as int) * (p as int) < 1_000_000_000) by (nonlinear_arith)
                    requires
                        0 <= fp < pow10(f.len()),
                        p == pow10((9 - frac_len) as nat),
                        pow10(f.len()) * pow10((9 - frac_len) as nat) == 1_000_000_000,
                        p >= 0,
                ;
                assert((ip as int) * SCALE <= u64::MAX * SCALE) by (nonlinear_arith)
                    requires
                        0 <= ip <= u64::MAX,
                ;
            }
            let t: u128 = (ip as u128) * (SCALE as u128) + (fp as u128) * (p as u128);
            if t > u64::MAX as u128 {
                None
            } else {
                Some(Fraction { ticks: t as u64 })
            }
        },
        _ => {
            proof {
                if all_digits(cs@.subrange(start as int, k as int)) {
                    lemma_digits_value_grows(cs@.subrange(start as int, k as int));
                    assert(digits_value(cs@.subrange(start as int, k as int)) * SCALE >= digits_value(
                        cs@.subrange(start as int, k as int),
                    )) by (nonlinear_arith)
                        requires
                            digits_value(cs@.subrange(start as int, k as int)) >= 0,
                    ;
                }
                if all_digits(cs@.subrange(frac_lo as int, hi as int)) {
                    lemma_digits_value_grows(cs@.subrange(frac_lo as int, hi as int));
                    lemma_pow10_positive((9 - frac_len) as nat);
                    assert(digits_value(cs@.subrange(frac_lo as int, hi as int)) * pow10(
                        (9 - frac_len) as nat,
                    ) >= digits_value(cs@.subrange(frac_lo as int, hi as int))) by (nonlinear_arith)
                        requires
                            digits_value(cs@.subrange(frac_lo as int, hi as int)) >= 0,
                            pow10((9 - frac_len) as nat) >= 1,
                    ;
                }
            }
            None
        },
    }
}

proof fn lemma_digits_value_bound(s: Seq<char>)
    requires
        all_digits(s),
    ensures
        0 <= digits_value(s) < pow10(s.len()),
    decreases s.len(),
{
    if s.len() > 0 {
        assert(is_digit(s[s.len() - 1]));
        assert(all_digits(s.drop_last()));
        lemma_digits_value_bound(s.drop_last());
    }
}

proof fn lemma_pow10_add(a: nat, b: nat)
    ensures
        pow10(a) * pow10(b) == pow10(a + b),
    decreases a,
{
    if a > 0 {
        lemma_pow10_add((a - 1) as nat, b);
        assert(pow10(a) * pow10(b) == 10 * (pow10((a - 1) as nat) * pow10(b))) by (nonlinear_arith)
            requires
                pow10(a) == 10 * pow10((a - 1) as nat),
        ;
    }
}

proof fn lemma_pow10_positive(n: nat)
    ensures
        pow10(n) >= 1,
    decreases n,
{
    if n > 0 {
        lemma_pow10_positive((n - 1) as nat);
    }
}

/// Whether `[lo, hi)` holds exactly the characters of `lit`.
fn range_is(cs: &Vec<char>, lo: usize, hi: usize, lit: &str) -> (r: bool)
    requires
        lo <= hi <= cs@.len(),
    ensures
        r == (cs@.subrange(lo as int, hi as int) == lit@),
{
    let n = lit.unicode_len();
    if hi - lo != n {
        return false;
    }
    let mut i: usize = 0;
    while i < n
        invariant
            n == lit@.len(),
            hi - lo == n,
            lo <= hi <= cs@.len(),
            i <= n,
            forall|j: int| 0 <= j < i ==> cs@[lo + j] == lit@[j],
        decreases n - i,
    {
        if cs[lo + i] != lit.get_char(i) {
            assert(cs@.subrange(lo as int, hi as int)[i as int] != lit@[i as int]);
            return false;
        }
        i = i + 1;
    }
    assert(cs@.subrange(lo as int, hi as int) =~= lit@);
    true
}

/// The blank-separated words of a text.
pub open spec fn words(s: Seq<char>) -> Seq<Seq<char>>
    decreases s.len(),
{
    if s.len() == 0 {
        Seq::empty()
    } else {
        let p = words(s.drop_last());
        let c = s.last();
        if is_space(c) {
            p
        } else if s.len() >= 2 && !is_space(s[s.len() - 2]) {
            p.update(p.len() - 1, p.last().push(c))
        } else {
            p.push(seq![c])
        }
    }
}

/// The texts that ranges of `cs` hold.
pub open spec fn ranges_view(cs: Seq<char>, rs: Seq<(usize, usize)>) -> Seq<Seq<char>> {
    Seq::new(rs.len(), |k: int| cs.subrange(rs[k].0 as int, rs[k].1 as int))
}

/// The action named by a verb alone.
pub open spec fn verb_alone(v: Seq<char>) -> Option<KeynavAction> {
    if v == "cut-right"@ {
        Some(KeynavAction::CutRight(None))
    } else if v == "cut-left"@ {
        Some(KeynavAction::CutLeft(None))
    } else if v == "cut-up"@ {
        Some(KeynavAction::CutUp(None))
    } else if v == "cut-down"@ {
        Some(KeynavAction::CutDown(None))
    } else if v == "move-right"@ {
        Some(KeynavAction::MoveRight(None))
    } else if v == "move-left"@ {
        Some(KeynavAction::MoveLeft(None))
    } else if v == "move-up"@ {
        Some(KeynavAction::MoveUp(None))
    } else if v == "move-down"@ {
        Some(KeynavAction::MoveDown(None))
    } else if v == "warp"@ {
        Some(KeynavAction::Warp)
    } else if v == "click"@ {
        Some(KeynavAction::Click(None))
    } else if v == "doubleclick"@ {
        Some(KeynavAction::DoubleClick(None))
    } else if v == "end"@ {
        Some(KeynavAction::End)
    } else {
        None
    }
}

/// The action named by a verb with a fraction.
pub open spec fn verb_with_fraction(v: Seq<char>, f: Fraction) -> Option<KeynavAction> {
    if v == "cut-right"@ {
        Some(KeynavAction::CutRight(Some(f)))
    } else if v == "cut-left"@ {
        Some(KeynavAction::CutLeft(Some(f)))
    } else if v == "cut-up"@ {
        Some(KeynavAction::CutUp(Some(f)))
    } else if v == "cut-down"@ {
        Some(KeynavAction::CutDown(Some(f)))
    } else if v == "move-right"@ {
        Some(KeynavAction::MoveRight(Some(f)))
    } else if v == "move-left"@ {
        Some(KeynavAction::MoveLeft(Some(f)))
    } else if v == "move-up"@ {
        Some(KeynavAction::MoveUp(Some(f)))
    } else if v == "move-down"@ {
        Some(KeynavAction::MoveDown(Some(f)))
    } else {
        None
    }
}

/// The action named by a verb with a button.
pub open spec fn verb_with_button(v: Seq<char>, b: MouseButton) -> Option<KeynavAction> {
    if v == "click"@ {
        Some(KeynavAction::Click(Some(b)))
    } else if v == "doubleclick"@ {
        Some(KeynavAction::DoubleClick(Some(b)))
    } else if v == "drag"@ {
        Some(KeynavAction::DragButton(b))
    } else {
        None
    }
}

/// The action that a verb and one argument name.
pub open spec fn verb_with(v: Seq<char>, a: Seq<char>) -> Option<KeynavAction> {
    match verb_with_fraction(v, Fraction { ticks: 0 }) {
        Some(_) => match fraction_of(a) {
            Some(f) => verb_with_fraction(v, f),
            None => None,
        },
        None => match verb_with_button(v, MouseButton::Left) {
            Some(_) => match button_of(a) {
                Some(b) => verb_with_button(v, b),
                None => None,
            },
            None => None,
        },
    }
}

/// The action that a list of words names, if any.
pub open spec fn action_of_words(ws: Seq<Seq<char>>) -> Option<KeynavAction> {
    if ws.len() == 1 {
        verb_alone(ws[0])
    } else if ws.len() == 2 {
        verb_with(ws[0], ws[1])
    } else if ws.len() == 3 && ws[0] == "cursorzoom"@ {
        match (u32_of(ws[1]), u32_of(ws[2])) {
            (Some(w), Some(h)) => Some(KeynavAction::CursorZoom { width: w, height: h }),
            _ => None,
        }
    } else {
        None
    }
}

/// The ranges of the words in `[lo, hi)`.
fn word_ranges(cs: &Vec<char>, lo: usize, hi: usize) -> (r: Vec<(usize, usize)>)
    requires
        lo <= hi <= cs@.len(),
    ensures
        ranges_view(cs@, r@) == words(cs@.subrange(lo as int, hi as int)),
        forall|k: int| 0 <= k < r@.len() ==> lo <= (#[trigger] r@[k]).0 <= r@[k].1 <= hi,
{
    let mut r: Vec<(usize, usize)> = Vec::new();
    let mut i: usize = lo;
    assert(ranges_view(cs@, r@) =~= words(cs@.subrange(lo as int, lo as int)));
    while i < hi
        invariant
            lo <= i <= hi <= cs@.len(),
            ranges_view(cs@, r@) == words(cs@.subrange(lo as int, i as int)),
            forall|k: int| 0 <= k < r@.len() ==> lo <= (#[trigger] r@[k]).0 <= r@[k].1 <= i,
            i > lo && !is_space(cs@[i - 1]) ==> r@.len() > 0 && r@.last().1 == i,
        decreases hi - i,
    {
        let c = cs[i];
        let ghost prev = cs@.subrange(lo as int, i as int);
        let ghost next = cs@.subrange(lo as int, i + 1);
        assert(next.drop_last() =~= prev);
        assert(next.last() == c);
        if is_space_char(c) {
        } else if i > lo && !is_space_char(cs[i - 1]) {
            assert(next[next.len() - 2] == cs@[i - 1]);
            let last = r.len() - 1;
            let (a, _) = r[last];
            let ghost before = r@;
            r.set(last, (a, i + 1));
            assert(cs@.subrange(a as int, i + 1) =~= cs@.subrange(a as int, i as int).push(c));
            assert(ranges_view(cs@, r@) =~= ranges_view(cs@, before).update(
                last as int,
                ranges_view(cs@, before).last().push(c),
            ));
        } else {
            proof {
                if i > lo {
                    assert(next[next.len() - 2] == cs@[i - 1]);
                }
            }
            let ghost before = r@;
            r.push((i, i + 1));
            assert(cs@.subrange(i as int, i + 1) =~= seq![c]);
            assert(ranges_view(cs@, r@) =~= ranges_view(cs@, before).push(seq![c]));
        }
        i = i + 1;
    }
    r
}

/// The button numbered in `[lo, hi)`.
fn button_in(cs: &Vec<char>, lo: usize, hi: usize) -> (r: Option<MouseButton>)
    requires
        lo <= hi <= cs@.len(),
    ensures
        r == button_of(cs@.subrange(lo as int, hi as int)),
{
    match u32_in(cs, lo, hi) {
        Some(1) => Some(MouseButton::Left),
        Some(2) => Some(MouseButton::Right),
        Some(3) => Some(MouseButton::Middle),
        _ => None,
    }
}

fn verb_alone_in(cs: &Vec<char>, lo: usize, hi: usize) -> (r: Option<KeynavAction>)
    requires
        lo <= hi <= cs@.len(),
    ensures
        r == verb_alone(cs@.subrange(lo as int, hi as int)),
{
    if range_is(cs, lo, hi, "cut-right") {
        Some(KeynavAction::CutRight(None))
    } else if range_is(cs, lo, hi, "cut-left") {
        Some(KeynavAction::CutLeft(None))
    } else if range_is(cs, lo, hi, "cut-up") {
        Some(KeynavAction::CutUp(None))
    } else if range_is(cs, lo, hi, "cut-down") {
        Some(KeynavAction::CutDown(None))
    } else if range_is(cs, lo, hi, "move-right") {
        Some(KeynavAction::MoveRight(None))
    } else if range_is(cs, lo, hi, "move-left") {
        Some(KeynavAction::MoveLeft(None))
    } else if range_is(cs, lo, hi, "move-up") {
        Some(KeynavAction::MoveUp(None))
    } else if range_is(cs, lo, hi, "move-down") {
        Some(KeynavAction::MoveDown(None))
    } else if range_is(cs, lo, hi, "warp") {
        Some(KeynavAction::Warp)
    } else if range_is(cs, lo, hi, "click") {
        Some(KeynavAction::Click(None))
    } else if range_is(cs, lo, hi, "doubleclick") {
        Some(KeynavAction::DoubleClick(None))
    } else if range_is(cs, lo, hi, "end") {
        Some(KeynavAction::End)
    } else {
        None
    }
}

fn fraction_verb_in(cs: &Vec<char>, lo: usize, hi: usize, f: Fraction) -> (r: Option<KeynavAction>)
    requires
        lo <= hi <= cs@.len(),
    ensures
        r == verb_with_fraction(cs@.subrange(lo as int, hi as int), f),
{
    if range_is(cs, lo, hi, "cut-right") {
        Some(KeynavAction::CutRight(Some(f)))
    } else if range_is(cs, lo, hi, "cut-left") {
        Some(KeynavAction::CutLeft(Some(f)))
    } else if range_is(cs, lo, hi, "cut-up") {
        Some(KeynavAction::CutUp(Some(f)))
    } else if range_is(cs, lo, hi, "cut-down") {
        Some(KeynavAction::CutDown(Some(f)))
    } else if range_is(cs, lo, hi, "move-right") {
        Some(KeynavAction::MoveRight(Some(f)))
    } else if range_is(cs, lo, hi, "move-left") {
        Some(KeynavAction::MoveLeft(Some(f)))
    } else if range_is(cs, lo, hi, "move-up") {
        Some(KeynavAction::MoveUp(Some(f)))
    } else if range_is(cs, lo, hi, "move-down") {
        Some(KeynavAction::MoveDown(Some(f)))
    } else {
        None
    }
}

fn button_verb_in(cs: &Vec<char>, lo: usize, hi: usize, b: MouseButton) -> (r: Option<KeynavAction>)
    requires
        lo <= hi <= cs@.len(),
    ensures
        r == verb_with_button(cs@.subrange(lo as int, hi as int), b),
{
    if range_is(cs, lo, hi, "click") {
        Some(KeynavAction::Click(Some(b)))
    } else if range_is(cs, lo, hi, "doubleclick") {
        Some(KeynavAction::DoubleClick(Some(b)))
    } else if range_is(cs, lo, hi, "drag") {
        Some(KeynavAction::DragButton(b))
    } else {
        None
    }
}

/// The action that the words of `[lo, hi)` name, if any.
fn action_in(cs: &Vec<char>, lo: usize, hi: usize) -> (r: Option<KeynavAction>)
    requires
        lo <= hi <= cs@.len(),
    ensures
        r == action_of_words(words(cs@.subrange(lo as int, hi as int))),
{
    let ws = word_ranges(cs, lo, hi);
    let ghost wv = ranges_view(cs@, ws@);
    if ws.len() == 1 {
        assert(wv[0] == cs@.subrange(ws@[0].0 as int, ws@[0].1 as int));
        verb_alone_in(cs, ws[0].0, ws[0].1)
    } else if ws.len() == 2 {
        let (v0, v1) = ws[0];
        let (a0, a1) = ws[1];
        assert(wv[0] == cs@.subrange(v0 as int, v1 as int));
        assert(wv[1] == cs@.subrange(a0 as int, a1 as int));
        if fraction_verb_in(cs, v0, v1, Fraction { ticks: 0 }).is_some() {
            match fraction_in(cs, a0, a1) {
                Some(f) => fraction_verb_in(cs, v0, v1, f),
                None => None,
            }
        } else if button_verb_in(cs, v0, v1, MouseButton::Left).is_some() {
            match button_in(cs, a0, a1) {
                Some(b) => button_verb_in(cs, v0, v1, b),
                None => None,
            }
        } else {
            None
        }
    } else if ws.len() == 3 {
        let (v0, v1) = ws[0];
        let (w0, w1) = ws[1];
        let (h0, h1) = ws[2];
        assert(wv[0] == cs@.subrange(v0 as int, v1 as int));
        assert(wv[1] == cs@.subrange(w0 as int, w1 as int));
        assert(wv[2] == cs@.subrange(h0 as int, h1 as int));
        if !range_is(cs, v0, v1, "cursorzoom") {
            return None;
        }
        match (u32_in(cs, w0, w1), u32_in(cs, h0, h1)) {
            (Some(width), Some(height)) => Some(KeynavAction::CursorZoom { width, height }),
            _ => None,
        }
    } else {
        None
    }
}

/// The pieces of a text between separators (one piece more than there are
/// separators).
pub open spec fn split(s: Seq<char>, sep: char) -> Seq<Seq<char>>
    decreases s.len(),
{
    if s.len() == 0 {
        seq![Seq::empty()]
    } else {
        let p = split(s.drop_last(), sep);
        if s.last() == sep {
            p.push(Seq::empty())
        } else {
            p.update(p.len() - 1, p.last().push(s.last()))
        }
    }
}

/// The ranges of the pieces of `[lo, hi)` between separators.
fn split_ranges(cs: &Vec<char>, lo: usize, hi: usize, sep: char) -> (r: Vec<(usize, usize)>)
    requires
        lo <= hi <= cs@.len(),
    ensures
        ranges_view(cs@, r@) == split(cs@.subrange(lo as int, hi as int), sep),
        forall|k: int| 0 <= k < r@.len() ==> lo <= (#[trigger] r@[k]).0 <= r@[k].1 <= hi,
{
    let mut r: Vec<(usize, usize)> = Vec::new();
    let mut start: usize = lo;
    let mut i: usize = lo;
    assert(cs@.subrange(lo as int, lo as int) =~= Seq::<char>::empty());
    assert(split(cs@.subrange(lo as int, lo as int), sep) == seq![Seq::<char>::empty()]);
    assert(ranges_view(cs@, r@).push(cs@.subrange(start as int, i as int)) =~= split(
        cs@.subrange(lo as int, lo as int),
        sep,
    ));
    while i < hi
        invariant
            lo <= start <= i <= hi <= cs@.len(),
            ranges_view(cs@, r@).push(cs@.subrange(start as int, i as int)) == split(
                cs@.subrange(lo as int, i as int),
                sep,
            ),
            forall|k: int| 0 <= k < r@.len() ==> lo <= (#[trigger] r@[k]).0 <= r@[k].1 <= start,
        decreases hi - i,
    {
        let c = cs[i];
        let ghost prev = cs@.subrange(lo as int, i as int);
        let ghost next = cs@.subrange(lo as int, i + 1);
        assert(next.drop_last() =~= prev);
        assert(next.last() == c);
        let ghost before = ranges_view(cs@, r@);
        if c == sep {
            r.push((start, i));
            start = i + 1;
            assert(ranges_view(cs@, r@) =~= before.push(cs@.subrange(r@.last().0 as int, i as int)));
            assert(cs@.subrange(start as int, i + 1) =~= Seq::<char>::empty());
        } else {
            assert(cs@.subrange(start as int, i + 1) =~= cs@.subrange(start as int, i as int).push(c));
            assert(before.push(cs@.subrange(start as int, i + 1)) =~= before.push(
                cs@.subrange(start as int, i as int),
            ).update(before.len() as int, cs@.subrange(start as int, i as int).push(c)));
        }
        i = i + 1;
    }
    let ghost before = ranges_view(cs@, r@);
    r.push((start, hi));
    assert(ranges_view(cs@, r@) =~= before.push(cs@.subrange(start as int, hi as int)));
    r
}

/// The actions of the first `n` pieces, or the first piece that names none.
pub open spec fn actions_from(pieces: Seq<Seq<char>>, n: int) -> Result<Seq<KeynavAction>, Seq<char>>
    decreases n,
{
    if n <= 0 {
        Ok(Seq::empty())
    } else {
        match actions_from(pieces, n - 1) {
            Err(e) => Err(e),
            Ok(acts) => match action_of_words(words(pieces[n - 1])) {
                Some(a) => Ok(acts.push(a)),
                None => Err(pieces[n - 1]),
            },
        }
    }
}

/// The comma-separated actions of a text, or the first piece (as written)
/// that names no action.
pub open spec fn actions_of_text(s: Seq<char>) -> Result<Seq<KeynavAction>, Seq<char>> {
    actions_from(split(s, ','), split(s, ',').len() as int)
}

proof fn lemma_actions_error_stays(pieces: Seq<Seq<char>>, k: int, n: int)
    requires
        0 <= k <= n,
        actions_from(pieces, k) is Err,
    ensures
        actions_from(pieces, n) == actions_from(pieces, k),
    decreases n - k,
{
    if n > k {
        lemma_actions_error_stays(pieces, k, n - 1);
    }
}

/// The characters of a text.
pub fn chars_of(text: &str) -> (r: Vec<char>)
    ensures
        r@ == text@,
{
    let n = text.unicode_len();
    let mut r: Vec<char> = Vec::new();
    let mut i: usize = 0;
    while i < n
        invariant
            n == text@.len(),
            i <= n,
            r@ == text@.subrange(0, i as int),
        decreases n - i,
    {
        r.push(text.get_char(i));
        i = i + 1;
        assert(r@ =~= text@.subrange(0, i as int));
    }
    assert(r@ =~= text@);
    r
}

/// The text of `[lo, hi)` as a string.
fn string_of(text: &str, cs: &Vec<char>, lo: usize, hi: usize) -> (r: String)
    requires
        cs@ == text@,
        lo <= hi <= cs@.len(),
    ensures
        r@ == cs@.subrange(lo as int, hi as int),
{
    let piece = text.substring_char(lo, hi);
    piece.to_owned()
}

/// The actions of `[lo, hi)`.
fn actions_in(text: &str, cs: &Vec<char>, lo: usize, hi: usize) -> (r: Result<Vec<KeynavAction>, String>)
    requires
        cs@ == text@,
        lo <= hi <= cs@.len(),
    ensures
        match r {
            Ok(v) => actions_of_text(cs@.subrange(lo as int, hi as int)) == Ok::<_, Seq<char>>(v@),
            Err(e) => actions_of_text(cs@.subrange(lo as int, hi as int)) == Err::<Seq<KeynavAction>, _>(
                e@,
            ),
        },
{
    let ps = split_ranges(cs, lo, hi, ',');
    let ghost pieces = ranges_view(cs@, ps@);
    let mut acts: Vec<KeynavAction> = Vec::new();
    let mut k: usize = 0;
    assert(acts@ =~= Seq::<KeynavAction>::empty());
    while k < ps.len()
        invariant
            cs@ == text@,
            lo <= hi <= cs@.len(),
            k <= ps@.len(),
            pieces == ranges_view(cs@, ps@),
            pieces == split(cs@.subrange(lo as int, hi as int), ','),
            forall|j: int| 0 <= j < ps@.len() ==> lo <= (#[trigger] ps@[j]).0 <= ps@[j].1 <= hi,
            actions_from(pieces, k as int) == Ok::<_, Seq<char>>(acts@),
        decreases ps@.len() - k,
    {
        let (a, b) = ps[k];
        assert(lo <= ps@[k as int].0 <= ps@[k as int].1 <= hi);
        assert(pieces[k as int] == cs@.subrange(a as int, b as int));
        match action_in(cs, a, b) {
            Some(act) => {
                acts.push(act);
            },
            None => {
                proof {
                    lemma_actions_error_stays(pieces, k + 1, pieces.len() as int);
                }
                return Err(string_of(text, cs, a, b));
            },
        }
        k = k + 1;
    }
    Ok(acts)
}

/// Reads a comma-separated list of actions. Each piece, with its blanks
/// trimmed, is a verb and its arguments: a cut or a move with an optional
/// fraction, `cursorzoom` with a width and a height in pixels, `warp`,
/// `click` or `doubleclick` with an optional button, `drag` with a button,
/// or `end`. The error is the first piece, as written, that names no action.
pub fn parse_actions(raw: &str) -> (r: Result<Vec<KeynavAction>, String>)
    ensures
        match r {
            Ok(v) => actions_of_text(raw@) == Ok::<_, Seq<char>>(v@),
            Err(e) => actions_of_text(raw@) == Err::<Seq<KeynavAction>, _>(e@),
        },
{
    let cs = chars_of(raw);
    assert(cs@.subrange(0, cs@.len() as int) =~= raw@);
    actions_in(raw, &cs, 0, cs.len())
}

/// The first index at or after `i` that is not blank, or the length.
pub open spec fn skip_spaces(s: Seq<char>, i: int) -> int
    decreases s.len() - i,
{
    if 0 <= i < s.len() && is_space(s[i]) {
        skip_spaces(s, i + 1)
    } else {
        i
    }
}

/// The end of the text before `j` without its trailing blanks.
pub open spec fn back_spaces(s: Seq<char>, j: int) -> int
    decreases j,
{
    if 0 < j <= s.len() && is_space(s[j - 1]) {
        back_spaces(s, j - 1)
    } else {
        j
    }
}

/// The text without its leading and trailing blanks.
pub open spec fn trim(s: Seq<char>) -> Seq<char> {
    let a = skip_spaces(s, 0);
    let b = back_spaces(s, s.len() as int);
    if a < b {
        s.subrange(a, b)
    } else {
        Seq::empty()
    }
}

/// The first blank at or after `i`, or the length.
pub open spec fn space_from(s: Seq<char>, i: int) -> int
    decreases s.len() - i,
{
    if i < 0 || i >= s.len() {
        s.len() as int
    } else if is_space(s[i]) {
        i
    } else {
        space_from(s, i + 1)
    }
}

/// The range of `[lo, hi)` without its leading and trailing blanks.
fn trim_range(cs: &Vec<char>, lo: usize, hi: usize) -> (r: (usize, usize))
    requires
        lo <= hi <= cs@.len(),
    ensures
        lo <= r.0 <= r.1 <= hi,
        cs@.subrange(r.0 as int, r.1 as int) == trim(cs@.subrange(lo as int, hi as int)),
{
    let ghost s = cs@.subrange(lo as int, hi as int);
    let mut a: usize = lo;
    while a < hi && is_space_char(cs[a])
        invariant
            lo <= a <= hi <= cs@.len(),
            s == cs@.subrange(lo as int, hi as int),
            skip_spaces(s, 0) == skip_spaces(s, a - lo),
        decreases hi - a,
    {
        assert(s[a - lo] == cs@[a as int]);
        a = a + 1;
    }
    assert(a < hi ==> s[a - lo] == cs@[a as int]);
    let mut b: usize = hi;
    while b > lo && is_space_char(cs[b - 1])
        invariant
            lo <= b <= hi <= cs@.len(),
            s == cs@.subrange(lo as int, hi as int),
            back_spaces(s, s.len() as int) == back_spaces(s, b - lo),
        decreases b,
    {
        assert(s[b - 1 - lo] == cs@[b - 1]);
        b = b - 1;
    }
    assert(b > lo ==> s[b - 1 - lo] == cs@[b - 1]);
    if a < b {
        assert(cs@.subrange(a as int, b as int) =~= s.subrange(a - lo, b - lo));
        (a, b)
    } else {
        assert(cs@.subrange(a as int, a as int) =~= Seq::<char>::empty());
        (a, a)
    }
}

/// The first blank of `[lo, hi)`, or `hi`.
fn space_in(cs: &Vec<char>, lo: usize, hi: usize) -> (r: usize)
    requires
        lo <= hi <= cs@.len(),
    ensures
        lo <= r <= hi,
        r - lo == space_from(cs@.subrange(lo as int, hi as int), 0),
{
    let ghost s = cs@.subrange(lo as int, hi as int);
    let mut k: usize = lo;
    while k < hi && !is_space_char(cs[k])
        invariant
            lo <= k <= hi <= cs@.len(),
            s == cs@.subrange(lo as int, hi as int),
            space_from(s, 0) == space_from(s, k - lo),
        decreases hi - k,
    {
        assert(s[k - lo] == cs@[k as int]);
        k = k + 1;
    }
    assert(k < hi ==> s[k - lo] == cs@[k as int]);
    k
}

/// Why a configuration text could not be read. Lines count from one.
#[derive(Clone, Debug, PartialEq)]
pub enum ConfigError {
    /// A line that says something has no blank between keys and actions.
    MissingActions { line: usize },
    /// A piece of the line's action list names no action.
    UnknownAction { line: usize, action: String },
}

pub ghost enum ConfigFault {
    MissingActions { line: int },
    UnknownAction { line: int, action: Seq<char> },
}

impl View for ConfigError {
    type V = ConfigFault;

    open spec fn view(&self) -> ConfigFault {
        match self {
            ConfigError::MissingActions { line } => ConfigFault::MissingActions { line: *line as int },
            ConfigError::UnknownAction { line, action } => ConfigFault::UnknownAction {
                line: *line as int,
                action: action@,
            },
        }
    }
}

/// What one line says: nothing, a mapping, or a fault.
pub ghost enum LineMeaning {
    Nothing,
    Mapping(Seq<Seq<char>>, Seq<KeynavAction>),
    Fault(ConfigFault),
}

/// What line number `num` says.
pub open spec fn line_meaning(line: Seq<char>, num: int) -> LineMeaning {
    let t = trim(line);
    if t.len() == 0 || t[0] == '#' {
        LineMeaning::Nothing
    } else {
        let k = space_from(t, 0);
        if k >= t.len() {
            LineMeaning::Fault(ConfigFault::MissingActions { line: num })
        } else {
            match actions_of_text(trim(t.skip(k))) {
                Err(p) => LineMeaning::Fault(ConfigFault::UnknownAction { line: num, action: p }),
                Ok(acts) => LineMeaning::Mapping(split(t.take(k), '+'), acts),
            }
        }
    }
}

/// The mappings of the first `n` lines, or the first fault.
pub open spec fn config_from(
    lines: Seq<Seq<char>>,
    n: int,
) -> Result<Seq<(Seq<Seq<char>>, Seq<KeynavAction>)>, ConfigFault>
    decreases n,
{
    if n <= 0 {
        Ok(Seq::empty())
    } else {
        match config_from(lines, n - 1) {
            Err(e) => Err(e),
            Ok(ms) => match line_meaning(lines[n - 1], n) {
                LineMeaning::Nothing => Ok(ms),
                LineMeaning::Mapping(keys, acts) => Ok(ms.push((keys, acts))),
                LineMeaning::Fault(e) => Err(e),
            },
        }
    }
}

/// The configuration that a text describes, or its first fault.
pub open spec fn config_of_text(s: Seq<char>) -> Result<
    Seq<(Seq<Seq<char>>, Seq<KeynavAction>)>,
    ConfigFault,
> {
    config_from(split(s, '\n'), split(s, '\n').len() as int)
}

proof fn lemma_config_error_stays(lines: Seq<Seq<char>>, k: int, n: int)
    requires
        0 <= k <= n,
        config_from(lines, k) is Err,
    ensures
        config_from(lines, n) == config_from(lines, k),
    decreases n - k,
{
    if n > k {
        lemma_config_error_stays(lines, k, n - 1);
    }
}

enum LineResult {
    Nothing,
    Mapping(Vec<String>, Vec<KeynavAction>),
    Fault(ConfigError),
}

spec fn line_result_view(r: LineResult) -> LineMeaning {
    match r {
        LineResult::Nothing => LineMeaning::Nothing,
        LineResult::Mapping(keys, acts) => LineMeaning::Mapping(
            Seq::new(keys@.len(), |j: int| keys@[j]@),
            acts@,
        ),
        LineResult::Fault(e) => LineMeaning::Fault(e@),
    }
}

/// The strings of ranges of the text.
fn strings_of(text: &str, cs: &Vec<char>, rs: &Vec<(usize, usize)>) -> (r: Vec<String>)
    requires
        cs@ == text@,
        forall|k: int| 0 <= k < rs@.len() ==> (#[trigger] rs@[k]).0 <= rs@[k].1 <= cs@.len(),
    ensures
        Seq::new(r@.len(), |j: int| r@[j]@) == ranges_view(cs@, rs@),
{
    let mut r: Vec<String> = Vec::new();
    let mut k: usize = 0;
    while k < rs.len()
        invariant
            cs@ == text@,
            forall|j: int| 0 <= j < rs@.len() ==> (#[trigger] rs@[j]).0 <= rs@[j].1 <= cs@.len(),
            k <= rs@.len(),
            Seq::new(r@.len(), |j: int| r@[j]@) == ranges_view(cs@, rs@).take(k as int),
        decreases rs@.len() - k,
    {
        let (a, b) = rs[k];
        assert(rs@[k as int].0 <= rs@[k as int].1 <= cs@.len());
        let ghost before = r@;
        r.push(string_of(text, cs, a, b));
        assert(Seq::new(r@.len(), |j: int| r@[j]@) =~= Seq::new(before.len(), |j: int| before[j]@).push(
            cs@.subrange(a as int, b as int),
        ));
        assert(ranges_view(cs@, rs@).take(k + 1) =~= ranges_view(cs@, rs@).take(k as int).push(
            cs@.subrange(a as int, b as int),
        ));
        k = k + 1;
    }
    assert(ranges_view(cs@, rs@).take(k as int) =~= ranges_view(cs@, rs@));
    r
}

/// What the line `[lo, hi)`, numbered `num`, says.
fn read_line(text: &str, cs: &Vec<char>, lo: usize, hi: usize, num: usize) -> (r: LineResult)
    requires
        cs@ == text@,
        lo <= hi <= cs@.len(),
    ensures
        line_result_view(r) == line_meaning(cs@.subrange(lo as int, hi as int), num as int),
{
    let ghost line = cs@.subrange(lo as int, hi as int);
    let (a, b) = trim_range(cs, lo, hi);
    let ghost t = cs@.subrange(a as int, b as int);
    if a == b {
        return LineResult::Nothing;
    }
    assert(t[0] == cs@[a as int]);
    if cs[a] == '#' {
        return LineResult::Nothing;
    }
    let k = space_in(cs, a, b);
    if k == b {
        return LineResult::Fault(ConfigError::MissingActions { line: num });
    }
    assert(t.take(k - a) =~= cs@.subrange(a as int, k as int));
    assert(t.skip(k - a) =~= cs@.subrange(k as int, b as int));
    let (c, d) = trim_range(cs, k, b);
    match actions_in(text, cs, c, d) {
        Err(p) => LineResult::Fault(ConfigError::UnknownAction { line: num, action: p }),
        Ok(acts) => {
            let key_ranges = split_ranges(cs, a, k, '+');
            let keys = strings_of(text, cs, &key_ranges);
            LineResult::Mapping(keys, acts)
        },
    }
}

/// Reads a configuration text: one mapping per line that says something,
/// in order. Parsing stops at the first faulty line.
pub fn parse_config(contents: String) -> (r: Result<RawConfig, ConfigError>)
    ensures
        match r {
            Ok(c) => config_of_text(contents@) == Ok::<_, ConfigFault>(c@),
            Err(e) => config_of_text(contents@) == Err::<Seq<(Seq<Seq<char>>, Seq<KeynavAction>)>, _>(
                e@,
            ),
        },
{
    let text = contents.as_str();
    let cs = chars_of(text);
    assert(cs@.subrange(0, cs@.len() as int) =~= contents@);
    let ls = split_ranges(&cs, 0, cs.len(), '\n');
    let ghost lines = ranges_view(cs@, ls@);
    let mut mappings: Vec<(Vec<String>, Vec<KeynavAction>)> = Vec::new();
    let mut k: usize = 0;
    assert(RawConfig { mappings }@ =~= Seq::<(Seq<Seq<char>>, Seq<KeynavAction>)>::empty());
    while k < ls.len()
        invariant
            cs@ == text@,
            text@ == contents@,
            k <= ls@.len(),
            lines == ranges_view(cs@, ls@),
            lines == split(contents@, '\n'),
            forall|j: int| 0 <= j < ls@.len() ==> 0 <= (#[trigger] ls@[j]).0 <= ls@[j].1 <= cs@.len(),
            config_from(lines, k as int) == Ok::<_, ConfigFault>(RawConfig { mappings }@),
        decreases ls@.len() - k,
    {
        let (a, b) = ls[k];
        assert(0 <= ls@[k as int].0 <= ls@[k as int].1 <= cs@.len());
        assert(lines[k as int] == cs@.subrange(a as int, b as int));
        let ghost before = RawConfig { mappings }@;
        match read_line(text, &cs, a, b, k + 1) {
            LineResult::Nothing => {},
            LineResult::Mapping(keys, acts) => {
                mappings.push((keys, acts));
                assert(RawConfig { mappings }@ =~= before.push(
                    (names_view(mappings@.last().0), mappings@.last().1@),
                ));
            },
            LineResult::Fault(e) => {
                proof {
                    lemma_config_error_stays(lines, k + 1, lines.len() as int);
                }
                return Err(e);
            },
        }
        k = k + 1;
    }
    Ok(RawConfig { mappings })
}

/// Why a button number was refused.
#[derive(Clone, Copy, Debug, PartialEq, Eq, Structural)]
pub enum ButtonError {
    /// The text is no unsigned 32-bit number.
    NotANumber,
    /// The number is not one of `1`, `2`, `3`.
    OutOfRange,
}

impl MouseButton {
    /// The button numbered `1` (left), `2` (right) or `3` (middle).
    pub fn parse(s: &str) -> (r: Result<MouseButton, ButtonError>)
        ensures
            match u32_of(s@) {
                None => r == Err::<MouseButton, _>(ButtonError::NotANumber),
                Some(n) => match button_of(s@) {
                    Some(b) => r == Ok::<_, ButtonError>(b),
                    None => r == Err::<MouseButton, _>(ButtonError::OutOfRange),
                },
            },
    {
        let cs = chars_of(s);
        assert(cs@.subrange(0, cs@.len() as int) =~= s@);
        match u32_in(&cs, 0, cs.len()) {
            Some(1) => Ok(MouseButton::Left),
            Some(2) => Ok(MouseButton::Right),
            Some(3) => Ok(MouseButton::Middle),
            Some(_) => Err(ButtonError::OutOfRange),
            None => Err(ButtonError::NotANumber),
        }
    }
}

} // verus!
