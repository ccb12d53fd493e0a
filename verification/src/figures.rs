//! Figures as the panels show them: token counts, sparkline bars and heatmap
//! cells.

use vstd::prelude::*;

use crate::text::{decimal, decimal_text, digit_char};

verus! {

// ---- token counts -------------------------------------------------------------

/// `a / b`, rounded to the nearest whole number; a tie goes to the even one.
pub open spec fn half_even(a: nat, b: nat) -> nat
    recommends
        b > 0,
{
    let down = a / b;
    let rest = a % b;
    if 2 * rest > b || (2 * rest == b && down % 2 == 1) {
        down + 1
    } else {
        down
    }
}

/// How many binary fractions of double precision there are per unit, around
/// the thousandth part of `tokens`.
pub open spec fn double_steps(tokens: nat) -> nat {
    if tokens < 2_000 {
        0x10_0000_0000_0000
    } else if tokens < 4_000 {
        0x8_0000_0000_0000
    } else if tokens < 8_000 {
        0x4_0000_0000_0000
    } else if tokens < 16_000 {
        0x2_0000_0000_0000
    } else if tokens < 32_000 {
        0x1_0000_0000_0000
    } else if tokens < 64_000 {
        0x8000_0000_0000
    } else {
        0x4000_0000_0000
    }
}

/// The hundreds of `tokens`: the thousandth part in double precision, rounded
/// to tenths.
pub open spec fn tenths_of_thousands(tokens: nat) -> nat {
    let steps = double_steps(tokens);
    half_even(10 * half_even(tokens * steps, 1_000), steps)
}

/// A number of tokens: plain below a thousand, in thousands with one decimal
/// below a hundred thousand, in whole thousands from there on.
pub open spec fn tokens_text(tokens: nat) -> Seq<char> {
    if tokens >= 100_000 {
        decimal(tokens / 1_000) + "k"@
    } else if tokens >= 1_000 {
        let tenths = tenths_of_thousands(tokens);
        decimal(tenths / 10) + "."@ + decimal(tenths % 10) + "k"@
    } else {
        decimal(tokens)
    }
}

/// `a / b`, rounded to the nearest whole number; a tie goes to the even one.
fn round_half_even(a: u128, b: u128) -> (rounded: u128)
    requires
        0 < b <= 0x10_0000_0000_0000,
        a < 0x1_0000_0000_0000_0000_0000_0000,
    ensures
        rounded == half_even(a as nat, b as nat),
{
    let down: u128 = a / b;
    let rest: u128 = a % b;
    assert(down <= a) by (nonlinear_arith)
        requires
            down == a / b,
            b > 0,
            a >= 0,
    ;
    if 2 * rest > b || (2 * rest == b && down % 2 == 1) {
        down + 1
    } else {
        down
    }
}

/// How many binary fractions of double precision there are per unit, around
/// the thousandth part of `tokens`.
fn steps_for(tokens: u64) -> (steps: u128)
    ensures
        steps == double_steps(tokens as nat),
        0x4000_0000_0000 <= steps <= 0x10_0000_0000_0000,
{
    if tokens < 2_000 {
        0x10_0000_0000_0000
    } else if tokens < 4_000 {
        0x8_0000_0000_0000
    } else if tokens < 8_000 {
        0x4_0000_0000_0000
    } else if tokens < 16_000 {
        0x2_0000_0000_0000
    } else if tokens < 32_000 {
        0x1_0000_0000_0000
    } else if tokens < 64_000 {
        0x8000_0000_0000
    } else {
        0x4000_0000_0000
    }
}

/// `8_243` as `"8.2k"`, `412_390` as `"412k"`, `999` as `"999"`.
pub fn fmt_tokens(tokens: u64) -> (text: String)
    ensures
        text@ == tokens_text(tokens as nat),
{
    if tokens >= 100_000 {
        let mut text = decimal_text(tokens / 1_000);
        text.append("k");
        text
    } else if tokens >= 1_000 {
        let steps: u128 = steps_for(tokens);
        assert(tokens * steps <= 100_000 * 0x10_0000_0000_0000) by (nonlinear_arith)
            requires
                tokens <= 100_000,
                steps <= 0x10_0000_0000_0000,
        ;
        let nearest: u128 = round_half_even((tokens as u128) * steps, 1_000);
        let tenths: u128 = round_half_even(10 * nearest, steps);
        proof {
            tenths_are_nearest(tokens as nat);
        }
        let mut text = decimal_text((tenths / 10) as u64);
        text.append(".");
        text.append(decimal_text((tenths % 10) as u64).as_str());
        text.append("k");
        text
    } else {
        decimal_text(tokens)
    }
}

/// No tenth of a thousand lies nearer to the count than the printed one.
pub proof fn tenths_are_nearest(tokens: nat)
    requires
        1_000 <= tokens < 100_000,
    ensures
        -50 <= 100 * tenths_of_thousands(tokens) - tokens <= 50,
{
    let steps = double_steps(tokens);
    let nearest = half_even(tokens * steps, 1_000);
    let tenths = tenths_of_thousands(tokens);
    lemma_half_even_is_near(tokens * steps, 1_000);
    lemma_half_even_is_near(10 * nearest, steps);
    let off = 100 * tenths - tokens;
    assert(-51 * steps < off * steps < 51 * steps) by (nonlinear_arith)
        requires
            off == 100 * tenths - tokens,
            steps > 500,
            -1_000 <= 2 * (1_000 * nearest - tokens * steps) <= 1_000,
            -steps <= 2 * (steps * tenths - 10 * nearest) <= steps,
    ;
    assert(-51 < off < 51) by (nonlinear_arith)
        requires
            -51 * steps < off * steps < 51 * steps,
            steps > 0,
    ;
}

proof fn lemma_half_even_is_near(a: nat, b: nat)
    requires
        b > 0,
    ensures
        -b <= 2 * (b * half_even(a, b) - a) <= b,
{
    vstd::arithmetic::div_mod::lemma_fundamental_div_mod(a as int, b as int);
    let down = a / b;
    assert(b * (down + 1) == b * down + b) by (nonlinear_arith);
}

// ---- sparkline ----------------------------------------------------------------

/// The bars of the sparkline, lowest first.
pub open spec fn spark_bars() -> Seq<char> {
    seq!['▁', '▂', '▃', '▄', '▅', '▆', '▇', '█']
}

/// `value` as a share of `peak` in sevenths, rounded up, at most all of it.
pub open spec fn spark_level(value: nat, peak: nat) -> nat {
    if peak == 0 || value == 0 {
        0
    } else {
        let level = (7 * value + peak - 1) as nat / peak;
        if level < 7 {
            level
        } else {
            7
        }
    }
}

/// The bar for a value, where `peak` fills a whole one.
pub fn spark_char(value: u64, peak: u64) -> (bar: char)
    requires
        peak > 0 ==> value * 7 <= u64::MAX,
    ensures
        bar == spark_bars()[spark_level(value as nat, peak as nat) as int],
{
    let level: u64 = if peak == 0 || value == 0 {
        0
    } else {
        let scaled: u64 = value * 7;
        let down: u64 = scaled / peak;
        proof {
            lemma_round_up(scaled as int, peak as int);
        }
        if down >= 7 {
            7
        } else if scaled % peak > 0 {
            down + 1
        } else {
            down
        }
    };
    if level == 0 {
        '▁'
    } else if level == 1 {
        '▂'
    } else if level == 2 {
        '▃'
    } else if level == 3 {
        '▄'
    } else if level == 4 {
        '▅'
    } else if level == 5 {
        '▆'
    } else if level == 6 {
        '▇'
    } else {
        '█'
    }
}

proof fn lemma_round_up(a: int, b: int)
    requires
        a >= 0,
        b > 0,
    ensures
        (a + b - 1) / b == if a % b > 0 {
            a / b + 1
        } else {
            a / b
        },
{
    vstd::arithmetic::div_mod::lemma_fundamental_div_mod(a, b);
    let q = a / b;
    let r = a % b;
    if r > 0 {
        assert(a + b - 1 == b * (q + 1) + (r - 1)) by (nonlinear_arith)
            requires
                a == b * q + r,
        ;
        vstd::arithmetic::div_mod::lemma_fundamental_div_mod_converse(
            a + b - 1,
            b,
            q + 1,
            r - 1,
        );
    } else {
        assert(a + b - 1 == q * b + (b - 1)) by (nonlinear_arith)
            requires
                a == b * q,
        ;
        vstd::arithmetic::div_mod::lemma_fundamental_div_mod_converse(a + b - 1, b, q, b - 1);
    }
}

/// More never shows as a lower bar.
pub proof fn spark_levels_rise(less: nat, more: nat, peak: nat)
    requires
        less <= more,
    ensures
        spark_level(less, peak) <= spark_level(more, peak) <= 7,
{
    if peak > 0 && less > 0 {
        vstd::arithmetic::div_mod::lemma_div_is_ordered(
            7 * less + peak - 1,
            7 * more + peak - 1,
            peak as int,
        );
    }
}

/// The peak fills the bar, and whatever is not zero shows above the lowest
/// bar.
pub proof fn spark_levels_span_the_bars(value: nat, peak: nat)
    requires
        0 < value,
        0 < peak,
    ensures
        spark_level(peak, peak) == 7,
        spark_level(value, peak) >= 1,
{
    assert((7 * peak + peak - 1) / (peak as int) >= 7) by (nonlinear_arith)
        requires
            peak > 0,
    ;
    assert((7 * value + peak - 1) / (peak as int) >= 1) by (nonlinear_arith)
        requires
            peak > 0,
            value > 0,
    ;
}

// ---- heatmap cells ------------------------------------------------------------

/// The glyph for a number of edits on one day: its digit, a plus sign from ten
/// on, a dot for none.
pub open spec fn heat_glyph(edits: nat) -> char {
    if edits == 0 {
        '·'
    } else if edits < 10 {
        digit_char(edits)
    } else {
        '+'
    }
}

/// The shade for a number of edits on one day: none, one, two or three, four
/// to six, seven or more.
pub open spec fn heat_shade(edits: nat) -> nat {
    if edits == 0 {
        0
    } else if edits == 1 {
        1
    } else if edits <= 3 {
        2
    } else if edits <= 6 {
        3
    } else {
        4
    }
}

/// More edits never show in a lower shade.
pub proof fn heat_shades_rise(less: nat, more: nat)
    requires
        less <= more,
    ensures
        heat_shade(less) <= heat_shade(more) <= 4,
{
}

// ---- what the figures say -----------------------------------------------------

/// Counts below a thousand are printed as they are; from a hundred thousand on
/// the whole thousands are, and what is left of them is dropped.
pub proof fn small_and_large_counts_are_plain(small: nat, thousands: nat, rest: nat)
    requires
        small < 1_000,
        thousands >= 100,
        rest < 1_000,
    ensures
        tokens_text(small) == decimal(small),
        tokens_text(1_000 * thousands + rest) == decimal(thousands).push('k'),
{
    reveal_strlit("k");
    assert((1_000 * thousands + rest) / 1_000 == thousands);
    assert(decimal(thousands) + "k"@ == decimal(thousands).push('k'));
}

/// Counts in between are printed in thousands with the nearest tenth. Where two
/// tenths are equally near and the quotient is a binary fraction, the even one
/// is printed.
pub proof fn counts_in_between_show_tenths(thousands: nat, tenth: nat, off: int)
    requires
        1 <= thousands < 100,
        tenth < 10,
        -50 < off < 50,
        1_000 <= 1_000 * thousands + 100 * tenth + off < 100_000,
    ensures
        tokens_text((1_000 * thousands + 100 * tenth + off) as nat) == decimal(thousands) + seq![
            '.',
            digit_char(tenth),
            'k',
        ],
        tokens_text(1_000 * thousands + 250) == decimal(thousands) + seq!['.', '2', 'k'],
        tokens_text(1_000 * thousands + 750) == decimal(thousands) + seq!['.', '8', 'k'],
{
    reveal_strlit("k");
    reveal_strlit(".");
    let tokens = (1_000 * thousands + 100 * tenth + off) as nat;
    tenths_are_nearest(tokens);
    assert(tenths_of_thousands(tokens) == 10 * thousands + tenth);
    assert forall|last: nat| last < 10 implies decimal(thousands) + "."@ + #[trigger] decimal(last)
        + "k"@ == decimal(thousands) + seq!['.', digit_char(last), 'k'] by {
        assert(decimal(last) == seq![digit_char(last)]);
        assert("."@ == seq!['.'] && "k"@ == seq!['k']);
    }
    assert((10 * thousands + tenth) as nat / 10 == thousands);
    assert((10 * thousands + tenth) as nat % 10 == tenth);
    lemma_binary_ties(thousands);
    assert(digit_char(2) == '2' && digit_char(8) == '8');
    assert((10 * thousands + 2) as nat / 10 == thousands);
    assert((10 * thousands + 8) as nat / 10 == thousands);
    assert(decimal(2) == seq![digit_char(2)]);
    assert(decimal(8) == seq![digit_char(8)]);
}

proof fn lemma_binary_ties(thousands: nat)
    requires
        1 <= thousands < 100,
    ensures
        tenths_of_thousands(1_000 * thousands + 250) == 10 * thousands + 2,
        tenths_of_thousands(1_000 * thousands + 750) == 10 * thousands + 8,
{
    let low = 1_000 * thousands + 250;
    let high = 1_000 * thousands + 750;
    let steps = double_steps(low);
    assert(double_steps(high) == steps);
    assert(low * steps == 1_000 * (thousands * steps) + 250 * steps) by (nonlinear_arith)
        requires
            low == 1_000 * thousands + 250,
    ;
    assert(high * steps == 1_000 * (thousands * steps) + 750 * steps) by (nonlinear_arith)
        requires
            high == 1_000 * thousands + 750,
    ;
    let whole = thousands * steps;
    let quarter = steps / 4;
    assert(steps == 4 * quarter && quarter > 0);
    assert(half_even(low * steps, 1_000) == whole + quarter);
    assert(half_even(high * steps, 1_000) == whole + 3 * quarter);
    assert(10 * (whole + quarter) == (10 * thousands + 2) * steps + 2 * quarter)
        by (nonlinear_arith)
        requires
            whole == thousands * steps,
            steps == 4 * quarter,
    ;
    assert(10 * (whole + 3 * quarter) == (10 * thousands + 7) * steps + 2 * quarter)
        by (nonlinear_arith)
        requires
            whole == thousands * steps,
            steps == 4 * quarter,
    ;
    vstd::arithmetic::div_mod::lemma_fundamental_div_mod_converse(
        (10 * (whole + quarter)) as int,
        steps as int,
        (10 * thousands + 2) as int,
        (2 * quarter) as int,
    );
    vstd::arithmetic::div_mod::lemma_fundamental_div_mod_converse(
        (10 * (whole + 3 * quarter)) as int,
        steps as int,
        (10 * thousands + 7) as int,
        (2 * quarter) as int,
    );
}

/// A bar stands for the least number of sevenths of the peak that holds the
/// value; nothing stands for nothing, and more than the peak is a whole bar.
pub proof fn bars_are_sevenths_of_the_peak(value: nat, peak: nat)
    ensures
        value == 0 || peak == 0 ==> spark_level(value, peak) == 0,
        0 < value <= peak ==> (spark_level(value, peak) - 1) * peak < 7 * value <= spark_level(
            value,
            peak,
        ) * peak,
        0 < peak <= value ==> spark_level(value, peak) == 7,
        spark_bars().len() == 8,
        forall|i: int| 0 <= i < 8 ==> (#[trigger] spark_bars()[i]) as int == 0x2581 + i,
{
    if 0 < value && 0 < peak {
        let level = (7 * value + peak - 1) / (peak as int);
        let rest = (7 * value + peak - 1) % (peak as int);
        vstd::arithmetic::div_mod::lemma_fundamental_div_mod(
            7 * value + peak - 1,
            peak as int,
        );
        assert((level - 1) * peak < 7 * value <= level * peak) by (nonlinear_arith)
            requires
                7 * value + peak - 1 == peak * level + rest,
                0 <= rest < peak,
        ;
        assert(value <= peak ==> level <= 7) by (nonlinear_arith)
            requires
                (level - 1) * peak < 7 * value,
                0 < peak,
        ;
        assert(peak <= value ==> level >= 7) by (nonlinear_arith)
            requires
                7 * value <= level * peak,
                0 < peak,
        ;
    }
}

/// One edit to nine show as their digit, more as a plus sign, none as a dot; the
/// shade rises at the first, the second, the fourth and the seventh edit.
pub proof fn heat_cells_tell_the_edits(edits: nat)
    ensures
        1 <= edits <= 9 ==> heat_glyph(edits) as int == '0' as int + edits,
        edits == 0 ==> heat_glyph(edits) == '·',
        edits >= 10 ==> heat_glyph(edits) == '+',
        heat_shade(edits) == (if edits >= 1 {
            1int
        } else {
            0
        }) + (if edits >= 2 {
            1int
        } else {
            0
        }) + (if edits >= 4 {
            1int
        } else {
            0
        }) + (if edits >= 7 {
            1int
        } else {
            0
        }),
{
}

/// The thousandth part of a count is taken with the precision of a double: it has
/// 53 bits, and no other number of so many is nearer. The tenth that is printed
/// is one that is nearest to it, and the even one of two.
pub proof fn thousandth_parts_have_double_precision(tokens: nat, part: nat)
    requires
        1_000 <= tokens < 100_000,
        part == half_even(tokens * double_steps(tokens), 1_000),
    ensures
        ({
            let steps = double_steps(tokens);
            let tenths = tenths_of_thousands(tokens);
            &&& 0x10_0000_0000_0000nat % steps == 0
            &&& 0x10_0000_0000_0000 <= part < 0x20_0000_0000_0000
            &&& -500 <= 1_000 * part - tokens * steps <= 500
            &&& -steps <= 2 * (steps * tenths - 10 * part) <= steps
            &&& 2 * (steps * tenths - 10 * part) == steps || 2 * (steps * tenths - 10 * part)
                == -steps ==> tenths % 2 == 0
        }),
{
    let steps = double_steps(tokens);
    let tenths = tenths_of_thousands(tokens);
    lemma_half_even_is_near(tokens * steps, 1_000);
    lemma_half_even_is_near(10 * part, steps);
    lemma_ties_are_even(10 * part, steps);
    if tokens < 2_000 {
    } else if tokens < 4_000 {
    } else if tokens < 8_000 {
    } else if tokens < 16_000 {
    } else if tokens < 32_000 {
    } else if tokens < 64_000 {
    } else {
    }
}

proof fn lemma_ties_are_even(a: nat, b: nat)
    requires
        b > 0,
    ensures
        ({
            let off = 2 * (b * half_even(a, b) - a);
            off == b || off == -b ==> half_even(a, b) % 2 == 0
        }),
{
    vstd::arithmetic::div_mod::lemma_fundamental_div_mod(a as int, b as int);
    let down = a / b;
    assert(b * (down + 1) == b * down + b) by (nonlinear_arith);
}

} // verus!
