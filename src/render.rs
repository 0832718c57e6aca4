use vstd::prelude::*;

use colored::Color as Colors;
use colored::Colorize;

use vstd::arithmetic::div_mod::lemma_fundamental_div_mod_converse;

verus! {

/// The completed count as far as rendering sees it: a count past the total
/// renders as a full bar.
pub open spec fn shown_count(current: nat, total: nat) -> nat {
    if current <= total {
        current
    } else {
        total
    }
}

/// `round(length * current / total)`, rounding halves away from zero, with
/// the count clamped to the total. A zero total counts as complete.
pub open spec fn fill_count(length: nat, current: nat, total: nat) -> nat {
    if total == 0 {
        length
    } else {
        ((2 * length * shown_count(current, total) + total) / (2 * total)) as nat
    }
}

/// The completion percentage, `round(100 * current / total)`.
pub open spec fn percent_of(current: nat, total: nat) -> nat {
    fill_count(100, current, total)
}

proof fn lemma_round_split(a: int, t: int, q: int, r: int)
    requires
        t > 0,
        a >= 0,
        a == q * t + r,
        0 <= r < t,
    ensures
        (2 * a + t) / (2 * t) == if 2 * r >= t { q + 1 } else { q },
{
    let d = 2 * t;
    let n = 2 * a + t;
    if 2 * r >= t {
        assert(n == (q + 1) * d + (2 * r - t)) by (nonlinear_arith)
            requires n == 2 * a + t, a == q * t + r, d == 2 * t;
        lemma_fundamental_div_mod_converse(n, d, q + 1, 2 * r - t);
    } else {
        assert(n == q * d + (2 * r + t)) by (nonlinear_arith)
            requires n == 2 * a + t, a == q * t + r, d == 2 * t;
        lemma_fundamental_div_mod_converse(n, d, q, 2 * r + t);
    }
}

/// Number of fill cells of a bar `bar_length` wide showing `current` of
/// `total`.
pub fn filled_length(bar_length: usize, current: u64, total: u64) -> (r: usize)
    ensures
        r as nat == fill_count(bar_length as nat, current as nat, total as nat),
        r <= bar_length,
{
    if total == 0 {
        return bar_length;
    }
    let shown: u64 = if current <= total { current } else { total };
    let len = bar_length as u128;
    let wide_shown = shown as u128;
    assert(len * wide_shown <= 0xffff_ffff_ffff_ffff_u128 * 0xffff_ffff_ffff_ffff_u128)
        by (nonlinear_arith)
        requires
            len <= 0xffff_ffff_ffff_ffff_u128,
            wide_shown <= 0xffff_ffff_ffff_ffff_u128,
    ;
    let prod: u128 = len * wide_shown;
    let t = total as u128;
    let q: u128 = prod / t;
    let rem: u128 = prod % t;
    assert(q <= len) by (nonlinear_arith)
        requires
            prod == len * wide_shown,
            wide_shown <= t,
            t > 0,
            q == prod / t,
    {
        vstd::arithmetic::div_mod::lemma_div_is_ordered(prod as int, (len * t) as int, t as int);
        vstd::arithmetic::div_mod::lemma_div_multiples_vanish(len as int, t as int);
    }
    let rounded: u128 = if 2 * rem >= t { q + 1 } else { q };
    proof {
        vstd::arithmetic::div_mod::lemma_fundamental_div_mod(prod as int, t as int);
        assert(prod == q * t + rem) by (nonlinear_arith)
            requires prod == t * q + rem;
        lemma_round_split(prod as int, t as int, q as int, rem as int);
        assert(2 * (bar_length as nat) * (shown as nat) == 2 * prod) by (nonlinear_arith)
            requires prod == len * wide_shown, len == bar_length, wide_shown == shown;
        assert(rounded <= len) by (nonlinear_arith)
            requires
                prod == len * wide_shown,
                wide_shown <= t,
                t > 0,
                prod == q * t + rem,
                0 <= rem < t,
                rounded == if 2 * rem >= t { q + 1 } else { q as int },
        ;
    }
    rounded as usize
}

/// A bar `length` cells wide whose first `filled` cells are `=` and the rest
/// spaces.
pub open spec fn bar_text(length: nat, filled: nat) -> Seq<char> {
    Seq::new(length, |i: int| if i < filled { '=' } else { ' ' })
}

/// The bar `bar_length` wide with `filled` fill cells.
pub fn bar_string(bar_length: usize, filled: usize) -> (r: String)
    requires
        filled <= bar_length,
    ensures
        r@ == bar_text(bar_length as nat, filled as nat),
{
    let mut s = String::new();
    let mut i: usize = 0;
    while i < bar_length
        invariant
            i <= bar_length,
            s@ == bar_text(i as nat, filled as nat),
        decreases bar_length - i,
    {
        proof {
            reveal_strlit("=");
            reveal_strlit(" ");
        }
        if i < filled {
            s.append("=");
        } else {
            s.append(" ");
        }
        i += 1;
        assert(s@ =~= bar_text(i as nat, filled as nat));
    }
    s
}

/// The decimal digit `d`.
pub open spec fn digit_char(d: nat) -> char {
    if d == 0 {
        '0'
    } else if d == 1 {
        '1'
    } else if d == 2 {
        '2'
    } else if d == 3 {
        '3'
    } else if d == 4 {
        '4'
    } else if d == 5 {
        '5'
    } else if d == 6 {
        '6'
    } else if d == 7 {
        '7'
    } else if d == 8 {
        '8'
    } else {
        '9'
    }
}

/// `n` written in decimal, without leading zeros.
pub open spec fn decimal(n: nat) -> Seq<char>
    decreases n,
{
    if n < 10 {
        seq![digit_char(n)]
    } else {
        decimal(n / 10).push(digit_char(n % 10))
    }
}

fn digit_str(d: u64) -> (r: &'static str)
    requires
        d < 10,
    ensures
        r@ == seq![digit_char(d as nat)],
{
    proof {
        reveal_strlit("0");
        reveal_strlit("1");
        reveal_strlit("2");
        reveal_strlit("3");
        reveal_strlit("4");
        reveal_strlit("5");
        reveal_strlit("6");
        reveal_strlit("7");
        reveal_strlit("8");
        reveal_strlit("9");
    }
    let r = match d {
        0 => "0",
        1 => "1",
        2 => "2",
        3 => "3",
        4 => "4",
        5 => "5",
        6 => "6",
        7 => "7",
        8 => "8",
        _ => "9",
    };
    assert(r@ =~= seq![digit_char(d as nat)]);
    r
}

fn push_decimal(s: &mut String, n: u64)
    ensures
        final(s)@ == old(s)@ + decimal(n as nat),
    decreases n,
{
    if n >= 10 {
        push_decimal(s, n / 10);
    }
    s.append(digit_str(n % 10));
    assert(final(s)@ =~= old(s)@ + decimal(n as nat));
}

/// `n` as a decimal string.
pub fn decimal_string(n: u64) -> (r: String)
    ensures
        r@ == decimal(n as nat),
{
    let mut s = String::new();
    push_decimal(&mut s, n);
    assert(s@ =~= decimal(n as nat));
    s
}

/// The reset sequence `ESC [ 0 m` that closes a coloured run.
pub open spec fn color_reset() -> Seq<char> {
    seq!['\x1b', '[', '0', 'm']
}

/// `text` holds no escape character.
pub open spec fn escape_free(text: Seq<char>) -> bool {
    forall|i: int| 0 <= i < text.len() ==> text[i] != '\x1b'
}

/// A character of a colour code: a decimal digit or `;`.
pub open spec fn is_code_char(c: char) -> bool {
    c == ';' || ('0' <= c && c <= '9')
}

/// Every character of `text` is a decimal digit or `;`.
pub open spec fn code_text(text: Seq<char>) -> bool {
    forall|i: int| 0 <= i < text.len() ==> is_code_char(#[trigger] text[i])
}

/// Decimal text is made of digits only.
pub proof fn lemma_decimal_digits(n: nat)
    ensures
        forall|i: int| 0 <= i < decimal(n).len() ==> '0' <= #[trigger] decimal(n)[i] <= '9',
    decreases n,
{
    if n >= 10 {
        lemma_decimal_digits(n / 10);
        assert forall|i: int| 0 <= i < decimal(n).len() implies '0' <= #[trigger] decimal(n)[i]
            <= '9' by {
            if i < decimal(n / 10).len() {
                assert(decimal(n)[i] == decimal(n / 10)[i]);
            }
        }
    }
}

/// The foreground code of each of the sixteen named colours; a true colour
/// has no fixed one.
pub open spec fn named_code(c: Colors) -> Seq<char> {
    match c {
        Colors::Black => seq!['3', '0'],
        Colors::Red => seq!['3', '1'],
        Colors::Green => seq!['3', '2'],
        Colors::Yellow => seq!['3', '3'],
        Colors::Blue => seq!['3', '4'],
        Colors::Magenta => seq!['3', '5'],
        Colors::Cyan => seq!['3', '6'],
        Colors::White => seq!['3', '7'],
        Colors::BrightBlack => seq!['9', '0'],
        Colors::BrightRed => seq!['9', '1'],
        Colors::BrightGreen => seq!['9', '2'],
        Colors::BrightYellow => seq!['9', '3'],
        Colors::BrightBlue => seq!['9', '4'],
        Colors::BrightMagenta => seq!['9', '5'],
        Colors::BrightCyan => seq!['9', '6'],
        Colors::BrightWhite => seq!['9', '7'],
        Colors::TrueColor { .. } => seq![],
    }
}

/// The 24-bit foreground code `38;2;<r>;<g>;<b>`.
pub open spec fn true_color_code(r: nat, g: nat, b: nat) -> Seq<char> {
    seq!['3', '8', ';', '2', ';'] + decimal(r) + seq![';'] + decimal(g) + seq![';'] + decimal(b)
}

/// `code` is a foreground code that shows `color`: a named colour's own
/// code; for a true colour, its 24-bit code, or the code of a named colour
/// where the terminal is not known to take 24-bit colour.
pub open spec fn is_fg_code(code: Seq<char>, color: Colors) -> bool {
    match color {
        Colors::TrueColor { r, g, b } => code == true_color_code(r as nat, g as nat, b as nat)
            || exists|n: Colors| !(n is TrueColor) && code == named_code(n),
        _ => code == named_code(color),
    }
}

/// A foreground code is made of digits and `;` only.
pub proof fn lemma_fg_code_text(code: Seq<char>, color: Colors)
    requires
        is_fg_code(code, color),
    ensures
        code_text(code),
{
    match color {
        Colors::TrueColor { r, g, b } => {
            if code == true_color_code(r as nat, g as nat, b as nat) {
                lemma_decimal_digits(r as nat);
                lemma_decimal_digits(g as nat);
                lemma_decimal_digits(b as nat);
                assert(code_text(code));
            } else {
                let n = choose|n: Colors| !(n is TrueColor) && code == named_code(n);
                assert(code_text(named_code(n)));
            }
        },
        _ => {},
    }
}

/// `out` is `text` as a terminal shows it in `color`: either the text alone
/// (colouring switched off), or the text after the opening sequence
/// `ESC [ <code> m` of that colour and before the reset.
pub open spec fn painted(out: Seq<char>, text: Seq<char>, color: Colors) -> bool {
    out == text || exists|code: Seq<char>|
        is_fg_code(code, color) && out == seq!['\x1b', '['] + code + seq!['m'] + text
            + color_reset()
}

/// Relies on `colored`'s `Colorize::color` on a `&str`, the `Display` of the
/// `ColoredString` it returns, and `Color::to_fg_str` for the code. Whether
/// colouring is on depends on the environment, and so does the code of a true
/// colour: the text comes back as it is, or wrapped in the colour's code and
/// the reset.
#[verifier::external_body]
pub(crate) fn paint(text: &str, color: Colors) -> (r: String)
    requires
        escape_free(text@),
    ensures
        painted(r@, text@, color),
{
    text.color(color).to_string()
}

/// The width to which new-line rendering pads the bar.
pub const NEW_LINE_WIDTH: usize = 50;

/// `text` fitted to exactly `width` characters: cut after the first `width`
/// where it is longer, padded with spaces on the right where it is shorter.
pub open spec fn fitted(text: Seq<char>, width: nat) -> Seq<char> {
    if text.len() >= width {
        text.subrange(0, width as int)
    } else {
        text + Seq::new((width - text.len()) as nat, |i: int| ' ')
    }
}

/// An inline frame: a carriage return, the bar in brackets, a space and the
/// percentage text followed by `%`.
pub open spec fn inline_frame(bar: Seq<char>, percent: Seq<char>) -> Seq<char> {
    seq!['\r', '['] + bar + seq![']', ' '] + percent + seq!['%']
}

/// A new-line frame: the bar fitted to `NEW_LINE_WIDTH` in brackets, a space,
/// the percentage text followed by `%`, and a newline.
pub open spec fn new_line_frame(bar: Seq<char>, percent: Seq<char>) -> Seq<char> {
    seq!['['] + fitted(bar, NEW_LINE_WIDTH as nat) + seq![']', ' '] + percent + seq![
        '%',
        '\n',
    ]
}

/// Assembles an inline frame from the (possibly coloured) bar and percentage
/// texts.
pub fn compose_inline(bar: &str, percent: &str) -> (r: String)
    ensures
        r@ == inline_frame(bar@, percent@),
{
    proof {
        reveal_strlit("\r[");
        reveal_strlit("] ");
        reveal_strlit("%");
    }
    let mut s = String::new();
    s.append("\r[");
    s.append(bar);
    s.append("] ");
    s.append(percent);
    s.append("%");
    assert(s@ =~= inline_frame(bar@, percent@));
    s
}

/// Assembles a new-line frame from the bar and percentage texts.
pub fn compose_new_line(bar: &str, percent: &str) -> (r: String)
    ensures
        r@ == new_line_frame(bar@, percent@),
{
    let mut s = String::new();
    proof {
        reveal_strlit("[");
    }
    s.append("[");
    let length = bar.unicode_len();
    if length >= NEW_LINE_WIDTH {
        s.append(bar.substring_char(0, NEW_LINE_WIDTH));
    } else {
        s.append(bar);
        let ghost start = s@;
        let mut width: usize = length;
        while width < NEW_LINE_WIDTH
            invariant
                width <= NEW_LINE_WIDTH,
                bar@.len() <= width,
                s@ == start + Seq::new((width - bar@.len()) as nat, |i: int| ' '),
            decreases NEW_LINE_WIDTH - width,
        {
            proof {
                reveal_strlit(" ");
            }
            s.append(" ");
            width += 1;
            assert(s@ =~= start + Seq::new((width - bar@.len()) as nat, |i: int| ' '));
        }
    }
    assert(s@ =~= seq!['['] + fitted(bar@, NEW_LINE_WIDTH as nat));
    proof {
        reveal_strlit("] ");
        reveal_strlit("%\n");
    }
    s.append("] ");
    s.append(percent);
    s.append("%\n");
    assert(s@ =~= new_line_frame(bar@, percent@));
    s
}

} // verus!
