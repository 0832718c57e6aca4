use vstd::prelude::*;

use colored::Color as Colors;

use vstd::arithmetic::div_mod::lemma_fundamental_div_mod;

use crate::render::{
    bar_string, bar_text, color_reset, compose_inline, compose_new_line, decimal, decimal_string,
    fill_count, filled_length, inline_frame, is_code_char, is_fg_code, lemma_decimal_digits,
    lemma_fg_code_text, new_line_frame, paint, painted, percent_of, shown_count,
};

verus! {

/// The terminal colour of the bar: the `colored` crate's public enum of the
/// sixteen named colours and a true colour, declared so that its variants can
/// be built and compared here.
#[verifier::external_type_specification]
pub struct ExColor(colored::Color);

/// How each update is rendered.
#[derive(Debug, Clone, Copy, PartialEq, Eq, Structural)]
pub enum DisplayMode {
    /// Overwrite the current console line.
    Inline,
    /// Print a fresh line per update.
    NewLine,
}

/// The abstract state of a progress bar.
pub ghost struct BarState {
    pub total: nat,
    pub current: nat,
    pub bar_length: nat,
    pub color: Colors,
    pub display_mode: DisplayMode,
}

/// A progress bar that can be rendered to the console.
#[derive(Debug)]
pub struct RichProgressBar {
    total: u64,
    current: u64,
    bar_length: usize,
    color: Colors,
    display_mode: DisplayMode,
}

impl View for RichProgressBar {
    type V = BarState;

    closed spec fn view(&self) -> BarState {
        BarState {
            total: self.total as nat,
            current: self.current as nat,
            bar_length: self.bar_length as nat,
            color: self.color,
            display_mode: self.display_mode,
        }
    }
}

impl BarState {
    /// The state after one increment: one more unit done, unless the count
    /// has already reached the total.
    pub open spec fn incremented(self) -> BarState {
        BarState {
            current: if self.current < self.total {
                self.current + 1
            } else {
                self.current
            },
            ..self
        }
    }

    /// The number of fill cells of the rendered bar.
    pub open spec fn filled(self) -> nat {
        fill_count(self.bar_length, self.current, self.total)
    }

    /// The rendered bar, `bar_length` cells of `=` and space.
    pub open spec fn bar(self) -> Seq<char> {
        bar_text(self.bar_length, self.filled())
    }

    /// The rendered completion percentage.
    pub open spec fn percent(self) -> nat {
        percent_of(self.current, self.total)
    }

    /// `out` is a frame of this state: in new-line mode exactly the uncoloured
    /// new-line frame; inline, the inline frame of the bar and percentage
    /// texts, each painted in the configured colour.
    pub open spec fn is_frame(self, out: Seq<char>) -> bool {
        match self.display_mode {
            DisplayMode::NewLine => out == new_line_frame(self.bar(), decimal(self.percent())),
            DisplayMode::Inline => exists|b: Seq<char>, p: Seq<char>|
                painted(b, self.bar(), self.color) && painted(
                    p,
                    decimal(self.percent()),
                    self.color,
                ) && out == inline_frame(b, p),
        }
    }
}

impl RichProgressBar {
    /// Creates a bar with the defaults: a total of 100, nothing done yet,
    /// 90 cells wide, white, rendered inline.
    pub fn new() -> (r: RichProgressBar)
        ensures
            r@ == (BarState {
                total: 100,
                current: 0,
                bar_length: 90,
                color: Colors::White,
                display_mode: DisplayMode::Inline,
            }),
    {
        RichProgressBar {
            total: 100,
            current: 0,
            bar_length: 90,
            color: Colors::White,
            display_mode: DisplayMode::Inline,
        }
    }

    /// Sets the colour used by inline rendering.
    pub fn set_color(&mut self, color: Colors) -> (r: &mut Self)
        ensures
            (*r)@ == (BarState { color, ..old(self)@ }),
            *final(self) == *final(r),
    {
        self.color = color;
        self
    }

    /// The number of completed units.
    pub fn get_current(&self) -> (r: u64)
        ensures
            r as nat == self@.current,
    {
        self.current
    }

    /// The colour used by inline rendering.
    pub fn get_color(&self) -> (r: Colors)
        ensures
            r == self@.color,
    {
        self.color
    }

    /// Sets the count that stands for completion. The completed count is left
    /// as it is.
    pub fn set_total(&mut self, total: u64) -> (r: &mut Self)
        ensures
            (*r)@ == (BarState { total: total as nat, ..old(self)@ }),
            *final(self) == *final(r),
    {
        self.total = total;
        self
    }

    /// The count that stands for completion.
    pub fn get_total(&self) -> (r: u64)
        ensures
            r as nat == self@.total,
    {
        self.total
    }

    /// Sets how each update is rendered.
    pub fn set_display_mode(&mut self, display_mode: DisplayMode) -> (r: &mut Self)
        ensures
            (*r)@ == (BarState { display_mode, ..old(self)@ }),
            *final(self) == *final(r),
    {
        self.display_mode = display_mode;
        self
    }

    /// How each update is rendered.
    pub fn get_display_mode(&self) -> (r: &DisplayMode)
        ensures
            *r == self@.display_mode,
    {
        &self.display_mode
    }

    /// Sets the width of the bar in cells. A zero width renders no cells:
    /// inline the brackets stand empty, while a new-line frame still shows a
    /// field of its fixed width, all spaces. A new-line frame cuts a wider
    /// bar to that width.
    pub fn set_bar_length(&mut self, bar_length: usize) -> (r: &mut Self)
        ensures
            (*r)@ == (BarState { bar_length: bar_length as nat, ..old(self)@ }),
            *final(self) == *final(r),
    {
        self.bar_length = bar_length;
        self
    }

    /// The width of the bar in cells.
    pub fn get_bar_length(&self) -> (r: usize)
        ensures
            r as nat == self@.bar_length,
    {
        self.bar_length
    }

    /// The bar as it is rendered now: `round(bar_length * current / total)`
    /// cells of `=`, then spaces up to `bar_length`.
    pub fn bar(&self) -> (r: String)
        ensures
            r@ == self@.bar(),
    {
        let filled = filled_length(self.bar_length, self.current, self.total);
        bar_string(self.bar_length, filled)
    }

    /// The completion percentage as it is rendered now,
    /// `round(100 * current / total)`.
    pub fn percentage(&self) -> (r: u64)
        ensures
            r as nat == self@.percent(),
            r <= 100,
    {
        filled_length(100, self.current, self.total) as u64
    }

    /// The text that displays the bar's present state on the console.
    pub fn render(&self) -> (r: String)
        ensures
            self@.is_frame(r@),
    {
        let bar = self.bar();
        let percent = decimal_string(self.percentage());
        match self.display_mode {
            DisplayMode::Inline => {
                proof {
                    lemma_decimal_digits(self@.percent());
                }
                let painted_bar = paint(bar.as_str(), self.color);
                let painted_percent = paint(percent.as_str(), self.color);
                compose_inline(painted_bar.as_str(), painted_percent.as_str())
            },
            DisplayMode::NewLine => compose_new_line(bar.as_str(), percent.as_str()),
        }
    }

    /// Counts one more unit done, unless the total is already reached, and
    /// returns the frame that displays the new state; a frame is rendered
    /// in either case.
    pub fn inc(&mut self) -> (r: String)
        ensures
            final(self)@ == old(self)@.incremented(),
            final(self)@.is_frame(r@),
    {
        if self.current < self.total {
            self.current = self.current + 1;
        }
        self.render()
    }
}

/// The state after `n` increments.
pub open spec fn after_increments(s: BarState, n: nat) -> BarState
    decreases n,
{
    if n == 0 {
        s
    } else {
        after_increments(s, (n - 1) as nat).incremented()
    }
}

proof fn lemma_after_increments(s: BarState, n: nat)
    requires
        s.current <= s.total,
    ensures
        after_increments(s, n).current == if s.current + n <= s.total {
            s.current + n
        } else {
            s.total
        },
        after_increments(s, n) == (BarState { current: after_increments(s, n).current, ..s }),
    decreases n,
{
    if n > 0 {
        lemma_after_increments(s, (n - 1) as nat);
    }
}

/// Counting from zero: on a bar with nothing done, `n` increments with `n`
/// at most the total leave exactly `n` units done.
pub proof fn lemma_count_from_zero(s: BarState, n: nat)
    requires
        s.current == 0,
        n <= s.total,
    ensures
        after_increments(s, n).current == n,
{
    lemma_after_increments(s, n);
}

/// Clamping: from a state within its total, however many increments follow,
/// the count never passes the total, and the total stays as it was.
pub proof fn lemma_never_past_total(s: BarState, n: nat)
    requires
        s.current <= s.total,
    ensures
        after_increments(s, n).current <= after_increments(s, n).total,
        after_increments(s, n).total == s.total,
{
    lemma_after_increments(s, n);
}

/// The rendered bar has `filled()` fill cells, `round(bar_length * p)` for
/// `p = current / total`, followed by spaces, and fill and space cells
/// together make exactly `bar_length`.
pub proof fn lemma_bar_shape(s: BarState)
    ensures
        s.filled() <= s.bar_length,
        s.bar() == Seq::new(s.filled(), |i: int| '=') + Seq::new(
            (s.bar_length - s.filled()) as nat,
            |i: int| ' ',
        ),
        s.bar().len() == s.filled() + (s.bar_length - s.filled()),
{
    if s.total > 0 {
        let c = shown_count(s.current, s.total) as int;
        let t = s.total as int;
        let l = s.bar_length as int;
        let n = 2 * l * c + t;
        let q = n / (2 * t);
        lemma_fundamental_div_mod(n, 2 * t);
        assert(q <= l) by (nonlinear_arith)
            requires
                n == 2 * t * q + n % (2 * t),
                0 <= n % (2 * t),
                n == 2 * l * c + t,
                0 <= c <= t,
                t > 0,
                l >= 0,
        ;
    }
    assert(s.bar() =~= Seq::new(s.filled(), |i: int| '=') + Seq::new(
        (s.bar_length - s.filled()) as nat,
        |i: int| ' ',
    ));
}

proof fn lemma_painted_single_line(out: Seq<char>, text: Seq<char>, color: Colors)
    requires
        painted(out, text, color),
        forall|i: int| 0 <= i < text.len() ==> text[i] != '\n',
    ensures
        forall|i: int| 0 <= i < out.len() ==> out[i] != '\n',
{
    if out != text {
        let code = choose|code: Seq<char>|
            is_fg_code(code, color) && out == seq!['\x1b', '['] + code + seq!['m'] + text
                + color_reset();
        lemma_fg_code_text(code, color);
        let head = seq!['\x1b', '['] + code + seq!['m'];
        assert forall|i: int| 0 <= i < head.len() implies head[i] != '\n' by {
            if 2 <= i < 2 + code.len() {
                assert(is_code_char(code[i - 2]));
            }
        }
        assert(out == head + text + color_reset());
    }
}

/// An inline frame stays on one line: it holds no newline, whatever the
/// colour and whether or not colouring is on.
pub proof fn lemma_inline_frame_single_line(s: BarState, out: Seq<char>)
    requires
        s.display_mode == DisplayMode::Inline,
        s.is_frame(out),
    ensures
        forall|i: int| 0 <= i < out.len() ==> out[i] != '\n',
{
    let (b, p) = choose|b: Seq<char>, p: Seq<char>|
        painted(b, s.bar(), s.color) && painted(p, decimal(s.percent()), s.color) && out
            == inline_frame(b, p);
    lemma_decimal_digits(s.percent());
    lemma_painted_single_line(b, s.bar(), s.color);
    lemma_painted_single_line(p, decimal(s.percent()), s.color);
}

} // verus!
