//! Lines of text in colour.

use vstd::prelude::*;

use crate::render::Color;

verus! {

/// How a piece of text looks.
#[derive(Debug, Clone, Copy, PartialEq, Eq, Structural)]
pub struct Style {
    /// The colour of the letters, if not that of the terminal.
    pub fg: Option<Color>,
    /// The colour behind them, if not that of the terminal.
    pub bg: Option<Color>,
    pub bold: bool,
    /// The two colours change places.
    pub reversed: bool,
}

/// A piece of text that looks the same throughout.
#[derive(Debug, Clone, PartialEq, Eq)]
pub struct Span {
    pub text: String,
    pub style: Style,
}

/// A piece of text as a value.
pub struct SpanView {
    pub text: Seq<char>,
    pub style: Style,
}

impl View for Span {
    type V = SpanView;

    open spec fn view(&self) -> SpanView {
        SpanView { text: self.text@, style: self.style }
    }
}

/// A line of text.
#[derive(Debug, Clone, PartialEq, Eq)]
pub struct TextLine {
    pub spans: Vec<Span>,
}

impl View for TextLine {
    type V = Seq<SpanView>;

    open spec fn view(&self) -> Seq<SpanView> {
        self.spans@.map_values(|span: Span| span@)
    }
}

/// The lines of a text as values.
pub open spec fn lines_of(lines: Seq<TextLine>) -> Seq<Seq<SpanView>> {
    lines.map_values(|line: TextLine| line@)
}

/// The look of the terminal itself.
pub open spec fn plain() -> Style {
    Style { fg: None, bg: None, bold: false, reversed: false }
}

/// Letters in one colour.
pub open spec fn tinted(color: Color) -> Style {
    Style { fg: Some(color), ..plain() }
}

/// Bold letters in one colour.
pub open spec fn bold(color: Color) -> Style {
    Style { bold: true, ..tinted(color) }
}

/// A line that consists of one piece of text.
pub open spec fn one(text: Seq<char>, style: Style) -> Seq<SpanView> {
    seq![SpanView { text, style }]
}

impl Style {
    /// The look of the terminal itself.
    pub fn plain() -> (style: Style)
        ensures
            style == plain(),
    {
        Style { fg: None, bg: None, bold: false, reversed: false }
    }

    /// Letters in one colour.
    pub fn tinted(color: Color) -> (style: Style)
        ensures
            style == tinted(color),
    {
        Style { fg: Some(color), bg: None, bold: false, reversed: false }
    }

    /// Bold letters in one colour.
    pub fn bold(color: Color) -> (style: Style)
        ensures
            style == bold(color),
    {
        Style { fg: Some(color), bg: None, bold: true, reversed: false }
    }
}

impl TextLine {
    /// A line that consists of one piece of text.
    pub fn of(text: String, style: Style) -> (line: TextLine)
        ensures
            line@ == one(text@, style),
    {
        let span = Span { text, style };
        let ghost view = span@;
        let mut spans: Vec<Span> = Vec::with_capacity(1);
        spans.push(span);
        let line = TextLine { spans };
        assert(line@ =~= seq![view]);
        line
    }
}

/// Adds a line that consists of one piece of text.
pub fn push_line(lines: &mut Vec<TextLine>, text: &str, style: Style)
    ensures
        lines_of(final(lines)@) == lines_of(old(lines)@).push(one(text@, style)),
{
    let ghost before = lines@;
    let line = TextLine::of(text.to_owned(), style);
    let ghost view = line@;
    lines.push(line);
    assert(lines_of(lines@) =~= lines_of(before).push(view));
}

/// Adds a line that consists of one piece of text.
pub fn push_owned(lines: &mut Vec<TextLine>, text: String, style: Style)
    ensures
        lines_of(final(lines)@) == lines_of(old(lines)@).push(one(text@, style)),
{
    let ghost before = lines@;
    let line = TextLine::of(text, style);
    let ghost view = line@;
    lines.push(line);
    assert(lines_of(lines@) =~= lines_of(before).push(view));
}

/// The digit for a number below ten.
pub open spec fn digit(n: nat) -> char {
    if n == 0 {
        '0'
    } else if n == 1 {
        '1'
    } else if n == 2 {
        '2'
    } else if n == 3 {
        '3'
    } else if n == 4 {
        '4'
    } else if n == 5 {
        '5'
    } else if n == 6 {
        '6'
    } else if n == 7 {
        '7'
    } else if n == 8 {
        '8'
    } else {
        '9'
    }
}

/// The number in digits, without leading zeros.
pub open spec fn decimal(n: nat) -> Seq<char>
    decreases n,
{
    if n < 10 {
        seq![digit(n)]
    } else {
        decimal(n / 10).push(digit(n % 10))
    }
}

/// The number in digits, filled up with zeros to the given width.
pub open spec fn zero_filled(n: nat, width: nat) -> Seq<char> {
    let digits = decimal(n);
    if digits.len() >= width {
        digits
    } else {
        Seq::new((width - digits.len()) as nat, |i: int| '0') + digits
    }
}

/// The digit for a number below ten.
fn digit_of(n: u64) -> (c: char)
    ensures
        c == digit(n as nat),
{
    match n {
        0 => '0',
        1 => '1',
        2 => '2',
        3 => '3',
        4 => '4',
        5 => '5',
        6 => '6',
        7 => '7',
        8 => '8',
        _ => '9',
    }
}

/// Writes a number in digits, without leading zeros.
pub fn push_decimal(text: &mut String, n: u64)
    ensures
        final(text)@ == old(text)@ + decimal(n as nat),
    decreases n,
{
    if n < 10 {
        text.push(digit_of(n));
        assert(text@ =~= old(text)@ + seq![digit(n as nat)]);
    } else {
        push_decimal(text, n / 10);
        text.push(digit_of(n % 10));
        assert(text@ =~= old(text)@ + decimal((n / 10) as nat).push(digit((n % 10) as nat)));
    }
}

/// The number of digits of a number.
fn digits_of(n: u64) -> (count: u64)
    ensures
        count == decimal(n as nat).len(),
        1 <= count <= n + 1,
    decreases n,
{
    if n < 10 {
        1
    } else {
        digits_of(n / 10) + 1
    }
}

/// Writes a number in digits, filled up with zeros to the given width.
pub fn push_zero_filled(text: &mut String, n: u64, width: usize)
    ensures
        final(text)@ == old(text)@ + zero_filled(n as nat, width as nat),
{
    let ghost before = text@;
    let count = digits_of(n);
    let mut missing: usize = if count < width as u64 {
        width - count as usize
    } else {
        0
    };
    let ghost gap = missing as int;
    while missing > 0
        invariant
            missing <= gap,
            text@ == before + Seq::new((gap - missing) as nat, |i: int| '0'),
        decreases missing,
    {
        text.push('0');
        missing = missing - 1;
        assert(text@ =~= before + Seq::new((gap - missing) as nat, |i: int| '0'));
    }
    push_decimal(text, n);
    assert(text@ =~= before + zero_filled(n as nat, width as nat));
}

/// Writes a text after another.
pub fn push_text(text: &mut String, more: &str)
    ensures
        final(text)@ == old(text)@ + more@,
{
    let ghost before = text@;
    for letter in written: more.chars()
        invariant
            written.seq() == more@,
            text@ == before + more@.take(written.index() as int),
    {
        let ghost i = written.index() as int;
        text.push(letter);
        assert(text@ =~= before + more@.take(i + 1));
    }
    assert(more@.take(more@.len() as int) =~= more@);
}

/// The digits of a number are as many as it takes, and the first is no zero
/// unless the number is zero.
pub proof fn lemma_decimal(n: nat)
    ensures
        decimal(n).len() >= 1,
        n > 0 ==> decimal(n)[0] != '0',
    decreases n,
{
    if n >= 10 {
        lemma_decimal(n / 10);
    }
}

/// The number that digits stand for.
pub open spec fn number_in(digits: Seq<char>) -> nat
    decreases digits.len(),
{
    if digits.len() == 0 {
        0
    } else {
        number_in(digits.drop_last()) * 10 + digit_value(digits.last())
    }
}

/// The number below ten that a digit stands for.
pub open spec fn digit_value(c: char) -> nat {
    if '0' <= c <= '9' {
        (c as int - '0' as int) as nat
    } else {
        0
    }
}

/// The digits of a number stand for that number.
pub proof fn lemma_decimal_reads_back(n: nat)
    ensures
        number_in(decimal(n)) == n,
    decreases n,
{
    assert(number_in(Seq::<char>::empty()) == 0);
    if n < 10 {
        assert(decimal(n).drop_last() =~= Seq::<char>::empty());
    } else {
        lemma_decimal_reads_back(n / 10);
        assert(decimal(n).drop_last() =~= decimal(n / 10));
    }
}

/// Filled up with zeros, a number still stands for itself, takes up the width asked
/// for at least, and consists of digits only.
pub proof fn lemma_zero_filled_reads_back(n: nat, width: nat)
    ensures
        number_in(zero_filled(n, width)) == n,
        zero_filled(n, width).len() >= width,
        zero_filled(n, width).len() > width ==> zero_filled(n, width) == decimal(n),
        forall|i: int|
            0 <= i < zero_filled(n, width).len() ==> '0' <= (#[trigger] zero_filled(n, width)[i])
                <= '9',
        forall|i: int| 0 <= i < decimal(n).len() ==> '0' <= (#[trigger] decimal(n)[i]) <= '9',
{
    lemma_decimal_reads_back(n);
    lemma_digits_only(n);
    let digits = decimal(n);
    if digits.len() < width {
        lemma_leading_zeros((width - digits.len()) as nat, digits);
        let all = zero_filled(n, width);
        assert forall|i: int| 0 <= i < all.len() implies '0' <= (#[trigger] all[i]) <= '9' by {
            if i >= width - digits.len() {
                assert(all[i] == digits[i - (width - digits.len())]);
            }
        }
    }
}

/// Numbers are written in digits.
proof fn lemma_digits_only(n: nat)
    ensures
        forall|i: int| 0 <= i < decimal(n).len() ==> '0' <= (#[trigger] decimal(n)[i]) <= '9',
    decreases n,
{
    if n >= 10 {
        lemma_digits_only(n / 10);
        let front = decimal(n / 10);
        assert forall|i: int| 0 <= i < decimal(n).len() implies '0' <= (#[trigger] decimal(n)[i])
            <= '9' by {
            if i < front.len() {
                assert(decimal(n)[i] == front[i]);
            }
        }
    }
}

/// Zeros in front do not change a number.
proof fn lemma_leading_zeros(zeros: nat, digits: Seq<char>)
    ensures
        number_in(Seq::new(zeros, |i: int| '0') + digits) == number_in(digits),
    decreases zeros + digits.len(),
{
    let front = Seq::new(zeros, |i: int| '0');
    let all = front + digits;
    if digits.len() > 0 {
        lemma_leading_zeros(zeros, digits.drop_last());
        assert(all.drop_last() =~= front + digits.drop_last());
        assert(all.last() == digits.last());
    } else if zeros > 0 {
        lemma_leading_zeros((zeros - 1) as nat, digits);
        assert(all.drop_last() =~= Seq::new((zeros - 1) as nat, |i: int| '0') + digits);
        assert(all.last() == '0');
    } else {
        assert(all =~= digits);
    }
}

/// Styles say what they are called, and nothing more.
pub proof fn lemma_styles(color: Color)
    ensures
        plain().fg is None && plain().bg is None && !plain().bold && !plain().reversed,
        tinted(color).fg == Some(color) && tinted(color).bg is None && !tinted(color).bold
            && !tinted(color).reversed,
        bold(color).fg == Some(color) && bold(color).bg is None && bold(color).bold && !bold(
            color,
        ).reversed,
{
}

} // verus!
