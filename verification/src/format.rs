//! Tabular output: each entry padded to a display width, entries laid out
//! in rows separated by a separator character, with optional blank lines
//! every few rows.
use vstd::prelude::*;

use crate::error::{PinyinSortError, Result};
use crate::text::{chars_of, join, join_strings, push_char, push_repeated, push_str, repeat_char, views};

verus! {

/// Where an entry sits within its padded cell.
#[derive(Copy, Clone, Debug, Default, PartialEq, Eq)]
pub enum Align {
    Left,
    #[default]
    Center,
    Right,
    /// Padding spread evenly before, between and after the characters.
    Even,
}

/// Output layout options.
#[derive(Copy, Clone, Debug, PartialEq, Eq)]
pub struct FormatConfig {
    /// Entries per row; must be greater than 0.
    pub columns_per_row: usize,
    /// Insert a blank line after every `n` rows (`None` or `Some(0)`: never).
    pub blank_per: Option<usize>,
    /// Target display width of each entry; must be greater than 0.
    pub entry_width: usize,
    pub align: Align,
    /// Padding character; must have display width 1.
    pub padding_char: char,
    /// Separator between the entries of a row.
    pub separator: char,
    /// Character ending each line.
    pub line_ending: char,
}

/// The default layout: six centered entries of width 4 per row, separated
/// by tabs, a blank line after every seventh row.
pub open spec fn default_format() -> FormatConfig {
    FormatConfig {
        columns_per_row: 6,
        blank_per: Some(7),
        entry_width: 4,
        align: Align::Center,
        padding_char: ' ',
        separator: '\t',
        line_ending: '\n',
    }
}

impl Default for FormatConfig {
    fn default() -> (c: Self)
        ensures
            c == default_format(),
    {
        FormatConfig {
            columns_per_row: 6,
            blank_per: Some(7),
            entry_width: 4,
            align: Align::Center,
            padding_char: ' ',
            separator: '\t',
            line_ending: '\n',
        }
    }
}

/// The display width of a string in terminal columns, as the
/// `unicode-width` crate measures it (`UnicodeWidthStr::width`).
pub uninterp spec fn str_display_width(s: Seq<char>) -> nat;

/// The display width of a character, or `None` for a control character, as
/// the `unicode-width` crate measures it (`UnicodeWidthChar::width`).
pub uninterp spec fn char_display_width(c: char) -> Option<usize>;

/// `UnicodeWidthStr::width`: the display width of `s`, which the crate
/// computes from Unicode tables and the context of neighbouring characters.
/// Stated: the result is the named width of `s`; the empty string has width
/// 0 (the crate folds over no characters); a string of printable ASCII
/// (`U+0020` to `U+007E`) is one column per character (each such character
/// counts 1 and leaves the context unchanged). Nothing else is stated.
#[verifier::external_body]
fn display_width_of_str(s: &str) -> (w: usize)
    ensures
        w as nat == str_display_width(s@),
        s@.len() == 0 ==> w == 0,
        (forall|i: int| 0 <= i < s@.len() ==> '\u{20}' <= #[trigger] s@[i] < '\u{7f}') ==> w == s@.len(),
{
    unicode_width::UnicodeWidthStr::width(s)
}

/// `UnicodeWidthChar::width`: the display width of `c`. Stated, as the
/// crate's source shows: printable ASCII (`U+0020` to `U+007E`) has width
/// 1, and the control codes below `U+0020` and from `U+007F` to `U+009F`
/// have none. Other characters go by the crate's tables, which are named,
/// not stated.
#[verifier::external_body]
fn display_width_of_char(c: char) -> (w: Option<usize>)
    ensures
        w == char_display_width(c),
        '\u{20}' <= c < '\u{7f}' ==> w == Some(1usize),
        c < '\u{20}' || ('\u{7f}' <= c < '\u{a0}') ==> w is None,
{
    unicode_width::UnicodeWidthChar::width(c)
}

/// Why a layout cannot be used, given the display width of its padding
/// character, if it cannot.
pub open spec fn format_problem(config: FormatConfig, padding_width: Option<usize>) -> Option<Seq<char>> {
    if config.columns_per_row == 0 {
        Some("--columns must be greater than 0"@)
    } else if config.entry_width == 0 {
        Some("--entry-width must be greater than 0"@)
    } else if padding_width != Some(1usize) {
        Some("--padding-char must have display width 1"@)
    } else {
        None
    }
}

/// What checking a layout gives: the layout itself, or an
/// `InvalidArgument` error carrying the problem.
pub open spec fn checked_format(r: Result<FormatConfig>, config: FormatConfig, padding_width: Option<usize>) -> bool {
    &&& r is Ok <==> format_problem(config, padding_width) is None
    &&& r matches Ok(c) ==> c == config
    &&& r matches Err(e) ==> e matches PinyinSortError::InvalidArgument(m) && format_problem(
        config,
        padding_width,
    ) == Some(m@)
}

impl FormatConfig {
    /// Checks the layout: columns and entry width must be greater than 0
    /// and the padding character must have display width 1.
    pub fn validate(self) -> (r: Result<Self>)
        ensures
            checked_format(r, self, char_display_width(self.padding_char)),
    {
        let padding_width = display_width_of_char(self.padding_char);
        self.validate_with_padding_width(padding_width)
    }

    /// Checks the layout, given the display width of its padding character.
    pub fn validate_with_padding_width(self, padding_width: Option<usize>) -> (r: Result<Self>)
        ensures
            checked_format(r, self, padding_width),
    {
        if self.columns_per_row == 0 {
            let m = "--columns must be greater than 0".to_owned();
            return Err(PinyinSortError::InvalidArgument(m));
        }
        if self.entry_width == 0 {
            let m = "--entry-width must be greater than 0".to_owned();
            return Err(PinyinSortError::InvalidArgument(m));
        }
        let width_is_one = match padding_width {
            Some(w) => w == 1,
            None => false,
        };
        if !width_is_one {
            let m = "--padding-char must have display width 1".to_owned();
            return Err(PinyinSortError::InvalidArgument(m));
        }
        Ok(self)
    }
}

/// `item` centered in `total` padding characters: the smaller half before
/// it, the larger after.
pub open spec fn centered(item: Seq<char>, total: nat, pad: char) -> Seq<char> {
    repeat_char(pad, total / 2) + item + repeat_char(pad, (total - total / 2) as nat)
}

/// How many padding characters go in slot `k` (`0` before the first
/// character, `n` after the last, the others between characters) when
/// `total` padding characters are spread over the `n + 1` slots of an
/// `n`-character entry: every slot gets the same share, and the remainder
/// goes one each to the inner slots from the left, then to the leading
/// slot.
pub open spec fn even_slot(n: nat, total: nat, k: int) -> nat {
    let base = total / (n + 1);
    let rem = total % (n + 1);
    if (1 <= k < n && k <= rem) || (k == 0 && rem >= n) {
        base + 1
    } else {
        base
    }
}

/// The characters of `chars` from `k` on, each followed by its slot of
/// padding.
pub open spec fn even_tail(chars: Seq<char>, total: nat, pad: char, k: int) -> Seq<char>
    decreases chars.len() - k,
{
    if k < 0 || k >= chars.len() {
        Seq::empty()
    } else {
        seq![chars[k]] + repeat_char(pad, even_slot(chars.len(), total, k + 1)) + even_tail(
            chars,
            total,
            pad,
            k + 1,
        )
    }
}

/// `item` with `total` padding characters spread evenly before, between
/// and after its characters; an entry of fewer than two characters is
/// centered.
pub open spec fn even_spread(item: Seq<char>, total: nat, pad: char) -> Seq<char> {
    if item.len() < 2 {
        centered(item, total, pad)
    } else {
        repeat_char(pad, even_slot(item.len(), total, 0)) + even_tail(item, total, pad, 0)
    }
}

/// The cell of an entry of display width `item_width`: the entry itself
/// when it is at least as wide as the target, else the entry with
/// `entry_width - item_width` padding characters placed by the alignment.
pub open spec fn padded_cell(item: Seq<char>, item_width: nat, config: FormatConfig) -> Seq<char> {
    if item_width >= config.entry_width {
        item
    } else {
        let total = (config.entry_width - item_width) as nat;
        match config.align {
            Align::Left => item + repeat_char(config.padding_char, total),
            Align::Right => repeat_char(config.padding_char, total) + item,
            Align::Center => centered(item, total, config.padding_char),
            Align::Even => even_spread(item, total, config.padding_char),
        }
    }
}

/// `width` copies of `padding_char`.
fn padding(width: usize, padding_char: char) -> (s: String)
    ensures
        s@ == repeat_char(padding_char, width as nat),
{
    let mut s = String::new();
    push_repeated(&mut s, padding_char, width);
    assert(s@ =~= repeat_char(padding_char, width as nat));
    s
}

/// The padding in slot `k` of an `n`-character entry whose `total`
/// padding divides into `base` per slot and `rem` left over.
fn slot_width(n: usize, base: usize, rem: usize, k: usize) -> (w: usize)
    requires
        base < usize::MAX,
    ensures
        w == (if (1 <= k < n && k <= rem) || (k == 0 && rem >= n) {
            base + 1
        } else {
            base as int
        }),
{
    if (1 <= k && k < n && k <= rem) || (k == 0 && rem >= n) {
        base + 1
    } else {
        base
    }
}

/// `item` with `total_padding` padding characters spread by
/// [`even_spread`].
fn format_even(item: &str, total_padding: usize, padding_char: char) -> (s: String)
    ensures
        s@ == even_spread(item@, total_padding as nat, padding_char),
{
    let chars = chars_of(item);
    if chars.len() < 2 {
        let left = total_padding / 2;
        let right = total_padding - left;
        let mut out = padding(left, padding_char);
        push_str(&mut out, item);
        push_repeated(&mut out, padding_char, right);
        assert(out@ =~= centered(item@, total_padding as nat, padding_char));
        return out;
    }
    let n = chars.len();
    let ghost total = total_padding as nat;
    let (base, rem) = if n < usize::MAX {
        (total_padding / (n + 1), total_padding % (n + 1))
    } else {
        (0, total_padding)
    };
    proof {
        let d = (n + 1) as int;
        let t = total_padding as int;
        if n == usize::MAX {
            vstd::arithmetic::div_mod::lemma_fundamental_div_mod_converse(t, d, 0, t);
        }
        vstd::arithmetic::div_mod::lemma_mod_bound(t, d);
        vstd::arithmetic::div_mod::lemma_div_nonincreasing(t, d);
        vstd::arithmetic::div_mod::lemma_fundamental_div_mod(t, d);
        assert(base < usize::MAX) by (nonlinear_arith)
            requires
                t == d * base + rem,
                d >= 3,
                rem >= 0,
                t <= usize::MAX,
                base >= 0,
        ;
    }
    let first = slot_width(n, base, rem, 0);
    let mut out = padding(first, padding_char);
    let ghost full = even_spread(item@, total, padding_char);
    assert(full =~= out@ + even_tail(item@, total, padding_char, 0));
    let mut k: usize = 0;
    while k < n
        invariant
            k <= n,
            n == chars@.len(),
            n >= 2,
            chars@ == item@,
            base == total / ((n + 1) as nat),
            rem == total % ((n + 1) as nat),
            rem <= n,
            base < usize::MAX,
            full == even_spread(item@, total, padding_char),
            full == out@ + even_tail(item@, total, padding_char, k as int),
        decreases n - k,
    {
        push_char(&mut out, chars[k]);
        let w = slot_width(n, base, rem, k + 1);
        assert(w == even_slot(n as nat, total, k + 1));
        push_repeated(&mut out, padding_char, w);
        assert(full =~= out@ + even_tail(item@, total, padding_char, k + 1));
        k += 1;
    }
    assert(even_tail(item@, total, padding_char, n as int) =~= Seq::<char>::empty());
    assert(full =~= out@);
    out
}

/// The cell of `item` given its display width.
pub fn pad_cell(item: &str, item_width: usize, config: &FormatConfig) -> (s: String)
    ensures
        s@ == padded_cell(item@, item_width as nat, *config),
{
    if item_width >= config.entry_width {
        return item.to_owned();
    }
    let total = config.entry_width - item_width;
    match config.align {
        Align::Left => {
            let mut s = item.to_owned();
            push_repeated(&mut s, config.padding_char, total);
            s
        },
        Align::Right => {
            let mut s = padding(total, config.padding_char);
            push_str(&mut s, item);
            s
        },
        Align::Center => {
            let left = total / 2;
            let right = total - left;
            let mut s = padding(left, config.padding_char);
            push_str(&mut s, item);
            push_repeated(&mut s, config.padding_char, right);
            assert(s@ =~= centered(item@, total as nat, config.padding_char));
            s
        },
        Align::Even => format_even(item, total, config.padding_char),
    }
}

/// The cell of `item`: padded to the entry width by its display width.
pub fn format_cell(item: &str, format_config: &FormatConfig) -> (s: String)
    ensures
        s@ == padded_cell(item@, str_display_width(item@), *format_config),
{
    let width = display_width_of_str(item);
    pad_cell(item, width, format_config)
}

/// The cell of an entry, padded by its display width.
pub open spec fn cell_of(item: Seq<char>, config: FormatConfig) -> Seq<char> {
    padded_cell(item, str_display_width(item), config)
}

/// A blank line follows row `row` (counted from 0) when `blank_per` is a
/// positive `n` and the row count so far is a multiple of `n`.
pub open spec fn blank_after(config: FormatConfig, row: nat) -> bool {
    match config.blank_per {
        Some(n) => n > 0 && (row + 1) % (n as nat) == 0,
        None => false,
    }
}

/// The lines of one row: its cells joined by the separator, then a blank
/// line if one is due.
pub open spec fn row_lines(cells: Seq<Seq<char>>, row: nat, config: FormatConfig) -> Seq<Seq<char>> {
    seq![join(cells, seq![config.separator])] + if blank_after(config, row) {
        seq![Seq::<char>::empty()]
    } else {
        Seq::empty()
    }
}

/// The lines of `cells` laid out `columns_per_row` to a row, the first row
/// numbered `row`.
pub open spec fn lines_from(cells: Seq<Seq<char>>, row: nat, config: FormatConfig) -> Seq<Seq<char>>
    decreases cells.len(),
{
    if cells.len() == 0 || config.columns_per_row == 0 {
        Seq::empty()
    } else {
        let m = if cells.len() < config.columns_per_row {
            cells.len()
        } else {
            config.columns_per_row as nat
        };
        row_lines(cells.take(m as int), row, config) + lines_from(
            cells.skip(m as int),
            row + 1,
            config,
        )
    }
}

/// The formatted output for `items`: nothing for no items, else the lines
/// of their cells joined by the line ending.
pub open spec fn formatted_items(items: Seq<Seq<char>>, config: FormatConfig) -> Seq<char> {
    if items.len() == 0 {
        Seq::empty()
    } else {
        join(
            lines_from(items.map_values(|item: Seq<char>| cell_of(item, config)), 0, config),
            seq![config.line_ending],
        )
    }
}

/// Formats `items` as rows of padded cells.
pub fn format_items(items: &[String], format_config: &FormatConfig) -> (s: String)
    requires
        items@.len() > 0 ==> format_config.columns_per_row > 0,
    ensures
        s@ == formatted_items(views(items@), *format_config),
{
    if items.len() == 0 {
        return String::new();
    }
    let ghost config = *format_config;
    let ghost wanted = views(items@).map_values(|item: Seq<char>| cell_of(item, config));
    let mut cells: Vec<String> = Vec::new();
    let mut i: usize = 0;
    while i < items.len()
        invariant
            i <= items.len(),
            config == *format_config,
            wanted == views(items@).map_values(|item: Seq<char>| cell_of(item, config)),
            views(cells@) == wanted.take(i as int),
        decreases items.len() - i,
    {
        let cell = format_cell(items[i].as_str(), format_config);
        let ghost before = cells@;
        cells.push(cell);
        assert(views(cells@) =~= views(before).push(wanted[i as int]));
        i += 1;
        assert(wanted.take(i as int) =~= wanted.take(i - 1).push(wanted[i - 1]));
    }
    assert(wanted.take(i as int) =~= wanted);
    let mut sep = String::new();
    push_char(&mut sep, format_config.separator);
    let cols = format_config.columns_per_row;
    let mut lines: Vec<String> = Vec::new();
    let mut start: usize = 0;
    let mut row: usize = 0;
    assert(wanted.skip(0) =~= wanted);
    assert(views(lines@) + lines_from(wanted, 0, config) =~= lines_from(wanted, 0, config));
    while start < cells.len()
        invariant
            start <= cells.len(),
            row <= start,
            cols == config.columns_per_row,
            cols > 0,
            config == *format_config,
            sep@ == seq![config.separator],
            views(cells@) == wanted,
            views(lines@) + lines_from(wanted.skip(start as int), row as nat, config) == lines_from(
                wanted,
                0,
                config,
            ),
        decreases cells.len() - start,
    {
        let end = if cells.len() - start < cols {
            cells.len()
        } else {
            start + cols
        };
        let ghost rest = wanted.skip(start as int);
        let ghost m = (end - start) as int;
        let row_cells = vstd::slice::slice_subrange(cells.as_slice(), start, end);
        assert(views(row_cells@) =~= rest.take(m));
        let line = join_strings(row_cells, sep.as_str());
        let ghost before = views(lines@);
        lines.push(line);
        let blank = match format_config.blank_per {
            Some(n) => n > 0 && (row + 1) % n == 0,
            None => false,
        };
        if blank {
            lines.push(String::new());
        }
        assert(views(lines@) =~= before + row_lines(rest.take(m), row as nat, config));
        assert(rest.skip(m) =~= wanted.skip(end as int));
        assert(lines_from(rest, row as nat, config) == row_lines(rest.take(m), row as nat, config)
            + lines_from(rest.skip(m), (row + 1) as nat, config));
        assert(views(lines@) + lines_from(wanted.skip(end as int), (row + 1) as nat, config) =~= before
            + lines_from(rest, row as nat, config));
        start = end;
        row += 1;
    }
    assert(wanted.skip(start as int) =~= Seq::<Seq<char>>::empty());
    assert(views(lines@) =~= lines_from(wanted, 0, config));
    let mut line_ending = String::new();
    push_char(&mut line_ending, format_config.line_ending);
    join_strings(lines.as_slice(), line_ending.as_str())
}

/// The padding after characters `k + 1` to `n` of an `n`-character entry
/// (slots `k + 1` to `n`).
pub open spec fn tail_padding(n: nat, total: nat, k: int) -> int
    decreases n - k,
{
    if k < 0 || k >= n {
        0
    } else {
        even_slot(n, total, k + 1) + tail_padding(n, total, k + 1)
    }
}

proof fn lemma_even_tail_length(chars: Seq<char>, total: nat, pad: char, k: int)
    requires
        0 <= k <= chars.len(),
    ensures
        even_tail(chars, total, pad, k).len() == (chars.len() - k) + tail_padding(chars.len(), total, k),
    decreases chars.len() - k,
{
    if k < chars.len() {
        lemma_even_tail_length(chars, total, pad, k + 1);
    }
}

/// The inner slots after slot `k` that get one of the remainder's
/// padding characters.
pub open spec fn inner_extra(n: nat, total: nat, k: int) -> int {
    let rem = total % (n + 1);
    let m = if rem < n {
        rem as int
    } else {
        n - 1
    };
    if m - k > 0 {
        m - k
    } else {
        0
    }
}

proof fn lemma_tail_padding_sum(n: nat, total: nat, k: int)
    requires
        n >= 2,
        0 <= k <= n,
    ensures
        tail_padding(n, total, k) == (n - k) * (total / (n + 1)) + inner_extra(n, total, k),
    decreases n - k,
{
    let base = total / (n + 1);
    let rem = total % (n + 1);
    if k < n {
        lemma_tail_padding_sum(n, total, k + 1);
        assert((n - k) * base == (n - k - 1) * base + base) by (nonlinear_arith);
        assert(tail_padding(n, total, k) == even_slot(n, total, k + 1) + tail_padding(n, total, k + 1));
        if k + 1 < n && k + 1 <= rem {
            assert(even_slot(n, total, k + 1) == base + 1);
        } else {
            assert(even_slot(n, total, k + 1) == base);
        }
    } else {
        assert((n - k) * base == 0) by (nonlinear_arith)
            requires
                n - k == 0,
        ;
    }
}

/// A cell narrower than the target width gains exactly the missing width
/// in padding characters, whatever the alignment; a cell at least as wide
/// as the target is the entry itself.
pub proof fn lemma_padded_cell_length(item: Seq<char>, item_width: nat, config: FormatConfig)
    ensures
        padded_cell(item, item_width, config).len() == if item_width >= config.entry_width {
            item.len() as int
        } else {
            item.len() + config.entry_width - item_width
        },
{
    if item_width < config.entry_width {
        let total = (config.entry_width - item_width) as nat;
        if config.align == Align::Even && item.len() >= 2 {
            let n = item.len();
            let base = total / (n + 1);
            let rem = total % (n + 1);
            lemma_even_tail_length(item, total, config.padding_char, 0);
            lemma_tail_padding_sum(n, total, 0);
            vstd::arithmetic::div_mod::lemma_fundamental_div_mod(total as int, (n + 1) as int);
            vstd::arithmetic::div_mod::lemma_mod_bound(total as int, (n + 1) as int);
            assert(n * base + base == (n + 1) * base) by (nonlinear_arith);
        }
    }
}

} // verus!
