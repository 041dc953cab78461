//! How many terminal rows a text takes once wrapped to a given width.
use vstd::prelude::*;
use unicode_width::UnicodeWidthStr;

verus! {

/// The lines of a text, as `str::lines` splits it.
pub uninterp spec fn lines_of(s: Seq<char>) -> Seq<Seq<char>>;

/// The display width of a text, as `UnicodeWidthStr::width` measures it.
pub uninterp spec fn width_of(s: Seq<char>) -> nat;

/// Relies on `str::lines`: the text split at line endings.
#[verifier::external_body]
fn split_lines(s: &str) -> (r: Vec<String>)
    ensures
        r@.map_values(|l: String| l@) == lines_of(s@),
{
    s.lines().map(|l| l.to_string()).collect()
}

/// Relies on `UnicodeWidthStr::width`: the columns the text occupies.
#[verifier::external_body]
fn display_width(s: &str) -> (r: usize)
    ensures
        r as nat == width_of(s@),
{
    UnicodeWidthStr::width(s)
}

/// Rows a line of `w` columns takes in `max` columns: at least one.
pub open spec fn line_rows(w: nat, max: nat) -> nat {
    if w == 0 {
        1
    } else {
        ((w - 1) as nat / max + 1) as nat
    }
}

/// Rows all lines of widths `ws` take in `max` columns.
pub open spec fn rows_total(ws: Seq<nat>, max: nat) -> nat
    decreases ws.len(),
{
    if ws.len() == 0 {
        0
    } else {
        rows_total(ws.drop_last(), max) + line_rows(ws.last(), max)
    }
}

pub open spec fn min_nat(a: nat, b: nat) -> nat {
    if a < b {
        a
    } else {
        b
    }
}

pub open spec fn widths_of(lines: Seq<Seq<char>>) -> Seq<nat> {
    lines.map_values(|l: Seq<char>| width_of(l))
}

/// Rows that lines of widths `widths` take in `max_width` columns, capped at
/// `u16::MAX`.
pub fn wrapped_height(widths: &Vec<usize>, max_width: u16) -> (r: u16)
    requires
        max_width > 0,
    ensures
        r as nat == min_nat(
            rows_total(widths@.map_values(|w: usize| w as nat), max_width as nat),
            u16::MAX as nat,
        ),
{
    let ghost ws = widths@.map_values(|w: usize| w as nat);
    let n = widths.len();
    let mut height: u16 = 0;
    let mut i: usize = 0;
    assert(ws.take(0) =~= Seq::<nat>::empty());
    while i < n
        invariant
            n == widths@.len(),
            ws == widths@.map_values(|w: usize| w as nat),
            max_width > 0,
            i <= n,
            height as nat == min_nat(rows_total(ws.take(i as int), max_width as nat), u16::MAX as nat),
        decreases n - i,
    {
        let w = widths[i];
        let rows: usize = if w == 0 {
            1
        } else {
            (w - 1) / (max_width as usize) + 1
        };
        assert(ws.take(i + 1).drop_last() =~= ws.take(i as int));
        assert(ws.take(i + 1).last() == w as nat);
        assert(rows as nat == line_rows(w as nat, max_width as nat));
        if (u16::MAX - height) as usize <= rows {
            height = u16::MAX;
        } else {
            height = height + rows as u16;
        }
        i = i + 1;
    }
    assert(ws.take(n as int) =~= ws);
    height
}

/// Rows `text` takes once each of its lines is wrapped to `max_width`
/// columns, capped at `u16::MAX`.
pub fn calculate_wrapped_height(text: &str, max_width: u16) -> (r: u16)
    requires
        max_width > 0,
    ensures
        r as nat == min_nat(rows_total(widths_of(lines_of(text@)), max_width as nat), u16::MAX as nat),
{
    let lines = split_lines(text);
    let ghost lv = lines@.map_values(|l: String| l@);
    let mut widths: Vec<usize> = Vec::new();
    let n = lines.len();
    let mut i: usize = 0;
    while i < n
        invariant
            n == lines@.len(),
            lv == lines@.map_values(|l: String| l@),
            i <= n,
            widths@.len() == i,
            forall|j: int| 0 <= j < i ==> (#[trigger] widths@[j]) as nat == width_of(lv[j]),
        decreases n - i,
    {
        widths.push(display_width(lines[i].as_str()));
        i = i + 1;
    }
    assert(widths@.map_values(|w: usize| w as nat) =~= widths_of(lv));
    wrapped_height(&widths, max_width)
}

} // verus!
