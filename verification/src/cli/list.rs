//! `list`: every connected output and its stable identity.
//!
//! Read-only. This is the command that tells what to put in the config file, and
//! that shows how a target id stays put when its display is switched off, where
//! the EDID-based identifiers go blank.

use vstd::prelude::*;
use vstd::string::*;

use crate::config::Config;
use crate::display::ccd::{connector, output_technology_name, Luid};
use crate::display::identity::{Monitor, Refresh};
use crate::seqs::{
    first_where, lemma_first_where, lemma_first_where_is, lemma_slots_where, slots_where,
};
use crate::text::{
    cat2, cat3, cat4, chars_of, decimal, decimal_text, digits_value, hex, hex_text, join,
    law_hex_reads_back, law_signed_decimal_reads_back, lemma_decimal_reads_back, lemma_hex_width,
    lemma_split_join, same_text, signed_decimal, signed_decimal_text, signed_value, sixteen_to, split,
    texts, trim_end, trimmed_end, whitespace,
};
use crate::winerr::opt_text;

verus! {

// ---------------------------------------------------------------------------
// The table
// ---------------------------------------------------------------------------

/// The greater of two numbers.
pub open spec fn greater(a: nat, b: nat) -> nat {
    if a < b {
        b
    } else {
        a
    }
}

/// The cells of some rows, each as text.
pub open spec fn cells_of(rows: Seq<[String; 8]>) -> Seq<Seq<Seq<char>>> {
    rows.map_values(|row: [String; 8]| texts(row@))
}

/// The headers, each as text.
pub open spec fn headers_of(headers: Seq<&str>) -> Seq<Seq<char>> {
    headers.map_values(|h: &str| h@)
}

/// How many characters wide a column is: as wide as its widest cell. Characters
/// count, not bytes: a monitor's name is whatever the panel calls itself.
pub open spec fn width_of(headers: Seq<Seq<char>>, rows: Seq<Seq<Seq<char>>>, col: int) -> nat
    decreases rows.len(),
{
    if rows.len() == 0 {
        headers[col].len()
    } else {
        greater(width_of(headers, rows.drop_last(), col), rows.last()[col].len())
    }
}

/// The widths of the columns.
pub open spec fn widths_of(headers: Seq<Seq<char>>, rows: Seq<Seq<Seq<char>>>) -> Seq<nat> {
    Seq::new(8, |col: int| width_of(headers, rows, col))
}

/// So many spaces.
pub open spec fn spaces(n: nat) -> Seq<char> {
    Seq::new(n, |i: int| ' ')
}

/// A cell filled up with spaces to a width.
pub open spec fn filled(cell: Seq<char>, width: nat) -> Seq<char> {
    cell + spaces(if width > cell.len() {
        (width - cell.len()) as nat
    } else {
        0
    })
}

/// The first so many cells of a row, each filled up to its column's width and
/// followed by two spaces; but the last column is not filled up.
pub open spec fn cells_text(cells: Seq<Seq<char>>, widths: Seq<nat>, n: int) -> Seq<char>
    decreases n,
{
    if n <= 0 {
        Seq::empty()
    } else if n == 8 {
        cells_text(cells, widths, 7) + cells[7]
    } else {
        cells_text(cells, widths, n - 1) + (filled(cells[n - 1], widths[n - 1]) + spaces(2))
    }
}

/// A row of a table, which carries no invisible white space at its end.
pub open spec fn row_line(cells: Seq<Seq<char>>, widths: Seq<nat>) -> Seq<char> {
    trim_end(cells_text(cells, widths, 8))
}

/// The lines of a table, header first.
pub open spec fn table(headers: Seq<Seq<char>>, rows: Seq<Seq<Seq<char>>>) -> Seq<Seq<char>> {
    let widths = widths_of(headers, rows);
    seq![row_line(headers, widths)] + rows.map_values(
        |cells: Seq<Seq<char>>| row_line(cells, widths),
    )
}

// How many characters a string has.
fn char_count(s: &str) -> (n: usize)
    ensures
        n == s@.len(),
{
    chars_of(s).len()
}

// Fill a string up with spaces, and put a number more of them behind it.
fn push_filled(out: &mut String, cell: &str, width: usize)
    ensures
        final(out)@ == old(out)@ + (filled(cell@, width as nat) + spaces(2)),
{
    let ghost start = out@;
    out.append(cell);
    let n = char_count(cell);
    let mut at: usize = n;
    assert(out@ =~= start + (cell@ + spaces(0)));
    while at < width
        invariant
            n == cell@.len(),
            n <= at,
            at <= width || at == n,
            out@ == start + (cell@ + spaces((at - n) as nat)),
        decreases width - at,
    {
        out.push(' ');
        assert(spaces((at + 1 - n) as nat) =~= spaces((at - n) as nat).push(' '));
        assert(out@ =~= start + (cell@ + spaces((at + 1 - n) as nat)));
        at += 1;
    }
    assert(out@ =~= start + filled(cell@, width as nat));
    out.push(' ');
    out.push(' ');
    assert(out@ =~= start + (filled(cell@, width as nat) + spaces(2)));
}

// A row of a table.
fn line_of(cells: &[String; 8], widths: &Vec<usize>) -> (r: String)
    requires
        widths@.len() == 8,
    ensures
        r@ == row_line(texts(cells@), widths@.map_values(|w: usize| w as nat)),
{
    let ghost ws = widths@.map_values(|w: usize| w as nat);
    let ghost texts_ = texts(cells@);
    let mut out = String::new();
    assert(out@ =~= cells_text(texts_, ws, 0));
    for i in 0..7
        invariant
            widths@.len() == 8,
            ws == widths@.map_values(|w: usize| w as nat),
            texts_ == texts(cells@),
            out@ == cells_text(texts_, ws, i as int),
    {
        push_filled(&mut out, cells[i].as_str(), widths[i]);
    }
    out.append(cells[7].as_str());
    trimmed_end(out.as_str())
}

/// The table as lines, header first.
pub fn render_table(headers: &[&str; 8], rows: &[[String; 8]]) -> (r: Vec<String>)
    ensures
        texts(r@) == table(headers_of(headers@), cells_of(rows@)),
{
    let ghost hs = headers_of(headers@);
    let ghost all = cells_of(rows@);
    let mut widths: Vec<usize> = Vec::new();
    for col in 0..8usize
        invariant
            hs == headers_of(headers@),
            all == cells_of(rows@),
            widths@.len() == col,
            forall|c: int| 0 <= c < col ==> #[trigger] widths@[c] == width_of(hs, all, c),
    {
        let mut width: usize = char_count(headers[col]);
        assert(all.take(0) =~= Seq::empty());
        for i in 0..rows.len()
            invariant
                hs == headers_of(headers@),
                all == cells_of(rows@),
                col < 8,
                width == width_of(hs, all.take(i as int), col as int),
        {
            assert(all.take(i + 1).drop_last() =~= all.take(i as int));
            assert(all.take(i + 1).last() == texts(rows@[i as int]@));
            let n = char_count(rows[i][col].as_str());
            if width < n {
                width = n;
            }
        }
        assert(all.take(rows@.len() as int) =~= all);
        widths.push(width);
    }
    assert(widths@.map_values(|w: usize| w as nat) =~= widths_of(hs, all));
    let top: [String; 8] = [
        headers[0].to_owned(),
        headers[1].to_owned(),
        headers[2].to_owned(),
        headers[3].to_owned(),
        headers[4].to_owned(),
        headers[5].to_owned(),
        headers[6].to_owned(),
        headers[7].to_owned(),
    ];
    assert(texts(top@) =~= hs);
    let mut out: Vec<String> = Vec::new();
    out.push(line_of(&top, &widths));
    let ghost expected = table(hs, all);
    assert(texts(out@) =~= expected.take(1));
    for i in 0..rows.len()
        invariant
            widths@.len() == 8,
            widths@.map_values(|w: usize| w as nat) == widths_of(hs, all),
            all == cells_of(rows@),
            expected == table(hs, all),
            texts(out@) == expected.take(i + 1),
    {
        let line = line_of(&rows[i], &widths);
        let ghost before = out@;
        out.push(line);
        assert(texts(out@) =~= texts(before).push(line@));
        assert(expected.take(i + 2) =~= expected.take(i + 1).push(expected[i + 1]));
    }
    assert(expected.take(rows@.len() as int + 1) =~= expected);
    out
}

// A text ends in nothing invisible once that is taken off, and starts as it did.
proof fn lemma_trim_end(s: Seq<char>)
    ensures
        trim_end(s).len() <= s.len(),
        trim_end(s) == s.take(trim_end(s).len() as int),
        trim_end(s).len() > 0 ==> !whitespace(trim_end(s).last()),
        forall|i: int| trim_end(s).len() <= i < s.len() ==> whitespace(#[trigger] s[i]),
    decreases s.len(),
{
    if s.len() > 0 && whitespace(s.last()) {
        lemma_trim_end(s.drop_last());
        assert(trim_end(s) =~= s.take(trim_end(s).len() as int));
        assert forall|i: int| trim_end(s).len() <= i < s.len() implies whitespace(
            #[trigger] s[i],
        ) by {
            if i < s.len() - 1 {
                assert(s.drop_last()[i] == s[i]);
            }
        }
    } else {
        assert(s.take(s.len() as int) =~= s);
    }
}

/// No line of a table ends in white space.
pub proof fn law_no_trailing_white_space(
    headers: Seq<Seq<char>>,
    rows: Seq<Seq<Seq<char>>>,
    i: int,
)
    requires
        0 <= i < table(headers, rows).len(),
    ensures
        table(headers, rows)[i].len() > 0 ==> !whitespace(table(headers, rows)[i].last()),
{
    let widths = widths_of(headers, rows);
    if i == 0 {
        lemma_trim_end(cells_text(headers, widths, 8));
    } else {
        lemma_trim_end(cells_text(rows[i - 1], widths, 8));
    }
}

/// Where a column starts: behind the columns before it, with two spaces each.
pub open spec fn column_start(widths: Seq<nat>, col: int) -> nat
    decreases col,
{
    if col <= 0 {
        0
    } else {
        column_start(widths, col - 1) + widths[col - 1] + 2
    }
}

// Cells that fit their columns take up what the columns do.
proof fn lemma_cells_len(cells: Seq<Seq<char>>, widths: Seq<nat>, n: int)
    requires
        0 <= n <= 7,
        cells.len() == 8,
        widths.len() == 8,
        forall|c: int| 0 <= c < 8 ==> (#[trigger] cells[c]).len() <= widths[c],
    ensures
        cells_text(cells, widths, n).len() == column_start(widths, n),
    decreases n,
{
    if n > 0 {
        lemma_cells_len(cells, widths, n - 1);
    }
}

// The cells of a row stand one behind the other.
proof fn lemma_cells_prefix(cells: Seq<Seq<char>>, widths: Seq<nat>, m: int, n: int)
    requires
        0 <= m <= n <= 8,
    ensures
        cells_text(cells, widths, m).len() <= cells_text(cells, widths, n).len(),
        cells_text(cells, widths, n).take(cells_text(cells, widths, m).len() as int) == cells_text(
            cells,
            widths,
            m,
        ),
    decreases n - m,
{
    let short = cells_text(cells, widths, m);
    let long = cells_text(cells, widths, n);
    if m < n {
        lemma_cells_prefix(cells, widths, m, n - 1);
        let less = cells_text(cells, widths, n - 1);
        assert(long.take(less.len() as int) =~= less);
        assert(long.take(short.len() as int) =~= less.take(short.len() as int));
    } else {
        assert(long.take(short.len() as int) =~= short);
    }
}

/// Whether every cell of a row fits its column.
pub open spec fn row_fits(cells: Seq<Seq<char>>, widths: Seq<nat>) -> bool {
    &&& cells.len() == 8
    &&& forall|c: int| 0 <= c < 8 ==> (#[trigger] cells[c]).len() <= widths[c]
}

// A cell stands where its column starts.
proof fn lemma_cell_at(cells: Seq<Seq<char>>, widths: Seq<nat>, col: int)
    requires
        0 <= col < 8,
        widths.len() == 8,
        row_fits(cells, widths),
    ensures
        ({
            let text = cells_text(cells, widths, 8);
            let start = column_start(widths, col) as int;
            &&& start + cells[col].len() <= text.len()
            &&& text.subrange(start, start + cells[col].len()) == cells[col]
        }),
{
    let text = cells_text(cells, widths, 8);
    let start = column_start(widths, col) as int;
    lemma_cells_len(cells, widths, col);
    lemma_cells_prefix(cells, widths, col + 1, 8);
    let upto = cells_text(cells, widths, col + 1);
    assert(upto.subrange(start, start + cells[col].len()) =~= cells[col]);
    assert(text.subrange(start, start + cells[col].len()) =~= upto.subrange(
        start,
        start + cells[col].len(),
    )) by {
        assert forall|i: int| start <= i < start + cells[col].len() implies text[i] == upto[i] by {
            assert(text.take(upto.len() as int)[i] == upto[i]);
        }
    }
}

// The widths are wide enough for every cell.
proof fn lemma_widths_fit(headers: Seq<Seq<char>>, rows: Seq<Seq<Seq<char>>>, col: int)
    requires
        0 <= col < 8,
    ensures
        headers[col].len() <= width_of(headers, rows, col),
        forall|r: int|
            0 <= r < rows.len() ==> (#[trigger] rows[r])[col].len() <= width_of(headers, rows, col),
    decreases rows.len(),
{
    if rows.len() > 0 {
        lemma_widths_fit(headers, rows.drop_last(), col);
        assert forall|r: int| 0 <= r < rows.len() implies (#[trigger] rows[r])[col].len()
            <= width_of(headers, rows, col) by {
            if r < rows.len() - 1 {
                assert(rows.drop_last()[r] == rows[r]);
            }
        }
    }
}

/// Every column starts at the same place on every line, header and rows alike: a
/// cell stands there on its line, as far as the line goes; and a line goes at
/// least as far as the last of its cells that ends in something visible.
pub proof fn law_columns_line_up(
    headers: Seq<Seq<char>>,
    rows: Seq<Seq<Seq<char>>>,
    i: int,
    col: int,
)
    requires
        headers.len() == 8,
        forall|r: int| 0 <= r < rows.len() ==> (#[trigger] rows[r]).len() == 8,
        0 <= i <= rows.len(),
        0 <= col < 8,
    ensures
        ({
            let cells = if i == 0 {
                headers
            } else {
                rows[i - 1]
            };
            let line = table(headers, rows)[i];
            let start = column_start(widths_of(headers, rows), col) as int;
            &&& forall|k: int|
                start <= k < start + cells[col].len() && k < line.len() ==> #[trigger] line[k]
                    == cells[col][k - start]
            &&& cells[col].len() > 0 && !whitespace(cells[col].last()) ==> line.len() >= start
                + cells[col].len()
        }),
{
    let widths = widths_of(headers, rows);
    let cells = if i == 0 {
        headers
    } else {
        rows[i - 1]
    };
    assert forall|c: int| 0 <= c < 8 implies (#[trigger] cells[c]).len() <= widths[c] by {
        lemma_widths_fit(headers, rows, c);
    }
    let text = cells_text(cells, widths, 8);
    let line = row_line(cells, widths);
    let start = column_start(widths, col) as int;
    assert(table(headers, rows)[i] == line);
    lemma_cell_at(cells, widths, col);
    lemma_trim_end(text);
    assert forall|k: int|
        start <= k < start + cells[col].len() && k < line.len() implies #[trigger] line[k]
        == cells[col][k - start] by {
        assert(text.subrange(start, start + cells[col].len())[k - start] == text[k]);
    }
    if cells[col].len() > 0 && !whitespace(cells[col].last()) {
        let k = start + cells[col].len() - 1;
        assert(text.subrange(start, start + cells[col].len())[k - start] == text[k]);
        if line.len() <= k {
            assert(whitespace(text[k]));
        }
    }
}

// ---------------------------------------------------------------------------
// What the table shows
// ---------------------------------------------------------------------------

/// Outputs that are shown: all of them, or the active ones only.
pub open spec fn is_shown(ms: Seq<Monitor>, active_only: bool) -> spec_fn(int) -> bool {
    |i: int| !active_only || ms[i].active
}

/// Where the outputs that are shown stand.
pub open spec fn shown_places(ms: Seq<Monitor>, active_only: bool) -> Seq<int> {
    slots_where(ms.len(), is_shown(ms, active_only))
}

/// Where the outputs that are shown stand.
pub fn shown(monitors: &[Monitor], active_only: bool) -> (r: Vec<usize>)
    ensures
        r@.map_values(|i: usize| i as int) == shown_places(monitors@, active_only),
        forall|k: int| 0 <= k < r@.len() ==> #[trigger] r@[k] < monitors@.len(),
{
    let mut out: Vec<usize> = Vec::new();
    let ghost meets = is_shown(monitors@, active_only);
    assert(out@.map_values(|i: usize| i as int) =~= slots_where(0, meets));
    for i in 0..monitors.len()
        invariant
            meets == is_shown(monitors@, active_only),
            out@.map_values(|i: usize| i as int) == slots_where(i as nat, meets),
            forall|k: int| 0 <= k < out@.len() ==> #[trigger] out@[k] < i,
    {
        if !active_only || monitors[i].active {
            let ghost before = out@;
            out.push(i);
            assert(out@.map_values(|i: usize| i as int) =~= before.map_values(
                |i: usize| i as int,
            ).push(i as int));
        }
    }
    out
}

/// The adapters of some outputs, each once, in the order of their first mention.
pub open spec fn adapters_of(ms: Seq<Monitor>, places: Seq<int>) -> Seq<Seq<char>>
    decreases places.len(),
{
    if places.len() == 0 {
        Seq::empty()
    } else {
        let earlier = adapters_of(ms, places.drop_last());
        let adapter = ms[places.last()].key.adapter@;
        if earlier.contains(adapter) {
            earlier
        } else {
            earlier.push(adapter)
        }
    }
}

/// Adapters that are a given one.
pub open spec fn is_adapter(adapter: Seq<char>) -> spec_fn(Seq<char>) -> bool {
    |a: Seq<char>| a == adapter
}

/// The short name of an adapter: its number among those that are shown.
pub open spec fn gpu_name(adapters: Seq<Seq<char>>, adapter: Seq<char>) -> Seq<char> {
    let i = first_where(adapters, is_adapter(adapter));
    if i < adapters.len() {
        "gpu"@ + decimal(i as nat)
    } else {
        "?"@
    }
}

/// The mode of an output, with the refresh rate as it is written, if it has one.
pub open spec fn mode_cell(m: Monitor, rate: Option<Seq<char>>) -> Seq<char> {
    match m.mode {
        Some(s) => {
            let size = decimal(s.width as nat) + "x"@ + decimal(s.height as nat);
            match rate {
                Some(hz) => size + " @ "@ + hz,
                None => size,
            }
        },
        None => "-"@,
    }
}

/// Where on the desktop an output is.
pub open spec fn position_cell(m: Monitor) -> Seq<char> {
    match m.mode {
        Some(s) => signed_decimal(s.x as int) + ","@ + signed_decimal(s.y as int),
        None => "-"@,
    }
}

/// The row for an output.
pub open spec fn row_cells(
    m: Monitor,
    config: Config,
    adapters: Seq<Seq<char>>,
    rate: Option<Seq<char>>,
) -> Seq<Seq<char>> {
    seq![
        match config.name_of(m.key@) {
            Some(name) => name,
            None => "-"@,
        },
        if m.active {
            "active"@
        } else {
            "inactive"@
        },
        gpu_name(adapters, m.key.adapter@),
        decimal(m.key.target_id as nat),
        connector(m.name.output_technology),
        mode_cell(m, rate),
        position_cell(m),
        m.name.labelled(),
    ]
}

/// The rows for the outputs that are shown.
pub open spec fn row_list(
    ms: Seq<Monitor>,
    config: Config,
    places: Seq<int>,
    rates: Seq<Option<String>>,
) -> Seq<Seq<Seq<char>>> {
    places.map_values(
        |i: int| row_cells(ms[i], config, adapters_of(ms, places), opt_text(rates[i])),
    )
}

/// What the columns are called.
pub open spec fn column_names() -> Seq<Seq<char>> {
    seq!["NAME"@, "STATE"@, "GPU"@, "TARGET"@, "CONN"@, "MODE"@, "POSITION"@, "MONITOR"@]
}

/// The lines that say which adapter is which.
pub open spec fn legend(adapters: Seq<Seq<char>>) -> Seq<Seq<char>> {
    if adapters.len() == 0 {
        Seq::empty()
    } else {
        seq![Seq::empty()] + Seq::new(
            adapters.len(),
            |i: int| "gpu"@ + decimal(i as nat) + "  "@ + adapters[i],
        )
    }
}

/// What is said where no target has a name yet.
pub open spec fn advice(config: Config) -> Seq<Seq<char>> {
    if config.targets.names().len() == 0 {
        seq![
            "\nNo targets named yet. Arrange your displays in Settings, then run\n  monitor-switcher save-profile <name>\nto record this layout."@,
        ]
    } else {
        Seq::empty()
    }
}

/// What `list` says.
pub open spec fn listing_lines(
    ms: Seq<Monitor>,
    config: Config,
    active_only: bool,
    rates: Seq<Option<String>>,
) -> Seq<Seq<char>> {
    let places = shown_places(ms, active_only);
    table(column_names(), row_list(ms, config, places, rates)) + legend(adapters_of(ms, places))
        + advice(config)
}

// Where an adapter stands among others.
fn adapter_index(adapters: &Vec<String>, adapter: &str) -> (r: Option<usize>)
    ensures
        match r {
            Some(i) => i < adapters@.len() && i == first_where(
                texts(adapters@),
                is_adapter(adapter@),
            ),
            None => first_where(texts(adapters@), is_adapter(adapter@)) >= adapters@.len()
                && !texts(adapters@).contains(adapter@),
        },
{
    for i in 0..adapters.len()
        invariant
            forall|j: int| 0 <= j < i ==> !is_adapter(adapter@)(#[trigger] texts(adapters@)[j]),
    {
        if same_text(adapters[i].as_str(), adapter) {
            proof {
                lemma_first_where_is(texts(adapters@), is_adapter(adapter@), i as int);
            }
            return Some(i);
        }
    }
    proof {
        lemma_first_where_is(
            texts(adapters@),
            is_adapter(adapter@),
            adapters@.len() as int,
        );
        if texts(adapters@).contains(adapter@) {
            let k = choose|k: int|
                0 <= k < texts(adapters@).len() && texts(adapters@)[k] == adapter@;
            assert(!is_adapter(adapter@)(texts(adapters@)[k]));
        }
    }
    None
}

// The adapters of some outputs.
fn adapters(monitors: &[Monitor], places: &Vec<usize>) -> (r: Vec<String>)
    requires
        forall|k: int| 0 <= k < places@.len() ==> #[trigger] places@[k] < monitors@.len(),
    ensures
        texts(r@) == adapters_of(monitors@, places@.map_values(|i: usize| i as int)),
{
    let ghost ps = places@.map_values(|i: usize| i as int);
    let mut out: Vec<String> = Vec::new();
    assert(texts(out@) =~= adapters_of(monitors@, ps.take(0)));
    for k in 0..places.len()
        invariant
            ps == places@.map_values(|i: usize| i as int),
            forall|k: int| 0 <= k < places@.len() ==> #[trigger] places@[k] < monitors@.len(),
            texts(out@) == adapters_of(monitors@, ps.take(k as int)),
    {
        assert(ps.take(k + 1).drop_last() =~= ps.take(k as int));
        let adapter = monitors[places[k]].key.adapter.as_str();
        let found = adapter_index(&out, adapter);
        proof {
            if let Some(i) = found {
                lemma_first_where(texts(out@), is_adapter(adapter@));
                assert(texts(out@)[i as int] == adapter@);
                assert(texts(out@).contains(adapter@));
            }
        }
        if found.is_none() {
            let ghost before = out@;
            out.push(adapter.to_owned());
            assert(texts(out@) =~= texts(before).push(adapter@));
        }
    }
    assert(ps.take(places@.len() as int) =~= ps);
    out
}

// The short name of an adapter.
fn gpu_text(adapters: &Vec<String>, adapter: &str) -> (r: String)
    ensures
        r@ == gpu_name(texts(adapters@), adapter@),
{
    match adapter_index(adapters, adapter) {
        Some(i) => {
            let number = decimal_text(i as u128);
            cat2("gpu", number.as_str())
        },
        None => "?".to_owned(),
    }
}

// The mode of an output.
fn mode_text(m: &Monitor, rate: &Option<String>) -> (r: String)
    ensures
        r@ == mode_cell(*m, opt_text(*rate)),
{
    match m.mode {
        Some(s) => {
            let width = decimal_text(s.width as u128);
            let height = decimal_text(s.height as u128);
            let size = cat3(width.as_str(), "x", height.as_str());
            match rate {
                Some(hz) => cat3(size.as_str(), " @ ", hz.as_str()),
                None => size,
            }
        },
        None => "-".to_owned(),
    }
}

// Where on the desktop an output is.
fn position_text(m: &Monitor) -> (r: String)
    ensures
        r@ == position_cell(*m),
{
    match m.mode {
        Some(s) => {
            let x = signed_decimal_text(s.x);
            let y = signed_decimal_text(s.y);
            cat3(x.as_str(), ",", y.as_str())
        },
        None => "-".to_owned(),
    }
}

// The row for an output.
fn row_of(m: &Monitor, config: &Config, adapters: &Vec<String>, rate: &Option<String>) -> (r:
    [String; 8])
    ensures
        texts(r@) == row_cells(*m, *config, texts(adapters@), opt_text(*rate)),
{
    let name = match config.name_for(&m.key) {
        Some(name) => name.to_owned(),
        None => "-".to_owned(),
    };
    let state = if m.active {
        "active".to_owned()
    } else {
        "inactive".to_owned()
    };
    let row: [String; 8] = [
        name,
        state,
        gpu_text(adapters, m.key.adapter.as_str()),
        decimal_text(m.key.target_id as u128),
        output_technology_name(m.name.output_technology).to_owned(),
        mode_text(m, rate),
        position_text(m),
        m.label(),
    ];
    assert(texts(row@) =~= row_cells(*m, *config, texts(adapters@), opt_text(*rate)));
    row
}

/// The listing in lines: the table, which adapter is which, and what to do next
/// where nothing has a name yet.
///
/// Adapter paths are long and identical across every row on a single-GPU machine,
/// so they are numbered, and a legend says which is which. Refresh rates come as
/// they are to be written, one for each output that has one.
pub fn run(
    monitors: &[Monitor],
    config: &Config,
    active_only: bool,
    rates: &[Option<String>],
) -> (r: Vec<String>)
    requires
        rates@.len() == monitors@.len(),
    ensures
        texts(r@) == listing_lines(monitors@, *config, active_only, rates@),
{
    let places = shown(monitors, active_only);
    let ghost ps = shown_places(monitors@, active_only);
    assert(ps.len() == places@.len());
    let all = adapters(monitors, &places);
    let mut rows: Vec<[String; 8]> = Vec::new();
    let ghost expected = row_list(monitors@, *config, ps, rates@);
    assert(cells_of(rows@) =~= expected.take(0));
    for k in 0..places.len()
        invariant
            rates@.len() == monitors@.len(),
            ps == places@.map_values(|i: usize| i as int),
            forall|k: int| 0 <= k < places@.len() ==> #[trigger] places@[k] < monitors@.len(),
            texts(all@) == adapters_of(monitors@, ps),
            expected == row_list(monitors@, *config, ps, rates@),
            cells_of(rows@) == expected.take(k as int),
    {
        let i = places[k];
        let row = row_of(&monitors[i], config, &all, &rates[i]);
        let ghost cells = texts(row@);
        let ghost before = rows@;
        rows.push(row);
        assert(cells_of(rows@) =~= cells_of(before).push(cells));
        assert(ps[k as int] == i as int);
        assert(cells == expected[k as int]);
        assert(expected.take(k + 1) =~= expected.take(k as int).push(expected[k as int]));
    }
    assert(expected.take(places@.len() as int) =~= expected);
    let headers: [&str; 8] = [
        "NAME",
        "STATE",
        "GPU",
        "TARGET",
        "CONN",
        "MODE",
        "POSITION",
        "MONITOR",
    ];
    assert(headers_of(headers@) =~= column_names());
    let mut out = render_table(&headers, rows.as_slice());
    let ghost top = texts(out@);
    if all.len() > 0 {
        push_legend(&mut out, &all);
    }
    assert(texts(out@) =~= top + legend(texts(all@)));
    let ghost most = out@;
    if config.targets.is_empty() {
        out.push(
            "\nNo targets named yet. Arrange your displays in Settings, then run\n  monitor-switcher save-profile <name>\nto record this layout.".to_owned(),
        );
    }
    assert(texts(out@) =~= texts(most) + advice(*config));
    out
}

// The lines that say which adapter is which.
fn push_legend(out: &mut Vec<String>, adapters: &Vec<String>)
    requires
        adapters@.len() > 0,
    ensures
        texts(final(out)@) == texts(old(out)@) + legend(texts(adapters@)),
{
    let ghost start = texts(out@);
    let ghost lines = legend(texts(adapters@));
    out.push(String::new());
    assert(texts(out@) =~= start + lines.take(1));
    for i in 0..adapters.len()
        invariant
            adapters@.len() > 0,
            lines == legend(texts(adapters@)),
            texts(out@) == start + lines.take(i + 1),
    {
        let number = decimal_text(i as u128);
        let line = cat4("gpu", number.as_str(), "  ", adapters[i].as_str());
        let ghost before = out@;
        out.push(line);
        assert(texts(out@) =~= texts(before).push(line@));
        assert(line@ =~= lines[i + 1]);
        assert(start + lines.take(i + 2) =~= (start + lines.take(i + 1)).push(lines[i + 1]));
    }
    assert(lines.take(adapters@.len() as int + 1) =~= lines);
}

/// Every adapter that is shown has a number, and the legend says which it is.
pub proof fn law_every_adapter_is_in_the_legend(ms: Seq<Monitor>, places: Seq<int>, k: int)
    requires
        0 <= k < places.len(),
    ensures
        ({
            let adapters = adapters_of(ms, places);
            let i = first_where(adapters, is_adapter(ms[places[k]].key.adapter@));
            &&& 0 <= i < adapters.len()
            &&& adapters[i] == ms[places[k]].key.adapter@
        }),
    decreases places.len(),
{
    let adapters = adapters_of(ms, places);
    let adapter = ms[places[k]].key.adapter@;
    lemma_first_where(adapters, is_adapter(adapter));
    assert(adapters.contains(adapter)) by {
        let earlier = adapters_of(ms, places.drop_last());
        if k < places.len() - 1 {
            law_every_adapter_is_in_the_legend(ms, places.drop_last(), k);
            assert(places.drop_last()[k] == places[k]);
            let i = first_where(earlier, is_adapter(adapter));
            assert(adapters[i] == adapter);
        } else if earlier.contains(adapter) {
            let i = choose|i: int| 0 <= i < earlier.len() && earlier[i] == adapter;
            assert(adapters[i] == adapter);
        } else {
            assert(adapters[earlier.len() as int] == adapter);
        }
    }
    let j = choose|j: int| 0 <= j < adapters.len() && adapters[j] == adapter;
    if first_where(adapters, is_adapter(adapter)) >= adapters.len() {
        assert(!is_adapter(adapter)(adapters[j]));
    }
}

/// A position reads back: what stands in front of the comma and behind it are the
/// coordinates, with their signs. So outputs at different places are shown at
/// different ones.
pub proof fn law_a_position_reads_back(m: Monitor)
    ensures
        match m.mode {
            Some(s) => {
                let halves = split(position_cell(m), ',');
                &&& halves.len() == 2
                &&& signed_value(halves[0]) == s.x
                &&& signed_value(halves[1]) == s.y
            },
            None => position_cell(m) == "-"@,
        },
{
    if let Some(s) = m.mode {
        let parts = seq![signed_decimal(s.x as int), signed_decimal(s.y as int)];
        law_signed_decimal_reads_back(s.x as int);
        law_signed_decimal_reads_back(s.y as int);
        assert forall|i: int| 0 <= i < parts.len() implies !(#[trigger] parts[i]).contains(',') by {
            if parts[i].contains(',') {
                let k = choose|k: int| 0 <= k < parts[i].len() && parts[i][k] == ',';
                if i == 0 {
                    assert(signed_decimal(s.x as int)[k] == ',');
                } else {
                    assert(signed_decimal(s.y as int)[k] == ',');
                }
            }
        }
        lemma_split_join(parts, ',');
        reveal_strlit(",");
        assert(","@ =~= seq![',']);
        reveal_with_fuel(join, 2);
        assert(parts.drop_last() =~= seq![parts[0]]);
        assert(join(parts, seq![',']) =~= position_cell(m));
    }
}

/// A size reads back: what stands in front of the `x` and behind it are the width and
/// the height. A refresh rate follows the size as it is written.
pub proof fn law_a_mode_reads_back(m: Monitor, hz: Seq<char>)
    ensures
        match m.mode {
            Some(s) => {
                let halves = split(mode_cell(m, None), 'x');
                &&& halves.len() == 2
                &&& digits_value(halves[0], 10) == s.width
                &&& digits_value(halves[1], 10) == s.height
                &&& mode_cell(m, Some(hz)) == mode_cell(m, None) + " @ "@ + hz
            },
            None => mode_cell(m, None) == "-"@ && mode_cell(m, Some(hz)) == "-"@,
        },
{
    if let Some(s) = m.mode {
        let parts = seq![decimal(s.width as nat), decimal(s.height as nat)];
        lemma_decimal_reads_back(s.width as nat);
        lemma_decimal_reads_back(s.height as nat);
        assert forall|i: int| 0 <= i < parts.len() implies !(#[trigger] parts[i]).contains('x') by {
            if parts[i].contains('x') {
                let k = choose|k: int| 0 <= k < parts[i].len() && parts[i][k] == 'x';
                if i == 0 {
                    assert(decimal(s.width as nat)[k] == 'x');
                } else {
                    assert(decimal(s.height as nat)[k] == 'x');
                }
            }
        }
        lemma_split_join(parts, 'x');
        reveal_strlit("x");
        assert("x"@ =~= seq!['x']);
        reveal_with_fuel(join, 2);
        assert(parts.drop_last() =~= seq![parts[0]]);
        assert(join(parts, seq!['x']) =~= mode_cell(m, None));
    }
}

/// A row says what its output is: the name that it has in the config, whether it is
/// active, the target id, and the best label there is, each under its own header.
pub proof fn law_a_row_says_what_its_output_is(
    m: Monitor,
    config: Config,
    adapters: Seq<Seq<char>>,
    rate: Option<Seq<char>>,
)
    ensures
        ({
            let row = row_cells(m, config, adapters, rate);
            let under = |header: Seq<char>, cell: Seq<char>|
                exists|i: int|
                    0 <= i < 8 && #[trigger] column_names()[i] == header && row[i] == cell;
            &&& row.len() == 8 && column_names().len() == 8
            &&& config.name_of(m.key@) is Some ==> under("NAME"@, config.name_of(m.key@)->0)
            &&& config.name_of(m.key@) is None ==> under("NAME"@, "-"@)
            &&& m.active ==> under("STATE"@, "active"@)
            &&& !m.active ==> under("STATE"@, "inactive"@)
            &&& under("GPU"@, gpu_name(adapters, m.key.adapter@))
            &&& under("TARGET"@, decimal(m.key.target_id as nat))
            &&& under("CONN"@, connector(m.name.output_technology))
            &&& under("MODE"@, mode_cell(m, rate))
            &&& under("POSITION"@, position_cell(m))
            &&& under("MONITOR"@, m.name.labelled())
        }),
{
    let row = row_cells(m, config, adapters, rate);
    assert(column_names()[0] == "NAME"@ && column_names()[1] == "STATE"@ && column_names()[2]
        == "GPU"@ && column_names()[3] == "TARGET"@);
    assert(column_names()[4] == "CONN"@ && column_names()[5] == "MODE"@ && column_names()[6]
        == "POSITION"@ && column_names()[7] == "MONITOR"@);
    assert(row[0] == row[0] && row[1] == row[1]);
}

/// An output is shown if it is active, or if all of them are, and in the order of the
/// listing.
pub proof fn law_what_is_shown(ms: Seq<Monitor>, active_only: bool, i: int)
    ensures
        shown_places(ms, active_only).contains(i) <==> 0 <= i < ms.len() && (ms[i].active
            || !active_only),
        forall|j: int, k: int|
            0 <= j < k < shown_places(ms, active_only).len() ==> #[trigger] shown_places(
                ms,
                active_only,
            )[j] < #[trigger] shown_places(ms, active_only)[k],
{
    lemma_slots_where(ms.len(), is_shown(ms, active_only));
}

// The adapters that are shown are different ones.
proof fn lemma_adapters_differ(ms: Seq<Monitor>, places: Seq<int>)
    ensures
        adapters_of(ms, places).no_duplicates(),
    decreases places.len(),
{
    if places.len() > 0 {
        lemma_adapters_differ(ms, places.drop_last());
    }
}

/// The short name in a row is explained below the table: the line of the legend that
/// starts with it names the adapter that the output is on. No two lines start with
/// the same short name, nor name the same adapter.
pub proof fn law_the_legend_explains_the_short_names(ms: Seq<Monitor>, places: Seq<int>, k: int)
    requires
        0 <= k < places.len(),
    ensures
        ({
            let adapters = adapters_of(ms, places);
            let adapter = ms[places[k]].key.adapter@;
            &&& adapters.no_duplicates()
            &&& legend(adapters).len() == adapters.len() + 1
            &&& legend(adapters)[0].len() == 0
            &&& exists|i: int|
                1 <= i < legend(adapters).len() && #[trigger] legend(adapters)[i] == gpu_name(
                    adapters,
                    adapter,
                ) + "  "@ + adapter && gpu_name(adapters, adapter) == "gpu"@ + decimal(
                    (i - 1) as nat,
                )
        }),
{
    lemma_adapters_differ(ms, places);
    law_every_adapter_is_in_the_legend(ms, places, k);
    let adapters = adapters_of(ms, places);
    let adapter = ms[places[k]].key.adapter@;
    let i = first_where(adapters, is_adapter(adapter));
    assert(legend(adapters)[i + 1] == "gpu"@ + decimal(i as nat) + "  "@ + adapters[i]);
}

/// A listing is a header, a line for each output that is shown, the legend, and advice
/// where no target has a name.
pub proof fn law_a_listing_has_a_line_for_each_output(
    ms: Seq<Monitor>,
    config: Config,
    active_only: bool,
    rates: Seq<Option<String>>,
    k: int,
)
    requires
        0 <= k < shown_places(ms, active_only).len(),
    ensures
        ({
            let places = shown_places(ms, active_only);
            let lines = listing_lines(ms, config, active_only, rates);
            let rows = row_list(ms, config, places, rates);
            let widths = widths_of(column_names(), rows);
            &&& lines.len() == 1 + places.len() + 1 + adapters_of(ms, places).len() + if config.targets.names().len()
                == 0 {
                1int
            } else {
                0
            }
            &&& lines[0] == row_line(column_names(), widths)
            &&& lines[k + 1] == row_line(
                row_cells(
                    ms[places[k]],
                    config,
                    adapters_of(ms, places),
                    opt_text(rates[places[k]]),
                ),
                widths,
            )
        }),
{
    let places = shown_places(ms, active_only);
    law_every_adapter_is_in_the_legend(ms, places, k);
}

/// A column is as wide as the widest of its header and its cells, and no wider.
pub proof fn law_a_column_is_as_wide_as_its_widest_cell(
    headers: Seq<Seq<char>>,
    rows: Seq<Seq<Seq<char>>>,
    col: int,
)
    requires
        0 <= col < 8,
    ensures
        headers[col].len() <= widths_of(headers, rows)[col],
        forall|r: int|
            0 <= r < rows.len() ==> (#[trigger] rows[r])[col].len() <= widths_of(
                headers,
                rows,
            )[col],
        widths_of(headers, rows)[col] == headers[col].len() || exists|r: int|
            0 <= r < rows.len() && (#[trigger] rows[r])[col].len() == widths_of(
                headers,
                rows,
            )[col],
    decreases rows.len(),
{
    lemma_widths_fit(headers, rows, col);
    if rows.len() > 0 {
        let fewer = rows.drop_last();
        law_a_column_is_as_wide_as_its_widest_cell(headers, fewer, col);
        if widths_of(headers, rows)[col] != headers[col].len() {
            if widths_of(headers, rows)[col] == rows.last()[col].len() {
                assert(rows[rows.len() - 1] == rows.last());
            } else {
                let r = choose|r: int|
                    0 <= r < fewer.len() && (#[trigger] fewer[r])[col].len() == widths_of(
                        headers,
                        fewer,
                    )[col];
                assert(rows[r] == fewer[r]);
            }
        }
    }
}

/// Two spaces stand between a column and the next: where a cell is as wide as its
/// column, the next cell starts two characters behind it.
pub proof fn law_columns_are_two_spaces_apart(widths: Seq<nat>, col: int)
    requires
        0 <= col < 7,
    ensures
        column_start(widths, 0) == 0,
        column_start(widths, col + 1) == column_start(widths, col) + widths[col] + 2,
{
}

/// The high half of a handle, as a number without a sign.
pub open spec fn high_half(luid: Luid) -> nat {
    if luid.high_part < 0 {
        (luid.high_part + 0x1_0000_0000) as nat
    } else {
        luid.high_part as nat
    }
}

/// A handle in words. It changes across a restart, where a target id does not.
pub open spec fn luid_view(luid: Luid) -> Seq<char> {
    "0x"@ + hex(high_half(luid), 8) + "-0x"@ + hex(luid.low_part as nat, 8)
}

/// A handle reads back: two numbers of eight hexadecimal digits, the high half first.
pub proof fn law_a_handle_reads_back(luid: Luid)
    ensures
        ({
            let text = luid_view(luid);
            &&& text.len() == 21
            &&& text.subrange(0, 2) == "0x"@
            &&& text.subrange(10, 13) == "-0x"@
            &&& digits_value(text.subrange(13, 21), 16) == luid.low_part
            &&& digits_value(text.subrange(2, 10), 16) == if luid.high_part < 0 {
                luid.high_part + 0x1_0000_0000
            } else {
                luid.high_part as int
            }
        }),
{
    let (high, low) = (high_half(luid), luid.low_part as nat);
    reveal_strlit("0x");
    reveal_strlit("-0x");
    law_hex_reads_back(high, 8);
    law_hex_reads_back(low, 8);
    reveal_with_fuel(sixteen_to, 9);
    lemma_hex_width(high, 8);
    lemma_hex_width(low, 8);
    let text = luid_view(luid);
    assert(text.subrange(0, 2) =~= "0x"@);
    assert(text.subrange(2, 10) =~= hex(high, 8));
    assert(text.subrange(10, 13) =~= "-0x"@);
    assert(text.subrange(13, 21) =~= hex(low, 8));
}

/// A handle in words.
pub fn luid_text(luid: Luid) -> (r: String)
    ensures
        r@ == luid_view(luid),
{
    let high: u32 = if luid.high_part < 0 {
        (luid.high_part as i64 + 0x1_0000_0000) as u32
    } else {
        luid.high_part as u32
    };
    let first = hex_text(high, 8);
    let second = hex_text(luid.low_part, 8);
    cat4("0x", first.as_str(), "-0x", second.as_str())
}

// ---------------------------------------------------------------------------
// The listing for programs
// ---------------------------------------------------------------------------

/// All that there is to tell about an output.
#[derive(Debug)]
pub struct Row {
    pub name: Option<String>,
    pub adapter: String,
    pub target_id: u32,
    /// For this run only: shown so that it can be seen to change across a restart,
    /// where the target id does not.
    pub adapter_luid: String,
    pub source_id: u32,
    pub active: bool,
    pub available: bool,
    pub connector: String,
    pub friendly: Option<String>,
    pub edid: Option<String>,
    pub monitor_device_path: Option<String>,
    pub gdi_name: Option<String>,
    pub width: Option<u32>,
    pub height: Option<u32>,
    pub x: Option<i32>,
    pub y: Option<i32>,
    pub refresh: Option<Refresh>,
}

/// Whether a row tells what there is to tell about an output.
pub open spec fn is_row(row: Row, m: Monitor, config: Config) -> bool {
    &&& opt_text(row.name) == config.name_of(m.key@)
    &&& row.adapter@ == m.key.adapter@
    &&& row.target_id == m.key.target_id
    &&& row.adapter_luid@ == luid_view(m.adapter_luid)
    &&& row.source_id == m.source_id
    &&& row.active == m.active
    &&& row.available == m.available
    &&& row.connector@ == connector(m.name.output_technology)
    &&& opt_text(row.friendly) == opt_text(m.name.friendly)
    &&& opt_text(row.edid) == opt_text(m.name.edid)
    &&& opt_text(row.monitor_device_path) == opt_text(m.name.device_path)
    &&& opt_text(row.gdi_name) == opt_text(m.gdi_name)
    &&& match m.mode {
        Some(s) => {
            &&& row.width == Some(s.width)
            &&& row.height == Some(s.height)
            &&& row.x == Some(s.x)
            &&& row.y == Some(s.y)
        },
        None => row.width is None && row.height is None && row.x is None && row.y is None,
    }
    &&& row.refresh == m.refresh
}

// A text that may be missing, once more.
fn same_or_none(s: &Option<String>) -> (r: Option<String>)
    ensures
        opt_text(r) == opt_text(*s),
{
    match s {
        Some(s) => Some(s.clone()),
        None => None,
    }
}

// All that there is to tell about an output.
fn json_row(m: &Monitor, config: &Config) -> (r: Row)
    ensures
        is_row(r, *m, *config),
{
    let (width, height, x, y) = match m.mode {
        Some(s) => (Some(s.width), Some(s.height), Some(s.x), Some(s.y)),
        None => (None, None, None, None),
    };
    Row {
        name: match config.name_for(&m.key) {
            Some(name) => Some(name.to_owned()),
            None => None,
        },
        adapter: m.key.adapter.clone(),
        target_id: m.key.target_id,
        adapter_luid: luid_text(m.adapter_luid),
        source_id: m.source_id,
        active: m.active,
        available: m.available,
        connector: output_technology_name(m.name.output_technology).to_owned(),
        friendly: same_or_none(&m.name.friendly),
        edid: same_or_none(&m.name.edid),
        monitor_device_path: same_or_none(&m.name.device_path),
        gdi_name: same_or_none(&m.gdi_name),
        width,
        height,
        x,
        y,
        refresh: m.refresh,
    }
}

/// What `list --json` tells: a row for each output that is shown.
pub fn json_rows(monitors: &[Monitor], config: &Config, active_only: bool) -> (r: Vec<Row>)
    ensures
        r@.len() == shown_places(monitors@, active_only).len(),
        forall|k: int|
            0 <= k < r@.len() ==> is_row(
                #[trigger] r@[k],
                monitors@[shown_places(monitors@, active_only)[k]],
                *config,
            ),
{
    let places = shown(monitors, active_only);
    let ghost expected = shown_places(monitors@, active_only);
    let mut out: Vec<Row> = Vec::new();
    for k in 0..places.len()
        invariant
            expected == places@.map_values(|i: usize| i as int),
            forall|j: int| 0 <= j < places@.len() ==> #[trigger] places@[j] < monitors@.len(),
            out@.len() == k,
            forall|j: int|
                0 <= j < k ==> is_row(#[trigger] out@[j], monitors@[expected[j]], *config),
    {
        out.push(json_row(&monitors[places[k]], config));
    }
    out
}

/// The laws on listings are about what the functions here return.
pub proof fn law_a_listing_is_written_as_stated(
    monitors: &[Monitor],
    config: &Config,
    active_only: bool,
    rates: &[Option<String>],
    luid: Luid,
)
    ensures
        forall|r: Vec<String>|
            call_ensures(run, (monitors, config, active_only, rates), r) ==> texts(r@)
                == listing_lines(monitors@, *config, active_only, rates@),
        forall|r: Vec<Row>|
            call_ensures(json_rows, (monitors, config, active_only), r) ==> {
                let places = shown_places(monitors@, active_only);
                &&& r@.len() == places.len()
                &&& forall|k: int|
                    0 <= k < r@.len() ==> is_row(#[trigger] r@[k], monitors@[places[k]], *config)
            },
        forall|r: Vec<usize>|
            call_ensures(shown, (monitors, active_only), r) ==> r@.map_values(
                |i: usize| i as int,
            ) == shown_places(monitors@, active_only),
        forall|r: String| call_ensures(luid_text, (luid,), r) ==> r@ == luid_view(luid),
{
}

} // verus!
