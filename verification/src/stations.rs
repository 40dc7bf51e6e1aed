//! The table that the `stations` subcommand prints.
//!
//! ```text
//!     ID  NAME      CALLSIGN
//!     --  --------  --------
//!     1   Home      N0CALL
//! [*] 2   Portable  N0CALL/P
//! ```
//!
//! The `[*]` marker flags the active profile.
use crate::text;
use crate::text_laws;
use crate::wavelog::station;
use crate::wavelog::station::{Station, StationView};
use vstd::prelude::*;

verus! {

/// The larger of two numbers.
pub open spec fn larger(a: int, b: int) -> int {
    if a < b {
        b
    } else {
        a
    }
}

/// The length of a text in UTF-8.
pub open spec fn byte_len(s: Seq<char>) -> int {
    vstd::utf8::encode_utf8(s).len() as int
}

/// A column's width: that of its longest text, at least `min`.
pub open spec fn column_width(texts: Seq<Seq<char>>, min: int) -> int
    decreases texts.len(),
{
    if texts.len() == 0 {
        min
    } else {
        larger(column_width(texts.drop_last(), min), byte_len(texts.last()))
    }
}

/// No text of a column is longer than its width, and the width is the length of
/// one of them or the least one.
pub proof fn column_fits_texts(texts: Seq<Seq<char>>, min: int)
    ensures
        column_width(texts, min) >= min,
        forall|i: int| 0 <= i < texts.len() ==> byte_len(#[trigger] texts[i]) <= column_width(
            texts,
            min,
        ),
        column_width(texts, min) == min || exists|i: int|
            0 <= i < texts.len() && byte_len(#[trigger] texts[i]) == column_width(texts, min),
    decreases texts.len(),
{
    if texts.len() > 0 {
        let rest = texts.drop_last();
        column_fits_texts(rest, min);
        assert forall|i: int| 0 <= i < texts.len() implies byte_len(#[trigger] texts[i])
            <= column_width(texts, min) by {
            if i < rest.len() {
                assert(byte_len(rest[i]) <= column_width(rest, min));
            }
        }
        if column_width(texts, min) != min {
            if byte_len(texts.last()) == column_width(texts, min) {
                assert(byte_len(texts[texts.len() - 1]) == column_width(texts, min));
            } else {
                let i = choose|i: int|
                    0 <= i < rest.len() && byte_len(#[trigger] rest[i]) == column_width(rest, min);
                assert(byte_len(texts[i]) == column_width(texts, min));
            }
        }
    }
}

/// `n` times the same character.
pub open spec fn repeated(c: char, n: int) -> Seq<char> {
    Seq::new(
        if n > 0 {
            n as nat
        } else {
            0
        },
        |i: int| c,
    )
}

/// A text with spaces behind it, up to the column's width in characters.
pub open spec fn cell(s: Seq<char>, width: int) -> Seq<char> {
    s + repeated(' ', width - s.len())
}

/// One line of the table.
pub open spec fn table_line(
    marker: Seq<char>,
    a: Seq<char>,
    b: Seq<char>,
    c: Seq<char>,
    widths: (int, int, int),
) -> Seq<char> {
    marker + cell(a, widths.0) + "  "@ + cell(b, widths.1) + "  "@ + cell(c, widths.2)
}

/// The columns' widths.
pub open spec fn table_widths(stations: Seq<StationView>) -> (int, int, int) {
    (
        column_width(stations.map_values(|s: StationView| s.id), 2),
        column_width(stations.map_values(|s: StationView| s.name), 4),
        column_width(stations.map_values(|s: StationView| s.callsign), 8),
    )
}

/// A station's line.
pub open spec fn station_line(s: StationView, widths: (int, int, int)) -> Seq<char> {
    let marker = if s.active {
        "[*] "@
    } else {
        "    "@
    };
    table_line(marker, s.id, s.name, s.callsign, widths)
}

/// The lines of the table: heading, rule, one line per station.
pub open spec fn table_lines(stations: Seq<StationView>) -> Seq<Seq<char>> {
    let widths = table_widths(stations);
    seq![
        table_line("    "@, "ID"@, "NAME"@, "CALLSIGN"@, widths),
        table_line(
            "    "@,
            repeated('-', widths.0),
            repeated('-', widths.1),
            repeated('-', widths.2),
            widths,
        ),
    ] + stations.map_values(|s: StationView| station_line(s, widths))
}

/// Appends the same character `n` times.
fn push_repeated(out: &mut String, c: char, n: usize)
    ensures
        final(out)@ == old(out)@ + repeated(c, n as int),
{
    let mut i: usize = 0;
    assert(out@ =~= old(out)@ + repeated(c, 0));
    while i < n
        invariant
            i <= n,
            out@ == old(out)@ + repeated(c, i as int),
        decreases n - i,
    {
        out.push(c);
        i += 1;
        assert(out@ =~= old(out)@ + repeated(c, i as int));
    }
}

/// Appends a cell.
fn push_cell(out: &mut String, s: &str, width: usize)
    ensures
        final(out)@ == old(out)@ + cell(s@, width as int),
{
    let len: usize = s.unicode_len();
    out.append(s);
    if len < width {
        push_repeated(out, ' ', width - len);
    }
    assert(out@ =~= old(out)@ + cell(s@, width as int));
}

/// Writes one line.
fn write_line(marker: &str, a: &str, b: &str, c: &str, widths: (usize, usize, usize)) -> (line:
    String)
    ensures
        line@ == table_line(
            marker@,
            a@,
            b@,
            c@,
            (widths.0 as int, widths.1 as int, widths.2 as int),
        ),
{
    let mut line = String::new();
    line.append(marker);
    push_cell(&mut line, a, widths.0);
    line.append("  ");
    push_cell(&mut line, b, widths.1);
    line.append("  ");
    push_cell(&mut line, c, widths.2);
    assert(line@ =~= table_line(
        marker@,
        a@,
        b@,
        c@,
        (widths.0 as int, widths.1 as int, widths.2 as int),
    ));
    line
}

/// Measures the columns.
fn measure(stations: &[Station]) -> (widths: (usize, usize, usize))
    ensures
        (widths.0 as int, widths.1 as int, widths.2 as int) == table_widths(
            station::station_views(stations@),
        ),
{
    let ghost views = station::station_views(stations@);
    let ghost ids = views.map_values(|s: StationView| s.id);
    let ghost names = views.map_values(|s: StationView| s.name);
    let ghost callsigns = views.map_values(|s: StationView| s.callsign);
    let mut id_w: usize = 2;
    let mut name_w: usize = 4;
    let mut call_w: usize = 8;
    let mut i: usize = 0;
    while i < stations.len()
        invariant
            i <= stations@.len(),
            views == station::station_views(stations@),
            ids == views.map_values(|s: StationView| s.id),
            names == views.map_values(|s: StationView| s.name),
            callsigns == views.map_values(|s: StationView| s.callsign),
            id_w == column_width(ids.take(i as int), 2),
            name_w == column_width(names.take(i as int), 4),
            call_w == column_width(callsigns.take(i as int), 8),
        decreases stations@.len() - i,
    {
        proof {
            assert(ids.take(i + 1).drop_last() == ids.take(i as int));
            assert(names.take(i + 1).drop_last() == names.take(i as int));
            assert(callsigns.take(i + 1).drop_last() == callsigns.take(i as int));
            assert(ids.take(i + 1).last() == stations@[i as int].id@);
            assert(names.take(i + 1).last() == stations@[i as int].name@);
            assert(callsigns.take(i + 1).last() == stations@[i as int].callsign@);
        }
        let id_len: usize = stations[i].id.as_str().as_bytes().len();
        let name_len: usize = stations[i].name.as_str().as_bytes().len();
        let call_len: usize = stations[i].callsign.as_str().as_bytes().len();
        if id_w < id_len {
            id_w = id_len;
        }
        if name_w < name_len {
            name_w = name_len;
        }
        if call_w < call_len {
            call_w = call_len;
        }
        i += 1;
    }
    assert(ids.take(i as int) == ids);
    assert(names.take(i as int) == names);
    assert(callsigns.take(i as int) == callsigns);
    (id_w, name_w, call_w)
}

/// Writes the table, line by line.
pub fn station_table(stations: &[Station]) -> (lines: Vec<String>)
    ensures
        text::views(lines@) == table_lines(station::station_views(stations@)),
{
    let ghost views = station::station_views(stations@);
    let widths = measure(stations);
    let ghost w = (widths.0 as int, widths.1 as int, widths.2 as int);
    let mut id_rule = String::new();
    push_repeated(&mut id_rule, '-', widths.0);
    let mut name_rule = String::new();
    push_repeated(&mut name_rule, '-', widths.1);
    let mut call_rule = String::new();
    push_repeated(&mut call_rule, '-', widths.2);
    assert(id_rule@ =~= repeated('-', w.0));
    assert(name_rule@ =~= repeated('-', w.1));
    assert(call_rule@ =~= repeated('-', w.2));
    let mut lines: Vec<String> = Vec::new();
    lines.push(write_line("    ", "ID", "NAME", "CALLSIGN", widths));
    lines.push(
        write_line("    ", id_rule.as_str(), name_rule.as_str(), call_rule.as_str(), widths),
    );
    let ghost rows = views.map_values(|s: StationView| station_line(s, w));
    let ghost head = text::views(lines@);
    let mut i: usize = 0;
    assert(head + rows.take(0) =~= head);
    while i < stations.len()
        invariant
            i <= stations@.len(),
            views == station::station_views(stations@),
            w == (widths.0 as int, widths.1 as int, widths.2 as int),
            rows == views.map_values(|s: StationView| station_line(s, w)),
            text::views(lines@) == head + rows.take(i as int),
        decreases stations@.len() - i,
    {
        let s = &stations[i];
        let marker = if s.active {
            "[*] "
        } else {
            "    "
        };
        let ghost before = lines@;
        lines.push(
            write_line(marker, s.id.as_str(), s.name.as_str(), s.callsign.as_str(), widths),
        );
        proof {
            assert(rows[i as int] == station_line(stations@[i as int]@, w));
            assert(text::views(lines@) =~= text::views(before).push(rows[i as int]));
            assert(rows.take(i + 1) =~= rows.take(i as int).push(rows[i as int]));
            assert(text::views(lines@) =~= head + rows.take(i + 1));
        }
        i += 1;
    }
    assert(rows.take(i as int) =~= rows);
    assert(text::views(lines@) =~= table_lines(views));
    lines
}

/// What the subcommand prints: the table, or why there is none.
pub fn list_stations(stations: &[Station]) -> (listing: Result<Vec<String>, &'static str>)
    ensures
        match listing {
            Ok(lines) => stations@.len() > 0 && text::views(lines@) == table_lines(
                station::station_views(stations@),
            ),
            Err(why) => stations@.len() == 0 && why@
                == "no stations are configured in Wavelog for this API key — create one under Account → Station Locations"@,
        },
{
    if stations.len() == 0 {
        return Err(
            "no stations are configured in Wavelog for this API key — create one under Account → Station Locations",
        );
    }
    Ok(station_table(stations))
}

/// A text stands at a position in a line.
pub open spec fn shows_at(line: Seq<char>, at: int, s: Seq<char>) -> bool {
    0 <= at && at + s.len() <= line.len() && line.subrange(at, at + s.len()) == s
}

/// A line holds these texts at these positions, spaces elsewhere, and ends with the
/// column of the last.
pub open spec fn holds_cells(
    line: Seq<char>,
    id: Seq<char>,
    name: Seq<char>,
    callsign: Seq<char>,
    at: (int, int, int),
) -> bool {
    &&& shows_at(line, 4, id) && 4 + id.len() + 2 <= at.0
    &&& shows_at(line, at.0, name) && at.0 + name.len() + 2 <= at.1
    &&& shows_at(line, at.1, callsign) && at.1 + callsign.len() <= at.2
    &&& line.len() == at.2
    &&& forall|k: int|
        4 + id.len() <= k < at.0 || at.0 + name.len() <= k < at.1 || at.1 + callsign.len() <= k
            < at.2 ==> #[trigger] line[k] == ' '
}

proof fn lemma_line_holds_cells(
    marker: Seq<char>,
    a: Seq<char>,
    b: Seq<char>,
    c: Seq<char>,
    widths: (int, int, int),
)
    requires
        marker.len() == 4,
        a.len() <= widths.0,
        b.len() <= widths.1,
        c.len() <= widths.2,
    ensures
        holds_cells(
            table_line(marker, a, b, c, widths),
            a,
            b,
            c,
            (6 + widths.0, 8 + widths.0 + widths.1, 8 + widths.0 + widths.1 + widths.2),
        ),
        table_line(marker, a, b, c, widths).take(4) == marker,
{
    reveal_strlit("  ");
    let line = table_line(marker, a, b, c, widths);
    let (p, q) = (6 + widths.0, 8 + widths.0 + widths.1);
    assert(line.take(4) =~= marker);
    assert(line.subrange(4, 4 + a.len() as int) =~= a);
    assert(line.subrange(p, p + b.len()) =~= b);
    assert(line.subrange(q, q + c.len()) =~= c);
}

/// The table has a heading, a rule and one line for each station, in order. The columns
/// stand at the same positions in all of them, a station's line shows its id, its name
/// and its callsign there, and it is marked exactly where the station is active. The
/// columns are as narrow as their longest text allows.
#[verifier::rlimit(40)]
pub proof fn table_shows_every_station(stations: Seq<StationView>) -> (at: (int, int, int))
    ensures
        table_lines(stations).len() == stations.len() + 2,
        forall|i: int|
            0 <= i < stations.len() ==> {
                let line = #[trigger] table_lines(stations)[i + 2];
                &&& holds_cells(line, stations[i].id, stations[i].name, stations[i].callsign, at)
                &&& stations[i].active ==> line.take(4) == seq!['[', '*', ']', ' ']
                &&& !stations[i].active ==> line.take(4) == seq![' ', ' ', ' ', ' ']
            },
        holds_cells(
            table_lines(stations)[0],
            seq!['I', 'D'],
            seq!['N', 'A', 'M', 'E'],
            seq!['C', 'A', 'L', 'L', 'S', 'I', 'G', 'N'],
            at,
        ),
        table_lines(stations)[0].take(4) == seq![' ', ' ', ' ', ' '],
        forall|k: int|
            4 <= k < at.0 - 2 || at.0 <= k < at.1 - 2 || at.1 <= k < at.2 ==> (
            #[trigger] table_lines(stations)[1][k]) == '-',
        at.0 == 8 || exists|i: int|
            0 <= i < stations.len() && byte_len((#[trigger] stations[i]).id) == at.0 - 6,
        at.1 - at.0 == 6 || exists|i: int|
            0 <= i < stations.len() && byte_len((#[trigger] stations[i]).name) == at.1 - at.0 - 2,
        at.2 - at.1 == 8 || exists|i: int|
            0 <= i < stations.len() && byte_len((#[trigger] stations[i]).callsign) == at.2 - at.1,
{
    let w = table_widths(stations);
    let ids = stations.map_values(|s: StationView| s.id);
    let names = stations.map_values(|s: StationView| s.name);
    let callsigns = stations.map_values(|s: StationView| s.callsign);
    column_fits_texts(ids, 2);
    column_fits_texts(names, 4);
    column_fits_texts(callsigns, 8);
    let at = (6 + w.0, 8 + w.0 + w.1, 8 + w.0 + w.1 + w.2);
    reveal_strlit("[*] ");
    reveal_strlit("    ");
    reveal_strlit("ID");
    reveal_strlit("NAME");
    reveal_strlit("CALLSIGN");
    assert("[*] "@ =~= seq!['[', '*', ']', ' ']);
    assert("    "@ =~= seq![' ', ' ', ' ', ' ']);
    assert("ID"@ =~= seq!['I', 'D']);
    assert("NAME"@ =~= seq!['N', 'A', 'M', 'E']);
    assert("CALLSIGN"@ =~= seq!['C', 'A', 'L', 'L', 'S', 'I', 'G', 'N']);
    let lines = table_lines(stations);
    lemma_line_holds_cells("    "@, "ID"@, "NAME"@, "CALLSIGN"@, w);
    let (x, y, z) = (repeated('-', w.0), repeated('-', w.1), repeated('-', w.2));
    lemma_line_holds_cells("    "@, x, y, z, w);
    assert forall|k: int| 4 <= k < at.0 - 2 || at.0 <= k < at.1 - 2 || at.1 <= k < at.2 implies (
    #[trigger] lines[1][k]) == '-' by {
        let line = lines[1];
        if k < at.0 - 2 {
            assert(line.subrange(4, 4 + x.len() as int)[k - 4] == x[k - 4]);
        } else if k < at.1 - 2 {
            assert(line.subrange(at.0, at.0 + y.len())[k - at.0] == y[k - at.0]);
        } else {
            assert(line.subrange(at.1, at.1 + z.len())[k - at.1] == z[k - at.1]);
        }
    }
    assert forall|i: int| 0 <= i < stations.len() implies {
        let line = #[trigger] lines[i + 2];
        &&& holds_cells(line, stations[i].id, stations[i].name, stations[i].callsign, at)
        &&& stations[i].active ==> line.take(4) == seq!['[', '*', ']', ' ']
        &&& !stations[i].active ==> line.take(4) == seq![' ', ' ', ' ', ' ']
    } by {
        let s = stations[i];
        assert(lines[i + 2] == station_line(s, w));
        assert(byte_len(ids[i]) <= w.0);
        assert(byte_len(names[i]) <= w.1);
        assert(byte_len(callsigns[i]) <= w.2);
        text_laws::utf8_is_no_shorter(s.id);
        text_laws::utf8_is_no_shorter(s.name);
        text_laws::utf8_is_no_shorter(s.callsign);
        let marker = if s.active {
            "[*] "@
        } else {
            "    "@
        };
        lemma_line_holds_cells(marker, s.id, s.name, s.callsign, w);
    }
    if w.0 != 2 {
        let i = choose|i: int| 0 <= i < ids.len() && byte_len(#[trigger] ids[i]) == w.0;
        assert(byte_len(stations[i].id) == at.0 - 6);
    }
    if w.1 != 4 {
        let i = choose|i: int| 0 <= i < names.len() && byte_len(#[trigger] names[i]) == w.1;
        assert(byte_len(stations[i].name) == at.1 - at.0 - 2);
    }
    if w.2 != 8 {
        let i = choose|i: int| 0 <= i < callsigns.len() && byte_len(#[trigger] callsigns[i]) == w.2;
        assert(byte_len(stations[i].callsign) == at.2 - at.1);
    }
    at
}

} // verus!
