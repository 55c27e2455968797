//! Playlist entries, and the rules that turn the rows of the history table
//! into them.

use vstd::prelude::*;
use crate::markup::{
    css_selector, decode_html_entities, holds_no_reference, html_decoded, inner_at, inner_html, match_count,
    parse_fragment, root_element, select, Element, TagSelector,
};

verus! {

/// Rows before this index are the header and the spacer under it.
pub const FIRST_DATA_ROW: usize = 2;

/// A data row has at least this many cells.
pub const MIN_CELLS: usize = 5;

/// Characters kept of the time-of-day cell (`HH:MM:SS`).
pub const TIME_WIDTH: usize = 8;

/// One playback event.
#[derive(Clone, Debug, PartialEq, Eq)]
pub struct PlaylistItem {
    pub played_at: String,
    pub artist: String,
    pub song: String,
    pub album: String,
}

/// The text of a `PlaylistItem`'s fields.
pub struct Record {
    pub played_at: Seq<char>,
    pub artist: Seq<char>,
    pub song: Seq<char>,
    pub album: Seq<char>,
}

impl View for PlaylistItem {
    type V = Record;

    open spec fn view(&self) -> Record {
        Record {
            played_at: self.played_at@,
            artist: self.artist@,
            song: self.song@,
            album: self.album@,
        }
    }
}

/// One cell of a table row, as read from the markup: its inner markup, and the
/// inner markup of the first hyperlink inside it, if there is one.
#[derive(Clone, Debug)]
pub struct Cell {
    pub html: String,
    pub link: Option<String>,
}

/// The text of a `Cell`.
pub struct CellText {
    pub html: Seq<char>,
    pub link: Option<Seq<char>>,
}

impl View for Cell {
    type V = CellText;

    open spec fn view(&self) -> CellText {
        CellText {
            html: self.html@,
            link: match self.link {
                Some(l) => Some(l@),
                None => None,
            },
        }
    }
}

pub open spec fn cells_view(cells: Seq<Cell>) -> Seq<CellText> {
    cells.map_values(|c: Cell| c@)
}

pub open spec fn rows_view(rows: Seq<Vec<Cell>>) -> Seq<Seq<CellText>> {
    rows.map_values(|r: Vec<Cell>| cells_view(r@))
}

/// The cells whose hyperlink a record needs.
#[derive(Clone, Copy, Debug, PartialEq, Eq, Structural)]
pub enum Column {
    Artist,
    Album,
}

#[derive(Clone, Copy, Debug, PartialEq, Eq, Structural)]
pub enum ParseError {
    /// The markup holds no `table` element.
    MissingTable,
    /// The first table holds no `tbody` element.
    MissingBody,
    /// The data row at index `row` has no hyperlink in the given cell.
    MissingLink { row: usize, column: Column },
}

/// How a table row is treated.
#[derive(Clone, Copy, Debug, PartialEq, Eq, Structural)]
pub enum RowKind {
    /// Index 0: the column labels.
    Header,
    /// Index 1: the spacer under the header.
    Separator,
    /// Fewer than `MIN_CELLS` cells: spacers and station breaks.
    Short,
    /// A playback event.
    Data,
}

pub open spec fn row_kind(index: int, cell_count: int) -> RowKind {
    if index == 0 {
        RowKind::Header
    } else if index == 1 {
        RowKind::Separator
    } else if cell_count < MIN_CELLS {
        RowKind::Short
    } else {
        RowKind::Data
    }
}

/// A row that yields a record: past the header and spacer, with enough cells.
pub open spec fn is_data_row(index: int, cells: Seq<CellText>) -> bool {
    index >= FIRST_DATA_ROW && cells.len() >= MIN_CELLS
}

/// The time of day: the first `TIME_WIDTH` characters, or all of a shorter text.
pub open spec fn clock_prefix(s: Seq<char>) -> Seq<char> {
    if s.len() <= TIME_WIDTH {
        s
    } else {
        s.take(TIME_WIDTH as int)
    }
}

/// The decoded text of the hyperlink in a cell.
pub open spec fn link_text(cell: CellText, row: int, column: Column) -> Result<Seq<char>, ParseError> {
    match cell.link {
        Some(l) => Ok(html_decoded(l)),
        None => Err(ParseError::MissingLink { row: row as usize, column }),
    }
}

/// The record of a data row, or the error that it raises.
pub open spec fn record_of(index: int, cells: Seq<CellText>) -> Result<Record, ParseError> {
    match link_text(cells[1], index, Column::Artist) {
        Err(e) => Err(e),
        Ok(artist) => match link_text(cells[3], index, Column::Album) {
            Err(e) => Err(e),
            Ok(album) => Ok(
                Record {
                    played_at: clock_prefix(html_decoded(cells[0].html)),
                    artist,
                    song: html_decoded(cells[2].html),
                    album,
                },
            ),
        },
    }
}

/// What the rows yield: the records of the data rows in row order, or the
/// error of the first data row that has none.
pub open spec fn scraped(rows: Seq<Seq<CellText>>) -> Result<Seq<Record>, ParseError>
    decreases rows.len(),
{
    if rows.len() == 0 {
        Ok(Seq::empty())
    } else {
        let n = rows.len() - 1;
        match scraped(rows.drop_last()) {
            Err(e) => Err(e),
            Ok(records) => if !is_data_row(n, rows[n]) {
                Ok(records)
            } else {
                match record_of(n, rows[n]) {
                    Err(e) => Err(e),
                    Ok(r) => Ok(records.push(r)),
                }
            },
        }
    }
}

pub open spec fn records_of(items: Seq<PlaylistItem>) -> Seq<Record> {
    items.map_values(|p: PlaylistItem| p@)
}

pub open spec fn outcome(r: Result<Vec<PlaylistItem>, ParseError>) -> Result<Seq<Record>, ParseError> {
    match r {
        Ok(items) => Ok(records_of(items@)),
        Err(e) => Err(e),
    }
}

/// Classifies the row at `index` with `cell_count` cells.
pub fn classify_row(index: usize, cell_count: usize) -> (k: RowKind)
    ensures
        k == row_kind(index as int, cell_count as int),
{
    if index == 0 {
        RowKind::Header
    } else if index == 1 {
        RowKind::Separator
    } else if cell_count < MIN_CELLS {
        RowKind::Short
    } else {
        RowKind::Data
    }
}

/// Keeps the first `TIME_WIDTH` characters of a decoded time cell.
pub fn truncate_time(s: &str) -> (r: String)
    ensures
        r@ == clock_prefix(s@),
{
    if s.unicode_len() <= TIME_WIDTH {
        s.to_string()
    } else {
        s.substring_char(0, TIME_WIDTH).to_string()
    }
}

/// The decoded text of the hyperlink in `cell`, which stands in the given
/// column of the row at index `row`.
pub fn extract_link_text(cell: &Cell, row: usize, column: Column) -> (r: Result<String, ParseError>)
    ensures
        match r {
            Ok(s) => link_text(cell@, row as int, column) == Ok::<Seq<char>, ParseError>(s@),
            Err(e) => link_text(cell@, row as int, column) == Err::<Seq<char>, ParseError>(e),
        },
{
    match &cell.link {
        Some(l) => Ok(decode_html_entities(l.as_str())),
        None => Err(ParseError::MissingLink { row, column }),
    }
}

/// The record of the data row at `index`.
pub fn parse_row(index: usize, cells: &Vec<Cell>) -> (r: Result<PlaylistItem, ParseError>)
    requires
        cells@.len() >= MIN_CELLS,
    ensures
        match r {
            Ok(p) => record_of(index as int, cells_view(cells@)) == Ok::<Record, ParseError>(p@),
            Err(e) => record_of(index as int, cells_view(cells@)) == Err::<Record, ParseError>(e),
        },
{
    let artist = match extract_link_text(&cells[1], index, Column::Artist) {
        Ok(a) => a,
        Err(e) => return Err(e),
    };
    let album = match extract_link_text(&cells[3], index, Column::Album) {
        Ok(a) => a,
        Err(e) => return Err(e),
    };
    let time = decode_html_entities(cells[0].html.as_str());
    let played_at = truncate_time(time.as_str());
    let song = decode_html_entities(cells[2].html.as_str());
    Ok(PlaylistItem { played_at, artist, song, album })
}

/// A failure on a prefix of the rows is the failure of every longer prefix.
proof fn lemma_failure_persists(rows: Seq<Seq<CellText>>, i: int, j: int)
    requires
        0 <= i <= j <= rows.len(),
        scraped(rows.take(i)) is Err,
    ensures
        scraped(rows.take(j)) == scraped(rows.take(i)),
    decreases j - i,
{
    if j > i {
        lemma_failure_persists(rows, i, j - 1);
        assert(rows.take(j).drop_last() =~= rows.take(j - 1));
    }
}

/// The records of all the data rows, in row order; or the error of the first
/// data row that lacks a hyperlink in its artist or album cell.
pub fn scrape_rows(rows: &Vec<Vec<Cell>>) -> (r: Result<Vec<PlaylistItem>, ParseError>)
    ensures
        outcome(r) == scraped(rows_view(rows@)),
{
    let ghost view = rows_view(rows@);
    let mut items: Vec<PlaylistItem> = Vec::new();
    let mut i: usize = 0;
    assert(records_of(items@) =~= Seq::<Record>::empty());
    assert(scraped(view.take(0)) == Ok::<Seq<Record>, ParseError>(Seq::<Record>::empty()));
    while i < rows.len()
        invariant
            i <= rows@.len(),
            view == rows_view(rows@),
            scraped(view.take(i as int)) == Ok::<Seq<Record>, ParseError>(records_of(items@)),
        decreases rows@.len() - i,
    {
        let cells = &rows[i];
        assert(view.take(i + 1).drop_last() =~= view.take(i as int));
        assert(view[i as int] == cells_view(cells@));
        match classify_row(i, cells.len()) {
            RowKind::Data => {
                match parse_row(i, cells) {
                    Ok(item) => {
                        let ghost before = items@;
                        let ghost rec = item@;
                        items.push(item);
                        assert(records_of(items@) =~= records_of(before).push(rec));
                    },
                    Err(e) => {
                        proof {
                            lemma_failure_persists(view, i + 1, view.len() as int);
                            assert(view.take(view.len() as int) =~= view);
                        }
                        return Err(e);
                    },
                }
            },
            _ => {},
        }
        i += 1;
    }
    assert(view.take(view.len() as int) =~= view);
    Ok(items)
}

/// Entity-decoded markup, as the scraper expects it. Text that holds no
/// character reference, such as text that has already been decoded into
/// plain characters, comes back unchanged.
pub fn decode_markup(markup: &str) -> (r: String)
    ensures
        r@ == html_decoded(markup@),
        holds_no_reference(markup@) ==> r@ == markup@,
{
    decode_html_entities(markup)
}

/// The cell read from the `td` element at `p`: its inner markup, and that of
/// its first `a`.
pub open spec fn cell_read(m: Seq<char>, p: Seq<(Seq<char>, int)>) -> CellText {
    CellText {
        html: inner_at(m, p),
        link: if match_count(m, p, "a"@) > 0 {
            Some(inner_at(m, p.push(("a"@, 0int))))
        } else {
            None
        },
    }
}

/// The cells of the `tr` element at `p`, one for each `td` inside it.
pub open spec fn row_read(m: Seq<char>, p: Seq<(Seq<char>, int)>) -> Seq<CellText> {
    Seq::new(match_count(m, p, "td"@), |j: int| cell_read(m, p.push(("td"@, j))))
}

/// The rows of the `tbody` element at `p`, one for each `tr` inside it.
pub open spec fn rows_read(m: Seq<char>, p: Seq<(Seq<char>, int)>) -> Seq<Seq<CellText>> {
    Seq::new(match_count(m, p, "tr"@), |i: int| row_read(m, p.push(("tr"@, i))))
}

/// The path to the first `table` of a fragment.
pub open spec fn table_path() -> Seq<(Seq<char>, int)> {
    Seq::<(Seq<char>, int)>::empty().push(("table"@, 0int))
}

/// The path to the first `tbody` of the first `table`.
pub open spec fn body_path() -> Seq<(Seq<char>, int)> {
    table_path().push(("tbody"@, 0int))
}

/// The table of the fragment parsed from `m`: `None` where it holds no
/// `table`, `Some(None)` where its first `table` holds no `tbody`, and
/// otherwise the rows of that `tbody`.
pub open spec fn fragment_table(m: Seq<char>) -> Option<Option<Seq<Seq<CellText>>>> {
    if match_count(m, Seq::empty(), "table"@) == 0 {
        None
    } else if match_count(m, table_path(), "tbody"@) == 0 {
        Some(None)
    } else {
        Some(Some(rows_read(m, body_path())))
    }
}

fn read_cell(td: &Element, a: &TagSelector) -> (c: Cell)
    requires
        a.text() == "a"@,
    ensures
        c@ == cell_read(td.markup(), td.path()),
{
    let links = select(td, a);
    let link = if links.len() > 0 {
        Some(inner_html(&links[0]))
    } else {
        None
    };
    Cell { html: inner_html(td), link }
}

fn read_row(tr: &Element, td: &TagSelector, a: &TagSelector) -> (cells: Vec<Cell>)
    requires
        td.text() == "td"@,
        a.text() == "a"@,
    ensures
        cells_view(cells@) == row_read(tr.markup(), tr.path()),
{
    let tds = select(tr, td);
    let ghost want = row_read(tr.markup(), tr.path());
    let mut cells: Vec<Cell> = Vec::new();
    let mut j: usize = 0;
    while j < tds.len()
        invariant
            j <= tds@.len(),
            tds@.len() == want.len(),
            a.text() == "a"@,
            td.text() == "td"@,
            want == row_read(tr.markup(), tr.path()),
            forall|i: int|
                0 <= i < tds@.len() ==> (#[trigger] tds@[i]).markup() == tr.markup() && tds@[i].path()
                    == tr.path().push(("td"@, i)),
            cells_view(cells@) =~= want.take(j as int),
        decreases tds@.len() - j,
    {
        let c = read_cell(&tds[j], a);
        assert(tds@[j as int].path() == tr.path().push(("td"@, j as int)));
        assert(c@ == want[j as int]);
        let ghost before = cells@;
        cells.push(c);
        assert(cells_view(cells@) =~= cells_view(before).push(c@));
        assert(cells_view(cells@) =~= want.take(j + 1));
        j += 1;
    }
    assert(want.take(j as int) =~= want);
    cells
}

/// Parses `markup` as an HTML fragment and reads the playlist out of the rows
/// of the first `tbody` of its first `table`.
pub fn try_scrape_html(markup: &str) -> (r: Result<Vec<PlaylistItem>, ParseError>)
    ensures
        match fragment_table(markup@) {
            None => r == Err::<Vec<PlaylistItem>, ParseError>(ParseError::MissingTable),
            Some(None) => r == Err::<Vec<PlaylistItem>, ParseError>(ParseError::MissingBody),
            Some(Some(rows)) => outcome(r) == scraped(rows),
        },
{
    proof {
        reveal_strlit("table");
        reveal_strlit("tbody");
        reveal_strlit("tr");
        reveal_strlit("td");
        reveal_strlit("a");
    }
    let doc = parse_fragment(markup);
    let root = root_element(&doc);
    let (table, tbody, tr, td, a) = match (
        css_selector("table"),
        css_selector("tbody"),
        css_selector("tr"),
        css_selector("td"),
        css_selector("a"),
    ) {
        (Some(table), Some(tbody), Some(tr), Some(td), Some(a)) => (table, tbody, tr, td, a),
        _ => return Err(ParseError::MissingTable),
    };
    let tables = select(&root, &table);
    if tables.len() == 0 {
        return Err(ParseError::MissingTable);
    }
    assert(tables@[0].path() =~= table_path());
    let bodies = select(&tables[0], &tbody);
    if bodies.len() == 0 {
        return Err(ParseError::MissingBody);
    }
    assert(bodies@[0].path() =~= body_path());
    let trs = select(&bodies[0], &tr);
    let ghost want = rows_read(markup@, body_path());
    let mut rows: Vec<Vec<Cell>> = Vec::new();
    let mut i: usize = 0;
    while i < trs.len()
        invariant
            i <= trs@.len(),
            trs@.len() == want.len(),
            want == rows_read(markup@, body_path()),
            td.text() == "td"@,
            a.text() == "a"@,
            forall|k: int|
                0 <= k < trs@.len() ==> (#[trigger] trs@[k]).markup() == markup@ && trs@[k].path()
                    == body_path().push(("tr"@, k)),
            rows_view(rows@) =~= want.take(i as int),
        decreases trs@.len() - i,
    {
        let cells = read_row(&trs[i], &td, &a);
        assert(trs@[i as int].path() == body_path().push(("tr"@, i as int)));
        assert(cells_view(cells@) == want[i as int]);
        let ghost before = rows@;
        rows.push(cells);
        assert(rows_view(rows@) =~= rows_view(before).push(want[i as int]));
        assert(rows_view(rows@) =~= want.take(i + 1));
        i += 1;
    }
    assert(want.take(i as int) =~= want);
    scrape_rows(&rows)
}

/// The number of data rows among `rows`.
pub open spec fn data_count(rows: Seq<Seq<CellText>>) -> nat
    decreases rows.len(),
{
    if rows.len() == 0 {
        0
    } else {
        let n = rows.len() - 1;
        data_count(rows.drop_last()) + if is_data_row(n, rows[n]) {
            1nat
        } else {
            0nat
        }
    }
}

/// The record that a data row with both hyperlinks yields.
pub open spec fn decoded_record(cells: Seq<CellText>) -> Record {
    Record {
        played_at: clock_prefix(html_decoded(cells[0].html)),
        artist: html_decoded(cells[1].link->Some_0),
        song: html_decoded(cells[2].html),
        album: html_decoded(cells[3].link->Some_0),
    }
}

/// Every data row has a hyperlink in its artist cell and in its album cell.
pub open spec fn links_present(rows: Seq<Seq<CellText>>) -> bool {
    forall|k: int|
        0 <= k < rows.len() && is_data_row(k, #[trigger] rows[k]) ==> rows[k][1].link is Some
            && rows[k][3].link is Some
}

proof fn lemma_count_grows(rows: Seq<Seq<CellText>>, a: int, b: int)
    requires
        0 <= a <= b <= rows.len(),
    ensures
        data_count(rows.take(a)) <= data_count(rows.take(b)),
        a < b && is_data_row(a, rows[a]) ==> data_count(rows.take(a)) < data_count(rows.take(b)),
    decreases b - a,
{
    if a < b {
        lemma_count_grows(rows, a, b - 1);
        assert(rows.take(b).drop_last() =~= rows.take(b - 1));
    }
}

proof fn lemma_record_count(rows: Seq<Seq<CellText>>)
    requires
        scraped(rows) is Ok,
    ensures
        scraped(rows)->Ok_0.len() == data_count(rows),
    decreases rows.len(),
{
    if rows.len() > 0 {
        lemma_record_count(rows.drop_last());
    }
}

proof fn lemma_record_at(rows: Seq<Seq<CellText>>, k: int)
    requires
        scraped(rows) is Ok,
        0 <= k < rows.len(),
        is_data_row(k, rows[k]),
    ensures
        record_of(k, rows[k]) is Ok,
        data_count(rows.take(k)) < scraped(rows)->Ok_0.len(),
        scraped(rows)->Ok_0[data_count(rows.take(k)) as int] == record_of(k, rows[k])->Ok_0,
    decreases rows.len(),
{
    let n = rows.len() - 1;
    let front = rows.drop_last();
    lemma_record_count(front);
    if k < n {
        lemma_record_at(front, k);
        assert(front.take(k) =~= rows.take(k));
    } else {
        assert(rows.take(k) =~= front);
    }
}

/// Each data row whose artist and album cells hold a hyperlink yields one
/// record, with every field entity-decoded; where all data rows do, the parse
/// succeeds with exactly one record per data row.
pub proof fn lemma_valid_rows_give_records(rows: Seq<Seq<CellText>>)
    requires
        links_present(rows),
    ensures
        scraped(rows) is Ok,
        scraped(rows)->Ok_0.len() == data_count(rows),
        forall|k: int|
            0 <= k < rows.len() && is_data_row(k, #[trigger] rows[k]) ==> scraped(
                rows,
            )->Ok_0[data_count(rows.take(k)) as int] == decoded_record(rows[k]),
    decreases rows.len(),
{
    if rows.len() > 0 {
        let front = rows.drop_last();
        assert forall|k: int| 0 <= k < front.len() && is_data_row(k, #[trigger] front[k]) implies front[k][1].link is Some
            && front[k][3].link is Some by {
            assert(front[k] == rows[k]);
        }
        lemma_valid_rows_give_records(front);
    }
    lemma_record_count(rows);
    assert forall|k: int| 0 <= k < rows.len() && is_data_row(k, #[trigger] rows[k]) implies scraped(
        rows,
    )->Ok_0[data_count(rows.take(k)) as int] == decoded_record(rows[k]) by {
        lemma_record_at(rows, k);
    }
}

/// A row before the first data row, or with too few cells, contributes
/// nothing, whatever it holds: putting any other such row in its place leaves
/// the outcome unchanged.
pub proof fn lemma_skipped_row_ignored(rows: Seq<Seq<CellText>>, i: int, other: Seq<CellText>)
    requires
        0 <= i < rows.len(),
        !is_data_row(i, rows[i]),
        !is_data_row(i, other),
    ensures
        scraped(rows.update(i, other)) == scraped(rows),
        data_count(rows.update(i, other)) == data_count(rows),
    decreases rows.len(),
{
    let n = rows.len() - 1;
    let changed = rows.update(i, other);
    if i < n {
        lemma_skipped_row_ignored(rows.drop_last(), i, other);
        assert(changed.drop_last() =~= rows.drop_last().update(i, other));
    } else {
        assert(changed.drop_last() =~= rows.drop_last());
    }
}

/// A data row without a hyperlink in its artist cell fails the whole parse,
/// with the error of that row or of an earlier one.
pub proof fn lemma_missing_artist_link_fails(rows: Seq<Seq<CellText>>, k: int)
    requires
        0 <= k < rows.len(),
        is_data_row(k, rows[k]),
        rows[k][1].link is None,
    ensures
        match scraped(rows) {
            Err(ParseError::MissingLink { row, column: _ }) => row <= k,
            _ => false,
        },
    decreases rows.len(),
{
    let n = rows.len() - 1;
    if k < n {
        lemma_missing_artist_link_fails(rows.drop_last(), k);
    } else {
        lemma_missing_link_is_earlier(rows.drop_last());
    }
}

/// Every failure of the rows is a missing hyperlink in one of them.
proof fn lemma_missing_link_is_earlier(rows: Seq<Seq<CellText>>)
    ensures
        match scraped(rows) {
            Ok(_) => true,
            Err(ParseError::MissingLink { row, column: _ }) => row < rows.len(),
            _ => false,
        },
    decreases rows.len(),
{
    if rows.len() > 0 {
        lemma_missing_link_is_earlier(rows.drop_last());
    }
}

/// Records come out in the order of their rows: of two data rows, the earlier
/// one's record stands before the later one's.
pub proof fn lemma_records_keep_row_order(rows: Seq<Seq<CellText>>, i: int, j: int)
    requires
        scraped(rows) is Ok,
        0 <= i < j < rows.len(),
        is_data_row(i, rows[i]),
        is_data_row(j, rows[j]),
    ensures
        data_count(rows.take(i)) < data_count(rows.take(j)),
        data_count(rows.take(j)) < scraped(rows)->Ok_0.len(),
        scraped(rows)->Ok_0[data_count(rows.take(i)) as int] == record_of(i, rows[i])->Ok_0,
        scraped(rows)->Ok_0[data_count(rows.take(j)) as int] == record_of(j, rows[j])->Ok_0,
{
    lemma_count_grows(rows, i, j);
    lemma_record_at(rows, i);
    lemma_record_at(rows, j);
}

} // verus!
