//! What is shown on a terminal: painted text and tables.
use colored::Colorize;
use vstd::prelude::*;

verus! {

/// How a piece of text is painted.
#[derive(Debug, Clone, Copy, PartialEq, Eq, Structural)]
pub enum Style {
    Plain,
    Bold,
    Red,
    Green,
    Yellow,
    Blue,
    BoldRed,
    BoldGreen,
    BoldYellow,
    BoldCyan,
}

impl Style {
    /// The codes that switch a terminal to the style.
    pub open spec fn codes(self) -> Seq<char> {
        match self {
            Style::Plain => ""@,
            Style::Bold => "1"@,
            Style::Red => "31"@,
            Style::Green => "32"@,
            Style::Yellow => "33"@,
            Style::Blue => "34"@,
            Style::BoldRed => "1;31"@,
            Style::BoldGreen => "1;32"@,
            Style::BoldYellow => "1;33"@,
            Style::BoldCyan => "1;36"@,
        }
    }

    /// What switches a terminal to the style.
    pub open spec fn escape(self) -> Seq<char> {
        "\u{1b}["@ + self.codes() + "m"@
    }
}

/// What switches a terminal back to plain text.
pub open spec fn reset() -> Seq<char> {
    "\u{1b}[0m"@
}

/// `text`, with `escape` after each place where it switches back to plain text.
pub open spec fn restyled(text: Seq<char>, escape: Seq<char>) -> Seq<char>
    decreases text.len(),
{
    if text.len() == 0 || reset().len() == 0 {
        text
    } else if text.len() >= reset().len() && text.take(reset().len() as int) == reset() {
        reset() + escape + restyled(text.skip(reset().len() as int), escape)
    } else {
        seq![text[0]] + restyled(text.skip(1), escape)
    }
}

/// Whether `painted` is `text` in a style: the text as it is, as where there is no
/// terminal, or the text between what switches to the style and back.
pub open spec fn is_painting(text: Seq<char>, style: Style, painted: Seq<char>) -> bool {
    ||| painted == text
    ||| style != Style::Plain && painted == style.escape() + restyled(text, style.escape())
        + reset()
}

/// Paints text: the methods of `colored::Colorize`, then `Display` of the result.
/// Whether it paints at all depends on the terminal and the environment; where it
/// does, the text stands between the escape sequences of the style.
#[verifier::external_body]
fn paint(text: &str, style: Style) -> (painted: String)
    ensures
        is_painting(text@, style, painted@),
{
    match style {
        Style::Plain => text.normal(),
        Style::Bold => text.bold(),
        Style::Red => text.red(),
        Style::Green => text.green(),
        Style::Yellow => text.yellow(),
        Style::Blue => text.blue(),
        Style::BoldRed => text.red().bold(),
        Style::BoldGreen => text.green().bold(),
        Style::BoldYellow => text.yellow().bold(),
        Style::BoldCyan => text.cyan().bold(),
    }.to_string()
}

/// A piece of text in one style.
#[derive(Debug)]
pub struct Span {
    pub text: String,
    pub style: Style,
}

/// What a `Span` says.
pub struct SpanView {
    pub text: Seq<char>,
    pub style: Style,
}

impl View for Span {
    type V = SpanView;

    open spec fn view(&self) -> SpanView {
        SpanView { text: self.text@, style: self.style }
    }
}

/// What a list of spans says.
pub open spec fn span_views(spans: Seq<Span>) -> Seq<SpanView> {
    Seq::new(spans.len(), |i: int| spans[i]@)
}

/// A piece of text in a style, for contracts.
pub open spec fn in_style(text: Seq<char>, style: Style) -> SpanView {
    SpanView { text, style }
}

/// A piece of plain text, for contracts.
pub open spec fn plainly(text: Seq<char>) -> SpanView {
    SpanView { text, style: Style::Plain }
}

/// A piece of text in a style.
pub fn styled(text: &str, style: Style) -> (span: Span)
    ensures
        span@ == in_style(text@, style),
{
    Span { text: text.to_owned(), style }
}

/// A piece of plain text.
pub fn plain(text: &str) -> (span: Span)
    ensures
        span@ == plainly(text@),
{
    Span { text: text.to_owned(), style: Style::Plain }
}

/// A number in a style.
pub fn styled_number(n: u64, style: Style) -> (span: Span)
    ensures
        span@ == in_style(crate::text::decimal(n as nat), style),
{
    let mut text = String::new();
    crate::text::push_decimal(&mut text, n);
    assert(text@ =~= crate::text::decimal(n as nat));
    Span { text, style }
}

/// All texts, one after the other.
pub open spec fn concatenated(texts: Seq<Seq<char>>) -> Seq<char>
    decreases texts.len(),
{
    if texts.len() == 0 {
        Seq::empty()
    } else {
        concatenated(texts.drop_last()) + texts.last()
    }
}

/// Whether `pieces` are the spans, each painted.
pub open spec fn are_paintings(spans: Seq<SpanView>, pieces: Seq<Seq<char>>) -> bool {
    &&& pieces.len() == spans.len()
    &&& forall|i: int|
        0 <= i < spans.len() ==> is_painting(spans[i].text, spans[i].style, #[trigger] pieces[i])
}

/// Whether `text` is the spans, each painted, one after the other.
pub open spec fn is_rendering(spans: Seq<SpanView>, text: Seq<char>) -> bool {
    exists|pieces: Seq<Seq<char>>| #[trigger]
        are_paintings(spans, pieces) && text == concatenated(pieces)
}

/// Paints spans, one after the other.
pub fn render(spans: &Vec<Span>) -> (text: String)
    ensures
        is_rendering(span_views(spans@), text@),
{
    let mut text = String::new();
    let ghost mut pieces: Seq<Seq<char>> = Seq::empty();
    let mut i: usize = 0;
    while i < spans.len()
        invariant
            i <= spans.len(),
            pieces.len() == i,
            text@ == concatenated(pieces),
            forall|j: int|
                0 <= j < i ==> is_painting(
                    spans@[j]@.text,
                    spans@[j]@.style,
                    #[trigger] pieces[j],
                ),
        decreases spans.len() - i,
    {
        let painted = paint(spans[i].text.as_str(), spans[i].style);
        text.append(painted.as_str());
        proof {
            let before = pieces;
            pieces = pieces.push(painted@);
            assert(pieces.drop_last() =~= before);
        }
        i += 1;
    }
    assert(are_paintings(span_views(spans@), pieces));
    text
}

/// The texts of the spans, one after the other, are themselves a rendering: the one
/// without a terminal.
pub proof fn plain_text_is_a_rendering(spans: Seq<SpanView>)
    ensures
        is_rendering(spans, concatenated(Seq::new(spans.len(), |i: int| spans[i].text))),
{
    let pieces = Seq::new(spans.len(), |i: int| spans[i].text);
    assert(are_paintings(spans, pieces));
}

/// The colours in tables.
#[derive(Debug, Clone, Copy, PartialEq, Eq, Structural)]
pub enum Color {
    Red,
    Green,
    Yellow,
    Blue,
}

/// How the text of a table cell is set.
#[derive(Debug, Clone, Copy, PartialEq, Eq, Structural)]
pub enum CellStyle {
    Plain,
    Colored(Color),
    Bold(Color),
}

/// A cell of a table.
#[derive(Debug)]
pub struct TableCell {
    pub text: String,
    pub style: CellStyle,
}

/// What a `TableCell` says.
pub struct CellView {
    pub text: Seq<char>,
    pub style: CellStyle,
}

impl View for TableCell {
    type V = CellView;

    open spec fn view(&self) -> CellView {
        CellView { text: self.text@, style: self.style }
    }
}

/// What a row of cells says.
pub open spec fn cell_views(cells: Seq<TableCell>) -> Seq<CellView> {
    Seq::new(cells.len(), |i: int| cells[i]@)
}

/// What rows of cells say.
pub open spec fn row_views(rows: Seq<Vec<TableCell>>) -> Seq<Seq<CellView>> {
    Seq::new(rows.len(), |i: int| cell_views(rows[i]@))
}

/// A cell, for contracts.
pub open spec fn cell_of(text: Seq<char>, style: CellStyle) -> CellView {
    CellView { text, style }
}

/// A cell of a table.
pub fn cell(text: &str, style: CellStyle) -> (c: TableCell)
    ensures
        c@ == cell_of(text@, style),
{
    TableCell { text: text.to_owned(), style }
}

/// A row of a table, as comfy-table keeps it.
#[verifier::external_type_specification]
#[verifier::external_body]
pub struct ExRow(comfy_table::Row);

/// A table, as comfy-table keeps it.
#[verifier::external_type_specification]
#[verifier::external_body]
pub struct ExTable(comfy_table::Table);

/// The cells that a row of comfy-table holds.
pub uninterp spec fn row_cells(row: comfy_table::Row) -> Seq<CellView>;

/// The cells of the header that a table of comfy-table holds.
pub uninterp spec fn table_header(table: comfy_table::Table) -> Seq<CellView>;

/// The rows that a table of comfy-table holds.
pub uninterp spec fn table_rows(table: comfy_table::Table) -> Seq<Seq<CellView>>;

/// Whether a table of comfy-table has its default style, arranges its content by the
/// width of the terminal, and is otherwise as it was made.
pub uninterp spec fn is_dynamic(table: comfy_table::Table) -> bool;

/// Whether a header was set on a table of comfy-table.
pub uninterp spec fn has_header(table: comfy_table::Table) -> bool;

/// `comfy_table::Row::new`: a row without cells.
#[verifier::external_body]
fn new_row() -> (row: comfy_table::Row)
    ensures
        row_cells(row) == Seq::<CellView>::empty(),
{
    comfy_table::Row::new()
}

/// `comfy_table::Row::add_cell` with a cell that was not styled.
#[verifier::external_body]
fn add_plain_cell(row: &mut comfy_table::Row, text: &str)
    ensures
        row_cells(*final(row)) == row_cells(*old(row)).push(cell_of(text@, CellStyle::Plain)),
{
    row.add_cell(comfy_table::Cell::new(text));
}

/// `comfy_table::Row::add_cell` with a cell in a colour.
#[verifier::external_body]
fn add_colored_cell(row: &mut comfy_table::Row, text: &str, color: Color)
    ensures
        row_cells(*final(row)) == row_cells(*old(row)).push(
            cell_of(text@, CellStyle::Colored(color)),
        ),
{
    row.add_cell(comfy_table::Cell::new(text).fg(match color {
        Color::Red => comfy_table::Color::Red,
        Color::Green => comfy_table::Color::Green,
        Color::Yellow => comfy_table::Color::Yellow,
        Color::Blue => comfy_table::Color::Blue,
    }));
}

/// `comfy_table::Row::add_cell` with a bold cell in a colour.
#[verifier::external_body]
fn add_bold_cell(row: &mut comfy_table::Row, text: &str, color: Color)
    ensures
        row_cells(*final(row)) == row_cells(*old(row)).push(cell_of(text@, CellStyle::Bold(color))),
{
    row.add_cell(comfy_table::Cell::new(text).fg(match color {
        Color::Red => comfy_table::Color::Red,
        Color::Green => comfy_table::Color::Green,
        Color::Yellow => comfy_table::Color::Yellow,
        Color::Blue => comfy_table::Color::Blue,
    }).add_attribute(comfy_table::Attribute::Bold));
}

/// `comfy_table::Table::new` and `set_content_arrangement`: a table without header
/// and rows.
#[verifier::external_body]
fn new_table() -> (table: comfy_table::Table)
    ensures
        is_dynamic(table),
        !has_header(table),
        table_header(table) == Seq::<CellView>::empty(),
        table_rows(table) == Seq::<Seq<CellView>>::empty(),
{
    let mut table = comfy_table::Table::new();
    table.set_content_arrangement(comfy_table::ContentArrangement::Dynamic);
    table
}

/// `comfy_table::Table::set_header`: the header becomes `row`, and the rows stay. It is
/// set once: a table keeps the columns of a header that is replaced.
#[verifier::external_body]
fn set_header(table: &mut comfy_table::Table, row: comfy_table::Row)
    requires
        !has_header(*old(table)),
    ensures
        has_header(*final(table)),
        is_dynamic(*final(table)) == is_dynamic(*old(table)),
        table_header(*final(table)) == row_cells(row),
        table_rows(*final(table)) == table_rows(*old(table)),
{
    table.set_header(row);
}

/// `comfy_table::Table::add_row`: `row` becomes the last row, and the header stays.
#[verifier::external_body]
fn add_row(table: &mut comfy_table::Table, row: comfy_table::Row)
    ensures
        is_dynamic(*final(table)) == is_dynamic(*old(table)),
        has_header(*final(table)) == has_header(*old(table)),
        table_header(*final(table)) == table_header(*old(table)),
        table_rows(*final(table)) == table_rows(*old(table)).push(row_cells(row)),
{
    table.add_row(row);
}

/// What of a terminal shows in a table: its width, where there is one, and whether
/// it shows styles and colours.
pub struct Terminal {
    pub width: Option<u16>,
    pub styles: bool,
    pub colors: bool,
}

/// What comfy-table writes for a table on a terminal.
pub uninterp spec fn table_text(
    header: Seq<CellView>,
    rows: Seq<Seq<CellView>>,
    terminal: Terminal,
) -> Seq<char>;

/// `Display` of `comfy_table::Table`, for a table on which one header was set. The text
/// depends on the header, the rows and the terminal that the process writes to, and on
/// nothing else; which terminal there is, is not for the caller to say.
#[verifier::external_body]
fn write_table(table: &comfy_table::Table) -> (text: String)
    requires
        is_dynamic(*table),
        has_header(*table),
    ensures
        exists|terminal: Terminal|
            text@ == #[trigger] table_text(table_header(*table), table_rows(*table), terminal),
{
    table.to_string()
}

/// Whether `text` shows a table with this header and these rows.
pub open spec fn shows_table(
    header: Seq<CellView>,
    rows: Seq<Seq<CellView>>,
    text: Seq<char>,
) -> bool {
    exists|terminal: Terminal| text == #[trigger] table_text(header, rows, terminal)
}

fn make_row(cells: &Vec<TableCell>) -> (row: comfy_table::Row)
    ensures
        row_cells(row) == cell_views(cells@),
{
    let mut row = new_row();
    let mut i: usize = 0;
    while i < cells.len()
        invariant
            i <= cells.len(),
            row_cells(row) == cell_views(cells@).take(i as int),
        decreases cells.len() - i,
    {
        let text = cells[i].text.as_str();
        match cells[i].style {
            CellStyle::Plain => add_plain_cell(&mut row, text),
            CellStyle::Colored(color) => add_colored_cell(&mut row, text, color),
            CellStyle::Bold(color) => add_bold_cell(&mut row, text, color),
        }
        assert(cell_views(cells@).take(i + 1) =~= cell_views(cells@).take(i as int).push(
            cells@[i as int]@,
        ));
        i += 1;
    }
    assert(cell_views(cells@).take(cells@.len() as int) =~= cell_views(cells@));
    row
}

/// Writes a table with this header and these rows.
pub fn draw_table(header: &Vec<TableCell>, rows: &Vec<Vec<TableCell>>) -> (text: String)
    ensures
        shows_table(cell_views(header@), row_views(rows@), text@),
{
    let mut table = new_table();
    set_header(&mut table, make_row(header));
    let mut i: usize = 0;
    while i < rows.len()
        invariant
            i <= rows.len(),
            is_dynamic(table),
            has_header(table),
            table_header(table) == cell_views(header@),
            table_rows(table) == row_views(rows@).take(i as int),
        decreases rows.len() - i,
    {
        add_row(&mut table, make_row(&rows[i]));
        assert(row_views(rows@).take(i + 1) =~= row_views(rows@).take(i as int).push(
            cell_views(rows@[i as int]@),
        ));
        i += 1;
    }
    assert(row_views(rows@).take(rows@.len() as int) =~= row_views(rows@));
    write_table(&table)
}

/// What is plain throughout is shown as it is: one text after the other.
pub proof fn plain_spans_are_shown_as_they_are(spans: Seq<SpanView>, text: Seq<char>)
    requires
        is_rendering(spans, text),
        forall|i: int| 0 <= i < spans.len() ==> (#[trigger] spans[i]).style == Style::Plain,
    ensures
        text == concatenated(Seq::new(spans.len(), |i: int| spans[i].text)),
{
    let pieces = choose|pieces: Seq<Seq<char>>| #[trigger]
        are_paintings(spans, pieces) && text == concatenated(pieces);
    assert(pieces =~= Seq::new(spans.len(), |i: int| spans[i].text)) by {
        assert forall|i: int| 0 <= i < spans.len() implies pieces[i] == spans[i].text by {
            assert(is_painting(spans[i].text, spans[i].style, pieces[i]));
        }
    }
}

/// What is shown of two lists, one after the other, is what is shown of the first, and then
/// of the second.
pub proof fn lists_are_shown_one_after_the_other(
    spans: Seq<SpanView>,
    more: Seq<SpanView>,
    text: Seq<char>,
    more_text: Seq<char>,
)
    requires
        is_rendering(spans, text),
        is_rendering(more, more_text),
    ensures
        is_rendering(spans + more, text + more_text),
{
    let a = choose|pieces: Seq<Seq<char>>| #[trigger]
        are_paintings(spans, pieces) && text == concatenated(pieces);
    let b = choose|pieces: Seq<Seq<char>>| #[trigger]
        are_paintings(more, pieces) && more_text == concatenated(pieces);
    let both = a + b;
    assert forall|i: int| 0 <= i < (spans + more).len() implies is_painting(
        (spans + more)[i].text,
        (spans + more)[i].style,
        #[trigger] both[i],
    ) by {
        if i < spans.len() {
            assert(is_painting(spans[i].text, spans[i].style, a[i]));
        } else {
            assert(is_painting(
                more[i - spans.len()].text,
                more[i - spans.len()].style,
                b[i - spans.len()],
            ));
        }
    }
    assert(are_paintings(spans + more, both));
    lemma_concatenated(a, b);
}

proof fn lemma_concatenated(a: Seq<Seq<char>>, b: Seq<Seq<char>>)
    ensures
        concatenated(a + b) == concatenated(a) + concatenated(b),
    decreases b.len(),
{
    if b.len() == 0 {
        assert(a + b =~= a);
        assert(concatenated(a) + concatenated(b) =~= concatenated(a));
    } else {
        lemma_concatenated(a, b.drop_last());
        assert((a + b).drop_last() =~= a + b.drop_last());
        assert(concatenated(a + b) =~= concatenated(a) + concatenated(b));
    }
}

} // verus!
