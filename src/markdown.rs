//! Markdown rendering into styled lines, driven by an abstract stream of parser
//! events. A style stack composes nested emphasis; tables become fixed-width grids.
use vstd::prelude::*;
use crate::text::{chars_of, push_all, push_char, trim, trimmed, views_of};

verus! {

/// The colours the renderer uses.
#[derive(Debug, Clone, Copy, PartialEq, Eq, Structural)]
pub enum Color {
    Cyan,
    Green,
    Yellow,
    Magenta,
    Blue,
    Gray,
    DarkGray,
}

/// A text style: an optional foreground colour and four modifiers.
#[derive(Debug, Clone, Copy, PartialEq, Eq, Structural)]
pub struct TextStyle {
    pub fg: Option<Color>,
    pub bold: bool,
    pub italic: bool,
    pub underlined: bool,
    pub crossed_out: bool,
}

/// A run of text in one style.
#[derive(Debug, Clone)]
pub struct StyledSpan {
    pub text: String,
    pub style: TextStyle,
}

/// One output line: its spans, left to right.
#[derive(Debug, Clone)]
pub struct StyledLine {
    pub spans: Vec<StyledSpan>,
}

/// A span as text and style.
pub type SpanView = (Seq<char>, TextStyle);

/// A line as its spans.
pub type LineView = Seq<SpanView>;

impl View for StyledSpan {
    type V = SpanView;

    open spec fn view(&self) -> SpanView {
        (self.text@, self.style)
    }
}

/// The spans `v` as views.
pub open spec fn spans_view(v: Seq<StyledSpan>) -> LineView {
    v.map_values(|s: StyledSpan| s@)
}

impl View for StyledLine {
    type V = LineView;

    open spec fn view(&self) -> LineView {
        spans_view(self.spans@)
    }
}

/// The lines `v` as views.
pub open spec fn lines_view(v: Seq<StyledLine>) -> Seq<LineView> {
    v.map_values(|l: StyledLine| l@)
}

/// The block and inline constructs that a start event opens.
#[derive(Debug, Clone)]
pub enum MdTag {
    /// A heading of the given level, 1 to 6.
    Heading(u8),
    Paragraph,
    Strong,
    Emphasis,
    CodeBlock,
    Item,
    /// A link to the given destination.
    Link(String),
    Strikethrough,
    Table,
    TableHead,
    TableRow,
    TableCell,
    Other,
}

/// The constructs that an end event closes.
#[derive(Debug, Clone, Copy, PartialEq, Eq, Structural)]
pub enum MdTagEnd {
    Heading,
    Paragraph,
    Item,
    CodeBlock,
    Strong,
    Emphasis,
    Strikethrough,
    Link,
    TableHead,
    TableRow,
    TableCell,
    Table,
    Other,
}

/// One event of a markdown parser.
#[derive(Debug, Clone)]
pub enum MdEvent {
    Start(MdTag),
    End(MdTagEnd),
    Text(String),
    Code(String),
    SoftBreak,
    HardBreak,
    /// The marker of a task-list item, checked or not.
    TaskListMarker(bool),
    Other,
}

/// Width of a table column, in characters.
pub const COL_WIDTH: usize = 14;

pub open spec fn plain() -> TextStyle {
    TextStyle { fg: None, bold: false, italic: false, underlined: false, crossed_out: false }
}

pub open spec fn colored(c: Color) -> TextStyle {
    TextStyle { fg: Some(c), ..plain() }
}

pub open spec fn heading_style(level: u8) -> TextStyle {
    if level == 1 {
        TextStyle { bold: true, ..colored(Color::Cyan) }
    } else if level == 2 {
        TextStyle { bold: true, ..colored(Color::Green) }
    } else {
        TextStyle { bold: true, ..colored(Color::Yellow) }
    }
}

/// The state of the renderer between events.
pub struct RenderModel {
    pub lines: Seq<LineView>,
    pub spans: LineView,
    pub styles: Seq<TextStyle>,
    pub in_code: bool,
    pub pending_marker: bool,
    pub link: Option<Seq<char>>,
    pub in_table: bool,
    pub cells: Seq<Seq<char>>,
    pub cell: Seq<char>,
    pub cols: nat,
}

pub open spec fn initial_model() -> RenderModel {
    RenderModel {
        lines: Seq::empty(),
        spans: Seq::empty(),
        styles: seq![plain()],
        in_code: false,
        pending_marker: false,
        link: None,
        in_table: false,
        cells: Seq::empty(),
        cell: Seq::empty(),
        cols: 0,
    }
}

/// The style on top of the stack, or the plain style when it is empty.
pub open spec fn top_style(styles: Seq<TextStyle>) -> TextStyle {
    if styles.len() > 0 {
        styles.last()
    } else {
        plain()
    }
}

/// The stack without its top, when it has one.
pub open spec fn pop_style(styles: Seq<TextStyle>) -> Seq<TextStyle> {
    if styles.len() > 0 {
        styles.drop_last()
    } else {
        styles
    }
}

/// Ends the line being built, if it holds any span.
pub open spec fn flush(m: RenderModel) -> RenderModel {
    if m.spans.len() > 0 {
        RenderModel { lines: m.lines.push(m.spans), spans: Seq::empty(), ..m }
    } else {
        m
    }
}

pub open spec fn blank(m: RenderModel) -> RenderModel {
    RenderModel { lines: m.lines.push(Seq::empty()), ..m }
}

pub open spec fn add_span(m: RenderModel, text: Seq<char>, style: TextStyle) -> RenderModel {
    RenderModel { spans: m.spans.push((text, style)), ..m }
}

pub open spec fn add_line(m: RenderModel, line: LineView) -> RenderModel {
    RenderModel { lines: m.lines.push(line), ..m }
}

/// `n` copies of `c`.
pub open spec fn repeat(c: char, n: nat) -> Seq<char>
    decreases n,
{
    if n == 0 {
        Seq::empty()
    } else {
        repeat(c, (n - 1) as nat).push(c)
    }
}

/// `n` horizontal rules of column width, joined by `mid`.
pub open spec fn rule_body(mid: char, n: nat) -> Seq<char>
    decreases n,
{
    if n == 0 {
        Seq::empty()
    } else if n == 1 {
        repeat('─', COL_WIDTH as nat)
    } else {
        rule_body(mid, (n - 1) as nat).push(mid) + repeat('─', COL_WIDTH as nat)
    }
}

/// A border line of a table with `n` columns.
pub open spec fn border(left: char, mid: char, right: char, n: nat) -> Seq<char> {
    seq![left] + rule_body(mid, n) + seq![right]
}

pub open spec fn border_line(left: char, mid: char, right: char, n: nat) -> LineView {
    seq![(border(left, mid, right, n), colored(Color::DarkGray))]
}

/// `cell` centred in a column: the padding is split with the smaller half on the left.
pub open spec fn centered(cell: Seq<char>) -> Seq<char> {
    if cell.len() >= COL_WIDTH {
        cell
    } else {
        let pad = (COL_WIDTH - cell.len()) as nat;
        repeat(' ', pad / 2) + cell + repeat(' ', (pad - pad / 2) as nat)
    }
}

/// A table row: a border bar, then each cell centred in `style` followed by a bar.
pub open spec fn table_row(cells: Seq<Seq<char>>, style: TextStyle) -> LineView
    decreases cells.len(),
{
    if cells.len() == 0 {
        seq![(seq!['│'], colored(Color::DarkGray))]
    } else {
        table_row(cells.drop_last(), style).push((centered(cells.last()), style)).push(
            (seq!['│'], colored(Color::DarkGray)),
        )
    }
}

pub open spec fn header_style() -> TextStyle {
    TextStyle { bold: true, ..colored(Color::Cyan) }
}

/// One line of a code block: indented, in the code colour, on a line of its own.
pub open spec fn code_piece(m: RenderModel, piece: Seq<char>) -> RenderModel {
    add_span(flush(m), seq![' ', ' ', ' ', ' '] + piece, colored(Color::Gray))
}

/// The pieces of `s` completed by a newline, and the piece still open.
pub open spec fn newline_scan(s: Seq<char>) -> (Seq<Seq<char>>, Seq<char>)
    decreases s.len(),
{
    if s.len() == 0 {
        (Seq::empty(), Seq::empty())
    } else {
        let (done, cur) = newline_scan(s.drop_last());
        if s.last() == '\n' {
            (done.push(cur), Seq::empty())
        } else {
            (done, cur.push(s.last()))
        }
    }
}

/// The pieces of `s` between newlines (what `str::split('\n')` yields).
pub open spec fn split_lines(s: Seq<char>) -> Seq<Seq<char>> {
    newline_scan(s).0.push(newline_scan(s).1)
}

/// The lines of a code-block text: the pieces between newlines, without the
/// empty piece after a final newline (each code line ends in one).
pub open spec fn code_lines(s: Seq<char>) -> Seq<Seq<char>> {
    if s.len() > 0 && s.last() == '\n' {
        newline_scan(s).0
    } else {
        split_lines(s)
    }
}

pub open spec fn code_pieces(m: RenderModel, ps: Seq<Seq<char>>) -> RenderModel
    decreases ps.len(),
{
    if ps.len() == 0 {
        m
    } else {
        code_piece(code_pieces(m, ps.drop_last()), ps.last())
    }
}

pub open spec fn marker_glyph(checked: bool) -> Seq<char> {
    if checked {
        seq![' ', ' ', '☑', ' ']
    } else {
        seq![' ', ' ', '☐', ' ']
    }
}

pub open spec fn bullet() -> Seq<char> {
    seq![' ', ' ', '•', ' ']
}

pub open spec fn start_step(m: RenderModel, t: MdTag) -> RenderModel {
    let top = top_style(m.styles);
    match t {
        MdTag::Heading(level) => RenderModel { styles: m.styles.push(heading_style(level)), ..m },
        MdTag::Strong => RenderModel { styles: m.styles.push(TextStyle { bold: true, ..top }), ..m },
        MdTag::Emphasis => RenderModel {
            styles: m.styles.push(TextStyle { italic: true, ..top }),
            ..m
        },
        MdTag::CodeBlock => RenderModel { in_code: true, ..m },
        MdTag::Item => RenderModel { pending_marker: true, ..m },
        MdTag::Link(url) => RenderModel {
            link: Some(url@),
            styles: m.styles.push(TextStyle { fg: Some(Color::Blue), underlined: true, ..top }),
            ..m
        },
        MdTag::Strikethrough => RenderModel {
            styles: m.styles.push(TextStyle { crossed_out: true, ..top }),
            ..m
        },
        MdTag::Table => RenderModel { in_table: true, ..m },
        MdTag::TableRow => RenderModel { cells: Seq::empty(), ..m },
        MdTag::TableCell => RenderModel { cell: Seq::empty(), ..m },
        _ => m,
    }
}

pub open spec fn end_step(m: RenderModel, t: MdTagEnd) -> RenderModel {
    match t {
        MdTagEnd::Heading => blank(flush(RenderModel { styles: pop_style(m.styles), ..m })),
        MdTagEnd::Paragraph => blank(flush(m)),
        MdTagEnd::Item => flush(RenderModel { pending_marker: false, ..m }),
        MdTagEnd::CodeBlock => blank(flush(RenderModel { in_code: false, ..m })),
        MdTagEnd::Strong | MdTagEnd::Emphasis | MdTagEnd::Strikethrough => RenderModel {
            styles: pop_style(m.styles),
            ..m
        },
        MdTagEnd::Link => {
            let p = RenderModel { styles: pop_style(m.styles), link: None, ..m };
            match m.link {
                Some(url) => add_span(
                    p,
                    seq![' ', '('] + url + seq![')'],
                    colored(Color::DarkGray),
                ),
                None => p,
            }
        },
        MdTagEnd::TableHead => {
            if m.cells.len() > 0 {
                let n = m.cells.len();
                let p = add_line(
                    add_line(
                        add_line(m, border_line('┌', '┬', '┐', n)),
                        table_row(m.cells, header_style()),
                    ),
                    border_line('├', '┼', '┤', n),
                );
                RenderModel { cols: n, cells: Seq::empty(), ..p }
            } else {
                m
            }
        },
        MdTagEnd::TableRow => {
            if m.cells.len() > 0 {
                RenderModel { cells: Seq::empty(), ..add_line(m, table_row(m.cells, plain())) }
            } else {
                m
            }
        },
        MdTagEnd::TableCell => RenderModel { cells: m.cells.push(m.cell), cell: Seq::empty(), ..m },
        MdTagEnd::Table => {
            let p = if m.cols > 0 {
                add_line(m, border_line('└', '┴', '┘', m.cols))
            } else {
                m
            };
            blank(RenderModel { in_table: false, cols: 0, ..p })
        },
        MdTagEnd::Other => m,
    }
}

pub open spec fn text_step(m: RenderModel, t: Seq<char>) -> RenderModel {
    let m1 = if m.pending_marker {
        add_span(RenderModel { pending_marker: false, ..m }, bullet(), colored(Color::Cyan))
    } else {
        m
    };
    if m1.in_table {
        RenderModel { cell: m1.cell + t, ..m1 }
    } else if m1.in_code {
        code_pieces(m1, code_lines(t))
    } else {
        add_span(m1, t, top_style(m1.styles))
    }
}

/// What one event does to the renderer's state.
pub open spec fn step(m: RenderModel, e: MdEvent) -> RenderModel {
    match e {
        MdEvent::Start(t) => start_step(m, t),
        MdEvent::End(t) => end_step(m, t),
        MdEvent::Text(t) => text_step(m, t@),
        MdEvent::Code(c) => add_span(m, seq!['`'] + c@ + seq!['`'], colored(Color::Magenta)),
        MdEvent::SoftBreak | MdEvent::HardBreak => flush(m),
        MdEvent::TaskListMarker(checked) => add_span(
            RenderModel { pending_marker: false, ..m },
            marker_glyph(checked),
            colored(if checked { Color::Green } else { Color::Yellow }),
        ),
        MdEvent::Other => m,
    }
}

/// The state after the events `es`, from the initial state.
pub open spec fn run(es: Seq<MdEvent>) -> RenderModel
    decreases es.len(),
{
    if es.len() == 0 {
        initial_model()
    } else {
        step(run(es.drop_last()), es.last())
    }
}

/// The lines rendered from the events `es`: the open line is ended, and an
/// empty result becomes one empty line.
pub open spec fn rendered(es: Seq<MdEvent>) -> Seq<LineView> {
    let m = flush(run(es));
    if m.lines.len() == 0 {
        seq![Seq::empty()]
    } else {
        m.lines
    }
}

/// The line shown for an empty or blank note.
pub open spec fn placeholder() -> LineView {
    seq![("(empty note)"@, colored(Color::DarkGray))]
}


proof fn lemma_lines_push(v: Seq<StyledLine>, l: StyledLine)
    ensures
        lines_view(v.push(l)) == lines_view(v).push(l@),
{
    assert(lines_view(v.push(l)) =~= lines_view(v).push(l@));
}

proof fn lemma_spans_push(v: Seq<StyledSpan>, x: StyledSpan)
    ensures
        spans_view(v.push(x)) == spans_view(v).push(x@),
{
    assert(spans_view(v.push(x)) =~= spans_view(v).push(x@));
}

proof fn lemma_strings_push(v: Seq<String>, x: String)
    ensures
        views_of(v.push(x)) == views_of(v).push(x@),
{
    assert(views_of(v.push(x)) =~= views_of(v).push(x@));
}

fn plain_style() -> (r: TextStyle)
    ensures
        r == plain(),
{
    TextStyle { fg: None, bold: false, italic: false, underlined: false, crossed_out: false }
}

fn colored_style(c: Color) -> (r: TextStyle)
    ensures
        r == colored(c),
{
    TextStyle { fg: Some(c), bold: false, italic: false, underlined: false, crossed_out: false }
}

/// The characters `v` as a string.
fn text_of(v: Vec<char>) -> (r: String)
    ensures
        r@ == v@,
{
    crate::text::string_of(&v)
}

/// Appends `n` copies of `c` to `s`.
fn push_repeat(s: &mut String, c: char, n: usize)
    ensures
        final(s)@ == old(s)@ + repeat(c, n as nat),
{
    let mut i: usize = 0;
    while i < n
        invariant
            i <= n,
            s@ == old(s)@ + repeat(c, i as nat),
        decreases n - i,
    {
        push_char(s, c);
        proof {
            assert(old(s)@ + repeat(c, (i + 1) as nat) =~= (old(s)@ + repeat(c, i as nat)).push(c));
        }
        i = i + 1;
    }
}

fn border_text(left: char, mid: char, right: char, n: usize) -> (r: String)
    ensures
        r@ == border(left, mid, right, n as nat),
{
    let mut r = String::new();
    push_char(&mut r, left);
    let mut i: usize = 0;
    while i < n
        invariant
            i <= n,
            r@ == seq![left] + rule_body(mid, i as nat),
        decreases n - i,
    {
        if i > 0 {
            push_char(&mut r, mid);
        }
        push_repeat(&mut r, '─', COL_WIDTH);
        proof {
            let dashes = repeat('─', COL_WIDTH as nat);
            if i == 0 {
                assert(seq![left] + rule_body(mid, 1) =~= seq![left] + Seq::<char>::empty() + dashes);
            } else {
                assert(seq![left] + rule_body(mid, (i + 1) as nat) =~= (seq![left] + rule_body(
                    mid,
                    i as nat,
                )).push(mid) + dashes);
            }
        }
        i = i + 1;
    }
    push_char(&mut r, right);
    r
}

fn centered_text(cell: &String) -> (r: String)
    ensures
        r@ == centered(cell@),
{
    let n = chars_of(cell.as_str()).len();
    if n >= COL_WIDTH {
        return cell.clone();
    }
    let pad = COL_WIDTH - n;
    let mut r = String::new();
    push_repeat(&mut r, ' ', pad / 2);
    push_all(&mut r, cell.as_str());
    push_repeat(&mut r, ' ', pad - pad / 2);
    proof {
        assert(r@ =~= centered(cell@));
    }
    r
}

fn bar_span() -> (r: StyledSpan)
    ensures
        r@ == (seq!['│'], colored(Color::DarkGray)),
{
    let mut t = String::new();
    push_char(&mut t, '│');
    StyledSpan { text: t, style: colored_style(Color::DarkGray) }
}

fn table_row_line(cells: &Vec<String>, style: TextStyle) -> (r: StyledLine)
    ensures
        r@ == table_row(views_of(cells@), style),
{
    let mut spans: Vec<StyledSpan> = Vec::new();
    spans.push(bar_span());
    proof {
        assert(views_of(cells@.take(0)) =~= Seq::<Seq<char>>::empty());
        assert(spans_view(spans@) =~= table_row(Seq::empty(), style));
    }
    let mut i: usize = 0;
    while i < cells.len()
        invariant
            i <= cells.len(),
            spans_view(spans@) == table_row(views_of(cells@.take(i as int)), style),
        decreases cells.len() - i,
    {
        let ghost before = spans@;
        let c = centered_text(&cells[i]);
        let sp = StyledSpan { text: c, style };
        spans.push(sp);
        let b = bar_span();
        spans.push(b);
        proof {
            lemma_spans_push(before, sp);
            lemma_spans_push(before.push(sp), b);
            let cs = views_of(cells@.take(i + 1));
            assert(cs.drop_last() =~= views_of(cells@.take(i as int)));
            assert(cs.last() == cells@[i as int]@);
        }
        i = i + 1;
    }
    proof {
        assert(cells@.take(cells.len() as int) == cells@);
    }
    StyledLine { spans }
}

fn border_span_line(left: char, mid: char, right: char, n: usize) -> (r: StyledLine)
    ensures
        r@ == border_line(left, mid, right, n as nat),
{
    let t = border_text(left, mid, right, n);
    let sp = StyledSpan { text: t, style: colored_style(Color::DarkGray) };
    let mut spans: Vec<StyledSpan> = Vec::new();
    spans.push(sp);
    proof {
        assert(spans_view(spans@) =~= border_line(left, mid, right, n as nat));
    }
    StyledLine { spans }
}

/// The renderer's state between events.
struct Renderer {
    lines: Vec<StyledLine>,
    spans: Vec<StyledSpan>,
    styles: Vec<TextStyle>,
    in_code: bool,
    pending_marker: bool,
    link: Option<String>,
    in_table: bool,
    cells: Vec<String>,
    cell: String,
    cols: usize,
}

impl Renderer {
    spec fn model(&self) -> RenderModel {
        RenderModel {
            lines: lines_view(self.lines@),
            spans: spans_view(self.spans@),
            styles: self.styles@,
            in_code: self.in_code,
            pending_marker: self.pending_marker,
            link: match self.link {
                Some(u) => Some(u@),
                None => None,
            },
            in_table: self.in_table,
            cells: views_of(self.cells@),
            cell: self.cell@,
            cols: self.cols as nat,
        }
    }

    fn new() -> (r: Renderer)
        ensures
            r.model() == initial_model(),
    {
        let mut styles: Vec<TextStyle> = Vec::new();
        styles.push(plain_style());
        let r = Renderer {
            lines: Vec::new(),
            spans: Vec::new(),
            styles,
            in_code: false,
            pending_marker: false,
            link: None,
            in_table: false,
            cells: Vec::new(),
            cell: String::new(),
            cols: 0,
        };
        proof {
            assert(r.model().lines =~= initial_model().lines);
            assert(r.model().spans =~= initial_model().spans);
            assert(r.model().cells =~= initial_model().cells);
            assert(r.model().styles =~= initial_model().styles);
        }
        r
    }

    fn flush(&mut self)
        ensures
            final(self).model() == flush(old(self).model()),
    {
        if self.spans.len() > 0 {
            let mut spans: Vec<StyledSpan> = Vec::new();
            std::mem::swap(&mut spans, &mut self.spans);
            let line = StyledLine { spans };
            proof {
                lemma_lines_push(self.lines@, line);
            }
            self.lines.push(line);
            proof {
                assert(spans_view(self.spans@) =~= Seq::<SpanView>::empty());
            }
        }
    }

    fn push_line(&mut self, line: StyledLine)
        ensures
            final(self).model() == add_line(old(self).model(), line@),
    {
        proof {
            lemma_lines_push(self.lines@, line);
        }
        self.lines.push(line);
    }

    fn blank(&mut self)
        ensures
            final(self).model() == blank(old(self).model()),
    {
        let line = StyledLine { spans: Vec::new() };
        assert(line@ =~= Seq::<SpanView>::empty());
        self.push_line(line);
    }

    fn push_span(&mut self, text: String, style: TextStyle)
        ensures
            final(self).model() == add_span(old(self).model(), text@, style),
    {
        let sp = StyledSpan { text, style };
        proof {
            lemma_spans_push(self.spans@, sp);
        }
        self.spans.push(sp);
    }

    fn top_style(&self) -> (r: TextStyle)
        ensures
            r == top_style(self.model().styles),
    {
        if self.styles.len() > 0 {
            self.styles[self.styles.len() - 1]
        } else {
            plain_style()
        }
    }

    fn pop_style(&mut self)
        ensures
            final(self).model() == (RenderModel { styles: pop_style(old(self).model().styles), ..old(self).model() }),
    {
        let _ = self.styles.pop();
    }

    fn push_style(&mut self, st: TextStyle)
        ensures
            final(self).model() == (RenderModel { styles: old(self).model().styles.push(st), ..old(self).model() }),
    {
        self.styles.push(st);
    }

    fn start(&mut self, t: &MdTag)
        ensures
            final(self).model() == start_step(old(self).model(), *t),
    {
        let top = self.top_style();
        match t {
            MdTag::Heading(level) => {
                let st = if *level == 1 {
                    TextStyle { bold: true, ..colored_style(Color::Cyan) }
                } else if *level == 2 {
                    TextStyle { bold: true, ..colored_style(Color::Green) }
                } else {
                    TextStyle { bold: true, ..colored_style(Color::Yellow) }
                };
                self.push_style(st);
            },
            MdTag::Strong => self.push_style(TextStyle { bold: true, ..top }),
            MdTag::Emphasis => self.push_style(TextStyle { italic: true, ..top }),
            MdTag::CodeBlock => self.in_code = true,
            MdTag::Item => self.pending_marker = true,
            MdTag::Link(url) => {
                self.link = Some(url.clone());
                self.push_style(TextStyle { fg: Some(Color::Blue), underlined: true, ..top });
            },
            MdTag::Strikethrough => self.push_style(TextStyle { crossed_out: true, ..top }),
            MdTag::Table => self.in_table = true,
            MdTag::TableRow => {
                self.cells = Vec::new();
                assert(views_of(self.cells@) =~= Seq::<Seq<char>>::empty());
            },
            MdTag::TableCell => self.cell = String::new(),
            _ => {},
        }
    }

    fn end(&mut self, t: MdTagEnd)
        ensures
            final(self).model() == end_step(old(self).model(), t),
    {
        match t {
            MdTagEnd::Heading => {
                self.pop_style();
                self.flush();
                self.blank();
            },
            MdTagEnd::Paragraph => {
                self.flush();
                self.blank();
            },
            MdTagEnd::Item => {
                self.pending_marker = false;
                self.flush();
            },
            MdTagEnd::CodeBlock => {
                self.in_code = false;
                self.flush();
                self.blank();
            },
            MdTagEnd::Strong | MdTagEnd::Emphasis | MdTagEnd::Strikethrough => {
                self.pop_style();
            },
            MdTagEnd::Link => {
                self.pop_style();
                let mut url: Option<String> = None;
                std::mem::swap(&mut url, &mut self.link);
                match url {
                    Some(u) => {
                        let mut t = String::new();
                        push_char(&mut t, ' ');
                        push_char(&mut t, '(');
                        push_all(&mut t, u.as_str());
                        push_char(&mut t, ')');
                        proof {
                            assert(t@ =~= seq![' ', '('] + u@ + seq![')']);
                        }
                        self.push_span(t, colored_style(Color::DarkGray));
                    },
                    None => {},
                }
            },
            MdTagEnd::TableHead => {
                if self.cells.len() > 0 {
                    let n = self.cells.len();
                    let top = border_span_line('┌', '┬', '┐', n);
                    self.push_line(top);
                    let row = table_row_line(&self.cells, TextStyle { bold: true, ..colored_style(Color::Cyan) });
                    self.push_line(row);
                    let mid = border_span_line('├', '┼', '┤', n);
                    self.push_line(mid);
                    self.cols = n;
                    self.cells = Vec::new();
                    assert(views_of(self.cells@) =~= Seq::<Seq<char>>::empty());
                }
            },
            MdTagEnd::TableRow => {
                if self.cells.len() > 0 {
                    let row = table_row_line(&self.cells, plain_style());
                    self.push_line(row);
                    self.cells = Vec::new();
                    assert(views_of(self.cells@) =~= Seq::<Seq<char>>::empty());
                }
            },
            MdTagEnd::TableCell => {
                let mut c = String::new();
                std::mem::swap(&mut c, &mut self.cell);
                proof {
                    lemma_strings_push(self.cells@, c);
                }
                self.cells.push(c);
            },
            MdTagEnd::Table => {
                if self.cols > 0 {
                    let bottom = border_span_line('└', '┴', '┘', self.cols);
                    self.push_line(bottom);
                }
                self.in_table = false;
                self.cols = 0;
                self.blank();
            },
            MdTagEnd::Other => {},
        }
    }

    fn code_text(&mut self, t: &String)
        ensures
            final(self).model() == code_pieces(old(self).model(), code_lines(t@)),
    {
        let cs = chars_of(t.as_str());
        let mut cur: Vec<char> = Vec::new();
        let mut i: usize = 0;
        let ghost m0 = self.model();
        while i < cs.len()
            invariant
                i <= cs.len(),
                cs@ == t@,
                self.model() == code_pieces(m0, newline_scan(t@.take(i as int)).0),
                cur@ == newline_scan(t@.take(i as int)).1,
            decreases cs.len() - i,
        {
            proof {
                assert(t@.take(i + 1).drop_last() == t@.take(i as int));
            }
            if cs[i] == '\n' {
                let mut piece: Vec<char> = Vec::new();
                std::mem::swap(&mut piece, &mut cur);
                self.code_line(piece);
                proof {
                    let d = newline_scan(t@.take(i + 1)).0;
                    assert(d.drop_last() == newline_scan(t@.take(i as int)).0);
                }
            } else {
                cur.push(cs[i]);
            }
            i = i + 1;
        }
        proof {
            assert(t@.take(cs.len() as int) == t@);
        }
        if cs.len() > 0 && cs[cs.len() - 1] == '\n' {
            proof {
                assert(t@.last() == '\n');
            }
        } else {
            proof {
                let ps = split_lines(t@);
                assert(ps.drop_last() == newline_scan(t@).0);
            }
            self.code_line(cur);
        }
    }

    fn code_line(&mut self, piece: Vec<char>)
        ensures
            final(self).model() == code_piece(old(self).model(), piece@),
    {
        self.flush();
        let mut s = String::new();
        push_repeat(&mut s, ' ', 4);
        let p = text_of(piece);
        push_all(&mut s, p.as_str());
        proof {
            assert(s@ =~= seq![' ', ' ', ' ', ' '] + piece@) by {
                reveal_with_fuel(repeat, 5);
            }
        }
        self.push_span(s, colored_style(Color::Gray));
    }

    fn text(&mut self, t: &String)
        ensures
            final(self).model() == text_step(old(self).model(), t@),
    {
        if self.pending_marker {
            self.pending_marker = false;
            let b = text_of(vec![' ', ' ', '•', ' ']);
            proof {
                assert(b@ =~= bullet());
            }
            self.push_span(b, colored_style(Color::Cyan));
        }
        if self.in_table {
            push_all(&mut self.cell, t.as_str());
        } else if self.in_code {
            self.code_text(t);
        } else {
            let st = self.top_style();
            self.push_span(t.clone(), st);
        }
    }

    fn apply(&mut self, e: &MdEvent)
        ensures
            final(self).model() == step(old(self).model(), *e),
    {
        match e {
            MdEvent::Start(t) => self.start(t),
            MdEvent::End(t) => self.end(*t),
            MdEvent::Text(t) => self.text(t),
            MdEvent::Code(c) => {
                let mut s = String::new();
                push_char(&mut s, '`');
                push_all(&mut s, c.as_str());
                push_char(&mut s, '`');
                proof {
                    assert(s@ =~= seq!['`'] + c@ + seq!['`']);
                }
                self.push_span(s, colored_style(Color::Magenta));
            },
            MdEvent::SoftBreak | MdEvent::HardBreak => self.flush(),
            MdEvent::TaskListMarker(checked) => {
                self.pending_marker = false;
                let g = if *checked {
                    text_of(vec![' ', ' ', '☑', ' '])
                } else {
                    text_of(vec![' ', ' ', '☐', ' '])
                };
                proof {
                    assert(g@ =~= marker_glyph(*checked));
                }
                let c = if *checked {
                    Color::Green
                } else {
                    Color::Yellow
                };
                self.push_span(g, colored_style(c));
            },
            MdEvent::Other => {},
        }
    }
}

/// Renders a stream of markdown events into styled lines.
pub fn render_events(events: &Vec<MdEvent>) -> (r: Vec<StyledLine>)
    ensures
        lines_view(r@) == rendered(events@),
{
    let mut rd = Renderer::new();
    let mut i: usize = 0;
    while i < events.len()
        invariant
            i <= events.len(),
            rd.model() == run(events@.take(i as int)),
        decreases events.len() - i,
    {
        proof {
            assert(events@.take(i + 1).drop_last() == events@.take(i as int));
        }
        rd.apply(&events[i]);
        i = i + 1;
    }
    proof {
        assert(events@.take(events.len() as int) == events@);
    }
    rd.flush();
    if rd.lines.len() == 0 {
        let line = StyledLine { spans: Vec::new() };
        proof {
            lemma_lines_push(rd.lines@, line);
            assert(line@ =~= Seq::<SpanView>::empty());
            assert(lines_view(rd.lines@) =~= Seq::<LineView>::empty());
        }
        rd.lines.push(line);
    }
    rd.lines
}

/// Renders a note: an empty or blank text gives the single placeholder line,
/// any other text the lines rendered from its markdown events `events`.
pub fn render_markdown(input: &str, events: &Vec<MdEvent>) -> (r: Vec<StyledLine>)
    ensures
        trimmed(input@).len() == 0 ==> lines_view(r@) == seq![placeholder()],
        trimmed(input@).len() > 0 ==> lines_view(r@) == rendered(events@),
{
    if trim(input).len() == 0 {
        let mut spans: Vec<StyledSpan> = Vec::new();
        spans.push(StyledSpan { text: "(empty note)".to_string(), style: colored_style(Color::DarkGray) });
        let line = StyledLine { spans };
        let mut r: Vec<StyledLine> = Vec::new();
        r.push(line);
        proof {
            assert(line@ =~= placeholder());
            assert(lines_view(r@) =~= seq![placeholder()]);
        }
        r
    } else {
        render_events(events)
    }
}

} // verus!
