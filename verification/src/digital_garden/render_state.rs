//! What the note renderer does with each Markdown event: the inline runs
//! it collects, the list, quote, code and table context it keeps, and the
//! blocks it hands out to be drawn. The events come from `pulldown-cmark`
//! and the blocks are drawn by the user interface.
use vstd::prelude::*;

use crate::digital_garden::markdown_parser::{
    inlines_to_plain, is_absolute_url, plain_text, resolve_image_url, Inline,
};
use crate::digital_garden::note::{make_link, parse_link, Note};
use crate::digital_garden::note_directory::{note_seq, resolve_step, NoteDirectory};
use crate::text::{chars_of, find_chars, lemma_find_some, occurs_at, spec_find, string_of};

verus! {

// ---------- events ----------

/// The start of a Markdown element.
pub enum MdTag {
    Paragraph,
    /// A heading of level 1 to 6.
    Heading(u8),
    BlockQuote,
    /// A code block: `Some` with its info string when fenced, `None` when
    /// indented.
    CodeBlock(Option<String>),
    /// A list: `Some` with the first number when ordered.
    List(Option<u64>),
    Item,
    Emphasis,
    Strong,
    Strikethrough,
    /// A link, with its destination.
    Link(String),
    /// An image, with its source.
    Image(String),
    Table,
    TableHead,
    TableRow,
    TableCell,
    /// Any element the renderer ignores.
    Other,
}

/// The end of a Markdown element.
pub enum MdTagEnd {
    Paragraph,
    Heading(u8),
    BlockQuote,
    CodeBlock,
    List,
    Item,
    Emphasis,
    Strong,
    Strikethrough,
    Link,
    Image,
    TableCell,
    TableRow,
    TableHead,
    Table,
    Other,
}

/// One Markdown event, as the parser reports it.
pub enum MdEvent {
    Start(MdTag),
    End(MdTagEnd),
    Text(String),
    Code(String),
    SoftBreak,
    HardBreak,
    Rule,
    TaskListMarker(bool),
    /// Raw HTML, which is not shown.
    Html,
    FootnoteReference(String),
    /// Inline or display math, with its source.
    Math(String),
}

// ---------- blocks ----------

/// Something for the user interface to draw.
#[derive(Debug, PartialEq, Eq)]
pub enum Block {
    /// A run of inline fragments, indented and muted when inside
    /// `quote_depth` block quotes.
    Inlines { inlines: Vec<Inline>, quote_depth: u32 },
    /// A heading of the given level with its plain text.
    Heading { level: u8, text: String },
    /// A list item: its bullet or number, its nesting depth (0 for a
    /// top-level list) and its fragments.
    ListItem { bullet: String, depth: usize, inlines: Vec<Inline> },
    /// A code block with its language (empty when none).
    CodeBlock { code: String, lang: String },
    /// A table with its number in the note, header cells and rows.
    Table { id: usize, headers: Vec<Vec<Inline>>, rows: Vec<Vec<Vec<Inline>>> },
    /// A horizontal rule.
    Rule,
    /// Vertical space, in points.
    Space(u32),
}

// ---------- the renderer's state ----------

/// A table being read.
pub struct TableState {
    pub headers: Vec<Vec<Inline>>,
    pub rows: Vec<Vec<Vec<Inline>>>,
    pub current_row: Vec<Vec<Inline>>,
    pub current_cell: Vec<Inline>,
    pub in_header: bool,
}

/// An image being read: its resolved source and the alt text so far.
pub struct ImageBuilder {
    pub src: String,
    pub alt: String,
}

/// The renderer's state between events.
pub struct RenderState<'a> {
    /// The notes, for telling live wiki-links from dead ones and
    /// resolving image paths.
    pub directory: &'a NoteDirectory,
    /// Nesting depth of strong, emphasis and strikethrough.
    pub bold: u32,
    pub italic: u32,
    pub strikethrough: u32,
    pub inline_code: bool,
    /// Destination of the link being read.
    pub link_dest: Option<String>,
    /// Level of the heading being read.
    pub heading: Option<u8>,
    /// The open lists, innermost last: the next number of an ordered
    /// list, `None` for a bullet list.
    pub list_stack: Vec<Option<u64>>,
    /// The code block being read.
    pub code_lang: Option<String>,
    pub code_buffer: String,
    pub in_code_block: bool,
    /// Block-quote depth.
    pub quote_depth: u32,
    /// Fragments waiting for the end of their block.
    pub inlines: Vec<Inline>,
    pub image_in_progress: Option<ImageBuilder>,
    /// Task-list markers seen so far.
    pub task_index: usize,
    /// The table being read; fragments go to its current cell.
    pub current_table: Option<TableState>,
    /// Tables drawn so far.
    pub table_count: usize,
}

// ---------- views ----------

/// A fragment as plain values.
pub enum InlineView {
    Text(Seq<char>, bool, bool, bool, bool),
    ExternalLink(Seq<char>, Seq<char>),
    WikiLink(Seq<char>, Seq<char>, bool),
    Image(Seq<char>, Seq<char>),
    TaskCheckbox(usize, bool),
    SoftBreak,
    HardBreak,
}

pub open spec fn iv(i: Inline) -> InlineView {
    match i {
        Inline::Text { text, bold, italic, strikethrough, code } => InlineView::Text(
            text@,
            bold,
            italic,
            strikethrough,
            code,
        ),
        Inline::ExternalLink { text, url } => InlineView::ExternalLink(text@, url@),
        Inline::WikiLink { text, target, alive } => InlineView::WikiLink(text@, target@, alive),
        Inline::Image { src, alt } => InlineView::Image(src@, alt@),
        Inline::TaskCheckbox { index, checked } => InlineView::TaskCheckbox(index, checked),
        Inline::SoftBreak => InlineView::SoftBreak,
        Inline::HardBreak => InlineView::HardBreak,
    }
}

pub open spec fn ivs(s: Seq<Inline>) -> Seq<InlineView> {
    s.map_values(|i: Inline| iv(i))
}

pub open spec fn cells_view(c: Seq<Vec<Inline>>) -> Seq<Seq<InlineView>> {
    c.map_values(|v: Vec<Inline>| ivs(v@))
}

pub open spec fn rows_view(r: Seq<Vec<Vec<Inline>>>) -> Seq<Seq<Seq<InlineView>>> {
    r.map_values(|v: Vec<Vec<Inline>>| cells_view(v@))
}

pub struct TableView {
    pub headers: Seq<Seq<InlineView>>,
    pub rows: Seq<Seq<Seq<InlineView>>>,
    pub current_row: Seq<Seq<InlineView>>,
    pub current_cell: Seq<InlineView>,
    pub in_header: bool,
}

pub open spec fn table_view(t: TableState) -> TableView {
    TableView {
        headers: cells_view(t.headers@),
        rows: rows_view(t.rows@),
        current_row: cells_view(t.current_row@),
        current_cell: ivs(t.current_cell@),
        in_header: t.in_header,
    }
}

pub open spec fn str_opt(o: Option<String>) -> Option<Seq<char>> {
    match o {
        Some(s) => Some(s@),
        None => None,
    }
}

/// The renderer's state as plain values.
pub struct StateView {
    pub bold: u32,
    pub italic: u32,
    pub strikethrough: u32,
    pub inline_code: bool,
    pub link_dest: Option<Seq<char>>,
    pub heading: Option<u8>,
    pub list_stack: Seq<Option<u64>>,
    pub code_lang: Option<Seq<char>>,
    pub code_buffer: Seq<char>,
    pub in_code_block: bool,
    pub quote_depth: u32,
    pub inlines: Seq<InlineView>,
    pub image: Option<(Seq<char>, Seq<char>)>,
    pub task_index: usize,
    pub table: Option<TableView>,
    pub table_count: usize,
}

/// A block as plain values.
pub enum BlockView {
    Inlines(Seq<InlineView>, u32),
    Heading(u8, Seq<char>),
    ListItem(Seq<char>, usize, Seq<InlineView>),
    CodeBlock(Seq<char>, Seq<char>),
    Table(usize, Seq<Seq<InlineView>>, Seq<Seq<Seq<InlineView>>>),
    Rule,
    Space(u32),
}

pub open spec fn bv(b: Block) -> BlockView {
    match b {
        Block::Inlines { inlines, quote_depth } => BlockView::Inlines(ivs(inlines@), quote_depth),
        Block::Heading { level, text } => BlockView::Heading(level, text@),
        Block::ListItem { bullet, depth, inlines } => BlockView::ListItem(bullet@, depth, ivs(inlines@)),
        Block::CodeBlock { code, lang } => BlockView::CodeBlock(code@, lang@),
        Block::Table { id, headers, rows } => BlockView::Table(id, cells_view(headers@), rows_view(rows@)),
        Block::Rule => BlockView::Rule,
        Block::Space(p) => BlockView::Space(p),
    }
}

pub open spec fn bvs(s: Seq<Block>) -> Seq<BlockView> {
    s.map_values(|b: Block| bv(b))
}

impl<'a> RenderState<'a> {
    pub open spec fn view(&self) -> StateView {
        StateView {
            bold: self.bold,
            italic: self.italic,
            strikethrough: self.strikethrough,
            inline_code: self.inline_code,
            link_dest: str_opt(self.link_dest),
            heading: self.heading,
            list_stack: self.list_stack@,
            code_lang: str_opt(self.code_lang),
            code_buffer: self.code_buffer@,
            in_code_block: self.in_code_block,
            quote_depth: self.quote_depth,
            inlines: ivs(self.inlines@),
            image: match self.image_in_progress {
                Some(b) => Some((b.src@, b.alt@)),
                None => None,
            },
            task_index: self.task_index,
            table: match self.current_table {
                Some(t) => Some(table_view(t)),
                None => None,
            },
            table_count: self.table_count,
        }
    }
}

// ---------- the steps, as plain values ----------

/// A wiki-link target names a note (see `NoteDirectory::resolve_link`).
pub open spec fn alive(dir: Seq<Note>, target: Seq<char>) -> bool {
    resolve_step(dir, target) is Some
}

/// Where a fragment goes: into the image being read (its text only, as
/// alt text), into the current table cell, or onto the waiting run.
pub open spec fn spec_push(s: StateView, i: InlineView) -> StateView {
    match s.image {
        Some((src, alt)) => match i {
            InlineView::Text(t, _, _, _, _) => StateView { image: Some((src, alt + t)), ..s },
            _ => s,
        },
        None => match s.table {
            Some(t) => StateView { table: Some(TableView { current_cell: t.current_cell.push(i), ..t }), ..s },
            None => StateView { inlines: s.inlines.push(i), ..s },
        },
    }
}

pub open spec fn wiki_scheme() -> Seq<char> {
    seq!['w', 'i', 'k', 'i', ':']
}

/// The fragment for `text` in the current context: a link when inside one
/// (a `wiki:` destination makes a wiki-link), else text in the current
/// style.
pub open spec fn styled(s: StateView, text: Seq<char>, force_code: bool, dir: Seq<Note>) -> InlineView {
    match s.link_dest {
        Some(dest) => if occurs_at(dest, wiki_scheme(), 0) {
            InlineView::WikiLink(text, dest.skip(5), alive(dir, dest.skip(5)))
        } else {
            InlineView::ExternalLink(text, dest)
        },
        None => InlineView::Text(text, s.bold > 0, s.italic > 0, s.strikethrough > 0, force_code || s.inline_code),
    }
}

pub open spec fn spec_push_text(s: StateView, text: Seq<char>, force_code: bool, dir: Seq<Note>) -> StateView {
    spec_push(s, styled(s, text, force_code, dir))
}

/// Text with `[[wiki-links]]` in it: the text between links goes out as
/// styled text, each link as a wiki-link fragment (shown by its display
/// text); a link right after `!` is an embed, shown elsewhere, and its
/// `!` is dropped; from an unclosed `[[` on, the rest is plain text.
pub open spec fn wiki_text(s: StateView, rest: Seq<char>, dir: Seq<Note>) -> StateView
    decreases rest.len(),
{
    match spec_find(rest, seq!['[', '[']) {
        None => if rest.len() > 0 {
            spec_push_text(s, rest, false, dir)
        } else {
            s
        },
        Some(start) => {
            let before = rest.take(start);
            let embed = start > 0 && before.last() == '!';
            let shown = if embed {
                before.drop_last()
            } else {
                before
            };
            let s1 = if shown.len() > 0 {
                spec_push_text(s, shown, false, dir)
            } else {
                s
            };
            let after_open = rest.skip(start + 2);
            match spec_find(after_open, seq![']', ']']) {
                None => spec_push_text(s1, rest.skip(start), false, dir),
                Some(close) => {
                    let link = parse_link(after_open.take(close), embed);
                    let s2 = if embed {
                        s1
                    } else {
                        spec_push(s1, InlineView::WikiLink(link.1, link.0, alive(dir, link.0)))
                    };
                    if 0 <= start && 0 <= close && start + close + 4 <= rest.len() {
                        wiki_text(s2, after_open.skip(close + 2), dir)
                    } else {
                        s2
                    }
                },
            }
        },
    }
}

/// Hands out the waiting run, if any.
pub open spec fn spec_flush(s: StateView) -> (StateView, Seq<BlockView>) {
    if s.inlines.len() == 0 {
        (s, Seq::empty())
    } else {
        (StateView { inlines: Seq::empty(), ..s }, seq![BlockView::Inlines(s.inlines, s.quote_depth)])
    }
}

/// The plain text of one fragment.
pub open spec fn plain_view(i: InlineView) -> Seq<char> {
    match i {
        InlineView::Text(t, _, _, _, _) => t,
        InlineView::ExternalLink(t, _) => t,
        InlineView::WikiLink(t, _, _) => t,
        InlineView::Image(_, alt) => alt,
        InlineView::TaskCheckbox(_, checked) => if checked {
            "☑ "@
        } else {
            "☐ "@
        },
        InlineView::SoftBreak => seq![' '],
        InlineView::HardBreak => seq!['\n'],
    }
}

/// The plain text of a run.
pub open spec fn plain_views(s: Seq<InlineView>) -> Seq<char>
    decreases s.len(),
{
    if s.len() == 0 {
        Seq::empty()
    } else {
        plain_views(s.drop_last()) + plain_view(s.last())
    }
}

/// The character of a decimal digit.
pub open spec fn digit_char(d: nat) -> char {
    if d == 0 {
        '0'
    } else if d == 1 {
        '1'
    } else if d == 2 {
        '2'
    } else if d == 3 {
        '3'
    } else if d == 4 {
        '4'
    } else if d == 5 {
        '5'
    } else if d == 6 {
        '6'
    } else if d == 7 {
        '7'
    } else if d == 8 {
        '8'
    } else {
        '9'
    }
}

/// The decimal digits of `n`.
pub open spec fn decimal(n: nat) -> Seq<char>
    decreases n,
{
    if n < 10 {
        seq![digit_char(n)]
    } else {
        decimal(n / 10).push(digit_char(n % 10))
    }
}

pub open spec fn bullet_mark() -> Seq<char> {
    seq!['•', ' ', ' ']
}

/// Hands out the waiting run as a list item: numbered when the innermost
/// list is ordered (which moves on to the next number), else bulleted.
pub open spec fn spec_list_item(s: StateView) -> (StateView, Seq<BlockView>) {
    let n = s.list_stack.len();
    let depth: int = if n > 0 {
        n - 1
    } else {
        0
    };
    let (bullet, stack) = if n > 0 {
        match s.list_stack[n - 1] {
            Some(k) => (decimal(k as nat) + seq!['.', ' '], s.list_stack.update(n - 1, Some((k + 1) as u64))),
            None => (bullet_mark(), s.list_stack),
        }
    } else {
        (bullet_mark(), s.list_stack)
    };
    (
        StateView { inlines: Seq::empty(), list_stack: stack, ..s },
        seq![BlockView::ListItem(bullet, depth as usize, s.inlines)],
    )
}

pub open spec fn less_one(x: u32) -> u32 {
    if x > 0 {
        (x - 1) as u32
    } else {
        0
    }
}

pub open spec fn empty_table() -> TableView {
    TableView {
        headers: Seq::empty(),
        rows: Seq::empty(),
        current_row: Seq::empty(),
        current_cell: Seq::empty(),
        in_header: false,
    }
}

/// The language a code block is shown with: its info string, or none
/// when that is empty.
pub open spec fn code_lang_of(kind: Option<String>) -> Option<Seq<char>> {
    match kind {
        Some(l) => if l@.len() == 0 {
            None
        } else {
            Some(l@)
        },
        None => None,
    }
}

/// What an element's start does to the state `s` (becoming `t`, handing
/// out `out`).
pub open spec fn started(s: StateView, tag: MdTag, t: StateView, out: Seq<BlockView>) -> bool {
    let (f, o) = spec_flush(s);
    match tag {
        MdTag::Paragraph => t == s && out == Seq::<BlockView>::empty(),
        MdTag::Heading(l) => t == StateView { heading: Some(l), ..f } && out == o.push(BlockView::Space(6)),
        MdTag::BlockQuote => t == StateView { quote_depth: (s.quote_depth + 1) as u32, ..f } && out == o,
        MdTag::CodeBlock(kind) => t == StateView {
            in_code_block: true,
            code_buffer: Seq::empty(),
            code_lang: code_lang_of(kind),
            ..f
        } && out == o,
        MdTag::List(first) => t == StateView { list_stack: f.list_stack.push(first), ..f } && out == o,
        MdTag::Item => t == f && out == o,
        MdTag::Emphasis => t == StateView { italic: (s.italic + 1) as u32, ..s } && out.len() == 0,
        MdTag::Strong => t == StateView { bold: (s.bold + 1) as u32, ..s } && out.len() == 0,
        MdTag::Strikethrough => t == StateView { strikethrough: (s.strikethrough + 1) as u32, ..s } && out.len()
            == 0,
        MdTag::Link(dest) => t == StateView { link_dest: Some(dest@), ..s } && out.len() == 0,
        MdTag::Image(dest) => {
            &&& t == StateView { image: t.image, ..s }
            &&& t.image matches Some((src, alt)) && alt.len() == 0 && (is_absolute_url(dest@) ==> src == dest@)
                && (!is_absolute_url(dest@) ==> src.len() >= 7 && src.take(7) == "file://"@)
            &&& out.len() == 0
        },
        MdTag::Table => t == StateView { table: Some(empty_table()), ..f } && out == o,
        MdTag::TableHead => out.len() == 0 && t == match s.table {
            Some(tb) => StateView { table: Some(TableView { in_header: true, ..tb }), ..s },
            None => s,
        },
        MdTag::TableRow => out.len() == 0 && t == match s.table {
            Some(tb) => StateView { table: Some(TableView { current_row: Seq::empty(), ..tb }), ..s },
            None => s,
        },
        MdTag::TableCell => out.len() == 0 && t == match s.table {
            Some(tb) => StateView { table: Some(TableView { current_cell: Seq::empty(), ..tb }), ..s },
            None => s,
        },
        MdTag::Other => t == s && out.len() == 0,
    }
}

/// What an element's end does to the state `s`.
pub open spec fn ended(s: StateView, tag: MdTagEnd, t: StateView, out: Seq<BlockView>, dir: Seq<Note>) -> bool {
    let (f, o) = spec_flush(s);
    match tag {
        MdTagEnd::Paragraph => t == f && out == o.push(BlockView::Space(6)),
        MdTagEnd::Heading(l) => {
            &&& t == StateView { inlines: Seq::empty(), heading: None, ..s }
            &&& out == seq![BlockView::Heading(l, plain_views(s.inlines)), BlockView::Space(4)]
        },
        MdTagEnd::BlockQuote => t == StateView { quote_depth: less_one(s.quote_depth), ..f } && out == o,
        MdTagEnd::CodeBlock => {
            &&& t == StateView { in_code_block: false, code_buffer: Seq::empty(), code_lang: None, ..s }
            &&& out == seq![
                BlockView::CodeBlock(
                    s.code_buffer,
                    match s.code_lang {
                        Some(l) => l,
                        None => Seq::empty(),
                    },
                ),
                BlockView::Space(4),
            ]
        },
        MdTagEnd::List => {
            &&& t == StateView {
                list_stack: if f.list_stack.len() > 0 {
                    f.list_stack.drop_last()
                } else {
                    f.list_stack
                },
                ..f
            }
            &&& out == o.push(BlockView::Space(2))
        },
        MdTagEnd::Item => (t, out) == spec_list_item(s),
        MdTagEnd::Emphasis => t == StateView { italic: less_one(s.italic), ..s } && out.len() == 0,
        MdTagEnd::Strong => t == StateView { bold: less_one(s.bold), ..s } && out.len() == 0,
        MdTagEnd::Strikethrough => t == StateView { strikethrough: less_one(s.strikethrough), ..s } && out.len()
            == 0,
        MdTagEnd::Link => t == StateView { link_dest: None, ..s } && out.len() == 0,
        MdTagEnd::Image => out.len() == 0 && t == match s.image {
            Some((src, alt)) => spec_push(StateView { image: None, ..s }, InlineView::Image(src, alt)),
            None => s,
        },
        MdTagEnd::TableCell => out.len() == 0 && t == match s.table {
            Some(tb) => StateView {
                table: Some(
                    TableView {
                        current_row: tb.current_row.push(tb.current_cell),
                        current_cell: Seq::empty(),
                        ..tb
                    },
                ),
                ..s
            },
            None => s,
        },
        MdTagEnd::TableRow => out.len() == 0 && t == match s.table {
            Some(tb) => StateView {
                table: Some(TableView { rows: tb.rows.push(tb.current_row), current_row: Seq::empty(), ..tb }),
                ..s
            },
            None => s,
        },
        MdTagEnd::TableHead => out.len() == 0 && t == match s.table {
            Some(tb) => StateView {
                table: Some(
                    if tb.rows.len() > 0 {
                        TableView { headers: tb.rows.last(), rows: tb.rows.drop_last(), in_header: false, ..tb }
                    } else {
                        TableView { in_header: false, ..tb }
                    },
                ),
                ..s
            },
            None => s,
        },
        MdTagEnd::Table => match s.table {
            Some(tb) => {
                &&& t == StateView { table: None, table_count: (s.table_count + 1) as usize, ..s }
                &&& out == seq![BlockView::Table((s.table_count + 1) as usize, tb.headers, tb.rows)]
            },
            None => t == s && out.len() == 0,
        },
        MdTagEnd::Other => t == s && out.len() == 0,
    }
}

/// What one event does to the state `s`: it becomes `t`, and `out` is
/// handed out to be drawn, in order.
pub open spec fn handled(s: StateView, ev: MdEvent, t: StateView, out: Seq<BlockView>, dir: Seq<Note>) -> bool {
    match ev {
        MdEvent::Start(tag) => started(s, tag, t, out),
        MdEvent::End(tag) => ended(s, tag, t, out, dir),
        MdEvent::Text(x) => out.len() == 0 && t == if s.in_code_block {
            StateView { code_buffer: s.code_buffer + x@, ..s }
        } else {
            match s.image {
                Some((src, alt)) => StateView { image: Some((src, alt + x@)), ..s },
                None => wiki_text(s, x@, dir),
            }
        },
        MdEvent::Code(x) => out.len() == 0 && t == spec_push_text(s, x@, true, dir),
        MdEvent::SoftBreak => out.len() == 0 && t == spec_push(s, InlineView::SoftBreak),
        MdEvent::HardBreak => out.len() == 0 && t == spec_push(s, InlineView::HardBreak),
        MdEvent::Rule => t == spec_flush(s).0 && out == spec_flush(s).1.push(BlockView::Rule),
        MdEvent::TaskListMarker(c) => out.len() == 0 && t == spec_push(
            StateView { task_index: (s.task_index + 1) as usize, ..s },
            InlineView::TaskCheckbox(s.task_index, c),
        ),
        MdEvent::Html => t == s && out.len() == 0,
        MdEvent::FootnoteReference(name) => out.len() == 0 && t == spec_push_text(
            s,
            seq!['[', '^'] + name@ + seq![']'],
            false,
            dir,
        ),
        MdEvent::Math(m) => out.len() == 0 && t == spec_push_text(s, seq!['$'] + m@ + seq!['$'], true, dir),
    }
}

/// The event can be handled without a counter running over: nesting
/// depths, the task count, the table count and list numbers stay in
/// range.
pub open spec fn can_handle(s: StateView, ev: MdEvent) -> bool {
    match ev {
        MdEvent::Start(MdTag::BlockQuote) => s.quote_depth < u32::MAX,
        MdEvent::Start(MdTag::Emphasis) => s.italic < u32::MAX,
        MdEvent::Start(MdTag::Strong) => s.bold < u32::MAX,
        MdEvent::Start(MdTag::Strikethrough) => s.strikethrough < u32::MAX,
        MdEvent::End(MdTagEnd::Table) => s.table_count < usize::MAX,
        MdEvent::End(MdTagEnd::Item) => s.list_stack.len() > 0 ==> match s.list_stack.last() {
            Some(k) => k < u64::MAX,
            None => true,
        },
        MdEvent::TaskListMarker(_) => s.task_index < usize::MAX,
        _ => true,
    }
}

// ---------- the steps ----------

proof fn lemma_ivs_push(s: Seq<Inline>, x: Inline)
    ensures
        ivs(s.push(x)) == ivs(s).push(iv(x)),
{
    assert(ivs(s.push(x)) =~= ivs(s).push(iv(x)));
}

proof fn lemma_cells_push(s: Seq<Vec<Inline>>, x: Vec<Inline>)
    ensures
        cells_view(s.push(x)) == cells_view(s).push(ivs(x@)),
{
    assert(cells_view(s.push(x)) =~= cells_view(s).push(ivs(x@)));
}

proof fn lemma_rows_push(s: Seq<Vec<Vec<Inline>>>, x: Vec<Vec<Inline>>)
    ensures
        rows_view(s.push(x)) == rows_view(s).push(cells_view(x@)),
{
    assert(rows_view(s.push(x)) =~= rows_view(s).push(cells_view(x@)));
}

proof fn lemma_bvs_push(s: Seq<Block>, x: Block)
    ensures
        bvs(s.push(x)) == bvs(s).push(bv(x)),
{
    assert(bvs(s.push(x)) =~= bvs(s).push(bv(x)));
}

proof fn lemma_plain_views(s: Seq<Inline>)
    ensures
        plain_text(s) == plain_views(ivs(s)),
    decreases s.len(),
{
    if s.len() > 0 {
        lemma_plain_views(s.drop_last());
        assert(ivs(s).drop_last() =~= ivs(s.drop_last()));
    }
}

fn digit(d: u64) -> (c: char)
    requires
        d < 10,
    ensures
        c == digit_char(d as nat),
{
    if d == 0 {
        '0'
    } else if d == 1 {
        '1'
    } else if d == 2 {
        '2'
    } else if d == 3 {
        '3'
    } else if d == 4 {
        '4'
    } else if d == 5 {
        '5'
    } else if d == 6 {
        '6'
    } else if d == 7 {
        '7'
    } else if d == 8 {
        '8'
    } else {
        '9'
    }
}

/// `n` in decimal.
pub(crate) fn decimal_string(n: u64) -> (r: String)
    ensures
        r@ == decimal(n as nat),
    decreases n,
{
    if n < 10 {
        let mut s = String::new();
        crate::text::push_char(&mut s, digit(n));
        s
    } else {
        let mut s = decimal_string(n / 10);
        crate::text::push_char(&mut s, digit(n % 10));
        s
    }
}

/// The state before the first event.
pub open spec fn initial_view() -> StateView {
    StateView {
        bold: 0,
        italic: 0,
        strikethrough: 0,
        inline_code: false,
        link_dest: None,
        heading: None,
        list_stack: Seq::empty(),
        code_lang: None,
        code_buffer: Seq::empty(),
        in_code_block: false,
        quote_depth: 0,
        inlines: Seq::empty(),
        image: None,
        task_index: 0,
        table: None,
        table_count: 0,
    }
}

impl<'a> RenderState<'a> {
    /// A renderer for a note of `directory`, before its first event.
    pub fn new(directory: &'a NoteDirectory) -> (r: Self)
        ensures
            r.directory == directory,
            r.view() == initial_view(),
    {
        let r = RenderState {
            directory,
            bold: 0,
            italic: 0,
            strikethrough: 0,
            inline_code: false,
            link_dest: None,
            heading: None,
            list_stack: Vec::new(),
            code_lang: None,
            code_buffer: String::new(),
            in_code_block: false,
            quote_depth: 0,
            inlines: Vec::new(),
            image_in_progress: None,
            task_index: 0,
            current_table: None,
            table_count: 0,
        };
        assert(r.view().inlines =~= Seq::<InlineView>::empty());
        r
    }

    /// Routes a fragment: into the image being read, the current table
    /// cell, or the waiting run.
    fn push(&mut self, i: Inline)
        ensures
            final(self).view() == spec_push(old(self).view(), iv(i)),
            final(self).directory == old(self).directory,
    {
        if self.image_in_progress.is_some() {
            match i {
                Inline::Text { text, .. } => {
                    let mut img = self.image_in_progress.take().unwrap();
                    img.alt.append(text.as_str());
                    self.image_in_progress = Some(img);
                },
                _ => {},
            }
            return;
        }
        if self.current_table.is_some() {
            let mut t = self.current_table.take().unwrap();
            proof {
                lemma_ivs_push(t.current_cell@, i);
            }
            t.current_cell.push(i);
            self.current_table = Some(t);
        } else {
            proof {
                lemma_ivs_push(self.inlines@, i);
            }
            self.inlines.push(i);
        }
    }

    /// Pushes `text` as a link when inside one, else as text in the
    /// current style.
    fn push_inline_text(&mut self, text: String, force_code: bool)
        ensures
            final(self).view() == spec_push_text(
                old(self).view(),
                text@,
                force_code,
                note_seq(old(self).directory.notes@),
            ),
            final(self).directory == old(self).directory,
    {
        let dest = self.link_dest.clone();
        match dest {
            Some(dest) => {
                let dv = chars_of(dest.as_str());
                let wiki = vec!['w', 'i', 'k', 'i', ':'];
                let is_wiki = dv.len() >= 5 && crate::text::chars_eq(&dv.as_slice()[0..5], wiki.as_slice());
                assert(is_wiki == occurs_at(dest@, wiki_scheme(), 0)) by {
                    if dv.len() >= 5 {
                        assert(dv@.subrange(0, 5) == dv@.subrange(0, 5));
                    }
                }
                if is_wiki {
                    let target = string_of(&dv.as_slice()[5..dv.len()]);
                    assert(target@ =~= dest@.skip(5));
                    let alive = self.directory.resolve_link(target.as_str()).is_some();
                    self.push(Inline::WikiLink { text, target, alive });
                } else {
                    self.push(Inline::ExternalLink { text, url: dest });
                }
            },
            None => {
                let code = force_code || self.inline_code;
                self.push(
                    Inline::Text {
                        text,
                        bold: self.bold > 0,
                        italic: self.italic > 0,
                        strikethrough: self.strikethrough > 0,
                        code,
                    },
                );
            },
        }
    }

    /// Hands out the waiting run, if any.
    fn flush_inlines(&mut self, out: &mut Vec<Block>)
        ensures
            final(self).view() == spec_flush(old(self).view()).0,
            bvs(final(out)@) == bvs(old(out)@) + spec_flush(old(self).view()).1,
            final(self).directory == old(self).directory,
    {
        if self.inlines.len() == 0 {
            assert(bvs(out@) + Seq::<BlockView>::empty() =~= bvs(out@));
            return;
        }
        let mut inlines: Vec<Inline> = Vec::new();
        std::mem::swap(&mut inlines, &mut self.inlines);
        let b = Block::Inlines { inlines, quote_depth: self.quote_depth };
        proof {
            lemma_bvs_push(out@, b);
        }
        out.push(b);
        assert(ivs(self.inlines@) =~= Seq::<InlineView>::empty());
    }

    /// Hands out the waiting run as a list item.
    fn flush_list_item(&mut self, out: &mut Vec<Block>)
        requires
            old(self).list_stack@.len() > 0 ==> match old(self).list_stack@.last() {
                Some(k) => k < u64::MAX,
                None => true,
            },
        ensures
            (final(self).view(), bvs(final(out)@).skip(old(out)@.len() as int)) == spec_list_item(old(self).view()),
            bvs(final(out)@).take(old(out)@.len() as int) == bvs(old(out)@),
            final(self).directory == old(self).directory,
    {
        let ghost before = out@;
        let n = self.list_stack.len();
        let depth: usize = if n > 0 {
            n - 1
        } else {
            0
        };
        let bullet = if n > 0 {
            match self.list_stack[n - 1] {
                Some(k) => {
                    self.list_stack[n - 1] = Some(k + 1);
                    let mut b = decimal_string(k);
                    b.append(". ");
                    proof {
                        reveal_strlit(". ");
                    }
                    assert(b@ =~= decimal(k as nat) + seq!['.', ' ']);
                    b
                },
                None => {
                    let b = String::from_str("•  ");
                    proof {
                        reveal_strlit("•  ");
                    }
                    assert(b@ =~= bullet_mark());
                    b
                },
            }
        } else {
            let b = String::from_str("•  ");
            proof {
                reveal_strlit("•  ");
            }
            assert(b@ =~= bullet_mark());
            b
        };
        let mut inlines: Vec<Inline> = Vec::new();
        std::mem::swap(&mut inlines, &mut self.inlines);
        let b = Block::ListItem { bullet, depth, inlines };
        proof {
            lemma_bvs_push(out@, b);
        }
        out.push(b);
        assert(ivs(self.inlines@) =~= Seq::<InlineView>::empty());
        assert(bvs(out@).skip(before.len() as int) =~= seq![bv(b)]);
        assert(bvs(out@).take(before.len() as int) =~= bvs(before));
    }
}

impl<'a> RenderState<'a> {
    /// Pushes text, turning its `[[wiki-links]]` into wiki-link fragments
    /// (see `wiki_text`).
    fn push_text_with_wiki_links(&mut self, text: &str)
        ensures
            final(self).view() == wiki_text(old(self).view(), text@, note_seq(old(self).directory.notes@)),
            final(self).directory == old(self).directory,
    {
        let ghost dir = note_seq(self.directory.notes@);
        let cv = chars_of(text);
        let open = vec!['[', '['];
        let close = vec![']', ']'];
        assert(open@ =~= seq!['[', '[']);
        assert(close@ =~= seq![']', ']']);
        let mut pos: usize = 0;
        assert(cv@.skip(0) =~= text@);
        loop
            invariant
                cv@ == text@,
                pos <= cv@.len(),
                open@ == seq!['[', '['],
                close@ == seq![']', ']'],
                self.directory == old(self).directory,
                dir == note_seq(self.directory.notes@),
                wiki_text(old(self).view(), text@, dir) == wiki_text(self.view(), cv@.skip(pos as int), dir),
            decreases cv@.len() - pos,
        {
            let rest = &cv.as_slice()[pos..cv.len()];
            let ghost rv = cv@.skip(pos as int);
            assert(rest@ =~= rv);
            proof {
                lemma_find_some(rv, open@);
            }
            let start = match find_chars(rest, open.as_slice()) {
                None => {
                    if rest.len() > 0 {
                        self.push_inline_text(string_of(rest), false);
                    }
                    return;
                },
                Some(start) => start,
            };
            assert(occurs_at(rv, open@, start as int));
            let embed = start > 0 && rest[start - 1] == '!';
            let shown_end: usize = if embed {
                start - 1
            } else {
                start
            };
            assert(rest@.subrange(0, shown_end as int) =~= if embed {
                rv.take(start as int).drop_last()
            } else {
                rv.take(start as int)
            });
            if shown_end > 0 {
                self.push_inline_text(string_of(&rest[0..shown_end]), false);
            }
            let after = &rest[start + 2..rest.len()];
            assert(after@ =~= rv.skip(start + 2));
            proof {
                lemma_find_some(after@, close@);
            }
            let c = match find_chars(after, close.as_slice()) {
                None => {
                    let tail = string_of(&rest[start..rest.len()]);
                    assert(tail@ =~= rv.skip(start as int));
                    self.push_inline_text(tail, false);
                    return;
                },
                Some(c) => c,
            };
            assert(occurs_at(after@, close@, c as int));
            let lo = pos + start + 2;
            let hi = lo + c;
            assert(cv@.subrange(lo as int, hi as int) =~= after@.take(c as int));
            if !embed {
                let link = make_link(&cv, lo, hi, embed);
                let alive = self.directory.resolve_link(link.target_id.as_str()).is_some();
                self.push(Inline::WikiLink { text: link.display_text, target: link.target_id, alive });
            }
            assert(after@.skip(c + 2) =~= cv@.skip(hi + 2));
            pos = hi + 2;
        }
    }

    /// Appends `x` to the alt text of the image being read.
    fn push_alt(&mut self, x: &str)
        requires
            old(self).image_in_progress is Some,
        ensures
            final(self).view() == (match old(self).view().image {
                Some((src, alt)) => StateView { image: Some((src, alt + x@)), ..old(self).view() },
                None => old(self).view(),
            }),
            final(self).directory == old(self).directory,
    {
        let mut img = self.image_in_progress.take().unwrap();
        img.alt.append(x);
        self.image_in_progress = Some(img);
    }

    /// Handles the start of an element.
    fn start_tag(&mut self, tag: MdTag, out: &mut Vec<Block>)
        requires
            old(out)@.len() == 0,
            can_handle(old(self).view(), MdEvent::Start(tag)),
        ensures
            started(old(self).view(), tag, final(self).view(), bvs(final(out)@)),
            final(self).directory == old(self).directory,
    {
        let ghost s = self.view();
        assert(bvs(out@) =~= Seq::<BlockView>::empty());
        match tag {
            MdTag::Paragraph => {},
            MdTag::Heading(level) => {
                self.flush_inlines(out);
                let b = Block::Space(6);
                proof {
                    lemma_bvs_push(out@, b);
                }
                out.push(b);
                self.heading = Some(level);
            },
            MdTag::BlockQuote => {
                self.flush_inlines(out);
                self.quote_depth = self.quote_depth + 1;
            },
            MdTag::CodeBlock(kind) => {
                self.flush_inlines(out);
                self.in_code_block = true;
                self.code_buffer = String::new();
                self.code_lang = match kind {
                    Some(lang) => if lang.as_str().unicode_len() == 0 {
                        None
                    } else {
                        Some(lang)
                    },
                    None => None,
                };
            },
            MdTag::List(first) => {
                self.flush_inlines(out);
                self.list_stack.push(first);
            },
            MdTag::Item => {
                self.flush_inlines(out);
            },
            MdTag::Emphasis => {
                self.italic = self.italic + 1;
            },
            MdTag::Strong => {
                self.bold = self.bold + 1;
            },
            MdTag::Strikethrough => {
                self.strikethrough = self.strikethrough + 1;
            },
            MdTag::Link(dest) => {
                self.link_dest = Some(dest);
            },
            MdTag::Image(dest) => {
                let src = resolve_image_url(dest.as_str(), self.directory);
                self.image_in_progress = Some(ImageBuilder { src, alt: String::new() });
            },
            MdTag::Table => {
                self.flush_inlines(out);
                self.current_table = Some(
                    TableState {
                        headers: Vec::new(),
                        rows: Vec::new(),
                        current_row: Vec::new(),
                        current_cell: Vec::new(),
                        in_header: false,
                    },
                );
                assert(self.view().table == Some(empty_table())) by {
                    assert(cells_view(Seq::<Vec<Inline>>::empty()) =~= Seq::<Seq<InlineView>>::empty());
                    assert(rows_view(Seq::<Vec<Vec<Inline>>>::empty()) =~= Seq::<Seq<Seq<InlineView>>>::empty());
                    assert(ivs(Seq::<Inline>::empty()) =~= Seq::<InlineView>::empty());
                }
            },
            MdTag::TableHead => {
                if self.current_table.is_some() {
                    let mut t = self.current_table.take().unwrap();
                    t.in_header = true;
                    self.current_table = Some(t);
                }
            },
            MdTag::TableRow => {
                if self.current_table.is_some() {
                    let mut t = self.current_table.take().unwrap();
                    t.current_row = Vec::new();
                    self.current_table = Some(t);
                    assert(cells_view(Seq::<Vec<Inline>>::empty()) =~= Seq::<Seq<InlineView>>::empty());
                }
            },
            MdTag::TableCell => {
                if self.current_table.is_some() {
                    let mut t = self.current_table.take().unwrap();
                    t.current_cell = Vec::new();
                    self.current_table = Some(t);
                    assert(ivs(Seq::<Inline>::empty()) =~= Seq::<InlineView>::empty());
                }
            },
            MdTag::Other => {},
        }
    }
}

impl<'a> RenderState<'a> {
    /// Handles the end of an element.
    fn end_tag(&mut self, tag: MdTagEnd, out: &mut Vec<Block>)
        requires
            old(out)@.len() == 0,
            can_handle(old(self).view(), MdEvent::End(tag)),
        ensures
            ended(old(self).view(), tag, final(self).view(), bvs(final(out)@), note_seq(old(self).directory.notes@)),
            final(self).directory == old(self).directory,
    {
        let ghost s = self.view();
        assert(bvs(out@) =~= Seq::<BlockView>::empty());
        match tag {
            MdTagEnd::Paragraph => {
                self.flush_inlines(out);
                let b = Block::Space(6);
                proof {
                    lemma_bvs_push(out@, b);
                }
                out.push(b);
            },
            MdTagEnd::Heading(level) => {
                let text = inlines_to_plain(self.inlines.as_slice());
                proof {
                    lemma_plain_views(self.inlines@);
                }
                self.inlines = Vec::new();
                self.heading = None;
                out.push(Block::Heading { level, text });
                out.push(Block::Space(4));
                assert(ivs(self.inlines@) =~= Seq::<InlineView>::empty());
                assert(bvs(out@) =~= seq![BlockView::Heading(level, plain_views(s.inlines)), BlockView::Space(4)]);
            },
            MdTagEnd::BlockQuote => {
                self.flush_inlines(out);
                self.quote_depth = if self.quote_depth > 0 {
                    self.quote_depth - 1
                } else {
                    0
                };
            },
            MdTagEnd::CodeBlock => {
                let mut code = String::new();
                std::mem::swap(&mut code, &mut self.code_buffer);
                let lang = match self.code_lang.take() {
                    Some(l) => l,
                    None => String::new(),
                };
                out.push(Block::CodeBlock { code, lang });
                out.push(Block::Space(4));
                self.in_code_block = false;
                assert(bvs(out@) =~= seq![
                    BlockView::CodeBlock(
                        s.code_buffer,
                        match s.code_lang {
                            Some(l) => l,
                            None => Seq::empty(),
                        },
                    ),
                    BlockView::Space(4),
                ]);
            },
            MdTagEnd::List => {
                self.flush_inlines(out);
                if self.list_stack.len() > 0 {
                    self.list_stack.pop();
                }
                let b = Block::Space(2);
                proof {
                    lemma_bvs_push(out@, b);
                }
                out.push(b);
            },
            MdTagEnd::Item => {
                self.flush_list_item(out);
                assert(bvs(out@) =~= bvs(out@).skip(0));
            },
            MdTagEnd::Emphasis => {
                self.italic = if self.italic > 0 {
                    self.italic - 1
                } else {
                    0
                };
            },
            MdTagEnd::Strong => {
                self.bold = if self.bold > 0 {
                    self.bold - 1
                } else {
                    0
                };
            },
            MdTagEnd::Strikethrough => {
                self.strikethrough = if self.strikethrough > 0 {
                    self.strikethrough - 1
                } else {
                    0
                };
            },
            MdTagEnd::Link => {
                self.link_dest = None;
            },
            MdTagEnd::Image => {
                match self.image_in_progress.take() {
                    Some(img) => {
                        self.push(Inline::Image { src: img.src, alt: img.alt });
                    },
                    None => {},
                }
            },
            MdTagEnd::TableCell => {
                if self.current_table.is_some() {
                    let mut t = self.current_table.take().unwrap();
                    let mut cell: Vec<Inline> = Vec::new();
                    std::mem::swap(&mut cell, &mut t.current_cell);
                    proof {
                        lemma_cells_push(t.current_row@, cell);
                    }
                    t.current_row.push(cell);
                    self.current_table = Some(t);
                    assert(ivs(Seq::<Inline>::empty()) =~= Seq::<InlineView>::empty());
                }
            },
            MdTagEnd::TableRow => {
                if self.current_table.is_some() {
                    let mut t = self.current_table.take().unwrap();
                    let mut row: Vec<Vec<Inline>> = Vec::new();
                    std::mem::swap(&mut row, &mut t.current_row);
                    proof {
                        lemma_rows_push(t.rows@, row);
                    }
                    t.rows.push(row);
                    self.current_table = Some(t);
                    assert(cells_view(Seq::<Vec<Inline>>::empty()) =~= Seq::<Seq<InlineView>>::empty());
                }
            },
            MdTagEnd::TableHead => {
                if self.current_table.is_some() {
                    let mut t = self.current_table.take().unwrap();
                    let ghost rows_before = t.rows@;
                    match t.rows.pop() {
                        Some(header) => {
                            t.headers = header;
                            assert(rows_view(t.rows@) =~= rows_view(rows_before).drop_last());
                        },
                        None => {},
                    }
                    t.in_header = false;
                    self.current_table = Some(t);
                }
            },
            MdTagEnd::Table => {
                match self.current_table.take() {
                    Some(t) => {
                        self.table_count = self.table_count + 1;
                        out.push(Block::Table { id: self.table_count, headers: t.headers, rows: t.rows });
                        assert(bvs(out@) =~= seq![bv(out@[0])]);
                    },
                    None => {},
                }
            },
            MdTagEnd::Other => {},
        }
    }

    /// Handles one event: updates the state and returns the blocks to
    /// draw, in order (see `handled`).
    pub fn handle(&mut self, event: MdEvent) -> (out: Vec<Block>)
        requires
            can_handle(old(self).view(), event),
        ensures
            handled(old(self).view(), event, final(self).view(), bvs(out@), note_seq(old(self).directory.notes@)),
            final(self).directory == old(self).directory,
    {
        let mut out: Vec<Block> = Vec::new();
        assert(bvs(out@) =~= Seq::<BlockView>::empty());
        match event {
            MdEvent::Start(tag) => self.start_tag(tag, &mut out),
            MdEvent::End(tag) => self.end_tag(tag, &mut out),
            MdEvent::Text(t) => {
                if self.in_code_block {
                    self.code_buffer.append(t.as_str());
                } else if self.image_in_progress.is_some() {
                    self.push_alt(t.as_str());
                } else {
                    self.push_text_with_wiki_links(t.as_str());
                }
            },
            MdEvent::Code(t) => self.push_inline_text(t, true),
            MdEvent::SoftBreak => self.push(Inline::SoftBreak),
            MdEvent::HardBreak => self.push(Inline::HardBreak),
            MdEvent::Rule => {
                self.flush_inlines(&mut out);
                let b = Block::Rule;
                proof {
                    lemma_bvs_push(out@, b);
                }
                out.push(b);
                assert(Seq::<BlockView>::empty() + spec_flush(old(self).view()).1 =~= spec_flush(old(self).view()).1);
            },
            MdEvent::TaskListMarker(checked) => {
                let index = self.task_index;
                self.task_index = index + 1;
                self.push(Inline::TaskCheckbox { index, checked });
            },
            MdEvent::Html => {},
            MdEvent::FootnoteReference(name) => {
                let mut t = String::from_str("[^");
                t.append(name.as_str());
                t.append("]");
                proof {
                    reveal_strlit("[^");
                    reveal_strlit("]");
                }
                assert(t@ =~= seq!['[', '^'] + name@ + seq![']']);
                self.push_inline_text(t, false);
            },
            MdEvent::Math(m) => {
                let mut t = String::from_str("$");
                t.append(m.as_str());
                t.append("$");
                proof {
                    reveal_strlit("$");
                }
                assert(t@ =~= seq!['$'] + m@ + seq!['$']);
                self.push_inline_text(t, true);
            },
        }
        out
    }
}

impl<'a> RenderState<'a> {
    /// Whether `event` can be handled now (see `can_handle`).
    pub fn can_handle_event(&self, event: &MdEvent) -> (r: bool)
        ensures
            r == can_handle(self.view(), *event),
    {
        match event {
            MdEvent::Start(MdTag::BlockQuote) => self.quote_depth < u32::MAX,
            MdEvent::Start(MdTag::Emphasis) => self.italic < u32::MAX,
            MdEvent::Start(MdTag::Strong) => self.bold < u32::MAX,
            MdEvent::Start(MdTag::Strikethrough) => self.strikethrough < u32::MAX,
            MdEvent::End(MdTagEnd::Table) => self.table_count < usize::MAX,
            MdEvent::End(MdTagEnd::Item) => {
                let n = self.list_stack.len();
                if n > 0 {
                    match self.list_stack[n - 1] {
                        Some(k) => k < u64::MAX,
                        None => true,
                    }
                } else {
                    true
                }
            },
            MdEvent::TaskListMarker(_) => self.task_index < usize::MAX,
            _ => true,
        }
    }
}

/// Event `e` takes the state `m` to `t`, handing out `o` (see `handled`).
#[verifier::opaque]
pub open spec fn step_ok(m: StateView, e: MdEvent, t: StateView, o: Seq<BlockView>, dir: Seq<Note>) -> bool {
    handled(m, e, t, o, dir)
}

/// A record of handling the events `evs` in order from the state `s`, as
/// `handle` does: `states[i]` is the state before event `i` (the last one
/// the state after them all), and event `i` hands out the blocks of `out`
/// from `cuts[i]` to `cuts[i + 1]`.
pub open spec fn render_trace(
    s: StateView,
    evs: Seq<MdEvent>,
    states: Seq<StateView>,
    cuts: Seq<int>,
    out: Seq<BlockView>,
    dir: Seq<Note>,
) -> bool {
    &&& states.len() == evs.len() + 1
    &&& cuts.len() == evs.len() + 1
    &&& states[0] == s
    &&& cuts[0] == 0
    &&& cuts[evs.len() as int] == out.len()
    &&& forall|i: int| 0 <= i < evs.len() ==> #[trigger] step_at(evs, states, cuts, out, dir, i)
}

/// Event `i` of a trace: its blocks lie between `cuts[i]` and
/// `cuts[i + 1]`, and it takes `states[i]` to `states[i + 1]`.
pub open spec fn step_at(
    evs: Seq<MdEvent>,
    states: Seq<StateView>,
    cuts: Seq<int>,
    out: Seq<BlockView>,
    dir: Seq<Note>,
    i: int,
) -> bool {
    cuts[i] <= cuts[i + 1] && step_ok(states[i], evs[i], states[i + 1], out.subrange(cuts[i], cuts[i + 1]), dir)
}

/// Handling the events `evs` in order from the state `s`, as `handle`
/// does, ends in the state `t` having handed out `out`, in order.
pub open spec fn renders(s: StateView, evs: Seq<MdEvent>, t: StateView, out: Seq<BlockView>, dir: Seq<Note>) -> bool {
    exists|states: Seq<StateView>, cuts: Seq<int>|
        #[trigger] render_trace(s, evs, states, cuts, out, dir) && states.last() == t
}

/// Rendering from `s` reaches event `i` in a state where a counter would
/// run over on it (see `can_handle`).
pub open spec fn stuck_at(s: StateView, evs: Seq<MdEvent>, i: int, dir: Seq<Note>) -> bool {
    exists|m: StateView, out: Seq<BlockView>| #[trigger] renders(s, evs.take(i), m, out, dir) && !can_handle(m, evs[i])
}

proof fn lemma_bvs_append(a: Seq<Block>, b: Seq<Block>)
    ensures
        bvs(a + b) == bvs(a) + bvs(b),
{
    assert(bvs(a + b) =~= bvs(a) + bvs(b));
}

/// One more event extends a trace.
proof fn lemma_trace_step(
    s: StateView,
    evs: Seq<MdEvent>,
    states: Seq<StateView>,
    cuts: Seq<int>,
    a: Seq<BlockView>,
    ev: MdEvent,
    t: StateView,
    b: Seq<BlockView>,
    dir: Seq<Note>,
)
    requires
        render_trace(s, evs, states, cuts, a, dir),
        step_ok(states.last(), ev, t, b, dir),
    ensures
        render_trace(s, evs.push(ev), states.push(t), cuts.push((a + b).len() as int), a + b, dir),
{
    let n = evs.len() as int;
    let evs2 = evs.push(ev);
    let st2 = states.push(t);
    let cu2 = cuts.push((a + b).len() as int);
    let out = a + b;
    assert(st2[0] == s);
    assert(cu2[0] == 0);
    assert(cu2[evs2.len() as int] == out.len());
    assert(cuts[n] == a.len());
    assert(states.last() == states[n]);
    assert forall|i: int| 0 <= i < evs2.len() implies #[trigger] step_at(evs2, st2, cu2, out, dir, i) by {
        if i < n {
            let e = evs[i];
            assert(evs2[i] == e);
            assert(step_at(evs, states, cuts, a, dir, i));
            lemma_cuts_mono(evs, cuts, states, a, dir, s, i + 1, n);
            lemma_cuts_mono(evs, cuts, states, a, dir, s, 0, i);
            assert(out.subrange(cu2[i], cu2[i + 1]) =~= a.subrange(cuts[i], cuts[i + 1]));
        } else {
            assert(i == n);
            assert(evs2[i] == ev);
            assert(st2[i] == states[n]);
            assert(st2[i + 1] == t);
            assert(cu2[i] == a.len());
            assert(cu2[i + 1] == out.len());
            assert(out.subrange(cu2[i], cu2[i + 1]) =~= b);
        }
    }
    assert(render_trace(s, evs2, st2, cu2, out, dir));
}

/// Cut positions never go down.
proof fn lemma_cuts_mono(
    evs: Seq<MdEvent>,
    cuts: Seq<int>,
    states: Seq<StateView>,
    a: Seq<BlockView>,
    dir: Seq<Note>,
    s: StateView,
    i: int,
    j: int,
)
    requires
        render_trace(s, evs, states, cuts, a, dir),
        0 <= i <= j <= evs.len(),
    ensures
        cuts[i] <= cuts[j],
    decreases j - i,
{
    if i < j {
        assert(step_at(evs, states, cuts, a, dir, i));
        lemma_cuts_mono(evs, cuts, states, a, dir, s, i + 1, j);
    }
}

/// The blocks a note's Markdown events render to, in order, from a fresh
/// renderer; `None` where a nesting depth or counter would run over.
pub fn render_blocks(events: Vec<MdEvent>, directory: &NoteDirectory) -> (r: Option<Vec<Block>>)
    ensures
        r matches Some(bs) ==> exists|t: StateView|
            #[trigger] renders(initial_view(), events@, t, bvs(bs@), note_seq(directory.notes@)),
        r is None ==> exists|i: int|
            0 <= i < events@.len() && #[trigger] stuck_at(initial_view(), events@, i, note_seq(directory.notes@)),
{
    let ghost evs = events@;
    let ghost dir = note_seq(directory.notes@);
    let mut pending = events;
    let mut state = RenderState::new(directory);
    let mut blocks: Vec<Block> = Vec::new();
    let ghost mut i: int = 0;
    let ghost mut states: Seq<StateView> = seq![initial_view()];
    let ghost mut cuts: Seq<int> = seq![0int];
    proof {
        assert(evs.take(0) =~= Seq::<MdEvent>::empty());
        assert(bvs(blocks@) =~= Seq::<BlockView>::empty());
    }
    while pending.len() > 0
        invariant
            0 <= i <= evs.len(),
            pending@ == evs.skip(i),
            evs == events@,
            state.directory == directory,
            dir == note_seq(directory.notes@),
            render_trace(initial_view(), evs.take(i), states, cuts, bvs(blocks@), dir),
            states.last() == state.view(),
        decreases pending@.len(),
    {
        let ev = pending.remove(0);
        assert(ev == evs[i]);
        if !state.can_handle_event(&ev) {
            proof {
                assert(renders(initial_view(), evs.take(i), state.view(), bvs(blocks@), dir));
                assert(stuck_at(initial_view(), evs, i, dir));
            }
            return None;
        }
        let ghost b0 = bvs(blocks@);
        let mut out = state.handle(ev);
        let ghost o = out@;
        let ghost old_blocks = blocks@;
        blocks.append(&mut out);
        proof {
            lemma_bvs_append(old_blocks, o);
            reveal(step_ok);
            lemma_trace_step(initial_view(), evs.take(i), states, cuts, b0, evs[i], state.view(), bvs(o), dir);
            assert(evs.take(i).push(evs[i]) =~= evs.take(i + 1));
            states = states.push(state.view());
            cuts = cuts.push((b0 + bvs(o)).len() as int);
            i = i + 1;
            assert(evs.skip(i) =~= evs.skip(i - 1).drop_first());
        }
    }
    proof {
        assert(evs.take(i) =~= evs);
        assert(render_trace(initial_view(), events@, states, cuts, bvs(blocks@), dir));
        assert(renders(initial_view(), events@, state.view(), bvs(blocks@), dir));
    }
    let r = Some(blocks);
    assert(r matches Some(bs) && bvs(bs@) == bvs(blocks@));
    r
}

/// Code is left alone: text inside a code block goes to the block as it
/// is, with no fragments and nothing drawn, so `[[...]]` there stays
/// text.
pub proof fn law_code_block_text_verbatim(s: StateView, x: String, t: StateView, out: Seq<BlockView>, dir: Seq<Note>)
    requires
        s.in_code_block,
        handled(s, MdEvent::Text(x), t, out, dir),
    ensures
        t.code_buffer == s.code_buffer + x@,
        t.inlines == s.inlines,
        t.table == s.table,
        out.len() == 0,
{
}

/// Task checkboxes are numbered in order: each marker gets the number of
/// markers before it in the note.
pub proof fn law_task_numbering(s: StateView, c: bool, t: StateView, out: Seq<BlockView>, dir: Seq<Note>)
    requires
        s.image is None,
        s.table is None,
        s.task_index < usize::MAX,
        handled(s, MdEvent::TaskListMarker(c), t, out, dir),
    ensures
        t.task_index == s.task_index + 1,
        t.inlines == s.inlines.push(InlineView::TaskCheckbox(s.task_index, c)),
        out.len() == 0,
{
}

/// `~~…~~` strikes its text through: opening it deepens strikethrough by
/// one and draws nothing, plain text read next is struck through (bold,
/// italic and code as before), and closing it gives back the state from
/// before.
pub proof fn law_strikethrough_strikes(
    s: StateView,
    t: StateView,
    out: Seq<BlockView>,
    u: StateView,
    out2: Seq<BlockView>,
    x: Seq<char>,
    dir: Seq<Note>,
)
    requires
        s.strikethrough < u32::MAX,
        handled(s, MdEvent::Start(MdTag::Strikethrough), t, out, dir),
        handled(t, MdEvent::End(MdTagEnd::Strikethrough), u, out2, dir),
    ensures
        t.strikethrough == s.strikethrough + 1,
        t.bold == s.bold && t.italic == s.italic && t.inlines == s.inlines,
        out.len() == 0,
        out2.len() == 0,
        s.link_dest is None ==> styled(t, x, false, dir) == InlineView::Text(x, s.bold > 0, s.italic > 0, true, s.inline_code),
        u == s,
{
}

/// `*…*` sets its text in italics: opening it deepens italics by one and
/// draws nothing, plain text read next is italic (bold, struck through
/// and code as before), and closing it gives back the state from before.
pub proof fn law_emphasis_italicizes(
    s: StateView,
    t: StateView,
    out: Seq<BlockView>,
    u: StateView,
    out2: Seq<BlockView>,
    x: Seq<char>,
    dir: Seq<Note>,
)
    requires
        s.italic < u32::MAX,
        handled(s, MdEvent::Start(MdTag::Emphasis), t, out, dir),
        handled(t, MdEvent::End(MdTagEnd::Emphasis), u, out2, dir),
    ensures
        t.italic == s.italic + 1,
        t.bold == s.bold && t.strikethrough == s.strikethrough && t.inlines == s.inlines,
        out.len() == 0,
        out2.len() == 0,
        s.link_dest is None ==> styled(t, x, false, dir) == InlineView::Text(x, s.bold > 0, true, s.strikethrough > 0, s.inline_code),
        u == s,
{
}

/// `**…**` sets its text in bold: opening it deepens bold by one and
/// draws nothing, plain text read next is bold (italic, struck through and
/// code as before), and closing it gives back the state from before.
pub proof fn law_strong_emboldens(
    s: StateView,
    t: StateView,
    out: Seq<BlockView>,
    u: StateView,
    out2: Seq<BlockView>,
    x: Seq<char>,
    dir: Seq<Note>,
)
    requires
        s.bold < u32::MAX,
        handled(s, MdEvent::Start(MdTag::Strong), t, out, dir),
        handled(t, MdEvent::End(MdTagEnd::Strong), u, out2, dir),
    ensures
        t.bold == s.bold + 1,
        t.italic == s.italic && t.strikethrough == s.strikethrough && t.inlines == s.inlines,
        out.len() == 0,
        out2.len() == 0,
        s.link_dest is None ==> styled(t, x, true, dir) == InlineView::Text(x, true, s.italic > 0, s.strikethrough > 0, true),
        u == s,
{
}

/// A link's text becomes a link to its destination (a wiki-link to the
/// named note for a `wiki:` destination, live when the note exists), and
/// closing the link leaves link mode with the rest of the state as it was.
pub proof fn law_link_text(
    s: StateView,
    dest: String,
    t: StateView,
    out: Seq<BlockView>,
    u: StateView,
    out2: Seq<BlockView>,
    x: Seq<char>,
    dir: Seq<Note>,
)
    requires
        handled(s, MdEvent::Start(MdTag::Link(dest)), t, out, dir),
        handled(t, MdEvent::End(MdTagEnd::Link), u, out2, dir),
    ensures
        t.link_dest == Some(dest@),
        !occurs_at(dest@, wiki_scheme(), 0) ==> styled(t, x, false, dir) == InlineView::ExternalLink(x, dest@),
        occurs_at(dest@, wiki_scheme(), 0) ==> styled(t, x, false, dir) == InlineView::WikiLink(
            x,
            dest@.skip(5),
            alive(dir, dest@.skip(5)),
        ),
        out.len() == 0,
        out2.len() == 0,
        u == (StateView { link_dest: None, ..s }),
{
}

/// A block quote indents what it holds one level deeper: opening it hands
/// out the run read so far at the old depth, and closing it hands out the
/// quoted run at the new depth and steps back out.
pub proof fn law_block_quote_depth(
    s: StateView,
    t: StateView,
    out: Seq<BlockView>,
    u: StateView,
    out2: Seq<BlockView>,
    dir: Seq<Note>,
)
    requires
        s.quote_depth < u32::MAX,
        handled(s, MdEvent::Start(MdTag::BlockQuote), t, out, dir),
        handled(t, MdEvent::End(MdTagEnd::BlockQuote), u, out2, dir),
    ensures
        t.quote_depth == s.quote_depth + 1,
        t.inlines.len() == 0,
        s.inlines.len() > 0 ==> out == seq![BlockView::Inlines(s.inlines, s.quote_depth)],
        s.inlines.len() == 0 ==> out.len() == 0,
        out2.len() == 0,
        u.quote_depth == s.quote_depth,
{
}

/// A heading is drawn at its level from the plain text read inside it:
/// opening it hands out the run read so far and a gap, closing it hands
/// out the heading and a gap.
pub proof fn law_heading_level(
    s: StateView,
    l: u8,
    t: StateView,
    out: Seq<BlockView>,
    dir: Seq<Note>,
    t2: StateView,
    out2: Seq<BlockView>,
)
    requires
        handled(s, MdEvent::Start(MdTag::Heading(l)), t, out, dir),
        handled(t, MdEvent::End(MdTagEnd::Heading(l)), t2, out2, dir),
    ensures
        t.heading == Some(l),
        out.last() == BlockView::Space(6),
        out2 == seq![BlockView::Heading(l, plain_views(t.inlines)), BlockView::Space(4)],
        t.inlines.len() == 0 ==> out2[0] == BlockView::Heading(l, Seq::<char>::empty()),
        t2.heading is None,
        t2.inlines.len() == 0,
{
}

/// A code block shows the text read inside it as it is, with its
/// language (none for an indented block or an empty info string): opening
/// it, reading `x` and closing it hands out exactly that block and a gap.
pub proof fn law_code_block_shows_its_text(
    s: StateView,
    kind: Option<String>,
    x: String,
    t1: StateView,
    o1: Seq<BlockView>,
    t2: StateView,
    o2: Seq<BlockView>,
    t3: StateView,
    o3: Seq<BlockView>,
    dir: Seq<Note>,
)
    requires
        handled(s, MdEvent::Start(MdTag::CodeBlock(kind)), t1, o1, dir),
        handled(t1, MdEvent::Text(x), t2, o2, dir),
        handled(t2, MdEvent::End(MdTagEnd::CodeBlock), t3, o3, dir),
    ensures
        o2.len() == 0,
        o3 == seq![
            BlockView::CodeBlock(
                x@,
                match kind {
                    Some(l) => l@,
                    None => Seq::<char>::empty(),
                },
            ),
            BlockView::Space(4),
        ],
        !t3.in_code_block,
{
    assert(t2.code_buffer =~= x@);
    if let Some(l) = kind {
        if l@.len() == 0 {
            assert(l@ =~= Seq::<char>::empty());
        }
    }
}

/// An ordered list numbers its items from its first number on: the item
/// closed next is drawn with that number, a dot and a space, one level
/// deeper than the lists around it, and the number after it goes to the
/// next item.
pub proof fn law_ordered_list_numbers(
    s: StateView,
    first: u64,
    t: StateView,
    out: Seq<BlockView>,
    u: StateView,
    out2: Seq<BlockView>,
    dir: Seq<Note>,
)
    requires
        first < u64::MAX,
        handled(s, MdEvent::Start(MdTag::List(Some(first))), t, out, dir),
        handled(t, MdEvent::End(MdTagEnd::Item), u, out2, dir),
    ensures
        t.list_stack == s.list_stack.push(Some(first)),
        out2 == seq![BlockView::ListItem(decimal(first as nat) + seq!['.', ' '], s.list_stack.len() as usize, t.inlines)],
        u.list_stack == s.list_stack.push(Some((first + 1) as u64)),
        u.inlines.len() == 0,
{
    assert(t.list_stack.update(t.list_stack.len() - 1, Some((first + 1) as u64)) =~= s.list_stack.push(
        Some((first + 1) as u64),
    ));
}

} // verus!
