//! The Cmd-K command palette: what it lists, how it scores a query
//! against each entry, how it orders the matches, and its selection
//! state. Drawing the modal is left to the user interface.
use vstd::prelude::*;
use vstd::utf8::encode_utf8;

use std::sync::Arc;

use crate::digital_garden::graph_view::{holds_text, texts};
use crate::digital_garden::note::{spec_title, Note};
use crate::digital_garden::note_directory::{note_seq, published, NoteDirectory};
use crate::palette::{spec_scheme_at, spec_scheme_label, Scheme};
use crate::text::{
    byte_len, chars_of, find_bytes, lemma_byte_len_ge_len, lemma_find_some, lowercase,
    spec_find, to_lowercase,
};

verus! {

/// One of the windows the palette can open.
#[derive(Clone, Copy, Debug, PartialEq, Eq, Structural)]
pub enum WindowKind {
    About,
    Calculator,
    Resume,
    DigitalGarden,
    Projects,
    Canvas,
    Workouts,
    Collections,
    BinaryClock,
    Bezier,
    PaletteStudio,
    Raycaster,
    WadViewer,
    AppEvents,
}

pub open spec fn spec_window_label(w: WindowKind) -> Seq<char> {
    match w {
        WindowKind::About => "About Me"@,
        WindowKind::Calculator => "Calculator"@,
        WindowKind::Resume => "Pseudo-Resumé"@,
        WindowKind::DigitalGarden => "Digital Garden"@,
        WindowKind::Projects => "Projects"@,
        WindowKind::Canvas => "Canvas"@,
        WindowKind::Workouts => "Workouts"@,
        WindowKind::Collections => "Collections"@,
        WindowKind::BinaryClock => "Binary Clock"@,
        WindowKind::Bezier => "Bezier Playground"@,
        WindowKind::PaletteStudio => "Palette Studio"@,
        WindowKind::Raycaster => "Raycaster"@,
        WindowKind::WadViewer => "WAD Viewer"@,
        WindowKind::AppEvents => "App Events"@,
    }
}

pub open spec fn spec_window_group(w: WindowKind) -> Seq<char> {
    match w {
        WindowKind::About | WindowKind::Resume | WindowKind::Projects => "identity"@,
        WindowKind::DigitalGarden => "notes"@,
        WindowKind::AppEvents => "system"@,
        _ => "tools"@,
    }
}

impl WindowKind {
    pub fn label(self) -> (r: &'static str)
        ensures
            r@ == spec_window_label(self),
    {
        match self {
            WindowKind::About => "About Me",
            WindowKind::Calculator => "Calculator",
            WindowKind::Resume => "Pseudo-Resumé",
            WindowKind::DigitalGarden => "Digital Garden",
            WindowKind::Projects => "Projects",
            WindowKind::Canvas => "Canvas",
            WindowKind::Workouts => "Workouts",
            WindowKind::Collections => "Collections",
            WindowKind::BinaryClock => "Binary Clock",
            WindowKind::Bezier => "Bezier Playground",
            WindowKind::PaletteStudio => "Palette Studio",
            WindowKind::Raycaster => "Raycaster",
            WindowKind::WadViewer => "WAD Viewer",
            WindowKind::AppEvents => "App Events",
        }
    }

    pub fn group(self) -> (r: &'static str)
        ensures
            r@ == spec_window_group(self),
    {
        match self {
            WindowKind::About | WindowKind::Resume | WindowKind::Projects => "identity",
            WindowKind::Calculator
            | WindowKind::BinaryClock
            | WindowKind::Canvas
            | WindowKind::Workouts
            | WindowKind::Collections
            | WindowKind::Bezier
            | WindowKind::PaletteStudio
            | WindowKind::Raycaster
            | WindowKind::WadViewer => "tools",
            WindowKind::DigitalGarden => "notes",
            WindowKind::AppEvents => "system",
        }
    }
}

/// Commands that do not open a window.
#[derive(Clone, Copy, Debug, PartialEq, Eq, Structural)]
pub enum SystemAction {
    OrganizeWindows,
    ZoomIn,
    ZoomOut,
    ResetZoom,
}

pub open spec fn spec_action_label(a: SystemAction) -> Seq<char> {
    match a {
        SystemAction::OrganizeWindows => "Organize windows"@,
        SystemAction::ZoomIn => "Zoom in"@,
        SystemAction::ZoomOut => "Zoom out"@,
        SystemAction::ResetZoom => "Reset zoom"@,
    }
}

impl SystemAction {
    pub fn label(self) -> (r: &'static str)
        ensures
            r@ == spec_action_label(self),
    {
        match self {
            SystemAction::OrganizeWindows => "Organize windows",
            SystemAction::ZoomIn => "Zoom in",
            SystemAction::ZoomOut => "Zoom out",
            SystemAction::ResetZoom => "Reset zoom",
        }
    }
}

/// One row of the palette.
pub enum PaletteItem {
    Window(WindowKind),
    Note { id: String, title: String },
    System(SystemAction),
    Scheme(Scheme),
}

/// The text a row is matched against.
pub open spec fn spec_search_text(item: PaletteItem) -> Seq<char> {
    match item {
        PaletteItem::Window(w) => spec_window_label(w),
        PaletteItem::Note { title, .. } => title@,
        PaletteItem::System(s) => spec_action_label(s),
        PaletteItem::Scheme(s) => spec_scheme_label(s),
    }
}

pub open spec fn spec_item_group(item: PaletteItem) -> Seq<char> {
    match item {
        PaletteItem::Window(w) => spec_window_group(w),
        PaletteItem::Note { .. } => "note"@,
        PaletteItem::System(_) => "system"@,
        PaletteItem::Scheme(_) => "scheme"@,
    }
}

impl PaletteItem {
    pub fn search_text(&self) -> (r: &str)
        ensures
            r@ == spec_search_text(*self),
    {
        match self {
            PaletteItem::Window(w) => w.label(),
            PaletteItem::Note { title, .. } => title.as_str(),
            PaletteItem::System(s) => s.label(),
            PaletteItem::Scheme(s) => s.label(),
        }
    }

    pub fn group(&self) -> (r: &'static str)
        ensures
            r@ == spec_item_group(*self),
    {
        match self {
            PaletteItem::Window(w) => w.group(),
            PaletteItem::Note { .. } => "note",
            PaletteItem::System(_) => "system",
            PaletteItem::Scheme(_) => "scheme",
        }
    }
}

/// The action committed when the user picks a row.
pub enum PaletteResult {
    OpenWindow(WindowKind),
    OpenNote(String),
    System(SystemAction),
    Scheme(Scheme),
}

/// What picking `item` commits: the window, the note's id, the action or
/// the scheme it carries.
pub open spec fn spec_item_result(item: PaletteItem, r: PaletteResult) -> bool {
    match item {
        PaletteItem::Window(w) => r == PaletteResult::OpenWindow(w),
        PaletteItem::Note { id, .. } => r matches PaletteResult::OpenNote(s) && s@ == id@,
        PaletteItem::System(s) => r == PaletteResult::System(s),
        PaletteItem::Scheme(s) => r == PaletteResult::Scheme(s),
    }
}

pub fn item_to_result(item: &PaletteItem) -> (r: PaletteResult)
    ensures
        spec_item_result(*item, r),
{
    match item {
        PaletteItem::Window(w) => PaletteResult::OpenWindow(*w),
        PaletteItem::Note { id, .. } => PaletteResult::OpenNote(id.clone()),
        PaletteItem::System(s) => PaletteResult::System(*s),
        PaletteItem::Scheme(s) => PaletteResult::Scheme(*s),
    }
}

/// Palette state. `selected` indexes the visible (filtered) rows.
pub struct CommandPalette {
    pub open: bool,
    query: String,
    selected: usize,
    just_opened: bool,
}

impl Default for CommandPalette {
    fn default() -> (p: Self)
        ensures
            !p.spec_is_open(),
            p.spec_query() == Seq::<char>::empty(),
            p.spec_selected() == 0,
            !p.spec_just_opened(),
    {
        CommandPalette { open: false, query: String::new(), selected: 0, just_opened: false }
    }
}

/// Selection after the visible row count becomes `visible`.
pub open spec fn spec_clamp(selected: int, visible: int) -> int {
    if visible == 0 {
        0
    } else if selected >= visible {
        visible - 1
    } else {
        selected
    }
}

/// Selection after Arrow-Down: the next row, wrapping to the first.
pub open spec fn spec_next(selected: int, visible: int) -> int {
    if visible == 0 {
        selected
    } else {
        (selected + 1) % visible
    }
}

/// Selection after Arrow-Up: the previous row, wrapping to the last.
pub open spec fn spec_prev(selected: int, visible: int) -> int {
    if visible == 0 {
        selected
    } else if selected == 0 {
        visible - 1
    } else {
        selected - 1
    }
}

impl CommandPalette {
    pub closed spec fn spec_is_open(&self) -> bool {
        self.open
    }

    pub closed spec fn spec_query(&self) -> Seq<char> {
        self.query@
    }

    pub closed spec fn spec_selected(&self) -> int {
        self.selected as int
    }

    pub closed spec fn spec_just_opened(&self) -> bool {
        self.just_opened
    }

    /// Open with an empty query and the first row selected.
    pub fn open(&mut self)
        ensures
            final(self).spec_is_open(),
            final(self).spec_query() == Seq::<char>::empty(),
            final(self).spec_selected() == 0,
            final(self).spec_just_opened(),
    {
        self.open = true;
        self.query = String::new();
        self.selected = 0;
        self.just_opened = true;
    }

    /// Close; the query and selection are kept.
    pub fn close(&mut self)
        ensures
            !final(self).spec_is_open(),
            final(self).spec_query() == old(self).spec_query(),
            final(self).spec_selected() == old(self).spec_selected(),
            final(self).spec_just_opened() == old(self).spec_just_opened(),
    {
        self.open = false;
    }

    pub fn query(&self) -> (r: &str)
        ensures
            r@ == self.spec_query(),
    {
        self.query.as_str()
    }

    /// Replace the query text (as typed by the user).
    pub fn set_query(&mut self, q: String)
        ensures
            final(self).spec_query() == q@,
            final(self).spec_is_open() == old(self).spec_is_open(),
            final(self).spec_selected() == old(self).spec_selected(),
            final(self).spec_just_opened() == old(self).spec_just_opened(),
    {
        self.query = q;
    }

    pub fn selected(&self) -> (r: usize)
        ensures
            r == self.spec_selected(),
    {
        self.selected
    }

    /// Select row `row` (a clicked row).
    pub fn select(&mut self, row: usize)
        ensures
            final(self).spec_selected() == row,
            final(self).spec_is_open() == old(self).spec_is_open(),
            final(self).spec_query() == old(self).spec_query(),
            final(self).spec_just_opened() == old(self).spec_just_opened(),
    {
        self.selected = row;
    }

    /// Whether the search field should take focus now: true exactly once
    /// after each `open`.
    pub fn take_focus_request(&mut self) -> (r: bool)
        ensures
            r == old(self).spec_just_opened(),
            !final(self).spec_just_opened(),
            final(self).spec_is_open() == old(self).spec_is_open(),
            final(self).spec_query() == old(self).spec_query(),
            final(self).spec_selected() == old(self).spec_selected(),
    {
        let r = self.just_opened;
        self.just_opened = false;
        r
    }

    /// Keep the selection on a visible row once the list has `visible` rows.
    pub fn clamp_selection(&mut self, visible: usize)
        ensures
            final(self).spec_selected() == spec_clamp(old(self).spec_selected(), visible as int),
            final(self).spec_is_open() == old(self).spec_is_open(),
            final(self).spec_query() == old(self).spec_query(),
            final(self).spec_just_opened() == old(self).spec_just_opened(),
    {
        if visible == 0 {
            self.selected = 0;
        } else if self.selected >= visible {
            self.selected = visible - 1;
        }
    }

    /// Arrow-Down.
    pub fn select_next(&mut self, visible: usize)
        ensures
            final(self).spec_selected() == spec_next(old(self).spec_selected(), visible as int),
            final(self).spec_is_open() == old(self).spec_is_open(),
            final(self).spec_query() == old(self).spec_query(),
            final(self).spec_just_opened() == old(self).spec_just_opened(),
    {
        if visible != 0 {
            let ghost old_sel = self.selected as int;
            let s = self.selected % visible;
            self.selected = (s + 1) % visible;
            proof {
                vstd::arithmetic::div_mod::lemma_add_mod_noop_right(1, old_sel, visible as int);
                assert((1 + s) == s + 1);
            }
        }
    }

    /// Arrow-Up.
    pub fn select_prev(&mut self, visible: usize)
        ensures
            final(self).spec_selected() == spec_prev(old(self).spec_selected(), visible as int),
            final(self).spec_is_open() == old(self).spec_is_open(),
            final(self).spec_query() == old(self).spec_query(),
            final(self).spec_just_opened() == old(self).spec_just_opened(),
    {
        if visible != 0 {
            self.selected = if self.selected == 0 {
                visible - 1
            } else {
                self.selected - 1
            };
        }
    }
}

/// On a visible row, Arrow-Down then Arrow-Up returns to the same row,
/// and so does Arrow-Up then Arrow-Down.
pub proof fn law_next_prev_inverse(selected: int, visible: int)
    requires
        0 <= selected < visible,
    ensures
        spec_prev(spec_next(selected, visible), visible) == selected,
        spec_next(spec_prev(selected, visible), visible) == selected,
{
    if selected + 1 < visible {
        vstd::arithmetic::div_mod::lemma_small_mod((selected + 1) as nat, visible as nat);
    } else {
        vstd::arithmetic::div_mod::lemma_mod_self_0(visible);
    }
    if selected == 0 {
        vstd::arithmetic::div_mod::lemma_mod_self_0(visible);
    } else {
        vstd::arithmetic::div_mod::lemma_small_mod(selected as nat, visible as nat);
    }
}

/// Clamping always leaves the selection on a visible row (or at 0 when
/// nothing is visible).
pub proof fn law_clamp_in_range(selected: int, visible: int)
    requires
        0 <= selected,
        0 <= visible,
    ensures
        visible > 0 ==> 0 <= spec_clamp(selected, visible) < visible,
        visible == 0 ==> spec_clamp(selected, visible) == 0,
{
}

// ---------- scoring ----------

pub open spec fn min9(g: int) -> int {
    if g < 9 {
        g
    } else {
        9
    }
}

pub open spec fn add_opt(o: Option<int>, d: int) -> Option<int> {
    match o {
        Some(x) => Some(x + d),
        None => None,
    }
}

/// Subsequence score from haystack index `hi` and needle index `ni`,
/// `gap` characters after the previous match: each needle character is
/// matched to its next occurrence, scoring `10 - min(gap, 9)`.
pub open spec fn subseq_from(h: Seq<char>, hi: int, n: Seq<char>, ni: int, gap: int) -> Option<int>
    decreases h.len() - hi,
{
    if ni >= n.len() {
        Some(0)
    } else if hi < 0 || hi >= h.len() {
        None
    } else if h[hi] == n[ni] {
        add_opt(subseq_from(h, hi + 1, n, ni + 1, 0), 10 - min9(gap))
    } else {
        subseq_from(h, hi + 1, n, ni, gap + 1)
    }
}

/// Score of an already lower-cased haystack and needle: a substring hit
/// at byte position `p` scores `1000 - p`, plus 200 at the very start;
/// otherwise the subsequence score; `None` when neither matches.
pub open spec fn spec_lowered_score(h: Seq<char>, n: Seq<char>) -> Option<int> {
    match spec_find(encode_utf8(h), encode_utf8(n)) {
        Some(p) => Some(1000 - p + if p == 0 {
            200int
        } else {
            0int
        }),
        None => subseq_from(h, 0, n, 0, 0),
    }
}

/// A score as an `i32`, when it fits.
pub open spec fn fit_i32(x: Option<int>) -> Option<i32> {
    match x {
        Some(v) => if i32::MIN <= v <= i32::MAX {
            Some(v as i32)
        } else {
            None
        },
        None => None,
    }
}

/// What `fuzzy_score(haystack, needle)` returns: `Some(0)` for an empty
/// needle, otherwise the score of the lower-cased texts; `None` also when
/// that score does not fit in `i32` (a substring hit more than about
/// 2^31 bytes in, or a subsequence of more than about 2^28 characters).
pub open spec fn spec_fuzzy(h: Seq<char>, n: Seq<char>) -> Option<i32> {
    if n.len() == 0 {
        Some(0)
    } else {
        fit_i32(spec_lowered_score(lowercase(h), lowercase(n)))
    }
}

/// Subsequence scores never go down as characters are matched.
proof fn lemma_subseq_equiv(h: Seq<char>, hi: int, n: Seq<char>, ni: int, g1: int, g2: int)
    requires
        0 <= g1,
        0 <= g2,
        min9(g1) == min9(g2),
    ensures
        subseq_from(h, hi, n, ni, g1) == subseq_from(h, hi, n, ni, g2),
    decreases h.len() - hi,
{
    if ni >= n.len() {
    } else if hi < 0 || hi >= h.len() {
    } else if h[hi] == n[ni] {
    } else {
        lemma_subseq_equiv(h, hi + 1, n, ni, g1 + 1, g2 + 1);
    }
}

proof fn lemma_subseq_bounds(h: Seq<char>, hi: int, n: Seq<char>, ni: int, gap: int)
    requires
        0 <= ni <= n.len(),
        0 <= gap,
    ensures
        subseq_from(h, hi, n, ni, gap) matches Some(x) ==> 0 <= x <= 10 * (n.len() - ni),
    decreases h.len() - hi,
{
    if ni >= n.len() {
    } else if hi < 0 || hi >= h.len() {
    } else if h[hi] == n[ni] {
        lemma_subseq_bounds(h, hi + 1, n, ni + 1, 0);
    } else {
        lemma_subseq_bounds(h, hi + 1, n, ni, gap + 1);
    }
}

/// Score an already lower-cased haystack and needle, when it fits in
/// `i32`.
pub fn fuzzy_score_lowered(h: &str, n: &str) -> (r: Option<i32>)
    ensures
        r == fit_i32(spec_lowered_score(h@, n@)),
{
    let hb = h.as_bytes();
    let nb = n.as_bytes();
    proof {
        lemma_find_some(encode_utf8(h@), encode_utf8(n@));
    }
    if let Some(pos) = find_bytes(hb, nb) {
        if pos > 2147484648 {
            return None;
        }
        let bonus: i64 = if pos == 0 {
            200
        } else {
            0
        };
        let x: i64 = 1000 - pos as i64 + bonus;
        return Some(x as i32);
    }
    let hv = chars_of(h);
    let nv = chars_of(n);
    proof {
        lemma_subseq_bounds(h@, 0, n@, 0, 0);
    }
    let ghost total = subseq_from(h@, 0, n@, 0, 0);
    let mut hi: usize = 0;
    let mut ni: usize = 0;
    let mut score: i64 = 0;
    let mut gap: usize = 0;
    let ghost mut sgap: int = 0;
    while ni < nv.len()
        invariant
            hv@ == h@,
            nv@ == n@,
            hi <= hv@.len(),
            ni <= nv@.len(),
            0 <= sgap,
            gap == min9(sgap),
            0 <= score <= i32::MAX,
            total == add_opt(subseq_from(h@, hi as int, n@, ni as int, sgap), score as int),
            total == subseq_from(h@, 0, n@, 0, 0),
            spec_find(encode_utf8(h@), encode_utf8(n@)) is None,
        decreases hv@.len() - hi,
    {
        if hi >= hv.len() {
            assert(subseq_from(h@, hi as int, n@, ni as int, sgap) is None);
            return None;
        }
        let hc = hv[hi];
        hi = hi + 1;
        if hc == nv[ni] {
            score = score + 10 - gap as i64;
            gap = 0;
            proof {
                sgap = 0;
            }
            ni = ni + 1;
            if score > 2147483647 {
                proof {
                    lemma_subseq_bounds(h@, hi as int, n@, ni as int, 0);
                }
                return None;
            }
        } else {
            proof {
                lemma_subseq_equiv(h@, hi as int, n@, ni as int, sgap + 1, sgap + 1);
                sgap = sgap + 1;
            }
            if gap < 9 {
                gap = gap + 1;
            }
        }
    }
    Some(score as i32)
}

/// Case-insensitive palette score: an empty needle scores 0; a substring
/// hit beats any subsequence hit, earlier hits beat later ones and a
/// prefix gets a bonus; a subsequence scores by the gaps between
/// matched characters; no match gives `None`.
pub fn fuzzy_score(haystack: &str, needle: &str) -> (r: Option<i32>)
    ensures
        r == spec_fuzzy(haystack@, needle@),
{
    if needle.is_empty() {
        return Some(0);
    }
    let h = to_lowercase(haystack);
    let n = to_lowercase(needle);
    fuzzy_score_lowered(h.as_str(), n.as_str())
}

/// The score depends on the texts only through their lower-case forms:
/// the palette is case-insensitive.
pub proof fn law_fuzzy_case_insensitive(h1: Seq<char>, h2: Seq<char>, n1: Seq<char>, n2: Seq<char>)
    requires
        lowercase(h1) == lowercase(h2),
        lowercase(n1) == lowercase(n2),
        n1.len() == 0 <==> n2.len() == 0,
    ensures
        spec_fuzzy(h1, n1) == spec_fuzzy(h2, n2),
{
}

/// A substring hit always outscores a subsequence-only hit: substring
/// scores exceed the largest subsequence score whenever the substring
/// starts within the first `1000 - 10 * |needle|` bytes.
pub proof fn law_substring_beats_subsequence(h: Seq<char>, n: Seq<char>, p: int)
    requires
        spec_find(encode_utf8(h), encode_utf8(n)) == Some(p),
        p + 10 * n.len() < 1000,
    ensures
        spec_lowered_score(h, n) matches Some(s) && s > 10 * n.len(),
{
}

// ---------- ranking ----------

/// The rows that match the query, in item order, with their scores.
pub open spec fn spec_scored(items: Seq<PaletteItem>, q: Seq<char>) -> Seq<(usize, i32)>
    decreases items.len(),
{
    if items.len() == 0 {
        Seq::empty()
    } else {
        let rest = spec_scored(items.drop_last(), q);
        match spec_fuzzy(spec_search_text(items.last()), q) {
            Some(s) => rest.push(((items.len() - 1) as usize, s)),
            None => rest,
        }
    }
}

/// Insert `x` into a list sorted by descending score, after every entry
/// scoring at least as much (so equal scores keep their order).
pub open spec fn insert_desc(sorted: Seq<(usize, i32)>, x: (usize, i32)) -> Seq<(usize, i32)>
    decreases sorted.len(),
{
    if sorted.len() == 0 {
        seq![x]
    } else if sorted.last().1 >= x.1 {
        sorted.push(x)
    } else {
        insert_desc(sorted.drop_last(), x).push(sorted.last())
    }
}

/// Stable sort by descending score.
pub open spec fn sort_desc(s: Seq<(usize, i32)>) -> Seq<(usize, i32)>
    decreases s.len(),
{
    if s.len() == 0 {
        s
    } else {
        insert_desc(sort_desc(s.drop_last()), s.last())
    }
}

/// Most rows the palette shows.
pub const MAX_VISIBLE: usize = 50;

/// The visible rows for `q`: matching rows by descending score (ties in
/// item order), at most `MAX_VISIBLE` of them.
pub open spec fn spec_rank(items: Seq<PaletteItem>, q: Seq<char>) -> Seq<(usize, i32)> {
    let sorted = sort_desc(spec_scored(items, q));
    if sorted.len() > MAX_VISIBLE {
        sorted.take(MAX_VISIBLE as int)
    } else {
        sorted
    }
}

proof fn lemma_insert_at(sorted: Seq<(usize, i32)>, x: (usize, i32), j: int)
    requires
        0 <= j <= sorted.len(),
        forall|k: int| j <= k < sorted.len() ==> sorted[k].1 < x.1,
        j == 0 || sorted[j - 1].1 >= x.1,
    ensures
        insert_desc(sorted, x) == sorted.take(j).push(x) + sorted.skip(j),
    decreases sorted.len(),
{
    if sorted.len() == 0 {
        assert(sorted.take(j).push(x) + sorted.skip(j) =~= seq![x]);
    } else if j == sorted.len() {
        assert(sorted.take(j) =~= sorted);
        assert(sorted.take(j).push(x) + sorted.skip(j) =~= sorted.push(x));
    } else {
        let t = sorted.drop_last();
        lemma_insert_at(t, x, j);
        assert(sorted.take(j).push(x) + sorted.skip(j) =~= (t.take(j).push(x) + t.skip(j)).push(
            sorted.last(),
        ));
    }
}

/// Inserts `x` into a list sorted by descending score, after every entry
/// scoring at least as much.
pub(crate) fn insert_ranked(sorted: &mut Vec<(usize, i32)>, x: (usize, i32))
    ensures
        final(sorted)@ == insert_desc(old(sorted)@, x),
{
    let mut j: usize = sorted.len();
    while j > 0 && sorted[j - 1].1 < x.1
        invariant
            j <= sorted@.len(),
            forall|k: int| j <= k < sorted@.len() ==> sorted@[k].1 < x.1,
        decreases j,
    {
        j = j - 1;
    }
    proof {
        lemma_insert_at(sorted@, x, j as int);
    }
    let ghost before = sorted@;
    sorted.insert(j, x);
    assert(sorted@ =~= before.take(j as int).push(x) + before.skip(j as int));
}

/// Every entry of the sorted list is an entry of the unsorted one.
pub proof fn lemma_sort_desc_members(s: Seq<(usize, i32)>)
    ensures
        forall|a: int| 0 <= a < sort_desc(s).len() ==> exists|k: int| 0 <= k < s.len() && s[k] == #[trigger] sort_desc(s)[a],
        sort_desc(s).len() == s.len(),
    decreases s.len(),
{
    if s.len() > 0 {
        let p = s.drop_last();
        lemma_sort_desc_members(p);
        lemma_insert_members(sort_desc(p), s.last());
        let r = sort_desc(s);
        assert forall|a: int| 0 <= a < r.len() implies exists|k: int| 0 <= k < s.len() && s[k] == #[trigger] r[a] by {
            if r[a] == s.last() {
                assert(s[s.len() - 1] == r[a]);
            } else {
                let k = choose|k: int| 0 <= k < sort_desc(p).len() && sort_desc(p)[k] == r[a];
                let k2 = choose|k2: int| 0 <= k2 < p.len() && p[k2] == sort_desc(p)[k];
                assert(s[k2] == r[a]);
            }
        }
    }
}

/// Row numbers and scores of the rows `query` matches, best first (ties in
/// item order), at most `MAX_VISIBLE` of them.
pub fn rank_items(items: &[PaletteItem], query: &str) -> (r: Vec<(usize, i32)>)
    ensures
        r@ == spec_rank(items@, query@),
{
    let mut sorted: Vec<(usize, i32)> = Vec::new();
    let mut i: usize = 0;
    while i < items.len()
        invariant
            i <= items@.len(),
            sorted@ == sort_desc(spec_scored(items@.take(i as int), query@)),
        decreases items@.len() - i,
    {
        let ghost prefix = items@.take(i as int);
        assert(items@.take(i + 1).drop_last() =~= prefix);
        assert(items@.take(i + 1).last() == items@[i as int]);
        let s = fuzzy_score(items[i].search_text(), query);
        match s {
            Some(score) => {
                let x = (i, score);
                let ghost sc = spec_scored(prefix, query@);
                assert(spec_scored(items@.take(i + 1), query@) == sc.push(x));
                assert(sort_desc(sc.push(x)) == insert_desc(sort_desc(sc), x)) by {
                    assert(sc.push(x).drop_last() =~= sc);
                }
                insert_ranked(&mut sorted, x);
            },
            None => {},
        }
        i = i + 1;
    }
    assert(items@.take(items@.len() as int) =~= items@);
    if sorted.len() > MAX_VISIBLE {
        sorted.truncate(MAX_VISIBLE);
    }
    sorted
}

/// Sorting keeps scores in descending order.
pub proof fn law_sort_desc_sorted(s: Seq<(usize, i32)>)
    ensures
        forall|a: int, b: int| 0 <= a < b < sort_desc(s).len() ==> sort_desc(s)[a].1 >= sort_desc(s)[b].1,
        sort_desc(s).len() == s.len(),
    decreases s.len(),
{
    if s.len() > 0 {
        law_sort_desc_sorted(s.drop_last());
        lemma_insert_sorted(sort_desc(s.drop_last()), s.last());
    }
}

proof fn lemma_insert_sorted(sorted: Seq<(usize, i32)>, x: (usize, i32))
    requires
        forall|a: int, b: int| 0 <= a < b < sorted.len() ==> sorted[a].1 >= sorted[b].1,
    ensures
        forall|a: int, b: int|
            0 <= a < b < insert_desc(sorted, x).len() ==> insert_desc(sorted, x)[a].1 >= insert_desc(
                sorted,
                x,
            )[b].1,
        insert_desc(sorted, x).len() == sorted.len() + 1,
    decreases sorted.len(),
{
    if sorted.len() == 0 {
    } else if sorted.last().1 >= x.1 {
    } else {
        let t = sorted.drop_last();
        lemma_insert_sorted(t, x);
        lemma_insert_members(t, x);
        let r = insert_desc(t, x);
        assert forall|a: int, b: int|
            0 <= a < b < r.push(sorted.last()).len() implies r.push(sorted.last())[a].1 >= r.push(
            sorted.last(),
        )[b].1 by {
            if b == r.len() {
                let e = r[a];
                if e == x {
                } else {
                    let k = choose|k: int| 0 <= k < t.len() && t[k] == e;
                    assert(sorted[k] == e);
                }
            }
        }
    }
}

proof fn lemma_insert_members(t: Seq<(usize, i32)>, x: (usize, i32))
    ensures
        forall|a: int|
            0 <= a < insert_desc(t, x).len() ==> (insert_desc(t, x)[a] == x || exists|k: int|
                0 <= k < t.len() && t[k] == #[trigger] insert_desc(t, x)[a]),
        insert_desc(t, x).len() == t.len() + 1,
    decreases t.len(),
{
    if t.len() == 0 {
    } else if t.last().1 >= x.1 {
        let r = t.push(x);
        assert forall|a: int| 0 <= a < r.len() implies (r[a] == x || exists|k: int|
            0 <= k < t.len() && t[k] == #[trigger] r[a]) by {
            if a < t.len() {
                assert(t[a] == r[a]);
            }
        }
    } else {
        let u = t.drop_last();
        lemma_insert_members(u, x);
        let r = insert_desc(u, x).push(t.last());
        assert forall|a: int| 0 <= a < r.len() implies (r[a] == x || exists|k: int|
            0 <= k < t.len() && t[k] == #[trigger] r[a]) by {
            if a == r.len() - 1 {
                assert(t[t.len() - 1] == r[a]);
            } else if r[a] != x {
                let k = choose|k: int| 0 <= k < u.len() && u[k] == insert_desc(u, x)[a];
                assert(t[k] == r[a]);
            }
        }
    }
}

// ---------- the rows on offer ----------

/// The rows listed before any note: every window, then the system
/// actions, then the colour schemes in their numbering order.
pub open spec fn fixed_items() -> Seq<PaletteItem> {
    seq![
        PaletteItem::Window(WindowKind::DigitalGarden),
        PaletteItem::Window(WindowKind::About),
        PaletteItem::Window(WindowKind::Resume),
        PaletteItem::Window(WindowKind::Projects),
        PaletteItem::Window(WindowKind::Calculator),
        PaletteItem::Window(WindowKind::BinaryClock),
        PaletteItem::Window(WindowKind::Canvas),
        PaletteItem::Window(WindowKind::Workouts),
        PaletteItem::Window(WindowKind::Collections),
        PaletteItem::Window(WindowKind::Bezier),
        PaletteItem::Window(WindowKind::PaletteStudio),
        PaletteItem::Window(WindowKind::Raycaster),
        PaletteItem::Window(WindowKind::WadViewer),
        PaletteItem::Window(WindowKind::AppEvents),
        PaletteItem::System(SystemAction::OrganizeWindows),
        PaletteItem::System(SystemAction::ZoomIn),
        PaletteItem::System(SystemAction::ZoomOut),
        PaletteItem::System(SystemAction::ResetZoom),
        PaletteItem::Scheme(Scheme::TimeOfDay),
        PaletteItem::Scheme(Scheme::Sunset),
        PaletteItem::Scheme(Scheme::Forest),
        PaletteItem::Scheme(Scheme::Tide),
        PaletteItem::Scheme(Scheme::Ember),
        PaletteItem::Scheme(Scheme::Moss),
        PaletteItem::Scheme(Scheme::Plum),
        PaletteItem::Scheme(Scheme::Mono),
        PaletteItem::Scheme(Scheme::Custom),
    ]
}

/// The first note of `ns` with the id `id`.
pub open spec fn first_with_id(ns: Seq<Arc<Note>>, id: Seq<char>) -> Option<Arc<Note>>
    decreases ns.len(),
{
    if ns.len() == 0 {
        None
    } else if ns[0].id@ == id {
        Some(ns[0])
    } else {
        first_with_id(ns.drop_first(), id)
    }
}

/// The recently viewed ids that name a note, as those notes, in order.
pub open spec fn found_recent(ns: Seq<Arc<Note>>, recent: Seq<Seq<char>>) -> Seq<Note>
    decreases recent.len(),
{
    if recent.len() == 0 {
        Seq::empty()
    } else {
        let prev = found_recent(ns, recent.drop_last());
        match first_with_id(ns, recent.last()) {
            Some(n) => prev.push(*n),
            None => prev,
        }
    }
}

/// The notes the palette lists: the recently viewed ones that exist, most
/// recent first, then every other published note in directory order.
pub open spec fn palette_notes(ns: Seq<Arc<Note>>, recent: Seq<Seq<char>>) -> Seq<Note> {
    let found = found_recent(ns, recent);
    let seen = found.map_values(|n: Note| n.id@);
    found + published(note_seq(ns)).filter(|n: Note| !seen.contains(n.id@))
}

/// Row `item` offers note `n` under its title.
pub open spec fn offers_note(item: PaletteItem, n: Note) -> bool {
    item matches PaletteItem::Note { id, title } && id@ == n.id@ && title@ == spec_title(n)
}

/// `first_with_id` is the note `get_note` finds.
proof fn lemma_first_with_id(ns: Seq<Arc<Note>>, id: Seq<char>, i: int)
    requires
        0 <= i <= ns.len(),
        forall|j: int| 0 <= j < i ==> ns[j].id@ != id,
    ensures
        i < ns.len() && ns[i].id@ == id ==> first_with_id(ns, id) == Some(ns[i]),
        i == ns.len() ==> first_with_id(ns, id) is None,
    decreases i,
{
    if i > 0 {
        lemma_first_with_id(ns.drop_first(), id, i - 1);
    } else if ns.len() > 0 {
        assert(ns[0] == ns[i]);
    }
}

/// The palette's rows: every window, the system actions and the colour
/// schemes, then, with a directory loaded, its notes (see
/// `palette_notes`), recently viewed ones first.
pub fn palette_items(recent_ids: &Vec<String>, directory: Option<&NoteDirectory>) -> (r: Vec<PaletteItem>)
    ensures
        ({
            let notes = match directory {
                Some(d) => palette_notes(d.notes@, recent_ids@.map_values(|s: String| s@)),
                None => Seq::empty(),
            };
            &&& r@.len() == fixed_items().len() + notes.len()
            &&& forall|k: int| 0 <= k < fixed_items().len() ==> r@[k] == fixed_items()[k]
            &&& forall|k: int|
                0 <= k < notes.len() ==> offers_note(#[trigger] r@[fixed_items().len() + k], notes[k])
        }),
{
    let mut items: Vec<PaletteItem> = vec![
        PaletteItem::Window(WindowKind::DigitalGarden),
        PaletteItem::Window(WindowKind::About),
        PaletteItem::Window(WindowKind::Resume),
        PaletteItem::Window(WindowKind::Projects),
        PaletteItem::Window(WindowKind::Calculator),
        PaletteItem::Window(WindowKind::BinaryClock),
        PaletteItem::Window(WindowKind::Canvas),
        PaletteItem::Window(WindowKind::Workouts),
        PaletteItem::Window(WindowKind::Collections),
        PaletteItem::Window(WindowKind::Bezier),
        PaletteItem::Window(WindowKind::PaletteStudio),
        PaletteItem::Window(WindowKind::Raycaster),
        PaletteItem::Window(WindowKind::WadViewer),
        PaletteItem::Window(WindowKind::AppEvents),
        PaletteItem::System(SystemAction::OrganizeWindows),
        PaletteItem::System(SystemAction::ZoomIn),
        PaletteItem::System(SystemAction::ZoomOut),
        PaletteItem::System(SystemAction::ResetZoom),
    ];
    let schemes = Scheme::all();
    let mut k: usize = 0;
    while k < schemes.len()
        invariant
            k <= schemes@.len() == 9,
            forall|i: int| 0 <= i < schemes@.len() ==> spec_scheme_at(i) == Some(#[trigger] schemes@[i]),
            items@.len() == 18 + k,
            forall|i: int| 0 <= i < 18 + k ==> items@[i] == fixed_items()[i],
        decreases schemes@.len() - k,
    {
        items.push(PaletteItem::Scheme(schemes[k]));
        k = k + 1;
    }
    let ghost fixed = items@;
    assert(fixed.len() == fixed_items().len());
    match directory {
        None => {},
        Some(dir) => {
            let ghost ns = dir.notes@;
            let ghost recent = recent_ids@.map_values(|s: String| s@);
            let mut seen: Vec<String> = Vec::new();
            let mut i: usize = 0;
            while i < recent_ids.len()
                invariant
                    i <= recent_ids@.len(),
                    ns == dir.notes@,
                    recent == recent_ids@.map_values(|s: String| s@),
                    items@.len() == fixed.len() + seen@.len(),
                    forall|j: int| 0 <= j < fixed.len() ==> items@[j] == fixed[j],
                    seen@.len() == found_recent(ns, recent.take(i as int)).len(),
                    forall|j: int|
                        0 <= j < seen@.len() ==> seen@[j]@ == (#[trigger] found_recent(ns, recent.take(i as int))[j]).id@,
                    forall|j: int|
                        0 <= j < seen@.len() ==> offers_note(
                            #[trigger] items@[fixed.len() + j],
                            found_recent(ns, recent.take(i as int))[j],
                        ),
                decreases recent_ids@.len() - i,
            {
                assert(recent.take(i + 1).drop_last() =~= recent.take(i as int));
                assert(recent.take(i + 1).last() == recent_ids@[i as int]@);
                let ghost prev = found_recent(ns, recent.take(i as int));
                match dir.get_note(recent_ids[i].as_str()) {
                    Some(note) => {
                        proof {
                            let w = choose|w: int|
                                0 <= w < ns.len() && ns[w] == note && note.id@ == recent_ids@[i as int]@ && forall|j: int|
                                    0 <= j < w ==> ns[j].id@ != recent_ids@[i as int]@;
                            lemma_first_with_id(ns, recent_ids@[i as int]@, w);
                        }
                        seen.push(note.id.clone());
                        items.push(PaletteItem::Note { id: note.id.clone(), title: note.title() });
                    },
                    None => {
                        proof {
                            lemma_first_with_id(ns, recent_ids@[i as int]@, ns.len() as int);
                        }
                    },
                }
                i = i + 1;
            }
            assert(recent.take(recent_ids@.len() as int) =~= recent);
            let ghost found = found_recent(ns, recent);
            let ghost seen_ids = found.map_values(|n: Note| n.id@);
            let pubs = dir.published_notes();
            let ghost p = note_seq(pubs@);
            let ghost pred = |n: Note| !seen_ids.contains(n.id@);
            let ghost base = items@.len();
            let mut j: usize = 0;
            while j < pubs.len()
                invariant
                    j <= pubs@.len(),
                    p == note_seq(pubs@),
                    p == published(note_seq(ns)),
                    base == fixed.len() + found.len(),
                    seen@.len() == found.len(),
                    forall|m: int| 0 <= m < seen@.len() ==> seen@[m]@ == (#[trigger] found[m]).id@,
                    seen_ids == found.map_values(|n: Note| n.id@),
                    pred == (|n: Note| !seen_ids.contains(n.id@)),
                    items@.len() == base + p.take(j as int).filter(pred).len(),
                    forall|m: int| 0 <= m < fixed.len() ==> items@[m] == fixed[m],
                    forall|m: int| 0 <= m < found.len() ==> offers_note(#[trigger] items@[fixed.len() + m], found[m]),
                    forall|m: int|
                        0 <= m < p.take(j as int).filter(pred).len() ==> offers_note(
                            #[trigger] items@[base + m],
                            p.take(j as int).filter(pred)[m],
                        ),
                decreases pubs@.len() - j,
            {
                assert(p.take(j + 1).drop_last() =~= p.take(j as int));
                assert(p.take(j + 1).last() == *pubs@[j as int]);
                let note = &pubs[j];
                let dup = holds_text(&seen, note.id.as_str());
                proof {
                    assert(texts(seen@) =~= seen_ids);
                }
                let ghost prev = p.take(j as int).filter(pred);
                proof {
                    reveal(Seq::filter);
                    assert(pred(p[j as int]) == !dup);
                    assert(p.take(j + 1).filter(pred) == if pred(p[j as int]) {
                        prev.push(p[j as int])
                    } else {
                        prev
                    });
                }
                if !dup {
                    items.push(PaletteItem::Note { id: note.id.clone(), title: note.title() });
                    proof {
                        assert forall|m: int|
                            0 <= m < p.take(j + 1).filter(pred).len() implies offers_note(
                            #[trigger] items@[base + m],
                            p.take(j + 1).filter(pred)[m],
                        ) by {
                            if m < prev.len() {
                                assert(offers_note(items@[base + m], prev[m]));
                            }
                        }
                    }
                }
                j = j + 1;
            }
            assert(p.take(pubs@.len() as int) =~= p);
            proof {
                let notes = palette_notes(ns, recent);
                assert(notes =~= found + p.filter(pred));
                assert forall|k: int| 0 <= k < notes.len() implies offers_note(
                    #[trigger] items@[fixed_items().len() + k],
                    notes[k],
                ) by {
                    if k >= found.len() {
                        assert(items@[fixed_items().len() + k] == items@[base + (k - found.len())]);
                    }
                }
            }
        },
    }
    items
}

} // verus!
