//! Theme presets and the theme manager's bookkeeping: which theme is
//! current, which names are available, which theme a light/dark toggle
//! switches to, and decoding of `#rrggbb` colours. Reading theme files
//! and applying colours to the UI happen outside.
use vstd::prelude::*;
use vstd::utf8::encode_utf8;

use crate::text::{chars_eq, chars_of, find_chars, lemma_find_some, occurs_at, spec_find, string_of};

verus! {

/// A theme: name, light or dark, and its colours as hex strings.
#[derive(Debug, Clone)]
pub struct ThemeConfig {
    pub name: String,
    pub is_dark: bool,
    pub accent_color: String,
    pub background_color: String,
    pub text_color: String,
    pub link_color: String,
    pub code_background: String,
    pub custom_css: Option<String>,
}

/// `t` has exactly these settings and no custom CSS.
pub open spec fn theme_is(
    t: ThemeConfig,
    name: Seq<char>,
    is_dark: bool,
    accent: Seq<char>,
    background: Seq<char>,
    text: Seq<char>,
    link: Seq<char>,
    code: Seq<char>,
) -> bool {
    &&& t.name@ == name
    &&& t.is_dark == is_dark
    &&& t.accent_color@ == accent
    &&& t.background_color@ == background
    &&& t.text_color@ == text
    &&& t.link_color@ == link
    &&& t.code_background@ == code
    &&& t.custom_css is None
}

pub open spec fn is_default_dark(t: ThemeConfig) -> bool {
    theme_is(t, "Default Dark"@, true, "#7b68ee"@, "#1e1e2e"@, "#cdd6f4"@, "#89b4fa"@, "#282a36"@)
}

pub open spec fn is_default_light(t: ThemeConfig) -> bool {
    theme_is(t, "Default Light"@, false, "#7b68ee"@, "#f5f5f5"@, "#2e3440"@, "#5e81ac"@, "#eceff4"@)
}

pub open spec fn is_obsidian_dark(t: ThemeConfig) -> bool {
    theme_is(t, "Obsidian Dark"@, true, "#50fa7b"@, "#282a36"@, "#f8f8f2"@, "#8be9fd"@, "#44475a"@)
}

pub open spec fn is_obsidian_light(t: ThemeConfig) -> bool {
    theme_is(t, "Obsidian Light"@, false, "#50fa7b"@, "#fafafa"@, "#40434c"@, "#277bcf"@, "#f2f3f5"@)
}

/// The preset names, in preset order.
pub open spec fn default_theme_names() -> Seq<Seq<char>> {
    seq!["Default Dark"@, "Default Light"@, "Obsidian Dark"@, "Obsidian Light"@]
}

/// A field-by-field copy of a theme.
pub fn copy_theme(t: &ThemeConfig) -> (r: ThemeConfig)
    ensures
        r == *t,
{
    ThemeConfig {
        name: t.name.clone(),
        is_dark: t.is_dark,
        accent_color: t.accent_color.clone(),
        background_color: t.background_color.clone(),
        text_color: t.text_color.clone(),
        link_color: t.link_color.clone(),
        code_background: t.code_background.clone(),
        custom_css: match &t.custom_css {
            Some(c) => Some(c.clone()),
            None => None,
        },
    }
}

fn s(text: &str) -> (r: String)
    ensures
        r@ == text@,
{
    String::from_str(text)
}

impl Default for ThemeConfig {
    /// The "Default Dark" preset.
    fn default() -> (t: Self)
        ensures
            is_default_dark(t),
    {
        ThemeConfig {
            name: s("Default Dark"),
            is_dark: true,
            accent_color: s("#7b68ee"),
            background_color: s("#1e1e2e"),
            text_color: s("#cdd6f4"),
            link_color: s("#89b4fa"),
            code_background: s("#282a36"),
            custom_css: None,
        }
    }
}

/// The four built-in presets.
pub fn get_default_themes() -> (v: Vec<ThemeConfig>)
    ensures
        v@.len() == 4,
        is_default_dark(v@[0]),
        is_default_light(v@[1]),
        is_obsidian_dark(v@[2]),
        is_obsidian_light(v@[3]),
{
    let mut v: Vec<ThemeConfig> = Vec::new();
    v.push(ThemeConfig::default());
    v.push(
        ThemeConfig {
            name: s("Default Light"),
            is_dark: false,
            accent_color: s("#7b68ee"),
            background_color: s("#f5f5f5"),
            text_color: s("#2e3440"),
            link_color: s("#5e81ac"),
            code_background: s("#eceff4"),
            custom_css: None,
        },
    );
    v.push(
        ThemeConfig {
            name: s("Obsidian Dark"),
            is_dark: true,
            accent_color: s("#50fa7b"),
            background_color: s("#282a36"),
            text_color: s("#f8f8f2"),
            link_color: s("#8be9fd"),
            code_background: s("#44475a"),
            custom_css: None,
        },
    );
    v.push(
        ThemeConfig {
            name: s("Obsidian Light"),
            is_dark: false,
            accent_color: s("#50fa7b"),
            background_color: s("#fafafa"),
            text_color: s("#40434c"),
            link_color: s("#277bcf"),
            code_background: s("#f2f3f5"),
            custom_css: None,
        },
    );
    v
}

// ---------- name ordering ----------

/// Byte-wise lexicographic order, the order of `String`.
pub open spec fn lex_le(a: Seq<u8>, b: Seq<u8>) -> bool
    decreases a.len(),
{
    if a.len() == 0 {
        true
    } else if b.len() == 0 {
        false
    } else if a[0] != b[0] {
        a[0] < b[0]
    } else {
        lex_le(a.drop_first(), b.drop_first())
    }
}

pub open spec fn name_le(a: Seq<char>, b: Seq<char>) -> bool {
    lex_le(encode_utf8(a), encode_utf8(b))
}

pub(crate) fn name_le_exec(a: &str, b: &str) -> (r: bool)
    ensures
        r == name_le(a@, b@),
{
    let ab = a.as_bytes();
    let bb = b.as_bytes();
    let mut i: usize = 0;
    assert(ab@.skip(0) =~= ab@);
    assert(bb@.skip(0) =~= bb@);
    while i < ab.len() && i < bb.len() && ab[i] == bb[i]
        invariant
            ab@ == encode_utf8(a@),
            bb@ == encode_utf8(b@),
            i <= ab@.len(),
            i <= bb@.len(),
            lex_le(ab@, bb@) == lex_le(ab@.skip(i as int), bb@.skip(i as int)),
        decreases ab@.len() - i,
    {
        assert(ab@.skip(i + 1) =~= ab@.skip(i as int).drop_first());
        assert(bb@.skip(i + 1) =~= bb@.skip(i as int).drop_first());
        i = i + 1;
    }
    if i == ab.len() {
        true
    } else if i == bb.len() {
        false
    } else {
        ab[i] < bb[i]
    }
}

/// Insert `x` into a list sorted by `name_le`, after every name not
/// greater than it.
pub open spec fn insert_name(sorted: Seq<Seq<char>>, x: Seq<char>) -> Seq<Seq<char>>
    decreases sorted.len(),
{
    if sorted.len() == 0 {
        seq![x]
    } else if name_le(sorted.last(), x) {
        sorted.push(x)
    } else {
        insert_name(sorted.drop_last(), x).push(sorted.last())
    }
}

/// Names sorted in `String` order.
pub open spec fn sort_names(s: Seq<Seq<char>>) -> Seq<Seq<char>>
    decreases s.len(),
{
    if s.len() == 0 {
        s
    } else {
        insert_name(sort_names(s.drop_last()), s.last())
    }
}

proof fn lemma_insert_name_at(sorted: Seq<Seq<char>>, x: Seq<char>, j: int)
    requires
        0 <= j <= sorted.len(),
        forall|k: int| j <= k < sorted.len() ==> !name_le(#[trigger] sorted[k], x),
        j == 0 || name_le(sorted[j - 1], x),
    ensures
        insert_name(sorted, x) == sorted.take(j).push(x) + sorted.skip(j),
    decreases sorted.len(),
{
    if sorted.len() == 0 {
        assert(sorted.take(j).push(x) + sorted.skip(j) =~= seq![x]);
    } else if j == sorted.len() {
        assert(sorted.take(j) =~= sorted);
        assert(sorted.take(j).push(x) + sorted.skip(j) =~= sorted.push(x));
    } else {
        let t = sorted.drop_last();
        assert(!name_le(sorted[sorted.len() - 1], x));
        lemma_insert_name_at(t, x, j);
        assert(sorted.take(j).push(x) + sorted.skip(j) =~= (t.take(j).push(x) + t.skip(j)).push(
            sorted.last(),
        ));
    }
}

/// Sort names in `String` order (an insertion sort).
pub(crate) fn sort_names_exec(v: Vec<String>) -> (r: Vec<String>)
    ensures
        r@.map_values(|x: String| x@) == sort_names(v@.map_values(|x: String| x@)),
{
    let ghost vv = v@.map_values(|x: String| x@);
    let mut out: Vec<String> = Vec::new();
    let mut i: usize = 0;
    while i < v.len()
        invariant
            i <= v@.len(),
            vv == v@.map_values(|x: String| x@),
            out@.map_values(|x: String| x@) == sort_names(vv.take(i as int)),
        decreases v@.len() - i,
    {
        let x = v[i].clone();
        let ghost ov = out@.map_values(|y: String| y@);
        assert(vv.take(i + 1).drop_last() =~= vv.take(i as int));
        assert(vv.take(i + 1).last() == x@);
        let mut j: usize = out.len();
        while j > 0 && !name_le_exec(out[j - 1].as_str(), x.as_str())
            invariant
                j <= out@.len(),
                ov == out@.map_values(|y: String| y@),
                forall|k: int| j <= k < ov.len() ==> !name_le(#[trigger] ov[k], x@),
            decreases j,
        {
            j = j - 1;
        }
        proof {
            lemma_insert_name_at(ov, x@, j as int);
        }
        let ghost xv = x@;
        out.insert(j, x);
        assert(out@.map_values(|y: String| y@) =~= ov.take(j as int).push(xv) + ov.skip(j as int));
        i = i + 1;
    }
    assert(vv.take(v@.len() as int) =~= vv);
    out
}

// ---------- manager ----------

/// The current theme, the themes directory, and the names of the
/// available themes.
pub struct ThemeManager {
    pub current_theme: ThemeConfig,
    pub themes_dir: Option<String>,
    pub available_themes: Vec<String>,
}

/// Names after a rescan: the presets, then each name found in the themes
/// directory that is not listed yet.
pub open spec fn add_new_names(acc: Seq<Seq<char>>, found: Seq<Seq<char>>) -> Seq<Seq<char>>
    decreases found.len(),
{
    if found.len() == 0 {
        acc
    } else {
        let acc2 = add_new_names(acc, found.drop_last());
        if acc2.contains(found.last()) {
            acc2
        } else {
            acc2.push(found.last())
        }
    }
}

fn contains_name(v: &Vec<String>, name: &String) -> (r: bool)
    ensures
        r == v@.map_values(|x: String| x@).contains(name@),
{
    let ghost vv = v@.map_values(|x: String| x@);
    let mut i: usize = 0;
    while i < v.len()
        invariant
            i <= v@.len(),
            vv == v@.map_values(|x: String| x@),
            forall|k: int| 0 <= k < i ==> vv[k] != name@,
        decreases v@.len() - i,
    {
        if v[i] == *name {
            assert(vv[i as int] == name@);
            return true;
        }
        i = i + 1;
    }
    false
}

fn default_names() -> (r: Vec<String>)
    ensures
        r@.map_values(|x: String| x@) == default_theme_names(),
{
    let themes = get_default_themes();
    let mut v: Vec<String> = Vec::new();
    v.push(themes[0].name.clone());
    v.push(themes[1].name.clone());
    v.push(themes[2].name.clone());
    v.push(themes[3].name.clone());
    assert(v@.map_values(|x: String| x@) =~= default_theme_names());
    v
}

impl ThemeManager {
    /// Default Dark, no themes directory, the preset names in preset order.
    pub fn new() -> (m: Self)
        ensures
            is_default_dark(m.current_theme),
            m.themes_dir is None,
            m.available_themes@.map_values(|x: String| x@) == default_theme_names(),
    {
        ThemeManager {
            current_theme: ThemeConfig::default(),
            themes_dir: None,
            available_themes: default_names(),
        }
    }

    /// Use `path` as the themes directory and rescan with nothing found
    /// yet; the caller then reports the names it finds there through
    /// `load_available_themes`.
    pub fn set_themes_directory(&mut self, path: String)
        ensures
            final(self).themes_dir matches Some(p) && p@ == path@,
            final(self).available_themes@.map_values(|x: String| x@) == sort_names(
                default_theme_names(),
            ),
            final(self).current_theme == old(self).current_theme,
    {
        self.themes_dir = Some(path);
        self.load_available_themes(Vec::new());
        assert(add_new_names(default_theme_names(), Seq::empty()) == default_theme_names());
        assert(Seq::<String>::empty().map_values(|x: String| x@) =~= Seq::<Seq<char>>::empty());
    }

    /// Recompute the available names: the presets plus the names of the
    /// themes found in the themes directory (`found`, ignored when no
    /// directory is set), without repeats, sorted.
    pub fn load_available_themes(&mut self, found: Vec<String>)
        ensures
            final(self).available_themes@.map_values(|x: String| x@) == sort_names(
                if old(self).themes_dir is Some {
                    add_new_names(default_theme_names(), found@.map_values(|x: String| x@))
                } else {
                    default_theme_names()
                },
            ),
            final(self).themes_dir == old(self).themes_dir,
            final(self).current_theme == old(self).current_theme,
    {
        let mut names = default_names();
        let ghost fv = found@.map_values(|x: String| x@);
        if self.themes_dir.is_some() {
            let mut i: usize = 0;
            while i < found.len()
                invariant
                    i <= found@.len(),
                    fv == found@.map_values(|x: String| x@),
                    names@.map_values(|x: String| x@) == add_new_names(default_theme_names(), fv.take(i as int)),
                decreases found@.len() - i,
            {
                assert(fv.take(i + 1).drop_last() =~= fv.take(i as int));
                assert(fv.take(i + 1).last() == found@[i as int]@);
                let ghost before = names@.map_values(|x: String| x@);
                if !contains_name(&names, &found[i]) {
                    names.push(found[i].clone());
                    assert(names@.map_values(|x: String| x@) =~= before.push(found@[i as int]@));
                }
                i = i + 1;
            }
            assert(fv.take(found@.len() as int) =~= fv);
        }
        self.available_themes = sort_names_exec(names);
    }

    /// Switch to the theme called `name`: a preset if one has that name,
    /// otherwise `from_dir` (the theme the caller loaded from the themes
    /// directory, if any), otherwise the Default Dark preset.
    pub fn set_theme(&mut self, name: &str, from_dir: Option<ThemeConfig>)
        ensures
            name@ == "Default Dark"@ ==> is_default_dark(final(self).current_theme),
            name@ == "Default Light"@ ==> is_default_light(final(self).current_theme),
            name@ == "Obsidian Dark"@ ==> is_obsidian_dark(final(self).current_theme),
            name@ == "Obsidian Light"@ ==> is_obsidian_light(final(self).current_theme),
            !default_theme_names().contains(name@) ==> (match from_dir {
                Some(t) => final(self).current_theme == t,
                None => is_default_dark(final(self).current_theme),
            }),
            final(self).themes_dir == old(self).themes_dir,
            final(self).available_themes == old(self).available_themes,
    {
        let themes = get_default_themes();
        let wanted = chars_of(name);
        proof {
            lemma_default_names_distinct();
        }
        let mut i: usize = 0;
        while i < themes.len()
            invariant
                *self == *old(self),
                themes@.len() == 4,
                is_default_dark(themes@[0]),
                is_default_light(themes@[1]),
                is_obsidian_dark(themes@[2]),
                is_obsidian_light(themes@[3]),
                wanted@ == name@,
                i <= 4,
                forall|a: int, b: int|
                    0 <= a < 4 && 0 <= b < 4 && a != b ==> default_theme_names()[a]
                        != default_theme_names()[b],
                forall|k: int| 0 <= k < i ==> themes@[k].name@ != name@,
            decreases 4 - i,
        {
            let candidate = chars_of(themes[i].name.as_str());
            assert(themes@[i as int].name@ == default_theme_names()[i as int]);
            if chars_eq(candidate.as_slice(), wanted.as_slice()) {
                assert(forall|b: int| 0 <= b < 4 && b != i ==> default_theme_names()[i as int] != default_theme_names()[b]);
                self.current_theme = copy_theme(&themes[i]);
                return;
            }
            i = i + 1;
        }
        assert(!default_theme_names().contains(name@)) by {
            if default_theme_names().contains(name@) {
                let k = choose|k: int| 0 <= k < 4 && default_theme_names()[k] == name@;
                assert(themes@[k].name@ == name@);
            }
        }
        match from_dir {
            Some(t) => {
                self.current_theme = t;
            },
            None => {
                self.current_theme = ThemeConfig::default();
            },
        }
    }

    /// The theme a light/dark toggle switches to: the current name with
    /// "Dark" replaced by "Light" (or the reverse) when that theme is
    /// available, otherwise the default theme of the other mode.
    pub fn dark_mode_target(&self) -> (r: String)
        ensures
            r@ == spec_toggle_target(
                self.current_theme.name@,
                self.current_theme.is_dark,
                self.available_themes@.map_values(|x: String| x@),
            ),
    {
        let name = chars_of(self.current_theme.name.as_str());
        let (from, to, fallback): (Vec<char>, Vec<char>, &str) = if self.current_theme.is_dark {
            (vec!['D', 'a', 'r', 'k'], vec!['L', 'i', 'g', 'h', 't'], "Default Light")
        } else {
            (vec!['L', 'i', 'g', 'h', 't'], vec!['D', 'a', 'r', 'k'], "Default Dark")
        };
        assert(from@ == (if self.current_theme.is_dark { dark_word() } else { light_word() }));
        assert(to@ == (if self.current_theme.is_dark { light_word() } else { dark_word() }));
        let replaced = replace_all(name.as_slice(), from.as_slice(), to.as_slice());
        let candidate = string_of(replaced.as_slice());
        if contains_name(&self.available_themes, &candidate) {
            candidate
        } else {
            String::from_str(fallback)
        }
    }
}

proof fn lemma_default_names_distinct()
    ensures
        forall|a: int, b: int|
            0 <= a < 4 && 0 <= b < 4 && a != b ==> default_theme_names()[a]
                != default_theme_names()[b],
{
    reveal_strlit("Default Dark");
    reveal_strlit("Default Light");
    reveal_strlit("Obsidian Dark");
    reveal_strlit("Obsidian Light");
    assert("Default Dark"@[8] != "Default Light"@[8]);
    assert("Obsidian Dark"@[9] != "Obsidian Light"@[9]);
    assert("Default Dark"@[0] != "Obsidian Dark"@[0]);
    assert("Default Dark"@[0] != "Obsidian Light"@[0]);
    assert("Default Light"@[0] != "Obsidian Dark"@[0]);
    assert("Default Light"@[0] != "Obsidian Light"@[0]);
}

pub open spec fn dark_word() -> Seq<char> {
    seq!['D', 'a', 'r', 'k']
}

pub open spec fn light_word() -> Seq<char> {
    seq!['L', 'i', 'g', 'h', 't']
}

/// `s` with every non-overlapping occurrence of `from` (found left to
/// right) replaced by `to`, as `str::replace`.
pub open spec fn spec_replace(s: Seq<char>, from: Seq<char>, to: Seq<char>) -> Seq<char>
    decreases s.len(),
{
    if from.len() == 0 {
        s
    } else {
        match spec_find(s, from) {
            None => s,
            Some(p) => if 0 <= p && p + from.len() <= s.len() {
                s.take(p) + to + spec_replace(s.skip(p + from.len()), from, to)
            } else {
                s
            },
        }
    }
}

/// The name a toggle switches to.
pub open spec fn spec_toggle_target(name: Seq<char>, is_dark: bool, available: Seq<Seq<char>>) -> Seq<char> {
    let candidate = if is_dark {
        spec_replace(name, dark_word(), light_word())
    } else {
        spec_replace(name, light_word(), dark_word())
    };
    if available.contains(candidate) {
        candidate
    } else if is_dark {
        "Default Light"@
    } else {
        "Default Dark"@
    }
}

/// Replace every occurrence of the non-empty `from` by `to`.
pub fn replace_all(s: &[char], from: &[char], to: &[char]) -> (r: Vec<char>)
    requires
        from@.len() > 0,
    ensures
        r@ == spec_replace(s@, from@, to@),
{
    let mut out: Vec<char> = Vec::new();
    let mut pos: usize = 0;
    let slen = s.len();
    assert(s@.skip(0) =~= s@);
    assert(out@ + spec_replace(s@, from@, to@) =~= spec_replace(s@, from@, to@));
    loop
        invariant
            slen == s@.len(),
            from@.len() > 0,
            pos <= s@.len(),
            spec_replace(s@, from@, to@) == out@ + spec_replace(s@.skip(pos as int), from@, to@),
        decreases s@.len() - pos,
    {
        let rest = &s[pos..s.len()];
        assert(rest@ =~= s@.skip(pos as int));
        proof {
            lemma_find_some(rest@, from@);
        }
        match find_chars(rest, from) {
            None => {
                let mut k = pos;
                let ghost before = out@;
                while k < s.len()
                    invariant
                        pos <= k <= s@.len(),
                        out@ == before + s@.subrange(pos as int, k as int),
                    decreases s@.len() - k,
                {
                    out.push(s[k]);
                    assert(s@.subrange(pos as int, k + 1) =~= s@.subrange(pos as int, k as int).push(s@[k as int]));
                    k = k + 1;
                }
                assert(s@.subrange(pos as int, s@.len() as int) =~= s@.skip(pos as int));
                return out;
            },
            Some(p) => {
                assert(occurs_at(rest@, from@, p as int));
                assert(p + from@.len() <= rest@.len());
                let ghost before = out@;
                let mut k = pos;
                let stop = pos + p;
                while k < stop
                    invariant
                        stop == pos + p,
                        pos <= k <= pos + p,
                        pos + p + from@.len() <= s@.len(),
                        out@ == before + s@.subrange(pos as int, k as int),
                    decreases pos + p - k,
                {
                    out.push(s[k]);
                    assert(s@.subrange(pos as int, k + 1) =~= s@.subrange(pos as int, k as int).push(s@[k as int]));
                    k = k + 1;
                }
                let ghost mid = out@;
                let mut t: usize = 0;
                while t < to.len()
                    invariant
                        t <= to@.len(),
                        out@ == mid + to@.take(t as int),
                    decreases to@.len() - t,
                {
                    out.push(to[t]);
                    assert(to@.take(t + 1) =~= to@.take(t as int).push(to@[t as int]));
                    t = t + 1;
                }
                assert(to@.take(to@.len() as int) =~= to@);
                assert(rest@.take(p as int) =~= s@.subrange(pos as int, pos + p));
                assert(rest@.skip(p + from@.len()) =~= s@.skip(pos + p + from@.len()));
                pos = pos + p + from.len();
            },
        }
    }
}

// ---------- colours ----------

/// The text after its leading `#` bytes.
pub open spec fn strip_hash_bytes(b: Seq<u8>) -> Seq<u8>
    decreases b.len(),
{
    if b.len() > 0 && b[0] == 35 {
        strip_hash_bytes(b.drop_first())
    } else {
        b
    }
}

/// Value of an ASCII hex digit.
pub open spec fn hex_value(b: u8) -> Option<int> {
    if 48 <= b <= 57 {
        Some(b - 48)
    } else if 97 <= b <= 102 {
        Some(b - 87)
    } else if 65 <= b <= 70 {
        Some(b - 55)
    } else {
        None
    }
}

/// `u8::from_str_radix` on two bytes in base 16 (an optional leading
/// `+` is accepted), or 0 when it fails.
pub open spec fn hex_pair(b0: u8, b1: u8) -> u8 {
    if b0 == 43 {
        match hex_value(b1) {
            Some(v) => v as u8,
            None => 0,
        }
    } else {
        match (hex_value(b0), hex_value(b1)) {
            (Some(h), Some(l)) => (16 * h + l) as u8,
            _ => 0,
        }
    }
}

fn hex_digit(b: u8) -> (r: Option<u8>)
    ensures
        match r {
            Some(v) => hex_value(b) == Some(v as int),
            None => hex_value(b) is None,
        },
{
    if 48 <= b && b <= 57 {
        Some(b - 48)
    } else if 97 <= b && b <= 102 {
        Some(b - 87)
    } else if 65 <= b && b <= 70 {
        Some(b - 55)
    } else {
        None
    }
}

fn parse_pair(b0: u8, b1: u8) -> (r: u8)
    ensures
        r == hex_pair(b0, b1),
{
    if b0 == 43 {
        match hex_digit(b1) {
            Some(v) => v,
            None => 0,
        }
    } else {
        match (hex_digit(b0), hex_digit(b1)) {
            (Some(h), Some(l)) => 16 * h + l,
            _ => 0,
        }
    }
}

/// The hex text of a colour can be cut at bytes 2, 4 and 6: it is at
/// least six bytes long after the `#`s and those are character
/// boundaries.
pub open spec fn hex_cuttable(s: Seq<char>) -> bool {
    let b = strip_hash_bytes(encode_utf8(s));
    &&& b.len() >= 6
    &&& vstd::utf8::is_char_boundary(b, 2)
    &&& vstd::utf8::is_char_boundary(b, 4)
    &&& vstd::utf8::is_char_boundary(b, 6)
}

/// Decode `#rrggbb` (any number of leading `#`); a component that does
/// not parse as hex is 0.
pub fn hex_to_rgb(hex: &str) -> (r: (u8, u8, u8))
    requires
        hex_cuttable(hex@),
    ensures
        ({
            let b = strip_hash_bytes(encode_utf8(hex@));
            r == (hex_pair(b[0], b[1]), hex_pair(b[2], b[3]), hex_pair(b[4], b[5]))
        }),
{
    let bytes = hex.as_bytes();
    let mut i: usize = 0;
    assert(bytes@.skip(0) =~= bytes@);
    while i < bytes.len() && bytes[i] == 35
        invariant
            i <= bytes@.len(),
            strip_hash_bytes(bytes@) == strip_hash_bytes(bytes@.skip(i as int)),
        decreases bytes@.len() - i,
    {
        assert(bytes@.skip(i + 1) =~= bytes@.skip(i as int).drop_first());
        i = i + 1;
    }
    let ghost b = bytes@.skip(i as int);
    assert(b == strip_hash_bytes(bytes@.skip(i as int)));
    let red = parse_pair(bytes[i], bytes[i + 1]);
    let green = parse_pair(bytes[i + 2], bytes[i + 3]);
    let blue = parse_pair(bytes[i + 4], bytes[i + 5]);
    (red, green, blue)
}

// ---------- the available names stay sorted ----------

/// Byte-wise order is total.
pub(crate) proof fn lemma_lex_total(a: Seq<u8>, b: Seq<u8>)
    ensures
        lex_le(a, b) || lex_le(b, a),
    decreases a.len(),
{
    if a.len() > 0 && b.len() > 0 && a[0] == b[0] {
        lemma_lex_total(a.drop_first(), b.drop_first());
    }
}

/// Byte-wise order is transitive.
pub(crate) proof fn lemma_lex_trans(a: Seq<u8>, b: Seq<u8>, c: Seq<u8>)
    requires
        lex_le(a, b),
        lex_le(b, c),
    ensures
        lex_le(a, c),
    decreases a.len(),
{
    if a.len() > 0 && b.len() > 0 && c.len() > 0 && a[0] == b[0] && b[0] == c[0] {
        lemma_lex_trans(a.drop_first(), b.drop_first(), c.drop_first());
    }
}

/// No name occurs twice.
pub open spec fn distinct_names(s: Seq<Seq<char>>) -> bool {
    forall|i: int, j: int| 0 <= i < j < s.len() ==> s[i] != s[j]
}

/// Every name comes no later in `String` order than every name after it.
pub open spec fn names_sorted(s: Seq<Seq<char>>) -> bool {
    forall|i: int, j: int| 0 <= i < j < s.len() ==> name_le(s[i], s[j])
}

/// Inserting keeps the names (one more) and, for a new name, their
/// distinctness; into a sorted list it keeps the order.
proof fn lemma_insert_name_facts(s: Seq<Seq<char>>, x: Seq<char>)
    ensures
        insert_name(s, x).len() == s.len() + 1,
        forall|y: Seq<char>| #[trigger] insert_name(s, x).contains(y) <==> (s.contains(y) || y == x),
        distinct_names(s) && !s.contains(x) ==> distinct_names(insert_name(s, x)),
        names_sorted(s) ==> names_sorted(insert_name(s, x)),
    decreases s.len(),
{
    let r = insert_name(s, x);
    if s.len() == 0 {
        assert(r =~= seq![x]);
        assert forall|y: Seq<char>| r.contains(y) <==> (s.contains(y) || y == x) by {
            if r.contains(y) {
                let q = choose|q: int| 0 <= q < r.len() && r[q] == y;
            }
            if y == x {
                assert(r[0] == x);
            }
        }
    } else if name_le(s.last(), x) {
        assert forall|y: Seq<char>| r.contains(y) <==> (s.contains(y) || y == x) by {
            if r.contains(y) {
                let q = choose|q: int| 0 <= q < r.len() && r[q] == y;
                if q < s.len() {
                    assert(s[q] == y);
                }
            }
            if s.contains(y) {
                let q = choose|q: int| 0 <= q < s.len() && s[q] == y;
                assert(r[q] == y);
            }
            if y == x {
                assert(r[s.len() as int] == x);
            }
        }
        if distinct_names(s) && !s.contains(x) {
            assert forall|i: int, j: int| 0 <= i < j < r.len() implies r[i] != r[j] by {
                if j == s.len() {
                    assert(s[i] == r[i]);
                }
            }
        }
        if names_sorted(s) {
            assert forall|i: int, j: int| 0 <= i < j < r.len() implies name_le(r[i], r[j]) by {
                if j == s.len() && i < s.len() - 1 {
                    assert(name_le(s[i], s[s.len() - 1]));
                    lemma_lex_trans(encode_utf8(s[i]), encode_utf8(s.last()), encode_utf8(x));
                }
            }
        }
    } else {
        let t = s.drop_last();
        let last = s.last();
        let inner = insert_name(t, x);
        lemma_insert_name_facts(t, x);
        assert(r == inner.push(last));
        assert forall|y: Seq<char>| r.contains(y) <==> (s.contains(y) || y == x) by {
            if r.contains(y) {
                let q = choose|q: int| 0 <= q < r.len() && r[q] == y;
                if q < inner.len() {
                    assert(inner[q] == y);
                    assert(inner.contains(y));
                    if t.contains(y) {
                        let p = choose|p: int| 0 <= p < t.len() && t[p] == y;
                        assert(s[p] == y);
                    }
                } else {
                    assert(s[s.len() - 1] == y);
                }
            }
            if s.contains(y) {
                let q = choose|q: int| 0 <= q < s.len() && s[q] == y;
                if q < t.len() {
                    assert(t[q] == y);
                    assert(t.contains(y));
                    assert(inner.contains(y));
                    let p = choose|p: int| 0 <= p < inner.len() && inner[p] == y;
                    assert(r[p] == y);
                } else {
                    assert(r[inner.len() as int] == y);
                }
            }
            if y == x {
                assert(inner.contains(x));
                let p = choose|p: int| 0 <= p < inner.len() && inner[p] == x;
                assert(r[p] == x);
            }
        }
        if distinct_names(s) && !s.contains(x) {
            assert(distinct_names(t));
            assert(!t.contains(x)) by {
                if t.contains(x) {
                    let p = choose|p: int| 0 <= p < t.len() && t[p] == x;
                    assert(s[p] == x);
                }
            }
            assert(!inner.contains(last)) by {
                if inner.contains(last) {
                    if t.contains(last) {
                        let p = choose|p: int| 0 <= p < t.len() && t[p] == last;
                        assert(s[p] == s[s.len() - 1]);
                    } else {
                        assert(s[s.len() - 1] == x);
                    }
                }
            }
            assert forall|i: int, j: int| 0 <= i < j < r.len() implies r[i] != r[j] by {
                if j == inner.len() {
                    assert(inner[i] == r[i]);
                }
            }
        }
        if names_sorted(s) {
            assert(names_sorted(t));
            lemma_lex_total(encode_utf8(last), encode_utf8(x));
            assert forall|i: int, j: int| 0 <= i < j < r.len() implies name_le(r[i], r[j]) by {
                if j == inner.len() {
                    let y = inner[i];
                    assert(inner.contains(y));
                    if t.contains(y) {
                        let p = choose|p: int| 0 <= p < t.len() && t[p] == y;
                        assert(s[p] == y);
                        assert(name_le(s[p], s[s.len() - 1]));
                    }
                }
            }
        }
    }
}

/// Sorting keeps the names and their distinctness, and sorts them.
proof fn lemma_sort_names_facts(s: Seq<Seq<char>>)
    ensures
        sort_names(s).len() == s.len(),
        forall|y: Seq<char>| #[trigger] sort_names(s).contains(y) <==> s.contains(y),
        distinct_names(s) ==> distinct_names(sort_names(s)),
        names_sorted(sort_names(s)),
    decreases s.len(),
{
    if s.len() > 0 {
        let t = s.drop_last();
        lemma_sort_names_facts(t);
        lemma_insert_name_facts(sort_names(t), s.last());
        assert forall|y: Seq<char>| sort_names(s).contains(y) <==> s.contains(y) by {
            if t.contains(y) {
                let p = choose|p: int| 0 <= p < t.len() && t[p] == y;
                assert(s[p] == y);
            }
            if s.contains(y) {
                let p = choose|p: int| 0 <= p < s.len() && s[p] == y;
                if p < t.len() {
                    assert(t[p] == y);
                }
            }
        }
        if distinct_names(s) {
            assert(distinct_names(t));
            assert(!t.contains(s.last())) by {
                if t.contains(s.last()) {
                    let p = choose|p: int| 0 <= p < t.len() && t[p] == s.last();
                    assert(s[p] == s[s.len() - 1]);
                }
            }
        }
    }
}

/// Adding the names not listed yet keeps a list free of repeats.
proof fn lemma_add_new_names_distinct(acc: Seq<Seq<char>>, found: Seq<Seq<char>>)
    requires
        distinct_names(acc),
    ensures
        distinct_names(add_new_names(acc, found)),
    decreases found.len(),
{
    if found.len() > 0 {
        lemma_add_new_names_distinct(acc, found.drop_last());
        let a2 = add_new_names(acc, found.drop_last());
        if !a2.contains(found.last()) {
            assert forall|i: int, j: int| 0 <= i < j < a2.len() + 1 implies a2.push(found.last())[i] != a2.push(
                found.last(),
            )[j] by {
                if j == a2.len() {
                    assert(a2.push(found.last())[i] == a2[i]);
                }
            }
        }
    }
}

/// Sorting names keeps exactly the same names (as many, and each name
/// present before is present after and the other way round) and puts
/// them in `String` order; names given without repeats come out strictly
/// ascending.
pub proof fn law_sort_names(s: Seq<Seq<char>>)
    ensures
        sort_names(s).len() == s.len(),
        forall|y: Seq<char>| #[trigger] sort_names(s).contains(y) <==> s.contains(y),
        names_sorted(sort_names(s)),
        distinct_names(s) ==> forall|i: int, j: int|
            0 <= i < j < s.len() ==> name_le(sort_names(s)[i], sort_names(s)[j]) && sort_names(s)[i]
                != sort_names(s)[j],
{
    lemma_sort_names_facts(s);
}

/// After any rescan the available names are in `String` order with no
/// name twice, so they ascend strictly.
pub proof fn law_available_names_ascend(found: Seq<Seq<char>>)
    ensures
        ({
            let s = sort_names(add_new_names(default_theme_names(), found));
            forall|i: int, j: int| 0 <= i < j < s.len() ==> name_le(s[i], s[j]) && s[i] != s[j]
        }),
{
    lemma_default_names_distinct();
    lemma_add_new_names_distinct(default_theme_names(), found);
    lemma_sort_names_facts(add_new_names(default_theme_names(), found));
}

} // verus!
