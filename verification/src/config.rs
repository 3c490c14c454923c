//! Settings: what the config files say, merged in order, and which theme they choose.
use std::path::{Path, PathBuf};
use vstd::prelude::*;

use crate::render::glyphs::GlyphTier;
use crate::render::layout::FrontMatterView;
use crate::render::theme::Kind;
use crate::text::{
    chars_of, decimal, decimal_of, eq_lit, lemma_text_lt_total, lemma_text_lt_trans, lower_seq, lower_vec, slice,
    string_of, text_less, text_lt,
};

verus! {

/// The name of the config file in the config folder.
pub const FILE_NAME: &'static str = "config.toml";

/// The name of a project's own config file.
pub const PROJECT_FILE: &'static str = ".mido.toml";

/// The columns between panels and the text, unless the config says otherwise.
pub const DEFAULT_GUTTER: u16 = 2;

/// Which background the themes are chosen for.
#[derive(Debug, Clone, Copy, PartialEq, Eq, Structural)]
pub enum Background {
    Auto,
    Dark,
    Light,
}

impl Default for Background {
    fn default() -> (r: Self)
        ensures
            r == Background::Auto,
    {
        Background::Auto
    }
}

/// How the config asks front matter to be shown.
#[derive(Debug, Clone, Copy, PartialEq, Eq, Structural)]
pub enum FrontMatterSetting {
    Collapsed,
    Expanded,
    Hidden,
}

/// The keys of an action in the config: one, or a list.
#[derive(Debug, Clone, PartialEq, Eq)]
pub enum Keys {
    One(String),
    Many(Vec<String>),
}

/// A config file's settings, each there or not; `keys` in name order, as TOML keeps it.
#[derive(Debug, Clone, Default)]
pub struct ConfigFile {
    pub theme: Option<String>,
    pub dark_theme: Option<String>,
    pub light_theme: Option<String>,
    pub background: Option<Background>,
    pub glyphs: Option<GlyphTier>,
    pub width: Option<usize>,
    pub gutter: Option<u16>,
    pub front_matter: Option<FrontMatterSetting>,
    pub extensions: Option<Vec<String>>,
    pub keys: Vec<(String, Keys)>,
}

/// A theme name or path, with the folder a relative path is read from.
#[derive(Debug, Clone, PartialEq, Eq)]
pub struct ThemeRef {
    pub value: String,
    pub dir: PathBuf,
}

/// `PathBuf::new`. Nothing is claimed of it.
#[verifier::external_body]
fn empty_path() -> PathBuf {
    PathBuf::new()
}

/// The owned path `Path::to_path_buf` makes of a path.
pub uninterp spec fn owned_of(p: &Path) -> PathBuf;

/// `Path::to_path_buf`: an owned copy of the path; named, not stated.
#[verifier::external_body]
fn owned_path(p: &Path) -> (r: PathBuf)
    ensures
        r == owned_of(p),
{
    p.to_path_buf()
}

impl ThemeRef {
    /// A theme by name, with no folder.
    pub fn named(value: &str) -> (r: ThemeRef)
        ensures
            r.value@ == value@,
    {
        ThemeRef { value: value.to_string(), dir: empty_path() }
    }
}

/// The settings.
#[derive(Debug, Clone)]
pub struct Config {
    pub theme: Option<ThemeRef>,
    pub dark_theme: ThemeRef,
    pub light_theme: ThemeRef,
    pub background: Background,
    pub glyphs: GlyphTier,
    pub width: Option<usize>,
    pub gutter: u16,
    pub front_matter: FrontMatterView,
    pub extensions: Vec<String>,
    /// The `[keys]` table: actions in name order, each once.
    pub keys: Vec<(String, Vec<String>)>,
    pub files: Vec<PathBuf>,
    pub themes_dir: Option<PathBuf>,
}

/// The extensions of Markdown files, unless the config says otherwise.
pub open spec fn default_extensions_spec() -> Seq<Seq<char>> {
    seq!["md"@, "markdown"@, "mdown"@, "mkd"@, "mdx"@]
}

/// The extensions of Markdown files, unless the config says otherwise.
pub fn default_extensions() -> (r: Vec<String>)
    ensures
        r@.map_values(|s: String| s@) == default_extensions_spec(),
{
    let mut v: Vec<String> = Vec::new();
    v.push("md".to_string());
    v.push("markdown".to_string());
    v.push("mdown".to_string());
    v.push("mkd".to_string());
    v.push("mdx".to_string());
    assert(v@.map_values(|s: String| s@) =~= default_extensions_spec());
    v
}

impl Default for Config {
    fn default() -> (r: Self)
        ensures
            r.theme is None,
            r.dark_theme.value@ == "mido-dark"@,
            r.light_theme.value@ == "mido-light"@,
            r.background == Background::Auto,
            r.glyphs == GlyphTier::Unicode,
            r.width is None,
            r.gutter == DEFAULT_GUTTER,
            r.front_matter == FrontMatterView::Collapsed,
            r.extensions@.map_values(|s: String| s@) == default_extensions_spec(),
            r.keys@.len() == 0,
            r.files@.len() == 0,
            r.themes_dir is None,
    {
        Config {
            theme: None,
            dark_theme: ThemeRef::named("mido-dark"),
            light_theme: ThemeRef::named("mido-light"),
            background: Background::Auto,
            glyphs: GlyphTier::Unicode,
            width: None,
            gutter: DEFAULT_GUTTER,
            front_matter: FrontMatterView::Collapsed,
            extensions: default_extensions(),
            keys: Vec::new(),
            files: Vec::new(),
            themes_dir: None,
        }
    }
}

// ---------------------------------------------------------------------------------------------
// The keys table
// ---------------------------------------------------------------------------------------------
/// Keys in strictly increasing order, so each once.
pub open spec fn sorted_keys(m: Seq<(Seq<char>, Seq<Seq<char>>)>) -> bool {
    forall|i: int, j: int| 0 <= i < j < m.len() ==> text_lt(#[trigger] m[i].0, #[trigger] m[j].0)
}

/// The table with `k` set to `v`: replaced where it is, else inserted in order.
pub open spec fn set_key(m: Seq<(Seq<char>, Seq<Seq<char>>)>, k: Seq<char>, v: Seq<Seq<char>>) -> Seq<
    (Seq<char>, Seq<Seq<char>>),
> {
    let i = insert_point(m, k, 0);
    if i < m.len() && m[i].0 == k {
        m.update(i, (k, v))
    } else {
        m.insert(i, (k, v))
    }
}

/// The first index at or after `j` whose key does not come before `k`.
pub open spec fn insert_point(m: Seq<(Seq<char>, Seq<Seq<char>>)>, k: Seq<char>, j: int) -> int
    decreases m.len() - j,
{
    if j < 0 || j >= m.len() {
        m.len() as int
    } else if text_lt(m[j].0, k) {
        insert_point(m, k, j + 1)
    } else {
        j
    }
}

/// The keys table as values.
pub open spec fn keys_view(m: Seq<(String, Vec<String>)>) -> Seq<(Seq<char>, Seq<Seq<char>>)> {
    m.map_values(|e: (String, Vec<String>)| (e.0@, e.1@.map_values(|s: String| s@)))
}


proof fn lemma_insert_point(m: Seq<(Seq<char>, Seq<Seq<char>>)>, k: Seq<char>, j: int)
    requires
        0 <= j <= m.len(),
        sorted_keys(m),
        forall|x: int| 0 <= x < j ==> text_lt(#[trigger] m[x].0, k),
    ensures
        j <= insert_point(m, k, j) <= m.len(),
        forall|x: int| 0 <= x < insert_point(m, k, j) ==> text_lt(#[trigger] m[x].0, k),
        forall|x: int| insert_point(m, k, j) <= x < m.len() ==> !text_lt(#[trigger] m[x].0, k),
    decreases m.len() - j,
{
    if j < m.len() {
        if text_lt(m[j].0, k) {
            lemma_insert_point(m, k, j + 1);
        } else {
            assert forall|x: int| j <= x < m.len() implies !text_lt(#[trigger] m[x].0, k) by {
                if x > j && text_lt(m[x].0, k) {
                    lemma_text_lt_trans(m[j].0, m[x].0, k);
                }
            }
        }
    }
}

/// Setting a key keeps the table in order with each key once.
proof fn lemma_set_key_sorted(m: Seq<(Seq<char>, Seq<Seq<char>>)>, k: Seq<char>, v: Seq<Seq<char>>)
    requires
        sorted_keys(m),
    ensures
        sorted_keys(set_key(m, k, v)),
        set_key(m, k, v).contains((k, v)),
{
    lemma_insert_point(m, k, 0);
    let i = insert_point(m, k, 0);
    let r = set_key(m, k, v);
    if i < m.len() && m[i].0 == k {
        assert(r[i] == (k, v));
    } else {
        assert(r[i] == (k, v));
        if i < m.len() {
            lemma_text_lt_total(m[i].0, k);
        }
        assert forall|a: int, b: int| 0 <= a < b < r.len() implies text_lt(
            #[trigger] r[a].0,
            #[trigger] r[b].0,
        ) by {
            if b == i {
                assert(text_lt(m[a].0, k));
            } else if a == i {
                assert(r[b] == m[b - 1]);
                if b - 1 > i {
                    lemma_text_lt_trans(k, m[i].0, m[b - 1].0);
                }
            } else if a < i && b > i {
                assert(r[b] == m[b - 1]);
            } else if a > i {
                assert(r[a] == m[a - 1] && r[b] == m[b - 1]);
            }
        }
    }
}

fn insert_index(keys: &Vec<(String, Vec<String>)>, a: &Vec<char>) -> (i: usize)
    requires
        sorted_keys(keys_view(keys@)),
    ensures
        i == insert_point(keys_view(keys@), a@, 0),
        i <= keys@.len(),
{
    let ghost m = keys_view(keys@);
    proof {
        lemma_insert_point(m, a@, 0);
    }
    let mut i: usize = 0;
    while i < keys.len()
        invariant
            i <= keys.len(),
            m == keys_view(keys@),
            sorted_keys(m),
            insert_point(m, a@, 0) >= i,
            forall|x: int| 0 <= x < i ==> text_lt(#[trigger] m[x].0, a@),
            forall|x: int| 0 <= x < insert_point(m, a@, 0) ==> text_lt(#[trigger] m[x].0, a@),
            forall|x: int| insert_point(m, a@, 0) <= x < m.len() ==> !text_lt(#[trigger] m[x].0, a@),
            insert_point(m, a@, 0) <= m.len(),
        decreases keys.len() - i,
    {
        let k = chars_of(keys[i].0.as_str());
        assert(m[i as int].0 == k@);
        if !text_less(&k, a) {
            return i;
        }
        i = i + 1;
    }
    i
}

fn set_keys(keys: &mut Vec<(String, Vec<String>)>, action: String, list: Vec<String>)
    requires
        sorted_keys(keys_view(old(keys)@)),
    ensures
        keys_view(final(keys)@) == set_key(
            keys_view(old(keys)@),
            action@,
            list@.map_values(|s: String| s@),
        ),
        sorted_keys(keys_view(final(keys)@)),
{
    let ghost m = keys_view(keys@);
    let ghost lv = list@.map_values(|s: String| s@);
    let a = chars_of(action.as_str());
    let i = insert_index(keys, &a);
    proof {
        lemma_set_key_sorted(m, action@, lv);
    }
    if i < keys.len() {
        let same = chars_of(keys[i].0.as_str());
        assert(m[i as int].0 == same@);
        if crate::text::chars_eq(&same, &a) {
            keys.set(i, (action, list));
            assert(keys_view(keys@) =~= m.update(i as int, (action@, lv)));
            return;
        }
    }
    keys.insert(i, (action, list));
    assert(keys_view(keys@) =~= m.insert(i as int, (action@, lv)));
}

/// Sets each entry of a file's `[keys]` table in order.
fn set_all_keys(keys: &mut Vec<(String, Vec<String>)>, entries: Vec<(String, Keys)>)
    requires
        sorted_keys(keys_view(old(keys)@)),
    ensures
        keys_view(final(keys)@) == set_all(keys_view(old(keys)@), entries@),
        sorted_keys(keys_view(final(keys)@)),
{
    let ghost m0 = keys_view(keys@);
    let ghost ks = entries@;
    let total = entries.len();
    let mut rest = entries;
    let mut reversed: Vec<(String, Keys)> = Vec::new();
    while rest.len() > 0
        invariant
            rest@ + reversed@.reverse() == ks,
        decreases rest.len(),
    {
        let e = rest.pop().unwrap();
        let ghost before = reversed@;
        reversed.push(e);
        assert(reversed@.reverse() =~= seq![e] + before.reverse());
    }
    assert(reversed@.reverse() =~= ks);
    let mut done: usize = 0;
    assert(ks.take(0) =~= Seq::<(String, Keys)>::empty());
    while reversed.len() > 0
        invariant
            done + reversed@.len() == ks.len(),
            ks.len() == total,
            reversed@.reverse() == ks.skip(done as int),
            sorted_keys(keys_view(keys@)),
            keys_view(keys@) == set_all(m0, ks.take(done as int)),
        decreases reversed.len(),
    {
        let ghost r0 = reversed@;
        let (action, entry) = reversed.pop().unwrap();
        let ghost item = (action, entry);
        assert(r0 == reversed@.push(item));
        assert(r0.reverse() =~= seq![item] + reversed@.reverse());
        assert(ks.skip(done as int)[0] == ks[done as int]);
        assert(ks[done as int] == item);
        assert((seq![item] + reversed@.reverse()).drop_first() =~= reversed@.reverse());
        assert(ks.skip(done + 1) =~= ks.skip(done as int).drop_first());
        assert(ks.take(done + 1).drop_last() =~= ks.take(done as int));
        let list = match entry {
            Keys::One(k) => {
                let mut v: Vec<String> = Vec::new();
                v.push(k);
                v
            },
            Keys::Many(v) => v,
        };
        assert(list@.map_values(|s: String| s@) =~= keys_list(item.1));
        set_keys(keys, action, list);
        done = done + 1;
    }
    assert(ks.take(done as int) =~= ks);
}

// ---------------------------------------------------------------------------------------------
// Merging a file
// ---------------------------------------------------------------------------------------------
/// An extension as the config may write it: without leading dots, in lower case.
pub open spec fn clean_extension(e: Seq<char>) -> Seq<char> {
    lower_seq(drop_dots(e))
}

/// `e` without its leading dots.
pub open spec fn drop_dots(e: Seq<char>) -> Seq<char>
    decreases e.len(),
{
    if e.len() > 0 && e[0] == '.' {
        drop_dots(e.drop_first())
    } else {
        e
    }
}

/// The extensions cleaned, the empty ones dropped.
pub open spec fn clean_extensions(es: Seq<Seq<char>>) -> Seq<Seq<char>>
    decreases es.len(),
{
    if es.len() == 0 {
        seq![]
    } else if clean_extension(es.last()).len() > 0 {
        clean_extensions(es.drop_last()).push(clean_extension(es.last()))
    } else {
        clean_extensions(es.drop_last())
    }
}

/// The text of each string.
pub open spec fn texts(v: Seq<String>) -> Seq<Seq<char>> {
    v.map_values(|s: String| s@)
}

/// The keys an entry of the `[keys]` table lists.
pub open spec fn keys_list(k: Keys) -> Seq<Seq<char>> {
    match k {
        Keys::One(s) => seq![s@],
        Keys::Many(v) => texts(v@),
    }
}

/// The keys table with the file's entries set in order.
pub open spec fn set_all(m: Seq<(Seq<char>, Seq<Seq<char>>)>, ks: Seq<(String, Keys)>) -> Seq<
    (Seq<char>, Seq<Seq<char>>),
>
    decreases ks.len(),
{
    if ks.len() == 0 {
        m
    } else {
        set_key(set_all(m, ks.drop_last()), ks.last().0@, keys_list(ks.last().1))
    }
}

/// The problem with the layout settings, if any: a width under 20, a gutter over 16, or
/// extensions that are all empty. The first problem is the one reported.
pub open spec fn layout_error(
    width: Option<usize>,
    gutter: Option<u16>,
    extensions: Option<Vec<String>>,
) -> Option<Seq<char>> {
    if width is Some && width->0 < 20 {
        Some("width must be at least 20, got "@ + decimal(width->0 as nat))
    } else if gutter is Some && gutter->0 > 16 {
        Some("gutter must be at most 16, got "@ + decimal(gutter->0 as nat))
    } else if extensions is Some && clean_extensions(texts(extensions->0@)).len() == 0 {
        Some("extensions needs at least one entry"@)
    } else {
        None
    }
}

/// The layout settings after a file's are applied in order (width, gutter, front matter,
/// extensions, keys), stopping at the first that is wrong: the ones before it are applied,
/// it and the ones after are not.
pub open spec fn layout_applied(
    old: Config,
    new: Config,
    width: Option<usize>,
    gutter: Option<u16>,
    front_matter: Option<FrontMatterSetting>,
    extensions: Option<Vec<String>>,
    keys: Seq<(String, Keys)>,
) -> bool {
    let werr = width is Some && width->0 < 20;
    let gerr = gutter is Some && gutter->0 > 16;
    let eerr = extensions is Some && clean_extensions(texts(extensions->0@)).len() == 0;
    &&& new.width == (if werr {
        old.width
    } else {
        match width {
            Some(w) => Some(w),
            None => old.width,
        }
    })
    &&& new.gutter == (if werr || gerr {
        old.gutter
    } else {
        match gutter {
            Some(g) => g,
            None => old.gutter,
        }
    })
    &&& new.front_matter == (if werr || gerr {
        old.front_matter
    } else {
        match front_matter {
            Some(FrontMatterSetting::Collapsed) => FrontMatterView::Collapsed,
            Some(FrontMatterSetting::Expanded) => FrontMatterView::Expanded,
            Some(FrontMatterSetting::Hidden) => FrontMatterView::Hidden,
            None => old.front_matter,
        }
    })
    &&& texts(new.extensions@) == (if werr || gerr || eerr {
        texts(old.extensions@)
    } else {
        match extensions {
            Some(es) => clean_extensions(texts(es@)),
            None => texts(old.extensions@),
        }
    })
    &&& keys_view(new.keys@) == (if werr || gerr || eerr {
        keys_view(old.keys@)
    } else {
        set_all(keys_view(old.keys@), keys)
    })
}

/// What a file's settings say of the problem with them, if any.
pub open spec fn merge_error(f: ConfigFile) -> Option<Seq<char>> {
    layout_error(f.width, f.gutter, f.extensions)
}

fn tidy_extensions(es: &Vec<String>) -> (r: Vec<String>)
    ensures
        texts(r@) == clean_extensions(texts(es@)),
{
    let ghost ev = texts(es@);
    let mut out: Vec<String> = Vec::new();
    let mut i: usize = 0;
    assert(ev.take(0) =~= Seq::<Seq<char>>::empty());
    while i < es.len()
        invariant
            i <= es.len(),
            ev == texts(es@),
            texts(out@) == clean_extensions(ev.take(i as int)),
        decreases es.len() - i,
    {
        assert(ev.take(i + 1).drop_last() =~= ev.take(i as int));
        assert(ev.take(i + 1).last() == es@[i as int]@);
        let v = chars_of(es[i].as_str());
        let mut k: usize = 0;
        assert(v@.skip(0) =~= v@);
        while k < v.len() && v[k] == '.'
            invariant
                k <= v.len(),
                drop_dots(v@) == drop_dots(v@.skip(k as int)),
            decreases v.len() - k,
        {
            assert(v@.skip(k as int).drop_first() =~= v@.skip(k + 1));
            k = k + 1;
        }
        let rest = slice(&v, k, v.len());
        assert(rest@ =~= v@.skip(k as int));
        let low = lower_vec(&rest);
        if low.len() > 0 {
            let ghost before = texts(out@);
            let s = string_of(&low);
            out.push(s);
            assert(texts(out@) =~= before.push(s@));
        }
        i = i + 1;
    }
    assert(ev.take(es.len() as int) =~= ev);
    out
}

impl Config {
    /// Applies a config file's settings, found in the folder `dir`: each setting the file has
    /// replaces the one before (a theme of `auto` clears the chosen theme), and each action in
    /// its `[keys]` table gets the keys listed. A width under 20, a gutter over 16 or
    /// extensions that are all empty are errors; the settings read before the error stay, and
    /// the ones from there on are not applied.
    pub fn merge_file(&mut self, file: ConfigFile, dir: &Path) -> (r: Result<(), String>)
        requires
            sorted_keys(keys_view(old(self).keys@)),
        ensures
            file.theme matches Some(t) ==> (if t@ == "auto"@ {
                final(self).theme is None
            } else {
                final(self).theme matches Some(x) && x.value@ == t@ && x.dir == owned_of(dir)
            }),
            file.theme is None ==> final(self).theme == old(self).theme,
            file.dark_theme matches Some(t) ==> final(self).dark_theme.value@ == t@
                && final(self).dark_theme.dir == owned_of(dir),
            file.dark_theme is None ==> final(self).dark_theme == old(self).dark_theme,
            file.light_theme matches Some(t) ==> final(self).light_theme.value@ == t@
                && final(self).light_theme.dir == owned_of(dir),
            file.light_theme is None ==> final(self).light_theme == old(self).light_theme,
            final(self).background == (match file.background {
                Some(b) => b,
                None => old(self).background,
            }),
            final(self).glyphs == (match file.glyphs {
                Some(g) => g,
                None => old(self).glyphs,
            }),
            r matches Err(e) ==> merge_error(file) == Some(e@),
            r is Ok ==> merge_error(file) is None,
            layout_applied(*old(self), *final(self), file.width, file.gutter, file.front_matter, file.extensions, file.keys@),
            sorted_keys(keys_view(final(self).keys@)),
    {
        let ConfigFile {
            theme,
            dark_theme,
            light_theme,
            background,
            glyphs,
            width,
            gutter,
            front_matter,
            extensions,
            keys,
        } = file;
        self.merge_names(theme, dark_theme, light_theme, dir);
        match background {
            Some(b) => self.background = b,
            None => {},
        }
        match glyphs {
            Some(g) => self.glyphs = g,
            None => {},
        }
        self.merge_layout(width, gutter, front_matter, extensions, keys)
    }

    fn merge_names(
        &mut self,
        theme: Option<String>,
        dark_theme: Option<String>,
        light_theme: Option<String>,
        dir: &Path,
    )
        ensures
            theme matches Some(t) ==> (if t@ == "auto"@ {
                final(self).theme is None
            } else {
                final(self).theme matches Some(x) && x.value@ == t@ && x.dir == owned_of(dir)
            }),
            theme is None ==> final(self).theme == old(self).theme,
            dark_theme matches Some(t) ==> final(self).dark_theme.value@ == t@
                && final(self).dark_theme.dir == owned_of(dir),
            dark_theme is None ==> final(self).dark_theme == old(self).dark_theme,
            light_theme matches Some(t) ==> final(self).light_theme.value@ == t@
                && final(self).light_theme.dir == owned_of(dir),
            light_theme is None ==> final(self).light_theme == old(self).light_theme,
            final(self).background == old(self).background,
            final(self).glyphs == old(self).glyphs,
            final(self).width == old(self).width,
            final(self).gutter == old(self).gutter,
            final(self).front_matter == old(self).front_matter,
            final(self).extensions == old(self).extensions,
            final(self).keys == old(self).keys,
    {
        match theme {
            Some(t) => {
                let v = chars_of(t.as_str());
                if eq_lit(&v, "auto") {
                    self.theme = None;
                } else {
                    self.theme = Some(ThemeRef { value: t, dir: owned_path(dir) });
                }
            },
            None => {},
        }
        match dark_theme {
            Some(t) => self.dark_theme = ThemeRef { value: t, dir: owned_path(dir) },
            None => {},
        }
        match light_theme {
            Some(t) => self.light_theme = ThemeRef { value: t, dir: owned_path(dir) },
            None => {},
        }
    }

    fn merge_layout(
        &mut self,
        width: Option<usize>,
        gutter: Option<u16>,
        front_matter: Option<FrontMatterSetting>,
        extensions: Option<Vec<String>>,
        keys: Vec<(String, Keys)>,
    ) -> (r: Result<(), String>)
        requires
            sorted_keys(keys_view(old(self).keys@)),
        ensures
            final(self).theme == old(self).theme,
            final(self).dark_theme == old(self).dark_theme,
            final(self).light_theme == old(self).light_theme,
            final(self).background == old(self).background,
            final(self).glyphs == old(self).glyphs,
            r matches Err(e) ==> layout_error(width, gutter, extensions) == Some(e@),
            r is Ok ==> layout_error(width, gutter, extensions) is None,
            layout_applied(*old(self), *final(self), width, gutter, front_matter, extensions, keys@),
            sorted_keys(keys_view(final(self).keys@)),
    {
        match width {
            Some(w) => {
                if w < 20 {
                    let d = decimal_of(w);
                    let mut e = "width must be at least 20, got ".to_string();
                    e.append(string_of(&d).as_str());
                    return Err(e);
                }
                self.width = Some(w);
            },
            None => {},
        }
        match gutter {
            Some(g) => {
                if g > 16 {
                    let d = decimal_of(g as usize);
                    let mut e = "gutter must be at most 16, got ".to_string();
                    e.append(string_of(&d).as_str());
                    return Err(e);
                }
                self.gutter = g;
            },
            None => {},
        }
        match front_matter {
            Some(FrontMatterSetting::Collapsed) => self.front_matter = FrontMatterView::Collapsed,
            Some(FrontMatterSetting::Expanded) => self.front_matter = FrontMatterView::Expanded,
            Some(FrontMatterSetting::Hidden) => self.front_matter = FrontMatterView::Hidden,
            None => {},
        }
        match extensions {
            Some(es) => {
                let tidy = tidy_extensions(&es);
                if tidy.len() == 0 {
                    return Err("extensions needs at least one entry".to_string());
                }
                self.extensions = tidy;
            },
            None => {},
        }
        set_all_keys(&mut self.keys, keys);
        Ok(())
    }

    /// Chooses a theme by name; `auto` goes back to choosing by the background.
    pub fn set_theme(&mut self, value: &str)
        ensures
            value@ == "auto"@ ==> final(self).theme is None,
            value@ != "auto"@ ==> (final(self).theme matches Some(t) && t.value@ == value@),
    {
        let v = chars_of(value);
        if eq_lit(&v, "auto") {
            self.theme = None;
        } else {
            self.theme = Some(ThemeRef { value: value.to_string(), dir: empty_path() });
        }
    }

    /// The kind of background to choose a theme for: the setting, or what the terminal
    /// reports when the setting is `auto`.
    pub fn background_kind(&self, detected: Kind) -> (r: Kind)
        ensures
            self.background == Background::Dark ==> r == Kind::Dark,
            self.background == Background::Light ==> r == Kind::Light,
            self.background == Background::Auto ==> r == detected,
    {
        match self.background {
            Background::Dark => Kind::Dark,
            Background::Light => Kind::Light,
            Background::Auto => detected,
        }
    }

    /// Whether choosing a theme needs the terminal's background: no theme is named and the
    /// background is `auto`.
    pub fn needs_detection(&self) -> (r: bool)
        ensures
            r == (self.theme is None && self.background == Background::Auto),
    {
        self.theme.is_none() && self.background == Background::Auto
    }

    /// The theme to use: the named one, or the dark or light one for the background.
    pub fn chosen_theme(&self, detected: Kind) -> (r: &ThemeRef)
        ensures
            self.theme matches Some(t) ==> *r == t,
            self.theme is None && self.background_kind_spec(detected) == Kind::Dark ==> *r
                == self.dark_theme,
            self.theme is None && self.background_kind_spec(detected) == Kind::Light ==> *r
                == self.light_theme,
    {
        match &self.theme {
            Some(t) => t,
            None => match self.background_kind(detected) {
                Kind::Dark => &self.dark_theme,
                Kind::Light => &self.light_theme,
            },
        }
    }

    /// The kind of background to choose a theme for.
    pub open spec fn background_kind_spec(&self, detected: Kind) -> Kind {
        match self.background {
            Background::Dark => Kind::Dark,
            Background::Light => Kind::Light,
            Background::Auto => detected,
        }
    }
}

} // verus!
