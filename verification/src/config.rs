//! What the user and the repository ask for.
//!
//! Three layers, the later one wins: the defaults built into the tool, the
//! configuration of the user, then the one of the repository. A repository
//! that declares its own file types therefore hands the map to every reader
//! with no setup.

use vstd::prelude::*;
use crate::lang::{layered, write_all, Table};
use crate::text::{chars_of, extend_str, string_of};

verus! {

/// The configuration, after the layers are folded together.
#[derive(Clone, Debug, PartialEq, Eq)]
pub struct Config {
    pub languages: Table,
    pub gerrit: Gerrit,
    pub series: Series,
    pub ui: Ui,
    pub diff: Diff,
    pub update: Update,
}

/// Where to ask whether a newer qreview is out.
///
/// The default is the home of the project. An empty address asks nowhere,
/// which is the way to turn the check off, and a fork writes its own.
#[derive(Clone, Debug, Default, PartialEq, Eq)]
pub struct Update {
    /// A URL that answers with JSON holding `tag_name`, the way the
    /// releases API of GitHub does.
    pub url: Option<String>,
    /// Sent as `Authorization: Bearer`, for a fork that is not public.
    pub token: Option<String>,
}

/// The releases of qreview, where the tool is published.
pub const HOME: &'static str = "https://api.github.com/repos/Intersec/qreview/releases/latest";

#[derive(Clone, Debug, PartialEq, Eq)]
pub struct Gerrit {
    pub enabled: bool,
    /// The branch a change targets, when `.gerrit-branch` does not say.
    pub branch: Option<String>,
}

#[derive(Clone, Debug, PartialEq, Eq)]
pub struct Series {
    pub max_commits: usize,
    pub guess_max: usize,
    pub batch_size: usize,
    pub integration_branch: Option<String>,
}

#[derive(Clone, Debug, PartialEq, Eq)]
pub struct Ui {
    /// `unified` or `side-by-side`.
    pub diff: String,
    /// `system`, `light` or `dark`.
    pub theme: String,
}

/// What the reader asked of a diff. The panel writes these.
#[derive(Clone, Copy, Debug, PartialEq, Eq)]
pub struct Diff {
    /// Lines of unchanged code kept around a change.
    pub context: usize,
    /// Fold a long line instead of scrolling to its end.
    pub wrap: bool,
    /// Leave out what differs only by spacing.
    pub ignore_whitespace: bool,
    pub tab_width: usize,
    pub font_size: usize,
    /// Colour the code. Off is faster on a very large file.
    pub syntax: bool,
}

/// One layer, as it is written on disk. Every field is optional, because a
/// layer says only what it changes.
#[derive(Clone, Debug, Default)]
pub struct Layer {
    pub languages: Option<Table>,
    pub gerrit: Option<GerritLayer>,
    pub series: Option<SeriesLayer>,
    pub ui: Option<UiLayer>,
    pub diff: Option<DiffLayer>,
    pub update: Option<UpdateLayer>,
}

#[derive(Clone, Debug, Default)]
pub struct UpdateLayer {
    pub url: Option<String>,
    pub token: Option<String>,
}

#[derive(Clone, Debug, Default)]
pub struct GerritLayer {
    pub enabled: Option<bool>,
    pub branch: Option<String>,
}

#[derive(Clone, Debug, Default)]
pub struct SeriesLayer {
    pub max_commits: Option<usize>,
    pub guess_max: Option<usize>,
    pub batch_size: Option<usize>,
    pub integration_branch: Option<String>,
}

#[derive(Clone, Debug, Default)]
pub struct UiLayer {
    pub diff: Option<String>,
    pub theme: Option<String>,
}

#[derive(Clone, Copy, Debug, Default)]
pub struct DiffLayer {
    pub context: Option<usize>,
    pub wrap: Option<bool>,
    pub ignore_whitespace: Option<bool>,
    pub tab_width: Option<usize>,
    pub font_size: Option<usize>,
    pub syntax: Option<bool>,
}

/// The value a layer names, or the one that stood.
pub open spec fn or_keep<T>(named: Option<T>, kept: T) -> T {
    match named {
        Some(v) => v,
        None => kept,
    }
}

/// The value a layer names, or the one that stood, for a setting that may be
/// absent.
pub open spec fn or_keep_opt<T>(named: Option<T>, kept: Option<T>) -> Option<T> {
    match named {
        Some(v) => Some(v),
        None => kept,
    }
}

/// `v` brought into `lo..=hi`.
pub open spec fn clamped(v: usize, lo: usize, hi: usize) -> usize {
    if v < lo {
        lo
    } else if v > hi {
        hi
    } else {
        v
    }
}

/// The Gerrit settings once a layer is on top.
pub open spec fn layered_gerrit(g: Gerrit, l: Option<GerritLayer>) -> Gerrit {
    match l {
        Some(l) => Gerrit {
            enabled: or_keep(l.enabled, g.enabled),
            branch: or_keep_opt(l.branch, g.branch),
        },
        None => g,
    }
}

/// The series settings once a layer is on top.
pub open spec fn layered_series(s: Series, l: Option<SeriesLayer>) -> Series {
    match l {
        Some(l) => Series {
            max_commits: or_keep(l.max_commits, s.max_commits),
            guess_max: or_keep(l.guess_max, s.guess_max),
            batch_size: or_keep(l.batch_size, s.batch_size),
            integration_branch: or_keep_opt(l.integration_branch, s.integration_branch),
        },
        None => s,
    }
}

/// The interface settings once a layer is on top.
pub open spec fn layered_ui(u: Ui, l: Option<UiLayer>) -> Ui {
    match l {
        Some(l) => Ui { diff: or_keep(l.diff, u.diff), theme: or_keep(l.theme, u.theme) },
        None => u,
    }
}

/// The diff settings once a layer is on top. The context is at most 2000
/// lines, a tab 1 to 16 columns wide and the font 8 to 24 points.
pub open spec fn layered_diff(d: Diff, l: Option<DiffLayer>) -> Diff {
    match l {
        Some(l) => Diff {
            context: clamped(or_keep(l.context, d.context), 0, 2000),
            wrap: or_keep(l.wrap, d.wrap),
            ignore_whitespace: or_keep(l.ignore_whitespace, d.ignore_whitespace),
            tab_width: clamped(or_keep(l.tab_width, d.tab_width), 1, 16),
            font_size: clamped(or_keep(l.font_size, d.font_size), 8, 24),
            syntax: or_keep(l.syntax, d.syntax),
        },
        None => d,
    }
}

/// The update settings once a layer is on top. An empty address is a
/// choice, not an absence: it is how a reader says to ask nobody.
pub open spec fn layered_update(u: Update, l: Option<UpdateLayer>) -> Update {
    match l {
        Some(l) => Update { url: or_keep_opt(l.url, u.url), token: or_keep_opt(l.token, u.token) },
        None => u,
    }
}

/// The language of an extension once a layer is on top. The maps are
/// merged, not replaced.
pub open spec fn layered_language(kept: Option<Seq<char>>, l: Option<Table>, key: Seq<char>) -> Option<
    Seq<char>,
> {
    match l {
        Some(t) => layered(kept, t@, key),
        None => kept,
    }
}

/// `v` brought into `lo..=hi`.
fn clamp(v: usize, lo: usize, hi: usize) -> (out: usize)
    requires
        lo <= hi,
    ensures
        out == clamped(v, lo, hi),
{
    if v < lo {
        lo
    } else if v > hi {
        hi
    } else {
        v
    }
}

/// The defaults built into the tool.
pub open spec fn default_gerrit() -> Gerrit {
    Gerrit { enabled: true, branch: None }
}

/// The defaults built into the tool.
pub open spec fn default_series() -> Series {
    Series { max_commits: 50, guess_max: 10, batch_size: 5, integration_branch: None }
}

/// The defaults built into the tool. Three lines of context is what git
/// gives, and it is too few to judge a change. Gerrit offers ten.
pub open spec fn default_diff() -> Diff {
    Diff {
        context: 10,
        wrap: false,
        ignore_whitespace: false,
        tab_width: 4,
        font_size: 12,
        syntax: true,
    }
}

impl Default for Config {
    fn default() -> (c: Self)
        ensures
            forall|k: Seq<char>| #[trigger] c.languages.holds(k) is None,
            c.gerrit == default_gerrit(),
            c.series == default_series(),
            c.ui.diff@ == "unified"@,
            c.ui.theme@ == "system"@,
            c.diff == default_diff(),
            c.update.url matches Some(u) && u@ == HOME@,
            c.update.token is None,
    {
        Config {
            languages: Table::new(),
            gerrit: Gerrit { enabled: true, branch: None },
            series: Series { max_commits: 50, guess_max: 10, batch_size: 5, integration_branch: None },
            ui: Ui { diff: "unified".to_owned(), theme: "system".to_owned() },
            diff: Diff {
                context: 10,
                wrap: false,
                ignore_whitespace: false,
                tab_width: 4,
                font_size: 12,
                syntax: true,
            },
            update: Update { url: Some(HOME.to_owned()), token: None },
        }
    }
}

fn apply_gerrit(g: &mut Gerrit, layer: Option<GerritLayer>)
    ensures
        *final(g) == layered_gerrit(*old(g), layer),
{
    if let Some(gerrit) = layer {
        if let Some(enabled) = gerrit.enabled {
            g.enabled = enabled;
        }
        if let Some(branch) = gerrit.branch {
            g.branch = Some(branch);
        }
    }
}

fn apply_series(s: &mut Series, layer: Option<SeriesLayer>)
    ensures
        *final(s) == layered_series(*old(s), layer),
{
    if let Some(series) = layer {
        if let Some(v) = series.max_commits {
            s.max_commits = v;
        }
        if let Some(v) = series.guess_max {
            s.guess_max = v;
        }
        if let Some(v) = series.batch_size {
            s.batch_size = v;
        }
        if let Some(v) = series.integration_branch {
            s.integration_branch = Some(v);
        }
    }
}

fn apply_ui(u: &mut Ui, layer: Option<UiLayer>)
    ensures
        *final(u) == layered_ui(*old(u), layer),
{
    if let Some(ui) = layer {
        if let Some(v) = ui.diff {
            u.diff = v;
        }
        if let Some(v) = ui.theme {
            u.theme = v;
        }
    }
}

fn apply_diff(d: &mut Diff, layer: Option<DiffLayer>)
    ensures
        *final(d) == layered_diff(*old(d), layer),
{
    if let Some(diff) = layer {
        let context = match diff.context {
            Some(v) => v,
            None => d.context,
        };
        d.context = clamp(context, 0, 2000);
        if let Some(v) = diff.wrap {
            d.wrap = v;
        }
        if let Some(v) = diff.ignore_whitespace {
            d.ignore_whitespace = v;
        }
        let tab_width = match diff.tab_width {
            Some(v) => v,
            None => d.tab_width,
        };
        d.tab_width = clamp(tab_width, 1, 16);
        let font_size = match diff.font_size {
            Some(v) => v,
            None => d.font_size,
        };
        d.font_size = clamp(font_size, 8, 24);
        if let Some(v) = diff.syntax {
            d.syntax = v;
        }
    }
}

fn apply_update(u: &mut Update, layer: Option<UpdateLayer>)
    ensures
        *final(u) == layered_update(*old(u), layer),
{
    if let Some(update) = layer {
        if let Some(v) = update.url {
            u.url = Some(v);
        }
        if let Some(v) = update.token {
            u.token = Some(v);
        }
    }
}

impl Config {
    /// Fold one layer on top of this one.
    pub fn apply(&mut self, layer: Layer)
        ensures
            forall|k: Seq<char>|
                #[trigger] final(self).languages.holds(k) == layered_language(
                    old(self).languages.holds(k),
                    layer.languages,
                    k,
                ),
            final(self).gerrit == layered_gerrit(old(self).gerrit, layer.gerrit),
            final(self).series == layered_series(old(self).series, layer.series),
            final(self).ui == layered_ui(old(self).ui, layer.ui),
            final(self).diff == layered_diff(old(self).diff, layer.diff),
            final(self).update == layered_update(old(self).update, layer.update),
    {
        if let Some(languages) = layer.languages {
            write_all(&mut self.languages, &languages);
        }
        apply_gerrit(&mut self.gerrit, layer.gerrit);
        apply_series(&mut self.series, layer.series);
        apply_ui(&mut self.ui, layer.ui);
        apply_diff(&mut self.diff, layer.diff);
        apply_update(&mut self.update, layer.update);
    }
}

/// The diff settings stand where the tool keeps them.
pub open spec fn diff_in_range(d: Diff) -> bool {
    &&& d.context <= 2000
    &&& 1 <= d.tab_width <= 16
    &&& 8 <= d.font_size <= 24
}

/// The Gerrit settings of the layers folded on the defaults, in order.
pub open spec fn gerrit_of(layers: Seq<Layer>) -> Gerrit
    decreases layers.len(),
{
    if layers.len() == 0 {
        default_gerrit()
    } else {
        layered_gerrit(gerrit_of(layers.drop_last()), layers.last().gerrit)
    }
}

/// The series settings of the layers folded on the defaults, in order.
pub open spec fn series_of(layers: Seq<Layer>) -> Series
    decreases layers.len(),
{
    if layers.len() == 0 {
        default_series()
    } else {
        layered_series(series_of(layers.drop_last()), layers.last().series)
    }
}

/// The diff settings of the layers folded on the defaults, in order.
pub open spec fn diff_of(layers: Seq<Layer>) -> Diff
    decreases layers.len(),
{
    if layers.len() == 0 {
        default_diff()
    } else {
        layered_diff(diff_of(layers.drop_last()), layers.last().diff)
    }
}

/// The interface settings of the layers folded on the defaults, in order:
/// the diff layout, then the theme.
pub open spec fn ui_of(layers: Seq<Layer>) -> (Seq<char>, Seq<char>)
    decreases layers.len(),
{
    if layers.len() == 0 {
        ("unified"@, "system"@)
    } else {
        let (diff, theme) = ui_of(layers.drop_last());
        match layers.last().ui {
            Some(u) => (
                match u.diff {
                    Some(v) => v@,
                    None => diff,
                },
                match u.theme {
                    Some(v) => v@,
                    None => theme,
                },
            ),
            None => (diff, theme),
        }
    }
}

/// The view of an optional string.
pub open spec fn opt_chars(o: Option<String>) -> Option<Seq<char>> {
    match o {
        Some(s) => Some(s@),
        None => None,
    }
}

/// The update settings of the layers folded on the defaults, in order: the
/// address, then the token.
pub open spec fn update_of(layers: Seq<Layer>) -> (Option<Seq<char>>, Option<Seq<char>>)
    decreases layers.len(),
{
    if layers.len() == 0 {
        (Some(HOME@), None)
    } else {
        let (url, token) = update_of(layers.drop_last());
        match layers.last().update {
            Some(u) => (or_keep_opt(opt_chars(u.url), url), or_keep_opt(opt_chars(u.token), token)),
            None => (url, token),
        }
    }
}

/// The language the layers give an extension, folded in order.
pub open spec fn language_of(layers: Seq<Layer>, key: Seq<char>) -> Option<Seq<char>>
    decreases layers.len(),
{
    if layers.len() == 0 {
        None
    } else {
        layered_language(language_of(layers.drop_last(), key), layers.last().languages, key)
    }
}

/// The configuration: the layers, in order, on top of the defaults.
///
/// The files are read by the caller. A file that is not there gives no
/// layer; a file that is there and is wrong stops the caller, because a
/// configuration that is silently ignored is worse than one that refuses to
/// start.
pub fn load(layers: Vec<Layer>) -> (config: Config)
    ensures
        forall|k: Seq<char>| #[trigger] config.languages.holds(k) == language_of(layers@, k),
        config.gerrit == gerrit_of(layers@),
        config.series == series_of(layers@),
        config.diff == diff_of(layers@),
        (config.ui.diff@, config.ui.theme@) == ui_of(layers@),
        (opt_chars(config.update.url), opt_chars(config.update.token)) == update_of(layers@),
{
    let ghost all = layers@;
    let mut config = Config::default();
    let n = layers.len();
    let mut rest = layers;
    let mut i: usize = 0;
    while i < n
        invariant
            i <= n,
            n == all.len(),
            rest@ == all.subrange(i as int, n as int),
            forall|k: Seq<char>| #[trigger] config.languages.holds(k) == language_of(all.subrange(0, i as int), k),
            config.gerrit == gerrit_of(all.subrange(0, i as int)),
            config.series == series_of(all.subrange(0, i as int)),
            config.diff == diff_of(all.subrange(0, i as int)),
            (config.ui.diff@, config.ui.theme@) == ui_of(all.subrange(0, i as int)),
            (opt_chars(config.update.url), opt_chars(config.update.token)) == update_of(all.subrange(0, i as int)),
        decreases n - i,
    {
        let layer = rest.remove(0);
        assert(layer == all[i as int]);
        assert(rest@ =~= all.subrange(i + 1, n as int));
        let ghost sub = all.subrange(0, i + 1);
        assert(sub.drop_last() == all.subrange(0, i as int));
        assert(sub.last() == all[i as int]);
        let ghost before = config;
        config.apply(layer);
        assert forall|k: Seq<char>| #[trigger] config.languages.holds(k) == language_of(sub, k) by {
            assert(before.languages.holds(k) == language_of(all.subrange(0, i as int), k));
        }
        i = i + 1;
    }
    assert(all.subrange(0, n as int) == all);
    config
}

/// `part` under `base`, the way `Path::join` puts a relative part under a
/// directory: with a `/` between them unless `base` is empty or ends with one.
pub open spec fn joined(base: Seq<char>, part: Seq<char>) -> Seq<char> {
    if base.len() == 0 || base.last() == '/' {
        base + part
    } else {
        base + "/"@ + part
    }
}

/// The configuration directory: `$XDG_CONFIG_HOME` when it is set and not
/// empty, else `$HOME/.config`.
pub open spec fn config_base(config_home: Option<Seq<char>>, home: Option<Seq<char>>) -> Option<Seq<char>> {
    match config_home {
        Some(dir) if dir.len() > 0 => Some(dir),
        _ => match home {
            Some(h) => Some(joined(h, ".config"@)),
            None => None,
        },
    }
}

/// `part` under `base`.
pub fn join(base: &str, part: &str) -> (out: String)
    ensures
        out@ == joined(base@, part@),
{
    let mut v = chars_of(base);
    let n = v.len();
    if n > 0 && v[n - 1] != '/' {
        v.push('/');
    }
    extend_str(&mut v, part);
    let out = string_of(v.as_slice());
    proof {
        reveal_strlit("/");
    }
    assert(out@ =~= joined(base@, part@));
    out
}

fn config_dir(config_home: Option<String>, home: Option<String>) -> (out: Option<String>)
    ensures
        opt_chars(out) == config_base(opt_chars(config_home), opt_chars(home)),
{
    match config_home {
        Some(dir) if !dir.as_str().is_empty() => {
            return Some(dir);
        },
        _ => {},
    }
    match home {
        Some(h) => Some(join(h.as_str(), ".config")),
        None => None,
    }
}

/// The file of the user: `qreview/config.json` in the configuration
/// directory, when there is one.
pub fn user_path(config_home: Option<String>, home: Option<String>) -> (out: Option<String>)
    ensures
        opt_chars(out) == match config_base(opt_chars(config_home), opt_chars(home)) {
            Some(base) => Some(joined(joined(base, "qreview"@), "config.json"@)),
            None => None,
        },
{
    match config_dir(config_home, home) {
        Some(base) => {
            let dir = join(base.as_str(), "qreview");
            Some(join(dir.as_str(), "config.json"))
        },
        None => None,
    }
}

/// Where a user grammar file may be dropped: `qreview/grammars` in the
/// configuration directory, beside the file of the user.
pub fn grammar_dir(config_home: Option<String>, home: Option<String>) -> (out: Option<String>)
    ensures
        opt_chars(out) == match config_base(opt_chars(config_home), opt_chars(home)) {
            Some(base) => Some(joined(joined(base, "qreview"@), "grammars"@)),
            None => None,
        },
{
    match config_dir(config_home, home) {
        Some(base) => {
            let dir = join(base.as_str(), "qreview");
            Some(join(dir.as_str(), "grammars"))
        },
        None => None,
    }
}

/// A layer changes only what it names: a setting it leaves out keeps its
/// value, provided the diff settings stood where the tool keeps them.
pub proof fn law_layer_changes_only_what_it_names(c: Config, layer: Layer, k: Seq<char>)
    requires
        diff_in_range(c.diff),
    ensures
        layer.gerrit is None ==> layered_gerrit(c.gerrit, layer.gerrit) == c.gerrit,
        layer.gerrit is Some && layer.gerrit->0.enabled is None ==> layered_gerrit(c.gerrit, layer.gerrit).enabled
            == c.gerrit.enabled,
        layer.series is None ==> layered_series(c.series, layer.series) == c.series,
        layer.series is Some && layer.series->0.guess_max is None ==> layered_series(c.series, layer.series).guess_max
            == c.series.guess_max,
        layer.series is Some && layer.series->0.max_commits is None ==> layered_series(c.series, layer.series).max_commits
            == c.series.max_commits,
        layer.series is Some && layer.series->0.batch_size is None ==> layered_series(c.series, layer.series).batch_size
            == c.series.batch_size,
        layer.ui is None ==> layered_ui(c.ui, layer.ui) == c.ui,
        layer.diff is None ==> layered_diff(c.diff, layer.diff) == c.diff,
        layer.diff is Some && layer.diff->0.context is None ==> layered_diff(c.diff, layer.diff).context
            == c.diff.context,
        layer.diff is Some && layer.diff->0.tab_width is None ==> layered_diff(c.diff, layer.diff).tab_width
            == c.diff.tab_width,
        layer.diff is Some && layer.diff->0.font_size is None ==> layered_diff(c.diff, layer.diff).font_size
            == c.diff.font_size,
        layer.update is None ==> layered_update(c.update, layer.update) == c.update,
        layer.languages is None ==> layered_language(c.languages.holds(k), layer.languages, k)
            == c.languages.holds(k),
{
}

/// The later layer wins: what the second layer names is what stands,
/// whatever the first said.
pub proof fn law_later_layer_wins(c: Config, first: Layer, second: Layer, k: Seq<char>)
    ensures
        second.gerrit is Some && second.gerrit->0.enabled is Some ==> layered_gerrit(
            layered_gerrit(c.gerrit, first.gerrit),
            second.gerrit,
        ).enabled == second.gerrit->0.enabled->0,
        second.series is Some && second.series->0.batch_size is Some ==> layered_series(
            layered_series(c.series, first.series),
            second.series,
        ).batch_size == second.series->0.batch_size->0,
        second.ui is Some && second.ui->0.diff is Some ==> layered_ui(
            layered_ui(c.ui, first.ui),
            second.ui,
        ).diff == second.ui->0.diff->0,
        second.diff is Some && second.diff->0.context is Some ==> layered_diff(
            layered_diff(c.diff, first.diff),
            second.diff,
        ).context == clamped(second.diff->0.context->0, 0, 2000),
        second.update is Some && second.update->0.url is Some ==> layered_update(
            layered_update(c.update, first.update),
            second.update,
        ).url == second.update->0.url,
        second.languages is Some && (exists|i: int|
            0 <= i < second.languages->0@.len() && crate::lang::extension_key(
                (#[trigger] second.languages->0@[i]).0,
            ) == k) ==> layered_language(
            layered_language(c.languages.holds(k), first.languages, k),
            second.languages,
            k,
        ) == layered_language(c.languages.holds(k), second.languages, k),
{
    match second.languages {
        Some(t) => lemma_layered_named(c.languages.holds(k), layered_language(c.languages.holds(k), first.languages, k), t@, k),
        None => {},
    }
}

proof fn lemma_layered_named(
    a: Option<Seq<char>>,
    b: Option<Seq<char>>,
    pairs: Seq<(Seq<char>, Seq<char>)>,
    k: Seq<char>,
)
    ensures
        layered(a, pairs, k) is Some && a is None ==> layered(b, pairs, k) == layered(a, pairs, k),
        (exists|i: int| 0 <= i < pairs.len() && crate::lang::extension_key((#[trigger] pairs[i]).0) == k)
            ==> layered(b, pairs, k) == layered(a, pairs, k),
        (forall|i: int| 0 <= i < pairs.len() ==> crate::lang::extension_key((#[trigger] pairs[i]).0) != k)
            ==> layered(a, pairs, k) == a,
    decreases pairs.len(),
{
    if pairs.len() > 0 {
        let t = pairs.drop_last();
        lemma_layered_named(a, b, t, k);
        if exists|i: int| 0 <= i < pairs.len() && crate::lang::extension_key((#[trigger] pairs[i]).0) == k {
            if crate::lang::extension_key(pairs.last().0) != k {
                let i = choose|i: int| 0 <= i < pairs.len() && crate::lang::extension_key((#[trigger] pairs[i]).0) == k;
                assert(t[i] == pairs[i]);
            }
        }
        if forall|i: int| 0 <= i < pairs.len() ==> crate::lang::extension_key((#[trigger] pairs[i]).0) != k {
            assert forall|i: int| 0 <= i < t.len() implies crate::lang::extension_key((#[trigger] t[i]).0) != k by {
                assert(t[i] == pairs[i]);
            }
            assert(crate::lang::extension_key(pairs[pairs.len() - 1].0) != k);
        }
    }
}

/// Language maps are merged, not replaced: an extension the layer does not
/// name keeps the language it had.
pub proof fn law_language_maps_merged(kept: Option<Seq<char>>, user: Table, k: Seq<char>)
    requires
        forall|i: int| 0 <= i < user@.len() ==> crate::lang::extension_key((#[trigger] user@[i]).0) != k,
    ensures
        layered_language(kept, Some(user), k) == kept,
{
    lemma_layered_named(kept, kept, user@, k);
}

/// The diff settings of the defaults stand where the tool keeps them, and
/// any layer leaves them there.
pub proof fn law_diff_stays_in_range(d: Diff, layer: Option<DiffLayer>)
    requires
        diff_in_range(d),
    ensures
        diff_in_range(default_diff()),
        diff_in_range(layered_diff(d, layer)),
{
}

/// Applying a layer twice is applying it once.
pub proof fn law_apply_is_idempotent(c: Config, layer: Layer, k: Seq<char>)
    ensures
        layered_gerrit(layered_gerrit(c.gerrit, layer.gerrit), layer.gerrit) == layered_gerrit(
            c.gerrit,
            layer.gerrit,
        ),
        layered_series(layered_series(c.series, layer.series), layer.series) == layered_series(
            c.series,
            layer.series,
        ),
        layered_ui(layered_ui(c.ui, layer.ui), layer.ui) == layered_ui(c.ui, layer.ui),
        layered_diff(layered_diff(c.diff, layer.diff), layer.diff) == layered_diff(c.diff, layer.diff),
        layered_update(layered_update(c.update, layer.update), layer.update) == layered_update(
            c.update,
            layer.update,
        ),
        layered_language(
            layered_language(c.languages.holds(k), layer.languages, k),
            layer.languages,
            k,
        ) == layered_language(c.languages.holds(k), layer.languages, k),
{
    match layer.languages {
        Some(t) => {
            let a = c.languages.holds(k);
            let b = layered(a, t@, k);
            lemma_layered_named(a, b, t@, k);
        },
        None => {},
    }
}

} // verus!
