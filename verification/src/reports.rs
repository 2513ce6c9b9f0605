//! What each report shows: its lines, the palette colour of every piece,
//! and which lines are wrapped.
use vstd::prelude::*;

use crate::clock::now_secs;
use crate::history::{entry_models, EntryModel, HistoryEntry};
use crate::lines::{
    blank, blank_line, colored, colored_span, header, header_line, info, info_line, joined_with,
    lemma_joined_with_push, lemma_plain_concat, lemma_plain_small, line_models, plain,
    plain_span, unpainted, Line, LineModel, Span, SpanModel,
};
use crate::text::{
    chars_of, concat2, decimal, decimal_string, has_prefix, law_octal_digits, octal, octal_string,
    octal_value, owned, push_char,
    starts_with, string_from, trim, trimmed,
};
use crate::themes::{ColorsModel, Theme, ThemeColors, ThemeModel};

verus! {

// ---------------------------------------------------------------------------
// Errors

/// The line for an error message, in the error colour.
pub open spec fn error_layout(text: Seq<char>, c: ColorsModel) -> Seq<LineModel> {
    seq![LineModel { spans: seq![colored(text, c.error)], wrap: false }]
}

/// The line for an error message.
pub fn layout_error(text: &str, colors: &ThemeColors) -> (r: Vec<Line>)
    ensures
        line_models(r@) == error_layout(text@, colors@),
{
    let mut spans = Vec::new();
    spans.push(colored_span(text, colors.error.as_str()));
    let l = Line { spans, wrap: false };
    assert(l@.spans =~= seq![colored(text@, colors@.error)]);
    let mut r = Vec::new();
    r.push(l);
    assert(line_models(r@) =~= error_layout(text@, colors@));
    r
}

// ---------------------------------------------------------------------------
// The theme listing

/// The line naming theme `t` and describing it, marked when it is the current
/// theme `cur`, in `cur`'s colours.
pub open spec fn theme_entry(t: ThemeModel, cur: ThemeModel) -> LineModel {
    LineModel {
        spans: seq![
            unpainted("  "@),
            colored(t.name, cur.colors.info_label),
            unpainted(": "@),
            unpainted(t.description),
            colored(if t.name == cur.name { " (current)"@ } else { ""@ }, cur.colors.git_clean),
        ],
        wrap: true,
    }
}

/// The line showing a sample path in theme `t`'s own colours.
pub open spec fn theme_sample(t: ThemeModel) -> LineModel {
    LineModel {
        spans: seq![
            unpainted("    Sample: "@),
            colored(t.colors.root_path, t.colors.root_path),
            colored("/"@, t.colors.separator),
            colored("path"@, t.colors.path_component),
            colored("/"@, t.colors.separator),
            colored("current"@, t.colors.current_directory),
        ],
        wrap: true,
    }
}

/// For each theme of `ts`, in order: its entry, its sample, an empty line.
pub open spec fn theme_blocks(ts: Seq<ThemeModel>, cur: ThemeModel) -> Seq<LineModel>
    decreases ts.len(),
{
    if ts.len() == 0 {
        seq![]
    } else {
        theme_blocks(ts.drop_last(), cur) + seq![
            theme_entry(ts.last(), cur),
            theme_sample(ts.last()),
            blank(),
        ]
    }
}

/// The theme listing: a title, then every theme with a sample.
pub open spec fn themes_layout(ts: Seq<ThemeModel>, cur: ThemeModel) -> Seq<LineModel> {
    seq![header("Available Themes"@, cur.colors)] + theme_blocks(ts, cur)
}

/// The entry line of a theme.
fn layout_theme_entry(t: &Theme, cur: &Theme) -> (l: Line)
    ensures
        l@ == theme_entry(t@, cur@),
{
    let mut spans = Vec::new();
    spans.push(plain_span("  "));
    spans.push(colored_span(t.name.as_str(), cur.colors.info_label.as_str()));
    spans.push(plain_span(": "));
    spans.push(plain_span(t.description.as_str()));
    let marker = if crate::text::same_text(t.name.as_str(), cur.name.as_str()) {
        " (current)"
    } else {
        ""
    };
    spans.push(colored_span(marker, cur.colors.git_clean.as_str()));
    let l = Line { spans, wrap: true };
    assert(l@.spans =~= theme_entry(t@, cur@).spans);
    l
}

/// The sample line of a theme.
fn layout_theme_sample(t: &Theme) -> (l: Line)
    ensures
        l@ == theme_sample(t@),
{
    let c = &t.colors;
    let mut spans = Vec::new();
    spans.push(plain_span("    Sample: "));
    spans.push(colored_span(c.root_path.as_str(), c.root_path.as_str()));
    spans.push(colored_span("/", c.separator.as_str()));
    spans.push(colored_span("path", c.path_component.as_str()));
    spans.push(colored_span("/", c.separator.as_str()));
    spans.push(colored_span("current", c.current_directory.as_str()));
    let l = Line { spans, wrap: true };
    assert(l@.spans =~= theme_sample(t@).spans);
    l
}

/// The theme listing for `themes`, with `cur` the current theme.
pub fn layout_themes(themes: &Vec<&Theme>, cur: &Theme) -> (r: Vec<Line>)
    ensures
        line_models(r@) == themes_layout(themes@.map_values(|t: &Theme| t@), cur@),
{
    let ghost tm = themes@.map_values(|t: &Theme| t@);
    let mut r: Vec<Line> = Vec::new();
    r.push(header_line("Available Themes", &cur.colors));
    let n = themes.len();
    let mut i: usize = 0;
    assert(line_models(r@) =~= seq![header("Available Themes"@, cur@.colors)] + theme_blocks(
        tm.take(0),
        cur@,
    ));
    while i < n
        invariant
            i <= n == themes@.len() == tm.len(),
            tm == themes@.map_values(|t: &Theme| t@),
            line_models(r@) == seq![header("Available Themes"@, cur@.colors)] + theme_blocks(
                tm.take(i as int),
                cur@,
            ),
        decreases n - i,
    {
        let t = themes[i];
        assert(t@ == tm[i as int]);
        let ghost before = line_models(r@);
        r.push(layout_theme_entry(t, cur));
        r.push(layout_theme_sample(t));
        r.push(blank_line());
        assert(tm.take(i + 1).drop_last() =~= tm.take(i as int));
        assert(line_models(r@) =~= before + seq![
            theme_entry(t@, cur@),
            theme_sample(t@),
            blank(),
        ]);
        i = i + 1;
    }
    assert(tm.take(n as int) =~= tm);
    r
}

// ---------------------------------------------------------------------------
// The history listing

/// How long ago `timestamp` was at time `now`, in words: under a minute is
/// "just now", then whole minutes, hours or days ("5m ago", "2h ago",
/// "3d ago"). A timestamp after `now` counts as now.
pub open spec fn age_text(now: u64, timestamp: u64) -> Seq<char> {
    let elapsed: nat = if now >= timestamp { (now - timestamp) as nat } else { 0 };
    if elapsed < 60 {
        "just now"@
    } else if elapsed < 3600 {
        decimal(elapsed / 60) + "m ago"@
    } else if elapsed < 86400 {
        decimal(elapsed / 3600) + "h ago"@
    } else {
        decimal(elapsed / 86400) + "d ago"@
    }
}

/// How long ago `timestamp` was at time `now` (see [`age_text`]).
pub fn format_age(now: u64, timestamp: u64) -> (r: String)
    ensures
        r@ == age_text(now, timestamp),
{
    let elapsed = now.saturating_sub(timestamp);
    if elapsed < 60 {
        owned("just now")
    } else if elapsed < 3600 {
        let d = decimal_string(elapsed / 60);
        concat2(d.as_str(), "m ago")
    } else if elapsed < 86400 {
        let d = decimal_string(elapsed / 3600);
        concat2(d.as_str(), "h ago")
    } else {
        let d = decimal_string(elapsed / 86400);
        concat2(d.as_str(), "d ago")
    }
}

/// How long ago `timestamp` was, by the system clock (see [`format_age`]).
/// The clock's reading is not stated.
pub fn format_timestamp(timestamp: u64) -> (r: String)
    ensures
        exists|now: u64| r@ == #[trigger] age_text(now, timestamp),
{
    let now = now_secs();
    format_age(now, timestamp)
}

/// The line for entry `e` at position `i` (from 0) of the history, at time `now`.
pub open spec fn history_row(i: nat, e: EntryModel, now: u64, c: ColorsModel) -> LineModel {
    LineModel {
        spans: seq![
            unpainted("  "@),
            colored(decimal(i + 1), c.info_label),
            unpainted(": "@),
            unpainted(e.0),
            colored(if i == 0 { " (current)"@ } else { ""@ }, c.git_clean),
            unpainted(" "@),
            colored("("@ + age_text(now, e.1) + ")"@, c.separator),
        ],
        wrap: true,
    }
}

/// The lines for the entries of `es`, in order.
pub open spec fn history_rows(es: Seq<EntryModel>, now: u64, c: ColorsModel) -> Seq<LineModel>
    decreases es.len(),
{
    if es.len() == 0 {
        seq![]
    } else {
        history_rows(es.drop_last(), now, c).push(
            history_row((es.len() - 1) as nat, es.last(), now, c),
        )
    }
}

/// The history listing at time `now`: a note when there are no entries,
/// else a title, one line per entry (most recent first) and an empty line.
pub open spec fn history_layout(es: Seq<EntryModel>, now: u64, c: ColorsModel) -> Seq<LineModel> {
    if es.len() == 0 {
        seq![
            LineModel {
                spans: seq![colored("No directory history available."@, c.info_value)],
                wrap: false,
            },
        ]
    } else {
        seq![header("Directory History"@, c)] + history_rows(es, now, c) + seq![blank()]
    }
}

/// The line for the entry at position `i` of the history.
fn layout_history_row(i: usize, e: &HistoryEntry, now: u64, colors: &ThemeColors) -> (l: Line)
    requires
        i < usize::MAX,
    ensures
        l@ == history_row(i as nat, e@, now, colors@),
{
    let mut spans = Vec::new();
    spans.push(plain_span("  "));
    let idx = decimal_string((i + 1) as u64);
    spans.push(colored_span(idx.as_str(), colors.info_label.as_str()));
    spans.push(plain_span(": "));
    spans.push(plain_span(e.path.as_str()));
    let marker = if i == 0 {
        " (current)"
    } else {
        ""
    };
    spans.push(colored_span(marker, colors.git_clean.as_str()));
    spans.push(plain_span(" "));
    let age = format_age(now, e.timestamp);
    let open = concat2("(", age.as_str());
    let when = concat2(open.as_str(), ")");
    spans.push(colored_span(when.as_str(), colors.separator.as_str()));
    let l = Line { spans, wrap: true };
    assert(l@.spans =~= history_row(i as nat, e@, now, colors@).spans);
    l
}

/// The history listing for `entries` at time `now`.
pub fn layout_history(entries: &Vec<&HistoryEntry>, now: u64, colors: &ThemeColors) -> (r: Vec<
    Line,
>)
    ensures
        line_models(r@) == history_layout(
            entry_models(entries@),
            now,
            colors@,
        ),
{
    let ghost es = entry_models(entries@);
    let mut r: Vec<Line> = Vec::new();
    if entries.len() == 0 {
        let mut spans = Vec::new();
        spans.push(colored_span("No directory history available.", colors.info_value.as_str()));
        let l = Line { spans, wrap: false };
        assert(l@.spans =~= seq![colored("No directory history available."@, colors@.info_value)]);
        r.push(l);
        assert(line_models(r@) =~= history_layout(es, now, colors@));
        return r;
    }
    r.push(header_line("Directory History", colors));
    let n = entries.len();
    let mut i: usize = 0;
    assert(line_models(r@) =~= seq![header("Directory History"@, colors@)] + history_rows(
        es.take(0),
        now,
        colors@,
    ));
    while i < n
        invariant
            0 < n == entries@.len() == es.len(),
            i <= n,
            es == entry_models(entries@),
            line_models(r@) == seq![header("Directory History"@, colors@)] + history_rows(
                es.take(i as int),
                now,
                colors@,
            ),
        decreases n - i,
    {
        let e = entries[i];
        assert(e@ == es[i as int]);
        let ghost before = line_models(r@);
        r.push(layout_history_row(i, e, now, colors));
        assert(es.take(i + 1).drop_last() =~= es.take(i as int));
        assert(line_models(r@) =~= before.push(history_row(i as nat, e@, now, colors@)));
        i = i + 1;
    }
    assert(es.take(n as int) =~= es);
    let ghost before = line_models(r@);
    r.push(blank_line());
    assert(line_models(r@) =~= before + seq![blank()]);
    r
}

// ---------------------------------------------------------------------------
// Directory information

/// What kind of file system entry a path names.
#[derive(Clone, Copy, Debug, PartialEq, Eq)]
pub enum EntryKind {
    Directory,
    File,
    Symlink,
    Other,
}

/// The name shown for a kind of entry.
pub open spec fn kind_text(k: EntryKind) -> Seq<char> {
    match k {
        EntryKind::Directory => "Directory"@,
        EntryKind::File => "File"@,
        EntryKind::Symlink => "Symlink"@,
        EntryKind::Other => "Other"@,
    }
}

/// What is known of a path from the file system, as plain values.
pub struct FactsModel {
    pub symlink_target: Option<Seq<char>>,
    pub kind: Option<EntryKind>,
    pub mode: Option<u32>,
}

/// What the file system says about a path.
pub struct PathFacts {
    /// Where the path points, if it is a symbolic link that could be read.
    pub symlink_target: Option<String>,
    /// The kind of entry, if its metadata could be read.
    pub kind: Option<EntryKind>,
    /// The permission bits, if its metadata could be read on a Unix system.
    pub mode: Option<u32>,
}

impl View for PathFacts {
    type V = FactsModel;

    open spec fn view(&self) -> FactsModel {
        FactsModel {
            symlink_target: crate::text::opt_chars(self.symlink_target),
            kind: self.kind,
            mode: self.mode,
        }
    }
}

/// The directory report for `path`: the path; its parent and its final
/// component where it has them (see [`crate::paths::parent_of`] and
/// [`crate::paths::file_name_of`]); then the link target, kind and permission
/// bits (in octal) where the file system gave them; then an empty line.
pub open spec fn verbose_layout(path: Seq<char>, f: FactsModel, c: ColorsModel) -> Seq<LineModel> {
    let parent: Seq<LineModel> = match crate::paths::parent_of(path) {
        Some(p) => seq![info("Parent"@, p, c.separator, c)],
        None => seq![],
    };
    let name: Seq<LineModel> = match crate::paths::file_name_of(path) {
        Some(n) => seq![info("Current Folder"@, n, c.current_directory, c)],
        None => seq![],
    };
    let target: Seq<LineModel> = match f.symlink_target {
        Some(t) => seq![info("Symlink Target"@, t, c.git_branch, c)],
        None => seq![],
    };
    let meta: Seq<LineModel> = match f.kind {
        Some(k) => seq![info("Type"@, kind_text(k), c.info_value, c)] + match f.mode {
            Some(m) => seq![info("Permissions"@, octal((m as nat) % 512), c.info_value, c)],
            None => seq![],
        },
        None => seq![],
    };
    seq![header("Directory Information"@, c), info("Path"@, path, c.info_value, c)] + parent
        + name + target + meta + seq![blank()]
}

/// The name shown for a kind of entry.
fn kind_name(k: EntryKind) -> (r: &'static str)
    ensures
        r@ == kind_text(k),
{
    match k {
        EntryKind::Directory => "Directory",
        EntryKind::File => "File",
        EntryKind::Symlink => "Symlink",
        EntryKind::Other => "Other",
    }
}

/// Appends `l` to `r`.
fn push_line(r: &mut Vec<Line>, l: Line)
    ensures
        line_models(final(r)@) == line_models(old(r)@).push(l@),
{
    let ghost before = line_models(r@);
    r.push(l);
    assert(line_models(r@) =~= before.push(l@));
}

/// The directory report for `path`.
pub fn layout_verbose(path: &str, facts: &PathFacts, colors: &ThemeColors) -> (r: Vec<Line>)
    ensures
        line_models(r@) == verbose_layout(path@, facts@, colors@),
{
    let ghost c = colors@;
    let ghost f = facts@;
    let mut r: Vec<Line> = Vec::new();
    push_line(&mut r, header_line("Directory Information", colors));
    push_line(&mut r, info_line("Path", path, colors.info_value.as_str(), colors));
    let ghost l0 = line_models(r@);
    assert(l0 =~= seq![header("Directory Information"@, c), info("Path"@, path@, c.info_value, c)]);
    match crate::paths::parent(path) {
        Some(p) => push_line(&mut r, info_line("Parent", p.as_str(), colors.separator.as_str(), colors)),
        None => {},
    }
    let ghost l1 = line_models(r@);
    match crate::paths::file_name(path) {
        Some(n) => push_line(
            &mut r,
            info_line("Current Folder", n.as_str(), colors.current_directory.as_str(), colors),
        ),
        None => {},
    }
    let ghost l2 = line_models(r@);
    match &facts.symlink_target {
        Some(t) => push_line(
            &mut r,
            info_line("Symlink Target", t.as_str(), colors.git_branch.as_str(), colors),
        ),
        None => {},
    }
    let ghost l3 = line_models(r@);
    match facts.kind {
        Some(k) => {
            push_line(&mut r, info_line("Type", kind_name(k), colors.info_value.as_str(), colors));
            match facts.mode {
                Some(m) => {
                    let bits = m & 0o777;
                    assert(bits == m % 512) by (bit_vector)
                        requires
                            bits == m & 0o777,
                    ;
                    let text = octal_string(bits as u64);
                    push_line(
                        &mut r,
                        info_line("Permissions", text.as_str(), colors.info_value.as_str(), colors),
                    );
                },
                None => {},
            }
        },
        None => {},
    }
    let ghost l4 = line_models(r@);
    push_line(&mut r, blank_line());
    assert(line_models(r@) =~= verbose_layout(path@, f, c));
    r
}

// ---------------------------------------------------------------------------
// Git repository information

/// The text that starts a `HEAD` file naming a branch.
pub open spec fn head_ref_prefix() -> Seq<char> {
    "ref: refs/heads/"@
}

/// The branch that the contents `head` of a repository's `HEAD` file name:
/// none unless it starts with `ref: refs/heads/`; else what follows that
/// prefix once surrounding whitespace is trimmed.
pub open spec fn head_branch(head: Seq<char>) -> Option<Seq<char>> {
    if has_prefix(head, head_ref_prefix()) {
        if has_prefix(trim(head), head_ref_prefix()) {
            Some(trim(head).skip(head_ref_prefix().len() as int))
        } else {
            Some("unknown"@)
        }
    } else {
        None
    }
}

/// The branch named by the contents of a `HEAD` file (see [`head_branch`]).
pub fn branch_from_head(head: &str) -> (r: Option<String>)
    ensures
        crate::text::opt_chars(r) == head_branch(head@),
{
    let prefix = "ref: refs/heads/";
    if !starts_with(head, prefix) {
        return None;
    }
    let t = trimmed(head);
    if starts_with(t.as_str(), prefix) {
        let v = chars_of(t.as_str());
        let plen = chars_of(prefix).len();
        let b = string_from(&v, plen, v.len());
        assert(b@ =~= trim(head@).skip(head_ref_prefix().len() as int));
        Some(b)
    } else {
        Some(owned("unknown"))
    }
}

/// The next step in looking for the git repository that holds a directory,
/// from the directory being probed upwards.
pub enum GitSearch {
    /// The directory holds `.git`: it is the repository's root.
    Found(String),
    /// Probe this directory (the parent of the last one) next.
    Probe(String),
    /// The root was passed without finding `.git`: there is no repository.
    NotFound,
}

/// A search step as plain values.
pub enum GitSearchModel {
    Found(Seq<char>),
    Probe(Seq<char>),
    NotFound,
}

impl View for GitSearch {
    type V = GitSearchModel;

    open spec fn view(&self) -> GitSearchModel {
        match self {
            GitSearch::Found(d) => GitSearchModel::Found(d@),
            GitSearch::Probe(d) => GitSearchModel::Probe(d@),
            GitSearch::NotFound => GitSearchModel::NotFound,
        }
    }
}

/// The most directories that one search for a git repository probes: the
/// directory it starts from and at most this many minus one of its ancestors.
pub const GIT_SEARCH_DEPTH: usize = 32;

/// The step after probing `dir`, the `probed`-th directory of the search
/// (counting `dir`): found when `dir` holds `.git`; else its parent next,
/// unless `dir` has none or the search has reached [`GIT_SEARCH_DEPTH`].
pub open spec fn git_search_step(dir: Seq<char>, has_git: bool, probed: nat) -> GitSearchModel {
    if has_git {
        GitSearchModel::Found(dir)
    } else if probed >= GIT_SEARCH_DEPTH {
        GitSearchModel::NotFound
    } else {
        match crate::paths::parent_of(dir) {
            Some(p) => GitSearchModel::Probe(p),
            None => GitSearchModel::NotFound,
        }
    }
}

/// The next step in looking for a git repository, after learning whether
/// `dir`, the `probed`-th directory probed, holds `.git` (see
/// [`git_search_step`]).
pub fn next_git_search(dir: &str, has_git: bool, probed: usize) -> (r: GitSearch)
    ensures
        r@ == git_search_step(dir@, has_git, probed as nat),
{
    if has_git {
        GitSearch::Found(owned(dir))
    } else if probed >= GIT_SEARCH_DEPTH {
        GitSearch::NotFound
    } else {
        match crate::paths::parent(dir) {
            Some(p) => GitSearch::Probe(p),
            None => GitSearch::NotFound,
        }
    }
}

/// The directories that a search probes, from `dir` as the `probed`-th one
/// on, where `has_git` tells which directories hold `.git`.
pub open spec fn git_probes(
    dir: Seq<char>,
    probed: nat,
    has_git: spec_fn(Seq<char>) -> bool,
) -> Seq<Seq<char>>
    decreases GIT_SEARCH_DEPTH - probed,
{
    match git_search_step(dir, has_git(dir), probed) {
        GitSearchModel::Probe(p) => if probed < GIT_SEARCH_DEPTH {
            seq![dir] + git_probes(p, probed + 1, has_git)
        } else {
            seq![dir]
        },
        _ => seq![dir],
    }
}

/// Every directory that the search probes next is shorter than the one
/// before, and a search that has probed [`GIT_SEARCH_DEPTH`] directories
/// probes no more.
pub proof fn law_git_search_ends(dir: Seq<char>, has_git: bool, probed: nat)
    ensures
        git_search_step(dir, has_git, probed) matches GitSearchModel::Probe(p) ==> p.len()
            < dir.len(),
        probed >= GIT_SEARCH_DEPTH ==> !(git_search_step(dir, has_git, probed) is Probe),
{
    crate::paths::law_parent_is_shorter(dir);
}

/// However deep the directory it starts from, and whichever directories hold
/// `.git`, a search probes at most [`GIT_SEARCH_DEPTH`] directories.
pub proof fn law_git_search_is_depth_limited(dir: Seq<char>, has_git: spec_fn(Seq<char>) -> bool)
    ensures
        git_probes(dir, 1, has_git).len() <= GIT_SEARCH_DEPTH,
{
    lemma_git_probes_len(dir, 1, has_git);
}

proof fn lemma_git_probes_len(dir: Seq<char>, probed: nat, has_git: spec_fn(Seq<char>) -> bool)
    requires
        1 <= probed <= GIT_SEARCH_DEPTH,
    ensures
        git_probes(dir, probed, has_git).len() <= GIT_SEARCH_DEPTH + 1 - probed,
    decreases GIT_SEARCH_DEPTH - probed,
{
    match git_search_step(dir, has_git(dir), probed) {
        GitSearchModel::Probe(p) => {
            if probed < GIT_SEARCH_DEPTH {
                lemma_git_probes_len(p, probed + 1, has_git);
            }
        },
        _ => {},
    }
}

/// The repository report: its root, the branch that `head` (the contents of
/// its `HEAD` file, if read) names, and whether the working tree has
/// uncommitted changes (if that could be found out), then an empty line.
pub open spec fn git_layout(
    root: Seq<char>,
    head: Option<Seq<char>>,
    dirty: Option<bool>,
    c: ColorsModel,
) -> Seq<LineModel> {
    let branch: Seq<LineModel> = match head {
        Some(h) => match head_branch(h) {
            Some(b) => seq![info("Current Branch"@, b, c.git_branch, c)],
            None => seq![],
        },
        None => seq![],
    };
    let status: Seq<LineModel> = match dirty {
        Some(true) => seq![info("Status"@, "Has uncommitted changes"@, c.git_dirty, c)],
        Some(false) => seq![info("Status"@, "Clean working tree"@, c.git_clean, c)],
        None => seq![],
    };
    seq![header("Git Repository Information"@, c), info("Repository Root"@, root, c.info_value, c)]
        + branch + status + seq![blank()]
}

/// The repository report (see [`git_layout`]).
pub fn layout_git(root: &str, head: Option<&str>, dirty: Option<bool>, colors: &ThemeColors) -> (r:
    Vec<Line>)
    ensures
        line_models(r@) == git_layout(
            root@,
            match head {
                Some(h) => Some(h@),
                None => None,
            },
            dirty,
            colors@,
        ),
{
    let ghost c = colors@;
    let mut r: Vec<Line> = Vec::new();
    push_line(&mut r, header_line("Git Repository Information", colors));
    push_line(&mut r, info_line("Repository Root", root, colors.info_value.as_str(), colors));
    match head {
        Some(h) => match branch_from_head(h) {
            Some(b) => push_line(
                &mut r,
                info_line("Current Branch", b.as_str(), colors.git_branch.as_str(), colors),
            ),
            None => {},
        },
        None => {},
    }
    match dirty {
        Some(true) => push_line(
            &mut r,
            info_line("Status", "Has uncommitted changes", colors.git_dirty.as_str(), colors),
        ),
        Some(false) => push_line(
            &mut r,
            info_line("Status", "Clean working tree", colors.git_clean.as_str(), colors),
        ),
        None => {},
    }
    push_line(&mut r, blank_line());
    let ghost hv = match head {
        Some(h) => Some(h@),
        None => None,
    };
    assert(line_models(r@) =~= git_layout(root@, hv, dirty, c));
    r
}

// ---------------------------------------------------------------------------
// The path itself

/// The ellipsis that ends an abbreviated component.
pub open spec fn ellipsis() -> char {
    '\u{2026}'
}

/// A component as compact mode shows it: its first two characters and an
/// ellipsis when it is longer than four characters, else unchanged.
pub open spec fn abbreviated(comp: Seq<char>) -> Seq<char> {
    if comp.len() > 4 {
        comp.take(2).push(ellipsis())
    } else {
        comp
    }
}

/// The text shown for component `i` of `comps`: in compact mode every
/// component but the last is abbreviated; the last is always shown in full.
pub open spec fn shown_text(comps: Seq<Seq<char>>, i: int, compact: bool) -> Seq<char> {
    if compact && i < comps.len() - 1 {
        abbreviated(comps[i])
    } else {
        comps[i]
    }
}

/// The spans for component `i` of `comps`: nothing for the root of a longer
/// path; otherwise the separator `sepr` before every component but the
/// first one shown, then the component's text (see [`shown_text`]), in the
/// current-directory colour when it is the last, the root colour when it is
/// a first component other than the root, and the component colour otherwise.
pub open spec fn component_spans(
    comps: Seq<Seq<char>>,
    i: int,
    sepr: Seq<char>,
    compact: bool,
    c: ColorsModel,
) -> Seq<SpanModel> {
    let comp = comps[i];
    let n = comps.len();
    if comp == "/"@ && n > 1 {
        seq![]
    } else {
        let lead: Seq<SpanModel> = if i > 0 && !(i == 1 && comps[0] == "/"@) {
            seq![colored(sepr, c.separator)]
        } else {
            seq![]
        };
        let body = if comp == "/"@ && n == 1 {
            colored("/"@, c.root_path)
        } else {
            colored(
                shown_text(comps, i, compact),
                if i == n - 1 {
                    c.current_directory
                } else if i == 0 && comp != "/"@ {
                    c.root_path
                } else {
                    c.path_component
                },
            )
        };
        lead.push(body)
    }
}

/// The spans for the first `k` components of `comps`.
pub open spec fn path_spans(
    comps: Seq<Seq<char>>,
    k: int,
    sepr: Seq<char>,
    compact: bool,
    c: ColorsModel,
) -> Seq<SpanModel>
    decreases k,
{
    if k <= 0 {
        seq![]
    } else {
        path_spans(comps, k - 1, sepr, compact, c) + component_spans(comps, k - 1, sepr, compact, c)
    }
}

/// The line showing `path`: its components (see [`crate::paths::components`])
/// joined by `separator` (by default `/`), or the root alone when the path
/// has no components. In compact mode the components are abbreviated and
/// the line is kept whole; otherwise it is wrapped to the terminal.
pub open spec fn pretty_path_layout(
    path: Seq<char>,
    separator: Option<Seq<char>>,
    compact: bool,
    c: ColorsModel,
) -> Seq<LineModel> {
    let comps = crate::paths::components(path);
    let sepr = match separator {
        Some(s) => s,
        None => "/"@,
    };
    if comps.len() == 0 {
        seq![LineModel { spans: seq![colored("/"@, c.root_path)], wrap: false }]
    } else {
        seq![
            LineModel {
                spans: path_spans(comps, comps.len() as int, sepr, compact, c),
                wrap: !compact,
            },
        ]
    }
}

/// A component as compact mode shows it (see [`abbreviated`]).
pub fn abbreviate(comp: &str) -> (r: String)
    ensures
        r@ == abbreviated(comp@),
{
    let v = chars_of(comp);
    if v.len() > 4 {
        let mut r = string_from(&v, 0, 2);
        push_char(&mut r, '\u{2026}');
        assert(v@.subrange(0, 2) =~= v@.take(2));
        r
    } else {
        owned(comp)
    }
}

/// The line showing `path` (see [`pretty_path_layout`]).
pub fn layout_pretty_path(
    path: &str,
    separator: Option<&String>,
    compact: bool,
    colors: &ThemeColors,
) -> (r: Vec<Line>)
    ensures
        line_models(r@) == pretty_path_layout(
            path@,
            match separator {
                Some(s) => Some(s@),
                None => None,
            },
            compact,
            colors@,
        ),
{
    let ghost c = colors@;
    let comps = crate::paths::path_components(path);
    let ghost cm = comps@.map_values(|x: String| x@);
    let sepr: &str = match separator {
        Some(s) => s.as_str(),
        None => "/",
    };
    let mut r: Vec<Line> = Vec::new();
    let n = comps.len();
    if n == 0 {
        let mut spans = Vec::new();
        spans.push(colored_span("/", colors.root_path.as_str()));
        let l = Line { spans, wrap: false };
        assert(l@.spans =~= seq![colored("/"@, c.root_path)]);
        push_line(&mut r, l);
        assert(line_models(r@) =~= seq![l@]);
        return r;
    }
    let first_is_root = crate::text::same_text(comps[0].as_str(), "/");
    let mut spans: Vec<Span> = Vec::new();
    let mut i: usize = 0;
    assert(spans@.map_values(|s: Span| s@) =~= path_spans(cm, 0, sepr@, compact, c));
    while i < n
        invariant
            i <= n == comps@.len() == cm.len(),
            n > 0,
            cm == comps@.map_values(|x: String| x@),
            first_is_root == (cm[0] == "/"@),
            c == colors@,
            spans@.map_values(|s: Span| s@) == path_spans(cm, i as int, sepr@, compact, c),
        decreases n - i,
    {
        let comp = comps[i].as_str();
        assert(comp@ == cm[i as int]);
        let is_root = crate::text::same_text(comp, "/");
        let ghost before = spans@.map_values(|s: Span| s@);
        let ghost expected = component_spans(cm, i as int, sepr@, compact, c);
        let mut piece: Vec<Span> = Vec::new();
        if is_root && n > 1 {
            assert(piece@.map_values(|s: Span| s@) =~= expected);
        } else {
            let ghost lead: Seq<SpanModel> = if i > 0 && !(i == 1 && cm[0] == "/"@) {
                seq![colored(sepr@, c.separator)]
            } else {
                seq![]
            };
            if i > 0 && !(i == 1 && first_is_root) {
                piece.push(colored_span(sepr, colors.separator.as_str()));
            }
            assert(piece@.map_values(|s: Span| s@) =~= lead);
            if is_root && n == 1 {
                piece.push(colored_span("/", colors.root_path.as_str()));
            } else {
                let color = if i == n - 1 {
                    colors.current_directory.as_str()
                } else if i == 0 && !is_root {
                    colors.root_path.as_str()
                } else {
                    colors.path_component.as_str()
                };
                if compact && i < n - 1 {
                    let short = abbreviate(comp);
                    piece.push(colored_span(short.as_str(), color));
                } else {
                    piece.push(colored_span(comp, color));
                }
            }
            assert(piece@.map_values(|s: Span| s@) =~= expected);
        }
        let ghost pv = piece@;
        spans.append(&mut piece);
        assert(spans@.map_values(|s: Span| s@) =~= before + pv.map_values(|s: Span| s@));
        i = i + 1;
    }
    let l = Line { spans, wrap: !compact };
    push_line(&mut r, l);
    let ghost sv = match separator {
        Some(s) => Some(s@),
        None => None,
    };
    assert(line_models(r@) =~= pretty_path_layout(path@, sv, compact, c));
    r
}

// ---------------------------------------------------------------------------
// How a path is shown

proof fn lemma_pieces_no_sep(s: Seq<char>, cur: Seq<char>, i: int)
    requires
        !cur.contains(crate::paths::sep()),
        0 <= i < crate::paths::pieces_from(s, cur).len(),
    ensures
        !crate::paths::pieces_from(s, cur)[i].contains(crate::paths::sep()),
    decreases s.len(),
{
    let ps = crate::paths::pieces_from(s, cur);
    if s.len() == 0 {
        assert(ps == seq![cur]);
        assert(ps[i] == cur);
    } else if s[0] == crate::paths::sep() {
        let rest = crate::paths::pieces_from(s.drop_first(), seq![]);
        assert(ps == seq![cur] + rest);
        if i == 0 {
            assert(ps[i] == cur);
        } else {
            assert(ps[i] == rest[i - 1]);
            assert(!Seq::<char>::empty().contains(crate::paths::sep()));
            lemma_pieces_no_sep(s.drop_first(), seq![], i - 1);
        }
    } else {
        let next = cur.push(s[0]);
        assert(!next.contains(crate::paths::sep())) by {
            if next.contains(crate::paths::sep()) {
                let k = choose|k: int| 0 <= k < next.len() && next[k] == crate::paths::sep();
                if k < cur.len() {
                    assert(cur[k] == crate::paths::sep());
                }
            }
        }
        assert(ps == crate::paths::pieces_from(s.drop_first(), next));
        lemma_pieces_no_sep(s.drop_first(), next, i);
    }
}

proof fn lemma_named_members(ps: Seq<Seq<char>>)
    ensures
        forall|i: int|
            0 <= i < crate::paths::named(ps).len() ==> ps.contains(
                #[trigger] crate::paths::named(ps)[i],
            ) && crate::paths::is_named(crate::paths::named(ps)[i]),
    decreases ps.len(),
{
    if ps.len() > 0 {
        lemma_named_members(ps.drop_last());
        let rest = crate::paths::named(ps.drop_last());
        assert forall|i: int| 0 <= i < crate::paths::named(ps).len() implies ps.contains(
            #[trigger] crate::paths::named(ps)[i],
        ) && crate::paths::is_named(crate::paths::named(ps)[i]) by {
            if i < rest.len() {
                let j = choose|j: int| 0 <= j < ps.drop_last().len() && ps.drop_last()[j] == rest[i];
                assert(ps[j] == rest[i]);
            } else {
                assert(ps[ps.len() - 1] == ps.last());
            }
        }
    }
}

/// Only the first component of a path can be the root.
proof fn lemma_root_only_first(path: Seq<char>)
    ensures
        forall|i: int|
            1 <= i < crate::paths::components(path).len() ==> #[trigger] crate::paths::components(
                path,
            )[i] != "/"@,
{
    reveal_strlit("/");
    let ps = crate::paths::pieces(path);
    assert(!Seq::<char>::empty().contains(crate::paths::sep()));
    lemma_named_members(ps);
    let comps = crate::paths::components(path);
    let nm = crate::paths::named(ps);
    let head_len = comps.len() - nm.len();
    assert forall|i: int| 1 <= i < comps.len() implies #[trigger] comps[i] != "/"@ by {
        if i >= head_len {
            let q = nm[i - head_len];
            assert(comps[i] == q);
            let j = choose|j: int| 0 <= j < ps.len() && ps[j] == q;
            lemma_pieces_no_sep(path, seq![], j);
            assert(!ps[j].contains(crate::paths::sep()));
            if q == "/"@ {
                assert(q[0] == '/');
                assert(q.contains(crate::paths::sep()));
            }
        } else {
            assert(comps[i] == seq!['.']);
            assert(seq!['.'][0] != "/"@[0]);
        }
    }
}

/// The texts shown for the components of `comps` (see [`shown_text`]).
pub open spec fn shown_texts(comps: Seq<Seq<char>>, compact: bool) -> Seq<Seq<char>> {
    Seq::new(comps.len(), |i: int| shown_text(comps, i, compact))
}

proof fn lemma_path_spans_plain(
    comps: Seq<Seq<char>>,
    k: int,
    sepr: Seq<char>,
    compact: bool,
    c: ColorsModel,
)
    requires
        0 <= k <= comps.len(),
        forall|i: int| 1 <= i < comps.len() ==> #[trigger] comps[i] != "/"@,
    ensures
        plain(path_spans(comps, k, sepr, compact, c)) == if comps.len() > 1 && comps[0] == "/"@ {
            if k == 0 {
                Seq::<char>::empty()
            } else {
                joined_with(shown_texts(comps, compact).subrange(1, k), sepr)
            }
        } else {
            joined_with(shown_texts(comps, compact).take(k), sepr)
        },
    decreases k,
{
    let rooted = comps.len() > 1 && comps[0] == "/"@;
    let d = shown_texts(comps, compact);
    let e = Seq::<Seq<char>>::empty();
    if k == 0 {
        lemma_plain_small(unpainted(seq![]), unpainted(seq![]));
        assert(d.take(0) =~= e);
    } else {
        lemma_path_spans_plain(comps, k - 1, sepr, compact, c);
        let i = k - 1;
        let prev = path_spans(comps, i, sepr, compact, c);
        let cs = component_spans(comps, i, sepr, compact, c);
        lemma_plain_concat(prev, cs);
        let comp = comps[i];
        let text = shown_text(comps, i, compact);
        assert(d[i] == text);
        let body_color = if i == comps.len() - 1 {
            c.current_directory
        } else if i == 0 && comp != "/"@ {
            c.root_path
        } else {
            c.path_component
        };
        lemma_plain_small(colored(sepr, c.separator), colored(text, body_color));
        lemma_plain_small(colored("/"@, c.root_path), colored(text, body_color));
        lemma_plain_small(colored(text, body_color), colored(text, body_color));
        if rooted {
            if i == 0 {
                assert(cs =~= Seq::<SpanModel>::empty());
                assert(d.subrange(1, 1) =~= e);
                assert(plain(prev) + plain(cs) =~= Seq::<char>::empty());
            } else {
                assert(d.subrange(1, k) =~= d.subrange(1, i).push(text));
                lemma_joined_with_push(d.subrange(1, i), text, sepr);
                if i == 1 {
                    assert(cs =~= seq![colored(text, body_color)]);
                    assert(d.subrange(1, 1) =~= e);
                    assert(plain(prev) + text =~= text);
                } else {
                    assert(cs =~= seq![colored(sepr, c.separator), colored(text, body_color)]);
                    assert(plain(prev) + (sepr + text) =~= plain(prev) + sepr + text);
                }
            }
        } else {
            assert(d.take(k) =~= d.take(i).push(text));
            lemma_joined_with_push(d.take(i), text, sepr);
            if i == 0 {
                assert(d.take(0) =~= e);
                if comp == "/"@ {
                    assert(comps.len() == 1);
                    assert(text == comp);
                    assert(cs =~= seq![colored("/"@, c.root_path)]);
                } else {
                    assert(cs =~= seq![colored(text, body_color)]);
                }
                assert(plain(prev) + text =~= text);
            } else {
                assert(!(i == 1 && comps[0] == "/"@));
                assert(cs =~= seq![colored(sepr, c.separator), colored(text, body_color)]);
                assert(plain(prev) + (sepr + text) =~= plain(prev) + sepr + text);
            }
        }
    }
}

/// The text that shows a path (with colour off) is its components joined by
/// the separator, leaving out the root of a path that has more components
/// (`/home/user` with `/` shows as `home/user`); a path without components
/// shows as `/`. In compact mode every component but the last is
/// abbreviated; the last, the current directory, is always shown in full.
pub proof fn law_pretty_path_text(
    path: Seq<char>,
    separator: Option<Seq<char>>,
    compact: bool,
    c: ColorsModel,
)
    ensures
        ({
            let comps = crate::paths::components(path);
            let sepr = match separator {
                Some(s) => s,
                None => "/"@,
            };
            let shown = shown_texts(comps, compact);
            &&& plain(pretty_path_layout(path, separator, compact, c)[0].spans) == if comps.len()
                == 0 {
                "/"@
            } else if comps.len() > 1 && comps[0] == "/"@ {
                joined_with(shown.drop_first(), sepr)
            } else {
                joined_with(shown, sepr)
            }
            &&& comps.len() > 0 ==> shown.last() == comps.last()
        }),
{
    let comps = crate::paths::components(path);
    let sepr = match separator {
        Some(s) => s,
        None => "/"@,
    };
    let shown = shown_texts(comps, compact);
    if comps.len() == 0 {
        lemma_plain_small(colored("/"@, c.root_path), colored("/"@, c.root_path));
    } else {
        lemma_root_only_first(path);
        lemma_path_spans_plain(comps, comps.len() as int, sepr, compact, c);
        assert(shown.take(comps.len() as int) =~= shown);
        assert(shown.subrange(1, comps.len() as int) =~= shown.drop_first());
        assert(shown.last() == shown_text(comps, comps.len() - 1, compact));
    }
}

/// In the directory report of an entry whose kind and mode are known, the
/// line before the closing empty line shows the permissions: at most three
/// octal digits that stand for the nine `rwx` bits of the mode (the mode
/// modulo 512), whatever its file-type, setuid, setgid and sticky bits are.
pub proof fn law_permissions_show_nine_bits(path: Seq<char>, f: FactsModel, c: ColorsModel)
    requires
        f.kind is Some,
        f.mode is Some,
    ensures
        ({
            let l = verbose_layout(path, f, c);
            let m = f.mode.unwrap();
            &&& l.len() >= 2
            &&& exists|v: Seq<char>|
                #![trigger octal_value(v)]
                l[l.len() - 2] == info("Permissions"@, v, c.info_value, c) && v.len() <= 3
                    && octal_value(v) == m % 512 && (forall|i: int|
                    0 <= i < v.len() ==> '0' <= #[trigger] v[i] <= '7')
        }),
{
    let l = verbose_layout(path, f, c);
    let m = f.mode.unwrap();
    let v = octal((m as nat) % 512);
    law_octal_digits((m as nat) % 512);
    assert(l[l.len() - 2] == info("Permissions"@, v, c.info_value, c));
    assert(octal_value(v) == m % 512);
}

/// Two modes with the same nine `rwx` bits give the same directory report.
pub proof fn law_permissions_ignore_other_mode_bits(
    path: Seq<char>,
    f: FactsModel,
    c: ColorsModel,
    m1: u32,
    m2: u32,
)
    requires
        m1 % 512 == m2 % 512,
    ensures
        verbose_layout(path, FactsModel { mode: Some(m1), ..f }, c) == verbose_layout(
            path,
            FactsModel { mode: Some(m2), ..f },
            c,
        ),
{
}

/// In the repository report the status line, just before the closing empty
/// line, shows a dirty working tree in the theme's `git_dirty` colour and a
/// clean one in its `git_clean` colour; the colour of the other state plays
/// no part.
pub proof fn law_git_status_colours(
    root: Seq<char>,
    head: Option<Seq<char>>,
    c: ColorsModel,
    other: Seq<char>,
)
    ensures
        ({
            let l = git_layout(root, head, Some(true), c);
            l.len() >= 2 && l[l.len() - 2] == info(
                "Status"@,
                "Has uncommitted changes"@,
                c.git_dirty,
                c,
            )
        }),
        ({
            let l = git_layout(root, head, Some(false), c);
            l.len() >= 2 && l[l.len() - 2] == info("Status"@, "Clean working tree"@, c.git_clean, c)
        }),
        git_layout(root, head, Some(true), c) == git_layout(
            root,
            head,
            Some(true),
            ColorsModel { git_clean: other, ..c },
        ),
        git_layout(root, head, Some(false), c) == git_layout(
            root,
            head,
            Some(false),
            ColorsModel { git_dirty: other, ..c },
        ),
{
    let cd = ColorsModel { git_clean: other, ..c };
    let cc = ColorsModel { git_dirty: other, ..c };
    assert(git_layout(root, head, Some(true), c) =~= git_layout(root, head, Some(true), cd));
    assert(git_layout(root, head, Some(false), c) =~= git_layout(root, head, Some(false), cc));
}

} // verus!
