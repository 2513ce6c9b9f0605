//! The reports as printed: themes and the terminal width decide how each
//! looks, and every report comes out as the text lines to print.
use vstd::prelude::*;

use crate::clock::now_secs;
use crate::history::{entry_models, HistoryEntry};
use crate::lines::{
    emit_lines, joined_with, law_fitting_text_is_one_line, law_no_color_output_is_plain,
    line_models, lines_out, output_of, plain, plain_texts, render, string_models, wrapped_lines,
    LineModel,
};
use crate::paths::components;
use crate::reports::{
    law_pretty_path_text, shown_texts,
    error_layout, git_layout, history_layout, layout_error, layout_git, layout_history,
    layout_pretty_path, layout_themes, layout_verbose, pretty_path_layout, themes_layout,
    verbose_layout, PathFacts,
};
use crate::text::{byte_len, utf8_len};
use crate::themes::{
    builtin_themes, current_of, default_theme_name, has_theme, theme_not_found, ColorsModel,
    ThemeManager,
};

verus! {

// ---------------------------------------------------------------------------
// The manager

/// The width in columns of the terminal, from `terminal_size::terminal_size`,
/// which asks standard output, standard error and standard input in turn;
/// none when none of them is a terminal. It depends on the terminal, so only
/// the range of its `u16` column count is stated.
#[verifier::external_body]
fn terminal_columns() -> (r: Option<usize>)
    ensures
        r matches Some(w) ==> w <= 0xffff,
{
    match terminal_size::terminal_size() {
        Some((terminal_size::Width(w), _)) => Some(w as usize),
        None => None,
    }
}

/// Themes and the terminal width: everything that decides how a report looks.
pub struct OutputManager {
    pub theme_manager: ThemeManager,
    terminal_width: Option<usize>,
    compact: bool,
}

/// The abstract state of an [`OutputManager`].
pub struct OutputModel {
    pub themes: crate::themes::ThemeManagerModel,
    /// The terminal width that reports are wrapped to, if known.
    pub width: Option<usize>,
    /// Whether paths are always shown in compact mode.
    pub compact: bool,
}

/// The text of the line that shows `path` in full, as printed with colour off.
pub open spec fn full_path_text(path: Seq<char>, separator: Option<Seq<char>>, c: ColorsModel) -> Seq<
    char,
> {
    plain(pretty_path_layout(path, separator, false, c)[0].spans)
}

/// Whether `path` is shown in compact mode: always when compact mode is on,
/// and otherwise when the terminal width is known and the line that shows the
/// path in full is longer.
pub open spec fn shows_compact(
    m: OutputModel,
    path: Seq<char>,
    separator: Option<Seq<char>>,
    c: ColorsModel,
) -> bool {
    m.compact || (m.width matches Some(w) && byte_len(full_path_text(path, separator, c)) > w)
}

impl View for OutputManager {
    type V = OutputModel;

    closed spec fn view(&self) -> OutputModel {
        OutputModel {
            themes: self.theme_manager@,
            width: self.terminal_width,
            compact: self.compact,
        }
    }
}

impl OutputManager {
    /// The colours of the current theme.
    pub open spec fn colors(&self) -> ColorsModel {
        current_of(self@.themes).colors
    }

    /// The built-in themes with `default` current, compact mode off, and the
    /// width of the terminal as `terminal_size` reports it; which width that
    /// is depends on the terminal, so only its `u16` range is stated.
    pub fn new() -> (m: OutputManager)
        ensures
            m@.themes.themes == builtin_themes(),
            m@.themes.current == default_theme_name(),
            !m@.compact,
            m@.width matches Some(w) ==> w <= 0xffff,
    {
        OutputManager {
            theme_manager: ThemeManager::new(),
            terminal_width: terminal_columns(),
            compact: false,
        }
    }

    /// The built-in themes with `default` current, wrapping to `width`.
    pub fn with_width(width: Option<usize>) -> (m: OutputManager)
        ensures
            m@.themes.themes == builtin_themes(),
            m@.themes.current == default_theme_name(),
            m@.width == width,
            !m@.compact,
    {
        OutputManager { theme_manager: ThemeManager::new(), terminal_width: width, compact: false }
    }

    /// Turns compact mode for paths on or off.
    pub fn set_compact(&mut self, on: bool)
        ensures
            final(self)@ == (OutputModel { compact: on, ..old(self)@ }),
    {
        self.compact = on;
    }

    /// The themes and the current one.
    pub fn theme_manager(&self) -> (r: &ThemeManager)
        ensures
            r@ == self@.themes,
    {
        &self.theme_manager
    }

    /// The terminal width that reports are wrapped to, if known.
    pub fn terminal_width(&self) -> (r: Option<usize>)
        ensures
            r == self@.width,
    {
        self.terminal_width
    }

    /// Makes the theme called `name` current (see [`ThemeManager::set_theme`]).
    pub fn set_theme(&mut self, name: &str) -> (r: Result<(), String>)
        ensures
            final(self)@.width == old(self)@.width,
            final(self)@.compact == old(self)@.compact,
            final(self)@.themes.themes == old(self)@.themes.themes,
            r is Ok <==> has_theme(old(self)@.themes.themes, name@),
            match r {
                Ok(()) => final(self)@.themes.current == name@,
                Err(e) => e@ == theme_not_found(name@) && final(self)@.themes.current == old(
                    self,
                )@.themes.current,
            },
    {
        self.theme_manager.set_theme(name)
    }

    /// The lines of the theme listing.
    pub fn themes_lines(&self, no_color: bool) -> (r: Vec<String>)
        ensures
            output_of(
                themes_layout(self@.themes.themes, current_of(self@.themes)),
                no_color,
                self@.width,
                string_models(r@),
            ),
    {
        let themes = self.theme_manager.list_themes();
        let cur = self.theme_manager.get_current_theme();
        let lines = layout_themes(&themes, cur);
        emit_lines(&lines, no_color, self.terminal_width)
    }

    /// The lines of the history listing for `entries` at time `now`.
    pub fn history_lines_at(&self, entries: &Vec<&HistoryEntry>, now: u64, no_color: bool) -> (r:
        Vec<String>)
        ensures
            output_of(
                history_layout(entry_models(entries@), now, self.colors()),
                no_color,
                self@.width,
                string_models(r@),
            ),
    {
        let cur = self.theme_manager.get_current_theme();
        let lines = layout_history(entries, now, &cur.colors);
        emit_lines(&lines, no_color, self.terminal_width)
    }

    /// The lines of the history listing for `entries` now; the clock's
    /// reading is not stated.
    pub fn history_lines(&self, entries: &Vec<&HistoryEntry>, no_color: bool) -> (r: Vec<String>)
        ensures
            exists|now: u64|
                output_of(
                    #[trigger] history_layout(
                        entry_models(entries@),
                        now,
                        self.colors(),
                    ),
                    no_color,
                    self@.width,
                    string_models(r@),
                ),
    {
        let now = now_secs();
        self.history_lines_at(entries, now, no_color)
    }

    /// The lines of the directory report for `path`.
    pub fn verbose_lines(&self, path: &str, facts: &PathFacts, no_color: bool) -> (r: Vec<String>)
        ensures
            output_of(
                verbose_layout(path@, facts@, self.colors()),
                no_color,
                self@.width,
                string_models(r@),
            ),
    {
        let cur = self.theme_manager.get_current_theme();
        let lines = layout_verbose(path, facts, &cur.colors);
        emit_lines(&lines, no_color, self.terminal_width)
    }

    /// The lines of the repository report for the repository at `root`.
    pub fn git_lines(&self, root: &str, head: Option<&str>, dirty: Option<bool>, no_color: bool) -> (r:
        Vec<String>)
        ensures
            output_of(
                git_layout(
                    root@,
                    match head {
                        Some(h) => Some(h@),
                        None => None,
                    },
                    dirty,
                    self.colors(),
                ),
                no_color,
                self@.width,
                string_models(r@),
            ),
    {
        let cur = self.theme_manager.get_current_theme();
        let lines = layout_git(root, head, dirty, &cur.colors);
        emit_lines(&lines, no_color, self.terminal_width)
    }

    /// The lines showing `path`.
    pub fn pretty_path_lines(&self, path: &str, custom_separator: Option<&String>, no_color: bool) -> (r:
        Vec<String>)
        ensures
            output_of(
                pretty_path_layout(
                    path@,
                    match custom_separator {
                        Some(s) => Some(s@),
                        None => None,
                    },
                    shows_compact(
                        self@,
                        path@,
                        match custom_separator {
                            Some(s) => Some(s@),
                            None => None,
                        },
                        self.colors(),
                    ),
                    self.colors(),
                ),
                no_color,
                self@.width,
                string_models(r@),
            ),
    {
        let cur = self.theme_manager.get_current_theme();
        let full = layout_pretty_path(path, custom_separator, false, &cur.colors);
        let ghost sv = match custom_separator {
            Some(s) => Some(s@),
            None => None,
        };
        assert(pretty_path_layout(path@, sv, false, cur.colors@).len() == 1);
        assert(line_models(full@).len() == full@.len());
        assert(line_models(full@)[0] == full@[0]@);
        let compact = if self.compact {
            true
        } else {
            match self.terminal_width {
                Some(w) => {
                    let text = render(&full[0].spans, true);
                    utf8_len(text.as_str()) > w
                },
                None => false,
            }
        };
        if compact {
            let lines = layout_pretty_path(path, custom_separator, true, &cur.colors);
            emit_lines(&lines, no_color, self.terminal_width)
        } else {
            emit_lines(&full, no_color, self.terminal_width)
        }
    }

    /// The line for an error message.
    pub fn error_lines(&self, text: &str, no_color: bool) -> (r: Vec<String>)
        ensures
            output_of(error_layout(text@, self.colors()), no_color, self@.width, string_models(r@)),
    {
        let cur = self.theme_manager.get_current_theme();
        let lines = layout_error(text, &cur.colors);
        emit_lines(&lines, no_color, self.terminal_width)
    }
}

impl Default for OutputManager {
    /// The same as [`OutputManager::new`].
    fn default() -> (m: OutputManager)
        ensures
            m@.themes.themes == builtin_themes(),
            m@.themes.current == default_theme_name(),
            !m@.compact,
    {
        OutputManager::new()
    }
}

// ---------------------------------------------------------------------------
// Laws

proof fn lemma_one_line_out(l: LineModel, p: Seq<char>, width: Option<usize>)
    ensures
        lines_out(seq![l], seq![p], width) == if l.wrap {
            wrapped_lines(p, width)
        } else {
            seq![p]
        },
{
    assert(seq![l].drop_last() =~= Seq::<LineModel>::empty());
    assert(seq![p].drop_last() =~= Seq::<Seq<char>>::empty());
    assert(lines_out(Seq::<LineModel>::empty(), Seq::<Seq<char>>::empty(), width)
        =~= Seq::<Seq<char>>::empty());
    assert(Seq::<Seq<char>>::empty() + seq![p] =~= seq![p]);
    assert(Seq::<Seq<char>>::empty() + wrapped_lines(p, width) =~= wrapped_lines(p, width));
}

proof fn lemma_path_output_plain(
    path: Seq<char>,
    separator: Option<Seq<char>>,
    compact: bool,
    c: ColorsModel,
    width: Option<usize>,
    out: Seq<Seq<char>>,
)
    requires
        output_of(pretty_path_layout(path, separator, compact, c), true, width, out),
    ensures
        ({
            let l = pretty_path_layout(path, separator, compact, c)[0];
            out == if l.wrap {
                wrapped_lines(plain(l.spans), width)
            } else {
                seq![plain(l.spans)]
            }
        }),
{
    let lines = pretty_path_layout(path, separator, compact, c);
    law_no_color_output_is_plain(lines, width, out);
    assert(lines.len() == 1);
    assert(lines =~= seq![lines[0]]);
    assert(plain_texts(lines) =~= seq![plain(lines[0].spans)]);
    lemma_one_line_out(lines[0], plain(lines[0].spans), width);
}

/// A path whose full line fits the terminal (or printed where the width is
/// unknown), with compact mode off, is printed (colour off) as exactly one
/// line: its components joined by the separator, without the root of a
/// longer path (see [`crate::reports::law_pretty_path_text`]).
pub proof fn law_fitting_path_is_printed_in_full(
    m: OutputModel,
    path: Seq<char>,
    separator: Option<Seq<char>>,
    c: ColorsModel,
    out: Seq<Seq<char>>,
)
    requires
        !m.compact,
        m.width matches Some(w) ==> byte_len(full_path_text(path, separator, c)) <= w,
        output_of(
            pretty_path_layout(path, separator, shows_compact(m, path, separator, c), c),
            true,
            m.width,
            out,
        ),
    ensures
        out == seq![full_path_text(path, separator, c)],
        full_path_text(path, separator, c) == if components(path).len() == 0 {
            "/"@
        } else if components(path).len() > 1 && components(path)[0] == "/"@ {
            joined_with(shown_texts(components(path), false).drop_first(), match separator {
                Some(s) => s,
                None => "/"@,
            })
        } else {
            joined_with(shown_texts(components(path), false), match separator {
                Some(s) => s,
                None => "/"@,
            })
        },
{
    assert(!shows_compact(m, path, separator, c));
    lemma_path_output_plain(path, separator, false, c, m.width, out);
    law_fitting_text_is_one_line(full_path_text(path, separator, c), m.width);
    law_pretty_path_text(path, separator, false, c);
}

/// A path shown in compact mode (compact mode on, or its full line wider
/// than the terminal) is printed, colour off, as exactly one line: its
/// components abbreviated except the last, which is shown whole.
pub proof fn law_compact_path_is_one_line(
    m: OutputModel,
    path: Seq<char>,
    separator: Option<Seq<char>>,
    c: ColorsModel,
    out: Seq<Seq<char>>,
)
    requires
        shows_compact(m, path, separator, c),
        output_of(pretty_path_layout(path, separator, true, c), true, m.width, out),
    ensures
        out == seq![plain(pretty_path_layout(path, separator, true, c)[0].spans)],
        components(path).len() > 0 ==> shown_texts(components(path), true).last() == components(
            path,
        ).last(),
{
    lemma_path_output_plain(path, separator, true, c, m.width, out);
    law_pretty_path_text(path, separator, true, c);
}

} // verus!
