//! Colour themes: the five built-in palettes, the current choice, and
//! painting text in a palette colour through the `colored` crate.
use vstd::prelude::*;

use crate::text::{digit_char, owned, same_text};

verus! {

/// The colours of a theme as plain values.
pub struct ColorsModel {
    pub root_path: Seq<char>,
    pub path_component: Seq<char>,
    pub current_directory: Seq<char>,
    pub separator: Seq<char>,
    pub git_branch: Seq<char>,
    pub git_clean: Seq<char>,
    pub git_dirty: Seq<char>,
    pub info_label: Seq<char>,
    pub info_value: Seq<char>,
    pub error: Seq<char>,
}

/// A theme as plain values.
pub struct ThemeModel {
    pub name: Seq<char>,
    pub description: Seq<char>,
    pub colors: ColorsModel,
}

/// The colour name used for each part of the output.
pub struct ThemeColors {
    pub root_path: String,
    pub path_component: String,
    pub current_directory: String,
    pub separator: String,
    pub git_branch: String,
    pub git_clean: String,
    pub git_dirty: String,
    pub info_label: String,
    pub info_value: String,
    pub error: String,
}

impl View for ThemeColors {
    type V = ColorsModel;

    open spec fn view(&self) -> ColorsModel {
        ColorsModel {
            root_path: self.root_path@,
            path_component: self.path_component@,
            current_directory: self.current_directory@,
            separator: self.separator@,
            git_branch: self.git_branch@,
            git_clean: self.git_clean@,
            git_dirty: self.git_dirty@,
            info_label: self.info_label@,
            info_value: self.info_value@,
            error: self.error@,
        }
    }
}

/// A named colour theme.
pub struct Theme {
    pub name: String,
    pub description: String,
    pub colors: ThemeColors,
}

impl View for Theme {
    type V = ThemeModel;

    open spec fn view(&self) -> ThemeModel {
        ThemeModel { name: self.name@, description: self.description@, colors: self.colors@ }
    }
}

/// A theme from its ten colour names, in the order of [`ColorsModel`]'s fields.
pub open spec fn theme_model(
    name: Seq<char>,
    description: Seq<char>,
    c: (Seq<char>, Seq<char>, Seq<char>, Seq<char>, Seq<char>),
    d: (Seq<char>, Seq<char>, Seq<char>, Seq<char>, Seq<char>),
) -> ThemeModel {
    ThemeModel {
        name,
        description,
        colors: ColorsModel {
            root_path: c.0,
            path_component: c.1,
            current_directory: c.2,
            separator: c.3,
            git_branch: c.4,
            git_clean: d.0,
            git_dirty: d.1,
            info_label: d.2,
            info_value: d.3,
            error: d.4,
        },
    }
}

/// The built-in themes, in the order in which they are listed.
pub open spec fn builtin_themes() -> Seq<ThemeModel> {
    seq![
        theme_model(
            "default"@,
            "Classic powder color scheme with bright colors"@,
            ("bright_blue"@, "bright_white"@, "bright_yellow"@, "bright_black"@, "bright_yellow"@),
            ("bright_green"@, "bright_red"@, "green"@, "bright_white"@, "red"@),
        ),
        theme_model(
            "ocean"@,
            "Calming blue-green oceanic color palette"@,
            ("blue"@, "cyan"@, "bright_cyan"@, "blue"@, "bright_blue"@),
            ("green"@, "bright_red"@, "blue"@, "bright_cyan"@, "red"@),
        ),
        theme_model(
            "forest"@,
            "Natural green forest-inspired colors"@,
            ("green"@, "bright_green"@, "bright_yellow"@, "green"@, "yellow"@),
            ("bright_green"@, "red"@, "green"@, "bright_white"@, "red"@),
        ),
        theme_model(
            "sunset"@,
            "Warm sunset colors with oranges and reds"@,
            ("red"@, "yellow"@, "bright_red"@, "red"@, "bright_yellow"@),
            ("green"@, "bright_red"@, "red"@, "bright_yellow"@, "bright_red"@),
        ),
        theme_model(
            "mono"@,
            "Minimalist monochrome grayscale theme"@,
            ("bright_white"@, "white"@, "bright_white"@, "bright_black"@, "white"@),
            ("white"@, "bright_white"@, "white"@, "bright_white"@, "white"@),
        ),
    ]
}

/// The name of the theme that is current at first.
pub open spec fn default_theme_name() -> Seq<char> {
    "default"@
}

/// The names of a sequence of themes.
pub open spec fn theme_names(ts: Seq<ThemeModel>) -> Seq<Seq<char>> {
    ts.map_values(|t: ThemeModel| t.name)
}

/// Some theme of `ts` is called `name`.
pub open spec fn has_theme(ts: Seq<ThemeModel>, name: Seq<char>) -> bool {
    exists|i: int| 0 <= i < ts.len() && (#[trigger] ts[i]).name == name
}

/// The theme of `m` whose name is the current one.
pub open spec fn current_of(m: ThemeManagerModel) -> ThemeModel {
    m.themes[choose|i: int| 0 <= i < m.themes.len() && (#[trigger] m.themes[i]).name == m.current]
}

/// The abstract state of a [`ThemeManager`].
pub struct ThemeManagerModel {
    /// The available themes, in listing order.
    pub themes: Seq<ThemeModel>,
    /// The name of the current theme.
    pub current: Seq<char>,
}

/// The error message for a theme name that no theme has.
pub open spec fn theme_not_found(name: Seq<char>) -> Seq<char> {
    "Theme '"@ + name + "' not found"@
}

/// The available themes and the current one.
pub struct ThemeManager {
    themes: Vec<Theme>,
    current_theme: String,
}

impl View for ThemeManager {
    type V = ThemeManagerModel;

    closed spec fn view(&self) -> ThemeManagerModel {
        ThemeManagerModel {
            themes: self.themes@.map_values(|t: Theme| t@),
            current: self.current_theme@,
        }
    }
}

/// Every theme has its own name, and the current theme is one of them.
pub open spec fn manager_well_formed(m: ThemeManagerModel) -> bool {
    &&& theme_names(m.themes).no_duplicates()
    &&& has_theme(m.themes, m.current)
}

// ---------------------------------------------------------------------------
// Colours

/// The `colored` colour name for one of the palette's colour names: the
/// sixteen terminal colours, written with `_` between words.
pub open spec fn colored_name(name: Seq<char>) -> Option<Seq<char>> {
    if name == "black"@ {
        Some("black"@)
    } else if name == "red"@ {
        Some("red"@)
    } else if name == "green"@ {
        Some("green"@)
    } else if name == "yellow"@ {
        Some("yellow"@)
    } else if name == "blue"@ {
        Some("blue"@)
    } else if name == "magenta"@ {
        Some("magenta"@)
    } else if name == "cyan"@ {
        Some("cyan"@)
    } else if name == "white"@ {
        Some("white"@)
    } else if name == "bright_black"@ {
        Some("bright black"@)
    } else if name == "bright_red"@ {
        Some("bright red"@)
    } else if name == "bright_green"@ {
        Some("bright green"@)
    } else if name == "bright_yellow"@ {
        Some("bright yellow"@)
    } else if name == "bright_blue"@ {
        Some("bright blue"@)
    } else if name == "bright_magenta"@ {
        Some("bright magenta"@)
    } else if name == "bright_cyan"@ {
        Some("bright cyan"@)
    } else if name == "bright_white"@ {
        Some("bright white"@)
    } else {
        None
    }
}

/// The SGR foreground code that `colored` writes for each of its colour names.
pub open spec fn fg_code(colored: Seq<char>) -> Seq<char> {
    if colored == "black"@ {
        "30"@
    } else if colored == "red"@ {
        "31"@
    } else if colored == "green"@ {
        "32"@
    } else if colored == "yellow"@ {
        "33"@
    } else if colored == "blue"@ {
        "34"@
    } else if colored == "magenta"@ {
        "35"@
    } else if colored == "cyan"@ {
        "36"@
    } else if colored == "white"@ {
        "37"@
    } else if colored == "bright black"@ {
        "90"@
    } else if colored == "bright red"@ {
        "91"@
    } else if colored == "bright green"@ {
        "92"@
    } else if colored == "bright yellow"@ {
        "93"@
    } else if colored == "bright blue"@ {
        "94"@
    } else if colored == "bright magenta"@ {
        "95"@
    } else if colored == "bright cyan"@ {
        "96"@
    } else {
        "97"@
    }
}

/// The names that `colored` maps to one of its sixteen terminal colours
/// and that this library uses.
pub open spec fn is_colored_name(colored: Seq<char>) -> bool {
    exists|name: Seq<char>| #[trigger] colored_name(name) == Some(colored)
}

/// The escape sequence that ends all styling.
pub open spec fn reset_seq() -> Seq<char> {
    seq!['\x1b', '[', '0', 'm']
}

/// The escape sequence that selects the foreground colour `code`.
pub open spec fn style_seq(code: Seq<char>) -> Seq<char> {
    seq!['\x1b', '['] + code + seq!['m']
}

/// `s` with `style` inserted after every reset sequence in it, so that text
/// after an inner reset keeps the colour.
pub open spec fn reapply_style(s: Seq<char>, style: Seq<char>) -> Seq<char>
    decreases s.len(),
{
    if s.len() >= 4 && s.take(4) == reset_seq() {
        reset_seq() + style + reapply_style(s.skip(4), style)
    } else if s.len() == 0 {
        s
    } else {
        seq![s[0]] + reapply_style(s.drop_first(), style)
    }
}

/// `text` painted in the foreground colour `code` as `colored` writes it.
pub open spec fn painted(code: Seq<char>, text: Seq<char>) -> Seq<char> {
    style_seq(code) + reapply_style(text, style_seq(code)) + reset_seq()
}

/// What painting `text` in the palette colour `color_name` may give: the
/// text itself when colour is off or the name is not a palette colour;
/// otherwise the text, or the text painted in that colour (which one depends
/// on whether `colored` colours its output, which it decides from the
/// environment and the terminal).
pub open spec fn paint_outcome(
    text: Seq<char>,
    color_name: Seq<char>,
    no_color: bool,
    r: Seq<char>,
) -> bool {
    if no_color || colored_name(color_name) is None {
        r == text
    } else {
        r == text || r == painted(fg_code(colored_name(color_name).unwrap()), text)
    }
}

/// Renders `text` in the foreground colour that `colored` calls
/// `colored_name`.
///
/// Calls `Colorize::color` of the `colored` crate with the name (which
/// `colored` parses into one of its sixteen colours) and `to_string` on the
/// result. `colored` writes the text alone when it decides not to colour
/// (from `NO_COLOR`, `CLICOLOR`, `CLICOLOR_FORCE`, whether standard output is
/// a terminal, or an override); otherwise the colour's escape sequence, the
/// text with the colour re-applied after each inner reset, and a reset.
/// Which of the two comes out is not stated. (The claim assumes that no other
/// thread switches colouring on or off during the call, since `colored`
/// consults the setting more than once while rendering.)
#[verifier::external_body]
fn colored_paint(text: &str, colored_name: &str) -> (r: String)
    requires
        is_colored_name(colored_name@),
    ensures
        r@ == text@ || r@ == painted(fg_code(colored_name@), text@),
{
    colored::Colorize::color(text, colored_name).to_string()
}

/// The `colored` colour name for a palette colour name, if it is one.
pub fn colored_name_of(name: &str) -> (r: Option<&'static str>)
    ensures
        match r {
            Some(c) => colored_name(name@) == Some(c@),
            None => colored_name(name@) is None,
        },
{
    if same_text(name, "black") {
        Some("black")
    } else if same_text(name, "red") {
        Some("red")
    } else if same_text(name, "green") {
        Some("green")
    } else if same_text(name, "yellow") {
        Some("yellow")
    } else if same_text(name, "blue") {
        Some("blue")
    } else if same_text(name, "magenta") {
        Some("magenta")
    } else if same_text(name, "cyan") {
        Some("cyan")
    } else if same_text(name, "white") {
        Some("white")
    } else if same_text(name, "bright_black") {
        Some("bright black")
    } else if same_text(name, "bright_red") {
        Some("bright red")
    } else if same_text(name, "bright_green") {
        Some("bright green")
    } else if same_text(name, "bright_yellow") {
        Some("bright yellow")
    } else if same_text(name, "bright_blue") {
        Some("bright blue")
    } else if same_text(name, "bright_magenta") {
        Some("bright magenta")
    } else if same_text(name, "bright_cyan") {
        Some("bright cyan")
    } else if same_text(name, "bright_white") {
        Some("bright white")
    } else {
        None
    }
}

/// Paints `text` in the palette colour `color_name`, or leaves it plain when
/// `no_color` is set or the name is not a palette colour.
pub fn paint(text: &str, color_name: &str, no_color: bool) -> (r: String)
    ensures
        paint_outcome(text@, color_name@, no_color, r@),
{
    if no_color {
        return owned(text);
    }
    match colored_name_of(color_name) {
        Some(c) => {
            assert(colored_name(color_name@) == Some(c@));
            colored_paint(text, c)
        },
        None => owned(text),
    }
}

// ---------------------------------------------------------------------------
// The manager

/// A theme built from string literals.
fn make_theme(
    name: &str,
    description: &str,
    c: (&str, &str, &str, &str, &str),
    d: (&str, &str, &str, &str, &str),
) -> (t: Theme)
    ensures
        t@ == theme_model(
            name@,
            description@,
            (c.0@, c.1@, c.2@, c.3@, c.4@),
            (d.0@, d.1@, d.2@, d.3@, d.4@),
        ),
{
    Theme {
        name: owned(name),
        description: owned(description),
        colors: ThemeColors {
            root_path: owned(c.0),
            path_component: owned(c.1),
            current_directory: owned(c.2),
            separator: owned(c.3),
            git_branch: owned(c.4),
            git_clean: owned(d.0),
            git_dirty: owned(d.1),
            info_label: owned(d.2),
            info_value: owned(d.3),
            error: owned(d.4),
        },
    }
}

proof fn lemma_builtin_names()
    ensures
        theme_names(builtin_themes()) == seq!["default"@, "ocean"@, "forest"@, "sunset"@, "mono"@],
        theme_names(builtin_themes()).no_duplicates(),
        has_theme(builtin_themes(), default_theme_name()),
{
    reveal_strlit("default");
    reveal_strlit("ocean");
    reveal_strlit("forest");
    reveal_strlit("sunset");
    reveal_strlit("mono");
    let names = theme_names(builtin_themes());
    assert(names =~= seq!["default"@, "ocean"@, "forest"@, "sunset"@, "mono"@]);
    assert("default"@[0] == 'd');
    assert("ocean"@[0] == 'o');
    assert("forest"@[0] == 'f');
    assert("sunset"@[0] == 's');
    assert("mono"@[0] == 'm');
    assert(builtin_themes()[0].name == default_theme_name());
}

impl ThemeManager {
    #[verifier::type_invariant]
    spec fn inv(&self) -> bool {
        manager_well_formed(self@)
    }

    /// The manager with the five built-in themes, `default` current.
    pub fn new() -> (m: ThemeManager)
        ensures
            m@.themes == builtin_themes(),
            m@.current == default_theme_name(),
    {
        let mut themes: Vec<Theme> = Vec::new();
        themes.push(
            make_theme(
                "default",
                "Classic powder color scheme with bright colors",
                ("bright_blue", "bright_white", "bright_yellow", "bright_black", "bright_yellow"),
                ("bright_green", "bright_red", "green", "bright_white", "red"),
            ),
        );
        themes.push(
            make_theme(
                "ocean",
                "Calming blue-green oceanic color palette",
                ("blue", "cyan", "bright_cyan", "blue", "bright_blue"),
                ("green", "bright_red", "blue", "bright_cyan", "red"),
            ),
        );
        themes.push(
            make_theme(
                "forest",
                "Natural green forest-inspired colors",
                ("green", "bright_green", "bright_yellow", "green", "yellow"),
                ("bright_green", "red", "green", "bright_white", "red"),
            ),
        );
        themes.push(
            make_theme(
                "sunset",
                "Warm sunset colors with oranges and reds",
                ("red", "yellow", "bright_red", "red", "bright_yellow"),
                ("green", "bright_red", "red", "bright_yellow", "bright_red"),
            ),
        );
        themes.push(
            make_theme(
                "mono",
                "Minimalist monochrome grayscale theme",
                ("bright_white", "white", "bright_white", "bright_black", "white"),
                ("white", "bright_white", "white", "bright_white", "white"),
            ),
        );
        assert(themes@.map_values(|t: Theme| t@) =~= builtin_themes());
        proof {
            lemma_builtin_names();
        }
        ThemeManager { themes, current_theme: owned("default") }
    }

    /// Where the theme called `name` stands, if any theme has that name.
    fn find(&self, name: &str) -> (r: Option<usize>)
        ensures
            match r {
                Some(i) => i < self@.themes.len() && self@.themes[i as int].name == name@,
                None => !has_theme(self@.themes, name@),
            },
    {
        let n = self.themes.len();
        let mut i: usize = 0;
        while i < n
            invariant
                i <= n == self@.themes.len(),
                forall|j: int| 0 <= j < i ==> (#[trigger] self@.themes[j]).name != name@,
            decreases n - i,
        {
            assert(self@.themes[i as int] == self.themes@[i as int]@);
            if same_text(self.themes[i].name.as_str(), name) {
                return Some(i);
            }
            i = i + 1;
        }
        None
    }

    /// The theme called `name`, if there is one.
    pub fn get_theme(&self, name: &str) -> (r: Option<&Theme>)
        ensures
            match r {
                Some(t) => t@.name == name@ && self@.themes.contains(t@),
                None => !has_theme(self@.themes, name@),
            },
    {
        match self.find(name) {
            Some(i) => {
                assert(self@.themes[i as int] == self.themes@[i as int]@);
                Some(&self.themes[i])
            },
            None => None,
        }
    }

    /// The current theme.
    pub fn get_current_theme(&self) -> (r: &Theme)
        ensures
            r@ == current_of(self@),
            r@.name == self@.current,
            self@.themes.contains(r@),
            theme_names(self@.themes).no_duplicates(),
    {
        proof {
            use_type_invariant(self);
        }
        match self.find(self.current_theme.as_str()) {
            Some(i) => {
                assert(self@.themes[i as int] == self.themes@[i as int]@);
                proof {
                    let m = self@;
                    let j = choose|j: int| 0 <= j < m.themes.len() && (#[trigger] m.themes[j]).name == m.current;
                    assert(theme_names(m.themes)[i as int] == m.themes[i as int].name);
                    assert(theme_names(m.themes)[j] == m.themes[j].name);
                }
                &self.themes[i]
            },
            None => {
                proof {
                    assert(false);
                }
                &self.themes[0]
            },
        }
    }

    /// Makes the theme called `name` current; fails, changing nothing, when
    /// no theme has that name.
    pub fn set_theme(&mut self, name: &str) -> (r: Result<(), String>)
        ensures
            final(self)@.themes == old(self)@.themes,
            r is Ok <==> has_theme(old(self)@.themes, name@),
            final(self)@ == set_step(old(self)@, name@),
            match r {
                Ok(()) => final(self)@.current == name@,
                Err(e) => e@ == theme_not_found(name@) && final(self)@.current == old(
                    self,
                )@.current,
            },
    {
        proof {
            use_type_invariant(&*self);
        }
        match self.find(name) {
            Some(i) => {
                self.current_theme = owned(name);
                Ok(())
            },
            None => {
                let mut e = owned("Theme '");
                e.append(name);
                e.append("' not found");
                Err(e)
            },
        }
    }

    /// All themes, in listing order.
    pub fn list_themes(&self) -> (r: Vec<&Theme>)
        ensures
            r@.map_values(|t: &Theme| t@) == self@.themes,
            theme_names(self@.themes).no_duplicates(),
    {
        proof {
            use_type_invariant(self);
        }
        let mut r: Vec<&Theme> = Vec::new();
        let n = self.themes.len();
        let mut i: usize = 0;
        while i < n
            invariant
                i <= n == self@.themes.len(),
                r@.map_values(|t: &Theme| t@) == self@.themes.take(i as int),
            decreases n - i,
        {
            let ghost before = r@.map_values(|t: &Theme| t@);
            r.push(&self.themes[i]);
            assert(r@.map_values(|t: &Theme| t@) =~= before.push(self@.themes[i as int]));
            assert(self@.themes.take(i + 1) =~= self@.themes.take(i as int).push(
                self@.themes[i as int],
            ));
            i = i + 1;
        }
        assert(self@.themes.take(n as int) =~= self@.themes);
        r
    }

    /// Paints `text` in the palette colour `color_name` (see [`paint`]).
    pub fn apply_color(&self, text: &str, color_name: &str, no_color: bool) -> (r: String)
        ensures
            paint_outcome(text@, color_name@, no_color, r@),
    {
        paint(text, color_name, no_color)
    }
}

impl Default for ThemeManager {
    /// The same as [`ThemeManager::new`].
    fn default() -> (m: ThemeManager)
        ensures
            m@.themes == builtin_themes(),
            m@.current == default_theme_name(),
    {
        ThemeManager::new()
    }
}

/// The built-in themes have distinct names, and `default` is one of them.
pub proof fn law_builtin_themes_well_formed()
    ensures
        manager_well_formed(
            ThemeManagerModel { themes: builtin_themes(), current: default_theme_name() },
        ),
        theme_names(builtin_themes()) == seq!["default"@, "ocean"@, "forest"@, "sunset"@, "mono"@],
{
    lemma_builtin_names();
}

/// With colour off, painting gives the text back unchanged, whatever the colour.
pub proof fn law_no_color_is_plain(text: Seq<char>, color_name: Seq<char>, r: Seq<char>)
    requires
        paint_outcome(text, color_name, true, r),
    ensures
        r == text,
{
}

/// After a theme is chosen by a name that some theme has, the current theme
/// is the theme of that name.
pub proof fn law_chosen_theme_is_current(themes: Seq<ThemeModel>, name: Seq<char>)
    requires
        has_theme(themes, name),
    ensures
        current_of(ThemeManagerModel { themes, current: name }).name == name,
        themes.contains(current_of(ThemeManagerModel { themes, current: name })),
{
    let m = ThemeManagerModel { themes, current: name };
    let i = choose|i: int| 0 <= i < m.themes.len() && (#[trigger] m.themes[i]).name == m.current;
    assert(current_of(m) == themes[i]);
}

/// The manager after `set_theme(name)`: `name` current when some theme has
/// that name, else unchanged.
pub open spec fn set_step(m: ThemeManagerModel, name: Seq<char>) -> ThemeManagerModel {
    if has_theme(m.themes, name) {
        ThemeManagerModel { themes: m.themes, current: name }
    } else {
        m
    }
}

/// The manager after `set_theme` with each of `names` in turn.
pub open spec fn set_steps(m: ThemeManagerModel, names: Seq<Seq<char>>) -> ThemeManagerModel
    decreases names.len(),
{
    if names.len() == 0 {
        m
    } else {
        set_step(set_steps(m, names.drop_last()), names.last())
    }
}

/// After any run of `set_theme` calls, successful or not, the themes are
/// unchanged, the manager stays well formed, and the current theme is the
/// one named by the last call that succeeded, or the one before the run when
/// none did.
pub proof fn law_current_is_last_chosen(m: ThemeManagerModel, names: Seq<Seq<char>>)
    requires
        manager_well_formed(m),
    ensures
        set_steps(m, names).themes == m.themes,
        manager_well_formed(set_steps(m, names)),
        (forall|i: int| 0 <= i < names.len() ==> !has_theme(m.themes, #[trigger] names[i]))
            ==> set_steps(m, names).current == m.current,
        forall|i: int|
            0 <= i < names.len() && has_theme(m.themes, #[trigger] names[i]) && (forall|j: int|
                i < j < names.len() ==> !has_theme(m.themes, #[trigger] names[j]))
                ==> set_steps(m, names).current == names[i],
    decreases names.len(),
{
    if names.len() > 0 {
        let init = names.drop_last();
        law_current_is_last_chosen(m, init);
        let last = names.last();
        assert(names[names.len() - 1] == last);
        if has_theme(m.themes, last) {
            assert forall|i: int|
                0 <= i < names.len() && has_theme(m.themes, #[trigger] names[i]) && (forall|j: int|
                    i < j < names.len() ==> !has_theme(m.themes, #[trigger] names[j]))
                    implies set_steps(m, names).current == names[i] by {
                if i < names.len() - 1 {
                    assert(!has_theme(m.themes, names[names.len() - 1]));
                }
            }
        } else {
            assert forall|i: int|
                0 <= i < names.len() && has_theme(m.themes, #[trigger] names[i]) && (forall|j: int|
                    i < j < names.len() ==> !has_theme(m.themes, #[trigger] names[j]))
                    implies set_steps(m, names).current == names[i] by {
                assert(i < names.len() - 1);
                assert(init[i] == names[i]);
                assert forall|j: int| i < j < init.len() implies !has_theme(
                    m.themes,
                    #[trigger] init[j],
                ) by {
                    assert(init[j] == names[j]);
                }
            }
        }
        if forall|i: int| 0 <= i < names.len() ==> !has_theme(m.themes, #[trigger] names[i]) {
            assert forall|i: int| 0 <= i < init.len() implies !has_theme(
                m.themes,
                #[trigger] init[i],
            ) by {
                assert(init[i] == names[i]);
            }
        }
    }
}

/// `name` with every `_` written as a space.
pub open spec fn underscores_as_spaces(name: Seq<char>) -> Seq<char> {
    name.map_values(|ch: char| if ch == '_' { ' ' } else { ch })
}

/// The eight terminal colours, in the order of their ANSI codes.
pub open spec fn ansi_colors() -> Seq<Seq<char>> {
    seq!["black"@, "red"@, "green"@, "yellow"@, "blue"@, "magenta"@, "cyan"@, "white"@]
}

/// A palette colour name stands for the terminal colour of the same name:
/// `colored` is asked for the palette name with `_` read as a space.
pub proof fn law_palette_name_is_colour_name(name: Seq<char>)
    ensures
        colored_name(name) matches Some(x) ==> x == underscores_as_spaces(name),
{
    if name == "black"@ {
        reveal_strlit("black");
        reveal_strlit("black");
        assert(underscores_as_spaces(name) =~= "black"@);
    } else if name == "red"@ {
        reveal_strlit("red");
        reveal_strlit("red");
        assert(underscores_as_spaces(name) =~= "red"@);
    } else if name == "green"@ {
        reveal_strlit("green");
        reveal_strlit("green");
        assert(underscores_as_spaces(name) =~= "green"@);
    } else if name == "yellow"@ {
        reveal_strlit("yellow");
        reveal_strlit("yellow");
        assert(underscores_as_spaces(name) =~= "yellow"@);
    } else if name == "blue"@ {
        reveal_strlit("blue");
        reveal_strlit("blue");
        assert(underscores_as_spaces(name) =~= "blue"@);
    } else if name == "magenta"@ {
        reveal_strlit("magenta");
        reveal_strlit("magenta");
        assert(underscores_as_spaces(name) =~= "magenta"@);
    } else if name == "cyan"@ {
        reveal_strlit("cyan");
        reveal_strlit("cyan");
        assert(underscores_as_spaces(name) =~= "cyan"@);
    } else if name == "white"@ {
        reveal_strlit("white");
        reveal_strlit("white");
        assert(underscores_as_spaces(name) =~= "white"@);
    } else if name == "bright_black"@ {
        reveal_strlit("bright_black");
        reveal_strlit("bright black");
        assert(underscores_as_spaces(name) =~= "bright black"@);
    } else if name == "bright_red"@ {
        reveal_strlit("bright_red");
        reveal_strlit("bright red");
        assert(underscores_as_spaces(name) =~= "bright red"@);
    } else if name == "bright_green"@ {
        reveal_strlit("bright_green");
        reveal_strlit("bright green");
        assert(underscores_as_spaces(name) =~= "bright green"@);
    } else if name == "bright_yellow"@ {
        reveal_strlit("bright_yellow");
        reveal_strlit("bright yellow");
        assert(underscores_as_spaces(name) =~= "bright yellow"@);
    } else if name == "bright_blue"@ {
        reveal_strlit("bright_blue");
        reveal_strlit("bright blue");
        assert(underscores_as_spaces(name) =~= "bright blue"@);
    } else if name == "bright_magenta"@ {
        reveal_strlit("bright_magenta");
        reveal_strlit("bright magenta");
        assert(underscores_as_spaces(name) =~= "bright magenta"@);
    } else if name == "bright_cyan"@ {
        reveal_strlit("bright_cyan");
        reveal_strlit("bright cyan");
        assert(underscores_as_spaces(name) =~= "bright cyan"@);
    } else if name == "bright_white"@ {
        reveal_strlit("bright_white");
        reveal_strlit("bright white");
        assert(underscores_as_spaces(name) =~= "bright white"@);
    }
}

/// The sixteen palette colours are the eight terminal colours and their
/// bright forms, and painting in the `k`-th of them uses SGR code `3k`, or
/// `9k` for its bright form.
pub proof fn law_palette_codes(k: int)
    requires
        0 <= k < 8,
    ensures
        colored_name(ansi_colors()[k]) == Some(ansi_colors()[k]),
        fg_code(ansi_colors()[k]) == seq!['3', digit_char(k as nat)],
        colored_name("bright_"@ + ansi_colors()[k]) == Some("bright "@ + ansi_colors()[k]),
        fg_code("bright "@ + ansi_colors()[k]) == seq!['9', digit_char(k as nat)],
{
    if k == 0 {
        reveal_strlit("black");
        assert(ansi_colors()[k] == "black"@);
        lemma_palette_code_black();
    } else if k == 1 {
        reveal_strlit("red");
        assert(ansi_colors()[k] == "red"@);
        lemma_palette_code_red();
    } else if k == 2 {
        reveal_strlit("green");
        assert(ansi_colors()[k] == "green"@);
        lemma_palette_code_green();
    } else if k == 3 {
        reveal_strlit("yellow");
        assert(ansi_colors()[k] == "yellow"@);
        lemma_palette_code_yellow();
    } else if k == 4 {
        reveal_strlit("blue");
        assert(ansi_colors()[k] == "blue"@);
        lemma_palette_code_blue();
    } else if k == 5 {
        reveal_strlit("magenta");
        assert(ansi_colors()[k] == "magenta"@);
        lemma_palette_code_magenta();
    } else if k == 6 {
        reveal_strlit("cyan");
        assert(ansi_colors()[k] == "cyan"@);
        lemma_palette_code_cyan();
    } else {
        reveal_strlit("white");
        assert(ansi_colors()[k] == "white"@);
        lemma_palette_code_white();
    }
}

proof fn lemma_palette_code_black()
    ensures
        colored_name("black"@) == Some("black"@),
        fg_code("black"@) == seq!['3', digit_char(0)],
        colored_name("bright_"@ + "black"@) == Some("bright "@ + "black"@),
        fg_code("bright "@ + "black"@) == seq!['9', digit_char(0)],
{
    reveal_strlit("bright_");
    reveal_strlit("bright ");
    reveal_strlit("30");
    reveal_strlit("90");
    reveal_strlit("black");
    reveal_strlit("bright_black");
    reveal_strlit("bright black");
    reveal_strlit("red");
    reveal_strlit("bright_red");
    reveal_strlit("bright red");
    reveal_strlit("green");
    reveal_strlit("bright_green");
    reveal_strlit("bright green");
    reveal_strlit("yellow");
    reveal_strlit("bright_yellow");
    reveal_strlit("bright yellow");
    reveal_strlit("blue");
    reveal_strlit("bright_blue");
    reveal_strlit("bright blue");
    reveal_strlit("magenta");
    reveal_strlit("bright_magenta");
    reveal_strlit("bright magenta");
    reveal_strlit("cyan");
    reveal_strlit("bright_cyan");
    reveal_strlit("bright cyan");
    reveal_strlit("white");
    reveal_strlit("bright_white");
    reveal_strlit("bright white");
    assert("bright_"@ + "black"@ =~= "bright_black"@);
    assert("bright "@ + "black"@ =~= "bright black"@);
    assert(colored_name("bright_black"@) == Some("bright black"@));
    assert(fg_code("bright black"@) == "90"@);
    assert("30"@ =~= seq!['3', digit_char(0)]);
    assert("90"@ =~= seq!['9', digit_char(0)]);
}

proof fn lemma_palette_code_red()
    ensures
        colored_name("red"@) == Some("red"@),
        fg_code("red"@) == seq!['3', digit_char(1)],
        colored_name("bright_"@ + "red"@) == Some("bright "@ + "red"@),
        fg_code("bright "@ + "red"@) == seq!['9', digit_char(1)],
{
    reveal_strlit("bright_");
    reveal_strlit("bright ");
    reveal_strlit("31");
    reveal_strlit("91");
    reveal_strlit("black");
    reveal_strlit("bright_black");
    reveal_strlit("bright black");
    reveal_strlit("red");
    reveal_strlit("bright_red");
    reveal_strlit("bright red");
    reveal_strlit("green");
    reveal_strlit("bright_green");
    reveal_strlit("bright green");
    reveal_strlit("yellow");
    reveal_strlit("bright_yellow");
    reveal_strlit("bright yellow");
    reveal_strlit("blue");
    reveal_strlit("bright_blue");
    reveal_strlit("bright blue");
    reveal_strlit("magenta");
    reveal_strlit("bright_magenta");
    reveal_strlit("bright magenta");
    reveal_strlit("cyan");
    reveal_strlit("bright_cyan");
    reveal_strlit("bright cyan");
    reveal_strlit("white");
    reveal_strlit("bright_white");
    reveal_strlit("bright white");
    assert("bright_"@ + "red"@ =~= "bright_red"@);
    assert("bright "@ + "red"@ =~= "bright red"@);
    assert(colored_name("bright_red"@) == Some("bright red"@));
    assert(fg_code("bright red"@) == "91"@);
    assert("31"@ =~= seq!['3', digit_char(1)]);
    assert("91"@ =~= seq!['9', digit_char(1)]);
}

proof fn lemma_palette_code_green()
    ensures
        colored_name("green"@) == Some("green"@),
        fg_code("green"@) == seq!['3', digit_char(2)],
        colored_name("bright_"@ + "green"@) == Some("bright "@ + "green"@),
        fg_code("bright "@ + "green"@) == seq!['9', digit_char(2)],
{
    reveal_strlit("bright_");
    reveal_strlit("bright ");
    reveal_strlit("32");
    reveal_strlit("92");
    reveal_strlit("black");
    reveal_strlit("bright_black");
    reveal_strlit("bright black");
    reveal_strlit("red");
    reveal_strlit("bright_red");
    reveal_strlit("bright red");
    reveal_strlit("green");
    reveal_strlit("bright_green");
    reveal_strlit("bright green");
    reveal_strlit("yellow");
    reveal_strlit("bright_yellow");
    reveal_strlit("bright yellow");
    reveal_strlit("blue");
    reveal_strlit("bright_blue");
    reveal_strlit("bright blue");
    reveal_strlit("magenta");
    reveal_strlit("bright_magenta");
    reveal_strlit("bright magenta");
    reveal_strlit("cyan");
    reveal_strlit("bright_cyan");
    reveal_strlit("bright cyan");
    reveal_strlit("white");
    reveal_strlit("bright_white");
    reveal_strlit("bright white");
    assert("bright_"@ + "green"@ =~= "bright_green"@);
    assert("bright "@ + "green"@ =~= "bright green"@);
    assert("bright_green"@[7] != "bright_black"@[7]);
    assert("bright green"@[7] != "bright black"@[7]);
    assert("green"@[0] != "black"@[0]);
    assert("green"@[0] != "black"@[0]);
    assert(colored_name("bright_green"@) == Some("bright green"@));
    assert(fg_code("bright green"@) == "92"@);
    assert("32"@ =~= seq!['3', digit_char(2)]);
    assert("92"@ =~= seq!['9', digit_char(2)]);
}

proof fn lemma_palette_code_yellow()
    ensures
        colored_name("yellow"@) == Some("yellow"@),
        fg_code("yellow"@) == seq!['3', digit_char(3)],
        colored_name("bright_"@ + "yellow"@) == Some("bright "@ + "yellow"@),
        fg_code("bright "@ + "yellow"@) == seq!['9', digit_char(3)],
{
    reveal_strlit("bright_");
    reveal_strlit("bright ");
    reveal_strlit("33");
    reveal_strlit("93");
    reveal_strlit("black");
    reveal_strlit("bright_black");
    reveal_strlit("bright black");
    reveal_strlit("red");
    reveal_strlit("bright_red");
    reveal_strlit("bright red");
    reveal_strlit("green");
    reveal_strlit("bright_green");
    reveal_strlit("bright green");
    reveal_strlit("yellow");
    reveal_strlit("bright_yellow");
    reveal_strlit("bright yellow");
    reveal_strlit("blue");
    reveal_strlit("bright_blue");
    reveal_strlit("bright blue");
    reveal_strlit("magenta");
    reveal_strlit("bright_magenta");
    reveal_strlit("bright magenta");
    reveal_strlit("cyan");
    reveal_strlit("bright_cyan");
    reveal_strlit("bright cyan");
    reveal_strlit("white");
    reveal_strlit("bright_white");
    reveal_strlit("bright white");
    assert("bright_"@ + "yellow"@ =~= "bright_yellow"@);
    assert("bright "@ + "yellow"@ =~= "bright yellow"@);
    assert(colored_name("bright_yellow"@) == Some("bright yellow"@));
    assert(fg_code("bright yellow"@) == "93"@);
    assert("33"@ =~= seq!['3', digit_char(3)]);
    assert("93"@ =~= seq!['9', digit_char(3)]);
}

proof fn lemma_palette_code_blue()
    ensures
        colored_name("blue"@) == Some("blue"@),
        fg_code("blue"@) == seq!['3', digit_char(4)],
        colored_name("bright_"@ + "blue"@) == Some("bright "@ + "blue"@),
        fg_code("bright "@ + "blue"@) == seq!['9', digit_char(4)],
{
    reveal_strlit("bright_");
    reveal_strlit("bright ");
    reveal_strlit("34");
    reveal_strlit("94");
    reveal_strlit("black");
    reveal_strlit("bright_black");
    reveal_strlit("bright black");
    reveal_strlit("red");
    reveal_strlit("bright_red");
    reveal_strlit("bright red");
    reveal_strlit("green");
    reveal_strlit("bright_green");
    reveal_strlit("bright green");
    reveal_strlit("yellow");
    reveal_strlit("bright_yellow");
    reveal_strlit("bright yellow");
    reveal_strlit("blue");
    reveal_strlit("bright_blue");
    reveal_strlit("bright blue");
    reveal_strlit("magenta");
    reveal_strlit("bright_magenta");
    reveal_strlit("bright magenta");
    reveal_strlit("cyan");
    reveal_strlit("bright_cyan");
    reveal_strlit("bright cyan");
    reveal_strlit("white");
    reveal_strlit("bright_white");
    reveal_strlit("bright white");
    assert("bright_"@ + "blue"@ =~= "bright_blue"@);
    assert("bright "@ + "blue"@ =~= "bright blue"@);
    assert(colored_name("bright_blue"@) == Some("bright blue"@));
    assert(fg_code("bright blue"@) == "94"@);
    assert("34"@ =~= seq!['3', digit_char(4)]);
    assert("94"@ =~= seq!['9', digit_char(4)]);
}

proof fn lemma_palette_code_magenta()
    ensures
        colored_name("magenta"@) == Some("magenta"@),
        fg_code("magenta"@) == seq!['3', digit_char(5)],
        colored_name("bright_"@ + "magenta"@) == Some("bright "@ + "magenta"@),
        fg_code("bright "@ + "magenta"@) == seq!['9', digit_char(5)],
{
    reveal_strlit("bright_");
    reveal_strlit("bright ");
    reveal_strlit("35");
    reveal_strlit("95");
    reveal_strlit("black");
    reveal_strlit("bright_black");
    reveal_strlit("bright black");
    reveal_strlit("red");
    reveal_strlit("bright_red");
    reveal_strlit("bright red");
    reveal_strlit("green");
    reveal_strlit("bright_green");
    reveal_strlit("bright green");
    reveal_strlit("yellow");
    reveal_strlit("bright_yellow");
    reveal_strlit("bright yellow");
    reveal_strlit("blue");
    reveal_strlit("bright_blue");
    reveal_strlit("bright blue");
    reveal_strlit("magenta");
    reveal_strlit("bright_magenta");
    reveal_strlit("bright magenta");
    reveal_strlit("cyan");
    reveal_strlit("bright_cyan");
    reveal_strlit("bright cyan");
    reveal_strlit("white");
    reveal_strlit("bright_white");
    reveal_strlit("bright white");
    assert("bright_"@ + "magenta"@ =~= "bright_magenta"@);
    assert("bright "@ + "magenta"@ =~= "bright magenta"@);
    assert(colored_name("bright_magenta"@) == Some("bright magenta"@));
    assert(fg_code("bright magenta"@) == "95"@);
    assert("35"@ =~= seq!['3', digit_char(5)]);
    assert("95"@ =~= seq!['9', digit_char(5)]);
}

proof fn lemma_palette_code_cyan()
    ensures
        colored_name("cyan"@) == Some("cyan"@),
        fg_code("cyan"@) == seq!['3', digit_char(6)],
        colored_name("bright_"@ + "cyan"@) == Some("bright "@ + "cyan"@),
        fg_code("bright "@ + "cyan"@) == seq!['9', digit_char(6)],
{
    reveal_strlit("bright_");
    reveal_strlit("bright ");
    reveal_strlit("36");
    reveal_strlit("96");
    reveal_strlit("black");
    reveal_strlit("bright_black");
    reveal_strlit("bright black");
    reveal_strlit("red");
    reveal_strlit("bright_red");
    reveal_strlit("bright red");
    reveal_strlit("green");
    reveal_strlit("bright_green");
    reveal_strlit("bright green");
    reveal_strlit("yellow");
    reveal_strlit("bright_yellow");
    reveal_strlit("bright yellow");
    reveal_strlit("blue");
    reveal_strlit("bright_blue");
    reveal_strlit("bright blue");
    reveal_strlit("magenta");
    reveal_strlit("bright_magenta");
    reveal_strlit("bright magenta");
    reveal_strlit("cyan");
    reveal_strlit("bright_cyan");
    reveal_strlit("bright cyan");
    reveal_strlit("white");
    reveal_strlit("bright_white");
    reveal_strlit("bright white");
    assert("bright_"@ + "cyan"@ =~= "bright_cyan"@);
    assert("bright "@ + "cyan"@ =~= "bright cyan"@);
    assert("bright_cyan"@[7] != "bright_blue"@[7]);
    assert("bright cyan"@[7] != "bright blue"@[7]);
    assert("cyan"@[0] != "blue"@[0]);
    assert("cyan"@[0] != "blue"@[0]);
    assert(colored_name("bright_cyan"@) == Some("bright cyan"@));
    assert(fg_code("bright cyan"@) == "96"@);
    assert("36"@ =~= seq!['3', digit_char(6)]);
    assert("96"@ =~= seq!['9', digit_char(6)]);
}

proof fn lemma_palette_code_white()
    ensures
        colored_name("white"@) == Some("white"@),
        fg_code("white"@) == seq!['3', digit_char(7)],
        colored_name("bright_"@ + "white"@) == Some("bright "@ + "white"@),
        fg_code("bright "@ + "white"@) == seq!['9', digit_char(7)],
{
    reveal_strlit("bright_");
    reveal_strlit("bright ");
    reveal_strlit("37");
    reveal_strlit("97");
    reveal_strlit("black");
    reveal_strlit("bright_black");
    reveal_strlit("bright black");
    reveal_strlit("red");
    reveal_strlit("bright_red");
    reveal_strlit("bright red");
    reveal_strlit("green");
    reveal_strlit("bright_green");
    reveal_strlit("bright green");
    reveal_strlit("yellow");
    reveal_strlit("bright_yellow");
    reveal_strlit("bright yellow");
    reveal_strlit("blue");
    reveal_strlit("bright_blue");
    reveal_strlit("bright blue");
    reveal_strlit("magenta");
    reveal_strlit("bright_magenta");
    reveal_strlit("bright magenta");
    reveal_strlit("cyan");
    reveal_strlit("bright_cyan");
    reveal_strlit("bright cyan");
    reveal_strlit("white");
    reveal_strlit("bright_white");
    reveal_strlit("bright white");
    assert("bright_"@ + "white"@ =~= "bright_white"@);
    assert("bright "@ + "white"@ =~= "bright white"@);
    assert("bright_white"@[7] != "bright_black"@[7]);
    assert("bright_white"@[7] != "bright_green"@[7]);
    assert("bright white"@[7] != "bright black"@[7]);
    assert("bright white"@[7] != "bright green"@[7]);
    assert("white"@[0] != "black"@[0]);
    assert("white"@[0] != "green"@[0]);
    assert("white"@[0] != "black"@[0]);
    assert("white"@[0] != "green"@[0]);
    assert(colored_name("bright_white"@) == Some("bright white"@));
    assert(fg_code("bright white"@) == "97"@);
    assert("37"@ =~= seq!['3', digit_char(7)]);
    assert("97"@ =~= seq!['9', digit_char(7)]);
}

} // verus!
