//! A focus-or-start request as given on the command line, and its
//! serialisation into the wire format consumed by the KWin script:
//! `search && search && action;action`.

use vstd::prelude::*;

use crate::geometry::{parse_geometry, Geometry, GeometryError, GeometryFault};
use crate::matching::{escape_literal, escaped};
use crate::model::{
    action_views, criterion_text, pattern_of, wire_desktop, wire_index, Action, ActionView, Pattern,
    Search,
};
use crate::text::{join, join_strings, push_char, push_str, signed_decimal, texts};

verus! {

/// The options of one invocation. Regex options hold the source text of the
/// regex, which the command-line reader has already compiled and accepted.
#[derive(Debug, Clone)]
pub struct Config {
    /// executable program name
    pub program: Option<String>,
    /// command line arguments forwarded to the program
    pub args: Vec<String>,
    /// match the window resource class name
    pub class: Option<String>,
    /// match the window resource name
    pub name: Option<String>,
    /// match the window title
    pub title: Option<String>,
    /// desktop index (1-based)
    pub desktop: Option<i8>,
    /// move the window to the target desktop index (1-based)
    pub to_desktop: Option<i8>,
    /// move the window to the first screen matching the regex
    pub to_screen: Option<String>,
    /// set the target window geometry
    pub geometry: Option<String>,
    /// print the matched window id instead of activating it
    pub id: bool,
    /// print diagnostic messages to standard error
    pub verbose: bool,
}

impl Default for Config {
    /// No program, no arguments, no criteria and no actions.
    fn default() -> (config: Config)
        ensures
            config.program is None,
            config.args@.len() == 0,
            config.class is None,
            config.name is None,
            config.title is None,
            config.desktop is None,
            config.to_desktop is None,
            config.to_screen is None,
            config.geometry is None,
            !config.id,
            !config.verbose,
    {
        Config {
            program: None,
            args: Vec::new(),
            class: None,
            name: None,
            title: None,
            desktop: None,
            to_desktop: None,
            to_screen: None,
            geometry: None,
            id: false,
            verbose: false,
        }
    }
}

/// The wire texts of a list of search criteria.
pub open spec fn search_texts_of(search: Seq<Search>) -> Seq<Seq<char>> {
    search.map_values(|s: Search| s.text())
}

/// The wire texts of a list of actions.
pub open spec fn action_texts_of(actions: Seq<Action>) -> Seq<Seq<char>> {
    actions.map_values(|a: Action| a.text())
}

/// A one-element list holding the value, or the empty list.
pub open spec fn optional<T>(value: Option<T>) -> Seq<T> {
    match value {
        Some(v) => seq![v],
        None => Seq::empty(),
    }
}

/// The criterion written for an optional pattern option.
pub open spec fn pattern_criterion(field: Seq<char>, regex: Option<String>) -> Option<Seq<char>> {
    match regex {
        Some(r) => Some(criterion_text(field, pattern_of(r@))),
        None => None,
    }
}

impl Config {
    /// Name of the executable to focus or launch, if one was provided.
    pub fn program(&self) -> (program: Option<&str>)
        ensures
            match self.program {
                Some(p) => program matches Some(q) && q@ == p@,
                None => program is None,
            },
    {
        match &self.program {
            Some(p) => Some(p.as_str()),
            None => None,
        }
    }

    /// Arguments forwarded to the executable when it has to be launched.
    pub fn args(&self) -> (args: &[String])
        ensures
            args@ == self.args@,
    {
        self.args.as_slice()
    }

    /// Whether diagnostic messages should be printed to standard error.
    pub fn verbose(&self) -> (verbose: bool)
        ensures
            verbose == self.verbose,
    {
        self.verbose
    }

    /// Whether the matched window id should be printed instead of activating it.
    pub fn id(&self) -> (id: bool)
        ensures
            id == self.id,
    {
        self.id
    }

    /// Whether the request asks the KWin script anything: with neither a
    /// program nor a search criterion there is nothing to focus or start.
    pub fn needs_script(&self) -> (needed: bool)
        ensures
            needed == (self.program is Some || self.search_texts().len() > 0),
            needed == (self.program is Some || self.class is Some || self.name is Some
                || self.title is Some || self.desktop is Some),
    {
        self.program.is_some() || self.class.is_some() || self.name.is_some()
            || self.title.is_some() || self.desktop.is_some()
    }

    /// Whether a class, name or title pattern was given.
    pub open spec fn has_pattern(&self) -> bool {
        self.class is Some || self.name is Some || self.title is Some
    }

    /// The wire texts of the search criteria, in the order the script expects
    /// them: class, name, title, desktop (as a 0-based wire index).
    pub open spec fn search_texts(&self) -> Seq<Seq<char>> {
        optional(pattern_criterion("class"@, self.class)) + optional(
            pattern_criterion("name"@, self.name),
        ) + optional(pattern_criterion("title"@, self.title)) + optional(
            match self.desktop {
                Some(d) => Some("desktop="@ + signed_decimal(wire_index(d) as int)),
                None => None,
            },
        )
    }

    /// Search criteria explicitly requested on the command line, in the order
    /// the KWin script expects them.
    pub fn search(&self) -> (search: Vec<Search>)
        ensures
            search_texts_of(search@) == self.search_texts(),
    {
        let mut search: Vec<Search> = Vec::new();
        if let Some(class) = &self.class {
            search.push(Search::Class(Pattern::new(class.as_str())));
        }
        if let Some(name) = &self.name {
            search.push(Search::Name(Pattern::new(name.as_str())));
        }
        if let Some(title) = &self.title {
            search.push(Search::Title(Pattern::new(title.as_str())));
        }
        if let Some(desktop) = self.desktop {
            search.push(Search::Desktop(wire_desktop(desktop)));
        }
        assert(search_texts_of(search@) =~= self.search_texts());
        search
    }

    /// The wire texts of the actions: move to a desktop (0-based wire index),
    /// move to a screen, set the geometry, and `activate` last unless the id
    /// was asked for; or the fault of an invalid geometry.
    pub open spec fn action_texts(&self) -> Result<Seq<Seq<char>>, GeometryFault> {
        let head = optional(
            match self.to_desktop {
                Some(d) => Some("desktop="@ + signed_decimal(wire_index(d) as int)),
                None => None,
            },
        ) + optional(
            match self.to_screen {
                Some(s) => Some("screen="@ + s@),
                None => None,
            },
        );
        let tail = if self.id {
            Seq::empty()
        } else {
            seq!["activate"@]
        };
        match self.geometry {
            None => Ok(head + tail),
            Some(g) => match parse_geometry(g@) {
                Ok(tokens) => Ok(
                    head + seq!["geometry="@ + crate::geometry::geometry_text(tokens)] + tail,
                ),
                Err(fault) => Err(fault),
            },
        }
    }

    /// The actions themselves: move to the desktop (0-based wire index), move
    /// to the screen, set the parsed geometry, then `Activate` unless the id
    /// was asked for; or the fault of an invalid geometry.
    pub open spec fn action_values(&self) -> Result<Seq<ActionView>, GeometryFault> {
        let head = optional(
            match self.to_desktop {
                Some(d) => Some(ActionView::ToDesktop(wire_index(d))),
                None => None,
            },
        ) + optional(
            match self.to_screen {
                Some(s) => Some(ActionView::ToScreen(s@)),
                None => None,
            },
        );
        let tail = if self.id {
            Seq::empty()
        } else {
            seq![ActionView::Activate]
        };
        match self.geometry {
            None => Ok(head + tail),
            Some(g) => match parse_geometry(g@) {
                Ok(tokens) => Ok(head + seq![ActionView::Geometry(tokens)] + tail),
                Err(fault) => Err(fault),
            },
        }
    }

    /// Actions applied to the matched window. `activate` is always appended
    /// last unless `--id` was given, in which case the caller only wants the id.
    pub fn actions(&self) -> (actions: Result<Vec<Action>, GeometryError>)
        ensures
            match actions {
                Ok(list) => self.action_values() == Ok::<Seq<ActionView>, GeometryFault>(
                    action_views(list@),
                ) && self.action_texts() == Ok::<Seq<Seq<char>>, GeometryFault>(
                    action_texts_of(list@),
                ),
                Err(e) => self.action_values() == Err::<Seq<ActionView>, GeometryFault>(e@)
                    && self.action_texts() == Err::<Seq<Seq<char>>, GeometryFault>(e@),
            },
    {
        let mut actions: Vec<Action> = Vec::new();
        if let Some(to_desktop) = self.to_desktop {
            actions.push(Action::ToDesktop(wire_desktop(to_desktop)));
        }
        if let Some(to_screen) = &self.to_screen {
            actions.push(Action::ToScreen(to_screen.clone()));
        }
        let ghost head = action_texts_of(actions@);
        let ghost head_values = action_views(actions@);
        assert(head_values =~= optional(
            match self.to_desktop {
                Some(d) => Some(ActionView::ToDesktop(wire_index(d))),
                None => None,
            },
        ) + optional(
            match self.to_screen {
                Some(s) => Some(ActionView::ToScreen(s@)),
                None => None,
            },
        ));
        assert(head =~= optional(
            match self.to_desktop {
                Some(d) => Some("desktop="@ + signed_decimal(wire_index(d) as int)),
                None => None,
            },
        ) + optional(
            match self.to_screen {
                Some(s) => Some("screen="@ + s@),
                None => None,
            },
        ));
        if let Some(geometry) = &self.geometry {
            match Geometry::parse(geometry.as_str()) {
                Ok(tokens) => {
                    actions.push(Action::Geometry(tokens));
                    assert(action_texts_of(actions@) =~= head + seq!["geometry="@ + crate::geometry::geometry_text(tokens@)]);
                    assert(action_views(actions@) =~= head_values + seq![ActionView::Geometry(tokens@)]);
                },
                Err(e) => return Err(e),
            }
        }
        let ghost middle = action_texts_of(actions@);
        let ghost middle_values = action_views(actions@);
        if !self.id {
            actions.push(Action::Activate);
            assert(action_texts_of(actions@) =~= middle + seq!["activate"@]);
            assert(action_views(actions@) =~= middle_values + seq![ActionView::Activate]);
        } else {
            assert(middle + Seq::<Seq<char>>::empty() =~= middle);
            assert(middle_values + Seq::<ActionView>::empty() =~= middle_values);
        }
        assert(self.action_values() == Ok::<Seq<ActionView>, GeometryFault>(
            action_views(actions@),
        ));
        assert(self.action_texts() == Ok::<Seq<Seq<char>>, GeometryFault>(
            action_texts_of(actions@),
        ));
        Ok(actions)
    }

    /// The criterion added when no class, name or title pattern is given: the
    /// program's name must equal the window's resource name exactly.
    pub open spec fn default_criterion(&self) -> Seq<Seq<char>> {
        if !self.has_pattern() && self.program is Some {
            seq!["name=^"@ + escaped(self.program->0@) + "$"@]
        } else {
            Seq::empty()
        }
    }

    /// The request in the wire format of the KWin script: the criteria, each
    /// followed by `&&`, then the actions separated by `;`.
    pub open spec fn command_text(&self) -> Result<Seq<char>, GeometryFault> {
        match self.action_texts() {
            Ok(actions) => Ok(
                join(
                    self.default_criterion() + self.search_texts() + seq![join(actions, ";"@)],
                    "&&"@,
                ),
            ),
            Err(fault) => Err(fault),
        }
    }

    /// Serialises the request into the wire format consumed by the KWin
    /// script: `search && search && action;action`. When no class/name/title
    /// pattern is given the executable name is matched against the window, as
    /// documented (e.g. `dolphin` becomes `^dolphin$`); a bare `--desktop`
    /// filter does not displace this default.
    pub fn command(&self) -> (command: Result<String, GeometryError>)
        ensures
            match command {
                Ok(text) => self.command_text() == Ok::<Seq<char>, GeometryFault>(text@),
                Err(e) => self.command_text() == Err::<Seq<char>, GeometryFault>(e@),
            },
    {
        let mut parts: Vec<String> = Vec::new();
        let has_pattern = self.class.is_some() || self.name.is_some() || self.title.is_some();
        if !has_pattern {
            if let Some(program) = &self.program {
                let mut criterion = String::new();
                push_str(&mut criterion, "name=^");
                let escaped_program = escape_literal(program.as_str());
                push_str(&mut criterion, escaped_program.as_str());
                push_char(&mut criterion, '$');
                proof {
                    reveal_strlit("$");
                }
                assert(criterion@ =~= "name=^"@ + escaped(program@) + "$"@);
                parts.push(criterion);
            }
        }
        let search = self.search();
        let mut i: usize = 0;
        let ghost start = texts(parts@);
        assert(start =~= self.default_criterion());
        while i < search.len()
            invariant
                i <= search@.len(),
                search_texts_of(search@) == self.search_texts(),
                texts(parts@) == self.default_criterion() + self.search_texts().take(i as int),
            decreases search.len() - i,
        {
            parts.push(search[i].to_string());
            assert(texts(parts@) =~= self.default_criterion() + self.search_texts().take(i + 1));
            i += 1;
        }
        let actions = match self.actions() {
            Ok(actions) => actions,
            Err(e) => return Err(e),
        };
        let mut action_texts: Vec<String> = Vec::new();
        let mut k: usize = 0;
        while k < actions.len()
            invariant
                k <= actions@.len(),
                texts(action_texts@) == action_texts_of(actions@).take(k as int),
            decreases actions.len() - k,
        {
            let written = actions[k].to_string();
            assert(written@ == action_texts_of(actions@)[k as int]);
            let ghost before = action_texts@;
            action_texts.push(written);
            assert(texts(action_texts@) =~= texts(before).push(written@));
            assert(texts(action_texts@) =~= action_texts_of(actions@).take(k + 1));
            k += 1;
        }
        assert(texts(action_texts@) =~= action_texts_of(actions@));
        parts.push(join_strings(&action_texts, ";"));
        assert(self.search_texts().take(self.search_texts().len() as int) =~= self.search_texts());
        let ghost all = self.default_criterion() + self.search_texts();
        assert(texts(parts@) =~= all + seq![join(texts(action_texts@), ";"@)]);
        Ok(join_strings(&parts, "&&"))
    }
}


/// `activate` is the last action unless the id was asked for, and with the id
/// no action activates the window.
pub proof fn lemma_activate_unless_id(config: Config)
    ensures
        config.action_texts() matches Ok(actions) ==> {
            &&& !config.id ==> actions.len() > 0 && actions.last() == "activate"@
            &&& config.id ==> forall|i: int| 0 <= i < actions.len() ==> actions[i] != "activate"@
        },
        config.action_values() matches Ok(actions) ==> {
            &&& !config.id ==> actions.len() > 0 && actions.last() == ActionView::Activate
            &&& config.id ==> forall|i: int|
                0 <= i < actions.len() ==> actions[i] != ActionView::Activate
        },
        config.action_values() is Ok <==> config.action_texts() is Ok,
{
    reveal_strlit("activate");
    reveal_strlit("desktop=");
    reveal_strlit("screen=");
    reveal_strlit("geometry=");
    if let Ok(actions) = config.action_texts() {
        assert forall|i: int| config.id && 0 <= i < actions.len() implies actions[i]
            != "activate"@ by {
            // every other action starts with `d`, `s` or `g`
            assert(actions[i][0] != 'a');
        }
    }
}

/// The program's name stands in for a missing class, name or title pattern,
/// and only then: a desktop filter does not displace it.
pub proof fn lemma_program_default(config: Config)
    ensures
        config.default_criterion().len() == (if !config.has_pattern() && config.program is Some {
            1int
        } else {
            0int
        }),
        config.default_criterion().len() == 1 ==> config.default_criterion()[0] == "name=^"@
            + escaped(config.program->0@) + "$"@,
{
}


/// Any class, name or title pattern displaces the program's name: the
/// request is then the given criteria followed by the actions. Only with
/// none of the three does the program's name become the first criterion,
/// matched literally and in full against the window's resource name.
pub proof fn lemma_patterns_displace_program_name(config: Config)
    ensures
        (config.class is Some || config.name is Some || config.title is Some)
            ==> config.command_text() == (match config.action_texts() {
            Ok(actions) => Ok::<Seq<char>, GeometryFault>(
                join(config.search_texts() + seq![join(actions, ";"@)], "&&"@),
            ),
            Err(fault) => Err(fault),
        }),
        (config.class is None && config.name is None && config.title is None
            && config.program is Some) ==> config.command_text() == (match config.action_texts() {
            Ok(actions) => Ok::<Seq<char>, GeometryFault>(
                join(
                    seq!["name=^"@ + escaped(config.program->0@) + "$"@] + config.search_texts()
                        + seq![join(actions, ";"@)],
                    "&&"@,
                ),
            ),
            Err(fault) => Err(fault),
        }),
{
    let rest = config.search_texts();
    if config.class is Some || config.name is Some || config.title is Some {
        assert(config.default_criterion() =~= Seq::<Seq<char>>::empty());
        assert(Seq::<Seq<char>>::empty() + rest =~= rest);
    }
}

} // verus!
