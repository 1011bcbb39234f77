//! Window rules: match criteria (`class`/`title`) plus the actions applied to
//! a matching window, as read from the configuration file. They give the
//! target list the KWin script watches and the actions it applies to a window
//! that appears.

use vstd::prelude::*;

use crate::geometry::{geometry_text, parse_geometry, Geometry, GeometryError, GeometryFault};
use crate::matching::{compile, is_match, regex_compile_error, regex_is_match};
use crate::model::{
    action_views, criterion_text, pattern_of, wire_desktop, wire_index, Action, ActionView, Pattern,
    Search,
};
use crate::text::{chars_of, join, join_strings, signed_decimal, string_of_range, texts};

verus! {

/// One window rule. `to_desktop` is 1-based like the command line.
#[derive(Debug, Clone)]
pub struct Rule {
    /// Human-readable label, ignored by matching.
    pub label: Option<String>,
    /// Regex matched against the window's resource class; a leading `!`
    /// negates it.
    pub class: Option<String>,
    /// Regex matched against the window's caption; a leading `!` negates it.
    pub title: Option<String>,
    pub to_desktop: Option<i8>,
    pub to_screen: Option<String>,
    pub geometry: Option<String>,
}

/// Why a rule could not be applied.
#[derive(Debug, Clone, PartialEq, Eq)]
pub enum ConfigError {
    /// A regex of the rule does not compile; the error's text.
    Regex(String),
    /// The rule's geometry is invalid.
    Geometry(GeometryError),
}

/// The content of a [`ConfigError`].
pub enum ConfigFault {
    Regex(Seq<char>),
    Geometry(GeometryFault),
}

impl View for ConfigError {
    type V = ConfigFault;

    open spec fn view(&self) -> ConfigFault {
        match self {
            ConfigError::Regex(message) => ConfigFault::Regex(message@),
            ConfigError::Geometry(e) => ConfigFault::Geometry(e@),
        }
    }
}

/// The outcome of matching `text` against `matcher`, where a leading `!` in
/// `matcher` negates the regex after it: whether it matches, or the text of the
/// error when the regex does not compile.
pub open spec fn match_outcome(matcher: Seq<char>, text: Seq<char>) -> Result<bool, Seq<char>> {
    let p = pattern_of(matcher);
    match regex_compile_error(p.source) {
        Some(message) => Err(message),
        None => Ok(regex_is_match(p.source, text) != p.negated),
    }
}

/// Compiles a matcher, honouring a leading `!` as negation (mirroring the CLI
/// and the KWin script), then reports whether `text` matches.
fn matches(matcher: &str, text: &str) -> (res: Result<bool, String>)
    ensures
        match res {
            Ok(b) => match_outcome(matcher@, text@) == Ok::<bool, Seq<char>>(b),
            Err(m) => match_outcome(matcher@, text@) == Err::<bool, Seq<char>>(m@),
        },
{
    let chars = chars_of(matcher);
    let negated = chars.len() > 0 && chars[0] == '!';
    let source = if negated {
        string_of_range(&chars, 1, chars.len())
    } else {
        string_of_range(&chars, 0, chars.len())
    };
    assert(source@ =~= pattern_of(matcher@).source);
    match compile(source.as_str()) {
        Ok(re) => Ok(is_match(&re, text) != negated),
        Err(message) => Err(message),
    }
}

/// The criterion of a rule's pattern, or the error text when its regex does
/// not compile.
pub open spec fn criterion_outcome(field: Seq<char>, regex: Option<String>) -> Result<
    Seq<Seq<char>>,
    Seq<char>,
> {
    match regex {
        None => Ok(Seq::empty()),
        Some(r) => match regex_compile_error(r@) {
            Some(message) => Err(message),
            None => Ok(seq![criterion_text(field, pattern_of(r@))]),
        },
    }
}

impl Rule {
    /// Whether the rule has any match criteria.
    pub open spec fn has_criteria_spec(&self) -> bool {
        self.class is Some || self.title is Some
    }

    /// The wire texts of the rule's search criteria (class, then title).
    pub open spec fn search_outcome(&self) -> Result<Seq<Seq<char>>, Seq<char>> {
        match criterion_outcome("class"@, self.class) {
            Err(m) => Err(m),
            Ok(class) => match criterion_outcome("title"@, self.title) {
                Err(m) => Err(m),
                Ok(title) => Ok(class + title),
            },
        }
    }

    /// The wire texts of the rule's actions, in the order the command line
    /// emits them: desktop (0-based wire index), screen, geometry.
    pub open spec fn actions_outcome(&self) -> Result<Seq<Seq<char>>, GeometryFault> {
        let head = (match self.to_desktop {
            Some(d) => seq!["desktop="@ + signed_decimal(wire_index(d) as int)],
            None => Seq::empty(),
        }) + (match self.to_screen {
            Some(s) => seq!["screen="@ + s@],
            None => Seq::empty(),
        });
        match self.geometry {
            None => Ok(head),
            Some(g) => match parse_geometry(g@) {
                Ok(tokens) => Ok(head + seq!["geometry="@ + geometry_text(tokens)]),
                Err(fault) => Err(fault),
            },
        }
    }

    /// The rule's actions themselves, in the order the command line emits
    /// them: move to the desktop (0-based wire index), move to the screen,
    /// set the parsed geometry; never `Activate`.
    pub open spec fn action_values(&self) -> Result<Seq<ActionView>, GeometryFault> {
        let head = (match self.to_desktop {
            Some(d) => seq![ActionView::ToDesktop(wire_index(d))],
            None => Seq::empty(),
        }) + (match self.to_screen {
            Some(s) => seq![ActionView::ToScreen(s@)],
            None => Seq::empty(),
        });
        match self.geometry {
            None => Ok(head),
            Some(g) => match parse_geometry(g@) {
                Ok(tokens) => Ok(head + seq![ActionView::Geometry(tokens)]),
                Err(fault) => Err(fault),
            },
        }
    }

    /// Whether the rule applies to a window with the given caption and class:
    /// a rule without criteria never applies; otherwise the class pattern is
    /// checked first, then the title pattern against the caption.
    pub open spec fn match_window_outcome(&self, caption: Seq<char>, class: Seq<char>) -> Result<
        bool,
        Seq<char>,
    > {
        let title_outcome = match self.title {
            Some(p) => match_outcome(p@, caption),
            None => Ok(true),
        };
        if !self.has_criteria_spec() {
            Ok(false)
        } else {
            match self.class {
                Some(p) => match match_outcome(p@, class) {
                    Err(m) => Err(m),
                    Ok(false) => Ok(false),
                    Ok(true) => title_outcome,
                },
                None => title_outcome,
            }
        }
    }

    fn has_criteria(&self) -> (b: bool)
        ensures
            b == self.has_criteria_spec(),
    {
        self.class.is_some() || self.title.is_some()
    }

    /// The rule's match criteria as `Search` values, for the target list.
    fn search(&self) -> (res: Result<Vec<Search>, String>)
        ensures
            match res {
                Ok(search) => self.search_outcome() == Ok::<Seq<Seq<char>>, Seq<char>>(
                    crate::cmd::search_texts_of(search@),
                ),
                Err(m) => self.search_outcome() == Err::<Seq<Seq<char>>, Seq<char>>(m@),
            },
    {
        let mut search: Vec<Search> = Vec::new();
        if let Some(class) = &self.class {
            match compile(class.as_str()) {
                Ok(_) => {
                    search.push(Search::Class(Pattern::new(class.as_str())));
                    assert(crate::cmd::search_texts_of(search@) =~= seq![
                        criterion_text("class"@, pattern_of(class@)),
                    ]);
                },
                Err(m) => return Err(m),
            }
        } else {
            assert(crate::cmd::search_texts_of(search@) =~= Seq::<Seq<char>>::empty());
        }
        let ghost first = crate::cmd::search_texts_of(search@);
        if let Some(title) = &self.title {
            match compile(title.as_str()) {
                Ok(_) => {
                    search.push(Search::Title(Pattern::new(title.as_str())));
                    assert(crate::cmd::search_texts_of(search@) =~= first + seq![
                        criterion_text("title"@, pattern_of(title@)),
                    ]);
                },
                Err(m) => return Err(m),
            }
        } else {
            assert(first + Seq::<Seq<char>>::empty() =~= first);
        }
        assert(self.search_outcome() == Ok::<Seq<Seq<char>>, Seq<char>>(
            crate::cmd::search_texts_of(search@),
        ));
        Ok(search)
    }

    /// The rule's actions, in the same order the CLI emits them (minus the
    /// trailing `activate`, since the service places an already-open window).
    fn actions(&self) -> (res: Result<Vec<Action>, GeometryError>)
        ensures
            match res {
                Ok(actions) => self.actions_outcome() == Ok::<Seq<Seq<char>>, GeometryFault>(
                    crate::cmd::action_texts_of(actions@),
                ) && self.action_values() == Ok::<Seq<ActionView>, GeometryFault>(
                    action_views(actions@),
                ),
                Err(e) => self.actions_outcome() == Err::<Seq<Seq<char>>, GeometryFault>(e@)
                    && self.action_values() == Err::<Seq<ActionView>, GeometryFault>(e@),
            },
    {
        let mut actions: Vec<Action> = Vec::new();
        if let Some(desktop) = self.to_desktop {
            actions.push(Action::ToDesktop(wire_desktop(desktop)));
        }
        if let Some(screen) = &self.to_screen {
            actions.push(Action::ToScreen(screen.clone()));
        }
        let ghost head = crate::cmd::action_texts_of(actions@);
        let ghost head_values = action_views(actions@);
        assert(head_values =~= (match self.to_desktop {
            Some(d) => seq![ActionView::ToDesktop(wire_index(d))],
            None => Seq::empty(),
        }) + (match self.to_screen {
            Some(s) => seq![ActionView::ToScreen(s@)],
            None => Seq::empty(),
        }));
        assert(head =~= (match self.to_desktop {
            Some(d) => seq!["desktop="@ + signed_decimal(wire_index(d) as int)],
            None => Seq::empty(),
        }) + (match self.to_screen {
            Some(s) => seq!["screen="@ + s@],
            None => Seq::empty(),
        }));
        if let Some(geometry) = &self.geometry {
            match Geometry::parse(geometry.as_str()) {
                Ok(tokens) => {
                    actions.push(Action::Geometry(tokens));
                    assert(crate::cmd::action_texts_of(actions@) =~= head + seq![
                        "geometry="@ + geometry_text(tokens@),
                    ]);
                    assert(action_views(actions@) =~= head_values + seq![
                        ActionView::Geometry(tokens@),
                    ]);
                },
                Err(e) => return Err(e),
            }
        }
        assert(self.actions_outcome() == Ok::<Seq<Seq<char>>, GeometryFault>(
            crate::cmd::action_texts_of(actions@),
        ));
        Ok(actions)
    }

    /// Whether this rule applies to a window with the given caption and class.
    /// A rule with no criteria never matches (it produces no target either).
    fn matches_window(&self, caption: &str, class: &str) -> (res: Result<bool, String>)
        ensures
            match res {
                Ok(b) => self.match_window_outcome(caption@, class@) == Ok::<bool, Seq<char>>(b),
                Err(m) => self.match_window_outcome(caption@, class@) == Err::<bool, Seq<char>>(
                    m@,
                ),
            },
    {
        if !self.has_criteria() {
            return Ok(false);
        }
        if let Some(pattern) = &self.class {
            match matches(pattern.as_str(), class) {
                Ok(true) => {},
                Ok(false) => return Ok(false),
                Err(m) => return Err(m),
            }
        }
        if let Some(pattern) = &self.title {
            match matches(pattern.as_str(), caption) {
                Ok(true) => {},
                Ok(false) => return Ok(false),
                Err(m) => return Err(m),
            }
        }
        Ok(true)
    }
}

/// The target lines of a list of rules: for each rule with criteria, its
/// search texts joined with `&&`; the first failing rule's error otherwise.
pub open spec fn target_lines(rules: Seq<Rule>) -> Result<Seq<Seq<char>>, ConfigFault>
    decreases rules.len(),
{
    if rules.len() == 0 {
        Ok(Seq::empty())
    } else {
        match target_lines(rules.drop_last()) {
            Err(fault) => Err(fault),
            Ok(lines) => {
                let rule = rules.last();
                if !rule.has_criteria_spec() {
                    Ok(lines)
                } else {
                    match rule.search_outcome() {
                        Err(m) => Err(ConfigFault::Regex(m)),
                        Ok(search) => Ok(lines.push(join(search, "&&"@))),
                    }
                }
            },
        }
    }
}

/// The actions of every rule matching a window, concatenated in rule order;
/// the first error met otherwise.
pub open spec fn merged_actions(rules: Seq<Rule>, caption: Seq<char>, class: Seq<char>) -> Result<
    Seq<Seq<char>>,
    ConfigFault,
>
    decreases rules.len(),
{
    if rules.len() == 0 {
        Ok(Seq::empty())
    } else {
        match merged_actions(rules.drop_last(), caption, class) {
            Err(fault) => Err(fault),
            Ok(actions) => {
                let rule = rules.last();
                match rule.match_window_outcome(caption, class) {
                    Err(m) => Err(ConfigFault::Regex(m)),
                    Ok(false) => Ok(actions),
                    Ok(true) => match rule.actions_outcome() {
                        Err(g) => Err(ConfigFault::Geometry(g)),
                        Ok(more) => Ok(actions + more),
                    },
                }
            },
        }
    }
}

/// The caption and class of a `caption:class` window description: the class
/// is the segment after the last `:` (a resource class never contains one; a
/// caption might); without a `:` the whole text is the class.
pub open spec fn split_window(window: Seq<char>) -> (Seq<char>, Seq<char>) {
    if exists|i: int| 0 <= i < window.len() && window[i] == ':' {
        let i = choose|i: int|
            0 <= i < window.len() && window[i] == ':' && forall|j: int|
                i < j < window.len() ==> window[j] != ':';
        (window.take(i), window.skip(i + 1))
    } else {
        (Seq::empty(), window)
    }
}

/// The parsed window-rule configuration.
#[derive(Debug, Clone)]
pub struct Config {
    rules: Vec<Rule>,
}

impl View for Config {
    type V = Seq<Rule>;

    closed spec fn view(&self) -> Seq<Rule> {
        self.rules@
    }
}

impl Config {
    /// A configuration holding the given rules, in file order.
    pub fn new(rules: Vec<Rule>) -> (config: Config)
        ensures
            config@ == rules@,
    {
        Config { rules }
    }

    /// The rules, in file order.
    pub fn rules(&self) -> (rules: &Vec<Rule>)
        ensures
            rules@ == self@,
    {
        &self.rules
    }

    /// The target list served by `GetTargets`: one search expression per rule
    /// with criteria, in the wire format the KWin script parses, newline
    /// separated. Rules without criteria are skipped.
    pub fn targets(&self) -> (res: Result<String, ConfigError>)
        ensures
            match res {
                Ok(text) => target_lines(self@) matches Ok(lines) && text@ == join(lines, "\n"@),
                Err(e) => target_lines(self@) == Err::<Seq<Seq<char>>, ConfigFault>(e@),
            },
    {
        let mut lines: Vec<String> = Vec::new();
        let mut i: usize = 0;
        assert(self.rules@.take(0) =~= Seq::<Rule>::empty());
        assert(texts(lines@) =~= Seq::<Seq<char>>::empty());
        while i < self.rules.len()
            invariant
                i <= self.rules@.len(),
                target_lines(self.rules@.take(i as int)) == Ok::<Seq<Seq<char>>, ConfigFault>(
                    texts(lines@),
                ),
            decreases self.rules.len() - i,
        {
            let rule = &self.rules[i];
            assert(self.rules@.take(i + 1).drop_last() =~= self.rules@.take(i as int));
            if rule.has_criteria() {
                match rule.search() {
                    Ok(search) => {
                        let mut parts: Vec<String> = Vec::new();
                        let mut k: usize = 0;
                        while k < search.len()
                            invariant
                                k <= search@.len(),
                                texts(parts@) == crate::cmd::search_texts_of(search@).take(
                                    k as int,
                                ),
                            decreases search.len() - k,
                        {
                            let written = search[k].to_string();
                            let ghost before = parts@;
                            parts.push(written);
                            assert(texts(parts@) =~= texts(before).push(written@));
                            assert(texts(parts@) =~= crate::cmd::search_texts_of(search@).take(
                                k + 1,
                            ));
                            k += 1;
                        }
                        assert(texts(parts@) =~= crate::cmd::search_texts_of(search@));
                        let line = join_strings(&parts, "&&");
                        let ghost before = lines@;
                        lines.push(line);
                        assert(texts(lines@) =~= texts(before).push(line@));
                    },
                    Err(m) => {
                        proof {
                            lemma_target_lines_error(self.rules@, (i + 1) as nat);
                        }
                        return Err(ConfigError::Regex(m));
                    },
                }
            }
            i += 1;
        }
        assert(self.rules@.take(self.rules@.len() as int) =~= self.rules@);
        Ok(join_strings(&lines, "\n"))
    }

    /// The merged action list served by `WindowAction` for a `caption:class`
    /// window: every matching rule's actions concatenated in file order (so a
    /// later rule overrides an earlier one), `;` separated, or empty when
    /// nothing matches. The class is the segment after the last `:` (a
    /// resource class never contains one; a caption might).
    pub fn action_for(&self, window: &str) -> (res: Result<String, ConfigError>)
        ensures
            match res {
                Ok(text) => merged_actions(self@, split_window(window@).0, split_window(window@).1)
                    matches Ok(actions) && text@ == join(actions, ";"@),
                Err(e) => merged_actions(self@, split_window(window@).0, split_window(window@).1)
                    == Err::<Seq<Seq<char>>, ConfigFault>(e@),
            },
    {
        let (caption, class) = split_at_last_colon(window);
        let mut actions: Vec<String> = Vec::new();
        let mut i: usize = 0;
        assert(self.rules@.take(0) =~= Seq::<Rule>::empty());
        assert(texts(actions@) =~= Seq::<Seq<char>>::empty());
        while i < self.rules.len()
            invariant
                i <= self.rules@.len(),
                caption@ == split_window(window@).0,
                class@ == split_window(window@).1,
                merged_actions(self.rules@.take(i as int), caption@, class@) == Ok::<
                    Seq<Seq<char>>,
                    ConfigFault,
                >(texts(actions@)),
            decreases self.rules.len() - i,
        {
            let rule = &self.rules[i];
            assert(self.rules@.take(i + 1).drop_last() =~= self.rules@.take(i as int));
            match rule.matches_window(caption.as_str(), class.as_str()) {
                Err(m) => {
                    proof {
                        lemma_merged_actions_error(self.rules@, (i + 1) as nat, caption@, class@);
                    }
                    return Err(ConfigError::Regex(m));
                },
                Ok(false) => {},
                Ok(true) => match rule.actions() {
                    Err(e) => {
                        proof {
                            lemma_merged_actions_error(
                                self.rules@,
                                (i + 1) as nat,
                                caption@,
                                class@,
                            );
                        }
                        return Err(ConfigError::Geometry(e));
                    },
                    Ok(more) => {
                        let mut k: usize = 0;
                        let ghost before = texts(actions@);
                        while k < more.len()
                            invariant
                                k <= more@.len(),
                                texts(actions@) == before + crate::cmd::action_texts_of(
                                    more@,
                                ).take(k as int),
                            decreases more.len() - k,
                        {
                            let written = more[k].to_string();
                            let ghost prev = actions@;
                            actions.push(written);
                            assert(texts(actions@) =~= texts(prev).push(written@));
                            assert(texts(actions@) =~= before + crate::cmd::action_texts_of(
                                more@,
                            ).take(k + 1));
                            k += 1;
                        }
                        assert(crate::cmd::action_texts_of(more@).take(more@.len() as int)
                            =~= crate::cmd::action_texts_of(more@));
                    },
                },
            }
            i += 1;
        }
        assert(self.rules@.take(self.rules@.len() as int) =~= self.rules@);
        Ok(join_strings(&actions, ";"))
    }
}

/// The number of rules with criteria.
pub open spec fn rules_with_criteria(rules: Seq<Rule>) -> nat
    decreases rules.len(),
{
    if rules.len() == 0 {
        0
    } else {
        rules_with_criteria(rules.drop_last()) + if rules.last().has_criteria_spec() {
            1nat
        } else {
            0nat
        }
    }
}

/// The target list has one line per rule with criteria.
pub proof fn lemma_one_target_per_rule(rules: Seq<Rule>)
    ensures
        target_lines(rules) matches Ok(lines) ==> lines.len() == rules_with_criteria(rules),
    decreases rules.len(),
{
    if rules.len() > 0 {
        lemma_one_target_per_rule(rules.drop_last());
    }
}

/// A rule without criteria changes nothing: it gives no target line and
/// never applies to a window.
pub proof fn lemma_rule_without_criteria_is_inert(
    rules: Seq<Rule>,
    rule: Rule,
    caption: Seq<char>,
    class: Seq<char>,
)
    requires
        !rule.has_criteria_spec(),
    ensures
        target_lines(rules.push(rule)) == target_lines(rules),
        merged_actions(rules.push(rule), caption, class) == merged_actions(rules, caption, class),
{
    assert(rules.push(rule).drop_last() =~= rules);
}

/// When no rule applies to a window, its merged action list is empty.
pub proof fn lemma_no_match_no_actions(rules: Seq<Rule>, caption: Seq<char>, class: Seq<char>)
    requires
        forall|i: int|
            0 <= i < rules.len() ==> #[trigger] rules[i].match_window_outcome(caption, class)
                == Ok::<bool, Seq<char>>(false),
    ensures
        merged_actions(rules, caption, class) == Ok::<Seq<Seq<char>>, ConfigFault>(Seq::empty()),
    decreases rules.len(),
{
    if rules.len() > 0 {
        let init = rules.drop_last();
        assert forall|i: int| 0 <= i < init.len() implies #[trigger] init[i].match_window_outcome(
            caption,
            class,
        ) == Ok::<bool, Seq<char>>(false) by {
            assert(init[i] == rules[i]);
        }
        lemma_no_match_no_actions(init, caption, class);
        assert(rules.last() == rules[rules.len() - 1]);
    }
}

/// The rules that give a target line, in file order: those with a class or
/// a title.
pub open spec fn targeted_rules(rules: Seq<Rule>) -> Seq<Rule> {
    rules.filter(|r: Rule| r.has_criteria_spec())
}

/// The target list in full. It fails exactly when a rule with criteria has a
/// regex that does not compile, and then with the error of the first such
/// rule; otherwise it holds one line per rule with criteria, in file order,
/// each that rule's criteria (class, then title) joined by `&&`.
pub proof fn lemma_targets_in_file_order(rules: Seq<Rule>)
    ensures
        target_lines(rules) is Ok <==> forall|i: int|
            #![trigger rules[i]]
            0 <= i < rules.len() && rules[i].has_criteria_spec() ==> rules[i].search_outcome() is Ok,
        target_lines(rules) matches Ok(lines) ==> {
            &&& lines.len() == targeted_rules(rules).len()
            &&& forall|j: int|
                0 <= j < lines.len() ==> ((#[trigger] targeted_rules(rules)[j]).search_outcome()
                    matches Ok(search) && lines[j] == join(search, "&&"@))
        },
        target_lines(rules) matches Err(fault) ==> exists|i: int|
            #![trigger rules[i]]
            {
                &&& 0 <= i < rules.len()
                &&& rules[i].has_criteria_spec()
                &&& (rules[i].search_outcome() matches Err(m) && fault == ConfigFault::Regex(m))
                &&& forall|k: int|
                    #![trigger rules[k]]
                    0 <= k < i && rules[k].has_criteria_spec() ==> rules[k].search_outcome() is Ok
            },
    decreases rules.len(),
{
    let pred = |r: Rule| r.has_criteria_spec();
    if rules.len() == 0 {
        reveal(Seq::filter);
    } else {
        let init = rules.drop_last();
        let r = rules.last();
        assert(init.push(r) =~= rules);
        lemma_targets_in_file_order(init);
        init.lemma_filter_push(r, pred);
        assert forall|i: int| 0 <= i < init.len() implies #[trigger] init[i] == rules[i] by {}
        match target_lines(init) {
            Err(fault) => {
                let i = choose|i: int|
                    #![trigger init[i]]
                    {
                        &&& 0 <= i < init.len()
                        &&& init[i].has_criteria_spec()
                        &&& (init[i].search_outcome() matches Err(m) && fault
                            == ConfigFault::Regex(m))
                        &&& forall|k: int|
                            #![trigger init[k]]
                            0 <= k < i && init[k].has_criteria_spec()
                                ==> init[k].search_outcome() is Ok
                    };
                assert(init[i] == rules[i]);
                assert forall|k: int|
                    #![trigger rules[k]]
                    0 <= k < i && rules[k].has_criteria_spec() implies rules[k].search_outcome() is Ok by {
                    assert(init[k] == rules[k]);
                }
            },
            Ok(lines) => {
                assert forall|i: int|
                    #![trigger rules[i]]
                    0 <= i < init.len() && rules[i].has_criteria_spec() implies rules[i].search_outcome() is Ok by {
                    assert(init[i] == rules[i]);
                }
                if r.has_criteria_spec() {
                    if let Ok(search) = r.search_outcome() {
                        let targeted = targeted_rules(rules);
                        assert(targeted == targeted_rules(init).push(r));
                        assert forall|j: int| 0 <= j < lines.len() + 1 implies ((
                        #[trigger] targeted[j]).search_outcome() matches Ok(t) && lines.push(
                            join(search, "&&"@),
                        )[j] == join(t, "&&"@)) by {
                            if j < lines.len() {
                                assert(targeted[j] == targeted_rules(init)[j]);
                            }
                        }
                    } else {
                        assert(rules[rules.len() - 1] == r);
                    }
                } else {
                    assert(rules[rules.len() - 1] == r);
                }
            },
        }
    }
}

/// Only the class and title of the rules shape the target list: rules that
/// differ in their label or actions give the same list.
pub proof fn lemma_targets_ignore_actions(rules: Seq<Rule>, other: Seq<Rule>)
    requires
        rules.len() == other.len(),
        forall|i: int|
            #![trigger rules[i], other[i]]
            0 <= i < rules.len() ==> rules[i].class == other[i].class && rules[i].title
                == other[i].title,
    ensures
        target_lines(rules) == target_lines(other),
    decreases rules.len(),
{
    if rules.len() > 0 {
        let n = rules.len() - 1;
        assert(rules[n].class == other[n].class && rules[n].title == other[n].title);
        assert forall|i: int|
            #![trigger rules.drop_last()[i], other.drop_last()[i]]
            0 <= i < n implies rules.drop_last()[i].class == other.drop_last()[i].class
                && rules.drop_last()[i].title == other.drop_last()[i].title by {
            assert(rules.drop_last()[i] == rules[i]);
            assert(other.drop_last()[i] == other[i]);
            assert(rules[i].class == other[i].class && rules[i].title == other[i].title);
        }
        lemma_targets_ignore_actions(rules.drop_last(), other.drop_last());
    }
}

/// The rules that apply to a window with the given caption and class, in file
/// order.
pub open spec fn applying_rules(rules: Seq<Rule>, caption: Seq<char>, class: Seq<char>) -> Seq<
    Rule,
> {
    rules.filter(
        |r: Rule| r.match_window_outcome(caption, class) == Ok::<bool, Seq<char>>(true),
    )
}

/// The action texts of each rule (empty for a rule whose geometry is
/// invalid).
pub open spec fn rule_action_lists(rules: Seq<Rule>) -> Seq<Seq<Seq<char>>> {
    rules.map_values(
        |r: Rule|
            match r.actions_outcome() {
                Ok(actions) => actions,
                Err(_) => Seq::empty(),
            },
    )
}

/// The per-window actions in full. They are given exactly when every rule's
/// patterns compile (as far as matching reads them) and every applying rule's
/// geometry is valid; then they are the actions of every applying rule, in
/// file order, one rule's after another's.
pub proof fn lemma_actions_in_file_order(rules: Seq<Rule>, caption: Seq<char>, class: Seq<char>)
    ensures
        merged_actions(rules, caption, class) is Ok <==> forall|i: int|
            #![trigger rules[i]]
            0 <= i < rules.len() ==> rules[i].match_window_outcome(caption, class) is Ok && (
            rules[i].match_window_outcome(caption, class) == Ok::<bool, Seq<char>>(true)
                ==> rules[i].actions_outcome() is Ok),
        merged_actions(rules, caption, class) matches Ok(actions) ==> actions == rule_action_lists(
            applying_rules(rules, caption, class),
        ).flatten(),
    decreases rules.len(),
{
    let pred = |r: Rule| r.match_window_outcome(caption, class) == Ok::<bool, Seq<char>>(true);
    if rules.len() == 0 {
        reveal(Seq::filter);
        assert(rule_action_lists(applying_rules(rules, caption, class)) =~= Seq::<
            Seq<Seq<char>>,
        >::empty());
    } else {
        let init = rules.drop_last();
        let r = rules.last();
        assert(init.push(r) =~= rules);
        assert(rules[rules.len() - 1] == r);
        lemma_actions_in_file_order(init, caption, class);
        init.lemma_filter_push(r, pred);
        assert forall|i: int| 0 <= i < init.len() implies #[trigger] init[i] == rules[i] by {}
        if merged_actions(init, caption, class) is Ok && r.match_window_outcome(caption, class)
            == Ok::<bool, Seq<char>>(true) && r.actions_outcome() is Ok {
            let a = applying_rules(init, caption, class);
            assert(applying_rules(rules, caption, class) == a.push(r));
            assert(rule_action_lists(a.push(r)) =~= rule_action_lists(a).push(
                r.actions_outcome()->Ok_0,
            ));
            rule_action_lists(a).lemma_flatten_push(r.actions_outcome()->Ok_0);
        }
    }
}

/// How one rule meets a window: a rule without criteria never applies; a rule
/// with criteria applies exactly when its class pattern (if any) matches the
/// class and its title pattern (if any) matches the caption.
pub proof fn lemma_rule_matching(rule: Rule, caption: Seq<char>, class: Seq<char>)
    ensures
        !rule.has_criteria_spec() ==> rule.match_window_outcome(caption, class) == Ok::<
            bool,
            Seq<char>,
        >(false),
        rule.match_window_outcome(caption, class) == Ok::<bool, Seq<char>>(true) <==> {
            &&& rule.has_criteria_spec()
            &&& rule.class matches Some(p) ==> match_outcome(p@, class) == Ok::<bool, Seq<char>>(
                true,
            )
            &&& rule.title matches Some(p) ==> match_outcome(p@, caption) == Ok::<bool, Seq<char>>(
                true,
            )
        },
{
}

/// A rule's actions fail exactly when its geometry is invalid, and never
/// include activating the window; their texts are given exactly when the
/// actions are.
pub proof fn lemma_rule_actions(rule: Rule)
    ensures
        rule.action_values() is Err <==> (rule.geometry matches Some(g) && parse_geometry(g@) is Err),
        rule.action_values() matches Ok(actions) ==> forall|i: int|
            0 <= i < actions.len() ==> actions[i] != ActionView::Activate,
        rule.actions_outcome() is Ok <==> rule.action_values() is Ok,
{
}

/// A leading `!` negates a matcher: on a text, `!source` matches exactly when
/// `source` does not, and fails with the same error when `source` does not
/// compile.
pub proof fn lemma_negated_matcher(source: Seq<char>, text: Seq<char>)
    requires
        source.len() == 0 || source[0] != '!',
    ensures
        match_outcome(seq!['!'] + source, text) == (match match_outcome(source, text) {
            Ok(b) => Ok::<bool, Seq<char>>(!b),
            Err(m) => Err(m),
        }),
{
    assert((seq!['!'] + source).drop_first() =~= source);
}

/// A matcher is tried on the text as it is given. Without a leading `!` it
/// matches exactly where its regex matches; with one, exactly where the regex
/// after the `!` does not; and a regex that does not compile gives its error.
pub proof fn lemma_matcher_reads_text_as_given(matcher: Seq<char>, text: Seq<char>)
    ensures
        (matcher.len() == 0 || matcher[0] != '!') ==> match_outcome(matcher, text) == (
        match regex_compile_error(matcher) {
            Some(message) => Err::<bool, Seq<char>>(message),
            None => Ok(regex_is_match(matcher, text)),
        }),
        (matcher.len() > 0 && matcher[0] == '!') ==> match_outcome(matcher, text) == (
        match regex_compile_error(matcher.drop_first()) {
            Some(message) => Err::<bool, Seq<char>>(message),
            None => Ok(!regex_is_match(matcher.drop_first(), text)),
        }),
{
}

/// A rule with only a title pattern (not negated, and compiling) applies to a
/// window exactly when its regex matches the caption, whatever the class.
pub proof fn lemma_title_rule_applies(rule: Rule, caption: Seq<char>, class: Seq<char>)
    requires
        rule.class is None,
        rule.title matches Some(p) && (p@.len() == 0 || p@[0] != '!') && regex_compile_error(p@)
            is None,
    ensures
        rule.match_window_outcome(caption, class) == Ok::<bool, Seq<char>>(
            regex_is_match(rule.title->0@, caption),
        ),
{
}

/// Once a prefix of the rules fails, every longer prefix fails the same way.
proof fn lemma_target_lines_error(rules: Seq<Rule>, n: nat)
    requires
        n <= rules.len(),
        target_lines(rules.take(n as int)) is Err,
    ensures
        target_lines(rules) == target_lines(rules.take(n as int)),
    decreases rules.len() - n,
{
    if n < rules.len() {
        assert(rules.take(n as int + 1).drop_last() =~= rules.take(n as int));
        lemma_target_lines_error(rules, n + 1);
    } else {
        assert(rules.take(n as int) =~= rules);
    }
}

/// Once a prefix of the rules fails, every longer prefix fails the same way.
proof fn lemma_merged_actions_error(rules: Seq<Rule>, n: nat, caption: Seq<char>, class: Seq<char>)
    requires
        n <= rules.len(),
        merged_actions(rules.take(n as int), caption, class) is Err,
    ensures
        merged_actions(rules, caption, class) == merged_actions(rules.take(n as int), caption, class),
    decreases rules.len() - n,
{
    if n < rules.len() {
        assert(rules.take(n as int + 1).drop_last() =~= rules.take(n as int));
        lemma_merged_actions_error(rules, n + 1, caption, class);
    } else {
        assert(rules.take(n as int) =~= rules);
    }
}

/// Splits a `caption:class` description at its last `:`.
fn split_at_last_colon(window: &str) -> (parts: (String, String))
    ensures
        parts.0@ == split_window(window@).0,
        parts.1@ == split_window(window@).1,
{
    let chars = chars_of(window);
    let n = chars.len();
    let mut i = n;
    while i > 0
        invariant
            i <= n == chars@.len(),
            chars@ == window@,
            forall|j: int| i <= j < n ==> chars@[j] != ':',
        decreases i,
    {
        if chars[i - 1] == ':' {
            let at = i - 1;
            let caption = string_of_range(&chars, 0, at);
            let class = string_of_range(&chars, at + 1, n);
            proof {
                let w = window@;
                assert(exists|k: int| 0 <= k < w.len() && w[k] == ':');
                let k = choose|k: int|
                    0 <= k < w.len() && w[k] == ':' && forall|j: int|
                        k < j < w.len() ==> w[j] != ':';
                assert(0 <= at < w.len() && w[at as int] == ':' && forall|j: int|
                    at < j < w.len() ==> w[j] != ':');
                assert(k == at);
                assert(caption@ =~= w.take(at as int));
                assert(class@ =~= w.skip(at + 1));
            }
            return (caption, class);
        }
        i -= 1;
    }
    let class = string_of_range(&chars, 0, n);
    assert(class@ =~= window@);
    (String::new(), class)
}

} // verus!
