//! The request vocabulary understood by the resident KWin script: search
//! criteria that select a window and actions applied to the selected window,
//! each written as `field=value` on the wire.

use vstd::prelude::*;

use crate::geometry::{geometry_text, Geometry};
use crate::text::{bool_text, chars_of, push_bool, push_char, push_signed, push_str, signed_decimal, string_of_range};

verus! {

/// The 0-based wire index of a desktop: positive desktop numbers are 1-based
/// as KDE shows them and move down by one; non-positive values are sentinels
/// (negative means "all desktops") and stay as they are.
pub open spec fn wire_index(desktop: i8) -> i8 {
    if desktop > 0 {
        (desktop - 1) as i8
    } else {
        desktop
    }
}

/// Maps a user-facing, 1-based desktop number into the 0-based index the
/// KWin script uses to address the `workspace.desktops` array. Non-positive
/// values are sentinels (negative means "all desktops") and pass through
/// unchanged.
pub fn wire_desktop(desktop: i8) -> (index: i8)
    ensures
        index == wire_index(desktop),
        desktop > 0 ==> index == desktop - 1,
        desktop <= 0 ==> index == desktop,
{
    if desktop > 0 {
        desktop - 1
    } else {
        desktop
    }
}

/// A regular-expression criterion that may be negated with a leading `!`,
/// mirroring the `field!=value` form understood by the KWin script.
#[derive(Debug, Clone)]
pub struct Pattern {
    negated: bool,
    source: String,
}

/// The content of a [`Pattern`]: whether it is negated, and its regex source
/// without the `!`.
pub struct PatternView {
    pub negated: bool,
    pub source: Seq<char>,
}

impl View for Pattern {
    type V = PatternView;

    closed spec fn view(&self) -> PatternView {
        PatternView { negated: self.negated, source: self.source@ }
    }
}

/// The pattern that a regex source denotes: a leading `!` negates the rest.
pub open spec fn pattern_of(regex: Seq<char>) -> PatternView {
    if regex.len() > 0 && regex[0] == '!' {
        PatternView { negated: true, source: regex.drop_first() }
    } else {
        PatternView { negated: false, source: regex }
    }
}

/// How a pattern is written for `field`: `field=source`, or `field!=source`
/// when negated.
pub open spec fn criterion_text(field: Seq<char>, p: PatternView) -> Seq<char> {
    field + (if p.negated { seq!['!'] } else { Seq::empty() }) + seq!['='] + p.source
}

impl Pattern {
    /// The criterion for a regex given by its source text; a leading `!`
    /// negates it.
    pub fn new(regex: &str) -> (p: Pattern)
        ensures
            p@ == pattern_of(regex@),
    {
        let chars = chars_of(regex);
        if chars.len() > 0 && chars[0] == '!' {
            let source = string_of_range(&chars, 1, chars.len());
            assert(source@ =~= regex@.drop_first());
            Pattern { negated: true, source }
        } else {
            let source = string_of_range(&chars, 0, chars.len());
            assert(source@ =~= regex@);
            Pattern { negated: false, source }
        }
    }

    /// Writes the criterion as `field=source`, or `field!=source` when negated.
    fn write(&self, out: &mut String, field: &str)
        ensures
            final(out)@ == old(out)@ + criterion_text(field@, self@),
    {
        let ghost start = out@;
        push_str(out, field);
        if self.negated {
            push_char(out, '!');
        }
        push_char(out, '=');
        push_str(out, self.source.as_str());
        assert(out@ =~= start + criterion_text(field@, self@));
    }
}

/// A search criterion selecting the window to act on.
#[derive(Debug, Clone)]
pub enum Search {
    Class(Pattern),
    Name(Pattern),
    Title(Pattern),
    Desktop(i8),
}

impl Search {
    /// How the criterion is written on the wire.
    pub open spec fn text(&self) -> Seq<char> {
        match self {
            Search::Class(p) => criterion_text("class"@, p@),
            Search::Name(p) => criterion_text("name"@, p@),
            Search::Title(p) => criterion_text("title"@, p@),
            Search::Desktop(d) => "desktop="@ + signed_decimal(*d as int),
        }
    }

    pub(crate) fn push_to(&self, out: &mut String)
        ensures
            final(out)@ == old(out)@ + self.text(),
    {
        match self {
            Search::Class(p) => p.write(out, "class"),
            Search::Name(p) => p.write(out, "name"),
            Search::Title(p) => p.write(out, "title"),
            Search::Desktop(d) => {
                let ghost start = out@;
                push_str(out, "desktop=");
                push_signed(out, *d as i64);
                assert(out@ =~= start + self.text());
            },
        }
    }

    /// Writes the criterion in the wire format of the KWin script.
    pub fn to_string(&self) -> (s: String)
        ensures
            s@ == self.text(),
    {
        let mut s = String::new();
        self.push_to(&mut s);
        assert(s@ =~= self.text());
        s
    }
}

/// An action applied to the matched window.
#[derive(Debug, Clone)]
pub enum Action {
    ToDesktop(i8),
    ToScreen(String),
    NoBorder(bool),
    Maximize(bool),
    KeepBelow(bool),
    Geometry(Vec<Geometry>),
    Activate,
}

/// The content of an [`Action`].
pub enum ActionView {
    ToDesktop(i8),
    ToScreen(Seq<char>),
    NoBorder(bool),
    Maximize(bool),
    KeepBelow(bool),
    Geometry(Seq<Geometry>),
    Activate,
}

impl View for Action {
    type V = ActionView;

    open spec fn view(&self) -> ActionView {
        match self {
            Action::ToDesktop(d) => ActionView::ToDesktop(*d),
            Action::ToScreen(screen) => ActionView::ToScreen(screen@),
            Action::NoBorder(on) => ActionView::NoBorder(*on),
            Action::Maximize(on) => ActionView::Maximize(*on),
            Action::KeepBelow(on) => ActionView::KeepBelow(*on),
            Action::Geometry(parts) => ActionView::Geometry(parts@),
            Action::Activate => ActionView::Activate,
        }
    }
}

/// The contents of a list of actions.
pub open spec fn action_views(actions: Seq<Action>) -> Seq<ActionView> {
    actions.map_values(|a: Action| a@)
}

impl Action {
    /// How the action is written on the wire.
    pub open spec fn text(&self) -> Seq<char> {
        match self {
            Action::ToDesktop(d) => "desktop="@ + signed_decimal(*d as int),
            Action::ToScreen(screen) => "screen="@ + screen@,
            Action::NoBorder(on) => "noborder="@ + bool_text(*on),
            Action::Maximize(on) => "maximize="@ + bool_text(*on),
            Action::KeepBelow(on) => "keepbelow="@ + bool_text(*on),
            Action::Geometry(parts) => "geometry="@ + geometry_text(parts@),
            Action::Activate => "activate"@,
        }
    }

    pub(crate) fn push_to(&self, out: &mut String)
        ensures
            final(out)@ == old(out)@ + self.text(),
    {
        let ghost start = out@;
        match self {
            Action::ToDesktop(d) => {
                push_str(out, "desktop=");
                push_signed(out, *d as i64);
            },
            Action::ToScreen(screen) => {
                push_str(out, "screen=");
                push_str(out, screen.as_str());
            },
            Action::NoBorder(on) => {
                push_str(out, "noborder=");
                push_bool(out, *on);
            },
            Action::Maximize(on) => {
                push_str(out, "maximize=");
                push_bool(out, *on);
            },
            Action::KeepBelow(on) => {
                push_str(out, "keepbelow=");
                push_bool(out, *on);
            },
            Action::Geometry(parts) => {
                push_str(out, "geometry=");
                let mut i: usize = 0;
                while i < parts.len()
                    invariant
                        i <= parts@.len(),
                        out@ == start + "geometry="@ + geometry_text(parts@.take(i as int)),
                    decreases parts.len() - i,
                {
                    parts[i].push_to(out);
                    proof {
                        lemma_geometry_text_push(parts@.take(i as int), parts@[i as int]);
                        assert(parts@.take(i as int).push(parts@[i as int]) =~= parts@.take(i + 1));
                    }
                    i += 1;
                }
                assert(parts@.take(parts@.len() as int) =~= parts@);
            },
            Action::Activate => {
                push_str(out, "activate");
            },
        }
        assert(out@ =~= start + self.text());
    }

    /// Writes the action in the wire format of the KWin script.
    pub fn to_string(&self) -> (s: String)
        ensures
            s@ == self.text(),
    {
        let mut s = String::new();
        self.push_to(&mut s);
        assert(s@ =~= self.text());
        s
    }
}

/// Writing one more token appends its text.
pub proof fn lemma_geometry_text_push(tokens: Seq<Geometry>, g: Geometry)
    ensures
        geometry_text(tokens.push(g)) == geometry_text(tokens) + g.text(),
    decreases tokens.len(),
{
    if tokens.len() == 0 {
        assert(tokens.push(g).drop_first() =~= Seq::<Geometry>::empty());
        assert(geometry_text(Seq::<Geometry>::empty()) =~= Seq::<char>::empty());
        assert(geometry_text(tokens.push(g)) =~= geometry_text(tokens) + g.text());
    } else {
        lemma_geometry_text_push(tokens.drop_first(), g);
        assert(tokens.push(g).drop_first() =~= tokens.drop_first().push(g));
        assert(geometry_text(tokens.push(g)) =~= geometry_text(tokens) + g.text());
    }
}

} // verus!
