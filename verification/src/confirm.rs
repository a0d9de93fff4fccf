//! Pre-download confirmation: nothing is written before the user has been asked.
//!
//! The answer is "yes" whenever there is no interactive terminal (piped, CI, redirected) — there
//! is nobody to answer, and blocking forever would be worse than proceeding.

use crate::measure::{self, gigabytes};
use crate::number::{self, decimal};
use vstd::prelude::*;
use vstd::string::*;

verus! {

/// Which question to ask. The wording differs because "Download" and "Continue" are genuinely
/// different decisions to a user staring at a 6 GB number.
#[derive(Debug)]
pub enum Prompt {
    /// Nothing of this install exists yet.
    Fresh { dir: String, files: usize, bytes: u64 },
    /// A partial or older install is present; only the delta will be fetched.
    Resume { dir: String, files: usize, bytes: u64, have: usize },
}

impl Prompt {
    pub open spec fn question_text(&self) -> Seq<char> {
        match *self {
            Prompt::Fresh { dir, .. } => "Download to "@ + dir@ + "?"@,
            Prompt::Resume { .. } => "Continue download?"@,
        }
    }

    pub open spec fn detail_text(&self) -> Seq<char> {
        match *self {
            Prompt::Fresh { files, bytes, .. } => number::dec(files as nat) + " files · "@ + measure::gigabytes_text(
                bytes as nat,
            ) + " GB to fetch"@,
            Prompt::Resume { dir, files, bytes, have } => number::dec(have as nat) + " file(s) already in "@ + dir@
                + " · "@ + number::dec(files as nat) + " file(s) · "@ + measure::gigabytes_text(bytes as nat)
                + " GB still to fetch"@,
        }
    }

    /// The question.
    pub fn question(&self) -> (r: String)
        ensures
            r@ == self.question_text(),
    {
        match self {
            Prompt::Fresh { dir, .. } => {
                let mut r = "Download to ".to_owned();
                r.append(dir.as_str());
                r.append("?");
                r
            },
            Prompt::Resume { .. } => "Continue download?".to_owned(),
        }
    }

    /// What there is to fetch.
    pub fn detail(&self) -> (r: String)
        ensures
            r@ == self.detail_text(),
    {
        match self {
            Prompt::Fresh { files, bytes, .. } => {
                let mut r = decimal(*files as u64);
                r.append(" files · ");
                r.append(gigabytes(*bytes).as_str());
                r.append(" GB to fetch");
                r
            },
            Prompt::Resume { dir, files, bytes, have } => {
                let mut r = decimal(*have as u64);
                r.append(" file(s) already in ");
                r.append(dir.as_str());
                r.append(" · ");
                r.append(decimal(*files as u64).as_str());
                r.append(" file(s) · ");
                r.append(gigabytes(*bytes).as_str());
                r.append(" GB still to fetch");
                r
            },
        }
    }

    /// The word for going ahead.
    pub fn accept_label(&self) -> (r: &'static str)
        ensures
            r@ == match *self {
                Prompt::Fresh { .. } => "Download"@,
                Prompt::Resume { .. } => "Continue"@,
            },
    {
        match self {
            Prompt::Fresh { .. } => "Download",
            Prompt::Resume { .. } => "Continue",
        }
    }

    /// The two options, from top to bottom: whether each is selected, and its label.
    pub fn options(&self, accept: bool) -> (r: [(bool, String); 2])
        ensures
            r@[0].0 == accept,
            r@[0].1@ == "[ "@ + (match *self {
                Prompt::Fresh { .. } => "Download"@,
                Prompt::Resume { .. } => "Continue"@,
            }) + " ]"@,
            r@[1].0 == !accept,
            r@[1].1@ == "[ Cancel ]"@,
    {
        let mut yes = "[ ".to_owned();
        yes.append(self.accept_label());
        yes.append(" ]");
        [(accept, yes), (!accept, "[ Cancel ]".to_owned())]
    }
}

/// The answer that is given without asking: yes where that was said beforehand, or where nobody
/// is there to answer.
pub fn preset_answer(assume_yes: bool, stdin_is_terminal: bool, stdout_is_terminal: bool) -> (r: Option<bool>)
    ensures
        assume_yes || !stdin_is_terminal || !stdout_is_terminal ==> r == Some(true),
        !assume_yes && stdin_is_terminal && stdout_is_terminal ==> r is None,
{
    if assume_yes || !stdin_is_terminal || !stdout_is_terminal {
        Some(true)
    } else {
        None
    }
}

/// A key.
#[derive(Debug, Clone, Copy, PartialEq, Eq, Structural)]
pub enum Key {
    Up,
    Down,
    Left,
    Right,
    Tab,
    Enter,
    Esc,
    Char { c: char, control: bool },
    Other,
}

/// What the terminal reports.
#[derive(Debug, Clone, Copy, PartialEq, Eq, Structural)]
pub enum Event {
    /// A key went down.
    Press { key: Key },
    /// A key went up or repeats. Some systems report both; acting on both would toggle twice.
    Release { key: Key },
    /// Anything else, such as a change of the window's size.
    Other,
    /// The terminal cannot be read.
    Unreadable,
}

/// What an event does to the prompt.
#[derive(Debug, Clone, Copy, PartialEq, Eq, Structural)]
pub enum Reaction {
    Nothing,
    /// The other option is selected.
    Toggle,
    Answer { yes: bool },
}

/// What an event does while going ahead is selected (`accept`) or not.
pub open spec fn reaction_to(event: Event, accept: bool) -> Reaction {
    match event {
        Event::Press { key } => match key {
            Key::Up | Key::Down | Key::Left | Key::Right | Key::Tab => Reaction::Toggle,
            Key::Enter => Reaction::Answer { yes: accept },
            Key::Esc => Reaction::Answer { yes: false },
            Key::Char { c, control } => if (c == 'c' || c == 'C') && control {
                Reaction::Answer { yes: false }
            } else if c == ' ' {
                Reaction::Answer { yes: accept }
            } else if c == 'y' || c == 'Y' {
                Reaction::Answer { yes: true }
            } else if c == 'n' || c == 'N' || c == 'q' {
                Reaction::Answer { yes: false }
            } else {
                Reaction::Nothing
            },
            Key::Other => Reaction::Nothing,
        },
        Event::Release { .. } => Reaction::Nothing,
        Event::Other => Reaction::Nothing,
        Event::Unreadable => Reaction::Answer { yes: true },
    }
}

/// What an event does to the prompt.
fn react(event: Event, accept: bool) -> (r: Reaction)
    ensures
        r == reaction_to(event, accept),
{
    match event {
        Event::Press { key } => match key {
            Key::Up | Key::Down | Key::Left | Key::Right | Key::Tab => Reaction::Toggle,
            Key::Enter => Reaction::Answer { yes: accept },
            Key::Esc => Reaction::Answer { yes: false },
            Key::Char { c, control } => if (c == 'c' || c == 'C') && control {
                Reaction::Answer { yes: false }
            } else if c == ' ' {
                Reaction::Answer { yes: accept }
            } else if c == 'y' || c == 'Y' {
                Reaction::Answer { yes: true }
            } else if c == 'n' || c == 'N' || c == 'q' {
                Reaction::Answer { yes: false }
            } else {
                Reaction::Nothing
            },
            Key::Other => Reaction::Nothing,
        },
        Event::Release { .. } => Reaction::Nothing,
        Event::Other => Reaction::Nothing,
        Event::Unreadable => Reaction::Answer { yes: true },
    }
}

/// Whether going ahead is selected after a reaction.
pub open spec fn selected_after(reaction: Reaction, accept: bool) -> bool {
    if reaction is Toggle {
        !accept
    } else {
        accept
    }
}

/// Only a toggle changes what is selected, and it always does.
pub proof fn law_toggle_selects_the_other(reaction: Reaction, accept: bool)
    ensures
        selected_after(reaction, accept) != accept <==> reaction is Toggle,
{
}

/// The state of the prompt: which option is selected.
#[derive(Debug)]
pub struct Dialog {
    /// Whether going ahead is selected, rather than cancelling.
    pub accept: bool,
}

impl Dialog {
    /// Going ahead is selected at first.
    pub fn new() -> (r: Self)
        ensures
            r.accept,
    {
        Dialog { accept: true }
    }

    /// Takes in an event.
    pub fn handle(&mut self, event: Event) -> (r: Reaction)
        ensures
            r == reaction_to(event, old(self).accept),
            final(self).accept == if r is Toggle {
                !old(self).accept
            } else {
                old(self).accept
            },
            final(self).accept == selected_after(r, old(self).accept),
    {
        let r = react(event, self.accept);
        if let Reaction::Toggle = r {
            self.accept = !self.accept;
        }
        r
    }
}

/// The answer that a run of events gives, if any, from the option that is selected at first.
pub open spec fn answer(events: Seq<Event>, accept: bool) -> Option<bool>
    decreases events.len(),
{
    if events.len() == 0 {
        None
    } else {
        match reaction_to(events[0], accept) {
            Reaction::Nothing => answer(events.drop_first(), accept),
            Reaction::Toggle => answer(events.drop_first(), !accept),
            Reaction::Answer { yes } => Some(yes),
        }
    }
}

/// Whether an event is one that the prompt acts on.
pub open spec fn counts(event: Event) -> bool {
    event is Press || event is Unreadable
}

/// Only keys that go down count: reports of keys going up change nothing.
pub proof fn law_releases_do_not_count(events: Seq<Event>, accept: bool)
    ensures
        answer(events, accept) == answer(events.filter(|e: Event| counts(e)), accept),
    decreases events.len(),
{
    let keep = |e: Event| counts(e);
    reveal(Seq::filter);
    if events.len() > 0 {
        let rest = events.drop_first();
        law_releases_do_not_count(rest, accept);
        law_releases_do_not_count(rest, !accept);
        assert(events =~= seq![events[0]] + rest);
        Seq::filter_distributes_over_add(seq![events[0]], rest, keep);
        let kept = events.filter(keep);
        assert(seq![events[0]].drop_last() =~= Seq::empty());
        assert(seq![events[0]].last() == events[0]);
        reveal_with_fuel(Seq::filter, 2);
        if counts(events[0]) {
            assert(seq![events[0]].filter(keep) =~= seq![events[0]]);
            assert(kept =~= seq![events[0]] + rest.filter(keep));
            assert(kept.drop_first() =~= rest.filter(keep));
        } else {
            assert(seq![events[0]].filter(keep) =~= Seq::empty());
            assert(kept =~= rest.filter(keep));
        }
    }
}

/// Whether an event can refuse: a key for "no", or a confirmation of what is selected.
pub open spec fn can_refuse(event: Event) -> bool {
    match event {
        Event::Press { key } => match key {
            Key::Enter | Key::Esc => true,
            Key::Char { c, control } => (c == 'c' || c == 'C') && control || c == ' ' || c == 'n' || c == 'N' || c
                == 'q',
            _ => false,
        },
        _ => false,
    }
}

/// The prompt refuses only at the user's word.
pub proof fn law_refusal_takes_a_key(events: Seq<Event>, accept: bool)
    requires
        answer(events, accept) == Some(false),
    ensures
        exists|i: int| 0 <= i < events.len() && can_refuse(#[trigger] events[i]),
    decreases events.len(),
{
    if reaction_to(events[0], accept) is Answer {
        assert(can_refuse(events[0]));
    } else {
        let next = if reaction_to(events[0], accept) is Toggle {
            !accept
        } else {
            accept
        };
        law_refusal_takes_a_key(events.drop_first(), next);
        let i = choose|i: int| 0 <= i < events.drop_first().len() && can_refuse(#[trigger] events.drop_first()[i]);
        assert(events[i + 1] == events.drop_first()[i]);
    }
}

/// Yes is yes and no is no, whatever is selected; Enter and the space bar take what is selected; the arrows and
/// Tab select the other option; and nothing else that is typed does anything. Control-C is a no.
pub proof fn law_keys_mean_what_they_say(accept: bool, control: bool, c: char)
    ensures
        reaction_to(Event::Press { key: Key::Enter }, accept) == (Reaction::Answer { yes: accept }),
        reaction_to(Event::Press { key: Key::Char { c: ' ', control } }, accept) == (Reaction::Answer { yes: accept }),
        reaction_to(Event::Press { key: Key::Esc }, accept) == (Reaction::Answer { yes: false }),
        c == 'y' || c == 'Y' ==> reaction_to(Event::Press { key: Key::Char { c, control } }, accept) == (
        Reaction::Answer { yes: true }),
        c == 'n' || c == 'N' || c == 'q' ==> reaction_to(Event::Press { key: Key::Char { c, control } }, accept) == (
        Reaction::Answer { yes: false }),
        c == 'c' || c == 'C' ==> reaction_to(Event::Press { key: Key::Char { c, control } }, accept) == if control {
            Reaction::Answer { yes: false }
        } else {
            Reaction::Nothing
        },
        reaction_to(Event::Press { key: Key::Up }, accept) is Toggle,
        reaction_to(Event::Press { key: Key::Down }, accept) is Toggle,
        reaction_to(Event::Press { key: Key::Left }, accept) is Toggle,
        reaction_to(Event::Press { key: Key::Right }, accept) is Toggle,
        reaction_to(Event::Press { key: Key::Tab }, accept) is Toggle,
        c != ' ' && c != 'y' && c != 'Y' && c != 'n' && c != 'N' && c != 'q' && c != 'c' && c != 'C' ==> reaction_to(
            Event::Press { key: Key::Char { c, control } },
            accept,
        ) is Nothing,
        reaction_to(Event::Press { key: Key::Other }, accept) is Nothing,
{
}

/// Reports that no key went down do nothing. A terminal that cannot be read has nobody to answer, so it is a yes.
pub proof fn law_only_keys_that_go_down_count(event: Event, key: Key, accept: bool)
    ensures
        reaction_to(Event::Release { key }, accept) is Nothing,
        reaction_to(Event::Other, accept) is Nothing,
        reaction_to(Event::Unreadable, accept) == (Reaction::Answer { yes: true }),
{
}

/// Selecting the other option twice is selecting none: the answer is that of the rest.
pub proof fn law_two_toggles_cancel_out(a: Event, b: Event, rest: Seq<Event>, accept: bool)
    requires
        reaction_to(a, accept) is Toggle,
        reaction_to(b, !accept) is Toggle,
    ensures
        answer(seq![a, b] + rest, accept) == answer(rest, accept),
{
    let all = seq![a, b] + rest;
    assert(all.drop_first() =~= seq![b] + rest);
    assert((seq![b] + rest).drop_first() =~= rest);
    reveal_with_fuel(answer, 3);
}

/// The first answer counts: what is typed behind it changes nothing, and without one there is none.
pub proof fn law_first_answer_counts(events: Seq<Event>, more: Seq<Event>, accept: bool)
    ensures
        answer(events, accept) is Some ==> answer(events + more, accept) == answer(events, accept),
        answer(Seq::empty(), accept) is None,
        answer(seq![Event::Press { key: Key::Enter }] + more, accept) == Some(accept),
        answer(seq![Event::Press { key: Key::Esc }] + more, accept) == Some(false),
    decreases events.len(),
{
    reveal_with_fuel(answer, 2);
    let enter = seq![Event::Press { key: Key::Enter }] + more;
    assert(enter[0] == (Event::Press { key: Key::Enter }));
    let esc = seq![Event::Press { key: Key::Esc }] + more;
    assert(esc[0] == (Event::Press { key: Key::Esc }));
    if events.len() > 0 {
        assert((events + more)[0] == events[0]);
        assert((events + more).drop_first() =~= events.drop_first() + more);
        law_first_answer_counts(events.drop_first(), more, accept);
        law_first_answer_counts(events.drop_first(), more, !accept);
    }
}

/// The user is asked exactly where there is a terminal to ask and to be answered on and nobody said yes beforehand;
/// otherwise the answer is yes. The prompt starts with going ahead selected.
pub proof fn law_user_is_asked(assume_yes: bool, terminals: (bool, bool), preset: Option<bool>, dialog: Dialog)
    requires
        call_ensures(preset_answer, (assume_yes, terminals.0, terminals.1), preset),
        call_ensures(Dialog::new, (), dialog),
    ensures
        preset is None <==> !assume_yes && terminals.0 && terminals.1,
        preset is Some ==> preset == Some(true),
        dialog.accept,
{
}

/// The question names the place of a fresh install, and does not for one that goes on; the two options are for going
/// ahead and for cancelling, and exactly one of them is selected.
pub proof fn law_prompt_offers_a_choice(
    prompt: Prompt,
    accept: bool,
    question: String,
    options: [(bool, String); 2],
)
    requires
        call_ensures(Prompt::question, (&prompt,), question),
        call_ensures(Prompt::options, (&prompt, accept), options),
    ensures
        prompt matches Prompt::Fresh { dir, .. } ==> question@ == "Download to "@ + dir@ + "?"@,
        prompt is Resume ==> question@ == "Continue download?"@,
        options@[0].0 == accept && options@[1].0 == !accept,
        prompt is Fresh ==> options@[0].1@ == "[ Download ]"@,
        prompt is Resume ==> options@[0].1@ == "[ Continue ]"@,
        options@[1].1@ == "[ Cancel ]"@,
{
    reveal_strlit("[ ");
    reveal_strlit(" ]");
    reveal_strlit("Download");
    reveal_strlit("Continue");
    reveal_strlit("[ Download ]");
    reveal_strlit("[ Continue ]");
    assert("[ "@ + "Download"@ + " ]"@ =~= "[ Download ]"@);
    assert("[ "@ + "Continue"@ + " ]"@ =~= "[ Continue ]"@);
}

/// The dialog reacts to each event by what is selected, and a toggle alone changes that.
pub proof fn law_dialog_reacts(dialog: &mut Dialog, event: Event, reaction: Reaction)
    requires
        call_ensures(Dialog::handle, (dialog, event), reaction),
    ensures
        reaction == reaction_to(event, old(dialog).accept),
        final(dialog).accept != old(dialog).accept <==> reaction is Toggle,
{
}

/// The prompt says how much there is to fetch, and of an install that goes on also how much is there already.
pub proof fn law_prompt_says_how_much(prompt: Prompt, detail: String)
    requires
        call_ensures(Prompt::detail, (&prompt,), detail),
    ensures
        prompt matches Prompt::Fresh { files, bytes, .. } ==> detail@ == number::dec(files as nat) + " files · "@
            + measure::gigabytes_text(bytes as nat) + " GB to fetch"@,
        prompt matches Prompt::Resume { dir, files, bytes, have } ==> detail@ == number::dec(have as nat)
            + " file(s) already in "@ + dir@ + " · "@ + number::dec(files as nat) + " file(s) · "@ + measure::gigabytes_text(
            bytes as nat,
        ) + " GB still to fetch"@,
{
}

} // verus!
