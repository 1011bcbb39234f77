//! The decisions of one focus-or-start round trip and of the D-Bus services:
//! how the script's reply is answered, when a bus name is asked for again,
//! and how long to wait for the next message.

use vstd::prelude::*;

use crate::text::{chars_of, string_of_range, trim, trimmed_bounds};

verus! {

/// Exit code used when the KWin script reports a failure (`ERROR <message>`),
/// mirroring "command not found" semantics for scripts.
pub const SCRIPT_ERROR: u8 = 127;

/// Exit code used when the program's process already runs but shows no
/// window, so that it is not started a second time.
pub const NO_WINDOW: u8 = 127;

/// Exit code used when the KWin script never replies in time.
pub const TIMED_OUT: u8 = 255;

/// How many times the one-shot client asks for its bus name.
pub const NAME_RETRY_ATTEMPTS: u32 = 10;

/// The longest single wait for incoming messages, in milliseconds.
pub const POLL_INTERVAL_MS: u64 = 500;

/// How long the background service stays without calls before it exits, in
/// milliseconds.
pub const IDLE_TIMEOUT_MS: u64 = 10000;

/// What the client does once the KWin script has answered, or has not.
#[derive(Debug, Clone, PartialEq, Eq)]
pub enum Outcome {
    /// The script matched and handled a window (`OK <window-id>`); the id is
    /// given when it was asked for, to be printed.
    Matched(Option<String>),
    /// No window matched (`NotFound`) and a program was given: start it.
    Launch,
    /// No window matched, but a process of the given program is already
    /// running: warn and do not start it again.
    RunningWithoutWindow,
    /// No window matched and there is nothing to start.
    NothingMatched,
    /// The script itself failed (`ERROR <message>`), with its message.
    ScriptError(String),
    /// No reply arrived in time.
    TimedOut,
    /// A reply outside the protocol.
    Unexpected(String),
}

/// The content of an [`Outcome`].
pub enum OutcomeView {
    Matched(Option<Seq<char>>),
    Launch,
    RunningWithoutWindow,
    NothingMatched,
    ScriptError(Seq<char>),
    TimedOut,
    Unexpected(Seq<char>),
}

impl View for Outcome {
    type V = OutcomeView;

    open spec fn view(&self) -> OutcomeView {
        match self {
            Outcome::Matched(id) => OutcomeView::Matched(
                match id {
                    Some(i) => Some(i@),
                    None => None,
                },
            ),
            Outcome::Launch => OutcomeView::Launch,
            Outcome::RunningWithoutWindow => OutcomeView::RunningWithoutWindow,
            Outcome::NothingMatched => OutcomeView::NothingMatched,
            Outcome::ScriptError(m) => OutcomeView::ScriptError(m@),
            Outcome::TimedOut => OutcomeView::TimedOut,
            Outcome::Unexpected(r) => OutcomeView::Unexpected(r@),
        }
    }
}

/// Whether `s` starts with `prefix`.
pub open spec fn starts_with(s: Seq<char>, prefix: Seq<char>) -> bool {
    prefix.len() <= s.len() && s.take(prefix.len() as int) == prefix
}

/// `s` without its leading `:` and space characters.
pub open spec fn strip_colons_and_spaces(s: Seq<char>) -> Seq<char>
    decreases s.len(),
{
    if s.len() > 0 && (s[0] == ':' || s[0] == ' ') {
        strip_colons_and_spaces(s.drop_first())
    } else {
        s
    }
}

/// The window id of an `OK` reply: what follows the `OK` and the character
/// after it (the separator), trimmed; empty when nothing follows.
pub open spec fn reply_id(r: Seq<char>) -> Seq<char> {
    if r.len() >= 3 {
        trim(r.skip(3))
    } else {
        Seq::empty()
    }
}

/// The answer to the script's reply:
///  * `OK <id>`: success, with the id (trimmed; empty for a bare `OK`) when
///    it was asked for;
///  * `NotFound`: start the program if there is one and no process of it is
///    running; when one is running without a window, warn instead; without a
///    program, fail;
///  * `ERROR <message>`: the script failed, with the message after `ERROR`
///    and any `:` and spaces;
///  * no reply: timeout;
///  * anything else: an unexpected reply.
pub open spec fn answer(
    reply: Option<Seq<char>>,
    wants_id: bool,
    has_program: bool,
    process_running: bool,
) -> OutcomeView {
    match reply {
        None => OutcomeView::TimedOut,
        Some(r) => if starts_with(r, seq!['O', 'K']) {
            OutcomeView::Matched(
                if wants_id {
                    Some(reply_id(r))
                } else {
                    None
                },
            )
        } else if r == seq!['N', 'o', 't', 'F', 'o', 'u', 'n', 'd'] {
            if has_program && process_running {
                OutcomeView::RunningWithoutWindow
            } else if has_program {
                OutcomeView::Launch
            } else {
                OutcomeView::NothingMatched
            }
        } else if starts_with(r, seq!['E', 'R', 'R', 'O', 'R']) {
            OutcomeView::ScriptError(strip_colons_and_spaces(r.skip(5)))
        } else {
            OutcomeView::Unexpected(r)
        },
    }
}

/// Whether `chars` starts with `prefix`.
fn has_prefix(chars: &Vec<char>, prefix: &Vec<char>) -> (b: bool)
    ensures
        b == starts_with(chars@, prefix@),
{
    if prefix.len() > chars.len() {
        return false;
    }
    let mut i: usize = 0;
    while i < prefix.len()
        invariant
            prefix@.len() <= chars@.len(),
            i <= prefix@.len(),
            forall|k: int| 0 <= k < i ==> chars@[k] == prefix@[k],
        decreases prefix.len() - i,
    {
        if chars[i] != prefix[i] {
            assert(chars@.take(prefix@.len() as int)[i as int] != prefix@[i as int]);
            return false;
        }
        i += 1;
    }
    assert(chars@.take(prefix@.len() as int) =~= prefix@);
    true
}

/// Turns the script's reply (`None` when none arrived in time) into what
/// the client does next. `process_running` tells whether a process of the
/// program is already running.
pub fn interpret_reply(
    reply: Option<&str>,
    wants_id: bool,
    has_program: bool,
    process_running: bool,
) -> (outcome: Outcome)
    ensures
        outcome@ == answer(
            match reply {
                Some(r) => Some(r@),
                None => None,
            },
            wants_id,
            has_program,
            process_running,
        ),
{
    let reply = match reply {
        Some(r) => r,
        None => return Outcome::TimedOut,
    };
    let chars = chars_of(reply);
    let n = chars.len();
    if has_prefix(&chars, &vec!['O', 'K']) {
        if wants_id {
            if n < 3 {
                return Outcome::Matched(Some(String::new()));
            }
            let (a, b) = trimmed_bounds(&chars, 3, n);
            assert(chars@.subrange(3, n as int) =~= reply@.skip(3));
            return Outcome::Matched(Some(string_of_range(&chars, a, b)));
        }
        return Outcome::Matched(None);
    }
    if has_prefix(&chars, &vec!['N', 'o', 't', 'F', 'o', 'u', 'n', 'd']) && n == 8 {
        assert(chars@ =~= chars@.take(8));
        if has_program && process_running {
            return Outcome::RunningWithoutWindow;
        }
        if has_program {
            return Outcome::Launch;
        }
        return Outcome::NothingMatched;
    }
    proof {
        if chars@ == seq!['N', 'o', 't', 'F', 'o', 'u', 'n', 'd'] {
            assert(chars@.take(8) =~= chars@);
        }
    }
    if has_prefix(&chars, &vec!['E', 'R', 'R', 'O', 'R']) {
        let mut i: usize = 5;
        while i < n && (chars[i] == ':' || chars[i] == ' ')
            invariant
                5 <= i <= n == chars@.len(),
                strip_colons_and_spaces(chars@.skip(5)) == strip_colons_and_spaces(
                    chars@.skip(i as int),
                ),
            decreases n - i,
        {
            assert(chars@.skip(i as int).drop_first() =~= chars@.skip(i + 1));
            i += 1;
        }
        let message = string_of_range(&chars, i, n);
        assert(message@ =~= chars@.skip(i as int));
        return Outcome::ScriptError(message);
    }
    let text = string_of_range(&chars, 0, n);
    assert(text@ =~= reply@);
    Outcome::Unexpected(text)
}

/// The process exit code of an outcome, once a launch (if any) has
/// succeeded; `None` for an unexpected reply, which is an error.
pub open spec fn exit_code_of(outcome: OutcomeView) -> Option<u8> {
    match outcome {
        OutcomeView::Matched(_) => Some(0u8),
        OutcomeView::Launch => Some(0u8),
        OutcomeView::RunningWithoutWindow => Some(NO_WINDOW),
        OutcomeView::NothingMatched => Some(1u8),
        OutcomeView::ScriptError(_) => Some(SCRIPT_ERROR),
        OutcomeView::TimedOut => Some(TIMED_OUT),
        OutcomeView::Unexpected(_) => None,
    }
}

impl Outcome {
    /// The process exit code of the outcome, once a launch (if any) has
    /// succeeded; `None` for an unexpected reply, which is an error.
    pub fn exit_code(&self) -> (code: Option<u8>)
        ensures
            code == exit_code_of(self@),
    {
        match self {
            Outcome::Matched(_) => Some(0),
            Outcome::Launch => Some(0),
            Outcome::RunningWithoutWindow => Some(NO_WINDOW),
            Outcome::NothingMatched => Some(1),
            Outcome::ScriptError(_) => Some(SCRIPT_ERROR),
            Outcome::TimedOut => Some(TIMED_OUT),
            Outcome::Unexpected(_) => None,
        }
    }
}

/// When no window matches, a given program is started only if no process of
/// it is running: with one running, the answer is a warning that ends with
/// exit code 127 and no launch; otherwise the program is launched and the
/// exit code is 0.
pub proof fn lemma_running_program_is_not_started(wants_id: bool, process_running: bool)
    ensures
        ({
            let o = answer(Some("NotFound"@), wants_id, true, process_running);
            &&& process_running ==> o == OutcomeView::RunningWithoutWindow && exit_code_of(o)
                == Some(127u8)
            &&& !process_running ==> o == OutcomeView::Launch && exit_code_of(o) == Some(0u8)
        }),
{
    reveal_strlit("NotFound");
    assert(!starts_with("NotFound"@, seq!['O', 'K']));
    assert("NotFound"@ =~= seq!['N', 'o', 't', 'F', 'o', 'u', 'n', 'd']);
}

/// Stripping leading `:` and spaces drops a run of them from the front and
/// stops at the first other character.
proof fn lemma_strip_colons_and_spaces(s: Seq<char>) -> (k: nat)
    ensures
        k <= s.len(),
        strip_colons_and_spaces(s) == s.skip(k as int),
        forall|j: int| 0 <= j < k ==> s[j] == ':' || s[j] == ' ',
        strip_colons_and_spaces(s).len() == 0 || (strip_colons_and_spaces(s)[0] != ':'
            && strip_colons_and_spaces(s)[0] != ' '),
    decreases s.len(),
{
    if s.len() > 0 && (s[0] == ':' || s[0] == ' ') {
        let k = lemma_strip_colons_and_spaces(s.drop_first());
        assert(s.drop_first().skip(k as int) =~= s.skip(k + 1 as int));
        assert forall|j: int| 0 <= j < k + 1 implies s[j] == ':' || s[j] == ' ' by {
            if j > 0 {
                assert(s[j] == s.drop_first()[j - 1]);
            }
        }
        k + 1
    } else {
        assert(s.skip(0) =~= s);
        0
    }
}

/// Every reply that starts with `ERROR` is a failure of the script, whatever
/// follows, with exit code 127; its message is the rest of the reply after
/// `ERROR` and a run of `:` and spaces, and starts with neither.
pub proof fn lemma_error_replies(
    reply: Seq<char>,
    wants_id: bool,
    has_program: bool,
    process_running: bool,
)
    requires
        reply.len() >= 5,
        reply.take(5) == seq!['E', 'R', 'R', 'O', 'R'],
    ensures
        answer(Some(reply), wants_id, has_program, process_running) matches OutcomeView::ScriptError(
            message,
        ) && (exists|k: int|
            5 <= k <= reply.len() && message == reply.skip(k) && forall|j: int|
                5 <= j < k ==> #[trigger] reply[j] == ':' || reply[j] == ' ') && (message.len() == 0
            || (message[0] != ':' && message[0] != ' ')),
        exit_code_of(answer(Some(reply), wants_id, has_program, process_running)) == Some(127u8),
{
    assert(reply[0] == 'E');
    assert(reply != seq!['N', 'o', 't', 'F', 'o', 'u', 'n', 'd']);
    let rest = reply.skip(5);
    let k = lemma_strip_colons_and_spaces(rest);
    assert(rest.skip(k as int) =~= reply.skip(5 + k as int));
    assert forall|j: int| 5 <= j < 5 + k implies #[trigger] reply[j] == ':' || reply[j] == ' ' by {
        assert(reply[j] == rest[j - 5]);
    }
}

/// What the one-shot client does after asking for its bus name.
#[derive(Debug, Clone, Copy, PartialEq, Eq, Structural)]
pub enum NameStep {
    /// The name is ours.
    Acquired,
    /// Another client holds it: wait a second and ask again.
    Retry,
    /// Another client held it on every attempt: give up.
    GiveUp,
}

/// The step after the `attempt`-th request (1-based) for the client's bus
/// name: done when it is owned, otherwise retried until the last attempt.
pub fn name_request_step(owned: bool, attempt: u32) -> (step: NameStep)
    ensures
        owned ==> step == NameStep::Acquired,
        !owned && attempt < NAME_RETRY_ATTEMPTS ==> step == NameStep::Retry,
        !owned && attempt >= NAME_RETRY_ATTEMPTS ==> step == NameStep::GiveUp,
{
    if owned {
        NameStep::Acquired
    } else if attempt < NAME_RETRY_ATTEMPTS {
        NameStep::Retry
    } else {
        NameStep::GiveUp
    }
}

/// How long the one-shot client waits for the next message: nothing once the
/// script has replied or the deadline has passed, otherwise the time left,
/// but at most the poll interval.
pub fn next_wait(replied: bool, remaining_ms: u64) -> (wait: Option<u64>)
    ensures
        replied || remaining_ms == 0 ==> wait is None,
        !replied && remaining_ms > 0 ==> wait == Some(
            if remaining_ms < POLL_INTERVAL_MS {
                remaining_ms
            } else {
                POLL_INTERVAL_MS
            },
        ),
{
    if replied || remaining_ms == 0 {
        None
    } else if remaining_ms < POLL_INTERVAL_MS {
        Some(remaining_ms)
    } else {
        Some(POLL_INTERVAL_MS)
    }
}

/// Whether the background service has been idle long enough to exit.
pub fn idle_expired(idle_ms: u64) -> (expired: bool)
    ensures
        expired == (idle_ms >= IDLE_TIMEOUT_MS),
{
    idle_ms >= IDLE_TIMEOUT_MS
}

} // verus!
