//! Per-line classification and the two-mode dispatch state machine.
//!
//! A line is, in priority order: empty (no-op), the exit directive, the
//! reset directive, the mode toggle, or a payload for the current mode
//! (shell command or assistant query). Directives match the entire trimmed
//! line, ignoring ASCII case.

use vstd::prelude::*;

use crate::history::MemoryCache;
use crate::history::spec_add;
use crate::history::ts_bounded;
use crate::record::text_bytes;
use crate::record::CommandRecord;
use crate::record::RecordSource;
use vstd::string::StrSliceExecFns;

verus! {

/// How input lines are currently interpreted.
#[derive(PartialEq, Eq, Structural, Clone, Copy, Debug)]
pub enum Mode {
    ShellMode,
    AssistantMode,
}

/// What the caller must do with the line just classified.
#[derive(PartialEq, Eq, Structural, Clone, Copy, Debug)]
pub enum Action {
    /// Empty line: nothing to do, prompt again.
    Prompt,
    /// Exit directive: leave the loop.
    Terminate,
    /// Reset directive: the history was cleared.
    ResetHistory,
    /// Toggle: the mode was flipped; announce the new one.
    AnnounceMode,
    /// Execute the trimmed line as a shell command.
    RunShell,
    /// Route the trimmed line to the assistant with the rendered context.
    QueryAssistant,
}

/// Outcome of classifying one line: the mode afterwards and the action due.
#[derive(PartialEq, Eq, Structural, Clone, Copy, Debug)]
pub struct Decision {
    pub mode: Mode,
    pub action: Action,
}

pub open spec fn flip_mode(m: Mode) -> Mode {
    match m {
        Mode::ShellMode => Mode::AssistantMode,
        Mode::AssistantMode => Mode::ShellMode,
    }
}

/// The whitespace trimmed from both ends of a line.
pub open spec fn is_space(c: char) -> bool {
    c == ' ' || c == '\t' || c == '\r' || c == '\n'
}

pub open spec fn trim_front(s: Seq<char>) -> Seq<char>
    decreases s.len(),
{
    if s.len() > 0 && is_space(s[0]) {
        trim_front(s.drop_first())
    } else {
        s
    }
}

pub open spec fn trim_back(s: Seq<char>) -> Seq<char>
    decreases s.len(),
{
    if s.len() > 0 && is_space(s.last()) {
        trim_back(s.drop_last())
    } else {
        s
    }
}

/// The line with leading and trailing whitespace removed.
pub open spec fn spec_trim(s: Seq<char>) -> Seq<char> {
    trim_back(trim_front(s))
}

/// ASCII lower-case code of a character.
pub open spec fn lower_code(c: char) -> int {
    if 65 <= c as u32 && c as u32 <= 90 {
        c as u32 + 32
    } else {
        c as u32 as int
    }
}

/// Equality of two texts up to ASCII case.
pub open spec fn eq_ignore_case(a: Seq<char>, b: Seq<char>) -> bool {
    a.len() == b.len() && forall|k: int|
        0 <= k < a.len() ==> #[trigger] lower_code(a[k]) == lower_code(b[k])
}

/// The transition relation of the dispatcher, evaluated in priority order
/// on the trimmed line.
pub open spec fn spec_step(mode: Mode, line: Seq<char>) -> Decision {
    let t = spec_trim(line);
    if t.len() == 0 {
        Decision { mode, action: Action::Prompt }
    } else if eq_ignore_case(t, "exit"@) {
        Decision { mode, action: Action::Terminate }
    } else if eq_ignore_case(t, "reset"@) {
        Decision { mode, action: Action::ResetHistory }
    } else if t == "!"@ {
        Decision { mode: flip_mode(mode), action: Action::AnnounceMode }
    } else if mode == Mode::ShellMode {
        Decision { mode, action: Action::RunShell }
    } else {
        Decision { mode, action: Action::QueryAssistant }
    }
}

proof fn lemma_trim_front_at(s: Seq<char>, i: int)
    requires
        0 <= i <= s.len(),
        forall|k: int| 0 <= k < i ==> is_space(#[trigger] s[k]),
        i == s.len() || !is_space(s[i]),
    ensures
        trim_front(s) == s.skip(i),
    decreases i,
{
    if i == 0 {
        assert(s.skip(0) =~= s);
    } else {
        let s2 = s.drop_first();
        assert forall|k: int| 0 <= k < i - 1 implies is_space(#[trigger] s2[k]) by {
            assert(s2[k] == s[k + 1]);
        }
        if i - 1 < s2.len() {
            assert(s2[i - 1] == s[i]);
        }
        lemma_trim_front_at(s2, i - 1);
        assert(s2.skip(i - 1) =~= s.skip(i));
    }
}

proof fn lemma_trim_back_at(s: Seq<char>, j: int)
    requires
        0 <= j <= s.len(),
        forall|k: int| j <= k < s.len() ==> is_space(#[trigger] s[k]),
        j == 0 || !is_space(s[j - 1]),
    ensures
        trim_back(s) == s.take(j),
    decreases s.len() - j,
{
    if j == s.len() {
        assert(s.take(j) =~= s);
    } else {
        assert(is_space(s[s.len() - 1]));
        let s2 = s.drop_last();
        assert forall|k: int| j <= k < s2.len() implies is_space(#[trigger] s2[k]) by {
            assert(s2[k] == s[k]);
        }
        if j > 0 {
            assert(s2[j - 1] == s[j - 1]);
        }
        lemma_trim_back_at(s2, j);
        assert(s2.take(j) =~= s.take(j));
    }
}

fn is_space_char(c: char) -> (b: bool)
    ensures
        b == is_space(c),
{
    c == ' ' || c == '\t' || c == '\r' || c == '\n'
}

/// Removes leading and trailing whitespace.
pub fn trim_line<'a>(line: &'a str) -> (r: &'a str)
    ensures
        r@ == spec_trim(line@),
{
    let n = line.unicode_len();
    let mut start: usize = 0;
    while start < n && is_space_char(line.get_char(start))
        invariant
            n == line@.len(),
            start <= n,
            forall|k: int| 0 <= k < start ==> is_space(#[trigger] line@[k]),
        decreases n - start,
    {
        start = start + 1;
    }
    let mut end: usize = n;
    while end > start && is_space_char(line.get_char(end - 1))
        invariant
            n == line@.len(),
            start <= end <= n,
            forall|k: int| end <= k < n ==> is_space(#[trigger] line@[k]),
        decreases end,
    {
        end = end - 1;
    }
    let r = line.substring_char(start, end);
    proof {
        lemma_trim_front_at(line@, start as int);
        let rest = line@.skip(start as int);
        assert forall|k: int| end - start <= k < rest.len() implies is_space(
            #[trigger] rest[k],
        ) by {
            assert(rest[k] == line@[k + start]);
        }
        if end > start {
            assert(rest[end - start - 1] == line@[end - 1]);
        }
        lemma_trim_back_at(rest, end - start as int);
        assert(rest.take(end - start as int) =~= line@.subrange(start as int, end as int));
    }
    r
}

fn lower_code_of(c: char) -> (l: u32)
    ensures
        l as int == lower_code(c),
{
    let u = c as u32;
    if 65 <= u && u <= 90 {
        u + 32
    } else {
        u
    }
}

/// Whether two texts are equal up to ASCII case.
pub fn eq_ignore_case_str(a: &str, b: &str) -> (r: bool)
    ensures
        r == eq_ignore_case(a@, b@),
{
    let na = a.unicode_len();
    let nb = b.unicode_len();
    if na != nb {
        return false;
    }
    let mut i: usize = 0;
    while i < na
        invariant
            na == a@.len(),
            nb == b@.len(),
            na == nb,
            i <= na,
            forall|k: int| 0 <= k < i ==> #[trigger] lower_code(a@[k]) == lower_code(b@[k]),
        decreases na - i,
    {
        let la = lower_code_of(a.get_char(i));
        let lb = lower_code_of(b.get_char(i));
        if la != lb {
            return false;
        }
        i = i + 1;
    }
    true
}

/// Classifies one line against the current mode. Pure: the decision says
/// what changed and what the caller must do; nothing is mutated here.
pub fn classify_line(mode: Mode, line: &str) -> (d: Decision)
    ensures
        d == spec_step(mode, line@),
{
    let t = trim_line(line);
    if t.unicode_len() == 0 {
        return Decision { mode, action: Action::Prompt };
    }
    if eq_ignore_case_str(t, "exit") {
        return Decision { mode, action: Action::Terminate };
    }
    if eq_ignore_case_str(t, "reset") {
        return Decision { mode, action: Action::ResetHistory };
    }
    let mut toggled: bool = false;
    if t.unicode_len() == 1 {
        let c0 = t.get_char(0);
        toggled = c0 == '!';
    }
    proof {
        reveal_strlit("!");
        if toggled {
            assert(t@ =~= "!"@);
        }
    }
    if toggled {
        let flipped = match mode {
            Mode::ShellMode => Mode::AssistantMode,
            Mode::AssistantMode => Mode::ShellMode,
        };
        return Decision { mode: flipped, action: Action::AnnounceMode };
    }
    match mode {
        Mode::ShellMode => Decision { mode, action: Action::RunShell },
        Mode::AssistantMode => Decision { mode, action: Action::QueryAssistant },
    }
}

/// Whether `cmd` is one of the configured recordable command patterns.
pub open spec fn spec_recordable(patterns: Seq<String>, cmd: Seq<char>) -> bool {
    exists|k: int| 0 <= k < patterns.len() && (#[trigger] patterns[k])@ == cmd
}

/// The dispatcher: the current mode, the bounded history it feeds, and the
/// configured set of command patterns whose executions are recorded.
pub struct Dispatcher {
    pub mode: Mode,
    pub history: MemoryCache,
    pub record_commands: Vec<String>,
}

impl Dispatcher {
    pub open spec fn wf(self) -> bool {
        self.history.wf()
    }

    /// Starts in `ShellMode` with an empty history; the capacity, age limit
    /// and recordable patterns are fixed for the session.
    pub fn new(capacity_bytes: usize, max_age: u64, record_commands: Vec<String>) -> (d: Self)
        ensures
            d.wf(),
            d.mode == Mode::ShellMode,
            d.history.capacity_bytes == capacity_bytes,
            d.history.max_age == max_age,
            d.history.entries@ == Seq::<CommandRecord>::empty(),
            d.history.current_bytes == 0,
            d.record_commands == record_commands,
    {
        Dispatcher {
            mode: Mode::ShellMode,
            history: MemoryCache::new(capacity_bytes, max_age),
            record_commands,
        }
    }

    /// Classifies one line and applies its state effects: a toggle flips
    /// the mode, a reset clears the history, and nothing else changes the
    /// dispatcher. Running a command or querying the assistant is the
    /// caller's work; the returned action says which is due.
    pub fn handle_line(&mut self, line: &str) -> (a: Action)
        requires
            old(self).wf(),
        ensures
            final(self).wf(),
            a == spec_step(old(self).mode, line@).action,
            final(self).mode == spec_step(old(self).mode, line@).mode,
            final(self).record_commands == old(self).record_commands,
            final(self).history.capacity_bytes == old(self).history.capacity_bytes,
            final(self).history.max_age == old(self).history.max_age,
            a == Action::ResetHistory
                ==> final(self).history.entries@.len() == 0 && final(self).history.current_bytes
                    == 0,
            a != Action::ResetHistory ==> final(self).history == old(self).history,
    {
        let d = classify_line(self.mode, line);
        self.mode = d.mode;
        if d.action == Action::ResetHistory {
            self.history.clear();
        }
        d.action
    }

    /// Wraps one completed shell execution as a record created at `now` and
    /// inserts it at the history's tail, unless the command is not in the
    /// configured recordable set. Returns whether it was stored.
    pub fn observe_execution(
        &mut self,
        command: String,
        stdout: String,
        stderr: String,
        now: u64,
    ) -> (stored: bool)
        requires
            old(self).wf(),
            ts_bounded(old(self).history.entries@, now),
            text_bytes(command@) + text_bytes(stdout@) + text_bytes(stderr@) <= usize::MAX,
        ensures
            final(self).wf(),
            final(self).mode == old(self).mode,
            final(self).record_commands == old(self).record_commands,
            final(self).history.capacity_bytes == old(self).history.capacity_bytes,
            final(self).history.max_age == old(self).history.max_age,
            stored == spec_recordable(old(self).record_commands@, command@),
            !stored ==> final(self).history == old(self).history,
            stored ==> final(self).history.entries@.len() > 0,
            stored ==> final(self).history.entries@.last().source == RecordSource::ShellCommand,
            stored ==> final(self).history.entries@.last().input == command,
            stored ==> final(self).history.entries@.last().stdout == stdout,
            stored ==> final(self).history.entries@.last().stderr == stderr,
            stored ==> final(self).history.entries@.last().created_at == now,
            stored ==> final(self).history.entries@ == spec_add(
                old(self).history.entries@,
                final(self).history.entries@.last(),
                now as int,
                old(self).history.max_age as int,
                old(self).history.capacity_bytes as int,
            ),
    {
        let stored = self.is_recordable(&command);
        if stored {
            let r = CommandRecord::new(RecordSource::ShellCommand, command, stdout, stderr, now);
            self.history.add(r, now);
        }
        stored
    }

    /// Appends one assistant exchange to the history: the query in the
    /// input slot, the reply in the stdout slot, nothing in the stderr slot.
    pub fn store_exchange(&mut self, query: String, reply: String, now: u64)
        requires
            old(self).wf(),
            ts_bounded(old(self).history.entries@, now),
            text_bytes(query@) + text_bytes(reply@) <= usize::MAX,
        ensures
            final(self).wf(),
            final(self).mode == old(self).mode,
            final(self).record_commands == old(self).record_commands,
            final(self).history.capacity_bytes == old(self).history.capacity_bytes,
            final(self).history.max_age == old(self).history.max_age,
            final(self).history.entries@.len() > 0,
            final(self).history.entries@.last().source == RecordSource::AssistantExchange,
            final(self).history.entries@.last().input == query,
            final(self).history.entries@.last().stdout == reply,
            final(self).history.entries@.last().stderr@ == Seq::<char>::empty(),
            final(self).history.entries@.last().created_at == now,
            final(self).history.entries@ == spec_add(
                old(self).history.entries@,
                final(self).history.entries@.last(),
                now as int,
                old(self).history.max_age as int,
                old(self).history.capacity_bytes as int,
            ),
    {
        let empty = String::new();
        proof {
            assert(text_bytes(empty@) == 0);
        }
        let r = CommandRecord::new(RecordSource::AssistantExchange, query, reply, empty, now);
        self.history.add(r, now);
    }

    /// Whether an execution of `command` is to be recorded into history.
    pub fn is_recordable(&self, command: &String) -> (b: bool)
        ensures
            b == spec_recordable(self.record_commands@, command@),
    {
        let mut j: usize = 0;
        while j < self.record_commands.len()
            invariant
                j <= self.record_commands@.len(),
                forall|k: int| 0 <= k < j ==> (#[trigger] self.record_commands@[k])@ != command@,
            decreases self.record_commands@.len() - j,
        {
            if self.record_commands[j] == *command {
                return true;
            }
            j = j + 1;
        }
        false
    }
}

} // verus!
