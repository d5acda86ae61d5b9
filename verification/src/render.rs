//! Deterministic textual rendering of the retained window: the context
//! string handed to the assistant.

use vstd::prelude::*;

use crate::history::MemoryCache;
use crate::record::CommandRecord;
use vstd::string::StringExecFns;

verus! {

/// The decimal digit character for `d`.
pub open spec fn digit_char(d: nat) -> char {
    if d == 0 {
        '0'
    } else if d == 1 {
        '1'
    } else if d == 2 {
        '2'
    } else if d == 3 {
        '3'
    } else if d == 4 {
        '4'
    } else if d == 5 {
        '5'
    } else if d == 6 {
        '6'
    } else if d == 7 {
        '7'
    } else if d == 8 {
        '8'
    } else {
        '9'
    }
}

/// Decimal rendering of `n`, most significant digit first, no leading zeros.
pub open spec fn dec_str(n: nat) -> Seq<char>
    decreases n,
{
    if n < 10 {
        seq![digit_char(n)]
    } else {
        dec_str(n / 10).push(digit_char(n % 10))
    }
}

/// One record's block in the context: its input line, creation time in
/// seconds, and captured outputs.
pub open spec fn spec_render_record(r: CommandRecord) -> Seq<char> {
    "Command: "@ + r.input@ + "\nTimestamp: "@ + dec_str(r.created_at as nat) + "\nStdout: "@
        + r.stdout@ + "\nStderr: "@ + r.stderr@ + "\n"@
}

/// The whole context: every retained record's block, front to back, with a
/// blank separator line between consecutive blocks.
pub open spec fn spec_render(s: Seq<CommandRecord>) -> Seq<char>
    decreases s.len(),
{
    if s.len() == 0 {
        Seq::<char>::empty()
    } else if s.len() == 1 {
        spec_render_record(s[0])
    } else {
        spec_render(s.drop_last()) + "\n"@ + spec_render_record(s.last())
    }
}

fn digit_str(d: u64) -> (r: &'static str)
    requires
        d < 10,
    ensures
        r@ == seq![digit_char(d as nat)],
{
    proof {
        reveal_strlit("0");
        reveal_strlit("1");
        reveal_strlit("2");
        reveal_strlit("3");
        reveal_strlit("4");
        reveal_strlit("5");
        reveal_strlit("6");
        reveal_strlit("7");
        reveal_strlit("8");
        reveal_strlit("9");
    }
    let r: &'static str = if d == 0 {
        "0"
    } else if d == 1 {
        "1"
    } else if d == 2 {
        "2"
    } else if d == 3 {
        "3"
    } else if d == 4 {
        "4"
    } else if d == 5 {
        "5"
    } else if d == 6 {
        "6"
    } else if d == 7 {
        "7"
    } else if d == 8 {
        "8"
    } else {
        "9"
    };
    assert(r@ =~= seq![digit_char(d as nat)]);
    r
}

/// Appends the decimal rendering of `n` to `out`.
fn push_u64(out: &mut String, n: u64)
    ensures
        final(out)@ == old(out)@ + dec_str(n as nat),
    decreases n,
{
    if n < 10 {
        let d = digit_str(n);
        out.append(d);
    } else {
        push_u64(out, n / 10);
        let d = digit_str(n % 10);
        out.append(d);
        assert(out@ =~= old(out)@ + dec_str(n as nat));
    }
}

/// Appends one record's block to `out`.
fn push_record(out: &mut String, r: &CommandRecord)
    ensures
        final(out)@ == old(out)@ + spec_render_record(*r),
{
    out.append("Command: ");
    out.append(r.input.as_str());
    out.append("\nTimestamp: ");
    push_u64(out, r.created_at);
    out.append("\nStdout: ");
    out.append(r.stdout.as_str());
    out.append("\nStderr: ");
    out.append(r.stderr.as_str());
    out.append("\n");
    assert(out@ =~= old(out)@ + spec_render_record(*r));
}

impl MemoryCache {
    /// Renders every retained entry, oldest first, into one context string.
    /// A pure read: the cache is unchanged.
    pub fn get_context(&self) -> (r: String)
        ensures
            r@ == spec_render(self.entries@),
    {
        let mut out = String::new();
        let mut i: usize = 0;
        while i < self.entries.len()
            invariant
                i <= self.entries@.len(),
                out@ == spec_render(self.entries@.take(i as int)),
            decreases self.entries@.len() - i,
        {
            if i > 0 {
                out.append("\n");
            }
            push_record(&mut out, &self.entries[i]);
            proof {
                let taken = self.entries@.take(i + 1);
                assert(taken.drop_last() =~= self.entries@.take(i as int));
                assert(taken.last() == self.entries@[i as int]);
                if i == 0 {
                    assert(out@ =~= spec_render_record(taken[0]));
                }
                assert(out@ == spec_render(taken));
            }
            i = i + 1;
        }
        proof {
            assert(self.entries@.take(self.entries@.len() as int) =~= self.entries@);
        }
        out
    }
}

} // verus!
