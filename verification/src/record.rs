//! One captured execution: a shell command run or an assistant exchange.

use vstd::prelude::*;

verus! {

/// Distinguishes a captured subprocess run from a stored query/response pair.
#[derive(PartialEq, Eq, Structural, Clone, Copy, Debug)]
pub enum RecordSource {
    ShellCommand,
    AssistantExchange,
}

/// Byte length of a text under its UTF-8 encoding.
pub open spec fn text_bytes(s: Seq<char>) -> nat {
    vstd::utf8::encode_utf8(s).len()
}

/// One captured execution. All fields are set at construction and never
/// mutated afterwards; `size_bytes` is the exact byte total of the three
/// text fields, and `created_at` is the capture time in seconds.
pub struct CommandRecord {
    pub source: RecordSource,
    pub input: String,
    pub stdout: String,
    pub stderr: String,
    pub size_bytes: usize,
    pub created_at: u64,
}

impl CommandRecord {
    /// `size_bytes` is exactly the sum of the byte lengths of `input`,
    /// `stdout` and `stderr`.
    pub open spec fn wf(self) -> bool {
        self.size_bytes == text_bytes(self.input@) + text_bytes(self.stdout@) + text_bytes(
            self.stderr@,
        )
    }

    pub fn new(
        source: RecordSource,
        input: String,
        stdout: String,
        stderr: String,
        created_at: u64,
    ) -> (r: Self)
        requires
            text_bytes(input@) + text_bytes(stdout@) + text_bytes(stderr@) <= usize::MAX,
        ensures
            r.wf(),
            r.source == source,
            r.input == input,
            r.stdout == stdout,
            r.stderr == stderr,
            r.created_at == created_at,
            r.size_bytes == text_bytes(input@) + text_bytes(stdout@) + text_bytes(stderr@),
    {
        let size_bytes: usize = input.as_str().len() + stdout.as_str().len() + stderr.as_str().len(
        );
        CommandRecord { source, input, stdout, stderr, size_bytes, created_at }
    }
}

} // verus!
