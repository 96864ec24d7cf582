//! Static checks on a command line before it is run.
use vstd::prelude::*;
use vstd::string::*;

use crate::text::{
    chars_of, concat_str, contains_chars, contains_seq, decimal, decimal_string, lemma_contains_infix,
};

verus! {

broadcast use vstd::string::group_string_axioms;

/// The longest command line, in bytes, that [`validate_command_length`] accepts.
pub const MAX_COMMAND_LENGTH: usize = 10000;

/// Why a command line was refused.
#[derive(Debug, PartialEq, Eq)]
pub enum SecurityError {
    /// The command holds one of the dangerous patterns.
    DangerousCommand { pattern: String },
    /// The command is longer than [`MAX_COMMAND_LENGTH`] bytes.
    CommandTooLong { len: usize },
}

/// The patterns that mark a command as dangerous, in the order they are tried.
pub open spec fn dangerous_patterns() -> Seq<Seq<char>> {
    seq!["rm -rf /"@, "dd if="@, "mkfs"@, ":(){ :|:& };:"@]
}

/// The first dangerous pattern that occurs in `s`, by its index among
/// [`dangerous_patterns`]: no earlier pattern occurs in `s`.
pub open spec fn is_first_dangerous(s: Seq<char>, k: int) -> bool {
    &&& 0 <= k < dangerous_patterns().len()
    &&& contains_seq(s, dangerous_patterns()[k])
    &&& forall|j: int| 0 <= j < k ==> !contains_seq(s, #[trigger] dangerous_patterns()[j])
}

/// Whether any dangerous pattern occurs in `s`.
pub open spec fn is_dangerous(s: Seq<char>) -> bool {
    exists|k: int| 0 <= k < dangerous_patterns().len() && contains_seq(s, #[trigger] dangerous_patterns()[k])
}

/// A command line that holds a dangerous pattern anywhere, whatever comes
/// before or after it, is dangerous.
pub proof fn lemma_pattern_anywhere_is_dangerous(a: Seq<char>, k: int, b: Seq<char>)
    requires
        0 <= k < dangerous_patterns().len(),
    ensures
        is_dangerous(a + dangerous_patterns()[k] + b),
{
    lemma_contains_infix(a, dangerous_patterns()[k], b);
}

impl SecurityError {
    /// The human-readable text of the error.
    pub fn message(&self) -> (m: String)
        ensures
            match self {
                SecurityError::DangerousCommand { pattern } => m@ == "Dangerous command detected: "@
                    + pattern@,
                SecurityError::CommandTooLong { len } => m@ == "Command too long: "@ + decimal(
                    *len as nat,
                ) + " bytes"@,
            },
    {
        match self {
            SecurityError::DangerousCommand { pattern } => concat_str(
                "Dangerous command detected: ",
                pattern.as_str(),
            ),
            SecurityError::CommandTooLong { len } => {
                let n = decimal_string(*len as u64);
                let mut m = concat_str("Command too long: ", n.as_str());
                m.append(" bytes");
                m
            },
        }
    }
}

/// Refuses a command line that holds a dangerous pattern, naming the first
/// such pattern in the order of [`dangerous_patterns`].
pub fn check_command_safety(command: &str) -> (r: Result<(), SecurityError>)
    ensures
        r is Ok <==> !is_dangerous(command@),
        r matches Err(e) ==> exists|k: int|
            is_first_dangerous(command@, k) && e == (SecurityError::DangerousCommand {
                pattern: e->pattern,
            }) && #[trigger] dangerous_patterns()[k] == e->pattern@,
{
    let patterns: [&str; 4] = ["rm -rf /", "dd if=", "mkfs", ":(){ :|:& };:"];
    let text = chars_of(command);
    let mut i: usize = 0;
    while i < 4
        invariant
            0 <= i <= 4,
            text@ == command@,
            forall|k: int| 0 <= k < 4 ==> (#[trigger] patterns@[k])@ == dangerous_patterns()[k],
            forall|j: int| 0 <= j < i ==> !contains_seq(command@, #[trigger] dangerous_patterns()[j]),
        decreases 4 - i,
    {
        let p = chars_of(patterns[i]);
        if contains_chars(&text, &p) {
            let pattern = String::from_str(patterns[i]);
            assert(is_first_dangerous(command@, i as int));
            return Err(SecurityError::DangerousCommand { pattern });
        }
        i = i + 1;
    }
    Ok(())
}

/// Refuses a command line longer than [`MAX_COMMAND_LENGTH`] bytes.
pub fn validate_command_length(command: &str) -> (r: Result<(), SecurityError>)
    ensures
        r is Ok <==> command.len() <= MAX_COMMAND_LENGTH,
        r matches Err(e) ==> e == (SecurityError::CommandTooLong { len: command.len() }),
{
    let len = command.len();
    if len > MAX_COMMAND_LENGTH {
        return Err(SecurityError::CommandTooLong { len });
    }
    Ok(())
}

} // verus!
