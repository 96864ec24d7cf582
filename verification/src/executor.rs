//! The decisions around running a command for the server: whether it may
//! run, and the replies that report on it.
use vstd::prelude::*;
use vstd::string::*;
use vstd::utf8::{decode_utf8, valid_utf8};

use crate::paths::{file_name, file_name_spec, path_starts_with, path_starts_with_spec};
use crate::protocol::{ClientMessage, StreamType};
use crate::text::{
    bytes_view,
    signed_decimal, signed_decimal_string, chars_of, concat_str, contains_string, has_prefix, starts_with_chars, strings_view,
};

verus! {

broadcast use vstd::string::group_string_axioms;

/// The text that `String::from_utf8_lossy` makes of `bytes`.
pub uninterp spec fn utf8_lossy_of(bytes: Seq<u8>) -> Seq<char>;

/// `String::from_utf8_lossy`: the bytes decoded as UTF-8, each invalid
/// sequence replaced by U+FFFD. Valid UTF-8 is decoded as it is.
#[verifier::external_body]
fn utf8_lossy(bytes: &[u8]) -> (s: String)
    ensures
        s@ == utf8_lossy_of(bytes@),
        valid_utf8(bytes@) ==> s@ == decode_utf8(bytes@),
{
    String::from_utf8_lossy(bytes).to_string()
}

/// Whether an argument is treated as a path: it starts with `/`, `./` or
/// `../`, or holds a `/` anywhere.
pub open spec fn looks_like_path_spec(s: Seq<char>) -> bool {
    ||| has_prefix(s, "/"@)
    ||| has_prefix(s, "./"@)
    ||| has_prefix(s, "../"@)
    ||| s.contains('/')
}

/// Whether an argument is treated as a path (see [`looks_like_path_spec`]).
pub fn looks_like_path(value: &str) -> (b: bool)
    ensures
        b == looks_like_path_spec(value@),
{
    let v = chars_of(value);
    if starts_with_chars(&v, &chars_of("/")) || starts_with_chars(&v, &chars_of("./"))
        || starts_with_chars(&v, &chars_of("../")) {
        return true;
    }
    let mut i: usize = 0;
    while i < v.len()
        invariant
            i <= v.len(),
            v@ == value@,
            forall|k: int| 0 <= k < i ==> v@[k] != '/',
        decreases v.len() - i,
    {
        if v[i] == '/' {
            assert(v@[i as int] == '/');
            return true;
        }
        i = i + 1;
    }
    false
}

/// An argument is treated as a path exactly when it holds a `/`.
pub proof fn lemma_looks_like_path_iff_slash(s: Seq<char>)
    ensures
        looks_like_path_spec(s) <==> s.contains('/'),
{
    reveal_strlit("/");
    reveal_strlit("./");
    reveal_strlit("../");
    if has_prefix(s, "/"@) {
        assert("/"@[0] == '/');
        assert(s.take(1)[0] == s[0]);
        assert(s[0] == '/');
    }
    if has_prefix(s, "./"@) {
        assert("./"@[1] == '/');
        assert(s.take(2)[1] == s[1]);
        assert(s[1] == '/');
    }
    if has_prefix(s, "../"@) {
        assert("../"@[2] == '/');
        assert(s.take(3)[2] == s[2]);
        assert(s[2] == '/');
    }
}

/// The name a command is whitelisted by: the file name of its path, or the
/// command as given where the path has none.
pub open spec fn command_key_spec(command: Seq<char>) -> Seq<char> {
    match file_name_spec(command) {
        Some(f) => f,
        None => command,
    }
}

/// The name a command is whitelisted by, given the file name of its path:
/// that file name, or the command itself where there is none.
pub fn command_key_from(command: &str, name: Option<String>) -> (k: String)
    ensures
        match name {
            Some(f) => k@ == f@,
            None => k@ == command@,
        },
{
    match name {
        Some(f) => f,
        None => String::from_str(command),
    }
}

/// The name a command is whitelisted by (see [`command_key_spec`]).
pub fn command_key(command: &str) -> (k: String)
    ensures
        k@ == command_key_spec(command@),
{
    command_key_from(command, file_name(command))
}

/// Whether the resolved path `p` lies under one of the roots.
pub open spec fn under_some_root(p: Seq<u8>, roots: Seq<Seq<u8>>) -> bool {
    exists|j: int| 0 <= j < roots.len() && path_starts_with_spec(p, #[trigger] roots[j])
}

/// Whether argument `i` is a path outside every allowed root.
pub open spec fn disallowed_at(
    args: Seq<Seq<char>>,
    resolved: Seq<Seq<u8>>,
    roots: Seq<Seq<u8>>,
    i: int,
) -> bool {
    looks_like_path_spec(args[i]) && !under_some_root(resolved[i], roots)
}

/// An argument that lies under any one of the roots, the first or a later
/// one, is never refused for its path.
pub proof fn lemma_any_root_admits(
    args: Seq<Seq<char>>,
    resolved: Seq<Seq<u8>>,
    roots: Seq<Seq<u8>>,
    i: int,
    j: int,
)
    requires
        0 <= j < roots.len(),
        path_starts_with_spec(resolved[i], roots[j]),
    ensures
        !disallowed_at(args, resolved, roots, i),
{
}

/// An argument is refused for its path only when it looks like a path and
/// lies under none of the roots.
pub proof fn lemma_refused_under_no_root(
    args: Seq<Seq<char>>,
    resolved: Seq<Seq<u8>>,
    roots: Seq<Seq<u8>>,
    i: int,
)
    requires
        disallowed_at(args, resolved, roots, i),
    ensures
        args[i].contains('/'),
        forall|j: int| 0 <= j < roots.len() ==> !path_starts_with_spec(resolved[i], #[trigger] roots[j]),
{
    lemma_looks_like_path_iff_slash(args[i]);
}

fn under_any_root(p: &Vec<u8>, roots: &Vec<Vec<u8>>) -> (b: bool)
    ensures
        b == under_some_root(p@, bytes_view(roots@)),
        b <==> exists|j: int|
            0 <= j < roots.len() && path_starts_with_spec(p@, #[trigger] roots@[j]@),
{
    let mut j: usize = 0;
    while j < roots.len()
        invariant
            j <= roots.len(),
            forall|k: int| 0 <= k < j ==> !path_starts_with_spec(p@, #[trigger] bytes_view(roots@)[k]),
        decreases roots.len() - j,
    {
        if path_starts_with(p, &roots[j]) {
            assert(path_starts_with_spec(p@, bytes_view(roots@)[j as int]));
            assert(bytes_view(roots@)[j as int] == roots@[j as int]@);
            return true;
        }
        j = j + 1;
    }
    assert forall|k: int| 0 <= k < roots.len() implies !path_starts_with_spec(
        p@,
        #[trigger] roots@[k]@,
    ) by {
        assert(bytes_view(roots@)[k] == roots@[k]@);
    }
    false
}

/// Whether argument `i` is a path that the check of roots did not place
/// under any allowed root.
pub open spec fn outside_at(args: Seq<Seq<char>>, inside: Seq<bool>, i: int) -> bool {
    looks_like_path_spec(args[i]) && !inside[i]
}

/// The first argument that is a path and that is not inside an allowed root,
/// where `inside[i]` tells whether argument `i` lies inside one.
pub fn first_outside_root(args: &Vec<String>, inside: &Vec<bool>) -> (r: Option<String>)
    requires
        inside.len() == args.len(),
    ensures
        match r {
            Some(bad) => exists|i: int|
                0 <= i < args.len() && outside_at(strings_view(args@), inside@, i) && (forall|k: int|
                    0 <= k < i ==> !outside_at(strings_view(args@), inside@, k)) && bad@
                    == #[trigger] args@[i]@,
            None => forall|i: int| 0 <= i < args.len() ==> !outside_at(strings_view(args@), inside@, i),
        },
{
    let ghost a = strings_view(args@);
    let mut i: usize = 0;
    while i < args.len()
        invariant
            i <= args.len() == inside.len(),
            a == strings_view(args@),
            forall|k: int| 0 <= k < i ==> !outside_at(a, inside@, k),
        decreases args.len() - i,
    {
        if !inside[i] && looks_like_path(args[i].as_str()) {
            assert(outside_at(a, inside@, i as int));
            return Some(args[i].clone());
        }
        assert(!outside_at(a, inside@, i as int));
        i = i + 1;
    }
    None
}

/// The first argument that is a path outside every allowed root, if any.
/// `resolved[i]` is the bytes of the canonical form of `args[i]` (or of
/// `args[i]` itself where it has none), and `path_whitelist` holds the bytes
/// of the allowed roots; the roots are matched against the resolved form,
/// component by component.
pub fn find_disallowed_path(args: &Vec<String>, resolved: &Vec<Vec<u8>>, path_whitelist: &Vec<
    Vec<u8>,
>) -> (r: Option<String>)
    requires
        resolved.len() == args.len(),
    ensures
        match r {
            Some(bad) => exists|i: int|
                0 <= i < args.len() && disallowed_at(
                    strings_view(args@),
                    bytes_view(resolved@),
                    bytes_view(path_whitelist@),
                    i,
                ) && (forall|k: int|
                    0 <= k < i ==> !disallowed_at(
                        strings_view(args@),
                        bytes_view(resolved@),
                        bytes_view(path_whitelist@),
                        k,
                    )) && bad@ == #[trigger] args@[i]@ && (forall|j: int|
                    0 <= j < path_whitelist.len() ==> !path_starts_with_spec(
                        resolved@[i]@,
                        #[trigger] path_whitelist@[j]@,
                    )),
            None => forall|i: int|
                0 <= i < args.len() ==> !disallowed_at(
                    strings_view(args@),
                    bytes_view(resolved@),
                    bytes_view(path_whitelist@),
                    i,
                ),
        },
{
    let ghost c = bytes_view(resolved@);
    let ghost w = bytes_view(path_whitelist@);
    let mut inside: Vec<bool> = Vec::new();
    let mut i: usize = 0;
    while i < resolved.len()
        invariant
            i <= resolved.len(),
            inside.len() == i,
            c == bytes_view(resolved@),
            w == bytes_view(path_whitelist@),
            forall|k: int| 0 <= k < i ==> inside@[k] == under_some_root(c[k], w),
        decreases resolved.len() - i,
    {
        inside.push(under_any_root(&resolved[i], path_whitelist));
        i = i + 1;
    }
    let r = first_outside_root(args, &inside);
    proof {
        let a = strings_view(args@);
        assert forall|k: int| 0 <= k < args.len() implies outside_at(a, inside@, k)
            == disallowed_at(a, c, w, k) by {}
        assert forall|k: int, j: int|
            0 <= k < args.len() && 0 <= j < path_whitelist.len() && disallowed_at(a, c, w, k)
                implies !path_starts_with_spec(#[trigger] resolved@[k]@, #[trigger] path_whitelist@[j]@) by {
            assert(c[k] == resolved@[k]@);
            assert(w[j] == path_whitelist@[j]@);
            if path_starts_with_spec(resolved@[k]@, path_whitelist@[j]@) {
                assert(under_some_root(c[k], w));
            }
        }
    }
    r
}

/// Whether the command is refused, and the reason given for it: first the
/// whitelist, then the paths among its arguments.
pub open spec fn refusal_spec(
    command: Seq<char>,
    args: Seq<Seq<char>>,
    resolved: Seq<Seq<u8>>,
    whitelist: Seq<Seq<char>>,
    roots: Seq<Seq<u8>>,
    message: Seq<char>,
) -> bool {
    if !whitelist.contains(command_key_spec(command)) {
        message == "command not allowed: "@ + command_key_spec(command)
    } else {
        exists|i: int|
            0 <= i < args.len() && disallowed_at(args, resolved, roots, i) && (forall|k: int|
                0 <= k < i ==> !disallowed_at(args, resolved, roots, k)) && message
                == "path not allowed: "@ + #[trigger] args[i]
    }
}

/// Whether the command may run: its key is whitelisted and no argument is a
/// path outside the allowed roots.
pub open spec fn allowed_spec(
    command: Seq<char>,
    args: Seq<Seq<char>>,
    resolved: Seq<Seq<u8>>,
    whitelist: Seq<Seq<char>>,
    roots: Seq<Seq<u8>>,
) -> bool {
    &&& whitelist.contains(command_key_spec(command))
    &&& forall|i: int| 0 <= i < args.len() ==> !disallowed_at(args, resolved, roots, i)
}

/// The verdict on a command, given its key and the first argument that is a
/// path outside the allowed roots, if any: refused when the key is not
/// whitelisted, else when there is such an argument.
pub fn verdict(key: &String, whitelist: &Vec<String>, disallowed: Option<String>) -> (r: Result<
    (),
    String,
>)
    ensures
        !strings_view(whitelist@).contains(key@) ==> (r matches Err(m) && m@
            == "command not allowed: "@ + key@),
        strings_view(whitelist@).contains(key@) ==> match disallowed {
            Some(bad) => r matches Err(m) && m@ == "path not allowed: "@ + bad@,
            None => r is Ok,
        },
{
    if !contains_string(whitelist, key) {
        return Err(concat_str("command not allowed: ", key.as_str()));
    }
    match disallowed {
        Some(bad) => Err(concat_str("path not allowed: ", bad.as_str())),
        None => Ok(()),
    }
}

/// A whitelisted command whose every path-like argument lies under some
/// root (any one of them) may run.
pub proof fn lemma_allowed_when_all_paths_under_roots(
    command: Seq<char>,
    args: Seq<Seq<char>>,
    resolved: Seq<Seq<u8>>,
    whitelist: Seq<Seq<char>>,
    roots: Seq<Seq<u8>>,
)
    requires
        whitelist.contains(command_key_spec(command)),
        forall|i: int|
            0 <= i < args.len() && #[trigger] args[i].contains('/') ==> exists|j: int|
                0 <= j < roots.len() && path_starts_with_spec(resolved[i], #[trigger] roots[j]),
    ensures
        allowed_spec(command, args, resolved, whitelist, roots),
{
    assert forall|i: int| 0 <= i < args.len() implies !disallowed_at(args, resolved, roots, i) by {
        lemma_looks_like_path_iff_slash(args[i]);
        if args[i].contains('/') {
            let j = choose|j: int| 0 <= j < roots.len() && path_starts_with_spec(resolved[i], #[trigger] roots[j]);
            lemma_any_root_admits(args, resolved, roots, i, j);
        }
    }
}

/// Decides whether a command may run. On refusal, the error is the reason
/// that the agent reports to the server.
pub fn authorize_command(
    command: &str,
    args: &Vec<String>,
    resolved: &Vec<Vec<u8>>,
    whitelist: &Vec<String>,
    path_whitelist: &Vec<Vec<u8>>,
) -> (r: Result<(), String>)
    requires
        resolved.len() == args.len(),
    ensures
        r is Ok <==> allowed_spec(
            command@,
            strings_view(args@),
            bytes_view(resolved@),
            strings_view(whitelist@),
            bytes_view(path_whitelist@),
        ),
        r matches Err(m) ==> refusal_spec(
            command@,
            strings_view(args@),
            bytes_view(resolved@),
            strings_view(whitelist@),
            bytes_view(path_whitelist@),
            m@,
        ),
{
    let key = command_key(command);
    let disallowed = find_disallowed_path(args, resolved, path_whitelist);
    verdict(&key, whitelist, disallowed)
}

/// A reply that reports a failure with the given error and no output.
pub open spec fn is_failure_response(m: ClientMessage, id: String, error: Seq<char>) -> bool {
    m matches ClientMessage::Response { id: i, success, output, error: Some(e) } && i == id
        && !success && output@.len() == 0 && e@ == error
}

/// The reply to a command that was refused or could not be started: it did
/// not succeed, has no output, and carries `reason` as its error.
pub fn failure_response(id: String, reason: String) -> (m: ClientMessage)
    ensures
        is_failure_response(m, id, reason@),
{
    ClientMessage::Response { id, success: false, output: String::new(), error: Some(reason) }
}

/// The reply when the command could not be started.
pub fn spawn_failed_response(id: String, error: &str) -> (m: ClientMessage)
    ensures
        is_failure_response(m, id, "spawn failed: "@ + error@),
{
    failure_response(id, concat_str("spawn failed: ", error))
}

/// The error of a finished command, given how it ended and the text of its
/// standard error: none for exit code 0; else its standard error where it
/// wrote any, or else a description of how it ended.
pub open spec fn completion_error(status: Result<Option<i32>, String>, stderr_text: Seq<char>) -> Option<
    Seq<char>,
> {
    match status {
        Ok(Some(c)) => if c == 0 {
            None
        } else if stderr_text.len() > 0 {
            Some(stderr_text)
        } else {
            Some("exit code "@ + signed_decimal(c as int))
        },
        Ok(None) => if stderr_text.len() > 0 {
            Some(stderr_text)
        } else {
            Some("terminated by signal"@)
        },
        Err(e) => Some("wait failed: "@ + e@),
    }
}

/// The reply when the command has ended: it succeeded exactly when it exited
/// with code 0; its output is its standard output decoded as UTF-8 (invalid
/// sequences replaced); its error is [`completion_error`].
pub fn completion_response(
    id: String,
    status: Result<Option<i32>, String>,
    stdout: &[u8],
    stderr: &[u8],
) -> (m: ClientMessage)
    ensures
        m matches ClientMessage::Response { id: i, success, output, error } && i == id && success
            == (status == Ok::<Option<i32>, String>(Some(0i32))) && output@ == utf8_lossy_of(stdout@)
            && (valid_utf8(stdout@) ==> output@ == decode_utf8(stdout@)) && match error {
            Some(e) => completion_error(status, utf8_lossy_of(stderr@)) == Some(e@),
            None => completion_error(status, utf8_lossy_of(stderr@)) is None,
        },
{
    let output = utf8_lossy(stdout);
    let err_text = utf8_lossy(stderr);
    let (success, error) = match status {
        Ok(Some(c)) => if c == 0 {
            (true, None)
        } else if !err_text.as_str().is_empty() {
            (false, Some(err_text))
        } else {
            (false, Some(concat_str("exit code ", signed_decimal_string(c).as_str())))
        },
        Ok(None) => if !err_text.as_str().is_empty() {
            (false, Some(err_text))
        } else {
            (false, Some(String::from_str("terminated by signal")))
        },
        Err(e) => (false, Some(concat_str("wait failed: ", e.as_str()))),
    };
    ClientMessage::Response { id, success, output, error }
}

/// The reply that carries a chunk of a command's output, decoded as UTF-8
/// with invalid sequences replaced.
pub fn output_message(id: &String, stream: StreamType, chunk: &[u8]) -> (m: ClientMessage)
    ensures
        m matches ClientMessage::Output { id: i, stream: s, chunk: text } && i@ == id@ && s == stream
            && text@ == utf8_lossy_of(chunk@) && (valid_utf8(chunk@) ==> text@ == decode_utf8(
            chunk@,
        )),
{
    ClientMessage::Output { id: id.clone(), stream, chunk: utf8_lossy(chunk) }
}

} // verus!
