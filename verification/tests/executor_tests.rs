use openclaw_agent::executor::{command_key_from, first_outside_root, verdict};
use openclaw_agent::executor::{
    authorize_command, command_key, completion_response, failure_response, find_disallowed_path,
    looks_like_path, output_message, spawn_failed_response,
};
use openclaw_agent::protocol::{ClientMessage, StreamType};

fn strings(v: &[&str]) -> Vec<String> {
    v.iter().map(|x| x.to_string()).collect()
}

fn resolved(v: &[String]) -> Vec<Vec<u8>> {
    v.iter().map(|x| x.as_bytes().to_vec()).collect()
}

fn roots_of(v: &[&str]) -> Vec<Vec<u8>> {
    v.iter().map(|x| x.as_bytes().to_vec()).collect()
}

#[test]
fn path_like_arguments() {
    assert!(looks_like_path("/etc/passwd"));
    assert!(looks_like_path("./a"));
    assert!(looks_like_path("../a"));
    assert!(looks_like_path("a/b"));
    assert!(!looks_like_path("-la"));
    assert!(!looks_like_path(""));
    assert!(!looks_like_path(".."));
}

#[test]
fn command_key_is_the_file_name() {
    assert_eq!(command_key("/bin/ls"), "ls");
    assert_eq!(command_key("ls"), "ls");
    assert_eq!(command_key("/usr/bin/"), "bin");
    assert_eq!(command_key(".."), "..");
    assert_eq!(command_key("/"), "/");
}

#[test]
fn disallowed_paths_are_found_in_order() {
    let args = strings(&["-l", "/tmp/a", "/etc/x", "/var/y"]);
    let roots = roots_of(&["/tmp"]);
    assert_eq!(find_disallowed_path(&args, &resolved(&args), &roots), Some("/etc/x".to_string()));
    let args = strings(&["-l", "/tmp/a"]);
    assert_eq!(find_disallowed_path(&args, &resolved(&args), &roots), None);
    // whole components only
    let args = strings(&["/tmpfoo/a"]);
    assert_eq!(find_disallowed_path(&args, &resolved(&args), &roots), Some("/tmpfoo/a".to_string()));
    // the resolved form is checked, the argument is reported
    let args = strings(&["link/x"]);
    let real = roots_of(&["/tmp/real/x"]);
    assert_eq!(find_disallowed_path(&args, &real, &roots), None);
    // a resolved form that is not UTF-8 is still matched by its bytes
    let raw = vec![vec![b'/', b't', b'm', b'p', b'/', 0xff, b'x']];
    assert_eq!(find_disallowed_path(&args, &raw, &roots), None);
    let raw = vec![vec![b'/', b'v', b'a', b'r', b'/', 0xff]];
    assert_eq!(find_disallowed_path(&args, &raw, &roots), Some("link/x".to_string()));
}

#[test]
fn authorize_checks_whitelist_then_paths() {
    let wl = strings(&["ls", "cat"]);
    let roots = roots_of(&["/tmp"]);
    let args = strings(&["/etc/passwd"]);
    assert_eq!(
        authorize_command("rm", &args, &resolved(&args), &wl, &roots),
        Err("command not allowed: rm".to_string())
    );
    assert_eq!(
        authorize_command("/bin/cat", &args, &resolved(&args), &wl, &roots),
        Err("path not allowed: /etc/passwd".to_string())
    );
    let args = strings(&["/tmp/x", "-n"]);
    assert_eq!(authorize_command("/bin/cat", &args, &resolved(&args), &wl, &roots), Ok(()));
}

fn response(id: &str, success: bool, output: &str, error: Option<&str>) -> ClientMessage {
    ClientMessage::Response {
        id: id.to_string(),
        success,
        output: output.to_string(),
        error: error.map(|e| e.to_string()),
    }
}

#[test]
fn reply_messages() {
    assert_eq!(
        spawn_failed_response("7".to_string(), "No such file"),
        response("7", false, "", Some("spawn failed: No such file"))
    );
    assert_eq!(
        failure_response("8".to_string(), "command not allowed: rm".to_string()),
        response("8", false, "", Some("command not allowed: rm"))
    );
    assert_eq!(
        completion_response("cmd-001".to_string(), Ok(Some(0)), b"total 8\n", b""),
        response("cmd-001", true, "total 8\n", None)
    );
    assert_eq!(
        completion_response("1".to_string(), Ok(Some(0)), b"x", b"warning"),
        response("1", true, "x", None)
    );
    assert_eq!(
        completion_response("1".to_string(), Ok(Some(2)), b"", b"ls: nope\n"),
        response("1", false, "", Some("ls: nope\n"))
    );
    assert_eq!(
        completion_response("1".to_string(), Ok(Some(3)), b"o", b""),
        response("1", false, "o", Some("exit code 3"))
    );
    assert_eq!(
        completion_response("1".to_string(), Ok(Some(-4)), b"", b""),
        response("1", false, "", Some("exit code -4"))
    );
    assert_eq!(
        completion_response("1".to_string(), Ok(None), b"", b""),
        response("1", false, "", Some("terminated by signal"))
    );
    assert_eq!(
        completion_response("1".to_string(), Err("boom".to_string()), b"o", b""),
        response("1", false, "o", Some("wait failed: boom"))
    );
}

#[test]
fn output_is_decoded_lossily() {
    let id = "9".to_string();
    assert_eq!(
        output_message(&id, StreamType::Stdout, "héllo\n".as_bytes()),
        ClientMessage::Output { id: id.clone(), stream: StreamType::Stdout, chunk: "héllo\n".to_string() }
    );
    assert_eq!(
        output_message(&id, StreamType::Stderr, &[b'a', 0xff, b'b']),
        ClientMessage::Output { id: id.clone(), stream: StreamType::Stderr, chunk: "a\u{fffd}b".to_string() }
    );
}

#[test]
fn key_from_file_name() {
    assert_eq!(command_key_from("/bin/ls", Some("ls".to_string())), "ls");
    assert_eq!(command_key_from("..", None), "..");
}

#[test]
fn first_outside_root_reads_the_given_verdicts() {
    let args = strings(&["-x", "/a", "/b", "c/d"]);
    assert_eq!(first_outside_root(&args, &vec![false, true, false, false]), Some("/b".to_string()));
    assert_eq!(first_outside_root(&args, &vec![false, true, true, true]), None);
    assert_eq!(first_outside_root(&args, &vec![false, false, true, true]), Some("/a".to_string()));
}

#[test]
fn verdict_order() {
    let wl = strings(&["ls"]);
    assert_eq!(
        verdict(&"rm".to_string(), &wl, Some("/etc".to_string())),
        Err("command not allowed: rm".to_string())
    );
    assert_eq!(
        verdict(&"ls".to_string(), &wl, Some("/etc".to_string())),
        Err("path not allowed: /etc".to_string())
    );
    assert_eq!(verdict(&"ls".to_string(), &wl, None), Ok(()));
}
