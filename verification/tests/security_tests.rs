use openclaw_agent::security::{check_command_safety, validate_command_length, SecurityError};

#[test]
fn safe_command_passes() {
    assert_eq!(check_command_safety("ls -la /tmp"), Ok(()));
    assert_eq!(check_command_safety(""), Ok(()));
}

#[test]
fn each_dangerous_pattern_is_refused() {
    for (cmd, pat) in [
        ("sudo rm -rf / --no-preserve-root", "rm -rf /"),
        ("dd if=/dev/zero of=/dev/sda", "dd if="),
        ("mkfs.ext4 /dev/sdb1", "mkfs"),
        (":(){ :|:& };:", ":(){ :|:& };:"),
    ] {
        assert_eq!(
            check_command_safety(cmd),
            Err(SecurityError::DangerousCommand { pattern: pat.to_string() })
        );
    }
}

#[test]
fn first_pattern_in_order_is_named() {
    let e = check_command_safety("mkfs; rm -rf /").unwrap_err();
    assert_eq!(e, SecurityError::DangerousCommand { pattern: "rm -rf /".to_string() });
    assert_eq!(e.message(), "Dangerous command detected: rm -rf /");
}

#[test]
fn near_misses_are_not_dangerous() {
    assert_eq!(check_command_safety("rm -rf ./build"), Ok(()));
    assert_eq!(check_command_safety("dd of=x"), Ok(()));
    assert_eq!(check_command_safety("mkf s"), Ok(()));
}

#[test]
fn length_limit_is_in_bytes() {
    let ok = "a".repeat(10000);
    assert_eq!(validate_command_length(&ok), Ok(()));
    let long = "a".repeat(10001);
    let e = validate_command_length(&long).unwrap_err();
    assert_eq!(e, SecurityError::CommandTooLong { len: 10001 });
    assert_eq!(e.message(), "Command too long: 10001 bytes");
    // 5000 two-byte characters are 10000 bytes; one more is too long.
    assert_eq!(validate_command_length(&"é".repeat(5000)), Ok(()));
    assert_eq!(
        validate_command_length(&"é".repeat(5001)),
        Err(SecurityError::CommandTooLong { len: 10002 })
    );
}
