use redfoxtool::validate::{
    parse_port, validate_filename, validate_password_file_facts, validate_proxy, validate_target, validate_threads,
    validate_threads_with, validate_timeout, validate_url, validate_url_parsed, ValidationResult,
};
use redfoxtool::{author, version};

#[test]
fn validation_result_collects_errors_and_warnings() {
    let mut r = ValidationResult::new();
    assert!(r.is_valid && !r.has_errors());
    r.add_warning("w".to_string());
    assert!(r.is_valid);
    r.add_error("e".to_string());
    assert!(!r.is_valid && r.has_errors());
    let mut all = ValidationResult::new();
    all.absorb(r);
    assert_eq!(all.errors, vec!["e"]);
    assert_eq!(all.warnings, vec!["w"]);
    assert!(!all.is_valid);
}

#[test]
fn timeout_bounds() {
    assert_eq!(validate_timeout(0).errors, vec!["the timeout cannot be zero"]);
    assert!(validate_timeout(301).is_valid);
    assert_eq!(validate_timeout(301).warnings.len(), 1);
    assert_eq!(validate_timeout(300).warnings.len(), 0);
    assert_eq!(validate_timeout(4).warnings, vec!["the timeout is very short; requests may fail"]);
    assert!(validate_timeout(5).warnings.is_empty());
}

#[test]
fn thread_budget_against_cpus() {
    assert_eq!(validate_threads_with(0, 4).errors, vec!["the thread count cannot be zero"]);
    assert_eq!(
        validate_threads_with(17, 4).warnings,
        vec!["the thread count is very high (17); suggested limit: 8"]
    );
    assert!(validate_threads_with(16, 4).warnings.is_empty());
    assert_eq!(validate_threads_with(1, 4).warnings, vec!["a low thread count may reduce performance"]);
    assert!(!validate_threads(0).is_valid);
    assert!(validate_threads(2).is_valid);
}

#[test]
fn filename_rules() {
    assert!(validate_filename("report.json").is_valid);
    assert_eq!(
        validate_filename("a<b>/c").errors,
        vec!["the file name holds a disallowed character: '/'"]
    );
    assert_eq!(validate_filename("  ").errors, vec!["the file name cannot be empty"]);
    assert_eq!(validate_filename("noext").warnings, vec!["the file name has no extension"]);
    let long = "é".repeat(128);
    assert_eq!(validate_filename(&long).errors, vec!["the file name is too long (at most 255 bytes)"]);
    assert!(validate_filename(&"a".repeat(255)).errors.is_empty());
}

#[test]
fn proxy_rules() {
    assert!(validate_proxy("http://127.0.0.1:8080").is_valid);
    assert!(validate_proxy("socks5://10.0.0.1:1080").warnings.is_empty());
    assert_eq!(validate_proxy("https://proxy").warnings, vec!["the proxy has no port; port 443 will be used"]);
    assert_eq!(validate_proxy("socks4://proxy").warnings, vec!["the proxy has no port; port 1080 will be used"]);
    assert_eq!(validate_proxy("http://h:0").errors, vec!["invalid port number: 0"]);
    assert_eq!(validate_proxy("http://h:99999").errors, vec!["invalid port number"]);
    assert_eq!(validate_proxy("http://h:").errors, vec!["invalid port number"]);
    assert!(validate_proxy("http://u:p@h:1").is_valid);
    assert_eq!(
        validate_proxy("ftp://h:21").errors,
        vec!["invalid proxy format; use http://, https://, socks4:// or socks5://"]
    );
}

#[test]
fn port_numbers_read_like_u16() {
    assert_eq!(parse_port("8080"), Some(8080));
    assert_eq!(parse_port("+80"), Some(80));
    assert_eq!(parse_port("0065535"), Some(65535));
    assert_eq!(parse_port("65536"), None);
    assert_eq!(parse_port("+"), None);
    assert_eq!(parse_port(""), None);
    assert_eq!(parse_port("8o"), None);
    assert_eq!(parse_port("-1"), None);
}

#[test]
fn url_rules() {
    assert!(validate_url("https://example.com/login").is_valid);
    assert_eq!(validate_url("ftp://example.com").errors, vec!["the url must start with http:// or https://"]);
    assert_eq!(validate_url("http://localhost:8080/").warnings, vec!["the url points to the local host"]);
    assert_eq!(validate_url("http://example.com:80/x").warnings, vec!["port 80 is the default for HTTP"]);
    assert_eq!(validate_url("https://example.com:443/").warnings, vec!["port 443 is the default for HTTPS"]);
    assert_eq!(validate_url("http://example.com:0/").errors, vec!["invalid port number: 0"]);
    let bad = validate_url("http://exa mple.com");
    assert_eq!(bad.errors.len(), 1);
    assert!(bad.errors[0].starts_with("invalid url: "));
}

#[test]
fn url_rules_on_given_parse_results() {
    let no_host: Result<(bool, Option<u16>), String> = Ok((false, None));
    assert_eq!(validate_url_parsed("http://x", &no_host).errors, vec!["invalid url: no host"]);
    let failed: Result<(bool, Option<u16>), String> = Err("empty host".to_string());
    assert_eq!(validate_url_parsed("http://", &failed).errors, vec!["invalid url: empty host"]);
}

#[test]
fn target_combines_the_three_checks() {
    let r = validate_target("ftp://x", 0, 0);
    assert_eq!(
        r.errors,
        vec![
            "the url must start with http:// or https://",
            "the thread count cannot be zero",
            "the timeout cannot be zero",
        ]
    );
    assert!(validate_target("https://example.com/", 2, 30).is_valid);
}

#[test]
fn version_and_author() {
    assert_eq!(version(), "1.0.0");
    assert_eq!(author(), "RedFox Security Team");
}

#[test]
fn password_file_judged_from_file_facts() {
    let ok_mode: Result<u32, String> = Ok(0o644);
    let missing = validate_password_file_facts("pw.txt", false, &ok_mode, &Ok(10), &Ok("x".to_string()));
    assert_eq!(missing.errors, vec!["file not found: pw.txt"]);

    let content = "\n  \nsecret\n".to_string() + &"a".repeat(101) + "\n";
    let r = validate_password_file_facts("pw.txt", true, &Ok(0o200), &Ok(50), &Ok(content));
    assert!(r.is_valid);
    assert_eq!(
        r.warnings,
        vec![
            "the file's read permission is limited",
            "the file is very small; it may not be useful",
            "some passwords are very long; performance may suffer",
        ]
    );

    let blank = validate_password_file_facts("pw.txt", true, &ok_mode, &Ok(0), &Ok("  \n\n".to_string()));
    assert_eq!(blank.errors, vec!["the file is empty", "the file holds no usable data"]);

    let eleventh = "\n".repeat(10) + "late";
    let late = validate_password_file_facts("pw.txt", true, &ok_mode, &Ok(200), &Ok(eleventh));
    assert_eq!(late.errors, vec!["the file holds no usable data"]);

    let failed = validate_password_file_facts(
        "pw.txt",
        true,
        &Err("denied".to_string()),
        &Ok(200_000_000),
        &Err("denied".to_string()),
    );
    assert_eq!(
        failed.errors,
        vec!["cannot read the file's metadata: denied", "cannot read the file: denied"]
    );
    assert_eq!(failed.warnings, vec!["the file is very large; performance may suffer"]);
}
