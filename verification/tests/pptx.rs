use hyperlight_unikraft::pptx::{
    check_assets, extract_pptx_from_output, pack_command, patched_script, strip_code_fence,
    unpack_command, user_prompt, ExtractError, SYSTEM_PROMPT, ZIPFILE_PATCH,
};

#[test]
fn code_fences() {
    assert_eq!(strip_code_fence("```python\nx = 1\n```"), "x = 1");
    assert_eq!(strip_code_fence(" \n```\nx = 1\n```\n"), "x = 1");
    assert_eq!(strip_code_fence("  x = 1\n"), "x = 1");
    // Without a closing fence the answer is kept whole.
    assert_eq!(strip_code_fence("```python\nx = 1"), "```python\nx = 1");
    // A closing fence alone is stripped too.
    assert_eq!(strip_code_fence("x = 1\n```"), "x = 1");
    assert_eq!(strip_code_fence("x = 1\n``` "), "x = 1\n```");
    assert_eq!(strip_code_fence("```"), "```");
    assert_eq!(strip_code_fence(""), "");
}

#[test]
fn presentations_are_extracted() {
    assert_eq!(
        extract_pptx_from_output("log\r\nPPTX_BASE64: aGVsbG8= \r\nmore").unwrap(),
        b"hello"
    );
    // The marker in the middle of a line.
    assert_eq!(
        extract_pptx_from_output("noise PPTX_BASE64:aGk=\nrest").unwrap(),
        b"hi"
    );
    assert_eq!(
        extract_pptx_from_output("noise PPTX_BASE64:aGk=Kernel panic").unwrap(),
        b"hi"
    );
    assert_eq!(extract_pptx_from_output("x PPTX_BASE64:").unwrap(), b"");
    // A line that starts with the marker comes first.
    assert_eq!(
        extract_pptx_from_output("x PPTX_BASE64:aGk=\nPPTX_BASE64:aGVsbG8=").unwrap(),
        b"hello"
    );
}

#[test]
fn presentations_that_are_not_there() {
    assert_eq!(
        extract_pptx_from_output("PPTX_BASE64:?").unwrap_err(),
        ExtractError::Decode("Invalid symbol 63, offset 0.".to_string())
    );
    assert_eq!(
        extract_pptx_from_output("Traceback").unwrap_err(),
        ExtractError::NoMarker("PPTX_BASE64: marker not found in VM output:\nTraceback".to_string())
    );
    let long = format!("{}{}", "a".repeat(1998), "é".repeat(10));
    assert_eq!(
        extract_pptx_from_output(&long).unwrap_err(),
        ExtractError::NoMarker(format!(
            "PPTX_BASE64: marker not found in VM output:\n{}é...[truncated, 2018 bytes total]",
            "a".repeat(1998)
        ))
    );
}

#[test]
fn prompts_and_scripts() {
    assert_eq!(user_prompt("3 slides"), "Create a PowerPoint presentation: 3 slides");
    let script = patched_script("print(1)");
    assert!(script.starts_with("\n# Patch zipfile"));
    assert_eq!(script, format!("{ZIPFILE_PATCH}print(1)"));
    assert!(SYSTEM_PROMPT.ends_with("Output only Python code.\n"));
}

#[test]
fn commands() {
    assert_eq!(
        unpack_command("/t/r", "/a.cpio"),
        "cd /t/r && cpio -idm < /a.cpio 2>/dev/null"
    );
    assert_eq!(
        pack_command("/t/r", "/b.cpio"),
        "cd /t/r && find . 2>/dev/null | cpio -o -H newc > /b.cpio 2>/dev/null"
    );
}

#[test]
fn assets() {
    assert!(check_assets(b"k", true, b"r", true).is_ok());
    assert_eq!(
        check_assets(b"assets/kernel", false, b"r", false).unwrap_err(),
        "kernel not found: \"assets/kernel\". Run 'make assets'."
    );
    assert_eq!(
        check_assets(b"k", true, b"r.cpio", false).unwrap_err(),
        "rootfs not found: \"r.cpio\". Run 'make assets'."
    );
}
