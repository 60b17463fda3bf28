use hyperlight_unikraft::cli::{app_args, argparse_escape, total_runs};

/// The guest's tokenizer, by its documented rules.
fn tokens(line: &str) -> Vec<String> {
    let mut out = Vec::new();
    let mut current = String::new();
    let mut quoted = false;
    let mut some = false;
    let mut chars = line.chars();
    while let Some(c) = chars.next() {
        if c == '\\' {
            current.push(chars.next().unwrap());
            some = true;
        } else if c == '"' {
            quoted = !quoted;
            some = true;
        } else if c.is_whitespace() && !quoted {
            if some {
                out.push(std::mem::take(&mut current));
            }
            some = false;
        } else {
            current.push(c);
            some = true;
        }
    }
    if some {
        out.push(current);
    }
    out
}

#[test]
fn escape_quotes_and_backslashes() {
    assert_eq!(argparse_escape(""), "\"\"");
    assert_eq!(argparse_escape("a b"), "\"a b\"");
    assert_eq!(argparse_escape("say \"hi\""), r#""say \"hi\"""#);
    assert_eq!(argparse_escape(r"\n"), r#""\\n""#);
}

#[test]
fn inline_code_is_one_argument() {
    for code in ["print('hi')", "for i in x:\n\tprint(\"a  b\")", r#"\"\\ ""#, " "] {
        let args = app_args(Some(code), vec!["lost".to_string()]);
        assert_eq!(args[0], "-c");
        assert_eq!(tokens(&args.join(" ")), ["-c", code]);
    }
}

#[test]
fn plain_arguments_are_kept() {
    let given = vec!["/script.py".to_string(), "arg1".to_string()];
    assert_eq!(app_args(None, given.clone()), given);
}

#[test]
fn runs_are_counted() {
    assert_eq!(total_runs(0), 1);
    assert_eq!(total_runs(2), 3);
}
