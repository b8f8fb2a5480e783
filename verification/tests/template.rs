use remote_launcher::template::unterminated_placeholder;
use remote_launcher::{Arg, ArgTemplate, Segment};

fn template(raw: &str) -> ArgTemplate {
    ArgTemplate::parse(raw).expect("valid template")
}

fn expanded(raw: &str) -> String {
    template(raw).expand("host", "uname -s")
}

#[test]
fn text_without_braces_stands_for_itself() {
    assert!(template("--no-tty").is_literal());
    assert_eq!(expanded("--no-tty"), "--no-tty");
    assert!(template("--no-tty").contains(&Segment::Literal("--no-tty".to_string())));
    assert!(!template("--no-tty").contains(&Segment::Literal("--no".to_string())));
}

#[test]
fn empty_text_is_one_empty_literal() {
    assert_eq!(expanded(""), "");
    assert!(template("").is_literal());
    assert!(template("").contains(&Segment::Literal(String::new())));
    assert!(!template("{target}").contains(&Segment::Literal(String::new())));
}

#[test]
fn doubled_braces_are_literal_braces() {
    assert_eq!(expanded("{{target}}"), "{target}");
    assert_eq!(expanded("{{{target}}}"), "{host}");
    assert_eq!(expanded("a{{b}}c"), "a{b}c");
    assert_eq!(expanded("{{{{}}}}"), "{{}}");
}

#[test]
fn a_closing_brace_alone_stands_for_itself() {
    assert_eq!(expanded("}"), "}");
    assert_eq!(expanded("a}b"), "a}b");
    assert_eq!(expanded("}}}"), "}}");
    assert_eq!(expanded("{target}}"), "host}");
}

#[test]
fn literal_text_between_placeholders_is_one_segment() {
    let mixed = template("é{target}=}}x{command}ß");
    assert_eq!(mixed.expand("h", "c"), "éh=}xcß");
    assert!(mixed.contains(&Segment::Literal("=}x".to_string())));
    assert!(mixed.contains(&Segment::Target));
    assert!(mixed.contains(&Segment::Command));
    assert!(!mixed.contains(&Segment::SshOptions));
    assert!(!mixed.is_literal());
}

#[test]
fn placeholders_may_touch() {
    assert_eq!(expanded("{target}{command}{target}"), "hostuname -shost");
}

#[test]
fn a_name_runs_to_the_first_closing_brace() {
    for (raw, name) in [
        ("{a{b}", "{a{b}"),
        ("{ target}", "{ target}"),
        ("{Target}", "{Target}"),
        ("{target {{}", "{target {{}"),
    ] {
        let message = ArgTemplate::parse(raw).expect_err("unknown placeholder");
        assert!(
            message.starts_with(&format!("unknown placeholder {name};")),
            "{message}"
        );
    }
}

#[test]
fn the_first_fault_is_reported() {
    let message = ArgTemplate::parse("{one}{two").expect_err("unknown placeholder");
    assert!(message.starts_with("unknown placeholder {one};"), "{message}");
    assert_eq!(
        ArgTemplate::parse("x{").expect_err("unterminated placeholder"),
        "unterminated placeholder in \"x{\"; write {{ for a literal brace"
    );
}

#[test]
fn the_unterminated_message_holds_the_quoted_text() {
    assert_eq!(
        unterminated_placeholder("\"{x\""),
        "unterminated placeholder in \"{x\"; write {{ for a literal brace"
    );
}

#[test]
fn ssh_options_are_an_argument_of_their_own() {
    assert_eq!(Arg::parse("{ssh_options}"), Ok(Arg::SshOptions));
    for raw in [
        "-o{ssh_options}",
        "{ssh_options} ",
        "{ssh_options}{ssh_options}",
        "{target}{ssh_options}",
    ] {
        assert_eq!(
            Arg::parse(raw),
            Err(
                "{ssh_options} expands to a list of options, so it must be an argument of its own"
                    .to_string()
            )
        );
    }
    assert_eq!(
        Arg::parse("{{ssh_options}}"),
        Ok(Arg::Template(template("{{ssh_options}}")))
    );
}

#[test]
fn an_argument_contains_its_segments() {
    let arg = Arg::parse("--target={target}").expect("valid argument");
    assert!(arg.contains(&Segment::Target));
    assert!(arg.contains(&Segment::Literal("--target=".to_string())));
    assert!(!arg.contains(&Segment::Command));
    assert!(!arg.contains(&Segment::SshOptions));
    assert!(Arg::SshOptions.contains(&Segment::SshOptions));
    assert!(!Arg::SshOptions.contains(&Segment::Target));
}

#[test]
fn the_options_are_no_text_in_a_template() {
    assert_eq!(template("{ssh_options}").expand("host", "true"), "");
}

#[test]
fn substituted_text_is_never_read_again() {
    assert_eq!(
        template("{target}|{command}").expand("{command}{{", "{target}}}"),
        "{command}{{|{target}}}"
    );
}
