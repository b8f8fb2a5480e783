use std::path::PathBuf;

use remote_launcher::{
    CommandLine, LauncherError, ManagedSshOptions, RemoteCommandConfig, RemoteLauncher,
    RemoteStdin, Word,
};

fn program_config(program: &str, args: &[&str]) -> RemoteCommandConfig {
    RemoteCommandConfig {
        program: program.to_string(),
        args: args.iter().map(|arg| (*arg).to_string()).collect(),
    }
}

fn openshell_config() -> RemoteCommandConfig {
    program_config(
        "openshell",
        &[
            "sandbox",
            "exec",
            "-n",
            "{target}",
            "--no-tty",
            "--no-login-shell",
            "--",
            "{command}",
        ],
    )
}

fn argv(command: &CommandLine) -> Vec<String> {
    command
        .args
        .iter()
        .map(|word| match word {
            Word::Text(text) => text.clone(),
            Word::Path(path) => path.to_string_lossy().into_owned(),
        })
        .collect()
}

fn launcher(config: &RemoteCommandConfig) -> RemoteLauncher {
    RemoteLauncher::new(config).expect("valid launcher")
}

fn default_launcher() -> RemoteLauncher {
    launcher(&RemoteCommandConfig::default())
}

fn managed_options() -> ManagedSshOptions {
    ManagedSshOptions {
        config_path: PathBuf::from("/tmp/herdr/config"),
        control_path: Some(PathBuf::from("/tmp/herdr/ctl")),
    }
}

fn rejection(config: &RemoteCommandConfig) -> String {
    let LauncherError::InvalidInput(message) =
        RemoteLauncher::new(config).expect_err("rejected configuration");
    message
}

#[test]
fn the_default_launcher_is_plain_ssh() {
    let command =
        default_launcher().command("host", "herdr remote-client-bridge", RemoteStdin::Piped);

    assert_eq!(command.program, "ssh");
    assert_eq!(
        argv(&command),
        vec!["-T", "host", "herdr remote-client-bridge"]
    );
}

#[test]
fn ssh_refuses_stdin_for_commands_that_never_write_it() {
    let command = default_launcher().command("host", "uname -s", RemoteStdin::Null);

    assert_eq!(argv(&command), vec!["-n", "-T", "host", "uname -s"]);
}

#[test]
fn ssh_options_expand_where_the_template_asks_for_them() {
    let command = default_launcher()
        .with_ssh_options(Some(managed_options()), true)
        .command("host", "true", RemoteStdin::Piped);
    let args = argv(&command);

    assert_eq!(
        &args[..8],
        [
            "-F",
            "/tmp/herdr/config",
            "-S",
            "/tmp/herdr/ctl",
            "-o",
            "ControlMaster=auto",
            "-o",
            "ControlPersist=yes",
        ]
    );
    for required in [
        "BatchMode=yes",
        "NumberOfPasswordPrompts=0",
        "StrictHostKeyChecking=yes",
        "ConnectTimeout=10",
        "ConnectionAttempts=1",
        "ServerAliveInterval=15",
        "ServerAliveCountMax=4",
    ] {
        assert!(args.iter().any(|arg| arg == required), "missing {required}");
    }
    assert_eq!(&args[args.len() - 3..], ["-T", "host", "true"]);
}

#[test]
fn a_configured_program_asks_for_no_ssh_options() {
    let launcher = launcher(&openshell_config());
    assert!(!launcher.uses_ssh_options());

    // Even handed the OpenSSH options, a template that never asks for them
    // cannot receive them.
    let command = launcher
        .with_ssh_options(Some(managed_options()), true)
        .command("sandbox-1", "herdr remote-client-bridge", RemoteStdin::Null);

    assert_eq!(command.program, "openshell");
    assert_eq!(
        argv(&command),
        vec![
            "sandbox",
            "exec",
            "-n",
            "sandbox-1",
            "--no-tty",
            "--no-login-shell",
            "--",
            "herdr remote-client-bridge",
        ]
    );
}

#[test]
fn the_default_launcher_asks_for_ssh_options() {
    assert!(default_launcher().uses_ssh_options());
}

#[test]
fn placeholders_expand_into_exactly_one_argv_element() {
    let command = launcher(&openshell_config()).command(
        "two words",
        "sh -c 'echo $HOME; echo \"done\"' && true",
        RemoteStdin::Piped,
    );
    let args = argv(&command);

    assert_eq!(args.iter().filter(|arg| *arg == "two words").count(), 1);
    assert_eq!(
        args.last().expect("remote command argument"),
        "sh -c 'echo $HOME; echo \"done\"' && true"
    );
    assert_eq!(args.len(), 8);
}

#[test]
fn placeholders_expand_inside_a_larger_argument_without_splitting_it() {
    let command = launcher(&program_config(
        "wrapper",
        &["--target={target}", "--run={command}", "{{literal}}"],
    ))
    .command("host", "a b", RemoteStdin::Piped);

    assert_eq!(
        argv(&command),
        vec!["--target=host", "--run=a b", "{literal}"]
    );
}

#[test]
fn expansion_never_re_expands_substituted_text() {
    let command =
        launcher(&openshell_config()).command("{command}", "{target}", RemoteStdin::Piped);
    let args = argv(&command);

    assert_eq!(args[3], "{command}");
    assert_eq!(args[7], "{target}");
}

#[test]
fn probe_launcher_drops_connection_reuse_and_prompts() {
    let probe = default_launcher()
        .with_ssh_options(Some(managed_options()), false)
        .probe();

    let args = argv(&probe.command("host", "true", RemoteStdin::Piped));
    assert!(!args.iter().any(|arg| arg == "-F"));
    assert!(args.iter().any(|arg| arg == "BatchMode=yes"));

    // A template that never asks for ssh options probes unchanged.
    let program = launcher(&openshell_config());
    assert_eq!(
        argv(&program.probe().command("host", "true", RemoteStdin::Piped)),
        argv(&program.command("host", "true", RemoteStdin::Piped))
    );
}

#[test]
fn managed_ssh_control_socket_has_a_shutdown_command() {
    let command = managed_options()
        .control_exit_command("host")
        .expect("managed control socket exits");

    assert_eq!(command.program, "ssh");
    assert_eq!(
        argv(&command),
        vec![
            "-F",
            "/tmp/herdr/config",
            "-S",
            "/tmp/herdr/ctl",
            "-o",
            "ControlMaster=auto",
            "-o",
            "ControlPersist=yes",
            "-O",
            "exit",
            "-o",
            "BatchMode=yes",
            "host",
        ]
    );
    assert!(ManagedSshOptions {
        config_path: PathBuf::from("/tmp/herdr/config"),
        control_path: None,
    }
    .control_exit_command("host")
    .is_none());
}

#[test]
fn invalid_launcher_configuration_names_the_problem() {
    for (config, expected) in [
        (
            program_config("", &["{target}", "{command}"]),
            "must name an executable",
        ),
        (
            program_config("openshell {target}", &["{target}", "{command}"]),
            "does not expand placeholders",
        ),
        (
            program_config("openshell", &["{command}"]),
            "must include the {target} placeholder",
        ),
        (
            program_config("openshell", &["{target}"]),
            "must include the {command} placeholder",
        ),
        (
            program_config("openshell", &["-n", "{host}", "{command}"]),
            "unknown placeholder {host}",
        ),
        (
            program_config("openshell", &["{target}", "{command"]),
            "unterminated placeholder",
        ),
        (
            program_config("ssh", &["-o{ssh_options}", "{target}", "{command}"]),
            "must be an argument of its own",
        ),
    ] {
        let error = RemoteLauncher::new(&config).expect_err("rejected configuration");
        assert!(matches!(error, LauncherError::InvalidInput(_)));
        assert!(
            error.message().contains(expected),
            "expected {expected:?} in {error:?}"
        );
    }
}

#[test]
fn unknown_placeholder_error_points_at_the_offending_argument() {
    let error = RemoteLauncher::new(&program_config(
        "openshell",
        &["{target}", "{oops}", "{command}"],
    ))
    .expect_err("rejected configuration");

    assert!(
        error.message().starts_with("remote.command.args[1]:"),
        "{error:?}"
    );
}

#[test]
fn messages_are_complete() {
    assert_eq!(
        rejection(&program_config(" \t\n", &[])),
        "remote.command.program must name an executable"
    );
    assert_eq!(
        rejection(&program_config("{ssh_options}", &[])),
        "remote.command.program is spawned directly and does not expand placeholders; \
         put the placeholders in remote.command.args"
    );
    assert_eq!(
        rejection(&program_config(" wrapper ", &["{command}"])),
        "remote.command.args must include the {target} placeholder so `wrapper` receives \
         the remote target"
    );
    assert_eq!(
        rejection(&program_config("wrapper", &["{target}"])),
        "remote.command.args must include the {command} placeholder so `wrapper` receives \
         the remote command"
    );
    assert_eq!(
        rejection(&program_config("wrapper", &["x{ssh_options}"])),
        "remote.command.args[0]: {ssh_options} expands to a list of options, so it must be \
         an argument of its own"
    );
    assert_eq!(
        rejection(&program_config("wrapper", &["{}"])),
        "remote.command.args[0]: unknown placeholder {}; supported placeholders are \
         {target}, {command}, and {ssh_options} (write {{ for a literal brace)"
    );
}

#[test]
fn an_unterminated_placeholder_is_quoted_with_escapes() {
    assert_eq!(
        rejection(&program_config("wrapper", &["{target}", "a\"b\t{command"])),
        "remote.command.args[1]: unterminated placeholder in \"a\\\"b\\t{command\"; \
         write {{ for a literal brace"
    );
}

#[test]
fn the_first_unusable_argument_is_named_in_decimal() {
    let mut args = vec!["plain"; 1230];
    args[1207] = "{first}";
    args[1229] = "{second}";
    assert!(rejection(&program_config("wrapper", &args))
        .starts_with("remote.command.args[1207]: unknown placeholder {first};"));
}

#[test]
fn an_unusable_argument_outranks_a_missing_placeholder() {
    assert!(rejection(&program_config("wrapper", &["{oops}"]))
        .starts_with("remote.command.args[0]: unknown placeholder {oops};"));
    assert!(rejection(&program_config("wrapper", &[]))
        .contains("must include the {target} placeholder"));
}

#[test]
fn white_space_around_the_program_is_ignored() {
    let padded = launcher(&program_config(
        "\u{3000} \tmy program\u{A0}\n",
        &["{target}", "{command}"],
    ));
    assert_eq!(padded.program_name(), "my program");
    assert_eq!(
        padded,
        launcher(&program_config("my program", &["{target}", "{command}"]))
    );
}

#[test]
fn a_zero_width_space_is_part_of_the_program() {
    let launcher = launcher(&program_config("\u{200B}ssh", &["{target}", "{command}"]));
    assert_eq!(launcher.program_name(), "\u{200B}ssh");
}

#[test]
fn a_program_that_is_no_template_is_used_as_it_stands() {
    for program in ["{unknown}", "open{", "brace}", "{{target}}"] {
        let launcher = launcher(&program_config(program, &["{target}", "{command}"]));
        assert_eq!(launcher.program_name(), program);
        assert_eq!(
            launcher.command("host", "true", RemoteStdin::Null).program,
            program
        );
    }
}

#[test]
fn non_interactive_options_stand_between_the_config_and_stdin() {
    let command = default_launcher()
        .with_ssh_options(
            Some(ManagedSshOptions {
                config_path: PathBuf::from("/tmp/herdr/config"),
                control_path: None,
            }),
            true,
        )
        .command("host", "true", RemoteStdin::Null);

    assert_eq!(
        argv(&command),
        vec![
            "-F",
            "/tmp/herdr/config",
            "-o",
            "BatchMode=yes",
            "-o",
            "NumberOfPasswordPrompts=0",
            "-o",
            "StrictHostKeyChecking=yes",
            "-o",
            "ConnectTimeout=10",
            "-o",
            "ConnectionAttempts=1",
            "-o",
            "ServerAliveInterval=15",
            "-o",
            "ServerAliveCountMax=4",
            "-n",
            "-T",
            "host",
            "true",
        ]
    );
    assert_eq!(
        command.args[1],
        Word::Path(PathBuf::from("/tmp/herdr/config"))
    );
}

#[test]
fn the_last_options_win() {
    let launcher = default_launcher().with_ssh_options(Some(managed_options()), true);
    assert_ne!(launcher, default_launcher());
    assert_eq!(launcher.with_ssh_options(None, false), default_launcher());
}

#[test]
fn a_probe_of_a_probe_is_that_probe() {
    let launcher = default_launcher().with_ssh_options(Some(managed_options()), false);
    assert_eq!(launcher.probe().probe(), launcher.probe());
    assert_eq!(launcher.probe(), default_launcher().probe());
    assert!(launcher.probe().uses_ssh_options());
}

#[test]
fn a_clone_keeps_the_options() {
    let launcher = default_launcher().with_ssh_options(Some(managed_options()), true);
    assert_eq!(launcher.clone(), launcher);
    assert_eq!(
        launcher.clone().command("host", "true", RemoteStdin::Null),
        launcher.command("host", "true", RemoteStdin::Null)
    );
}

#[test]
fn options_may_be_asked_for_twice_and_anywhere() {
    let command = launcher(&program_config(
        "ssh",
        &["{target}", "{ssh_options}", "{command}", "{ssh_options}"],
    ))
    .command("host", "true", RemoteStdin::Null);
    assert_eq!(argv(&command), vec!["host", "-n", "true", "-n"]);
}

#[test]
fn the_shutdown_command_begins_with_the_shared_options() {
    let shared = argv(
        &default_launcher()
            .with_ssh_options(Some(managed_options()), false)
            .command("host", "true", RemoteStdin::Piped),
    );
    let exit = argv(
        &managed_options()
            .control_exit_command("host")
            .expect("managed control socket exits"),
    );
    assert_eq!(shared[..8], exit[..8]);
    assert_eq!(exit.last().expect("target"), "host");
}

#[test]
fn the_target_and_the_command_stay_whole_in_one_element() {
    let remote_command = "herdr --session 'a b' server; touch canary; echo \"$HOME\" && true";
    let command = launcher(&program_config(
        "fake launcher",
        &["0", "exec", "-n", "{target}", "--", "{command}"],
    ))
    .command("host name", remote_command, RemoteStdin::Piped);

    assert_eq!(command.program, "fake launcher");
    assert_eq!(
        argv(&command),
        vec!["0", "exec", "-n", "host name", "--", remote_command]
    );
}

#[test]
fn a_missing_program_is_still_the_program_to_spawn() {
    let launcher = launcher(&program_config(
        "/nonexistent/herdr-remote-launcher",
        &["{target}", "{command}"],
    ));
    let command = launcher.command("host", "true", RemoteStdin::Piped);
    assert_eq!(command.program, "/nonexistent/herdr-remote-launcher");
    assert_eq!(argv(&command), vec!["host", "true"]);
}

#[test]
fn a_configured_program_replaces_ssh() {
    let command = launcher(&program_config(
        "/tmp/fake-launcher",
        &["exec", "-n", "{target}", "--", "{command}"],
    ))
    .command("sandbox-target", "/bin/sh -s", RemoteStdin::Piped);
    assert_eq!(command.program, "/tmp/fake-launcher");
    assert_eq!(
        argv(&command),
        vec!["exec", "-n", "sandbox-target", "--", "/bin/sh -s"]
    );
}

#[test]
fn an_unusable_setting_is_no_launcher() {
    let message = rejection(&program_config(
        "openshell",
        &["sandbox", "exec", "-n", "{target}"],
    ));
    assert!(
        message.contains("remote.command.args") && message.contains("{command}"),
        "{message}"
    );
}
