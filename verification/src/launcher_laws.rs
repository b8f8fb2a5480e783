//! What holds of launchers and the command lines that they give.

use vstd::prelude::*;

use crate::command_line::{CommandLineView, WordView};
use crate::config::ConfigView;
use crate::launcher::{ConfigFault, LauncherView};
use crate::ssh::{ManagedSshOptions, RemoteStdin, SshOptions};
use crate::template::{
    ArgView, SegmentView, TemplateFault, COMMAND_PLACEHOLDER, SSH_OPTIONS_PLACEHOLDER,
    TARGET_PLACEHOLDER,
};
use crate::{config, launcher, ssh, template, template_laws, text};

verus! {

/// The arguments of a command line come one after the other.
pub proof fn law_words_join(
    first: Seq<ArgView>,
    second: Seq<ArgView>,
    options: Seq<WordView>,
    target: Seq<char>,
    remote_command: Seq<char>,
)
    ensures
        launcher::words(first + second, options, target, remote_command)
            == launcher::words(first, options, target, remote_command)
            + launcher::words(second, options, target, remote_command),
    decreases second.len(),
{
    let all = first + second;
    if second.len() == 0 {
        assert(all =~= first);
    } else {
        assert(all.drop_last() =~= first + second.drop_last());
        assert(all.last() == second.last());
        law_words_join(first, second.drop_last(), options, target, remote_command);
    }
    assert(launcher::words(all, options, target, remote_command)
        =~= launcher::words(first, options, target, remote_command)
        + launcher::words(second, options, target, remote_command));
}

/// Each argument gives its own elements, between those of its neighbours.
pub proof fn law_argument_keeps_its_place(
    args: Seq<ArgView>,
    at: int,
    options: Seq<WordView>,
    target: Seq<char>,
    remote_command: Seq<char>,
)
    requires
        0 <= at < args.len(),
    ensures
        launcher::words(args, options, target, remote_command) == launcher::words(
            args.take(at),
            options,
            target,
            remote_command,
        ) + launcher::arg_words(args[at], options, target, remote_command)
            + launcher::words(args.skip(at + 1), options, target, remote_command),
{
    let head = args.take(at + 1);
    assert(head + args.skip(at + 1) =~= args);
    law_words_join(head, args.skip(at + 1), options, target, remote_command);
    assert(head.drop_last() =~= args.take(at));
    assert(head.last() == args[at]);
}

/// No target and no remote command splits an argument: how many elements there
/// are does not depend on them.
pub proof fn law_expansion_never_splits(
    launcher: LauncherView,
    target: Seq<char>,
    remote_command: Seq<char>,
    other_target: Seq<char>,
    other_command: Seq<char>,
    stdin: RemoteStdin,
)
    ensures
        launcher.command_line(target, remote_command, stdin).args.len() == launcher.command_line(
            other_target,
            other_command,
            stdin,
        ).args.len(),
{
    lemma_words_len(
        launcher.args,
        launcher.ssh.words(stdin),
        target,
        remote_command,
        other_target,
        other_command,
    );
}

/// How many elements arguments give depends on the options alone.
proof fn lemma_words_len(
    args: Seq<ArgView>,
    options: Seq<WordView>,
    target: Seq<char>,
    remote_command: Seq<char>,
    other_target: Seq<char>,
    other_command: Seq<char>,
)
    ensures
        launcher::words(args, options, target, remote_command).len()
            == launcher::words(args, options, other_target, other_command).len(),
    decreases args.len(),
{
    if args.len() > 0 {
        lemma_words_len(
            args.drop_last(),
            options,
            target,
            remote_command,
            other_target,
            other_command,
        );
    }
}

/// Where no argument is the OpenSSH options, each argument is one element: the
/// text of its template.
pub proof fn law_one_element_for_each_argument(
    launcher: LauncherView,
    target: Seq<char>,
    remote_command: Seq<char>,
    stdin: RemoteStdin,
)
    requires
        !launcher.uses_ssh_options(),
    ensures
        launcher.command_line(target, remote_command, stdin).args.len() == launcher.args.len(),
        forall|i: int|
            #![trigger launcher.args[i]]
            0 <= i < launcher.args.len() ==> launcher.args[i] is Template
                && launcher.command_line(target, remote_command, stdin).args[i] == WordView::Text(
                template::expanded(launcher.args[i]->Template_0, target, remote_command),
            ),
{
    lemma_words_of_templates(launcher.args, launcher.ssh.words(stdin), target, remote_command);
}

/// Templates give one element each, whatever the options are.
proof fn lemma_words_of_templates(
    args: Seq<ArgView>,
    options: Seq<WordView>,
    target: Seq<char>,
    remote_command: Seq<char>,
)
    requires
        !args.contains(ArgView::SshOptions),
    ensures
        launcher::words(args, options, target, remote_command).len() == args.len(),
        forall|i: int|
            #![trigger args[i]]
            0 <= i < args.len() ==> args[i] is Template && launcher::words(
                args,
                options,
                target,
                remote_command,
            )[i] == WordView::Text(
                template::expanded(args[i]->Template_0, target, remote_command),
            ),
    decreases args.len(),
{
    if args.len() > 0 {
        let fewer = args.drop_last();
        assert forall|i: int| 0 <= i < fewer.len() implies #[trigger] fewer[i]
            != ArgView::SshOptions by {
            assert(fewer[i] == args[i]);
        }
        lemma_words_of_templates(fewer, options, target, remote_command);
        assert(args.contains(args.last()));
        assert forall|i: int|
            #![trigger args[i]]
            0 <= i < args.len() implies args[i] is Template && launcher::words(
            args,
            options,
            target,
            remote_command,
        )[i] == WordView::Text(
            template::expanded(args[i]->Template_0, target, remote_command),
        ) by {
            if i < fewer.len() {
                assert(fewer[i] == args[i]);
            }
        }
    }
}

/// A template that never asks for the OpenSSH options cannot receive them:
/// neither they nor the stdin disposition change its command line.
pub proof fn law_options_only_where_asked(
    launcher: LauncherView,
    ssh: SshOptions,
    target: Seq<char>,
    remote_command: Seq<char>,
    stdin: RemoteStdin,
    other_stdin: RemoteStdin,
)
    requires
        !launcher.uses_ssh_options(),
    ensures
        launcher.with_options(ssh).command_line(target, remote_command, other_stdin)
            == launcher.command_line(target, remote_command, stdin),
{
    let one = launcher.command_line(target, remote_command, stdin);
    let other = launcher.with_options(ssh).command_line(target, remote_command, other_stdin);
    law_one_element_for_each_argument(launcher, target, remote_command, stdin);
    law_one_element_for_each_argument(
        launcher.with_options(ssh),
        target,
        remote_command,
        other_stdin,
    );
    assert forall|i: int| 0 <= i < one.args.len() implies one.args[i] == other.args[i] by {
        assert(launcher.args[i] is Template);
    }
    assert(one.args =~= other.args);
}

/// Options replace each other, and leave the rest of the launcher alone.
pub proof fn law_last_options_win(launcher: LauncherView, first: SshOptions, second: SshOptions)
    ensures
        launcher.with_options(first).with_options(second) == launcher.with_options(second),
        launcher.with_options(launcher.ssh) == launcher,
        launcher.with_options(first).uses_ssh_options() == launcher.uses_ssh_options(),
        launcher.wf() ==> launcher.with_options(first).wf(),
{
}

/// A probe is the same whatever options the launcher had, a probe of a probe is
/// that probe, and one without OpenSSH options runs what the launcher runs.
pub proof fn law_probe(
    launcher: LauncherView,
    ssh: SshOptions,
    target: Seq<char>,
    remote_command: Seq<char>,
    stdin: RemoteStdin,
)
    ensures
        launcher.with_options(ssh).for_probe() == launcher.for_probe(),
        launcher.for_probe().for_probe() == launcher.for_probe(),
        !launcher.uses_ssh_options() ==> launcher.for_probe().command_line(
            target,
            remote_command,
            stdin,
        ) == launcher.command_line(target, remote_command, stdin),
{
    if !launcher.uses_ssh_options() {
        law_options_only_where_asked(
            launcher,
            SshOptions { managed: None, noninteractive: true },
            target,
            remote_command,
            stdin,
            stdin,
        );
    }
}

/// The options of a probe name no config and no socket, and forbid prompts.
pub proof fn law_probe_never_reuses_a_connection(launcher: LauncherView, stdin: RemoteStdin)
    ensures
        forall|i: int|
            0 <= i < launcher.for_probe().ssh.words(stdin).len() ==> {
                let word = #[trigger] launcher.for_probe().ssh.words(stdin)[i];
                word is Text && word != ssh::text("-F") && word != ssh::text("-S")
            },
        launcher.for_probe().ssh.words(stdin).contains(ssh::text("BatchMode=yes")),
{
    reveal_strlit("-F");
    reveal_strlit("-S");
    reveal_strlit("-o");
    reveal_strlit("-n");
    reveal_strlit("BatchMode=yes");
    reveal_strlit("NumberOfPasswordPrompts=0");
    reveal_strlit("StrictHostKeyChecking=yes");
    reveal_strlit("ConnectTimeout=10");
    reveal_strlit("ConnectionAttempts=1");
    reveal_strlit("ServerAliveInterval=15");
    reveal_strlit("ServerAliveCountMax=4");
    assert("-F"@[1] == 'F');
    assert("-S"@[1] == 'S');
    assert("-o"@[1] == 'o');
    assert("-n"@[1] == 'n');
    let words = launcher.for_probe().ssh.words(stdin);
    assert(words[1] == ssh::text("BatchMode=yes"));
}

/// Ssh is told that stdin is not read by one more option, after all the others.
pub proof fn law_unread_stdin_is_the_last_option(ssh: SshOptions)
    ensures
        ssh.words(RemoteStdin::Null) == ssh.words(RemoteStdin::Piped).push(ssh::text("-n")),
{
    assert(ssh.words(RemoteStdin::Null) =~= ssh.words(RemoteStdin::Piped).push(
        ssh::text("-n"),
    ));
}

/// The shutdown command reaches the master that the options open: it begins
/// with the same options, and ends with the target.
pub proof fn law_shutdown_reaches_the_shared_connection(
    managed: ManagedSshOptions,
    noninteractive: bool,
    stdin: RemoteStdin,
    target: Seq<char>,
)
    ensures
        managed.words().is_prefix_of(managed.control_exit_line(target).args),
        managed.words().is_prefix_of(
            (SshOptions { managed: Some(managed), noninteractive }).words(stdin),
        ),
        managed.control_exit_line(target).args.last() == WordView::Text(target),
        managed.control_path matches Some(control_path) ==> managed.words().contains(
            WordView::Path(control_path),
        ),
{
    let words = (SshOptions { managed: Some(managed), noninteractive }).words(stdin);
    let exit = managed.control_exit_line(target).args;
    assert(managed.words() =~= exit.subrange(0, managed.words().len() as int));
    assert(managed.words() =~= words.subrange(0, managed.words().len() as int));
    if let Some(control_path) = managed.control_path {
        assert(managed.words()[3] == WordView::Path(control_path));
    }
}

/// An argument that is a placeholder alone becomes the target or the remote
/// command itself, with its own quoting, as one element.
pub proof fn law_lone_placeholder_is_the_whole_element(
    options: Seq<WordView>,
    target: Seq<char>,
    remote_command: Seq<char>,
)
    ensures
        template::argument(template_laws::braced(TARGET_PLACEHOLDER@)) matches Ok(arg)
            && launcher::arg_words(arg, options, target, remote_command)
            == seq![WordView::Text(target)],
        template::argument(template_laws::braced(COMMAND_PLACEHOLDER@)) matches Ok(
            arg,
        ) && launcher::arg_words(arg, options, target, remote_command)
            == seq![WordView::Text(remote_command)],
{
    lemma_lone_placeholder(SegmentView::Target, target, remote_command);
    lemma_lone_placeholder(SegmentView::Command, target, remote_command);
}

/// A lone placeholder becomes what its segment becomes.
proof fn lemma_lone_placeholder(
    segment: SegmentView,
    target: Seq<char>,
    remote_command: Seq<char>,
)
    requires
        segment is Target || segment is Command,
    ensures
        template::argument(template_laws::rendered_segment(segment)) == Ok::<
            ArgView,
            TemplateFault,
        >(ArgView::Template(seq![segment])),
        template::expanded(seq![segment], target, remote_command)
            == template::segment_text(segment, target, remote_command),
{
    let raw = template_laws::rendered_segment(segment);
    template_laws::law_lone_placeholder(raw, segment);
    reveal_with_fuel(template::expanded, 2);
    assert(template::expanded(seq![segment], target, remote_command)
        =~= template::segment_text(segment, target, remote_command));
}

/// Every launcher hands its program the target and the remote command, each
/// whole within one element.
pub proof fn law_target_and_command_reach_the_program(
    launcher: LauncherView,
    target: Seq<char>,
    remote_command: Seq<char>,
    stdin: RemoteStdin,
)
    requires
        launcher.wf(),
    ensures
        holds_text(launcher.command_line(target, remote_command, stdin), target),
        holds_text(launcher.command_line(target, remote_command, stdin), remote_command),
{
    lemma_segment_reaches(launcher, SegmentView::Target, target, remote_command, stdin);
    lemma_segment_reaches(launcher, SegmentView::Command, target, remote_command, stdin);
}

/// Whether text stands within one argument of a command line.
pub open spec fn holds_text(line: CommandLineView, text: Seq<char>) -> bool {
    exists|at: int, before: Seq<char>, after: Seq<char>|
        0 <= at < line.args.len() && line.args[at] == #[trigger] text_at(at, before, text, after)
}

/// Text between other text, as the argument at a place.
pub open spec fn text_at(at: int, before: Seq<char>, text: Seq<char>, after: Seq<char>) -> WordView {
    WordView::Text(before + text + after)
}

/// What a segment becomes stands within one element.
proof fn lemma_segment_reaches(
    launcher: LauncherView,
    segment: SegmentView,
    target: Seq<char>,
    remote_command: Seq<char>,
    stdin: RemoteStdin,
)
    requires
        launcher::any_contains(launcher.args, segment),
        !(segment is SshOptions),
    ensures
        holds_text(
            launcher.command_line(target, remote_command, stdin),
            template::segment_text(segment, target, remote_command),
        ),
{
    let options = launcher.ssh.words(stdin);
    let line = launcher.command_line(target, remote_command, stdin);
    let text = template::segment_text(segment, target, remote_command);
    let i = choose|i: int|
        0 <= i < launcher.args.len() && (#[trigger] launcher.args[i]).contains(segment);
    let segments = launcher.args[i]->Template_0;
    let j = choose|j: int| 0 <= j < segments.len() && segments[j] == segment;
    law_argument_keeps_its_place(launcher.args, i, options, target, remote_command);
    template_laws::law_substitution_is_verbatim(segments, j, target, remote_command);
    let at = launcher::words(launcher.args.take(i), options, target, remote_command).len()
        as int;
    let before = template::expanded(segments.take(j), target, remote_command);
    let after = template::expanded(segments.skip(j + 1), target, remote_command);
    assert(line.args[at] == text_at(at, before, text, after));
}

/// An accepted setting is used as it stands: its program without the white
/// space around it, and one argument for each template. Every launcher made
/// from a setting is well formed.
pub proof fn law_accepted_setting_is_used_as_it_stands(config: ConfigView)
    ensures
        launcher::configured(config) matches Ok(launcher) ==> {
            &&& launcher.wf()
            &&& launcher.program == text::trimmed(config.program)
            &&& launcher.ssh == SshOptions { managed: None, noninteractive: false }
            &&& launcher.args.len() == config.args.len()
            &&& forall|i: int|
                #![trigger launcher.args[i]]
                0 <= i < config.args.len() ==> template::argument(config.args[i]) == Ok::<
                    ArgView,
                    TemplateFault,
                >(launcher.args[i])
        },
{
    launcher::law_arguments_are_well_formed(config.args);
}

/// What a usable setting is: it names a program that is no template, every
/// argument is usable, and the target and the remote command are among them.
pub open spec fn usable(config: ConfigView) -> bool {
    let program = text::trimmed(config.program);
    &&& program.len() > 0
    &&& template::template(program) matches Ok(segments) ==> template::all_literal(
        segments,
    )
    &&& forall|i: int|
        0 <= i < config.args.len() ==> template::argument(#[trigger] config.args[i]) is Ok
    &&& some_argument_contains(config, SegmentView::Target)
    &&& some_argument_contains(config, SegmentView::Command)
}

/// Whether an argument of the setting holds this segment.
pub open spec fn some_argument_contains(config: ConfigView, needle: SegmentView) -> bool {
    exists|i: int|
        0 <= i < config.args.len() && (template::argument(#[trigger] config.args[i]) matches Ok(
            arg,
        ) && arg.contains(needle))
}

/// A launcher is made from every usable setting, and from no other.
pub proof fn law_usable_settings_are_accepted(config: ConfigView)
    ensures
        launcher::configured(config) is Ok <==> usable(config),
{
    let raw = config.args;
    launcher::law_arguments_are_well_formed(raw);
    lemma_first_unusable(raw);
    if let Ok(args) = launcher::arguments(raw) {
        assert forall|needle: SegmentView|
            launcher::any_contains(args, needle) == some_argument_contains(
                config,
                needle,
            ) by {
            if launcher::any_contains(args, needle) {
                let i = choose|i: int| 0 <= i < args.len() && (#[trigger] args[i]).contains(needle);
                assert(template::argument(raw[i]) is Ok);
            }
            if some_argument_contains(config, needle) {
                let i = choose|i: int|
                    0 <= i < raw.len() && (template::argument(#[trigger] raw[i]) matches Ok(
                        arg,
                    ) && arg.contains(needle));
                assert(args[i].contains(needle));
            }
        }
    }
}

/// Where an argument is at fault, it is the first that is unusable.
pub proof fn law_first_unusable_argument_is_named(config: ConfigView)
    ensures
        launcher::configured(config) matches Err(ConfigFault::Argument(index, fault)) ==> {
            &&& index < config.args.len()
            &&& template::argument(config.args[index as int]) == Err::<
                ArgView,
                TemplateFault,
            >(fault)
            &&& forall|i: int|
                #![trigger config.args[i]]
                0 <= i < index ==> template::argument(config.args[i]) is Ok
        },
{
    lemma_first_unusable(config.args);
}

/// Parsing stops at the first unusable argument.
proof fn lemma_first_unusable(args: Seq<Seq<char>>)
    ensures
        launcher::arguments(args) matches Err(fault) ==> {
            &&& fault is Argument
            &&& fault->Argument_0 < args.len()
            &&& template::argument(args[fault->Argument_0 as int]) == Err::<
                ArgView,
                TemplateFault,
            >(fault->Argument_1)
            &&& forall|i: int|
                #![trigger args[i]]
                0 <= i < fault->Argument_0 ==> template::argument(args[i]) is Ok
        },
    decreases args.len(),
{
    if args.len() > 0 {
        let fewer = args.drop_last();
        lemma_first_unusable(fewer);
        launcher::law_arguments_are_well_formed(fewer);
        if let Err(fault) = launcher::arguments(args) {
            assert forall|i: int|
                #![trigger args[i]]
                0 <= i < fault->Argument_0 implies template::argument(args[i]) is Ok by {
                assert(fewer[i] == args[i]);
            }
        }
    }
}

/// White space around the program makes no difference, neither to the launcher
/// nor to the message where there is none.
pub proof fn law_white_space_around_the_program_is_ignored(
    config: ConfigView,
    before: Seq<char>,
    after: Seq<char>,
)
    requires
        text::is_blank(before),
        text::is_blank(after),
    ensures
        ({
            let padded = ConfigView { program: before + config.program + after, args: config.args };
            &&& launcher::configured(padded) == launcher::configured(config)
            &&& launcher::configured(config) matches Err(fault) ==> fault.message(padded)
                == fault.message(config)
        }),
{
    text::law_trimmed_ignores_padding(before, config.program, after);
}

/// Arguments that parse one by one parse together.
proof fn lemma_arguments_given(raw: Seq<Seq<char>>, args: Seq<ArgView>)
    requires
        raw.len() == args.len(),
        forall|i: int|
            #![trigger raw[i]]
            0 <= i < raw.len() ==> template::argument(raw[i]) == Ok::<
                ArgView,
                TemplateFault,
            >(args[i]),
    ensures
        launcher::arguments(raw) == Ok::<Seq<ArgView>, ConfigFault>(args),
    decreases raw.len(),
{
    if raw.len() == 0 {
        assert(args =~= Seq::empty());
    } else {
        assert forall|i: int|
            #![trigger raw.drop_last()[i]]
            0 <= i < raw.len() - 1 implies template::argument(raw.drop_last()[i]) == Ok::<
            ArgView,
            TemplateFault,
        >(args.drop_last()[i]) by {
            assert(raw[i] == raw.drop_last()[i]);
        }
        lemma_arguments_given(raw.drop_last(), args.drop_last());
        assert(args.drop_last().push(args.last()) =~= args);
    }
}

/// The default setting is plain `ssh`: the options, if any, then `-T`, the
/// target and the remote command.
pub proof fn law_default_is_plain_ssh(
    ssh: SshOptions,
    target: Seq<char>,
    remote_command: Seq<char>,
    stdin: RemoteStdin,
)
    ensures
        launcher::configured(config::default_config()) matches Ok(launcher) && {
            &&& launcher.uses_ssh_options()
            &&& launcher.with_options(ssh).command_line(target, remote_command, stdin) == (
            CommandLineView {
                program: "ssh"@,
                args: ssh.words(stdin) + seq![
                    ssh::text("-T"),
                    WordView::Text(target),
                    WordView::Text(remote_command),
                ],
            })
        },
{
    let config = config::default_config();
    reveal_strlit("ssh");
    reveal_strlit("-T");
    reveal_strlit("target");
    reveal_strlit("command");
    reveal_strlit("ssh_options");
    reveal_strlit("{target}");
    reveal_strlit("{command}");
    reveal_strlit("{ssh_options}");
    let raw = config.args;
    assert(text::trimmed("ssh"@) == "ssh"@) by {
        assert("ssh"@[0] == 's');
        assert("ssh"@.last() == 'h');
    }
    template_laws::law_text_without_braces_is_literal("ssh"@);
    template_laws::law_text_without_braces_is_literal("-T"@);
    template_laws::law_ssh_options_stand_alone(raw[0]);
    template_laws::law_lone_placeholder(raw[2], SegmentView::Target);
    template_laws::law_lone_placeholder(raw[3], SegmentView::Command);
    assert(raw[0] =~= template_laws::braced(SSH_OPTIONS_PLACEHOLDER@));
    assert(raw[2] =~= template_laws::braced(TARGET_PLACEHOLDER@));
    assert(raw[3] =~= template_laws::braced(COMMAND_PLACEHOLDER@));
    let args = seq![
        ArgView::SshOptions,
        ArgView::Template(seq![SegmentView::Literal("-T"@)]),
        ArgView::Template(seq![SegmentView::Target]),
        ArgView::Template(seq![SegmentView::Command]),
    ];
    assert forall|i: int| 0 <= i < 4 implies template::argument(#[trigger] raw[i]) == Ok::<
        ArgView,
        TemplateFault,
    >(args[i]) by {
        assert(i == 0 || i == 1 || i == 2 || i == 3);
    }
    assert(launcher::arguments(raw) == Ok::<Seq<ArgView>, ConfigFault>(args)) by {
        lemma_arguments_given(raw, args);
    }
    assert(args[0] == ArgView::SshOptions);
    assert(args[2].contains(SegmentView::Target)) by {
        assert(seq![SegmentView::Target][0] == SegmentView::Target);
    }
    assert(args[3].contains(SegmentView::Command)) by {
        assert(seq![SegmentView::Command][0] == SegmentView::Command);
    }
    let options = ssh.words(stdin);
    reveal_with_fuel(launcher::words, 5);
    reveal_with_fuel(template::expanded, 2);
    assert(launcher::words(args, options, target, remote_command) =~= options + seq![
        ssh::text("-T"),
        WordView::Text(target),
        WordView::Text(remote_command),
    ]);
}

/// The program of every command line is the launcher's own, whatever the
/// arguments, the options, the target and the remote command are.
pub proof fn law_program_is_never_replaced(
    launcher: LauncherView,
    ssh: SshOptions,
    target: Seq<char>,
    remote_command: Seq<char>,
    stdin: RemoteStdin,
)
    ensures
        launcher.command_line(target, remote_command, stdin).program == launcher.program,
        launcher.with_options(ssh).command_line(target, remote_command, stdin).program
            == launcher.program,
        launcher.for_probe().command_line(target, remote_command, stdin).program
            == launcher.program,
{
}

/// Every launcher made from a setting runs the program that the setting names,
/// without the white space around it.
pub proof fn law_configured_program_is_run(
    config: ConfigView,
    ssh: SshOptions,
    target: Seq<char>,
    remote_command: Seq<char>,
    stdin: RemoteStdin,
)
    ensures
        launcher::configured(config) matches Ok(made) ==> {
            let program = text::trimmed(config.program);
            &&& made.command_line(target, remote_command, stdin).program == program
            &&& made.with_options(ssh).command_line(target, remote_command, stdin).program
                == program
            &&& made.for_probe().command_line(target, remote_command, stdin).program == program
        },
{
}

/// Changing options changes the options and nothing else, and a probe has no
/// private config and must not prompt.
pub proof fn law_options_leave_the_template_alone(launcher: LauncherView, ssh: SshOptions)
    ensures
        launcher.with_options(ssh).program == launcher.program,
        launcher.with_options(ssh).args == launcher.args,
        launcher.with_options(ssh).ssh == ssh,
        launcher.for_probe().program == launcher.program,
        launcher.for_probe().args == launcher.args,
        launcher.for_probe().ssh.managed is None,
        launcher.for_probe().ssh.noninteractive,
        launcher.uses_ssh_options() <==> exists|i: int|
            0 <= i < launcher.args.len() && #[trigger] launcher.args[i] == ArgView::SshOptions,
{
}

/// The options of a probe are the seven settings that keep ssh from prompting
/// and from hanging, each after a `-o`, and then `-n` where stdin is not read.
pub proof fn law_probe_options(launcher: LauncherView)
    ensures
        launcher.for_probe().ssh.words(RemoteStdin::Piped) == seq![
            WordView::Text("-o"@),
            WordView::Text("BatchMode=yes"@),
            WordView::Text("-o"@),
            WordView::Text("NumberOfPasswordPrompts=0"@),
            WordView::Text("-o"@),
            WordView::Text("StrictHostKeyChecking=yes"@),
            WordView::Text("-o"@),
            WordView::Text("ConnectTimeout=10"@),
            WordView::Text("-o"@),
            WordView::Text("ConnectionAttempts=1"@),
            WordView::Text("-o"@),
            WordView::Text("ServerAliveInterval=15"@),
            WordView::Text("-o"@),
            WordView::Text("ServerAliveCountMax=4"@),
        ],
        launcher.for_probe().ssh.words(RemoteStdin::Null) == launcher.for_probe().ssh.words(
            RemoteStdin::Piped,
        ).push(WordView::Text("-n"@)),
{
    ssh::law_noninteractive_adds_these_settings(RemoteStdin::Piped);
    ssh::law_plain_call_has_no_options();
    law_unread_stdin_is_the_last_option(launcher.for_probe().ssh);
    assert(launcher.for_probe().ssh.words(RemoteStdin::Piped) =~= ssh::noninteractive_words());
}

/// A launcher without arguments gives none, a template gives the one element
/// that it becomes, and the OpenSSH options give exactly their words.
pub proof fn law_command_line_of_one_argument(
    program: Seq<char>,
    segments: Seq<SegmentView>,
    ssh: SshOptions,
    target: Seq<char>,
    remote_command: Seq<char>,
    stdin: RemoteStdin,
)
    ensures
        (LauncherView { program, args: Seq::empty(), ssh }).command_line(
            target,
            remote_command,
            stdin,
        ).args == Seq::<WordView>::empty(),
        (LauncherView { program, args: seq![ArgView::Template(segments)], ssh }).command_line(
            target,
            remote_command,
            stdin,
        ).args == seq![WordView::Text(template::expanded(segments, target, remote_command))],
        (LauncherView { program, args: seq![ArgView::SshOptions], ssh }).command_line(
            target,
            remote_command,
            stdin,
        ).args == ssh.words(stdin),
{
    let options = ssh.words(stdin);
    reveal_with_fuel(launcher::words, 2);
    assert(launcher::words(
        seq![ArgView::Template(segments)],
        options,
        target,
        remote_command,
    ) =~= seq![WordView::Text(template::expanded(segments, target, remote_command))]);
    assert(launcher::words(seq![ArgView::SshOptions], options, target, remote_command) =~= options);
}

/// More arguments give more elements after those there are, and change none.
pub proof fn law_command_line_joins(
    program: Seq<char>,
    first: Seq<ArgView>,
    second: Seq<ArgView>,
    ssh: SshOptions,
    target: Seq<char>,
    remote_command: Seq<char>,
    stdin: RemoteStdin,
)
    ensures
        (LauncherView { program, args: first + second, ssh }).command_line(
            target,
            remote_command,
            stdin,
        ).args == (LauncherView { program, args: first, ssh }).command_line(
            target,
            remote_command,
            stdin,
        ).args + (LauncherView { program, args: second, ssh }).command_line(
            target,
            remote_command,
            stdin,
        ).args,
{
    law_words_join(first, second, ssh.words(stdin), target, remote_command);
}

/// The argv that argument texts ask for: the options for `{ssh_options}`, and
/// one element for every other text.
pub open spec fn argv(
    raw: Seq<Seq<char>>,
    options: Seq<WordView>,
    target: Seq<char>,
    remote_command: Seq<char>,
) -> Seq<WordView>
    decreases raw.len(),
{
    if raw.len() == 0 {
        Seq::empty()
    } else {
        argv(raw.drop_last(), options, target, remote_command) + if raw.last()
            == "{ssh_options}"@ {
            options
        } else {
            seq![
                WordView::Text(
                    template::expanded(
                        template::template(raw.last())->Ok_0,
                        target,
                        remote_command,
                    ),
                ),
            ]
        }
    }
}

/// Parsed arguments give the argv that their texts ask for.
proof fn lemma_words_are_argv(
    raw: Seq<Seq<char>>,
    args: Seq<ArgView>,
    options: Seq<WordView>,
    target: Seq<char>,
    remote_command: Seq<char>,
)
    requires
        raw.len() == args.len(),
        forall|i: int|
            #![trigger raw[i]]
            0 <= i < raw.len() ==> template::argument(raw[i]) == Ok::<ArgView, TemplateFault>(
                args[i],
            ),
    ensures
        launcher::words(args, options, target, remote_command) == argv(
            raw,
            options,
            target,
            remote_command,
        ),
    decreases raw.len(),
{
    if raw.len() > 0 {
        assert forall|i: int|
            #![trigger raw.drop_last()[i]]
            0 <= i < raw.len() - 1 implies template::argument(raw.drop_last()[i]) == Ok::<
            ArgView,
            TemplateFault,
        >(args.drop_last()[i]) by {
            assert(raw[i] == raw.drop_last()[i]);
        }
        lemma_words_are_argv(
            raw.drop_last(),
            args.drop_last(),
            options,
            target,
            remote_command,
        );
        let last = raw[raw.len() - 1];
        assert(last == raw.last());
        template_laws::law_placeholder_spellings(last);
        template_laws::law_ssh_options_stand_alone(last);
        template_laws::law_argument_is_the_whole_template(last);
        assert(template::argument(last) == Ok::<ArgView, TemplateFault>(args.last()));
    }
}

/// The argv of a launcher made from a setting is what the texts of the setting
/// ask for, in their order: the options for each `{ssh_options}`, and for each
/// other text one element, its template with the target and command put in.
pub proof fn law_argv_is_what_the_setting_asks_for(
    config: ConfigView,
    ssh: SshOptions,
    target: Seq<char>,
    remote_command: Seq<char>,
    stdin: RemoteStdin,
)
    ensures
        launcher::configured(config) matches Ok(made) ==> {
            &&& made.with_options(ssh).command_line(target, remote_command, stdin).args == argv(
                config.args,
                ssh.words(stdin),
                target,
                remote_command,
            )
            &&& made.uses_ssh_options() <==> exists|i: int|
                0 <= i < config.args.len() && #[trigger] config.args[i] == "{ssh_options}"@
        },
{
    law_accepted_setting_is_used_as_it_stands(config);
    if let Ok(made) = launcher::configured(config) {
        let raw = config.args;
        assert forall|i: int|
            #![trigger raw[i]]
            0 <= i < raw.len() implies template::argument(raw[i]) == Ok::<ArgView, TemplateFault>(
            made.args[i],
        ) && (raw[i] == "{ssh_options}"@ <==> made.args[i] == ArgView::SshOptions) by {
            assert(made.args[i] == made.args[i]);
            template_laws::law_placeholder_spellings(raw[i]);
            template_laws::law_ssh_options_stand_alone(raw[i]);
        }
        lemma_words_are_argv(raw, made.args, ssh.words(stdin), target, remote_command);
        if made.uses_ssh_options() {
            let i = choose|i: int| 0 <= i < made.args.len() && made.args[i] == ArgView::SshOptions;
            assert(raw[i] == "{ssh_options}"@);
        }
        if exists|i: int| 0 <= i < raw.len() && #[trigger] raw[i] == "{ssh_options}"@ {
            let i = choose|i: int| 0 <= i < raw.len() && #[trigger] raw[i] == "{ssh_options}"@;
            assert(made.args[i] == ArgView::SshOptions);
        }
    }
}

/// Whether a text is a template with this segment somewhere in it.
pub open spec fn has_somewhere(raw: Seq<char>, needle: SegmentView) -> bool {
    template::template(raw) matches Ok(segments) && exists|i: int|
        0 <= i < segments.len() && #[trigger] segments[i] == needle
}

/// Whether a text is a template with a placeholder.
pub open spec fn has_placeholder(raw: Seq<char>) -> bool {
    template::template(raw) matches Ok(segments) && exists|i: int|
        0 <= i < segments.len() && !(#[trigger] segments[i] is Literal)
}

/// Whether one of the texts has this segment somewhere in it.
pub open spec fn some_has(raw: Seq<Seq<char>>, needle: SegmentView) -> bool {
    exists|i: int| 0 <= i < raw.len() && has_somewhere(#[trigger] raw[i], needle)
}

/// A usable argument holds the target or the remote command exactly where its
/// text has it somewhere.
proof fn lemma_held_is_somewhere(raw: Seq<char>, needle: SegmentView)
    requires
        template::argument(raw) is Ok,
        needle is Target || needle is Command,
    ensures
        template::argument(raw)->Ok_0.contains(needle) <==> has_somewhere(raw, needle),
{
    template_laws::law_argument_is_the_whole_template(raw);
    if let Ok(segments) = template::template(raw) {
        template_laws::law_argument_contains_its_segments(segments, needle);
        if segments.len() == 1 && segments.contains(SegmentView::SshOptions) {
            assert(segments[0] == SegmentView::SshOptions);
        }
    }
}

/// A setting is accepted where its program names something that is no template,
/// every argument is usable, and the target and the remote command are somewhere
/// among the arguments. Otherwise the first of these that fails is the fault.
pub proof fn law_each_fault_has_its_cause(config: ConfigView)
    ensures
        ({
            let program = text::trimmed(config.program);
            let named = program.len() > 0;
            let plain = !has_placeholder(program);
            let parsed = forall|i: int|
                0 <= i < config.args.len() ==> template::argument(#[trigger] config.args[i]) is Ok;
            let target = some_has(config.args, SegmentView::Target);
            let command = some_has(config.args, SegmentView::Command);
            let outcome = launcher::configured(config);
            &&& outcome == Err::<LauncherView, ConfigFault>(ConfigFault::NoProgram) <==> !named
            &&& outcome == Err::<LauncherView, ConfigFault>(ConfigFault::ProgramExpands) <==> named
                && !plain
            &&& (outcome matches Err(fault) && fault is Argument) <==> named && plain && !parsed
            &&& outcome == Err::<LauncherView, ConfigFault>(ConfigFault::NoTarget) <==> named
                && plain && parsed && !target
            &&& outcome == Err::<LauncherView, ConfigFault>(ConfigFault::NoCommand) <==> named
                && plain && parsed && target && !command
            &&& outcome is Ok <==> named && plain && parsed && target && command
        }),
{
    let raw = config.args;
    let program = text::trimmed(config.program);
    launcher::law_arguments_are_well_formed(raw);
    lemma_first_unusable(raw);
    if let Ok(segments) = template::template(program) {
        template_laws::law_argument_contains_its_segments(segments, SegmentView::Target);
    }
    match launcher::arguments(raw) {
        Ok(args) => {
            lemma_any_contains_is_some_has(raw, args, SegmentView::Target);
            lemma_any_contains_is_some_has(raw, args, SegmentView::Command);
            assert forall|i: int| 0 <= i < raw.len() implies template::argument(
                #[trigger] raw[i],
            ) is Ok by {
                assert(args[i] == args[i]);
            }
        },
        Err(fault) => {
            assert(template::argument(raw[fault->Argument_0 as int]) is Err);
        },
    }
}

/// Some parsed argument holds the target or the remote command exactly where
/// some text has it.
proof fn lemma_any_contains_is_some_has(
    raw: Seq<Seq<char>>,
    args: Seq<ArgView>,
    needle: SegmentView,
)
    requires
        launcher::arguments(raw) == Ok::<Seq<ArgView>, ConfigFault>(args),
        needle is Target || needle is Command,
    ensures
        launcher::any_contains(args, needle) <==> some_has(raw, needle),
{
    launcher::law_arguments_are_well_formed(raw);
    if launcher::any_contains(args, needle) {
        let i = choose|i: int| 0 <= i < args.len() && (#[trigger] args[i]).contains(needle);
        lemma_held_is_somewhere(raw[i], needle);
        assert(has_somewhere(raw[i], needle));
    }
    if some_has(raw, needle) {
        let i = choose|i: int| 0 <= i < raw.len() && has_somewhere(#[trigger] raw[i], needle);
        lemma_held_is_somewhere(raw[i], needle);
        assert(args[i].contains(needle));
    }
}

/// A setting written from text, targets and remote commands is accepted as soon
/// as both are somewhere in it, and its command line is what was written: the
/// program, and one element for each argument with everything put in.
pub proof fn law_written_setting_runs_what_was_written(
    config: ConfigView,
    parts: Seq<Seq<SegmentView>>,
    target: Seq<char>,
    remote_command: Seq<char>,
    stdin: RemoteStdin,
)
    requires
        text::trimmed(config.program).len() > 0,
        forall|i: int|
            0 <= i < text::trimmed(config.program).len() ==> {
                let c = #[trigger] text::trimmed(config.program)[i];
                c != '{' && c != '}'
            },
        config.args.len() == parts.len(),
        forall|i: int|
            #![trigger parts[i]]
            0 <= i < parts.len() ==> config.args[i] == template_laws::rendered(parts[i])
                && !parts[i].contains(SegmentView::SshOptions),
        exists|i: int| 0 <= i < parts.len() && (#[trigger] parts[i]).contains(SegmentView::Target),
        exists|i: int| 0 <= i < parts.len() && (#[trigger] parts[i]).contains(SegmentView::Command),
    ensures
        launcher::configured(config) matches Ok(made) && {
            let line = made.command_line(target, remote_command, stdin);
            &&& line.program == text::trimmed(config.program)
            &&& line.args.len() == parts.len()
            &&& forall|i: int|
                #![trigger parts[i]]
                0 <= i < parts.len() ==> line.args[i] == WordView::Text(
                    template_laws::substituted(parts[i], target, remote_command),
                )
        },
{
    let raw = config.args;
    let program = text::trimmed(config.program);
    law_each_fault_has_its_cause(config);
    assert forall|i: int| 0 <= i < program.len() implies !template::is_brace(
        #[trigger] program[i],
    ) by {
    }
    template_laws::law_text_without_braces_is_literal(program);
    assert forall|i: int|
        #![trigger parts[i]]
        #![trigger raw[i]]
        0 <= i < parts.len() implies (template::argument(raw[i]) matches Ok(
        ArgView::Template(segments),
    ) && template::template(raw[i]) == Ok::<Seq<SegmentView>, TemplateFault>(segments)
        && template::expanded(segments, target, remote_command) == template_laws::substituted(
        parts[i],
        target,
        remote_command,
    ) && (has_somewhere(raw[i], SegmentView::Target) <==> parts[i].contains(SegmentView::Target))
        && (has_somewhere(raw[i], SegmentView::Command) <==> parts[i].contains(
        SegmentView::Command,
    ))) by {
        let part = parts[i];
        assert forall|j: int| 0 <= j < part.len() implies #[trigger] part[j]
            != SegmentView::SshOptions by {
            assert(part.contains(part[j]));
        }
        template_laws::law_written_argument_becomes_what_was_written(
            part,
            target,
            remote_command,
        );
        template_laws::law_argument_is_the_whole_template(raw[i]);
        lemma_held_is_somewhere(raw[i], SegmentView::Target);
        lemma_held_is_somewhere(raw[i], SegmentView::Command);
    }
    let t = choose|i: int|
        0 <= i < parts.len() && (#[trigger] parts[i]).contains(SegmentView::Target);
    let c = choose|i: int|
        0 <= i < parts.len() && (#[trigger] parts[i]).contains(SegmentView::Command);
    assert(has_somewhere(raw[t], SegmentView::Target));
    assert(has_somewhere(raw[c], SegmentView::Command));
    law_accepted_setting_is_used_as_it_stands(config);
    if let Ok(made) = launcher::configured(config) {
        assert forall|i: int| 0 <= i < made.args.len() implies #[trigger] made.args[i]
            != ArgView::SshOptions by {
            assert(template::argument(raw[i]) is Ok);
        }
        law_one_element_for_each_argument(made, target, remote_command, stdin);
        assert forall|i: int|
            #![trigger parts[i]]
            0 <= i < parts.len() implies made.command_line(
            target,
            remote_command,
            stdin,
        ).args[i] == WordView::Text(
            template_laws::substituted(parts[i], target, remote_command),
        ) by {
            assert(made.args[i] is Template);
        }
    }
}

/// The message for a faulty setting says which part of it is at fault: the
/// program, the argument by its number, or the placeholder that is missing.
pub proof fn law_setting_messages(config: ConfigView, index: nat, fault: TemplateFault)
    ensures
        ConfigFault::NoProgram.message(config) == "remote.command.program must name an executable"@,
        ConfigFault::ProgramExpands.message(config)
            == "remote.command.program is spawned directly and does not expand placeholders; put the placeholders in remote.command.args"@,
        ConfigFault::Argument(index, fault).message(config) == "remote.command.args["@
            + text::decimal(index) + "]: "@ + fault.message(config.args[index as int]),
        ConfigFault::NoTarget.message(config) == "remote.command.args must include the {"@
            + "target"@ + "} placeholder so `"@ + text::trimmed(config.program)
            + "` receives the remote "@ + "target"@,
        ConfigFault::NoCommand.message(config) == "remote.command.args must include the {"@
            + "command"@ + "} placeholder so `"@ + text::trimmed(config.program)
            + "` receives the remote "@ + "command"@,
{
}

} // verus!
