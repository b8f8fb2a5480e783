//! The launcher: one argv template, expanded for each remote command.

use vstd::prelude::*;

use crate::command_line::{CommandLine, CommandLineView, WordView};
use crate::config::{ConfigView, RemoteCommandConfig};
use crate::ssh::{ManagedSshOptions, RemoteStdin, SshOptions};
use crate::template::{
    Arg, ArgTemplate, ArgView, Segment, SegmentView, TemplateFault, COMMAND_PLACEHOLDER,
    TARGET_PLACEHOLDER,
};
use crate::text::decimal_text;
use crate::{template, text};

verus! {

/// Why a launcher could not be made.
#[derive(Debug, PartialEq, Eq)]
pub enum LauncherError {
    /// The setting is unusable, for the reason that the message gives.
    InvalidInput(String),
}

impl LauncherError {
    /// The message for the operator.
    pub fn message(&self) -> (result: &str)
        ensures
            result@ == self->InvalidInput_0@,
    {
        match self {
            LauncherError::InvalidInput(message) => message.as_str(),
        }
    }
}

/// Why a setting is unusable.
pub enum ConfigFault {
    /// The program is blank.
    NoProgram,
    /// The program holds a placeholder.
    ProgramExpands,
    /// The argument at this index is unusable.
    Argument(nat, TemplateFault),
    /// No argument holds the target.
    NoTarget,
    /// No argument holds the remote command.
    NoCommand,
}

/// The message for arguments that lack a placeholder.
pub open spec fn missing_message(name: Seq<char>, program: Seq<char>) -> Seq<char> {
    "remote.command.args must include the {"@ + name + "} placeholder so `"@ + program
        + "` receives the remote "@ + name
}

impl ConfigFault {
    /// The message for this fault in `config`.
    pub open spec fn message(self, config: ConfigView) -> Seq<char> {
        let program = text::trimmed(config.program);
        match self {
            ConfigFault::NoProgram => "remote.command.program must name an executable"@,
            ConfigFault::ProgramExpands =>
                "remote.command.program is spawned directly and does not expand placeholders; put the placeholders in remote.command.args"@,
            ConfigFault::Argument(index, fault) => "remote.command.args["@ + text::decimal(
                index,
            ) + "]: "@ + fault.message(config.args[index as int]),
            ConfigFault::NoTarget => missing_message(TARGET_PLACEHOLDER@, program),
            ConfigFault::NoCommand => missing_message(COMMAND_PLACEHOLDER@, program),
        }
    }
}

/// Every argument, or the first that is unusable.
pub open spec fn arguments(args: Seq<Seq<char>>) -> Result<Seq<ArgView>, ConfigFault>
    decreases args.len(),
{
    if args.len() == 0 {
        Ok(Seq::empty())
    } else {
        match arguments(args.drop_last()) {
            Ok(parsed) => match template::argument(args.last()) {
                Ok(arg) => Ok(parsed.push(arg)),
                Err(fault) => Err(ConfigFault::Argument((args.len() - 1) as nat, fault)),
            },
            Err(fault) => Err(fault),
        }
    }
}

/// Whether some argument holds this segment.
pub open spec fn any_contains(args: Seq<ArgView>, needle: SegmentView) -> bool {
    exists|i: int| 0 <= i < args.len() && (#[trigger] args[i]).contains(needle)
}

/// What a [`RemoteLauncher`] holds.
pub struct LauncherView {
    pub program: Seq<char>,
    pub args: Seq<ArgView>,
    pub ssh: SshOptions,
}

/// The launcher for a setting, or the first reason that there is none.
pub open spec fn configured(config: ConfigView) -> Result<LauncherView, ConfigFault> {
    let program = text::trimmed(config.program);
    if program.len() == 0 {
        Err(ConfigFault::NoProgram)
    } else if template::template(program) matches Ok(segments)
        && !template::all_literal(segments) {
        Err(ConfigFault::ProgramExpands)
    } else {
        match arguments(config.args) {
            Ok(args) => if !any_contains(args, SegmentView::Target) {
                Err(ConfigFault::NoTarget)
            } else if !any_contains(args, SegmentView::Command) {
                Err(ConfigFault::NoCommand)
            } else {
                Ok(
                    LauncherView {
                        program,
                        args,
                        ssh: SshOptions { managed: None, noninteractive: false },
                    },
                )
            },
            Err(fault) => Err(fault),
        }
    }
}

/// The argv elements of one argument.
pub open spec fn arg_words(
    arg: ArgView,
    options: Seq<WordView>,
    target: Seq<char>,
    remote_command: Seq<char>,
) -> Seq<WordView> {
    match arg {
        ArgView::Template(segments) => seq![
            WordView::Text(template::expanded(segments, target, remote_command)),
        ],
        ArgView::SshOptions => options,
    }
}

/// The argv elements of arguments, one after the other.
pub open spec fn words(
    args: Seq<ArgView>,
    options: Seq<WordView>,
    target: Seq<char>,
    remote_command: Seq<char>,
) -> Seq<WordView>
    decreases args.len(),
{
    if args.len() == 0 {
        Seq::empty()
    } else {
        words(args.drop_last(), options, target, remote_command) + arg_words(
            args.last(),
            options,
            target,
            remote_command,
        )
    }
}

impl LauncherView {
    /// What holds of every launcher: it names a program, its arguments are
    /// well formed, and the target and the remote command are among them.
    pub open spec fn wf(self) -> bool {
        &&& self.program.len() > 0
        &&& forall|i: int| 0 <= i < self.args.len() ==> (#[trigger] self.args[i]).wf()
        &&& any_contains(self.args, SegmentView::Target)
        &&& any_contains(self.args, SegmentView::Command)
    }

    /// Whether an argument is the OpenSSH options.
    pub open spec fn uses_ssh_options(self) -> bool {
        self.args.contains(ArgView::SshOptions)
    }

    /// The same launcher with other OpenSSH options.
    pub open spec fn with_options(self, ssh: SshOptions) -> LauncherView {
        LauncherView { program: self.program, args: self.args, ssh }
    }

    /// The same launcher without connection reuse and without prompts.
    pub open spec fn for_probe(self) -> LauncherView {
        self.with_options(SshOptions { managed: None, noninteractive: true })
    }

    /// The command line that runs `remote_command` on `target`.
    pub open spec fn command_line(
        self,
        target: Seq<char>,
        remote_command: Seq<char>,
        stdin: RemoteStdin,
    ) -> CommandLineView {
        CommandLineView {
            program: self.program,
            args: words(self.args, self.ssh.words(stdin), target, remote_command),
        }
    }
}

/// The local program that executes one remote command.
#[derive(Debug, PartialEq, Eq)]
pub struct RemoteLauncher {
    program: String,
    args: Vec<Arg>,
    ssh: SshOptions,
}

impl View for RemoteLauncher {
    type V = LauncherView;

    closed spec fn view(&self) -> LauncherView {
        LauncherView {
            program: self.program@,
            args: self.args@.map_values(|arg: Arg| arg@),
            ssh: self.ssh,
        }
    }
}

/// The message for arguments that lack the placeholder `name`.
fn missing_placeholder(name: &str, program: &str) -> (result: String)
    ensures
        result@ == missing_message(name@, program@),
{
    let mut message = "remote.command.args must include the {".to_owned();
    message.append(name);
    message.append("} placeholder so `");
    message.append(program);
    message.append("` receives the remote ");
    message.append(name);
    message
}

/// Whether some argument holds `needle`.
fn any_arg_contains(args: &Vec<Arg>, needle: &Segment) -> (result: bool)
    ensures
        result == any_contains(args@.map_values(|arg: Arg| arg@), needle@),
{
    let ghost held = args@.map_values(|arg: Arg| arg@);
    let mut at: usize = 0;
    while at < args.len()
        invariant
            at <= args@.len(),
            held == args@.map_values(|arg: Arg| arg@),
            forall|i: int| 0 <= i < at ==> !(#[trigger] held[i]).contains(needle@),
        decreases args@.len() - at,
    {
        if args[at].contains(needle) {
            assert(held[at as int].contains(needle@));
            return true;
        }
        at = at + 1;
    }
    false
}

/// Arguments that parse are well formed, one for each text.
pub proof fn law_arguments_are_well_formed(args: Seq<Seq<char>>)
    ensures
        arguments(args) matches Ok(parsed) ==> {
            &&& parsed.len() == args.len()
            &&& forall|i: int|
                #![trigger parsed[i]]
                #![trigger args[i]]
                0 <= i < args.len() ==> template::argument(args[i]) == Ok::<
                    ArgView,
                    TemplateFault,
                >(parsed[i]) && parsed[i].wf()
        },
    decreases args.len(),
{
    if args.len() > 0 {
        law_arguments_are_well_formed(args.drop_last());
        template::law_template_is_canonical(args.last());
    }
}

/// Only the arguments before the first unusable one matter.
proof fn lemma_arguments_prefix(args: Seq<Seq<char>>, count: int)
    requires
        0 <= count <= args.len(),
        arguments(args.take(count)) is Err,
    ensures
        arguments(args) == arguments(args.take(count)),
    decreases args.len() - count,
{
    if count == args.len() {
        assert(args.take(count) =~= args);
    } else {
        assert(args.take(count + 1).drop_last() =~= args.take(count));
        lemma_arguments_prefix(args, count + 1);
    }
}

impl RemoteLauncher {
    #[verifier::type_invariant]
    spec fn is_usable(self) -> bool {
        self@.wf()
    }

    /// Launcher for `[remote.command]`, whose default is the `ssh` command.
    ///
    /// An unusable template is an error rather than a fall back to some other
    /// program: the launcher is how the operator chose to reach the target.
    pub fn new(config: &RemoteCommandConfig) -> (result: Result<Self, LauncherError>)
        ensures
            match configured(config@) {
                Ok(launcher) => result matches Ok(made) && made@ == launcher && launcher.wf(),
                Err(fault) => result matches Err(LauncherError::InvalidInput(message)) && message@
                    == fault.message(config@),
            },
            result matches Ok(made) ==> made@.program == text::trimmed(config.program@)
                && made@.args.len() == config.args@.len() && made@.ssh.managed is None
                && !made@.ssh.noninteractive,
    {
        match Self::parse(config) {
            Ok(launcher) => Ok(launcher),
            Err(message) => Err(LauncherError::InvalidInput(message)),
        }
    }

    /// Launcher for `[remote.command]`, or the message that says why not.
    pub fn parse(config: &RemoteCommandConfig) -> (result: Result<Self, String>)
        ensures
            match configured(config@) {
                Ok(launcher) => result matches Ok(made) && made@ == launcher && launcher.wf(),
                Err(fault) => result matches Err(message) && message@ == fault.message(config@),
            },
            result matches Ok(made) ==> made@.program == text::trimmed(config.program@)
                && made@.args.len() == config.args@.len() && made@.ssh.managed is None
                && !made@.ssh.noninteractive,
    {
        let program = config.program.as_str().trim();
        if program.is_empty() {
            return Err("remote.command.program must name an executable".to_owned());
        }
        if let Ok(template) = ArgTemplate::parse(program) {
            if !template.is_literal() {
                return Err(
                    "remote.command.program is spawned directly and does not expand placeholders; put the placeholders in remote.command.args".to_owned(),
                );
            }
        }
        let ghost raw = config@.args;
        let mut args: Vec<Arg> = Vec::with_capacity(config.args.len());
        let mut index: usize = 0;
        assert(raw.take(0) =~= Seq::empty());
        assert(args@.map_values(|arg: Arg| arg@) =~= Seq::empty());
        while index < config.args.len()
            invariant
                index <= config.args@.len(),
                raw == config@.args,
                program@ == text::trimmed(config.program@),
                program@.len() > 0,
                !(template::template(program@) matches Ok(segments)
                    && !template::all_literal(segments)),
                arguments(raw.take(index as int)) == Ok::<Seq<ArgView>, ConfigFault>(
                    args@.map_values(|arg: Arg| arg@),
                ),
            decreases config.args@.len() - index,
        {
            let ghost before = args@.map_values(|arg: Arg| arg@);
            proof {
                assert(raw.take(index + 1).drop_last() =~= raw.take(index as int));
                assert(raw.take(index + 1).last() == config.args@[index as int]@);
            }
            match Arg::parse(config.args[index].as_str()) {
                Ok(arg) => {
                    args.push(arg);
                    assert(args@.map_values(|arg: Arg| arg@) =~= before.push(arg@));
                },
                Err(error) => {
                    let mut message = "remote.command.args[".to_owned();
                    message.append(decimal_text(index).as_str());
                    message.append("]: ");
                    message.append(error.as_str());
                    proof {
                        lemma_arguments_prefix(raw, index + 1);
                    }
                    return Err(message);
                },
            }
            index = index + 1;
        }
        proof {
            assert(raw.take(index as int) =~= raw);
            law_arguments_are_well_formed(raw);
        }
        if !any_arg_contains(&args, &Segment::Target) {
            return Err(missing_placeholder(TARGET_PLACEHOLDER, program));
        }
        if !any_arg_contains(&args, &Segment::Command) {
            return Err(missing_placeholder(COMMAND_PLACEHOLDER, program));
        }
        Ok(RemoteLauncher { program: program.to_owned(), args, ssh: SshOptions::default() })
    }

    /// Whether the template asks for the OpenSSH options, and so whether
    /// generating a private SSH config for it is worth anything.
    pub fn uses_ssh_options(&self) -> (result: bool)
        ensures
            result == self@.uses_ssh_options(),
    {
        let mut at: usize = 0;
        while at < self.args.len()
            invariant
                at <= self.args@.len(),
                forall|i: int| 0 <= i < at ==> #[trigger] self@.args[i] != ArgView::SshOptions,
            decreases self.args@.len() - at,
        {
            if matches!(self.args[at], Arg::SshOptions) {
                assert(self@.args[at as int] == ArgView::SshOptions);
                return true;
            }
            at = at + 1;
        }
        false
    }

    /// The launcher with these OpenSSH options in place of those it has.
    pub fn with_ssh_options(
        self,
        managed: Option<ManagedSshOptions>,
        noninteractive: bool,
    ) -> (result: Self)
        ensures
            result@ == self@.with_options(SshOptions { managed, noninteractive }),
            result@.program == self@.program,
            result@.args == self@.args,
            result@.ssh.managed == managed,
            result@.ssh.noninteractive == noninteractive,
            result@.wf(),
    {
        proof {
            use_type_invariant(&self);
        }
        RemoteLauncher {
            program: self.program,
            args: self.args,
            ssh: SshOptions { managed, noninteractive },
        }
    }

    /// Local process that runs `remote_command` on `target`.
    ///
    /// Callers still choose the stdio handles they need; `stdin` only tells the
    /// launcher whether the remote command reads stdin.
    pub fn command(&self, target: &str, remote_command: &str, stdin: RemoteStdin) -> (result:
        CommandLine)
        ensures
            result@ == self@.command_line(target@, remote_command@, stdin),
            result.program@ == self@.program,
            self@.wf(),
    {
        proof {
            use_type_invariant(self);
        }
        let mut command = CommandLine::new(self.program.as_str());
        let mut at: usize = 0;
        assert(self@.args.take(0) =~= Seq::empty());
        while at < self.args.len()
            invariant
                at <= self.args@.len(),
                command@.program == self@.program,
                command@.args == words(
                    self@.args.take(at as int),
                    self@.ssh.words(stdin),
                    target@,
                    remote_command@,
                ),
            decreases self.args@.len() - at,
        {
            match &self.args[at] {
                Arg::Template(template) => command.arg(
                    template.expand(target, remote_command).as_str(),
                ),
                Arg::SshOptions => self.ssh.apply(&mut command, stdin),
            }
            assert(self@.args.take(at + 1).drop_last() =~= self@.args.take(at as int));
            assert(self@.args.take(at + 1).last() == self.args@[at as int]@);
            at = at + 1;
        }
        assert(self@.args.take(at as int) =~= self@.args);
        command
    }

    /// Launcher for a metadata-only probe: it never reuses the shared
    /// connection and never waits on a prompt.
    pub fn probe(&self) -> (result: Self)
        ensures
            result@ == self@.for_probe(),
            result@.program == self@.program,
            result@.args == self@.args,
            result@.ssh.managed is None,
            result@.ssh.noninteractive,
            result@.wf(),
    {
        self.clone().with_ssh_options(None, true)
    }

    /// Program name for spawn diagnostics.
    pub fn program_name(&self) -> (result: String)
        ensures
            result@ == self@.program,
    {
        self.program.clone()
    }
}

impl Clone for RemoteLauncher {
    fn clone(&self) -> (result: Self)
        ensures
            result@ == self@,
    {
        proof {
            use_type_invariant(self);
        }
        let args = self.args.clone();
        let ssh = self.ssh.clone();
        assert(args@.map_values(|arg: Arg| arg@) =~= self@.args);
        RemoteLauncher { program: self.program.clone(), args, ssh }
    }
}

} // verus!
