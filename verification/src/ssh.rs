//! The OpenSSH options of one call.

use std::path::PathBuf;

use vstd::prelude::*;

use crate::command_line::{CommandLine, CommandLineView, WordView};

verus! {

/// Stdin disposition the caller needs from the launched process.
#[derive(Debug, Clone, Copy, PartialEq, Eq, Structural)]
pub enum RemoteStdin {
    /// The caller writes the remote command's stdin: setup scripts, binary
    /// installs, and the long-running client bridge.
    Piped,
    /// The caller never writes stdin.
    Null,
}

/// Private SSH config and control socket generated for one attach.
#[derive(Debug, PartialEq, Eq)]
pub struct ManagedSshOptions {
    /// The generated config.
    pub config_path: PathBuf,
    /// The control socket, where connections are reused.
    pub control_path: Option<PathBuf>,
}

/// One text argument.
pub open spec fn text(word: &str) -> WordView {
    WordView::Text(word@)
}

impl ManagedSshOptions {
    /// The options that select the config and, where there is one, the socket.
    pub open spec fn words(self) -> Seq<WordView> {
        seq![text("-F"), WordView::Path(self.config_path)] + match self.control_path {
            Some(control_path) => seq![
                text("-S"),
                WordView::Path(control_path),
                text("-o"),
                text("ControlMaster=auto"),
                text("-o"),
                text("ControlPersist=yes"),
            ],
            None => Seq::empty(),
        }
    }

    /// The command line that shuts the connection-reuse master down.
    pub open spec fn control_exit_line(self, target: Seq<char>) -> CommandLineView {
        CommandLineView {
            program: "ssh"@,
            args: self.words() + seq![
                text("-O"),
                text("exit"),
                text("-o"),
                text("BatchMode=yes"),
                WordView::Text(target),
            ],
        }
    }

    /// Adds the options to a command line.
    pub fn apply(&self, command: &mut CommandLine)
        ensures
            final(command)@ == old(command)@.with_args(self.words()),
            final(command)@.program == old(command)@.program,
            old(command)@.args.is_prefix_of(final(command)@.args),
    {
        command.arg("-F");
        command.arg_path(&self.config_path);
        if let Some(control_path) = &self.control_path {
            command.arg("-S");
            command.arg_path(control_path);
            command.arg("-o");
            command.arg("ControlMaster=auto");
            command.arg("-o");
            command.arg("ControlPersist=yes");
        }
        assert(command@.args =~= old(command)@.args + self.words());
        assert(command@.args.subrange(0, old(command)@.args.len() as int)
            =~= old(command)@.args);
    }

    /// Shutdown for the connection-reuse master, when this config opened one.
    pub fn control_exit_command(&self, target: &str) -> (result: Option<CommandLine>)
        ensures
            match self.control_path {
                Some(_) => result matches Some(command) && command@ == self.control_exit_line(
                    target@,
                ),
                None => result is None,
            },
    {
        if self.control_path.is_none() {
            return None;
        }
        let mut command = CommandLine::new("ssh");
        self.apply(&mut command);
        command.arg("-O");
        command.arg("exit");
        command.arg("-o");
        command.arg("BatchMode=yes");
        command.arg(target);
        assert(command@.args =~= self.control_exit_line(target@).args);
        Some(command)
    }
}

impl Clone for ManagedSshOptions {
    fn clone(&self) -> (result: Self)
        ensures
            result == *self,
    {
        ManagedSshOptions {
            config_path: self.config_path.clone(),
            control_path: match &self.control_path {
                Some(control_path) => Some(control_path.clone()),
                None => None,
            },
        }
    }
}

/// Values `{ssh_options}` expands to. Only a template that asks for them is
/// given the OpenSSH options, so a program that is not ssh gets none.
#[derive(Debug, PartialEq, Eq)]
pub struct SshOptions {
    /// The private config, where there is one.
    pub managed: Option<ManagedSshOptions>,
    /// Whether ssh must fail rather than prompt or hang.
    pub noninteractive: bool,
}

/// The options with which ssh fails rather than prompts or hangs.
pub open spec fn noninteractive_words() -> Seq<WordView> {
    seq![
        text("-o"),
        text("BatchMode=yes"),
        text("-o"),
        text("NumberOfPasswordPrompts=0"),
        text("-o"),
        text("StrictHostKeyChecking=yes"),
        text("-o"),
        text("ConnectTimeout=10"),
        text("-o"),
        text("ConnectionAttempts=1"),
        text("-o"),
        text("ServerAliveInterval=15"),
        text("-o"),
        text("ServerAliveCountMax=4"),
    ]
}

impl SshOptions {
    /// The argv elements that `{ssh_options}` stands for.
    pub open spec fn words(self, stdin: RemoteStdin) -> Seq<WordView> {
        (match self.managed {
            Some(managed) => managed.words(),
            None => Seq::empty(),
        }) + (if self.noninteractive {
            noninteractive_words()
        } else {
            Seq::empty()
        }) + (match stdin {
            RemoteStdin::Null => seq![text("-n")],
            RemoteStdin::Piped => Seq::empty(),
        })
    }

    /// Adds the options to a command line.
    pub fn apply(&self, command: &mut CommandLine, stdin: RemoteStdin)
        ensures
            final(command)@ == old(command)@.with_args(self.words(stdin)),
            final(command)@.program == old(command)@.program,
            old(command)@.args.is_prefix_of(final(command)@.args),
    {
        if let Some(managed) = &self.managed {
            managed.apply(command);
        }
        if self.noninteractive {
            command.arg("-o");
            command.arg("BatchMode=yes");
            command.arg("-o");
            command.arg("NumberOfPasswordPrompts=0");
            command.arg("-o");
            command.arg("StrictHostKeyChecking=yes");
            command.arg("-o");
            command.arg("ConnectTimeout=10");
            command.arg("-o");
            command.arg("ConnectionAttempts=1");
            command.arg("-o");
            command.arg("ServerAliveInterval=15");
            command.arg("-o");
            command.arg("ServerAliveCountMax=4");
        }
        if matches!(stdin, RemoteStdin::Null) {
            // Windows OpenSSH can still read the console with stdin redirected to NUL.
            command.arg("-n");
        }
        assert(command@.args =~= old(command)@.args + self.words(stdin));
        assert(command@.args.subrange(0, old(command)@.args.len() as int)
            =~= old(command)@.args);
    }
}

impl Default for SshOptions {
    fn default() -> (result: Self)
        ensures
            result == (SshOptions { managed: None, noninteractive: false }),
    {
        SshOptions { managed: None, noninteractive: false }
    }
}

impl Clone for SshOptions {
    fn clone(&self) -> (result: Self)
        ensures
            result == *self,
    {
        SshOptions {
            managed: match &self.managed {
                Some(managed) => Some(managed.clone()),
                None => None,
            },
            noninteractive: self.noninteractive,
        }
    }
}

/// The managed options name the config, and where there is a control socket,
/// that socket, opened on demand and kept open. There is nothing else.
pub proof fn law_managed_options(config_path: PathBuf, control_path: PathBuf)
    ensures
        (ManagedSshOptions { config_path, control_path: None }).words() == seq![
            WordView::Text("-F"@),
            WordView::Path(config_path),
        ],
        (ManagedSshOptions { config_path, control_path: Some(control_path) }).words()
            == (ManagedSshOptions { config_path, control_path: None }).words() + seq![
            WordView::Text("-S"@),
            WordView::Path(control_path),
            WordView::Text("-o"@),
            WordView::Text("ControlMaster=auto"@),
            WordView::Text("-o"@),
            WordView::Text("ControlPersist=yes"@),
        ],
{
    assert((ManagedSshOptions { config_path, control_path: None }).words() =~= seq![
        WordView::Text("-F"@),
        WordView::Path(config_path),
    ]);
    assert((ManagedSshOptions { config_path, control_path: Some(control_path) }).words()
        =~= (ManagedSshOptions { config_path, control_path: None }).words() + seq![
        WordView::Text("-S"@),
        WordView::Path(control_path),
        WordView::Text("-o"@),
        WordView::Text("ControlMaster=auto"@),
        WordView::Text("-o"@),
        WordView::Text("ControlPersist=yes"@),
    ]);
}

/// The shutdown is `ssh` with the managed options, the request to exit without
/// a prompt, and the target.
pub proof fn law_shutdown_request(managed: ManagedSshOptions, target: Seq<char>)
    ensures
        managed.control_exit_line(target).program == "ssh"@,
        managed.control_exit_line(target).args == managed.words() + seq![
            WordView::Text("-O"@),
            WordView::Text("exit"@),
            WordView::Text("-o"@),
            WordView::Text("BatchMode=yes"@),
            WordView::Text(target),
        ],
{
    assert(managed.control_exit_line(target).args =~= managed.words() + seq![
        WordView::Text("-O"@),
        WordView::Text("exit"@),
        WordView::Text("-o"@),
        WordView::Text("BatchMode=yes"@),
        WordView::Text(target),
    ]);
}

/// A private config adds its own options in front, and changes nothing else:
/// what is said of prompts and of stdin is as it is without one.
pub proof fn law_managed_options_come_first(
    managed: ManagedSshOptions,
    noninteractive: bool,
    stdin: RemoteStdin,
)
    ensures
        (SshOptions { managed: Some(managed), noninteractive }).words(stdin) == managed.words()
            + (SshOptions { managed: None, noninteractive }).words(stdin),
{
    assert((SshOptions { managed: Some(managed), noninteractive }).words(stdin)
        =~= managed.words() + (SshOptions { managed: None, noninteractive }).words(stdin));
}

/// Without a private config, and where ssh may prompt, there are no options but
/// the one that says that stdin is not read.
pub proof fn law_plain_call_has_no_options()
    ensures
        (SshOptions { managed: None, noninteractive: false }).words(RemoteStdin::Piped) == Seq::<
            WordView,
        >::empty(),
        (SshOptions { managed: None, noninteractive: false }).words(RemoteStdin::Null) == seq![
            WordView::Text("-n"@),
        ],
{
    assert((SshOptions { managed: None, noninteractive: false }).words(RemoteStdin::Piped)
        =~= Seq::empty());
    assert((SshOptions { managed: None, noninteractive: false }).words(RemoteStdin::Null) =~= seq![
        WordView::Text("-n"@),
    ]);
}

/// A call that may prompt gets the managed options, and after them nothing but
/// what stdin asks for. It is never told to fail rather than prompt.
pub proof fn law_interactive_call_may_prompt(managed: ManagedSshOptions)
    ensures
        (SshOptions { managed: Some(managed), noninteractive: false }).words(RemoteStdin::Piped)
            == managed.words(),
        (SshOptions { managed: Some(managed), noninteractive: false }).words(RemoteStdin::Null)
            == managed.words().push(WordView::Text("-n"@)),
        forall|stdin: RemoteStdin|
            !(#[trigger] (SshOptions {
                managed: Some(managed),
                noninteractive: false,
            }).words(stdin)).contains(WordView::Text("BatchMode=yes"@)),
{
    let ssh = SshOptions { managed: Some(managed), noninteractive: false };
    law_plain_call_has_no_options();
    law_managed_options_come_first(managed, false, RemoteStdin::Piped);
    law_managed_options_come_first(managed, false, RemoteStdin::Null);
    assert(ssh.words(RemoteStdin::Piped) =~= managed.words());
    assert(ssh.words(RemoteStdin::Null) =~= managed.words().push(WordView::Text("-n"@)));
    reveal_strlit("-F");
    reveal_strlit("-S");
    reveal_strlit("-o");
    reveal_strlit("-n");
    reveal_strlit("ControlMaster=auto");
    reveal_strlit("ControlPersist=yes");
    reveal_strlit("BatchMode=yes");
    assert("ControlMaster=auto"@[0] == 'C');
    assert("BatchMode=yes"@[0] == 'B');
    assert("ControlPersist=yes"@[0] == 'C');
    assert forall|stdin: RemoteStdin| !(#[trigger] ssh.words(stdin)).contains(
        WordView::Text("BatchMode=yes"@),
    ) by {
        let words = ssh.words(stdin);
        assert forall|i: int| 0 <= i < words.len() implies words[i] != WordView::Text(
            "BatchMode=yes"@,
        ) by {
        }
    }
}

/// Whether a setting is given to ssh: the setting, right after a `-o`.
pub open spec fn sets(words: Seq<WordView>, setting: Seq<char>) -> bool {
    exists|i: int|
        0 <= i < words.len() - 1 && #[trigger] words[i] == WordView::Text("-o"@) && words[i + 1]
            == WordView::Text(setting)
}

/// A call that must not prompt never asks for a password, never asks about a
/// host key, gives up on a host that does not answer, and notices a connection
/// that dies, whether or not there is a private config.
pub proof fn law_noninteractive_call_never_prompts_or_hangs(
    managed: Option<ManagedSshOptions>,
    stdin: RemoteStdin,
)
    ensures
        sets((SshOptions { managed, noninteractive: true }).words(stdin), "BatchMode=yes"@),
        sets(
            (SshOptions { managed, noninteractive: true }).words(stdin),
            "NumberOfPasswordPrompts=0"@,
        ),
        sets(
            (SshOptions { managed, noninteractive: true }).words(stdin),
            "StrictHostKeyChecking=yes"@,
        ),
        sets((SshOptions { managed, noninteractive: true }).words(stdin), "ConnectTimeout=10"@),
        sets((SshOptions { managed, noninteractive: true }).words(stdin), "ConnectionAttempts=1"@),
        sets(
            (SshOptions { managed, noninteractive: true }).words(stdin),
            "ServerAliveInterval=15"@,
        ),
        sets((SshOptions { managed, noninteractive: true }).words(stdin), "ServerAliveCountMax=4"@),
{
    let words = (SshOptions { managed, noninteractive: true }).words(stdin);
    let at: int = match managed {
        Some(managed) => managed.words().len() as int,
        None => 0,
    };
    assert(words[at] == WordView::Text("-o"@));
    assert(words[at + 2] == WordView::Text("-o"@));
    assert(words[at + 4] == WordView::Text("-o"@));
    assert(words[at + 6] == WordView::Text("-o"@));
    assert(words[at + 8] == WordView::Text("-o"@));
    assert(words[at + 10] == WordView::Text("-o"@));
    assert(words[at + 12] == WordView::Text("-o"@));
}

/// Forbidding prompts adds seven settings in this order, between what there is
/// without it: nothing else is added, and nothing is taken away.
pub proof fn law_noninteractive_adds_these_settings(stdin: RemoteStdin)
    ensures
        (SshOptions { managed: None, noninteractive: true }).words(stdin) == seq![
            WordView::Text("-o"@),
            WordView::Text("BatchMode=yes"@),
            WordView::Text("-o"@),
            WordView::Text("NumberOfPasswordPrompts=0"@),
            WordView::Text("-o"@),
            WordView::Text("StrictHostKeyChecking=yes"@),
            WordView::Text("-o"@),
            WordView::Text("ConnectTimeout=10"@),
            WordView::Text("-o"@),
            WordView::Text("ConnectionAttempts=1"@),
            WordView::Text("-o"@),
            WordView::Text("ServerAliveInterval=15"@),
            WordView::Text("-o"@),
            WordView::Text("ServerAliveCountMax=4"@),
        ] + (SshOptions { managed: None, noninteractive: false }).words(stdin),
{
    let ssh = SshOptions { managed: None, noninteractive: true };
    assert(ssh.words(stdin) =~= noninteractive_words() + (SshOptions {
        managed: None,
        noninteractive: false,
    }).words(stdin));
}

} // verus!
