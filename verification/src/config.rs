//! The `[remote.command]` setting.

use vstd::prelude::*;

verus! {

/// Which local program runs a remote command, and with which arguments.
#[derive(Debug, PartialEq, Eq)]
pub struct RemoteCommandConfig {
    /// The program to spawn.
    pub program: String,
    /// One template for each argument.
    pub args: Vec<String>,
}

/// What a [`RemoteCommandConfig`] holds.
pub struct ConfigView {
    pub program: Seq<char>,
    pub args: Seq<Seq<char>>,
}

impl View for RemoteCommandConfig {
    type V = ConfigView;

    open spec fn view(&self) -> ConfigView {
        ConfigView {
            program: self.program@,
            args: self.args@.map_values(|arg: String| arg@),
        }
    }
}

/// Plain `ssh`, with the managed options where they are wanted.
pub open spec fn default_config() -> ConfigView {
    ConfigView {
        program: "ssh"@,
        args: seq!["{ssh_options}"@, "-T"@, "{target}"@, "{command}"@],
    }
}

impl Default for RemoteCommandConfig {
    fn default() -> (result: Self)
        ensures
            result@ == default_config(),
    {
        let mut args: Vec<String> = Vec::new();
        args.push("{ssh_options}".to_owned());
        args.push("-T".to_owned());
        args.push("{target}".to_owned());
        args.push("{command}".to_owned());
        let result = RemoteCommandConfig { program: "ssh".to_owned(), args };
        assert(result@.args =~= default_config().args);
        result
    }
}

/// What a setting holds is its program and its arguments, one for one.
pub proof fn law_setting_holds_its_arguments(config: RemoteCommandConfig)
    ensures
        config@.program == config.program@,
        config@.args.len() == config.args@.len(),
        forall|i: int|
            #![trigger config.args@[i]]
            0 <= i < config.args@.len() ==> config@.args[i] == config.args@[i]@,
{
}

} // verus!
