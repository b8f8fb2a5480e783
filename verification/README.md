# remote_launcher

A verified launcher for remote commands. `[remote.command]` names a local
program and an argv template; the launcher checks that template once and expands
it for each target and remote command. The program is spawned directly, so no
local shell reads the remote command.

- `src/template.rs`: templates for one argument, parsed and expanded.
- `src/ssh.rs`: the OpenSSH options that `{ssh_options}` stands for.
- `src/command_line.rs`: the program and argv that come out.
- `src/config.rs`, `src/launcher.rs`: the setting and the launcher made from it.
- `src/text.rs`: trimming, quoting and decimal numbers.
- `src/template_laws.rs`, `src/launcher_laws.rs`: what holds of all of it.
- `app/`: turns a command line into a process.
