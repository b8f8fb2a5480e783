//! Local launcher for remote commands.
//!
//! A remote operation is a target and a remote command string. The setting
//! `[remote.command]` says which local program runs that pair, and `ssh` is the
//! default value of that setting rather than a separate path: one argv template
//! is expanded and the program is spawned directly, so no local shell is
//! involved and a remote command keeps its own quoting, `$`, and `;` intact.
//!
//! The launched program must run the remote command on the target the way
//! `ssh target "<command>"` does, with stdin and stdout connected.

pub mod command_line;
pub mod config;
pub mod launcher;
pub mod launcher_laws;
pub mod ssh;
pub mod template;
pub mod template_laws;
pub mod text;

pub use command_line::{CommandLine, Word};
pub use config::RemoteCommandConfig;
pub use launcher::{LauncherError, RemoteLauncher};
pub use ssh::{ManagedSshOptions, RemoteStdin, SshOptions};
pub use template::{Arg, ArgTemplate, Segment};
