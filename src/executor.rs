//! Where collector commands run: locally or over SSH.
use vstd::prelude::*;

verus! {

/// SSH configuration for a remote machine.
#[derive(Debug, Clone)]
pub struct SshConfig {
    pub host: String,
    pub user: String,
    pub key_path: Option<String>,
}

/// Output of a command.
#[derive(Debug, Clone)]
pub struct CommandOutput {
    pub stdout: String,
    pub stderr: String,
    pub exit_code: i32,
}

/// Command executor: runs locally, or remotely where it holds an SSH configuration.
#[derive(Debug, Clone)]
pub struct Executor {
    ssh_config: Option<SshConfig>,
}

impl Executor {
    pub closed spec fn is_remote(&self) -> bool {
        self.ssh_config is Some
    }

    /// An executor that runs commands on this machine.
    pub fn local() -> (r: Self)
        ensures
            !r.is_remote(),
    {
        Executor { ssh_config: None }
    }

    /// An executor that runs commands over SSH with `config`.
    pub fn remote(config: SshConfig) -> (r: Self)
        ensures
            r.is_remote(),
            r.ssh_config_spec() == Some(config),
    {
        Executor { ssh_config: Some(config) }
    }

    pub closed spec fn ssh_config_spec(&self) -> Option<SshConfig> {
        self.ssh_config
    }

    /// The SSH configuration, where commands run remotely.
    pub fn ssh_config(&self) -> (r: &Option<SshConfig>)
        ensures
            *r == self.ssh_config_spec(),
    {
        &self.ssh_config
    }
}

} // verus!
