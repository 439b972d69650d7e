//! What a command line makes the program do.
use crate::cli::{CleanupMode, Cli, Command, PbrRequest, RuntimePaths};
use crate::daemon::state::CleanupSource;
use vstd::prelude::*;

verus! {

/// What the program does.
pub enum Task {
    /// Take over the readiness pipe, load the options, and start a daemon in the background.
    StartBackground(RuntimePaths),
    /// Take over the readiness pipe, load the options, and be the daemon.
    RunDaemon(RuntimePaths),
    /// Stop the daemon of the working directory.
    StopBackground(RuntimePaths),
    /// Make the daemon of the working directory resynchronise.
    SignalResync(RuntimePaths),
    /// Load the options and remove rules.
    CleanupOnce(RuntimePaths, CleanupSource),
    /// Apply, remove or show a rule for marked packets.
    RunRequest(PbrRequest),
    /// Say whether a daemon runs.
    PrintStatus(RuntimePaths),
}

/// Which rules a mode of cleaning up removes.
pub open spec fn source_of(mode: CleanupMode) -> CleanupSource {
    match mode {
        CleanupMode::Owned => CleanupSource::Owned,
        CleanupMode::Dump => CleanupSource::Dump,
    }
}

/// Decides what the program does.
pub fn run_cli(cli: Cli) -> (r: Task)
    ensures
        ({
            let paths = RuntimePaths { config: cli.config, work_dir: cli.work_dir };
            r == match cli.command {
                Command::Run { daemon } => if daemon {
                    Task::StartBackground(paths)
                } else {
                    Task::RunDaemon(paths)
                },
                Command::Stop => Task::StopBackground(paths),
                Command::Resync => Task::SignalResync(paths),
                Command::Cleanup { mode } => Task::CleanupOnce(paths, source_of(mode)),
                Command::Pbr { request } => Task::RunRequest(request),
                Command::Status => Task::PrintStatus(paths),
            }
        }),
        r is StartBackground <==> cli.command == (Command::Run { daemon: true }),
        r is RunDaemon <==> cli.command == (Command::Run { daemon: false }),
        r is StopBackground <==> cli.command == Command::Stop,
        r is SignalResync <==> cli.command == Command::Resync,
        r is PrintStatus <==> cli.command == Command::Status,
        r matches Task::CleanupOnce(_, source) ==> cli.command == (Command::Cleanup {
            mode: if source == CleanupSource::Owned {
                CleanupMode::Owned
            } else {
                CleanupMode::Dump
            },
        }),
        r matches Task::RunRequest(request) ==> cli.command == (Command::Pbr { request }),
{
    let (paths, command) = cli.into_parts();
    match command {
        Command::Run { daemon } => if daemon {
            Task::StartBackground(paths)
        } else {
            Task::RunDaemon(paths)
        },
        Command::Stop => Task::StopBackground(paths),
        Command::Resync => Task::SignalResync(paths),
        Command::Cleanup { mode } => {
            let source = match mode {
                CleanupMode::Owned => CleanupSource::Owned,
                CleanupMode::Dump => CleanupSource::Dump,
            };
            Task::CleanupOnce(paths, source)
        },
        Command::Pbr { request } => Task::RunRequest(request),
        Command::Status => Task::PrintStatus(paths),
    }
}

} // verus!
