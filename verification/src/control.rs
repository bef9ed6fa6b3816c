//! Classification of command outcomes.  A command that ran but reported
//! failure is not an execution error: it surfaces its captured error text
//! as a distinct failure value, and the two-step unit-file installation
//! keeps a written file written whatever the later reload reports.

use vstd::prelude::*;
use crate::parse::{
    parse_unit_listing,
    parse_unit_properties,
    spec_parse_listing,
    spec_parse_properties,
};
use crate::unit::{ServiceInfo, units_view};

verus! {

/// What one command run produced: captured output text and whether the
/// program reported success.  Transient, never persisted.
#[derive(Clone, Debug)]
pub struct CommandResult {
    pub stdout: String,
    pub stderr: String,
    pub exit_success: bool,
}

/// Failures of the execution channel itself, before any program output
/// can be judged.
#[derive(Clone, Copy, Debug, PartialEq, Eq, Structural)]
pub enum ExecError {
    /// The program could not be launched at all.
    SpawnFailed,
    /// Reading or writing the program's streams failed.
    IoFailed,
    /// No remote session is established for the target host.
    NoSession,
    /// The remote channel broke; the session must be re-established.
    TransportError,
    /// No data arrived from the remote side within the bounded window.
    Timeout,
}

impl ExecError {
    /// A short human-readable rendering of the failure.
    pub fn label(&self) -> (r: &'static str)
        ensures
            (match *self {
                ExecError::SpawnFailed => r@ == "failed to launch the program"@,
                ExecError::IoFailed => r@ == "failed to read or write the program's streams"@,
                ExecError::NoSession => r@ == "no session is established for this host"@,
                ExecError::TransportError => r@ == "the remote channel broke"@,
                ExecError::Timeout => r@ == "the remote side sent no data in time"@,
            }),
    {
        match self {
            ExecError::SpawnFailed => "failed to launch the program",
            ExecError::IoFailed => "failed to read or write the program's streams",
            ExecError::NoSession => "no session is established for this host",
            ExecError::TransportError => "the remote channel broke",
            ExecError::Timeout => "the remote side sent no data in time",
        }
    }
}

/// Failures while establishing a remote session.
#[derive(Clone, Copy, Debug, PartialEq, Eq, Structural)]
pub enum ConnectError {
    /// The transport-layer connection could not be made.
    Network,
    /// The host rejected the offered credential.
    AuthRejected,
    /// The private-key material could not be read.
    KeyUnreadable,
}

impl ConnectError {
    /// A short human-readable rendering of the failure.
    pub fn label(&self) -> (r: &'static str)
        ensures
            (match *self {
                ConnectError::Network => r@ == "could not reach the host"@,
                ConnectError::AuthRejected => r@ == "the host rejected the credential"@,
                ConnectError::KeyUnreadable => r@ == "could not read the key"@,
            }),
    {
        match self {
            ConnectError::Network => "could not reach the host",
            ConnectError::AuthRejected => "the host rejected the credential",
            ConnectError::KeyUnreadable => "could not read the key",
        }
    }
}

/// A command ran but reported failure; its captured error text rides
/// along for the caller to render verbatim.
#[derive(Clone, Debug)]
pub enum ControlError {
    CommandFailed { stderr: String },
}

impl ControlError {
    /// Renders the failure as `context: captured error text`, the form the
    /// presentation layer shows verbatim.
    pub fn message(&self, context: &str) -> (r: String)
        ensures
            (match self {
                ControlError::CommandFailed { stderr } => r@ == context@ + ": "@ + stderr@,
            }),
    {
        let mut r = context.to_owned();
        r.append(": ");
        match self {
            ControlError::CommandFailed { stderr } => {
                r.append(stderr.as_str());
            },
        }
        r
    }
}

/// Judges a verb run: success is the program's own report; failure carries
/// the captured error text, exactly.
pub fn verb_outcome(res: &CommandResult) -> (r: Result<(), ControlError>)
    ensures
        r is Ok <==> res.exit_success,
        (r matches Err(ControlError::CommandFailed { stderr }) ==> stderr@ == res.stderr@),
{
    if res.exit_success {
        Ok(())
    } else {
        Err(ControlError::CommandFailed { stderr: res.stderr.clone() })
    }
}

/// Judges a unit-listing run: on success, the parsed units of the captured
/// output, every one well formed and in the output's order; on failure,
/// the captured error text.
pub fn list_units_outcome(res: &CommandResult) -> (r: Result<Vec<ServiceInfo>, ControlError>)
    ensures
        r is Ok <==> res.exit_success,
        (r matches Ok(units) ==> units_view(units@) == spec_parse_listing(res.stdout@)),
        (r matches Ok(units) ==> forall|k: int|
            0 <= k < units@.len() ==> (#[trigger] units@[k]@).wf()),
        (r matches Err(ControlError::CommandFailed { stderr }) ==> stderr@ == res.stderr@),
{
    if res.exit_success {
        Ok(parse_unit_listing(res.stdout.as_str()))
    } else {
        Err(ControlError::CommandFailed { stderr: res.stderr.clone() })
    }
}

/// Judges a property-query run: on success, the unit the captured output
/// describes under the queried name; on failure, the captured error text.
pub fn unit_status_outcome(name: &str, res: &CommandResult) -> (r: Result<
    ServiceInfo,
    ControlError,
>)
    ensures
        r is Ok <==> res.exit_success,
        (r matches Ok(u) ==> u@ == spec_parse_properties(name@, res.stdout@) && u@.wf()),
        (r matches Err(ControlError::CommandFailed { stderr }) ==> stderr@ == res.stderr@),
{
    if res.exit_success {
        Ok(parse_unit_properties(name, res.stdout.as_str()))
    } else {
        Err(ControlError::CommandFailed { stderr: res.stderr.clone() })
    }
}

/// Judges a log-retrieval run: on success, the captured log text exactly
/// as it came, unparsed; on failure, the captured error text.
pub fn logs_outcome(res: &CommandResult) -> (r: Result<String, ControlError>)
    ensures
        r is Ok <==> res.exit_success,
        (r matches Ok(t) ==> t@ == res.stdout@),
        (r matches Err(ControlError::CommandFailed { stderr }) ==> stderr@ == res.stderr@),
{
    if res.exit_success {
        Ok(res.stdout.clone())
    } else {
        Err(ControlError::CommandFailed { stderr: res.stderr.clone() })
    }
}

/// The bounded-wait rule of the remote transport: a read loop that has
/// waited at least its budget without data gives up with a timeout rather
/// than blocking on a hung remote shell forever.
pub fn poll_verdict(elapsed_ms: u64, budget_ms: u64) -> (r: Result<(), ExecError>)
    ensures
        r is Ok <==> elapsed_ms < budget_ms,
        r is Err ==> r == Err::<(), ExecError>(ExecError::Timeout),
{
    if elapsed_ms < budget_ms {
        Ok(())
    } else {
        Err(ExecError::Timeout)
    }
}

/// Failures of the two-step unit-file installation.  The two variants are
/// distinct on purpose: after a rejected write no file exists, while after
/// a failed reload the file is on disk but the manager has not observed
/// it.
#[derive(Clone, Debug)]
pub enum InstallError {
    /// The elevated write itself was rejected; nothing was installed.
    WriteRejected { stderr: String },
    /// The write succeeded but the daemon reload failed; the file stays on
    /// disk and is not rolled back.
    ReloadFailed { stderr: String },
}

/// Where a unit-file installation stands.
#[derive(Clone, Copy, Debug, PartialEq, Eq, Structural)]
pub enum InstallPhase {
    /// The elevated write has not happened yet.
    NeedWrite,
    /// The file is written; the manager still has to reload.
    NeedReload,
    /// Written and reloaded.
    Complete,
    /// The write was rejected; no file exists.
    WriteFailed,
    /// The reload failed after a successful write; the file exists.
    ReloadFailedAfterWrite,
}

impl InstallPhase {
    /// Whether the unit file is on disk in this phase.
    pub open spec fn file_written(self) -> bool {
        self is NeedReload || self is Complete || self is ReloadFailedAfterWrite
    }
}

/// The next installation phase after one step reports `ok`.
pub open spec fn spec_install_next(p: InstallPhase, ok: bool) -> InstallPhase {
    match p {
        InstallPhase::NeedWrite => if ok {
            InstallPhase::NeedReload
        } else {
            InstallPhase::WriteFailed
        },
        InstallPhase::NeedReload => if ok {
            InstallPhase::Complete
        } else {
            InstallPhase::ReloadFailedAfterWrite
        },
        _ => p,
    }
}

/// Advances the installation by the outcome of its pending step.
pub fn install_advance(p: InstallPhase, res: &CommandResult) -> (r: InstallPhase)
    ensures
        r == spec_install_next(p, res.exit_success),
{
    match p {
        InstallPhase::NeedWrite => {
            if res.exit_success {
                InstallPhase::NeedReload
            } else {
                InstallPhase::WriteFailed
            }
        },
        InstallPhase::NeedReload => {
            if res.exit_success {
                InstallPhase::Complete
            } else {
                InstallPhase::ReloadFailedAfterWrite
            }
        },
        _ => p,
    }
}

/// A written unit file stays written: no step of the installation, least
/// of all a failed reload, ever takes the file off the disk.
pub proof fn lemma_install_never_rolls_back(p: InstallPhase, ok: bool)
    ensures
        p.file_written() ==> spec_install_next(p, ok).file_written(),
{
}

/// Judges the elevated write of a unit file.
pub fn install_write_outcome(res: &CommandResult) -> (r: Result<(), InstallError>)
    ensures
        r is Ok <==> res.exit_success,
        (r matches Err(e) ==> e matches InstallError::WriteRejected { stderr } && stderr@
            == res.stderr@),
{
    if res.exit_success {
        Ok(())
    } else {
        Err(InstallError::WriteRejected { stderr: res.stderr.clone() })
    }
}

/// Judges the daemon reload that follows a successful write.  Its failure
/// is reported as a reload failure, never as a write failure: the two are
/// distinguishable, and the written file is left in place.
pub fn install_reload_outcome(res: &CommandResult) -> (r: Result<(), InstallError>)
    ensures
        r is Ok <==> res.exit_success,
        (r matches Err(e) ==> e matches InstallError::ReloadFailed { stderr } && stderr@
            == res.stderr@),
{
    if res.exit_success {
        Ok(())
    } else {
        Err(InstallError::ReloadFailed { stderr: res.stderr.clone() })
    }
}

/// A failure of the write step and a failure of the reload step are never
/// the same value, whatever error text each carries.
pub proof fn lemma_install_failures_distinct(w: InstallError, l: InstallError)
    requires
        w is WriteRejected,
        l is ReloadFailed,
    ensures
        w != l,
{
}

} // verus!
