//! What the kernel command does.

use crate::server::ConnectionInfo;
use vstd::prelude::*;

verus! {

/// The options of the kernel command.
#[derive(Debug)]
pub struct JupyterFlags {
    pub install: bool,
    pub kernel: bool,
    pub conn_file: Option<String>,
    pub name: Option<String>,
    pub display: Option<String>,
    pub force: bool,
}

/// What the kernel command does.
#[derive(Debug)]
pub enum KernelAction {
    /// Says whether the kernel is installed.
    Status { name: Option<String> },
    /// Installs the kernel.
    Install { name: Option<String>, display: Option<String>, force: bool },
    /// Runs the kernel that the connection file describes.
    Run { conn_file: String },
}

/// What the kernel command does with these options: it installs if it is told to, and
/// otherwise runs if it is told to. To run it needs a connection file.
pub fn kernel(flags: JupyterFlags) -> (action: KernelAction)
    requires
        flags.kernel && !flags.install ==> flags.conn_file is Some,
    ensures
        action == if flags.install {
            KernelAction::Install { name: flags.name, display: flags.display, force: flags.force }
        } else if flags.kernel {
            KernelAction::Run { conn_file: flags.conn_file->0 }
        } else {
            KernelAction::Status { name: flags.name }
        },
{
    if !flags.install && !flags.kernel {
        return KernelAction::Status { name: flags.name };
    }
    if flags.install {
        return KernelAction::Install {
            name: flags.name,
            display: flags.display,
            force: flags.force,
        };
    }
    KernelAction::Run { conn_file: flags.conn_file.unwrap() }
}

/// The connection file as the script side of the kernel gets it.
#[derive(Debug)]
pub struct ConnectionInfoForJs {
    pub ip: String,
    pub transport: String,
    pub hb_port: u16,
    pub control_port: u16,
    pub shell_port: u16,
    pub stdin_port: u16,
    pub iopub_port: u16,
    pub signature_scheme: String,
    pub key: String,
    pub kernel_name: String,
}

impl From<&ConnectionInfo> for ConnectionInfoForJs {
    fn from(info: &ConnectionInfo) -> (copy: Self) {
        ConnectionInfoForJs {
            ip: info.ip.clone(),
            transport: info.transport.clone(),
            hb_port: info.hb_port,
            control_port: info.control_port,
            shell_port: info.shell_port,
            stdin_port: info.stdin_port,
            iopub_port: info.iopub_port,
            signature_scheme: info.signature_scheme.clone(),
            key: info.key.clone(),
            kernel_name: info.kernel_name.clone(),
        }
    }
}

impl vstd::std_specs::convert::FromSpecImpl<&ConnectionInfo> for ConnectionInfoForJs {
    open spec fn obeys_from_spec() -> bool {
        true
    }

    open spec fn from_spec(info: &ConnectionInfo) -> Self {
        ConnectionInfoForJs {
            ip: info.ip,
            transport: info.transport,
            hb_port: info.hb_port,
            control_port: info.control_port,
            shell_port: info.shell_port,
            stdin_port: info.stdin_port,
            iopub_port: info.iopub_port,
            signature_scheme: info.signature_scheme,
            key: info.key,
            kernel_name: info.kernel_name,
        }
    }
}

/// What comes of waiting for the sockets: the sockets or the error that the thread which
/// binds them sent, or an error if it ended without sending anything.
pub fn bound_sockets<T>(answer: Option<Result<T, String>>) -> (sockets: Result<T, String>)
    ensures
        match answer {
            Some(answer) => sockets == answer,
            None => sockets matches Err(error) && error@
                == "socket thread aborted before binding"@,
        },
{
    match answer {
        Some(Ok(sockets)) => Ok(sockets),
        Some(Err(error)) => Err(error),
        None => Err("socket thread aborted before binding".to_owned()),
    }
}

/// The module that user code runs in, relative to the working directory.
pub fn main_module() -> (specifier: &'static str)
    ensures
        specifier@ == "./$deno$jupyter.mts"@,
{
    "./$deno$jupyter.mts"
}

/// The error of a kernel whose working directory has no URL.
pub fn cwd_error(cwd: &str) -> (error: String)
    ensures
        error@ == "Unable to construct URL from cwd: "@ + cwd@,
{
    let mut error = "Unable to construct URL from cwd: ".to_owned();
    error.append(cwd);
    error
}

/// The script that starts the protocol loops, given the connection file as JSON.
pub fn bootstrap_script(connection_info: &str) -> (script: String)
    ensures
        script@
            == "Deno[Deno.internal].enableJupyter(); Deno[Deno.internal].startJupyterKernel("@
            + connection_info@ + ");"@,
{
    let mut script =
        "Deno[Deno.internal].enableJupyter(); Deno[Deno.internal].startJupyterKernel(".to_owned();
    script.append(connection_info);
    script.append(");");
    script
}

/// The script side gets every field of the connection file as it is.
pub proof fn law_scripts_see_the_connection_file(info: &ConnectionInfo)
    ensures
        <ConnectionInfoForJs as vstd::std_specs::convert::FromSpec<
            &ConnectionInfo,
        >>::obeys_from_spec(),
        ({
            let copy = <ConnectionInfoForJs as vstd::std_specs::convert::FromSpec<
                &ConnectionInfo,
            >>::from_spec(info);
            &&& copy.ip == info.ip
            &&& copy.transport == info.transport
            &&& copy.hb_port == info.hb_port
            &&& copy.control_port == info.control_port
            &&& copy.shell_port == info.shell_port
            &&& copy.stdin_port == info.stdin_port
            &&& copy.iopub_port == info.iopub_port
            &&& copy.signature_scheme == info.signature_scheme
            &&& copy.key == info.key
            &&& copy.kernel_name == info.kernel_name
        }),
{
}

} // verus!
