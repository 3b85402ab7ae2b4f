//! Data model of the container endpoints. These types mirror the JSON
//! objects of the daemon's container API; the resource layer that fills them
//! lives outside the verified core.

use vstd::prelude::*;

verus! {

/// One entry of a container listing.
#[allow(non_snake_case)]
#[derive(Debug)]
pub struct Container {
    pub Id: String,
    pub Names: Vec<String>,
    pub Image: String,
    pub ImageID: String,
    pub Command: String,
    pub State: String,
    pub Status: String,
    pub Ports: Vec<Port>,
    pub Labels: Option<std::collections::HashMap<String, String>>,
    pub SizeRw: Option<u64>,
    pub SizeRootFs: u64,
    pub HostConfig: HostConfig,
    pub Mounts: Vec<Mounts>,
}

/// A port mapping of a container.
#[allow(non_snake_case)]
#[derive(Debug)]
pub struct Port {
    pub PrivatePort: u32,
    pub PublicPort: u32,
    pub Type: String,
}

/// Host-side configuration reported with a container listing.
#[allow(non_snake_case)]
#[derive(Debug)]
pub struct HostConfig {
    pub NetworkMode: String,
}

/// One mount point of a container.
#[allow(non_snake_case)]
#[derive(Debug)]
pub struct Mounts {
    pub Name: String,
    pub Source: String,
    pub Destination: String,
    pub Driver: String,
    pub Mode: String,
    pub RW: bool,
    pub Propagation: String,
}

/// The configuration sent when creating a container.
#[allow(non_snake_case)]
#[derive(Debug)]
pub struct ContainerConfig {
    pub Image: String,
    pub Cmd: Vec<String>,
    pub Hostname: String,
    pub Domainname: String,
    pub User: String,
    pub AttachStdin: bool,
    pub AttachStdout: bool,
    pub AttachStderr: bool,
    pub Tty: bool,
    pub OpenStdin: bool,
    pub StdinOnce: bool,
    pub Env: Vec<String>,
    pub Entrypoint: Option<String>,
    pub Labels: Option<std::collections::HashMap<String, String>>,
    pub WorkingDir: String,
}

/// The daemon's answer to a container-creation request.
#[allow(non_snake_case)]
#[derive(Debug)]
pub struct CreateContainerResponse {
    pub Id: String,
}

/// The state block of an inspected container.
#[allow(non_snake_case)]
#[derive(Debug)]
pub struct ContainerState {
    pub Status: String,
    pub Running: bool,
    pub Paused: bool,
    pub Restarting: bool,
    pub OOMKilled: bool,
    pub Dead: bool,
    pub Pid: u64,
    pub ExitCode: u64,
    pub Error: String,
    pub StartedAt: String,
    pub FinishedAt: String,
}

/// One filesystem change inside a container.
#[allow(non_snake_case)]
#[derive(Debug)]
pub struct ContainerFsChange {
    pub Path: String,
    pub Kind: u8,
}

} // verus!
