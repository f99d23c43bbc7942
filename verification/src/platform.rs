//! The compilation target that platform-dependent choices are made for.
//!
//! The library does not read the target itself: callers pass a [`Target`]
//! describing it (operating system, architecture and C library environment).

use vstd::prelude::*;

verus! {

/// Operating system of the target.
#[derive(Clone, Copy, Debug, PartialEq, Eq, Structural)]
pub enum TargetOs {
    Windows,
    MacOs,
    Linux,
    Other,
}

/// CPU architecture of the target.
#[derive(Clone, Copy, Debug, PartialEq, Eq, Structural)]
pub enum TargetArch {
    X86_64,
    Aarch64,
    Other,
}

/// C library environment of the target.
#[derive(Clone, Copy, Debug, PartialEq, Eq, Structural)]
pub enum TargetEnv {
    Gnu,
    Musl,
    Msvc,
    Other,
}

/// A compilation target.
#[derive(Clone, Copy, Debug, PartialEq, Eq, Structural)]
pub struct Target {
    pub os: TargetOs,
    pub arch: TargetArch,
    pub env: TargetEnv,
}

/// Canonical operating-system name used to recognise release assets.
#[derive(Clone, Copy, Debug, PartialEq, Eq, Structural)]
pub enum HostOs {
    Windows,
    Darwin,
    Linux,
}

/// Canonical architecture name used to recognise release assets.
#[derive(Clone, Copy, Debug, PartialEq, Eq, Structural)]
pub enum HostArch {
    X64,
    Arm64,
    X86,
}

/// The canonical OS of a target: Windows, macOS (`darwin`), anything else Linux.
pub open spec fn host_os_spec(t: Target) -> HostOs {
    match t.os {
        TargetOs::Windows => HostOs::Windows,
        TargetOs::MacOs => HostOs::Darwin,
        _ => HostOs::Linux,
    }
}

/// The canonical architecture of a target: x86_64 (`x64`), aarch64 (`arm64`), anything else `x86`.
pub open spec fn host_arch_spec(t: Target) -> HostArch {
    match t.arch {
        TargetArch::X86_64 => HostArch::X64,
        TargetArch::Aarch64 => HostArch::Arm64,
        _ => HostArch::X86,
    }
}

impl Target {
    /// The canonical OS name of this target.
    pub fn host_os(&self) -> (r: HostOs)
        ensures
            r == host_os_spec(*self),
    {
        match self.os {
            TargetOs::Windows => HostOs::Windows,
            TargetOs::MacOs => HostOs::Darwin,
            _ => HostOs::Linux,
        }
    }

    /// The canonical architecture name of this target.
    pub fn host_arch(&self) -> (r: HostArch)
        ensures
            r == host_arch_spec(*self),
    {
        match self.arch {
            TargetArch::X86_64 => HostArch::X64,
            TargetArch::Aarch64 => HostArch::Arm64,
            _ => HostArch::X86,
        }
    }

    /// Whether the target links against musl.
    pub fn is_musl(&self) -> (r: bool)
        ensures
            r == (self.env == TargetEnv::Musl),
    {
        match self.env {
            TargetEnv::Musl => true,
            _ => false,
        }
    }

    /// Whether the target is Windows.
    pub fn is_windows(&self) -> (r: bool)
        ensures
            r == (self.os == TargetOs::Windows),
    {
        match self.os {
            TargetOs::Windows => true,
            _ => false,
        }
    }
}

} // verus!
