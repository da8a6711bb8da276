//! Strategy selection and the capability check.
//!
//! The engine has one scheduler with three kernel-interface variants (plain
//! per-file reads, pre-registered file handles, pre-registered fixed
//! buffers) and one synchronous fallback. The variant is chosen once per
//! run, from the caller's options and from what the probed kernel interface
//! supports; a missing required capability is fatal before any file is
//! touched.

use vstd::prelude::*;

use crate::Opt;

verus! {

/// The design variant the scheduler runs under.
#[derive(Clone, Copy, Debug, PartialEq, Eq, Structural)]
pub enum Strategy {
    /// The synchronous fallback, without the asynchronous kernel interface.
    NoUring,
    /// Ad-hoc per-file handles and plain growable buffers.
    Simple,
    /// File handles pre-registered with the kernel, referenced by number.
    RegisteredFiles,
    /// Pre-registered files and pinned buffers pre-registered as numbered
    /// regions.
    FixedBuffers,
}

/// What the probed kernel interface reported it supports.
#[derive(Clone, Copy, Debug, PartialEq, Eq, Structural)]
pub struct Caps {
    /// The plain read operation.
    pub read: bool,
    /// Pre-registration of file handles.
    pub register_files: bool,
    /// Reads into pre-registered fixed buffers.
    pub read_fixed: bool,
}

/// A required capability the kernel interface lacks: fatal, non-retryable,
/// reported before any file is processed.
#[derive(Clone, Copy, Debug, PartialEq, Eq, Structural)]
pub enum CapabilityError {
    /// Reading files is not supported.
    ReadUnsupported,
    /// Registering files is not supported.
    RegisterFilesUnsupported,
    /// Reading into fixed buffers is not supported.
    ReadFixedUnsupported,
}

/// The variant the options ask for, before any capability check. Fixed
/// buffers imply pre-registered files, so they take precedence.
pub open spec fn requested_strategy(opt: Opt) -> Strategy {
    if opt.no_uring {
        Strategy::NoUring
    } else if opt.use_fixed_buffers {
        Strategy::FixedBuffers
    } else if opt.pre_register_files {
        Strategy::RegisteredFiles
    } else {
        Strategy::Simple
    }
}

/// Whether the kernel interface supports everything a variant needs.
pub open spec fn caps_suffice(s: Strategy, caps: Caps) -> bool {
    match s {
        Strategy::NoUring => true,
        Strategy::Simple => caps.read,
        Strategy::RegisteredFiles => caps.read && caps.register_files,
        Strategy::FixedBuffers => caps.read && caps.register_files && caps.read_fixed,
    }
}

/// Choose the variant for this run: the one the options ask for, if the
/// probed capabilities suffice, and otherwise the first missing capability,
/// checked in the order plain read, file registration, fixed-buffer read.
pub fn select_strategy(opt: &Opt, caps: Caps) -> (r: Result<Strategy, CapabilityError>)
    ensures
        r is Ok <==> caps_suffice(requested_strategy(*opt), caps),
        r matches Ok(s) ==> s == requested_strategy(*opt),
        r == Err::<Strategy, _>(CapabilityError::ReadUnsupported) <==> requested_strategy(*opt)
            != Strategy::NoUring && !caps.read,
        r == Err::<Strategy, _>(CapabilityError::RegisterFilesUnsupported) <==> (
        requested_strategy(*opt) is RegisteredFiles || requested_strategy(*opt) is FixedBuffers)
            && caps.read && !caps.register_files,
        r == Err::<Strategy, _>(CapabilityError::ReadFixedUnsupported) <==> requested_strategy(
            *opt,
        ) == Strategy::FixedBuffers && caps.read && caps.register_files && !caps.read_fixed,
{
    if opt.no_uring {
        Ok(Strategy::NoUring)
    } else if !caps.read {
        Err(CapabilityError::ReadUnsupported)
    } else if opt.use_fixed_buffers {
        if !caps.register_files {
            Err(CapabilityError::RegisterFilesUnsupported)
        } else if !caps.read_fixed {
            Err(CapabilityError::ReadFixedUnsupported)
        } else {
            Ok(Strategy::FixedBuffers)
        }
    } else if opt.pre_register_files {
        if !caps.register_files {
            Err(CapabilityError::RegisterFilesUnsupported)
        } else {
            Ok(Strategy::RegisteredFiles)
        }
    } else {
        Ok(Strategy::Simple)
    }
}

impl Strategy {
    /// Whether this variant numbers files with the kernel interface up
    /// front.
    pub fn registers_files(&self) -> (r: bool)
        ensures
            r == (*self is RegisteredFiles || *self is FixedBuffers),
    {
        matches!(*self, Strategy::RegisteredFiles | Strategy::FixedBuffers)
    }

    /// Whether this variant reads into buffers pre-registered as numbered
    /// regions.
    pub fn registers_buffers(&self) -> (r: bool)
        ensures
            r == (*self is FixedBuffers),
    {
        matches!(*self, Strategy::FixedBuffers)
    }

    /// The message reporting the fatal startup error, naming the missing
    /// capability.
    pub fn describe_capability_error(err: CapabilityError) -> (r: String)
        ensures
            err is ReadUnsupported ==> r@ == "Reading files is not supported. Try a newer kernel."@,
            err is RegisterFilesUnsupported ==> r@
                == "Registering files is not supported. Try a newer kernel."@,
            err is ReadFixedUnsupported ==> r@
                == "Reading into fixed buffers is not supported. Try a newer kernel."@,
    {
        let msg: &str = match err {
            CapabilityError::ReadUnsupported => "Reading files is not supported. Try a newer kernel.",
            CapabilityError::RegisterFilesUnsupported => "Registering files is not supported. Try a newer kernel.",
            CapabilityError::ReadFixedUnsupported => "Reading into fixed buffers is not supported. Try a newer kernel.",
        };
        msg.to_owned()
    }
}

} // verus!
