use md5sum_uring::strategy::CapabilityError;
use md5sum_uring::strategy::Caps;
use md5sum_uring::strategy::Strategy;
use md5sum_uring::strategy::select_strategy;
use md5sum_uring::Opt;

fn opt(pre_register_files: bool, use_fixed_buffers: bool, no_uring: bool) -> Opt {
    Opt {
        files: Vec::new(),
        pre_register_files,
        use_fixed_buffers,
        no_uring,
        o_direct: false,
    }
}

const ALL: Caps = Caps { read: true, register_files: true, read_fixed: true };

#[test]
fn default_options_pick_the_simple_variant() {
    assert_eq!(select_strategy(&opt(false, false, false), ALL), Ok(Strategy::Simple));
}

#[test]
fn pre_register_files_picks_registered_variant() {
    assert_eq!(select_strategy(&opt(true, false, false), ALL), Ok(Strategy::RegisteredFiles));
}

#[test]
fn fixed_buffers_imply_registered_files() {
    // Fixed buffers need pre-registration, so the flag alone selects the
    // full fixed-buffer variant.
    assert_eq!(select_strategy(&opt(false, true, false), ALL), Ok(Strategy::FixedBuffers));
    assert_eq!(select_strategy(&opt(true, true, false), ALL), Ok(Strategy::FixedBuffers));
}

#[test]
fn no_uring_needs_no_capabilities() {
    let none = Caps { read: false, register_files: false, read_fixed: false };
    assert_eq!(select_strategy(&opt(false, false, true), none), Ok(Strategy::NoUring));
}

#[test]
fn missing_read_is_fatal() {
    let caps = Caps { read: false, register_files: true, read_fixed: true };
    assert_eq!(
        select_strategy(&opt(false, false, false), caps),
        Err(CapabilityError::ReadUnsupported)
    );
    assert_eq!(
        select_strategy(&opt(true, true, false), caps),
        Err(CapabilityError::ReadUnsupported)
    );
}

#[test]
fn missing_register_files_is_fatal_for_registered_variants() {
    let caps = Caps { read: true, register_files: false, read_fixed: true };
    assert_eq!(
        select_strategy(&opt(true, false, false), caps),
        Err(CapabilityError::RegisterFilesUnsupported)
    );
    assert_eq!(
        select_strategy(&opt(false, true, false), caps),
        Err(CapabilityError::RegisterFilesUnsupported)
    );
    // The simple variant never needs registration.
    assert_eq!(select_strategy(&opt(false, false, false), caps), Ok(Strategy::Simple));
}

#[test]
fn missing_read_fixed_is_fatal_only_for_fixed_buffers() {
    let caps = Caps { read: true, register_files: true, read_fixed: false };
    assert_eq!(
        select_strategy(&opt(false, true, false), caps),
        Err(CapabilityError::ReadFixedUnsupported)
    );
    assert_eq!(select_strategy(&opt(true, false, false), caps), Ok(Strategy::RegisteredFiles));
}

#[test]
fn strategy_flags_describe_registration() {
    assert!(!Strategy::Simple.registers_files());
    assert!(Strategy::RegisteredFiles.registers_files());
    assert!(Strategy::FixedBuffers.registers_files());
    assert!(!Strategy::RegisteredFiles.registers_buffers());
    assert!(Strategy::FixedBuffers.registers_buffers());
}

#[test]
fn capability_errors_have_messages() {
    let msg = Strategy::describe_capability_error(CapabilityError::ReadUnsupported);
    assert!(msg.contains("not supported"));
}
