//! The case probe.

use mount_deny::passthroughfs::probe::{
    case_validation_prefix, probe_names, ProbeStep, CASE_PROBE_PREFIX,
};

/// Runs a probe in which each file operation succeeds as given, and returns
/// its finding and whether the probe file is left behind.
fn run(create: bool, write: bool, found: bool, remove: bool) -> (bool, bool) {
    let mut exists = false;
    let mut step = ProbeStep::first();
    loop {
        let ok = match step {
            ProbeStep::Create => {
                exists = create;
                create
            }
            ProbeStep::Write => write,
            ProbeStep::Check => found,
            ProbeStep::Remove { .. } => {
                exists = exists && !remove;
                remove
            }
            ProbeStep::Done { insensitive } => return (insensitive, exists),
        };
        step = step.next(ok);
    }
}

#[test]
fn the_validation_prefix_is_in_lower_case() {
    assert_eq!(CASE_PROBE_PREFIX, "MsBCaSePrObE");
    assert_eq!(case_validation_prefix(), "msbcaseprobe");
}

#[test]
fn probe_names_hold_process_and_number() {
    let names = probe_names(4321, 70);
    assert_eq!(names.probe, "MsBCaSePrObE-4321-70");
    assert_eq!(names.validation, "msbcaseprobe-4321-70");
    let names = probe_names(0, 0);
    assert_eq!(names.probe, "MsBCaSePrObE-0-0");
    let names = probe_names(u32::MAX, u64::MAX);
    assert_eq!(names.validation, "msbcaseprobe-4294967295-18446744073709551615");
}

#[test]
fn probe_names_are_written_as_format_writes_them() {
    for (pid, seq) in [(1u32, 9u64), (10, 99), (1234567890, 1), (7, 10203040506070809)] {
        let names = probe_names(pid, seq);
        assert_eq!(names.probe, format!("{}-{}-{}", CASE_PROBE_PREFIX, pid, seq));
        assert_eq!(names.validation, names.probe.to_ascii_lowercase());
        assert_ne!(names.validation, names.probe);
    }
}

#[test]
fn probe_names_are_unique() {
    let mut seen: Vec<String> = Vec::new();
    for pid in [1u32, 11, 111] {
        for seq in [0u64, 1, 11, 111] {
            let names = probe_names(pid, seq);
            assert!(!seen.contains(&names.probe));
            assert!(!seen.contains(&names.validation));
            seen.push(names.probe);
            seen.push(names.validation);
        }
    }
}

#[test]
fn a_probe_finds_what_the_validation_name_shows() {
    assert_eq!(run(true, true, true, true), (true, false));
    assert_eq!(run(true, true, false, true), (false, false));
}

#[test]
fn a_failed_probe_counts_as_insensitive() {
    for found in [false, true] {
        assert_eq!(run(false, true, found, true), (true, false));
        assert_eq!(run(true, false, found, true), (true, false));
        assert_eq!(run(true, true, found, false), (true, true));
        assert_eq!(run(true, false, found, false), (true, true));
    }
}

#[test]
fn a_created_probe_file_is_always_removed() {
    for write in [false, true] {
        for found in [false, true] {
            assert!(!run(true, write, found, true).1);
        }
    }
}

#[test]
fn a_finished_probe_stays_finished() {
    let done = ProbeStep::Done { insensitive: false };
    assert_eq!(done.next(true), done);
    assert_eq!(done.next(false), done);
}
