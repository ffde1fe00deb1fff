//! Construction-time validation: every fault is caught before any thread
//! would start, and named precisely.

use pel::config::{validate_config, ConfigError, LoopDescriptor, LoopKind};
use pel::runtime::Runtime;

type Pair = (i64, i64);

fn descriptor(
    kind: LoopKind,
    publishes: Vec<usize>,
    subscribes: Vec<usize>,
    handled: Vec<usize>,
    has_step: bool,
) -> LoopDescriptor {
    LoopDescriptor { name: String::from("loop"), kind, publishes, subscribes, handled, has_step }
}

#[test]
fn valid_config_is_accepted() {
    let ds = vec![
        descriptor(LoopKind::Active, vec![0], vec![1], vec![1], true),
        descriptor(LoopKind::Reactive, vec![1], vec![0], vec![0], false),
    ];
    assert!(validate_config(2, &ds).is_ok());
    assert!(Runtime::<Pair>::build(2, ds).is_ok());
}

#[test]
fn missing_handler_is_reported() {
    let ds = vec![descriptor(LoopKind::Reactive, vec![], vec![0, 1], vec![0], false)];
    match validate_config(2, &ds) {
        Err(ConfigError::MissingHandler { loop_index, kind }) => {
            assert_eq!(loop_index, 0);
            assert_eq!(kind, 1);
        }
        _ => panic!("expected the missing handler to be reported"),
    }
}

#[test]
fn missing_step_is_reported() {
    let ds = vec![descriptor(LoopKind::Active, vec![0], vec![], vec![], false)];
    match validate_config(1, &ds) {
        Err(ConfigError::MissingStep { loop_index }) => assert_eq!(loop_index, 0),
        _ => panic!("expected the missing step function to be reported"),
    }
}

#[test]
fn reactive_loop_needs_no_step() {
    let ds = vec![descriptor(LoopKind::Reactive, vec![0], vec![], vec![], false)];
    assert!(validate_config(1, &ds).is_ok());
}

#[test]
fn kind_out_of_range_is_reported() {
    let ds = vec![descriptor(LoopKind::Reactive, vec![], vec![7], vec![7], false)];
    match validate_config(2, &ds) {
        Err(ConfigError::KindOutOfRange { loop_index, kind }) => {
            assert_eq!(loop_index, 0);
            assert_eq!(kind, 7);
        }
        _ => panic!("expected the foreign kind to be reported"),
    }
}

#[test]
fn build_rejects_what_validation_rejects() {
    let ds = vec![descriptor(LoopKind::Active, vec![0], vec![0], vec![], true)];
    assert!(Runtime::<Pair>::build(1, ds).is_err());
}
