use byte_oracle::status::{
    AbortCause, BeginResult, XABORT_CAPACITY, XABORT_CONFLICT, XABORT_DEBUG, XABORT_EXPLICIT,
    XABORT_NESTED, XABORT_RETRY, XBEGIN_STARTED,
};

const NO_CAUSE: AbortCause = AbortCause {
    explicit: false,
    retry: false,
    conflict: false,
    capacity: false,
    debug: false,
    nested: false,
};

#[test]
fn started_status_starts() {
    assert_eq!(XBEGIN_STARTED, !0u32);
    let result = BeginResult::from_status(XBEGIN_STARTED);
    assert_eq!(result, BeginResult::Started);
    assert!(result.is_started());
}

#[test]
fn every_other_status_is_an_abort() {
    for status in [0u32, 1, 2, 4, 6, 8, 16, 32, 63, 0xFF00_0001, 0xFFFF_FFFE, 0x7FFF_FFFF] {
        let result = BeginResult::from_status(status);
        assert!(!result.is_started(), "status {:#x}", status);
        assert!(matches!(result, BeginResult::Aborted(_)));
    }
}

#[test]
fn abort_bits_name_their_cause() {
    assert_eq!(
        BeginResult::from_status(XABORT_EXPLICIT),
        BeginResult::Aborted(AbortCause { explicit: true, ..NO_CAUSE })
    );
    assert_eq!(
        BeginResult::from_status(XABORT_RETRY),
        BeginResult::Aborted(AbortCause { retry: true, ..NO_CAUSE })
    );
    assert_eq!(
        BeginResult::from_status(XABORT_CONFLICT),
        BeginResult::Aborted(AbortCause { conflict: true, ..NO_CAUSE })
    );
    assert_eq!(
        BeginResult::from_status(XABORT_CAPACITY),
        BeginResult::Aborted(AbortCause { capacity: true, ..NO_CAUSE })
    );
    assert_eq!(
        BeginResult::from_status(XABORT_DEBUG),
        BeginResult::Aborted(AbortCause { debug: true, ..NO_CAUSE })
    );
    assert_eq!(
        BeginResult::from_status(XABORT_NESTED),
        BeginResult::Aborted(AbortCause { nested: true, ..NO_CAUSE })
    );
}

#[test]
fn abort_bits_combine() {
    assert_eq!(BeginResult::from_status(0), BeginResult::Aborted(NO_CAUSE));
    assert_eq!(
        BeginResult::from_status(XABORT_RETRY | XABORT_CONFLICT),
        BeginResult::Aborted(AbortCause { retry: true, conflict: true, ..NO_CAUSE })
    );
    assert_eq!(
        BeginResult::from_status(0xAB00_0001),
        BeginResult::Aborted(AbortCause { explicit: true, ..NO_CAUSE })
    );
    assert_eq!(
        BeginResult::from_status(0x3F),
        BeginResult::Aborted(AbortCause {
            explicit: true,
            retry: true,
            conflict: true,
            capacity: true,
            debug: true,
            nested: true,
        })
    );
}
