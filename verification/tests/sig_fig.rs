use rylv_metrics::SigFig;

#[test]
fn test_sig_fig_new_valid() {
    for v in 0..=5 {
        let sig_fig = SigFig::new(v).expect("should be valid");
        assert_eq!(sig_fig.value(), v);
    }
}

#[test]
fn test_sig_fig_new_invalid() {
    for v in 6..=255 {
        assert!(SigFig::new(v).is_err());
    }
}

#[test]
fn sig_fig_default_is_three() {
    assert_eq!(SigFig::default().value(), 3);
}

#[test]
fn sig_fig_invalid_error_message() {
    let err = SigFig::new(9).unwrap_err();
    assert_eq!(err.message(), "Invalid sig fig: must be 0, 1, 2, 3, 4 or 5");
}
