use forkpool::error::PoolError;

#[test]
fn error_texts() {
    assert_eq!(PoolError::NotInitialized.message(), "Pool not initialized");
    assert_eq!(PoolError::RouterClosed.message(), "Pool router closed");
    assert_eq!(PoolError::Cancelled.message(), "Job cancelled");
    assert_eq!(PoolError::Job("as sent".to_string()).message(), "as sent");
    assert_eq!(PoolError::Serialization("x".to_string()).message(), "Serialization error: x");
    assert_eq!(PoolError::Deserialization("y".to_string()).message(), "Deserialization error: y");
}

#[test]
fn number_of_deaths_is_in_decimal() {
    for n in [0usize, 1, 9, 10, 42, 100, 907, usize::MAX] {
        let expected = format!(
            "All {n} workers died — likely init failure (e.g. LibreOffice SDK not found)"
        );
        assert_eq!(PoolError::AllWorkersDied(n).message(), expected);
    }
}

#[test]
fn errors_are_cloned_as_they_are() {
    assert_eq!(PoolError::AllWorkersDied(3).clone().message(), PoolError::AllWorkersDied(3).message());
    assert_eq!(PoolError::Job("x".to_string()).clone().message(), "x");
    assert!(matches!(PoolError::Cancelled.clone(), PoolError::Cancelled));
}
