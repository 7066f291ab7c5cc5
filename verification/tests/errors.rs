use pgdog::replication::error::{
    ensure_validation, BackendError, Error, ErrorResponse, NetError, Op, PoolError,
    TableValidationError, TableValidationErrorKind, TableValidationErrors, TwoPcTransaction,
};
use pgdog::replication::table::PublicationTable;
use pgdog::replication::tuple::Oid;

#[test]
fn retryable() {
    assert!(Error::Net(NetError::Io("reset".into())).is_retryable());
    assert!(Error::Net(NetError::UnexpectedEof).is_retryable());
    assert!(Error::Pool(PoolError::NoPrimary).is_retryable());
    assert!(Error::Pool(PoolError::CheckoutTimeout).is_retryable());
    assert!(Error::NotConnected.is_retryable());
    assert!(Error::NoPrimary.is_retryable());
    assert!(Error::ReplicationTimeout.is_retryable());
}

fn resp(code: &str) -> ErrorResponse {
    ErrorResponse {
        code: code.into(),
        message: String::new(),
    }
}

#[test]
fn sqlstate_classification_routes_through_all_wrappers() {
    type WrapperFn = fn(ErrorResponse) -> Error;
    type WrapperCase = (&'static str, WrapperFn);

    let wrappers: [WrapperCase; 3] = [
        ("PgError", |r| Error::PgError(r)),
        ("Backend(ExecutionError)", |r| {
            Error::Backend(BackendError::ExecutionError(r))
        }),
        ("Backend(ConnectionError)", |r| {
            Error::Backend(BackendError::ConnectionError(r))
        }),
    ];

    for (label, wrap) in wrappers {
        // 57P01 admin_shutdown is the canonical retryable case (shard restart).
        assert!(
            wrap(resp("57P01")).is_retryable(),
            "{label}(57P01) must be retryable"
        );
        // 23505 unique_violation is a deterministic data error; retrying repeats it.
        assert!(
            !wrap(resp("23505")).is_retryable(),
            "{label}(23505) must NOT be retryable"
        );
    }
}

#[test]
fn retryable_via_backend_wrapper() {
    // IO reset wrapped as Backend: the common path for network drops during COPY.
    assert!(Error::Backend(BackendError::Io("reset".into())).is_retryable());

    // Read timeout mid-stream.
    assert!(Error::Backend(BackendError::ReadTimeout).is_retryable());

    // Pool couldn't hand out a connection.
    assert!(Error::Backend(BackendError::Pool(PoolError::CheckoutTimeout)).is_retryable());
    assert!(Error::Backend(BackendError::Pool(PoolError::NoPrimary)).is_retryable());
    assert!(Error::Backend(BackendError::Pool(PoolError::AllReplicasDown)).is_retryable());

    // Connection variants.
    assert!(Error::Backend(BackendError::NotConnected).is_retryable());
    assert!(Error::Backend(BackendError::ClusterNotConnected).is_retryable());
}

#[test]
fn not_retryable_via_backend_wrapper() {
    // Protocol violations are not transient.
    assert!(!Error::Backend(BackendError::ProtocolOutOfSync).is_retryable());
}

#[test]
fn not_retryable() {
    assert!(!Error::CopyAborted(PublicationTable::default()).is_retryable());
    assert!(!Error::DataSyncAborted.is_retryable());
    assert!(!Error::from(TableValidationError {
        table_name: String::new(),
        kind: TableValidationErrorKind::NoIdentityColumns,
    })
    .is_retryable());
    assert!(!Error::FullIdentityMissingOld {
        table: "test_table".to_string(),
        oid: Oid(1234),
        op: Op::Update,
    }
    .is_retryable());
    assert!(!Error::NoReplicaIdentity("s".into(), "t".into()).is_retryable());
}

#[test]
fn table_validation_error_display() {
    // Single error: header + one indented entry.
    let single = Error::from(TableValidationError {
        table_name: "\"public\".\"orders\"".into(),
        kind: TableValidationErrorKind::NoIdentityColumns,
    });
    assert_eq!(
        single.to_text(),
        "Table validation failed:\n\ttable \"public\".\"orders\": has no replica identity columns",
    );

    // Multiple errors: header + one indented line per entry.
    let multi = Error::TableValidation(TableValidationErrors(vec![
        TableValidationError {
            table_name: "\"public\".\"orders\"".into(),
            kind: TableValidationErrorKind::NoIdentityColumns,
        },
        TableValidationError {
            table_name: "\"public\".\"items\"".into(),
            kind: TableValidationErrorKind::ReplicaIdentityNothing,
        },
    ]));
    assert_eq!(
        multi.to_text(),
        "Table validation failed:\n\ttable \"public\".\"orders\": has no replica identity columns\n\ttable \"public\".\"items\": REPLICA IDENTITY NOTHING, UPDATE/DELETE carry no row identity and cannot be replicated; set it to DEFAULT, INDEX, or FULL",
    );
}

#[test]
fn validation_passes_where_nothing_is_wrong() {
    ensure_validation(vec![]).unwrap();
    let one = vec![TableValidationError {
        table_name: "t".into(),
        kind: TableValidationErrorKind::FullIdentityOmniNoUniqueIndex,
    }];
    match ensure_validation(one) {
        Err(Error::TableValidation(TableValidationErrors(list))) => {
            assert_eq!(list.len(), 1);
            assert_eq!(list[0].table_name, "t");
        }
        other => panic!("unexpected result {:?}", other),
    }
}

#[test]
fn a_pending_cleanup_is_found_through_the_error() {
    let pending = Error::TwoPcCleanupPending {
        transaction: TwoPcTransaction(7),
        source: Box::new(Error::NotConnected),
    };
    assert_eq!(pending.two_pc_cleanup_transaction().map(|t| t.0), Some(7));
    assert!(Error::NotConnected.two_pc_cleanup_transaction().is_none());
}
