use step_pipeline::batch::{BatchJoin, PipelineError};

#[test]
fn reverse_completion_preserves_input_order() {
    let mut b = BatchJoin::new(3);
    b.complete(2, "two".to_string());
    b.complete(1, "one".to_string());
    b.complete(0, "zero".to_string());
    assert!(b.is_done());
    let r = b.finish().unwrap();
    assert_eq!(
        r,
        vec!["zero".to_string(), "one".to_string(), "two".to_string()]
    );
}

#[test]
fn empty_batch_joins_immediately_with_no_requests() {
    let b = BatchJoin::new(0);
    assert!(b.is_done());
    let r = b.finish().unwrap();
    assert_eq!(r.len(), 0);
}

#[test]
fn batch_is_not_done_while_a_request_is_in_flight() {
    let mut b = BatchJoin::new(2);
    assert!(!b.is_done());
    b.complete(1, "late".to_string());
    assert!(!b.is_done());
    b.complete(0, "early".to_string());
    assert!(b.is_done());
}

#[test]
fn single_failure_fails_the_whole_batch() {
    let mut b = BatchJoin::new(3);
    b.complete(0, "zero".to_string());
    b.fail(PipelineError::Backend {
        message: "quota exceeded".to_string(),
    });
    b.complete(2, "two".to_string());
    assert!(b.is_done());
    let r = b.finish();
    match r {
        Err(e) => assert_eq!(e.message(), "quota exceeded"),
        Ok(_) => panic!("a failed batch must not produce a result"),
    }
}

#[test]
fn first_recorded_failure_is_kept() {
    let mut b = BatchJoin::new(1);
    b.fail(PipelineError::Backend {
        message: "first".to_string(),
    });
    b.fail(PipelineError::Template {
        message: "second".to_string(),
    });
    let r = b.finish();
    match r {
        Err(e) => {
            assert!(matches!(e, PipelineError::Backend { .. }));
            assert_eq!(e.message(), "first");
        }
        Ok(_) => panic!("a failed batch must not produce a result"),
    }
}

#[test]
fn error_variants_carry_their_message() {
    let backend = PipelineError::Backend {
        message: "transport".to_string(),
    };
    let template = PipelineError::Template {
        message: "missing placeholder".to_string(),
    };
    assert_eq!(backend.message(), "transport");
    assert_eq!(template.message(), "missing placeholder");
    assert!(matches!(backend, PipelineError::Backend { .. }));
    assert!(matches!(template, PipelineError::Template { .. }));
}
