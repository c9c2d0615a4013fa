use step_pipeline::batch::{BatchJoin, PipelineError};
use step_pipeline::pipeline::{
    code_request_params, explanation_params, speech_request_params, Pipeline,
};

#[test]
fn explanation_request_binds_the_question() {
    let p = explanation_params("Whats the result of 10+30/5");
    assert_eq!(p.len(), 1);
    assert_eq!(p.key_at(0).as_str(), "question");
    assert_eq!(p.value_at(0).as_str(), "Whats the result of 10+30/5");
}

#[test]
fn code_request_binds_the_step() {
    let p = code_request_params("Division First");
    assert_eq!(p.len(), 1);
    assert_eq!(p.key_at(0).as_str(), "request");
    assert_eq!(p.value_at(0).as_str(), "Division First");
}

#[test]
fn speech_request_binds_question_and_step() {
    let p = speech_request_params("the question", "the step");
    assert_eq!(p.len(), 2);
    assert_eq!(p.key_at(0).as_str(), "question");
    assert_eq!(p.value_at(0).as_str(), "the question");
    assert_eq!(p.key_at(1).as_str(), "step");
    assert_eq!(p.value_at(1).as_str(), "the step");
}

#[test]
fn full_run_with_echo_backend_pairs_artifacts_by_index() {
    let question = "Whats the result of 10+30/5".to_string();
    let mut pl = Pipeline::new(question);
    let explanation = "```\nxxx\n```\n\n```\nStep A\n```\n\n```\nStep B\n```";
    pl.decompose(explanation);
    assert_eq!(pl.step_count(), 3);
    assert_eq!(
        pl.steps().clone(),
        vec!["xxx".to_string(), "Step A".to_string(), "Step B".to_string()]
    );

    let code_reqs = pl.code_requests();
    let speech_reqs = pl.speech_requests();
    assert_eq!(code_reqs.len(), 3);
    assert_eq!(speech_reqs.len(), 3);

    // A mock backend that echoes each request's own step text, completing in
    // reverse order to exercise latency skew.
    let mut code = BatchJoin::new(3);
    let mut speech = BatchJoin::new(3);
    for i in [2usize, 1, 0] {
        code.complete(i, format!("code:{}", code_reqs[i].value_at(0)));
        speech.complete(i, format!("speech:{}", speech_reqs[i].value_at(1)));
    }
    assert!(code.is_done());
    assert!(speech.is_done());

    let triples = pl.assemble(code, speech).unwrap();
    assert_eq!(triples.len(), pl.step_count());
    let expected = [
        ("xxx", "code:xxx", "speech:xxx"),
        ("Step A", "code:Step A", "speech:Step A"),
        ("Step B", "code:Step B", "speech:Step B"),
    ];
    for (i, (step, code_artifact, speech_artifact)) in expected.iter().enumerate() {
        assert_eq!(triples[i].step.as_str(), *step);
        assert_eq!(triples[i].code.as_str(), *code_artifact);
        assert_eq!(triples[i].speech.as_str(), *speech_artifact);
    }
}

#[test]
fn run_without_steps_produces_empty_batches_and_output() {
    let mut pl = Pipeline::new("anything".to_string());
    pl.decompose("an explanation without any delimiter markers");
    assert_eq!(pl.step_count(), 0);
    assert_eq!(pl.code_requests().len(), 0);
    assert_eq!(pl.speech_requests().len(), 0);
    let triples = pl.assemble(BatchJoin::new(0), BatchJoin::new(0)).unwrap();
    assert_eq!(triples.len(), 0);
}

#[test]
fn one_failed_request_aborts_the_whole_run() {
    let mut pl = Pipeline::new("a question".to_string());
    pl.decompose("```one``` ```two``` ```three```");
    assert_eq!(pl.step_count(), 3);

    let mut code = BatchJoin::new(3);
    code.complete(0, "code:one".to_string());
    code.complete(1, "code:two".to_string());
    code.complete(2, "code:three".to_string());

    let mut speech = BatchJoin::new(3);
    speech.complete(0, "speech:one".to_string());
    speech.fail(PipelineError::Backend {
        message: "network down".to_string(),
    });
    speech.complete(2, "speech:three".to_string());

    let r = pl.assemble(code, speech);
    match r {
        Err(e) => assert_eq!(e.message(), "network down"),
        Ok(_) => panic!("a run with a failed request must not produce output"),
    }
}

#[test]
fn explanation_request_of_a_run_carries_its_question() {
    let pl = Pipeline::new("why is the sky blue".to_string());
    let p = pl.explanation_request();
    assert_eq!(p.len(), 1);
    assert_eq!(p.key_at(0).as_str(), "question");
    assert_eq!(p.value_at(0).as_str(), "why is the sky blue");
}
