use std::sync::Arc;

use databend_query::exception::{ErrorCode, ErrorKind};
use databend_query::interpreters::stream_create::{
    CreateStreamInterpreter, CreateStreamPlan, CreateStreamStep, Feature, QueryContext,
};

fn interpreter() -> CreateStreamInterpreter {
    let plan = CreateStreamPlan {
        catalog: "default".to_string(),
        database: "db".to_string(),
        stream_name: "s".to_string(),
        table_database: "db".to_string(),
        table_name: "t".to_string(),
    };
    CreateStreamInterpreter::try_create(
        Arc::new(QueryContext { license_key: "key".to_string() }),
        plan,
    )
    .unwrap()
}

#[test]
fn stream_is_created_after_the_license_was_checked() {
    let i = interpreter();
    assert_eq!(i.name(), "CreateStreamInterpreter");
    assert_eq!(i.plan.stream_name, "s");
    let first = i.execute2();
    match &first {
        CreateStreamStep::CheckEnterpriseEnabled(key, feature) => {
            assert_eq!(key, "key");
            assert_eq!(*feature, Feature::Stream);
        }
        _ => panic!("the license is not checked"),
    }
    let second = i.resume(&first, Ok(())).unwrap();
    match &second {
        CreateStreamStep::DoCreateStream(ctx, plan) => {
            assert_eq!(ctx.license_key, "key");
            assert_eq!(plan.table_name, "t");
        }
        _ => panic!("the stream is not created"),
    }
    match i.resume(&second, Ok(())).unwrap() {
        CreateStreamStep::Done(result) => {
            assert!(result.main_pipeline.pipes.is_empty());
            assert!(result.sources_pipelines.is_empty());
        }
        _ => panic!("is not done"),
    }
}

#[test]
fn first_error_ends_the_run() {
    let i = interpreter();
    let first = i.execute2();
    let refused = ErrorCode::create(ErrorKind::Other(1402), "no license");
    assert_eq!(i.resume(&first, Err(refused)).err().unwrap().message, "no license");
    let second = i.resume(&first, Ok(())).unwrap();
    let exists = ErrorCode::create(ErrorKind::Other(2733), "exists");
    assert_eq!(i.resume(&second, Err(exists)).err().unwrap().message, "exists");
}
