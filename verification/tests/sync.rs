use ecs::error::EcsError;
use ecs::sync::{poll, wait_step, TaskSync, WaitStep};
use ecs::system::{AccessKind, AccessRequest};
use std::sync::Arc;

#[test]
fn token_is_set_once_marked() {
    let token = TaskSync::default();
    assert!(!token.is_finished());
    token.mark_as_finish();
    assert!(token.is_finished());
    token.mark_as_finish();
    assert!(token.is_finished());
}

#[test]
fn wait_is_over_when_every_token_is_set() {
    assert_eq!(wait_step(&vec![]), WaitStep::Done);
    assert_eq!(wait_step(&vec![true]), WaitStep::Done);
    assert_eq!(wait_step(&vec![false]), WaitStep::Retry);
    assert_eq!(wait_step(&vec![true, true, true]), WaitStep::Done);
    assert_eq!(wait_step(&vec![true, false, true]), WaitStep::Retry);
    assert_eq!(wait_step(&vec![true, true, false]), WaitStep::Retry);
    assert_eq!(wait_step(&vec![false, true, true]), WaitStep::Retry);
}

#[test]
fn barrier_of_three_tokens() {
    let tokens = vec![
        Arc::new(TaskSync::default()),
        Arc::new(TaskSync::default()),
        Arc::new(TaskSync::default()),
    ];
    let mut log = Vec::new();
    assert_eq!(poll(&tokens), vec![false, false, false]);
    assert_eq!(wait_step(&poll(&tokens)), WaitStep::Retry);
    for (k, token) in tokens.iter().enumerate() {
        log.push(k);
        token.clone().mark_as_finish();
        let expected = if k == 2 { WaitStep::Done } else { WaitStep::Retry };
        assert_eq!(wait_step(&poll(&tokens)), expected);
    }
    assert_eq!(log.len(), 3);
    assert_eq!(wait_step(&poll(&tokens)), WaitStep::Done);
    assert_eq!(wait_step(&poll(&tokens)), WaitStep::Done);
}

#[test]
fn error_messages() {
    assert_eq!(EcsError::UnregisteredComponent.to_string(), "the component is not registered");
    assert_eq!(EcsError::MissingUnique.to_string(), "the unique component does not exist");
    assert_eq!(
        EcsError::UnknownEntity.to_string(),
        "there is no bitmask associated with the entity"
    );
    assert_eq!(
        EcsError::MissingExpectedCell.to_string(),
        "the entity does not contain the component"
    );
}

#[test]
fn kinds_of_access() {
    assert!(!AccessKind::Read.is_unique());
    assert!(!AccessKind::Write.is_unique());
    assert!(AccessKind::UniqueRead.is_unique());
    assert!(AccessKind::UniqueWrite.is_unique());
    let request = AccessRequest::new(AccessKind::Write, 9);
    assert_eq!(request.kind, AccessKind::Write);
    assert_eq!(request.type_id, 9);
}
