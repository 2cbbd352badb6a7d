use gmaildb::error::EngineError;
use gmaildb::link::{process_request, Link, Response};
use gmaildb::query::{GroupByField, Query, QueryResult, QueryRow, ValueField};

fn vf(field: GroupByField, value: &str) -> ValueField {
    ValueField { field, value: value.to_string() }
}

fn normal_query() -> Query {
    Query::Normal { filters: Vec::new() }
}

#[test]
fn counter_tracks_sends_minus_successful_receives() {
    let (mut link, work_rx, work_tx) = Link::<u32>::new();
    assert!(!link.is_processing());
    assert_eq!(link.request_counter(), 0);

    link.request(normal_query(), 7).unwrap();
    assert_eq!(link.request_counter(), 1);
    link.request(normal_query(), 8).unwrap();
    assert_eq!(link.request_counter(), 2);
    assert!(link.is_processing());

    // nothing waiting yet: not an error, counter untouched
    assert!(link.receive().unwrap().is_none());
    assert_eq!(link.request_counter(), 2);

    // the worker answers the first request
    let (query, context) = work_rx.try_recv().unwrap();
    assert_eq!(context, 7);
    work_tx.send(Ok(Response::Normal(query, context, Vec::new()))).unwrap();
    match link.receive().unwrap().unwrap() {
        Response::Normal(_, context, rows) => {
            assert_eq!(context, 7);
            assert!(rows.is_empty());
        },
        _ => panic!("expected a flat response"),
    }
    assert_eq!(link.request_counter(), 1);
    assert!(link.is_processing());

    // a store error is forwarded unchanged and keeps the counter
    let _ = work_rx.try_recv().unwrap();
    work_tx.send(Err(EngineError::StoreError("no such table".to_string()))).unwrap();
    match link.receive() {
        Err(EngineError::StoreError(message)) => assert_eq!(message, "no such table"),
        other => panic!("expected the store error, got {:?}", other.is_ok()),
    }
    assert_eq!(link.request_counter(), 1);
    assert!(link.is_processing());
}

#[test]
fn request_fails_when_the_worker_is_gone() {
    let (mut link, work_rx, _work_tx) = Link::<u32>::new();
    drop(work_rx);
    match link.request(normal_query(), 1) {
        Err(EngineError::ChannelClosed) => {},
        _ => panic!("expected the closed-channel failure"),
    }
    // the counter stays raised: the request never completed
    assert_eq!(link.request_counter(), 1);
}

#[test]
fn receive_reports_a_dead_worker() {
    let (mut link, _work_rx, work_tx) = Link::<u32>::new();
    drop(work_tx);
    match link.receive() {
        Err(EngineError::ChannelClosed) => {},
        _ => panic!("expected the closed-channel failure"),
    }
}

#[test]
fn process_request_converts_by_query_kind() {
    let grouped = Query::Grouped { filters: Vec::new(), group_by: GroupByField::Year };
    let rows = vec![QueryResult::Grouped(vf(GroupByField::Year, "2021"), 4)];
    match process_request(grouped, 1u8, &rows).unwrap() {
        Response::Grouped(_, context, partitions) => {
            assert_eq!(context, 1);
            assert_eq!(partitions.items.len(), 1);
            assert_eq!(partitions.items[0].count, 4);
            assert!(partitions.selected.is_none());
        },
        _ => panic!("expected a grouped response"),
    }

    let normal = normal_query();
    let rows = vec![QueryResult::Normal(QueryRow { values: Vec::new() })];
    match process_request(normal, 2u8, &rows).unwrap() {
        Response::Normal(_, context, out) => {
            assert_eq!(context, 2);
            assert_eq!(out.len(), 1);
        },
        _ => panic!("expected a flat response"),
    }

    let other = Query::Other { filters: Vec::new() };
    let rows = vec![
        QueryResult::Other(vec!["x".to_string(), "y".to_string()]),
        QueryResult::Other(vec!["y".to_string()]),
    ];
    match process_request(other, 3u8, &rows).unwrap() {
        Response::Other(_, context, values) => {
            assert_eq!(context, 3);
            assert_eq!(values, vec!["x".to_string(), "y".to_string()]);
        },
        _ => panic!("expected a distinct-value response"),
    }
}

#[test]
fn process_request_rejects_mismatched_rows() {
    let grouped = Query::Grouped { filters: Vec::new(), group_by: GroupByField::Year };
    let rows = vec![QueryResult::Normal(QueryRow { values: Vec::new() })];
    assert!(process_request(grouped, 0u8, &rows).is_err());
}
