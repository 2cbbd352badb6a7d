use gmaildb::engine::{default_group_by_stack, Action, Engine, Grouping};
use gmaildb::error::EngineError;
use gmaildb::layout::Rect;
use gmaildb::link::{Link, Response};
use gmaildb::partitions::calculate_segmentations;
use gmaildb::query::{FilterOp, GroupByField, Query, QueryResult, ValueField};

fn vf(field: GroupByField, value: &str) -> ValueField {
    ValueField { field, value: value.to_string() }
}

fn area(r: Rect) -> u64 {
    ((r.x1 - r.x0) as u64) * ((r.y1 - r.y0) as u64)
}

fn year_rows() -> Vec<QueryResult> {
    vec![
        QueryResult::Grouped(vf(GroupByField::Year, "2021"), 10),
        QueryResult::Grouped(vf(GroupByField::Year, "2022"), 30),
        QueryResult::Grouped(vf(GroupByField::Year, "2023"), 60),
    ]
}

#[test]
fn drill_down_end_to_end() {
    let (link, work_rx, work_tx) = Link::<Action>::new();
    let mut engine = Engine::new(link);
    assert!(engine.is_busy());

    engine.start().unwrap();
    assert!(engine.is_busy());

    // the first request groups by the default Year with no filters
    let (query, action) = work_rx.try_recv().unwrap();
    assert_eq!(action, Action::Select);
    match &query {
        Query::Grouped { filters, group_by } => {
            assert!(filters.is_empty());
            assert_eq!(*group_by, GroupByField::Year);
        },
        _ => panic!("expected a grouped query"),
    }

    // the worker answers with three year groups
    let segmentation = calculate_segmentations(&year_rows()).unwrap();
    work_tx.send(Ok(Response::Grouped(query, action, segmentation))).unwrap();
    engine.process().unwrap();
    assert!(!engine.is_busy());

    // a 100 x 100 canvas: three slices with areas 1000 / 3000 / 6000
    let rect = Rect { x0: 0, y0: 0, x1: 100, y1: 100 };
    let items = engine.items_with_size(rect).unwrap().clone();
    assert_eq!(items.len(), 3);
    let areas: Vec<u64> = items.iter().map(|p| area(p.layout_rect())).collect();
    assert_eq!(areas, vec![1000, 3000, 6000]);
    assert_eq!(areas.iter().sum::<u64>(), area(rect));
    assert_eq!(items[0].layout_rect(), Rect { x0: 0, y0: 0, x1: 10, y1: 100 });
    assert_eq!(items[2].layout_rect(), Rect { x0: 40, y0: 0, x1: 100, y1: 100 });

    // select the 2023 partition
    let chosen = items[2].clone();
    assert_eq!(chosen.field.value(), "2023");
    engine.select_partition(chosen).unwrap();
    assert!(engine.is_busy());

    // the grouping stack is now one longer than the computed depths
    let groupings = engine.current_groupings();
    assert_eq!(groupings.len(), 2);
    assert_eq!(groupings[0].value().as_deref(), Some("2023"));
    assert!(groupings[1].value().is_none());

    // the next query filters Year = 2023 and groups by the next default
    let (query, action) = work_rx.try_recv().unwrap();
    assert_eq!(action, Action::Select);
    match &query {
        Query::Grouped { filters, group_by } => {
            assert_eq!(filters.len(), 1);
            assert_eq!(filters[0].field, GroupByField::Year);
            assert_eq!(filters[0].op, FilterOp::Equals);
            assert_eq!(filters[0].value, "2023");
            assert_eq!(*group_by, GroupByField::SenderDomain);
        },
        _ => panic!("expected a grouped query"),
    }

    // resolve the new depth, then navigate back: the state from before the
    // selection comes back exactly
    let domain_rows = vec![
        QueryResult::Grouped(vf(GroupByField::SenderDomain, "example.com"), 42),
    ];
    let segmentation = calculate_segmentations(&domain_rows).unwrap();
    work_tx.send(Ok(Response::Grouped(query, action, segmentation))).unwrap();
    engine.process().unwrap();
    assert_eq!(engine.current_groupings().len(), 2);
    let deep_items = engine.items_with_size(rect).unwrap().clone();
    assert_eq!(deep_items.len(), 1);
    assert_eq!(deep_items[0].field.value(), "example.com");

    engine.back().unwrap();
    let groupings = engine.current_groupings();
    assert_eq!(groupings.len(), 1);
    assert!(groupings[0].value().is_none());
    let items_again = engine.items_with_size(rect).unwrap().clone();
    assert_eq!(items_again.len(), 3);
    assert_eq!(items_again[2].field.value(), "2023");
    assert!(!engine.is_busy());
}

#[test]
fn back_on_an_empty_engine_reports_and_changes_nothing() {
    let (link, _work_rx, _work_tx) = Link::<Action>::new();
    let mut engine = Engine::new(link);
    assert_eq!(engine.back(), Err(EngineError::InvariantViolation));
    assert_eq!(engine.current_groupings().len(), 1);
    assert!(engine.is_busy());
    assert!(engine.items_with_size(Rect { x0: 0, y0: 0, x1: 1, y1: 1 }).is_none());
}

#[test]
fn select_with_nothing_computed_is_a_quiet_no_op() {
    let (link, work_rx, _work_tx) = Link::<Action>::new();
    let mut engine = Engine::new(link);
    let partition = gmaildb::partitions::Partition::new(vf(GroupByField::Year, "2021"), 1);
    engine.select_partition(partition).unwrap();
    assert_eq!(engine.current_groupings().len(), 1);
    assert!(work_rx.try_recv().is_err());
}

#[test]
fn wait_tagged_response_is_an_invariant_violation() {
    let (link, work_rx, work_tx) = Link::<Action>::new();
    let mut engine = Engine::new(link);
    engine.start().unwrap();
    let (query, _action) = work_rx.try_recv().unwrap();
    let segmentation = calculate_segmentations(&year_rows()).unwrap();
    work_tx.send(Ok(Response::Grouped(query, Action::Wait, segmentation))).unwrap();
    assert_eq!(engine.process(), Err(EngineError::InvariantViolation));
}

#[test]
fn non_grouped_response_is_an_invariant_violation() {
    let (link, work_rx, work_tx) = Link::<Action>::new();
    let mut engine = Engine::new(link);
    engine.start().unwrap();
    let (query, action) = work_rx.try_recv().unwrap();
    work_tx.send(Ok(Response::Normal(query, action, Vec::new()))).unwrap();
    assert_eq!(engine.process(), Err(EngineError::InvariantViolation));
}

#[test]
fn store_errors_pass_through_and_keep_the_engine_busy() {
    let (link, work_rx, work_tx) = Link::<Action>::new();
    let mut engine = Engine::new(link);
    engine.start().unwrap();
    let _ = work_rx.try_recv().unwrap();
    work_tx.send(Err(EngineError::StoreError("disk gone".to_string()))).unwrap();
    match engine.process() {
        Err(EngineError::StoreError(message)) => assert_eq!(message, "disk gone"),
        _ => panic!("expected the store error"),
    }
    assert!(engine.is_busy());
}

#[test]
fn process_surfaces_a_dead_worker() {
    let (link, work_rx, work_tx) = Link::<Action>::new();
    let mut engine = Engine::new(link);
    engine.start().unwrap();
    let _ = work_rx.try_recv().unwrap();
    drop(work_tx);
    assert_eq!(engine.process(), Err(EngineError::ChannelClosed));
    assert!(engine.is_busy());
}

#[test]
fn apply_response_applies_by_tag_and_depth() {
    let (link, _work_rx, _work_tx) = Link::<Action>::new();
    let mut engine = Engine::new(link);
    let rect = Rect { x0: 0, y0: 0, x1: 10, y1: 10 };

    // a selection response pushes the first depth
    let segmentation = calculate_segmentations(&year_rows()).unwrap();
    let query = Query::Grouped { filters: Vec::new(), group_by: GroupByField::Year };
    engine.apply_response(Response::Grouped(query, Action::Select, segmentation)).unwrap();
    assert_eq!(engine.items_with_size(rect).unwrap().len(), 3);

    // a recalculation response replaces that depth
    let month_rows = vec![QueryResult::Grouped(vf(GroupByField::Month, "1"), 3)];
    let segmentation = calculate_segmentations(&month_rows).unwrap();
    let query = Query::Grouped { filters: Vec::new(), group_by: GroupByField::Month };
    engine.apply_response(Response::Grouped(query, Action::Recalculate, segmentation)).unwrap();
    let items = engine.items_with_size(rect).unwrap();
    assert_eq!(items.len(), 1);
    assert_eq!(items[0].field.value(), "1");

    // a selection response with no unresolved depth is refused, unchanged
    let segmentation = calculate_segmentations(&year_rows()).unwrap();
    let query = Query::Grouped { filters: Vec::new(), group_by: GroupByField::Year };
    assert_eq!(
        engine.apply_response(Response::Grouped(query, Action::Select, segmentation)),
        Err(EngineError::InvariantViolation),
    );
    assert_eq!(engine.items_with_size(rect).unwrap().len(), 1);
}

#[test]
fn update_grouping_recalculates_the_depth() {
    let (link, work_rx, work_tx) = Link::<Action>::new();
    let mut engine = Engine::new(link);
    engine.start().unwrap();
    let (query, action) = work_rx.try_recv().unwrap();
    let segmentation = calculate_segmentations(&year_rows()).unwrap();
    work_tx.send(Ok(Response::Grouped(query, action, segmentation))).unwrap();
    engine.process().unwrap();

    let groupings = engine.current_groupings();
    engine.update_grouping(&groupings[0], &GroupByField::Month).unwrap();
    let (query, action) = work_rx.try_recv().unwrap();
    assert_eq!(action, Action::Recalculate);
    match &query {
        Query::Grouped { group_by, .. } => assert_eq!(*group_by, GroupByField::Month),
        _ => panic!("expected a grouped query"),
    }
    let month_rows = vec![QueryResult::Grouped(vf(GroupByField::Month, "1"), 3)];
    let segmentation = calculate_segmentations(&month_rows).unwrap();
    work_tx.send(Ok(Response::Grouped(query, action, segmentation))).unwrap();
    engine.process().unwrap();
    let rect = Rect { x0: 0, y0: 0, x1: 10, y1: 10 };
    let items = engine.items_with_size(rect).unwrap();
    assert_eq!(items.len(), 1);
    assert_eq!(items[0].field.value(), "1");
}

#[test]
fn available_fields_keep_order_and_exclude_used_depths() {
    let (link, work_rx, work_tx) = Link::<Action>::new();
    let mut engine = Engine::new(link);
    engine.start().unwrap();
    let (query, action) = work_rx.try_recv().unwrap();
    let segmentation = calculate_segmentations(&year_rows()).unwrap();
    work_tx.send(Ok(Response::Grouped(query, action, segmentation))).unwrap();
    engine.process().unwrap();
    let items = engine.items_with_size(Rect { x0: 0, y0: 0, x1: 10, y1: 10 }).unwrap().clone();
    engine.select_partition(items[2].clone()).unwrap();

    // stack is now [Year, SenderDomain]; at depth 1 the current field stays
    // selectable, Year is used at another depth and disappears
    let groupings = engine.current_groupings();
    let available = engine.available_group_by_fields(&groupings[1]);
    assert_eq!(
        available,
        vec![
            GroupByField::SenderDomain,
            GroupByField::SenderLocalPart,
            GroupByField::SenderName,
            GroupByField::Month,
            GroupByField::Day,
            GroupByField::ToGroup,
            GroupByField::ToName,
            GroupByField::ToAddress,
            GroupByField::IsReply,
            GroupByField::IsSend,
        ],
    );
    // at depth 0 the current field is Year itself
    let available = engine.available_group_by_fields(&groupings[0]);
    assert!(available.contains(&GroupByField::Year));
    assert!(!available.contains(&GroupByField::SenderDomain));
    assert!(available.contains(&GroupByField::SenderLocalPart));
}

#[test]
fn grouping_accessors_describe_the_depth() {
    let (link, work_rx, work_tx) = Link::<Action>::new();
    let mut engine = Engine::new(link);
    engine.start().unwrap();
    let (query, action) = work_rx.try_recv().unwrap();
    let segmentation = calculate_segmentations(&year_rows()).unwrap();
    work_tx.send(Ok(Response::Grouped(query, action, segmentation))).unwrap();
    engine.process().unwrap();

    let groupings: Vec<Grouping> = engine.current_groupings();
    assert_eq!(groupings.len(), 1);
    assert_eq!(groupings[0].name(), "Year");
    assert!(groupings[0].value().is_none());
    let fields = [GroupByField::Month, GroupByField::Year];
    assert_eq!(groupings[0].index(&fields), Some(1));
    assert_eq!(groupings[0].index(&[GroupByField::Month]), None);
}

#[test]
fn default_groupings_follow_the_prepared_order() {
    assert_eq!(default_group_by_stack(0), GroupByField::Year);
    assert_eq!(default_group_by_stack(1), GroupByField::SenderDomain);
    assert_eq!(default_group_by_stack(2), GroupByField::SenderLocalPart);
    assert_eq!(default_group_by_stack(3), GroupByField::Month);
    assert_eq!(default_group_by_stack(4), GroupByField::Day);
}

#[test]
fn field_labels_are_stable() {
    assert_eq!(GroupByField::Year.as_str(), "Year");
    assert_eq!(GroupByField::SenderDomain.as_str(), "Sender Domain");
    assert_eq!(GroupByField::IsSend.as_str(), "Is Send");
}
