use eventsync::flow::{FlowStore, ScheduleSessionFlow, FLOW_TTL_SECONDS};
use eventsync::model::EventSeriesId;

#[test]
fn retrieval_returns_the_same_series_every_time() {
    let mut store = FlowStore::new();
    let flow = ScheduleSessionFlow::new(&mut store, EventSeriesId(7), 1000);
    for now in [1000, 1100, 1000 + FLOW_TTL_SECONDS - 1] {
        let got = ScheduleSessionFlow::retrieve(&store, flow.id, now)
            .expect("flow should be alive before expiry");
        assert_eq!(got.event_series_id, EventSeriesId(7));
        assert_eq!(got.id, flow.id);
    }
}

#[test]
fn retrieval_after_completion_finds_nothing() {
    let mut store = FlowStore::new();
    let flow = ScheduleSessionFlow::new(&mut store, EventSeriesId(7), 1000);
    let id = flow.id;
    flow.delete(&mut store);
    assert!(ScheduleSessionFlow::retrieve(&store, id, 1001).is_none());
    assert!(ScheduleSessionFlow::retrieve(&store, id, 1000).is_none());
}

#[test]
fn retrieval_after_expiry_finds_nothing() {
    let mut store = FlowStore::new();
    let flow = ScheduleSessionFlow::new(&mut store, EventSeriesId(7), 1000);
    assert!(ScheduleSessionFlow::retrieve(&store, flow.id, 1000 + FLOW_TTL_SECONDS).is_none());
    assert!(ScheduleSessionFlow::retrieve(&store, flow.id, 1000 + FLOW_TTL_SECONDS + 50).is_none());
}

#[test]
fn unknown_token_finds_nothing() {
    let mut store = FlowStore::new();
    let flow = ScheduleSessionFlow::new(&mut store, EventSeriesId(7), 1000);
    assert!(ScheduleSessionFlow::retrieve(&store, flow.id.wrapping_add(1), 1001).is_none());
}

#[test]
fn deleting_one_flow_leaves_others_alive() {
    let mut store = FlowStore::new();
    let a = ScheduleSessionFlow::new(&mut store, EventSeriesId(1), 1000);
    let b = ScheduleSessionFlow::new(&mut store, EventSeriesId(2), 1000);
    if a.id == b.id {
        // The random tokens collided; the second write owns the token.
        return;
    }
    let b_id = b.id;
    b.delete(&mut store);
    assert!(ScheduleSessionFlow::retrieve(&store, b_id, 1001).is_none());
    let got = ScheduleSessionFlow::retrieve(&store, a.id, 1001).expect("other flow stays");
    assert_eq!(got.event_series_id, EventSeriesId(1));
}
