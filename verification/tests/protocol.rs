use ldap3::protocol::{Abandon, Expiry, ProtoBundle, Route, SinkKind};

#[test]
fn ids_start_at_one_and_rise() {
    let mut mux = ProtoBundle::new();
    assert_eq!(mux.next_id(), Some(1));
    let mut last = 0;
    for kind in [SinkKind::Single, SinkKind::Solo, SinkKind::Streaming, SinkKind::Single] {
        let id = mux.submit(kind).unwrap();
        assert!(id > last);
        assert_ne!(id, 0);
        last = id;
    }
    assert_eq!(last, 4);
    let abandon = mux.abandon(1);
    assert_eq!(abandon.request_id, Some(5));
    assert_eq!(mux.submit(SinkKind::Single), Some(6));
    assert_eq!(mux.next_id(), Some(7));
}

#[test]
fn single_is_retired_by_any_response() {
    let mut mux = ProtoBundle::new();
    let id = mux.submit(SinkKind::Single).unwrap();
    assert_eq!(mux.kind_of(id), Some(SinkKind::Single));
    assert_eq!(mux.pending_count(), 1);
    assert_eq!(mux.route(id, 1), Route::Single);
    assert_eq!(mux.kind_of(id), None);
    assert_eq!(mux.pending_count(), 0);
    assert_eq!(mux.route(id, 1), Route::Drop);
}

#[test]
fn responses_reach_their_own_operation() {
    let mut mux = ProtoBundle::new();
    let a = mux.submit(SinkKind::Streaming).unwrap();
    let b = mux.submit(SinkKind::Single).unwrap();
    assert_ne!(a, b);
    assert_eq!(mux.route(a, 4), Route::Item);
    assert_eq!(mux.kind_of(b), Some(SinkKind::Single));
    assert_eq!(mux.route(b, 7), Route::Single);
    assert_eq!(mux.kind_of(a), Some(SinkKind::Streaming));
    assert_eq!(mux.route(a, 19), Route::Item);
    assert_eq!(mux.route(a, 5), Route::Done);
    assert_eq!(mux.kind_of(a), None);
    assert_eq!(mux.kind_of(b), None);
}

#[test]
fn stream_ends_once() {
    let mut mux = ProtoBundle::new();
    let id = mux.submit(SinkKind::Streaming).unwrap();
    assert_eq!(mux.route(id, 4), Route::Item);
    assert_eq!(mux.route(id, 4), Route::Item);
    assert_eq!(mux.route(id, 19), Route::Item);
    assert_eq!(mux.route(id, 5), Route::Done);
    assert_eq!(mux.route(id, 4), Route::Drop);
    assert_eq!(mux.route(id, 5), Route::Drop);
    let empty = mux.submit(SinkKind::Streaming).unwrap();
    assert_eq!(mux.route(empty, 5), Route::Done);
    assert_eq!(mux.route(empty, 5), Route::Drop);
}

#[test]
fn stream_fails_on_a_foreign_response() {
    let mut mux = ProtoBundle::new();
    let id = mux.submit(SinkKind::Streaming).unwrap();
    assert_eq!(mux.route(id, 1), Route::Mismatch);
    assert_eq!(mux.route(id, 4), Route::Drop);
}

#[test]
fn unsolicited_and_unknown() {
    let mut mux = ProtoBundle::new();
    let id = mux.submit(SinkKind::Single).unwrap();
    assert_eq!(mux.route(0, 24), Route::Unsolicited);
    assert_eq!(mux.route(99, 1), Route::Drop);
    assert_eq!(mux.route(-3, 1), Route::Drop);
    assert_eq!(mux.kind_of(id), Some(SinkKind::Single));
}

#[test]
fn solo_awaits_nothing() {
    let mut mux = ProtoBundle::new();
    let id = mux.submit(SinkKind::Solo).unwrap();
    assert_eq!(mux.kind_of(id), None);
    assert_eq!(mux.pending_count(), 0);
    assert_eq!(mux.timeout(id), Expiry::Nothing);
    assert!(!mux.is_abandoned(id));
    assert_eq!(mux.route(id, 1), Route::Drop);
}

#[test]
fn timeout_by_kind() {
    let mut mux = ProtoBundle::new();
    let single = mux.submit(SinkKind::Single).unwrap();
    let stream = mux.submit(SinkKind::Streaming).unwrap();
    assert_eq!(mux.timeout(single), Expiry::FailSingle);
    assert!(mux.is_abandoned(single));
    assert_eq!(mux.route(single, 1), Route::Drop);
    assert_eq!(mux.timeout(stream), Expiry::SynthesizeDone);
    assert!(mux.is_abandoned(stream));
    assert_eq!(mux.route(stream, 4), Route::Drop);
    assert_eq!(mux.timeout(stream), Expiry::Nothing);
    assert_eq!(mux.next_id(), Some(3));
}

#[test]
fn abandon_closes_the_sink_and_takes_an_id() {
    let mut mux = ProtoBundle::new();
    let id = mux.submit(SinkKind::Streaming).unwrap();
    assert_eq!(mux.route(id, 4), Route::Item);
    assert_eq!(mux.abandon(id), Abandon { request_id: Some(2), close_sink: true });
    assert!(mux.is_abandoned(id));
    assert_eq!(mux.route(id, 4), Route::Drop);
    assert_eq!(mux.abandon(id), Abandon { request_id: Some(3), close_sink: false });
}

#[test]
fn disconnect_fails_everything() {
    let mut mux = ProtoBundle::new();
    let a = mux.submit(SinkKind::Single).unwrap();
    let b = mux.submit(SinkKind::Streaming).unwrap();
    let c = mux.submit(SinkKind::Single).unwrap();
    assert_eq!(mux.route(b, 5), Route::Done);
    assert!(!mux.is_terminal());
    assert_eq!(mux.disconnect(), vec![a, c]);
    assert!(mux.is_terminal());
    assert_eq!(mux.pending_count(), 0);
    assert_eq!(mux.submit(SinkKind::Single), None);
    assert_eq!(mux.abandon(a), Abandon { request_id: None, close_sink: false });
    assert_eq!(mux.route(a, 1), Route::Drop);
    assert_eq!(mux.disconnect(), Vec::<i32>::new());
}

#[test]
fn failures_by_decision() {
    let cancelled = Abandon { request_id: Some(2), close_sink: true };
    assert_eq!(cancelled.failure(), Some(ldap3::result::LdapError::Cancelled));
    let idle = Abandon { request_id: Some(2), close_sink: false };
    assert_eq!(idle.failure(), None);
    assert_eq!(Route::Mismatch.failure(), Some(ldap3::result::LdapError::Protocol));
    assert_eq!(Route::Done.failure(), None);
    assert_eq!(Route::Drop.failure(), None);
}
