use subsys::counter::{Counter, CounterOp};
use subsys::substringer::{SubstrOp, SubstrReply, Substringer};
use subsys::subsystem::Subsystem;

fn text(r: SubstrReply) -> String {
    match r {
        SubstrReply::Text(s) => s,
        SubstrReply::Count(_) => panic!("expected text"),
    }
}

fn count(r: SubstrReply) -> usize {
    match r {
        SubstrReply::Text(_) => panic!("expected a count"),
        SubstrReply::Count(n) => n,
    }
}

#[test]
fn test() {
    let mut substr = Subsystem::new(Substringer::new(String::from("abc")));
    let mut counter = Subsystem::new(Counter::new());

    let res0 = substr.call_mut(SubstrOp::AppendGet(String::from("xyz")));
    assert_eq!(text(substr.await_result(res0)), "abcxyz");

    let res1 = substr.call(SubstrOp::Span(2, 5));
    assert_eq!(text(substr.await_result(res1)), "cxy");

    let res2 = counter.call(CounterOp::Get);
    assert_eq!(counter.await_result(res2), 13);

    let res3 = counter.call_mut(CounterOp::AddAndGet(3));
    assert_eq!(counter.await_result(res3), 16);
}

#[test]
fn results_follow_submission_order() {
    let mut counter = Subsystem::new(Counter::new());
    let h0 = counter.call_mut(CounterOp::AddAndGet(1));
    let h1 = counter.call_mut(CounterOp::AddAndGet(2));
    let h2 = counter.call(CounterOp::Get);
    // Awaiting out of submission order still yields each call's own
    // result: the operations ran first-in, first-out.
    assert_eq!(counter.await_result(h2), 16);
    assert_eq!(counter.await_result(h0), 14);
    assert_eq!(counter.await_result(h1), 16);
}

#[test]
fn mutation_visible_to_later_calls() {
    let mut counter = Subsystem::new(Counter::new());
    let h0 = counter.call(CounterOp::Get);
    let h1 = counter.call_mut(CounterOp::AddAndGet(3));
    let h2 = counter.call(CounterOp::Get);
    assert_eq!(counter.await_result(h0), 13);
    assert_eq!(counter.await_result(h1), 16);
    assert_eq!(counter.await_result(h2), 16);
}

#[test]
fn dropped_handle_does_not_stall_worker() {
    let mut substr = Subsystem::new(Substringer::new(String::from("abc")));
    let h0 = substr.call_mut(SubstrOp::AppendGet(String::from("de")));
    substr.drop_handle(h0);
    // The abandoned operation still runs; later calls complete normally.
    let h1 = substr.call(SubstrOp::Span(0, 5));
    assert_eq!(text(substr.await_result(h1)), "abcde");
    let h2 = substr.call(SubstrOp::Size);
    assert_eq!(count(substr.await_result(h2)), 5);
}

#[test]
fn dropped_handle_after_delivery() {
    let mut counter = Subsystem::new(Counter::new());
    let h0 = counter.call_mut(CounterOp::AddAndGet(1));
    let h1 = counter.call(CounterOp::Get);
    assert_eq!(counter.await_result(h1), 14);
    counter.drop_handle(h0);
    let h2 = counter.call(CounterOp::Get);
    assert_eq!(counter.await_result(h2), 14);
}

#[test]
fn shutdown_runs_everything_queued_and_is_idempotent() {
    let mut counter = Subsystem::new(Counter::new());
    let h0 = counter.call_mut(CounterOp::AddAndGet(4));
    let h1 = counter.call(CounterOp::Get);
    counter.shutdown();
    counter.shutdown();
    // Both operations ran before the worker stopped; their results are
    // still deliverable afterwards.
    assert_eq!(counter.await_result(h0), 17);
    assert_eq!(counter.await_result(h1), 17);
}
