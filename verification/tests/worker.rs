use sample_relay::frame::{Control, Frame};
use sample_relay::worker::{Action, Event, Phase, Worker};

fn worker_with_samples(payloads: &[&str]) -> Worker {
    let mut worker = Worker::new();
    for payload in payloads {
        assert!(worker.on_sample(payload.to_string()));
    }
    worker
}

#[test]
fn fresh_worker_is_open_and_idle() {
    let mut worker = Worker::new();
    assert_eq!(worker.phase(), Phase::Open);
    assert_eq!(worker.pending_samples(), 0);
    assert_eq!(worker.pending_control(), 0);
    assert_eq!(worker.next_write(), None);
}

#[test]
fn samples_are_written_in_the_order_they_arrived() {
    let mut worker = worker_with_samples(&["a", "b", "c"]);
    assert_eq!(worker.pending_samples(), 3);
    assert_eq!(worker.next_write(), Some(Frame::Text("a".to_string())));
    assert_eq!(worker.next_write(), Some(Frame::Text("b".to_string())));
    assert_eq!(worker.next_write(), Some(Frame::Text("c".to_string())));
    assert_eq!(worker.next_write(), None);
}

#[test]
fn ping_is_answered_by_one_pong_with_its_payload() {
    let mut worker = Worker::new();
    let action = worker.on_frame(Frame::Ping(vec![1, 2, 3]));
    assert_eq!(action, Action::Nothing);
    assert_eq!(worker.pending_control(), 1);
    assert_eq!(worker.next_write(), Some(Frame::Pong(vec![1, 2, 3])));
    assert_eq!(worker.next_write(), None);
    assert_eq!(worker.phase(), Phase::Open);
}

#[test]
fn pongs_keep_the_order_of_the_pings() {
    let mut worker = Worker::new();
    worker.on_frame(Frame::Ping(vec![1]));
    worker.on_frame(Frame::Ping(vec![2]));
    worker.on_frame(Frame::Ping(vec![]));
    assert_eq!(worker.next_write(), Some(Frame::Pong(vec![1])));
    assert_eq!(worker.next_write(), Some(Frame::Pong(vec![2])));
    assert_eq!(worker.next_write(), Some(Frame::Pong(vec![])));
    assert_eq!(worker.next_write(), None);
}

#[test]
fn pong_is_written_within_two_frames_under_sample_traffic() {
    let mut worker = worker_with_samples(&["s1", "s2", "s3"]);
    worker.on_frame(Frame::Ping(vec![9]));
    assert_eq!(worker.next_write(), Some(Frame::Text("s1".to_string())));
    worker.on_sample("s4".to_string());
    assert_eq!(worker.next_write(), Some(Frame::Pong(vec![9])));
    assert_eq!(worker.next_write(), Some(Frame::Text("s2".to_string())));
    assert_eq!(worker.next_write(), Some(Frame::Text("s3".to_string())));
    assert_eq!(worker.next_write(), Some(Frame::Text("s4".to_string())));
    assert_eq!(worker.next_write(), None);
}

#[test]
fn samples_and_pongs_take_turns() {
    let mut worker = worker_with_samples(&["s1", "s2"]);
    worker.on_frame(Frame::Ping(vec![1]));
    worker.on_frame(Frame::Ping(vec![2]));
    worker.on_frame(Frame::Ping(vec![3]));
    assert_eq!(worker.next_write(), Some(Frame::Text("s1".to_string())));
    assert_eq!(worker.next_write(), Some(Frame::Pong(vec![1])));
    assert_eq!(worker.next_write(), Some(Frame::Text("s2".to_string())));
    assert_eq!(worker.next_write(), Some(Frame::Pong(vec![2])));
    assert_eq!(worker.next_write(), Some(Frame::Pong(vec![3])));
    assert_eq!(worker.next_write(), None);
}

#[test]
fn text_frame_goes_to_the_sink() {
    let mut worker = Worker::new();
    let action = worker.on_frame(Frame::Text("pause".to_string()));
    assert_eq!(action, Action::Sink("pause".to_string()));
    assert_eq!(worker.phase(), Phase::Open);
    assert_eq!(worker.pending_control(), 0);
}

#[test]
fn binary_and_pong_frames_are_ignored() {
    let mut worker = Worker::new();
    assert_eq!(worker.on_frame(Frame::Binary(vec![0, 1])), Action::Nothing);
    assert_eq!(worker.on_frame(Frame::Pong(vec![7])), Action::Nothing);
    assert_eq!(worker.phase(), Phase::Open);
    assert_eq!(worker.pending_control(), 0);
    assert_eq!(worker.next_write(), None);
}

#[test]
fn close_frame_starts_closing() {
    let mut worker = worker_with_samples(&["a"]);
    assert_eq!(worker.on_frame(Frame::Close), Action::Shutdown);
    assert_eq!(worker.phase(), Phase::Closing);
    assert_eq!(worker.next_write(), None);
    assert_eq!(worker.pending_samples(), 1);
}

#[test]
fn ping_followed_by_close_is_still_answered() {
    let mut worker = Worker::new();
    assert_eq!(worker.on_frame(Frame::Ping(vec![1, 2, 3])), Action::Nothing);
    assert_eq!(worker.on_frame(Frame::Close), Action::Shutdown);
    assert_eq!(worker.phase(), Phase::Closing);
    assert_eq!(worker.next_write(), Some(Frame::Pong(vec![1, 2, 3])));
    assert_eq!(worker.next_write(), None);
    assert!(worker.release());
    assert_eq!(worker.next_write(), None);
}

#[test]
fn closing_worker_writes_its_replies_and_no_sample() {
    let mut worker = worker_with_samples(&["s1", "s2"]);
    worker.on_frame(Frame::Ping(vec![1]));
    worker.on_frame(Frame::Ping(vec![2]));
    assert_eq!(worker.on_failure(), Action::Shutdown);
    assert_eq!(worker.handle(Event::Writable), Action::Write(Frame::Pong(vec![1])));
    assert_eq!(worker.handle(Event::Writable), Action::Write(Frame::Pong(vec![2])));
    assert_eq!(worker.handle(Event::Writable), Action::Nothing);
    assert_eq!(worker.pending_samples(), 2);
    assert_eq!(worker.pending_control(), 0);
}

#[test]
fn released_worker_writes_nothing_any_more() {
    let mut worker = Worker::new();
    worker.on_frame(Frame::Ping(vec![1]));
    worker.on_frame(Frame::Close);
    assert!(worker.release());
    assert_eq!(worker.phase(), Phase::Closed);
    assert_eq!(worker.next_write(), None);
    assert_eq!(worker.pending_control(), 0);
}

#[test]
fn failure_starts_closing_once() {
    let mut worker = Worker::new();
    assert_eq!(worker.on_failure(), Action::Shutdown);
    assert_eq!(worker.phase(), Phase::Closing);
    assert_eq!(worker.on_failure(), Action::Nothing);
    assert_eq!(worker.phase(), Phase::Closing);
}

#[test]
fn closing_worker_takes_nothing_in() {
    let mut worker = Worker::new();
    worker.on_failure();
    assert!(!worker.on_sample("late".to_string()));
    assert_eq!(worker.on_frame(Frame::Ping(vec![1])), Action::Nothing);
    assert_eq!(worker.on_frame(Frame::Text("x".to_string())), Action::Nothing);
    assert_eq!(worker.pending_samples(), 0);
    assert_eq!(worker.pending_control(), 0);
}

#[test]
fn release_closes_a_closing_worker_and_gives_up_what_waited() {
    let mut worker = worker_with_samples(&["a", "b"]);
    worker.on_frame(Frame::Ping(vec![1]));
    assert!(!worker.release());
    assert_eq!(worker.phase(), Phase::Open);
    worker.on_frame(Frame::Close);
    assert!(worker.release());
    assert_eq!(worker.phase(), Phase::Closed);
    assert_eq!(worker.pending_samples(), 0);
    assert_eq!(worker.pending_control(), 0);
}

#[test]
fn closed_worker_never_changes() {
    let mut worker = Worker::new();
    worker.on_failure();
    worker.release();
    assert_eq!(worker.phase(), Phase::Closed);
    assert_eq!(worker.handle(Event::Sample("x".to_string())), Action::Nothing);
    assert_eq!(worker.handle(Event::Frame(Frame::Ping(vec![1]))), Action::Nothing);
    assert_eq!(worker.handle(Event::Frame(Frame::Close)), Action::Nothing);
    assert_eq!(worker.handle(Event::Writable), Action::Nothing);
    assert_eq!(worker.handle(Event::Failed), Action::Nothing);
    assert_eq!(worker.handle(Event::Released), Action::Nothing);
    assert_eq!(worker.phase(), Phase::Closed);
    assert_eq!(worker.pending_samples(), 0);
    assert_eq!(worker.pending_control(), 0);
    assert!(!worker.release());
}

#[test]
fn handle_covers_every_event() {
    let mut worker = Worker::new();
    assert_eq!(worker.handle(Event::Writable), Action::Nothing);
    assert_eq!(worker.handle(Event::Sample("s".to_string())), Action::Nothing);
    assert_eq!(worker.handle(Event::Frame(Frame::Ping(vec![4]))), Action::Nothing);
    assert_eq!(worker.handle(Event::Frame(Frame::Text("t".to_string()))), Action::Sink("t".to_string()));
    assert_eq!(worker.handle(Event::Writable), Action::Write(Frame::Text("s".to_string())));
    assert_eq!(worker.handle(Event::Writable), Action::Write(Frame::Pong(vec![4])));
    assert_eq!(worker.handle(Event::Failed), Action::Shutdown);
    assert_eq!(worker.handle(Event::Released), Action::Nothing);
    assert_eq!(worker.phase(), Phase::Closed);
}

#[test]
fn control_reply_becomes_a_pong_frame() {
    assert_eq!(Control::Pong(vec![5, 6]).into_frame(), Frame::Pong(vec![5, 6]));
}
