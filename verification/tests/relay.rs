use sample_relay::distribution::{Offer, Policy};
use sample_relay::frame::Frame;
use sample_relay::hub::Hub;
use sample_relay::ingest::Ingest;
use sample_relay::record::{read_records, Record};
use sample_relay::relay::Relay;
use sample_relay::data::Data;
use sample_relay::worker::{Action, Event, Phase};

fn drain_texts(relay: &mut Relay, id: u64) -> Vec<String> {
    let mut texts = Vec::new();
    loop {
        match relay.handle(id, Event::Writable) {
            Some(Action::Write(Frame::Text(text))) => texts.push(text),
            Some(Action::Write(_)) => {}
            _ => break,
        }
    }
    texts
}

fn wire_text(sample: &Data) -> String {
    let mut object = serde_json::Map::new();
    object.insert("stamp".to_string(), serde_json::Value::from(sample.stamp as f64 / 1e9));
    let values: Vec<f64> = sample.values.iter().map(|bits| f64::from_bits(*bits)).collect();
    object.insert("values".to_string(), serde_json::Value::from(values));
    serde_json::Value::Object(object).to_string()
}

fn from_wire(text: &str) -> Data {
    let value: serde_json::Value = serde_json::from_str(text).unwrap();
    let stamp = (value["stamp"].as_f64().unwrap() * 1e9).round() as u64;
    let values = value["values"]
        .as_array()
        .unwrap()
        .iter()
        .map(|number| number.as_f64().unwrap().to_bits())
        .collect();
    Data { stamp, values }
}

fn parsed_fields(fields: &[String]) -> Vec<Option<u64>> {
    fields.iter().map(|field| field.parse::<f64>().ok().map(f64::to_bits)).collect()
}

#[test]
fn every_peer_gets_every_sample_in_order() {
    let mut relay = Relay::new(5, Policy::Block);
    let first = relay.accept(true).unwrap();
    let second = relay.accept(true).unwrap();
    let third = relay.accept(true).unwrap();
    for k in 0..4 {
        assert_eq!(relay.offer(format!("sample {}", k)), Offer::Accepted);
    }
    while relay.dispatch() {}
    let expected: Vec<String> = (0..4).map(|k| format!("sample {}", k)).collect();
    assert_eq!(drain_texts(&mut relay, first), expected);
    assert_eq!(drain_texts(&mut relay, second), expected);
    assert_eq!(drain_texts(&mut relay, third), expected);
}

#[test]
fn relay_without_peers_still_fills_its_queue() {
    let mut relay = Relay::new(5, Policy::Block);
    for k in 0..5 {
        assert_eq!(relay.offer(format!("r{}", k)), Offer::Accepted);
    }
    assert_eq!(relay.waiting(), 5);
    assert_eq!(relay.offer("r5".to_string()), Offer::Blocked("r5".to_string()));
    assert!(relay.dispatch());
    assert_eq!(relay.waiting(), 4);
    assert_eq!(relay.offer("r5".to_string()), Offer::Accepted);
}

#[test]
fn late_peer_gets_only_what_is_published_after_it_joined() {
    let mut relay = Relay::new(5, Policy::Block);
    let early = relay.accept(true).unwrap();
    relay.offer("one".to_string());
    assert!(relay.dispatch());
    let late = relay.accept(true).unwrap();
    relay.offer("two".to_string());
    assert!(relay.dispatch());
    assert!(!relay.dispatch());
    assert_eq!(drain_texts(&mut relay, early), vec!["one".to_string(), "two".to_string()]);
    assert_eq!(drain_texts(&mut relay, late), vec!["two".to_string()]);
}

#[test]
fn failed_handshake_registers_nobody() {
    let mut relay = Relay::new(5, Policy::Block);
    assert_eq!(relay.accept(false), None);
    assert_eq!(relay.peers(), 0);
    assert_eq!(relay.accept(true), Some(0));
    assert_eq!(relay.accept(false), None);
    assert_eq!(relay.accept(true), Some(1));
    assert_eq!(relay.peers(), 2);
}

#[test]
fn peer_numbers_are_never_reused() {
    let mut relay = Relay::new(5, Policy::Block);
    let first = relay.accept(true).unwrap();
    assert!(relay.leave(first));
    let second = relay.accept(true).unwrap();
    assert_ne!(first, second);
    assert_eq!(relay.phase(first), None);
    assert_eq!(relay.phase(second), Some(Phase::Open));
}

#[test]
fn disconnecting_one_peer_leaves_the_other_untouched() {
    let mut relay = Relay::new(5, Policy::Block);
    let a = relay.accept(true).unwrap();
    let b = relay.accept(true).unwrap();
    relay.offer("one".to_string());
    relay.dispatch();
    assert_eq!(relay.handle(a, Event::Frame(Frame::Close)), Some(Action::Shutdown));
    assert_eq!(relay.phase(a), Some(Phase::Closing));
    assert_eq!(relay.phase(b), Some(Phase::Open));
    relay.offer("two".to_string());
    relay.dispatch();
    assert_eq!(relay.handle(a, Event::Released), Some(Action::Nothing));
    assert!(relay.leave(a));
    relay.offer("three".to_string());
    relay.dispatch();
    assert_eq!(
        drain_texts(&mut relay, b),
        vec!["one".to_string(), "two".to_string(), "three".to_string()]
    );
    assert_eq!(relay.handle(a, Event::Writable), None);
    assert!(!relay.leave(a));
}

#[test]
fn read_error_on_one_peer_does_not_reach_the_other() {
    let mut relay = Relay::new(5, Policy::Block);
    let a = relay.accept(true).unwrap();
    let b = relay.accept(true).unwrap();
    relay.handle(b, Event::Frame(Frame::Ping(vec![1])));
    assert_eq!(relay.handle(a, Event::Failed), Some(Action::Shutdown));
    relay.offer("x".to_string());
    relay.dispatch();
    assert_eq!(relay.handle(a, Event::Writable), Some(Action::Nothing));
    assert_eq!(relay.handle(b, Event::Writable), Some(Action::Write(Frame::Text("x".to_string()))));
    assert_eq!(relay.handle(b, Event::Writable), Some(Action::Write(Frame::Pong(vec![1]))));
    assert_eq!(relay.handle(b, Event::Writable), Some(Action::Nothing));
}

#[test]
fn ping_is_answered_even_when_the_close_frame_comes_first_to_the_writer() {
    let mut relay = Relay::new(5, Policy::Block);
    let a = relay.accept(true).unwrap();
    let b = relay.accept(true).unwrap();
    relay.offer("x".to_string());
    relay.dispatch();
    assert_eq!(relay.handle(a, Event::Frame(Frame::Ping(vec![1, 2, 3]))), Some(Action::Nothing));
    assert_eq!(relay.handle(a, Event::Frame(Frame::Close)), Some(Action::Shutdown));
    assert_eq!(relay.handle(a, Event::Writable), Some(Action::Write(Frame::Pong(vec![1, 2, 3]))));
    assert_eq!(relay.handle(a, Event::Writable), Some(Action::Nothing));
    assert_eq!(relay.handle(a, Event::Released), Some(Action::Nothing));
    assert_eq!(relay.phase(a), Some(Phase::Closed));
    assert_eq!(relay.handle(b, Event::Writable), Some(Action::Write(Frame::Text("x".to_string()))));
    assert_eq!(relay.handle(b, Event::Writable), Some(Action::Nothing));
}

#[test]
fn unknown_peer_is_reported() {
    let mut relay = Relay::new(5, Policy::Block);
    assert_eq!(relay.handle(7, Event::Writable), None);
    assert_eq!(relay.phase(7), None);
    assert!(!relay.leave(7));
}

#[test]
fn end_of_input_closes_the_queue_and_what_waits_is_still_published() {
    let mut relay = Relay::new(5, Policy::Block);
    let peer = relay.accept(true).unwrap();
    relay.offer("last".to_string());
    relay.end_of_input();
    assert!(!relay.is_finished());
    assert_eq!(relay.offer("after".to_string()), Offer::Closed("after".to_string()));
    assert!(relay.dispatch());
    assert!(relay.is_finished());
    assert_eq!(drain_texts(&mut relay, peer), vec!["last".to_string()]);
}

#[test]
fn hub_publishes_to_open_peers_only() {
    let mut hub = Hub::new();
    let a = hub.join().unwrap();
    let b = hub.join().unwrap();
    assert_eq!(hub.len(), 2);
    assert!(hub.contains(a));
    hub.handle(a, Event::Failed);
    hub.publish("p");
    assert_eq!(hub.handle(a, Event::Writable), Some(Action::Nothing));
    assert_eq!(hub.handle(b, Event::Writable), Some(Action::Write(Frame::Text("p".to_string()))));
    assert!(hub.leave(a));
    assert!(!hub.contains(a));
    assert_eq!(hub.len(), 1);
    assert_eq!(hub.phase(b), Some(Phase::Open));
}

#[test]
fn two_clients_receive_two_samples_and_the_malformed_line_none() {
    let mut relay = Relay::new(5, Policy::Block);
    let mut ingest = Ingest::new();
    let one = relay.accept(true).unwrap();
    let two = relay.accept(true).unwrap();
    let lines = ["1,2,3", "a,b", "4,5,6"];
    let mut emitted = 0;
    for (k, line) in lines.iter().enumerate() {
        let mut records = read_records(line);
        assert_eq!(records.len(), 1);
        let fields = match records.remove(0) {
            Record::Fields(fields) => fields,
            other => panic!("line {} gave {:?}", k, other),
        };
        let elapsed = 1_000_000_000 * (k as u64 + 1);
        match ingest.record(elapsed, &parsed_fields(&fields)) {
            Some(sample) => {
                emitted += 1;
                assert_eq!(relay.offer(wire_text(&sample)), Offer::Accepted);
            }
            None => assert_eq!(k, 1),
        }
        while relay.dispatch() {}
    }
    assert_eq!(emitted, 2);
    for peer in [one, two] {
        let texts = drain_texts(&mut relay, peer);
        assert_eq!(texts.len(), 2);
        let first = from_wire(&texts[0]);
        let second = from_wire(&texts[1]);
        assert_eq!(first.stamp, 1_000_000_000);
        assert_eq!(first.values, vec![1f64.to_bits(), 2f64.to_bits(), 3f64.to_bits()]);
        assert_eq!(second.stamp, 3_000_000_000);
        assert_eq!(second.values, vec![4f64.to_bits(), 5f64.to_bits(), 6f64.to_bits()]);
    }
}
