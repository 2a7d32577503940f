use sample_relay::data::Data;
use sample_relay::ws::{Change, Errand, Model, Msg, Props};

fn link_to(url: &str) -> Model {
    Model::create(Props { url: url.to_string() })
}

#[test]
fn default_properties_name_no_address() {
    assert_eq!(Props::default(), Props { url: String::new() });
}

#[test]
fn link_reconnects_only_to_a_new_address() {
    let mut link = link_to("ws://127.0.0.1:9001");
    assert_eq!(link.url(), "ws://127.0.0.1:9001");
    assert!(link.is_live());
    assert_eq!(
        link.change(Props { url: "ws://127.0.0.1:9001".to_string() }),
        Change { render: false, errand: Errand::Nothing }
    );
    assert_eq!(
        link.change(Props { url: "ws://127.0.0.1:9002".to_string() }),
        Change { render: false, errand: Errand::Open("ws://127.0.0.1:9002".to_string()) }
    );
    assert_eq!(link.url(), "ws://127.0.0.1:9002");
    link.update(Msg::Lost);
    assert!(!link.is_live());
    assert_eq!(
        link.change(Props { url: "ws://127.0.0.1:9002".to_string() }),
        Change { render: false, errand: Errand::Nothing }
    );
    assert!(!link.is_live());
    assert_eq!(
        link.change(Props { url: "ws://127.0.0.1:9003".to_string() }),
        Change { render: false, errand: Errand::Open("ws://127.0.0.1:9003".to_string()) }
    );
    assert!(link.is_live());
}

#[test]
fn connect_points_the_link_elsewhere() {
    let mut link = link_to("ws://a");
    link.update(Msg::Lost);
    link.connect("ws://b");
    assert_eq!(link.url(), "ws://b");
    assert!(link.is_live());
}

#[test]
fn link_sends_text_over_its_socket() {
    let mut link = link_to("ws://h");
    assert_eq!(link.update(Msg::Connected), Errand::AnnounceConnected);
    assert_eq!(link.update(Msg::Emission(Some("hi".to_string()))), Errand::Send("hi".to_string()));
    assert_eq!(link.update(Msg::Emission(None)), Errand::Nothing);
    assert_eq!(link.update(Msg::Lost), Errand::AnnounceDisconnected);
    assert!(!link.is_live());
    assert_eq!(link.update(Msg::Emission(None)), Errand::Nothing);
}

#[test]
fn link_delivers_samples_and_drops_unreadable_frames() {
    let mut link = link_to("ws://h");
    let data = Data { stamp: 1, values: vec![2] };
    assert_eq!(link.update(Msg::Reception(Some(data.clone()))), Errand::Deliver(data));
    assert_eq!(link.update(Msg::Reception(None)), Errand::Nothing);
    assert!(link.is_live());
}

#[test]
fn disconnect_cancels_the_socket() {
    let mut link = link_to("ws://h");
    assert_eq!(link.update(Msg::Disconnect), Errand::CancelAndAnnounce);
    assert!(!link.is_live());
    assert_eq!(link.url(), "ws://h");
    assert_eq!(link.update(Msg::Lost), Errand::AnnounceDisconnected);
    assert!(!link.is_live());
}
