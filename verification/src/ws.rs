//! The viewer's link to the relay. It opens nothing itself: it says what to
//! do with the socket and whom to tell.

use crate::data::Data;
use crate::text::same_text;
use vstd::prelude::*;
use vstd::string::*;

verus! {

/// What the link is created with.
#[derive(Debug, PartialEq, Eq, Clone)]
pub struct Props {
    /// The address of the relay.
    pub url: String,
}

impl Default for Props {
    /// No address.
    fn default() -> (props: Props)
        ensures
            props.url@ == Seq::<char>::empty(),
    {
        Props { url: String::new() }
    }
}

/// What the link is told.
#[derive(Debug, PartialEq, Eq)]
pub enum Msg {
    /// The socket is open.
    Connected,
    /// A frame came in; it held a sample, or it could not be read as one.
    Reception(Option<Data>),
    /// The viewer wants to send this text; `None` where what it wanted to
    /// send has no text form.
    Emission(Option<String>),
    /// The viewer wants the link to end.
    Disconnect,
    /// The socket closed or failed.
    Lost,
}

/// What has to be done for the link.
#[derive(Debug, PartialEq, Eq)]
pub enum Errand {
    /// Nothing.
    Nothing,
    /// Tell the viewer that the link is up.
    AnnounceConnected,
    /// Tell the viewer that the link is down.
    AnnounceDisconnected,
    /// Cancel the socket, then tell the viewer that the link is down.
    CancelAndAnnounce,
    /// Open the socket to this address; a socket still in use is given up
    /// for it.
    Open(String),
    /// Send this text over the socket.
    Send(String),
    /// Hand this sample to the viewer.
    Deliver(Data),
}

/// What a change of properties asks for.
#[derive(Debug, PartialEq, Eq)]
pub struct Change {
    /// Whether the link has to be drawn again: never, it shows nothing.
    pub render: bool,
    /// What has to be done for the link.
    pub errand: Errand,
}

/// The viewer's link to the relay: the address it was opened to, and
/// whether its socket is in use.
pub struct Model {
    url: String,
    live: bool,
}

/// The link as mathematics.
pub ghost struct LinkModel {
    pub url: Seq<char>,
    pub live: bool,
}

impl View for Model {
    type V = LinkModel;

    closed spec fn view(&self) -> LinkModel {
        LinkModel { url: self.url@, live: self.live }
    }
}

impl Model {
    /// A link to the address in `props`, with its socket being opened.
    pub fn create(props: Props) -> (link: Model)
        ensures
            link@ == (LinkModel { url: props.url@, live: true }),
    {
        Model { url: props.url, live: true }
    }

    /// Points the link to `url`; its socket has to be opened there.
    pub fn connect(&mut self, url: &str)
        ensures
            final(self)@ == (LinkModel { url: url@, live: true }),
    {
        self.url = String::from_str(url);
        self.live = true;
    }

    /// The address the link was opened to.
    pub fn url(&self) -> (url: &str)
        ensures
            url@ == self@.url,
    {
        self.url.as_str()
    }

    /// Whether the link's socket is in use.
    pub fn is_live(&self) -> (live: bool)
        ensures
            live == self@.live,
    {
        self.live
    }

    /// Takes new properties. Where the address differs from the one in use,
    /// the link points to the new one and its socket has to be opened there;
    /// otherwise nothing changes. The link is never drawn again for it.
    pub fn change(&mut self, props: Props) -> (change: Change)
        ensures
            !change.render,
            final(self)@ == (if props.url@ != old(self)@.url {
                LinkModel { url: props.url@, live: true }
            } else {
                old(self)@
            }),
            change.errand == (if props.url@ != old(self)@.url {
                Errand::Open(props.url)
            } else {
                Errand::Nothing
            }),
    {
        let same = same_text(self.url.as_str(), props.url.as_str());
        if !same {
            self.connect(props.url.as_str());
            Change { render: false, errand: Errand::Open(props.url) }
        } else {
            Change { render: false, errand: Errand::Nothing }
        }
    }

    /// Takes a message and says what to do.
    ///
    /// Text goes out over the socket. A sample that came in goes to the
    /// viewer; a frame that held none is dropped. When the link ends by the
    /// viewer's wish, the socket is cancelled and the viewer is told; when it
    /// ends by failure, the socket is gone already and the viewer is told.
    /// To send a text or to end the link takes a socket in use.
    pub fn update(&mut self, msg: Msg) -> (errand: Errand)
        requires
            (msg is Disconnect || msg matches Msg::Emission(Some(_))) ==> old(self)@.live,
        ensures
            final(self)@.url == old(self)@.url,
            final(self)@.live == (old(self)@.live && !(msg is Disconnect || msg is Lost)),
            match msg {
                Msg::Connected => errand is AnnounceConnected,
                Msg::Reception(Some(data)) => errand == Errand::Deliver(data),
                Msg::Reception(None) => errand is Nothing,
                Msg::Emission(Some(text)) => errand == Errand::Send(text),
                Msg::Emission(None) => errand is Nothing,
                Msg::Disconnect => errand is CancelAndAnnounce,
                Msg::Lost => errand is AnnounceDisconnected,
            },
    {
        match msg {
            Msg::Connected => Errand::AnnounceConnected,
            Msg::Reception(Some(data)) => Errand::Deliver(data),
            Msg::Reception(None) => Errand::Nothing,
            Msg::Emission(Some(text)) => Errand::Send(text),
            Msg::Emission(None) => Errand::Nothing,
            Msg::Disconnect => {
                self.live = false;
                Errand::CancelAndAnnounce
            },
            Msg::Lost => {
                self.live = false;
                Errand::AnnounceDisconnected
            },
        }
    }
}

} // verus!
