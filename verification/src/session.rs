//! The state of one session of the form: the credential that the user typed
//! last and the document that was parsed last. The session takes the events
//! of the user interface one by one; what it answers to each is what the
//! interface is to be told.

use crate::credential::{is_usable, is_usable_spec};
use crate::document::{document_of, parse, ParsedDocument, ParsedDocumentView};
use vstd::prelude::*;

verus! {

/// What the user interface reports to the session.
#[derive(Debug)]
pub enum Event {
    /// The user edited the credential, which now reads `new_token`.
    CredentialChanged { new_token: String },
    /// A generation request was answered with `raw_text`.
    GenerationResponseReceived { raw_text: String },
}

/// What an [`Event`] holds, as sequences of characters.
pub enum EventView {
    CredentialChanged { new_token: Seq<char> },
    GenerationResponseReceived { raw_text: Seq<char> },
}

impl View for Event {
    type V = EventView;

    open spec fn view(&self) -> EventView {
        match self {
            Event::CredentialChanged { new_token } => EventView::CredentialChanged {
                new_token: new_token@,
            },
            Event::GenerationResponseReceived { raw_text } => {
                EventView::GenerationResponseReceived { raw_text: raw_text@ }
            },
        }
    }
}

/// What the session reports to the user interface.
#[derive(Debug)]
pub enum Notification {
    /// The generation action is enabled, or it is not.
    ActionEnabledChanged { enabled: bool },
    /// This document is the one to show.
    DocumentParsed { document: ParsedDocument },
}

/// What a [`Notification`] holds, as sequences of characters.
pub enum NotificationView {
    ActionEnabledChanged { enabled: bool },
    DocumentParsed { document: ParsedDocumentView },
}

impl View for Notification {
    type V = NotificationView;

    open spec fn view(&self) -> NotificationView {
        match self {
            Notification::ActionEnabledChanged { enabled } => {
                NotificationView::ActionEnabledChanged { enabled: *enabled }
            },
            Notification::DocumentParsed { document } => NotificationView::DocumentParsed {
                document: document@,
            },
        }
    }
}

/// The state of a session.
#[derive(Debug)]
pub struct Session {
    credential: String,
    document: Option<ParsedDocument>,
}

/// What a [`Session`] holds, as sequences of characters.
pub struct SessionView {
    pub credential: Seq<char>,
    pub document: Option<ParsedDocumentView>,
}

impl View for Session {
    type V = SessionView;

    closed spec fn view(&self) -> SessionView {
        SessionView {
            credential: self.credential@,
            document: match self.document {
                Some(document) => Some(document@),
                None => None,
            },
        }
    }
}

/// The state of a session in which nothing has happened yet.
pub open spec fn initial() -> SessionView {
    SessionView { credential: Seq::empty(), document: None }
}

/// The state that follows `state` when `event` happens. A new credential
/// replaces the old one and leaves the document alone; a response replaces
/// the document and leaves the credential alone.
pub open spec fn next_state(state: SessionView, event: EventView) -> SessionView {
    match event {
        EventView::CredentialChanged { new_token } => SessionView {
            credential: new_token,
            document: state.document,
        },
        EventView::GenerationResponseReceived { raw_text } => SessionView {
            credential: state.credential,
            document: Some(document_of(raw_text)),
        },
    }
}

/// What the user interface is told when `event` happens: after an edit,
/// whether the new credential enables the action; after a response, the
/// document parsed from it.
pub open spec fn notification_for(event: EventView) -> NotificationView {
    match event {
        EventView::CredentialChanged { new_token } => NotificationView::ActionEnabledChanged {
            enabled: is_usable_spec(new_token),
        },
        EventView::GenerationResponseReceived { raw_text } => NotificationView::DocumentParsed {
            document: document_of(raw_text),
        },
    }
}

/// Whether the generation action is enabled in `state`: it is while the
/// credential is usable, whatever else the session holds.
pub open spec fn action_enabled_in(state: SessionView) -> bool {
    is_usable_spec(state.credential)
}

/// The action is not enabled at the start. After an edit it is enabled
/// exactly when the user interface was told so, and a response changes
/// nothing about it.
pub proof fn lemma_enablement_follows_credential(state: SessionView, event: EventView)
    ensures
        !action_enabled_in(initial()),
        (match event {
            EventView::CredentialChanged { new_token } => notification_for(event)
                == NotificationView::ActionEnabledChanged {
                enabled: action_enabled_in(next_state(state, event)),
            },
            EventView::GenerationResponseReceived { raw_text } => action_enabled_in(
                next_state(state, event),
            ) == action_enabled_in(state),
        }),
{
}

impl Default for Session {
    fn default() -> (session: Session)
        ensures
            session@ == initial(),
    {
        Session::new()
    }
}

impl Session {
    /// A session in which nothing has happened yet. The action is not
    /// enabled in it.
    pub fn new() -> (session: Session)
        ensures
            session@ == initial(),
    {
        Session { credential: String::new(), document: None }
    }

    /// Takes one event, moves to the state that follows, and returns what
    /// the user interface is to be told.
    pub fn handle(&mut self, event: Event) -> (notification: Notification)
        ensures
            final(self)@ == next_state(old(self)@, event@),
            notification@ == notification_for(event@),
    {
        match event {
            Event::CredentialChanged { new_token } => {
                let enabled = self.credential_changed(new_token);
                Notification::ActionEnabledChanged { enabled }
            },
            Event::GenerationResponseReceived { raw_text } => {
                let document = self.generation_response_received(raw_text.as_str()).clone();
                Notification::DocumentParsed { document }
            },
        }
    }

    /// The user edited the credential: `new_token` replaces the one held so
    /// far. Returns whether the action is enabled from now on.
    pub fn credential_changed(&mut self, new_token: String) -> (enabled: bool)
        ensures
            final(self)@.credential == new_token@,
            final(self)@.document == old(self)@.document,
            enabled == is_usable_spec(new_token@),
    {
        let enabled = is_usable(new_token.as_str());
        self.credential = new_token;
        enabled
    }

    /// A generation response arrived: the document parsed from `raw_text`
    /// replaces the one held so far. Returns that document.
    pub fn generation_response_received(&mut self, raw_text: &str) -> (document: &ParsedDocument)
        ensures
            final(self)@.credential == old(self)@.credential,
            final(self)@.document == Some(document_of(raw_text@)),
            document@ == document_of(raw_text@),
    {
        self.document = Some(parse(raw_text));
        self.document.as_ref().unwrap()
    }

    /// Whether the generation action is enabled.
    pub fn action_enabled(&self) -> (enabled: bool)
        ensures
            enabled == action_enabled_in(self@),
    {
        is_usable(self.credential.as_str())
    }

    /// The credential that the user typed last.
    pub fn credential(&self) -> (token: &str)
        ensures
            token@ == self@.credential,
    {
        self.credential.as_str()
    }

    /// The document that was parsed last, if any was.
    pub fn document(&self) -> (document: Option<&ParsedDocument>)
        ensures
            (match document {
                Some(shown) => self@.document == Some(shown@),
                None => self@.document is None,
            }),
    {
        self.document.as_ref()
    }
}

} // verus!
