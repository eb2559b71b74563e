//! The life of a session: what the agent asks of the broker when it starts,
//! and what it publishes in answer to each thing that happens to its
//! connection.

use crate::message::{
    lemma_status_message_decoded, status_message, LastWillRegistration, MessageView, Publish, QoS,
};
use crate::profile::{client_identifier_of, report_of, ConnectionProfile, ProfileView};
use crate::report::{decoded, lemma_wire_bytes_injective, Status};
use vstd::prelude::*;
use vstd::utf8::*;

verus! {

/// The longest silence, in seconds, that the broker bears on the session.
pub const KEEP_ALIVE_SECS: u16 = 5;

/// The pause, in seconds, before each attempt to reconnect.
pub const RECONNECT_DELAY_SECS: u64 = 5;

/// When the transport reconnects by itself, with the pause in seconds
/// before each attempt.
#[derive(Clone, Copy, Debug, PartialEq, Eq, Structural)]
pub enum ReconnectPolicy {
    /// Never.
    Never,
    /// Only once a first connection has stood.
    AfterFirstSuccess(u64),
    /// Always.
    Always(u64),
}

/// What the agent hands to the transport to open its session.
#[derive(Clone, Debug, PartialEq, Eq)]
pub struct SessionOptions {
    pub client_identifier: String,
    pub broker_host: String,
    pub broker_port: u16,
    pub last_will: LastWillRegistration,
    pub keep_alive_secs: u16,
    pub reconnect: ReconnectPolicy,
}

/// Session options as a mathematical value.
pub struct OptionsView {
    pub client_identifier: Seq<char>,
    pub broker_host: Seq<char>,
    pub broker_port: u16,
    pub last_will: MessageView,
    pub keep_alive_secs: u16,
    pub reconnect: ReconnectPolicy,
}

impl View for SessionOptions {
    type V = OptionsView;

    open spec fn view(&self) -> OptionsView {
        OptionsView {
            client_identifier: self.client_identifier@,
            broker_host: self.broker_host@,
            broker_port: self.broker_port,
            last_will: self.last_will@,
            keep_alive_secs: self.keep_alive_secs,
            reconnect: self.reconnect,
        }
    }
}

/// The options with which the session of a profile is opened: the broker of
/// the profile, the client identifier of its device, the last will that
/// reports the device dead, a short keep-alive, and a transport that always
/// reconnects after a fixed pause.
pub open spec fn session_options(profile: ProfileView) -> OptionsView {
    OptionsView {
        client_identifier: client_identifier_of(profile.device_name),
        broker_host: profile.broker_host,
        broker_port: profile.broker_port,
        last_will: status_message(profile, Status::Dead),
        keep_alive_secs: KEEP_ALIVE_SECS,
        reconnect: ReconnectPolicy::Always(RECONNECT_DELAY_SECS),
    }
}

/// Where a session stands.
#[derive(Clone, Copy, Debug, PartialEq, Eq, Structural)]
pub enum Phase {
    /// The session has not been opened yet.
    Unconnected,
    /// The session is open and the connection stands.
    Connected,
    /// The session is open and the connection is lost.
    Disconnected,
}

/// What the transport tells of the connection.
#[derive(Clone, Copy, Debug, PartialEq, Eq, Structural)]
pub enum Notification {
    /// The connection is lost.
    Disconnected,
    /// The connection is back.
    Reconnected,
    /// Anything else.
    Other,
}

/// What can happen to a session.
#[derive(Clone, Copy, Debug, PartialEq, Eq, Structural)]
pub enum Event {
    /// The transport has opened the session.
    SessionOpened,
    /// The transport tells of the connection.
    Notified(Notification),
}

/// What the agent writes to its log on a notification.
#[derive(Clone, Copy, Debug, PartialEq, Eq, Structural)]
pub enum LogLine {
    /// The connection is lost.
    ConnectionLost,
    /// The connection is back.
    ConnectionRestored,
    /// The transport told something that the agent does not act on.
    Unrecognized,
}

/// The phase after an event. Only the opening of the session leads out of
/// `Unconnected`, and nothing leads back to it.
pub open spec fn next_phase(phase: Phase, event: Event) -> Phase {
    match event {
        Event::SessionOpened => if phase is Unconnected {
            Phase::Connected
        } else {
            phase
        },
        Event::Notified(Notification::Disconnected) => if phase is Unconnected {
            phase
        } else {
            Phase::Disconnected
        },
        Event::Notified(Notification::Reconnected) => if phase is Unconnected {
            phase
        } else {
            Phase::Connected
        },
        Event::Notified(Notification::Other) => phase,
    }
}

/// What the agent publishes in answer to an event: that it is alive when
/// its session is first opened, that it has reconnected each time the
/// connection comes back, and else nothing.
pub open spec fn publication(profile: ProfileView, phase: Phase, event: Event) -> Option<
    MessageView,
> {
    match event {
        Event::SessionOpened => if phase is Unconnected {
            Some(status_message(profile, Status::Alive))
        } else {
            None
        },
        Event::Notified(Notification::Reconnected) => Some(
            status_message(profile, Status::Reconnected),
        ),
        Event::Notified(_) => None,
    }
}

/// The line that a notification leaves in the log.
pub open spec fn log_line(notification: Notification) -> LogLine {
    match notification {
        Notification::Disconnected => LogLine::ConnectionLost,
        Notification::Reconnected => LogLine::ConnectionRestored,
        Notification::Other => LogLine::Unrecognized,
    }
}

/// The phase of a session after the given events, in their order, from its
/// beginning.
pub open spec fn phase_after(events: Seq<Event>) -> Phase
    decreases events.len(),
{
    if events.len() == 0 {
        Phase::Unconnected
    } else {
        next_phase(phase_after(events.drop_last()), events.last())
    }
}

/// What the agent publishes in answer to the event of index `i` of the
/// events of a session.
pub open spec fn published_at(profile: ProfileView, events: Seq<Event>, i: int) -> Option<
    MessageView,
> {
    publication(profile, phase_after(events.take(i)), events[i])
}

/// A session is unconnected exactly until it is first opened.
pub proof fn lemma_unconnected_until_opened(events: Seq<Event>)
    ensures
        phase_after(events) is Unconnected <==> forall|j: int|
            0 <= j < events.len() ==> events[j] != Event::SessionOpened,
    decreases events.len(),
{
    if events.len() > 0 {
        let before = events.drop_last();
        lemma_unconnected_until_opened(before);
        assert forall|j: int| 0 <= j < before.len() implies before[j] == events[j] by {}
        if phase_after(events) is Unconnected {
            assert forall|j: int| 0 <= j < events.len() implies events[j]
                != Event::SessionOpened by {
                if j < before.len() {
                    assert(before[j] == events[j]);
                }
            }
        }
    }
}

/// The messages of two different statuses differ.
pub proof fn lemma_status_messages_differ(profile: ProfileView, first: Status, second: Status)
    requires
        profile.start_time.valid(),
        first != second,
    ensures
        status_message(profile, first) != status_message(profile, second),
{
    if status_message(profile, first) == status_message(profile, second) {
        lemma_wire_bytes_injective(report_of(profile, first), report_of(profile, second));
    }
}

/// Every message that the agent publishes in a session is a retained status
/// report on the topic of the profile, delivered at least once, and what it
/// decodes to bears the name of the device and the start time of the
/// profile: the start time never changes within a session.
pub proof fn lemma_start_time_stable(profile: ProfileView, events: Seq<Event>, i: int)
    requires
        profile.start_time.valid(),
        0 <= i < events.len(),
    ensures
        published_at(profile, events, i) matches Some(message) ==> {
            &&& message.topic == profile.topic
            &&& message.qos == QoS::AtLeastOnce
            &&& message.retain
            &&& decoded(message.payload) matches Some(report)
            &&& report.start_time == profile.start_time
            &&& report.unit_name == profile.device_name
            &&& (report.status == Status::Alive || report.status == Status::Reconnected)
        },
{
    lemma_status_message_decoded(profile, Status::Alive);
    lemma_status_message_decoded(profile, Status::Reconnected);
}

/// The agent reports itself alive once in a session and no more: in answer
/// to the first opening of the session.
pub proof fn lemma_alive_once(profile: ProfileView, events: Seq<Event>, i: int)
    requires
        profile.start_time.valid(),
        0 <= i < events.len(),
    ensures
        published_at(profile, events, i) == Some(status_message(profile, Status::Alive)) <==> (
        events[i] == Event::SessionOpened && forall|j: int|
            0 <= j < i ==> events[j] != Event::SessionOpened),
{
    let before = events.take(i);
    lemma_unconnected_until_opened(before);
    lemma_status_messages_differ(profile, Status::Alive, Status::Reconnected);
    assert forall|j: int| 0 <= j < i implies before[j] == events[j] by {}
    if forall|j: int| 0 <= j < i ==> events[j] != Event::SessionOpened {
        assert forall|j: int| 0 <= j < before.len() implies before[j]
            != Event::SessionOpened by {
            assert(before[j] == events[j]);
        }
    }
    if phase_after(before) is Unconnected {
        assert forall|j: int| 0 <= j < i implies events[j] != Event::SessionOpened by {
            assert(before[j] == events[j]);
        }
    }
}

/// The agent reports itself reconnected in answer to each notification that
/// the connection is back, and to nothing else.
pub proof fn lemma_reconnection_reported(profile: ProfileView, events: Seq<Event>, i: int)
    requires
        profile.start_time.valid(),
        0 <= i < events.len(),
    ensures
        published_at(profile, events, i) == Some(status_message(profile, Status::Reconnected))
            <==> events[i] == Event::Notified(Notification::Reconnected),
{
    lemma_status_messages_differ(profile, Status::Alive, Status::Reconnected);
}

/// The agent publishes nothing in answer to a lost connection or to a
/// notification that it does not know.
pub proof fn lemma_quiet_notifications(profile: ProfileView, events: Seq<Event>, i: int)
    requires
        0 <= i < events.len(),
        events[i] == Event::Notified(Notification::Disconnected) || events[i] == Event::Notified(
            Notification::Other,
        ),
    ensures
        published_at(profile, events, i) is None,
{
}

/// What the agent asks of the transport.
pub enum Request {
    /// To open the session with the given options.
    OpenSession(OptionsView),
    /// To publish the given message.
    Publish(MessageView),
}

/// Everything that the agent asks of the transport in a session, in its
/// order: first the opening of the session, then what it publishes in
/// answer to each event.
pub open spec fn requests(profile: ProfileView, events: Seq<Event>) -> Seq<Request>
    decreases events.len(),
{
    if events.len() == 0 {
        seq![Request::OpenSession(session_options(profile))]
    } else {
        let before = requests(profile, events.drop_last());
        match publication(profile, phase_after(events.drop_last()), events.last()) {
            Some(message) => before.push(Request::Publish(message)),
            None => before,
        }
    }
}

/// As long as a session is unconnected, the agent has not reported itself
/// alive; and it never does so twice.
proof fn lemma_alive_at_most_once(profile: ProfileView, events: Seq<Event>)
    requires
        profile.start_time.valid(),
    ensures
        ({
            let asked = requests(profile, events);
            let alive = Request::Publish(status_message(profile, Status::Alive));
            &&& asked.len() >= 1
            &&& asked[0] == Request::OpenSession(session_options(profile))
            &&& forall|k: int| 1 <= k < asked.len() ==> #[trigger] asked[k] is Publish
            &&& phase_after(events) is Unconnected ==> forall|k: int|
                0 <= k < asked.len() ==> #[trigger] asked[k] != alive
            &&& forall|k: int, l: int|
                0 <= k < asked.len() && 0 <= l < asked.len() && #[trigger] asked[k] == alive
                    && #[trigger] asked[l] == alive ==> k == l
        }),
    decreases events.len(),
{
    if events.len() > 0 {
        lemma_alive_at_most_once(profile, events.drop_last());
        lemma_status_messages_differ(profile, Status::Alive, Status::Reconnected);
    }
}

/// The opening of the session, with the last will among its options, is the
/// first thing that the agent asks of the transport: whatever it publishes,
/// it publishes later. And it reports itself alive once at most.
pub proof fn lemma_startup_order(profile: ProfileView, events: Seq<Event>)
    requires
        profile.start_time.valid(),
    ensures
        ({
            let asked = requests(profile, events);
            let alive = Request::Publish(status_message(profile, Status::Alive));
            &&& asked.len() >= 1
            &&& asked[0] matches Request::OpenSession(options)
            &&& options.last_will == status_message(profile, Status::Dead)
            &&& decoded(options.last_will.payload) == Some(report_of(profile, Status::Dead))
            &&& forall|k: int| 1 <= k < asked.len() ==> #[trigger] asked[k] is Publish
            &&& forall|k: int, l: int|
                0 <= k < asked.len() && 0 <= l < asked.len() && #[trigger] asked[k] == alive
                    && #[trigger] asked[l] == alive ==> k == l
        }),
{
    lemma_alive_at_most_once(profile, events);
    lemma_status_message_decoded(profile, Status::Dead);
}

/// What the agent does on a notification.
#[derive(Clone, Debug, PartialEq, Eq)]
pub struct Reaction {
    pub log: LogLine,
    pub publish: Option<Publish>,
}

/// A session manager as a mathematical value.
pub struct SessionView {
    pub profile: ProfileView,
    pub phase: Phase,
}

/// The keeper of a session: it holds the profile and the phase, and nothing
/// else. What the device last said of itself is with the broker.
#[derive(Debug)]
pub struct SessionManager {
    profile: ConnectionProfile,
    phase: Phase,
}

impl View for SessionManager {
    type V = SessionView;

    closed spec fn view(&self) -> SessionView {
        SessionView { profile: self.profile@, phase: self.phase }
    }
}

impl SessionManager {
    /// Begins the session of a profile: the manager of the session, not yet
    /// connected, and the options to open it with, the last will among them.
    pub fn begin(profile: ConnectionProfile) -> (started: (SessionManager, SessionOptions))
        ensures
            started.0@.profile == profile@,
            started.0@.phase == Phase::Unconnected,
            started.1@ == session_options(profile@),
            decoded(started.1.last_will.payload@) == Some(report_of(profile@, Status::Dead)),
            valid_utf8(started.1.last_will.payload@),
            started.1.client_identifier@.len() > 0,
            started.1.client_identifier@[0] != ' ',
    {
        let options = SessionOptions {
            client_identifier: profile.client_identifier(),
            broker_host: profile.broker_host.clone(),
            broker_port: profile.broker_port,
            last_will: LastWillRegistration::build(&profile),
            keep_alive_secs: KEEP_ALIVE_SECS,
            reconnect: ReconnectPolicy::Always(RECONNECT_DELAY_SECS),
        };
        (SessionManager { profile, phase: Phase::Unconnected }, options)
    }

    /// The profile of the session.
    pub fn profile(&self) -> (profile: &ConnectionProfile)
        ensures
            profile@ == self@.profile,
    {
        &self.profile
    }

    /// The phase of the session.
    pub fn phase(&self) -> (phase: Phase)
        ensures
            phase == self@.phase,
    {
        self.phase
    }

    /// Takes note that the session is open. The first time, the session is
    /// connected and the agent is to report itself alive; after that,
    /// nothing changes and nothing is to be published.
    pub fn session_opened(&mut self) -> (announcement: Option<Publish>)
        ensures
            final(self)@.profile == old(self)@.profile,
            final(self)@.phase == next_phase(old(self)@.phase, Event::SessionOpened),
            match announcement {
                Some(message) => publication(
                    old(self)@.profile,
                    old(self)@.phase,
                    Event::SessionOpened,
                ) == Some(message@),
                None => publication(old(self)@.profile, old(self)@.phase, Event::SessionOpened)
                    is None,
            },
    {
        match self.phase {
            Phase::Unconnected => {
                self.phase = Phase::Connected;
                Some(Publish::of_status(&self.profile, Status::Alive))
            },
            _ => None,
        }
    }

    /// Answers a notification of the transport: a line for the log, and for
    /// a connection that is back the report that the device has
    /// reconnected.
    pub fn handle_notification(&mut self, notification: Notification) -> (reaction: Reaction)
        ensures
            final(self)@.profile == old(self)@.profile,
            final(self)@.phase == next_phase(old(self)@.phase, Event::Notified(notification)),
            reaction.log == log_line(notification),
            match reaction.publish {
                Some(message) => publication(
                    old(self)@.profile,
                    old(self)@.phase,
                    Event::Notified(notification),
                ) == Some(message@),
                None => publication(
                    old(self)@.profile,
                    old(self)@.phase,
                    Event::Notified(notification),
                ) is None,
            },
    {
        let unconnected = match self.phase {
            Phase::Unconnected => true,
            _ => false,
        };
        match notification {
            Notification::Disconnected => {
                if !unconnected {
                    self.phase = Phase::Disconnected;
                }
                Reaction { log: LogLine::ConnectionLost, publish: None }
            },
            Notification::Reconnected => {
                if !unconnected {
                    self.phase = Phase::Connected;
                }
                Reaction {
                    log: LogLine::ConnectionRestored,
                    publish: Some(Publish::of_status(&self.profile, Status::Reconnected)),
                }
            },
            Notification::Other => Reaction { log: LogLine::Unrecognized, publish: None },
        }
    }

    /// Answers an event of the session, whichever it is: the session takes
    /// its next phase, and what is to be published is given.
    pub fn handle_event(&mut self, event: Event) -> (message: Option<Publish>)
        ensures
            final(self)@.profile == old(self)@.profile,
            final(self)@.phase == next_phase(old(self)@.phase, event),
            match message {
                Some(published) => publication(old(self)@.profile, old(self)@.phase, event)
                    == Some(published@),
                None => publication(old(self)@.profile, old(self)@.phase, event) is None,
            },
    {
        match event {
            Event::SessionOpened => self.session_opened(),
            Event::Notified(notification) => self.handle_notification(notification).publish,
        }
    }
}

} // verus!
