//! The messages that carry a status: the report that the agent publishes
//! itself, and the last will that the broker publishes in its place.

use crate::profile::{report_of, ConnectionProfile, ProfileView};
use crate::report::{decoded, lemma_decoded_wire_bytes, wire_bytes, Status};
use vstd::prelude::*;
use vstd::utf8::*;

verus! {

/// How hard the broker tries to deliver a message.
#[derive(Clone, Copy, Debug, PartialEq, Eq, Structural)]
pub enum QoS {
    /// The message may be lost.
    AtMostOnce,
    /// The message arrives, and may arrive more than once.
    AtLeastOnce,
    /// The message arrives once.
    ExactlyOnce,
}

/// A message as a mathematical value.
pub struct MessageView {
    pub topic: Seq<char>,
    pub qos: QoS,
    pub retain: bool,
    pub payload: Seq<u8>,
}

/// The message that tells the status of the device of a profile: the
/// encoded report on the topic of the profile, delivered at least once and
/// retained, so that who subscribes later still learns the last status.
pub open spec fn status_message(profile: ProfileView, status: Status) -> MessageView {
    MessageView {
        topic: profile.topic,
        qos: QoS::AtLeastOnce,
        retain: true,
        payload: wire_bytes(report_of(profile, status)),
    }
}

/// The payload of a status message decodes to the report on the device of
/// the profile, with the status told and the start time of the profile.
pub proof fn lemma_status_message_decoded(profile: ProfileView, status: Status)
    requires
        profile.start_time.valid(),
    ensures
        decoded(status_message(profile, status).payload) == Some(report_of(profile, status)),
{
    lemma_decoded_wire_bytes(report_of(profile, status));
}

/// A message for the agent to publish.
#[derive(Clone, Debug, PartialEq, Eq)]
pub struct Publish {
    pub topic: String,
    pub qos: QoS,
    pub retain: bool,
    pub payload: Vec<u8>,
}

impl View for Publish {
    type V = MessageView;

    open spec fn view(&self) -> MessageView {
        MessageView {
            topic: self.topic@,
            qos: self.qos,
            retain: self.retain,
            payload: self.payload@,
        }
    }
}

impl Publish {
    /// The message that tells the given status of the device of a profile.
    pub fn of_status(profile: &ConnectionProfile, status: Status) -> (message: Publish)
        ensures
            message@ == status_message(profile@, status),
            decoded(message.payload@) == Some(report_of(profile@, status)),
            valid_utf8(message.payload@),
    {
        proof {
            use_type_invariant(&profile.start_time);
            lemma_status_message_decoded(profile@, status);
        }
        Publish {
            topic: profile.topic.clone(),
            qos: QoS::AtLeastOnce,
            retain: true,
            payload: profile.report(status).encode(),
        }
    }
}

/// The message that the broker is to publish when the agent's connection
/// ends without a clean disconnect. It is handed over when the session is
/// opened, and is the broker's from then on.
#[derive(Clone, Debug, PartialEq, Eq)]
pub struct LastWillRegistration {
    pub topic: String,
    pub payload: Vec<u8>,
    pub qos: QoS,
    pub retain: bool,
}

impl View for LastWillRegistration {
    type V = MessageView;

    open spec fn view(&self) -> MessageView {
        MessageView {
            topic: self.topic@,
            qos: self.qos,
            retain: self.retain,
            payload: self.payload@,
        }
    }
}

impl LastWillRegistration {
    /// The last will of the device of a profile: the report that it is dead,
    /// with the start time of the profile, on the topic of the profile,
    /// delivered at least once and retained.
    pub fn build(profile: &ConnectionProfile) -> (will: LastWillRegistration)
        ensures
            will@ == status_message(profile@, Status::Dead),
            decoded(will.payload@) == Some(report_of(profile@, Status::Dead)),
            will.qos == QoS::AtLeastOnce,
            will.retain,
            valid_utf8(will.payload@),
    {
        proof {
            use_type_invariant(&profile.start_time);
            lemma_status_message_decoded(profile@, Status::Dead);
        }
        LastWillRegistration {
            topic: profile.topic.clone(),
            payload: profile.report(Status::Dead).encode(),
            qos: QoS::AtLeastOnce,
            retain: true,
        }
    }
}

} // verus!
