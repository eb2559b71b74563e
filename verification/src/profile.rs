//! What the agent is told at startup: where the broker is, which device it
//! speaks for, on which topic, and since when the process has run.

use crate::report::{ReportView, Status, StatusReport};
use crate::timestamp::{Moment, Timestamp};
use vstd::prelude::*;
use vstd::string::*;

verus! {

/// A connection profile as a mathematical value.
pub struct ProfileView {
    pub broker_host: Seq<char>,
    pub broker_port: u16,
    pub device_name: Seq<char>,
    pub topic: Seq<char>,
    pub start_time: Moment,
}

/// What is needed to open a session, fixed once at startup. The one topic
/// serves the last will and every status report; the start time is that of
/// the process and goes unchanged into every report.
#[derive(Clone, Debug, PartialEq, Eq)]
pub struct ConnectionProfile {
    pub broker_host: String,
    pub broker_port: u16,
    pub device_name: String,
    pub topic: String,
    pub start_time: Timestamp,
}

impl View for ConnectionProfile {
    type V = ProfileView;

    open spec fn view(&self) -> ProfileView {
        ProfileView {
            broker_host: self.broker_host@,
            broker_port: self.broker_port,
            device_name: self.device_name@,
            topic: self.topic@,
            start_time: self.start_time@,
        }
    }
}

/// The client identifier of a device: a fixed prefix and the name of the
/// device, so that the broker sees the same client after a restart.
pub open spec fn client_identifier_of(device_name: Seq<char>) -> Seq<char> {
    "alive_boi_"@ + device_name
}

/// The report on a device of the given status: it bears the name of the
/// device and the start time of the profile.
pub open spec fn report_of(profile: ProfileView, status: Status) -> ReportView {
    ReportView { unit_name: profile.device_name, status, start_time: profile.start_time }
}

/// A client identifier is not empty and begins with the first letter of
/// the prefix, which is no space.
pub proof fn lemma_client_identifier_shape(device_name: Seq<char>)
    ensures
        client_identifier_of(device_name).len() > 0,
        client_identifier_of(device_name)[0] == 'a',
{
    reveal_strlit("alive_boi_");
}

impl ConnectionProfile {
    /// The profile of the given entries.
    pub fn new(
        broker_host: String,
        broker_port: u16,
        device_name: String,
        topic: String,
        start_time: Timestamp,
    ) -> (profile: ConnectionProfile)
        ensures
            profile.broker_host == broker_host,
            profile.broker_port == broker_port,
            profile.device_name == device_name,
            profile.topic == topic,
            profile.start_time == start_time,
    {
        ConnectionProfile { broker_host, broker_port, device_name, topic, start_time }
    }

    /// The identifier under which the agent presents itself to the broker.
    /// It is not empty and begins with no space, as a transport may ask.
    pub fn client_identifier(&self) -> (identifier: String)
        ensures
            identifier@ == client_identifier_of(self.device_name@),
            identifier@.len() > 0,
            identifier@[0] != ' ',
    {
        proof {
            lemma_client_identifier_shape(self.device_name@);
        }
        let mut identifier = "alive_boi_".to_owned();
        identifier.append(self.device_name.as_str());
        identifier
    }

    /// The report of the given status on the device of this profile.
    pub fn report(&self, status: Status) -> (report: StatusReport)
        ensures
            report@ == report_of(self@, status),
    {
        StatusReport::new(self.device_name.clone(), status, self.start_time)
    }
}

} // verus!
