//! The status report that the agent publishes, and its wire format: a
//! compact JSON object of three fields.

use crate::json::{
    lemma_quoted_valid_utf8, lemma_string_at_quoted, quote, quoted, read_string, string_at,
};
use crate::text::{
    ascii, holds_at, lemma_all_ascii_valid_utf8, lemma_holds_at_split, matches_at, push_ascii,
    same_bytes, string_of_utf8,
};
use crate::timestamp::{
    lemma_moment_at_text, lemma_moment_text_all_ascii, moment_at, moment_text, Moment, Timestamp,
};
use vstd::prelude::*;
use vstd::string::*;
use vstd::utf8::*;

verus! {

/// What a report says of the device.
#[derive(Clone, Copy, Debug, PartialEq, Eq, Structural)]
pub enum Status {
    /// The device has opened its session.
    Alive,
    /// The device has its session back after losing it.
    Reconnected,
    /// The device is gone: what the broker says in its place.
    Dead,
}

impl Status {
    /// The name of the status on the wire.
    pub open spec fn name(self) -> Seq<u8> {
        match self {
            Status::Alive => ascii("Alive"@),
            Status::Reconnected => ascii("Reconnected"@),
            Status::Dead => ascii("Dead"@),
        }
    }

    /// The name of the status on the wire.
    pub fn as_str(&self) -> (name: &'static str)
        ensures
            is_ascii(name),
            ascii(name@) == self.name(),
    {
        proof {
            reveal_strlit("Alive");
            reveal_strlit("Reconnected");
            reveal_strlit("Dead");
        }
        match self {
            Status::Alive => "Alive",
            Status::Reconnected => "Reconnected",
            Status::Dead => "Dead",
        }
    }

    /// Reads the name of a status at `pos`.
    pub(crate) fn read_at(bytes: &[u8], pos: usize) -> (read: Option<(Status, usize)>)
        ensures
            match read {
                Some((status, behind)) => status_at(bytes@, pos as int) == Some(
                    (status, behind as int),
                ) && behind <= bytes@.len(),
                None => status_at(bytes@, pos as int) is None,
            },
    {
        proof {
            reveal_strlit("Alive");
            reveal_strlit("Reconnected");
            reveal_strlit("Dead");
        }
        if matches_at(bytes, pos, "Alive") {
            Some((Status::Alive, pos + 5))
        } else if matches_at(bytes, pos, "Reconnected") {
            Some((Status::Reconnected, pos + 11))
        } else if matches_at(bytes, pos, "Dead") {
            Some((Status::Dead, pos + 4))
        } else {
            None
        }
    }
}

/// A report as a mathematical value.
pub struct ReportView {
    pub unit_name: Seq<char>,
    pub status: Status,
    pub start_time: Moment,
}

/// What is published of a device: its name, its status, and the time at
/// which its process started.
#[derive(Clone, Debug, PartialEq, Eq)]
pub struct StatusReport {
    pub unit_name: String,
    pub status: Status,
    pub start_time: Timestamp,
}

impl View for StatusReport {
    type V = ReportView;

    open spec fn view(&self) -> ReportView {
        ReportView {
            unit_name: self.unit_name@,
            status: self.status,
            start_time: self.start_time@,
        }
    }
}

impl StatusReport {
    /// The report of the given fields.
    pub fn new(unit_name: String, status: Status, start_time: Timestamp) -> (report: StatusReport)
        ensures
            report.unit_name == unit_name,
            report.status == status,
            report.start_time == start_time,
    {
        StatusReport { unit_name, status, start_time }
    }

    /// The encoded form of the report, which is text in UTF-8 and decodes
    /// to the report again.
    pub fn encode(&self) -> (bytes: Vec<u8>)
        ensures
            bytes@ == wire_bytes(self@),
            valid_utf8(bytes@),
            decoded(bytes@) == Some(self@),
    {
        let mut bytes: Vec<u8> = Vec::new();
        self.write_name(&mut bytes);
        self.write_status(&mut bytes);
        self.write_start_time(&mut bytes);
        proof {
            use_type_invariant(&self.start_time);
            lemma_wire_bytes_valid_utf8(self@);
            lemma_decoded_wire_bytes(self@);
        }
        bytes
    }

    /// Appends the opening of the object and the name of the unit.
    fn write_name(&self, out: &mut Vec<u8>)
        ensures
            final(out)@ == old(out)@ + opening() + quoted(encode_utf8(self.unit_name@)),
    {
        proof {
            reveal_strlit("{\"unit_name\":");
        }
        push_ascii(out, "{\"unit_name\":");
        let mut name = quote(self.unit_name.as_str());
        out.append(&mut name);
    }

    /// Appends the key of the status and its name.
    fn write_status(&self, out: &mut Vec<u8>)
        ensures
            final(out)@ == old(out)@ + status_key() + self.status.name(),
    {
        proof {
            reveal_strlit(",\"status\":\"");
        }
        push_ascii(out, ",\"status\":\"");
        push_ascii(out, self.status.as_str());
    }

    /// Appends the key of the start time, its text, and the closing of the
    /// object.
    fn write_start_time(&self, out: &mut Vec<u8>)
        ensures
            final(out)@ == old(out)@ + start_time_key() + moment_text(self.start_time@)
                + closing(),
    {
        proof {
            reveal_strlit("\",\"start_time\":\"");
            reveal_strlit("\"}");
        }
        push_ascii(out, "\",\"start_time\":\"");
        self.start_time.write_text(out);
        push_ascii(out, "\"}");
    }

    /// The report that `bytes` encode, if they are the encoded form of one.
    pub fn decode(bytes: &[u8]) -> (report: Option<StatusReport>)
        ensures
            match report {
                Some(r) => wire_bytes(r@) == bytes@ && decoded(bytes@) == Some(r@),
                None => decoded(bytes@) is None,
            },
    {
        match read_fields(bytes) {
            Some(report) => {
                let again = report.encode();
                if same_bytes(again.as_slice(), bytes) {
                    proof {
                        lemma_decoded_is_inverse(bytes@, report@);
                    }
                    Some(report)
                } else {
                    proof {
                        lemma_not_encoded(bytes@);
                    }
                    None
                }
            },
            None => {
                proof {
                    lemma_not_encoded(bytes@);
                }
                None
            },
        }
    }
}

/// Reads the start time from its key at `pos` to the end of `bytes`.
fn read_start_time_onward(bytes: &[u8], pos: usize) -> (read: Option<Timestamp>)
    ensures
        match read {
            Some(start_time) => start_time_onward(bytes@, pos as int) == Some(start_time@),
            None => match start_time_onward(bytes@, pos as int) {
                Some(m) => !m.valid(),
                None => true,
            },
        },
{
    proof {
        reveal_strlit("\",\"start_time\":\"");
        reveal_strlit("\"}");
    }
    if !matches_at(bytes, pos, "\",\"start_time\":\"") {
        return None;
    }
    match Timestamp::read_at(bytes, pos + 16) {
        Some((start_time, behind)) => {
            if matches_at(bytes, behind, "\"}") && bytes.len() - behind == 2 {
                Some(start_time)
            } else {
                None
            }
        },
        None => None,
    }
}

/// Reads the status and the start time from the key of the status at `pos`
/// to the end of `bytes`.
fn read_status_onward(bytes: &[u8], pos: usize) -> (read: Option<(Status, Timestamp)>)
    ensures
        match read {
            Some((status, start_time)) => status_onward(bytes@, pos as int) == Some(
                (status, start_time@),
            ),
            None => match status_onward(bytes@, pos as int) {
                Some((_, m)) => !m.valid(),
                None => true,
            },
        },
{
    proof {
        reveal_strlit(",\"status\":\"");
    }
    if !matches_at(bytes, pos, ",\"status\":\"") {
        return None;
    }
    match Status::read_at(bytes, pos + 11) {
        Some((status, behind)) => match read_start_time_onward(bytes, behind) {
            Some(start_time) => Some((status, start_time)),
            None => None,
        },
        None => None,
    }
}

/// Reads the fields of an encoded report from the first byte of `bytes` to
/// the last.
fn read_fields(bytes: &[u8]) -> (read: Option<StatusReport>)
    ensures
        match read {
            Some(report) => fields_of(bytes@) == Some(report@) && report@.start_time.valid(),
            None => match fields_of(bytes@) {
                Some(v) => !v.start_time.valid(),
                None => true,
            },
        },
{
    proof {
        reveal_strlit("{\"unit_name\":");
    }
    if !matches_at(bytes, 0, "{\"unit_name\":") {
        return None;
    }
    let (name, behind) = match read_string(bytes, 13) {
        Some(read) => read,
        None => {
            return None;
        },
    };
    let unit_name = match string_of_utf8(name) {
        Some(text) => text,
        None => {
            return None;
        },
    };
    match read_status_onward(bytes, behind) {
        Some((status, start_time)) => {
            proof {
                use_type_invariant(&start_time);
            }
            Some(StatusReport { unit_name, status, start_time })
        },
        None => None,
    }
}

/// The bytes before the name of the unit.
pub open spec fn opening() -> Seq<u8> {
    ascii("{\"unit_name\":"@)
}

/// The bytes between the name of the unit and the status.
pub open spec fn status_key() -> Seq<u8> {
    ascii(",\"status\":\""@)
}

/// The bytes between the status and the start time.
pub open spec fn start_time_key() -> Seq<u8> {
    ascii("\",\"start_time\":\""@)
}

/// The bytes behind the start time.
pub open spec fn closing() -> Seq<u8> {
    ascii("\"}"@)
}

/// The encoded form of a report: the JSON object
/// `{"unit_name":<string literal>,"status":"<name>","start_time":"<RFC 3339 text>"}`
/// with no space in it, the name of the unit in UTF-8.
pub open spec fn wire_bytes(report: ReportView) -> Seq<u8> {
    opening() + quoted(encode_utf8(report.unit_name)) + status_key() + report.status.name()
        + start_time_key() + moment_text(report.start_time) + closing()
}

/// The status whose name stands at `pos`, and the position behind the name.
pub open spec fn status_at(bytes: Seq<u8>, pos: int) -> Option<(Status, int)> {
    if holds_at(bytes, pos, Status::Alive.name()) {
        Some((Status::Alive, pos + Status::Alive.name().len()))
    } else if holds_at(bytes, pos, Status::Reconnected.name()) {
        Some((Status::Reconnected, pos + Status::Reconnected.name().len()))
    } else if holds_at(bytes, pos, Status::Dead.name()) {
        Some((Status::Dead, pos + Status::Dead.name().len()))
    } else {
        None
    }
}

/// The start time that `bytes` give from the key of the start time at `pos`
/// to their end.
spec fn start_time_onward(bytes: Seq<u8>, pos: int) -> Option<Moment> {
    if holds_at(bytes, pos, start_time_key()) {
        match moment_at(bytes, pos + start_time_key().len()) {
            Some((start_time, behind)) => if holds_at(bytes, behind, closing()) && behind
                + closing().len() == bytes.len() {
                Some(start_time)
            } else {
                None
            },
            None => None,
        }
    } else {
        None
    }
}

/// The status and the start time that `bytes` give from the key of the
/// status at `pos` to their end.
spec fn status_onward(bytes: Seq<u8>, pos: int) -> Option<(Status, Moment)> {
    if holds_at(bytes, pos, status_key()) {
        match status_at(bytes, pos + status_key().len()) {
            Some((status, behind)) => match start_time_onward(bytes, behind) {
                Some(start_time) => Some((status, start_time)),
                None => None,
            },
            None => None,
        }
    } else {
        None
    }
}

/// The fields that `bytes` give when read as an encoded report, from the
/// first byte to the last. The start time need not be a valid moment, and
/// the bytes need not be the encoded form of what was read.
spec fn fields_of(bytes: Seq<u8>) -> Option<ReportView> {
    if holds_at(bytes, 0, opening()) {
        match string_at(bytes, opening().len() as int) {
            Some((name, behind)) => if valid_utf8(name) {
                match status_onward(bytes, behind) {
                    Some((status, start_time)) => Some(
                        ReportView { unit_name: decode_utf8(name), status, start_time },
                    ),
                    None => None,
                }
            } else {
                None
            },
            None => None,
        }
    } else {
        None
    }
}

/// Whether `bytes` are the encoded form of `report`, a report with a valid
/// start time.
pub open spec fn encodes(bytes: Seq<u8>, report: ReportView) -> bool {
    report.start_time.valid() && wire_bytes(report) == bytes
}

/// The report that `bytes` encode: the one whose encoded form they are, if
/// they are the encoded form of any.
pub open spec fn decoded(bytes: Seq<u8>) -> Option<ReportView> {
    if exists|report: ReportView| encodes(bytes, report) {
        Some(choose|report: ReportView| encodes(bytes, report))
    } else {
        None
    }
}

/// The name of a status is read back.
pub proof fn lemma_status_at_name(bytes: Seq<u8>, pos: int, status: Status)
    requires
        holds_at(bytes, pos, status.name()),
    ensures
        status_at(bytes, pos) == Some((status, pos + status.name().len())),
{
    reveal_strlit("Alive");
    reveal_strlit("Reconnected");
    reveal_strlit("Dead");
    assert(bytes[pos] == bytes.subrange(pos, pos + status.name().len())[0]);
    let alive = Status::Alive.name();
    let reconnected = Status::Reconnected.name();
    let dead = Status::Dead.name();
    if holds_at(bytes, pos, alive) {
        assert(bytes[pos] == bytes.subrange(pos, pos + alive.len())[0]);
    }
    if holds_at(bytes, pos, reconnected) {
        assert(bytes[pos] == bytes.subrange(pos, pos + reconnected.len())[0]);
    }
    if holds_at(bytes, pos, dead) {
        assert(bytes[pos] == bytes.subrange(pos, pos + dead.len())[0]);
    }
}

/// Where each part of an encoded report stands in it.
proof fn lemma_wire_layout(report: ReportView)
    ensures
        ({
            let bytes = wire_bytes(report);
            let name = quoted(encode_utf8(report.unit_name));
            let at_name = opening().len() as int;
            let at_status_key = at_name + name.len();
            let at_status = at_status_key + status_key().len();
            let at_time_key = at_status + report.status.name().len();
            let at_time = at_time_key + start_time_key().len();
            let at_closing = at_time + moment_text(report.start_time).len();
            &&& holds_at(bytes, 0, opening())
            &&& holds_at(bytes, at_name, name)
            &&& holds_at(bytes, at_status_key, status_key())
            &&& holds_at(bytes, at_status, report.status.name())
            &&& holds_at(bytes, at_time_key, start_time_key())
            &&& holds_at(bytes, at_time, moment_text(report.start_time))
            &&& holds_at(bytes, at_closing, closing())
            &&& at_closing + closing().len() == bytes.len()
        }),
{
    let bytes = wire_bytes(report);
    let name = quoted(encode_utf8(report.unit_name));
    let status = report.status.name();
    let time = moment_text(report.start_time);
    let before_closing = opening() + name + status_key() + status + start_time_key() + time;
    let before_time = opening() + name + status_key() + status + start_time_key();
    let before_time_key = opening() + name + status_key() + status;
    let before_status = opening() + name + status_key();
    let before_status_key = opening() + name;
    assert(bytes.subrange(0, bytes.len() as int) =~= bytes);
    lemma_holds_at_split(bytes, 0, before_closing, closing());
    lemma_holds_at_split(bytes, 0, before_time, time);
    lemma_holds_at_split(bytes, 0, before_time_key, start_time_key());
    lemma_holds_at_split(bytes, 0, before_status, status);
    lemma_holds_at_split(bytes, 0, before_status_key, status_key());
    lemma_holds_at_split(bytes, 0, opening(), name);
}

/// Reading the encoded form of a report gives its fields back.
proof fn lemma_fields_of_wire_bytes(report: ReportView)
    requires
        report.start_time.valid(),
    ensures
        fields_of(wire_bytes(report)) == Some(report),
{
    let bytes = wire_bytes(report);
    let name = encode_utf8(report.unit_name);
    let at_name = opening().len() as int;
    let at_status_key = at_name + quoted(name).len();
    let at_status = at_status_key + status_key().len();
    let at_time_key = at_status + report.status.name().len();
    let at_time = at_time_key + start_time_key().len();
    let at_closing = at_time + moment_text(report.start_time).len();
    lemma_wire_layout(report);
    assert(string_at(bytes, at_name) == Some((name, at_status_key))) by {
        lemma_string_at_quoted(bytes, at_name, name);
    }
    assert(status_at(bytes, at_status) == Some((report.status, at_time_key))) by {
        lemma_status_at_name(bytes, at_status, report.status);
    }
    assert(moment_at(bytes, at_time) == Some((report.start_time, at_closing))) by {
        lemma_moment_at_text(bytes, at_time, report.start_time);
    }
    assert(start_time_onward(bytes, at_time_key) == Some(report.start_time));
    assert(status_onward(bytes, at_status_key) == Some((report.status, report.start_time)));
    assert(valid_utf8(name)) by {
        encode_utf8_valid_utf8(report.unit_name);
    }
    assert(decode_utf8(name) == report.unit_name) by {
        encode_utf8_decode_utf8(report.unit_name);
    }
}

/// Bytes whose fields do not encode to them again are the encoded form of
/// no report.
proof fn lemma_not_encoded(bytes: Seq<u8>)
    requires
        match fields_of(bytes) {
            Some(report) => !report.start_time.valid() || wire_bytes(report) != bytes,
            None => true,
        },
    ensures
        decoded(bytes) is None,
{
    assert forall|report: ReportView| !encodes(bytes, report) by {
        if encodes(bytes, report) {
            lemma_fields_of_wire_bytes(report);
        }
    }
}

/// The encoded form of a report is text in UTF-8.
pub proof fn lemma_wire_bytes_valid_utf8(report: ReportView)
    ensures
        valid_utf8(wire_bytes(report)),
{
    reveal_strlit("{\"unit_name\":");
    reveal_strlit(",\"status\":\"");
    reveal_strlit("\",\"start_time\":\"");
    reveal_strlit("\"}");
    reveal_strlit("Alive");
    reveal_strlit("Reconnected");
    reveal_strlit("Dead");
    let name = quoted(encode_utf8(report.unit_name));
    let status = report.status.name();
    let time = moment_text(report.start_time);
    assert(valid_utf8(opening())) by {
        lemma_all_ascii_valid_utf8(opening());
    }
    assert(valid_utf8(name)) by {
        encode_utf8_valid_utf8(report.unit_name);
        lemma_quoted_valid_utf8(encode_utf8(report.unit_name));
    }
    assert(valid_utf8(status_key())) by {
        lemma_all_ascii_valid_utf8(status_key());
    }
    assert(valid_utf8(status)) by {
        lemma_all_ascii_valid_utf8(status);
    }
    assert(valid_utf8(start_time_key())) by {
        lemma_all_ascii_valid_utf8(start_time_key());
    }
    assert(valid_utf8(time)) by {
        lemma_moment_text_all_ascii(report.start_time);
        lemma_all_ascii_valid_utf8(time);
    }
    assert(valid_utf8(closing())) by {
        lemma_all_ascii_valid_utf8(closing());
    }
    valid_utf8_concat(opening(), name);
    valid_utf8_concat(opening() + name, status_key());
    valid_utf8_concat(opening() + name + status_key(), status);
    valid_utf8_concat(opening() + name + status_key() + status, start_time_key());
    valid_utf8_concat(opening() + name + status_key() + status + start_time_key(), time);
    valid_utf8_concat(
        opening() + name + status_key() + status + start_time_key() + time,
        closing(),
    );
}

/// Two reports with the same encoded form are the same report.
pub proof fn lemma_wire_bytes_injective(first: ReportView, second: ReportView)
    requires
        first.start_time.valid(),
        second.start_time.valid(),
        wire_bytes(first) == wire_bytes(second),
    ensures
        first == second,
{
    lemma_fields_of_wire_bytes(first);
    lemma_fields_of_wire_bytes(second);
}

/// Bytes decode to a report exactly where they are its encoded form.
pub proof fn lemma_decoded_is_inverse(bytes: Seq<u8>, report: ReportView)
    requires
        report.start_time.valid(),
    ensures
        decoded(bytes) == Some(report) <==> wire_bytes(report) == bytes,
{
    if wire_bytes(report) == bytes {
        assert(encodes(bytes, report));
        let chosen = choose|other: ReportView| encodes(bytes, other);
        lemma_wire_bytes_injective(chosen, report);
    }
}

/// Decoding the encoded form of a report gives the report back, equal in
/// its three fields.
pub proof fn lemma_decoded_wire_bytes(report: ReportView)
    requires
        report.start_time.valid(),
    ensures
        decoded(wire_bytes(report)) == Some(report),
{
    lemma_decoded_is_inverse(wire_bytes(report), report);
}

} // verus!
