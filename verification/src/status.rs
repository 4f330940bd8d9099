//! The status of a recording, as the client keeps it for the user.
//!
//! Each message from the server gives a new status and a few lines to print. The
//! time at which a status was made is part of it; functions that read the clock
//! have a counterpart that is given the time, and say what they return whatever
//! the clock shows.

use std::time::UNIX_EPOCH;
use vstd::prelude::*;
use crate::files;
use crate::text::{self, contains, digit_of, str_eq, to_lowercase};

verus! {

// ---------------------------------------------------------------------------
// Time
// ---------------------------------------------------------------------------

/// `SystemTime::elapsed`, called on `UNIX_EPOCH`, gives the time that has passed
/// since then, here in milliseconds; nothing if the clock stands before it. What
/// the clock shows is not known beforehand.
#[verifier::external_body]
fn millis_since_epoch() -> (millis: Option<u128>) {
    match UNIX_EPOCH.elapsed() {
        Ok(passed) => Some(passed.as_millis()),
        Err(_) => None,
    }
}

/// A time in milliseconds as it stands in a status: its lower 64 bits, and zero
/// for a clock that stands before the epoch.
pub open spec fn cut_to_64_bits(millis: Option<u128>) -> int {
    match millis {
        Some(ms) => ms as int % 0x1_0000_0000_0000_0000,
        None => 0,
    }
}

/// Whether the timestamp is one that was read from the clock.
pub closed spec fn read_from_clock(timestamp: u64) -> bool {
    exists|millis: Option<u128>|
        #[trigger] call_ensures(millis_since_epoch, (), millis) && timestamp == cut_to_64_bits(
            millis,
        )
}

/// A time in milliseconds as it stands in a status.
pub fn timestamp_ms(millis: Option<u128>) -> (timestamp: u64)
    ensures
        timestamp == cut_to_64_bits(millis),
{
    match millis {
        Some(ms) => {
            assert(ms as u64 == ms % 0x1_0000_0000_0000_0000) by (bit_vector);
            ms as u64
        },
        None => 0,
    }
}

/// The time now, as it stands in a status.
fn current_timestamp_ms() -> (timestamp: u64)
    ensures
        read_from_clock(timestamp),
        exists|millis: Option<u128>|
            #[trigger] call_ensures(millis_since_epoch, (), millis) && timestamp == match millis {
                Some(ms) => ms as int % 0x1_0000_0000_0000_0000,
                None => 0int,
            },
{
    timestamp_ms(millis_since_epoch())
}

// ---------------------------------------------------------------------------
// The status
// ---------------------------------------------------------------------------

/// The status of a recording.
#[derive(Debug, PartialEq, Eq)]
pub struct RecordingLocalStatus {
    pub can_record: Option<bool>,
    pub state: String,
    pub service: Option<String>,
    pub message: Option<String>,
    pub mask_id: Option<String>,
    /// The confidence, a 32-bit floating-point number, as its bits.
    pub confidence: Option<u32>,
    pub updated_at_ms: u64,
}

/// A status with its texts as sequences of characters.
#[verifier::ext_equal]
pub struct StatusView {
    pub can_record: Option<bool>,
    pub state: Seq<char>,
    pub service: Option<Seq<char>>,
    pub message: Option<Seq<char>>,
    pub mask_id: Option<Seq<char>>,
    pub confidence: Option<u32>,
    pub updated_at_ms: u64,
}

/// The text that an optional string holds.
pub open spec fn string_text(s: Option<String>) -> Option<Seq<char>> {
    match s {
        Some(t) => Some(t@),
        None => None,
    }
}

/// The text that an optional string slice holds.
pub open spec fn str_text(s: Option<&str>) -> Option<Seq<char>> {
    match s {
        Some(t) => Some(t@),
        None => None,
    }
}

impl View for RecordingLocalStatus {
    type V = StatusView;

    open spec fn view(&self) -> StatusView {
        StatusView {
            can_record: self.can_record,
            state: self.state@,
            service: string_text(self.service),
            message: string_text(self.message),
            mask_id: string_text(self.mask_id),
            confidence: self.confidence,
            updated_at_ms: self.updated_at_ms,
        }
    }
}

impl Clone for RecordingLocalStatus {
    fn clone(&self) -> (status: RecordingLocalStatus)
        ensures
            status@ == self@,
    {
        RecordingLocalStatus {
            can_record: self.can_record,
            state: self.state.clone(),
            service: self.service.clone(),
            message: self.message.clone(),
            mask_id: self.mask_id.clone(),
            confidence: self.confidence,
            updated_at_ms: self.updated_at_ms,
        }
    }
}

/// A copy of an optional text.
fn copied(s: Option<&str>) -> (copy: Option<String>)
    ensures
        string_text(copy) == str_text(s),
{
    match s {
        Some(t) => Some(t.to_string()),
        None => None,
    }
}

/// What an earlier status says of the service.
pub open spec fn known_service(previous: Option<StatusView>) -> Option<Seq<char>> {
    match previous {
        Some(status) => status.service,
        None => None,
    }
}

/// What an earlier status says of the permission to record.
pub open spec fn known_permission(previous: Option<StatusView>) -> Option<bool> {
    match previous {
        Some(status) => status.can_record,
        None => None,
    }
}

/// The status that a reference points to, if there is one.
pub open spec fn status_view(status: Option<&RecordingLocalStatus>) -> Option<StatusView> {
    match status {
        Some(s) => Some(s@),
        None => None,
    }
}

/// What an earlier status says of the service.
fn service_of(previous: Option<&RecordingLocalStatus>) -> (service: Option<String>)
    ensures
        string_text(service) == known_service(status_view(previous)),
{
    match previous {
        Some(status) => match &status.service {
            Some(s) => Some(s.clone()),
            None => None,
        },
        None => None,
    }
}

/// What an earlier status says of the permission to record.
fn permission_of(previous: Option<&RecordingLocalStatus>) -> (can_record: Option<bool>)
    ensures
        can_record == known_permission(status_view(previous)),
{
    match previous {
        Some(status) => status.can_record,
        None => None,
    }
}

// ---------------------------------------------------------------------------
// Before anything is known
// ---------------------------------------------------------------------------

/// The status before the server has said anything.
pub open spec fn initial_status(now: u64) -> StatusView {
    StatusView {
        can_record: None,
        state: "idle"@,
        service: None,
        message: Some("Recording access not checked yet"@),
        mask_id: None,
        confidence: None,
        updated_at_ms: now,
    }
}

/// The status before the server has said anything, made at the given time.
pub fn initial_status_at(now: u64) -> (status: RecordingLocalStatus)
    ensures
        status@ == initial_status(now),
{
    RecordingLocalStatus {
        can_record: None,
        state: "idle".to_string(),
        service: None,
        message: Some("Recording access not checked yet".to_string()),
        mask_id: None,
        confidence: None,
        updated_at_ms: now,
    }
}

impl Default for RecordingLocalStatus {
    fn default() -> (status: RecordingLocalStatus)
        ensures
            status@ == initial_status(status.updated_at_ms),
            read_from_clock(status.updated_at_ms),
    {
        initial_status_at(current_timestamp_ms())
    }
}

/// The status to start over with.
pub fn reset_local_status() -> (status: RecordingLocalStatus)
    ensures
        status@ == initial_status(status.updated_at_ms),
        read_from_clock(status.updated_at_ms),
{
    RecordingLocalStatus::default()
}

// ---------------------------------------------------------------------------
// Reports from the server
// ---------------------------------------------------------------------------

/// What the user is told about the permission to record and the recording.
pub open spec fn report_message(can_record: bool, service: Option<Seq<char>>) -> Seq<char> {
    if can_record {
        match service {
            Some(s) => "Recording is active for '"@ + s + "'"@,
            None => "Recording is available for this key"@,
        }
    } else {
        "This key is not allowed to record masks"@
    }
}

/// The status after the server has said whether the key may record, and which
/// service is being recorded, if any.
pub open spec fn report_status(
    can_record: bool,
    service: Option<Seq<char>>,
    now: u64,
) -> StatusView {
    StatusView {
        can_record: Some(can_record),
        state: if service is Some {
            "recording"@
        } else {
            "idle"@
        },
        service,
        message: Some(report_message(can_record, service)),
        mask_id: None,
        confidence: None,
        updated_at_ms: now,
    }
}

/// The status after the server has reported, made at the given time.
pub fn recording_status_at(can_record: bool, active_service: Option<&str>, now: u64) -> (status:
    RecordingLocalStatus)
    ensures
        status@ == report_status(can_record, str_text(active_service), now),
{
    let message = if can_record {
        match active_service {
            Some(service) => {
                let mut m = "Recording is active for '".to_string();
                m.append(service);
                m.append("'");
                m
            },
            None => "Recording is available for this key".to_string(),
        }
    } else {
        "This key is not allowed to record masks".to_string()
    };
    let state = if active_service.is_some() {
        "recording".to_string()
    } else {
        "idle".to_string()
    };
    RecordingLocalStatus {
        can_record: Some(can_record),
        state,
        service: copied(active_service),
        message: Some(message),
        mask_id: None,
        confidence: None,
        updated_at_ms: now,
    }
}

/// The status after the server has reported.
pub fn handle_recording_status(can_record: bool, active_service: Option<&str>) -> (status:
    RecordingLocalStatus)
    ensures
        status@ == report_status(can_record, str_text(active_service), status.updated_at_ms),
        read_from_clock(status.updated_at_ms),
{
    recording_status_at(can_record, active_service, current_timestamp_ms())
}

// ---------------------------------------------------------------------------
// Asking for a stop
// ---------------------------------------------------------------------------

/// The status after the user has asked to stop the recording.
pub open spec fn stop_status(service: Option<Seq<char>>, now: u64) -> StatusView {
    StatusView {
        can_record: Some(true),
        state: "stopping"@,
        service,
        message: Some("Recording stop requested"@),
        mask_id: None,
        confidence: None,
        updated_at_ms: now,
    }
}

/// The status after the user has asked to stop, made at the given time.
pub fn stop_requested_at(service: Option<&str>, now: u64) -> (status: RecordingLocalStatus)
    ensures
        status@ == stop_status(str_text(service), now),
{
    RecordingLocalStatus {
        can_record: Some(true),
        state: "stopping".to_string(),
        service: copied(service),
        message: Some("Recording stop requested".to_string()),
        mask_id: None,
        confidence: None,
        updated_at_ms: now,
    }
}

/// The status after the user has asked to stop.
pub fn mark_recording_stop_requested(service: Option<&str>) -> (status: RecordingLocalStatus)
    ensures
        status@ == stop_status(str_text(service), status.updated_at_ms),
        read_from_clock(status.updated_at_ms),
{
    stop_requested_at(service, current_timestamp_ms())
}

// ---------------------------------------------------------------------------
// Acknowledgments
// ---------------------------------------------------------------------------

/// A byte as two hexadecimal digits.
pub open spec fn hex_byte(b: u8) -> Seq<char> {
    seq![text::digit_char((b / 16) as nat), text::digit_char((b % 16) as nat)]
}

/// The first four bytes of a session's id in hexadecimal, by which it is referred
/// to.
pub open spec fn session_text(session_id: Seq<u8>) -> Seq<char> {
    hex_byte(session_id[0]) + hex_byte(session_id[1]) + hex_byte(session_id[2]) + hex_byte(
        session_id[3],
    )
}

/// The short name of a session.
pub fn session_tag(session_id: &[u8; 16]) -> (tag: String)
    ensures
        tag@ == session_text(session_id@),
{
    let mut tag = String::new();
    for i in 0..4usize
        invariant
            tag@ == session_text(session_id@).take(2 * i),
    {
        let b: u8 = session_id[i];
        tag.push(digit_of((b / 16) as u32));
        tag.push(digit_of((b % 16) as u32));
        assert(tag@ =~= session_text(session_id@).take(2 * (i + 1)));
    }
    assert(tag@ =~= session_text(session_id@));
    tag
}

/// The status after the server has acknowledged; none for an acknowledgment that
/// does not change it. The service is taken over from the status before.
pub open spec fn ack_status(
    ack: Seq<char>,
    previous: Option<StatusView>,
    now: u64,
) -> Option<StatusView> {
    if ack == "started"@ {
        Some(
            StatusView {
                can_record: Some(true),
                state: "recording"@,
                service: known_service(previous),
                message: Some("Recording started. Use the service normally."@),
                mask_id: None,
                confidence: None,
                updated_at_ms: now,
            },
        )
    } else if ack == "analyzing"@ {
        Some(
            StatusView {
                can_record: Some(true),
                state: "analyzing"@,
                service: known_service(previous),
                message: Some("Recording finished. Server is analyzing traffic."@),
                mask_id: None,
                confidence: None,
                updated_at_ms: now,
            },
        )
    } else {
        None
    }
}

/// What is printed of an acknowledgment.
pub open spec fn ack_lines(ack: Seq<char>) -> Seq<Seq<char>> {
    if ack == "started"@ {
        seq![
            "Recording started. Use the service normally."@,
            "No manual stop needed — recording will finish automatically."@,
            "It will analyze the capture once enough traffic is collected or the session goes idle."@,
        ]
    } else if ack == "analyzing"@ {
        seq!["Recording finished. Server is analyzing traffic..."@]
    } else {
        seq!["Recording status: "@ + ack]
    }
}

/// What follows from an acknowledgment.
pub struct AckReport {
    /// The short name of the session that it is about.
    pub session: String,
    /// The new status, if there is one.
    pub status: Option<RecordingLocalStatus>,
    /// The lines to print.
    pub lines: Vec<String>,
}

/// The status that an optional status stands for.
pub open spec fn owned_status_view(status: Option<RecordingLocalStatus>) -> Option<StatusView> {
    match status {
        Some(s) => Some(s@),
        None => None,
    }
}

/// What follows from an acknowledgment that comes at the given time, where
/// `previous` is the status before it.
pub fn recording_ack_at(
    session_id: &[u8; 16],
    ack: &str,
    previous: Option<&RecordingLocalStatus>,
    now: u64,
) -> (report: AckReport)
    ensures
        report.session@ == session_text(session_id@),
        owned_status_view(report.status) == ack_status(ack@, status_view(previous), now),
        text::texts(report.lines@) == ack_lines(ack@),
{
    let session = session_tag(session_id);
    let mut lines: Vec<String> = Vec::new();
    let mut status: Option<RecordingLocalStatus> = None;
    if str_eq(ack, "started") {
        status = Some(
            RecordingLocalStatus {
                can_record: Some(true),
                state: "recording".to_string(),
                service: service_of(previous),
                message: Some("Recording started. Use the service normally.".to_string()),
                mask_id: None,
                confidence: None,
                updated_at_ms: now,
            },
        );
        lines.push("Recording started. Use the service normally.".to_string());
        lines.push("No manual stop needed — recording will finish automatically.".to_string());
        lines.push(
            "It will analyze the capture once enough traffic is collected or the session goes idle.".to_string(),
        );
    } else if str_eq(ack, "analyzing") {
        status = Some(
            RecordingLocalStatus {
                can_record: Some(true),
                state: "analyzing".to_string(),
                service: service_of(previous),
                message: Some("Recording finished. Server is analyzing traffic.".to_string()),
                mask_id: None,
                confidence: None,
                updated_at_ms: now,
            },
        );
        lines.push("Recording finished. Server is analyzing traffic...".to_string());
    } else {
        let mut line = "Recording status: ".to_string();
        line.append(ack);
        lines.push(line);
    }
    assert(text::texts(lines@) =~= ack_lines(ack@));
    AckReport { session, status, lines }
}

/// What follows from an acknowledgment from the server.
pub fn handle_recording_ack(
    session_id: &[u8; 16],
    status: &str,
    previous: Option<&RecordingLocalStatus>,
) -> (report: AckReport)
    ensures
        report.session@ == session_text(session_id@),
        owned_status_view(report.status) == ack_status(
            status@,
            status_view(previous),
            match report.status {
                Some(s) => s.updated_at_ms,
                None => 0,
            },
        ),
        report.status matches Some(s) ==> read_from_clock(s.updated_at_ms),
        text::texts(report.lines@) == ack_lines(status@),
{
    recording_ack_at(session_id, status, previous, current_timestamp_ms())
}

// ---------------------------------------------------------------------------
// Completion
// ---------------------------------------------------------------------------

/// The status after a mask was made.
pub open spec fn success_status(
    service: Seq<char>,
    mask_id: Seq<char>,
    confidence: u32,
    now: u64,
) -> StatusView {
    StatusView {
        can_record: Some(true),
        state: "success"@,
        service: Some(service),
        message: Some("Mask generated and tested"@),
        mask_id: Some(mask_id),
        confidence: Some(confidence),
        updated_at_ms: now,
    }
}

/// What is printed after a mask was made.
pub open spec fn success_lines(
    service: Seq<char>,
    mask_id: Seq<char>,
    confidence_text: Seq<char>,
) -> Seq<Seq<char>> {
    seq![
        ""@,
        "✅ Mask generated and tested!"@,
        ""@,
        "   Mask ID:     "@ + mask_id,
        "   Service:     "@ + service,
        "   Confidence:  "@ + confidence_text,
        ""@,
        "   Broadcasting to all clients..."@,
    ]
}

/// A new status, and the lines to print.
pub struct Report {
    pub status: RecordingLocalStatus,
    pub lines: Vec<String>,
}

/// The label with the value behind it.
fn labelled_line(label: &str, value: &str) -> (line: String)
    ensures
        line@ == label@ + value@,
{
    let mut line = label.to_string();
    line.append(value);
    line
}

/// What follows from a completed recording, at the given time. `confidence` is
/// given by its bits, and once more as the text to print.
pub fn recording_complete_at(
    service: &str,
    mask_id: &str,
    confidence: u32,
    confidence_text: &str,
    now: u64,
) -> (report: Report)
    ensures
        report.status@ == success_status(service@, mask_id@, confidence, now),
        text::texts(report.lines@) == success_lines(service@, mask_id@, confidence_text@),
{
    let status = RecordingLocalStatus {
        can_record: Some(true),
        state: "success".to_string(),
        service: Some(service.to_string()),
        message: Some("Mask generated and tested".to_string()),
        mask_id: Some(mask_id.to_string()),
        confidence: Some(confidence),
        updated_at_ms: now,
    };
    let mut lines: Vec<String> = Vec::new();
    lines.push("".to_string());
    lines.push("✅ Mask generated and tested!".to_string());
    lines.push("".to_string());
    lines.push(labelled_line("   Mask ID:     ", mask_id));
    lines.push(labelled_line("   Service:     ", service));
    lines.push(labelled_line("   Confidence:  ", confidence_text));
    lines.push("".to_string());
    lines.push("   Broadcasting to all clients...".to_string());
    assert(text::texts(lines@) =~= success_lines(service@, mask_id@, confidence_text@));
    Report { status, lines }
}

/// What follows from a completed recording.
pub fn handle_recording_complete(
    service: &str,
    mask_id: &str,
    confidence: u32,
    confidence_text: &str,
) -> (report: Report)
    ensures
        report.status@ == success_status(
            service@,
            mask_id@,
            confidence,
            report.status.updated_at_ms,
        ),
        read_from_clock(report.status.updated_at_ms),
        text::texts(report.lines@) == success_lines(service@, mask_id@, confidence_text@),
{
    recording_complete_at(service, mask_id, confidence, confidence_text, current_timestamp_ms())
}

// ---------------------------------------------------------------------------
// Failure
// ---------------------------------------------------------------------------

/// The status after a recording has failed. A reason that speaks, in its
/// lower-case form, of the recording admin means that the key may not record;
/// otherwise what was known of that stays.
pub open spec fn failed_status(
    reason: Seq<char>,
    lowered: Seq<char>,
    previous: Option<StatusView>,
    now: u64,
) -> StatusView {
    StatusView {
        can_record: if text::occurs_in(lowered, "recording-admin"@) {
            Some(false)
        } else {
            known_permission(previous)
        },
        state: "failed"@,
        service: known_service(previous),
        message: Some(reason),
        mask_id: None,
        confidence: None,
        updated_at_ms: now,
    }
}

/// What is printed after a recording has failed.
pub open spec fn failed_lines(reason: Seq<char>) -> Seq<Seq<char>> {
    seq![
        ""@,
        "❌ Recording failed!"@,
        "   Reason: "@ + reason,
        ""@,
        "   Tips:"@,
        "   - Use the service for at least 1 minute"@,
        "   - Ensure active traffic (not idle)"@,
        "   - Need at least 500 packets captured"@,
    ]
}

/// What follows from a failed recording, at the given time, where `lowered` is the
/// lower-case form of the reason and `previous` the status before.
pub fn recording_failed_at(
    reason: &str,
    lowered: &str,
    previous: Option<&RecordingLocalStatus>,
    now: u64,
) -> (report: Report)
    ensures
        report.status@ == failed_status(reason@, lowered@, status_view(previous), now),
        text::texts(report.lines@) == failed_lines(reason@),
{
    let can_record = if contains(lowered, "recording-admin") {
        Some(false)
    } else {
        permission_of(previous)
    };
    let status = RecordingLocalStatus {
        can_record,
        state: "failed".to_string(),
        service: service_of(previous),
        message: Some(reason.to_string()),
        mask_id: None,
        confidence: None,
        updated_at_ms: now,
    };
    let mut lines: Vec<String> = Vec::new();
    lines.push("".to_string());
    lines.push("❌ Recording failed!".to_string());
    lines.push(labelled_line("   Reason: ", reason));
    lines.push("".to_string());
    lines.push("   Tips:".to_string());
    lines.push("   - Use the service for at least 1 minute".to_string());
    lines.push("   - Ensure active traffic (not idle)".to_string());
    lines.push("   - Need at least 500 packets captured".to_string());
    assert(text::texts(lines@) =~= failed_lines(reason@));
    Report { status, lines }
}

/// What follows from a failed recording, where `previous` is the status before.
pub fn handle_recording_failed(
    reason: &str,
    previous: Option<&RecordingLocalStatus>,
) -> (report: Report)
    ensures
        report.status@ == failed_status(
            reason@,
            text::lowercase(reason@),
            status_view(previous),
            report.status.updated_at_ms,
        ),
        vstd::utf8::is_ascii_chars(reason@) ==> report.status@ == failed_status(
            reason@,
            text::ascii_lowered(reason@),
            status_view(previous),
            report.status.updated_at_ms,
        ),
        read_from_clock(report.status.updated_at_ms),
        text::texts(report.lines@) == failed_lines(reason@),
{
    let lowered = to_lowercase(reason);
    recording_failed_at(reason, lowered.as_str(), previous, current_timestamp_ms())
}

// ---------------------------------------------------------------------------
// Showing the status
// ---------------------------------------------------------------------------

/// The headline of a status.
pub open spec fn headline(status: StatusView) -> Seq<char> {
    if status.state == "recording"@ {
        "Recording is active"@
    } else if status.state == "stopping"@ {
        "Recording stop requested"@
    } else if status.state == "analyzing"@ {
        "Server is analyzing the recording"@
    } else if status.state == "success"@ {
        "Mask recorded successfully"@
    } else if status.state == "failed"@ {
        "Recording failed"@
    } else {
        match status.can_record {
            Some(true) => "Recording is available"@,
            Some(false) => "Current key cannot record masks"@,
            None => "Recording status is not available yet"@,
        }
    }
}

/// A line with a label, if there is a value for it.
pub open spec fn labelled(label: Seq<char>, value: Option<Seq<char>>) -> Seq<Seq<char>> {
    match value {
        Some(v) => seq![label + v],
        None => Seq::empty(),
    }
}

/// The lines that show a status. `confidence_text` is the confidence as text.
pub open spec fn status_lines(status: StatusView, confidence_text: Seq<char>) -> Seq<Seq<char>> {
    seq![headline(status)] + labelled("Service: "@, status.service) + labelled(
        "Mask ID: "@,
        status.mask_id,
    ) + labelled(
        "Confidence: "@,
        if status.confidence is Some {
            Some(confidence_text)
        } else {
            None
        },
    ) + labelled("Status: "@, status.message)
}

/// The headline of a status.
pub fn status_headline(status: &RecordingLocalStatus) -> (line: String)
    ensures
        line@ == headline(status@),
{
    let state = status.state.as_str();
    let line = if str_eq(state, "recording") {
        "Recording is active"
    } else if str_eq(state, "stopping") {
        "Recording stop requested"
    } else if str_eq(state, "analyzing") {
        "Server is analyzing the recording"
    } else if str_eq(state, "success") {
        "Mask recorded successfully"
    } else if str_eq(state, "failed") {
        "Recording failed"
    } else {
        match status.can_record {
            Some(true) => "Recording is available",
            Some(false) => "Current key cannot record masks",
            None => "Recording status is not available yet",
        }
    };
    line.to_string()
}

/// Adds a line with a label, if there is a value for it.
fn push_labelled(lines: &mut Vec<String>, label: &str, value: &Option<String>)
    ensures
        text::texts(final(lines)@) == text::texts(old(lines)@) + labelled(
            label@,
            string_text(*value),
        ),
{
    match value {
        Some(v) => {
            lines.push(labelled_line(label, v.as_str()));
        },
        None => {},
    }
    assert(text::texts(lines@) =~= text::texts(old(lines)@) + labelled(
        label@,
        string_text(*value),
    ));
}

/// The lines to print that show a status. `confidence_text` is what to print for
/// the confidence, if there is one.
pub fn print_local_status(status: &RecordingLocalStatus, confidence_text: &str) -> (lines: Vec<
    String,
>)
    ensures
        text::texts(lines@) == status_lines(status@, confidence_text@),
{
    let mut lines: Vec<String> = Vec::new();
    lines.push(status_headline(status));
    assert(text::texts(lines@) =~= seq![headline(status@)]);
    push_labelled(&mut lines, "Service: ", &status.service);
    push_labelled(&mut lines, "Mask ID: ", &status.mask_id);
    let confidence = match status.confidence {
        Some(_) => Some(confidence_text.to_string()),
        None => None,
    };
    push_labelled(&mut lines, "Confidence: ", &confidence);
    push_labelled(&mut lines, "Status: ", &status.message);
    assert(text::texts(lines@) =~= status_lines(status@, confidence_text@));
    lines
}

// ---------------------------------------------------------------------------
// Reading the status
// ---------------------------------------------------------------------------

/// The first of the things that were found.
pub open spec fn first_found<T>(found: Seq<Option<T>>) -> Option<T>
    decreases found.len(),
{
    if found.len() == 0 {
        None
    } else if found[0] is Some {
        found[0]
    } else {
        first_found(found.drop_first())
    }
}

/// What is found in a place: what its file holds, parsed, or nothing if the file
/// cannot be read.
pub open spec fn found_in(
    files: Map<files::PathView, Seq<char>>,
    readable: spec_fn(files::PathView) -> bool,
    parse: spec_fn(Seq<char>) -> Option<RecordingLocalStatus>,
    place: files::PathView,
) -> Option<RecordingLocalStatus> {
    if readable(place) && files.dom().contains(place) {
        parse(files[place])
    } else {
        None
    }
}

/// What is found in each of the places where a status is kept.
pub open spec fn found_everywhere(
    host: files::Host,
    files: Map<files::PathView, Seq<char>>,
    readable: spec_fn(files::PathView) -> bool,
    parse: spec_fn(Seq<char>) -> Option<RecordingLocalStatus>,
) -> Seq<Option<RecordingLocalStatus>> {
    files::status_paths(host).map_values(
        |place: files::PathView| found_in(files, readable, parse, place),
    )
}

/// The first status that was found, in the order of the places where it is kept.
/// `found` gives for each of them the status that stands there, if one does.
pub fn read_local_status(found: Vec<Option<RecordingLocalStatus>>) -> (status: Option<
    RecordingLocalStatus,
>)
    ensures
        status == first_found(found@),
{
    let ghost all = found@;
    let mut rest = found;
    let ghost mut k: int = 0;
    assert(all.skip(0) =~= all);
    while rest.len() > 0
        invariant
            0 <= k <= all.len(),
            all == found@,
            rest@ == all.skip(k),
            first_found(all) == first_found(all.skip(k)),
        decreases rest@.len(),
    {
        let first = rest.remove(0);
        assert(first == all[k]);
        assert(rest@ =~= all.skip(k + 1));
        assert(all.skip(k).drop_first() =~= all.skip(k + 1));
        if first.is_some() {
            return first;
        }
        proof {
            k = k + 1;
        }
    }
    None
}

// ---------------------------------------------------------------------------
// What holds of all of them
// ---------------------------------------------------------------------------

/// The names of the states are told apart.
proof fn lemma_states_differ()
    ensures
        "idle"@ != "recording"@,
        "idle"@ != "stopping"@,
        "idle"@ != "analyzing"@,
        "idle"@ != "success"@,
        "idle"@ != "failed"@,
        "stopping"@ != "recording"@,
        "analyzing"@ != "recording"@,
        "analyzing"@ != "stopping"@,
        "success"@ != "recording"@,
        "success"@ != "stopping"@,
        "success"@ != "analyzing"@,
        "failed"@ != "recording"@,
        "failed"@ != "stopping"@,
        "failed"@ != "analyzing"@,
        "failed"@ != "success"@,
        "analyzing"@ != "started"@,
{
    reveal_strlit("idle");
    reveal_strlit("recording");
    reveal_strlit("stopping");
    reveal_strlit("analyzing");
    reveal_strlit("success");
    reveal_strlit("failed");
    reveal_strlit("started");
    assert("idle"@[0] == 'i');
    assert("recording"@[0] == 'r');
    assert("stopping"@[1] == 't');
    assert("stopping"@[0] == 's');
    assert("analyzing"@[0] == 'a');
    assert("success"@[1] == 'u');
    assert("success"@[0] == 's');
    assert("failed"@[0] == 'f');
    assert("started"@[0] == 's');
}

/// After a report from the server the user sees that a recording is active if one
/// is, and otherwise whether the key may record.
pub proof fn law_report_is_shown(can_record: bool, service: Option<Seq<char>>, now: u64)
    ensures
        headline(report_status(can_record, service, now)) == (if service is Some {
            "Recording is active"@
        } else if can_record {
            "Recording is available"@
        } else {
            "Current key cannot record masks"@
        }),
{
    lemma_states_differ();
}

/// Every step of a recording has its headline.
pub proof fn law_every_step_is_shown(
    service: Option<Seq<char>>,
    name: Seq<char>,
    mask_id: Seq<char>,
    confidence: u32,
    reason: Seq<char>,
    lowered: Seq<char>,
    previous: Option<StatusView>,
    now: u64,
)
    ensures
        headline(initial_status(now)) == "Recording status is not available yet"@,
        headline(stop_status(service, now)) == "Recording stop requested"@,
        ack_status("started"@, previous, now) matches Some(s) && headline(s)
            == "Recording is active"@,
        ack_status("analyzing"@, previous, now) matches Some(s) && headline(s)
            == "Server is analyzing the recording"@,
        headline(success_status(name, mask_id, confidence, now)) == "Mask recorded successfully"@,
        headline(failed_status(reason, lowered, previous, now)) == "Recording failed"@,
{
    lemma_states_differ();
}

/// The service that is being recorded stays known while the recording goes on,
/// until it is analyzed, and if it fails.
pub proof fn law_service_is_kept(
    ack: Seq<char>,
    reason: Seq<char>,
    lowered: Seq<char>,
    previous: Option<StatusView>,
    now: u64,
)
    ensures
        ack_status(ack, previous, now) matches Some(s) ==> s.service == known_service(previous),
        ack_status(ack, previous, now) is Some <==> (ack == "started"@ || ack == "analyzing"@),
        failed_status(reason, lowered, previous, now).service == known_service(previous),
{
}

/// A failure whose reason is ASCII text and mentions the recording admin, anywhere
/// in it and in whatever mixture of capital and small letters, means that the key may
/// not record.
pub proof fn law_admin_failure_revokes(
    before: Seq<char>,
    mention: Seq<char>,
    after: Seq<char>,
    previous: Option<StatusView>,
    now: u64,
)
    requires
        vstd::utf8::is_ascii_chars(before),
        vstd::utf8::is_ascii_chars(after),
        text::ascii_lowered(mention) == "recording-admin"@,
    ensures
        vstd::utf8::is_ascii_chars(before + mention + after),
        ({
            let reason = before + mention + after;
            failed_status(reason, text::ascii_lowered(reason), previous, now).can_record == Some(
                false,
            )
        }),
{
    let reason = before + mention + after;
    let lowered = text::ascii_lowered(reason);
    let at = before.len() as int;
    assert(mention.len() == text::ascii_lowered(mention).len());
    assert forall|i: int| 0 <= i < mention.len() implies '\0' <= #[trigger] mention[i]
        <= '\u{7f}' by {
        reveal_strlit("recording-admin");
        assert(text::ascii_lowered(mention)[i] == text::ascii_lowercase(mention[i]));
    }
    assert(lowered.subrange(at, at + mention.len()) =~= text::ascii_lowered(mention));
    assert(text::occurs_at(lowered, "recording-admin"@, at));
}

/// Any other failure leaves what was known of the permission as it was.
pub proof fn law_other_failure_keeps_permission(
    reason: Seq<char>,
    lowered: Seq<char>,
    previous: Option<StatusView>,
    now: u64,
)
    requires
        !text::occurs_in(lowered, "recording-admin"@),
    ensures
        failed_status(reason, lowered, previous, now).can_record == known_permission(previous),
{
}

/// The first thing found comes from the first place where anything is.
proof fn lemma_first_found<T>(found: Seq<Option<T>>, k: int)
    requires
        0 <= k < found.len(),
        found[k] is Some,
        forall|j: int| 0 <= j < k ==> #[trigger] found[j] is None,
    ensures
        first_found(found) == found[k],
    decreases k,
{
    if k > 0 {
        let rest = found.drop_first();
        assert forall|j: int| 0 <= j < k - 1 implies #[trigger] rest[j] is None by {
            assert(rest[j] == found[j + 1]);
        }
        lemma_first_found(rest, k - 1);
    }
}

/// Where nothing is anywhere, nothing is found.
proof fn lemma_none_found<T>(found: Seq<Option<T>>)
    requires
        forall|j: int| 0 <= j < found.len() ==> #[trigger] found[j] is None,
    ensures
        first_found(found) is None,
    decreases found.len(),
{
    if found.len() > 0 {
        let rest = found.drop_first();
        assert forall|j: int| 0 <= j < rest.len() implies #[trigger] rest[j] is None by {
            assert(rest[j] == found[j + 1]);
        }
        lemma_none_found(rest);
    }
}

/// A status that was written is what is read: after it was written to its places,
/// whatever the files held before, the status that is read is the one that its JSON
/// parses to, as long as one of the places can be read.
pub proof fn law_written_status_is_read(
    host: files::Host,
    json: Seq<char>,
    before: Map<files::PathView, Seq<char>>,
    readable: spec_fn(files::PathView) -> bool,
    parse: spec_fn(Seq<char>) -> Option<RecordingLocalStatus>,
    place: int,
)
    requires
        0 <= place < files::status_paths(host).len(),
        readable(files::status_paths(host)[place]),
    ensures
        ({
            let after = files::all_performed(before, files::status_files(host, json));
            first_found(found_everywhere(host, after, readable, parse)) == parse(json)
        }),
{
    let after = files::all_performed(before, files::status_files(host, json));
    let paths = files::status_paths(host);
    let found = found_everywhere(host, after, readable, parse);
    assert(found.len() == paths.len());
    assert forall|i: int| 0 <= i < found.len() implies #[trigger] found[i] == (if readable(
        paths[i],
    ) {
        parse(json)
    } else {
        None
    }) by {
        files::law_status_stands_everywhere(host, json, before, i);
    }
    assert(found[place] == parse(json));
    if parse(json) is Some {
        assert(found[0] is Some || found[1] is Some);
        if found[0] is Some {
            lemma_first_found(found, 0);
        } else {
            lemma_first_found(found, 1);
        }
    } else {
        lemma_none_found(found);
    }
}

/// The same where not every place could be written: it is enough that one holds
/// the JSON of a status, and that none in front of it can be read. What the places
/// behind it hold does not matter.
pub proof fn law_status_is_read_from_the_first_place(
    host: files::Host,
    json: Seq<char>,
    after: Map<files::PathView, Seq<char>>,
    readable: spec_fn(files::PathView) -> bool,
    parse: spec_fn(Seq<char>) -> Option<RecordingLocalStatus>,
    place: int,
)
    requires
        0 <= place < files::status_paths(host).len(),
        readable(files::status_paths(host)[place]),
        after.dom().contains(files::status_paths(host)[place]),
        after[files::status_paths(host)[place]] == json,
        parse(json) is Some,
        forall|j: int| 0 <= j < place ==> !readable(#[trigger] files::status_paths(host)[j]),
    ensures
        first_found(found_everywhere(host, after, readable, parse)) == parse(json),
{
    let paths = files::status_paths(host);
    let found = found_everywhere(host, after, readable, parse);
    assert forall|j: int| 0 <= j < place implies #[trigger] found[j] is None by {
        assert(!readable(paths[j]));
    }
    lemma_first_found(found, place);
}

// ---------------------------------------------------------------------------
// What each status holds, and what is shown of it
// ---------------------------------------------------------------------------

/// A status is shown with all of its fields.
pub proof fn law_view_shows_every_field(status: RecordingLocalStatus)
    ensures
        status@.can_record == status.can_record,
        status@.state == status.state@,
        status.service matches Some(s) ==> status@.service == Some(s@),
        status.service is None ==> status@.service is None,
        status.message matches Some(s) ==> status@.message == Some(s@),
        status.message is None ==> status@.message is None,
        status.mask_id matches Some(s) ==> status@.mask_id == Some(s@),
        status.mask_id is None ==> status@.mask_id is None,
        status@.confidence == status.confidence,
        status@.updated_at_ms == status.updated_at_ms,
{
}

/// Optional texts are there, or not, as the strings are.
pub proof fn law_optional_texts(s: Option<&str>, t: Option<String>)
    ensures
        s matches Some(x) ==> str_text(s) == Some(x@),
        s is None ==> str_text(s) is None,
        t matches Some(x) ==> string_text(t) == Some(x@),
        t is None ==> string_text(t) is None,
{
}

/// An optional status is there, or not, in whatever form it is given.
pub proof fn law_optional_statuses(
    a: Option<&RecordingLocalStatus>,
    b: Option<RecordingLocalStatus>,
)
    ensures
        a matches Some(x) ==> status_view(a) == Some(x@),
        a is None ==> status_view(a) is None,
        b matches Some(x) ==> owned_status_view(b) == Some(x@),
        b is None ==> owned_status_view(b) is None,
{
}

/// A time that fits into 64 bits is kept; every full round of 64 bits drops out; and
/// a clock that stands before the epoch counts as zero.
pub proof fn law_time_is_kept_up_to_64_bits(ms: u128)
    ensures
        cut_to_64_bits(None) == 0,
        0 <= cut_to_64_bits(Some(ms)) <= u64::MAX,
        ms <= u64::MAX ==> cut_to_64_bits(Some(ms)) == ms,
        ms > u64::MAX ==> cut_to_64_bits(Some(ms)) == cut_to_64_bits(
            Some((ms - 0x1_0000_0000_0000_0000) as u128),
        ),
{
}

/// A timestamp that was read from the clock is a reading of it, cut to 64 bits.
proof fn law_timestamp_is_a_reading(timestamp: u64)
    requires
        read_from_clock(timestamp),
    ensures
        exists|millis: Option<u128>|
            #[trigger] call_ensures(millis_since_epoch, (), millis) && timestamp == match millis {
                Some(ms) => ms as int % 0x1_0000_0000_0000_0000,
                None => 0int,
            },
{
}

/// After a reset nothing is known: no permission, service, mask or confidence.
pub proof fn law_reset_forgets_everything(now: u64)
    ensures
        initial_status(now).can_record is None,
        initial_status(now).state == "idle"@,
        initial_status(now).service is None,
        initial_status(now).message == Some("Recording access not checked yet"@),
        initial_status(now).mask_id is None,
        initial_status(now).confidence is None,
        initial_status(now).updated_at_ms == now,
{
}

/// A report passes on the permission and the service as the server gave them, the
/// state is that of a recording exactly if there is a service, and nothing is left of
/// an earlier mask.
pub proof fn law_report_passes_on_what_was_said(
    can_record: bool,
    service: Option<Seq<char>>,
    now: u64,
)
    ensures
        report_status(can_record, service, now).can_record == Some(can_record),
        report_status(can_record, service, now).service == service,
        service is Some ==> report_status(can_record, service, now).state == "recording"@,
        service is None ==> report_status(can_record, service, now).state == "idle"@,
        report_status(can_record, service, now).mask_id is None,
        report_status(can_record, service, now).confidence is None,
        report_status(can_record, service, now).updated_at_ms == now,
{
}

/// What a report tells the user: that the key is not allowed, whatever else was
/// said; otherwise the service by its name, or that recording is available.
pub proof fn law_report_tells_the_user(service: Seq<char>, any: Option<Seq<char>>, now: u64)
    ensures
        report_status(false, any, now).message == Some("This key is not allowed to record masks"@),
        report_status(true, None, now).message == Some("Recording is available for this key"@),
        report_status(true, Some(service), now).message == Some(
            "Recording is active for '"@ + service + "'"@,
        ),
{
}

/// Asking for a stop keeps the service as given.
pub proof fn law_stop_keeps_the_service(service: Option<Seq<char>>, now: u64)
    ensures
        stop_status(service, now).can_record == Some(true),
        stop_status(service, now).state == "stopping"@,
        stop_status(service, now).service == service,
        stop_status(service, now).message == Some("Recording stop requested"@),
        stop_status(service, now).mask_id is None,
        stop_status(service, now).confidence is None,
        stop_status(service, now).updated_at_ms == now,
{
}

/// Whatever was known before, a key whose recording the server has acknowledged may
/// record, and there is no mask yet. Of what was known only the service is taken
/// over.
pub proof fn law_acknowledged_recording_is_permitted(previous: Option<StatusView>, now: u64)
    ensures
        ack_status("started"@, previous, now) matches Some(s) && s.can_record == Some(true)
            && s.state == "recording"@ && s.mask_id is None && s.confidence is None && s.message
            == Some("Recording started. Use the service normally."@) && s.updated_at_ms == now
            && s.service == (match previous {
            Some(p) => p.service,
            None => None,
        }),
        ack_status("analyzing"@, previous, now) matches Some(s) && s.can_record == Some(true)
            && s.state == "analyzing"@ && s.mask_id is None && s.confidence is None && s.message
            == Some("Recording finished. Server is analyzing traffic."@) && s.updated_at_ms == now
            && s.service == (match previous {
            Some(p) => p.service,
            None => None,
        }),
{
    lemma_states_differ();
}

/// An acknowledgment that is neither of the known ones changes no status, and is
/// printed as it came.
pub proof fn law_unknown_acknowledgment_is_printed(
    ack: Seq<char>,
    previous: Option<StatusView>,
    now: u64,
)
    requires
        ack != "started"@,
        ack != "analyzing"@,
    ensures
        ack_status(ack, previous, now) is None,
        ack_lines(ack).len() == 1,
        ack_lines(ack)[0] == "Recording status: "@ + ack,
{
}

/// What is printed of the known acknowledgments.
pub proof fn law_known_acknowledgments_are_explained()
    ensures
        ack_lines("started"@).len() == 3,
        ack_lines("started"@)[0] == "Recording started. Use the service normally."@,
        ack_lines("started"@)[1]
            == "No manual stop needed — recording will finish automatically."@,
        ack_lines("started"@)[2]
            == "It will analyze the capture once enough traffic is collected or the session goes idle."@,
        ack_lines("analyzing"@).len() == 1,
        ack_lines("analyzing"@)[0] == "Recording finished. Server is analyzing traffic..."@,
{
    lemma_states_differ();
}

/// A session's short name has two small hexadecimal digits for each of the first
/// four bytes of its id, in order, and depends on nothing else.
pub proof fn law_session_name_is_hexadecimal(id: Seq<u8>, k: int)
    requires
        id.len() == 16,
        0 <= k < 4,
    ensures
        session_text(id).len() == 8,
        session_text(id)[2 * k] as int == (if id[k] / 16 < 10 {
            0x30 + id[k] / 16
        } else {
            0x61 + id[k] / 16 - 10
        }),
        session_text(id)[2 * k + 1] as int == (if id[k] % 16 < 10 {
            0x30 + id[k] % 16
        } else {
            0x61 + id[k] % 16 - 10
        }),
{
    let b = id[k];
    let t = session_text(id);
    assert(t.len() == 8);
    assert(t[2 * k] == hex_byte(b)[0]);
    assert(t[2 * k + 1] == hex_byte(b)[1]);
    lemma_hex_byte(b);
}

/// The two digits of a byte.
proof fn lemma_hex_byte(b: u8)
    ensures
        hex_byte(b)[0] as int == (if b / 16 < 10 {
            0x30 + b / 16
        } else {
            0x61 + b / 16 - 10
        }),
        hex_byte(b)[1] as int == (if b % 16 < 10 {
            0x30 + b % 16
        } else {
            0x61 + b % 16 - 10
        }),
{
}

/// A completed recording is stored with its service, its mask and its confidence as
/// they came, and printed with them.
pub proof fn law_completion_passes_on_the_mask(
    service: Seq<char>,
    mask_id: Seq<char>,
    confidence: u32,
    confidence_text: Seq<char>,
    now: u64,
)
    ensures
        success_status(service, mask_id, confidence, now).can_record == Some(true),
        success_status(service, mask_id, confidence, now).state == "success"@,
        success_status(service, mask_id, confidence, now).service == Some(service),
        success_status(service, mask_id, confidence, now).message == Some(
            "Mask generated and tested"@,
        ),
        success_status(service, mask_id, confidence, now).mask_id == Some(mask_id),
        success_status(service, mask_id, confidence, now).confidence == Some(confidence),
        success_status(service, mask_id, confidence, now).updated_at_ms == now,
        success_lines(service, mask_id, confidence_text).len() == 8,
        success_lines(service, mask_id, confidence_text)[0] == ""@,
        success_lines(service, mask_id, confidence_text)[1] == "✅ Mask generated and tested!"@,
        success_lines(service, mask_id, confidence_text)[2] == ""@,
        success_lines(service, mask_id, confidence_text)[3] == "   Mask ID:     "@ + mask_id,
        success_lines(service, mask_id, confidence_text)[4] == "   Service:     "@ + service,
        success_lines(service, mask_id, confidence_text)[5] == "   Confidence:  "@
            + confidence_text,
        success_lines(service, mask_id, confidence_text)[6] == ""@,
        success_lines(service, mask_id, confidence_text)[7] == "   Broadcasting to all clients..."@,
{
}

/// Whatever was known before, a mask and a confidence too, a failed recording has
/// neither. Its message is the reason as it came, and the service is the one that was
/// known.
pub proof fn law_failed_recording_has_no_mask(
    reason: Seq<char>,
    lowered: Seq<char>,
    previous: Option<StatusView>,
    now: u64,
)
    ensures
        failed_status(reason, lowered, previous, now).mask_id is None,
        failed_status(reason, lowered, previous, now).confidence is None,
        failed_status(reason, lowered, previous, now).message == Some(reason),
        failed_status(reason, lowered, previous, now).state == "failed"@,
        failed_status(reason, lowered, previous, now).updated_at_ms == now,
        failed_status(reason, lowered, previous, now).service == (match previous {
            Some(p) => p.service,
            None => None,
        }),
{
}

/// A failure takes the permission away exactly if the lowered reason has the words
/// of the recording admin in it; if not, it is as it was known, or unknown.
pub proof fn law_failure_and_permission(
    reason: Seq<char>,
    lowered: Seq<char>,
    before: Seq<char>,
    after: Seq<char>,
    previous: Option<StatusView>,
    now: u64,
)
    ensures
        lowered == before + "recording-admin"@ + after ==> failed_status(
            reason,
            lowered,
            previous,
            now,
        ).can_record == Some(false),
        (forall|x: Seq<char>, y: Seq<char>| lowered != #[trigger] (x + "recording-admin"@ + y))
            ==> failed_status(reason, lowered, previous, now).can_record == (match previous {
            Some(p) => p.can_record,
            None => None,
        }),
{
    text::law_occurring_is_being_part(lowered, "recording-admin"@);
}

/// A failure is printed with its reason as it came.
pub proof fn law_failure_is_printed_with_its_reason(reason: Seq<char>)
    ensures
        failed_lines(reason).len() == 8,
        failed_lines(reason)[0] == ""@,
        failed_lines(reason)[1] == "❌ Recording failed!"@,
        failed_lines(reason)[2] == "   Reason: "@ + reason,
        failed_lines(reason)[3] == ""@,
        failed_lines(reason)[4] == "   Tips:"@,
        failed_lines(reason)[5] == "   - Use the service for at least 1 minute"@,
        failed_lines(reason)[6] == "   - Ensure active traffic (not idle)"@,
        failed_lines(reason)[7] == "   - Need at least 500 packets captured"@,
{
}

/// The headline goes by the state alone where the state is one of a recording, and
/// by the permission alone where it is any other.
pub proof fn law_headline_goes_by_state_and_permission(status: StatusView)
    ensures
        status.state == "recording"@ ==> headline(status) == "Recording is active"@,
        status.state == "stopping"@ ==> headline(status) == "Recording stop requested"@,
        status.state == "analyzing"@ ==> headline(status) == "Server is analyzing the recording"@,
        status.state == "success"@ ==> headline(status) == "Mask recorded successfully"@,
        status.state == "failed"@ ==> headline(status) == "Recording failed"@,
        status.state != "recording"@ && status.state != "stopping"@ && status.state
            != "analyzing"@ && status.state != "success"@ && status.state != "failed"@ ==> {
            &&& status.can_record == Some(true) ==> headline(status) == "Recording is available"@
            &&& status.can_record == Some(false) ==> headline(status)
                == "Current key cannot record masks"@
            &&& status.can_record is None ==> headline(status)
                == "Recording status is not available yet"@
        },
{
    lemma_states_differ();
}

/// A status is shown under its headline with one line for each thing that is known,
/// service, mask, confidence and message, in that order and each whether or not the
/// others are known.
pub proof fn law_everything_known_is_shown(status: StatusView, confidence_text: Seq<char>)
    ensures
        ({
            let lines = status_lines(status, confidence_text);
            let service = if status.service is Some {
                1int
            } else {
                0
            };
            let mask = if status.mask_id is Some {
                1int
            } else {
                0
            };
            let confidence = if status.confidence is Some {
                1int
            } else {
                0
            };
            let message = if status.message is Some {
                1int
            } else {
                0
            };
            &&& lines.len() == 1 + service + mask + confidence + message
            &&& lines[0] == headline(status)
            &&& status.service matches Some(s) ==> lines[1] == "Service: "@ + s
            &&& status.mask_id matches Some(m) ==> lines[1 + service] == "Mask ID: "@ + m
            &&& status.confidence is Some ==> lines[1 + service + mask] == "Confidence: "@
                + confidence_text
            &&& status.message matches Some(m) ==> lines[1 + service + mask + confidence]
                == "Status: "@ + m
        }),
{
}

/// The status that is read is that of the first place where one was found; none if
/// none was found anywhere.
pub proof fn law_first_found_counts(found: Seq<Option<RecordingLocalStatus>>, k: int)
    requires
        0 <= k <= found.len(),
        forall|j: int| 0 <= j < k ==> #[trigger] found[j] is None,
        k < found.len() ==> found[k] is Some,
    ensures
        first_found(found) == (if k < found.len() {
            found[k]
        } else {
            None
        }),
{
    if k < found.len() {
        lemma_first_found(found, k);
    } else {
        lemma_none_found(found);
    }
}

/// A status that one process wrote is read by any other, on anything but Windows,
/// whoever the users are and whether or not they have runtime directories.
pub proof fn law_status_is_read_by_any_process(
    writer: files::Host,
    reader: files::Host,
    json: Seq<char>,
    before: Map<files::PathView, Seq<char>>,
    readable: spec_fn(files::PathView) -> bool,
    parse: spec_fn(Seq<char>) -> Option<RecordingLocalStatus>,
    place: int,
)
    requires
        writer !is Windows,
        reader !is Windows,
        0 <= place < 2,
        readable(files::status_paths(reader)[place]),
    ensures
        ({
            let after = files::all_performed(before, files::status_files(writer, json));
            first_found(found_everywhere(reader, after, readable, parse)) == parse(json)
        }),
{
    assert(files::status_paths(writer) == files::status_paths(reader));
    law_written_status_is_read(writer, json, before, readable, parse, place);
    let after = files::all_performed(before, files::status_files(writer, json));
    assert(found_everywhere(reader, after, readable, parse) =~= found_everywhere(
        writer,
        after,
        readable,
        parse,
    ));
}

} // verus!
