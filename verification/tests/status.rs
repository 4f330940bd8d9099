use aivpn_client::status::{
    handle_recording_ack, handle_recording_complete, handle_recording_failed,
    handle_recording_status, initial_status_at, mark_recording_stop_requested,
    print_local_status, read_local_status, recording_ack_at, recording_complete_at,
    recording_failed_at, recording_status_at, reset_local_status, session_tag, status_headline,
    stop_requested_at, timestamp_ms, RecordingLocalStatus,
};

fn text(s: &str) -> Option<String> {
    Some(s.to_string())
}

const SESSION: [u8; 16] = [0x0a, 0xff, 0x00, 0x5c, 1, 2, 3, 4, 5, 6, 7, 8, 9, 10, 11, 12];

#[test]
fn timestamps_are_cut_to_64_bits() {
    assert_eq!(timestamp_ms(None), 0);
    assert_eq!(timestamp_ms(Some(1_700_000_000_123)), 1_700_000_000_123);
    assert_eq!(timestamp_ms(Some((1u128 << 64) + 5)), 5);
}

#[test]
fn initial_status_knows_nothing() {
    let expected = RecordingLocalStatus {
        can_record: None,
        state: "idle".to_string(),
        service: None,
        message: text("Recording access not checked yet"),
        mask_id: None,
        confidence: None,
        updated_at_ms: 42,
    };
    assert_eq!(initial_status_at(42), expected);
    let mut now = reset_local_status();
    assert!(now.updated_at_ms > 1_600_000_000_000);
    now.updated_at_ms = 42;
    assert_eq!(now, expected);
    assert_eq!(status_headline(&now), "Recording status is not available yet");
}

#[test]
fn reports_from_the_server() {
    let active = recording_status_at(true, Some("netflix"), 1);
    assert_eq!(
        active,
        RecordingLocalStatus {
            can_record: Some(true),
            state: "recording".to_string(),
            service: text("netflix"),
            message: text("Recording is active for 'netflix'"),
            mask_id: None,
            confidence: None,
            updated_at_ms: 1,
        }
    );
    assert_eq!(status_headline(&active), "Recording is active");
    let idle = recording_status_at(true, None, 1);
    assert_eq!(idle.state, "idle");
    assert_eq!(idle.message, text("Recording is available for this key"));
    assert_eq!(status_headline(&idle), "Recording is available");
    let denied = recording_status_at(false, None, 1);
    assert_eq!(denied.message, text("This key is not allowed to record masks"));
    assert_eq!(status_headline(&denied), "Current key cannot record masks");
    let odd = recording_status_at(false, Some("tv"), 1);
    assert_eq!(odd.message, text("This key is not allowed to record masks"));
    assert_eq!(status_headline(&odd), "Recording is active");
    let mut clocked = handle_recording_status(true, Some("netflix"));
    assert!(clocked.updated_at_ms > 1_600_000_000_000);
    clocked.updated_at_ms = 1;
    assert_eq!(clocked, active);
}

#[test]
fn stop_is_noted() {
    let stop = stop_requested_at(Some("tv"), 9);
    assert_eq!(
        stop,
        RecordingLocalStatus {
            can_record: Some(true),
            state: "stopping".to_string(),
            service: text("tv"),
            message: text("Recording stop requested"),
            mask_id: None,
            confidence: None,
            updated_at_ms: 9,
        }
    );
    assert_eq!(status_headline(&stop), "Recording stop requested");
    let mut clocked = mark_recording_stop_requested(Some("tv"));
    clocked.updated_at_ms = 9;
    assert_eq!(clocked, stop);
    assert_eq!(mark_recording_stop_requested(None).service, None);
}

#[test]
fn session_has_a_short_name() {
    assert_eq!(session_tag(&SESSION), "0aff005c");
}

#[test]
fn service_is_kept_through_the_recording() {
    let report = recording_status_at(true, Some("tv"), 1);
    let started = recording_ack_at(&SESSION, "started", Some(&report), 2);
    assert_eq!(started.session, "0aff005c");
    assert_eq!(
        started.lines,
        vec![
            "Recording started. Use the service normally.",
            "No manual stop needed — recording will finish automatically.",
            "It will analyze the capture once enough traffic is collected or the session goes idle.",
        ]
    );
    let status = started.status.unwrap();
    assert_eq!(
        status,
        RecordingLocalStatus {
            can_record: Some(true),
            state: "recording".to_string(),
            service: text("tv"),
            message: text("Recording started. Use the service normally."),
            mask_id: None,
            confidence: None,
            updated_at_ms: 2,
        }
    );
    let analyzing = recording_ack_at(&SESSION, "analyzing", Some(&status), 3);
    assert_eq!(analyzing.lines, vec!["Recording finished. Server is analyzing traffic..."]);
    let status = analyzing.status.unwrap();
    assert_eq!(status.state, "analyzing");
    assert_eq!(status.service, text("tv"));
    assert_eq!(status.message, text("Recording finished. Server is analyzing traffic."));
    assert_eq!(status_headline(&status), "Server is analyzing the recording");
    let failed = recording_failed_at("too short", "too short", Some(&status), 4);
    assert_eq!(failed.status.service, text("tv"));
}

#[test]
fn other_acknowledgments_are_only_printed() {
    let report = handle_recording_ack(&SESSION, "Started", None);
    assert_eq!(report.status, None);
    assert_eq!(report.lines, vec!["Recording status: Started"]);
    let report = handle_recording_ack(&SESSION, "started", None);
    assert_eq!(report.status.unwrap().service, None);
}

#[test]
fn completion_is_reported() {
    let bits = 0.875f32.to_bits();
    let report = recording_complete_at("tv", "mask-1", bits, "0.88", 5);
    assert_eq!(
        report.status,
        RecordingLocalStatus {
            can_record: Some(true),
            state: "success".to_string(),
            service: text("tv"),
            message: text("Mask generated and tested"),
            mask_id: text("mask-1"),
            confidence: Some(bits),
            updated_at_ms: 5,
        }
    );
    assert_eq!(
        report.lines,
        vec![
            "",
            "✅ Mask generated and tested!",
            "",
            "   Mask ID:     mask-1",
            "   Service:     tv",
            "   Confidence:  0.88",
            "",
            "   Broadcasting to all clients...",
        ]
    );
    let mut clocked = handle_recording_complete("tv", "mask-1", bits, "0.88");
    clocked.status.updated_at_ms = 5;
    assert_eq!(clocked.status, report.status);
    assert_eq!(clocked.lines, report.lines);
}

#[test]
fn failure_is_reported() {
    let previous = recording_status_at(true, Some("tv"), 1);
    let report = recording_failed_at("No traffic", "no traffic", Some(&previous), 6);
    assert_eq!(
        report.status,
        RecordingLocalStatus {
            can_record: Some(true),
            state: "failed".to_string(),
            service: text("tv"),
            message: text("No traffic"),
            mask_id: None,
            confidence: None,
            updated_at_ms: 6,
        }
    );
    assert_eq!(
        report.lines,
        vec![
            "",
            "❌ Recording failed!",
            "   Reason: No traffic",
            "",
            "   Tips:",
            "   - Use the service for at least 1 minute",
            "   - Ensure active traffic (not idle)",
            "   - Need at least 500 packets captured",
        ]
    );
    assert_eq!(handle_recording_failed("No traffic", None).status.can_record, None);
}

#[test]
fn failure_for_want_of_rights_revokes() {
    let previous = recording_status_at(true, Some("tv"), 1);
    for reason in [
        "recording-admin",
        "Key lacks the Recording-Admin role",
        "RECORDING-ADMIN required",
        "Schlüssel ohne RECORDING-ADMIN",
    ] {
        let report = handle_recording_failed(reason, Some(&previous));
        assert_eq!(report.status.can_record, Some(false), "{reason}");
        assert_eq!(report.status.message, text(reason));
    }
    for reason in ["recording admin", "ecording-admin", "recording-admi", ""] {
        let report = handle_recording_failed(reason, Some(&previous));
        assert_eq!(report.status.can_record, Some(true), "{reason}");
    }
}

#[test]
fn status_is_shown() {
    let done = recording_complete_at("tv", "mask-1", 1, "0.88", 5).status;
    assert_eq!(
        print_local_status(&done, "0.88"),
        vec![
            "Mask recorded successfully",
            "Service: tv",
            "Mask ID: mask-1",
            "Confidence: 0.88",
            "Status: Mask generated and tested",
        ]
    );
    let mut idle = recording_status_at(true, None, 5);
    idle.message = None;
    assert_eq!(print_local_status(&idle, "unused"), vec!["Recording is available"]);
    let failed = recording_failed_at("x", "x", None, 5).status;
    assert_eq!(print_local_status(&failed, ""), vec!["Recording failed", "Status: x"]);
}

#[test]
fn first_readable_status_counts() {
    let a = recording_status_at(true, None, 1);
    let b = recording_status_at(true, None, 2);
    assert_eq!(read_local_status(vec![Some(a.clone()), Some(b.clone())]), Some(a));
    assert_eq!(read_local_status(vec![None, Some(b.clone())]), Some(b));
    assert_eq!(read_local_status(vec![None, None]), None);
    assert_eq!(read_local_status(vec![]), None);
}

#[test]
fn letter_case_of_the_reason_does_not_matter() {
    let previous = recording_status_at(true, None, 1);
    let mention = "recording-admin";
    for i in 0..mention.len() {
        let mixed: String = mention
            .chars()
            .enumerate()
            .map(|(k, c)| if k == i { c.to_ascii_uppercase() } else { c })
            .collect();
        let reason = format!("<{mixed}>");
        let report = handle_recording_failed(&reason, Some(&previous));
        assert_eq!(report.status.can_record, Some(false), "{reason}");
    }
}

#[test]
fn written_status_is_read_back() {
    let status = recording_complete_at("tv", "mask-1", 1, "0.88", 5).status;
    let stale = recording_status_at(false, None, 1);
    // Both places were written and can be read; the first alone was written; the
    // first cannot be read.
    assert_eq!(
        read_local_status(vec![Some(status.clone()), Some(status.clone())]),
        Some(status.clone())
    );
    assert_eq!(read_local_status(vec![Some(status.clone()), Some(stale)]), Some(status.clone()));
    assert_eq!(read_local_status(vec![None, Some(status.clone())]), Some(status));
}
