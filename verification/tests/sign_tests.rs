use xdsign::location::{parse_location_id, LocationSignnerInfo};
use xdsign::progress::{
    finish_plan, opens_second_step, progress_signal, set_progress_event, stopped_event,
    ProgressCounter, ProgressState,
};
use xdsign::sign::{
    enc_from_payload, get_sign_type, handle_results, is_quit_payload, list_all_activities,
    list_course_activities, result_event, sign_event_name, signer_for, trim_quotes, Activity,
    EventPayload, SignKind, SignOutcome, SignerChoice,
};
use xdsign::account::SessionInfo;

#[test]
fn sign_type_names() {
    assert_eq!(get_sign_type(Some(SignKind::Photo)), "photo");
    assert_eq!(get_sign_type(Some(SignKind::Normal)), "normal");
    assert_eq!(get_sign_type(Some(SignKind::QrCode)), "qrcode");
    assert_eq!(get_sign_type(Some(SignKind::Gesture)), "gesture");
    assert_eq!(get_sign_type(Some(SignKind::Location)), "location");
    assert_eq!(get_sign_type(Some(SignKind::Signcode)), "signcode");
    assert_eq!(get_sign_type(Some(SignKind::Unknown)), "unknown");
    assert_eq!(get_sign_type(None), "unknown");
}

#[test]
fn sign_events_and_signers() {
    assert_eq!(sign_event_name(&SignKind::Photo), "sign:photo");
    assert_eq!(sign_event_name(&SignKind::QrCode), "sign:qrcode:enc");
    assert_eq!(sign_event_name(&SignKind::Unknown), "sign:unknown");
    assert_eq!(sign_event_name(&SignKind::Signcode), "sign:signcode");
    assert!(matches!(signer_for(&SignKind::Unknown), SignerChoice::NormalOrRaw));
    assert!(matches!(signer_for(&SignKind::Normal), SignerChoice::NormalOrRaw));
    assert!(matches!(signer_for(&SignKind::Signcode), SignerChoice::GestureOrSigncode));
    assert!(matches!(signer_for(&SignKind::Gesture), SignerChoice::GestureOrSigncode));
    assert!(matches!(signer_for(&SignKind::Location), SignerChoice::Location));
    assert!(matches!(signer_for(&SignKind::QrCode), SignerChoice::QrCode));
    assert!(matches!(signer_for(&SignKind::Photo), SignerChoice::Photo));
}

#[test]
fn payload_handling() {
    assert!(is_quit_payload("\"quit\""));
    assert!(!is_quit_payload("quit"));
    assert!(!is_quit_payload("\"quit\" "));
    assert_eq!(trim_quotes("\"1234\""), "1234");
    assert_eq!(trim_quotes("\"\"ab\"c\"\""), "ab\"c");
    assert_eq!(trim_quotes("\"\"\""), "");
    assert_eq!(trim_quotes("plain"), "plain");
    for s in ["\"x\"", "\"\"", "a\"", "\"\"q", ""] {
        assert_eq!(trim_quotes(s), s.trim_matches(|c| c == '"'));
        // stripping twice changes nothing
        assert_eq!(trim_quotes(&trim_quotes(s)), trim_quotes(s));
    }
    assert_eq!(enc_from_payload("\"ABCDEF\""), Some("ABCDEF".to_string()));
    assert_eq!(enc_from_payload("\"\""), None);
    assert_eq!(enc_from_payload(""), None);
}

#[test]
fn result_events() {
    let ok = result_event("11", &SignOutcome::Susses);
    assert_eq!(ok.name, "sign:susses");
    assert!(matches!(&ok.payload, EventPayload::Uid(u) if u == "11"));
    let fail = result_event("12", &SignOutcome::Fail { msg: "closed".to_string() });
    assert_eq!(fail.name, "sign:fail");
    assert!(matches!(&fail.payload, EventPayload::UidAndMessage(u, m) if u == "12" && m == "closed"));
    let batch = handle_results(&vec![
        ("1".to_string(), SignOutcome::Susses),
        ("2".to_string(), SignOutcome::Fail { msg: "no".to_string() }),
    ]);
    assert_eq!(batch.len(), 2);
    assert_eq!(batch[0].name, "sign:susses");
    assert!(matches!(&batch[1].payload, EventPayload::UidAndMessage(_, m) if m == "no"));
}

#[test]
fn activities_filtering() {
    let acts = vec![
        Activity::RawSign { sign: 1, valid: true },
        Activity::Other,
        Activity::RawSign { sign: 2, valid: false },
        Activity::RawSign { sign: 3, valid: true },
    ];
    assert_eq!(list_course_activities(acts), vec![1, 3]);
    let info = SessionInfo { uid: "u".to_string(), stu_name: "N".to_string(), avatar: "a".to_string() };
    let all = list_all_activities(vec![
        (Activity::RawSign { sign: "s1", valid: true }, vec![info]),
        (Activity::RawSign { sign: "s2", valid: false }, vec![]),
        (Activity::Other, vec![]),
    ]);
    assert_eq!(all.len(), 1);
    assert_eq!(all[0].sign, "s1");
    assert_eq!(all[0].account_pairs[0].uid, "u");
    assert_eq!(all[0].account_pairs[0].name, "N");
}

#[test]
fn location_ids() {
    assert_eq!(parse_location_id("123"), Some(123));
    assert_eq!(parse_location_id("+7"), Some(7));
    assert_eq!(parse_location_id("-42"), Some(-42));
    assert_eq!(parse_location_id("0007"), Some(7));
    assert_eq!(parse_location_id(""), None);
    assert_eq!(parse_location_id("-"), None);
    assert_eq!(parse_location_id("+"), None);
    assert_eq!(parse_location_id("12a"), None);
    assert_eq!(parse_location_id(" 12"), None);
    assert_eq!(parse_location_id("西电"), None);
    assert_eq!(parse_location_id("9223372036854775807"), Some(i64::MAX));
    assert_eq!(parse_location_id("9223372036854775808"), None);
    assert_eq!(parse_location_id("-9223372036854775808"), Some(i64::MIN));
    assert_eq!(parse_location_id("-9223372036854775809"), None);
    assert_eq!(parse_location_id("99999999999999999999x"), None);
    for s in ["1", "-0", "+0", "18446744073709551616", "--1", "1_0", "３"] {
        assert_eq!(parse_location_id(s), s.parse::<i64>().ok());
    }
    let info = LocationSignnerInfo { location_str: Some("12".to_string()) };
    assert_eq!(info.location_str.as_deref().and_then(parse_location_id), Some(12));
}

#[test]
fn progress_reporting() {
    assert_eq!(progress_signal(&ProgressState::GetLiveIds), "step1");
    assert_eq!(progress_signal(&ProgressState::GetLiveUrls), "step2");
    assert_eq!(progress_signal(&ProgressState::GetDeviceCodes), "step2");
    assert_eq!(progress_signal(&ProgressState::GetRecordingLives), "bug");
    assert!(opens_second_step(&ProgressState::GetDeviceCodes));
    assert!(!opens_second_step(&ProgressState::GetLiveIds));
    assert_eq!(set_progress_event("step1"), "step1:set-progress");
    assert_eq!(stopped_event("step2"), "step2:stopped");
    let p = finish_plan(&ProgressState::GetLiveUrls, false);
    assert!(!p.full_progress);
    assert!(p.stopped);
    let q = finish_plan(&ProgressState::GetLiveIds, true);
    assert!(q.full_progress);
    assert!(!q.stopped);
    let mut c = ProgressCounter::new(10);
    assert_eq!(c.inc(3), 3);
    assert_eq!(c.inc(4), 7);
    assert_eq!(c.total, 10);
    let mut d = ProgressCounter { done: u64::MAX, total: 1 };
    assert_eq!(d.inc(2), 1);
}
