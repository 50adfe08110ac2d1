use cobblestone::service::{
    check_scrobble_from_struct, interpret_scrobble_response, parse_session_response,
    IgnoredMessage, IgnoredMessageField, Scrobbles, ScrobbleAttr, ScrobbleEntries, ScrobbleEntry,
    ScrobbleResponse, Service, ServiceError,
};

#[test]
fn accepted_counter_means_success() {
    let r = interpret_scrobble_response("{\"scrobbles\":{\"@attr\":{\"accepted\":1,\"ignored\":0}}}");
    assert_eq!(r, Ok(()));
}

#[test]
fn counters_as_strings_mean_success() {
    let r =
        interpret_scrobble_response("{\"scrobbles\":{\"@attr\":{\"accepted\":\"1\",\"ignored\":\"0\"}}}");
    assert_eq!(r, Ok(()));
}

#[test]
fn ignored_code_91_is_success() {
    let r = interpret_scrobble_response(
        "{\"scrobbles\":{\"scrobble\":{\"ignoredMessage\":{\"code\":\"91\",\"#text\":\"dup\"}}}}",
    );
    assert_eq!(r, Ok(()));
}

#[test]
fn other_ignored_code_is_rejected() {
    let r = interpret_scrobble_response(
        "{\"scrobbles\":{\"scrobble\":{\"ignoredMessage\":{\"code\":\"1\",\"#text\":\"artist ignored\"}}}}",
    );
    match r {
        Err(ServiceError::Rejected { code, message }) => {
            assert_eq!(code, "1");
            assert_eq!(message, "artist ignored");
        }
        other => panic!("expected rejection, got {other:?}"),
    }
}

#[test]
fn top_level_error_wins_over_scrobble_fields() {
    let r = interpret_scrobble_response(
        "{\"error\":6,\"message\":\"bad key\",\"scrobbles\":{\"@attr\":{\"accepted\":1,\"ignored\":0}}}",
    );
    match r {
        Err(ServiceError::Api { code, message }) => {
            assert_eq!(code, "6");
            assert_eq!(message, "bad key");
        }
        other => panic!("expected api error, got {other:?}"),
    }
}

#[test]
fn array_shaped_scrobble_takes_first_entry() {
    let r = interpret_scrobble_response(
        "{\"scrobbles\":{\"scrobble\":[{\"ignoredMessage\":{\"code\":\"2\",\"#text\":\"no\"}},{}]}}",
    );
    match r {
        Err(ServiceError::Rejected { code, .. }) => assert_eq!(code, "2"),
        other => panic!("expected rejection, got {other:?}"),
    }
}

#[test]
fn bare_string_ignored_message_is_rejected_with_unknown_code() {
    let r = interpret_scrobble_response(
        "{\"scrobbles\":{\"scrobble\":{\"ignoredMessage\":\"nope\"}}}",
    );
    match r {
        Err(ServiceError::Rejected { code, message }) => {
            assert_eq!(code, "unknown");
            assert_eq!(message, "nope");
        }
        other => panic!("expected rejection, got {other:?}"),
    }
}

#[test]
fn bare_number_ignored_message_is_rejected() {
    let r = interpret_scrobble_response("{\"scrobbles\":{\"scrobble\":{\"ignoredMessage\":3}}}");
    match r {
        Err(ServiceError::Rejected { code, message }) => {
            assert_eq!(code, "unknown");
            assert_eq!(message, "3");
        }
        other => panic!("expected rejection, got {other:?}"),
    }
}

#[test]
fn empty_object_is_success() {
    assert_eq!(interpret_scrobble_response("{}"), Ok(()));
}

#[test]
fn unparseable_payload_fails() {
    assert_eq!(interpret_scrobble_response("not json"), Err(ServiceError::Response));
}

#[test]
fn struct_check_defaults_to_rejected_without_counters() {
    let resp = ScrobbleResponse {
        scrobbles: Some(Scrobbles { attr: None, scrobble: None }),
    };
    match check_scrobble_from_struct(&resp) {
        Err(ServiceError::Rejected { code, message }) => {
            assert_eq!(code, "unknown");
            assert_eq!(message, "Scrobble rejected");
        }
        other => panic!("expected rejection, got {other:?}"),
    }
}

#[test]
fn struct_check_reads_first_of_many_entries() {
    let resp = ScrobbleResponse {
        scrobbles: Some(Scrobbles {
            attr: Some(ScrobbleAttr { accepted: 0, ignored: 1 }),
            scrobble: Some(ScrobbleEntries::Many(vec![
                ScrobbleEntry {
                    ignored_message: Some(IgnoredMessageField::Object(IgnoredMessage {
                        text: None,
                        code: Some("7".to_string()),
                    })),
                },
                ScrobbleEntry { ignored_message: None },
            ])),
        }),
    };
    match check_scrobble_from_struct(&resp) {
        Err(ServiceError::Rejected { code, message }) => {
            assert_eq!(code, "7");
            assert_eq!(message, "Scrobble rejected");
        }
        other => panic!("expected rejection, got {other:?}"),
    }
}

#[test]
fn session_key_is_extracted() {
    let r = parse_session_response("{\"session\":{\"name\":\"alice\",\"key\":\"abc123\"}}");
    assert_eq!(r, Ok("abc123".to_string()));
}

#[test]
fn session_errors_fail_authentication() {
    assert_eq!(
        parse_session_response("{\"error\":4,\"message\":\"denied\"}"),
        Err(ServiceError::Auth)
    );
    assert_eq!(parse_session_response("{\"session\":{}}"), Err(ServiceError::Auth));
    assert_eq!(parse_session_response("garbage"), Err(ServiceError::Auth));
}

#[test]
fn service_names_parse() {
    assert!(matches!(Service::parse("lastfm"), Ok(Service::LastFm)));
    assert!(matches!(Service::parse("librefm"), Ok(Service::LibreFm)));
    assert!(matches!(
        Service::parse("spotify"),
        Err(ServiceError::UnsupportedService)
    ));
}

#[test]
fn base_urls_are_fixed() {
    assert_eq!(Service::LastFm.base_url(), "https://ws.audioscrobbler.com/2.0/");
    assert_eq!(Service::LibreFm.base_url(), "https://libre.fm/2.0/");
}
