use cobblestone::scrobble::ScrobbleTrack;
use cobblestone::service::{auth_request_params, scrobble_request_params, sign_params};

fn owned(pairs: &[(&str, &str)]) -> Vec<(String, String)> {
    pairs.iter().map(|(k, v)| (k.to_string(), v.to_string())).collect()
}

#[test]
fn signature_ignores_parameter_order() {
    let sig1 = sign_params(&owned(&[("b", "2"), ("a", "1")]), "s");
    let sig2 = sign_params(&owned(&[("a", "1"), ("b", "2")]), "s");
    assert_eq!(sig1, sig2);
}

#[test]
fn signature_is_md5_of_sorted_concatenation() {
    let sig = sign_params(&owned(&[("b", "2"), ("a", "1")]), "s");
    let expected = format!("{:x}", md5::compute("a1b2s"));
    assert_eq!(sig, expected);
}

#[test]
fn signature_depends_on_values() {
    let sig1 = sign_params(&owned(&[("a", "1")]), "s");
    let sig2 = sign_params(&owned(&[("a", "2")]), "s");
    assert_ne!(sig1, sig2);
}

#[test]
fn auth_params_carry_token_signature_and_format() {
    let params = auth_request_params("alice", "0123456789abcdef", "KEY", "SECRET");
    let token = format!("{:x}", md5::compute("alice0123456789abcdef"));
    assert_eq!(
        params[..4],
        [
            ("method".to_string(), "auth.getMobileSession".to_string()),
            ("username".to_string(), "alice".to_string()),
            ("authToken".to_string(), token.clone()),
            ("api_key".to_string(), "KEY".to_string()),
        ]
    );
    let signed = format!(
        "api_keyKEYauthToken{token}methodauth.getMobileSessionusernamealiceSECRET"
    );
    let expected_sig = format!("{:x}", md5::compute(signed));
    assert_eq!(params[4], ("api_sig".to_string(), expected_sig));
    assert_eq!(params[5], ("format".to_string(), "json".to_string()));
}

#[test]
fn scrobble_params_include_album_and_duration_only_when_present() {
    let with_both = ScrobbleTrack {
        artist: "Artist".to_string(),
        title: "Title".to_string(),
        album: Some("Album".to_string()),
        timestamp: 1700000000,
        duration: 185,
    };
    let params = scrobble_request_params(&with_both, "KEY", "SK", "SECRET");
    let names: Vec<&str> = params.iter().map(|p| p.0.as_str()).collect();
    assert_eq!(
        names,
        ["method", "artist", "track", "timestamp", "api_key", "sk", "album", "duration",
            "api_sig", "format"]
    );
    assert_eq!(params[3].1, "1700000000");
    assert_eq!(params[7].1, "185");

    let bare = ScrobbleTrack {
        artist: "Artist".to_string(),
        title: "Title".to_string(),
        album: None,
        timestamp: 1700000000,
        duration: 0,
    };
    let params = scrobble_request_params(&bare, "KEY", "SK", "SECRET");
    let names: Vec<&str> = params.iter().map(|p| p.0.as_str()).collect();
    assert_eq!(names, ["method", "artist", "track", "timestamp", "api_key", "sk", "api_sig",
        "format"]);
}

#[test]
fn scrobble_signature_excludes_format_and_signature_fields() {
    let track = ScrobbleTrack {
        artist: "A".to_string(),
        title: "T".to_string(),
        album: None,
        timestamp: 10,
        duration: 0,
    };
    let params = scrobble_request_params(&track, "K", "S", "X");
    let signed = "api_keyKartistAmethodtrack.scrobbleskStimestamp10trackTX";
    let expected_sig = format!("{:x}", md5::compute(signed));
    assert_eq!(params[6], ("api_sig".to_string(), expected_sig));
}
