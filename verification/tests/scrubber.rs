use cadenza::scrubber::Scrubber;


#[test]
fn empty_scrubber_passes_clean_text_through() {
    let s = Scrubber::empty();
    assert_eq!(s.scrub_text("hello world"), "hello world");
    assert_eq!(s.redact_key_value("title", "hello"), "hello");
}

#[test]
fn registered_value_is_redacted_from_text() {
    let s = Scrubber::with_secrets(vec!["lr_tok_abc".into()]);
    let out = s.scrub_text("preflight using lr_tok_abc and then more");
    assert!(!out.contains("lr_tok_abc"), "{out}");
    assert!(out.contains("***REDACTED***"));
}

#[test]
fn longest_secret_is_applied_before_shorter_prefix() {
    let s = Scrubber::with_secrets(vec!["abc".into(), "abcdef".into()]);
    let out = s.scrub_text("abcdef-and-abc");
    assert!(!out.contains("abcdef"), "{out}");
    assert!(!out.contains("def"), "{out}");
}

#[test]
fn empty_registered_secret_does_not_explode_output() {
    let s = Scrubber::with_secrets(vec!["".into()]);
    assert_eq!(s.scrub_text("plain"), "plain");
    assert_eq!(s.registered_secret_count(), 0);
}

#[test]
fn key_shape_detection_catches_documented_set() {
    let s = Scrubber::empty();
    for key in [
        "LINEAR_API_KEY",
        "GITHUB_TOKEN",
        "secret",
        "OPENAI_SECRET",
        "PASSWORD",
        "Authorization",
        "Cookie",
    ] {
        assert_eq!(
            s.redact_key_value(key, "real_value"),
            "[REDACTED]",
            "key {key} should be redacted",
        );
    }
    assert_eq!(s.redact_key_value("title", "real_value"), "real_value");
}

#[test]
fn pattern_redaction_in_free_text() {
    let s = Scrubber::empty();
    let out = s.scrub_text("config LINEAR_API_KEY=lr_secret_xyz boot ok");
    assert!(!out.contains("lr_secret_xyz"), "{out}");
    assert!(out.contains("LINEAR_API_KEY=[REDACTED]"), "{out}");
}

#[test]
fn no_registered_value_survives_the_scrub() {
    let s = Scrubber::with_secrets(vec!["lr_tok_9x".into(), "hunter2".into(), "tok".into()]);
    let inputs = [
        "lr_tok_9x",
        "prefix lr_tok_9xlr_tok_9x suffix",
        "tok tok hunter2hunter2 tok",
        "api_key=hunter2\nnext line tok",
        "lr_tolr_tok_9xk_9x",
    ];
    for text in inputs {
        let out = s.scrub_text(text);
        for secret in ["lr_tok_9x", "hunter2", "tok"] {
            assert!(!out.contains(secret), "{secret:?} survived in {out:?}");
        }
    }
}

#[test]
fn registration_order_does_not_change_the_scrub() {
    let a = Scrubber::with_secrets(vec!["ab".into(), "abcd".into(), "".into(), "zz".into()]);
    let b = Scrubber::with_secrets(vec!["zz".into(), "".into(), "abcd".into(), "ab".into()]);
    let text = "abcd ab zz abc API_KEY=abcd";
    assert_eq!(a.scrub_text(text), b.scrub_text(text));
    assert_eq!(a.registered_secret_count(), 3);
    assert_eq!(b.registered_secret_count(), 3);
}
