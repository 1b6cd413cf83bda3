//! Answering permission events.
use std::borrow::Cow;

use fanotify_fid::consts::{
    FAN_ALLOW, FAN_AUDIT, FAN_DENY, FAN_ERRNO_SHIFT, FAN_INFO, FAN_NOFD,
    FAN_RESPONSE_INFO_AUDIT_RULE,
};
use fanotify_fid::response::{encode_response, write_response, FanotifyResponse};
use fanotify_fid::FanotifyError;

/// The number of the descriptor that an answer is about.
const RAW: i32 = 9;

#[test]
fn allow_and_deny_are_the_plain_words() {
    let fd = RAW;
    assert_eq!(FanotifyResponse::allow(fd).response(), FAN_ALLOW);
    assert_eq!(FanotifyResponse::deny(fd).response(), FAN_DENY);
}

#[test]
fn deny_errno_packs_the_errno_into_the_upper_byte() {
    let resp = FanotifyResponse::deny_errno(RAW, libc::EACCES);

    assert_eq!(resp.response() & FAN_DENY, FAN_DENY, "still a deny");
    assert_eq!(
        resp.response() >> FAN_ERRNO_SHIFT,
        libc::EACCES as u32,
        "the errno is where the kernel reads it"
    );
}

#[test]
fn an_errno_wider_than_the_field_is_truncated_not_refused() {
    let resp = FanotifyResponse::deny_errno(RAW, 0x1_00);
    assert_eq!(resp.response() >> FAN_ERRNO_SHIFT, 0);
    assert_eq!(resp.response(), FAN_DENY);
}

#[test]
fn the_descriptor_form_carries_the_descriptor_it_was_given() {
    let raw = RAW;

    let resp = FanotifyResponse::allow(RAW);
    assert_eq!(resp.fd().unwrap(), raw);
    assert_eq!(resp.info_type(), None);
    assert_eq!(resp.info_payload(), None);
}

#[test]
fn the_bare_form_is_exactly_8_bytes() {
    let raw = RAW;

    for (resp, fd_field) in [
        (FanotifyResponse::allow(RAW), raw),
        (FanotifyResponse::deny(RAW), raw),
        (FanotifyResponse::raw(None, FAN_ALLOW | FAN_AUDIT), FAN_NOFD),
    ] {
        let bytes = encode_response(&resp).unwrap();
        assert_eq!(bytes.len(), 8);
        assert_eq!(
            i32::from_ne_bytes(bytes[0..4].try_into().unwrap()),
            fd_field
        );
        assert_eq!(
            u32::from_ne_bytes(bytes[4..8].try_into().unwrap()),
            resp.response()
        );
    }
}

#[test]
fn the_audit_rule_form_is_the_exact_24_byte_record() {
    let resp = FanotifyResponse::audit_rule(FAN_DENY, 7);
    let bytes = encode_response(&resp).unwrap();

    assert_eq!(bytes.len(), 24, "8-byte response plus a 16-byte record");
    assert_eq!(
        i32::from_ne_bytes(bytes[0..4].try_into().unwrap()),
        FAN_NOFD
    );
    assert_eq!(
        u32::from_ne_bytes(bytes[4..8].try_into().unwrap()),
        FAN_DENY | FAN_INFO | FAN_AUDIT,
    );
    // The record header: type, pad, len — where `len` includes the header.
    assert_eq!(bytes[8], FAN_RESPONSE_INFO_AUDIT_RULE);
    assert_eq!(bytes[9], 0, "pad must be zero");
    assert_eq!(u16::from_ne_bytes(bytes[10..12].try_into().unwrap()), 16);
    // And the payload: rule, subj_trust, obj_trust.
    assert_eq!(u32::from_ne_bytes(bytes[12..16].try_into().unwrap()), 7);
    assert_eq!(u32::from_ne_bytes(bytes[16..20].try_into().unwrap()), 0);
    assert_eq!(u32::from_ne_bytes(bytes[20..24].try_into().unwrap()), 0);
}

#[test]
fn attaching_a_descriptor_turns_a_record_into_a_matched_response() {
    let raw = RAW;

    let resp = FanotifyResponse::audit_rule(FAN_DENY, 7).with_fd(RAW);
    let bytes = encode_response(&resp).unwrap();

    assert_eq!(bytes.len(), 24);
    assert_eq!(
        i32::from_ne_bytes(bytes[0..4].try_into().unwrap()),
        raw,
        "the record is now matched to this event",
    );
    assert_eq!(resp.info_type(), Some(FAN_RESPONSE_INFO_AUDIT_RULE));
}

#[test]
fn an_arbitrary_record_type_and_payload_go_on_the_wire_unchanged() {
    let resp = FanotifyResponse::info(FAN_DENY | FAN_AUDIT, 200, Cow::Borrowed(&b"future payload"[..]));
    let bytes = encode_response(&resp).unwrap();

    assert_eq!(bytes.len(), 8 + 4 + 14);
    assert_eq!(
        u32::from_ne_bytes(bytes[4..8].try_into().unwrap()),
        FAN_DENY | FAN_AUDIT | FAN_INFO,
        "the caller's word, plus the bit that makes the record readable",
    );
    assert_eq!(bytes[8], 200);
    assert_eq!(bytes[9], 0);
    assert_eq!(u16::from_ne_bytes(bytes[10..12].try_into().unwrap()), 18);
    assert_eq!(&bytes[12..], b"future payload");

    assert_eq!(resp.info_type(), Some(200));
    assert_eq!(resp.info_payload(), Some(&b"future payload"[..]));
}

#[test]
fn a_record_too_long_for_its_length_field_is_refused_before_the_syscall() {
    // `len` is a u16 and counts the header, so 65532 payload bytes have no
    // wire representation and must be an error rather than a wrapped length.
    let resp = FanotifyResponse::info(FAN_DENY, 1, Cow::Owned(vec![0u8; 65532]));
    assert!(matches!(
        encode_response(&resp),
        Err(FanotifyError::Write(libc::EINVAL))
    ));

    // One byte less fits exactly.
    let resp = FanotifyResponse::info(FAN_DENY, 1, Cow::Owned(vec![0u8; 65531]));
    assert_eq!(encode_response(&resp).unwrap().len(), 8 + 4 + 65531);
}

#[test]
fn a_short_write_is_an_error_not_a_decision() {
    // A write that takes fewer bytes than the record is not a decision.
    let resp = FanotifyResponse::info(FAN_DENY, 1, Cow::Owned(vec![0u8; 65531]));
    let err = write_response(&resp, &|body: &[u8]| {
        assert_eq!(body.len(), 65543);
        Ok(61440)
    })
    .expect_err("a partially consumed record is not a response");
    assert!(
        matches!(err, FanotifyError::Write(libc::EINVAL)),
        "expected EINVAL, got {err:?}"
    );
}

#[test]
fn every_form_is_written_as_it_is_encoded() {
    let forms = [
        FanotifyResponse::allow(RAW),
        FanotifyResponse::deny_errno(RAW, libc::EACCES),
        FanotifyResponse::audit_rule(FAN_DENY, 7),
        FanotifyResponse::audit_rule(FAN_ALLOW, 7).with_fd(RAW),
        FanotifyResponse::info(FAN_DENY, 200, Cow::Borrowed(&b"twelve bytes"[..])),
        FanotifyResponse::info(FAN_DENY, 200, Cow::Borrowed(&b"eleven byte"[..])),
        FanotifyResponse::info(FAN_DENY, 200, Cow::Borrowed(&b""[..])),
        FanotifyResponse::info(FAN_DENY, 1, Cow::Owned(vec![9u8; 1024])),
    ];
    for form in &forms {
        let expected = encode_response(form).unwrap();
        let written = write_response(form, &|body: &[u8]| {
            assert_eq!(body, expected.as_slice());
            Ok(body.len())
        });
        assert_eq!(written, Ok(()));
        // One byte less is not a decision.
        assert_eq!(
            write_response(form, &|body: &[u8]| Ok(body.len() - 1)),
            Err(FanotifyError::Write(libc::EINVAL))
        );
    }
    assert_eq!(encode_response(&forms[2]).unwrap().len(), 24);
}
