//! Answering a permission event: the decision word and the optional record
//! beside it.
//!
//! A permission event blocks the operation until the group answers with one
//! `write(2)`:
//!
//! ```text
//! struct fanotify_response {         8 bytes
//!   s32 fd           the event's descriptor, or FAN_NOFD
//!   u32 response     FAN_ALLOW | FAN_DENY, plus FAN_AUDIT / FAN_INFO / errno
//! }
//! ```
//!
//! With [`FAN_INFO`] a record follows it: its type, a zero byte, its length with
//! this 4-byte header counted, and its payload.
//!
//! The kernel matches an answer to a pending event **by descriptor**, and it is
//! the authority on every other constraint: nothing is filtered here but what has
//! no wire form.
use std::borrow::Cow;
use vstd::prelude::*;

use crate::bytes::{as_bytes, opt_slice};
use crate::consts::{
    EINVAL, FAN_ALLOW, FAN_AUDIT, FAN_DENY, FAN_ERRNO_MASK, FAN_ERRNO_SHIFT, FAN_INFO, FAN_NOFD,
    FAN_RESPONSE_INFO_AUDIT_RULE,
};
use crate::error::FanotifyError;
use crate::wire::{
    i32_bytes, push_bytes, push_u16, push_u32, u16_array, u16_bytes, u16_of, u16_round_trip,
    u32_array, u32_bytes, u32_of, u32_round_trip,
};

verus! {

/// Size of `fanotify_response_info_header`.
pub const INFO_HEADER_SIZE: usize = 4;

/// Size of an audit rule's payload.
pub const AUDIT_PAYLOAD_SIZE: usize = 12;

/// The largest length a record's `u16` length field can hold.
pub const MAX_RECORD_LEN: usize = 65535;

/// The payload of a record: the caller's bytes, or an audit rule's, which need no
/// heap.
#[derive(Debug)]
enum Payload<'a> {
    Given(Cow<'a, [u8]>),
    Audit([u8; AUDIT_PAYLOAD_SIZE]),
}

/// What a payload holds.
spec fn payload_bytes(payload: Payload<'_>) -> Seq<u8> {
    match payload {
        Payload::Given(bytes) => bytes@,
        Payload::Audit(bytes) => bytes@,
    }
}

impl<'a> Payload<'a> {
    /// Borrow the bytes.
    fn bytes(&self) -> (r: &[u8])
        ensures
            r@ == payload_bytes(*self),
    {
        match self {
            Payload::Given(bytes) => as_bytes(bytes),
            Payload::Audit(bytes) => bytes.as_slice(),
        }
    }
}

/// A record beside the decision.
#[derive(Debug)]
struct ResponseInfo<'a> {
    info_type: u8,
    payload: Payload<'a>,
}

/// The answer to one permission event.
#[derive(Debug)]
pub struct FanotifyResponse<'a> {
    fd: Option<i32>,
    response: u32,
    info: Option<ResponseInfo<'a>>,
}

/// What an answer holds.
#[verifier::ext_equal]
pub struct ResponseView {
    /// See [`FanotifyResponse::fd`].
    pub fd: Option<i32>,
    /// See [`FanotifyResponse::response`].
    pub response: u32,
    /// The type and payload of the record beside it.
    pub info: Option<(u8, Seq<u8>)>,
}

impl<'a> View for FanotifyResponse<'a> {
    type V = ResponseView;

    closed spec fn view(&self) -> ResponseView {
        ResponseView {
            fd: self.fd,
            response: self.response,
            info: match self.info {
                Some(info) => Some((info.info_type, payload_bytes(info.payload))),
                None => None,
            },
        }
    }
}

/// A deny that packs `errno` into the word's upper byte; an errno wider than the
/// field is truncated to it.
pub open spec fn deny_word(errno: i32) -> u32 {
    FAN_DENY | (((errno as u32) & FAN_ERRNO_MASK) << FAN_ERRNO_SHIFT)
}

/// The payload of an audit rule: the rule, and two trust words of zero.
pub open spec fn audit_payload(audit_rule: u32) -> Seq<u8> {
    u32_bytes(audit_rule) + Seq::new(8, |i: int| 0u8)
}

/// What goes on the wire for a descriptor.
pub open spec fn fd_field(fd: Option<i32>) -> i32 {
    match fd {
        Some(fd) => fd,
        None => FAN_NOFD,
    }
}

/// Whether a record's length fits its length field.
pub open spec fn has_wire_form(response: ResponseView) -> bool {
    match response.info {
        Some((_, payload)) => INFO_HEADER_SIZE + payload.len() <= MAX_RECORD_LEN,
        None => true,
    }
}

/// The bytes of an answer.
pub open spec fn encoded(response: ResponseView) -> Seq<u8> {
    u32_bytes(fd_field(response.fd) as u32) + u32_bytes(response.response) + (
    match response.info {
        Some((info_type, payload)) => seq![info_type, 0u8] + u16_bytes(
            (INFO_HEADER_SIZE + payload.len()) as u16,
        ) + payload,
        None => Seq::empty(),
    })
}

impl<'a> FanotifyResponse<'a> {
    /// Let the operation through.
    pub fn allow(fd: i32) -> (r: Self)
        ensures
            r@ == (ResponseView { fd: Some(fd), response: FAN_ALLOW, info: None }),
    {
        Self::raw(Some(fd), FAN_ALLOW)
    }

    /// Refuse it; the caller sees `EPERM`.
    pub fn deny(fd: i32) -> (r: Self)
        ensures
            r@ == (ResponseView { fd: Some(fd), response: FAN_DENY, info: None }),
    {
        Self::raw(Some(fd), FAN_DENY)
    }

    /// Refuse it with the errno the caller is to see.  The kernel reads the errno
    /// only for a `FAN_CLASS_PRE_CONTENT` group.
    pub fn deny_errno(fd: i32, errno: i32) -> (r: Self)
        ensures
            r@ == (ResponseView { fd: Some(fd), response: deny_word(errno), info: None }),
    {
        Self::raw(Some(fd), deny_errno_word(errno))
    }

    /// A word of the caller's own choosing.
    pub fn raw(fd: Option<i32>, response: u32) -> (r: Self)
        ensures
            r@ == (ResponseView { fd, response, info: None }),
    {
        FanotifyResponse { fd, response, info: None }
    }

    /// A decision with a record beside it, of any type and payload.
    pub fn info(decision: u32, info_type: u8, payload: Cow<'a, [u8]>) -> (r: Self)
        ensures
            r@ == (ResponseView {
                fd: None,
                response: decision | FAN_INFO,
                info: Some((info_type, payload@)),
            }),
    {
        FanotifyResponse {
            fd: None,
            response: decision | FAN_INFO,
            info: Some(ResponseInfo { info_type, payload: Payload::Given(payload) }),
        }
    }

    /// A decision with an audit rule beside it.
    pub fn audit_rule(decision: u32, audit_rule: u32) -> (r: Self)
        ensures
            r@ == (ResponseView {
                fd: None,
                response: (decision | FAN_AUDIT) | FAN_INFO,
                info: Some((FAN_RESPONSE_INFO_AUDIT_RULE, audit_payload(audit_rule))),
            }),
    {
        let rule: [u8; 4] = u32_array(audit_rule);
        // subj_trust and obj_trust stay at the kernel's default, which is 0.
        let payload: [u8; AUDIT_PAYLOAD_SIZE] = [
            rule[0],
            rule[1],
            rule[2],
            rule[3],
            0,
            0,
            0,
            0,
            0,
            0,
            0,
            0,
        ];
        assert(payload@ =~= audit_payload(audit_rule));
        FanotifyResponse {
            fd: None,
            response: (decision | FAN_AUDIT) | FAN_INFO,
            info: Some(
                ResponseInfo {
                    info_type: FAN_RESPONSE_INFO_AUDIT_RULE,
                    payload: Payload::Audit(payload),
                },
            ),
        }
    }

    /// The decision word.
    pub fn response(&self) -> (r: u32)
        ensures
            r == self@.response,
    {
        self.response
    }

    /// The same answer for the event that carries this descriptor.
    pub fn with_fd(self, fd: i32) -> (r: Self)
        ensures
            r@ == (ResponseView { fd: Some(fd), ..self@ }),
    {
        FanotifyResponse { fd: Some(fd), response: self.response, info: self.info }
    }

    /// The descriptor of the event this answers.
    pub fn fd(&self) -> (r: Option<i32>)
        ensures
            r == self@.fd,
    {
        self.fd
    }

    /// The type of the record beside the decision.
    pub fn info_type(&self) -> (r: Option<u8>)
        ensures
            r == (match self@.info {
                Some((info_type, _)) => Some(info_type),
                None => None,
            }),
    {
        match &self.info {
            Some(info) => Some(info.info_type),
            None => None,
        }
    }

    /// The payload of the record beside the decision.
    pub fn info_payload(&self) -> (r: Option<&[u8]>)
        ensures
            opt_slice(r) == (match self@.info {
                Some((_, payload)) => Some(payload),
                None => None,
            }),
    {
        match &self.info {
            Some(info) => Some(info.payload.bytes()),
            None => None,
        }
    }
}

/// A deny that packs an errno into the word's upper byte.
pub fn deny_errno_word(errno: i32) -> (r: u32)
    ensures
        r == deny_word(errno),
{
    FAN_DENY | (((errno as u32) & FAN_ERRNO_MASK) << FAN_ERRNO_SHIFT)
}

/// The bytes of an answer.
///
/// A record longer than its length field can say has no wire form, which is
/// refused with the errno the kernel has for a malformed record.
pub fn encode_response(response: &FanotifyResponse<'_>) -> (r: Result<Vec<u8>, FanotifyError>)
    ensures
        match r {
            Ok(body) => has_wire_form(response@) && body@ == encoded(response@),
            Err(error) => !has_wire_form(response@) && error == FanotifyError::Write(EINVAL),
        },
{
    let fd: i32 = match response.fd {
        Some(fd) => fd,
        None => FAN_NOFD,
    };
    let mut body: Vec<u8> = Vec::new();
    push_u32(&mut body, fd as u32);
    push_u32(&mut body, response.response);
    if let Some(info) = &response.info {
        let payload = info.payload.bytes();
        if payload.len() > MAX_RECORD_LEN - INFO_HEADER_SIZE {
            return Err(FanotifyError::Write(EINVAL));
        }
        body.push(info.info_type);
        body.push(0);
        push_u16(&mut body, (INFO_HEADER_SIZE + payload.len()) as u16);
        push_bytes(&mut body, payload);
    }
    assert(body@ =~= encoded(response@));
    Ok(body)
}

/// What a reply to the write of `len` bytes comes to: an errno, or how many bytes
/// the kernel took.  A record taken in part is not a decision.
pub open spec fn write_outcome(reply: Result<usize, i32>, len: int) -> Result<(), FanotifyError> {
    match reply {
        Err(errno) => Err(FanotifyError::Write(errno)),
        Ok(written) => if written < len {
            Err(FanotifyError::Write(EINVAL))
        } else {
            Ok(())
        },
    }
}

/// Write one body, and say what the reply comes to.
fn write_body<W: Fn(&[u8]) -> Result<usize, i32>>(write: &W, body: &[u8]) -> (r: Result<
    (),
    FanotifyError,
>)
    requires
        write.requires((body,)),
    ensures
        exists|reply: Result<usize, i32>|
            {
                &&& #[trigger] write.ensures((body,), reply)
                &&& r == write_outcome(reply, body@.len() as int)
            },
{
    match write(body) {
        Err(errno) => Err(FanotifyError::Write(errno)),
        Ok(written) => {
            if written < body.len() {
                return Err(FanotifyError::Write(EINVAL));
            }
            Ok(())
        },
    }
}

/// Answer an event: `write` performs one `write(2)` on the group.
///
/// An answer without a wire form is refused before anything is written.  A plain
/// answer and one with a record as long as an audit rule's are put together
/// without a heap buffer.
pub fn write_response<W: Fn(&[u8]) -> Result<usize, i32>>(
    response: &FanotifyResponse<'_>,
    write: &W,
) -> (r: Result<(), FanotifyError>)
    requires
        forall|body: &[u8]| #[trigger] write.requires((body,)),
    ensures
        !has_wire_form(response@) ==> r == Err::<(), FanotifyError>(FanotifyError::Write(EINVAL)),
        has_wire_form(response@) ==> exists|body: &[u8], reply: Result<usize, i32>|
            {
                &&& body@ == encoded(response@)
                &&& #[trigger] write.ensures((body,), reply)
                &&& r == write_outcome(reply, body@.len() as int)
            },
{
    let fd: i32 = match response.fd {
        Some(fd) => fd,
        None => FAN_NOFD,
    };
    let f: [u8; 4] = u32_array(fd as u32);
    let w: [u8; 4] = u32_array(response.response);
    match &response.info {
        None => {
            let body: [u8; 8] = [f[0], f[1], f[2], f[3], w[0], w[1], w[2], w[3]];
            assert(body@ =~= encoded(response@));
            write_body(write, body.as_slice())
        },
        Some(info) => {
            let p: &[u8] = info.payload.bytes();
            if p.len() == AUDIT_PAYLOAD_SIZE {
                let n: [u8; 2] = u16_array((INFO_HEADER_SIZE + AUDIT_PAYLOAD_SIZE) as u16);
                let body: [u8; 24] = [
                    f[0],
                    f[1],
                    f[2],
                    f[3],
                    w[0],
                    w[1],
                    w[2],
                    w[3],
                    info.info_type,
                    0,
                    n[0],
                    n[1],
                    p[0],
                    p[1],
                    p[2],
                    p[3],
                    p[4],
                    p[5],
                    p[6],
                    p[7],
                    p[8],
                    p[9],
                    p[10],
                    p[11],
                ];
                assert(body@ =~= encoded(response@));
                return write_body(write, body.as_slice());
            }
            match encode_response(response) {
                Ok(body) => write_body(write, body.as_slice()),
                Err(error) => Err(error),
            }
        },
    }
}

/// A deny with an errno is a deny, and the errno is where the kernel reads it: in
/// the upper byte, with nothing else in the word.
pub proof fn a_packed_errno_is_in_the_upper_byte(errno: i32)
    ensures
        deny_word(errno) & FAN_DENY == FAN_DENY,
        deny_word(errno) >> FAN_ERRNO_SHIFT == (errno as u32) & FAN_ERRNO_MASK,
        deny_word(errno) & 0x00FF_FFFF == FAN_DENY,
        0 <= errno < 256 ==> deny_word(errno) >> FAN_ERRNO_SHIFT == errno,
{
    let word = errno as u32;
    assert((2u32 | ((word & 0xFF) << 24)) & 2u32 == 2u32) by (bit_vector);
    assert((2u32 | ((word & 0xFF) << 24)) >> 24 == word & 0xFF) by (bit_vector);
    assert((2u32 | ((word & 0xFF) << 24)) & 0x00FF_FFFF == 2u32) by (bit_vector);
    assert(word < 256 ==> word & 0xFF == word) by (bit_vector);
}

/// What is on the wire reads back as what was said: the descriptor or the
/// sentinel, the word, and the record with a length that counts its header.
pub proof fn an_answer_reads_back(response: ResponseView)
    requires
        has_wire_form(response),
    ensures
        u32_of(encoded(response).subrange(0, 4)) as i32 == fd_field(response.fd),
        u32_of(encoded(response).subrange(4, 8)) == response.response,
        response.info is None ==> encoded(response).len() == 8,
        response.info matches Some((info_type, payload)) ==> {
            &&& encoded(response).len() == 12 + payload.len()
            &&& encoded(response)[8] == info_type
            &&& encoded(response)[9] == 0
            &&& u16_of(encoded(response).subrange(10, 12)) == INFO_HEADER_SIZE + payload.len()
            &&& encoded(response).skip(12) == payload
        },
{
    let body = encoded(response);
    let fd = fd_field(response.fd);
    u32_round_trip(fd as u32);
    u32_round_trip(response.response);
    assert((fd as u32) as i32 == fd) by (bit_vector);
    assert(body.subrange(0, 4) =~= u32_bytes(fd as u32));
    assert(body.subrange(4, 8) =~= u32_bytes(response.response));
    if let Some((info_type, payload)) = response.info {
        let len = (INFO_HEADER_SIZE + payload.len()) as u16;
        u16_round_trip(len);
        assert(body.subrange(10, 12) =~= u16_bytes(len));
        assert(body.skip(12) =~= payload);
    }
}

/// An allow is the word 1 for its descriptor, a deny the word 2, and nothing else
/// goes on the wire.
pub proof fn a_decision_is_eight_bytes(
    fd: i32,
    allow: FanotifyResponse<'_>,
    deny: FanotifyResponse<'_>,
    allowed: Result<Vec<u8>, FanotifyError>,
    denied: Result<Vec<u8>, FanotifyError>,
)
    requires
        call_ensures(FanotifyResponse::<'_>::allow, (fd,), allow),
        call_ensures(FanotifyResponse::<'_>::deny, (fd,), deny),
        call_ensures(encode_response, (&allow,), allowed),
        call_ensures(encode_response, (&deny,), denied),
    ensures
        allowed matches Ok(body) && body@ == i32_bytes(fd) + u32_bytes(1),
        denied matches Ok(body) && body@ == i32_bytes(fd) + u32_bytes(2),
{
    assert(encoded(allow@) =~= i32_bytes(fd) + u32_bytes(1));
    assert(encoded(deny@) =~= i32_bytes(fd) + u32_bytes(2));
}

/// A deny with an errno of one byte puts that byte into the top of the word, above
/// the deny; of a wider one only the low byte goes there.
pub proof fn a_deny_carries_its_errno(
    fd: i32,
    errno: i32,
    deny: FanotifyResponse<'_>,
    denied: Result<Vec<u8>, FanotifyError>,
)
    requires
        call_ensures(FanotifyResponse::<'_>::deny_errno, (fd, errno), deny),
        call_ensures(encode_response, (&deny,), denied),
    ensures
        denied matches Ok(body) && body@ == i32_bytes(fd) + u32_bytes(
            (0x100_0000 * (errno as u32 % 0x100) + 2) as u32,
        ),
{
    let word = errno as u32;
    assert((2u32 | ((word & 0xFF) << 24)) == 0x100_0000 * (word % 0x100) + 2) by (bit_vector);
    assert(encoded(deny@) =~= i32_bytes(fd) + u32_bytes(
        (0x100_0000 * (errno as u32 % 0x100) + 2) as u32,
    ));
}

/// A word of the caller's own goes on the wire as it is, behind the descriptor, or
/// behind -1 where there is none.
pub proof fn a_raw_word_is_not_changed(
    fd: Option<i32>,
    word: u32,
    raw: FanotifyResponse<'_>,
    out: Result<Vec<u8>, FanotifyError>,
)
    requires
        call_ensures(FanotifyResponse::<'_>::raw, (fd, word), raw),
        call_ensures(encode_response, (&raw,), out),
    ensures
        out matches Ok(body) && body@ == (if fd is Some {
            i32_bytes(fd->0)
        } else {
            i32_bytes(-1i32)
        }) + u32_bytes(word),
{
    assert(encoded(raw@) =~= i32_bytes(fd_field(fd)) + u32_bytes(word));
}

/// A record beside a decision follows it: its type, a zero, a length that counts
/// these four bytes too, and the payload.  The decision keeps its bits and gains
/// bit 5.  A record whose length does not fit into 16 bits is refused with 22, and
/// no other is refused.
pub proof fn a_record_follows_its_decision<'a>(
    decision: u32,
    info_type: u8,
    payload: Cow<'a, [u8]>,
    fd: i32,
    info: FanotifyResponse<'a>,
    answer: FanotifyResponse<'a>,
    out: Result<Vec<u8>, FanotifyError>,
)
    requires
        call_ensures(FanotifyResponse::<'a>::info, (decision, info_type, payload), info),
        call_ensures(FanotifyResponse::<'a>::with_fd, (info, fd), answer),
        call_ensures(encode_response, (&answer,), out),
    ensures
        payload@.len() > 65531 ==> out == Err::<Vec<u8>, FanotifyError>(FanotifyError::Write(22)),
        payload@.len() <= 65531 ==> (out matches Ok(body) && body@ == i32_bytes(fd) + u32_bytes(
            decision | 0x20,
        ) + seq![info_type, 0u8] + u16_bytes((4 + payload@.len()) as u16) + payload@),
{
    if payload@.len() <= 65531 {
        assert(encoded(answer@) =~= i32_bytes(fd) + u32_bytes(decision | 0x20) + seq![
            info_type,
            0u8,
        ] + u16_bytes((4 + payload@.len()) as u16) + payload@);
    }
}

/// An audit rule is a record of type 1 that holds the rule and two words of zero;
/// the decision gains the audit bit and the record's.
pub proof fn an_audit_rule_follows_its_decision(
    decision: u32,
    rule: u32,
    fd: i32,
    audit: FanotifyResponse<'_>,
    answer: FanotifyResponse<'_>,
    out: Result<Vec<u8>, FanotifyError>,
)
    requires
        call_ensures(FanotifyResponse::<'_>::audit_rule, (decision, rule), audit),
        call_ensures(FanotifyResponse::<'_>::with_fd, (audit, fd), answer),
        call_ensures(encode_response, (&answer,), out),
    ensures
        out matches Ok(body) && body@ == i32_bytes(fd) + u32_bytes(decision | 0x30) + seq![
            1u8,
            0u8,
        ] + u16_bytes(16) + u32_bytes(rule) + u32_bytes(0) + u32_bytes(0),
{
    assert((decision | 0x10) | 0x20 == decision | 0x30) by (bit_vector);
    u32_round_trip(rule);
    assert(u32_bytes(0) =~= seq![0u8, 0u8, 0u8, 0u8]);
    assert(audit_payload(rule) =~= u32_bytes(rule) + u32_bytes(0) + u32_bytes(0));
    assert(encoded(answer@) =~= i32_bytes(fd) + u32_bytes(decision | 0x30) + seq![1u8, 0u8]
        + u16_bytes(16) + u32_bytes(rule) + u32_bytes(0) + u32_bytes(0));
}

/// An answer is given only once all of its bytes are taken: a failed write is
/// reported with its errno, and a partial one with 22.
pub proof fn a_partial_write_is_no_answer(reply: Result<usize, i32>, len: int)
    ensures
        write_outcome(reply, len) is Ok <==> reply is Ok && reply->Ok_0 >= len,
        reply matches Ok(written) && written < len ==> write_outcome(reply, len) == Err::<
            (),
            FanotifyError,
        >(FanotifyError::Write(22)),
        reply matches Err(errno) ==> write_outcome(reply, len) == Err::<(), FanotifyError>(
            FanotifyError::Write(errno),
        ),
{
}

/// What is beside a decision is given back as it was given, and a descriptor that
/// is named later changes nothing else.
pub proof fn what_is_beside_a_decision_is_given_back()
    ensures
        forall|answer: &FanotifyResponse<'_>, r: Option<i32>|
            #[trigger] call_ensures(FanotifyResponse::<'_>::fd, (answer,), r) ==> r == answer@.fd,
        forall|answer: &FanotifyResponse<'_>, r: u32|
            #[trigger] call_ensures(FanotifyResponse::<'_>::response, (answer,), r) ==> r
                == answer@.response,
        forall|answer: &FanotifyResponse<'_>, r: Option<u8>|
            #[trigger] call_ensures(FanotifyResponse::<'_>::info_type, (answer,), r) ==> (r is Some
                <==> answer@.info is Some) && (r is Some ==> r->0 == (answer@.info->0).0),
        forall|answer: &FanotifyResponse<'_>, r: Option<&[u8]>|
            #[trigger] call_ensures(FanotifyResponse::<'_>::info_payload, (answer,), r) ==> (r
                is Some <==> answer@.info is Some) && (r is Some ==> (r->0)@ == (answer@.info->0).1),
        forall|answer: FanotifyResponse<'_>, fd: i32, r: FanotifyResponse<'_>|
            #[trigger] call_ensures(FanotifyResponse::<'_>::with_fd, (answer, fd), r) ==> r@ == (
            ResponseView { fd: Some(fd), ..answer@ }),
{
}

/// An answer is written in one piece, and it is the encoded answer: it is given if
/// the write took all of it.  An answer that cannot be encoded is not written.
pub proof fn an_answer_is_written_in_one_piece<W: Fn(&[u8]) -> Result<usize, i32>>(
    answer: &FanotifyResponse<'_>,
    write: W,
    out: Result<Vec<u8>, FanotifyError>,
    r: Result<(), FanotifyError>,
)
    requires
        call_ensures(encode_response, (answer,), out),
        call_ensures(write_response::<W>, (answer, &write), r),
    ensures
        out matches Err(error) ==> r == Err::<(), FanotifyError>(error),
        out matches Ok(whole) ==> exists|body: &[u8], reply: Result<usize, i32>|
            {
                &&& body@ == whole@
                &&& #[trigger] write.ensures((body,), reply)
                &&& (r is Ok <==> reply is Ok && reply->Ok_0 >= whole@.len())
                &&& (reply matches Err(code) ==> r == Err::<(), FanotifyError>(
                    FanotifyError::Write(code),
                ))
            },
{
}

/// A record without a descriptor goes out for -1.
pub proof fn a_record_goes_out_without_a_descriptor<'a>(
    decision: u32,
    info_type: u8,
    payload: Cow<'a, [u8]>,
    rule: u32,
    info: FanotifyResponse<'a>,
    audit: FanotifyResponse<'a>,
    out: Result<Vec<u8>, FanotifyError>,
    audited: Result<Vec<u8>, FanotifyError>,
)
    requires
        call_ensures(FanotifyResponse::<'a>::info, (decision, info_type, payload), info),
        call_ensures(FanotifyResponse::<'a>::audit_rule, (decision, rule), audit),
        call_ensures(encode_response, (&info,), out),
        call_ensures(encode_response, (&audit,), audited),
    ensures
        payload@.len() <= 65531 ==> (out matches Ok(body) && body@.take(4) == i32_bytes(-1i32)),
        audited matches Ok(body) && body@.take(4) == i32_bytes(-1i32) && body@.len() == 24,
{
    if payload@.len() <= 65531 {
        assert(encoded(info@).take(4) =~= i32_bytes(-1i32));
    }
    assert(encoded(audit@).take(4) =~= i32_bytes(-1i32));
}

} // verus!
