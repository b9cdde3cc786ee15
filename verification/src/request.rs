//! The request a client opens with: `<method> <host:port> <version>...`.
//!
//! A request is UTF-8 text cut into tokens at every ASCII space. The second
//! token names the target. The method is not looked at.
use crate::error::ProxyError;
use vstd::prelude::*;
use vstd::string::{is_ascii_spec_bytes, StringSliceAdditionalSpecFns};
use vstd::utf8::{
    is_char_boundary, is_char_boundary_iff_not_is_continuation_byte,
    is_char_boundary_start_end_of_seq, length_of_first_scalar, partial_valid_utf8,
    partial_valid_utf8_extend_ascii_block, pop_first_scalar, valid_utf8, valid_utf8_split,
};

verus! {

/// The most bytes of a request that are read. A request has to arrive whole
/// in the first read.
pub const REQUEST_LIMIT: usize = 2000;

/// The byte that separates tokens.
pub const SPACE: u8 = 0x20;

/// The bytes of the only answer a client ever gets:
/// `HTTP/1.1 200 OK`, a line end, and an empty line.
pub open spec fn ok_response_bytes() -> Seq<u8> {
    seq![
        0x48u8, 0x54, 0x54, 0x50, 0x2f, 0x31, 0x2e, 0x31, 0x20, 0x32, 0x30, 0x30, 0x20, 0x4f,
        0x4b, 0x0d, 0x0a, 0x0d, 0x0a,
    ]
}

/// What a client whose request was accepted is owed: first the response,
/// written and flushed, then an attempt to dial the target. The outcome of
/// the dial goes to [`crate::group::ConnectionGroup::connected`].
#[derive(Clone, Copy, Debug, PartialEq, Eq)]
pub struct Reply<'a> {
    /// The text to send to the client.
    pub response: &'static str,
    /// The `host:port` to dial.
    pub target: &'a str,
}

/// A [`Reply`] as bytes.
pub struct ReplyView {
    pub response: Seq<u8>,
    pub target: Seq<u8>,
}

impl<'a> View for Reply<'a> {
    type V = ReplyView;

    open spec fn view(&self) -> ReplyView {
        ReplyView { response: self.response.spec_bytes(), target: self.target.spec_bytes() }
    }
}

/// The reply to `request`, or why there is none. Every request that names a
/// target gets the same response; a request that is turned away gets nothing.
pub open spec fn reply_to(request: Seq<u8>) -> Result<ReplyView, ProxyError> {
    match parse(request) {
        Ok(target) => Ok(ReplyView { response: ok_response_bytes(), target }),
        Err(e) => Err(e),
    }
}

/// The error of `std::str::from_utf8`. Nothing is read from it.
#[verifier::external_type_specification]
#[verifier::external_body]
pub struct ExUtf8Error(core::str::Utf8Error);

/// `std::str::from_utf8` succeeds exactly on bytes that are valid UTF-8, and
/// the text it returns is made of those same bytes. Verus takes this on
/// trust.
pub assume_specification<'a>[ core::str::from_utf8 ](bytes: &'a [u8]) -> (text: Result<
    &'a str,
    core::str::Utf8Error,
>)
    ensures
        text is Ok <==> valid_utf8(bytes@),
        text matches Ok(t) ==> t.spec_bytes() == bytes@,
;

/// The index of the first space in `text`, or its length if it holds none.
pub open spec fn first_space(text: Seq<u8>) -> int
    decreases text.len(),
{
    if text.len() == 0 || text[0] == SPACE {
        0
    } else {
        1 + first_space(text.drop_first())
    }
}

/// `text` cut at every space. Two spaces in a row hold an empty token
/// between them; text without a space is a single token.
pub open spec fn tokens(text: Seq<u8>) -> Seq<Seq<u8>>
    decreases text.len(),
{
    let cut = first_space(text);
    if 0 <= cut < text.len() {
        seq![text.take(cut)] + tokens(text.skip(cut + 1))
    } else {
        seq![text]
    }
}

/// What a request asks for: the bytes of its target, or why it is turned
/// away. The checks come in this order: a request without a byte, one that
/// is not UTF-8, one without a second token.
pub open spec fn parse(request: Seq<u8>) -> Result<Seq<u8>, ProxyError> {
    if request.len() == 0 {
        Err(ProxyError::EmptyRequest)
    } else if !valid_utf8(request) {
        Err(ProxyError::ParseError)
    } else if tokens(request).len() < 2 {
        Err(ProxyError::InvalidRequest)
    } else {
        Ok(tokens(request)[1])
    }
}

/// `first_space` is the least index that holds a space, or the length.
pub proof fn lemma_first_space(text: Seq<u8>)
    ensures
        0 <= first_space(text) <= text.len(),
        forall|i: int| 0 <= i < first_space(text) ==> text[i] != SPACE,
        first_space(text) < text.len() ==> text[first_space(text)] == SPACE,
    decreases text.len(),
{
    if text.len() == 0 || text[0] == SPACE {
    } else {
        let rest = text.drop_first();
        lemma_first_space(rest);
        assert forall|i: int| 0 <= i < first_space(text) implies text[i] != SPACE by {
            if i > 0 {
                assert(text[i] == rest[i - 1]);
            }
        }
        assert(first_space(text) < text.len() ==> text[first_space(text)] == rest[first_space(
            rest,
        )]);
    }
}

/// An index with no space before it that holds a space, or is the length,
/// is `first_space`.
pub proof fn lemma_first_space_is(text: Seq<u8>, at: int)
    requires
        0 <= at <= text.len(),
        forall|i: int| 0 <= i < at ==> text[i] != SPACE,
        at < text.len() ==> text[at] == SPACE,
    ensures
        first_space(text) == at,
{
    lemma_first_space(text);
}

/// A request has a second token exactly when it holds a space, and the
/// second token is what stands between the first space and the next one, or
/// the end.
pub proof fn lemma_second_token(text: Seq<u8>)
    ensures
        tokens(text).len() >= 1,
        tokens(text).len() >= 2 <==> first_space(text) < text.len(),
        first_space(text) < text.len() ==> tokens(text)[1] == {
            let rest = text.skip(first_space(text) + 1);
            rest.take(first_space(rest))
        },
{
    lemma_first_space(text);
    let cut = first_space(text);
    if cut < text.len() {
        let rest = text.skip(cut + 1);
        lemma_first_space(rest);
        let inner = first_space(rest);
        reveal_with_fuel(tokens, 2);
        if inner < rest.len() {
            assert(tokens(rest)[0] == rest.take(inner));
        } else {
            assert(rest.take(inner) =~= rest);
        }
    }
}

/// No token holds a space.
pub proof fn lemma_tokens_hold_no_space(text: Seq<u8>, which: int)
    requires
        0 <= which < tokens(text).len(),
    ensures
        !tokens(text)[which].contains(SPACE),
    decreases text.len(),
{
    lemma_first_space(text);
    let cut = first_space(text);
    if cut < text.len() {
        if which == 0 {
            assert(tokens(text)[0] == text.take(cut));
        } else {
            let rest = text.skip(cut + 1);
            assert(tokens(text)[which] == tokens(rest)[which - 1]);
            lemma_tokens_hold_no_space(rest, which - 1);
        }
    }
}

/// Bytes that are all ASCII are UTF-8 text.
pub proof fn lemma_ascii_is_text(bytes: Seq<u8>)
    requires
        forall|i: int| 0 <= i < bytes.len() ==> bytes[i] < 0x80,
    ensures
        valid_utf8(bytes),
{
    assert(bytes.subrange(0, 0) =~= Seq::<u8>::empty());
    assert(partial_valid_utf8(bytes, 0));
    partial_valid_utf8_extend_ascii_block(bytes, 0, bytes.len() as int);
    assert(bytes.subrange(0, bytes.len() as int) =~= bytes);
}

/// A request of ASCII bytes that holds a space names a target.
pub proof fn lemma_ascii_request_is_accepted(request: Seq<u8>)
    requires
        forall|i: int| 0 <= i < request.len() ==> request[i] < 0x80,
        request.contains(SPACE),
    ensures
        parse(request) is Ok,
{
    lemma_ascii_is_text(request);
    lemma_first_space(request);
    lemma_second_token(request);
}

/// The byte after an ASCII byte of valid UTF-8 starts a character, or is the
/// end.
proof fn lemma_boundary_after_ascii(bytes: Seq<u8>, index: int)
    requires
        valid_utf8(bytes),
        0 <= index < bytes.len(),
        bytes[index] < 0x80,
    ensures
        is_char_boundary(bytes, index + 1),
    decreases bytes.len(),
{
    is_char_boundary_iff_not_is_continuation_byte(bytes, index);
    reveal_with_fuel(is_char_boundary, 2);
    if index == 0 {
    } else {
        let width = length_of_first_scalar(bytes);
        let rest = pop_first_scalar(bytes);
        assert(rest[index - width] == bytes[index]);
        lemma_boundary_after_ascii(rest, index - width);
    }
}

/// The index of the first space at or after `from`, or the length.
fn find_space(bytes: &[u8], from: usize) -> (at: usize)
    requires
        from <= bytes.len(),
    ensures
        from <= at <= bytes.len(),
        at - from == first_space(bytes@.skip(from as int)),
{
    let mut at: usize = from;
    while at < bytes.len() && bytes[at] != SPACE
        invariant
            from <= at <= bytes.len(),
            forall|i: int| from <= i < at ==> bytes@[i] != SPACE,
        decreases bytes.len() - at,
    {
        at += 1;
    }
    proof {
        lemma_first_space_is(bytes@.skip(from as int), at - from);
    }
    at
}

/// The answer to a request that was accepted.
pub fn ok_response() -> (response: &'static str)
    ensures
        response.spec_bytes() == ok_response_bytes(),
{
    let response = "HTTP/1.1 200 OK\r\n\r\n";
    proof {
        reveal_strlit("HTTP/1.1 200 OK\r\n\r\n");
        is_ascii_spec_bytes(response);
        assert(response.spec_bytes() =~= ok_response_bytes());
    }
    response
}

/// The target that `request` names, or why the request is turned away.
pub fn connect_target<'a>(request: &'a [u8]) -> (r: Result<&'a str, ProxyError>)
    ensures
        match r {
            Ok(target) => parse(request@) == Ok::<Seq<u8>, ProxyError>(target.spec_bytes()),
            Err(e) => parse(request@) == Err::<Seq<u8>, ProxyError>(e),
        },
{
    if request.len() == 0 {
        return Err(ProxyError::EmptyRequest);
    }
    let text = match core::str::from_utf8(request) {
        Ok(text) => text,
        Err(_) => {
            return Err(ProxyError::ParseError);
        },
    };
    let cut = find_space(request, 0);
    proof {
        assert(request@.skip(0) =~= request@);
        lemma_first_space(request@);
        lemma_second_token(request@);
    }
    if cut >= request.len() {
        return Err(ProxyError::InvalidRequest);
    }
    let end = find_space(request, cut + 1);
    let ghost rest_bytes = request@.skip(cut + 1);
    proof {
        lemma_boundary_after_ascii(request@, cut as int);
    }
    let (_, rest) = text.split_at(cut + 1);
    proof {
        assert(rest.spec_bytes() =~= rest_bytes);
        assert(rest_bytes =~= request@.subrange(cut + 1, request@.len() as int));
        valid_utf8_split(request@, cut + 1);
        lemma_first_space(rest_bytes);
        if end < request.len() {
            is_char_boundary_iff_not_is_continuation_byte(rest_bytes, end - cut - 1);
        } else {
            is_char_boundary_start_end_of_seq(rest_bytes);
        }
    }
    let (target, _) = rest.split_at(end - cut - 1);
    proof {
        assert(target.spec_bytes() =~= rest_bytes.take(end - cut - 1));
    }
    Ok(target)
}

/// Reads the request a client opened with, the bytes of its first segment,
/// and says what the client is owed.
pub fn handshake<'a>(request: &'a [u8]) -> (r: Result<Reply<'a>, ProxyError>)
    ensures
        match r {
            Ok(reply) => reply_to(request@) == Ok::<ReplyView, ProxyError>(reply@),
            Err(e) => reply_to(request@) == Err::<ReplyView, ProxyError>(e),
        },
{
    match connect_target(request) {
        Ok(target) => Ok(Reply { response: ok_response(), target }),
        Err(e) => Err(e),
    }
}

} // verus!
