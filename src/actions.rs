use vstd::arithmetic::power::pow;
use vstd::prelude::*;

use crate::chars::{chars_of, same_chars};
use crate::buffer::{buf_err_message, inserted, valid_point, BufErr, Buffer, Line};
use crate::point::Point;

verus! {

/// The operations a client can ask for.
#[derive(Clone, Copy, Debug, PartialEq, Eq, Structural)]
pub enum Method {
    Connect,
    InsertAtPt,
}

/// The method that a request's `method` field names, if any.
pub open spec fn method_named(name: Seq<char>) -> Option<Method> {
    if name == "connect"@ {
        Some(Method::Connect)
    } else if name == "insertAtPt"@ {
        Some(Method::InsertAtPt)
    } else {
        None
    }
}

impl Method {
    /// The method named `name` on the wire: `connect` or `insertAtPt`.
    pub fn from_name(name: &str) -> (m: Option<Method>)
        ensures
            m == method_named(name@),
    {
        let given = chars_of(name);
        if same_chars(&given, &chars_of("connect")) {
            Some(Method::Connect)
        } else if same_chars(&given, &chars_of("insertAtPt")) {
            Some(Method::InsertAtPt)
        } else {
            None
        }
    }
}

/// Which method a request asks for, given its `method` field if it has a
/// textual one: a missing field and an unknown name are errors of their own.
pub fn method_of(name: Option<&str>) -> (r: Result<Method, RespErr>)
    ensures
        name is None ==> r matches Err(RespErr::MissingMethod),
        name is Some ==> match method_named(name->Some_0@) {
            Some(m) => r == Ok::<Method, RespErr>(m),
            None => r matches Err(RespErr::InvalidMethod),
        },
{
    match name {
        None => Err(RespErr::MissingMethod),
        Some(n) => match Method::from_name(n) {
            Some(m) => Ok(m),
            None => Err(RespErr::InvalidMethod),
        },
    }
}

/// A request to attach a client to the editor.
#[derive(Debug)]
pub struct ConnectReq {
    pub client_id: String,
    pub method: Method,
}

/// A request to insert `string` at `point` of the editor's buffer.
#[derive(Debug)]
pub struct InsertAtPtReq {
    pub client_id: String,
    pub method: Method,
    pub point: Point,
    pub string: String,
}

/// The ways in which a request can fail.
#[derive(Debug)]
pub enum RespErr {
    MalformedInput,
    InvalidMethod,
    MissingMethod,
    TestError,
    DeserializationError,
    ClientAlreadyConnected,
    InsertAtPtErr(BufErr),
}

/// What a successful request returns.
#[derive(Debug)]
pub enum RespOk {
    ConnectResp(ConnRespStruct),
    InsertAtPtOk(Vec<Line>),
    /// Success with nothing to report.
    Done,
}

/// The reply to a connection: the identifier of this server.
#[derive(Debug)]
pub struct ConnRespStruct {
    pub server_id: String,
}

/// The reply to a request.
#[derive(Debug)]
pub struct Resp(pub Result<RespOk, RespErr>);

/// The numeric code that stands for each error on the wire: one for each
/// failure of the protocol and one for each kind of buffer error.
pub open spec fn err_code(e: RespErr) -> i32 {
    match e {
        RespErr::MalformedInput => 0,
        RespErr::InvalidMethod => 1,
        RespErr::MissingMethod => 2,
        RespErr::TestError => 3,
        RespErr::DeserializationError => 4,
        RespErr::ClientAlreadyConnected => 5,
        RespErr::InsertAtPtErr(BufErr::InvalidPoint) => 6,
        RespErr::InsertAtPtErr(BufErr::InvalidStartPoint) => 7,
        RespErr::InsertAtPtErr(BufErr::InvalidEndPoint) => 8,
        RespErr::InsertAtPtErr(BufErr::InvalidDeletionLength) => 9,
    }
}

/// The numeric code of `resp_err`.
pub fn resp_err_code(resp_err: &RespErr) -> (code: i32)
    ensures
        code == err_code(*resp_err),
{
    match resp_err {
        RespErr::MalformedInput => 0,
        RespErr::InvalidMethod => 1,
        RespErr::MissingMethod => 2,
        RespErr::TestError => 3,
        RespErr::DeserializationError => 4,
        RespErr::ClientAlreadyConnected => 5,
        RespErr::InsertAtPtErr(BufErr::InvalidPoint) => 6,
        RespErr::InsertAtPtErr(BufErr::InvalidStartPoint) => 7,
        RespErr::InsertAtPtErr(BufErr::InvalidEndPoint) => 8,
        RespErr::InsertAtPtErr(BufErr::InvalidDeletionLength) => 9,
    }
}

/// The description of each error.
pub open spec fn err_message(e: RespErr) -> Seq<char> {
    match e {
        RespErr::MalformedInput => "malformed input"@,
        RespErr::InvalidMethod => "invalid method"@,
        RespErr::MissingMethod => "missing method"@,
        RespErr::TestError => "test error"@,
        RespErr::DeserializationError => "deserialization error"@,
        RespErr::ClientAlreadyConnected => "client already connected"@,
        RespErr::InsertAtPtErr(b) => "insert at point error: "@ + buf_err_message(b)@,
    }
}

impl RespErr {
    /// A short human-readable description of the error.
    pub fn message(&self) -> (m: String)
        ensures
            m@ == err_message(*self),
    {
        match self {
            RespErr::MalformedInput => String::from_str("malformed input"),
            RespErr::InvalidMethod => String::from_str("invalid method"),
            RespErr::MissingMethod => String::from_str("missing method"),
            RespErr::TestError => String::from_str("test error"),
            RespErr::DeserializationError => String::from_str("deserialization error"),
            RespErr::ClientAlreadyConnected => String::from_str("client already connected"),
            RespErr::InsertAtPtErr(b) => {
                let mut m = String::from_str("insert at point error: ");
                m.append(b.message());
                m
            },
        }
    }
}

/// The lowercase hexadecimal digit for `n`, which is below 16.
pub open spec fn hex_digit(n: int) -> char {
    if n < 10 {
        (('0' as int) + n) as char
    } else {
        (('a' as int) + (n - 10)) as char
    }
}

/// The `k`-th hexadecimal digit of `id`, counted from the most significant
/// of its 32 digits.
pub open spec fn uuid_nibble(id: u128, k: int) -> int {
    (id as int / pow(16, (31 - k) as nat)) % 16
}

/// The hyphenated text form of the UUID with value `id`: its 32 lowercase
/// hexadecimal digits, most significant first, in groups of 8, 4, 4, 4 and
/// 12 separated by `-`.
pub open spec fn uuid_text(id: u128) -> Seq<char> {
    Seq::new(
        36,
        |i: int|
            if i == 8 || i == 13 || i == 18 || i == 23 {
                '-'
            } else {
                let k = if i < 8 {
                    i
                } else if i < 13 {
                    i - 1
                } else if i < 18 {
                    i - 2
                } else if i < 23 {
                    i - 3
                } else {
                    i - 4
                };
                hex_digit(uuid_nibble(id, k))
            },
    )
}

/// Relies on uuid's `Uuid::from_u128` (the value as big-endian bytes) and
/// the `Display` of its `Hyphenated` form, which writes those bytes as
/// lowercase hexadecimal digits in groups of 8-4-4-4-12.
#[verifier::external_body]
fn uuid_string(id: u128) -> (s: String)
    ensures
        s@ == uuid_text(id),
{
    uuid::Uuid::from_u128(id).hyphenated().to_string()
}

/// The state of one editing session: the connected client, if any, the
/// identifier of this server, and the document.
pub struct Editor {
    pub client_id: Option<String>,
    pub server_id: u128,
    pub buffer: Buffer,
}

impl Editor {
    /// A session with no client yet and an empty document.
    pub fn new(server_id: u128) -> (ed: Editor)
        ensures
            ed.client_id is None,
            ed.server_id == server_id,
            ed.buffer.rows() == Seq::<Seq<char>>::empty(),
            ed.buffer.text_len == 0,
    {
        Editor { client_id: None, server_id, buffer: Buffer::new() }
    }
}

impl ConnectReq {
    /// Attaches the requesting client unless one is attached already; the
    /// reply carries this server's identifier.
    pub fn exec(&self, editor: &mut Editor) -> (r: Resp)
        ensures
            old(editor).client_id is Some ==> (r.0 matches Err(RespErr::ClientAlreadyConnected)
                && *final(editor) == *old(editor)),
            old(editor).client_id is None ==> {
                &&& final(editor).client_id is Some
                &&& final(editor).client_id->Some_0@ == self.client_id@
                &&& final(editor).server_id == old(editor).server_id
                &&& final(editor).buffer == old(editor).buffer
                &&& (r.0 matches Ok(RespOk::ConnectResp(c)) && c.server_id@ == uuid_text(
                    old(editor).server_id,
                ))
            },
    {
        match editor.client_id {
            Some(_) => Resp(Err(RespErr::ClientAlreadyConnected)),
            None => {
                editor.client_id = Some(self.client_id.clone());
                Resp(Ok(RespOk::ConnectResp(ConnRespStruct { server_id: uuid_string(editor.server_id) })))
            },
        }
    }
}

impl InsertAtPtReq {
    /// Inserts the request's text at its point of the editor's buffer and
    /// replies with the lines that changed, or with the buffer's error. A
    /// text so long that the buffer's length counter would overflow is
    /// refused as malformed input.
    pub fn exec(&self, editor: &mut Editor) -> (r: Resp)
        ensures
            old(editor).buffer.text_len + self.string@.len() >= usize::MAX ==> (r.0 matches Err(
                RespErr::MalformedInput,
            ) && *final(editor) == *old(editor)),
            old(editor).buffer.text_len + self.string@.len() < usize::MAX ==> {
                &&& final(editor).client_id == old(editor).client_id
                &&& final(editor).server_id == old(editor).server_id
                &&& !valid_point(old(editor).buffer.rows(), self.point) ==> (r.0 matches Err(
                    RespErr::InsertAtPtErr(BufErr::InvalidPoint),
                ) && final(editor).buffer == old(editor).buffer)
                &&& valid_point(old(editor).buffer.rows(), self.point) ==> (r.0 matches Ok(
                    RespOk::InsertAtPtOk(lines),
                ) && inserted(
                    old(editor).buffer,
                    final(editor).buffer,
                    self.string@,
                    self.point,
                    lines@,
                ))
            },
    {
        let len = self.string.as_str().unicode_len();
        if editor.buffer.text_len >= usize::MAX - len {
            return Resp(Err(RespErr::MalformedInput));
        }
        match editor.buffer.insert_at_pt(self.string.as_str(), &self.point) {
            Ok(lines_changed) => Resp(Ok(RespOk::InsertAtPtOk(lines_changed))),
            Err(err) => Resp(Err(RespErr::InsertAtPtErr(err))),
        }
    }
}

} // verus!
