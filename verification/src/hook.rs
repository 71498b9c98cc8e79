//! Messages against the endpoint: building their parts, encoding a send,
//! parsing the delivery response, and the retry policy that absorbs an
//! unreliable transport.
//!
//! The caller performs the actual POST/PATCH and the backoff sleeps; this
//! module decides, for every transport outcome, what happens next.

use vstd::prelude::*;
use vstd::string::*;
use vstd::utf8::encode_utf8;
use crate::multipart::assemble;
use crate::multipart::boundary_ok;
use crate::multipart::choose_boundary;
use crate::multipart::content_part_bytes;
use crate::multipart::content_type_chars;
use crate::multipart::content_type_for;
use crate::multipart::file_part_bytes;
use crate::multipart::multipart_body_bytes;
use crate::multipart::render_content_part;
use crate::multipart::render_file_part;
use crate::text::all_digits;
use crate::text::dec_chars;
use crate::text::dec_string;
use crate::text::dec_value;
use crate::text::json_string_bytes;
use crate::text::parse_u64;

verus! {

/// A message: an identifier once delivery has succeeded, optional text
/// content, and named file attachments in order.
pub struct Message {
    pub id: Option<u64>,
    pub content: Option<String>,
    pub files: Vec<(String, Vec<u8>)>,
}

/// Builds the parts of one message before it is sent.
pub struct MessageBuilder(pub Message);

impl MessageBuilder {
    /// An empty message: no identifier, no content, no files.
    pub fn new() -> (r: Self)
        ensures
            r.0.id is None,
            r.0.content is None,
            r.0.files@ == Seq::<(String, Vec<u8>)>::empty(),
    {
        MessageBuilder(Message { id: None, content: None, files: Vec::new() })
    }

    /// Set the text content.
    pub fn content(self, content: String) -> (r: Self)
        ensures
            r.0.id == self.0.id,
            r.0.content == Some(content),
            r.0.files == self.0.files,
    {
        let mut m = self.0;
        m.content = Some(content);
        MessageBuilder(m)
    }

    /// Attach a named file.
    pub fn file(self, name: String, file: Vec<u8>) -> (r: Self)
        ensures
            r.0.id == self.0.id,
            r.0.content == self.0.content,
            r.0.files@ == self.0.files@.push((name, file)),
    {
        let mut m = self.0;
        m.files.push((name, file));
        MessageBuilder(m)
    }
}

/// The endpoint URL all requests target.
pub struct Webhook(String);

impl Webhook {
    pub closed spec fn view(&self) -> Seq<char> {
        self.0@
    }

    pub fn new(url: String) -> (r: Self)
        ensures
            r@ == url@,
    {
        Webhook(url)
    }

    pub fn url(&self) -> (r: &str)
        ensures
            r@ == self@,
    {
        self.0.as_str()
    }

    /// The URL messages are POSTed to, asking for a synchronous response.
    pub fn post_url(&self) -> (r: String)
        ensures
            r@ == self@ + "?wait=true"@,
    {
        self.0.clone().concat("?wait=true")
    }

    /// The URL of one already delivered message.
    pub fn message_url(&self, id: u64) -> (r: String)
        ensures
            r@ == self@ + "/messages/"@ + dec_chars(id as nat),
    {
        let r = self.0.clone().concat("/messages/");
        r.concat(dec_string(id).as_str())
    }
}

/// The rendered part bodies of a message: the content part if there is
/// content, then one part per file, indexed from 0.
pub open spec fn message_part_bodies(
    content: Option<Seq<char>>,
    files: Seq<(Seq<char>, Seq<u8>)>,
) -> Seq<Seq<u8>> {
    let file_parts = Seq::new(files.len(), |i: int| file_part_bytes(i as nat, files[i].0, files[i].1));
    match content {
        Some(text) => seq![content_part_bytes(text)] + file_parts,
        None => file_parts,
    }
}

impl Message {
    /// The rendered part bodies of this message.
    pub open spec fn part_bodies(&self) -> Seq<Seq<u8>> {
        message_part_bodies(self.content.deep_view(), self.files.deep_view())
    }
}

/// Render every part body of a message.
pub fn render_bodies(m: &Message) -> (bodies: Vec<Vec<u8>>)
    ensures
        bodies@.map_values(|b: Vec<u8>| b@) == m.part_bodies(),
{
    let mut bodies: Vec<Vec<u8>> = Vec::new();
    if let Some(text) = &m.content {
        bodies.push(render_content_part(text.as_str()));
    }
    let ghost offset: int = bodies@.len() as int;
    let n = m.files.len();
    let mut i: usize = 0;
    while i < n
        invariant
            0 <= i <= m.files@.len(),
            n == m.files@.len(),
            offset == if m.content is Some { 1int } else { 0int },
            bodies@.len() == offset + i,
            forall|k: int|
                0 <= k < offset + i ==> bodies@.map_values(|b: Vec<u8>| b@)[k]
                    == m.part_bodies()[k],
        decreases m.files@.len() - i,
    {
        let name = m.files[i].0.as_str();
        let bytes = m.files[i].1.as_slice();
        bodies.push(render_file_part(i as u64, name, bytes));
        proof {
            let fv = m.files@[i as int];
            assert(m.files.deep_view()[i as int] == (fv.0@, fv.1@));
        }
        i += 1;
    }
    proof {
        assert(bodies@.map_values(|b: Vec<u8>| b@) =~= m.part_bodies());
    }
    bodies
}

/// A send, fully encoded: the multipart body, the boundary inside it, and
/// the Content-Type value naming that boundary.
pub struct PreparedSend {
    pub body: Vec<u8>,
    pub boundary: String,
    pub content_type: String,
}

/// Encode a message for one delivery attempt. A message must carry at
/// least one part — text content or a file; there is nothing to deliver
/// otherwise. `None` only when every drawn boundary candidate collided
/// with a part body.
pub fn prepare_send(m: &Message) -> (r: Option<PreparedSend>)
    requires
        m.content is Some || m.files@.len() > 0,
    ensures
        r is Some ==> boundary_ok(m.part_bodies(), r->Some_0.boundary@),
        r is Some ==> r->Some_0.body@ == multipart_body_bytes(
            m.part_bodies(),
            encode_utf8(r->Some_0.boundary@),
        ),
        r is Some ==> r->Some_0.content_type@ == content_type_chars(r->Some_0.boundary@),
{
    let bodies = render_bodies(m);
    match choose_boundary(&bodies) {
        None => None,
        Some(boundary) => {
            let body = assemble(&bodies, boundary.as_str());
            let content_type = content_type_for(boundary.as_str());
            Some(PreparedSend { body, boundary, content_type })
        },
    }
}

/// What one attempt against the transport produced: an outright transport
/// failure, or a response body from the service.
pub enum SendOutcome {
    TransportFailure,
    Response(String),
}

/// What the sender does next: retry the same body after a transport
/// failure, re-encode and retry the whole send after a malformed response,
/// or record the delivered message's identifier.
pub enum SendStep {
    RetryTransport { delay_secs: u64 },
    RetryProtocol { delay_secs: u64 },
    Delivered { id: u64 },
}

/// The longest response body the sender will parse. A well-formed delivery
/// response is a few dozen bytes; anything longer is treated as a protocol
/// failure without being parsed. The JSON parser recurses once per nesting
/// level, so this cap also bounds its stack depth.
pub const MAX_RESPONSE_LEN: usize = 4096;

/// The string value at `key` of the JSON object `doc` parses to, if `doc`
/// parses to an object carrying a string there.
pub uninterp spec fn json_string_field(doc: Seq<char>, key: Seq<char>) -> Option<Seq<char>>;

/// Relies on tinyjson's JSON parser: whether a document is a JSON object
/// with a string value at a given key, and that value, are a function of
/// the document text alone. The parser recurses through nested arrays and
/// objects without a depth bound of its own, so callers keep documents
/// under `MAX_RESPONSE_LEN` bytes.
#[verifier::external_body]
fn json_object_string_field(doc: &str, key: &str) -> (r: Option<String>)
    requires
        doc.spec_bytes().len() <= MAX_RESPONSE_LEN,
    ensures
        r.deep_view() == json_string_field(doc@, key@),
{
    match doc.parse::<tinyjson::JsonValue>() {
        Ok(tinyjson::JsonValue::Object(map)) => match map.get(key) {
            Some(tinyjson::JsonValue::String(s)) => Some(s.clone()),
            _ => None,
        },
        _ => None,
    }
}

/// The decision for a delivery response whose `id` field held `field`:
/// delivered exactly when the field is present, all digits, fits in 64
/// bits, and is not zero; otherwise the whole send is retried after the
/// longer protocol backoff.
pub open spec fn spec_id_decision(field: Option<Seq<char>>) -> SendStep {
    match field {
        Option::None => SendStep::RetryProtocol { delay_secs: 300 },
        Option::Some(s) => if all_digits(s) && dec_value(s) <= u64::MAX && dec_value(s) > 0 {
            SendStep::Delivered { id: dec_value(s) as u64 }
        } else {
            SendStep::RetryProtocol { delay_secs: 300 }
        },
    }
}

/// The decision for one send attempt's outcome: a transport failure is
/// retried with the same body after the short backoff; an oversized
/// response is retried like any other protocol failure, unparsed; any
/// other response is accepted or retried according to its `id` field.
pub open spec fn spec_send_step(outcome: SendOutcome) -> SendStep {
    match outcome {
        SendOutcome::TransportFailure => SendStep::RetryTransport { delay_secs: 60 },
        SendOutcome::Response(body) => if encode_utf8(body@).len() > MAX_RESPONSE_LEN {
            SendStep::RetryProtocol { delay_secs: 300 }
        } else {
            spec_id_decision(json_string_field(body@, "id"@))
        },
    }
}

/// Decide from the extracted `id` field of a delivery response.
pub fn decide_id_field(field: &Option<String>) -> (step: SendStep)
    ensures
        step == spec_id_decision(field.deep_view()),
{
    match field {
        None => SendStep::RetryProtocol { delay_secs: 300 },
        Some(s) => match parse_u64(s.as_str()) {
            Some(id) => if id > 0 {
                SendStep::Delivered { id }
            } else {
                SendStep::RetryProtocol { delay_secs: 300 }
            },
            None => SendStep::RetryProtocol { delay_secs: 300 },
        },
    }
}

/// A delivery response the sender accepts: within the size cap, and its
/// `id` field a nonzero digit string that fits in 64 bits.
pub open spec fn well_formed_response(outcome: SendOutcome) -> bool {
    &&& outcome matches SendOutcome::Response(body)
    &&& encode_utf8(outcome->Response_0@).len() <= MAX_RESPONSE_LEN
    &&& json_string_field(outcome->Response_0@, "id"@) matches Some(s) && all_digits(s) && 0
        < dec_value(s) && dec_value(s) <= u64::MAX
}

/// The identifier a well-formed delivery response carries.
pub open spec fn response_id(outcome: SendOutcome) -> u64
    recommends
        well_formed_response(outcome),
{
    dec_value(json_string_field(outcome->Response_0@, "id"@)->Some_0) as u64
}

/// Law: against a transport that fails some number of times before the
/// service answers with a well-formed response, the send policy decides
/// one fixed 60-second retry of the same body per failure and then
/// delivery under the parsed identifier. A transport failure never
/// decides anything but a retry, so it never surfaces as a send failure.
pub proof fn lemma_send_absorbs_transport_failures(outcomes: Seq<SendOutcome>, n: int)
    requires
        0 <= n < outcomes.len(),
        forall|i: int| 0 <= i < n ==> outcomes[i] == SendOutcome::TransportFailure,
        well_formed_response(outcomes[n]),
    ensures
        forall|i: int|
            0 <= i < n ==> spec_send_step(#[trigger] outcomes[i]) == (SendStep::RetryTransport {
                delay_secs: 60,
            }),
        spec_send_step(outcomes[n]) == (SendStep::Delivered { id: response_id(outcomes[n]) }),
{
}

/// Decide what one send attempt's outcome means.
pub fn handle_send_outcome(outcome: &SendOutcome) -> (step: SendStep)
    ensures
        step == spec_send_step(*outcome),
{
    match outcome {
        SendOutcome::TransportFailure => SendStep::RetryTransport { delay_secs: 60 },
        SendOutcome::Response(body) => {
            let text = body.as_str();
            proof {
                assert(text.spec_bytes() == encode_utf8(body@));
            }
            if text.as_bytes().len() > MAX_RESPONSE_LEN {
                SendStep::RetryProtocol { delay_secs: 300 }
            } else {
                let field = json_object_string_field(text, "id");
                decide_id_field(&field)
            }
        },
    }
}

/// The JSON body of an edit: `{"content": <text>}`.
pub open spec fn edit_body_bytes(text: Seq<char>) -> Seq<u8> {
    "{\"content\":".spec_bytes() + json_string_bytes(encode_utf8(text)) + "}".spec_bytes()
}

/// A fully addressed edit: the message's own URL and the JSON body.
pub struct EditRequest {
    pub url: String,
    pub body: Vec<u8>,
}

impl Message {
    /// Prepare the PATCH that replaces this message's content with `text`,
    /// recording the new content in place. Editing a message that was never
    /// delivered is a caller error: there is no identifier to address.
    pub fn edit_request(&mut self, hook: &Webhook, text: &str) -> (r: EditRequest)
        requires
            old(self).id is Some,
        ensures
            final(self).id == old(self).id,
            final(self).files == old(self).files,
            final(self).content is Some && final(self).content->0@ == text@,
            r.url@ == hook@ + "/messages/"@ + dec_chars(old(self).id->0 as nat),
            r.body@ == edit_body_bytes(text@),
    {
        let id = self.id.unwrap();
        let url = hook.message_url(id);
        let mut body: Vec<u8> = "{\"content\":".as_bytes_vec();
        body.push(0x22);
        crate::text::json_escape_into(text.as_bytes(), &mut body);
        body.push(0x22);
        let mut close = "}".as_bytes_vec();
        body.append(&mut close);
        self.content = Some(String::from_str(text));
        proof {
            assert(body@ =~= edit_body_bytes(text@));
        }
        EditRequest { url, body }
    }

    /// Like `edit_request`, but answers `None`, preparing no request at
    /// all, when this message has no identifier yet.
    pub fn try_edit_request(&mut self, hook: &Webhook, text: &str) -> (r: Option<EditRequest>)
        ensures
            r is Some <==> old(self).id is Some,
            old(self).id is None ==> *final(self) == *old(self),
            r is Some ==> final(self).id == old(self).id && final(self).files == old(self).files
                && final(self).content is Some && final(self).content->0@ == text@,
            r is Some ==> r->Some_0.url@ == hook@ + "/messages/"@ + dec_chars(
                old(self).id->0 as nat,
            ),
            r is Some ==> r->Some_0.body@ == edit_body_bytes(text@),
    {
        if self.id.is_some() {
            Some(self.edit_request(hook, text))
        } else {
            None
        }
    }
}

/// What the editor does next after one PATCH attempt: done on success,
/// otherwise retry after a fixed short backoff.
pub enum EditStep {
    Done,
    Retry { delay_secs: u64 },
}

/// Decide what one edit attempt's outcome means. Transport failures are
/// absorbed by retrying indefinitely; the response body is never parsed.
pub fn handle_edit_outcome(delivered: bool) -> (step: EditStep)
    ensures
        delivered ==> step == EditStep::Done,
        !delivered ==> step == (EditStep::Retry { delay_secs: 10 }),
{
    if delivered {
        EditStep::Done
    } else {
        EditStep::Retry { delay_secs: 10 }
    }
}

} // verus!
