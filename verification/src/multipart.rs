//! The multipart/form-data wire format: rendering named parts into one
//! exact byte buffer, and choosing a boundary that collides with none of
//! them.

use rand::Rng;
use vstd::prelude::*;
use vstd::string::*;
use vstd::utf8::encode_utf8;
use crate::text::contains_seq;
use crate::text::contains_slice;
use crate::text::dec_chars;
use crate::text::dec_string;
use crate::text::json_escape_into;
use crate::text::json_string_bytes;

verus! {

/// A JSON content part carrying `{"content": <text>}`.
pub open spec fn content_part_bytes(text: Seq<char>) -> Seq<u8> {
    "Content-Disposition: form-data; name=\"payload_json\"\r\nContent-Type: application/json\r\n\r\n{\"content\":".spec_bytes()
        + json_string_bytes(encode_utf8(text)) + "}".spec_bytes()
}

/// A file part: disposition header with the part's index and quoted file
/// name, an octet-stream header, then the raw bytes.
pub open spec fn file_part_bytes(i: nat, name: Seq<char>, bytes: Seq<u8>) -> Seq<u8> {
    "Content-Disposition: form-data; name=\"files[".spec_bytes() + encode_utf8(dec_chars(i))
        + "]\"; filename=".spec_bytes() + json_string_bytes(encode_utf8(name))
        + "\r\nContent-Type: application/octet-stream\r\n\r\n".spec_bytes() + bytes
}

/// What precedes the part with index `i` in the assembled body.
pub open spec fn part_prefix_bytes(i: nat, boundary: Seq<u8>) -> Seq<u8> {
    if i == 0 {
        "--".spec_bytes() + boundary + "\r\n".spec_bytes()
    } else {
        "\r\n--".spec_bytes() + boundary + "\r\n".spec_bytes()
    }
}

/// The first `k` parts of the assembled body, each with its prefix.
pub open spec fn parts_concat(bodies: Seq<Seq<u8>>, boundary: Seq<u8>, k: nat) -> Seq<u8>
    decreases k,
{
    if k == 0 {
        Seq::empty()
    } else {
        parts_concat(bodies, boundary, (k - 1) as nat) + part_prefix_bytes((k - 1) as nat, boundary)
            + bodies[k - 1]
    }
}

/// The assembled multipart body: every part with its prefix, then the
/// closing delimiter.
pub open spec fn multipart_body_bytes(bodies: Seq<Seq<u8>>, boundary: Seq<u8>) -> Seq<u8> {
    parts_concat(bodies, boundary, bodies.len()) + "\r\n--".spec_bytes() + boundary
        + "--".spec_bytes()
}

/// The Content-Type header value that names the boundary.
pub open spec fn content_type_chars(boundary: Seq<char>) -> Seq<char> {
    "multipart/form-data; boundary="@ + boundary
}

pub open spec fn is_alphanum_char(c: char) -> bool {
    ('0' <= c && c <= '9') || ('a' <= c && c <= 'z') || ('A' <= c && c <= 'Z')
}

/// A boundary this library accepts: 32 alphanumeric characters that occur
/// as a substring in none of the rendered part bodies.
pub open spec fn boundary_ok(bodies: Seq<Seq<u8>>, boundary: Seq<char>) -> bool {
    &&& boundary.len() == 32
    &&& (forall|i: int| 0 <= i < 32 ==> is_alphanum_char(#[trigger] boundary[i]))
    &&& (forall|i: int|
        0 <= i < bodies.len() ==> !contains_seq(#[trigger] bodies[i], encode_utf8(boundary)))
}

/// Render the JSON content part.
pub fn render_content_part(text: &str) -> (out: Vec<u8>)
    ensures
        out@ == content_part_bytes(text@),
{
    let mut out: Vec<u8> =
        "Content-Disposition: form-data; name=\"payload_json\"\r\nContent-Type: application/json\r\n\r\n{\"content\":".as_bytes_vec();
    out.push(0x22);
    json_escape_into(text.as_bytes(), &mut out);
    out.push(0x22);
    let mut close = "}".as_bytes_vec();
    out.append(&mut close);
    proof {
        assert(out@ =~= content_part_bytes(text@));
    }
    out
}

/// Render a file part.
pub fn render_file_part(i: u64, name: &str, bytes: &[u8]) -> (out: Vec<u8>)
    ensures
        out@ == file_part_bytes(i as nat, name@, bytes@),
{
    let mut out: Vec<u8> = "Content-Disposition: form-data; name=\"files[".as_bytes_vec();
    let index = dec_string(i);
    out.append(&mut index.as_str().as_bytes_vec());
    let mut mid = "]\"; filename=".as_bytes_vec();
    out.append(&mut mid);
    out.push(0x22);
    json_escape_into(name.as_bytes(), &mut out);
    out.push(0x22);
    let mut octet = "\r\nContent-Type: application/octet-stream\r\n\r\n".as_bytes_vec();
    out.append(&mut octet);
    out.extend_from_slice(bytes);
    proof {
        assert(out@ =~= file_part_bytes(i as nat, name@, bytes@));
    }
    out
}

/// Relies on rand's `Alphanumeric` distribution and `thread_rng`: every
/// sampled byte is an ASCII letter or digit. Nothing else is promised of
/// a random token.
#[verifier::external_body]
pub(crate) fn random_alphanumeric_token() -> (s: String)
    ensures
        s@.len() == 32,
        forall|i: int| 0 <= i < 32 ==> is_alphanum_char(#[trigger] s@[i]),
{
    rand::thread_rng()
        .sample_iter(rand::distributions::Alphanumeric)
        .map(|x| x as char)
        .take(32)
        .collect()
}

/// Accept `candidate` as a boundary exactly when it occurs in none of the
/// rendered part bodies.
pub fn check_boundary_candidate(bodies: &Vec<Vec<u8>>, candidate: &str) -> (ok: bool)
    ensures
        ok <==> forall|i: int|
            0 <= i < bodies@.len() ==> !contains_seq(#[trigger] bodies@[i]@, encode_utf8(
                candidate@,
            )),
{
    let needle = candidate.as_bytes();
    let mut i: usize = 0;
    while i < bodies.len()
        invariant
            0 <= i <= bodies@.len(),
            needle@ == encode_utf8(candidate@),
            forall|k: int|
                0 <= k < i ==> !contains_seq(#[trigger] bodies@[k]@, encode_utf8(candidate@)),
        decreases bodies@.len() - i,
    {
        if contains_slice(bodies[i].as_slice(), needle) {
            return false;
        }
        i += 1;
    }
    true
}

/// Draw random 32-character alphanumeric tokens until one collides with no
/// part body. Collisions are expected to vanish after O(1) retries; the
/// attempt budget only bounds the loop, and `None` means every drawn token
/// collided.
pub fn choose_boundary(bodies: &Vec<Vec<u8>>) -> (r: Option<String>)
    ensures
        r is Some ==> boundary_ok(bodies@.map_values(|b: Vec<u8>| b@), r->Some_0@),
{
    let mut attempts: u64 = 0;
    while attempts < 64
        invariant
            true,
        decreases 64 - attempts,
    {
        let candidate = random_alphanumeric_token();
        if check_boundary_candidate(bodies, candidate.as_str()) {
            proof {
                let bv = bodies@.map_values(|b: Vec<u8>| b@);
                assert(forall|i: int| 0 <= i < bv.len() ==> bv[i] == bodies@[i]@);
            }
            return Some(candidate);
        }
        attempts += 1;
    }
    None
}

/// Assemble the full multipart body from the rendered parts and a chosen
/// boundary.
pub fn assemble(bodies: &Vec<Vec<u8>>, boundary: &str) -> (out: Vec<u8>)
    ensures
        out@ == multipart_body_bytes(
            bodies@.map_values(|b: Vec<u8>| b@),
            encode_utf8(boundary@),
        ),
{
    let ghost bv = bodies@.map_values(|b: Vec<u8>| b@);
    let mut out: Vec<u8> = Vec::new();
    let mut i: usize = 0;
    while i < bodies.len()
        invariant
            0 <= i <= bodies@.len(),
            bv == bodies@.map_values(|b: Vec<u8>| b@),
            out@ == parts_concat(bv, encode_utf8(boundary@), i as nat),
        decreases bodies@.len() - i,
    {
        if i == 0 {
            let mut dashes = "--".as_bytes_vec();
            out.append(&mut dashes);
        } else {
            let mut dashes = "\r\n--".as_bytes_vec();
            out.append(&mut dashes);
        }
        out.append(&mut boundary.as_bytes_vec());
        let mut crlf = "\r\n".as_bytes_vec();
        out.append(&mut crlf);
        out.extend_from_slice(bodies[i].as_slice());
        proof {
            assert(bv[i as int] == bodies@[i as int]@);
            assert(out@ =~= parts_concat(bv, encode_utf8(boundary@), (i + 1) as nat));
        }
        i += 1;
    }
    let mut close = "\r\n--".as_bytes_vec();
    out.append(&mut close);
    out.append(&mut boundary.as_bytes_vec());
    let mut dashes = "--".as_bytes_vec();
    out.append(&mut dashes);
    proof {
        assert(out@ =~= multipart_body_bytes(bv, encode_utf8(boundary@)));
    }
    out
}

/// The Content-Type value for a chosen boundary.
pub fn content_type_for(boundary: &str) -> (r: String)
    ensures
        r@ == content_type_chars(boundary@),
{
    let r = String::from_str("multipart/form-data; boundary=");
    r.concat(boundary)
}

} // verus!
