//! Authentication material: the strings the two authentication
//! schemes put on the wire, and where an SSH key is looked for.

use vstd::prelude::*;
use vstd::utf8::encode_utf8;

use crate::strutil::push_char;

verus! {

/// Plain username/password credentials.  The header value they encode
/// to is [`basic_auth_value`].
#[derive(Debug)]
pub struct BasicAuth {
    pub username: String,
    pub password: String,
}

/// What the standard base64 alphabet, with padding, encodes the bytes
/// to.
pub uninterp spec fn base64_standard(bytes: Seq<u8>) -> Seq<char>;

/// Relies on `base64::engine::general_purpose::STANDARD` encoding:
/// the result depends on the input bytes alone.  The length bound
/// keeps the encoder's output-size computation from overflowing.
#[verifier::external_body]
fn base64_encode(bytes: &[u8]) -> (r: String)
    requires
        bytes@.len() < 0x1000000000000,
    ensures
        r@ == base64_standard(bytes@),
{
    base64::engine::Engine::encode(&base64::engine::general_purpose::STANDARD, bytes)
}

proof fn lemma_encode_len(chars: Seq<char>)
    ensures
        encode_utf8(chars).len() <= 4 * chars.len(),
    decreases chars.len(),
{
    if chars.len() > 0 {
        lemma_encode_len(chars.drop_first());
    }
}

/// The credential string a basic-authentication header carries before
/// encoding: the username and password joined by a colon.
pub open spec fn basic_credentials(username: Seq<char>, password: Seq<char>) -> Seq<char> {
    username + ":"@ + password
}

/// Builds the value of a basic-authentication header: the scheme name
/// and the base64 form of the joined credentials.
pub fn basic_auth_value(username: &str, password: &str) -> (r: String)
    requires
        username@.len() + password@.len() < 0x100000000,
    ensures
        r@ == "Basic "@ + base64_standard(
            encode_utf8(basic_credentials(username@, password@)),
        ),
{
    let mut creds = String::from_str(username);
    creds.append(":");
    creds.append(password);
    let bytes = creds.as_str().as_bytes();
    proof {
        reveal_strlit(":");
        assert(creds@ == basic_credentials(username@, password@));
        lemma_encode_len(creds@);
        assert(bytes@ == encode_utf8(creds@));
        assert(creds@.len() == username@.len() + 1 + password@.len());
        assert(bytes@.len() <= 4 * creds@.len());
    }
    let encoded = base64_encode(bytes);
    let mut r = String::from_str("Basic ");
    r.append(encoded.as_str());
    r
}

/// The decimal digit character of a value below ten.
pub open spec fn digit_char(d: int) -> char {
    if d == 0 {
        '0'
    } else if d == 1 {
        '1'
    } else if d == 2 {
        '2'
    } else if d == 3 {
        '3'
    } else if d == 4 {
        '4'
    } else if d == 5 {
        '5'
    } else if d == 6 {
        '6'
    } else if d == 7 {
        '7'
    } else if d == 8 {
        '8'
    } else {
        '9'
    }
}

/// The decimal form of a number.
pub open spec fn decimal_of(n: int) -> Seq<char>
    decreases n,
{
    if n < 10 {
        Seq::empty().push(digit_char(n))
    } else {
        decimal_of(n / 10).push(digit_char(n % 10))
    }
}

fn digit_to_char(d: u64) -> (r: char)
    requires
        d < 10,
    ensures
        r == digit_char(d as int),
{
    match d {
        0 => '0',
        1 => '1',
        2 => '2',
        3 => '3',
        4 => '4',
        5 => '5',
        6 => '6',
        7 => '7',
        8 => '8',
        _ => '9',
    }
}

/// Writes a number in decimal.
pub fn u64_to_string(n: u64) -> (r: String)
    ensures
        r@ == decimal_of(n as int),
    decreases n,
{
    if n < 10 {
        let mut r = String::new();
        push_char(&mut r, digit_to_char(n));
        proof {
            assert(r@ =~= decimal_of(n as int));
        }
        r
    } else {
        let mut r = u64_to_string(n / 10);
        push_char(&mut r, digit_to_char(n % 10));
        r
    }
}

/// The value of a signature-authentication header: the key id, the
/// fixed algorithm and headers fields, the creation time, and the
/// base64-encoded signature.
pub open spec fn signature_header_of(
    username: Seq<char>,
    created: int,
    signature: Seq<char>,
) -> Seq<char> {
    "Signature keyId=\""@ + username + "\",algorithm=\"ssh\",headers=\"(created)\",created="@
        + decimal_of(created) + ",signature=\""@ + signature + "\""@
}

/// Builds the value of a signature-authentication header from the
/// username, the creation timestamp and the encoded signature.
pub fn signature_header(username: &str, created: u64, signature: &str) -> (r: String)
    ensures
        r@ == signature_header_of(username@, created as int, signature@),
{
    let mut r = String::from_str("Signature keyId=\"");
    r.append(username);
    r.append("\",algorithm=\"ssh\",headers=\"(created)\",created=");
    let num = u64_to_string(created);
    r.append(num.as_str());
    r.append(",signature=\"");
    r.append(signature);
    r.append("\"");
    r
}

/// The signed payload of a signature authentication: the creation
/// header line.
pub open spec fn created_line_of(created: int) -> Seq<char> {
    "(created): "@ + decimal_of(created)
}

/// Builds the payload that is signed for signature authentication.
pub fn created_line(created: u64) -> (r: String)
    ensures
        r@ == created_line_of(created as int),
{
    let mut r = String::from_str("(created): ");
    let num = u64_to_string(created);
    r.append(num.as_str());
    r
}

/// Where an SSH key of the given name is looked for: a path starting
/// with a slash or a tilde is taken as it is, any other name names a
/// key under the user's SSH directory.
pub open spec fn key_path_of(path: Seq<char>) -> Seq<char> {
    if path.len() > 0 && (path[0] == '/' || path[0] == '~') {
        path
    } else {
        "~/.ssh/"@ + path
    }
}

/// Resolves the configured SSH key name to the path to read it from.
pub fn resolve_key_path(path: &str) -> (r: String)
    ensures
        r@ == key_path_of(path@),
{
    if path.unicode_len() > 0 {
        let c = path.get_char(0);
        if c == '/' || c == '~' {
            return String::from_str(path);
        }
    }
    let mut r = String::from_str("~/.ssh/");
    r.append(path);
    proof {
        if path@.len() == 0 {
        }
    }
    r
}

} // verus!
