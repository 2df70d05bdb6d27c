use vstd::prelude::*;
use crate::message::{pairs_view, CollectedMessage, Field, MessageView, ReadError};

verus! {

pub open spec fn hex_digit(n: int) -> char {
    seq!['0', '1', '2', '3', '4', '5', '6', '7', '8', '9', 'a', 'b', 'c', 'd', 'e', 'f'][n]
}

/// How one character stands inside a JSON string: quote and backslash are
/// escaped, control characters get their short escape or `\u00XX`, every
/// other character stands as it is.
pub open spec fn escape_char(c: char) -> Seq<char> {
    if c == '"' {
        seq!['\\', '"']
    } else if c == '\\' {
        seq!['\\', '\\']
    } else if c == '\x08' {
        seq!['\\', 'b']
    } else if c == '\x0c' {
        seq!['\\', 'f']
    } else if c == '\n' {
        seq!['\\', 'n']
    } else if c == '\r' {
        seq!['\\', 'r']
    } else if c == '\t' {
        seq!['\\', 't']
    } else if (c as u32) < 0x20 {
        seq!['\\', 'u', '0', '0', hex_digit((c as u32) as int / 16), hex_digit((c as u32) as int % 16)]
    } else {
        seq![c]
    }
}

pub open spec fn escape_all(s: Seq<char>) -> Seq<char>
    decreases s.len(),
{
    if s.len() == 0 {
        Seq::empty()
    } else {
        escape_char(s[0]) + escape_all(s.drop_first())
    }
}

/// A string written as a JSON string literal.
pub open spec fn json_string(s: Seq<char>) -> Seq<char> {
    seq!['"'] + escape_all(s) + seq!['"']
}

/// Relies on `serde_json::to_string` on a `str`: the JSON string literal,
/// escaped as `escape_char` says; serialising a `str` into memory cannot fail.
#[verifier::external_body]
fn json_quote(s: &str) -> (r: String)
    ensures
        r@ == json_string(s@),
{
    match serde_json::to_string(s) {
        Ok(t) => t,
        Err(_) => String::new(),
    }
}

/// `"key":value` pairs of string values, comma-separated.
pub open spec fn json_members(p: Seq<(Seq<char>, Seq<char>)>) -> Seq<char>
    decreases p.len(),
{
    if p.len() == 0 {
        Seq::empty()
    } else {
        let head = json_string(p.last().0) + seq![':'] + json_string(p.last().1);
        if p.len() == 1 {
            head
        } else {
            json_members(p.drop_last()) + seq![','] + head
        }
    }
}

/// The full record of a message as one line of JSON, its keys in
/// alphabetical order.
pub open spec fn record_text(m: MessageView, checksum: Seq<char>) -> Seq<char> {
    "{\"Attributes\":{"@ + json_members(m.attributes) + "},\"Body\":"@ + json_string(m.body)
        + ",\"MD5OfBody\":"@ + json_string(checksum) + ",\"MessageId\":"@ + json_string(m.id)
        + ",\"ReceiptHandle\":"@ + json_string(m.receipt) + "}"@
}

/// The acknowledgment of a forwarded message as one line of JSON.
pub open spec fn ack_text(checksum: Seq<char>, id: Seq<char>) -> Seq<char> {
    "{\"MD5OfMessageBody\":"@ + json_string(checksum) + ",\"MessageId\":"@ + json_string(id) + "}"@
}

fn members_text(pairs: &Vec<(String, String)>) -> (r: String)
    ensures
        r@ == json_members(pairs_view(pairs@)),
{
    let mut out = String::new();
    let mut i: usize = 0;
    while i < pairs.len()
        invariant
            i <= pairs@.len(),
            out@ == json_members(pairs_view(pairs@.subrange(0, i as int))),
        decreases pairs@.len() - i,
    {
        let ghost before = pairs_view(pairs@.subrange(0, i as int));
        let ghost after = pairs_view(pairs@.subrange(0, i + 1));
        assert(after.drop_last() =~= before);
        assert(after.last() == (pairs@[i as int].0@, pairs@[i as int].1@));
        if i > 0 {
            out.append(",");
        }
        let k = json_quote(pairs[i].0.as_str());
        let v = json_quote(pairs[i].1.as_str());
        out.append(k.as_str());
        out.append(":");
        out.append(v.as_str());
        proof {
            reveal_strlit(",");
            reveal_strlit(":");
        }
        assert(out@ =~= json_members(after));
        i = i + 1;
    }
    assert(pairs@.subrange(0, i as int) =~= pairs@);
    out
}

/// The full record of a message: body, receipt handle, body checksum,
/// identity and attributes. Fails, naming the field, where the message
/// carries no body checksum.
pub fn full_record(m: &CollectedMessage) -> (r: Result<String, ReadError>)
    ensures
        match m@.checksum {
            Some(c) => r is Ok && r->Ok_0@ == record_text(m@, c),
            None => r == Err::<String, ReadError>(ReadError::MissingField(Field::BodyChecksum)),
        },
{
    match &m.md5_of_body {
        None => Err(ReadError::MissingField(Field::BodyChecksum)),
        Some(md5) => {
            let mut out = String::new();
            out.append("{\"Attributes\":{");
            let members = members_text(&m.attributes);
            out.append(members.as_str());
            out.append("},\"Body\":");
            out.append(json_quote(m.body.as_str()).as_str());
            out.append(",\"MD5OfBody\":");
            out.append(json_quote(md5.as_str()).as_str());
            out.append(",\"MessageId\":");
            out.append(json_quote(m.message_id.as_str()).as_str());
            out.append(",\"ReceiptHandle\":");
            out.append(json_quote(m.receipt_handle.as_str()).as_str());
            out.append("}");
            Ok(out)
        },
    }
}

/// The line printed for a forwarded message: the checksum and identity
/// that the destination queue gave it.
pub fn forward_ack(md5_of_body: &str, message_id: &str) -> (r: String)
    ensures
        r@ == ack_text(md5_of_body@, message_id@),
{
    let mut out = String::new();
    out.append("{\"MD5OfMessageBody\":");
    out.append(json_quote(md5_of_body).as_str());
    out.append(",\"MessageId\":");
    out.append(json_quote(message_id).as_str());
    out.append("}");
    out
}

} // verus!
