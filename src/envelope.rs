//! The envelope of the wire protocol: its model, its canonical JSON text, and
//! the decoder that reads a JSON object into an envelope whose payload fits
//! its kind, and refuses anything else.
use vstd::prelude::*;
use crate::json::{
    lemma_document_parses, member_text, members_text, value_text, document_spec, find, find_member, list_text, null_text, parse_document, quoted,
    push_one, strings_view, write_list, write_quoted, FieldValue, JsonValue, Members,
};
use crate::text::{chars_of, string_of};

verus! {

/// The kind of an envelope.
#[derive(PartialEq, Eq, Structural, Clone, Copy, Debug)]
pub enum MsgTypes {
    Users,
    Register,
    Message,
}

/// Why a text was not accepted as an envelope or a chat message.
#[derive(PartialEq, Eq, Structural, Clone, Copy, Debug)]
pub enum DecodeError {
    /// The text is not one JSON object of the shape the protocol uses.
    Malformed,
    /// `messageType` is missing, not a string, or names no known kind.
    MessageType,
    /// The payload members do not fit the kind of envelope.
    Payload,
}

/// One message of the wire protocol.
pub struct Envelope {
    pub message_type: MsgTypes,
    pub data_array: Option<Vec<String>>,
    pub data: Option<String>,
}

pub ghost struct EnvelopeView {
    pub message_type: MsgTypes,
    pub data_array: Option<Seq<Seq<char>>>,
    pub data: Option<Seq<char>>,
}

impl View for Envelope {
    type V = EnvelopeView;

    open spec fn view(&self) -> EnvelopeView {
        EnvelopeView {
            message_type: self.message_type,
            data_array: match self.data_array {
                Some(l) => Some(strings_view(l@)),
                None => None,
            },
            data: match self.data {
                Some(d) => Some(d@),
                None => None,
            },
        }
    }
}

pub open spec fn key_message_type() -> Seq<char> {
    seq!['m', 'e', 's', 's', 'a', 'g', 'e', 'T', 'y', 'p', 'e']
}

pub open spec fn key_data() -> Seq<char> {
    seq!['d', 'a', 't', 'a']
}

pub open spec fn key_data_array() -> Seq<char> {
    seq!['d', 'a', 't', 'a', 'A', 'r', 'r', 'a', 'y']
}

/// The lower-case name of a kind on the wire.
pub open spec fn kind_name(t: MsgTypes) -> Seq<char> {
    match t {
        MsgTypes::Users => seq!['u', 's', 'e', 'r', 's'],
        MsgTypes::Register => seq!['r', 'e', 'g', 'i', 's', 't', 'e', 'r'],
        MsgTypes::Message => seq!['m', 'e', 's', 's', 'a', 'g', 'e'],
    }
}

pub open spec fn kind_of_name(n: Seq<char>) -> Option<MsgTypes> {
    if n == kind_name(MsgTypes::Users) {
        Some(MsgTypes::Users)
    } else if n == kind_name(MsgTypes::Register) {
        Some(MsgTypes::Register)
    } else if n == kind_name(MsgTypes::Message) {
        Some(MsgTypes::Message)
    } else {
        None
    }
}

/// An envelope whose payload fits its kind: a `users` envelope carries a
/// name list and no text, the others a text and no list.
pub open spec fn well_formed(e: EnvelopeView) -> bool {
    match e.message_type {
        MsgTypes::Users => e.data_array is Some && e.data is None,
        _ => e.data is Some && e.data_array is None,
    }
}

/// A member that may hold a text: absent or `null` is `None`.
pub open spec fn text_member(m: Members, key: Seq<char>) -> Option<Option<Seq<char>>> {
    match find_member(m, key) {
        None => Some(None),
        Some(JsonValue::Null) => Some(None),
        Some(JsonValue::Str(t)) => Some(Some(t)),
        Some(JsonValue::StrList(_)) => None,
        Some(JsonValue::Other) => None,
    }
}

/// A member that may hold a list of texts: absent or `null` is `None`.
pub open spec fn list_member(m: Members, key: Seq<char>) -> Option<Option<Seq<Seq<char>>>> {
    match find_member(m, key) {
        None => Some(None),
        Some(JsonValue::Null) => Some(None),
        Some(JsonValue::Str(_)) => None,
        Some(JsonValue::Other) => None,
        Some(JsonValue::StrList(l)) => Some(Some(l)),
    }
}

/// The envelope that the members of an object describe.
pub open spec fn envelope_of(m: Members) -> Result<EnvelopeView, DecodeError> {
    let t = match find_member(m, key_message_type()) {
        Some(JsonValue::Str(n)) => kind_of_name(n),
        _ => None,
    };
    match t {
        None => Err(DecodeError::MessageType),
        Some(t) => match (text_member(m, key_data()), list_member(m, key_data_array())) {
            (Some(d), Some(l)) => {
                let e = EnvelopeView { message_type: t, data_array: l, data: d };
                if well_formed(e) {
                    Ok(e)
                } else {
                    Err(DecodeError::Payload)
                }
            },
            _ => Err(DecodeError::Payload),
        },
    }
}

/// What decoding the text `s` gives.
pub open spec fn decode_spec(s: Seq<char>) -> Result<EnvelopeView, DecodeError> {
    match document_spec(s) {
        None => Err(DecodeError::Malformed),
        Some(m) => envelope_of(m),
    }
}

pub open spec fn opt_text(d: Option<Seq<char>>) -> Seq<char> {
    match d {
        Some(t) => quoted(t),
        None => null_text(),
    }
}

pub open spec fn opt_list(l: Option<Seq<Seq<char>>>) -> Seq<char> {
    match l {
        Some(l) => list_text(l),
        None => null_text(),
    }
}

/// The canonical text of an envelope: the kind, then `data`, then
/// `dataArray`, absent payloads written as `null`, no whitespace.
pub open spec fn encode_spec(e: EnvelopeView) -> Seq<char> {
    seq!['{'] + quoted(key_message_type()) + seq![':'] + quoted(kind_name(e.message_type))
        + seq![','] + quoted(key_data()) + seq![':'] + opt_text(e.data) + seq![','] + quoted(
        key_data_array(),
    ) + seq![':'] + opt_list(e.data_array) + seq!['}']
}

/// A chat message as the server relays it: who sent it, and its text.
pub struct ChatMessage {
    pub from: String,
    pub message: String,
}

pub ghost struct ChatMessageView {
    pub from: Seq<char>,
    pub message: Seq<char>,
}

impl View for ChatMessage {
    type V = ChatMessageView;

    open spec fn view(&self) -> ChatMessageView {
        ChatMessageView { from: self.from@, message: self.message@ }
    }
}

pub open spec fn key_from() -> Seq<char> {
    seq!['f', 'r', 'o', 'm']
}

pub open spec fn key_message() -> Seq<char> {
    seq!['m', 'e', 's', 's', 'a', 'g', 'e']
}

/// What decoding the text `s` as a chat message gives: an object whose
/// `from` and `message` members are both strings.
pub open spec fn decode_chat_spec(s: Seq<char>) -> Result<ChatMessageView, DecodeError> {
    match document_spec(s) {
        None => Err(DecodeError::Malformed),
        Some(m) => match (find_member(m, key_from()), find_member(m, key_message())) {
            (Some(JsonValue::Str(f)), Some(JsonValue::Str(b))) => Ok(
                ChatMessageView { from: f, message: b },
            ),
            _ => Err(DecodeError::Payload),
        },
    }
}

fn message_type_key() -> (r: String)
    ensures
        r@ == key_message_type(),
{
    let v = vec!['m', 'e', 's', 's', 'a', 'g', 'e', 'T', 'y', 'p', 'e'];
    let r = string_of(&v);
    assert(r@ =~= key_message_type());
    r
}

fn data_key() -> (r: String)
    ensures
        r@ == key_data(),
{
    let v = vec!['d', 'a', 't', 'a'];
    let r = string_of(&v);
    assert(r@ =~= key_data());
    r
}

fn data_array_key() -> (r: String)
    ensures
        r@ == key_data_array(),
{
    let v = vec!['d', 'a', 't', 'a', 'A', 'r', 'r', 'a', 'y'];
    let r = string_of(&v);
    assert(r@ =~= key_data_array());
    r
}

fn from_key() -> (r: String)
    ensures
        r@ == key_from(),
{
    let v = vec!['f', 'r', 'o', 'm'];
    let r = string_of(&v);
    assert(r@ =~= key_from());
    r
}

fn message_key() -> (r: String)
    ensures
        r@ == key_message(),
{
    let v = vec!['m', 'e', 's', 's', 'a', 'g', 'e'];
    let r = string_of(&v);
    assert(r@ =~= key_message());
    r
}

/// The wire name of a kind.
pub fn kind_string(t: MsgTypes) -> (r: String)
    ensures
        r@ == kind_name(t),
{
    let v = match t {
        MsgTypes::Users => vec!['u', 's', 'e', 'r', 's'],
        MsgTypes::Register => vec!['r', 'e', 'g', 'i', 's', 't', 'e', 'r'],
        MsgTypes::Message => vec!['m', 'e', 's', 's', 'a', 'g', 'e'],
    };
    let r = string_of(&v);
    assert(r@ =~= kind_name(t));
    r
}

/// The kind whose wire name is `n`, if any.
pub fn kind_from_name(n: &String) -> (r: Option<MsgTypes>)
    ensures
        r == kind_of_name(n@),
{
    if *n == kind_string(MsgTypes::Users) {
        Some(MsgTypes::Users)
    } else if *n == kind_string(MsgTypes::Register) {
        Some(MsgTypes::Register)
    } else if *n == kind_string(MsgTypes::Message) {
        Some(MsgTypes::Message)
    } else {
        None
    }
}

fn write_null(out: &mut String)
    ensures
        final(out)@ == old(out)@ + null_text(),
{
    let ghost start = out@;
    push_one(out, 'n');
    push_one(out, 'u');
    push_one(out, 'l');
    push_one(out, 'l');
    assert(out@ =~= start + null_text());
}

/// The canonical JSON text of an envelope.
pub fn encode(e: &Envelope) -> (r: String)
    ensures
        r@ == encode_spec(e@),
{
    let mut out = String::new();
    push_one(&mut out, '{');
    write_quoted(&mut out, &message_type_key());
    push_one(&mut out, ':');
    write_quoted(&mut out, &kind_string(e.message_type));
    push_one(&mut out, ',');
    write_quoted(&mut out, &data_key());
    push_one(&mut out, ':');
    match &e.data {
        Some(d) => write_quoted(&mut out, d),
        None => write_null(&mut out),
    }
    push_one(&mut out, ',');
    write_quoted(&mut out, &data_array_key());
    push_one(&mut out, ':');
    match &e.data_array {
        Some(l) => write_list(&mut out, l),
        None => write_null(&mut out),
    }
    push_one(&mut out, '}');
    assert(out@ =~= encode_spec(e@));
    out
}

/// A copy of a list of strings.
pub fn clone_strings(v: &Vec<String>) -> (r: Vec<String>)
    ensures
        r@ == v@,
{
    let mut r: Vec<String> = Vec::new();
    let mut i: usize = 0;
    while i < v.len()
        invariant
            i <= v@.len(),
            r@ == v@.take(i as int),
        decreases v@.len() - i,
    {
        r.push(v[i].clone());
        i = i + 1;
        assert(r@ =~= v@.take(i as int));
    }
    assert(v@.take(i as int) =~= v@);
    r
}

/// Decodes an envelope from its JSON text. Members may come in any order and
/// with whitespace between tokens; of a repeated member the last one counts;
/// members of other names are passed over, whatever JSON value they hold.
pub fn decode(text: &str) -> (r: Result<Envelope, DecodeError>)
    ensures
        match r {
            Ok(e) => decode_spec(text@) == Ok::<EnvelopeView, DecodeError>(e@),
            Err(x) => decode_spec(text@) == Err::<EnvelopeView, DecodeError>(x),
        },
{
    let cs = chars_of(text);
    let m = match parse_document(&cs) {
        None => {
            return Err(DecodeError::Malformed);
        },
        Some(m) => m,
    };
    let t = match find(&m, &message_type_key()) {
        Some(FieldValue::Text(n)) => kind_from_name(n),
        _ => None,
    };
    let t = match t {
        None => {
            return Err(DecodeError::MessageType);
        },
        Some(t) => t,
    };
    let data = match find(&m, &data_key()) {
        None => None,
        Some(FieldValue::Null) => None,
        Some(FieldValue::Text(d)) => Some(d.clone()),
        Some(FieldValue::List(_)) | Some(FieldValue::Other) => {
            return Err(DecodeError::Payload);
        },
    };
    let data_array = match find(&m, &data_array_key()) {
        None => None,
        Some(FieldValue::Null) => None,
        Some(FieldValue::Text(_)) | Some(FieldValue::Other) => {
            return Err(DecodeError::Payload);
        },
        Some(FieldValue::List(l)) => Some(clone_strings(l)),
    };
    let fits = match t {
        MsgTypes::Users => data_array.is_some() && data.is_none(),
        _ => data.is_some() && data_array.is_none(),
    };
    if fits {
        Ok(Envelope { message_type: t, data_array, data })
    } else {
        Err(DecodeError::Payload)
    }
}

/// Decodes the JSON text of a chat message, as a `message` envelope from the
/// server carries it in `data`.
pub fn decode_chat_message(text: &str) -> (r: Result<ChatMessage, DecodeError>)
    ensures
        match r {
            Ok(c) => decode_chat_spec(text@) == Ok::<ChatMessageView, DecodeError>(c@),
            Err(x) => decode_chat_spec(text@) == Err::<ChatMessageView, DecodeError>(x),
        },
{
    let cs = chars_of(text);
    let m = match parse_document(&cs) {
        None => {
            return Err(DecodeError::Malformed);
        },
        Some(m) => m,
    };
    match (find(&m, &from_key()), find(&m, &message_key())) {
        (Some(FieldValue::Text(f)), Some(FieldValue::Text(b))) => Ok(
            ChatMessage { from: f.clone(), message: b.clone() },
        ),
        _ => Err(DecodeError::Payload),
    }
}

pub open spec fn text_value(d: Option<Seq<char>>) -> JsonValue {
    match d {
        Some(t) => JsonValue::Str(t),
        None => JsonValue::Null,
    }
}

pub open spec fn list_value(l: Option<Seq<Seq<char>>>) -> JsonValue {
    match l {
        Some(l) => JsonValue::StrList(l),
        None => JsonValue::Null,
    }
}

/// The members that the canonical text of an envelope holds, in order.
pub open spec fn envelope_members(e: EnvelopeView) -> Members {
    seq![
        (key_message_type(), JsonValue::Str(kind_name(e.message_type))),
        (key_data(), text_value(e.data)),
        (key_data_array(), list_value(e.data_array)),
    ]
}

proof fn lemma_encode_is_object(e: EnvelopeView)
    ensures
        encode_spec(e) == seq!['{'] + members_text(envelope_members(e)) + seq!['}'],
{
    let m = envelope_members(e);
    let m1 = m.drop_first();
    let m2 = m1.drop_first();
    assert(m2 =~= seq![(key_data_array(), list_value(e.data_array))]);
    assert(members_text(m2) == member_text(m2[0]));
    assert(members_text(m1) == member_text(m1[0]) + seq![','] + members_text(m2));
    assert(members_text(m) == member_text(m[0]) + seq![','] + members_text(m1));
    assert(value_text(text_value(e.data)) == opt_text(e.data));
    assert(value_text(list_value(e.data_array)) == opt_list(e.data_array));
    assert(encode_spec(e) =~= seq!['{'] + members_text(m) + seq!['}']);
}

proof fn lemma_find_envelope_members(e: EnvelopeView)
    ensures
        find_member(envelope_members(e), key_data_array()) == Some(list_value(e.data_array)),
        find_member(envelope_members(e), key_data()) == Some(text_value(e.data)),
        find_member(envelope_members(e), key_message_type()) == Some(
            JsonValue::Str(kind_name(e.message_type)),
        ),
{
    let m = envelope_members(e);
    assert(m.drop_last() =~= seq![m[0], m[1]]);
    assert(m.drop_last().drop_last() =~= seq![m[0]]);
    assert(key_data() != key_data_array()) by {
        assert(key_data().len() != key_data_array().len());
    }
    assert(key_message_type() != key_data_array()) by {
        assert(key_message_type().len() != key_data_array().len());
    }
    assert(key_message_type() != key_data()) by {
        assert(key_message_type().len() != key_data().len());
    }
    let m1 = m.drop_last();
    let m2 = m1.drop_last();
    assert(m.last() == m[2] && m1.last() == m[1] && m2.last() == m[0]);
    assert(find_member(m, key_data()) == find_member(m1, key_data()));
    assert(find_member(m1, key_data()) == Some(m[1].1));
    assert(find_member(m, key_message_type()) == find_member(m1, key_message_type()));
    assert(find_member(m1, key_message_type()) == find_member(m2, key_message_type()));
    assert(find_member(m2, key_message_type()) == Some(m[0].1));
}

proof fn lemma_kind_names(t: MsgTypes)
    ensures
        kind_of_name(kind_name(t)) == Some(t),
{
    assert(kind_name(MsgTypes::Users).len() != kind_name(MsgTypes::Register).len());
    assert(kind_name(MsgTypes::Users).len() != kind_name(MsgTypes::Message).len());
    assert(kind_name(MsgTypes::Register).len() != kind_name(MsgTypes::Message).len());
}

proof fn lemma_envelope_of_members(e: EnvelopeView)
    requires
        well_formed(e),
    ensures
        envelope_of(envelope_members(e)) == Ok::<EnvelopeView, DecodeError>(e),
{
    lemma_find_envelope_members(e);
    lemma_kind_names(e.message_type);
}

proof fn lemma_envelope_members_written(e: EnvelopeView)
    ensures
        envelope_members(e).len() == 3,
        forall|k: int|
            0 <= k < envelope_members(e).len() ==> !(#[trigger] envelope_members(e)[k].1 is Other),
{
    let m = envelope_members(e);
    assert(!(m[0].1 is Other) && !(m[1].1 is Other) && !(m[2].1 is Other));
}

/// Decoding the canonical text of a well-formed envelope gives that
/// envelope back.
pub proof fn lemma_round_trip(e: EnvelopeView)
    requires
        well_formed(e),
    ensures
        decode_spec(encode_spec(e)) == Ok::<EnvelopeView, DecodeError>(e),
{
    let m = envelope_members(e);
    lemma_encode_is_object(e);
    lemma_envelope_members_written(e);
    lemma_document_parses(m);
    lemma_envelope_of_members(e);
}

} // verus!
