//! The wire codec: envelopes and chat payloads to and from frame text.
//!
//! An envelope travels as a JSON object with the members `messageType`,
//! `dataArray` and `data`, written in that order. Reading is more liberal
//! than writing: members may come in any order and with whitespace between
//! the tokens, `dataArray` and `data` may be left out, and members with
//! other keys are skipped. A key of the format that occurs twice makes the
//! frame malformed.

use vstd::prelude::*;
use crate::document::{
    document, member_models, parse_document, texts, Field, FieldModel, Member, MemberModel,
};
use crate::text::push_char;
use crate::written::{
    lemma_document_reads_back, lemma_written_three, push_string_member, push_strings_member,
    string_field, strings_field, written_document,
};

verus! {

/// The tag of an envelope.
#[derive(Debug, Clone, Copy, PartialEq, Eq, Structural)]
pub enum MsgTypes {
    Users,
    Register,
    Message,
}

/// The envelope as the program holds it.
#[derive(Debug, PartialEq, Eq)]
pub struct WebSocketMessage {
    pub message_type: MsgTypes,
    pub data_array: Option<Vec<String>>,
    pub data: Option<String>,
}

/// The envelope as the contracts speak of it.
pub struct Envelope {
    pub message_type: MsgTypes,
    pub data_array: Option<Seq<Seq<char>>>,
    pub data: Option<Seq<char>>,
}

impl View for WebSocketMessage {
    type V = Envelope;

    open spec fn view(&self) -> Envelope {
        Envelope {
            message_type: self.message_type,
            data_array: match self.data_array {
                None => None,
                Some(items) => Some(texts(items@)),
            },
            data: match self.data {
                None => None,
                Some(text) => Some(text@),
            },
        }
    }
}

impl Envelope {
    /// Whether the envelope holds what its tag calls for and nothing else:
    /// a list of names for `Users`, a text for `Register` and `Message`.
    ///
    /// Every envelope that this crate makes is of that kind. Decoding asks
    /// for less: it takes any envelope that the wire format can carry.
    pub open spec fn is_well_formed(self) -> bool {
        match self.message_type {
            MsgTypes::Users => self.data_array is Some && self.data is None,
            MsgTypes::Register => self.data is Some && self.data_array is None,
            MsgTypes::Message => self.data is Some && self.data_array is None,
        }
    }
}

impl WebSocketMessage {
    /// The envelope that lists the users called `names`.
    pub fn users(names: Vec<String>) -> (message: WebSocketMessage)
        ensures
            message@ == (Envelope {
                message_type: MsgTypes::Users,
                data_array: Some(texts(names@)),
                data: None,
            }),
            message@.is_well_formed(),
    {
        WebSocketMessage { message_type: MsgTypes::Users, data_array: Some(names), data: None }
    }

    /// The envelope that announces the user called `identity`.
    pub fn register(identity: String) -> (message: WebSocketMessage)
        ensures
            message@ == (Envelope {
                message_type: MsgTypes::Register,
                data_array: None,
                data: Some(identity@),
            }),
            message@.is_well_formed(),
    {
        WebSocketMessage { message_type: MsgTypes::Register, data_array: None, data: Some(identity) }
    }

    /// The envelope that carries the text `data` as a chat message.
    pub fn message(data: String) -> (message: WebSocketMessage)
        ensures
            message@ == (Envelope {
                message_type: MsgTypes::Message,
                data_array: None,
                data: Some(data@),
            }),
            message@.is_well_formed(),
    {
        WebSocketMessage { message_type: MsgTypes::Message, data_array: None, data: Some(data) }
    }

    /// Decides [`Envelope::is_well_formed`].
    pub fn is_well_formed(&self) -> (b: bool)
        ensures
            b == self@.is_well_formed(),
    {
        match self.message_type {
            MsgTypes::Users => self.data_array.is_some() && self.data.is_none(),
            MsgTypes::Register => self.data.is_some() && self.data_array.is_none(),
            MsgTypes::Message => self.data.is_some() && self.data_array.is_none(),
        }
    }
}

/// A chat message as the program holds it.
#[derive(Debug, PartialEq, Eq)]
pub struct MessageData {
    pub from: String,
    pub message: String,
}

/// A chat message as the contracts speak of it.
pub struct ChatPayload {
    pub from: Seq<char>,
    pub message: Seq<char>,
}

impl View for MessageData {
    type V = ChatPayload;

    open spec fn view(&self) -> ChatPayload {
        ChatPayload { from: self.from@, message: self.message@ }
    }
}

/// Why a frame could not be decoded.
#[derive(Debug, Clone, Copy, PartialEq, Eq, Structural)]
pub enum DecodeError {
    /// The text is not a well-formed document of the expected shape.
    Malformed,
    /// The document is well formed, but its tag is none of the known ones.
    UnknownTag,
}

pub open spec fn key_type() -> Seq<char> {
    "messageType"@
}

pub open spec fn key_array() -> Seq<char> {
    "dataArray"@
}

pub open spec fn key_data() -> Seq<char> {
    "data"@
}

pub open spec fn key_from() -> Seq<char> {
    "from"@
}

pub open spec fn key_message() -> Seq<char> {
    "message"@
}

/// How a tag is spelled on the wire.
pub open spec fn tag_text(tag: MsgTypes) -> Seq<char> {
    match tag {
        MsgTypes::Users => "users"@,
        MsgTypes::Register => "register"@,
        MsgTypes::Message => "message"@,
    }
}

/// The tag that is spelled `text`.
pub open spec fn tag_of(text: Seq<char>) -> Option<MsgTypes> {
    if text == tag_text(MsgTypes::Users) {
        Some(MsgTypes::Users)
    } else if text == tag_text(MsgTypes::Register) {
        Some(MsgTypes::Register)
    } else if text == tag_text(MsgTypes::Message) {
        Some(MsgTypes::Message)
    } else {
        None
    }
}

/// The keys of the envelope differ from one another, and so do those of the
/// payload and the spellings of the tags.
pub proof fn lemma_names_differ()
    ensures
        key_type() != key_array(),
        key_type() != key_data(),
        key_array() != key_data(),
        key_from() != key_message(),
        tag_text(MsgTypes::Users) != tag_text(MsgTypes::Register),
        tag_text(MsgTypes::Users) != tag_text(MsgTypes::Message),
        tag_text(MsgTypes::Register) != tag_text(MsgTypes::Message),
{
    reveal_strlit("messageType");
    reveal_strlit("dataArray");
    reveal_strlit("data");
    reveal_strlit("from");
    reveal_strlit("message");
    reveal_strlit("users");
    reveal_strlit("register");
    assert(key_type().len() == 11);
    assert(key_array().len() == 9);
    assert(key_data().len() == 4);
    assert(key_from().len() == 4);
    assert(key_message().len() == 7);
    assert(tag_text(MsgTypes::Users).len() == 5);
    assert(tag_text(MsgTypes::Register).len() == 8);
    assert(tag_text(MsgTypes::Message).len() == 7);
}

/// What a list of members holds under one key.
pub enum Lookup {
    /// No member has the key.
    Absent,
    /// Exactly one member has the key, with this value.
    Found(FieldModel),
    /// More than one member has the key.
    Repeated,
}

/// What `members` holds under `key`.
pub open spec fn lookup(members: Seq<MemberModel>, key: Seq<char>) -> Lookup
    decreases members.len(),
{
    if members.len() == 0 {
        Lookup::Absent
    } else {
        let before = lookup(members.drop_last(), key);
        if members.last().key != key {
            before
        } else if before is Absent {
            Lookup::Found(members.last().value)
        } else {
            Lookup::Repeated
        }
    }
}

/// A member that must be there and hold a string.
pub open spec fn required_string(found: Lookup) -> Option<Seq<char>> {
    match found {
        Lookup::Found(FieldModel::Str(text)) => Some(text),
        _ => None,
    }
}

/// Whether a member is left out, `null` or a string.
pub open spec fn is_optional_string(found: Lookup) -> bool {
    found is Absent || found == Lookup::Found(FieldModel::Null) || required_string(found) is Some
}

/// A member that holds an array of strings.
pub open spec fn found_strings(found: Lookup) -> Option<Seq<Seq<char>>> {
    match found {
        Lookup::Found(FieldModel::StrArray(items)) => Some(items),
        _ => None,
    }
}

/// Whether a member is left out, `null` or an array of strings.
pub open spec fn is_optional_strings(found: Lookup) -> bool {
    found is Absent || found == Lookup::Found(FieldModel::Null) || found_strings(found) is Some
}

/// The envelope that a list of members stands for.
pub open spec fn envelope_of(members: Seq<MemberModel>) -> Result<Envelope, DecodeError> {
    let tag = required_string(lookup(members, key_type()));
    let array = lookup(members, key_array());
    let data = lookup(members, key_data());
    if tag is None || !is_optional_strings(array) || !is_optional_string(data) {
        Err(DecodeError::Malformed)
    } else {
        match tag_of(tag->0) {
            None => Err(DecodeError::UnknownTag),
            Some(message_type) => Ok(
                Envelope {
                    message_type,
                    data_array: found_strings(array),
                    data: required_string(data),
                },
            ),
        }
    }
}

/// What decoding the frame `text` gives.
pub open spec fn decode_spec(text: Seq<char>) -> Result<Envelope, DecodeError> {
    match document(text) {
        None => Err(DecodeError::Malformed),
        Some(members) => envelope_of(members),
    }
}

/// The chat payload that a list of members stands for.
pub open spec fn payload_of(members: Seq<MemberModel>) -> Result<ChatPayload, DecodeError> {
    let from = required_string(lookup(members, key_from()));
    let message = required_string(lookup(members, key_message()));
    if from is None || message is None {
        Err(DecodeError::Malformed)
    } else {
        Ok(ChatPayload { from: from->0, message: message->0 })
    }
}

/// What decoding the payload `text` gives.
pub open spec fn payload_spec(text: Seq<char>) -> Result<ChatPayload, DecodeError> {
    match document(text) {
        None => Err(DecodeError::Malformed),
        Some(members) => payload_of(members),
    }
}

/// The members of an envelope, in the order in which they are written.
pub open spec fn members_of(e: Envelope) -> Seq<MemberModel> {
    seq![
        MemberModel { key: key_type(), value: FieldModel::Str(tag_text(e.message_type)) },
        MemberModel { key: key_array(), value: strings_field(e.data_array) },
        MemberModel { key: key_data(), value: string_field(e.data) },
    ]
}

/// The frame that carries the envelope `e`.
pub open spec fn encode_spec(e: Envelope) -> Seq<char> {
    written_document(members_of(e))
}

/// A decoding result, as the contracts speak of it.
pub open spec fn decoded(r: Result<WebSocketMessage, DecodeError>) -> Result<
    Envelope,
    DecodeError,
> {
    match r {
        Ok(message) => Ok(message@),
        Err(e) => Err(e),
    }
}

/// A payload decoding result, as the contracts speak of it.
pub open spec fn decoded_payload(r: Result<MessageData, DecodeError>) -> Result<
    ChatPayload,
    DecodeError,
> {
    match r {
        Ok(payload) => Ok(payload@),
        Err(e) => Err(e),
    }
}

/// What has been found under one key while walking a list of members.
enum Slot {
    Absent,
    Found(Field),
    Repeated,
}

impl View for Slot {
    type V = Lookup;

    closed spec fn view(&self) -> Lookup {
        match self {
            Slot::Absent => Lookup::Absent,
            Slot::Found(field) => Lookup::Found(field@),
            Slot::Repeated => Lookup::Repeated,
        }
    }
}

impl Slot {
    /// The slot after one more member with the key, holding `value`.
    fn put(self, value: Field) -> (r: Slot)
        ensures
            r@ == if self@ is Absent {
                Lookup::Found(value@)
            } else {
                Lookup::Repeated
            },
    {
        match self {
            Slot::Absent => Slot::Found(value),
            _ => Slot::Repeated,
        }
    }

    fn into_required_string(self) -> (r: Option<String>)
        ensures
            match r {
                None => required_string(self@) is None,
                Some(text) => required_string(self@) == Some(text@),
            },
    {
        match self {
            Slot::Found(Field::Str(text)) => Some(text),
            _ => None,
        }
    }

    /// `Err` where the member is neither left out, nor `null`, nor a string.
    fn into_optional_string(self) -> (r: Result<Option<String>, DecodeError>)
        ensures
            match r {
                Err(e) => e == DecodeError::Malformed && !is_optional_string(self@),
                Ok(None) => is_optional_string(self@) && required_string(self@) is None,
                Ok(Some(text)) => required_string(self@) == Some(text@),
            },
    {
        match self {
            Slot::Absent => Ok(None),
            Slot::Found(Field::Null) => Ok(None),
            Slot::Found(Field::Str(text)) => Ok(Some(text)),
            _ => Err(DecodeError::Malformed),
        }
    }

    /// `Err` where the member is neither left out, nor `null`, nor an array
    /// of strings.
    fn into_optional_strings(self) -> (r: Result<Option<Vec<String>>, DecodeError>)
        ensures
            match r {
                Err(e) => e == DecodeError::Malformed && !is_optional_strings(self@),
                Ok(None) => is_optional_strings(self@) && found_strings(self@) is None,
                Ok(Some(items)) => found_strings(self@) == Some(texts(items@)),
            },
    {
        match self {
            Slot::Absent => Ok(None),
            Slot::Found(Field::Null) => Ok(None),
            Slot::Found(Field::StrArray(items)) => Ok(Some(items)),
            _ => Err(DecodeError::Malformed),
        }
    }
}

/// The wire spelling of a tag.
pub fn tag_name(tag: MsgTypes) -> (name: &'static str)
    ensures
        name@ == tag_text(tag),
{
    match tag {
        MsgTypes::Users => "users",
        MsgTypes::Register => "register",
        MsgTypes::Message => "message",
    }
}

/// The tag with the wire spelling `text`, if there is one.
pub fn tag_from(text: &str) -> (tag: Option<MsgTypes>)
    ensures
        tag == tag_of(text@),
{
    let text = text.to_owned();
    if text == "users".to_owned() {
        Some(MsgTypes::Users)
    } else if text == "register".to_owned() {
        Some(MsgTypes::Register)
    } else if text == "message".to_owned() {
        Some(MsgTypes::Message)
    } else {
        None
    }
}

/// Picks the members of an envelope out of a list of members.
pub fn envelope_from(members: Vec<Member>) -> (r: Result<WebSocketMessage, DecodeError>)
    ensures
        decoded(r) == envelope_of(member_models(members@)),
{
    let ghost models = member_models(members@);
    let type_key = "messageType".to_owned();
    let array_key = "dataArray".to_owned();
    let data_key = "data".to_owned();
    let mut tag = Slot::Absent;
    let mut array = Slot::Absent;
    let mut data = Slot::Absent;
    for member in it: members
        invariant
            it.seq() == members@,
            models == member_models(members@),
            type_key@ == key_type(),
            array_key@ == key_array(),
            data_key@ == key_data(),
            tag@ == lookup(models.take(it.index() as int), key_type()),
            array@ == lookup(models.take(it.index() as int), key_array()),
            data@ == lookup(models.take(it.index() as int), key_data()),
    {
        proof {
            let k = it.index() as int;
            assert(models.take(k + 1).drop_last() =~= models.take(k));
            assert(models.take(k + 1).last() == member@);
            lemma_names_differ();
        }
        let Member { key, value } = member;
        if key == type_key {
            tag = tag.put(value);
        } else if key == array_key {
            array = array.put(value);
        } else if key == data_key {
            data = data.put(value);
        }
    }
    assert(models.take(models.len() as int) =~= models);
    let tag = tag.into_required_string();
    let array = array.into_optional_strings();
    let data = data.into_optional_string();
    match (tag, array, data) {
        (Some(tag), Ok(data_array), Ok(data)) => match tag_from(tag.as_str()) {
            None => Err(DecodeError::UnknownTag),
            Some(message_type) => Ok(WebSocketMessage { message_type, data_array, data }),
        },
        _ => Err(DecodeError::Malformed),
    }
}

/// Picks the members of a chat payload out of a list of members.
pub fn payload_from(members: Vec<Member>) -> (r: Result<MessageData, DecodeError>)
    ensures
        decoded_payload(r) == payload_of(member_models(members@)),
{
    let ghost models = member_models(members@);
    let from_key = "from".to_owned();
    let message_key = "message".to_owned();
    let mut from = Slot::Absent;
    let mut message = Slot::Absent;
    for member in it: members
        invariant
            it.seq() == members@,
            models == member_models(members@),
            from_key@ == key_from(),
            message_key@ == key_message(),
            from@ == lookup(models.take(it.index() as int), key_from()),
            message@ == lookup(models.take(it.index() as int), key_message()),
    {
        proof {
            let k = it.index() as int;
            assert(models.take(k + 1).drop_last() =~= models.take(k));
            assert(models.take(k + 1).last() == member@);
            lemma_names_differ();
        }
        let Member { key, value } = member;
        if key == from_key {
            from = from.put(value);
        } else if key == message_key {
            message = message.put(value);
        }
    }
    assert(models.take(models.len() as int) =~= models);
    match (from.into_required_string(), message.into_required_string()) {
        (Some(from), Some(message)) => Ok(MessageData { from, message }),
        _ => Err(DecodeError::Malformed),
    }
}

/// Decodes a frame.
///
/// Gives `Malformed` where the text is not a JSON document with an object at
/// its top, where a key of the format occurs twice, where `messageType` is
/// missing or not a string, where `dataArray` is neither left out, nor
/// `null`, nor an array of strings, and where `data` is neither left out,
/// nor `null`, nor a string. Gives `UnknownTag` where all of that is in
/// order and the tag is none of the known ones.
pub fn decode(text: &str) -> (r: Result<WebSocketMessage, DecodeError>)
    ensures
        decoded(r) == decode_spec(text@),
{
    match parse_document(text) {
        None => Err(DecodeError::Malformed),
        Some(members) => envelope_from(members),
    }
}

/// Decodes the payload of a chat message: a JSON object whose members
/// `from` and `message` are both there, once, and hold strings.
pub fn decode_chat_payload(text: &str) -> (r: Result<MessageData, DecodeError>)
    ensures
        decoded_payload(r) == payload_spec(text@),
{
    match parse_document(text) {
        None => Err(DecodeError::Malformed),
        Some(members) => payload_from(members),
    }
}

/// Encodes an envelope: the members `messageType`, `dataArray` and `data`,
/// in that order, with `null` for what is absent and no whitespace.
pub fn encode(message: &WebSocketMessage) -> (text: String)
    ensures
        text@ == encode_spec(message@),
{
    let ghost members = members_of(message@);
    let mut out = String::new();
    push_char(&mut out, '{');
    let tag = Some(tag_name(message.message_type).to_owned());
    push_string_member(&mut out, "messageType", &tag);
    push_char(&mut out, ',');
    push_strings_member(&mut out, "dataArray", &message.data_array);
    push_char(&mut out, ',');
    push_string_member(&mut out, "data", &message.data);
    push_char(&mut out, '}');
    proof {
        lemma_written_three(members[0], members[1], members[2]);
        assert(members =~= seq![members[0], members[1], members[2]]);
    }
    out
}

/// A key that no member has is absent.
pub proof fn lemma_lookup_absent(members: Seq<MemberModel>, key: Seq<char>)
    requires
        forall|j: int| 0 <= j < members.len() ==> (#[trigger] members[j]).key != key,
    ensures
        lookup(members, key) is Absent,
    decreases members.len(),
{
    if members.len() > 0 {
        let front = members.drop_last();
        assert forall|j: int| 0 <= j < front.len() implies (#[trigger] front[j]).key != key by {
            assert(front[j] == members[j]);
        }
        lemma_lookup_absent(front, key);
        assert(members.last() == members[members.len() - 1]);
    }
}

/// A key that exactly one member has is found with that member's value.
pub proof fn lemma_lookup_unique(members: Seq<MemberModel>, k: int)
    requires
        0 <= k < members.len(),
        forall|j: int|
            0 <= j < members.len() && j != k ==> (#[trigger] members[j]).key != members[k].key,
    ensures
        lookup(members, members[k].key) == Lookup::Found(members[k].value),
    decreases members.len(),
{
    let key = members[k].key;
    let front = members.drop_last();
    assert(members.last() == members[members.len() - 1]);
    if k == members.len() - 1 {
        assert forall|j: int| 0 <= j < front.len() implies (#[trigger] front[j]).key != key by {
            assert(front[j] == members[j]);
        }
        lemma_lookup_absent(front, key);
    } else {
        assert(front[k] == members[k]);
        assert forall|j: int| 0 <= j < front.len() && j != k implies (#[trigger] front[j]).key
            != front[k].key by {
            assert(front[j] == members[j]);
        }
        lemma_lookup_unique(front, k);
    }
}

/// The spelling of a tag names that tag and no other.
pub proof fn lemma_tag_of_text(tag: MsgTypes)
    ensures
        tag_of(tag_text(tag)) == Some(tag),
{
    lemma_names_differ();
}

/// The members of an envelope stand for that envelope.
pub proof fn lemma_envelope_of_members(e: Envelope)
    ensures
        envelope_of(members_of(e)) == Ok::<Envelope, DecodeError>(e),
{
    let members = members_of(e);
    lemma_names_differ();
    lemma_tag_of_text(e.message_type);
    lemma_lookup_unique(members, 0);
    lemma_lookup_unique(members, 1);
    lemma_lookup_unique(members, 2);
}

/// Decoding undoes encoding: the frame that carries an envelope decodes to
/// that envelope, whatever the envelope holds.
pub proof fn lemma_decode_encode(e: Envelope)
    ensures
        decode_spec(encode_spec(e)) == Ok::<Envelope, DecodeError>(e),
{
    let members = members_of(e);
    lemma_document_reads_back(members);
    lemma_envelope_of_members(e);
}

} // verus!
