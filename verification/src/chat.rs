//! The chat state machine: a roster of users and a log of messages, and the
//! transitions that inbound envelopes and the user's own input cause.
//!
//! The machine does no input or output of its own. Each transition takes an
//! event and gives back what the caller has to do: whether to draw the state
//! again, and which frame, if any, to hand to the transport.

use vstd::prelude::*;
use vstd::string::StringExecFns;
use crate::codec::{
    decode, decode_chat_payload, decode_spec, encode, encode_spec, payload_spec, ChatPayload,
    DecodeError, Envelope, MessageData, MsgTypes, WebSocketMessage,
};
use crate::document::texts;
use crate::written::text_of;

verus! {

/// A user of the roster as the program holds it.
#[derive(Debug, Clone, PartialEq, Eq)]
pub struct UserProfile {
    pub name: String,
    pub avatar: String,
}

/// A user of the roster as the contracts speak of it.
pub struct Profile {
    pub name: Seq<char>,
    pub avatar: Seq<char>,
}

impl View for UserProfile {
    type V = Profile;

    open spec fn view(&self) -> Profile {
        Profile { name: self.name@, avatar: self.avatar@ }
    }
}

pub open spec fn avatar_prefix() -> Seq<char> {
    "https://avatars.dicebear.com/api/adventurer-neutral/"@
}

pub open spec fn avatar_suffix() -> Seq<char> {
    ".svg"@
}

/// The name under which a sender is drawn who is not in the roster.
pub open spec fn anonymous() -> Seq<char> {
    "anonymous"@
}

/// The address of the avatar of the user called `name`.
pub open spec fn avatar_of(name: Seq<char>) -> Seq<char> {
    avatar_prefix() + name + avatar_suffix()
}

/// The profile of the user called `name`.
pub open spec fn profile_of(name: Seq<char>) -> Profile {
    Profile { name, avatar: avatar_of(name) }
}

/// The roster made of the users with the given names, in the same order.
pub open spec fn roster_of(names: Seq<Seq<char>>) -> Seq<Profile> {
    Seq::new(names.len(), |i: int| profile_of(names[i]))
}

/// The profile that stands in for a sender who is not in the roster: the
/// sender's own name with the avatar of [`anonymous`].
pub open spec fn placeholder(from: Seq<char>) -> Profile {
    Profile { name: from, avatar: avatar_of(anonymous()) }
}

/// The first user of `users` called `from`.
pub open spec fn find_profile(users: Seq<Profile>, from: Seq<char>) -> Option<Profile>
    decreases users.len(),
{
    if users.len() == 0 {
        None
    } else if users[0].name == from {
        Some(users[0])
    } else {
        find_profile(users.drop_first(), from)
    }
}

/// The profile under which a message from `from` is drawn.
pub open spec fn display_profile(users: Seq<Profile>, from: Seq<char>) -> Profile {
    match find_profile(users, from) {
        Some(profile) => profile,
        None => placeholder(from),
    }
}

/// The state of a chat session as the contracts speak of it.
pub struct ChatState {
    pub users: Seq<Profile>,
    pub messages: Seq<ChatPayload>,
}

/// The state of a session that has seen no event.
pub open spec fn initial_state() -> ChatState {
    ChatState { users: Seq::empty(), messages: Seq::empty() }
}

/// The payload that a `Message` envelope carries, if its `data` is there
/// and decodes.
pub open spec fn message_payload(e: Envelope) -> Option<ChatPayload> {
    match e.data {
        Some(text) => match payload_spec(text) {
            Ok(payload) => if e.message_type == MsgTypes::Message {
                Some(payload)
            } else {
                None
            },
            Err(_) => None,
        },
        None => None,
    }
}

/// The names that a `Users` envelope carries; none where `data_array` is
/// absent.
pub open spec fn roster_names(e: Envelope) -> Seq<Seq<char>> {
    match e.data_array {
        Some(names) => names,
        None => Seq::empty(),
    }
}

/// The state after the inbound envelope `e`.
pub open spec fn apply_spec(state: ChatState, e: Envelope) -> ChatState {
    match e.message_type {
        MsgTypes::Users => ChatState { users: roster_of(roster_names(e)), messages: state.messages },
        MsgTypes::Message => match message_payload(e) {
            Some(payload) => ChatState {
                users: state.users,
                messages: state.messages.push(payload),
            },
            None => state,
        },
        MsgTypes::Register => state,
    }
}

/// Why the inbound envelope `e` is dropped, if it is: a `Message` whose
/// `data` is absent or does not decode.
pub open spec fn dropped_spec(e: Envelope) -> Option<DecodeError> {
    if e.message_type == MsgTypes::Message {
        match e.data {
            None => Some(DecodeError::Malformed),
            Some(text) => match payload_spec(text) {
                Ok(_) => None,
                Err(error) => Some(error),
            },
        }
    } else {
        None
    }
}

/// Whether the inbound envelope `e` calls for the state to be drawn again.
pub open spec fn redraw_spec(e: Envelope) -> bool {
    match e.message_type {
        MsgTypes::Users => true,
        MsgTypes::Message => message_payload(e) is Some,
        MsgTypes::Register => false,
    }
}

/// What folding the inbound envelope `e` into the state reports: whether to
/// draw again, or why the envelope was dropped.
pub open spec fn outcome_spec(e: Envelope) -> Result<bool, DecodeError> {
    match dropped_spec(e) {
        Some(error) => Err(error),
        None => Ok(redraw_spec(e)),
    }
}

/// The state after the inbound frame `text`: a frame that does not decode
/// changes nothing.
pub open spec fn receive_spec(state: ChatState, text: Seq<char>) -> ChatState {
    match decode_spec(text) {
        Ok(e) => apply_spec(state, e),
        Err(_) => state,
    }
}

/// Whether the inbound frame `text` calls for the state to be drawn again.
pub open spec fn receive_redraw(text: Seq<char>) -> bool {
    match decode_spec(text) {
        Ok(e) => redraw_spec(e),
        Err(_) => false,
    }
}

/// Why the inbound frame `text` is dropped, if it is.
pub open spec fn receive_dropped(text: Seq<char>) -> Option<DecodeError> {
    match decode_spec(text) {
        Ok(e) => dropped_spec(e),
        Err(error) => Some(error),
    }
}

/// The state after the envelopes `events`, taken in order.
pub open spec fn replay(state: ChatState, events: Seq<Envelope>) -> ChatState
    decreases events.len(),
{
    if events.len() == 0 {
        state
    } else {
        apply_spec(replay(state, events.drop_last()), events.last())
    }
}

/// The envelope that announces the local user.
pub open spec fn register_envelope(identity: Seq<char>) -> Envelope {
    Envelope { message_type: MsgTypes::Register, data_array: None, data: Some(identity) }
}

/// The envelope that carries what the user typed.
pub open spec fn message_envelope(input: Seq<char>) -> Envelope {
    Envelope { message_type: MsgTypes::Message, data_array: None, data: Some(input) }
}

/// The frame to send for what the user typed: none for empty input.
pub open spec fn compose_spec(input: Seq<char>) -> Option<Seq<char>> {
    if input.len() == 0 {
        None
    } else {
        Some(encode_spec(message_envelope(input)))
    }
}

/// The models of a list of profiles.
pub open spec fn profiles(v: Seq<UserProfile>) -> Seq<Profile> {
    Seq::new(v.len(), |i: int| v[i]@)
}

/// The models of a list of chat messages.
pub open spec fn payloads(v: Seq<MessageData>) -> Seq<ChatPayload> {
    Seq::new(v.len(), |i: int| v[i]@)
}

/// An event for the state machine.
#[derive(Debug, PartialEq, Eq)]
pub enum Msg {
    /// A frame came in from the transport.
    HandleMsg(String),
    /// The user submitted the text that the input field holds.
    SubmitMessage(String),
}

/// What the caller has to do after a transition.
#[derive(Debug, PartialEq, Eq)]
pub struct Effect {
    /// Draw the state again.
    pub redraw: bool,
    /// Hand this frame to the transport, and clear the input field once the
    /// transport has taken it.
    pub outbound: Option<String>,
    /// The inbound frame was dropped, for this reason.
    pub dropped: Option<DecodeError>,
}

/// Why the transport did not take a frame.
#[derive(Debug, Clone, Copy, PartialEq, Eq, Structural)]
pub enum SendError {
    /// The transport refused the frame.
    Rejected,
    /// The frame could not be put in the transport's queue.
    NotEnqueued,
}

/// The state of a chat session.
pub struct Chat {
    users: Vec<UserProfile>,
    messages: Vec<MessageData>,
}

impl View for Chat {
    type V = ChatState;

    closed spec fn view(&self) -> ChatState {
        ChatState { users: profiles(self.users@), messages: payloads(self.messages@) }
    }
}

/// The address of the avatar of the user called `name`.
pub fn avatar_url(name: &str) -> (url: String)
    ensures
        url@ == avatar_of(name@),
{
    let mut url = "https://avatars.dicebear.com/api/adventurer-neutral/".to_owned();
    url.append(name);
    url.append(".svg");
    url
}

/// The frame that announces the local user to the server.
pub fn register_frame(identity: &str) -> (frame: String)
    ensures
        frame@ == encode_spec(register_envelope(identity@)),
{
    encode(&WebSocketMessage::register(identity.to_owned()))
}

/// The frame to send for what the user typed, or `None` for empty input,
/// for which nothing is sent.
pub fn compose(input: &str) -> (frame: Option<String>)
    ensures
        text_of(frame) == compose_spec(input@),
{
    if input.is_empty() {
        None
    } else {
        Some(encode(&WebSocketMessage::message(input.to_owned())))
    }
}

/// Whether the input field is to be cleared after a frame was handed to the
/// transport: only if the transport took it.
pub fn clears_input(outcome: &Result<(), SendError>) -> (clear: bool)
    ensures
        clear == (outcome is Ok),
{
    match outcome {
        Ok(_) => true,
        Err(_) => false,
    }
}

/// The roster for the given names.
fn roster(names: Vec<String>) -> (users: Vec<UserProfile>)
    ensures
        profiles(users@) == roster_of(texts(names@)),
{
    let ghost all = texts(names@);
    let mut users: Vec<UserProfile> = Vec::new();
    assert(profiles(users@) =~= roster_of(all.take(0)));
    for name in it: names
        invariant
            it.seq() == names@,
            all == texts(names@),
            profiles(users@) == roster_of(all.take(it.index() as int)),
    {
        let avatar = avatar_url(name.as_str());
        let user = UserProfile { name, avatar };
        proof {
            let k = it.index() as int;
            let grown = profiles(users@.push(user));
            let wanted = roster_of(all.take(k + 1));
            assert(all[k] == name@);
            assert(roster_of(all.take(k)).len() == k);
            assert forall|j: int| 0 <= j < grown.len() implies grown[j] == wanted[j] by {
                if j < k {
                    assert(profiles(users@)[j] == roster_of(all.take(k))[j]);
                }
            }
            assert(grown =~= wanted);
        }
        users.push(user);
    }
    assert(all.take(all.len() as int) =~= all);
    users
}

impl Chat {
    /// A session that has seen no event.
    pub fn new() -> (chat: Chat)
        ensures
            chat@ == initial_state(),
    {
        let chat = Chat { users: Vec::new(), messages: Vec::new() };
        assert(profiles(chat.users@) =~= Seq::<Profile>::empty());
        assert(payloads(chat.messages@) =~= Seq::<ChatPayload>::empty());
        chat
    }

    /// Starts a session for the user `username`: gives the empty state and
    /// the frame that registers the user, which the caller hands to the
    /// transport once.
    pub fn create(username: &str) -> (started: (Chat, String))
        ensures
            started.0@ == initial_state(),
            started.1@ == encode_spec(register_envelope(username@)),
    {
        (Chat::new(), register_frame(username))
    }

    /// The roster, in the order in which the server listed it.
    pub fn users(&self) -> (users: &Vec<UserProfile>)
        ensures
            profiles(users@) == self@.users,
    {
        &self.users
    }

    /// The message log, in the order of arrival.
    pub fn messages(&self) -> (messages: &Vec<MessageData>)
        ensures
            payloads(messages@) == self@.messages,
    {
        &self.messages
    }

    /// Folds one inbound envelope into the state and says whether the state
    /// is to be drawn again.
    ///
    /// `Users` replaces the roster by the profiles of the listed names.
    /// `Message` appends the payload that `data` holds; where `data` is
    /// absent or does not decode, the envelope is dropped, the state stays
    /// as it was and the error says why. `Register` is ignored.
    pub fn apply(&mut self, envelope: WebSocketMessage) -> (outcome: Result<bool, DecodeError>)
        ensures
            final(self)@ == apply_spec(old(self)@, envelope@),
            outcome == outcome_spec(envelope@),
    {
        let WebSocketMessage { message_type, data_array, data } = envelope;
        match message_type {
            MsgTypes::Users => {
                let names = match data_array {
                    Some(names) => names,
                    None => {
                        let names: Vec<String> = Vec::new();
                        assert(texts(names@) =~= Seq::<Seq<char>>::empty());
                        names
                    },
                };
                self.users = roster(names);
                Ok(true)
            },
            MsgTypes::Message => match data {
                None => Err(DecodeError::Malformed),
                Some(text) => match decode_chat_payload(text.as_str()) {
                    Err(error) => Err(error),
                    Ok(payload) => {
                        assert(payloads(self.messages@.push(payload)) =~= payloads(
                            self.messages@,
                        ).push(payload@));
                        self.messages.push(payload);
                        Ok(true)
                    },
                },
            },
            MsgTypes::Register => Ok(false),
        }
    }

    /// Takes one event.
    ///
    /// An inbound frame is decoded and folded into the state; a frame that
    /// does not decode is dropped and changes nothing, and its error is
    /// given back. Submitted input never changes the state: it gives the frame to
    /// send, or nothing for empty input.
    pub fn update(&mut self, msg: Msg) -> (effect: Effect)
        ensures
            match msg {
                Msg::HandleMsg(text) => {
                    &&& final(self)@ == receive_spec(old(self)@, text@)
                    &&& effect.redraw == receive_redraw(text@)
                    &&& effect.dropped == receive_dropped(text@)
                    &&& effect.outbound is None
                },
                Msg::SubmitMessage(input) => {
                    &&& final(self)@ == old(self)@
                    &&& !effect.redraw
                    &&& effect.dropped is None
                    &&& text_of(effect.outbound) == compose_spec(input@)
                },
            },
    {
        match msg {
            Msg::HandleMsg(text) => match decode(text.as_str()) {
                Ok(envelope) => match self.apply(envelope) {
                    Ok(redraw) => Effect { redraw, outbound: None, dropped: None },
                    Err(error) => Effect { redraw: false, outbound: None, dropped: Some(error) },
                },
                Err(error) => Effect { redraw: false, outbound: None, dropped: Some(error) },
            },
            Msg::SubmitMessage(input) => Effect {
                redraw: false,
                outbound: compose(input.as_str()),
                dropped: None,
            },
        }
    }

    /// The first user of the roster called `name`, if there is one.
    pub fn find_user(&self, name: &str) -> (found: Option<&UserProfile>)
        ensures
            match found {
                Some(user) => find_profile(self@.users, name@) == Some(user@),
                None => find_profile(self@.users, name@) is None,
            },
    {
        let ghost users = profiles(self.users@);
        let wanted = name.to_owned();
        let mut i: usize = 0;
        assert(users.skip(0) =~= users);
        while i < self.users.len()
            invariant
                i <= self.users.len(),
                users == profiles(self.users@),
                wanted@ == name@,
                find_profile(users, name@) == find_profile(users.skip(i as int), name@),
            decreases self.users.len() - i,
        {
            proof {
                let rest = users.skip(i as int);
                assert(rest[0] == self.users@[i as int]@);
                assert(rest.drop_first() =~= users.skip(i + 1));
            }
            if self.users[i].name == wanted {
                return Some(&self.users[i]);
            }
            i += 1;
        }
        None
    }

    /// The profile under which a message from `from` is drawn: the first
    /// user of the roster with that name, or the placeholder where the
    /// roster has none.
    pub fn sender_profile(&self, from: &str) -> (profile: UserProfile)
        ensures
            profile@ == display_profile(self@.users, from@),
    {
        match self.find_user(from) {
            Some(user) => UserProfile { name: user.name.clone(), avatar: user.avatar.clone() },
            None => UserProfile { name: from.to_owned(), avatar: avatar_url("anonymous") },
        }
    }
}

/// Replacing the roster: after a `Users` envelope the roster has one entry
/// for each listed name, in the order of the list, each with the avatar
/// derived from its name; the message log is untouched.
pub proof fn lemma_roster_replaced(state: ChatState, e: Envelope)
    requires
        e.message_type == MsgTypes::Users,
    ensures
        apply_spec(state, e).users.len() == roster_names(e).len(),
        forall|i: int|
            0 <= i < roster_names(e).len() ==> {
                &&& (#[trigger] apply_spec(state, e).users[i]).name == roster_names(e)[i]
                &&& apply_spec(state, e).users[i].avatar == avatar_of(roster_names(e)[i])
            },
        apply_spec(state, e).messages == state.messages,
{
}

/// The log is append-only: whatever the envelope, the log after it starts
/// with the log before it, entry for entry.
pub proof fn lemma_log_only_grows(state: ChatState, e: Envelope)
    ensures
        apply_spec(state, e).messages.len() >= state.messages.len(),
        apply_spec(state, e).messages.take(state.messages.len() as int) == state.messages,
{
    assert(apply_spec(state, e).messages.take(state.messages.len() as int) =~= state.messages);
}

/// The same over a whole run of envelopes.
pub proof fn lemma_replay_only_grows(state: ChatState, events: Seq<Envelope>)
    ensures
        replay(state, events).messages.len() >= state.messages.len(),
        replay(state, events).messages.take(state.messages.len() as int) == state.messages,
    decreases events.len(),
{
    if events.len() == 0 {
        assert(state.messages.take(state.messages.len() as int) =~= state.messages);
    } else {
        let before = replay(state, events.drop_last());
        lemma_replay_only_grows(state, events.drop_last());
        lemma_log_only_grows(before, events.last());
        let after = apply_spec(before, events.last());
        assert(after.messages.take(state.messages.len() as int) =~= before.messages.take(
            state.messages.len() as int,
        ));
    }
}

/// The payloads of a run of envelopes of which each carries one.
pub open spec fn carried(events: Seq<Envelope>) -> Seq<ChatPayload> {
    Seq::new(events.len(), |i: int| message_payload(events[i])->0)
}

/// After a run of envelopes that each carry a chat message, the log is the
/// log before followed by the carried payloads in order of arrival: it has
/// grown by the number of envelopes, and no earlier entry has changed or
/// moved.
pub proof fn lemma_replay_appends(state: ChatState, events: Seq<Envelope>)
    requires
        forall|i: int| 0 <= i < events.len() ==> message_payload(#[trigger] events[i]) is Some,
    ensures
        replay(state, events).messages == state.messages + carried(events),
        replay(state, events).messages.len() == state.messages.len() + events.len(),
        replay(state, events).users == state.users,
    decreases events.len(),
{
    if events.len() == 0 {
        assert(state.messages + carried(events) =~= state.messages);
    } else {
        let front = events.drop_last();
        assert forall|i: int| 0 <= i < front.len() implies message_payload(
            #[trigger] front[i],
        ) is Some by {
            assert(front[i] == events[i]);
        }
        lemma_replay_appends(state, front);
        assert(message_payload(events[events.len() - 1]) is Some);
        assert(state.messages + carried(events) =~= (state.messages + carried(front)).push(
            message_payload(events.last())->0,
        ));
    }
}

/// A message is logged whether or not its sender is in the roster, and a
/// profile to draw it under always exists.
pub proof fn lemma_unknown_sender_is_logged(state: ChatState, e: Envelope)
    requires
        message_payload(e) is Some,
    ensures
        apply_spec(state, e).messages == state.messages.push(message_payload(e)->0),
        apply_spec(state, e).users == state.users,
        find_profile(state.users, message_payload(e)->0.from) is None ==> display_profile(
            apply_spec(state, e).users,
            message_payload(e)->0.from,
        ) == placeholder(message_payload(e)->0.from),
{
}

/// A frame that does not decode leaves the state as it was and asks for no
/// redraw.
pub proof fn lemma_malformed_frame_is_dropped(state: ChatState, text: Seq<char>)
    requires
        decode_spec(text) is Err,
    ensures
        receive_spec(state, text) == state,
        !receive_redraw(text),
        receive_dropped(text) == Some(decode_spec(text)->Err_0),
{
}

/// An envelope that is dropped leaves the state as it was and asks for no
/// redraw; one that is not dropped and is no `Register` asks for one.
pub proof fn lemma_dropped_envelope_changes_nothing(state: ChatState, e: Envelope)
    ensures
        dropped_spec(e) is Some ==> apply_spec(state, e) == state && !redraw_spec(e),
        dropped_spec(e) is None ==> redraw_spec(e) == (e.message_type != MsgTypes::Register),
{
}

/// Empty input gives no frame.
pub proof fn lemma_empty_input_sends_nothing()
    ensures
        compose_spec(Seq::<char>::empty()) is None,
{
}

} // verus!
