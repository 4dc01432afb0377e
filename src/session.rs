//! The session controller: the roster of online users and the transcript of
//! messages, and the rule by which each inbound frame changes them.
use vstd::prelude::*;
use vstd::string::StringExecFns;
use crate::envelope::{
    decode, decode_chat_message, decode_chat_spec, decode_spec, encode, encode_spec,
    ChatMessage, ChatMessageView, DecodeError, Envelope, EnvelopeView, MsgTypes,
};
use crate::json::strings_view;

verus! {

broadcast use vstd::string::group_string_axioms;

/// An online user and the picture shown beside the name.
pub struct UserProfile {
    pub name: String,
    pub avatar: String,
}

pub ghost struct UserProfileView {
    pub name: Seq<char>,
    pub avatar: Seq<char>,
}

impl View for UserProfile {
    type V = UserProfileView;

    open spec fn view(&self) -> UserProfileView {
        UserProfileView { name: self.name@, avatar: self.avatar@ }
    }
}

/// The address of the picture for the name `name`.
pub open spec fn avatar_spec(name: Seq<char>) -> Seq<char> {
    "https://avatars.dicebear.com/api/adventurer-neutral/"@ + name + ".svg"@
}

pub open spec fn profile_spec(name: Seq<char>) -> UserProfileView {
    UserProfileView { name, avatar: avatar_spec(name) }
}

/// The roster that a list of names makes, in the same order.
pub open spec fn roster_of(names: Seq<Seq<char>>) -> Seq<UserProfileView> {
    names.map_values(|n: Seq<char>| profile_spec(n))
}

/// The address of the picture for `name`.
pub fn avatar_url(name: &str) -> (r: String)
    ensures
        r@ == avatar_spec(name@),
{
    let mut s = "https://avatars.dicebear.com/api/adventurer-neutral/".to_string();
    s.append(name);
    s.append(".svg");
    s
}

/// The profile shown for `name`.
pub fn profile_of(name: &String) -> (r: UserProfile)
    ensures
        r@ == profile_spec(name@),
{
    UserProfile { name: name.clone(), avatar: avatar_url(name.as_str()) }
}

/// The state of a session: who is online, and what was said.
pub ghost struct SessionView {
    pub roster: Seq<UserProfileView>,
    pub transcript: Seq<ChatMessageView>,
}

/// What handling one event asks of the surroundings.
pub struct Outcome {
    /// The state changed and should be shown again.
    pub changed: bool,
    /// A frame to hand to the transport.
    pub send: Option<String>,
    /// A frame that was dropped, and why.
    pub error: Option<DecodeError>,
}

pub ghost struct OutcomeView {
    pub changed: bool,
    pub send: Option<Seq<char>>,
    pub error: Option<DecodeError>,
}

impl View for Outcome {
    type V = OutcomeView;

    open spec fn view(&self) -> OutcomeView {
        OutcomeView {
            changed: self.changed,
            send: match self.send {
                Some(s) => Some(s@),
                None => None,
            },
            error: self.error,
        }
    }
}

/// An event for the session: a frame from the server, or text to send.
pub enum Msg {
    HandleMsg(String),
    SubmitMessage(String),
}

/// The `register` envelope that announces `username`.
pub open spec fn register_spec(username: Seq<char>) -> EnvelopeView {
    EnvelopeView { message_type: MsgTypes::Register, data_array: None, data: Some(username) }
}

/// The `message` envelope that carries the text `text` as it was typed.
pub open spec fn outgoing_spec(text: Seq<char>) -> EnvelopeView {
    EnvelopeView { message_type: MsgTypes::Message, data_array: None, data: Some(text) }
}

/// The state after the frame `frame` arrives.
pub open spec fn receive_spec(s: SessionView, frame: Seq<char>) -> SessionView {
    match decode_spec(frame) {
        Ok(e) => match e.message_type {
            MsgTypes::Users => SessionView { roster: roster_of(e.data_array->0), ..s },
            MsgTypes::Message => match decode_chat_spec(e.data->0) {
                Ok(c) => SessionView { transcript: s.transcript.push(c), ..s },
                Err(_) => s,
            },
            MsgTypes::Register => s,
        },
        Err(_) => s,
    }
}

/// The outcome of the frame `frame` arriving.
pub open spec fn receive_outcome(frame: Seq<char>) -> OutcomeView {
    match decode_spec(frame) {
        Ok(e) => match e.message_type {
            MsgTypes::Users => OutcomeView { changed: true, send: None, error: None },
            MsgTypes::Message => match decode_chat_spec(e.data->0) {
                Ok(_) => OutcomeView { changed: true, send: None, error: None },
                Err(x) => OutcomeView { changed: false, send: None, error: Some(x) },
            },
            MsgTypes::Register => OutcomeView { changed: false, send: None, error: None },
        },
        Err(x) => OutcomeView { changed: false, send: None, error: Some(x) },
    }
}

/// The state after the frames `frames` arrive in order.
pub open spec fn receive_all(s: SessionView, frames: Seq<Seq<char>>) -> SessionView
    decreases frames.len(),
{
    if frames.len() == 0 {
        s
    } else {
        receive_spec(receive_all(s, frames.drop_last()), frames.last())
    }
}

/// A chat session: the roster and the transcript, which only the frames
/// from the server change.
pub struct Chat {
    users: Vec<UserProfile>,
    messages: Vec<ChatMessage>,
}

pub open spec fn profiles_view(v: Seq<UserProfile>) -> Seq<UserProfileView> {
    v.map_values(|p: UserProfile| p@)
}

pub open spec fn messages_view(v: Seq<ChatMessage>) -> Seq<ChatMessageView> {
    v.map_values(|m: ChatMessage| m@)
}

impl View for Chat {
    type V = SessionView;

    closed spec fn view(&self) -> SessionView {
        SessionView { roster: profiles_view(self.users@), transcript: messages_view(self.messages@) }
    }
}

/// The profiles for `names`, in order.
pub fn profiles_of(names: &Vec<String>) -> (r: Vec<UserProfile>)
    ensures
        profiles_view(r@) == roster_of(strings_view(names@)),
{
    let mut r: Vec<UserProfile> = Vec::new();
    let mut i: usize = 0;
    while i < names.len()
        invariant
            i <= names@.len(),
            profiles_view(r@) == roster_of(strings_view(names@.take(i as int))),
        decreases names@.len() - i,
    {
        let ghost before = profiles_view(r@);
        let p = profile_of(&names[i]);
        r.push(p);
        proof {
            let sv = strings_view(names@.take(i as int));
            let sv1 = strings_view(names@.take(i + 1));
            assert(sv1 =~= sv.push(names@[i as int]@));
            assert(roster_of(sv1) =~= roster_of(sv).push(profile_spec(names@[i as int]@)));
            assert(profiles_view(r@) =~= before.push(p@));
        }
        i = i + 1;
    }
    assert(names@.take(i as int) =~= names@);
    r
}

impl Chat {
    /// A new session for `username`, with nothing seen yet, and the
    /// `register` frame to send before anything else.
    pub fn create(username: &str) -> (r: (Chat, String))
        ensures
            r.0@.roster.len() == 0,
            r.0@.transcript.len() == 0,
            r.1@ == encode_spec(register_spec(username@)),
    {
        let e = Envelope {
            message_type: MsgTypes::Register,
            data_array: None,
            data: Some(username.to_string()),
        };
        let frame = encode(&e);
        (Chat { users: Vec::new(), messages: Vec::new() }, frame)
    }

    /// The users online, as the last `users` frame listed them.
    pub fn roster(&self) -> (r: &Vec<UserProfile>)
        ensures
            profiles_view(r@) == self@.roster,
    {
        &self.users
    }

    /// The messages received, oldest first.
    pub fn transcript(&self) -> (r: &Vec<ChatMessage>)
        ensures
            messages_view(r@) == self@.transcript,
    {
        &self.messages
    }

    /// The frame that sends `text` as typed; the server adds the sender.
    pub fn submit_message(&self, text: &str) -> (r: String)
        ensures
            r@ == encode_spec(outgoing_spec(text@)),
    {
        let e = Envelope {
            message_type: MsgTypes::Message,
            data_array: None,
            data: Some(text.to_string()),
        };
        encode(&e)
    }

    /// Applies one frame from the server. A `users` frame replaces the
    /// roster; a `message` frame whose text is a chat message appends it to
    /// the transcript; anything else leaves the state as it was.
    pub fn handle_frame(&mut self, frame: &str) -> (r: Outcome)
        ensures
            final(self)@ == receive_spec(old(self)@, frame@),
            r@ == receive_outcome(frame@),
    {
        match decode(frame) {
            Err(x) => Outcome { changed: false, send: None, error: Some(x) },
            Ok(e) => match e.message_type {
                MsgTypes::Users => {
                    match &e.data_array {
                        Some(names) => {
                            self.users = profiles_of(names);
                        },
                        None => {},
                    }
                    Outcome { changed: true, send: None, error: None }
                },
                MsgTypes::Message => {
                    match &e.data {
                        Some(d) => match decode_chat_message(d.as_str()) {
                            Ok(c) => {
                                let ghost before = messages_view(self.messages@);
                                self.messages.push(c);
                                assert(messages_view(self.messages@) =~= before.push(c@));
                                Outcome { changed: true, send: None, error: None }
                            },
                            Err(x) => Outcome { changed: false, send: None, error: Some(x) },
                        },
                        None => Outcome { changed: false, send: None, error: None },
                    }
                },
                MsgTypes::Register => Outcome { changed: false, send: None, error: None },
            },
        }
    }

    /// The first profile in the roster named `name`, if that user is online;
    /// a message may well come from someone who is not, and then the answer
    /// is `None`.
    pub fn find_profile(&self, name: &String) -> (r: Option<&UserProfile>)
        ensures
            match r {
                Some(p) => exists|k: int|
                    0 <= k < self@.roster.len() && self@.roster[k] == p@ && p.name@ == name@
                        && forall|j: int| 0 <= j < k ==> #[trigger] self@.roster[j].name != name@,
                None => forall|i: int|
                    0 <= i < self@.roster.len() ==> #[trigger] self@.roster[i].name != name@,
            },
    {
        let mut i: usize = 0;
        while i < self.users.len()
            invariant
                i <= self.users@.len(),
                forall|j: int| 0 <= j < i ==> #[trigger] self.users@[j].name@ != name@,
            decreases self.users@.len() - i,
        {
            if self.users[i].name == *name {
                proof {
                    assert(self@.roster[i as int] == self.users@[i as int]@);
                    assert forall|j: int| 0 <= j < i implies #[trigger] self@.roster[j].name
                        != name@ by {
                        assert(self@.roster[j] == self.users@[j]@);
                    }
                }
                return Some(&self.users[i]);
            }
            i = i + 1;
        }
        proof {
            assert forall|j: int| 0 <= j < self@.roster.len() implies #[trigger] self@.roster[j].name
                != name@ by {
                assert(self@.roster[j] == self.users@[j]@);
            }
        }
        None
    }

    /// Handles one event: a frame from the server, or text to send.
    pub fn update(&mut self, msg: Msg) -> (r: Outcome)
        ensures
            match msg {
                Msg::HandleMsg(f) => final(self)@ == receive_spec(old(self)@, f@) && r@
                    == receive_outcome(f@),
                Msg::SubmitMessage(t) => final(self)@ == old(self)@ && r@ == (OutcomeView {
                    changed: false,
                    send: Some(encode_spec(outgoing_spec(t@))),
                    error: None,
                }),
            },
    {
        match msg {
            Msg::HandleMsg(f) => self.handle_frame(f.as_str()),
            Msg::SubmitMessage(t) => {
                let frame = self.submit_message(t.as_str());
                Outcome { changed: false, send: Some(frame), error: None }
            },
        }
    }
}

/// Whether a message text is shown as a picture: it ends in `.gif`.
pub open spec fn is_picture(text: Seq<char>) -> bool {
    text.len() >= 4 && text.subrange(text.len() - 4, text.len() as int) =~= seq!['.', 'g', 'i', 'f']
}

/// Whether the message text `text` is shown as a picture.
pub fn shows_as_picture(text: &str) -> (r: bool)
    ensures
        r == is_picture(text@),
{
    let cs = crate::text::chars_of(text);
    let n = cs.len();
    if n < 4 {
        return false;
    }
    let r = cs[n - 4] == '.' && cs[n - 3] == 'g' && cs[n - 2] == 'i' && cs[n - 1] == 'f';
    proof {
        let tail = cs@.subrange(n - 4, n as int);
        if r {
            assert(tail =~= seq!['.', 'g', 'i', 'f']);
        } else {
            assert(tail[0] != '.' || tail[1] != 'g' || tail[2] != 'i' || tail[3] != 'f');
        }
    }
    r
}

/// Each `users` frame replaces the roster wholesale: after any run of
/// `users` frames, the roster is exactly the profiles of the names that the
/// last one listed, in that order, whatever the roster was before.
pub proof fn lemma_roster_is_last_snapshot(s: SessionView, frames: Seq<Seq<char>>)
    requires
        frames.len() > 0,
        forall|i: int|
            0 <= i < frames.len() ==> (#[trigger] decode_spec(frames[i])) is Ok && decode_spec(
                frames[i],
            )->Ok_0.message_type == MsgTypes::Users,
    ensures
        receive_all(s, frames).roster == roster_of(
            decode_spec(frames.last())->Ok_0.data_array->0,
        ),
{
    assert(decode_spec(frames[frames.len() - 1]) is Ok);
}

/// A `message` frame whose text decodes as a chat message appends exactly
/// that message to the transcript, keeps every earlier entry, and leaves the
/// roster alone.
pub proof fn lemma_message_appends_one(s: SessionView, frame: Seq<char>)
    requires
        decode_spec(frame) is Ok,
        decode_spec(frame)->Ok_0.message_type == MsgTypes::Message,
        decode_chat_spec(decode_spec(frame)->Ok_0.data->0) is Ok,
    ensures
        receive_spec(s, frame).transcript.len() == s.transcript.len() + 1,
        receive_spec(s, frame).transcript.last() == decode_chat_spec(
            decode_spec(frame)->Ok_0.data->0,
        )->Ok_0,
        receive_spec(s, frame).transcript.take(s.transcript.len() as int) == s.transcript,
        receive_spec(s, frame).roster == s.roster,
{
    assert(s.transcript.push(decode_chat_spec(decode_spec(frame)->Ok_0.data->0)->Ok_0).take(
        s.transcript.len() as int,
    ) =~= s.transcript);
}

/// The transcript only grows: whatever frames arrive, what it held before
/// stays, in place and in order.
pub proof fn lemma_transcript_append_only(s: SessionView, frames: Seq<Seq<char>>)
    ensures
        s.transcript.len() <= receive_all(s, frames).transcript.len(),
        receive_all(s, frames).transcript.take(s.transcript.len() as int) == s.transcript,
    decreases frames.len(),
{
    if frames.len() == 0 {
        assert(s.transcript.take(s.transcript.len() as int) =~= s.transcript);
    } else {
        lemma_transcript_append_only(s, frames.drop_last());
        let p = receive_all(s, frames.drop_last());
        let q = receive_spec(p, frames.last());
        if q.transcript != p.transcript {
            assert(q.transcript.take(s.transcript.len() as int) =~= p.transcript.take(
                s.transcript.len() as int,
            ));
        }
    }
}

/// The picture of a user depends on the name alone: the same name gives the
/// same address, in every profile and on every call.
pub proof fn lemma_avatar_depends_on_name(a: Seq<char>, b: Seq<char>)
    requires
        a == b,
    ensures
        avatar_spec(a) == avatar_spec(b),
        profile_spec(a).avatar == profile_spec(b).avatar,
        profile_spec(a).avatar == avatar_spec(b),
{
}

} // verus!
