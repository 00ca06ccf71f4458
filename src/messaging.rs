//! The application's message schema: requests, responses and notifications
//! exchanged over an encrypted stream. Message bodies travel sealed in a
//! `ContentBox`.
use vstd::prelude::*;
use std::collections::HashMap;
use crate::content_box::{ContentBox, PublicKeyBuf};
use crate::error::Error;
use crate::primitives::{is_all_zero, x25519};
use crate::primitives::GCM_MAX_PLAINTEXT;

verus! {

pub type UserId = u128;

pub type ChatId = u128;

pub type RequestId = u128;

pub enum Request {
    User(User),
    Transport(Transport),
    Chat(Chat),
    Direct(Direct),
}

/// The outcome of a request: the request's id on success, or a reason.
pub enum Response {
    Success(RequestId),
    Failure(String),
}

pub enum Chat {
    Create,
    List,
    Info(ChatId),
    Remove(ChatId),
    SendInvite(ChatId, UserId),
    AcceptInvite(ChatId),
    ChatMessage(ChatId, Message),
}

pub enum ChatData {
    Info(ChatInfo),
    List(ChatList),
}

pub struct ChatList {
    chats: Vec<ChatId>,
}

impl ChatList {
    pub closed spec fn chats(&self) -> Seq<ChatId> {
        self.chats@
    }

    pub fn new(chats: Vec<ChatId>) -> (r: ChatList)
        ensures
            r.chats() == chats@,
    {
        ChatList { chats }
    }

    pub fn into_chats(self) -> (r: Vec<ChatId>)
        ensures
            r@ == self.chats(),
    {
        self.chats
    }
}

pub struct ChatInfo {
    id: ChatId,
    users: Vec<UserId>,
}

impl ChatInfo {
    pub closed spec fn id(&self) -> ChatId {
        self.id
    }

    pub closed spec fn users(&self) -> Seq<UserId> {
        self.users@
    }

    pub fn new(id: ChatId, users: Vec<UserId>) -> (r: ChatInfo)
        ensures
            r.id() == id,
            r.users() == users@,
    {
        ChatInfo { id, users }
    }

    pub fn into_parts(self) -> (r: (ChatId, Vec<UserId>))
        ensures
            r.0 == self.id(),
            r.1@ == self.users(),
    {
        (self.id, self.users)
    }
}

pub enum Direct {
    SendInvite(UserId),
    AcceptInvite(UserId),
    ChatMessage(UserId, Message),
}

/// A chat message whose serialized `Content` is sealed for its recipients.
pub struct Message {
    content: ContentBox,
}

impl Message {
    pub closed spec fn sealed(&self) -> ContentBox {
        self.content
    }

    /// Seals the serialized `Content` bytes from `sender` for `respondents`.
    pub fn new(content: &[u8], sender: &[u8; 32], respondents: &Vec<PublicKeyBuf>) -> (r: Result<
        Message,
        Error,
    >)
        ensures
            content@.len() > GCM_MAX_PLAINTEXT ==> (r matches Err(e) && e == Error::CryptoFailure),
            content@.len() <= GCM_MAX_PLAINTEXT ==> (r is Err <==> exists|j: int|
                0 <= j < respondents@.len() && is_all_zero(
                    #[trigger] x25519(sender@, respondents@[j]@),
                )),
            content@.len() <= GCM_MAX_PLAINTEXT && r is Err ==> (r matches Err(e) && e
                == Error::KeyAgreementFailure),
            r matches Ok(m) ==> crate::content_box::decodes_for(m.sealed(), content@, respondents@),
    {
        let content = ContentBox::encode(content, sender, respondents)?;
        Ok(Message { content })
    }

    /// A message around an already sealed content.
    pub fn from_sealed(content: ContentBox) -> (r: Message)
        ensures
            r.sealed() == content,
    {
        Message { content }
    }

    pub fn into_sealed(self) -> (r: ContentBox)
        ensures
            r == self.sealed(),
    {
        self.content
    }

    /// The sealed content.
    pub fn content_box(&self) -> (r: &ContentBox)
        ensures
            *r == self.sealed(),
    {
        &self.content
    }
}

pub struct Content {
    parts: Vec<MessagePart>,
}

impl Content {
    pub closed spec fn parts(&self) -> Seq<MessagePart> {
        self.parts@
    }

    pub fn new(parts: Vec<MessagePart>) -> (r: Content)
        ensures
            r.parts() == parts@,
    {
        Content { parts }
    }

    pub fn into_parts(self) -> (r: Vec<MessagePart>)
        ensures
            r@ == self.parts(),
    {
        self.parts
    }
}

pub enum MessagePart {
    Text(String),
}

pub enum Notification {
    DirectMessage(UserId, Message),
    ChatMessage(ChatId, Message),
    DirectInvite(UserId),
    ChatInvite(ChatId),
    ChatUpdated(ChatId),
    Response(RequestId, RequestedData),
}

pub enum RequestedData {
    Chat(ChatData),
    User(UserData),
}

pub enum Transport {
    Connect,
    Disconnect,
    Ping,
}

pub enum User {
    GetInfo(UserId, Vec<UserParams>),
    SetParams(UserId, HashMap<UserParams, String>),
    Remove(ChatId),
    SendInvite(ChatId, UserId),
}

#[derive(Debug, Clone, Copy, PartialEq, Eq, PartialOrd, Ord, Hash)]
pub enum UserParams {
    Nickname,
    Key,
}

pub struct UserInfo {
    info: HashMap<UserParams, String>,
}

impl UserInfo {
    pub closed spec fn info(&self) -> HashMap<UserParams, String> {
        self.info
    }

    pub fn new(info: HashMap<UserParams, String>) -> (r: UserInfo)
        ensures
            r.info() == info,
    {
        UserInfo { info }
    }

    pub fn into_info(self) -> (r: HashMap<UserParams, String>)
        ensures
            r == self.info(),
    {
        self.info
    }
}

pub enum UserData {
    Info(UserInfo),
}

} // verus!
