//! The create exchange between a client and the server, as far as it is
//! decided rather than sent, received or written to disk.
//!
//! A client that does not hold a name asks the server to create it. The
//! server refuses a name that it holds in its cache or finds in its storage,
//! and otherwise writes the file, takes it into its cache and confirms. The
//! client takes a confirmed file into its own cache. Whoever runs an exchange
//! does the sending, the receiving and the writing, and asks the functions of
//! this module what to do next.

use crate::cache::LRUCache;
use crate::cache_model::CacheModel;
use crate::file::FileRecord;
use crate::file::TFile;
use crate::serialize::SerialMessage;
use crate::serialize::WireMessage;
use vstd::prelude::*;
use vstd::slice::*;
use vstd::string::*;
use vstd::utf8::*;

verus! {

/// The opcode of a request to create a file.
pub const CREATE: i32 = 1;

/// The opcode of a notice: a message for the reader, not about a file.
pub const NOTICE: i32 = 6;

/// The text of the notice that refuses a create: the file exists already.
pub const EXISTS_TEXT: &'static str = "服务器上已经存在该文件";

/// The text of the notice that confirms a create.
pub const CREATED_TEXT: &'static str = "成功创建文件";

/// The notice that says `text`. Its name is the text, for whoever shows the
/// notice to a reader; its content is the text again, in bytes, for the peer
/// that decides by it.
pub open spec fn notice(text: Seq<char>) -> WireMessage {
    WireMessage {
        operation: NOTICE,
        name: text,
        offset: None,
        number: None,
        sequence: None,
        content: Some(encode_utf8(text)),
    }
}

/// The request to create `name` with the bytes of `content`, or with no bytes
/// where no content is given.
pub open spec fn create_request(name: Seq<char>, content: Option<Seq<char>>) -> WireMessage {
    WireMessage {
        operation: CREATE,
        name,
        offset: None,
        number: None,
        sequence: None,
        content: Some(
            match content {
                Some(text) => encode_utf8(text),
                None => Seq::empty(),
            },
        ),
    }
}

/// Builds the notice that says `text`.
fn notice_of(text: &str) -> (message: SerialMessage)
    ensures
        message@ == notice(text@),
{
    SerialMessage::new(
        NOTICE,
        String::from_str(text),
        None,
        None,
        None,
        Some(slice_to_vec(text.as_bytes())),
    )
}

/// The notice that refuses a create.
pub fn exists_notice() -> (message: SerialMessage)
    ensures
        message@ == notice(EXISTS_TEXT@),
{
    notice_of(EXISTS_TEXT)
}

/// The notice that confirms a create.
pub fn created_notice() -> (message: SerialMessage)
    ensures
        message@ == notice(CREATED_TEXT@),
{
    notice_of(CREATED_TEXT)
}

/// Whether two byte strings are the same.
fn same_bytes(left: &[u8], right: &[u8]) -> (same: bool)
    ensures
        same == (left@ == right@),
{
    if left.len() != right.len() {
        return false;
    }
    let mut i: usize = 0;
    while i < left.len()
        invariant
            left@.len() == right@.len(),
            0 <= i <= left@.len(),
            forall|j: int| 0 <= j < i ==> left@[j] == right@[j],
        decreases left@.len() - i,
    {
        if left[i] != right[i] {
            return false;
        }
        i += 1;
    }
    assert(left@ =~= right@);
    true
}

/// What the server's storage holds under a name.
#[derive(Debug, Clone, Copy, PartialEq, Eq)]
pub enum Stored {
    /// Nothing is stored under the name.
    Nothing,
    /// A file is.
    File,
    /// Something is, but not a file.
    Other,
}

/// What the server does next with a request.
#[derive(Debug, Clone, Copy, PartialEq, Eq)]
pub enum ServerStep {
    /// Nothing: the request gets no answer.
    Ignore,
    /// Send the notice that the file exists already.
    Refuse,
    /// Ask the storage what it holds under the name, and go on from there.
    Probe,
    /// Write the file, take it into the cache, and confirm.
    Create,
}

/// The server's step on a request: only a create is served, and a name that
/// the cache holds is refused at once.
pub open spec fn request_step(cache: CacheModel, request: WireMessage) -> ServerStep {
    if request.operation != CREATE {
        ServerStep::Ignore
    } else if cache.has(request.name) {
        ServerStep::Refuse
    } else {
        ServerStep::Probe
    }
}

/// The server's step once the storage has answered: a file of that name is
/// refused, a free name is created, and anything else is left alone.
pub open spec fn probe_step(stored: Stored) -> ServerStep {
    match stored {
        Stored::Nothing => ServerStep::Create,
        Stored::File => ServerStep::Refuse,
        Stored::Other => ServerStep::Ignore,
    }
}

/// Decides what to do with a request that has arrived.
pub fn on_request(cache: &LRUCache, request: &SerialMessage) -> (step: ServerStep)
    requires
        cache.wf(),
    ensures
        step == request_step(cache@, request@),
{
    if request.read_operation() != CREATE {
        ServerStep::Ignore
    } else if cache.find(request.read_name()) {
        ServerStep::Refuse
    } else {
        ServerStep::Probe
    }
}

/// Decides what to do once the storage has said what it holds.
pub fn on_probe(stored: Stored) -> (step: ServerStep)
    ensures
        step == probe_step(stored),
{
    match stored {
        Stored::Nothing => ServerStep::Create,
        Stored::File => ServerStep::Refuse,
        Stored::Other => ServerStep::Ignore,
    }
}

/// Takes a file that was just written into the server's cache, under the
/// name that the request asked for, and gives the notice to send back.
pub fn on_created(cache: &mut LRUCache, request: &SerialMessage, file: TFile) -> (reply:
    SerialMessage)
    requires
        old(cache).wf(),
    ensures
        final(cache).wf(),
        final(cache)@ == old(cache)@.put(request@.name, file@),
        reply@ == notice(CREATED_TEXT@),
{
    cache.put(request.read_name(), file);
    created_notice()
}

/// What a client does about a file that it wants created.
#[derive(Debug)]
pub enum ClientStep {
    /// Nothing: the client's cache holds the name, so the file was created
    /// before.
    Known,
    /// Send this request and wait for the answer.
    Ask(SerialMessage),
}

/// How a create ended for the client.
#[derive(Debug, Clone, Copy, PartialEq, Eq)]
pub enum Settled {
    /// The server had the file already.
    Existed,
    /// The server created the file, and the client's cache now holds it.
    Created,
}

/// What an optional string stands for.
pub open spec fn text_of(content: Option<String>) -> Option<Seq<char>> {
    match content {
        Some(text) => Some(text@),
        None => None,
    }
}

/// Decides whether to ask the server at all, and builds the request.
pub fn plan_create(cache: &LRUCache, name: String, content: Option<String>) -> (step: ClientStep)
    requires
        cache.wf(),
    ensures
        match step {
            ClientStep::Known => cache@.has(name@),
            ClientStep::Ask(request) => !cache@.has(name@) && request@ == create_request(
                name@,
                text_of(content),
            ),
        },
{
    if cache.find(name.clone()) {
        return ClientStep::Known;
    }
    let bytes = match content {
        Some(text) => slice_to_vec(text.as_str().as_bytes()),
        None => Vec::new(),
    };
    ClientStep::Ask(SerialMessage::new(CREATE, name, None, None, None, Some(bytes)))
}

/// The record that a client keeps of a file that the server created for it.
pub open spec fn created_record(request: WireMessage) -> FileRecord {
    FileRecord { name: request.name, content: request.content.unwrap() }
}

/// Reads the server's answer to `request`. Unless the answer is the notice
/// that the file exists already, the file is taken into the client's cache.
pub fn settle_create(cache: &mut LRUCache, request: &SerialMessage, reply: &SerialMessage) -> (end:
    Settled)
    requires
        old(cache).wf(),
        request@.content is Some,
        reply@.content is Some,
    ensures
        final(cache).wf(),
        reply@.content == Some(encode_utf8(EXISTS_TEXT@)) ==> {
            &&& end == Settled::Existed
            &&& final(cache)@ == old(cache)@
        },
        reply@.content != Some(encode_utf8(EXISTS_TEXT@)) ==> {
            &&& end == Settled::Created
            &&& final(cache)@ == old(cache)@.put(request@.name, created_record(request@))
        },
{
    let answer = reply.read_content();
    if same_bytes(answer.as_slice(), EXISTS_TEXT.as_bytes()) {
        return Settled::Existed;
    }
    let file = TFile::new_in_client(request.read_name(), request.read_content()).unwrap();
    cache.put(request.read_name(), file);
    Settled::Created
}

} // verus!
