//! A worker's connection: its bytes become messages, and it becomes the
//! connection of the worker that last registered over it.

use vstd::prelude::*;

use crate::frame::{all_lines, take_line, unfinished, LineBuffer};
use crate::hub::{acceptable, handled, left, Hub, Reaction};
use crate::message::{clone_opt_text, opt_text, HubMessage};

verus! {

/// One connection.
pub struct Session {
    conn: u64,
    worker_id: Option<String>,
    buffer: LineBuffer,
}

/// What a [`Session`] holds.
#[verifier::ext_equal]
pub struct SessionView {
    /// The number of the connection.
    pub conn: u64,
    /// The worker that last registered over it.
    pub worker_id: Option<Seq<char>>,
    /// What was read and not yet taken as lines.
    pub unread: Seq<u8>,
}

impl View for Session {
    type V = SessionView;

    closed spec fn view(&self) -> SessionView {
        SessionView {
            conn: self.conn,
            worker_id: opt_text(self.worker_id),
            unread: self.buffer@,
        }
    }
}

/// Whose connection it is after a message.
pub open spec fn owner_after(owner: Option<Seq<char>>, message: HubMessage) -> Option<Seq<char>> {
    match message {
        HubMessage::Register(info) => Some(info@.id),
        _ => owner,
    }
}

impl Session {
    /// A connection over which nothing has come yet.
    pub fn new(conn: u64) -> (r: Session)
        ensures
            r@ == (SessionView { conn, worker_id: None, unread: seq![] }),
    {
        let r = Session { conn, worker_id: None, buffer: LineBuffer::new() };
        assert(r@.unread =~= seq![]);
        r
    }

    /// Whose connection it is.
    pub fn worker_id(&self) -> (r: Option<String>)
        ensures
            opt_text(r) == self@.worker_id,
    {
        clone_opt_text(&self.worker_id)
    }

    /// Bytes have come.
    pub fn receive(&mut self, data: &[u8])
        ensures
            final(self)@ == (SessionView { unread: old(self)@.unread + data@, ..old(self)@ }),
    {
        self.buffer.push(data);
    }

    /// The next complete line that is not empty.
    pub fn next_line(&mut self) -> (r: Option<Vec<u8>>)
        ensures
            (match r {
                Some(line) => Some(line@),
                None => None,
            }, final(self)@.unread) == take_line(old(self)@.unread),
            final(self)@ == (SessionView { unread: final(self)@.unread, ..old(self)@ }),
    {
        self.buffer.next_line()
    }

    /// Bytes have come: all lines that are complete now and not empty, in
    /// their order.
    pub fn read(&mut self, data: &[u8]) -> (r: Vec<Vec<u8>>)
        ensures
            r@.map_values(|line: Vec<u8>| line@) == all_lines(old(self)@.unread + data@),
            final(self)@ == (SessionView {
                unread: unfinished(old(self)@.unread + data@),
                ..old(self)@
            }),
    {
        self.receive(data);
        self.buffer.take_lines()
    }

    /// A message has come.
    pub fn handle(&mut self, hub: &mut Hub, message: HubMessage) -> (r: Reaction)
        requires
            old(hub).wf(),
            acceptable(old(hub)@, message),
        ensures
            final(hub).wf(),
            handled(old(hub)@, old(self)@.conn, message, final(hub)@, r),
            final(self)@ == (SessionView {
                worker_id: owner_after(old(self)@.worker_id, message),
                ..old(self)@
            }),
    {
        let reaction = hub.handle_message(self.conn, message);
        if let Reaction::Registered { worker_id, .. } = &reaction {
            self.worker_id = Some(worker_id.clone());
        }
        reaction
    }

    /// The connection is closed: its worker is forgotten.
    pub fn close(self, hub: &mut Hub)
        requires
            old(hub).wf(),
        ensures
            final(hub).wf(),
            final(hub)@ == (match self@.worker_id {
                Some(id) => left(old(hub)@, id),
                None => old(hub)@,
            }),
    {
        hub.connection_closed(&self.worker_id);
    }
}

/// A connection is the one of the worker that last registered over it; no
/// other message changes whose it is.
pub proof fn lemma_owner_after(owner: Option<Seq<char>>, message: HubMessage)
    ensures
        message matches HubMessage::Register(info) ==> owner_after(owner, message) == Some(info@.id),
        message !is Register ==> owner_after(owner, message) == owner,
{
}

} // verus!
