use vstd::prelude::*;
use crate::database::{Database, handle_request, request_outcome};
use crate::request::{Command, ErrorCode, Request, Response};

verus! {

/// Counts the sessions that are open and refuses new ones beyond a cap.
#[derive(Debug)]
pub struct SessionGate {
    active: u64,
    cap: u64,
}

impl SessionGate {
    pub closed spec fn open_sessions(&self) -> nat {
        self.active as nat
    }

    pub closed spec fn limit(&self) -> nat {
        self.cap as nat
    }

    pub closed spec fn wf(&self) -> bool {
        self.active <= self.cap
    }

    /// A gate with no open session that lets in up to `cap` at once.
    pub fn new(cap: u64) -> (g: SessionGate)
        ensures
            g.wf(),
            g.open_sessions() == 0,
            g.limit() == cap,
    {
        SessionGate { active: 0, cap }
    }

    pub fn active(&self) -> (n: u64)
        ensures
            n == self.open_sessions(),
    {
        self.active
    }

    /// Lets a new session in when fewer than the cap are open: the greeting is
    /// `Connected` and the session is counted. Otherwise the greeting is
    /// `ServerBusy` and nothing is counted.
    pub fn enter(&mut self) -> (r: Response)
        requires
            old(self).wf(),
        ensures
            final(self).wf(),
            final(self).limit() == old(self).limit(),
            old(self).open_sessions() < old(self).limit() ==> r == Response::Connected
                && final(self).open_sessions() == old(self).open_sessions() + 1,
            old(self).open_sessions() >= old(self).limit() ==> r == Response::Error(
                ErrorCode::ServerBusy,
            ) && final(self).open_sessions() == old(self).open_sessions(),
    {
        if self.active < self.cap {
            self.active = self.active + 1;
            Response::Connected
        } else {
            Response::Error(ErrorCode::ServerBusy)
        }
    }

    /// Ends a session that was let in.
    pub fn leave(&mut self)
        requires
            old(self).wf(),
            old(self).open_sessions() > 0,
        ensures
            final(self).wf(),
            final(self).limit() == old(self).limit(),
            final(self).open_sessions() == old(self).open_sessions() - 1,
    {
        self.active = self.active - 1;
    }
}

/// What a session does after one attempt to read a request.
#[derive(Debug)]
pub enum Step {
    /// Send the response and wait for the next request.
    Reply(Response),
    /// Send the response and end the session.
    ReplyAndClose(Response),
    /// End the session without a response.
    Close,
}

/// Decides one turn of a session: `incoming` is the decoded request, or `None`
/// when what arrived could not be decoded. A request that would push a row id
/// or version counter past `i64::MAX` is refused with `ServerBusy`, as a
/// capacity error, and changes nothing.
pub fn session_step(db: &mut Database, incoming: Option<Request>) -> (s: Step)
    requires
        old(db).wf(),
    ensures
        final(db).wf(),
        match incoming {
            None => s == Step::ReplyAndClose(Response::Error(ErrorCode::BadRequest)) && *final(db)
                == *old(db),
            Some(req) => if req.command is Exit {
                s == Step::Close && *final(db) == *old(db)
            } else if !old(db).has_room(req) {
                s == Step::Reply(Response::Error(ErrorCode::ServerBusy)) && *final(db) == *old(db)
            } else {
                s matches Step::Reply(resp) && request_outcome(*old(db), *final(db), req, resp)
            },
        },
{
    match incoming {
        None => Step::ReplyAndClose(Response::Error(ErrorCode::BadRequest)),
        Some(req) => {
            if let Command::Exit = req.command {
                return Step::Close;
            }
            if !db.room_for(&req) {
                return Step::Reply(Response::Error(ErrorCode::ServerBusy));
            }
            Step::Reply(handle_request(req, db))
        },
    }
}

} // verus!
