//! The transaction handle: who commits, and when a command is tried again.
//!
//! A command runs either in a transaction of its own or in one that its
//! caller lends for several commands. In a transaction of its own the handle
//! commits after the body and, when the store reports conflicting writers,
//! runs the whole body again, up to a bound. A borrowed transaction is never
//! committed or rolled back here: that is its owner's to do.
//!
//! The handle decides; the caller acts on the store and reports what came of
//! it.

use vstd::prelude::*;
use crate::frame::{Fault, Frame, FrameView};

verus! {

/// How a command takes part in a transaction.
#[derive(Clone, Copy, Debug, PartialEq, Eq, Structural)]
pub enum TxnMode {
    /// The command runs and commits on its own.
    Standalone,
    /// The command runs in a transaction that its caller commits.
    Borrowed,
}

/// Where a command's transaction comes from: none given, so one is made, or
/// the caller's, handed in as `H`.
#[derive(Debug)]
pub enum TxnSource<H> {
    Standalone,
    Borrowed(H),
}

impl<H> TxnSource<H> {
    pub open spec fn spec_mode(&self) -> TxnMode {
        match self {
            TxnSource::Standalone => TxnMode::Standalone,
            TxnSource::Borrowed(_) => TxnMode::Borrowed,
        }
    }

    /// The source for an optional shared transaction.
    pub fn from_shared(shared: Option<H>) -> (source: TxnSource<H>)
        ensures
            shared is None ==> source == TxnSource::<H>::Standalone,
            shared is Some ==> source == TxnSource::Borrowed(shared->0),
    {
        match shared {
            None => TxnSource::Standalone,
            Some(h) => TxnSource::Borrowed(h),
        }
    }

    pub fn mode(&self) -> (mode: TxnMode)
        ensures
            mode == self.spec_mode(),
    {
        match self {
            TxnSource::Standalone => TxnMode::Standalone,
            TxnSource::Borrowed(_) => TxnMode::Borrowed,
        }
    }
}

/// Why the store did not do what it was asked.
#[derive(Clone, Copy, Debug, PartialEq, Eq, Structural)]
pub enum Failure {
    /// Another transaction wrote what this one read or wrote.
    Conflict,
    /// Anything else.
    Other,
}

impl Failure {
    /// What the client is told.
    pub open spec fn fault(self) -> Fault {
        match self {
            Failure::Conflict => Fault::Conflict,
            Failure::Other => Fault::Internal,
        }
    }

    pub fn to_fault(self) -> (fault: Fault)
        ensures
            fault == self.fault(),
    {
        match self {
            Failure::Conflict => Fault::Conflict,
            Failure::Other => Fault::Internal,
        }
    }
}

/// How far a handle has come.
#[derive(Clone, Copy, Debug, PartialEq, Eq, Structural)]
pub enum Stage {
    /// Nothing has happened yet.
    Fresh,
    /// The body is running.
    Running,
    /// The body is through and the commit is under way.
    Committing,
    /// The command has been answered.
    Closed,
}

/// What the caller reports to the handle.
#[derive(Debug)]
pub enum TxnEvent {
    /// The command arrived.
    Begin,
    /// The body ran: its reply, or the failure of a read or write.
    Ran(Result<Frame, Failure>),
    /// The commit came back.
    Committed(Result<(), Failure>),
}

/// An event as a mathematical value.
pub enum TxnEventView {
    Begin,
    Ran(Result<FrameView, Failure>),
    Committed(Result<(), Failure>),
}

impl View for TxnEvent {
    type V = TxnEventView;

    open spec fn view(&self) -> TxnEventView {
        match self {
            TxnEvent::Begin => TxnEventView::Begin,
            TxnEvent::Ran(Ok(f)) => TxnEventView::Ran(Ok(f@)),
            TxnEvent::Ran(Err(x)) => TxnEventView::Ran(Err(*x)),
            TxnEvent::Committed(r) => TxnEventView::Committed(*r),
        }
    }
}

/// What the handle tells the caller to do.
#[derive(Clone, Debug, PartialEq, Eq)]
pub enum TxnAction {
    /// Open a transaction and run the body in it.
    Open,
    /// Take the shared transaction for yourself and run the body in it.
    Lock,
    /// Commit the transaction.
    Commit,
    /// Roll the transaction back, open another and run the body again.
    Retry,
    /// Roll the transaction back and answer.
    Abort(Frame),
    /// Answer; a shared transaction goes back to its owner as it is.
    Return(Frame),
}

/// An action as a mathematical value.
pub enum TxnActionView {
    Open,
    Lock,
    Commit,
    Retry,
    Abort(FrameView),
    Return(FrameView),
}

impl View for TxnAction {
    type V = TxnActionView;

    open spec fn view(&self) -> TxnActionView {
        match self {
            TxnAction::Open => TxnActionView::Open,
            TxnAction::Lock => TxnActionView::Lock,
            TxnAction::Commit => TxnActionView::Commit,
            TxnAction::Retry => TxnActionView::Retry,
            TxnAction::Abort(f) => TxnActionView::Abort(f@),
            TxnAction::Return(f) => TxnActionView::Return(f@),
        }
    }
}

/// The handle of one command.
#[derive(Debug)]
pub struct TxnHandle {
    mode: TxnMode,
    limit: u32,
    attempts: u32,
    stage: Stage,
    reply: Option<Frame>,
}

/// A handle as a mathematical value.
pub struct TxnView {
    pub mode: TxnMode,
    /// The most attempts the body gets.
    pub limit: u32,
    /// The attempts begun so far.
    pub attempts: u32,
    pub stage: Stage,
    /// The body's reply, kept while the commit is under way.
    pub reply: Option<FrameView>,
}

impl View for TxnHandle {
    type V = TxnView;

    closed spec fn view(&self) -> TxnView {
        TxnView {
            mode: self.mode,
            limit: self.limit,
            attempts: self.attempts,
            stage: self.stage,
            reply: match self.reply {
                Some(f) => Some(f@),
                None => None,
            },
        }
    }
}

/// The handle once the command is answered.
pub open spec fn closed(t: TxnView) -> TxnView {
    TxnView { stage: Stage::Closed, reply: None, ..t }
}

/// What follows a failure in a transaction of the command's own: another
/// attempt while the failure is a conflict and attempts are left, else the
/// end of the command.
pub open spec fn on_failure(t: TxnView, failure: Failure) -> (TxnView, TxnActionView) {
    if failure == Failure::Conflict && t.attempts < t.limit {
        (
            TxnView {
                stage: Stage::Running,
                attempts: (t.attempts + 1) as u32,
                reply: None,
                ..t
            },
            TxnActionView::Retry,
        )
    } else {
        (closed(t), TxnActionView::Abort(FrameView::Error(failure.fault())))
    }
}

/// One decision of the handle: from where it stands and what the caller
/// reports to where it stands next and what the caller is to do. A report
/// that does not fit the stage ends the command with an internal fault,
/// without touching a borrowed transaction.
pub open spec fn txn_step(t: TxnView, event: TxnEventView) -> (TxnView, TxnActionView) {
    match (t.stage, event) {
        (Stage::Fresh, TxnEventView::Begin) => (
            TxnView { stage: Stage::Running, attempts: 1, reply: None, ..t },
            match t.mode {
                TxnMode::Standalone => TxnActionView::Open,
                TxnMode::Borrowed => TxnActionView::Lock,
            },
        ),
        (Stage::Running, TxnEventView::Ran(result)) => match t.mode {
            TxnMode::Borrowed => (
                closed(t),
                TxnActionView::Return(
                    match result {
                        Ok(reply) => reply,
                        Err(failure) => FrameView::Error(failure.fault()),
                    },
                ),
            ),
            TxnMode::Standalone => match result {
                Ok(reply) => (
                    TxnView { stage: Stage::Committing, reply: Some(reply), ..t },
                    TxnActionView::Commit,
                ),
                Err(failure) => on_failure(t, failure),
            },
        },
        (Stage::Committing, TxnEventView::Committed(result)) => match (t.mode, t.reply, result) {
            (TxnMode::Standalone, Some(reply), Ok(_)) => (closed(t), TxnActionView::Return(reply)),
            (TxnMode::Standalone, Some(_), Err(failure)) => on_failure(t, failure),
            _ => (closed(t), misuse(t.mode)),
        },
        _ => (closed(t), misuse(t.mode)),
    }
}

/// The end of a command whose caller reported what cannot have happened.
pub open spec fn misuse(mode: TxnMode) -> TxnActionView {
    match mode {
        TxnMode::Standalone => TxnActionView::Abort(FrameView::Error(Fault::Internal)),
        TxnMode::Borrowed => TxnActionView::Return(FrameView::Error(Fault::Internal)),
    }
}

impl TxnHandle {
    /// A handle for one command, which gets at most `limit` attempts where it
    /// runs in a transaction of its own.
    pub fn new(mode: TxnMode, limit: u32) -> (handle: TxnHandle)
        ensures
            handle@ == (TxnView { mode, limit, attempts: 0, stage: Stage::Fresh, reply: None }),
    {
        TxnHandle { mode, limit, attempts: 0, stage: Stage::Fresh, reply: None }
    }

    pub fn mode(&self) -> (mode: TxnMode)
        ensures
            mode == self@.mode,
    {
        self.mode
    }

    pub fn stage(&self) -> (stage: Stage)
        ensures
            stage == self@.stage,
    {
        self.stage
    }

    /// The attempts begun so far.
    pub fn attempts(&self) -> (n: u32)
        ensures
            n == self@.attempts,
    {
        self.attempts
    }

    fn close(&mut self)
        ensures
            final(self)@ == closed(old(self)@),
    {
        self.stage = Stage::Closed;
        self.reply = None;
    }

    fn fail(&mut self, failure: Failure) -> (action: TxnAction)
        ensures
            (final(self)@, action@) == on_failure(old(self)@, failure),
    {
        let again = match failure {
            Failure::Conflict => self.attempts < self.limit,
            Failure::Other => false,
        };
        if again {
            self.stage = Stage::Running;
            self.attempts = self.attempts + 1;
            self.reply = None;
            TxnAction::Retry
        } else {
            self.close();
            TxnAction::Abort(Frame::Error(failure.to_fault()))
        }
    }

    fn misused(&mut self) -> (action: TxnAction)
        ensures
            final(self)@ == closed(old(self)@),
            action@ == misuse(old(self)@.mode),
    {
        self.close();
        match self.mode {
            TxnMode::Standalone => TxnAction::Abort(Frame::Error(Fault::Internal)),
            TxnMode::Borrowed => TxnAction::Return(Frame::Error(Fault::Internal)),
        }
    }

    /// Takes the caller's report and decides what is done next.
    pub fn advance(&mut self, event: TxnEvent) -> (action: TxnAction)
        ensures
            (final(self)@, action@) == txn_step(old(self)@, event@),
    {
        match self.stage {
            Stage::Fresh => match event {
                TxnEvent::Begin => {
                    self.stage = Stage::Running;
                    self.attempts = 1;
                    self.reply = None;
                    match self.mode {
                        TxnMode::Standalone => TxnAction::Open,
                        TxnMode::Borrowed => TxnAction::Lock,
                    }
                },
                _ => self.misused(),
            },
            Stage::Running => match event {
                TxnEvent::Ran(result) => match self.mode {
                    TxnMode::Borrowed => {
                        self.close();
                        match result {
                            Ok(reply) => TxnAction::Return(reply),
                            Err(failure) => TxnAction::Return(Frame::Error(failure.to_fault())),
                        }
                    },
                    TxnMode::Standalone => match result {
                        Ok(reply) => {
                            self.stage = Stage::Committing;
                            self.reply = Some(reply);
                            TxnAction::Commit
                        },
                        Err(failure) => self.fail(failure),
                    },
                },
                _ => self.misused(),
            },
            Stage::Committing => match event {
                TxnEvent::Committed(result) => match self.mode {
                    TxnMode::Standalone => match result {
                        Ok(_) => match self.reply.take() {
                            Some(reply) => {
                                self.close();
                                TxnAction::Return(reply)
                            },
                            None => self.misused(),
                        },
                        Err(failure) => {
                            if self.reply.is_some() {
                                self.fail(failure)
                            } else {
                                self.misused()
                            }
                        },
                    },
                    TxnMode::Borrowed => self.misused(),
                },
                _ => self.misused(),
            },
            Stage::Closed => self.misused(),
        }
    }
}

/// The handle after each of `replies` was the body's reply in one attempt
/// whose commit then met a conflict.
pub open spec fn after_conflicts(t: TxnView, replies: Seq<FrameView>) -> TxnView
    decreases replies.len(),
{
    if replies.len() == 0 {
        t
    } else {
        let before = after_conflicts(t, replies.drop_last());
        let committing = txn_step(before, TxnEventView::Ran(Ok(replies.last()))).0;
        txn_step(committing, TxnEventView::Committed(Err(Failure::Conflict))).0
    }
}

/// A borrowed transaction is never opened, committed or rolled back by the
/// handle: whatever is reported, the handle locks it or answers.
pub proof fn law_borrowed_is_left_to_owner(t: TxnView, event: TxnEventView)
    requires
        t.mode == TxnMode::Borrowed,
    ensures
        txn_step(t, event).1 is Lock || txn_step(t, event).1 is Return,
        txn_step(t, event).0.mode == TxnMode::Borrowed,
{
}

/// In a transaction of its own a command is answered with its body's reply
/// only after a commit that went through, and each attempt commits at most
/// once: the commit follows the body, and the answer the commit.
pub proof fn law_commit_then_reply(t: TxnView, reply: FrameView)
    requires
        t.mode == TxnMode::Standalone,
        t.stage == Stage::Running,
    ensures
        txn_step(t, TxnEventView::Ran(Ok(reply))).1 == TxnActionView::Commit,
        txn_step(
            txn_step(t, TxnEventView::Ran(Ok(reply))).0,
            TxnEventView::Committed(Ok(())),
        ) == (closed(t), TxnActionView::Return(reply)),
        forall|event: TxnEventView|
            !(#[trigger] txn_step(closed(t), event).1 is Commit) && !(txn_step(
                closed(t),
                event,
            ).1 is Open) && !(txn_step(closed(t), event).1 is Retry),
{
}

/// The attempts never exceed the bound: a retry is granted only while fewer
/// than `limit` attempts were begun.
pub proof fn law_attempts_bounded(t: TxnView, event: TxnEventView)
    requires
        t.attempts <= t.limit || t.attempts <= 1,
    ensures
        txn_step(t, event).0.attempts <= t.limit || txn_step(t, event).0.attempts <= 1,
        txn_step(t, event).1 is Retry ==> t.attempts < t.limit && txn_step(t, event).0.attempts
            == t.attempts + 1,
        txn_step(t, event).0.limit == t.limit,
{
}

/// Retrying after conflicts: while attempts are left, every attempt whose
/// commit meets a conflict leads back to a running body with nothing kept
/// of the attempt but its count.
pub proof fn law_conflicts_lead_back(t: TxnView, replies: Seq<FrameView>)
    requires
        t.mode == TxnMode::Standalone,
        t.stage == Stage::Running,
        t.reply is None,
        t.attempts + replies.len() <= t.limit,
    ensures
        after_conflicts(t, replies) == (TxnView {
            attempts: (t.attempts + replies.len()) as u32,
            ..t
        }),
    decreases replies.len(),
{
    if replies.len() > 0 {
        law_conflicts_lead_back(t, replies.drop_last());
    }
}

/// Idempotent retry, as the handle sees it: in a transaction of its own,
/// after any number of attempts that met a conflict at commit, with
/// attempts left, the command is answered with the reply of the attempt
/// that went through, and with nothing of the attempts before it.
pub proof fn law_retry_answers_last_attempt(limit: u32, lost: Seq<FrameView>, reply: FrameView)
    requires
        lost.len() < limit,
    ensures
        ({
            let fresh = TxnView {
                mode: TxnMode::Standalone,
                limit,
                attempts: 0,
                stage: Stage::Fresh,
                reply: None,
            };
            let running = after_conflicts(txn_step(fresh, TxnEventView::Begin).0, lost);
            let committing = txn_step(running, TxnEventView::Ran(Ok(reply)));
            &&& txn_step(fresh, TxnEventView::Begin).1 == TxnActionView::Open
            &&& running.attempts == lost.len() + 1
            &&& committing.1 == TxnActionView::Commit
            &&& txn_step(committing.0, TxnEventView::Committed(Ok(()))).1 == TxnActionView::Return(
                reply,
            )
        }),
{
    let fresh = TxnView {
        mode: TxnMode::Standalone,
        limit,
        attempts: 0,
        stage: Stage::Fresh,
        reply: None,
    };
    law_conflicts_lead_back(txn_step(fresh, TxnEventView::Begin).0, lost);
}

/// When the attempts run out on conflicts, the command ends with the
/// transient conflict error, after a rollback.
pub proof fn law_conflicts_exhaust(t: TxnView, reply: FrameView)
    requires
        t.mode == TxnMode::Standalone,
        t.stage == Stage::Running,
        t.attempts >= t.limit,
    ensures
        txn_step(
            txn_step(t, TxnEventView::Ran(Ok(reply))).0,
            TxnEventView::Committed(Err(Failure::Conflict)),
        ).1 == TxnActionView::Abort(FrameView::Error(Fault::Conflict)),
        txn_step(t, TxnEventView::Ran(Err(Failure::Conflict))).1 == TxnActionView::Abort(
            FrameView::Error(Fault::Conflict),
        ),
{
}

} // verus!
