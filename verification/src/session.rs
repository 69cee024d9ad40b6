//! Destination sessions that remember what was done with them: how often a
//! session was opened, which chunks were written to it, and how it ended.
use crate::destination::{AbandonedWrite, DestinationWrite, DestinationWriteFailure, LoadMode};
use crate::dispatch::{
    may_abandon, may_begin, may_commit, may_write, Destination, DestinationWriter,
};
use crate::retry::{Attempt, Operation, Sleeper};
use vstd::prelude::*;

verus! {

/// How a session ended, and what it came to.
pub enum SessionEnd {
    Committed(Result<DestinationWrite, DestinationWriteFailure>),
    Abandoned(AbandonedWrite),
}

/// An open write session of a destination. Its writer is reached through it
/// alone, so what it remembers is all that was done.
pub struct WriteSession<W: DestinationWriter> {
    writer: Option<W>,
    opened: Ghost<W>,
    chunk: Option<W::Batch>,
    made: Ghost<Seq<Attempt<(W, W::Batch), ()>>>,
    end: Ghost<Option<SessionEnd>>,
}

impl<W: DestinationWriter> WriteSession<W> {
    /// The writer that the destination opened.
    pub closed spec fn writer(self) -> W {
        self.opened@
    }

    /// Whether the session was neither committed nor abandoned.
    pub closed spec fn is_open(self) -> bool {
        self.writer == Some(self.opened@)
    }

    /// How the session ended.
    pub closed spec fn ended(self) -> Option<SessionEnd> {
        self.end@
    }

    /// The chunk that the session took last.
    pub closed spec fn chunk(self) -> Option<W::Batch> {
        self.chunk
    }

    /// Whether nothing was done with the session yet.
    pub open spec fn is_fresh(self) -> bool {
        self.is_open() && self.ended() is None && self.attempted().len() == 0
    }

    fn open(writer: W) -> (session: WriteSession<W>)
        ensures
            session.is_fresh(),
            session.writer() == writer,
    {
        let ghost opened = writer;
        WriteSession {
            writer: Some(writer),
            opened: Ghost(opened),
            chunk: None,
            made: Ghost(Seq::empty()),
            end: Ghost(None),
        }
    }

    /// Takes the chunk that the next attempts write.
    pub fn take_chunk(&mut self, chunk: W::Batch)
        ensures
            final(self).chunk() == Some(chunk),
            final(self).writer() == old(self).writer(),
            final(self).attempted() == old(self).attempted(),
            final(self).is_open() == old(self).is_open(),
            final(self).ended() == old(self).ended(),
    {
        self.chunk = Some(chunk);
    }

    /// Commits the session.
    pub fn commit(&mut self) -> (committed: Result<DestinationWrite, DestinationWriteFailure>)
        requires
            old(self).is_open(),
        ensures
            may_commit(old(self).writer(), committed),
            !final(self).is_open(),
            final(self).ended() == Some(SessionEnd::Committed(committed)),
            final(self).writer() == old(self).writer(),
            final(self).attempted() == old(self).attempted(),
    {
        let writer = self.writer.take().unwrap();
        let committed = writer.commit();
        proof {
            assert(may_commit(writer, committed));
        }
        self.end = Ghost(Some(SessionEnd::Committed(committed)));
        committed
    }

    /// Abandons the session.
    pub fn abandon(&mut self) -> (abandoned: AbandonedWrite)
        requires
            old(self).is_open(),
        ensures
            may_abandon(old(self).writer(), abandoned),
            !final(self).is_open(),
            final(self).ended() == Some(SessionEnd::Abandoned(abandoned)),
            final(self).writer() == old(self).writer(),
            final(self).attempted() == old(self).attempted(),
    {
        let writer = self.writer.take().unwrap();
        let abandoned = writer.abandon();
        proof {
            assert(may_abandon(writer, abandoned));
        }
        self.end = Ghost(Some(SessionEnd::Abandoned(abandoned)));
        abandoned
    }

    /// Gives the writer away, for a window of concurrent writes.
    pub fn into_writer(self) -> (writer: W)
        requires
            self.is_open(),
        ensures
            writer == self.writer(),
    {
        self.writer.unwrap()
    }
}

/// Writing the chunk that the session took last.
impl<W: DestinationWriter> Operation<()> for WriteSession<W> {
    type Target = (W, W::Batch);

    open spec fn target(&self) -> (W, W::Batch) {
        (self.writer(), self.chunk()->0)
    }

    closed spec fn attempted(&self) -> Seq<Attempt<(W, W::Batch), ()>> {
        self.made@
    }

    open spec fn ready(&self) -> bool {
        self.is_open() && self.ended() is None && self.chunk() is Some
    }

    open spec fn may_give(
        target: (W, W::Batch),
        outcome: Result<(), DestinationWriteFailure>,
    ) -> bool {
        may_write(&target.0, &target.1, outcome)
    }

    fn attempt<S: Sleeper>(&mut self, sleeper: &S) -> Result<(), DestinationWriteFailure> {
        let outcome = match (&self.writer, &self.chunk) {
            (Some(writer), Some(chunk)) => writer.write_chunk(chunk),
            _ => Ok(()),
        };
        proof {
            assert(may_write(&self.opened@, &self.chunk->0, outcome));
        }
        self.made = Ghost(
            self.made@.push(
                Attempt {
                    target: (self.opened@, self.chunk->0),
                    waits: sleeper.waits(),
                    outcome,
                },
            ),
        );
        outcome
    }
}

/// Opens the session of a load at a destination, in a load mode. The
/// destination is reached through it alone.
pub struct SessionOpener<'a, D: Destination> {
    destination: &'a D,
    mode: LoadMode,
    made: Ghost<Seq<Attempt<(D, LoadMode), WriteSession<D::Writer>>>>,
}

impl<'a, D: Destination> SessionOpener<'a, D> {
    /// An opener that was not used yet.
    pub fn new(destination: &'a D, mode: LoadMode) -> (opener: SessionOpener<'a, D>)
        ensures
            opener.target() == (*destination, mode),
            opener.attempted() == Seq::<Attempt<(D, LoadMode), WriteSession<D::Writer>>>::empty(),
    {
        SessionOpener { destination, mode, made: Ghost(Seq::empty()) }
    }
}

/// Whether opening a session may end so: a session that was opened is fresh.
pub open spec fn may_open<D: Destination>(
    destination: D,
    mode: LoadMode,
    opened: Result<WriteSession<D::Writer>, DestinationWriteFailure>,
) -> bool {
    match opened {
        Ok(session) => session.is_fresh() && may_begin(&destination, mode, Ok(session.writer())),
        Err(failure) => may_begin(&destination, mode, Err(failure)),
    }
}

impl<'a, D: Destination> Operation<WriteSession<D::Writer>> for SessionOpener<'a, D> {
    type Target = (D, LoadMode);

    closed spec fn target(&self) -> (D, LoadMode) {
        (*self.destination, self.mode)
    }

    closed spec fn attempted(&self) -> Seq<Attempt<(D, LoadMode), WriteSession<D::Writer>>> {
        self.made@
    }

    open spec fn ready(&self) -> bool {
        true
    }

    open spec fn may_give(
        target: (D, LoadMode),
        outcome: Result<WriteSession<D::Writer>, DestinationWriteFailure>,
    ) -> bool {
        may_open(target.0, target.1, outcome)
    }

    fn attempt<S: Sleeper>(&mut self, sleeper: &S) -> Result<
        WriteSession<D::Writer>,
        DestinationWriteFailure,
    > {
        let begun = self.destination.begin(self.mode);
        proof {
            assert(may_begin(self.destination, self.mode, begun));
        }
        let outcome = match begun {
            Ok(writer) => Ok(WriteSession::open(writer)),
            Err(failure) => Err(failure),
        };
        self.made = Ghost(
            self.made@.push(
                Attempt {
                    target: (*self.destination, self.mode),
                    waits: sleeper.waits(),
                    outcome,
                },
            ),
        );
        outcome
    }
}

/// The session of one load: how it is opened, and the session itself once its
/// chunks were written to it one by one.
pub struct LoadSession<'a, D: Destination> {
    pub opener: SessionOpener<'a, D>,
    pub session: Option<WriteSession<D::Writer>>,
}

impl<'a, D: Destination> LoadSession<'a, D> {
    /// The session of a load that is yet to be opened.
    pub fn new(destination: &'a D, mode: LoadMode) -> (load: LoadSession<'a, D>)
        ensures
            load.opener.target() == (*destination, mode),
            load.opener.attempted() == Seq::<
                Attempt<(D, LoadMode), WriteSession<D::Writer>>,
            >::empty(),
            load.session is None,
    {
        LoadSession { opener: SessionOpener::new(destination, mode), session: None }
    }
}

/// A session commits or abandons the very writer that was opened, once, and remembers
/// what that came to. Taking a chunk changes nothing else.
pub proof fn law_session_ends_with_its_writer<W: DestinationWriter>(
    committing: &mut WriteSession<W>,
    committed: Result<DestinationWrite, DestinationWriteFailure>,
    abandoning: &mut WriteSession<W>,
    abandoned: AbandonedWrite,
    taking: &mut WriteSession<W>,
    chunk: W::Batch,
    given: WriteSession<W>,
    writer: W,
)
    requires
        call_ensures(WriteSession::<W>::commit, (committing,), committed),
        call_ensures(WriteSession::<W>::abandon, (abandoning,), abandoned),
        call_ensures(WriteSession::<W>::take_chunk, (taking, chunk), ()),
        call_ensures(WriteSession::<W>::into_writer, (given,), writer),
    ensures
        call_ensures(W::commit, (old(committing).writer(),), committed),
        !final(committing).is_open(),
        final(committing).ended() == Some(SessionEnd::Committed(committed)),
        final(committing).attempted() == old(committing).attempted(),
        call_ensures(W::abandon, (old(abandoning).writer(),), abandoned),
        !final(abandoning).is_open(),
        final(abandoning).ended() == Some(SessionEnd::Abandoned(abandoned)),
        final(abandoning).attempted() == old(abandoning).attempted(),
        final(taking).chunk() == Some(chunk),
        final(taking).writer() == old(taking).writer(),
        final(taking).attempted() == old(taking).attempted(),
        final(taking).is_open() == old(taking).is_open(),
        final(taking).ended() == old(taking).ended(),
        writer == given.writer(),
{
}

/// An attempt writes the chunk that the session took, with the session's writer, and
/// is remembered with what came of it.
pub proof fn law_attempt_writes_the_chunk<W: DestinationWriter, S: Sleeper>(
    session: &mut WriteSession<W>,
    sleeper: S,
    outcome: Result<(), DestinationWriteFailure>,
)
    requires
        call_ensures(
            <WriteSession<W> as Operation<()>>::attempt::<S>,
            (session, &sleeper),
            outcome,
        ),
    ensures
        call_ensures(
            W::write_chunk,
            (&old(session).writer(), &old(session).chunk()->0),
            outcome,
        ),
        final(session).attempted().len() == old(session).attempted().len() + 1,
        final(session).attempted().drop_last() == old(session).attempted(),
        final(session).attempted().last().outcome == outcome,
        final(session).attempted().last().target == (
            old(session).writer(),
            old(session).chunk()->0,
        ),
{
    assert(final(session).attempted().drop_last() =~= old(session).attempted());
}

/// A load opens its session at its destination, in its mode: an attempt begins one
/// there, and a session that was opened has the writer that came of it and is fresh.
pub proof fn law_attempt_begins_at_the_destination<'a, D: Destination, S: Sleeper>(
    destination: &'a D,
    mode: LoadMode,
    load: LoadSession<'a, D>,
    opener: &mut SessionOpener<'a, D>,
    sleeper: S,
    outcome: Result<WriteSession<D::Writer>, DestinationWriteFailure>,
)
    requires
        call_ensures(LoadSession::<'a, D>::new, (destination, mode), load),
        *old(opener) == load.opener,
        call_ensures(
            <SessionOpener<'a, D> as Operation<WriteSession<D::Writer>>>::attempt::<S>,
            (opener, &sleeper),
            outcome,
        ),
    ensures
        load.session is None,
        load.opener.attempted().len() == 0,
        outcome matches Ok(session) ==> session.is_open() && session.ended() is None
            && session.attempted().len() == 0 && call_ensures(
            D::begin,
            (destination, mode),
            Ok::<D::Writer, DestinationWriteFailure>(session.writer()),
        ),
        outcome matches Err(failure) ==> call_ensures(
            D::begin,
            (destination, mode),
            Err::<D::Writer, DestinationWriteFailure>(failure),
        ),
        final(opener).attempted().len() == 1,
        final(opener).attempted()[0].outcome == outcome,
{
}

} // verus!
