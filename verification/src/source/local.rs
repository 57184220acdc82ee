//! A file on the card: how far it was read, and how much to ask for.

use vstd::prelude::*;
use crate::source;
use crate::source::SourceError;
use crate::source::SourceKind;
use crate::source::SourceView;
use crate::source::Trouble;

verus! {

/// The reading state of a local file. The file itself is read by whoever holds
/// it, as this says.
pub struct LocalFileSource {
    size: u64,
    pos: u64,
    path: String,
    error: Option<SourceError>,
}

/// What a [`LocalFileSource`] holds.
#[verifier::ext_equal]
pub struct LocalView {
    pub size: u64,
    pub pos: u64,
    pub path: Seq<char>,
    pub error: Option<Trouble>,
}

impl View for LocalFileSource {
    type V = LocalView;

    closed spec fn view(&self) -> LocalView {
        LocalView {
            size: self.size,
            pos: self.pos,
            path: self.path@,
            error: source::trouble(self.error),
        }
    }
}

impl LocalView {
    pub open spec fn eof(self) -> bool {
        self.pos >= self.size
    }

    pub open spec fn left(self) -> u64 {
        if self.pos >= self.size {
            0
        } else {
            (self.size - self.pos) as u64
        }
    }

    /// How many bytes to ask the file for: never more than are left, since some
    /// decoders take a short read for the end.
    pub open spec fn wanted(self, room: usize) -> usize {
        if room == 0 || self.eof() {
            0
        } else if room < (self.left() as usize) {
            room
        } else {
            self.left() as usize
        }
    }
}

pub open spec fn told(e: Result<usize, String>) -> Result<nat, Trouble> {
    match e {
        Ok(n) => Ok(n as nat),
        Err(s) => Err(Trouble::Io(s@)),
    }
}

pub open spec fn moved(e: Result<(), String>) -> Result<(), Trouble> {
    match e {
        Ok(_) => Ok(()),
        Err(s) => Err(Trouble::Io(s@)),
    }
}

/// What came of opening.
pub open spec fn opened(r: Result<LocalFileSource, SourceError>) -> Result<LocalView, Trouble> {
    match r {
        Ok(s) => Ok(s@),
        Err(e) => Err(e@),
    }
}

impl LocalFileSource {
    /// A file that was opened and measured, or the reason why it could not be.
    pub fn open(path: &str, size: Result<u64, String>) -> (r: Result<Self, SourceError>)
        ensures
            opened(r) == (match size {
                Ok(n) => Ok(LocalView { size: n, pos: 0, path: path@, error: None }),
                Err(s) => Err(Trouble::Io(s@)),
            }),
    {
        match size {
            Ok(n) => {
                let s = LocalFileSource { size: n, pos: 0, path: path.to_owned(), error: None };
                Ok(s)
            },
            Err(e) => Err(SourceError::Io(e)),
        }
    }

    pub fn path(&self) -> (r: &str)
        ensures
            r@ == self@.path,
    {
        self.path.as_str()
    }

    /// How many bytes to ask the file for; zero means that nothing is to be
    /// read, and a read ends with zero.
    pub fn wanted(&self, room: usize) -> (r: usize)
        ensures
            r == self@.wanted(room),
    {
        if room == 0 || self.pos >= self.size {
            return 0;
        }
        let left: usize = (self.size - self.pos) as usize;
        if room < left {
            room
        } else {
            left
        }
    }

    /// Notes what the file gave.
    pub fn took(&mut self, got: Result<usize, String>) -> (r: Result<usize, SourceError>)
        requires
            got matches Ok(n) ==> n <= old(self)@.left(),
        ensures
            source::read_outcome(r) == told(got),
            final(self)@ == (match got {
                Ok(n) => LocalView { pos: (old(self)@.pos + n) as u64, ..old(self)@ },
                Err(s) => LocalView { error: Some(Trouble::Io(s@)), ..old(self)@ },
            }),
    {
        match got {
            Ok(n) => {
                self.pos = self.pos + n as u64;
                assert(self@ =~= LocalView { pos: (old(self)@.pos + n) as u64, ..old(self)@ });
                Ok(n)
            },
            Err(s) => {
                let e = SourceError::Io(s);
                self.error = Some(e.again());
                assert(self@ =~= LocalView { error: Some(e@), ..old(self)@ });
                Err(e)
            },
        }
    }

    /// Where a seek goes: never beyond the end.
    pub fn seek_target(&self, pos: u64) -> (r: u64)
        ensures
            r == (if pos < self@.size {
                pos
            } else {
                self@.size
            }),
    {
        if pos < self.size {
            pos
        } else {
            self.size
        }
    }

    /// Notes what the file said to a seek.
    pub fn sought(&mut self, pos: u64, done: Result<(), String>) -> (r: Result<(), SourceError>)
        ensures
            source::done_outcome(r) == moved(done),
            final(self)@ == (match done {
                Ok(_) => LocalView {
                    pos: if pos < old(self)@.size {
                        pos
                    } else {
                        old(self)@.size
                    },
                    ..old(self)@
                },
                Err(s) => LocalView { error: Some(Trouble::Io(s@)), ..old(self)@ },
            }),
    {
        let target = self.seek_target(pos);
        match done {
            Ok(_) => {
                self.pos = target;
                assert(self@ =~= LocalView { pos: target, ..old(self)@ });
                Ok(())
            },
            Err(s) => {
                let e = SourceError::Io(s);
                self.error = Some(e.again());
                assert(self@ =~= LocalView { error: Some(e@), ..old(self)@ });
                Err(e)
            },
        }
    }

    pub fn tell(&self) -> (r: u64)
        ensures
            r == self@.pos,
    {
        self.pos
    }

    pub fn size(&self) -> (r: Option<u64>)
        ensures
            r == Some(self@.size),
    {
        Some(self.size)
    }

    pub fn available(&self) -> (r: usize)
        ensures
            r == self@.left() as usize,
    {
        if self.pos >= self.size {
            0
        } else {
            (self.size - self.pos) as usize
        }
    }

    pub fn is_eof(&self) -> (r: bool)
        ensures
            r == self@.eof(),
    {
        self.pos >= self.size
    }

    pub fn error(&self) -> (r: Option<SourceError>)
        ensures
            source::trouble(r) == self@.error,
    {
        source::again_opt(&self.error)
    }

    pub fn kind(&self) -> (r: SourceKind)
        ensures
            r == SourceKind::LocalFile,
    {
        SourceKind::LocalFile
    }
}

/// A file is asked for nothing only where there is no room, or at its end, or
/// where what is left does not fit the machine's word.
pub proof fn law_nothing_wanted_only_at_end(s: LocalView, room: usize)
    requires
        room > 0,
        s.left() <= usize::MAX,
    ensures
        s.wanted(room) == 0 <==> s.eof(),
        s.wanted(room) <= s.left(),
{
}

/// A read of a local file asks for what fits and is left; what the file gave moves
/// the position on by exactly that.
pub proof fn law_read_moves_on(
    s: LocalFileSource,
    room: usize,
    want: usize,
    t: &mut LocalFileSource,
    n: usize,
    r: Result<usize, SourceError>,
)
    requires
        call_ensures(LocalFileSource::wanted, (&s, room), want),
        call_ensures(LocalFileSource::took, (t, Ok::<usize, String>(n)), r),
        s@.size <= 0x7fff_ffff,
        t@.pos + n <= t@.size,
    ensures
        s@.pos <= s@.size ==> want == (if room <= s@.size - s@.pos {
            room as int
        } else {
            s@.size - s@.pos
        }),
        final(t)@.pos == old(t)@.pos + n,
        final(t)@.size == old(t)@.size,
{
}

/// A seek goes where it is asked to, but not beyond the end; a failed one stays.
pub proof fn law_local_seek(
    s: &mut LocalFileSource,
    pos: u64,
    done: Result<(), String>,
    r: Result<(), SourceError>,
)
    requires
        call_ensures(LocalFileSource::sought, (s, pos, done), r),
    ensures
        done is Ok && pos <= old(s)@.size ==> final(s)@.pos == pos,
        done is Ok && pos > old(s)@.size ==> final(s)@.pos == old(s)@.size,
        done is Err ==> final(s)@.pos == old(s)@.pos && final(s)@.error is Some,
{
}

/// A seek goes where it is told, but never beyond the end.
pub proof fn law_seek_stays_within(s: &LocalFileSource, pos: u64, r: u64)
    requires
        call_ensures(LocalFileSource::seek_target, (s, pos), r),
    ensures
        pos <= s@.size ==> r == pos,
        pos > s@.size ==> r == s@.size,
{
}

} // verus!
