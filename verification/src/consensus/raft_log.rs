//! The stable storage of a Raft node.
//!
//! A node keeps its term, its vote and its log in one file, which it
//! rewrites from the start on every change. A `RaftLog` is the image of
//! that file. The state is written with `bincode`: the term, the vote, and
//! the entries as triples of term, index and payload.

use vstd::prelude::*;
use bincode::ErrorKind;
use crate::base::error::PyralogError;
use crate::base::wire::bincode_error_text;
use crate::consensus::state::{entries_view, LogEntry, LogEntryView, PersistentState};

verus! {

/// The persistent state of a node as a mathematical value.
pub struct PersistentView {
    pub current_term: u64,
    pub voted_for: Option<u64>,
    pub log: Seq<LogEntryView>,
}

impl View for PersistentState {
    type V = PersistentView;

    open spec fn view(&self) -> PersistentView {
        PersistentView {
            current_term: self.current_term,
            voted_for: self.voted_for,
            log: entries_view(self.log@),
        }
    }
}

/// The bytes that bincode writes for a persistent state.
pub uninterp spec fn state_wire(s: PersistentView) -> Seq<u8>;

/// Whether bincode encodes the persistent state `s` at all.
pub uninterp spec fn state_encodes(s: PersistentView) -> bool;

/// The persistent state that bincode reads from the front of `bytes`, if
/// they begin with one.
pub uninterp spec fn state_unwire(bytes: Seq<u8>) -> Option<PersistentView>;

/// The triples of a list as log entries, in order.
pub open spec fn triples_view(t: Seq<(u64, u64, Vec<u8>)>) -> Seq<LogEntryView> {
    t.map_values(|e: (u64, u64, Vec<u8>)| LogEntryView { term: e.0, index: e.1, data: e.2@ })
}

/// The state that the fields handed to bincode make up.
pub open spec fn fields_view(f: (u64, Option<u64>, Vec<(u64, u64, Vec<u8>)>)) -> PersistentView {
    PersistentView { current_term: f.0, voted_for: f.1, log: triples_view(f.2@) }
}

/// `bincode::serialize` on the fields of a persistent state. Whether it
/// succeeds depends on the fields alone. Where it does, the bytes are the
/// encoding of the state and are not empty, since the term alone takes
/// eight of them; and decoding them, with or without further bytes behind
/// them, gives the state back: the decoder stops at the end of the value
/// and lets trailing bytes be.
#[verifier::external_body]
fn bincode_write_state(f: &(u64, Option<u64>, Vec<(u64, u64, Vec<u8>)>)) -> (r: Result<
    Vec<u8>,
    Box<ErrorKind>,
>)
    ensures
        r is Ok <==> state_encodes(fields_view(*f)),
        r matches Ok(b) ==> b@ == state_wire(fields_view(*f)) && b@.len() > 0 && forall|
            tail: Seq<u8>,
        |
            #[trigger] state_unwire(b@ + tail) == Some(fields_view(*f)),
{
    bincode::serialize(f)
}

/// `bincode::deserialize` into the fields of a persistent state. It
/// succeeds exactly on bytes that begin with a state, and gives that
/// state's fields.
#[verifier::external_body]
fn bincode_read_state(bytes: &[u8]) -> (r: Result<
    (u64, Option<u64>, Vec<(u64, u64, Vec<u8>)>),
    Box<ErrorKind>,
>)
    ensures
        match r {
            Ok(f) => state_unwire(bytes@) == Some(fields_view(f)),
            Err(_) => state_unwire(bytes@) is None,
        },
{
    bincode::deserialize(bytes)
}

impl PersistentState {
    /// A second state with the same content.
    pub fn duplicate(&self) -> (r: Self)
        ensures
            r@ == self@,
    {
        let mut log: Vec<LogEntry> = Vec::new();
        let n: usize = self.log.len();
        let mut i: usize = 0;
        while i < n
            invariant
                i <= n,
                n == self.log@.len(),
                entries_view(log@) =~= entries_view(self.log@).subrange(0, i as int),
            decreases n - i,
        {
            let e: LogEntry = self.log[i].duplicate();
            let ghost before = log@;
            log.push(e);
            assert(entries_view(log@) =~= entries_view(before).push(e@));
            i += 1;
        }
        assert(entries_view(self.log@).subrange(0, n as int) =~= entries_view(self.log@));
        Self { current_term: self.current_term, voted_for: self.voted_for, log }
    }

    /// Encodes the state, which succeeds exactly where bincode takes it.
    /// The bytes decode to the same state, whatever follows them.
    pub fn to_bytes(&self) -> (r: Result<Vec<u8>, PyralogError>)
        ensures
            r is Ok <==> state_encodes(self@),
            match r {
                Ok(b) => b@ == state_wire(self@) && b@.len() > 0 && forall|tail: Seq<u8>|
                    #[trigger] state_unwire(b@ + tail) == Some(self@),
                Err(e) => e is SerializationError,
            },
    {
        let mut triples: Vec<(u64, u64, Vec<u8>)> = Vec::new();
        let n: usize = self.log.len();
        let mut i: usize = 0;
        while i < n
            invariant
                i <= n,
                n == self.log@.len(),
                triples_view(triples@) =~= entries_view(self.log@).subrange(0, i as int),
            decreases n - i,
        {
            let t: (u64, u64, Vec<u8>) = (self.log[i].term, self.log[i].index, self.log[i].data.clone());
            let ghost before = triples@;
            triples.push(t);
            assert(triples_view(triples@) =~= triples_view(before).push(
                LogEntryView { term: t.0, index: t.1, data: t.2@ },
            ));
            i += 1;
        }
        assert(entries_view(self.log@).subrange(0, n as int) =~= entries_view(self.log@));
        let fields = (self.current_term, self.voted_for, triples);
        match bincode_write_state(&fields) {
            Ok(b) => Ok(b),
            Err(e) => Err(PyralogError::SerializationError(bincode_error_text(&e))),
        }
    }

    /// Decodes a state from the front of `bytes`.
    pub fn from_bytes(bytes: &[u8]) -> (r: Result<Self, PyralogError>)
        ensures
            match r {
                Ok(s) => state_unwire(bytes@) == Some(s@),
                Err(e) => state_unwire(bytes@) is None && e is SerializationError,
            },
    {
        match bincode_read_state(bytes) {
            Ok(f) => {
                let mut log: Vec<LogEntry> = Vec::new();
                let n: usize = f.2.len();
                let mut i: usize = 0;
                while i < n
                    invariant
                        i <= n,
                        n == f.2@.len(),
                        entries_view(log@) =~= triples_view(f.2@).subrange(0, i as int),
                    decreases n - i,
                {
                    let e = LogEntry { term: f.2[i].0, index: f.2[i].1, data: f.2[i].2.clone() };
                    let ghost before = log@;
                    log.push(e);
                    assert(entries_view(log@) =~= entries_view(before).push(e@));
                    i += 1;
                }
                assert(triples_view(f.2@).subrange(0, n as int) =~= triples_view(f.2@));
                Ok(Self { current_term: f.0, voted_for: f.1, log })
            },
            Err(e) => Err(PyralogError::SerializationError(bincode_error_text(&e))),
        }
    }
}

/// What a file holds after `data` is written over its start: `data`, and
/// behind it whatever the file held beyond the length of `data`.
pub open spec fn overwritten(image: Seq<u8>, data: Seq<u8>) -> Seq<u8> {
    if data.len() >= image.len() {
        data
    } else {
        data + image.subrange(data.len() as int, image.len() as int)
    }
}

/// The image of a node's state file.
#[derive(Debug)]
pub struct RaftLog {
    image: Vec<u8>,
}

impl RaftLog {
    /// The bytes of the state file.
    pub closed spec fn spec_image(&self) -> Seq<u8> {
        self.image@
    }

    /// The image of a state file with the content `image`; an empty image
    /// stands for a file that was just created.
    pub fn open(image: Vec<u8>) -> (r: Self)
        ensures
            r.spec_image() == image@,
    {
        Self { image }
    }

    /// Writes the state over the start of the file. Loading afterwards
    /// gives the state back. It fails exactly where the state does not
    /// encode, and the file is then left as it is.
    pub fn save_state(&mut self, state: &PersistentState) -> (r: Result<(), PyralogError>)
        ensures
            r is Ok <==> state_encodes(state@),
            match r {
                Ok(_) => {
                    &&& final(self).spec_image() == overwritten(
                        old(self).spec_image(),
                        state_wire(state@),
                    )
                    &&& state_unwire(final(self).spec_image()) == Some(state@)
                    &&& final(self).spec_image().len() > 0
                },
                Err(e) => final(self).spec_image() == old(self).spec_image() && e
                    is SerializationError,
            },
    {
        let data: Vec<u8> = match state.to_bytes() {
            Ok(b) => b,
            Err(e) => {
                return Err(e);
            },
        };
        let n: usize = data.len();
        let m: usize = self.image.len();
        let mut next: Vec<u8> = data;
        if n < m {
            let tail: &[u8] = vstd::slice::slice_subrange(self.image.as_slice(), n, m);
            next.extend_from_slice(tail);
        } else {
            assert(next@ =~= next@ + Seq::<u8>::empty());
        }
        self.image = next;
        Ok(())
    }

    /// Reads the state from the file. An empty file holds the initial
    /// state: term zero, no vote, no entries.
    pub fn load_state(&self) -> (r: Result<PersistentState, PyralogError>)
        ensures
            match r {
                Ok(s) => if self.spec_image().len() == 0 {
                    s.current_term == 0 && s.voted_for is None && s.log@.len() == 0
                } else {
                    state_unwire(self.spec_image()) == Some(s@)
                },
                Err(e) => self.spec_image().len() > 0 && state_unwire(self.spec_image()) is None
                    && e is SerializationError,
            },
    {
        if self.image.len() == 0 {
            return Ok(PersistentState::default());
        }
        PersistentState::from_bytes(self.image.as_slice())
    }

    /// The bytes of the state file.
    pub fn bytes(&self) -> (r: &[u8])
        ensures
            r@ == self.spec_image(),
    {
        self.image.as_slice()
    }
}

} // verus!
