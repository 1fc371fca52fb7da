//! The receiver's side of a connection: one session per connection, fed one
//! decoded packet at a time.
//!
//! The session tracks the set of files still awaited (`pending`, keyed by
//! file id) and at most one file currently being written (`active`, with its
//! running checksum). [`RecvSession::handle`] answers every packet with the
//! action the caller must carry out — send a reply, create or append to a
//! file, log a warning — and never performs I/O itself.

use vstd::prelude::*;

use crate::checksum::{
    checksum_add, checksum_of, checksum_extend, lemma_checksum_add_bound, lemma_checksum_chunks,
    CHECKSUM_MOD,
};
use crate::transport::{FileMeta, FileMetaV, Parsed, ParsedV, ProtoError};
use std::collections::HashMap;

verus! {

broadcast use vstd::std_specs::hash::group_hash_axioms;

/// The file currently being written, with the checksum accumulated so far.
pub struct ActiveFile {
    pub meta: FileMeta,
    pub checksum: u64,
}

/// Receiver-side state of one connection: the files still awaited after an
/// accepted offer, and the file currently being written, if any.
pub struct RecvSession {
    pub pending: HashMap<u32, FileMeta>,
    pub active: Option<ActiveFile>,
}

/// Mathematical image of a [`RecvSession`].
pub struct RecvSessionV {
    pub pending: Map<u32, FileMetaV>,
    pub active: Option<(FileMetaV, u64)>,
}

impl View for RecvSession {
    type V = RecvSessionV;

    open spec fn view(&self) -> RecvSessionV {
        RecvSessionV {
            pending: self.pending@.map_values(|m: FileMeta| m@),
            active: match self.active {
                Option::Some(a) => Option::Some((a.meta@, a.checksum)),
                Option::None => Option::None,
            },
        }
    }
}

/// A transfer is in progress while files are awaited or one is being written.
pub open spec fn spec_in_transfer(s: RecvSessionV) -> bool {
    s.active is Some || !s.pending.is_empty()
}

/// A session's running checksum stays below the modulus.
pub open spec fn recv_wf(s: RecvSessionV) -> bool {
    s.active matches Option::Some((m, c)) ==> c < CHECKSUM_MOD
}

/// The pending map an accepted offer seeds: every offered record, keyed by
/// its id, later entries overwriting earlier ones on a colliding id.
pub open spec fn seed_pending(ms: Seq<FileMetaV>) -> Map<u32, FileMetaV>
    decreases ms.len(),
{
    if ms.len() == 0 {
        Map::empty()
    } else {
        seed_pending(ms.drop_last()).insert(ms.last().id, ms.last())
    }
}

/// What the caller must do after handing the session one packet.
#[derive(Debug, PartialEq, Eq)]
pub enum RecvOutcome {
    /// Send this packet back to the peer.
    Reply(Parsed),
    /// Create the file this record names (under its bare name, in the
    /// current working directory) and write the first chunk.
    Open { meta: FileMeta, data: Vec<u8> },
    /// Append this chunk to the file currently open.
    Append { id: u32, data: Vec<u8> },
    /// The block addresses no awaited file: log a warning and drop it.
    Discard { id: u32 },
    /// The current file ended. On a mismatch, warn and keep the file as
    /// written; either way the file is closed. `transfer_complete` says the
    /// session is over and the connection is back to awaiting new packets.
    FileDone { matched: bool, expected: u64, computed: u64, transfer_complete: bool },
    /// Nothing to do (a stray `Pong`).
    Ignore,
    /// Protocol violation, fatal to the transfer: drop the connection.
    Violation(ProtoError),
}

/// Mathematical image of a [`RecvOutcome`].
pub enum RecvOutcomeV {
    Reply(ParsedV),
    Open { meta: FileMetaV, data: Seq<u8> },
    Append { id: u32, data: Seq<u8> },
    Discard { id: u32 },
    FileDone { matched: bool, expected: u64, computed: u64, transfer_complete: bool },
    Ignore,
    Violation(ProtoError),
}

impl View for RecvOutcome {
    type V = RecvOutcomeV;

    open spec fn view(&self) -> RecvOutcomeV {
        match self {
            RecvOutcome::Reply(p) => RecvOutcomeV::Reply(p@),
            RecvOutcome::Open { meta, data } => RecvOutcomeV::Open { meta: meta@, data: data@ },
            RecvOutcome::Append { id, data } => RecvOutcomeV::Append { id: *id, data: data@ },
            RecvOutcome::Discard { id } => RecvOutcomeV::Discard { id: *id },
            RecvOutcome::FileDone { matched, expected, computed, transfer_complete } => {
                RecvOutcomeV::FileDone {
                    matched: *matched,
                    expected: *expected,
                    computed: *computed,
                    transfer_complete: *transfer_complete,
                }
            },
            RecvOutcome::Ignore => RecvOutcomeV::Ignore,
            RecvOutcome::Violation(e) => RecvOutcomeV::Violation(*e),
        }
    }
}

/// The receiver's whole packet-handling rule: given the session state, the
/// packet that arrived, and — for an offer — the operator's yes/no answer,
/// the next state and the action owed.
///
/// Outside a transfer: `Ping` draws a `Pong` and changes nothing; a stray
/// `Pong` is ignored; an offer is answered `AckRes(accept)`, and acceptance
/// seeds the pending set; anything else is a protocol violation. During a
/// transfer: a block for the open file is appended into its checksum; a
/// block for an awaited file opens it; a block for neither is discarded
/// without failing the connection; a block for a different file while one is
/// open is fatal; `FileEnd` compares checksums — a mismatch is reported, the
/// file is kept either way — and closes the file; any other packet is fatal.
pub open spec fn spec_handle(s: RecvSessionV, p: ParsedV, accept: bool) -> (
    RecvSessionV,
    RecvOutcomeV,
) {
    if !spec_in_transfer(s) {
        match p {
            ParsedV::Ping => (s, RecvOutcomeV::Reply(ParsedV::Pong)),
            ParsedV::Pong => (s, RecvOutcomeV::Ignore),
            ParsedV::AckReq(ms) => if accept {
                (
                    RecvSessionV { pending: seed_pending(ms), active: Option::None },
                    RecvOutcomeV::Reply(ParsedV::AckRes(true)),
                )
            } else {
                (s, RecvOutcomeV::Reply(ParsedV::AckRes(false)))
            },
            _ => (s, RecvOutcomeV::Violation(ProtoError::UnexpectedPacket)),
        }
    } else {
        match p {
            ParsedV::FileBlock { id, data } => match s.active {
                Option::Some((m, c)) => if m.id == id {
                    (
                        RecvSessionV {
                            active: Option::Some((m, checksum_add(c, data))),
                            ..s
                        },
                        RecvOutcomeV::Append { id, data },
                    )
                } else {
                    (s, RecvOutcomeV::Violation(ProtoError::WrongFileId))
                },
                Option::None => if s.pending.contains_key(id) {
                    (
                        RecvSessionV {
                            pending: s.pending.remove(id),
                            active: Option::Some((s.pending[id], checksum_of(data))),
                        },
                        RecvOutcomeV::Open { meta: s.pending[id], data },
                    )
                } else {
                    (s, RecvOutcomeV::Discard { id })
                },
            },
            ParsedV::FileEnd(cs) => {
                let computed = match s.active {
                    Option::Some((m, c)) => c,
                    Option::None => 0u64,
                };
                (
                    RecvSessionV { pending: s.pending, active: Option::None },
                    RecvOutcomeV::FileDone {
                        matched: cs == computed,
                        expected: cs,
                        computed,
                        transfer_complete: s.pending.is_empty(),
                    },
                )
            },
            _ => (s, RecvOutcomeV::Violation(ProtoError::UnexpectedPacket)),
        }
    }
}

impl RecvSession {
    /// A fresh session: nothing awaited, nothing open.
    pub fn new() -> (s: Self)
        ensures
            s@.pending == Map::<u32, FileMetaV>::empty(),
            s@.active is None,
            recv_wf(s@),
    {
        let s = RecvSession { pending: HashMap::new(), active: Option::None };
        proof {
            assert(s@.pending =~= Map::<u32, FileMetaV>::empty());
        }
        s
    }

    /// Is a negotiated transfer currently in progress?
    pub fn in_transfer(&self) -> (r: bool)
        ensures
            r == spec_in_transfer(self@),
    {
        proof {
            assert(self.pending@.is_empty() == self@.pending.is_empty()) by {
                assert(self.pending@.dom() =~= self@.pending.dom());
            }
        }
        self.active.is_some() || !self.pending.is_empty()
    }

    /// Feed the session one packet; `accept` is the operator's answer to an
    /// offer (consulted only when `p` is `AckReq`). Returns the action the
    /// caller owes. The whole behaviour is [`spec_handle`].
    pub fn handle(&mut self, p: Parsed, accept: bool) -> (r: RecvOutcome)
        requires
            recv_wf(old(self)@),
            p@ matches ParsedV::FileBlock { id, data } ==> data.len() <= 0xFFFF,
        ensures
            final(self)@ == spec_handle(old(self)@, p@, accept).0,
            r@ == spec_handle(old(self)@, p@, accept).1,
            recv_wf(final(self)@),
    {
        let transferring = self.in_transfer();
        if !transferring {
            match p {
                Parsed::Ping => RecvOutcome::Reply(Parsed::Pong),
                Parsed::Pong => RecvOutcome::Ignore,
                Parsed::AckReq(ms) => {
                    if accept {
                        let ghost msv = Seq::new(ms@.len(), |i: int| ms@[i]@);
                        self.pending = HashMap::new();
                        self.active = Option::None;
                        proof {
                            assert(self@.pending =~= seed_pending(msv.take(0)));
                        }
                        let mut i: usize = 0;
                        while i < ms.len()
                            invariant
                                i <= ms@.len(),
                                msv == Seq::new(ms@.len(), |j: int| ms@[j]@),
                                self.active is None,
                                self@.pending == seed_pending(msv.take(i as int)),
                            decreases ms@.len() - i,
                        {
                            let ghost before = self.pending@;
                            let m = ms[i].clone();
                            let mid = m.id;
                            self.pending.insert(mid, m);
                            i = i + 1;
                            proof {
                                assert(msv.take(i as int).drop_last() =~= msv.take(i - 1));
                                assert(msv.take(i as int).last() == msv[i - 1]);
                                assert(self@.pending =~= seed_pending(msv.take(i - 1)).insert(
                                    msv[i - 1].id,
                                    msv[i - 1],
                                ));
                            }
                        }
                        proof {
                            assert(msv.take(msv.len() as int) =~= msv);
                        }
                        RecvOutcome::Reply(Parsed::AckRes(true))
                    } else {
                        RecvOutcome::Reply(Parsed::AckRes(false))
                    }
                },
                _ => RecvOutcome::Violation(ProtoError::UnexpectedPacket),
            }
        } else {
            match p {
                Parsed::FileBlock { id, data } => {
                    let current = self.active.take();
                    match current {
                        Option::Some(act) => {
                            if act.meta.id == id {
                                let c2 = checksum_extend(act.checksum, data.as_slice());
                                self.active = Option::Some(
                                    ActiveFile { meta: act.meta, checksum: c2 },
                                );
                                RecvOutcome::Append { id, data }
                            } else {
                                self.active = Option::Some(act);
                                RecvOutcome::Violation(ProtoError::WrongFileId)
                            }
                        },
                        Option::None => {
                            match self.pending.remove(&id) {
                                Option::Some(m) => {
                                    proof {
                                        assert(self@.pending =~= old(self)@.pending.remove(id));
                                        assert(m@ == old(self)@.pending[id]);
                                    }
                                    let c = checksum_extend(0, data.as_slice());
                                    self.active = Option::Some(
                                        ActiveFile { meta: m.clone(), checksum: c },
                                    );
                                    RecvOutcome::Open { meta: m, data }
                                },
                                Option::None => {
                                    proof {
                                        assert(self@.pending =~= old(self)@.pending);
                                    }
                                    RecvOutcome::Discard { id }
                                },
                            }
                        },
                    }
                },
                Parsed::FileEnd(cs) => {
                    let computed = match &self.active {
                        Option::Some(a) => a.checksum,
                        Option::None => 0,
                    };
                    self.active = Option::None;
                    proof {
                        assert(self.pending@.is_empty() == self@.pending.is_empty()) by {
                            assert(self.pending@.dom() =~= self@.pending.dom());
                        }
                    }
                    let complete = self.pending.is_empty();
                    RecvOutcome::FileDone {
                        matched: cs == computed,
                        expected: cs,
                        computed,
                        transfer_complete: complete,
                    }
                },
                _ => RecvOutcome::Violation(ProtoError::UnexpectedPacket),
            }
        }
    }
}

/// Handshake, receiver side: a `Ping` to an idle session draws exactly one
/// `Pong` and leaves the session untouched, so the connection stays open for
/// whatever comes next.
pub proof fn lemma_ping_pong(s: RecvSessionV, accept: bool)
    requires
        !spec_in_transfer(s),
    ensures
        spec_handle(s, ParsedV::Ping, accept) == (s, RecvOutcomeV::Reply(ParsedV::Pong)),
{
}

/// Declining an offer answers `AckRes(false)` and leaves the session exactly
/// as it was, still idle: a later `Ping` on the same connection still draws
/// its `Pong`.
pub proof fn lemma_decline_keeps_session(s: RecvSessionV, ms: Seq<FileMetaV>, accept: bool)
    requires
        !spec_in_transfer(s),
    ensures
        spec_handle(s, ParsedV::AckReq(ms), false) == (
            s,
            RecvOutcomeV::Reply(ParsedV::AckRes(false)),
        ),
        spec_handle(spec_handle(s, ParsedV::AckReq(ms), false).0, ParsedV::Ping, accept) == (
            s,
            RecvOutcomeV::Reply(ParsedV::Pong),
        ),
{
}

/// Feed a run of `FileBlock` packets for one file into the session, in
/// order. (The operator's answer plays no part in block handling.)
pub open spec fn spec_feed_blocks(s: RecvSessionV, id: u32, chunks: Seq<Seq<u8>>) -> RecvSessionV
    decreases chunks.len(),
{
    if chunks.len() == 0 {
        s
    } else {
        spec_feed_blocks(
            spec_handle(s, ParsedV::FileBlock { id: id, data: chunks.first() }, false).0,
            id,
            chunks.drop_first(),
        )
    }
}

/// While a file is open, streaming any run of chunks addressed to it leaves
/// the session unchanged but for the running checksum, which accumulates to
/// exactly the checksum of the chunks' concatenation — however the bytes
/// were split into blocks.
pub proof fn lemma_stream_accumulates(
    s: RecvSessionV,
    m: FileMetaV,
    c: u64,
    id: u32,
    chunks: Seq<Seq<u8>>,
)
    requires
        s.active == Option::Some((m, c)),
        m.id == id,
        c < CHECKSUM_MOD,
    ensures
        spec_feed_blocks(s, id, chunks) == (RecvSessionV {
            active: Option::Some((m, checksum_add(c, chunks.flatten()))),
            ..s
        }),
    decreases chunks.len(),
{
    if chunks.len() == 0 {
        assert(chunks.flatten() =~= Seq::<u8>::empty());
        crate::checksum::lemma_byte_sum_bounds(chunks.flatten());
        vstd::arithmetic::div_mod::lemma_small_mod(c as nat, CHECKSUM_MOD as nat);
    } else {
        let first = chunks.first();
        let c1 = checksum_add(c, first);
        let s1 = spec_handle(s, ParsedV::FileBlock { id: id, data: first }, false).0;
        assert(s1 == (RecvSessionV { active: Option::Some((m, c1)), ..s }));
        lemma_checksum_add_bound(c, first);
        lemma_stream_accumulates(s1, m, c1, id, chunks.drop_first());
        lemma_checksum_chunks(c, first, chunks.drop_first().flatten());
        assert(chunks.flatten() == first + chunks.drop_first().flatten());
    }
}

/// Integrity of a clean transfer: when an awaited file is opened by its
/// first chunk, the remaining chunks are appended unchanged, and the
/// sender's `FileEnd` carries the checksum of the same bytes — which is
/// what [`crate::send::FileSender`] puts there — the receiver computes the
/// same value, reports a match, and closes the file; the transfer completes
/// exactly when nothing else is awaited.
pub proof fn lemma_unchanged_file_matches(s: RecvSessionV, id: u32, chunks: Seq<Seq<u8>>)
    requires
        spec_in_transfer(s),
        s.active is None,
        s.pending.contains_key(id),
        s.pending[id].id == id,
        chunks.len() > 0,
    ensures
        ({
            let cs = checksum_of(chunks.flatten());
            let s1 = spec_handle(s, ParsedV::FileBlock { id: id, data: chunks.first() }, false).0;
            let s2 = spec_feed_blocks(s1, id, chunks.drop_first());
            let (s3, o) = spec_handle(s2, ParsedV::FileEnd(cs), false);
            &&& o == (RecvOutcomeV::FileDone {
                matched: true,
                expected: cs,
                computed: cs,
                transfer_complete: s.pending.remove(id).is_empty(),
            })
            &&& s3.active is None
            &&& s3.pending == s.pending.remove(id)
        }),
{
    let first = chunks.first();
    let m = s.pending[id];
    let c0 = checksum_of(first);
    let s1 = spec_handle(s, ParsedV::FileBlock { id: id, data: first }, false).0;
    assert(s1.active == Option::Some((m, c0)));
    lemma_checksum_add_bound(0, first);
    lemma_stream_accumulates(s1, m, c0, id, chunks.drop_first());
    lemma_checksum_chunks(0, first, chunks.drop_first().flatten());
    assert(chunks.flatten() == first + chunks.drop_first().flatten());
}

/// A block whose id names no awaited file, while none is open, is discarded:
/// the session does not change, so every later packet is handled exactly as
/// it would have been had the stray block never arrived.
pub proof fn lemma_unrequested_block_discarded(
    s: RecvSessionV,
    id: u32,
    data: Seq<u8>,
    accept: bool,
)
    requires
        spec_in_transfer(s),
        s.active is None,
        !s.pending.contains_key(id),
    ensures
        spec_handle(s, ParsedV::FileBlock { id, data }, accept) == (
            s,
            RecvOutcomeV::Discard { id },
        ),
{
}

} // verus!
