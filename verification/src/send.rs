//! The sender's side of a connection: handshake, negotiation, and the
//! chunked streaming of one file after another.
//!
//! The sender connects, pings, offers a file set, and — once the offer is
//! accepted — streams each file as length-prefixed blocks of at most 1300
//! bytes with a running checksum, closing each file with `FileEnd`. All I/O
//! stays with the caller; this module turns states and bytes into the
//! packets to put on the wire.

use vstd::prelude::*;

use crate::checksum::{checksum_add, checksum_of, checksum_extend, CHECKSUM_MOD};
use crate::transport::{
    packet_len_wf, spec_file_id, FileMeta, FileMetaV, Parsed, ParsedV, ProtoError, PONG,
};

verus! {

/// The sender's handshake: it connects, sends `Ping`, and blocks for exactly
/// one reply before anything else may happen on the connection.
#[derive(Debug, Clone, Copy, PartialEq, Eq, Structural)]
pub enum HandshakeState {
    Disconnected,
    AwaitingPong,
    Live,
}

/// Open the handshake: the transition `Disconnected -> AwaitingPong`, taken
/// as the sender puts a `Ping` on the wire. Returns the new state and the
/// packet to send.
pub fn handshake_start(st: HandshakeState) -> (r: (HandshakeState, Parsed))
    requires
        st is Disconnected,
    ensures
        r.0 is AwaitingPong,
        r.1@ == ParsedV::Ping,
{
    (HandshakeState::AwaitingPong, Parsed::Ping)
}

/// Judge the one reply byte the sender blocked for: `Pong` makes the
/// connection `Live`; anything else is fatal and reported as
/// `PeerUnreachable`.
pub fn handshake_reply(st: HandshakeState, reply: u8) -> (r: Result<HandshakeState, ProtoError>)
    requires
        st is AwaitingPong,
    ensures
        reply == PONG ==> r is Ok && r->Ok_0 is Live,
        reply != PONG ==> r == Result::<HandshakeState, ProtoError>::Err(
            ProtoError::PeerUnreachable,
        ),
{
    if reply == PONG {
        Result::Ok(HandshakeState::Live)
    } else {
        Result::Err(ProtoError::PeerUnreachable)
    }
}

/// Build the descriptors of the files to offer, one per resolved
/// `(path, base name, size)` entry. Unreadable paths are the caller's to
/// skip before this point; an id is derived from each base name.
pub fn get_file_meta(files: &Vec<(String, Vec<u8>, u64)>) -> (r: Vec<FileMeta>)
    requires
        forall|i: int| 0 <= i < files@.len() ==> (#[trigger] files@[i]).1@.len() <= 0xFFFF,
    ensures
        r@.len() == files@.len(),
        forall|i: int|
            0 <= i < files@.len() ==> {
                &&& (#[trigger] r@[i])@.name == files@[i].1@
                &&& r@[i]@.size == files@[i].2
                &&& r@[i]@.id == spec_file_id(files@[i].1@)
                &&& r@[i]@.path == Option::Some(files@[i].0@)
            },
{
    let mut r: Vec<FileMeta> = Vec::new();
    let mut i: usize = 0;
    while i < files.len()
        invariant
            i <= files@.len(),
            r@.len() == i,
            forall|j: int| 0 <= j < files@.len() ==> (#[trigger] files@[j]).1@.len() <= 0xFFFF,
            forall|j: int|
                0 <= j < i ==> {
                    &&& (#[trigger] r@[j])@.name == files@[j].1@
                    &&& r@[j]@.size == files@[j].2
                    &&& r@[j]@.id == spec_file_id(files@[j].1@)
                    &&& r@[j]@.path == Option::Some(files@[j].0@)
                },
        decreases files@.len() - i,
    {
        let entry = &files[i];
        let name = vstd::slice::slice_to_vec(entry.1.as_slice());
        let path = entry.0.clone();
        let m = FileMeta::new(name, entry.2, Option::Some(path));
        r.push(m);
        i = i + 1;
    }
    r
}

/// Sum of the sizes a file set declares.
pub open spec fn spec_total_size(ms: Seq<FileMetaV>) -> int
    decreases ms.len(),
{
    if ms.len() == 0 {
        0
    } else {
        spec_total_size(ms.drop_last()) + ms.last().size
    }
}

/// The total number of bytes an offer declares.
pub fn total_size(metas: &Vec<FileMeta>) -> (t: u128)
    ensures
        t == spec_total_size(Seq::new(metas@.len(), |i: int| metas@[i]@)),
{
    let ghost msv = Seq::new(metas@.len(), |i: int| metas@[i]@);
    let mut t: u128 = 0;
    let mut i: usize = 0;
    proof {
        assert(msv.take(0) =~= Seq::<FileMetaV>::empty());
    }
    while i < metas.len()
        invariant
            i <= metas@.len(),
            msv == Seq::new(metas@.len(), |j: int| metas@[j]@),
            t == spec_total_size(msv.take(i as int)),
            t <= i * 0xFFFF_FFFF_FFFF_FFFF,
        decreases metas@.len() - i,
    {
        proof {
            assert(msv.take(i + 1).drop_last() =~= msv.take(i as int));
            assert(msv.take(i + 1).last() == msv[i as int]);
        }
        t = t + metas[i].size as u128;
        i = i + 1;
    }
    proof {
        assert(msv.take(msv.len() as int) =~= msv);
    }
    t
}

/// The policy gate before an offer goes out: interactive confirmation is
/// needed exactly when the set is larger than 1,000,000 bytes in total or
/// holds more than 5 files.
pub fn needs_confirmation(metas: &Vec<FileMeta>) -> (r: bool)
    ensures
        r == (spec_total_size(Seq::new(metas@.len(), |i: int| metas@[i]@)) > 1_000_000
            || metas@.len() > 5),
{
    total_size(metas) > 1_000_000 || metas.len() > 5
}

/// The negotiation request for a resolved file set: `AckReq` bearing every
/// descriptor, or `NoFilesFound` when the resolution came up empty — an
/// empty offer is never put on the wire.
pub fn offer_request(metas: &Vec<FileMeta>) -> (r: Result<Parsed, ProtoError>)
    ensures
        metas@.len() == 0 ==> r == Result::<Parsed, ProtoError>::Err(ProtoError::NoFilesFound),
        metas@.len() > 0 ==> r is Ok && r->Ok_0@ == ParsedV::AckReq(
            Seq::new(metas@.len(), |i: int| metas@[i]@),
        ),
{
    if metas.len() == 0 {
        return Result::Err(ProtoError::NoFilesFound);
    }
    let mut copy: Vec<FileMeta> = Vec::new();
    let mut i: usize = 0;
    while i < metas.len()
        invariant
            i <= metas@.len(),
            copy@.len() == i,
            forall|j: int| 0 <= j < i ==> (#[trigger] copy@[j])@ == metas@[j]@,
        decreases metas@.len() - i,
    {
        copy.push(metas[i].clone());
        i = i + 1;
    }
    let p = Parsed::AckReq(copy);
    proof {
        assert(Seq::new(copy@.len(), |i: int| copy@[i]@) =~= Seq::new(
            metas@.len(),
            |i: int| metas@[i]@,
        ));
    }
    Result::Ok(p)
}

/// The sender's reading of the one packet it awaits after an offer:
/// `AckRes(true)` lets streaming begin at once; `AckRes(false)` ends the
/// attempt as `RequestDeclined`; any other packet is a protocol violation.
pub fn handle_ack_reply(p: &Parsed) -> (r: Result<(), ProtoError>)
    ensures
        p@ == ParsedV::AckRes(true) ==> r is Ok,
        p@ == ParsedV::AckRes(false) ==> r == Result::<(), ProtoError>::Err(
            ProtoError::RequestDeclined,
        ),
        !(p@ is AckRes) ==> r == Result::<(), ProtoError>::Err(ProtoError::UnexpectedPacket),
{
    match p {
        Parsed::AckRes(true) => Result::Ok(()),
        Parsed::AckRes(false) => Result::Err(ProtoError::RequestDeclined),
        _ => Result::Err(ProtoError::UnexpectedPacket),
    }
}

/// The streaming of one file, block by block.
///
/// The caller reads [`FileSender::next_block_size`] bytes, hands them to
/// [`FileSender::next_block`], and sends the packet; when a block shorter
/// than the limit has gone out (possibly empty — a zero-length file yields
/// exactly one empty block), the file is done and [`FileSender::finish`]
/// yields the `FileEnd` packet bearing the checksum of everything streamed.
pub struct FileSender {
    pub id: u32,
    pub size: u64,
    pub sent: u64,
    pub checksum: u64,
    pub done: bool,
    pub history: Ghost<Seq<u8>>,
}

impl FileSender {
    /// The state is sound: the checksum is the checksum of exactly the
    /// bytes streamed so far, and a finished file has been sent in full.
    pub open spec fn wf(self) -> bool {
        &&& self.sent == self.history@.len()
        &&& self.sent <= self.size
        &&& self.checksum == checksum_of(self.history@)
        &&& self.checksum < CHECKSUM_MOD
        &&& self.done ==> self.sent == self.size
    }

    /// Begin streaming a file of `size` bytes under the given id.
    pub fn begin(id: u32, size: u64) -> (s: Self)
        ensures
            s.wf(),
            s.id == id,
            s.size == size,
            s.sent == 0,
            s.history@ == Seq::<u8>::empty(),
            !s.done,
    {
        proof {
            vstd::arithmetic::div_mod::lemma_small_mod(0, CHECKSUM_MOD as nat);
        }
        FileSender { id, size, sent: 0, checksum: 0, done: false, history: Ghost(Seq::empty()) }
    }

    /// How many bytes the next block must carry: what remains of the file,
    /// capped at the block limit.
    pub open spec fn spec_next_block_size(self) -> u16 {
        if self.size - self.sent >= 1300 {
            1300u16
        } else {
            (self.size - self.sent) as u16
        }
    }

    /// See [`FileSender::spec_next_block_size`].
    pub fn next_block_size(&self) -> (n: u16)
        requires
            self.wf(),
        ensures
            n == self.spec_next_block_size(),
    {
        if self.size - self.sent >= 1300 {
            1300
        } else {
            (self.size - self.sent) as u16
        }
    }

    /// Fold the next chunk into the running checksum and wrap it as the
    /// `FileBlock` to put on the wire. A chunk shorter than the limit is the
    /// file's last.
    pub fn next_block(&mut self, data: Vec<u8>) -> (p: Parsed)
        requires
            old(self).wf(),
            !old(self).done,
            data@.len() == old(self).spec_next_block_size(),
        ensures
            final(self).wf(),
            final(self).id == old(self).id,
            final(self).size == old(self).size,
            final(self).history@ == old(self).history@ + data@,
            final(self).sent == old(self).sent + data@.len(),
            final(self).checksum == checksum_add(old(self).checksum, data@),
            final(self).done == (data@.len() < 1300),
            p@ == (ParsedV::FileBlock { id: old(self).id, data: data@ }),
            packet_len_wf(p@),
    {
        let c2 = checksum_extend(self.checksum, data.as_slice());
        proof {
            crate::checksum::lemma_checksum_chunks(0, self.history@, data@);
        }
        self.checksum = c2;
        self.sent = self.sent + data.len() as u64;
        self.history = Ghost(self.history@ + data@);
        self.done = data.len() < 1300;
        let id = self.id;
        Parsed::FileBlock { id, data }
    }

    /// The end-of-file packet: `FileEnd` bearing the checksum of everything
    /// streamed — the checksum of the file's bytes, however they were
    /// chunked.
    pub fn finish(&self) -> (p: Parsed)
        requires
            self.wf(),
            self.done,
        ensures
            p@ == ParsedV::FileEnd(checksum_of(self.history@)),
            self.sent == self.size,
    {
        Parsed::FileEnd(self.checksum)
    }
}

/// The upper end of block `i` of a file of `len` bytes.
pub open spec fn spec_block_end(len: int, i: int) -> int {
    if 1300 * (i + 1) <= len {
        1300 * (i + 1)
    } else {
        len
    }
}

/// The full packet sequence that streams one file: blocks of 1300 bytes in
/// file order, a final block shorter than 1300 (empty exactly when the size
/// is a multiple of 1300, so a zero-length file yields one empty block),
/// then `FileEnd` with the checksum of the whole contents.
pub fn file_packets(id: u32, contents: &[u8]) -> (ps: Vec<Parsed>)
    ensures
        ps@.len() == contents@.len() / 1300 + 2,
        forall|i: int|
            0 <= i < ps@.len() - 1 ==> (#[trigger] ps@[i])@ == (ParsedV::FileBlock {
                id,
                data: contents@.subrange(1300 * i, spec_block_end(contents@.len() as int, i)),
            }),
        ps@[ps@.len() - 1]@ == ParsedV::FileEnd(checksum_of(contents@)),
{
    let mut ps: Vec<Parsed> = Vec::new();
    let clen = contents.len();
    let mut sender = FileSender::begin(id, clen as u64);
    let mut off: usize = 0;
    proof {
        assert(contents@.subrange(0, 0) =~= Seq::<u8>::empty());
    }
    while !sender.done
        invariant
            sender.wf(),
            sender.id == id,
            clen == contents@.len(),
            sender.size == contents@.len(),
            off == sender.sent,
            sender.history@ == contents@.subrange(0, off as int),
            !sender.done ==> off == 1300 * ps@.len(),
            sender.done ==> {
                &&& ps@.len() >= 1
                &&& 1300 * (ps@.len() - 1) <= off
                &&& off < 1300 * (ps@.len() - 1) + 1300
            },
            forall|i: int|
                0 <= i < ps@.len() ==> (#[trigger] ps@[i])@ == (ParsedV::FileBlock {
                    id,
                    data: contents@.subrange(1300 * i, spec_block_end(contents@.len() as int, i)),
                }),
        decreases sender.size - sender.sent + (if sender.done { 0int } else { 1 }),
    {
        let n = sender.next_block_size() as usize;
        proof {
            assert(off + n <= clen);
        }
        let chunk = vstd::slice::slice_to_vec(vstd::slice::slice_subrange(contents, off, off + n));
        let p = sender.next_block(chunk);
        proof {
            let len = contents@.len() as int;
            let i = ps@.len() as int;
            assert(contents@.subrange(off as int, off + n) =~= contents@.subrange(
                1300 * i,
                spec_block_end(len, i),
            ));
            assert(contents@.subrange(0, off as int) + contents@.subrange(off as int, off + n)
                =~= contents@.subrange(0, off + n));
        }
        ps.push(p);
        off = off + n;
    }
    proof {
        assert(contents@.subrange(0, contents@.len() as int) =~= contents@);
        let len = contents@.len() as int;
        let k = ps@.len() - 1;
        vstd::arithmetic::div_mod::lemma_fundamental_div_mod_converse(
            len,
            1300,
            k,
            len - 1300 * k,
        );
        assert(len / 1300 == k);
    }
    let fin = sender.finish();
    ps.push(fin);
    ps
}

} // verus!
