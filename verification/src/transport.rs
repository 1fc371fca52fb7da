//! The wire protocol: packet layouts, encoding and parsing.
//!
//! Every message starts with one flag byte naming the packet type; all
//! multi-byte integers are big-endian. The layouts are fixed:
//!
//! - `Ping`:      `[0x01]`
//! - `Pong`:      `[0x02]`
//! - `AckReq`:    `[0x11][u32 count][count file records]`, where a file
//!   record is `[u32 id][u64 size][u16 name_len][name_len bytes of name]`
//! - `AckRes`:    `[0x12][u8 accepted]`
//! - `FileBlock`: `[0x21][u32 id][u16 data_len][data_len bytes]`
//! - `FileEnd`:   `[0x22][u64 checksum]`

use vstd::prelude::*;
use vstd::slice::{slice_subrange, slice_to_vec};
use vstd::utf8::valid_utf8;

use std::collections::hash_map::DefaultHasher;
use std::hash::Hasher;
use vstd::std_specs::hash::DefaultHasherAdditionalSpecFns;

verus! {

/// Flag byte that opens a `Ping` packet.
pub const PING: u8 = 0x01;

/// Flag byte that opens a `Pong` packet.
pub const PONG: u8 = 0x02;

/// Flag byte that opens an `AckReq` packet.
pub const ACK_REQ: u8 = 0x11;

/// Flag byte that opens an `AckRes` packet.
pub const ACK_RES: u8 = 0x12;

/// Flag byte that opens a `FileBlock` packet.
pub const FILE_BLOCK: u8 = 0x21;

/// Flag byte that opens a `FileEnd` packet.
pub const FILE_END: u8 = 0x22;

/// `256^n`: the number of values a big-endian field of `n` bytes can hold.
pub open spec fn pow256(n: nat) -> int
    decreases n,
{
    if n == 0 {
        1
    } else {
        256 * pow256((n - 1) as nat)
    }
}

/// The big-endian byte representation of `x` in a field of `n` bytes
/// (high bits beyond the field are discarded, as a narrowing cast would).
pub open spec fn be_bytes(x: int, n: nat) -> Seq<u8>
    decreases n,
{
    if n == 0 {
        Seq::empty()
    } else {
        be_bytes(x / 256, (n - 1) as nat).push((x % 256) as u8)
    }
}

/// The integer a big-endian byte sequence denotes.
pub open spec fn from_be(s: Seq<u8>) -> int
    decreases s.len(),
{
    if s.len() == 0 {
        0
    } else {
        from_be(s.drop_last()) * 256 + s.last()
    }
}

pub proof fn lemma_be_bytes_len(x: int, n: nat)
    ensures
        be_bytes(x, n).len() == n,
    decreases n,
{
    if n > 0 {
        lemma_be_bytes_len(x / 256, (n - 1) as nat);
    }
}

pub proof fn lemma_from_be_bounds(s: Seq<u8>)
    ensures
        0 <= from_be(s) < pow256(s.len()),
    decreases s.len(),
{
    if s.len() > 0 {
        lemma_from_be_bounds(s.drop_last());
    }
}

/// A value that fits its field survives the round trip through big-endian bytes.
pub proof fn lemma_from_be_bytes(x: int, n: nat)
    requires
        0 <= x < pow256(n),
    ensures
        from_be(be_bytes(x, n)) == x,
    decreases n,
{
    if n > 0 {
        lemma_be_bytes_len(x / 256, (n - 1) as nat);
        assert(x / 256 < pow256((n - 1) as nat)) by {
            vstd::arithmetic::div_mod::lemma_fundamental_div_mod(x, 256);
            vstd::arithmetic::div_mod::lemma_mod_bound(x, 256);
        }
        assert(x / 256 >= 0) by {
            vstd::arithmetic::div_mod::lemma_div_pos_is_pos(x, 256);
        }
        lemma_from_be_bytes(x / 256, (n - 1) as nat);
        assert(be_bytes(x, n).drop_last() =~= be_bytes(x / 256, (n - 1) as nat));
        vstd::arithmetic::div_mod::lemma_fundamental_div_mod(x, 256);
        vstd::arithmetic::div_mod::lemma_mod_bound(x, 256);
    }
}

/// Append the `n`-byte big-endian representation of `x` to `out`.
pub fn push_be_bytes(out: &mut Vec<u8>, x: u64, n: usize)
    ensures
        final(out)@ == old(out)@ + be_bytes(x as int, n as nat),
    decreases n,
{
    if n == 0 {
        proof {
            assert(out@ =~= out@ + be_bytes(x as int, 0));
        }
    } else {
        push_be_bytes(out, x / 256, n - 1);
        out.push((x % 256) as u8);
        proof {
            assert(out@ =~= old(out)@ + be_bytes(x as int, n as nat));
        }
    }
}

/// Read the `n`-byte big-endian integer stored at `buf[pos..pos + n]`.
pub fn read_be(buf: &[u8], pos: usize, n: usize) -> (r: u64)
    requires
        pos + n <= buf@.len(),
        n <= 8,
    ensures
        r == from_be(buf@.subrange(pos as int, pos + n)),
        r < pow256(n as nat),
{
    proof {
        assert(buf@.subrange(pos as int, pos as int) =~= Seq::<u8>::empty());
    }
    let blen = buf.len();
    let mut acc: u64 = 0;
    let mut i: usize = 0;
    while i < n
        invariant
            i <= n,
            n <= 8,
            pos + n <= blen,
            blen == buf@.len(),
            acc == from_be(buf@.subrange(pos as int, pos + i)),
            acc < pow256(i as nat),
        decreases n - i,
    {
        proof {
            let pre = buf@.subrange(pos as int, pos + i);
            let post = buf@.subrange(pos as int, pos + i + 1);
            assert(post.drop_last() =~= pre);
            assert(post.last() == buf@[pos + i]);
            lemma_pow256_value();
            lemma_pow256_increases(i as nat + 1, 8);
            assert(pow256(i as nat + 1) == 256 * pow256(i as nat));
        }
        acc = acc * 256 + buf[pos + i] as u64;
        i = i + 1;
    }
    proof {
        lemma_pow256_value();
        lemma_pow256_increases(n as nat, 8);
    }
    acc
}

pub proof fn lemma_pow256_value()
    ensures
        pow256(2) == 0x1_0000,
        pow256(4) == 0x1_0000_0000,
        pow256(8) == 0x1_0000_0000_0000_0000,
{
    reveal_with_fuel(pow256, 9);
}

/// Descriptor of one file being offered or received.
///
/// `id` is derived from the base name by a non-cryptographic hash and is not
/// guaranteed unique across a file set: two files with the same base name
/// collide, an accepted limitation of the design. `name` holds the UTF-8
/// bytes of the base file name (no directory component). `path` is the local
/// location of the file's contents, known only on the side that has the file
/// on disk; it never travels over the wire.
#[derive(Debug, PartialEq, Eq)]
pub struct FileMeta {
    pub size: u64,
    pub id: u32,
    pub name: Vec<u8>,
    pub path: Option<String>,
}

/// Mathematical image of a [`FileMeta`].
pub struct FileMetaV {
    pub size: u64,
    pub id: u32,
    pub name: Seq<u8>,
    pub path: Option<Seq<char>>,
}

impl View for FileMeta {
    type V = FileMetaV;

    open spec fn view(&self) -> FileMetaV {
        FileMetaV {
            size: self.size,
            id: self.id,
            name: self.name@,
            path: match self.path {
                Option::Some(p) => Option::Some(p@),
                Option::None => Option::None,
            },
        }
    }
}

/// A file record can be serialized only if its name fits the 16-bit length
/// field; a record fresh off the wire additionally carries well-formed UTF-8
/// and no local path.
pub open spec fn meta_wf(m: FileMetaV) -> bool {
    &&& m.name.len() <= 0xFFFF
    &&& valid_utf8(m.name)
}

/// The wire does not carry the local path, so a record loses it in transit.
pub open spec fn strip_path(m: FileMetaV) -> FileMetaV {
    FileMetaV { path: Option::None, ..m }
}

/// A protocol message, one variant per packet type.
#[derive(Debug, PartialEq, Eq)]
pub enum Parsed {
    Ping,
    Pong,
    AckReq(Vec<FileMeta>),
    AckRes(bool),
    FileBlock { id: u32, data: Vec<u8> },
    FileEnd(u64),
}

/// Mathematical image of a [`Parsed`] packet.
pub enum ParsedV {
    Ping,
    Pong,
    AckReq(Seq<FileMetaV>),
    AckRes(bool),
    FileBlock { id: u32, data: Seq<u8> },
    FileEnd(u64),
}

impl View for Parsed {
    type V = ParsedV;

    open spec fn view(&self) -> ParsedV {
        match self {
            Parsed::Ping => ParsedV::Ping,
            Parsed::Pong => ParsedV::Pong,
            Parsed::AckReq(ms) => ParsedV::AckReq(Seq::new(ms@.len(), |i: int| ms@[i]@)),
            Parsed::AckRes(b) => ParsedV::AckRes(*b),
            Parsed::FileBlock { id, data } => ParsedV::FileBlock { id: *id, data: data@ },
            Parsed::FileEnd(cs) => ParsedV::FileEnd(*cs),
        }
    }
}

/// Why a byte sequence failed to decode.
///
/// `Truncated` means the input ended in the middle of a field — for a
/// streaming caller, either "read more bytes" or, at a clean packet
/// boundary with nothing buffered, "peer closed the connection".
/// `UnknownPacketType` means the flag byte is not in the known set, and
/// `InvalidName` that a file record's name bytes are not well-formed UTF-8;
/// both mean garbage data, from which no resynchronization is possible.
#[derive(Debug, Clone, Copy, PartialEq, Eq, Structural)]
pub enum DecodeError {
    Truncated,
    UnknownPacketType,
    InvalidName,
}

/// What a well-behaved peer never provokes: the protocol-level failures.
#[derive(Debug, Clone, Copy, PartialEq, Eq, Structural)]
pub enum ProtoError {
    /// The handshake reply was not a `Pong` (or never came).
    PeerUnreachable,
    /// The sender resolved an empty file list; there is nothing to offer.
    NoFilesFound,
    /// The receiver answered the offer with `AckRes(false)`.
    RequestDeclined,
    /// A packet arrived that the protocol does not allow in this state.
    UnexpectedPacket,
    /// A `FileBlock` carried an id other than the file currently open.
    WrongFileId,
}

/// The bytes of one file record:
/// `[u32 id][u64 size][u16 name_len][name_len name bytes]`.
pub open spec fn spec_meta_bytes(m: FileMetaV) -> Seq<u8> {
    be_bytes(m.id as int, 4) + be_bytes(m.size as int, 8) + be_bytes(m.name.len() as int, 2)
        + m.name
}

/// The bytes of a list of file records, in order.
pub open spec fn spec_metas_bytes(ms: Seq<FileMetaV>) -> Seq<u8>
    decreases ms.len(),
{
    if ms.len() == 0 {
        Seq::empty()
    } else {
        spec_metas_bytes(ms.drop_last()) + spec_meta_bytes(ms.last())
    }
}

/// The encoding of a whole packet: flag byte, then the variant's payload.
pub open spec fn spec_packet_bytes(p: ParsedV) -> Seq<u8> {
    match p {
        ParsedV::Ping => seq![PING],
        ParsedV::Pong => seq![PONG],
        ParsedV::AckReq(ms) => seq![ACK_REQ] + be_bytes(ms.len() as int, 4) + spec_metas_bytes(ms),
        ParsedV::AckRes(b) => seq![ACK_RES, if b { 1u8 } else { 0u8 }],
        ParsedV::FileBlock { id, data } => seq![FILE_BLOCK] + be_bytes(id as int, 4) + be_bytes(
            data.len() as int,
            2,
        ) + data,
        ParsedV::FileEnd(cs) => seq![FILE_END] + be_bytes(cs as int, 8),
    }
}

/// The length limits a packet must meet to be representable on the wire:
/// list count in 32 bits, block length and name length in 16 bits.
pub open spec fn packet_len_wf(p: ParsedV) -> bool {
    match p {
        ParsedV::AckReq(ms) => ms.len() <= 0xFFFF_FFFF && (forall|i: int|
            0 <= i < ms.len() ==> #[trigger] ms[i].name.len() <= 0xFFFF),
        ParsedV::FileBlock { id, data } => data.len() <= 0xFFFF,
        _ => true,
    }
}

/// Everything [`packet_len_wf`] asks, and well-formed UTF-8 in every name:
/// what holds of any packet built from real strings, and what decoding
/// demands of names arriving off the wire.
pub open spec fn packet_wf(p: ParsedV) -> bool {
    &&& packet_len_wf(p)
    &&& match p {
        ParsedV::AckReq(ms) => forall|i: int| 0 <= i < ms.len() ==> #[trigger] meta_wf(ms[i]),
        _ => true,
    }
}

/// Parse one file record from the front of `s`: the record and the number of
/// bytes it occupied, or the reason it does not parse.
pub open spec fn spec_parse_meta(s: Seq<u8>) -> Result<(FileMetaV, int), DecodeError> {
    if s.len() < 14 {
        Result::Err(DecodeError::Truncated)
    } else {
        let name_len = from_be(s.subrange(12, 14));
        if s.len() < 14 + name_len {
            Result::Err(DecodeError::Truncated)
        } else {
            let name = s.subrange(14, 14 + name_len);
            if !valid_utf8(name) {
                Result::Err(DecodeError::InvalidName)
            } else {
                Result::Ok(
                    (
                        FileMetaV {
                            id: from_be(s.subrange(0, 4)) as u32,
                            size: from_be(s.subrange(4, 12)) as u64,
                            name: name,
                            path: Option::None,
                        },
                        14 + name_len,
                    ),
                )
            }
        }
    }
}

/// Parse `count` file records from the front of `s`.
pub open spec fn spec_parse_metas(s: Seq<u8>, count: int) -> Result<
    (Seq<FileMetaV>, int),
    DecodeError,
>
    decreases count,
{
    if count <= 0 {
        Result::Ok((Seq::empty(), 0))
    } else {
        match spec_parse_meta(s) {
            Result::Err(e) => Result::Err(e),
            Result::Ok((m, used)) => match spec_parse_metas(s.skip(used), count - 1) {
                Result::Err(e) => Result::Err(e),
                Result::Ok((ms, used2)) => Result::Ok((seq![m] + ms, used + used2)),
            },
        }
    }
}

/// Parse one packet from the front of `s`: the packet and the number of bytes
/// it occupied, or the reason it does not parse. Input beyond the packet is
/// left untouched; `Truncated` reports input that ends mid-field.
pub open spec fn spec_parse_packet(s: Seq<u8>) -> Result<(ParsedV, int), DecodeError> {
    if s.len() < 1 {
        Result::Err(DecodeError::Truncated)
    } else if s[0] == PING {
        Result::Ok((ParsedV::Ping, 1))
    } else if s[0] == PONG {
        Result::Ok((ParsedV::Pong, 1))
    } else if s[0] == ACK_REQ {
        if s.len() < 5 {
            Result::Err(DecodeError::Truncated)
        } else {
            match spec_parse_metas(s.skip(5), from_be(s.subrange(1, 5))) {
                Result::Err(e) => Result::Err(e),
                Result::Ok((ms, used)) => Result::Ok((ParsedV::AckReq(ms), 5 + used)),
            }
        }
    } else if s[0] == ACK_RES {
        if s.len() < 2 {
            Result::Err(DecodeError::Truncated)
        } else {
            Result::Ok((ParsedV::AckRes(s[1] != 0), 2))
        }
    } else if s[0] == FILE_BLOCK {
        if s.len() < 7 {
            Result::Err(DecodeError::Truncated)
        } else {
            let data_len = from_be(s.subrange(5, 7));
            if s.len() < 7 + data_len {
                Result::Err(DecodeError::Truncated)
            } else {
                Result::Ok(
                    (
                        ParsedV::FileBlock {
                            id: from_be(s.subrange(1, 5)) as u32,
                            data: s.subrange(7, 7 + data_len),
                        },
                        7 + data_len,
                    ),
                )
            }
        }
    } else if s[0] == FILE_END {
        if s.len() < 9 {
            Result::Err(DecodeError::Truncated)
        } else {
            Result::Ok((ParsedV::FileEnd(from_be(s.subrange(1, 9)) as u64), 9))
        }
    } else {
        Result::Err(DecodeError::UnknownPacketType)
    }
}

/// The id a file gets from its base name: the standard library's default
/// hash of the name bytes, reduced modulo `2^32 - 1`. Deterministic within
/// one build of the standard library, and nothing more is promised.
pub open spec fn spec_file_id(name: Seq<u8>) -> u32 {
    (DefaultHasher::spec_finish(seq![name]) % 0xFFFF_FFFF) as u32
}

impl Clone for FileMeta {
    /// A clone carries the same descriptor.
    fn clone(&self) -> (res: Self)
        ensures
            res@ == self@,
    {
        let res = FileMeta {
            size: self.size,
            id: self.id,
            name: slice_to_vec(self.name.as_slice()),
            path: match &self.path {
                Option::Some(p) => Option::Some(p.clone()),
                Option::None => Option::None,
            },
        };
        res
    }
}

impl FileMeta {
    /// Build the descriptor of a local file from its base name (as UTF-8
    /// bytes), its size, and where its contents live.
    pub fn new(name: Vec<u8>, size: u64, path: Option<String>) -> (m: FileMeta)
        requires
            name@.len() <= 0xFFFF,
        ensures
            m@.name == name@,
            m@.size == size,
            m@.id == spec_file_id(name@),
            m@.path == (match path {
                Option::Some(p) => Option::Some(p@),
                Option::None => Option::<Seq<char>>::None,
            }),
    {
        let mut hasher = DefaultHasher::new();
        hasher.write(name.as_slice());
        let id = (hasher.finish() % 0xFFFF_FFFF) as u32;
        FileMeta { size, id, name, path }
    }

    /// Parse one file record from `buf[pos..]`, exactly as
    /// [`spec_parse_meta`] reads it: the record and the position just past
    /// it, or the reason the bytes do not parse.
    pub fn from_byte_stream(buf: &[u8], pos: usize) -> (r: Result<(FileMeta, usize), DecodeError>)
        requires
            pos <= buf@.len(),
        ensures
            ({
                let sp = spec_parse_meta(buf@.skip(pos as int));
                match r {
                    Result::Ok((m, end)) => {
                        &&& sp is Ok
                        &&& m@ == sp->Ok_0.0
                        &&& end == pos + sp->Ok_0.1
                        &&& end <= buf@.len()
                    },
                    Result::Err(e) => sp is Err && e == sp->Err_0,
                }
            }),
    {
        let ghost s = buf@.skip(pos as int);
        let blen = buf.len();
        if blen - pos < 14 {
            return Result::Err(DecodeError::Truncated);
        }
        let id64 = read_be(buf, pos, 4);
        let size = read_be(buf, pos + 4, 8);
        let nl64 = read_be(buf, pos + 12, 2);
        proof {
            assert(s.subrange(0, 4) =~= buf@.subrange(pos as int, pos + 4));
            assert(s.subrange(4, 12) =~= buf@.subrange(pos + 4, pos + 12));
            assert(s.subrange(12, 14) =~= buf@.subrange(pos + 12, pos + 14));
            lemma_pow256_value();
        }
        let id = id64 as u32;
        let name_len = nl64 as usize;
        if blen - pos - 14 < name_len {
            return Result::Err(DecodeError::Truncated);
        }
        let name_slice = slice_subrange(buf, pos + 14, pos + 14 + name_len);
        proof {
            assert(name_slice@ =~= s.subrange(14, 14 + name_len as int));
        }
        if !utf8_check(name_slice) {
            return Result::Err(DecodeError::InvalidName);
        }
        let name = slice_to_vec(name_slice);
        Result::Ok((FileMeta { size, id, name, path: Option::None }, pos + 14 + name_len))
    }

    /// Serialize this record in the wire layout
    /// `[u32 id][u64 size][u16 name_len][name bytes]`.
    pub fn to_byte_stream(&self) -> (r: Vec<u8>)
        requires
            self@.name.len() <= 0xFFFF,
        ensures
            r@ == spec_meta_bytes(self@),
    {
        let mut res: Vec<u8> = Vec::new();
        push_be_bytes(&mut res, self.id as u64, 4);
        push_be_bytes(&mut res, self.size, 8);
        push_be_bytes(&mut res, self.name.len() as u64, 2);
        append_bytes(&mut res, self.name.as_slice());
        proof {
            assert(res@ =~= spec_meta_bytes(self@));
        }
        res
    }
}

/// Relies on `std::str::from_utf8`: it accepts exactly the well-formed
/// UTF-8 byte sequences, which `vstd::utf8::valid_utf8` describes.
#[verifier::external_body]
fn utf8_check(v: &[u8]) -> (r: bool)
    ensures
        r == valid_utf8(v@),
{
    std::str::from_utf8(v).is_ok()
}

/// Append a slice of bytes to a buffer.
fn append_bytes(out: &mut Vec<u8>, data: &[u8])
    ensures
        final(out)@ == old(out)@ + data@,
{
    let ghost out0 = out@;
    let mut i: usize = 0;
    proof {
        assert(out@ =~= out0 + data@.subrange(0, 0));
    }
    while i < data.len()
        invariant
            i <= data@.len(),
            out@ == out0 + data@.subrange(0, i as int),
        decreases data@.len() - i,
    {
        out.push(data[i]);
        i = i + 1;
        proof {
            assert(out0 + data@.subrange(0, i as int) =~= (out0 + data@.subrange(
                0,
                i - 1,
            )).push(data@[i - 1]));
        }
    }
    proof {
        assert(out@ =~= out0 + data@);
    }
}

impl Parsed {
    /// Serialize this packet in the wire layout: the flag byte, then the
    /// variant's payload.
    pub fn to_buf(&self) -> (r: Vec<u8>)
        requires
            packet_len_wf(self@),
        ensures
            r@ == spec_packet_bytes(self@),
    {
        match self {
            Parsed::Ping => {
                let mut res: Vec<u8> = Vec::new();
                res.push(PING);
                proof {
                    assert(res@ =~= seq![PING]);
                }
                res
            },
            Parsed::Pong => {
                let mut res: Vec<u8> = Vec::new();
                res.push(PONG);
                proof {
                    assert(res@ =~= seq![PONG]);
                }
                res
            },
            Parsed::AckReq(ms) => {
                let ghost msv = Seq::new(ms@.len(), |i: int| ms@[i]@);
                let mut res: Vec<u8> = Vec::new();
                res.push(ACK_REQ);
                push_be_bytes(&mut res, ms.len() as u64, 4);
                proof {
                    assert(res@ =~= seq![ACK_REQ] + be_bytes(msv.len() as int, 4)
                        + spec_metas_bytes(msv.take(0)));
                }
                let mut i: usize = 0;
                while i < ms.len()
                    invariant
                        i <= ms@.len(),
                        msv == Seq::new(ms@.len(), |j: int| ms@[j]@),
                        packet_len_wf(ParsedV::AckReq(msv)),
                        res@ == seq![ACK_REQ] + be_bytes(msv.len() as int, 4)
                            + spec_metas_bytes(msv.take(i as int)),
                    decreases ms@.len() - i,
                {
                    proof {
                        assert(msv[i as int] == ms@[i as int]@);
                        assert(msv[i as int].name.len() <= 0xFFFF);
                    }
                    let mb = ms[i].to_byte_stream();
                    append_bytes(&mut res, mb.as_slice());
                    i = i + 1;
                    proof {
                        assert(msv.take(i as int).drop_last() =~= msv.take(i - 1));
                        assert(msv.take(i as int).last() == msv[i - 1]);
                    }
                }
                proof {
                    assert(msv.take(msv.len() as int) =~= msv);
                }
                res
            },
            Parsed::AckRes(ack) => {
                let mut res: Vec<u8> = Vec::new();
                res.push(ACK_RES);
                res.push(if *ack { 1 } else { 0 });
                proof {
                    assert(res@ =~= seq![ACK_RES, if *ack { 1u8 } else { 0u8 }]);
                }
                res
            },
            Parsed::FileBlock { id, data } => {
                let mut res: Vec<u8> = Vec::new();
                res.push(FILE_BLOCK);
                push_be_bytes(&mut res, *id as u64, 4);
                push_be_bytes(&mut res, data.len() as u64, 2);
                append_bytes(&mut res, data.as_slice());
                proof {
                    assert(res@ =~= spec_packet_bytes(self@));
                }
                res
            },
            Parsed::FileEnd(cs) => {
                let mut res: Vec<u8> = Vec::new();
                res.push(FILE_END);
                push_be_bytes(&mut res, *cs, 8);
                proof {
                    assert(res@ =~= spec_packet_bytes(self@));
                }
                res
            },
        }
    }
}

/// Splice the records parsed so far (and the bytes they used) onto the
/// outcome of parsing the records that remain.
spec fn spec_metas_join(
    acc: Seq<FileMetaV>,
    off: int,
    rest: Result<(Seq<FileMetaV>, int), DecodeError>,
) -> Result<(Seq<FileMetaV>, int), DecodeError> {
    match rest {
        Result::Ok((ms, used)) => Result::Ok((acc + ms, off + used)),
        Result::Err(e) => Result::Err(e),
    }
}

/// Parse one packet from the front of `buf`, exactly as
/// [`spec_parse_packet`] reads it: the packet and the number of bytes it
/// occupied, or the reason the bytes do not parse. `Err(Truncated)` asks a
/// streaming caller for more input; the other errors are garbage data.
pub fn parse(buf: &[u8]) -> (r: Result<(Parsed, usize), DecodeError>)
    ensures
        ({
            let sp = spec_parse_packet(buf@);
            match r {
                Result::Ok((p, used)) => {
                    &&& sp is Ok
                    &&& p@ == sp->Ok_0.0
                    &&& used == sp->Ok_0.1
                    &&& used <= buf@.len()
                },
                Result::Err(e) => sp is Err && e == sp->Err_0,
            }
        }),
{
    let blen = buf.len();
    if blen < 1 {
        return Result::Err(DecodeError::Truncated);
    }
    let flag = buf[0];
    if flag == PING {
        Result::Ok((Parsed::Ping, 1))
    } else if flag == PONG {
        Result::Ok((Parsed::Pong, 1))
    } else if flag == ACK_REQ {
        if blen < 5 {
            return Result::Err(DecodeError::Truncated);
        }
        let count = read_be(buf, 1, 4);
        let ghost c = from_be(buf@.subrange(1, 5));
        let ghost target = spec_parse_metas(buf@.skip(5), c);
        let mut metas: Vec<FileMeta> = Vec::new();
        let mut p: usize = 5;
        let mut k: u64 = 0;
        proof {
            assert(Seq::new(metas@.len(), |i: int| metas@[i]@) =~= Seq::<FileMetaV>::empty());
            assert(target == spec_metas_join(
                Seq::new(metas@.len(), |i: int| metas@[i]@),
                p - 5,
                spec_parse_metas(buf@.skip(p as int), c - k),
            ));
        }
        while k < count
            invariant
                5 <= p <= buf@.len(),
                k <= count,
                c == count,
                buf@[0] == ACK_REQ,
                c == from_be(buf@.subrange(1, 5)),
                target == spec_parse_metas(buf@.skip(5), c),
                target == spec_metas_join(
                    Seq::new(metas@.len(), |i: int| metas@[i]@),
                    p - 5,
                    spec_parse_metas(buf@.skip(p as int), c - k),
                ),
            decreases count - k,
        {
            let ghost mv = Seq::new(metas@.len(), |i: int| metas@[i]@);
            match FileMeta::from_byte_stream(buf, p) {
                Result::Ok((m, end)) => {
                    proof {
                        let sp = buf@.skip(p as int);
                        let used = spec_parse_meta(sp)->Ok_0.1;
                        assert(used == end - p);
                        lemma_from_be_bounds(sp.subrange(12, 14));
                        assert(14 <= used <= sp.len());
                        assert(sp.skip(used) =~= buf@.skip(end as int));
                        let rest = spec_parse_metas(buf@.skip(end as int), c - k - 1);
                        assert(spec_parse_metas(sp, c - k) == spec_metas_join(
                            seq![m@],
                            end - p,
                            rest,
                        ));
                        if rest is Ok {
                            assert(mv + (seq![m@] + rest->Ok_0.0) =~= (mv + seq![m@])
                                + rest->Ok_0.0);
                        }
                        assert(target == spec_metas_join(mv + seq![m@], end - 5, rest));
                    }
                    metas.push(m);
                    proof {
                        assert(Seq::new(metas@.len(), |i: int| metas@[i]@) =~= mv + seq![m@]);
                    }
                    p = end;
                },
                Result::Err(e) => {
                    proof {
                        assert(spec_parse_metas(buf@.skip(p as int), c - k) == Result::<
                            (Seq<FileMetaV>, int),
                            DecodeError,
                        >::Err(e));
                    }
                    return Result::Err(e);
                },
            }
            k = k + 1;
        }
        proof {
            assert(spec_parse_metas(buf@.skip(p as int), 0) == Result::<
                (Seq<FileMetaV>, int),
                DecodeError,
            >::Ok((Seq::<FileMetaV>::empty(), 0)));
            let mv = Seq::new(metas@.len(), |i: int| metas@[i]@);
            assert(mv + Seq::<FileMetaV>::empty() =~= mv);
            assert(target == Result::<(Seq<FileMetaV>, int), DecodeError>::Ok((mv, p - 5)));
        }
        Result::Ok((Parsed::AckReq(metas), p))
    } else if flag == ACK_RES {
        if blen < 2 {
            return Result::Err(DecodeError::Truncated);
        }
        Result::Ok((Parsed::AckRes(buf[1] != 0), 2))
    } else if flag == FILE_BLOCK {
        if blen < 7 {
            return Result::Err(DecodeError::Truncated);
        }
        let id64 = read_be(buf, 1, 4);
        let dl64 = read_be(buf, 5, 2);
        proof {
            lemma_pow256_value();
        }
        let id = id64 as u32;
        let data_len = dl64 as usize;
        if blen - 7 < data_len {
            return Result::Err(DecodeError::Truncated);
        }
        let data = slice_to_vec(slice_subrange(buf, 7, 7 + data_len));
        Result::Ok((Parsed::FileBlock { id, data }, 7 + data_len))
    } else if flag == FILE_END {
        if blen < 9 {
            return Result::Err(DecodeError::Truncated);
        }
        let cs = read_be(buf, 1, 8);
        proof {
            lemma_pow256_value();
        }
        Result::Ok((Parsed::FileEnd(cs), 9))
    } else {
        Result::Err(DecodeError::UnknownPacketType)
    }
}

/// What survives of a packet in transit: everything but the local paths of
/// the file records it carries.
pub open spec fn strip_paths(p: ParsedV) -> ParsedV {
    match p {
        ParsedV::AckReq(ms) => ParsedV::AckReq(ms.map_values(|m: FileMetaV| strip_path(m))),
        _ => p,
    }
}

/// A serialized file record parses back to the same record (with the local
/// path gone, which the wire does not carry), whatever bytes follow it.
pub proof fn lemma_meta_roundtrip_prefix(m: FileMetaV, rest: Seq<u8>)
    requires
        meta_wf(m),
    ensures
        spec_parse_meta(spec_meta_bytes(m) + rest) == Result::<(FileMetaV, int), DecodeError>::Ok(
            (strip_path(m), 14 + m.name.len() as int),
        ),
{
    let s = spec_meta_bytes(m) + rest;
    lemma_be_bytes_len(m.id as int, 4);
    lemma_be_bytes_len(m.size as int, 8);
    lemma_be_bytes_len(m.name.len() as int, 2);
    lemma_pow256_value();
    assert(s.subrange(0, 4) =~= be_bytes(m.id as int, 4));
    assert(s.subrange(4, 12) =~= be_bytes(m.size as int, 8));
    assert(s.subrange(12, 14) =~= be_bytes(m.name.len() as int, 2));
    lemma_from_be_bytes(m.id as int, 4);
    lemma_from_be_bytes(m.size as int, 8);
    lemma_from_be_bytes(m.name.len() as int, 2);
    assert(s.subrange(14, 14 + m.name.len() as int) =~= m.name);
}

/// The FileMeta round trip itself: `from_wire` of the record bytes of
/// `(id, size, name)` reproduces id, size and name, with no path.
pub proof fn lemma_meta_roundtrip(m: FileMetaV)
    requires
        meta_wf(m),
    ensures
        spec_parse_meta(spec_meta_bytes(m)) == Result::<(FileMetaV, int), DecodeError>::Ok(
            (strip_path(m), spec_meta_bytes(m).len() as int),
        ),
{
    lemma_meta_roundtrip_prefix(m, Seq::empty());
    assert(spec_meta_bytes(m) + Seq::<u8>::empty() =~= spec_meta_bytes(m));
    lemma_be_bytes_len(m.id as int, 4);
    lemma_be_bytes_len(m.size as int, 8);
    lemma_be_bytes_len(m.name.len() as int, 2);
}

/// A record list's bytes, read from the front.
proof fn lemma_metas_bytes_first(ms: Seq<FileMetaV>)
    requires
        ms.len() > 0,
    ensures
        spec_metas_bytes(ms) == spec_meta_bytes(ms.first()) + spec_metas_bytes(ms.drop_first()),
    decreases ms.len(),
{
    if ms.len() == 1 {
        assert(ms.drop_last() =~= Seq::<FileMetaV>::empty());
        assert(ms.drop_first() =~= Seq::<FileMetaV>::empty());
        assert(ms.last() == ms.first());
        assert(spec_metas_bytes(ms) =~= spec_meta_bytes(ms.first()) + spec_metas_bytes(
            ms.drop_first(),
        ));
    } else {
        lemma_metas_bytes_first(ms.drop_last());
        assert(ms.drop_last().first() == ms.first());
        assert(ms.drop_last().drop_first() =~= ms.drop_first().drop_last());
        assert(ms.drop_first().last() == ms.last());
        assert((spec_meta_bytes(ms.first()) + spec_metas_bytes(ms.drop_first().drop_last()))
            + spec_meta_bytes(ms.last()) =~= spec_meta_bytes(ms.first()) + (spec_metas_bytes(
            ms.drop_first().drop_last(),
        ) + spec_meta_bytes(ms.last())));
    }
}

/// A serialized record list parses back to the same records, in order,
/// whatever bytes follow it.
proof fn lemma_metas_roundtrip(ms: Seq<FileMetaV>, rest: Seq<u8>)
    requires
        forall|i: int| 0 <= i < ms.len() ==> #[trigger] meta_wf(ms[i]),
    ensures
        spec_parse_metas(spec_metas_bytes(ms) + rest, ms.len() as int) == Result::<
            (Seq<FileMetaV>, int),
            DecodeError,
        >::Ok(
            (ms.map_values(|m: FileMetaV| strip_path(m)), spec_metas_bytes(ms).len() as int),
        ),
    decreases ms.len(),
{
    if ms.len() == 0 {
        assert(ms.map_values(|m: FileMetaV| strip_path(m)) =~= Seq::<FileMetaV>::empty());
    } else {
        let first = ms.first();
        let tail = ms.drop_first();
        let s = spec_metas_bytes(ms) + rest;
        lemma_metas_bytes_first(ms);
        assert(s =~= spec_meta_bytes(first) + (spec_metas_bytes(tail) + rest));
        assert(meta_wf(first));
        lemma_meta_roundtrip_prefix(first, spec_metas_bytes(tail) + rest);
        let used = 14 + first.name.len() as int;
        assert(spec_meta_bytes(first).len() == used) by {
            lemma_be_bytes_len(first.id as int, 4);
            lemma_be_bytes_len(first.size as int, 8);
            lemma_be_bytes_len(first.name.len() as int, 2);
        }
        assert(s.skip(used) =~= spec_metas_bytes(tail) + rest);
        assert(forall|i: int| 0 <= i < tail.len() ==> #[trigger] meta_wf(tail[i]));
        lemma_metas_roundtrip(tail, rest);
        assert(seq![strip_path(first)] + tail.map_values(|m: FileMetaV| strip_path(m))
            =~= ms.map_values(|m: FileMetaV| strip_path(m)));
    }
}

/// Round trip of the packet codec, stated for a packet sitting at the front
/// of a longer stream: parsing the encoding of `p`, followed by any further
/// bytes, yields `p` back (save the local paths, which the wire does not
/// carry) and consumes exactly the encoding.
pub proof fn lemma_packet_roundtrip_prefix(p: ParsedV, rest: Seq<u8>)
    requires
        packet_wf(p),
    ensures
        spec_parse_packet(spec_packet_bytes(p) + rest) == Result::<
            (ParsedV, int),
            DecodeError,
        >::Ok((strip_paths(p), spec_packet_bytes(p).len() as int)),
{
    let s = spec_packet_bytes(p) + rest;
    lemma_pow256_value();
    match p {
        ParsedV::Ping => {},
        ParsedV::Pong => {},
        ParsedV::AckRes(b) => {},
        ParsedV::FileEnd(cs) => {
            lemma_be_bytes_len(cs as int, 8);
            assert(s.subrange(1, 9) =~= be_bytes(cs as int, 8));
            lemma_from_be_bytes(cs as int, 8);
        },
        ParsedV::FileBlock { id, data } => {
            lemma_be_bytes_len(id as int, 4);
            lemma_be_bytes_len(data.len() as int, 2);
            assert(s.subrange(1, 5) =~= be_bytes(id as int, 4));
            assert(s.subrange(5, 7) =~= be_bytes(data.len() as int, 2));
            lemma_from_be_bytes(id as int, 4);
            lemma_from_be_bytes(data.len() as int, 2);
            assert(s.subrange(7, 7 + data.len() as int) =~= data);
        },
        ParsedV::AckReq(ms) => {
            lemma_be_bytes_len(ms.len() as int, 4);
            assert(s.subrange(1, 5) =~= be_bytes(ms.len() as int, 4));
            lemma_from_be_bytes(ms.len() as int, 4);
            assert(s.skip(5) =~= spec_metas_bytes(ms) + rest);
            lemma_metas_roundtrip(ms, rest);
        },
    }
}

/// Round trip of the packet codec: for every packet that fits the wire
/// limits, decoding its encoding yields the packet back — same variant, same
/// ids, sizes, names, payload bytes, checksum value and flags — and consumes
/// the whole encoding. Local paths are the one field the wire does not
/// carry: a packet whose records hold none comes back identical.
pub proof fn lemma_packet_roundtrip(p: ParsedV)
    requires
        packet_wf(p),
    ensures
        spec_parse_packet(spec_packet_bytes(p)) == Result::<(ParsedV, int), DecodeError>::Ok(
            (strip_paths(p), spec_packet_bytes(p).len() as int),
        ),
{
    lemma_packet_roundtrip_prefix(p, Seq::empty());
    assert(spec_packet_bytes(p) + Seq::<u8>::empty() =~= spec_packet_bytes(p));
}

pub proof fn lemma_pow256_pos(n: nat)
    ensures
        pow256(n) >= 1,
    decreases n,
{
    if n > 0 {
        lemma_pow256_pos((n - 1) as nat);
    }
}

pub proof fn lemma_pow256_increases(a: nat, b: nat)
    requires
        a <= b,
    ensures
        pow256(a) <= pow256(b),
    decreases b,
{
    lemma_pow256_pos(a);
    if a < b {
        lemma_pow256_increases(a, (b - 1) as nat);
    }
}

} // verus!
