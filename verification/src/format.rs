use vstd::prelude::*;
use crate::bytes::{le16, le32};
use crate::digest::crc32_of;

verus! {

/// One record of an archive: a directory, or a file with its payload.
#[derive(Debug, Clone, PartialEq, Eq)]
pub enum Entry {
    Dir { name: Vec<u8> },
    File { name: Vec<u8>, data: Vec<u8> },
}

/// The mathematical image of an `Entry`.
pub enum EntryModel {
    Dir { name: Seq<u8> },
    File { name: Seq<u8>, data: Seq<u8> },
}

impl View for Entry {
    type V = EntryModel;

    open spec fn view(&self) -> EntryModel {
        match self {
            Entry::Dir { name } => EntryModel::Dir { name: name@ },
            Entry::File { name, data } => EntryModel::File { name: name@, data: data@ },
        }
    }
}

/// The models of a sequence of entries.
pub open spec fn models_of(es: Seq<Entry>) -> Seq<EntryModel> {
    es.map_values(|e: Entry| e@)
}

/// The name an entry carries inside the container: directory names gain a
/// trailing slash, file names are stored as given.
pub open spec fn stored_name(m: EntryModel) -> Seq<u8> {
    match m {
        EntryModel::Dir { name } => name + seq![47u8],
        EntryModel::File { name, .. } => name,
    }
}

/// The payload bytes an entry carries: empty for a directory.
pub open spec fn payload(m: EntryModel) -> Seq<u8> {
    match m {
        EntryModel::Dir { .. } => Seq::empty(),
        EntryModel::File { data, .. } => data,
    }
}

/// The checksum field of an entry's headers: zero for a directory.
pub open spec fn crc_val(m: EntryModel) -> u32 {
    match m {
        EntryModel::Dir { .. } => 0u32,
        EntryModel::File { data, .. } => crc32_of(data),
    }
}

/// An entry whose name and payload fit the container's 16- and 32-bit fields.
pub open spec fn entry_fits(m: EntryModel) -> bool {
    &&& stored_name(m).len() <= 0xFFFF
    &&& payload(m).len() <= 0xFFFF_FFFF
}

/// Signature of a local file header.
pub open spec fn lsig() -> Seq<u8> {
    seq![0x50u8, 0x4Bu8, 0x03u8, 0x04u8]
}

/// Signature of a central directory header.
pub open spec fn csig() -> Seq<u8> {
    seq![0x50u8, 0x4Bu8, 0x01u8, 0x02u8]
}

/// Signature of the end-of-central-directory record.
pub open spec fn esig() -> Seq<u8> {
    seq![0x50u8, 0x4Bu8, 0x05u8, 0x06u8]
}

/// The fixed 30-byte header of a local record: an entry stored without
/// compression, no flags, a fixed timestamp, no extra field.
pub open spec fn local_header(crc: u32, size: u32, nlen: u16) -> Seq<u8> {
    lsig() + le16(20u16)  // version needed
     + le16(0u16)  // general-purpose flags
     + le16(0u16)  // method: stored
     + le16(0u16)  // modification time
     + le16(33u16)  // modification date
     + le32(crc) + le32(size)  // compressed size
     + le32(size)  // uncompressed size
     + le16(nlen) + le16(0u16)  // extra-field length
}

/// The local record of one entry: a 30-byte header, the stored name, and the
/// payload, stored without compression.
pub open spec fn local_chunk(m: EntryModel) -> Seq<u8> {
    local_header(crc_val(m), payload(m).len() as u32, stored_name(m).len() as u16)
        + stored_name(m) + payload(m)
}

/// The fixed 46-byte header of a central directory record whose local record
/// starts at offset `off`.
pub open spec fn central_header(crc: u32, size: u32, nlen: u16, off: u32) -> Seq<u8> {
    csig() + le16(20u16)  // version made by
     + le16(20u16)  // version needed
     + le16(0u16)  // general-purpose flags
     + le16(0u16)  // method: stored
     + le16(0u16)  // modification time
     + le16(33u16)  // modification date
     + le32(crc) + le32(size)  // compressed size
     + le32(size)  // uncompressed size
     + le16(nlen) + le16(0u16)  // extra-field length
     + le16(0u16)  // comment length
     + le16(0u16)  // starting disk
     + le16(0u16)  // internal attributes
     + le32(0u32)  // external attributes
     + le32(off)
}

/// The central directory record of one entry whose local record starts at
/// offset `off`.
pub open spec fn central_chunk(m: EntryModel, off: int) -> Seq<u8> {
    central_header(
        crc_val(m),
        payload(m).len() as u32,
        stored_name(m).len() as u16,
        off as u32,
    ) + stored_name(m)
}

/// The end-of-central-directory record for `n` entries whose central
/// directory has size `cd_size` and starts at offset `cd_off`.
pub open spec fn eocd_chunk(n: int, cd_off: int, cd_size: int) -> Seq<u8> {
    esig() + le16(0u16)  // this disk
     + le16(0u16)  // central directory's starting disk
     + le16(n as u16)  // entries on this disk
     + le16(n as u16)  // entries in all
     + le32(cd_size as u32) + le32(cd_off as u32) + le16(0u16)  // comment length
}

/// All local records, in entry order.
pub open spec fn locals(es: Seq<EntryModel>) -> Seq<u8>
    decreases es.len(),
{
    if es.len() == 0 {
        Seq::empty()
    } else {
        locals(es.drop_last()) + local_chunk(es.last())
    }
}

/// All central directory records, in entry order; each one's offset field is
/// where that entry's local record starts.
pub open spec fn centrals(es: Seq<EntryModel>) -> Seq<u8>
    decreases es.len(),
{
    if es.len() == 0 {
        Seq::empty()
    } else {
        centrals(es.drop_last()) + central_chunk(es.last(), locals(es.drop_last()).len() as int)
    }
}

/// The whole container: local records, then the central directory, then the
/// end record.
pub open spec fn serialize(es: Seq<EntryModel>) -> Seq<u8> {
    locals(es) + centrals(es) + eocd_chunk(
        es.len() as int,
        locals(es).len() as int,
        centrals(es).len() as int,
    )
}

/// A whole entry sequence that fits the container's fields.
pub open spec fn seq_fits(es: Seq<EntryModel>) -> bool {
    &&& forall|i: int| 0 <= i < es.len() ==> entry_fits(#[trigger] es[i])
    &&& es.len() <= 0xFFFF
    &&& locals(es).len() <= 0xFFFF_FFFF
    &&& centrals(es).len() <= 0xFFFF_FFFF
}

/// Appending an entry appends its local record.
pub proof fn lemma_locals_push(es: Seq<EntryModel>, m: EntryModel)
    ensures
        locals(es.push(m)) == locals(es) + local_chunk(m),
{
    assert(es.push(m).drop_last() =~= es);
    assert(es.push(m).last() == m);
}

/// Appending an entry appends its central record, at the right offset.
pub proof fn lemma_centrals_push(es: Seq<EntryModel>, m: EntryModel)
    ensures
        centrals(es.push(m)) == centrals(es) + central_chunk(m, locals(es).len() as int),
{
    assert(es.push(m).drop_last() =~= es);
    assert(es.push(m).last() == m);
}

} // verus!
