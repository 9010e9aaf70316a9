use vstd::prelude::*;
use crate::bytes::{push_u16, push_u32, push_bytes};
use crate::format::{
    EntryModel, entry_fits, seq_fits, stored_name, payload, crc_val, local_header,
    central_header, locals, centrals, serialize, lemma_locals_push, lemma_centrals_push,
};
use crate::digest::crc32;

verus! {

/// The operation would not fit the container's fields.
#[derive(Debug, Clone, PartialEq, Eq)]
pub enum BuildError {
    TooLarge,
}

/// Whether one more entry still fits the container's 16- and 32-bit fields
/// after the entries `es`.
pub open spec fn can_add(es: Seq<EntryModel>, m: EntryModel) -> bool {
    &&& entry_fits(m)
    &&& es.len() < 0xFFFF
    &&& locals(es).len() + 30 + stored_name(m).len() + payload(m).len() <= 0xFFFF_FFFF
    &&& centrals(es).len() + 46 + stored_name(m).len() <= 0xFFFF_FFFF
}

/// An archive under construction: local records and central directory
/// records accumulate as entries are added; `finish` closes the container.
pub struct Archiver {
    locals: Vec<u8>,
    centrals: Vec<u8>,
    count: usize,
    entries: Ghost<Seq<EntryModel>>,
}

impl View for Archiver {
    type V = Seq<EntryModel>;

    closed spec fn view(&self) -> Seq<EntryModel> {
        self.entries@
    }
}

impl Archiver {
    /// The builder's bytes are exactly the records of the entries added.
    pub closed spec fn wf(&self) -> bool {
        &&& self.locals@ == locals(self.entries@)
        &&& self.centrals@ == centrals(self.entries@)
        &&& self.count == self.entries@.len()
        &&& seq_fits(self.entries@)
    }

    /// Start an empty archive.
    pub fn new() -> (r: Archiver)
        ensures
            r.wf(),
            r@ == Seq::<EntryModel>::empty(),
    {
        Archiver {
            locals: Vec::new(),
            centrals: Vec::new(),
            count: 0,
            entries: Ghost(Seq::empty()),
        }
    }

    /// Record a directory entry under `name`; a trailing slash marks it as a
    /// directory in the container. Fails exactly when the entry would not
    /// fit the container's fields.
    pub fn add_dir(&mut self, name: &[u8]) -> (r: Result<(), BuildError>)
        requires
            old(self).wf(),
        ensures
            final(self).wf(),
            match r {
                Ok(()) => final(self)@ == old(self)@.push(EntryModel::Dir { name: name@ })
                    && can_add(old(self)@, EntryModel::Dir { name: name@ }),
                Err(BuildError::TooLarge) => final(self)@ == old(self)@ && !can_add(
                    old(self)@,
                    EntryModel::Dir { name: name@ },
                ),
            },
    {
        let ghost m = EntryModel::Dir { name: name@ };
        if name.len() > 0xFFFE {
            return Err(BuildError::TooLarge);
        }
        let nlen64: u64 = name.len() as u64 + 1;
        if self.count >= 0xFFFF
            || self.locals.len() as u64 + 30 + nlen64 > 0xFFFF_FFFF
            || self.centrals.len() as u64 + 46 + nlen64 > 0xFFFF_FFFF {
            return Err(BuildError::TooLarge);
        }
        let mut sn = vstd::slice::slice_to_vec(name);
        sn.push(47);
        assert(sn@ =~= stored_name(m));
        let empty: Vec<u8> = Vec::new();
        self.append_entry(&sn, 0, 0, empty.as_slice(), Ghost(m));
        Ok(())
    }

    /// Record a file entry under `name` with payload `data`, stored without
    /// compression. Fails exactly when the entry would not fit the
    /// container's fields.
    pub fn add_file(&mut self, name: &[u8], data: &[u8]) -> (r: Result<(), BuildError>)
        requires
            old(self).wf(),
        ensures
            final(self).wf(),
            match r {
                Ok(()) => final(self)@ == old(self)@.push(
                    EntryModel::File { name: name@, data: data@ },
                ) && can_add(old(self)@, EntryModel::File { name: name@, data: data@ }),
                Err(BuildError::TooLarge) => final(self)@ == old(self)@ && !can_add(
                    old(self)@,
                    EntryModel::File { name: name@, data: data@ },
                ),
            },
    {
        let ghost m = EntryModel::File { name: name@, data: data@ };
        if name.len() > 0xFFFF {
            return Err(BuildError::TooLarge);
        }
        let nlen64: u64 = name.len() as u64;
        let dlen64: u64 = data.len() as u64;
        if dlen64 > 0xFFFF_FFFF || self.count >= 0xFFFF
            || self.locals.len() as u64 + 30 + nlen64 + dlen64 > 0xFFFF_FFFF
            || self.centrals.len() as u64 + 46 + nlen64 > 0xFFFF_FFFF {
            return Err(BuildError::TooLarge);
        }
        let sn = vstd::slice::slice_to_vec(name);
        let crc = crc32(data);
        assert(sn@ == stored_name(m));
        assert(crc == crc_val(m));
        self.append_entry(&sn, crc, data.len() as u32, data, Ghost(m));
        Ok(())
    }

    /// Append the local and central records of one entry.
    #[verifier::rlimit(50)]
    fn append_entry(&mut self, sn: &Vec<u8>, crc: u32, size: u32, data: &[u8], m: Ghost<EntryModel>)
        requires
            old(self).wf(),
            sn@ == stored_name(m@),
            crc == crc_val(m@),
            data@ == payload(m@),
            size == payload(m@).len(),
            can_add(old(self)@, m@),
        ensures
            final(self).wf(),
            final(self)@ == old(self)@.push(m@),
    {
        let ghost es0 = self.entries@;
        let off: u32 = self.locals.len() as u32;
        push_header(&mut self.locals, false, crc, size, sn.len() as u16, 0);
        push_bytes(&mut self.locals, sn.as_slice());
        push_bytes(&mut self.locals, data);
        push_header(&mut self.centrals, true, crc, size, sn.len() as u16, off);
        push_bytes(&mut self.centrals, sn.as_slice());
        self.entries = Ghost(es0.push(m@));
        proof {
            lemma_locals_push(es0, m@);
            lemma_centrals_push(es0, m@);
            assert(self.locals@ =~= locals(self.entries@));
            assert(self.centrals@ =~= centrals(self.entries@));
            assert forall|i: int| 0 <= i < self.entries@.len() implies entry_fits(
                #[trigger] self.entries@[i],
            ) by {
                if i < es0.len() {
                    assert(entry_fits(es0[i]));
                }
            }
        }
        self.count = self.count + 1;
    }

    /// Close the container: the bytes returned are exactly the serialized
    /// form of the entries added, in order.
    pub fn finish(self) -> (out: Vec<u8>)
        requires
            self.wf(),
        ensures
            out@ == serialize(self@),
            seq_fits(self@),
    {
        let Archiver { locals: mut out, centrals, count, entries } = self;
        let cd_off: u32 = out.len() as u32;
        let cd_size: u32 = centrals.len() as u32;
        push_bytes(&mut out, centrals.as_slice());
        out.push(0x50);
        out.push(0x4B);
        out.push(0x05);
        out.push(0x06);
        push_u16(&mut out, 0);
        push_u16(&mut out, 0);
        push_u16(&mut out, count as u16);
        push_u16(&mut out, count as u16);
        push_u32(&mut out, cd_size);
        push_u32(&mut out, cd_off);
        push_u16(&mut out, 0);
        proof {
            assert(out@ =~= serialize(entries@));
        }
        out
    }
}

/// Append one fixed-size record header: a central directory header when
/// `central` is set, else a local one.
fn push_header(v: &mut Vec<u8>, central: bool, crc: u32, size: u32, nlen: u16, off: u32)
    ensures
        central ==> final(v)@ == old(v)@ + central_header(crc, size, nlen, off),
        !central ==> final(v)@ == old(v)@ + local_header(crc, size, nlen),
{
    v.push(0x50);
    v.push(0x4B);
    if central {
        v.push(0x01);
        v.push(0x02);
        push_u16(v, 20);
    } else {
        v.push(0x03);
        v.push(0x04);
    }
    push_u16(v, 20);
    push_u16(v, 0);
    push_u16(v, 0);
    push_u16(v, 0);
    push_u16(v, 33);
    push_u32(v, crc);
    push_u32(v, size);
    push_u32(v, size);
    push_u16(v, nlen);
    push_u16(v, 0);
    if central {
        push_u16(v, 0);
        push_u16(v, 0);
        push_u16(v, 0);
        push_u32(v, 0);
        push_u32(v, off);
        proof {
            assert(v@ =~= old(v)@ + central_header(crc, size, nlen, off));
        }
    } else {
        proof {
            assert(v@ =~= old(v)@ + local_header(crc, size, nlen));
        }
    }
}

} // verus!
