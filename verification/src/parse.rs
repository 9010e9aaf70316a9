use vstd::prelude::*;
use crate::bytes::{rd16, rd32, read_u16, read_u32};
use crate::digest::{crc32_of, inflate_of, crc32, inflate};
use crate::format::{EntryModel, Entry, models_of, lsig, csig, esig};

verus! {

/// Why a byte string was rejected as an archive.
#[derive(Debug, Clone, PartialEq, Eq)]
pub enum ParseError {
    /// No end-of-central-directory record was found.
    NoEndRecord,
    /// The archive spans several disks, which is not supported.
    MultiDisk,
    /// The central directory is out of bounds or a record in it is malformed.
    BadCentralDirectory,
    /// A local record header is out of bounds or malformed.
    BadLocalHeader,
    /// An entry is compressed with a method other than stored or deflate.
    UnsupportedMethod,
    /// An entry's payload contradicts its recorded size or checksum.
    BadData,
}

/// A well-formed end-of-central-directory record starts at `k`: its
/// signature is in place and its comment runs exactly to the end.
pub open spec fn valid_eocd_at(s: Seq<u8>, k: int) -> bool {
    &&& 0 <= k
    &&& k + 22 <= s.len()
    &&& s.subrange(k, k + 4) == esig()
    &&& rd16(s, k + 20) == s.len() - k - 22
}

/// The lowest position the end-record search looks at: the comment field
/// can hold at most 65535 bytes.
pub open spec fn scan_stop(s: Seq<u8>) -> int {
    if s.len() >= 22 + 65535 {
        s.len() - 22 - 65535
    } else {
        0
    }
}

/// Scan downward from `k` for a well-formed end record.
pub open spec fn find_eocd_from(s: Seq<u8>, k: int) -> Option<int>
    decreases k,
{
    if k < 0 {
        None
    } else if valid_eocd_at(s, k) {
        Some(k)
    } else if k <= scan_stop(s) {
        None
    } else {
        find_eocd_from(s, k - 1)
    }
}

/// The position of the end record: the last well-formed one in the file,
/// searched backward across a possible trailing comment.
pub open spec fn find_eocd(s: Seq<u8>) -> Option<int> {
    if s.len() < 22 {
        None
    } else {
        find_eocd_from(s, s.len() - 22)
    }
}

/// Where an entry's payload starts, given its local record offset: past the
/// 30-byte header and the name and extra fields recorded there; `None` when
/// the header is out of bounds, mis-signed, or runs past the end.
pub open spec fn local_data_start(s: Seq<u8>, off: int) -> Option<int> {
    if 0 <= off && off + 30 <= s.len() && s.subrange(off, off + 4) == lsig() {
        if off + 30 + rd16(s, off + 26) + rd16(s, off + 28) <= s.len() {
            Some(off + 30 + rd16(s, off + 26) + rd16(s, off + 28))
        } else {
            None
        }
    } else {
        None
    }
}

/// The payload of a file entry whose central record names local offset
/// `off`, method `method`, checksum `crc` and sizes `csize`/`usz`: the raw
/// bytes for a stored entry, the inflated bytes for a deflated one, in
/// either case only if sizes and checksum agree.
pub open spec fn read_payload(
    s: Seq<u8>,
    off: int,
    method: int,
    crc: int,
    csize: int,
    usz: int,
) -> Option<Seq<u8>> {
    match local_data_start(s, off) {
        None => None,
        Some(ds) => {
            if csize > s.len() - ds {
                None
            } else {
                let raw = s.subrange(ds, ds + csize);
                if method == 0 {
                    if csize == usz && crc32_of(raw) == crc {
                        Some(raw)
                    } else {
                        None
                    }
                } else if method == 8 {
                    match inflate_of(raw, usz as nat) {
                        Some(d) => if d.len() == usz && crc32_of(d) == crc {
                            Some(d)
                        } else {
                            None
                        },
                        None => None,
                    }
                } else {
                    None
                }
            }
        },
    }
}

/// A stored name with a trailing slash denotes a directory.
pub open spec fn is_dir_name(name: Seq<u8>) -> bool {
    name.len() > 0 && name.last() == 47u8
}

/// Parse one central directory record at `pos`: the entry it describes and
/// the position of the next record. A directory entry needs only a sound
/// local header; a file entry's payload is read and checked.
pub open spec fn parse_cd_one(s: Seq<u8>, pos: int) -> Option<(EntryModel, int)> {
    if pos < 0 || pos + 46 > s.len() || s.subrange(pos, pos + 4) != csig() {
        None
    } else {
        let method = rd16(s, pos + 10);
        let crc = rd32(s, pos + 16);
        let csize = rd32(s, pos + 20);
        let usz = rd32(s, pos + 24);
        let nl = rd16(s, pos + 28);
        let el = rd16(s, pos + 30);
        let cl = rd16(s, pos + 32);
        let off = rd32(s, pos + 42);
        if pos + 46 + nl > s.len() {
            None
        } else {
            let name = s.subrange(pos + 46, pos + 46 + nl);
            let next = pos + 46 + nl + el + cl;
            if is_dir_name(name) {
                match local_data_start(s, off) {
                    Some(_) => Some((EntryModel::Dir { name: name.drop_last() }, next)),
                    None => None,
                }
            } else {
                match read_payload(s, off, method, crc, csize, usz) {
                    Some(data) => Some((EntryModel::File { name, data }, next)),
                    None => None,
                }
            }
        }
    }
}

/// Parse `n` consecutive central directory records starting at `pos`.
pub open spec fn parse_cds(s: Seq<u8>, pos: int, n: nat) -> Option<Seq<EntryModel>>
    decreases n,
{
    if n == 0 {
        Some(Seq::empty())
    } else {
        match parse_cd_one(s, pos) {
            None => None,
            Some((e, next)) => match parse_cds(s, next, (n - 1) as nat) {
                None => None,
                Some(rest) => Some(seq![e] + rest),
            },
        }
    }
}

/// The entries of the container `s`, in central directory order; `None`
/// when `s` is not a single-disk archive of sound records.
pub open spec fn parse(s: Seq<u8>) -> Option<Seq<EntryModel>> {
    match find_eocd(s) {
        None => None,
        Some(k) => {
            let this_disk = rd16(s, k + 4);
            let cd_disk = rd16(s, k + 6);
            let n_here = rd16(s, k + 8);
            let n = rd16(s, k + 10);
            let cd_size = rd32(s, k + 12);
            let cd_off = rd32(s, k + 16);
            if this_disk != 0 || cd_disk != 0 || n_here != n || cd_off + cd_size > k {
                None
            } else {
                parse_cds(s, cd_off, n as nat)
            }
        },
    }
}

/// One unfolding of `parse_cds` when the head record parses.
proof fn lemma_cds_step(s: Seq<u8>, pos: int, n: nat, e: EntryModel, next: int)
    requires
        n > 0,
        parse_cd_one(s, pos) == Some((e, next)),
    ensures
        parse_cds(s, pos, n) == match parse_cds(s, next, (n - 1) as nat) {
            Some(rest) => Some(seq![e] + rest),
            None => None::<Seq<EntryModel>>,
        },
{
}

/// A record that parses ends not far past the input: its variable fields
/// are 16-bit values.
proof fn lemma_cd_one_next_bound(s: Seq<u8>, pos: int, e: EntryModel, next: int)
    requires
        parse_cd_one(s, pos) == Some((e, next)),
    ensures
        next <= s.len() + 131070,
{
    let nl = rd16(s, pos + 28);
    let el = rd16(s, pos + 30);
    let cl = rd16(s, pos + 32);
    assert(pos + 46 + nl <= s.len());
    assert(el <= 65535 && cl <= 65535);
    assert(next == pos + 46 + nl + el + cl);
}

/// Find the end record, as `find_eocd` describes.
fn find_eocd_exec(s: &[u8]) -> (r: Option<usize>)
    ensures
        match r {
            Some(k) => find_eocd(s@) == Some(k as int) && valid_eocd_at(s@, k as int),
            None => find_eocd(s@) is None,
        },
{
    let len = s.len();
    if len < 22 {
        return None;
    }
    let stop: usize = if len >= 22 + 65535 {
        len - 22 - 65535
    } else {
        0
    };
    let mut k: usize = len - 22;
    loop
        invariant
            stop == scan_stop(s@),
            stop <= k <= len - 22,
            len == s@.len(),
            22 <= len,
            find_eocd(s@) == find_eocd_from(s@, k as int),
        decreases k,
    {
        let sig_ok = s[k] == 0x50 && s[k + 1] == 0x4B && s[k + 2] == 0x05 && s[k + 3] == 0x06;
        let clen_ok = if sig_ok {
            read_u16(s, k + 20) as usize == len - k - 22
        } else {
            false
        };
        let ok = sig_ok && clen_ok;
        proof {
            if sig_ok {
                assert(s@.subrange(k as int, k as int + 4) =~= esig());
            } else {
                assert(s@.subrange(k as int, k as int + 4)[0] == s@[k as int]);
                assert(s@.subrange(k as int, k as int + 4)[1] == s@[k as int + 1]);
                assert(s@.subrange(k as int, k as int + 4)[2] == s@[k as int + 2]);
                assert(s@.subrange(k as int, k as int + 4)[3] == s@[k as int + 3]);
                assert(s@.subrange(k as int, k as int + 4) != esig());
            }
        }
        if ok {
            return Some(k);
        }
        proof {
            assert(!valid_eocd_at(s@, k as int));
        }
        if k <= stop {
            return None;
        }
        k = k - 1;
    }
}

/// Parse one central directory record, as `parse_cd_one` describes.
fn parse_cd_one_exec(s: &[u8], pos: u64) -> (r: Result<(Entry, u64), ParseError>)
    requires
        pos <= s@.len() + 131070,
        s@.len() <= 0xFFFF_FFFF_FFF0_0000,
    ensures
        match r {
            Ok((e, next)) => parse_cd_one(s@, pos as int) == Some((e@, next as int)),
            Err(_) => parse_cd_one(s@, pos as int) is None,
        },
{
    let len = s.len();
    let len64 = len as u64;
    if len < 46 || pos > len64 - 46 {
        return Err(ParseError::BadCentralDirectory);
    }
    let p = pos as usize;
    if !(s[p] == 0x50 && s[p + 1] == 0x4B && s[p + 2] == 0x01 && s[p + 3] == 0x02) {
        proof {
            assert(s@.subrange(p as int, p as int + 4)[0] == s@[p as int]);
            assert(s@.subrange(p as int, p as int + 4)[1] == s@[p as int + 1]);
            assert(s@.subrange(p as int, p as int + 4)[2] == s@[p as int + 2]);
            assert(s@.subrange(p as int, p as int + 4)[3] == s@[p as int + 3]);
            assert(s@.subrange(p as int, p as int + 4) != csig());
        }
        return Err(ParseError::BadCentralDirectory);
    }
    proof {
        assert(s@.subrange(p as int, p as int + 4) =~= csig());
    }
    let method = read_u16(s, p + 10);
    let crc = read_u32(s, p + 16);
    let csize = read_u32(s, p + 20);
    let usz = read_u32(s, p + 24);
    let nl = read_u16(s, p + 28);
    let el = read_u16(s, p + 30);
    let cl = read_u16(s, p + 32);
    let off = read_u32(s, p + 42);
    if nl as u64 > len64 - 46 - pos {
        return Err(ParseError::BadCentralDirectory);
    }
    let name_end = p + 46 + nl as usize;
    let name_slice = vstd::slice::slice_subrange(s, p + 46, name_end);
    let next: u64 = pos + 46 + nl as u64 + el as u64 + cl as u64;
    let is_dir = nl > 0 && s[name_end - 1] == 47;
    proof {
        let name = s@.subrange(p + 46, p + 46 + nl as int);
        assert(nl > 0 ==> name.last() == s@[p + 46 + nl as int - 1]);
        assert(is_dir == is_dir_name(name));
    }
    // Local record header.
    let ghost offi = off as int;
    if len < 30 || off as u64 > len64 - 30 {
        return Err(ParseError::BadLocalHeader);
    }
    let o = off as usize;
    if !(s[o] == 0x50 && s[o + 1] == 0x4B && s[o + 2] == 0x03 && s[o + 3] == 0x04) {
        proof {
            assert(s@.subrange(offi, offi + 4)[0] == s@[offi]);
            assert(s@.subrange(offi, offi + 4)[1] == s@[offi + 1]);
            assert(s@.subrange(offi, offi + 4)[2] == s@[offi + 2]);
            assert(s@.subrange(offi, offi + 4)[3] == s@[offi + 3]);
            assert(s@.subrange(offi, offi + 4) != lsig());
        }
        return Err(ParseError::BadLocalHeader);
    }
    proof {
        assert(s@.subrange(offi, offi + 4) =~= lsig());
    }
    let lnl = read_u16(s, o + 26);
    let lel = read_u16(s, o + 28);
    let ds64: u64 = off as u64 + 30 + lnl as u64 + lel as u64;
    if ds64 > len64 {
        return Err(ParseError::BadLocalHeader);
    }
    assert(local_data_start(s@, offi) == Some(ds64 as int));
    if is_dir {
        let mut nv = vstd::slice::slice_to_vec(name_slice);
        nv.pop();
        return Ok((Entry::Dir { name: nv }, next));
    }
    // File entry: read and check the payload.
    if csize as u64 > len64 - ds64 {
        return Err(ParseError::BadData);
    }
    let ds = ds64 as usize;
    let raw = vstd::slice::slice_subrange(s, ds, ds + csize as usize);
    if method == 0 {
        if csize != usz {
            return Err(ParseError::BadData);
        }
        let c = crc32(raw);
        if c != crc {
            return Err(ParseError::BadData);
        }
        let data = vstd::slice::slice_to_vec(raw);
        let name = vstd::slice::slice_to_vec(name_slice);
        Ok((Entry::File { name, data }, next))
    } else if method == 8 {
        match inflate(raw, usz as usize) {
            None => Err(ParseError::BadData),
            Some(data) => {
                if data.len() != usz as usize {
                    return Err(ParseError::BadData);
                }
                let c = crc32(data.as_slice());
                if c != crc {
                    return Err(ParseError::BadData);
                }
                let name = vstd::slice::slice_to_vec(name_slice);
                Ok((Entry::File { name, data }, next))
            },
        }
    } else {
        Err(ParseError::UnsupportedMethod)
    }
}

/// Parse a whole container, as `parse` describes: `Ok` with the entries in
/// central directory order exactly when `parse` accepts the bytes.
#[verifier::rlimit(100)]
pub fn parse_archive(s: &[u8]) -> (r: Result<Vec<Entry>, ParseError>)
    requires
        s@.len() <= 0xFFFF_FFFF_FFF0_0000,
    ensures
        match r {
            Ok(v) => parse(s@) == Some(models_of(v@)),
            Err(_) => parse(s@) is None,
        },
{
    let k = match find_eocd_exec(s) {
        None => {
            return Err(ParseError::NoEndRecord);
        },
        Some(k) => k,
    };
    let slen = s.len();
    proof {
        assert(k + 22 <= slen);
    }
    let this_disk = read_u16(s, k + 4);
    let cd_disk = read_u16(s, k + 6);
    let n_here = read_u16(s, k + 8);
    let n = read_u16(s, k + 10);
    let cd_size = read_u32(s, k + 12);
    let cd_off = read_u32(s, k + 16);
    if this_disk != 0 || cd_disk != 0 {
        return Err(ParseError::MultiDisk);
    }
    if n_here != n {
        return Err(ParseError::BadCentralDirectory);
    }
    if cd_off as u64 + cd_size as u64 > k as u64 {
        return Err(ParseError::BadCentralDirectory);
    }
    let ghost cd0 = cd_off as int;
    let ghost total = n as nat;
    let mut out: Vec<Entry> = Vec::new();
    let mut pos: u64 = cd_off as u64;
    let mut i: usize = 0;
    proof {
        assert(models_of(out@) =~= Seq::<EntryModel>::empty());
        match parse_cds(s@, cd0, total) {
            Some(rest) => {
                assert(models_of(out@) + rest =~= rest);
            },
            None => {},
        }
    }
    while i < n as usize
        invariant
            i <= n,
            total == n as nat,
            parse(s@) == parse_cds(s@, cd0, total),
            s@.len() <= 0xFFFF_FFFF_FFF0_0000,
            pos <= s@.len() + 131070,
            out@.len() == i,
            parse_cds(s@, cd0, total) == match parse_cds(s@, pos as int, (total - i) as nat) {
                Some(rest) => Some(models_of(out@) + rest),
                None => None::<Seq<EntryModel>>,
            },
        decreases n - i,
    {
        let ghost rem = (total - i) as nat;
        match parse_cd_one_exec(s, pos) {
            Err(e) => {
                proof {
                    assert(parse_cds(s@, pos as int, rem) is None);
                }
                return Err(e);
            },
            Ok((e, next)) => {
                proof {
                    lemma_cds_step(s@, pos as int, rem, e@, next as int);
                    lemma_cd_one_next_bound(s@, pos as int, e@, next as int);
                }
                let ghost out0 = out@;
                out.push(e);
                pos = next;
                i = i + 1;
                proof {
                    assert((total - i) as nat == (rem - 1) as nat);
                    assert(models_of(out@) =~= models_of(out0).push(e@));
                    match parse_cds(s@, pos as int, (total - i) as nat) {
                        Some(r1) => {
                            assert(models_of(out0) + (seq![e@] + r1) =~= models_of(out@) + r1);
                        },
                        None => {},
                    }
                }
            },
        }
    }
    proof {
        assert(parse_cds(s@, pos as int, 0) == Some(Seq::<EntryModel>::empty()));
        assert(models_of(out@) + Seq::<EntryModel>::empty() =~= models_of(out@));
    }
    Ok(out)
}

} // verus!
