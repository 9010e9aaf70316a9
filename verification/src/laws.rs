use vstd::prelude::*;
use crate::bytes::{le16, le32, rd16, rd32, lemma_le16_rd, lemma_le32_rd, lemma_rd_in_window};
use crate::format::{
    EntryModel, entry_fits, seq_fits, stored_name, payload, crc_val, local_header, local_chunk,
    central_header, central_chunk, eocd_chunk, locals, centrals, serialize, lsig, csig, esig,
};
use crate::parse::{
    valid_eocd_at, find_eocd_from, find_eocd, local_data_start, read_payload, is_dir_name,
    parse_cd_one, parse_cds, parse,
};
use crate::digest::crc32_of;

verus! {

/// A subrange taken inside the left part of a concatenation.
proof fn lemma_sub_left(a: Seq<u8>, b: Seq<u8>, x: int, y: int)
    requires
        0 <= x <= y <= a.len(),
    ensures
        (a + b).subrange(x, y) == a.subrange(x, y),
{
    assert((a + b).subrange(x, y) =~= a.subrange(x, y));
}

/// A subrange taken inside the right part of a concatenation.
proof fn lemma_sub_right(a: Seq<u8>, b: Seq<u8>, x: int, y: int)
    requires
        0 <= x <= y <= b.len(),
    ensures
        (a + b).subrange(a.len() + x, a.len() + y) == b.subrange(x, y),
{
    assert((a + b).subrange(a.len() + x, a.len() + y) =~= b.subrange(x, y));
}

/// The values of the fields of a local record header.
proof fn lemma_local_header_vals(crc: u32, size: u32, nlen: u16)
    ensures
        local_header(crc, size, nlen).len() == 30,
        local_header(crc, size, nlen).subrange(0, 4) == lsig(),
        rd16(local_header(crc, size, nlen), 8) == 0,
        rd16(local_header(crc, size, nlen), 26) == nlen,
        rd16(local_header(crc, size, nlen), 28) == 0,
{
    let h = local_header(crc, size, nlen);
    assert(h.subrange(0, 4) =~= lsig());
    lemma_le16_rd(nlen);
    assert(h[26] == le16(nlen)[0]);
    assert(h[27] == le16(nlen)[1]);
    assert(h[8] == 0 && h[9] == 0);
    assert(h[28] == 0 && h[29] == 0);
}

/// The values of the fields of a central directory record header.
proof fn lemma_central_header_vals(crc: u32, size: u32, nlen: u16, off: u32)
    ensures
        central_header(crc, size, nlen, off).len() == 46,
        central_header(crc, size, nlen, off).subrange(0, 4) == csig(),
        rd16(central_header(crc, size, nlen, off), 10) == 0,
        rd32(central_header(crc, size, nlen, off), 16) == crc,
        rd32(central_header(crc, size, nlen, off), 20) == size,
        rd32(central_header(crc, size, nlen, off), 24) == size,
        rd16(central_header(crc, size, nlen, off), 28) == nlen,
        rd16(central_header(crc, size, nlen, off), 30) == 0,
        rd16(central_header(crc, size, nlen, off), 32) == 0,
        rd32(central_header(crc, size, nlen, off), 42) == off,
{
    let h = central_header(crc, size, nlen, off);
    assert(h.subrange(0, 4) =~= csig());
    lemma_le16_rd(nlen);
    lemma_le32_rd(crc);
    lemma_le32_rd(size);
    lemma_le32_rd(off);
    assert(h[10] == 0 && h[11] == 0);
    assert(h[16] == le32(crc)[0] && h[17] == le32(crc)[1] && h[18] == le32(crc)[2] && h[19]
        == le32(crc)[3]);
    assert(h[20] == le32(size)[0] && h[21] == le32(size)[1] && h[22] == le32(size)[2] && h[23]
        == le32(size)[3]);
    assert(h[24] == le32(size)[0] && h[25] == le32(size)[1] && h[26] == le32(size)[2] && h[27]
        == le32(size)[3]);
    assert(h[28] == le16(nlen)[0] && h[29] == le16(nlen)[1]);
    assert(h[30] == 0 && h[31] == 0);
    assert(h[32] == 0 && h[33] == 0);
    assert(h[42] == le32(off)[0] && h[43] == le32(off)[1] && h[44] == le32(off)[2] && h[45]
        == le32(off)[3]);
}

/// The values of the fields of an end-of-central-directory record.
proof fn lemma_eocd_vals(n: int, cd_off: int, cd_size: int)
    requires
        0 <= n <= 0xFFFF,
        0 <= cd_off <= 0xFFFF_FFFF,
        0 <= cd_size <= 0xFFFF_FFFF,
    ensures
        eocd_chunk(n, cd_off, cd_size).len() == 22,
        eocd_chunk(n, cd_off, cd_size).subrange(0, 4) == esig(),
        rd16(eocd_chunk(n, cd_off, cd_size), 4) == 0,
        rd16(eocd_chunk(n, cd_off, cd_size), 6) == 0,
        rd16(eocd_chunk(n, cd_off, cd_size), 8) == n,
        rd16(eocd_chunk(n, cd_off, cd_size), 10) == n,
        rd32(eocd_chunk(n, cd_off, cd_size), 12) == cd_size,
        rd32(eocd_chunk(n, cd_off, cd_size), 16) == cd_off,
        rd16(eocd_chunk(n, cd_off, cd_size), 20) == 0,
{
    let h = eocd_chunk(n, cd_off, cd_size);
    assert(h.subrange(0, 4) =~= esig());
    lemma_le16_rd(n as u16);
    lemma_le32_rd(cd_size as u32);
    lemma_le32_rd(cd_off as u32);
    assert(h[4] == 0 && h[5] == 0 && h[6] == 0 && h[7] == 0);
    assert(h[8] == le16(n as u16)[0] && h[9] == le16(n as u16)[1]);
    assert(h[10] == le16(n as u16)[0] && h[11] == le16(n as u16)[1]);
    assert(h[12] == le32(cd_size as u32)[0] && h[13] == le32(cd_size as u32)[1] && h[14] == le32(
        cd_size as u32,
    )[2] && h[15] == le32(cd_size as u32)[3]);
    assert(h[16] == le32(cd_off as u32)[0] && h[17] == le32(cd_off as u32)[1] && h[18] == le32(
        cd_off as u32,
    )[2] && h[19] == le32(cd_off as u32)[3]);
    assert(h[20] == 0 && h[21] == 0);
}

/// Offset of entry `i`'s local record inside the local section.
pub open spec fn loc_off(es: Seq<EntryModel>, i: int) -> int {
    locals(es.take(i)).len() as int
}

/// Offset of entry `i`'s central record inside the central directory.
pub open spec fn cen_off(es: Seq<EntryModel>, i: int) -> int {
    centrals(es.take(i)).len() as int
}

/// Entry `i`'s local record lies at `loc_off(es, i)` in the local section.
proof fn lemma_local_window(es: Seq<EntryModel>, i: int)
    requires
        0 <= i < es.len(),
    ensures
        loc_off(es, i + 1) == loc_off(es, i) + local_chunk(es[i]).len(),
        loc_off(es, i + 1) <= locals(es).len(),
        locals(es).subrange(loc_off(es, i), loc_off(es, i + 1)) == local_chunk(es[i]),
    decreases es.len(),
{
    assert(es.take(i + 1).drop_last() =~= es.take(i));
    assert(es.take(i + 1).last() == es[i]);
    if i == es.len() - 1 {
        assert(es.take(i + 1) =~= es);
        assert(es.take(i) =~= es.drop_last());
        assert(locals(es) == locals(es.drop_last()) + local_chunk(es[i]));
        lemma_sub_right(locals(es.drop_last()), local_chunk(es[i]), 0, local_chunk(es[i]).len() as int);
        assert(local_chunk(es[i]).subrange(0, local_chunk(es[i]).len() as int) =~= local_chunk(
            es[i],
        ));
    } else {
        lemma_local_window(es.drop_last(), i);
        assert(es.drop_last().take(i) =~= es.take(i));
        assert(es.drop_last().take(i + 1) =~= es.take(i + 1));
        assert(locals(es) == locals(es.drop_last()) + local_chunk(es.last()));
        lemma_locals_len_mono(es);
        lemma_sub_left(
            locals(es.drop_last()),
            local_chunk(es.last()),
            loc_off(es, i),
            loc_off(es, i + 1),
        );
    }
}

/// The local section only grows as entries are appended.
proof fn lemma_locals_len_mono(es: Seq<EntryModel>)
    requires
        es.len() > 0,
    ensures
        locals(es).len() == locals(es.drop_last()).len() + local_chunk(es.last()).len(),
{
}

/// Entry `i`'s central record lies at `cen_off(es, i)` in the central
/// directory, and its offset field is `loc_off(es, i)`.
proof fn lemma_central_window(es: Seq<EntryModel>, i: int)
    requires
        0 <= i < es.len(),
    ensures
        cen_off(es, i + 1) == cen_off(es, i) + central_chunk(es[i], loc_off(es, i)).len(),
        cen_off(es, i + 1) <= centrals(es).len(),
        centrals(es).subrange(cen_off(es, i), cen_off(es, i + 1)) == central_chunk(
            es[i],
            loc_off(es, i),
        ),
    decreases es.len(),
{
    assert(es.take(i + 1).drop_last() =~= es.take(i));
    assert(es.take(i + 1).last() == es[i]);
    if i == es.len() - 1 {
        assert(es.take(i + 1) =~= es);
        assert(es.take(i) =~= es.drop_last());
        assert(centrals(es) == centrals(es.drop_last()) + central_chunk(
            es[i],
            locals(es.drop_last()).len() as int,
        ));
        let c = central_chunk(es[i], loc_off(es, i));
        lemma_sub_right(centrals(es.drop_last()), c, 0, c.len() as int);
        assert(c.subrange(0, c.len() as int) =~= c);
    } else {
        lemma_central_window(es.drop_last(), i);
        assert(es.drop_last().take(i) =~= es.take(i));
        assert(es.drop_last().take(i + 1) =~= es.take(i + 1));
        assert(centrals(es) == centrals(es.drop_last()) + central_chunk(
            es.last(),
            locals(es.drop_last()).len() as int,
        ));
        lemma_sub_left(
            centrals(es.drop_last()),
            central_chunk(es.last(), locals(es.drop_last()).len() as int),
            cen_off(es, i),
            cen_off(es, i + 1),
        );
    }
}

/// An entry the container can carry back unchanged: a file's name must not
/// itself end in a slash, since a trailing slash marks a directory.
pub open spec fn round_trip_entry(m: EntryModel) -> bool {
    match m {
        EntryModel::Dir { .. } => true,
        EntryModel::File { name, .. } => !is_dir_name(name),
    }
}

/// The fields of a central record, read where the record lies.
#[verifier::spinoff_prover]
#[verifier::rlimit(100)]
proof fn lemma_central_fields(s: Seq<u8>, pos: int, m: EntryModel, off: int)
    requires
        entry_fits(m),
        0 <= off <= 0xFFFF_FFFF,
        0 <= pos,
        pos + 46 + stored_name(m).len() <= s.len(),
        s.subrange(pos, pos + 46 + stored_name(m).len() as int) == central_chunk(m, off),
    ensures
        s.subrange(pos, pos + 4) == csig(),
        rd16(s, pos + 10) == 0,
        rd32(s, pos + 16) == crc_val(m),
        rd32(s, pos + 20) == payload(m).len(),
        rd32(s, pos + 24) == payload(m).len(),
        rd16(s, pos + 28) == stored_name(m).len(),
        rd16(s, pos + 30) == 0,
        rd16(s, pos + 32) == 0,
        rd32(s, pos + 42) == off,
        s.subrange(pos + 46, pos + 46 + stored_name(m).len() as int) == stored_name(m),
{
    let sn = stored_name(m);
    let snl = sn.len() as int;
    let cch = central_chunk(m, off);
    let hdr = central_header(crc_val(m), payload(m).len() as u32, sn.len() as u16, off as u32);
    lemma_central_header_vals(crc_val(m), payload(m).len() as u32, sn.len() as u16, off as u32);
    assert(cch.subrange(0, 46) =~= hdr);
    lemma_rd_in_window(cch, 0, 46, 10);
    lemma_rd_in_window(cch, 0, 46, 16);
    lemma_rd_in_window(cch, 0, 46, 20);
    lemma_rd_in_window(cch, 0, 46, 24);
    lemma_rd_in_window(cch, 0, 46, 28);
    lemma_rd_in_window(cch, 0, 46, 30);
    lemma_rd_in_window(cch, 0, 46, 32);
    lemma_rd_in_window(cch, 0, 46, 42);
    lemma_rd_in_window(s, pos, pos + 46 + snl, 10);
    lemma_rd_in_window(s, pos, pos + 46 + snl, 16);
    lemma_rd_in_window(s, pos, pos + 46 + snl, 20);
    lemma_rd_in_window(s, pos, pos + 46 + snl, 24);
    lemma_rd_in_window(s, pos, pos + 46 + snl, 28);
    lemma_rd_in_window(s, pos, pos + 46 + snl, 30);
    lemma_rd_in_window(s, pos, pos + 46 + snl, 32);
    lemma_rd_in_window(s, pos, pos + 46 + snl, 42);
    assert(s.subrange(pos, pos + 4) =~= csig());
    assert(hdr.len() == 46);
    assert forall|j: int| 0 <= j < snl implies s.subrange(pos + 46, pos + 46 + snl)[j] == sn[j] by {
        assert(cch[46 + j] == s.subrange(pos, pos + 46 + snl)[46 + j]);
        assert(s.subrange(pos, pos + 46 + snl)[46 + j] == s[pos + 46 + j]);
        assert(cch[46 + j] == sn[j]);
    }
    assert(s.subrange(pos + 46, pos + 46 + snl) =~= sn);
}

/// The fields of a local record, read where the record lies: the payload
/// sits right after the header and the stored name.
#[verifier::spinoff_prover]
#[verifier::rlimit(100)]
proof fn lemma_local_fields(s: Seq<u8>, off: int, m: EntryModel)
    requires
        entry_fits(m),
        0 <= off,
        off + 30 + stored_name(m).len() + payload(m).len() <= s.len(),
        s.subrange(
            off,
            off + 30 + stored_name(m).len() as int + payload(m).len() as int,
        ) == local_chunk(m),
    ensures
        local_data_start(s, off) == Some(off + 30 + stored_name(m).len() as int),
        s.subrange(
            off + 30 + stored_name(m).len() as int,
            off + 30 + stored_name(m).len() as int + payload(m).len() as int,
        ) == payload(m),
{
    let sn = stored_name(m);
    let pl = payload(m);
    let snl = sn.len() as int;
    let pll = pl.len() as int;
    let lch = local_chunk(m);
    let lhdr = local_header(crc_val(m), pl.len() as u32, sn.len() as u16);
    lemma_local_header_vals(crc_val(m), pl.len() as u32, sn.len() as u16);
    assert(lch.subrange(0, 30) =~= lhdr);
    lemma_rd_in_window(lch, 0, 30, 26);
    lemma_rd_in_window(lch, 0, 30, 28);
    lemma_rd_in_window(s, off, off + 30 + snl + pll, 26);
    lemma_rd_in_window(s, off, off + 30 + snl + pll, 28);
    assert(rd16(s, off + 26) == snl);
    assert(rd16(s, off + 28) == 0);
    assert(s.subrange(off, off + 4) =~= lsig());
    assert(local_data_start(s, off) == Some(off + 30 + snl));
    assert(lhdr.len() == 30);
    assert forall|j: int| 0 <= j < pll implies s.subrange(off + 30 + snl, off + 30 + snl + pll)[j]
        == pl[j] by {
        assert(lch[30 + snl + j] == s.subrange(off, off + 30 + snl + pll)[30 + snl + j]);
        assert(s.subrange(off, off + 30 + snl + pll)[30 + snl + j] == s[off + 30 + snl + j]);
        assert(lch[30 + snl + j] == (sn + pl)[snl + j]);
        assert((sn + pl)[snl + j] == pl[j]);
    }
    assert(s.subrange(off + 30 + snl, off + 30 + snl + pll) =~= pl);
}

/// Where entry `i`'s central and local records lie inside the serialized
/// container.
#[verifier::spinoff_prover]
#[verifier::rlimit(100)]
proof fn lemma_windows_at(es: Seq<EntryModel>, i: int)
    requires
        seq_fits(es),
        0 <= i < es.len(),
    ensures
        ({
            let b = serialize(es);
            let m = es[i];
            let pos = locals(es).len() + cen_off(es, i);
            let off = loc_off(es, i);
            let snl = stored_name(m).len() as int;
            let pll = payload(m).len() as int;
            &&& b.len() == locals(es).len() + centrals(es).len() + 22
            &&& pos + 46 + snl == locals(es).len() + cen_off(es, i + 1)
            &&& cen_off(es, i + 1) <= centrals(es).len()
            &&& 0 <= off && off + 30 + snl + pll == loc_off(es, i + 1) <= locals(es).len()
            &&& b.subrange(pos, pos + 46 + snl) == central_chunk(m, off)
            &&& b.subrange(off, off + 30 + snl + pll) == local_chunk(m)
        }),
{
    let b = serialize(es);
    let m = es[i];
    let ll = locals(es);
    let cc = centrals(es);
    let ee = eocd_chunk(es.len() as int, ll.len() as int, cc.len() as int);
    assert(b == (ll + cc) + ee);
    assert(ee.len() == 22) by {
        lemma_eocd_vals(es.len() as int, ll.len() as int, cc.len() as int);
    }
    assert(entry_fits(m));
    let snl = stored_name(m).len() as int;
    let pll = payload(m).len() as int;
    let pos = ll.len() + cen_off(es, i);
    let off = loc_off(es, i);
    lemma_central_window(es, i);
    lemma_local_window(es, i);
    assert(central_chunk(m, off).len() == 46 + snl);
    assert(local_chunk(m).len() == 30 + snl + pll);
    lemma_sub_left(
        ll + cc,
        ee,
        ll.len() as int + cen_off(es, i),
        ll.len() as int + cen_off(es, i + 1),
    );
    lemma_sub_right(ll, cc, cen_off(es, i), cen_off(es, i + 1));
    lemma_sub_left(ll + cc, ee, off, loc_off(es, i + 1));
    lemma_sub_left(ll, cc, off, loc_off(es, i + 1));
}

/// Entry `i`'s central record, read back from the serialized container,
/// yields entry `i` itself and the position of record `i + 1`.
#[verifier::spinoff_prover]
#[verifier::rlimit(100)]
proof fn lemma_cd_one_at(es: Seq<EntryModel>, i: int)
    requires
        seq_fits(es),
        0 <= i < es.len(),
        round_trip_entry(es[i]),
    ensures
        parse_cd_one(serialize(es), locals(es).len() + cen_off(es, i)) == Some(
            (es[i], locals(es).len() + cen_off(es, i + 1)),
        ),
{
    let b = serialize(es);
    let m = es[i];
    let sn = stored_name(m);
    let pl = payload(m);
    let snl = sn.len() as int;
    let pll = pl.len() as int;
    let pos = locals(es).len() + cen_off(es, i);
    let off = loc_off(es, i);
    let ds = off + 30 + snl;
    assert(entry_fits(m));
    lemma_windows_at(es, i);
    lemma_central_fields(b, pos, m, off);
    lemma_local_fields(b, off, m);
    let next = pos + 46 + snl;
    match m {
        EntryModel::Dir { name } => {
            assert(sn == name + seq![47u8]);
            assert(is_dir_name(sn));
            assert(sn.drop_last() =~= name);
            assert(parse_cd_one(b, pos) == Some((m, next)));
        },
        EntryModel::File { name, data } => {
            assert(sn == name);
            assert(!is_dir_name(sn));
            assert(pl == data);
            let raw = b.subrange(ds, ds + pll);
            assert(raw == pl);
            assert(crc32_of(raw) == crc_val(m));
            assert(read_payload(b, off, 0, crc_val(m) as int, pll, pll) == Some(raw));
            assert(parse_cd_one(b, pos) == Some((m, next)));
        },
    }
}

/// The records from entry `i` on, read back from the serialized container,
/// yield the entries from `i` on.
#[verifier::spinoff_prover]
#[verifier::rlimit(100)]
proof fn lemma_cds_from(es: Seq<EntryModel>, i: int)
    requires
        seq_fits(es),
        forall|j: int| 0 <= j < es.len() ==> round_trip_entry(#[trigger] es[j]),
        0 <= i <= es.len(),
    ensures
        parse_cds(
            serialize(es),
            locals(es).len() + cen_off(es, i),
            (es.len() - i) as nat,
        ) == Some(es.skip(i)),
    decreases es.len() - i,
{
    let b = serialize(es);
    if i == es.len() {
        assert(es.skip(i) =~= Seq::<EntryModel>::empty());
    } else {
        lemma_cd_one_at(es, i);
        lemma_cds_from(es, i + 1);
        assert(seq![es[i]] + es.skip(i + 1) =~= es.skip(i));
    }
}

/// Round trip: any entry sequence that fits the container's fields, and
/// whose file names do not end in a slash, is read back unchanged from its
/// serialized container.
#[verifier::spinoff_prover]
#[verifier::rlimit(100)]
pub proof fn lemma_round_trip(es: Seq<EntryModel>)
    requires
        seq_fits(es),
        forall|j: int| 0 <= j < es.len() ==> round_trip_entry(#[trigger] es[j]),
    ensures
        parse(serialize(es)) == Some(es),
{
    let b = serialize(es);
    let ll = locals(es);
    let cc = centrals(es);
    let n = es.len() as int;
    let ee = eocd_chunk(n, ll.len() as int, cc.len() as int);
    assert(b == (ll + cc) + ee);
    lemma_eocd_vals(n, ll.len() as int, cc.len() as int);
    let k = ll.len() as int + cc.len() as int;
    assert(b.len() == k + 22);
    lemma_sub_right(ll + cc, ee, 0, 22);
    assert(ee.subrange(0, 22) =~= ee);
    assert(b.subrange(k, k + 22) == ee);
    lemma_rd_in_window(b, k, k + 22, 4);
    lemma_rd_in_window(b, k, k + 22, 6);
    lemma_rd_in_window(b, k, k + 22, 8);
    lemma_rd_in_window(b, k, k + 22, 10);
    lemma_rd_in_window(b, k, k + 22, 12);
    lemma_rd_in_window(b, k, k + 22, 16);
    lemma_rd_in_window(b, k, k + 22, 20);
    assert(b.subrange(k, k + 4) =~= esig());
    assert(valid_eocd_at(b, k));
    assert(find_eocd_from(b, k) == Some(k));
    assert(find_eocd(b) == Some(k));
    assert(rd16(b, k + 4) == 0);
    assert(rd16(b, k + 6) == 0);
    assert(rd16(b, k + 8) == n);
    assert(rd16(b, k + 10) == n);
    assert(rd32(b, k + 12) == cc.len());
    assert(rd32(b, k + 16) == ll.len());
    assert(es.take(0) =~= Seq::<EntryModel>::empty());
    assert(cen_off(es, 0) == 0);
    lemma_cds_from(es, 0);
    assert(es.skip(0) =~= es);
    assert(parse(b) == Some(es));
}

/// Stored only: every record the archiver writes, local or central,
/// carries the stored compression method, whatever the entry holds.
pub proof fn lemma_stored_method(m: EntryModel, off: int)
    requires
        entry_fits(m),
        0 <= off <= 0xFFFF_FFFF,
    ensures
        rd16(local_chunk(m), 8) == 0,
        rd16(central_chunk(m, off), 10) == 0,
{
    let lhdr = local_header(crc_val(m), payload(m).len() as u32, stored_name(m).len() as u16);
    lemma_local_header_vals(crc_val(m), payload(m).len() as u32, stored_name(m).len() as u16);
    assert(local_chunk(m).subrange(0, 30) =~= lhdr);
    lemma_rd_in_window(local_chunk(m), 0, 30, 8);
    let chdr = central_header(
        crc_val(m),
        payload(m).len() as u32,
        stored_name(m).len() as u16,
        off as u32,
    );
    lemma_central_header_vals(
        crc_val(m),
        payload(m).len() as u32,
        stored_name(m).len() as u16,
        off as u32,
    );
    assert(central_chunk(m, off).subrange(0, 46) =~= chdr);
    lemma_rd_in_window(central_chunk(m, off), 0, 46, 10);
}

/// Minimal archive: no entries serialize to just the 22-byte end record,
/// and that container parses back to no entries.
pub proof fn lemma_empty_archive()
    ensures
        serialize(Seq::<EntryModel>::empty()).len() == 22,
        parse(serialize(Seq::<EntryModel>::empty())) == Some(Seq::<EntryModel>::empty()),
{
    let es = Seq::<EntryModel>::empty();
    lemma_eocd_vals(0, 0, 0);
    lemma_round_trip(es);
    assert(serialize(es) =~= eocd_chunk(0, 0, 0));
}

} // verus!
