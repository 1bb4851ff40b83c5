//! EtherCAT frames and the PDUs in them: what they are on the wire, and the
//! functions that write and read them.

use crate::interface::Command;
use crate::packet::CommandType;
use crate::packet::hi;
use crate::packet::le16;
use crate::packet::lemma_parse_append;
use crate::packet::lemma_pdu_round_trip;
use crate::packet::lemma_single_pdu_valid;
use crate::packet::lo;
use crate::packet::MAX_PDU_DATA_LENGTH;
use crate::packet::PduModel;
use crate::packet::spec_first_pdu;
use crate::packet::spec_parse_pdus;
use crate::packet::spec_payload;
use crate::packet::spec_pdu_bytes;
use crate::packet::spec_pdu_head_ok;
use crate::packet::spec_pdu_header;
use crate::packet::spec_pdu_length;
use crate::packet::spec_pdus_valid;
use vstd::prelude::*;

verus! {

/// A PDU inside a buffer: its fields decoded, its payload borrowed.
#[derive(Debug, Clone, Copy)]
pub struct EtherCATPDU<'a> {
    pub index: u8,
    pub command: Command,
    pub data: &'a [u8],
    pub wkc: u16,
}

impl View for EtherCATPDU<'_> {
    type V = PduModel;

    open spec fn view(&self) -> PduModel {
        PduModel { index: self.index, command: self.command, data: self.data@, wkc: self.wkc }
    }
}

/// What a list of PDUs holds.
pub open spec fn spec_pdu_models(pdus: Seq<EtherCATPDU>) -> Seq<PduModel> {
    Seq::new(pdus.len(), |i: int| pdus[i]@)
}

/// Bytes that a PDU takes on the wire.
pub open spec fn spec_pdu_size(p: PduModel) -> nat {
    12 + p.data.len()
}

/// Bytes that a run of PDUs takes on the wire.
pub open spec fn spec_pdus_size(pdus: Seq<PduModel>) -> nat
    decreases pdus.len(),
{
    if pdus.len() == 0 {
        0
    } else {
        spec_pdu_size(pdus[0]) + spec_pdus_size(pdus.skip(1))
    }
}

/// A PDU as it is sent: with a working counter of zero.
pub open spec fn spec_sent_pdu(p: PduModel) -> PduModel {
    PduModel { wkc: 0, ..p }
}

/// The PDUs of a run as they are sent.
pub open spec fn spec_sent_pdus(pdus: Seq<PduModel>) -> Seq<PduModel> {
    Seq::new(pdus.len(), |i: int| spec_sent_pdu(pdus[i]))
}

/// Ethernet header of a frame from `src`: to everyone, EtherType EtherCAT.
pub open spec fn spec_ethernet_header(src: Seq<u8>) -> Seq<u8>
    recommends
        src.len() == 6,
{
    seq![0xFFu8, 0xFFu8, 0xFFu8, 0xFFu8, 0xFFu8, 0xFFu8] + src + seq![0x88u8, 0xA4u8]
}

/// EtherCAT header: the length of all PDUs in 11 bits, a reserved bit of
/// zero, and the type 1 in the top nibble.
pub open spec fn spec_ethercat_header(len: nat) -> Seq<u8>
    recommends
        len <= 2047,
{
    seq![(len % 256) as u8, (len / 256 + 16) as u8]
}

/// The first `k` PDUs of a frame that carries `pdus`: each with a working
/// counter of zero, each but the frame's last with its more-follows flag set.
pub open spec fn spec_region_upto(pdus: Seq<PduModel>, k: nat) -> Seq<u8>
    decreases k,
{
    if k == 0 {
        Seq::empty()
    } else {
        spec_region_upto(pdus, (k - 1) as nat) + spec_pdu_bytes(
            spec_sent_pdu(pdus[k - 1]),
            k < pdus.len(),
        )
    }
}

/// The PDUs of a frame on the wire.
pub open spec fn spec_frame_region(pdus: Seq<PduModel>) -> Seq<u8> {
    spec_region_upto(pdus, pdus.len())
}

/// A whole frame that carries `pdus` from `src`.
pub open spec fn spec_frame_bytes(src: Seq<u8>, pdus: Seq<PduModel>) -> Seq<u8>
    recommends
        src.len() == 6,
{
    spec_ethernet_header(src) + spec_ethercat_header(spec_frame_region(pdus).len())
        + spec_frame_region(pdus)
}

/// How many PDUs from the front of `pdus` go into a frame that already holds
/// `acc` bytes of PDUs and may hold `limit`.
pub open spec fn spec_fitting(pdus: Seq<PduModel>, acc: nat, limit: nat) -> nat
    decreases pdus.len(),
{
    if pdus.len() == 0 || acc + spec_pdu_size(pdus[0]) > limit {
        0
    } else {
        1 + spec_fitting(pdus.skip(1), acc + spec_pdu_size(pdus[0]), limit)
    }
}

/// How many PDUs from the front of `pdus` the next frame takes: as many as
/// fit, and one in any case while there is one.
pub open spec fn spec_chunk_len(pdus: Seq<PduModel>, limit: nat) -> nat {
    if pdus.len() == 0 {
        0
    } else if spec_fitting(pdus, 0, limit) == 0 {
        1
    } else {
        spec_fitting(pdus, 0, limit)
    }
}

/// No more PDUs fit than there are.
pub proof fn lemma_fitting_bounds(pdus: Seq<PduModel>, acc: nat, limit: nat)
    ensures
        spec_fitting(pdus, acc, limit) <= pdus.len(),
        acc + spec_pdus_size(pdus.take(spec_fitting(pdus, acc, limit) as int)) <= limit || spec_fitting(
            pdus,
            acc,
            limit,
        ) == 0,
    decreases pdus.len(),
{
    if pdus.len() == 0 || acc + spec_pdu_size(pdus[0]) > limit {
    } else {
        let acc1 = acc + spec_pdu_size(pdus[0]);
        lemma_fitting_bounds(pdus.skip(1), acc1, limit);
        let k1 = spec_fitting(pdus.skip(1), acc1, limit);
        let k = spec_fitting(pdus, acc, limit);
        assert(k == 1 + k1);
        let t = pdus.take(k as int);
        assert(t[0] == pdus[0]);
        assert(t.skip(1) =~= pdus.skip(1).take(k1 as int));
        if k1 == 0 {
            assert(pdus.skip(1).take(0) =~= Seq::<PduModel>::empty());
            assert(spec_pdus_size(pdus.skip(1).take(0)) == 0);
        }
    }
}

/// A frame takes at least one PDU while there is one, and never more than
/// there are.
pub proof fn lemma_chunk_len_bounds(pdus: Seq<PduModel>, limit: nat)
    ensures
        pdus.len() > 0 ==> 1 <= spec_chunk_len(pdus, limit) <= pdus.len(),
        pdus.len() == 0 ==> spec_chunk_len(pdus, limit) == 0,
{
    lemma_fitting_bounds(pdus, 0, limit);
}

/// PDU bytes that a frame of `mtu` bytes may hold behind its two headers.
pub open spec fn spec_frame_limit(mtu: nat) -> nat {
    if mtu >= 16 {
        (mtu - 16) as nat
    } else {
        0
    }
}

/// The frames that carry `pdus`, in order: each filled greedily up to `mtu`
/// bytes, Ethernet and EtherCAT header included. A frame takes between one
/// and all of the PDUs that are left, as `lemma_chunk_len_bounds` shows; the
/// other branch is there for the definition to end.
pub open spec fn spec_frames(src: Seq<u8>, pdus: Seq<PduModel>, mtu: nat) -> Seq<Seq<u8>>
    decreases pdus.len(),
{
    if pdus.len() == 0 {
        Seq::empty()
    } else {
        let k = spec_chunk_len(pdus, spec_frame_limit(mtu));
        if 1 <= k <= pdus.len() {
            seq![spec_frame_bytes(src, pdus.take(k as int))] + spec_frames(
                src,
                pdus.skip(k as int),
                mtu,
            )
        } else {
            Seq::empty()
        }
    }
}

/// Source address of a frame.
pub open spec fn spec_frame_source(frame: Seq<u8>) -> Seq<u8>
    recommends
        frame.len() >= 16,
{
    frame.subrange(6, 12)
}

/// Bytes of PDUs that the EtherCAT header of a frame states.
pub open spec fn spec_frame_pdu_length(frame: Seq<u8>) -> nat
    recommends
        frame.len() >= 16,
{
    (frame[14] + 256 * (frame[15] % 8)) as nat
}

/// Whether a frame is an EtherCAT frame of PDUs, whole and well-formed:
/// EtherType EtherCAT, type 1, the reserved bit zero, and the stated length
/// filled with whole PDUs.
pub open spec fn spec_frame_well_formed(frame: Seq<u8>) -> bool {
    &&& frame.len() >= 16
    &&& frame[12] == 0x88 && frame[13] == 0xA4
    &&& frame[15] / 16 == 1
    &&& (frame[15] / 8) % 2 == 0
    &&& 16 + spec_frame_pdu_length(frame) <= frame.len()
    &&& spec_pdus_valid(frame.subrange(16, 16 + spec_frame_pdu_length(frame) as int))
}

/// The PDUs of a frame.
pub open spec fn spec_frame_pdus(frame: Seq<u8>) -> Seq<PduModel>
    recommends
        spec_frame_well_formed(frame),
{
    spec_parse_pdus(frame.subrange(16, 16 + spec_frame_pdu_length(frame) as int))
}

/// The PDUs of a list of frames, in order.
pub open spec fn spec_frames_pdus(frames: Seq<Seq<u8>>) -> Seq<PduModel>
    decreases frames.len(),
{
    if frames.len() == 0 {
        Seq::empty()
    } else {
        spec_frame_pdus(frames[0]) + spec_frames_pdus(frames.skip(1))
    }
}

/// Whether every PDU of the run goes into a frame of `mtu` bytes alone.
pub open spec fn spec_pdus_fit(pdus: Seq<PduModel>, mtu: nat) -> bool {
    forall|i: int| 0 <= i < pdus.len() ==> 16 + spec_pdu_size(#[trigger] pdus[i]) <= mtu
}

/// The size of a run is the size of its front and of its rest.
pub proof fn lemma_pdus_size_split(pdus: Seq<PduModel>, k: int)
    requires
        0 <= k <= pdus.len(),
    ensures
        spec_pdus_size(pdus) == spec_pdus_size(pdus.take(k)) + spec_pdus_size(pdus.skip(k)),
    decreases pdus.len(),
{
    if k == 0 {
        assert(pdus.take(0) =~= Seq::<PduModel>::empty());
        assert(pdus.skip(0) =~= pdus);
    } else {
        lemma_pdus_size_split(pdus.skip(1), k - 1);
        assert(pdus.take(k)[0] == pdus[0]);
        assert(pdus.take(k).skip(1) =~= pdus.skip(1).take(k - 1));
        assert(pdus.skip(1).skip(k - 1) =~= pdus.skip(k));
    }
}

/// The first `k` PDUs of a frame are whole PDUs, as long as the run is, and
/// read back as the PDUs sent.
pub proof fn lemma_region_upto(pdus: Seq<PduModel>, k: nat)
    requires
        k <= pdus.len(),
        forall|i: int| 0 <= i < pdus.len() ==> (#[trigger] pdus[i]).data.len() <= MAX_PDU_DATA_LENGTH,
    ensures
        spec_pdus_valid(spec_region_upto(pdus, k)),
        spec_parse_pdus(spec_region_upto(pdus, k)) == spec_sent_pdus(pdus.take(k as int)),
        spec_region_upto(pdus, k).len() == spec_pdus_size(pdus.take(k as int)),
    decreases k,
{
    if k == 0 {
        assert(spec_parse_pdus(spec_region_upto(pdus, k)) =~= spec_sent_pdus(pdus.take(0)));
        assert(pdus.take(0) =~= Seq::<PduModel>::empty());
    } else {
        let a = spec_region_upto(pdus, (k - 1) as nat);
        let p = spec_sent_pdu(pdus[k - 1]);
        let b = spec_pdu_bytes(p, k < pdus.len());
        lemma_region_upto(pdus, (k - 1) as nat);
        lemma_single_pdu_valid(p, k < pdus.len());
        lemma_pdu_round_trip(p, k < pdus.len());
        lemma_parse_append(a, b);
        assert(spec_sent_pdus(pdus.take(k - 1)) + seq![p] =~= spec_sent_pdus(pdus.take(k as int)));
        lemma_pdus_size_split(pdus.take(k as int), k - 1);
        assert(pdus.take(k as int).take(k - 1) =~= pdus.take(k - 1));
        assert(pdus.take(k as int).skip(k - 1) =~= seq![pdus[k - 1]]);
        assert(seq![pdus[k - 1]].skip(1) =~= Seq::<PduModel>::empty());
        assert(spec_pdus_size(seq![pdus[k - 1]]) == spec_pdu_size(pdus[k - 1]) + spec_pdus_size(
            Seq::<PduModel>::empty(),
        ));
    }
}

/// A frame built from PDUs that its length field can state is well-formed
/// and reads back as those PDUs, in order, none split; it is as long as its
/// headers and its PDUs.
pub proof fn lemma_frame_round_trip(src: Seq<u8>, pdus: Seq<PduModel>)
    requires
        src.len() == 6,
        spec_pdus_size(pdus) <= 2047,
    ensures
        spec_frame_bytes(src, pdus).len() == 16 + spec_pdus_size(pdus),
        spec_frame_well_formed(spec_frame_bytes(src, pdus)),
        spec_frame_source(spec_frame_bytes(src, pdus)) == src,
        spec_frame_pdus(spec_frame_bytes(src, pdus)) == spec_sent_pdus(pdus),
{
    lemma_pdus_size_bounds_each(pdus);
    lemma_region_upto(pdus, pdus.len());
    assert(pdus.take(pdus.len() as int) =~= pdus);
    let region = spec_frame_region(pdus);
    let len = region.len();
    let frame = spec_frame_bytes(src, pdus);
    let eth = spec_ethernet_header(src);
    assert(eth.len() == 14);
    assert(frame.len() == 16 + len);
    assert(frame[12] == 0x88 && frame[13] == 0xA4);
    assert(frame[14] == (len % 256) as u8);
    assert(frame[15] == (len / 256 + 16) as u8);
    assert(len / 256 < 8);
    assert(frame[15] / 16 == 1);
    assert((frame[15] / 8) % 2 == 0);
    assert(frame[15] % 8 == len / 256);
    assert(spec_frame_pdu_length(frame) == len);
    assert(frame.subrange(16, 16 + len as int) =~= region);
    assert(frame.subrange(6, 12) =~= src);
}

/// No PDU of a run is larger than the run.
pub proof fn lemma_pdus_size_bounds_each(pdus: Seq<PduModel>)
    ensures
        forall|i: int| 0 <= i < pdus.len() ==> spec_pdu_size(#[trigger] pdus[i]) <= spec_pdus_size(pdus),
    decreases pdus.len(),
{
    if pdus.len() > 0 {
        lemma_pdus_size_bounds_each(pdus.skip(1));
        assert forall|i: int| 0 <= i < pdus.len() implies spec_pdu_size(#[trigger] pdus[i])
            <= spec_pdus_size(pdus) by {
            if i > 0 {
                assert(pdus[i] == pdus.skip(1)[i - 1]);
            }
        }
    }
}

/// The frames of a run whose PDUs each fit the MTU respect the MTU, are
/// well-formed, carry at least one PDU each, and together read back as the
/// PDUs sent, in order: no PDU is split over two frames, none is lost.
#[verifier::rlimit(50)]
pub proof fn lemma_frames_respect_mtu(src: Seq<u8>, pdus: Seq<PduModel>, mtu: nat)
    requires
        src.len() == 6,
        mtu <= 2063,
        spec_pdus_fit(pdus, mtu),
    ensures
        forall|k: int|
            0 <= k < spec_frames(src, pdus, mtu).len() ==> {
                &&& (#[trigger] spec_frames(src, pdus, mtu)[k]).len() <= mtu
                &&& spec_frame_well_formed(spec_frames(src, pdus, mtu)[k])
                &&& spec_frame_source(spec_frames(src, pdus, mtu)[k]) == src
                &&& spec_frame_pdus(spec_frames(src, pdus, mtu)[k]).len() >= 1
            },
        spec_frames_pdus(spec_frames(src, pdus, mtu)) == spec_sent_pdus(pdus),
        spec_frames(src, pdus, mtu).len() <= pdus.len(),
    decreases pdus.len(),
{
    let frames = spec_frames(src, pdus, mtu);
    if pdus.len() == 0 {
        assert(spec_frames_pdus(frames) =~= spec_sent_pdus(pdus));
    } else {
        let limit = spec_frame_limit(mtu);
        let k = spec_chunk_len(pdus, limit);
        lemma_chunk_len_bounds(pdus, limit);
        lemma_fitting_bounds(pdus, 0, limit);
        let head = pdus.take(k as int);
        let rest = pdus.skip(k as int);
        assert(spec_pdus_size(head) <= limit) by {
            if spec_fitting(pdus, 0, limit) == 0 {
                assert(k == 1);
                assert(head[0] == pdus[0]);
                assert(head.skip(1) =~= Seq::<PduModel>::empty());
                assert(spec_pdus_size(head.skip(1)) == 0);
                assert(16 + spec_pdu_size(pdus[0]) <= mtu);
            }
        }
        lemma_frame_round_trip(src, head);
        assert(spec_pdus_fit(rest, mtu)) by {
            assert forall|i: int| 0 <= i < rest.len() implies 16 + spec_pdu_size(
                #[trigger] rest[i],
            ) <= mtu by {
                assert(rest[i] == pdus[i + k]);
            }
        }
        lemma_frames_respect_mtu(src, rest, mtu);
        let first = spec_frame_bytes(src, head);
        let tail = spec_frames(src, rest, mtu);
        assert(frames =~= seq![first] + tail);
        assert forall|n: int| 0 <= n < frames.len() implies {
            &&& (#[trigger] frames[n]).len() <= mtu
            &&& spec_frame_well_formed(frames[n])
            &&& spec_frame_source(frames[n]) == src
            &&& spec_frame_pdus(frames[n]).len() >= 1
        } by {
            if n > 0 {
                assert(frames[n] == tail[n - 1]);
            }
        }
        assert(frames.skip(1) =~= tail);
        assert(spec_frames_pdus(frames) == spec_frame_pdus(first) + spec_frames_pdus(tail));
        assert(spec_sent_pdus(head) + spec_sent_pdus(rest) =~= spec_sent_pdus(pdus));
    }
}

/// Reads the PDU at `off` of a buffer whose PDUs end at `end`. Gives the PDU
/// and the offset behind it, or `None` where no whole PDU stands there.
pub fn read_pdu<'a>(buf: &'a [u8], off: usize, end: usize) -> (r: Option<(EtherCATPDU<'a>, usize)>)
    requires
        off <= end <= buf@.len(),
    ensures
        r is Some <==> spec_pdu_head_ok(buf@.subrange(off as int, end as int)),
        r matches Some((pdu, next)) ==> {
            &&& pdu@ == spec_first_pdu(buf@.subrange(off as int, end as int))
            &&& next == off + 12 + spec_pdu_length(buf@.subrange(off as int, end as int))
            &&& next <= end
        },
{
    let ghost s = buf@.subrange(off as int, end as int);
    if end - off < 12 {
        return None;
    }
    assert(s[6] == buf@[off + 6] && s[7] == buf@[off + 7]);
    let len: usize = buf[off + 6] as usize + 256 * ((buf[off + 7] % 8) as usize);
    if end - off - 12 < len {
        return None;
    }
    let data = vstd::slice::slice_subrange(buf, off + 10, off + 10 + len);
    assert(data@ =~= s.subrange(10, 10 + len as int));
    assert(s[0] == buf@[off as int] && s[1] == buf@[off + 1] && s[2] == buf@[off + 2] && s[3]
        == buf@[off + 3] && s[4] == buf@[off + 4] && s[5] == buf@[off + 5]);
    assert(s[10 + len as int] == buf@[off + 10 + len] && s[11 + len as int] == buf@[off + 11
        + len]);
    let pdu = EtherCATPDU {
        index: buf[off + 1],
        command: Command::new(
            CommandType::new(buf[off]),
            le16(buf[off + 2], buf[off + 3]),
            le16(buf[off + 4], buf[off + 5]),
        ),
        data,
        wkc: le16(buf[off + 10 + len], buf[off + 11 + len]),
    };
    Some((pdu, off + 12 + len))
}

/// Whether the bytes from `off` to `end` are whole PDUs and nothing else.
pub fn pdus_valid(buf: &[u8], off: usize, end: usize) -> (r: bool)
    requires
        off <= end <= buf@.len(),
    ensures
        r == spec_pdus_valid(buf@.subrange(off as int, end as int)),
{
    let mut cur: usize = off;
    while cur < end
        invariant
            off <= cur <= end <= buf@.len(),
            spec_pdus_valid(buf@.subrange(off as int, end as int)) == spec_pdus_valid(
                buf@.subrange(cur as int, end as int),
            ),
        decreases end - cur,
    {
        let ghost s = buf@.subrange(cur as int, end as int);
        match read_pdu(buf, cur, end) {
            Some((_, next)) => {
                assert(s.skip(next - cur) =~= buf@.subrange(next as int, end as int));
                cur = next;
            },
            None => {
                assert(!spec_pdus_valid(s));
                return false;
            },
        }
    }
    assert(buf@.subrange(cur as int, end as int).len() == 0);
    true
}

/// The PDUs from `off` to `end` of a buffer, as far as whole ones follow
/// each other.
pub fn parse_pdus<'a>(buf: &'a [u8], off: usize, end: usize) -> (r: Vec<EtherCATPDU<'a>>)
    requires
        off <= end <= buf@.len(),
    ensures
        spec_pdu_models(r@) == spec_parse_pdus(buf@.subrange(off as int, end as int)),
{
    let mut pdus: Vec<EtherCATPDU<'a>> = Vec::new();
    let mut cur: usize = off;
    let mut go = true;
    assert(spec_pdu_models(pdus@) =~= Seq::<PduModel>::empty());
    while go
        invariant
            off <= cur <= end <= buf@.len(),
            go ==> spec_pdu_models(pdus@) + spec_parse_pdus(buf@.subrange(cur as int, end as int))
                == spec_parse_pdus(buf@.subrange(off as int, end as int)),
            !go ==> spec_pdu_models(pdus@) == spec_parse_pdus(
                buf@.subrange(off as int, end as int),
            ),
        decreases end - cur + if go { 1int } else { 0int },
    {
        let ghost s = buf@.subrange(cur as int, end as int);
        let ghost before = pdus@;
        match read_pdu(buf, cur, end) {
            Some((pdu, next)) => {
                assert(s.skip(next - cur) =~= buf@.subrange(next as int, end as int));
                pdus.push(pdu);
                assert(spec_pdu_models(pdus@) =~= spec_pdu_models(before) + seq![pdu@]);
                assert(spec_pdu_models(pdus@) + spec_parse_pdus(
                    buf@.subrange(next as int, end as int),
                ) =~= spec_pdu_models(before) + spec_parse_pdus(s));
                cur = next;
            },
            None => {
                assert(spec_parse_pdus(s) =~= Seq::<PduModel>::empty());
                assert(spec_pdu_models(pdus@) + spec_parse_pdus(s) =~= spec_pdu_models(pdus@));
                go = false;
            },
        }
    }
    pdus
}

/// Writes into `buf` at `off` the payload of `data_size` bytes that `data`
/// fills from the front, zero beyond it. The bytes around it stay.
pub fn write_payload(buf: &mut [u8], off: usize, data_size: usize, data: &[u8])
    requires
        off + data_size <= old(buf)@.len(),
    ensures
        final(buf)@ == old(buf)@.subrange(0, off as int) + spec_payload(data@, data_size as nat)
            + old(buf)@.subrange(off + data_size, old(buf)@.len() as int),
{
    let size: usize = buf.len();
    let mut i: usize = 0;
    assert(buf@ =~= old(buf)@.subrange(0, off as int) + spec_payload(
        data@,
        data_size as nat,
    ).take(0) + old(buf)@.subrange(off as int, old(buf)@.len() as int));
    while i < data_size
        invariant
            i <= data_size,
            buf@.len() == size,
            off + data_size <= buf@.len(),
            buf@.len() == old(buf)@.len(),
            buf@ == old(buf)@.subrange(0, off as int) + spec_payload(
                data@,
                data_size as nat,
            ).take(i as int) + old(buf)@.subrange(off + i, old(buf)@.len() as int),
        decreases data_size - i,
    {
        let b: u8 = if i < data.len() { data[i] } else { 0 };
        buf[off + i] = b;
        assert(buf@ =~= old(buf)@.subrange(0, off as int) + spec_payload(
            data@,
            data_size as nat,
        ).take(i + 1) + old(buf)@.subrange(off + i + 1, old(buf)@.len() as int));
        i += 1;
    }
    assert(spec_payload(data@, data_size as nat).take(data_size as int) =~= spec_payload(
        data@,
        data_size as nat,
    ));
}

/// Writes one PDU into `buf` at `off`: header, the payload of `data_size`
/// bytes that `data` fills from the front, zero beyond it, and a working
/// counter of zero. The bytes around it stay.
#[verifier::rlimit(50)]
pub fn write_pdu(
    buf: &mut [u8],
    off: usize,
    index: u8,
    command: Command,
    data_size: usize,
    data: &[u8],
    more: bool,
)
    requires
        data_size <= MAX_PDU_DATA_LENGTH,
        off + 12 + data_size <= old(buf)@.len(),
    ensures
        final(buf)@ == old(buf)@.subrange(0, off as int) + spec_pdu_bytes(
            PduModel { index, command, data: spec_payload(data@, data_size as nat), wkc: 0 },
            more,
        ) + old(buf)@.subrange(off + 12 + data_size, old(buf)@.len() as int),
{
    let size: usize = buf.len();
    let header: [u8; 10] = [
        command.c_type.code(),
        index,
        lo(command.adp),
        hi(command.adp),
        lo(command.ado),
        hi(command.ado),
        (data_size % 256) as u8,
        (data_size / 256) as u8 + if more { 128u8 } else { 0u8 },
        0,
        0,
    ];
    let wkc: [u8; 2] = [0, 0];
    assert(header@ =~= spec_pdu_header(index, command, data_size as nat, more));
    copy_bytes(buf, off, header.as_slice(), 0, 10);
    let ghost after_header = buf@;
    write_payload(buf, off + 10, data_size, data);
    let ghost after_payload = buf@;
    copy_bytes(buf, off + 10 + data_size, wkc.as_slice(), 0, 2);
    proof {
        assert(header@.subrange(0, 10) =~= header@);
        assert(wkc@.subrange(0, 2) =~= seq![0u8, 0u8]);
        lemma_pdu_written(
            old(buf)@,
            after_header,
            after_payload,
            buf@,
            off as int,
            header@,
            spec_payload(data@, data_size as nat),
        );
    }
}

/// Three writes side by side, header, payload and working counter, amount
/// to one write of the three joined.
proof fn lemma_pdu_written(
    b0: Seq<u8>,
    b1: Seq<u8>,
    b2: Seq<u8>,
    b3: Seq<u8>,
    off: int,
    header: Seq<u8>,
    payload: Seq<u8>,
)
    requires
        header.len() == 10,
        0 <= off,
        off + 12 + payload.len() <= b0.len(),
        b1 == b0.subrange(0, off) + header + b0.subrange(off + 10, b0.len() as int),
        b2 == b1.subrange(0, off + 10) + payload + b1.subrange(
            off + 10 + payload.len(),
            b1.len() as int,
        ),
        b3 == b2.subrange(0, off + 10 + payload.len()) + seq![0u8, 0u8] + b2.subrange(
            off + 12 + payload.len(),
            b2.len() as int,
        ),
    ensures
        b3 == b0.subrange(0, off) + (header + payload + seq![0u8, 0u8]) + b0.subrange(
            off + 12 + payload.len(),
            b0.len() as int,
        ),
{
    let want = b0.subrange(0, off) + (header + payload + seq![0u8, 0u8]) + b0.subrange(
        off + 12 + payload.len(),
        b0.len() as int,
    );
    assert(b1.len() == b0.len());
    assert(b2.len() == b0.len());
    assert(b3.len() == b0.len());
    assert(b3 =~= want);
}

/// Copies `len` bytes of `src`, from `from` on, into `dst` at `off`. The
/// bytes around them stay.
pub fn copy_bytes(dst: &mut [u8], off: usize, src: &[u8], from: usize, len: usize)
    requires
        off + len <= old(dst)@.len(),
        from + len <= src@.len(),
    ensures
        final(dst)@ == old(dst)@.subrange(0, off as int) + src@.subrange(
            from as int,
            from + len,
        ) + old(dst)@.subrange(off + len, old(dst)@.len() as int),
{
    let dst_size: usize = dst.len();
    let src_size: usize = src.len();
    let mut i: usize = 0;
    while i < len
        invariant
            i <= len,
            dst@.len() == dst_size,
            src@.len() == src_size,
            off + len <= dst@.len(),
            from + len <= src@.len(),
            dst@.len() == old(dst)@.len(),
            dst@ == old(dst)@.subrange(0, off as int) + src@.subrange(from as int, from + i) + old(
                dst,
            )@.subrange(off + i, old(dst)@.len() as int),
        decreases len - i,
    {
        let ghost prev = dst@;
        dst[off + i] = src[from + i];
        assert(dst@ =~= old(dst)@.subrange(0, off as int) + src@.subrange(
            from as int,
            from + i + 1,
        ) + old(dst)@.subrange(off + i + 1, old(dst)@.len() as int));
        i += 1;
    }
}

/// Whole PDUs take exactly the bytes that they stand in.
pub proof fn lemma_parse_size(s: Seq<u8>)
    requires
        spec_pdus_valid(s),
    ensures
        spec_pdus_size(spec_parse_pdus(s)) == s.len(),
        forall|i: int|
            0 <= i < spec_parse_pdus(s).len() ==> (#[trigger] spec_parse_pdus(s)[i]).data.len()
                <= MAX_PDU_DATA_LENGTH,
    decreases s.len(),
{
    if s.len() > 0 {
        let t = 12 + spec_pdu_length(s) as int;
        let rest = s.skip(t);
        lemma_parse_size(rest);
        let parsed = spec_parse_pdus(s);
        assert(parsed =~= seq![spec_first_pdu(s)] + spec_parse_pdus(rest));
        assert(parsed.skip(1) =~= spec_parse_pdus(rest));
        assert(parsed[0] == spec_first_pdu(s));
        assert(spec_first_pdu(s).data.len() == spec_pdu_length(s));
        assert(s[7] % 8 < 8);
        assert forall|i: int| 0 <= i < parsed.len() implies (#[trigger] parsed[i]).data.len()
            <= MAX_PDU_DATA_LENGTH by {
            if i > 0 {
                assert(parsed[i] == spec_parse_pdus(rest)[i - 1]);
            }
        }
    } else {
        assert(spec_parse_pdus(s) =~= Seq::<PduModel>::empty());
    }
}

/// A run takes the bytes on the wire that it takes with its working
/// counters set to zero.
pub proof fn lemma_sent_size(pdus: Seq<PduModel>)
    ensures
        spec_pdus_size(spec_sent_pdus(pdus)) == spec_pdus_size(pdus),
    decreases pdus.len(),
{
    if pdus.len() > 0 {
        lemma_sent_size(pdus.skip(1));
        assert(spec_sent_pdus(pdus).skip(1) =~= spec_sent_pdus(pdus.skip(1)));
    }
}

/// The frame of a run is the frame of the run with its working counters
/// set to zero.
pub proof fn lemma_sent_frame(source: Seq<u8>, pdus: Seq<PduModel>)
    ensures
        spec_frame_bytes(source, spec_sent_pdus(pdus)) == spec_frame_bytes(source, pdus),
{
    lemma_sent_region(pdus, pdus.len());
}

/// The first PDUs of a frame do not depend on the working counters of the
/// run.
pub proof fn lemma_sent_region(pdus: Seq<PduModel>, k: nat)
    requires
        k <= pdus.len(),
    ensures
        spec_region_upto(spec_sent_pdus(pdus), k) == spec_region_upto(pdus, k),
    decreases k,
{
    if k > 0 {
        lemma_sent_region(pdus, (k - 1) as nat);
    }
}

/// Whether the bytes of `frame` are a well-formed EtherCAT frame of PDUs.
pub fn frame_well_formed(frame: &[u8]) -> (r: bool)
    ensures
        r == spec_frame_well_formed(frame@),
{
    if frame.len() < 16 {
        return false;
    }
    if frame[12] != 0x88 || frame[13] != 0xA4 {
        return false;
    }
    if frame[15] / 16 != 1 || (frame[15] / 8) % 2 != 0 {
        return false;
    }
    let len: usize = frame[14] as usize + 256 * ((frame[15] % 8) as usize);
    if frame.len() - 16 < len {
        return false;
    }
    pdus_valid(frame, 16, 16 + len)
}

/// The PDUs of a frame that came in; `None` where the frame is not a
/// well-formed EtherCAT frame of PDUs.
pub fn frame_pdus<'a>(frame: &'a [u8]) -> (r: Option<Vec<EtherCATPDU<'a>>>)
    ensures
        r is Some <==> spec_frame_well_formed(frame@),
        r matches Some(pdus) ==> spec_pdu_models(pdus@) == spec_frame_pdus(frame@),
{
    if !frame_well_formed(frame) {
        return None;
    }
    let len: usize = frame[14] as usize + 256 * ((frame[15] % 8) as usize);
    Some(parse_pdus(frame, 16, 16 + len))
}

/// What a frame under construction holds.
#[verifier::ext_equal]
pub struct FrameView {
    /// Bytes of the buffer.
    pub capacity: nat,
    /// Whether the headers were written.
    pub formed: bool,
    /// Source address of the frame.
    pub source: Seq<u8>,
    /// The PDUs added, each with a working counter of zero.
    pub pdus: Seq<PduModel>,
}

impl FrameView {
    /// Whether a PDU with the payload `data` can be added: the headers were
    /// written, the buffer has room, and the length fields of the PDU and
    /// of the frame can state what they have to.
    pub open spec fn spec_can_add(self, data: Seq<u8>) -> bool {
        &&& self.formed
        &&& 16 + spec_pdus_size(self.pdus) + 12 + data.len() <= self.capacity
        &&& spec_pdus_size(self.pdus) + 12 + data.len() <= MAX_PDU_DATA_LENGTH
    }
}

/// An EtherCAT frame that is built in a buffer: the Ethernet header, the
/// EtherCAT header, and the PDUs added so far.
pub struct EtherCATFrame<'a> {
    buffer: &'a mut [u8],
    size: usize,
    last: usize,
    source: Ghost<Seq<u8>>,
    pdus: Ghost<Seq<PduModel>>,
}

impl View for EtherCATFrame<'_> {
    type V = FrameView;

    closed spec fn view(&self) -> FrameView {
        FrameView {
            capacity: self.buffer@.len(),
            formed: self.size >= 16,
            source: self.source@,
            pdus: self.pdus@,
        }
    }
}

/// A PDU that a frame can carry: its payload fits the length field, and its
/// working counter is zero.
pub open spec fn spec_sendable(p: PduModel) -> bool {
    p.data.len() <= MAX_PDU_DATA_LENGTH && p.wkc == 0
}

/// The PDUs in front of a longer run stand in a frame as they stand in a
/// frame of their own, but for the more-follows flag of the last of them.
pub proof fn lemma_region_prefix(pdus: Seq<PduModel>, p: PduModel, k: nat)
    requires
        k <= pdus.len(),
    ensures
        k < pdus.len() ==> spec_region_upto(pdus.push(p), k) == spec_region_upto(pdus, k),
        0 < k == pdus.len() ==> spec_region_upto(pdus.push(p), k) == spec_region_upto(
            pdus,
            (k - 1) as nat,
        ) + spec_pdu_bytes(spec_sent_pdu(pdus[k - 1]), true),
    decreases k,
{
    if k > 0 {
        lemma_region_prefix(pdus, p, (k - 1) as nat);
        assert(pdus.push(p)[k - 1] == pdus[k - 1]);
    }
}

/// The bytes of a PDU with and without the more-follows flag differ in bit
/// 7 of the eighth byte alone.
pub proof fn lemma_more_flag(p: PduModel)
    requires
        p.data.len() <= MAX_PDU_DATA_LENGTH,
    ensures
        spec_pdu_bytes(p, false)[7] < 128,
        spec_pdu_bytes(p, true) == spec_pdu_bytes(p, false).update(
            7,
            (spec_pdu_bytes(p, false)[7] + 128) as u8,
        ),
{
    let a = spec_pdu_bytes(p, false);
    let b = spec_pdu_bytes(p, true);
    let h = spec_pdu_header(p.index, p.command, p.data.len(), false);
    let g = spec_pdu_header(p.index, p.command, p.data.len(), true);
    assert(a[7] == h[7]);
    assert(b[7] == g[7]);
    assert(p.data.len() / 256 < 8);
    assert(b =~= a.update(7, (a[7] + 128) as u8));
}

/// The frame of a run with one more PDU, in parts: the headers, the PDUs
/// before the last of the run, the last of the run with its more-follows
/// flag set, and the new PDU.
#[verifier::rlimit(50)]
proof fn lemma_frame_parts(source: Seq<u8>, pdus: Seq<PduModel>, p: PduModel)
    requires
        source.len() == 6,
        forall|i: int| 0 <= i < pdus.len() ==> spec_sendable(#[trigger] pdus[i]),
        spec_sendable(p),
    ensures
        spec_pdus_size(pdus.push(p)) == spec_pdus_size(pdus) + spec_pdu_size(p),
        spec_frame_region(pdus).len() == spec_pdus_size(pdus),
        spec_frame_region(pdus.push(p)).len() == spec_pdus_size(pdus.push(p)),
        pdus.len() == 0 ==> spec_frame_region(pdus.push(p)) == spec_pdu_bytes(p, false),
        pdus.len() > 0 ==> {
            let head = spec_region_upto(pdus, (pdus.len() - 1) as nat);
            &&& head.len() == spec_pdus_size(pdus.drop_last())
            &&& spec_frame_region(pdus) == head + spec_pdu_bytes(pdus.last(), false)
            &&& spec_frame_region(pdus.push(p)) == head + spec_pdu_bytes(pdus.last(), true)
                + spec_pdu_bytes(p, false)
        },
{
    let n = pdus.len();
    let longer = pdus.push(p);
    lemma_region_upto(pdus, n);
    assert(pdus.take(n as int) =~= pdus);
    lemma_region_upto(longer, n + 1);
    assert(longer.take(n as int + 1) =~= longer);
    lemma_pdus_size_split(longer, n as int);
    assert(longer.take(n as int) =~= pdus);
    assert(longer.skip(n as int) =~= seq![p]);
    assert(seq![p].skip(1) =~= Seq::<PduModel>::empty());
    assert(spec_pdus_size(seq![p]) == spec_pdu_size(p) + spec_pdus_size(seq![p].skip(1)));
    assert(spec_sent_pdu(p) == p);
    assert(spec_frame_region(longer) == spec_region_upto(longer, n) + spec_pdu_bytes(p, false));
    if n == 0 {
        assert(spec_region_upto(longer, 0) =~= Seq::<u8>::empty());
        assert(spec_frame_region(longer) =~= spec_pdu_bytes(p, false));
    } else {
        assert(spec_sent_pdu(pdus[n - 1]) == pdus[n - 1]);
        lemma_region_prefix(pdus, p, n);
        lemma_region_upto(pdus, (n - 1) as nat);
        assert(pdus.take(n - 1) =~= pdus.drop_last());
    }
}

/// What a frame's bytes become when a PDU is added: the more-follows flag
/// of the PDU before it is set, the PDU stands behind the others, and the
/// EtherCAT header states the new length.
#[verifier::rlimit(50)]
proof fn lemma_frame_extended(
    source: Seq<u8>,
    pdus: Seq<PduModel>,
    p: PduModel,
    before: Seq<u8>,
    after: Seq<u8>,
    last: int,
)
    requires
        source.len() == 6,
        forall|i: int| 0 <= i < pdus.len() ==> spec_sendable(#[trigger] pdus[i]),
        spec_sendable(p),
        spec_pdus_size(pdus) + spec_pdu_size(p) <= 2047,
        before == spec_frame_bytes(source, pdus),
        pdus.len() > 0 ==> last == 16 + spec_pdus_size(pdus.drop_last()),
        after.len() == before.len() + spec_pdu_size(p),
        forall|i: int|
            0 <= i < before.len() && i != 14 && i != 15 && !(pdus.len() > 0 && i == last + 7)
                ==> after[i] == before[i],
        pdus.len() > 0 ==> after[last + 7] == (before[last + 7] + 128) as u8,
        after[14] == ((spec_pdus_size(pdus) + spec_pdu_size(p)) % 256) as u8,
        after[15] == ((spec_pdus_size(pdus) + spec_pdu_size(p)) / 256 + 16) as u8,
        after.subrange(before.len() as int, after.len() as int) == spec_pdu_bytes(p, false),
    ensures
        after == spec_frame_bytes(source, pdus.push(p)),
        spec_pdus_size(pdus.push(p)) == spec_pdus_size(pdus) + spec_pdu_size(p),
{
    let n = pdus.len();
    let longer = pdus.push(p);
    let eth = spec_ethernet_header(source);
    let tail = spec_pdu_bytes(p, false);
    let size = spec_pdus_size(pdus);
    lemma_frame_parts(source, pdus, p);
    lemma_pdu_round_trip(p, false);
    assert(eth.len() == 14);
    let new_header = spec_ethercat_header((size + spec_pdu_size(p)) as nat);
    let old_header = spec_ethercat_header(size);
    assert(before.len() == 16 + size);
    if n == 0 {
        let want = eth + new_header + tail;
        assert(want == spec_frame_bytes(source, longer));
        assert(after.len() == want.len());
        assert forall|i: int| 0 <= i < after.len() implies after[i] == want[i] by {
            if i < 14 {
                assert(before[i] == eth[i]);
            } else if i < 16 {
            } else {
                assert(after[i] == after.subrange(before.len() as int, after.len() as int)[i
                    - 16]);
            }
        }
        assert(after =~= want);
    } else {
        let q = pdus.last();
        let head = spec_region_upto(pdus, (n - 1) as nat);
        let clear = spec_pdu_bytes(q, false);
        let set = spec_pdu_bytes(q, true);
        lemma_more_flag(q);
        lemma_pdu_round_trip(q, false);
        lemma_pdu_round_trip(q, true);
        let want = eth + new_header + (head + set + tail);
        assert(want == spec_frame_bytes(source, longer));
        assert(before == eth + old_header + (head + clear));
        assert(after.len() == want.len());
        assert(last == 16 + head.len());
        assert forall|i: int| 0 <= i < after.len() implies after[i] == want[i] by {
            if i < 14 {
                assert(before[i] == eth[i]);
            } else if i < 16 {
            } else if i < 16 + head.len() {
                assert(before[i] == head[i - 16]);
                assert(want[i] == head[i - 16]);
            } else if i < before.len() {
                let k = i - 16 - head.len();
                assert(before[i] == clear[k]);
                assert(want[i] == set[k]);
                assert(set[k] == clear.update(7, (clear[7] + 128) as u8)[k]);
            } else {
                assert(after[i] == after.subrange(before.len() as int, after.len() as int)[i
                    - before.len()]);
                assert(want[i] == tail[i - before.len()]);
            }
        }
        assert(after =~= want);
    }
}

/// In a frame with PDUs the more-follows flag of the last PDU is clear, and
/// the frame holds its PDUs behind sixteen bytes of headers.
proof fn lemma_last_flag_clear(source: Seq<u8>, pdus: Seq<PduModel>, before: Seq<u8>, last: int)
    requires
        source.len() == 6,
        forall|i: int| 0 <= i < pdus.len() ==> spec_sendable(#[trigger] pdus[i]),
        before == spec_frame_bytes(source, pdus),
        pdus.len() > 0 ==> last == 16 + spec_pdus_size(pdus.drop_last()),
    ensures
        before.len() == 16 + spec_pdus_size(pdus),
        pdus.len() > 0 ==> 16 <= last && last + 12 <= before.len() && before[last + 7] < 128,
        pdus.len() > 0 <==> before.len() > 16,
{
    lemma_region_upto(pdus, pdus.len());
    assert(pdus.take(pdus.len() as int) =~= pdus);
    assert(spec_ethernet_header(source).len() == 14);
    if pdus.len() > 0 {
        let n = pdus.len();
        let q = spec_sent_pdu(pdus.last());
        assert(q == pdus.last());
        lemma_more_flag(q);
        lemma_pdu_round_trip(q, false);
        lemma_region_upto(pdus, (n - 1) as nat);
        assert(pdus.take(n - 1) =~= pdus.drop_last());
        let head = spec_region_upto(pdus, (n - 1) as nat);
        assert(spec_frame_region(pdus) == head + spec_pdu_bytes(q, false));
        assert(before[last + 7] == spec_pdu_bytes(q, false)[7]);
    } else {
        assert(spec_pdus_size(pdus) == 0);
    }
}

/// What the writes of `add_command` make of the buffer, byte by byte.
#[verifier::rlimit(50)]
proof fn lemma_frame_writes(
    b0: Seq<u8>,
    b1: Seq<u8>,
    b2: Seq<u8>,
    b3: Seq<u8>,
    size: int,
    last: int,
    has_last: bool,
    added: Seq<u8>,
    region: int,
)
    requires
        16 <= size,
        size + added.len() <= b0.len(),
        has_last ==> 16 <= last && last + 7 < size,
        b1 == (if has_last {
            b0.update(last + 7, (b0[last + 7] + 128) as u8)
        } else {
            b0
        }),
        b2 == b1.subrange(0, size) + added + b1.subrange(size + added.len(), b1.len() as int),
        b3 == b2.update(14, (region % 256) as u8).update(15, (region / 256 + 16) as u8),
    ensures
        ({
            let before = b0.subrange(0, size);
            let after = b3.subrange(0, size + added.len());
            &&& after.len() == before.len() + added.len()
            &&& forall|i: int|
                0 <= i < before.len() && i != 14 && i != 15 && !(has_last && i == last + 7)
                    ==> after[i] == before[i]
            &&& has_last ==> after[last + 7] == (before[last + 7] + 128) as u8
            &&& after[14] == (region % 256) as u8
            &&& after[15] == (region / 256 + 16) as u8
            &&& after.subrange(before.len() as int, after.len() as int) == added
        }),
{
    let before = b0.subrange(0, size);
    let after = b3.subrange(0, size + added.len());
    assert(b1.len() == b0.len());
    assert(b2.len() == b0.len());
    assert(after.subrange(before.len() as int, after.len() as int) =~= added) by {
        assert forall|i: int| 0 <= i < added.len() implies after.subrange(
            before.len() as int,
            after.len() as int,
        )[i] == added[i] by {
            assert(b2[size + i] == added[i]);
        }
    }
    assert forall|i: int|
        0 <= i < before.len() && i != 14 && i != 15 && !(has_last && i == last + 7) implies after[i]
        == before[i] by {
        assert(b2[i] == b1.subrange(0, size)[i]);
    }
    if has_last {
        assert(b2[last + 7] == b1.subrange(0, size)[last + 7]);
    }
}

/// Whether the first `size` bytes of `buffer` are the frame of `pdus` from
/// `source`, with the last PDU at `last`.
pub open spec fn spec_frame_in(
    buffer: Seq<u8>,
    size: int,
    last: int,
    source: Seq<u8>,
    pdus: Seq<PduModel>,
) -> bool {
    &&& 16 <= size <= buffer.len()
    &&& source.len() == 6
    &&& size == 16 + spec_pdus_size(pdus)
    &&& size - 16 <= MAX_PDU_DATA_LENGTH
    &&& forall|i: int| 0 <= i < pdus.len() ==> spec_sendable(#[trigger] pdus[i])
    &&& pdus.len() > 0 ==> last == 16 + spec_pdus_size(pdus.drop_last())
    &&& buffer.subrange(0, size) == spec_frame_bytes(source, pdus)
}

/// Writes the headers of a frame from `source` to everyone, without PDUs,
/// to the front of `buffer`.
pub fn write_frame_headers(buffer: &mut [u8], source: [u8; 6])
    requires
        old(buffer)@.len() >= 16,
    ensures
        final(buffer)@.len() == old(buffer)@.len(),
        spec_frame_in(final(buffer)@, 16, 0, source@, Seq::empty()),
{
    let header: [u8; 16] = [
        0xFF,
        0xFF,
        0xFF,
        0xFF,
        0xFF,
        0xFF,
        source[0],
        source[1],
        source[2],
        source[3],
        source[4],
        source[5],
        0x88,
        0xA4,
        0,
        0x10,
    ];
    copy_bytes(buffer, 0, header.as_slice(), 0, 16);
    proof {
        let empty = Seq::<PduModel>::empty();
        assert(spec_frame_region(empty) =~= Seq::<u8>::empty());
        assert(header@.subrange(0, 16) =~= header@);
        assert(header@ =~= spec_frame_bytes(source@, empty));
        assert(buffer@.subrange(0, 16) =~= header@);
        assert(spec_pdus_size(empty) == 0);
    }
}

/// Puts one more PDU, with a working counter of zero, behind the frame at
/// the front of `buffer`: the more-follows flag of the PDU before it is set,
/// and the EtherCAT header states the new length.
#[verifier::rlimit(50)]
pub(crate) fn append_pdu(
    buffer: &mut [u8],
    size: usize,
    last: usize,
    index: u8,
    command: Command,
    data: &[u8],
    Ghost(source): Ghost<Seq<u8>>,
    Ghost(pdus): Ghost<Seq<PduModel>>,
)
    requires
        spec_frame_in(old(buffer)@, size as int, last as int, source, pdus),
        size + 12 + data@.len() <= old(buffer)@.len(),
        size - 16 + 12 + data@.len() <= MAX_PDU_DATA_LENGTH,
    ensures
        final(buffer)@.len() == old(buffer)@.len(),
        spec_frame_in(
            final(buffer)@,
            size + 12 + data@.len(),
            size as int,
            source,
            pdus.push(PduModel { index, command, data: data@, wkc: 0 }),
        ),
        final(buffer)@.subrange(0, size + 12 + data@.len()) == spec_frame_bytes(
            source,
            pdus.push(PduModel { index, command, data: data@, wkc: 0 }),
        ),
        spec_pdus_size(pdus.push(PduModel { index, command, data: data@, wkc: 0 }))
            == spec_pdus_size(pdus) + 12 + data@.len(),
{
    let len = data.len();
    let region = size - 16 + 12 + len;
    let ghost p = PduModel { index, command, data: data@, wkc: 0 };
    let ghost b0 = buffer@;
    proof {
        lemma_last_flag_clear(source, pdus, b0.subrange(0, size as int), last as int);
    }
    if size > 16 {
        let flagged = buffer[last + 7] + 128;
        buffer[last + 7] = flagged;
    }
    let ghost b1 = buffer@;
    write_pdu(buffer, size, index, command, len, data, false);
    let ghost b2 = buffer@;
    buffer[14] = (region % 256) as u8;
    buffer[15] = (region / 256) as u8 + 16;
    proof {
        assert(spec_payload(data@, len as nat) =~= data@);
        lemma_appended(b0, b1, b2, buffer@, size as int, last as int, source, pdus, p);
    }
}

/// The writes of `append_pdu` turn the frame of a run into the frame of the
/// run with one more PDU.
#[verifier::rlimit(50)]
proof fn lemma_appended(
    b0: Seq<u8>,
    b1: Seq<u8>,
    b2: Seq<u8>,
    b3: Seq<u8>,
    size: int,
    last: int,
    source: Seq<u8>,
    pdus: Seq<PduModel>,
    p: PduModel,
)
    requires
        spec_frame_in(b0, size, last, source, pdus),
        spec_sendable(p),
        size + spec_pdu_size(p) <= b0.len(),
        size - 16 + spec_pdu_size(p) <= MAX_PDU_DATA_LENGTH,
        b1 == (if pdus.len() > 0 {
            b0.update(last + 7, (b0[last + 7] + 128) as u8)
        } else {
            b0
        }),
        b2 == b1.subrange(0, size) + spec_pdu_bytes(p, false) + b1.subrange(
            size + 12 + p.data.len(),
            b1.len() as int,
        ),
        b3 == b2.update(14, ((size - 16 + spec_pdu_size(p)) % 256) as u8).update(
            15,
            ((size - 16 + spec_pdu_size(p)) / 256 + 16) as u8,
        ),
    ensures
        b3.len() == b0.len(),
        spec_frame_in(b3, size + spec_pdu_size(p), size, source, pdus.push(p)),
        b3.subrange(0, size + spec_pdu_size(p)) == spec_frame_bytes(source, pdus.push(p)),
        spec_pdus_size(pdus.push(p)) == spec_pdus_size(pdus) + spec_pdu_size(p),
{
    let longer = pdus.push(p);
    let added = spec_pdu_bytes(p, false);
    lemma_pdu_round_trip(p, false);
    lemma_last_flag_clear(source, pdus, b0.subrange(0, size), last);
    lemma_frame_writes(
        b0,
        b1,
        b2,
        b3,
        size,
        last,
        pdus.len() > 0,
        added,
        size - 16 + spec_pdu_size(p),
    );
    lemma_frame_extended(
        source,
        pdus,
        p,
        b0.subrange(0, size),
        b3.subrange(0, size + spec_pdu_size(p)),
        last,
    );
    assert(longer.drop_last() =~= pdus);
    assert forall|i: int| 0 <= i < longer.len() implies spec_sendable(#[trigger] longer[i]) by {
        if i < pdus.len() {
            assert(longer[i] == pdus[i]);
        }
    }
}

impl<'a> EtherCATFrame<'a> {
    /// What holds of every frame between two calls.
    pub closed spec fn wf(&self) -> bool {
        self.size == 0 || spec_frame_in(
            self.buffer@,
            self.size as int,
            self.last as int,
            self.source@,
            self.pdus@,
        )
    }

    /// A frame over `buffer`, whatever it holds. Nothing is written before
    /// `init`.
    pub fn new_unchecked(buffer: &'a mut [u8]) -> (r: Self)
        ensures
            r.wf(),
            r@ == (FrameView {
                capacity: old(buffer)@.len(),
                formed: false,
                source: Seq::empty(),
                pdus: Seq::empty(),
            }),
    {
        EtherCATFrame {
            buffer,
            size: 0,
            last: 0,
            source: Ghost(Seq::empty()),
            pdus: Ghost(Seq::empty()),
        }
    }

    /// Writes the headers of a frame from `source` to everyone, without
    /// PDUs. Gives `false`, and changes nothing, where the buffer is too
    /// short for them.
    pub fn init(&mut self, source: [u8; 6]) -> (r: bool)
        ensures
            final(self).wf(),
            r == (old(self)@.capacity >= 16),
            r ==> final(self)@ == (FrameView {
                capacity: old(self)@.capacity,
                formed: true,
                source: source@,
                pdus: Seq::empty(),
            }),
            !r ==> final(self)@ == (FrameView {
                formed: false,
                source: Seq::empty(),
                pdus: Seq::empty(),
                ..old(self)@
            }),
    {
        self.size = 0;
        self.last = 0;
        self.source = Ghost(Seq::empty());
        self.pdus = Ghost(Seq::empty());
        if self.buffer.len() < 16 {
            return false;
        }
        write_frame_headers(self.buffer, source);
        self.size = 16;
        self.source = Ghost(source@);
        true
    }

    /// Bytes of the frame so far; zero before `init`.
    pub fn len(&self) -> (r: usize)
        requires
            self.wf(),
        ensures
            self@.formed ==> r == 16 + spec_pdus_size(self@.pdus),
            !self@.formed ==> r == 0,
    {
        self.size
    }

    /// Adds a PDU behind those of the frame: of the command `command` with
    /// the addresses `adp` and `ado`, with the payload `data`, the index
    /// `index`, or zero where none is given, and a working counter of zero.
    /// Gives `false`, and changes nothing, where the PDU cannot be added.
    #[verifier::rlimit(50)]
    pub fn add_command(
        &mut self,
        command: CommandType,
        adp: u16,
        ado: u16,
        data: &[u8],
        index: Option<u8>,
    ) -> (r: bool)
        requires
            old(self).wf(),
        ensures
            final(self).wf(),
            r == old(self)@.spec_can_add(data@),
            r ==> final(self)@ == (FrameView {
                pdus: old(self)@.pdus.push(
                    PduModel {
                        index: match index {
                            Some(i) => i,
                            None => 0,
                        },
                        command: Command { c_type: command, adp, ado },
                        data: data@,
                        wkc: 0,
                    },
                ),
                ..old(self)@
            }),
            !r ==> final(self)@ == old(self)@,
    {
        let len = data.len();
        if self.size < 16 || len > MAX_PDU_DATA_LENGTH {
            return false;
        }
        if self.buffer.len() - self.size < 12 || self.buffer.len() - self.size - 12 < len {
            return false;
        }
        let region = self.size - 16 + 12 + len;
        if region > MAX_PDU_DATA_LENGTH {
            return false;
        }
        let index: u8 = match index {
            Some(i) => i,
            None => 0,
        };
        let ghost p = PduModel {
            index,
            command: Command { c_type: command, adp, ado },
            data: data@,
            wkc: 0,
        };
        let ghost pdus = self.pdus@;
        append_pdu(
            self.buffer,
            self.size,
            self.last,
            index,
            Command::new(command, adp, ado),
            data,
            Ghost(self.source@),
            Ghost(pdus),
        );
        self.last = self.size;
        self.size = self.size + 12 + len;
        self.pdus = Ghost(pdus.push(p));
        proof {
            assert(pdus.push(p).drop_last() =~= pdus);
            assert forall|i: int| 0 <= i < pdus.push(p).len() implies spec_sendable(
                #[trigger] pdus.push(p)[i],
            ) by {
                if i < pdus.len() {
                    assert(pdus.push(p)[i] == pdus[i]);
                }
            }
        }
        true
    }

    /// The frame so far: the headers and the PDUs added.
    pub fn as_bytes(&self) -> (r: &[u8])
        requires
            self.wf(),
        ensures
            self@.formed ==> r@ == spec_frame_bytes(self@.source, self@.pdus),
            !self@.formed ==> r@.len() == 0,
    {
        vstd::slice::slice_subrange(&*self.buffer, 0, self.size)
    }

    /// The PDUs of the frame, in the order in which they were added.
    pub fn iter_pdu(&self) -> (r: Vec<EtherCATPDU<'_>>)
        requires
            self.wf(),
        ensures
            self@.formed ==> spec_pdu_models(r@) == self@.pdus,
            !self@.formed ==> r@.len() == 0,
    {
        if self.size < 16 {
            return Vec::new();
        }
        proof {
            let pdus = self.pdus@;
            let frame = spec_frame_bytes(self.source@, pdus);
            lemma_region_upto(pdus, pdus.len());
            assert(pdus.take(pdus.len() as int) =~= pdus);
            assert(self.buffer@.subrange(16, self.size as int) =~= spec_frame_region(pdus)) by {
                assert forall|i: int| 0 <= i < self.size - 16 implies self.buffer@.subrange(
                    16,
                    self.size as int,
                )[i] == spec_frame_region(pdus)[i] by {
                    assert(self.buffer@.subrange(0, self.size as int)[16 + i] == frame[16 + i]);
                }
            }
            assert(spec_sent_pdus(pdus) =~= pdus);
        }
        parse_pdus(&*self.buffer, 16, self.size)
    }

    /// Ends the construction and hands the buffer back: the frame stands at
    /// its front.
    pub fn into_buffer(self) -> (r: &'a mut [u8])
        requires
            self.wf(),
        ensures
            r@.len() == self@.capacity,
            self@.formed ==> r@.subrange(0, 16 + spec_pdus_size(self@.pdus) as int) == spec_frame_bytes(
                self@.source,
                self@.pdus,
            ),
    {
        self.buffer
    }
}

} // verus!
