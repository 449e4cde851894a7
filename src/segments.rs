//! Payloads of the JPEG marker segments: JFIF APP0, SOF0, SOS, DHT and DQT.
use vstd::prelude::*;
use crate::tables::{unzigzag, unzigzag_order};
use crate::huffman::sum_counts;

verus! {

/// A component of the frame: identifier, sampling factors, and the
/// quantization and Huffman table selectors.
#[derive(Clone, Copy)]
pub struct Component {
    /// The component's identifier
    pub id: u8,
    /// Horizontal sampling factor
    pub h: u8,
    /// Vertical sampling factor
    pub v: u8,
    /// The quantization table selector
    pub tq: u8,
    /// Index to the DC Huffman table
    pub dc_table: u8,
    /// Index to the AC Huffman table
    pub ac_table: u8,
}

/// High byte of a 16-bit value.
pub open spec fn hi(v: u16) -> u8 {
    (v / 256) as u8
}

/// Low byte of a 16-bit value.
pub open spec fn lo(v: u16) -> u8 {
    (v % 256) as u8
}

/// The JFIF APP0 payload: "JFIF\0", version 1.2, no units, density 1x1, no thumbnail.
pub open spec fn jfif_payload() -> Seq<u8> {
    seq![0x4Au8, 0x46, 0x49, 0x46, 0x00, 0x01, 0x02, 0x00, 0x00, 0x01, 0x00, 0x01, 0x00, 0x00]
}

/// Frame header entries of the components.
pub open spec fn frame_components(cs: Seq<Component>) -> Seq<u8>
    decreases cs.len(),
{
    if cs.len() == 0 {
        Seq::empty()
    } else {
        frame_components(cs.drop_last()) + seq![
            cs.last().id,
            ((cs.last().h as int * 16 + cs.last().v as int) % 256) as u8,
            cs.last().tq,
        ]
    }
}

/// Scan header entries of the components.
pub open spec fn scan_components(cs: Seq<Component>) -> Seq<u8>
    decreases cs.len(),
{
    if cs.len() == 0 {
        Seq::empty()
    } else {
        scan_components(cs.drop_last()) + seq![
            cs.last().id,
            ((cs.last().dc_table as int * 16 + cs.last().ac_table as int) % 256) as u8,
        ]
    }
}

/// The SOF0 payload.
pub open spec fn frame_payload(precision: u8, width: u16, height: u16, cs: Seq<Component>) -> Seq<u8> {
    seq![precision, hi(height), lo(height), hi(width), lo(width), cs.len() as u8] + frame_components(cs)
}

/// The SOS payload: components, then spectral selection 0..63 and no approximation.
pub open spec fn scan_payload(cs: Seq<Component>) -> Seq<u8> {
    seq![cs.len() as u8] + scan_components(cs) + seq![0u8, 63u8, 0u8]
}

/// The DHT payload: class and destination, the 16 counts, then the values.
pub open spec fn huffman_payload(class: u8, destination: u8, counts: Seq<u8>, values: Seq<u8>) -> Seq<u8> {
    seq![(class as int * 16 + destination as int) as u8] + counts + values
}

/// The DQT payload of an 8-bit table: its identifier, then the entries in zig-zag order.
pub open spec fn quantization_payload(identifier: u8, qtable: Seq<u8>) -> Seq<u8> {
    seq![identifier] + Seq::new(64, |i: int| qtable[unzigzag_order()[i] as int])
}

fn push_u16_be(m: &mut Vec<u8>, v: u16)
    ensures
        final(m)@ == old(m)@ + seq![hi(v), lo(v)],
{
    m.push((v / 256) as u8);
    m.push((v % 256) as u8);
    proof {
        assert(m@ =~= old(m)@ + seq![hi(v), lo(v)]);
    }
}

pub(crate) fn build_jfif_header(m: &mut Vec<u8>)
    ensures
        final(m)@ == jfif_payload(),
{
    m.clear();
    m.push(0x4A);
    m.push(0x46);
    m.push(0x49);
    m.push(0x46);
    m.push(0);
    m.push(0x01);
    m.push(0x02);
    m.push(0);
    push_u16_be(m, 1);
    push_u16_be(m, 1);
    m.push(0);
    m.push(0);
    proof {
        assert(m@ =~= jfif_payload());
    }
}

pub(crate) fn build_frame_header(
    m: &mut Vec<u8>,
    precision: u8,
    width: u16,
    height: u16,
    components: &[Component],
    count: usize,
)
    requires
        count <= components@.len(),
        count <= 255,
    ensures
        final(m)@ == frame_payload(precision, width, height, components@.take(count as int)),
        final(m)@.len() == 6 + 3 * count,
{
    m.clear();
    m.push(precision);
    push_u16_be(m, height);
    push_u16_be(m, width);
    m.push(count as u8);
    let ghost head = m@;
    proof {
        assert(head =~= seq![precision, hi(height), lo(height), hi(width), lo(width), count as u8]);
    }
    let mut i: usize = 0;
    while i < count
        invariant
            i <= count,
            count <= components@.len(),
            m@ == head + frame_components(components@.take(i as int)),
            head.len() == 6,
            m@.len() == 6 + 3 * i,
        decreases count - i,
    {
        let comp = components[i];
        let hv: u8 = ((comp.h as u32 * 16 + comp.v as u32) % 256) as u8;
        m.push(comp.id);
        m.push(hv);
        m.push(comp.tq);
        proof {
            let t = components@.take(i + 1);
            assert(t.drop_last() =~= components@.take(i as int));
            assert(t.last() == comp);
            assert(frame_components(t) == frame_components(t.drop_last()) + seq![
                comp.id,
                ((comp.h as int * 16 + comp.v as int) % 256) as u8,
                comp.tq,
            ]);
            assert(m@ =~= head + frame_components(t));
        }
        i += 1;
    }
}

pub(crate) fn build_scan_header(m: &mut Vec<u8>, components: &[Component], count: usize)
    requires
        count <= components@.len(),
        count <= 255,
    ensures
        final(m)@ == scan_payload(components@.take(count as int)),
        final(m)@.len() == 4 + 2 * count,
{
    m.clear();
    m.push(count as u8);
    let ghost head = m@;
    let mut i: usize = 0;
    while i < count
        invariant
            i <= count,
            count <= components@.len(),
            count <= 255,
            head == seq![count as u8],
            m@ == head + scan_components(components@.take(i as int)),
            m@.len() == 1 + 2 * i,
        decreases count - i,
    {
        let comp = components[i];
        let tables: u8 = ((comp.dc_table as u32 * 16 + comp.ac_table as u32) % 256) as u8;
        m.push(comp.id);
        m.push(tables);
        proof {
            let t = components@.take(i + 1);
            assert(t.drop_last() =~= components@.take(i as int));
            assert(t.last() == comp);
            assert(scan_components(t) == scan_components(t.drop_last()) + seq![
                comp.id,
                ((comp.dc_table as int * 16 + comp.ac_table as int) % 256) as u8,
            ]);
            assert(m@ =~= head + scan_components(t));
        }
        i += 1;
    }
    m.push(0);
    m.push(63);
    m.push(0);
    proof {
        assert(components@.take(count as int).len() == count);
        assert(m@ =~= scan_payload(components@.take(count as int)));
    }
}

pub(crate) fn build_huffman_segment(
    m: &mut Vec<u8>,
    class: u8,
    destination: u8,
    numcodes: &[u8],
    values: &[u8],
)
    requires
        numcodes@.len() == 16,
        sum_counts(numcodes@) == values@.len(),
        class < 16,
        destination < 16,
    ensures
        final(m)@ == huffman_payload(class, destination, numcodes@, values@),
{
    m.clear();
    m.push(class * 16 + destination);
    let mut i: usize = 0;
    while i < numcodes.len()
        invariant
            i <= numcodes@.len(),
            m@ == seq![(class as int * 16 + destination as int) as u8] + numcodes@.take(i as int),
        decreases numcodes@.len() - i,
    {
        m.push(numcodes[i]);
        i += 1;
        proof {
            assert(numcodes@.take(i as int) =~= numcodes@.take(i - 1).push(numcodes@[i - 1]));
        }
    }
    let ghost head = m@;
    let mut j: usize = 0;
    while j < values.len()
        invariant
            j <= values@.len(),
            m@ == head + values@.take(j as int),
        decreases values@.len() - j,
    {
        m.push(values[j]);
        j += 1;
        proof {
            assert(values@.take(j as int) =~= values@.take(j - 1).push(values@[j - 1]));
        }
    }
    proof {
        assert(numcodes@.take(16) =~= numcodes@);
        assert(values@.take(values@.len() as int) =~= values@);
        assert(m@ =~= huffman_payload(class, destination, numcodes@, values@));
    }
}

pub(crate) fn build_quantization_segment(
    m: &mut Vec<u8>,
    identifier: u8,
    tables: &[u8],
    offset: usize,
)
    requires
        offset + 64 <= tables@.len(),
    ensures
        final(m)@ == quantization_payload(identifier, tables@.subrange(offset as int, offset + 64)),
{
    let ghost qtable = tables@.subrange(offset as int, offset + 64);
    m.clear();
    m.push(identifier);
    let zz = unzigzag();
    let tl = tables.len();
    let mut i: usize = 0;
    while i < 64
        invariant
            i <= 64,
            zz@ == unzigzag_order(),
            tl == tables@.len(),
            offset + 64 <= tables@.len(),
            qtable == tables@.subrange(offset as int, offset + 64),
            m@.len() == i + 1,
            m@[0] == identifier,
            forall|j: int| 0 <= j < i ==> #[trigger] m@[j + 1] == qtable[unzigzag_order()[j] as int],
        decreases 64 - i,
    {
        proof {
            crate::tables::lemma_unzigzag_range(i as int);
        }
        let pos = zz[i] as usize;
        assert(pos < 64);
        m.push(tables[offset + pos]);
        i += 1;
    }
    proof {
        let p = quantization_payload(identifier, qtable);
        assert forall|j: int| 0 <= j < 65 implies #[trigger] m@[j] == p[j] by {
            if j > 0 {
                assert(m@[(j - 1) + 1] == qtable[unzigzag_order()[j - 1] as int]);
            }
        };
        assert(m@ =~= p);
    }
}

} // verus!

verus! {

pub proof fn lemma_frame_len(cs: Seq<Component>)
    ensures
        frame_components(cs).len() == 3 * cs.len(),
    decreases cs.len(),
{
    if cs.len() > 0 {
        lemma_frame_len(cs.drop_last());
    }
}

pub proof fn lemma_scan_len(cs: Seq<Component>)
    ensures
        scan_components(cs).len() == 2 * cs.len(),
    decreases cs.len(),
{
    if cs.len() > 0 {
        lemma_scan_len(cs.drop_last());
    }
}

} // verus!
