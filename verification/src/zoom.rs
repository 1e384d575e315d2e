//! Zoom ranges and zoom sets (a 32-bit word with bit `31 - z` set for zoom `z`).
use crate::tile::bit_of;
use vstd::prelude::*;

verus! {

/// An inclusive range of zooms.
#[derive(Debug, Clone, Copy, PartialEq, Eq, Structural)]
pub struct ZoomRange {
    pub minz: u8,
    pub maxz: u8,
}

impl Default for ZoomRange {
    /// Zooms 0 to 32.
    fn default() -> (r: Self)
        ensures
            r == (ZoomRange { minz: 0, maxz: 32 }),
    {
        Self { minz: 0, maxz: 32 }
    }
}

impl ZoomRange {
    /// The zooms `min` to `max`.
    pub fn new(min: u8, max: u8) -> (r: Self)
        ensures
            r == (ZoomRange { minz: min, maxz: max }),
    {
        Self { minz: min, maxz: max }
    }

    /// The zooms 0 to `max`.
    pub fn from_max(max: u8) -> (r: Self)
        ensures
            r == (ZoomRange { minz: 0, maxz: max }),
    {
        Self { minz: 0, maxz: max }
    }

    /// The zooms `min` to 32.
    pub fn from_min(min: u8) -> (r: Self)
        ensures
            r == (ZoomRange { minz: min, maxz: 32 }),
    {
        Self { minz: min, maxz: 32 }
    }
}

/// Zoom `z` is in the zoom set `zset`.
pub open spec fn zset_has(zset: u32, z: nat) -> bool {
    z < 32 && bit_of(zset, (31 - z) as u32) == 1
}

/// The zooms below `n` that `zset` holds, in increasing order.
pub open spec fn zset_zooms(zset: u32, n: nat) -> Seq<u8>
    decreases n,
{
    if n == 0 {
        Seq::empty()
    } else if zset_has(zset, (n - 1) as nat) {
        zset_zooms(zset, (n - 1) as nat).push((n - 1) as u8)
    } else {
        zset_zooms(zset, (n - 1) as nat)
    }
}

/// The word of a zoom: bit `31 - z`.
pub open spec fn zoom_bit(z: u8) -> u32 {
    1u32 << ((31 - z) as u32)
}

/// The zoom set that holds exactly the zooms listed in `zvec`.
pub open spec fn zvec_set(zvec: Seq<u8>) -> u32
    decreases zvec.len(),
{
    if zvec.len() == 0 {
        0
    } else {
        zvec_set(zvec.drop_last()) | zoom_bit(zvec.last())
    }
}

/// The zooms of a zoom set, in increasing order.
pub fn zset2zvec(zset: u32) -> (r: Vec<u8>)
    ensures
        r@ == zset_zooms(zset, 32),
{
    let mut r: Vec<u8> = Vec::new();
    let mut z: u8 = 0;
    while z < 32
        invariant
            z <= 32,
            r@ == zset_zooms(zset, z as nat),
        decreases 32 - z,
    {
        let i: u32 = (31 - z) as u32;
        let mask: u32 = 1u32 << i;
        assert(((zset & mask) != 0) == (bit_of(zset, i) == 1)) by (bit_vector)
            requires
                i < 32,
                mask == 1u32 << i,
        ;
        if (zset & mask) != 0 {
            r.push(z);
        }
        z = z + 1;
    }
    r
}

/// The zoom set of a list of zooms (each at most 31).
pub fn zvec2zset(zvec: Vec<u8>) -> (r: u32)
    requires
        forall|k: int| 0 <= k < zvec@.len() ==> #[trigger] zvec@[k] <= 31,
    ensures
        r == zvec_set(zvec@),
{
    let mut acc: u32 = 0;
    let mut i: usize = 0;
    while i < zvec.len()
        invariant
            i <= zvec.len(),
            forall|k: int| 0 <= k < zvec@.len() ==> #[trigger] zvec@[k] <= 31,
            acc == zvec_set(zvec@.take(i as int)),
        decreases zvec.len() - i,
    {
        let z = zvec[i];
        proof {
            assert(zvec@.take(i + 1).drop_last() =~= zvec@.take(i as int));
        }
        acc = acc | (1u32 << (31 - z));
        i = i + 1;
    }
    proof {
        assert(zvec@.take(zvec@.len() as int) =~= zvec@);
    }
    acc
}

/// The top `n` bits of a 32-bit word (`n <= 32`).
pub open spec fn top_bits(n: nat) -> u32 {
    ((0xFFFF_FFFFu64 << ((32 - n) as u64)) & 0xFFFF_FFFFu64) as u32
}

proof fn lemma_zset_zooms_prefix(zset: u32, n: nat)
    requires
        n <= 32,
    ensures
        zvec_set(zset_zooms(zset, n)) == zset & top_bits(n),
        forall|k: int| 0 <= k < zset_zooms(zset, n).len() ==> #[trigger] zset_zooms(zset, n)[k] < n,
    decreases n,
{
    if n == 0 {
        assert(zset & (((0xFFFF_FFFFu64 << 32u64) & 0xFFFF_FFFFu64) as u32) == 0) by (bit_vector);
    } else {
        let m = (n - 1) as nat;
        lemma_zset_zooms_prefix(zset, m);
        let b = (32 - n) as u64;
        let a = (33 - n) as u64;
        let i = (31 - m) as u32;
        let tm: u32 = top_bits(m);
        let tn: u32 = top_bits(n);
        assert(a == (32 - m) as u64);
        assert(b == (32 - n) as u64);
        assert(tm == ((0xFFFF_FFFFu64 << a) & 0xFFFF_FFFFu64) as u32);
        assert(tn == ((0xFFFF_FFFFu64 << b) & 0xFFFF_FFFFu64) as u32);
        let prev = zset_zooms(zset, m);
        assert((zset >> i) & 1 <= 1) by (bit_vector);
        if zset_has(zset, m) {
            assert(zset_zooms(zset, n).drop_last() =~= prev);
            assert(zoom_bit(m as u8) == 1u32 << i);
            assert((zset & tm) | (1u32 << i) == zset & tn) by (bit_vector)
                requires
                    b <= 31,
                    a == b + 1,
                    i as u64 == b,
                    (zset >> i) & 1 == 1,
                    tm == ((0xFFFF_FFFFu64 << a) & 0xFFFF_FFFFu64) as u32,
                    tn == ((0xFFFF_FFFFu64 << b) & 0xFFFF_FFFFu64) as u32,
            ;
        } else {
            assert(zset & tm == zset & tn) by (bit_vector)
                requires
                    b <= 31,
                    a == b + 1,
                    i as u64 == b,
                    (zset >> i) & 1 == 0,
                    tm == ((0xFFFF_FFFFu64 << a) & 0xFFFF_FFFFu64) as u32,
                    tn == ((0xFFFF_FFFFu64 << b) & 0xFFFF_FFFFu64) as u32,
            ;
        }
    }
}

/// Turning a zoom set into its list of zooms and back gives the zoom set.
pub proof fn lemma_zset_roundtrip(zset: u32)
    ensures
        forall|k: int| 0 <= k < zset_zooms(zset, 32).len() ==> #[trigger] zset_zooms(zset, 32)[k] <= 31,
        zvec_set(zset_zooms(zset, 32)) == zset,
{
    lemma_zset_zooms_prefix(zset, 32);
    assert(zset & (((0xFFFF_FFFFu64 << 0u64) & 0xFFFF_FFFFu64) as u32) == zset) by (bit_vector);
}

/// The zoom set of a list of zooms holds exactly the listed zooms.
pub proof fn lemma_zvec_set_members(zvec: Seq<u8>, z: nat)
    requires
        forall|k: int| 0 <= k < zvec.len() ==> #[trigger] zvec[k] <= 31,
        z < 32,
    ensures
        zset_has(zvec_set(zvec), z) <==> zvec.contains(z as u8),
    decreases zvec.len(),
{
    if zvec.len() == 0 {
        let i: u32 = (31 - z) as u32;
        assert((0u32 >> i) & 1 == 0) by (bit_vector);
    } else {
        let init = zvec.drop_last();
        let last = zvec.last();
        assert forall|k: int| 0 <= k < init.len() implies #[trigger] init[k] <= 31 by {
            assert(init[k] == zvec[k]);
        }
        lemma_zvec_set_members(init, z);
        let a = zvec_set(init);
        let i: u32 = (31 - z) as u32;
        let j: u32 = (31 - last) as u32;
        assert(((a | (1u32 << j)) >> i) & 1 == (if i == j { 1u32 } else { (a >> i) & 1 }))
            by (bit_vector)
            requires
                i < 32,
                j < 32,
        ;
        assert(zvec.contains(z as u8) <==> (init.contains(z as u8) || last == z)) by {
            if zvec.contains(z as u8) {
                let k = choose|k: int| 0 <= k < zvec.len() && zvec[k] == z as u8;
                if k < init.len() {
                    assert(init[k] == zvec[k]);
                }
            }
            if init.contains(z as u8) {
                let k = choose|k: int| 0 <= k < init.len() && init[k] == z as u8;
                assert(zvec[k] == init[k]);
            }
            if last == z {
                assert(zvec[zvec.len() - 1] == last);
            }
        }
    }
}

/// The zooms below `n` of a zoom set come in strictly increasing order,
/// each below `n`, and are exactly the zooms below `n` that the set holds.
proof fn lemma_zset_zooms_members(zset: u32, n: nat)
    requires
        n <= 32,
    ensures
        forall|i: int, j: int|
            0 <= i < j < zset_zooms(zset, n).len() ==> zset_zooms(zset, n)[i] < zset_zooms(zset, n)[j],
        forall|k: int| 0 <= k < zset_zooms(zset, n).len() ==> #[trigger] zset_zooms(zset, n)[k] < n,
        forall|z: nat| z < n ==> (zset_zooms(zset, n).contains(z as u8) <==> #[trigger] zset_has(zset, z)),
        forall|z: u8| #[trigger] zset_zooms(zset, n).contains(z) ==> z < n,
    decreases n,
{
    if n > 0 {
        let m = (n - 1) as nat;
        lemma_zset_zooms_members(zset, m);
        let prev = zset_zooms(zset, m);
        let cur = zset_zooms(zset, n);
        if zset_has(zset, m) {
            assert(cur == prev.push(m as u8));
            assert forall|z: nat| z < n implies (cur.contains(z as u8) <==> #[trigger] zset_has(zset, z)) by {
                if z < m {
                    if cur.contains(z as u8) {
                        let k = choose|k: int| 0 <= k < cur.len() && cur[k] == z as u8;
                        if k < prev.len() {
                            assert(prev[k] == cur[k]);
                        }
                    }
                    if prev.contains(z as u8) {
                        let k = choose|k: int| 0 <= k < prev.len() && prev[k] == z as u8;
                        assert(cur[k] == prev[k]);
                    }
                } else {
                    assert(cur[cur.len() - 1] == m as u8);
                }
            }
            assert forall|z: u8| #[trigger] cur.contains(z) implies z < n by {
                let k = choose|k: int| 0 <= k < cur.len() && cur[k] == z;
                if k < prev.len() {
                    assert(prev[k] == cur[k]);
                    assert(prev.contains(z));
                }
            }
            assert forall|k: int| 0 <= k < cur.len() implies #[trigger] cur[k] < n by {
                if k < prev.len() {
                    assert(prev[k] == cur[k]);
                }
            }
        } else {
            assert(cur == prev);
            assert forall|z: nat| z < n implies (cur.contains(z as u8) <==> #[trigger] zset_has(zset, z)) by {
                if z == m {
                    if cur.contains(z as u8) {
                        let k = choose|k: int| 0 <= k < cur.len() && cur[k] == z as u8;
                        assert(prev[k] < m);
                    }
                }
            }
        }
    }
}

/// Turning a list of zooms into a zoom set and back gives the listed zooms
/// in strictly increasing order, each once.
pub proof fn lemma_zvec_roundtrip(zvec: Seq<u8>)
    requires
        forall|k: int| 0 <= k < zvec.len() ==> #[trigger] zvec[k] <= 31,
    ensures
        forall|i: int, j: int|
            0 <= i < j < zset_zooms(zvec_set(zvec), 32).len() ==> zset_zooms(zvec_set(zvec), 32)[i]
                < zset_zooms(zvec_set(zvec), 32)[j],
        forall|z: u8| #[trigger] zset_zooms(zvec_set(zvec), 32).contains(z) <==> zvec.contains(z),
{
    let r = zset_zooms(zvec_set(zvec), 32);
    lemma_zset_zooms_members(zvec_set(zvec), 32);
    assert forall|z: u8| #[trigger] r.contains(z) <==> zvec.contains(z) by {
        if z < 32 {
            lemma_zvec_set_members(zvec, z as nat);
            assert(zset_has(zvec_set(zvec), z as nat) == r.contains((z as nat) as u8));
        } else {
            if zvec.contains(z) {
                let k = choose|k: int| 0 <= k < zvec.len() && zvec[k] == z;
            }
        }
    }
}

/// One zoom, or a list of zooms.
pub enum ZoomOrZooms {
    Zoom(u8),
    Zooms(Vec<u8>),
}

/// A list of zooms or a single zoom, as the Python functions take them.
pub enum ZoomsOrInt {
    Zooms(Vec<u8>),
    Int(u8),
}

impl From<ZoomsOrInt> for ZoomOrZooms {
    fn from(val: ZoomsOrInt) -> (r: ZoomOrZooms) {
        match val {
            ZoomsOrInt::Zooms(zs) => ZoomOrZooms::Zooms(zs),
            ZoomsOrInt::Int(z) => ZoomOrZooms::Zoom(z),
        }
    }
}

impl vstd::std_specs::convert::FromSpecImpl<ZoomsOrInt> for ZoomOrZooms {
    open spec fn obeys_from_spec() -> bool {
        true
    }

    open spec fn from_spec(val: ZoomsOrInt) -> ZoomOrZooms {
        match val {
            ZoomsOrInt::Zooms(zs) => ZoomOrZooms::Zooms(zs),
            ZoomsOrInt::Int(z) => ZoomOrZooms::Zoom(z),
        }
    }
}

/// A set of zooms, one bit per zoom.
pub struct ZoomsSet(pub u32);

impl From<u8> for ZoomOrZooms {
    fn from(zoom: u8) -> (r: Self) {
        ZoomOrZooms::Zoom(zoom)
    }
}

impl vstd::std_specs::convert::FromSpecImpl<u8> for ZoomOrZooms {
    open spec fn obeys_from_spec() -> bool {
        true
    }

    open spec fn from_spec(zoom: u8) -> ZoomOrZooms {
        ZoomOrZooms::Zoom(zoom)
    }
}

impl From<Vec<u8>> for ZoomOrZooms {
    fn from(zooms: Vec<u8>) -> (r: Self) {
        ZoomOrZooms::Zooms(zooms)
    }
}

impl vstd::std_specs::convert::FromSpecImpl<Vec<u8>> for ZoomOrZooms {
    open spec fn obeys_from_spec() -> bool {
        true
    }

    open spec fn from_spec(zooms: Vec<u8>) -> ZoomOrZooms {
        ZoomOrZooms::Zooms(zooms)
    }
}

/// The zooms that a `ZoomOrZooms` lists.
pub open spec fn zooms_of(zoom_or_zooms: ZoomOrZooms) -> Seq<u8> {
    match zoom_or_zooms {
        ZoomOrZooms::Zoom(zoom) => seq![zoom],
        ZoomOrZooms::Zooms(zooms) => zooms@,
    }
}

/// The zooms as a list.
pub fn as_zooms(zoom_or_zooms: ZoomOrZooms) -> (r: Vec<u8>)
    ensures
        r@ == zooms_of(zoom_or_zooms),
{
    match zoom_or_zooms {
        ZoomOrZooms::Zoom(zoom) => vec![zoom],
        ZoomOrZooms::Zooms(zooms) => zooms,
    }
}

/// The zoom set of a `ZoomOrZooms` (every zoom at most 31).
pub fn zoom_or_zooms_to_zset(zoom_or_zooms: ZoomOrZooms) -> (r: u32)
    requires
        forall|k: int| 0 <= k < zooms_of(zoom_or_zooms).len() ==> #[trigger] zooms_of(zoom_or_zooms)[k] <= 31,
    ensures
        r == zvec_set(zooms_of(zoom_or_zooms)),
{
    match zoom_or_zooms {
        ZoomOrZooms::Zoom(zoom) => {
            proof {
                assert(zooms_of(zoom_or_zooms)[0] == zoom);
                let sq = seq![zoom];
                assert(sq.drop_last() =~= Seq::<u8>::empty());
                assert(sq.last() == zoom);
                assert(zvec_set(Seq::<u8>::empty()) == 0);
                assert(zvec_set(sq.drop_last()) == 0);
                let zb = zoom_bit(zoom);
                assert(0u32 | zb == zb) by (bit_vector);
                assert(zvec_set(sq) == zb);
            }
            1u32 << ((31 - zoom) as u32)
        },
        ZoomOrZooms::Zooms(zooms) => {
            assert(zooms_of(zoom_or_zooms) == zooms@);
            assert forall|k: int| 0 <= k < zooms@.len() implies #[trigger] zooms@[k] <= 31 by {
                assert(zooms_of(zoom_or_zooms)[k] <= 31);
            }
            zvec2zset(zooms)
        },
    }
}

} // verus!
