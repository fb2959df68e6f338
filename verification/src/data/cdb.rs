//! CDB (constant database) format: a 2048-byte header of 256 little-endian
//! `(position, slot count)` pairs, a data section of records
//! `(klen: u32le, vlen: u32le, key, value)` and one linear-probing hash
//! table per bucket, appended after the data.

use vstd::prelude::*;

use crate::bytes::{
    le32, lemma_le32_roundtrip, lemma_u32_le_frame, push_u32_le, read_u32_le, spec_u32_le,
    write_u32_le,
};

verus! {

/// The djb hash of a byte string, as a number modulo 2^32.
pub open spec fn spec_cdb_hash(key: Seq<u8>) -> u32
    decreases key.len(),
{
    if key.len() == 0 {
        5381u32
    } else {
        let h = spec_cdb_hash(key.drop_last());
        (((h as int * 33) % 0x1_0000_0000) as u32) ^ (key.last() as u32)
    }
}

/// Hash function of the CDB format (D. J. Bernstein's: `h = h * 33 ^ b`,
/// the product wrapping).
pub fn cdb_hash(key: &[u8]) -> (h: u32)
    ensures
        h == spec_cdb_hash(key@),
{
    let mut h: u32 = 5381;
    let mut i: usize = 0;
    while i < key.len()
        invariant
            i <= key.len(),
            h == spec_cdb_hash(key@.take(i as int)),
        decreases key.len() - i,
    {
        assert(key@.take(i as int + 1).drop_last() =~= key@.take(i as int));
        h = h.wrapping_mul(33) ^ (key[i] as u32);
        i = i + 1;
    }
    assert(key@.take(i as int) =~= key@);
    h
}

} // verus!

verus! {

/// Errors of the CDB reader.
#[derive(Debug)]
pub enum CDBError {
    /// The file is shorter than the 2048-byte header.
    TooSmall,
    /// A non-empty hash table points into the header.
    Broken,
    /// The file could not be read; the message of the I/O error.
    Io(String),
}

impl CDBError {
    /// The message of the error.
    pub fn to_string(&self) -> (r: String)
        ensures
            r@ == (match self {
                CDBError::TooSmall => "CDB file too small"@,
                CDBError::Broken => "CDB file is broken"@,
                CDBError::Io(m) => "I/O error: "@ + m@,
            }),
    {
        match self {
            CDBError::TooSmall => String::from_str("CDB file too small"),
            CDBError::Broken => String::from_str("CDB file is broken"),
            CDBError::Io(m) => {
                let mut r = String::from_str("I/O error: ");
                r.append(m.as_str());
                r
            },
        }
    }
}

/// Slot `k` of the probe sequence that starts at `ini` in a table of `num` slots.
pub open spec fn probe_slot(ini: int, k: int, num: int) -> int {
    if ini + k < num {
        ini + k
    } else {
        ini + k - num
    }
}

/// Position of the hash table of bucket `s`, from the header.
pub open spec fn hdr_pos(d: Seq<u8>, s: int) -> int {
    spec_u32_le(d, 8 * s) as int
}

/// Number of slots of the hash table of bucket `s`, from the header.
pub open spec fn hdr_num(d: Seq<u8>, s: int) -> int {
    spec_u32_le(d, 8 * s + 4) as int
}

/// Key length of the record at `p`.
pub open spec fn rec_klen(d: Seq<u8>, p: int) -> int {
    spec_u32_le(d, p) as int
}

/// Value length of the record at `p`.
pub open spec fn rec_vlen(d: Seq<u8>, p: int) -> int {
    spec_u32_le(d, p + 4) as int
}

/// Key of the record at `p`.
pub open spec fn rec_key(d: Seq<u8>, p: int) -> Seq<u8> {
    d.subrange(p + 8, p + 8 + rec_klen(d, p))
}

/// Value of the record at `p`.
pub open spec fn rec_val(d: Seq<u8>, p: int) -> Seq<u8> {
    d.subrange(p + 8 + rec_klen(d, p), p + 8 + rec_klen(d, p) + rec_vlen(d, p))
}

/// Whether the whole record at `p` lies inside `d`.
pub open spec fn rec_fits(d: Seq<u8>, p: int) -> bool {
    &&& p + 8 <= d.len()
    &&& p + 8 + rec_klen(d, p) + rec_vlen(d, p) <= d.len()
}

/// The lookup of `key` (hash `h`) in the table at `pos` with `num` slots,
/// starting from the `k`-th slot of the probe sequence that begins at `ini`.
pub open spec fn spec_probe(
    d: Seq<u8>,
    key: Seq<u8>,
    h: u32,
    pos: int,
    num: int,
    ini: int,
    k: int,
) -> Option<Seq<u8>>
    decreases num - k,
{
    if k < 0 || k >= num {
        None
    } else {
        let p = pos + 8 * probe_slot(ini, k, num);
        if p + 8 > d.len() {
            None
        } else {
            let ptr = spec_u32_le(d, p + 4) as int;
            if ptr == 0 {
                None
            } else if spec_u32_le(d, p) == h {
                if !rec_fits(d, ptr) {
                    None
                } else if rec_key(d, ptr) == key {
                    Some(rec_val(d, ptr))
                } else {
                    spec_probe(d, key, h, pos, num, ini, k + 1)
                }
            } else {
                spec_probe(d, key, h, pos, num, ini, k + 1)
            }
        }
    }
}

/// What looking up `key` in the CDB image `d` gives.
pub open spec fn spec_get(d: Seq<u8>, key: Seq<u8>) -> Option<Seq<u8>> {
    if d.len() < 2048 {
        None
    } else {
        let h = spec_cdb_hash(key);
        let s = h as int % 256;
        let num = hdr_num(d, s);
        if num == 0 {
            None
        } else {
            spec_probe(d, key, h, hdr_pos(d, s), num, (h as int / 256) % num, 0)
        }
    }
}

/// Whether `d[from..from + key.len()]` equals `key`.
fn bytes_eq_at(d: &[u8], from: usize, key: &[u8]) -> (r: bool)
    requires
        from + key@.len() <= d@.len(),
    ensures
        r == (d@.subrange(from as int, from + key@.len()) == key@),
{
    let mut i: usize = 0;
    while i < key.len()
        invariant
            i <= key@.len(),
            from + key@.len() <= d@.len(),
            d@.len() == d.len(),
            forall|j: int| 0 <= j < i ==> d@[from + j] == key@[j],
        decreases key@.len() - i,
    {
        if d[from + i] != key[i] {
            assert(d@.subrange(from as int, from + key@.len())[i as int] != key@[i as int]);
            return false;
        }
        i = i + 1;
    }
    assert(d@.subrange(from as int, from + key@.len()) =~= key@);
    true
}

/// A copy of `d[from..to]`.
pub fn copy_range(d: &[u8], from: usize, to: usize) -> (r: Vec<u8>)
    requires
        from <= to <= d@.len(),
    ensures
        r@ == d@.subrange(from as int, to as int),
{
    let mut r: Vec<u8> = Vec::new();
    let mut i: usize = from;
    while i < to
        invariant
            from <= i <= to <= d@.len(),
            r@ == d@.subrange(from as int, i as int),
        decreases to - i,
    {
        r.push(d[i]);
        i = i + 1;
        assert(r@ =~= d@.subrange(from as int, i as int));
    }
    r
}

/// Read-only accessor for a CDB image held in memory.
pub struct CDBReader {
    data: Vec<u8>,
    main_table: Vec<(u32, u32)>,
}

impl CDBReader {
    /// The bytes of the CDB image.
    pub closed spec fn view(&self) -> Seq<u8> {
        self.data@
    }

    /// The header has been decoded into `main_table`.
    pub closed spec fn wf(&self) -> bool {
        &&& self.data@.len() >= 2048
        &&& self.main_table@.len() == 256
        &&& forall|s: int|
            0 <= s < 256 ==> #[trigger] self.main_table@[s] == (
                spec_u32_le(self.data@, 8 * s),
                spec_u32_le(self.data@, 8 * s + 4),
            )
    }

    /// Opens a CDB image: decodes the 256-entry header and checks that no
    /// non-empty hash table starts inside the header.
    pub fn open(data: Vec<u8>) -> (r: Result<Self, CDBError>)
        ensures
            data@.len() < 2048 ==> r matches Err(CDBError::TooSmall),
            data@.len() >= 2048 ==> (r is Err <==> exists|s: int|
                0 <= s < 256 && hdr_num(data@, s) > 0 && hdr_pos(data@, s) < 2048),
            data@.len() >= 2048 && r is Err ==> r matches Err(CDBError::Broken),
            r matches Ok(rd) ==> rd.wf() && rd.view() == data@,
    {
        if data.len() < 2048 {
            return Err(CDBError::TooSmall);
        }
        let mut main_table: Vec<(u32, u32)> = Vec::new();
        let mut i: usize = 0;
        while i < 256
            invariant
                i <= 256,
                data@.len() >= 2048,
                main_table@.len() == i,
                forall|s: int|
                    0 <= s < i ==> #[trigger] main_table@[s] == (
                        spec_u32_le(data@, 8 * s),
                        spec_u32_le(data@, 8 * s + 4),
                    ),
            decreases 256 - i,
        {
            let pos = read_u32_le(data.as_slice(), i * 8);
            let cnt = read_u32_le(data.as_slice(), i * 8 + 4);
            main_table.push((pos, cnt));
            i = i + 1;
        }
        let mut j: usize = 0;
        while j < 256
            invariant
                j <= 256,
                data@.len() >= 2048,
                main_table@.len() == 256,
                forall|s: int|
                    0 <= s < 256 ==> #[trigger] main_table@[s] == (
                        spec_u32_le(data@, 8 * s),
                        spec_u32_le(data@, 8 * s + 4),
                    ),
                forall|s: int| 0 <= s < j ==> !(hdr_num(data@, s) > 0 && hdr_pos(data@, s) < 2048),
            decreases 256 - j,
        {
            let (pos, cnt) = main_table[j];
            assert(main_table@[j as int] == (
                spec_u32_le(data@, 8 * j),
                spec_u32_le(data@, 8 * j + 4),
            ));
            if cnt > 0 && pos < 2048 {
                assert(hdr_num(data@, j as int) > 0 && hdr_pos(data@, j as int) < 2048);
                return Err(CDBError::Broken);
            }
            j = j + 1;
        }
        Ok(CDBReader { data, main_table })
    }

    /// Looks up `key`: the value of the first record with that key along
    /// the probe sequence of its hash, or `None`.
    pub fn get(&self, key: &[u8]) -> (r: Option<Vec<u8>>)
        requires
            self.wf(),
        ensures
            r matches Some(v) ==> spec_get(self.view(), key@) == Some(v@),
            r is None ==> spec_get(self.view(), key@) is None,
    {
        let d = self.data.as_slice();
        let hashed = cdb_hash(key);
        let subidx = (hashed % 256) as usize;
        let (pos_subtable, num_entries) = self.main_table[subidx];
        assert(self.main_table@[subidx as int] == (
            spec_u32_le(self.data@, 8 * subidx),
            spec_u32_le(self.data@, 8 * subidx + 4),
        ));
        if num_entries == 0 {
            return None;
        }
        let len = d.len() as u64;
        assert(d@.len() == d.len());
        let ini = (hashed / 256) % num_entries;
        let ghost gd = d@;
        let ghost gpos = pos_subtable as int;
        let ghost gnum = num_entries as int;
        let mut k: u32 = 0;
        while k < num_entries
            invariant
                d@ == gd,
                gd == self.data@,
                len == gd.len(),
                gd.len() <= usize::MAX,
                gpos == pos_subtable,
                gnum == num_entries,
                ini < num_entries,
                k <= num_entries,
                spec_get(gd, key@) == spec_probe(gd, key@, hashed, gpos, gnum, ini as int, k as int),
            decreases num_entries - k,
        {
            let slot: u64 = if (ini as u64) + (k as u64) < num_entries as u64 {
                ini as u64 + k as u64
            } else {
                ini as u64 + k as u64 - num_entries as u64
            };
            let p: u64 = pos_subtable as u64 + slot * 8;
            if p + 8 > len {
                return None;
            }
            let h = read_u32_le(d, p as usize);
            let ptr = read_u32_le(d, p as usize + 4);
            if ptr == 0 {
                return None;
            }
            if h == hashed {
                let ptr64 = ptr as u64;
                if ptr64 + 8 > len {
                    return None;
                }
                let klen = read_u32_le(d, ptr as usize);
                let vlen = read_u32_le(d, ptr as usize + 4);
                if ptr64 + 8 + klen as u64 + vlen as u64 > len {
                    return None;
                }
                let pk = ptr as usize + 8;
                let kl = klen as usize;
                if kl == key.len() {
                    if bytes_eq_at(d, pk, key) {
                        let v = copy_range(d, pk + kl, pk + kl + vlen as usize);
                        return Some(v);
                    }
                } else {
                    assert(rec_key(gd, ptr as int).len() != key@.len());
                }
            }
            k = k + 1;
        }
        None
    }

    /// Whether the database holds `key`.
    pub fn contains(&self, key: &[u8]) -> (r: bool)
        requires
            self.wf(),
        ensures
            r == spec_get(self.view(), key@) is Some,
    {
        self.get(key).is_some()
    }
}

} // verus!

verus! {

/// Size in the data section of the record of a key-value pair.
pub open spec fn rec_size(kv: (Seq<u8>, Seq<u8>)) -> int {
    8 + kv.0.len() as int + kv.1.len() as int
}

/// Offset of the record of `pairs[i]` when the pairs are written in order
/// right after the header.
pub open spec fn rec_offset(pairs: Seq<(Seq<u8>, Seq<u8>)>, i: int) -> int
    decreases i,
{
    if i <= 0 {
        2048
    } else {
        rec_offset(pairs, i - 1) + rec_size(pairs[i - 1])
    }
}

/// Hash of the key of `pairs[i]`.
pub open spec fn pair_hash(pairs: Seq<(Seq<u8>, Seq<u8>)>, i: int) -> u32 {
    spec_cdb_hash(pairs[i].0)
}

/// Bucket (hash table) of `pairs[i]`.
pub open spec fn pair_bucket(pairs: Seq<(Seq<u8>, Seq<u8>)>, i: int) -> int {
    pair_hash(pairs, i) as int % 256
}

/// Start of the probe sequence of hash `h` in a table of `num` slots.
pub open spec fn probe_start(h: u32, num: int) -> int {
    (h as int / 256) % num
}

/// How many probe steps separate slot `q` from the start `ini`.
pub open spec fn probe_dist(ini: int, q: int, num: int) -> int {
    if q >= ini {
        q - ini
    } else {
        q - ini + num
    }
}

/// The value of the first pair at index `i` or later whose key is `key`.
pub open spec fn first_value_from(pairs: Seq<(Seq<u8>, Seq<u8>)>, key: Seq<u8>, i: int) -> Option<
    Seq<u8>,
>
    decreases pairs.len() - i,
{
    if i < 0 || i >= pairs.len() {
        None
    } else if pairs[i].0 == key {
        Some(pairs[i].1)
    } else {
        first_value_from(pairs, key, i + 1)
    }
}

/// The value of the first pair whose key is `key`, or `None`.
pub open spec fn spec_first_value(pairs: Seq<(Seq<u8>, Seq<u8>)>, key: Seq<u8>) -> Option<Seq<u8>> {
    first_value_from(pairs, key, 0)
}

/// Every pair is stored, in order, as a record right after the header.
#[verifier::opaque]
pub open spec fn records_ok(d: Seq<u8>, pairs: Seq<(Seq<u8>, Seq<u8>)>) -> bool {
    &&& rec_offset(pairs, pairs.len() as int) <= d.len()
    &&& forall|i: int|
        0 <= i < pairs.len() ==> {
            let off = rec_offset(pairs, i);
            &&& rec_klen(d, off) == (#[trigger] pairs[i]).0.len()
            &&& rec_vlen(d, off) == pairs[i].1.len()
            &&& rec_key(d, off) == pairs[i].0
            &&& rec_val(d, off) == pairs[i].1
        }
}

/// A hash table of bucket `s` built by linear probing from the pairs whose
/// index is below `bound`: `owner[q]` is the pair stored in slot `q` (or -1),
/// `slot_of[i]` the slot of pair `i`, and every slot that the probe sequence
/// of pair `i` passes before reaching it holds an earlier pair.
#[verifier::opaque]
pub open spec fn table_ok(
    t: Seq<(u32, u32)>,
    owner: Seq<int>,
    slot_of: Seq<int>,
    pairs: Seq<(Seq<u8>, Seq<u8>)>,
    s: int,
    bound: int,
) -> bool {
    let num = t.len() as int;
    &&& owner.len() == num
    &&& slot_of.len() == pairs.len()
    &&& 0 <= bound <= pairs.len()
    &&& forall|q: int| 0 <= q < num ==> -1 <= #[trigger] owner[q]
    &&& forall|q: int| 0 <= q < num && owner[q] == -1 ==> (#[trigger] t[q]).1 == 0
    &&& forall|q: int|
        0 <= q < num && #[trigger] owner[q] >= 0 ==> {
            &&& owner[q] < bound
            &&& pair_bucket(pairs, owner[q]) == s
            &&& slot_of[owner[q]] == q
            &&& t[q] == (pair_hash(pairs, owner[q]), rec_offset(pairs, owner[q]) as u32)
        }
    &&& forall|i: int|
        0 <= i < bound && #[trigger] pair_bucket(pairs, i) == s ==> {
            &&& 0 <= slot_of[i] < num
            &&& owner[slot_of[i]] == i
            &&& forall|k: int|
                0 <= k < probe_dist(probe_start(pair_hash(pairs, i), num), slot_of[i], num) ==> {
                    let o = #[trigger] owner[probe_slot(
                        probe_start(pair_hash(pairs, i), num),
                        k,
                        num,
                    )];
                    0 <= o < i
                }
        }
}

/// The table of `num` slots stored at `pos` in `d`.
pub open spec fn decoded_table(d: Seq<u8>, pos: int, num: int) -> Seq<(u32, u32)> {
    Seq::new(num as nat, |q: int| (spec_u32_le(d, pos + 8 * q), spec_u32_le(d, pos + 8 * q + 4)))
}

/// `d` is a CDB image of `pairs`: the records follow the header in order,
/// and the 256 hash tables were built by linear probing over all pairs.
pub open spec fn cdb_layout(
    d: Seq<u8>,
    pairs: Seq<(Seq<u8>, Seq<u8>)>,
    slot_of: Seq<int>,
    owners: Seq<Seq<int>>,
) -> bool {
    &&& d.len() >= 2048
    &&& rec_offset(pairs, pairs.len() as int) <= u32::MAX
    &&& records_ok(d, pairs)
    &&& owners.len() == 256
    &&& forall|s: int|
        0 <= s < 256 ==> {
            &&& hdr_pos(d, s) + 8 * hdr_num(d, s) <= d.len()
            &&& (hdr_num(d, s) > 0 ==> hdr_pos(d, s) >= 2048)
            &&& table_ok(
                decoded_table(d, hdr_pos(d, s), hdr_num(d, s)),
                #[trigger] owners[s],
                slot_of,
                pairs,
                s,
                pairs.len() as int,
            )
        }
}

/// Offsets of the records grow with the index and start after the header.
pub proof fn lemma_rec_offset_mono(pairs: Seq<(Seq<u8>, Seq<u8>)>, i: int, j: int)
    requires
        0 <= i < j <= pairs.len(),
    ensures
        2048 <= rec_offset(pairs, i),
        rec_offset(pairs, i) + rec_size(pairs[i]) <= rec_offset(pairs, j),
    decreases j - i,
{
    if i + 1 < j {
        lemma_rec_offset_mono(pairs, i, j - 1);
        lemma_rec_offset_mono(pairs, j - 2, j - 1);
    } else {
        lemma_rec_offset_ge(pairs, i);
    }
}

/// Every record takes at least eight bytes.
pub proof fn lemma_rec_offset_lower(pairs: Seq<(Seq<u8>, Seq<u8>)>, i: int)
    requires
        0 <= i <= pairs.len(),
    ensures
        2048 + 8 * i <= rec_offset(pairs, i),
    decreases i,
{
    if i > 0 {
        lemma_rec_offset_lower(pairs, i - 1);
    }
}

/// Every record offset is at least the header size.
pub proof fn lemma_rec_offset_ge(pairs: Seq<(Seq<u8>, Seq<u8>)>, i: int)
    ensures
        2048 <= rec_offset(pairs, i),
    decreases i,
{
    if i > 0 {
        lemma_rec_offset_ge(pairs, i - 1);
    }
}

/// The first value is the value of the first pair with the key.
proof fn lemma_first_value_found(pairs: Seq<(Seq<u8>, Seq<u8>)>, key: Seq<u8>, i: int, first: int)
    requires
        0 <= i <= first < pairs.len(),
        pairs[first].0 == key,
        forall|j: int| 0 <= j < first ==> pairs[j].0 != key,
    ensures
        first_value_from(pairs, key, i) == Some(pairs[first].1),
    decreases first - i,
{
    if i < first {
        lemma_first_value_found(pairs, key, i + 1, first);
    }
}

/// Without a pair with the key from `i` on, there is no value.
proof fn lemma_first_value_absent(pairs: Seq<(Seq<u8>, Seq<u8>)>, key: Seq<u8>, i: int)
    requires
        0 <= i,
        forall|j: int| i <= j < pairs.len() ==> pairs[j].0 != key,
    ensures
        first_value_from(pairs, key, i) is None,
    decreases pairs.len() - i,
{
    if i < pairs.len() {
        lemma_first_value_absent(pairs, key, i + 1);
    }
}

/// Probe slots and probe distances are inverse to each other.
pub proof fn lemma_probe_slot_dist(ini: int, k: int, num: int)
    requires
        0 <= ini < num,
        0 <= k < num,
    ensures
        0 <= probe_slot(ini, k, num) < num,
        probe_dist(ini, probe_slot(ini, k, num), num) == k,
{
}

/// Probe distances lie within the table and lead back to the slot.
pub proof fn lemma_probe_dist_slot(ini: int, q: int, num: int)
    requires
        0 <= ini < num,
        0 <= q < num,
    ensures
        0 <= probe_dist(ini, q, num) < num,
        probe_slot(ini, probe_dist(ini, q, num), num) == q,
{
}

#[verifier::rlimit(40)]
/// What a table slot holds.
pub proof fn lemma_table_slot(
    t: Seq<(u32, u32)>,
    owner: Seq<int>,
    slot_of: Seq<int>,
    pairs: Seq<(Seq<u8>, Seq<u8>)>,
    s: int,
    bound: int,
    q: int,
)
    requires
        table_ok(t, owner, slot_of, pairs, s, bound),
        0 <= q < t.len(),
    ensures
        owner.len() == t.len(),
        slot_of.len() == pairs.len(),
        0 <= bound <= pairs.len(),
        -1 <= owner[q],
        owner[q] == -1 ==> t[q].1 == 0,
        owner[q] >= 0 ==> {
            &&& owner[q] < bound
            &&& pair_bucket(pairs, owner[q]) == s
            &&& slot_of[owner[q]] == q
            &&& t[q] == (pair_hash(pairs, owner[q]), rec_offset(pairs, owner[q]) as u32)
        },
{
    reveal(table_ok);
}

/// Where a pair sits in its table, and what its probe sequence passes.
pub proof fn lemma_table_pair(
    t: Seq<(u32, u32)>,
    owner: Seq<int>,
    slot_of: Seq<int>,
    pairs: Seq<(Seq<u8>, Seq<u8>)>,
    s: int,
    bound: int,
    i: int,
    k: int,
)
    requires
        table_ok(t, owner, slot_of, pairs, s, bound),
        0 <= i < bound,
        pair_bucket(pairs, i) == s,
    ensures
        owner.len() == t.len(),
        slot_of.len() == pairs.len(),
        0 <= slot_of[i] < t.len(),
        owner[slot_of[i]] == i,
        0 <= k < probe_dist(probe_start(pair_hash(pairs, i), t.len() as int), slot_of[i], t.len() as int)
            ==> {
            let o = owner[probe_slot(probe_start(pair_hash(pairs, i), t.len() as int), k, t.len() as int)];
            0 <= o < i
        },
{
    reveal(table_ok);
}

/// The record of pair `i` in an image.
pub proof fn lemma_record(d: Seq<u8>, pairs: Seq<(Seq<u8>, Seq<u8>)>, i: int)
    requires
        records_ok(d, pairs),
        0 <= i < pairs.len(),
    ensures
        rec_offset(pairs, pairs.len() as int) <= d.len(),
        rec_klen(d, rec_offset(pairs, i)) == pairs[i].0.len(),
        rec_vlen(d, rec_offset(pairs, i)) == pairs[i].1.len(),
        rec_key(d, rec_offset(pairs, i)) == pairs[i].0,
        rec_val(d, rec_offset(pairs, i)) == pairs[i].1,
{
    reveal(records_ok);
}

/// The probe for `key` walks past the slots before the first pair with
/// that key and then finds it.
proof fn lemma_probe_finds(
    d: Seq<u8>,
    pairs: Seq<(Seq<u8>, Seq<u8>)>,
    slot_of: Seq<int>,
    owners: Seq<Seq<int>>,
    key: Seq<u8>,
    first: int,
    k: int,
)
    requires
        cdb_layout(d, pairs, slot_of, owners),
        0 <= first < pairs.len(),
        pairs[first].0 == key,
        forall|j: int| 0 <= j < first ==> pairs[j].0 != key,
        ({
            let h = spec_cdb_hash(key);
            let s = h as int % 256;
            let num = hdr_num(d, s);
            0 <= k <= probe_dist(probe_start(h, num), slot_of[first], num)
        }),
    ensures
        ({
            let h = spec_cdb_hash(key);
            let s = h as int % 256;
            let num = hdr_num(d, s);
            spec_probe(d, key, h, hdr_pos(d, s), num, probe_start(h, num), k) == Some(
                pairs[first].1,
            )
        }),
    decreases hdr_num(d, spec_cdb_hash(key) as int % 256) - k,
{
    let h = spec_cdb_hash(key);
    let s = h as int % 256;
    let num = hdr_num(d, s);
    let pos = hdr_pos(d, s);
    let ini = probe_start(h, num);
    let owner = owners[s];
    let t = decoded_table(d, pos, num);
    assert(table_ok(t, owner, slot_of, pairs, s, pairs.len() as int));
    lemma_table_pair(t, owner, slot_of, pairs, s, pairs.len() as int, first, k);
    assert(0 <= ini < num) by {
        vstd::arithmetic::div_mod::lemma_mod_bound(h as int / 256, num);
    }
    let sf = slot_of[first];
    lemma_probe_dist_slot(ini, sf, num);
    let dist = probe_dist(ini, sf, num);
    let q = probe_slot(ini, k, num);
    lemma_probe_slot_dist(ini, k, num);
    let p = pos + 8 * q;
    assert(t[q] == (spec_u32_le(d, p), spec_u32_le(d, p + 4)));
    let o = owner[q];
    lemma_table_slot(t, owner, slot_of, pairs, s, pairs.len() as int, q);
    if k == dist {
        assert(o == first);
    } else {
        assert(0 <= o < first);
    }
    let off = rec_offset(pairs, o);
    lemma_rec_offset_mono(pairs, o, pairs.len() as int);
    lemma_record(d, pairs, o);
    if k != dist {
        assert(pairs[o].0 != key);
        lemma_probe_finds(d, pairs, slot_of, owners, key, first, k + 1);
    }
}

/// Without a pair with `key`, the probe never finds a value.
proof fn lemma_probe_absent(
    d: Seq<u8>,
    pairs: Seq<(Seq<u8>, Seq<u8>)>,
    slot_of: Seq<int>,
    owners: Seq<Seq<int>>,
    key: Seq<u8>,
    k: int,
)
    requires
        cdb_layout(d, pairs, slot_of, owners),
        forall|j: int| 0 <= j < pairs.len() ==> pairs[j].0 != key,
        0 <= k,
        hdr_num(d, spec_cdb_hash(key) as int % 256) > 0,
    ensures
        ({
            let h = spec_cdb_hash(key);
            let s = h as int % 256;
            let num = hdr_num(d, s);
            spec_probe(d, key, h, hdr_pos(d, s), num, probe_start(h, num), k) is None
        }),
    decreases hdr_num(d, spec_cdb_hash(key) as int % 256) - k,
{
    let h = spec_cdb_hash(key);
    let s = h as int % 256;
    let num = hdr_num(d, s);
    let pos = hdr_pos(d, s);
    let ini = probe_start(h, num);
    let owner = owners[s];
    let t = decoded_table(d, pos, num);
    if k < num {
        assert(table_ok(t, owner, slot_of, pairs, s, pairs.len() as int));
        assert(0 <= ini < num) by {
            vstd::arithmetic::div_mod::lemma_mod_bound(h as int / 256, num);
        }
        let q = probe_slot(ini, k, num);
        lemma_probe_slot_dist(ini, k, num);
        let p = pos + 8 * q;
        assert(t[q] == (spec_u32_le(d, p), spec_u32_le(d, p + 4)));
        let o = owner[q];
        lemma_table_slot(t, owner, slot_of, pairs, s, pairs.len() as int, q);
        if o >= 0 {
            let off = rec_offset(pairs, o);
            lemma_rec_offset_mono(pairs, o, pairs.len() as int);
            lemma_record(d, pairs, o);
            lemma_probe_absent(d, pairs, slot_of, owners, key, k + 1);
        }
    }
}

/// Reading back a CDB image gives, for every key, the value of the first
/// pair that was written with that key, and nothing for a key that was
/// never written.
pub proof fn lemma_cdb_read_after_write(
    d: Seq<u8>,
    pairs: Seq<(Seq<u8>, Seq<u8>)>,
    slot_of: Seq<int>,
    owners: Seq<Seq<int>>,
    key: Seq<u8>,
)
    requires
        cdb_layout(d, pairs, slot_of, owners),
    ensures
        spec_get(d, key) == spec_first_value(pairs, key),
{
    let h = spec_cdb_hash(key);
    let s = h as int % 256;
    let num = hdr_num(d, s);
    if exists|j: int| 0 <= j < pairs.len() && pairs[j].0 == key {
        let j0 = choose|j: int| 0 <= j < pairs.len() && pairs[j].0 == key;
        let first = lemma_least_index(pairs, key, j0);
        lemma_first_value_found(pairs, key, 0, first);
        assert(table_ok(
            decoded_table(d, hdr_pos(d, s), num),
            owners[s],
            slot_of,
            pairs,
            s,
            pairs.len() as int,
        ));
        let t = decoded_table(d, hdr_pos(d, s), num);
        lemma_table_pair(t, owners[s], slot_of, pairs, s, pairs.len() as int, first, 0);
        assert(0 <= probe_start(h, num) < num) by {
            vstd::arithmetic::div_mod::lemma_mod_bound(h as int / 256, num);
        }
        lemma_probe_dist_slot(probe_start(h, num), slot_of[first], num);
        lemma_probe_finds(d, pairs, slot_of, owners, key, first, 0);
    } else {
        lemma_first_value_absent(pairs, key, 0);
        if num > 0 {
            lemma_probe_absent(d, pairs, slot_of, owners, key, 0);
        }
    }
}

/// The least index of a pair with `key`, below a known one.
proof fn lemma_least_index(pairs: Seq<(Seq<u8>, Seq<u8>)>, key: Seq<u8>, j: int) -> (first: int)
    requires
        0 <= j < pairs.len(),
        pairs[j].0 == key,
    ensures
        0 <= first <= j,
        pairs[first].0 == key,
        forall|i: int| 0 <= i < first ==> pairs[i].0 != key,
    decreases j,
{
    if exists|i: int| 0 <= i < j && pairs[i].0 == key {
        let i = choose|i: int| 0 <= i < j && pairs[i].0 == key;
        lemma_least_index(pairs, key, i)
    } else {
        j
    }
}

} // verus!

verus! {

/// Images that agree from the end of the header on keep their records.
pub proof fn lemma_records_frame(d1: Seq<u8>, d2: Seq<u8>, pairs: Seq<(Seq<u8>, Seq<u8>)>)
    requires
        records_ok(d1, pairs),
        d1.len() <= d2.len(),
        forall|i: int| 2048 <= i < d1.len() ==> d2[i] == d1[i],
    ensures
        records_ok(d2, pairs),
{
    reveal(records_ok);
    assert forall|i: int| 0 <= i < pairs.len() implies {
        let off = rec_offset(pairs, i);
        &&& rec_klen(d2, off) == (#[trigger] pairs[i]).0.len()
        &&& rec_vlen(d2, off) == pairs[i].1.len()
        &&& rec_key(d2, off) == pairs[i].0
        &&& rec_val(d2, off) == pairs[i].1
    } by {
        let off = rec_offset(pairs, i);
        lemma_rec_offset_mono(pairs, i, pairs.len() as int);
        lemma_u32_le_frame(d1, d2, off);
        lemma_u32_le_frame(d1, d2, off + 4);
        assert(rec_key(d2, off) =~= rec_key(d1, off));
        assert(rec_val(d2, off) =~= rec_val(d1, off));
    }
}

/// Record offsets depend only on the pairs before.
pub proof fn lemma_rec_offset_prefix(
    p1: Seq<(Seq<u8>, Seq<u8>)>,
    p2: Seq<(Seq<u8>, Seq<u8>)>,
    i: int,
)
    requires
        i <= p1.len() <= p2.len(),
        forall|j: int| 0 <= j < p1.len() ==> p1[j] == p2[j],
    ensures
        rec_offset(p1, i) == rec_offset(p2, i),
    decreases i,
{
    if i > 0 {
        lemma_rec_offset_prefix(p1, p2, i - 1);
    }
}

/// Images that agree on a table's bytes decode to the same table.
pub proof fn lemma_decoded_table_frame(d1: Seq<u8>, d2: Seq<u8>, pos: int, num: int)
    requires
        0 <= pos,
        0 <= num,
        pos + 8 * num <= d1.len(),
        pos + 8 * num <= d2.len(),
        forall|i: int| pos <= i < pos + 8 * num ==> d2[i] == d1[i],
    ensures
        decoded_table(d1, pos, num) == decoded_table(d2, pos, num),
{
    assert forall|q: int| 0 <= q < num implies decoded_table(d1, pos, num)[q] == decoded_table(
        d2,
        pos,
        num,
    )[q] by {
        lemma_u32_le_frame(d1, d2, pos + 8 * q);
        lemma_u32_le_frame(d1, d2, pos + 8 * q + 4);
    }
    assert(decoded_table(d1, pos, num) =~= decoded_table(d2, pos, num));
}

/// A table built from pairs below `b1` is also one for any `b2` when no
/// pair of the bucket lies in between.
pub proof fn lemma_table_extend_bound(
    t: Seq<(u32, u32)>,
    owner: Seq<int>,
    slot_of: Seq<int>,
    pairs: Seq<(Seq<u8>, Seq<u8>)>,
    s: int,
    b1: int,
    b2: int,
)
    requires
        table_ok(t, owner, slot_of, pairs, s, b1),
        b1 <= b2 <= pairs.len(),
        forall|i: int| b1 <= i < b2 ==> pair_bucket(pairs, i) != s,
    ensures
        table_ok(t, owner, slot_of, pairs, s, b2),
{
    reveal(table_ok);
}

/// Slots of pairs of other buckets do not matter to a table.
pub proof fn lemma_table_frame_slots(
    t: Seq<(u32, u32)>,
    owner: Seq<int>,
    so1: Seq<int>,
    so2: Seq<int>,
    pairs: Seq<(Seq<u8>, Seq<u8>)>,
    s: int,
    b: int,
)
    requires
        table_ok(t, owner, so1, pairs, s, b),
        so2.len() == so1.len(),
        forall|i: int| 0 <= i < pairs.len() && pair_bucket(pairs, i) == s ==> so2[i] == so1[i],
    ensures
        table_ok(t, owner, so2, pairs, s, b),
{
    reveal(table_ok);
}

/// An empty table of `num` slots.
pub proof fn lemma_table_empty(
    t: Seq<(u32, u32)>,
    owner: Seq<int>,
    slot_of: Seq<int>,
    pairs: Seq<(Seq<u8>, Seq<u8>)>,
    s: int,
)
    requires
        owner.len() == t.len(),
        slot_of.len() == pairs.len(),
        forall|q: int| 0 <= q < t.len() ==> owner[q] == -1 && t[q].1 == 0,
    ensures
        table_ok(t, owner, slot_of, pairs, s, 0),
{
    reveal(table_ok);
}

/// Putting pair `i` into the first free slot of its probe sequence keeps
/// the table built by linear probing.
pub proof fn lemma_table_insert(
    t: Seq<(u32, u32)>,
    owner: Seq<int>,
    slot_of: Seq<int>,
    pairs: Seq<(Seq<u8>, Seq<u8>)>,
    s: int,
    i: int,
    k: int,
)
    requires
        table_ok(t, owner, slot_of, pairs, s, i),
        0 <= i < pairs.len(),
        pair_bucket(pairs, i) == s,
        rec_offset(pairs, pairs.len() as int) <= u32::MAX,
        0 <= k < t.len(),
        ({
            let num = t.len() as int;
            let ini = probe_start(pair_hash(pairs, i), num);
            &&& 0 <= ini < num
            &&& t[probe_slot(ini, k, num)].1 == 0
            &&& forall|d: int| 0 <= d < k ==> owner[#[trigger] probe_slot(ini, d, num)] >= 0
        }),
    ensures
        ({
            let num = t.len() as int;
            let q = probe_slot(probe_start(pair_hash(pairs, i), num), k, num);
            table_ok(
                t.update(q, (pair_hash(pairs, i), rec_offset(pairs, i) as u32)),
                owner.update(q, i),
                slot_of.update(i, q),
                pairs,
                s,
                i + 1,
            )
        }),
{
    reveal(table_ok);
    let num = t.len() as int;
    let ini = probe_start(pair_hash(pairs, i), num);
    let q = probe_slot(ini, k, num);
    lemma_probe_slot_dist(ini, k, num);
    if owner[q] >= 0 {
        let o = owner[q];
        lemma_rec_offset_mono(pairs, o, pairs.len() as int);
        assert(t[q].1 == rec_offset(pairs, o) as u32);
        assert(false);
    }
    let t2 = t.update(q, (pair_hash(pairs, i), rec_offset(pairs, i) as u32));
    let owner2 = owner.update(q, i);
    let so2 = slot_of.update(i, q);
    assert forall|j: int| 0 <= j < i + 1 && #[trigger] pair_bucket(pairs, j) == s implies {
        &&& 0 <= so2[j] < num
        &&& owner2[so2[j]] == j
        &&& forall|kk: int|
            0 <= kk < probe_dist(probe_start(pair_hash(pairs, j), num), so2[j], num) ==> {
                let o = #[trigger] owner2[probe_slot(probe_start(pair_hash(pairs, j), num), kk, num)];
                0 <= o < j
            }
    } by {
        if j == i {
            assert forall|kk: int|
                0 <= kk < probe_dist(ini, q, num) implies {
                let o = #[trigger] owner2[probe_slot(ini, kk, num)];
                0 <= o < j
            } by {
                lemma_probe_slot_dist(ini, kk, num);
                assert(owner[probe_slot(ini, kk, num)] >= 0);
            }
        } else {
            let sj = slot_of[j];
            assert(owner[sj] == j);
            assert(sj != q);
            let inij = probe_start(pair_hash(pairs, j), num);
            assert forall|kk: int|
                0 <= kk < probe_dist(inij, so2[j], num) implies {
                let o = #[trigger] owner2[probe_slot(inij, kk, num)];
                0 <= o < j
            } by {
                assert(0 <= owner[probe_slot(inij, kk, num)] < j);
            }
        }
    }
}

/// Injective maps into `[0, m)` have at most `m` points.
pub proof fn lemma_pigeonhole(f: Seq<int>, m: int)
    requires
        0 <= m,
        forall|i: int| 0 <= i < f.len() ==> 0 <= #[trigger] f[i] < m,
        forall|i: int, j: int| 0 <= i < f.len() && 0 <= j < f.len() && i != j ==> f[i] != f[j],
    ensures
        f.len() <= m,
    decreases m,
{
    if f.len() > 0 {
        if m == 0 {
            assert(0 <= f[0] < m);
        } else if exists|t: int| 0 <= t < f.len() && f[t] == m - 1 {
            let t = choose|t: int| 0 <= t < f.len() && f[t] == m - 1;
            let g = f.remove(t);
            assert forall|i: int| 0 <= i < g.len() implies 0 <= #[trigger] g[i] < m - 1 by {
                if i < t {
                    assert(g[i] == f[i]);
                } else {
                    assert(g[i] == f[i + 1]);
                }
            }
            assert forall|i: int, j: int|
                0 <= i < g.len() && 0 <= j < g.len() && i != j implies g[i] != g[j] by {
                let fi = if i < t {
                    i
                } else {
                    i + 1
                };
                let fj = if j < t {
                    j
                } else {
                    j + 1
                };
                assert(g[i] == f[fi]);
                assert(g[j] == f[fj]);
            }
            lemma_pigeonhole(g, m - 1);
        } else {
            lemma_pigeonhole(f, m - 1);
        }
    }
}

} // verus!

verus! {

/// Sum of the first `k` bucket sizes.
pub open spec fn sum_lens(lens: Seq<int>, k: int) -> int
    decreases k,
{
    if k <= 0 {
        0
    } else {
        sum_lens(lens, k - 1) + lens[k - 1]
    }
}

/// Growing one bucket by one grows the sums that include it by one.
proof fn lemma_sum_lens_update(lens: Seq<int>, s: int, k: int)
    requires
        0 <= s < lens.len(),
        k <= lens.len(),
    ensures
        sum_lens(lens.update(s, lens[s] + 1), k) == sum_lens(lens, k) + if s < k {
            1int
        } else {
            0int
        },
    decreases k,
{
    if k > 0 {
        lemma_sum_lens_update(lens, s, k - 1);
    }
}

/// Partial sums of sizes never exceed the total.
proof fn lemma_sum_lens_mono(lens: Seq<int>, k: int, m: int)
    requires
        0 <= k <= m <= lens.len(),
        forall|i: int| 0 <= i < lens.len() ==> lens[i] >= 0,
    ensures
        sum_lens(lens, k) + if k < m {
            lens[k]
        } else {
            0
        } <= sum_lens(lens, m),
    decreases m - k,
{
    if k < m {
        if k + 1 < m {
            lemma_sum_lens_mono(lens, k + 1, m);
        }
    }
}

/// Builds a CDB image in memory.
pub struct CDBMaker {
    data: Vec<u8>,
    sub: Vec<Vec<(u32, u32)>>,
    sub_num: Vec<u32>,
    count: usize,
    pairs: Ghost<Seq<(Seq<u8>, Seq<u8>)>>,
    sub_idx: Ghost<Seq<Seq<int>>>,
    pos_in_sub: Ghost<Seq<int>>,
}

impl CDBMaker {
    /// The key-value pairs added so far, in order.
    pub closed spec fn view(&self) -> Seq<(Seq<u8>, Seq<u8>)> {
        self.pairs@
    }

    /// Length in bytes of the image built so far (header and records).
    pub closed spec fn spec_len(&self) -> int {
        self.data@.len() as int
    }

    /// The bytes of the image built so far: the header area, still zero,
    /// then the records.
    pub closed spec fn bytes(&self) -> Seq<u8> {
        self.data@
    }

    /// Views of the buckets.
    closed spec fn subv(&self) -> Seq<Seq<(u32, u32)>> {
        Seq::new(256, |s: int| self.sub@[s]@)
    }

    /// Internal consistency of the maker.
    pub closed spec fn wf(&self) -> bool {
        let pairs = self.pairs@;
        let n = pairs.len() as int;
        &&& self.data@.len() == rec_offset(pairs, n)
        &&& self.data@.len() <= u32::MAX
        &&& records_ok(self.data@, pairs)
        &&& self.count == n
        &&& self.sub@.len() == 256
        &&& self.sub_num@.len() == 256
        &&& forall|s: int| 0 <= s < 256 ==> #[trigger] self.sub_num@[s] == 2 * self.sub@[s]@.len()
        &&& buckets_ok(self.subv(), self.sub_idx@, self.pos_in_sub@, pairs)
    }

    /// A maker with no pairs: the header is reserved.
    pub fn new() -> (r: Self)
        ensures
            r.wf(),
            r.view() == Seq::<(Seq<u8>, Seq<u8>)>::empty(),
            r.spec_len() == 2048,
            r.bytes() == Seq::new(2048, |i: int| 0u8),
    {
        let data: Vec<u8> = vec![0u8; 2048];
        assert(data@ =~= Seq::new(2048, |i: int| 0u8));
        let mut sub: Vec<Vec<(u32, u32)>> = Vec::new();
        let mut sub_num: Vec<u32> = Vec::new();
        let mut i: usize = 0;
        while i < 256
            invariant
                i <= 256,
                sub@.len() == i,
                sub_num@.len() == i,
                forall|s: int| 0 <= s < i ==> (#[trigger] sub@[s])@.len() == 0,
                forall|s: int| 0 <= s < i ==> #[trigger] sub_num@[s] == 0,
            decreases 256 - i,
        {
            sub.push(Vec::new());
            sub_num.push(0);
            i = i + 1;
        }
        let ghost pairs = Seq::<(Seq<u8>, Seq<u8>)>::empty();
        let ghost sub_idx = Seq::new(256, |s: int| Seq::<int>::empty());
        let r = CDBMaker {
            data,
            sub,
            sub_num,
            count: 0,
            pairs: Ghost(pairs),
            sub_idx: Ghost(sub_idx),
            pos_in_sub: Ghost(Seq::empty()),
        };
        proof {
            reveal(records_ok);
            assert(lens_of(r.subv()) =~= Seq::new(256, |s: int| 0int));
            lemma_sum_lens_zero(lens_of(r.subv()), 256);
            assert(buckets_ok(r.subv(), r.sub_idx@, r.pos_in_sub@, pairs));
        }
        r
    }

    /// Length in bytes that the finished image will have.
    pub fn image_len(&self) -> (r: u64)
        requires
            self.wf(),
        ensures
            r == self.spec_len() + 16 * self.view().len(),
    {
        proof {
            lemma_rec_offset_lower(self.pairs@, self.pairs@.len() as int);
        }
        self.data.len() as u64 + 16 * (self.count as u64)
    }

    /// Appends the record of `(key, value)` and remembers its hash.
    pub fn add(&mut self, key: &[u8], value: &[u8])
        requires
            old(self).wf(),
            old(self).spec_len() + 8 + key@.len() + value@.len() <= u32::MAX,
        ensures
            final(self).wf(),
            final(self).view() == old(self).view().push((key@, value@)),
            final(self).spec_len() == old(self).spec_len() + 8 + key@.len() + value@.len(),
            final(self).bytes() == old(self).bytes() + le32(key@.len() as u32) + le32(value@.len() as u32)
                + key@ + value@,
    {
        let ghost old_data = self.data@;
        let ghost old_pairs = self.pairs@;
        let ghost n = old_pairs.len() as int;
        let pointer = self.data.len() as u32;
        let klen = key.len() as u32;
        let vlen = value.len() as u32;
        let mut rec: Vec<u8> = Vec::new();
        push_u32_le(&mut rec, klen);
        push_u32_le(&mut rec, vlen);
        let mut i: usize = 0;
        while i < key.len()
            invariant
                i <= key@.len(),
                rec@ == le32(klen) + le32(vlen) + key@.subrange(0, i as int),
            decreases key@.len() - i,
        {
            rec.push(key[i]);
            i = i + 1;
            assert(rec@ =~= le32(klen) + le32(vlen) + key@.subrange(0, i as int));
        }
        let mut j: usize = 0;
        while j < value.len()
            invariant
                j <= value@.len(),
                rec@ == le32(klen) + le32(vlen) + key@ + value@.subrange(0, j as int),
            decreases value@.len() - j,
        {
            assert(key@.subrange(0, key@.len() as int) =~= key@);
            rec.push(value[j]);
            j = j + 1;
            assert(rec@ =~= le32(klen) + le32(vlen) + key@ + value@.subrange(0, j as int));
        }
        self.data.append(&mut rec);
        let ghost d = self.data@;
        assert(d =~= old_data + le32(klen) + le32(vlen) + key@ + value@) by {
            assert(key@.subrange(0, key@.len() as int) =~= key@);
            assert(value@.subrange(0, value@.len() as int) =~= value@);
        }
        let ghost new_pairs = old_pairs.push((key@, value@));
        proof {
            lemma_add_record(old_data, d, old_pairs, key@, value@, klen, vlen);
        }
        let hashed = cdb_hash(key);
        let s = (hashed % 256) as usize;
        let ghost old_subv = self.subv();
        let ghost old_sub_idx = self.sub_idx@;
        let ghost old_pos = self.pos_in_sub@;
        let ghost old_len_s = self.sub@[s as int]@.len();
        let cnt = self.sub_num[s];
        assert(cnt == 2 * old_len_s);
        proof {
            lemma_bucket_len_le(old_subv, old_sub_idx, old_pos, old_pairs, s as int);
            lemma_rec_offset_lower(old_pairs, n);
        }
        self.sub_num.set(s, cnt + 2);
        self.sub[s].push((hashed, pointer));
        self.count = self.count + 1;
        self.pairs = Ghost(new_pairs);
        self.sub_idx = Ghost(old_sub_idx.update(s as int, old_sub_idx[s as int].push(n)));
        self.pos_in_sub = Ghost(old_pos.push(old_len_s as int));
        proof {
            assert(self.subv() =~= old_subv.update(s as int, old_subv[s as int].push((hashed, pointer))));
            lemma_add_bucket(old_subv, old_sub_idx, old_pos, old_pairs, key@, value@, s as int);
        }
    }
}

/// Appending the record of a pair keeps every record in place.
proof fn lemma_add_record(
    old_data: Seq<u8>,
    d: Seq<u8>,
    old_pairs: Seq<(Seq<u8>, Seq<u8>)>,
    key: Seq<u8>,
    value: Seq<u8>,
    klen: u32,
    vlen: u32,
)
    requires
        old_data.len() == rec_offset(old_pairs, old_pairs.len() as int),
        records_ok(old_data, old_pairs),
        klen == key.len(),
        vlen == value.len(),
        d == old_data + le32(klen) + le32(vlen) + key + value,
    ensures
        records_ok(d, old_pairs.push((key, value))),
        d.len() == rec_offset(old_pairs.push((key, value)), old_pairs.len() as int + 1),
{
    let n = old_pairs.len() as int;
    let new_pairs = old_pairs.push((key, value));
    let off = old_data.len() as int;
    assert(d.subrange(off, off + 4) =~= le32(klen));
    assert(d.subrange(off + 4, off + 8) =~= le32(vlen));
    lemma_le32_roundtrip(d, off, klen);
    lemma_le32_roundtrip(d, off + 4, vlen);
    assert(rec_key(d, off) =~= key);
    assert(rec_val(d, off) =~= value);
    lemma_records_frame(old_data, d, old_pairs);
    assert forall|i: int| 0 <= i <= n implies rec_offset(old_pairs, i) == rec_offset(new_pairs, i) by {
        lemma_rec_offset_prefix(old_pairs, new_pairs, i);
    }
    reveal(records_ok);
    assert forall|i: int| 0 <= i < new_pairs.len() implies {
        let off = rec_offset(new_pairs, i);
        &&& rec_klen(d, off) == (#[trigger] new_pairs[i]).0.len()
        &&& rec_vlen(d, off) == new_pairs[i].1.len()
        &&& rec_key(d, off) == new_pairs[i].0
        &&& rec_val(d, off) == new_pairs[i].1
    } by {
        if i < n {
            assert(new_pairs[i] == old_pairs[i]);
        }
    }
}

/// Sizes of the buckets.
pub open spec fn lens_of(subv: Seq<Seq<(u32, u32)>>) -> Seq<int> {
    Seq::new(256, |s: int| subv[s].len() as int)
}

/// The buckets list every pair, each in the bucket of its hash, in order.
pub open spec fn buckets_ok(
    subv: Seq<Seq<(u32, u32)>>,
    sub_idx: Seq<Seq<int>>,
    pos_in_sub: Seq<int>,
    pairs: Seq<(Seq<u8>, Seq<u8>)>,
) -> bool {
    let n = pairs.len() as int;
    &&& subv.len() == 256
    &&& sub_idx.len() == 256
    &&& pos_in_sub.len() == n
    &&& sum_lens(lens_of(subv), 256) == n
    &&& forall|s: int| 0 <= s < 256 ==> (#[trigger] sub_idx[s]).len() == subv[s].len()
    &&& forall|s: int, j: int|
        0 <= s < 256 && 0 <= j < subv[s].len() ==> {
            let i = #[trigger] sub_idx[s][j];
            &&& 0 <= i < n
            &&& pair_bucket(pairs, i) == s
            &&& subv[s][j] == (pair_hash(pairs, i), rec_offset(pairs, i) as u32)
        }
    &&& forall|s: int, j1: int, j2: int|
        0 <= s < 256 && 0 <= j1 < j2 < subv[s].len() ==> #[trigger] sub_idx[s][j1]
            < #[trigger] sub_idx[s][j2]
    &&& forall|i: int|
        0 <= i < n ==> {
            let s = pair_bucket(pairs, i);
            &&& 0 <= #[trigger] pos_in_sub[i] < sub_idx[s].len()
            &&& sub_idx[s][pos_in_sub[i]] == i
        }
}

/// A bucket holds no more entries than there are pairs.
proof fn lemma_bucket_len_le(
    subv: Seq<Seq<(u32, u32)>>,
    sub_idx: Seq<Seq<int>>,
    pos_in_sub: Seq<int>,
    pairs: Seq<(Seq<u8>, Seq<u8>)>,
    s: int,
)
    requires
        buckets_ok(subv, sub_idx, pos_in_sub, pairs),
        0 <= s < 256,
    ensures
        subv[s].len() <= pairs.len(),
{
    let lens = lens_of(subv);
    lemma_sum_lens_mono(lens, s, 256);
    assert(lens[s] == subv[s].len());
    lemma_sum_lens_nonneg(lens, s);
}

/// Sums of sizes are not negative.
proof fn lemma_sum_lens_nonneg(lens: Seq<int>, k: int)
    requires
        k <= lens.len(),
        forall|i: int| 0 <= i < lens.len() ==> lens[i] >= 0,
    ensures
        sum_lens(lens, k) >= 0,
    decreases k,
{
    if k > 0 {
        lemma_sum_lens_nonneg(lens, k - 1);
    }
}

/// Adding a pair puts it at the end of the bucket of its hash.
proof fn lemma_add_bucket(
    subv: Seq<Seq<(u32, u32)>>,
    sub_idx: Seq<Seq<int>>,
    pos_in_sub: Seq<int>,
    pairs: Seq<(Seq<u8>, Seq<u8>)>,
    key: Seq<u8>,
    value: Seq<u8>,
    s: int,
)
    requires
        buckets_ok(subv, sub_idx, pos_in_sub, pairs),
        s == spec_cdb_hash(key) as int % 256,
        rec_offset(pairs, pairs.len() as int) <= u32::MAX,
    ensures
        ({
            let n = pairs.len() as int;
            let new_pairs = pairs.push((key, value));
            buckets_ok(
                subv.update(s, subv[s].push((spec_cdb_hash(key), rec_offset(pairs, n) as u32))),
                sub_idx.update(s, sub_idx[s].push(n)),
                pos_in_sub.push(subv[s].len() as int),
                new_pairs,
            )
        }),
{
    let n = pairs.len() as int;
    let new_pairs = pairs.push((key, value));
    let subv2 = subv.update(s, subv[s].push((spec_cdb_hash(key), rec_offset(pairs, n) as u32)));
    let sub_idx2 = sub_idx.update(s, sub_idx[s].push(n));
    let pos2 = pos_in_sub.push(subv[s].len() as int);
    let lens = lens_of(subv);
    assert(lens_of(subv2) =~= lens.update(s, lens[s] + 1));
    lemma_sum_lens_update(lens, s, 256);
    assert(pair_hash(new_pairs, n) == spec_cdb_hash(key));
    lemma_rec_offset_prefix(pairs, new_pairs, n);
    assert forall|s2: int, j: int| 0 <= s2 < 256 && 0 <= j < subv2[s2].len() implies {
        let i = #[trigger] sub_idx2[s2][j];
        &&& 0 <= i < n + 1
        &&& pair_bucket(new_pairs, i) == s2
        &&& subv2[s2][j] == (pair_hash(new_pairs, i), rec_offset(new_pairs, i) as u32)
    } by {
        if s2 == s && j == subv[s].len() {
        } else {
            let i = sub_idx[s2][j];
            assert(subv2[s2][j] == subv[s2][j]);
            assert(sub_idx2[s2][j] == i);
            assert(new_pairs[i] == pairs[i]);
            lemma_rec_offset_prefix(pairs, new_pairs, i);
        }
    }
    assert forall|s2: int, j1: int, j2: int|
        0 <= s2 < 256 && 0 <= j1 < j2 < subv2[s2].len() implies #[trigger] sub_idx2[s2][j1]
        < #[trigger] sub_idx2[s2][j2] by {
        if s2 == s && j2 == subv[s].len() {
            assert(sub_idx2[s2][j1] == sub_idx[s2][j1]);
        } else {
            assert(sub_idx2[s2][j1] == sub_idx[s2][j1]);
            assert(sub_idx2[s2][j2] == sub_idx[s2][j2]);
        }
    }
    assert forall|i: int| 0 <= i < n + 1 implies {
        let s3 = pair_bucket(new_pairs, i);
        &&& 0 <= #[trigger] pos2[i] < sub_idx2[s3].len()
        &&& sub_idx2[s3][pos2[i]] == i
    } by {
        if i < n {
            assert(new_pairs[i] == pairs[i]);
            assert(pos2[i] == pos_in_sub[i]);
        }
    }
}

/// Sums of zero sizes are zero.
proof fn lemma_sum_lens_zero(lens: Seq<int>, k: int)
    requires
        k <= lens.len(),
        forall|i: int| 0 <= i < lens.len() ==> lens[i] == 0,
    ensures
        sum_lens(lens, k) == 0,
    decreases k,
{
    if k > 0 {
        lemma_sum_lens_zero(lens, k - 1);
    }
}

} // verus!

verus! {

/// A table whose slots are all taken has no more slots than pairs inserted.
proof fn lemma_table_not_full(
    t: Seq<(u32, u32)>,
    owner: Seq<int>,
    so: Seq<int>,
    pairs: Seq<(Seq<u8>, Seq<u8>)>,
    s: int,
    idx: Seq<int>,
    pos_in_sub: Seq<int>,
    j: int,
    ini: int,
)
    requires
        table_ok(t, owner, so, pairs, s, idx[j]),
        0 <= j < idx.len(),
        0 <= ini < t.len(),
        forall|d: int| 0 <= d < t.len() ==> owner[#[trigger] probe_slot(ini, d, t.len() as int)] >= 0,
        forall|j1: int, j2: int| 0 <= j1 < j2 < idx.len() ==> #[trigger] idx[j1] < #[trigger] idx[j2],
        pos_in_sub.len() == pairs.len(),
        forall|i: int|
            0 <= i < pairs.len() && pair_bucket(pairs, i) == s ==> 0 <= #[trigger] pos_in_sub[i]
                < idx.len() && idx[pos_in_sub[i]] == i,
    ensures
        t.len() <= j,
{
    let num = t.len() as int;
    let i = idx[j];
    assert forall|q: int| 0 <= q < num implies owner[q] >= 0 by {
        lemma_probe_dist_slot(ini, q, num);
        assert(owner[probe_slot(ini, probe_dist(ini, q, num), num)] >= 0);
    }
    let f = Seq::new(num as nat, |q: int| pos_in_sub[owner[q]]);
    assert forall|q: int| 0 <= q < f.len() implies 0 <= #[trigger] f[q] < j by {
        lemma_table_slot(t, owner, so, pairs, s, i, q);
        let o = owner[q];
        let p = pos_in_sub[o];
        assert(idx[p] == o);
        if p >= j {
            if p > j {
                assert(idx[j] < idx[p]);
            }
        }
    }
    assert forall|q1: int, q2: int|
        0 <= q1 < f.len() && 0 <= q2 < f.len() && q1 != q2 implies f[q1] != f[q2] by {
        lemma_table_slot(t, owner, so, pairs, s, i, q1);
        lemma_table_slot(t, owner, so, pairs, s, i, q2);
    }
    lemma_pigeonhole(f, j);
}

/// Builds the linear-probing table of one bucket: twice as many slots as
/// entries, each entry placed in the first free slot of its probe sequence.
fn build_table(
    entries: &Vec<(u32, u32)>,
    Ghost(subv): Ghost<Seq<Seq<(u32, u32)>>>,
    Ghost(sub_idx): Ghost<Seq<Seq<int>>>,
    Ghost(pos_in_sub): Ghost<Seq<int>>,
    Ghost(pairs): Ghost<Seq<(Seq<u8>, Seq<u8>)>>,
    Ghost(s): Ghost<int>,
    Ghost(slot_of): Ghost<Seq<int>>,
) -> (r: (Vec<(u32, u32)>, Ghost<Seq<int>>, Ghost<Seq<int>>))
    requires
        buckets_ok(subv, sub_idx, pos_in_sub, pairs),
        0 <= s < 256,
        entries@ == subv[s],
        rec_offset(pairs, pairs.len() as int) <= u32::MAX,
        2 * entries@.len() <= u32::MAX,
        slot_of.len() == pairs.len(),
    ensures
        r.0@.len() == 2 * entries@.len(),
        table_ok(r.0@, r.1@, r.2@, pairs, s, pairs.len() as int),
        r.2@.len() == pairs.len(),
        forall|i: int|
            0 <= i < pairs.len() && pair_bucket(pairs, i) != s ==> r.2@[i] == slot_of[i],
{
    let ghost n = pairs.len() as int;
    let ghost idx = sub_idx[s];
    let len = entries.len();
    let num: usize = 2 * len;
    let mut table: Vec<(u32, u32)> = Vec::new();
    let mut q: usize = 0;
    while q < num
        invariant
            q <= num,
            table@.len() == q,
            forall|x: int| 0 <= x < q ==> #[trigger] table@[x] == (0u32, 0u32),
        decreases num - q,
    {
        table.push((0, 0));
        q = q + 1;
    }
    let ghost mut owner = Seq::new(num as nat, |x: int| -1int);
    let ghost mut so = slot_of;
    proof {
        lemma_table_empty(table@, owner, so, pairs, s);
        assert(idx.len() == len);
    }
    let mut j: usize = 0;
    while j < len
        invariant
            buckets_ok(subv, sub_idx, pos_in_sub, pairs),
            0 <= s < 256,
            idx == sub_idx[s],
            entries@ == subv[s],
            len == entries@.len(),
            idx.len() == len,
            num == 2 * len,
            num <= u32::MAX,
            rec_offset(pairs, n) <= u32::MAX,
            n == pairs.len(),
            j <= len,
            table@.len() == num,
            so.len() == n,
            table_ok(
                table@,
                owner,
                so,
                pairs,
                s,
                if j == 0 {
                    0
                } else {
                    idx[j - 1] + 1
                },
            ),
            forall|i: int| 0 <= i < n && pair_bucket(pairs, i) != s ==> so[i] == slot_of[i],
        decreases len - j,
    {
        let (h, ptr) = entries[j];
        let ghost i = idx[j as int];
        let ghost b = if j == 0 {
            0
        } else {
            idx[j - 1] + 1
        };
        proof {
            assert(0 <= i < n && pair_bucket(pairs, i) == s);
            assert(subv[s][j as int] == (pair_hash(pairs, i), rec_offset(pairs, i) as u32));
            if j > 0 {
                assert(idx[j - 1] < idx[j as int]);
            }
            assert forall|x: int| b <= x < i implies pair_bucket(pairs, x) != s by {
                if pair_bucket(pairs, x) == s {
                    let p = pos_in_sub[x];
                    assert(idx[p] == x);
                    if p < j {
                        if p < j - 1 {
                            assert(idx[p] < idx[j - 1]);
                        }
                    } else if p > j {
                        assert(idx[j as int] < idx[p]);
                    }
                }
            }
            lemma_table_extend_bound(table@, owner, so, pairs, s, b, i);
        }
        let num32 = num as u32;
        let ini = ((h / 256) % num32) as usize;
        assert(ini == probe_start(pair_hash(pairs, i), num as int));
        let mut k: usize = 0;
        while k < num
            invariant_except_break
                k <= num,
                ini < num,
                num <= u32::MAX,
                table@.len() == num,
                table_ok(table@, owner, so, pairs, s, i),
                forall|d: int|
                    0 <= d < k ==> owner[#[trigger] probe_slot(ini as int, d, num as int)] >= 0,
            ensures
                k <= num,
                k < num ==> table@[probe_slot(ini as int, k as int, num as int)].1 == 0,
                forall|d: int|
                    0 <= d < k ==> owner[#[trigger] probe_slot(ini as int, d, num as int)] >= 0,
            decreases num - k,
        {
            let slot = if (ini as u64) + (k as u64) < num as u64 {
                ini + k
            } else {
                (ini as u64 + k as u64 - num as u64) as usize
            };
            if table[slot].1 == 0 {
                break;
            }
            proof {
                lemma_probe_slot_dist(ini as int, k as int, num as int);
                lemma_table_slot(table@, owner, so, pairs, s, i, slot as int);
            }
            k = k + 1;
        }
        if k >= num {
            proof {
                let sidx = sub_idx[s];
                assert forall|i2: int|
                    0 <= i2 < pairs.len() && pair_bucket(pairs, i2) == s implies 0
                    <= #[trigger] pos_in_sub[i2] < sidx.len() && sidx[pos_in_sub[i2]] == i2 by {}
                lemma_table_not_full(table@, owner, so, pairs, s, idx, pos_in_sub, j as int, ini as int);
            }
        }
        let slot = if (ini as u64) + (k as u64) < num as u64 {
            ini + k
        } else {
            (ini as u64 + k as u64 - num as u64) as usize
        };
        proof {
            lemma_table_insert(table@, owner, so, pairs, s, i, k as int);
        }
        table.set(slot, (h, ptr));
        proof {
            owner = owner.update(slot as int, i);
            so = so.update(i, slot as int);
        }
        j = j + 1;
    }
    proof {
        let b = if len == 0 {
            0
        } else {
            idx[len - 1] + 1
        };
        assert forall|x: int| b <= x < n implies pair_bucket(pairs, x) != s by {
            if pair_bucket(pairs, x) == s {
                let p = pos_in_sub[x];
                assert(idx[p] == x);
                if p < len - 1 {
                    assert(idx[p] < idx[len - 1]);
                }
            }
        }
        lemma_table_extend_bound(table@, owner, so, pairs, s, b, n);
    }
    (table, Ghost(owner), Ghost(so))
}

} // verus!

verus! {

/// Appends the slots of `table`, eight bytes each.
fn append_table(data: &mut Vec<u8>, table: &Vec<(u32, u32)>)
    requires
        old(data)@.len() + 8 * table@.len() <= u32::MAX,
    ensures
        final(data)@.len() == old(data)@.len() + 8 * table@.len(),
        forall|i: int| 0 <= i < old(data)@.len() ==> #[trigger] final(data)@[i] == old(data)@[i],
        decoded_table(final(data)@, old(data)@.len() as int, table@.len() as int) == table@,
{
    let ghost base = data@.len() as int;
    let ghost d0 = data@;
    let mut q: usize = 0;
    while q < table.len()
        invariant
            base == d0.len(),
            base + 8 * table@.len() <= u32::MAX,
            q <= table@.len(),
            data@.len() == base + 8 * q,
            forall|i: int| 0 <= i < base ==> #[trigger] data@[i] == d0[i],
            forall|x: int|
                0 <= x < q ==> #[trigger] data@.subrange(base + 8 * x, base + 8 * x + 4) == le32(
                    table@[x].0,
                ),
            forall|x: int|
                0 <= x < q ==> #[trigger] data@.subrange(base + 8 * x + 4, base + 8 * x + 8)
                    == le32(table@[x].1),
        decreases table@.len() - q,
    {
        let ghost before = data@;
        let (h, p) = table[q];
        push_u32_le(data, h);
        push_u32_le(data, p);
        proof {
            assert forall|x: int| 0 <= x < q + 1 implies #[trigger] data@.subrange(
                base + 8 * x,
                base + 8 * x + 4,
            ) == le32(table@[x].0) by {
                if x < q {
                    assert(data@.subrange(base + 8 * x, base + 8 * x + 4) =~= before.subrange(
                        base + 8 * x,
                        base + 8 * x + 4,
                    ));
                } else {
                    assert(data@.subrange(base + 8 * x, base + 8 * x + 4) =~= le32(h));
                }
            }
            assert forall|x: int| 0 <= x < q + 1 implies #[trigger] data@.subrange(
                base + 8 * x + 4,
                base + 8 * x + 8,
            ) == le32(table@[x].1) by {
                if x < q {
                    assert(data@.subrange(base + 8 * x + 4, base + 8 * x + 8) =~= before.subrange(
                        base + 8 * x + 4,
                        base + 8 * x + 8,
                    ));
                } else {
                    assert(data@.subrange(base + 8 * x + 4, base + 8 * x + 8) =~= le32(p));
                }
            }
        }
        q = q + 1;
    }
    proof {
        assert forall|x: int| 0 <= x < table@.len() implies decoded_table(
            data@,
            base,
            table@.len() as int,
        )[x] == table@[x] by {
            assert(data@.subrange(base + 8 * x, base + 8 * x + 4) == le32(table@[x].0));
            assert(data@.subrange(base + 8 * x + 4, base + 8 * x + 8) == le32(table@[x].1));
            lemma_le32_roundtrip(data@, base + 8 * x, table@[x].0);
            lemma_le32_roundtrip(data@, base + 8 * x + 4, table@[x].1);
        }
        assert(decoded_table(data@, base, table@.len() as int) =~= table@);
    }
}

/// Writes the 256 `(position, slot count)` pairs of the header.
fn write_header(data: &mut Vec<u8>, sub_pos: &Vec<u32>, sub_num: &Vec<u32>)
    requires
        old(data)@.len() >= 2048,
        sub_pos@.len() == 256,
        sub_num@.len() == 256,
    ensures
        final(data)@.len() == old(data)@.len(),
        forall|i: int| 2048 <= i < old(data)@.len() ==> #[trigger] final(data)@[i] == old(data)@[i],
        forall|s: int| 0 <= s < 256 ==> #[trigger] hdr_pos(final(data)@, s) == sub_pos@[s],
        forall|s: int| 0 <= s < 256 ==> #[trigger] hdr_num(final(data)@, s) == sub_num@[s],
{
    let ghost d0 = data@;
    let mut s: usize = 0;
    while s < 256
        invariant
            s <= 256,
            sub_pos@.len() == 256,
            sub_num@.len() == 256,
            data@.len() == d0.len(),
            d0.len() >= 2048,
            forall|i: int| 8 * s <= i < d0.len() ==> #[trigger] data@[i] == d0[i],
            forall|x: int|
                0 <= x < s ==> #[trigger] data@.subrange(8 * x, 8 * x + 4) == le32(sub_pos@[x]),
            forall|x: int|
                0 <= x < s ==> #[trigger] data@.subrange(8 * x + 4, 8 * x + 8) == le32(sub_num@[x]),
        decreases 256 - s,
    {
        let ghost before = data@;
        write_u32_le(data, 8 * s, sub_pos[s]);
        let ghost mid = data@;
        write_u32_le(data, 8 * s + 4, sub_num[s]);
        proof {
            assert forall|x: int| 0 <= x < s + 1 implies #[trigger] data@.subrange(8 * x, 8 * x + 4)
                == le32(sub_pos@[x]) by {
                if x < s {
                    assert(data@.subrange(8 * x, 8 * x + 4) =~= before.subrange(8 * x, 8 * x + 4));
                } else {
                    assert(data@.subrange(8 * x, 8 * x + 4) =~= mid.subrange(8 * x, 8 * x + 4));
                }
            }
            assert forall|x: int| 0 <= x < s + 1 implies #[trigger] data@.subrange(
                8 * x + 4,
                8 * x + 8,
            ) == le32(sub_num@[x]) by {
                if x < s {
                    assert(data@.subrange(8 * x + 4, 8 * x + 8) =~= before.subrange(
                        8 * x + 4,
                        8 * x + 8,
                    ));
                }
            }
        }
        s = s + 1;
    }
    proof {
        assert forall|x: int| 0 <= x < 256 implies #[trigger] hdr_pos(data@, x) == sub_pos@[x] by {
            assert(data@.subrange(8 * x, 8 * x + 4) == le32(sub_pos@[x]));
            lemma_le32_roundtrip(data@, 8 * x, sub_pos@[x]);
        }
        assert forall|x: int| 0 <= x < 256 implies #[trigger] hdr_num(data@, x) == sub_num@[x] by {
            assert(data@.subrange(8 * x + 4, 8 * x + 8) == le32(sub_num@[x]));
            lemma_le32_roundtrip(data@, 8 * x + 4, sub_num@[x]);
        }
    }
}

} // verus!

verus! {

/// With the tables laid out one after another from `end`, in bucket order
/// and `16 * lens[x]` bytes each, the first `k` buckets hold no table when
/// they are all empty, and otherwise their first table starts at `end`.
proof fn lemma_min_table_pos(d: Seq<u8>, lens: Seq<int>, end: int, k: int)
    requires
        0 <= k <= 256,
        lens.len() == 256,
        forall|x: int| 0 <= x < 256 ==> #[trigger] lens[x] >= 0,
        forall|x: int| 0 <= x < 256 ==> #[trigger] hdr_num(d, x) == 2 * lens[x],
        forall|x: int| 0 <= x < 256 ==> #[trigger] hdr_pos(d, x) == end + 16 * sum_lens(lens, x),
    ensures
        (min_table_pos(d, k) is None) == (sum_lens(lens, k) == 0),
        min_table_pos(d, k) matches Some(p) ==> p == end,
    decreases k,
{
    if k > 0 {
        lemma_min_table_pos(d, lens, end, k - 1);
        lemma_sum_lens_nonneg(lens, k - 1);
        assert(hdr_pos(d, k - 1) == end + 16 * sum_lens(lens, k - 1));
        assert(lens[k - 1] >= 0);
    }
}

/// Walking the records written for `pairs` from the record of pair `i`
/// up to `end`, their end, finds pairs `i` onwards.
proof fn lemma_items_from_records(d: Seq<u8>, pairs: Seq<(Seq<u8>, Seq<u8>)>, end: int, i: int)
    requires
        0 <= i <= pairs.len(),
        end == rec_offset(pairs, pairs.len() as int),
        records_ok(d, pairs),
    ensures
        items_from(d, rec_offset(pairs, i), end) == pairs.subrange(i, pairs.len() as int),
    decreases pairs.len() - i,
{
    let n = pairs.len() as int;
    let off = rec_offset(pairs, i);
    lemma_rec_offset_ge(pairs, i);
    if i == n {
        assert(pairs.subrange(i, n) =~= Seq::<(Seq<u8>, Seq<u8>)>::empty());
    } else {
        lemma_rec_offset_mono(pairs, i, n);
        assert(rec_klen(d, off) == pairs[i].0.len() && rec_vlen(d, off) == pairs[i].1.len() && rec_key(d, off)
            == pairs[i].0 && rec_val(d, off) == pairs[i].1) by {
            reveal(records_ok);
        }
        assert(rec_offset(pairs, i + 1) == off + 8 + pairs[i].0.len() + pairs[i].1.len());
        lemma_items_from_records(d, pairs, end, i + 1);
        assert(pairs.subrange(i, n) =~= seq![(rec_key(d, off), rec_val(d, off))] + pairs.subrange(i + 1, n));
    }
}

impl CDBMaker {
    /// Writes one linear-probing hash table per bucket after the records
    /// (twice as many slots as entries) and fills in the header. The image
    /// answers every lookup with the value of the first pair added with
    /// that key.
    pub fn finalize(self) -> (r: Vec<u8>)
        requires
            self.wf(),
            self.spec_len() + 16 * self.view().len() <= u32::MAX,
        ensures
            exists|slot_of: Seq<int>, owners: Seq<Seq<int>>|
                cdb_layout(r@, self.view(), slot_of, owners),
            forall|key: Seq<u8>| #[trigger] spec_get(r@, key) == spec_first_value(self.view(), key),
            r@.len() == self.spec_len() + 16 * self.view().len(),
            data_end(r@) == self.spec_len(),
            data_end(r@) <= r@.len(),
            spec_iter_items(r@) == self.view(),
    {
        let ghost pairs = self.pairs@;
        let ghost n = pairs.len() as int;
        let ghost subv = self.subv();
        let ghost sub_idx = self.sub_idx@;
        let ghost pos_in_sub = self.pos_in_sub@;
        let ghost lens = lens_of(subv);
        let sub = self.sub;
        let sub_num = self.sub_num;
        let mut data = self.data;
        let ghost d0 = data@;
        let ghost end = rec_offset(pairs, n);
        proof {
            lemma_rec_offset_ge(pairs, n);
            assert forall|x: int| 0 <= x < 256 implies #[trigger] lens[x] >= 0 by {}
        }
        let mut sub_pos: Vec<u32> = Vec::new();
        let ghost mut slot_of = Seq::new(n as nat, |i: int| 0int);
        let ghost mut owners: Seq<Seq<int>> = Seq::empty();
        let ghost mut tables: Seq<Seq<(u32, u32)>> = Seq::empty();
        let mut s: usize = 0;
        while s < 256
            invariant
                buckets_ok(subv, sub_idx, pos_in_sub, pairs),
                n == pairs.len(),
                end == rec_offset(pairs, n),
                2048 <= end,
                end + 16 * n <= u32::MAX,
                d0.len() == end,
                records_ok(d0, pairs),
                lens == lens_of(subv),
                forall|x: int| 0 <= x < 256 ==> #[trigger] lens[x] >= 0,
                sub@.len() == 256,
                sub_num@.len() == 256,
                forall|x: int| 0 <= x < 256 ==> #[trigger] sub_num@[x] == 2 * sub@[x]@.len(),
                forall|x: int| 0 <= x < 256 ==> #[trigger] sub@[x]@ == subv[x],
                s <= 256,
                data@.len() == end + 16 * sum_lens(lens, s as int),
                forall|i: int| 0 <= i < end ==> #[trigger] data@[i] == d0[i],
                sub_pos@.len() == s,
                forall|x: int| 0 <= x < s ==> #[trigger] sub_pos@[x] == end + 16 * sum_lens(lens, x),
                owners.len() == s,
                tables.len() == s,
                slot_of.len() == n,
                forall|x: int|
                    0 <= x < s ==> {
                        &&& end <= #[trigger] sub_pos@[x]
                        &&& sub_pos@[x] + 8 * sub_num@[x] <= data@.len()
                        &&& tables[x].len() == sub_num@[x]
                        &&& decoded_table(data@, sub_pos@[x] as int, sub_num@[x] as int)
                            == tables[x]
                        &&& table_ok(tables[x], owners[x], slot_of, pairs, x, n)
                    },
            decreases 256 - s,
        {
            proof {
                lemma_sum_lens_mono(lens, s as int, 256);
                lemma_sum_lens_nonneg(lens, s as int);
                assert(lens[s as int] == subv[s as int].len());
            }
            let ghost before = data@;
            let (table, Ghost(owner), Ghost(so2)) = build_table(
                &sub[s],
                Ghost(subv),
                Ghost(sub_idx),
                Ghost(pos_in_sub),
                Ghost(pairs),
                Ghost(s as int),
                Ghost(slot_of),
            );
            let pos = data.len() as u32;
            sub_pos.push(pos);
            append_table(&mut data, &table);
            proof {
                assert forall|x: int| 0 <= x < s implies {
                    &&& end <= #[trigger] sub_pos@[x]
                    &&& sub_pos@[x] + 8 * sub_num@[x] <= data@.len()
                    &&& tables[x].len() == sub_num@[x]
                    &&& decoded_table(data@, sub_pos@[x] as int, sub_num@[x] as int) == tables[x]
                    &&& table_ok(tables[x], owners[x], so2, pairs, x, n)
                } by {
                    lemma_decoded_table_frame(
                        before,
                        data@,
                        sub_pos@[x] as int,
                        sub_num@[x] as int,
                    );
                    lemma_table_frame_slots(tables[x], owners[x], slot_of, so2, pairs, x, n);
                }
                let old_tables = tables;
                let old_owners = owners;
                slot_of = so2;
                owners = owners.push(owner);
                tables = tables.push(table@);
                assert(sum_lens(lens, s + 1) == sum_lens(lens, s as int) + lens[s as int]);
                assert forall|i: int| 0 <= i < end implies #[trigger] data@[i] == d0[i] by {
                    assert(before[i] == d0[i]);
                }
                assert(table@.len() == sub_num@[s as int]);
                assert forall|x: int| 0 <= x < s + 1 implies {
                    &&& end <= #[trigger] sub_pos@[x]
                    &&& sub_pos@[x] + 8 * sub_num@[x] <= data@.len()
                    &&& tables[x].len() == sub_num@[x]
                    &&& decoded_table(data@, sub_pos@[x] as int, sub_num@[x] as int) == tables[x]
                    &&& table_ok(tables[x], owners[x], slot_of, pairs, x, n)
                } by {
                    if x < s {
                        assert(tables[x] == old_tables[x]);
                        assert(owners[x] == old_owners[x]);
                    } else {
                        assert(sub_pos@[x] == before.len());
                    }
                }
            }
            s = s + 1;
        }
        let ghost before_header = data@;
        write_header(&mut data, &sub_pos, &sub_num);
        proof {
            lemma_records_frame(d0, data@, pairs);
            assert forall|x: int| 0 <= x < 256 implies {
                &&& hdr_pos(data@, x) + 8 * hdr_num(data@, x) <= data@.len()
                &&& (hdr_num(data@, x) > 0 ==> hdr_pos(data@, x) >= 2048)
                &&& table_ok(
                    decoded_table(data@, hdr_pos(data@, x), hdr_num(data@, x)),
                    #[trigger] owners[x],
                    slot_of,
                    pairs,
                    x,
                    pairs.len() as int,
                )
            } by {
                assert(hdr_pos(data@, x) == sub_pos@[x]);
                assert(hdr_num(data@, x) == sub_num@[x]);
                lemma_decoded_table_frame(
                    before_header,
                    data@,
                    sub_pos@[x] as int,
                    sub_num@[x] as int,
                );
            }
            assert(cdb_layout(data@, pairs, slot_of, owners));
            assert forall|x: int| 0 <= x < 256 implies #[trigger] hdr_num(data@, x) == 2 * lens[x] && hdr_pos(
                data@,
                x,
            ) == end + 16 * sum_lens(lens, x) by {
                assert(hdr_pos(data@, x) == sub_pos@[x]);
                assert(hdr_num(data@, x) == sub_num@[x]);
                assert(sub@[x]@ == subv[x]);
            }
            lemma_min_table_pos(data@, lens, end, 256);
            if n > 0 {
                lemma_rec_offset_lower(pairs, n);
            }
            assert(data_end(data@) == end);
            lemma_items_from_records(data@, pairs, end, 0);
            assert(pairs.subrange(0, n) =~= pairs);
            assert forall|key: Seq<u8>| #[trigger] spec_get(data@, key) == spec_first_value(
                pairs,
                key,
            ) by {
                lemma_cdb_read_after_write(data@, pairs, slot_of, owners, key);
            }
        }
        data
    }
}

} // verus!

verus! {

/// The smallest table position among the first `k` buckets with a
/// non-empty table.
pub open spec fn min_table_pos(d: Seq<u8>, k: int) -> Option<int>
    decreases k,
{
    if k <= 0 {
        None
    } else {
        let m = min_table_pos(d, k - 1);
        if hdr_num(d, k - 1) > 0 {
            match m {
                Some(x) => if hdr_pos(d, k - 1) < x {
                    Some(hdr_pos(d, k - 1))
                } else {
                    Some(x)
                },
                None => Some(hdr_pos(d, k - 1)),
            }
        } else {
            m
        }
    }
}

/// Where the data section ends: at the first hash table, or at the end
/// of the image when every table is empty.
pub open spec fn data_end(d: Seq<u8>) -> int {
    match min_table_pos(d, 256) {
        Some(x) => x,
        None => d.len() as int,
    }
}

/// The records found by walking the data section from `pos` up to `end`.
pub open spec fn items_from(d: Seq<u8>, pos: int, end: int) -> Seq<(Seq<u8>, Seq<u8>)>
    decreases end - pos,
{
    if pos + 8 > end || pos < 0 {
        Seq::empty()
    } else {
        let kl = rec_klen(d, pos);
        let vl = rec_vlen(d, pos);
        if pos + 8 + kl + vl > end {
            Seq::empty()
        } else {
            seq![(rec_key(d, pos), rec_val(d, pos))] + items_from(d, pos + 8 + kl + vl, end)
        }
    }
}

/// All records of the image, in the order they were written.
pub open spec fn spec_iter_items(d: Seq<u8>) -> Seq<(Seq<u8>, Seq<u8>)> {
    items_from(d, 2048, data_end(d))
}

/// Views of a list of byte-string pairs.
pub open spec fn pairs_view(v: Seq<(Vec<u8>, Vec<u8>)>) -> Seq<(Seq<u8>, Seq<u8>)> {
    v.map_values(|p: (Vec<u8>, Vec<u8>)| (p.0@, p.1@))
}

impl CDBReader {
    /// All `(key, value)` records of the data section, in insertion order:
    /// the walk starts after the header and stops at the first hash table.
    pub fn iter_items(&self) -> (r: Vec<(Vec<u8>, Vec<u8>)>)
        requires
            self.wf(),
            data_end(self.view()) <= self.view().len(),
        ensures
            pairs_view(r@) == spec_iter_items(self.view()),
    {
        let d = self.data.as_slice();
        let ghost gd = self.data@;
        let mut first: Option<u32> = None;
        let mut s: usize = 0;
        assert(d@.len() == d.len());
        while s < 256
            invariant
                s <= 256,
                d@ == gd,
                self.wf(),
                gd == self.data@,
                match first {
                    Some(x) => min_table_pos(gd, s as int) == Some(x as int),
                    None => min_table_pos(gd, s as int) is None,
                },
            decreases 256 - s,
        {
            let (pos, cnt) = self.main_table[s];
            assert(self.main_table@[s as int] == (
                spec_u32_le(gd, 8 * s),
                spec_u32_le(gd, 8 * s + 4),
            ));
            if cnt > 0 {
                first = match first {
                    Some(x) => if pos < x {
                        Some(pos)
                    } else {
                        Some(x)
                    },
                    None => Some(pos),
                };
            }
            s = s + 1;
        }
        let fs: usize = match first {
            Some(x) => x as usize,
            None => d.len(),
        };
        let mut pos: usize = 2048;
        let mut items: Vec<(Vec<u8>, Vec<u8>)> = Vec::new();
        let ghost target = spec_iter_items(gd);
        assert(target == pairs_view(items@) + items_from(gd, pos as int, fs as int)) by {
            assert(pairs_view(items@) =~= Seq::empty());
            assert(Seq::<(Seq<u8>, Seq<u8>)>::empty() + items_from(gd, 2048, fs as int) =~= items_from(gd, 2048, fs as int));
        }
        while pos <= fs && fs - pos >= 8
            invariant_except_break
                2048 <= pos,
                fs <= gd.len(),
                d@ == gd,
                gd.len() <= usize::MAX,
                target == pairs_view(items@) + items_from(gd, pos as int, fs as int),
            ensures
                target == pairs_view(items@),
            decreases fs - pos,
        {
            let klen = read_u32_le(d, pos) as usize;
            let vlen = read_u32_le(d, pos + 4) as usize;
            let p2 = pos + 8;
            if klen > fs - p2 || vlen > fs - p2 - klen {
                assert(items_from(gd, pos as int, fs as int) =~= Seq::empty());
                assert(pairs_view(items@) + Seq::<(Seq<u8>, Seq<u8>)>::empty() =~= pairs_view(items@));
                break;
            }
            let k = copy_range(d, p2, p2 + klen);
            let v = copy_range(d, p2 + klen, p2 + klen + vlen);
            let ghost prev = pairs_view(items@);
            items.push((k, v));
            proof {
                assert(pairs_view(items@) =~= prev.push((rec_key(gd, pos as int), rec_val(gd, pos as int))));
                let rest = items_from(gd, (p2 + klen + vlen) as int, fs as int);
                assert(items_from(gd, pos as int, fs as int) == seq![(rec_key(gd, pos as int), rec_val(gd, pos as int))] + rest);
                assert(prev + (seq![(rec_key(gd, pos as int), rec_val(gd, pos as int))] + rest) =~= prev.push((rec_key(gd, pos as int), rec_val(gd, pos as int))) + rest);
            }
            pos = p2 + klen + vlen;
        }
        proof {
            if !(pos <= fs && fs - pos >= 8) {
                assert(items_from(gd, pos as int, fs as int) =~= Seq::empty());
                assert(pairs_view(items@) + Seq::<(Seq<u8>, Seq<u8>)>::empty() =~= pairs_view(items@));
            }
        }
        items
    }
}

/// The bytes of a constant database holding `items`, added in order: a
/// lookup of a key gives the value of the first pair with that key, and
/// walking the records gives the items back in order.
pub fn cdb_bytes(items: &[(Vec<u8>, Vec<u8>)]) -> (r: Vec<u8>)
    requires
        rec_offset(pairs_view(items@), items@.len() as int) + 16 * items@.len() <= u32::MAX,
    ensures
        forall|key: Seq<u8>| #[trigger] spec_get(r@, key) == spec_first_value(pairs_view(items@), key),
        data_end(r@) <= r@.len(),
        spec_iter_items(r@) == pairs_view(items@),
{
    let ghost all = pairs_view(items@);
    let mut maker = CDBMaker::new();
    let mut i: usize = 0;
    while i < items.len()
        invariant
            i <= items@.len(),
            all == pairs_view(items@),
            maker.wf(),
            maker.view() == all.subrange(0, i as int),
            maker.spec_len() == rec_offset(all, i as int),
            rec_offset(all, items@.len() as int) + 16 * items@.len() <= u32::MAX,
        decreases items@.len() - i,
    {
        proof {
            lemma_rec_offset_mono(all, i as int, items@.len() as int);
        }
        maker.add(items[i].0.as_slice(), items[i].1.as_slice());
        i = i + 1;
        assert(maker.view() =~= all.subrange(0, i as int));
    }
    assert(all.subrange(0, items@.len() as int) =~= all);
    maker.finalize()
}

} // verus!
