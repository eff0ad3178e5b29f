//! AppleDouble blobs, as written into `__MACOSX` entries of a zip to carry
//! macOS metadata.
//!
//! Layout: magic `0x00051607`, version `0x00020000`, 16 filler bytes, a
//! big-endian entry count, a table of (id, offset, length) triples and then
//! the entry data. Two entries are written: id 9 holds the 32-byte Finder
//! info, id 10 holds the remaining extended attributes, each encoded as
//! `name (UTF-8) ++ 0x00 ++ u32 BE length ++ value`.

use vstd::prelude::*;
use vstd::utf8::*;

use crate::bytes::{
    be16, be16_at, be32, be32_at, bytes_lt, copy_range, lemma_be16_roundtrip, lemma_be32_roundtrip,
    lemma_bytes_lt_irreflexive, lemma_bytes_lt_total, lemma_bytes_lt_transitive, lemma_encode_utf8_nonzero,
    push_all, push_be16, push_be32, read_be16, read_be32, slice_eq, slice_lt,
};
use crate::text::string_from_utf8;

verus! {

broadcast use vstd::utf8::encode_utf8_decode_utf8, vstd::utf8::encode_utf8_valid_utf8;

pub const MAGIC: u32 = 0x0005_1607;

pub const VERSION: u32 = 0x0002_0000;

pub const ENTRY_FINDER_INFO: u32 = 9;

pub const ENTRY_XATTR_BLOB: u32 = 10;

/// One extended attribute: its name and its value.
pub type XattrPair = (Seq<char>, Seq<u8>);

/// The byte key by which attribute names are ordered (the order of `String`).
pub open spec fn name_key(n: Seq<char>) -> Seq<u8> {
    encode_utf8(n)
}

/// Pairs whose names strictly increase in byte order (so no name repeats).
pub open spec fn sorted_pairs(s: Seq<XattrPair>) -> bool {
    forall|i: int, j: int|
        0 <= i < j < s.len() ==> bytes_lt(#[trigger] name_key(s[i].0), #[trigger] name_key(s[j].0))
}

/// Number of leading pairs whose name sorts before `k`.
pub open spec fn lower_bound(s: Seq<XattrPair>, k: Seq<char>) -> int
    decreases s.len(),
{
    if s.len() == 0 || !bytes_lt(name_key(s[0].0), name_key(k)) {
        0
    } else {
        1 + lower_bound(s.drop_first(), k)
    }
}

/// Map insertion on sorted pairs: replace the value of `k`, or add `(k, v)`
/// at its place in the order.
pub open spec fn insert_sorted(s: Seq<XattrPair>, k: Seq<char>, v: Seq<u8>) -> Seq<XattrPair> {
    let p = lower_bound(s, k);
    if p < s.len() && s[p].0 == k {
        s.update(p, (k, v))
    } else {
        s.insert(p, (k, v))
    }
}

/// Extended attributes by name, kept in the byte order of their names.
#[derive(Debug)]
pub struct XattrMap {
    entries: Vec<(String, Vec<u8>)>,
}

impl View for XattrMap {
    type V = Seq<XattrPair>;

    closed spec fn view(&self) -> Seq<XattrPair> {
        self.entries@.map_values(|p: (String, Vec<u8>)| (p.0@, p.1@))
    }
}

impl XattrMap {
    /// The pairs are sorted by name.
    pub closed spec fn wf(&self) -> bool {
        sorted_pairs(self@)
    }

    /// An empty map.
    pub fn new() -> (m: XattrMap)
        ensures
            m.wf(),
            m@ == Seq::<XattrPair>::empty(),
    {
        let m = XattrMap { entries: Vec::new() };
        assert(m@ =~= Seq::<XattrPair>::empty());
        m
    }

    /// Number of attributes.
    pub fn len(&self) -> (n: usize)
        ensures
            n == self@.len(),
    {
        self.entries.len()
    }

    /// Whether there are no attributes.
    pub fn is_empty(&self) -> (b: bool)
        ensures
            b == (self@.len() == 0),
    {
        self.entries.len() == 0
    }

    /// The `i`-th attribute in name order, as copies of its name and value.
    pub fn pair_at(&self, i: usize) -> (r: (String, Vec<u8>))
        requires
            i < self@.len(),
        ensures
            r.0@ == self@[i as int].0,
            r.1@ == self@[i as int].1,
    {
        let name = self.entries[i].0.clone();
        let value = self.entries[i].1.clone();
        (name, value)
    }

    /// Sets `name` to `value`, returning the value it replaced, as
    /// `BTreeMap::insert` does.
    pub fn insert(&mut self, name: String, value: Vec<u8>) -> (old_value: Option<Vec<u8>>)
        requires
            old(self).wf(),
        ensures
            final(self).wf(),
            final(self)@ == insert_sorted(old(self)@, name@, value@),
            ({
                let p = lower_bound(old(self)@, name@);
                &&& old_value is Some <==> (p < old(self)@.len() && old(self)@[p].0 == name@)
                &&& old_value matches Some(v) ==> v@ == old(self)@[p].1
            }),
    {
        let ghost s = self@;
        let ghost k = name@;
        let mut i: usize = 0;
        while i < self.entries.len() && slice_lt(
            self.entries[i].0.as_str().as_bytes(),
            name.as_str().as_bytes(),
        )
            invariant
                i <= self.entries@.len(),
                s == self@,
                k == name@,
                forall|j: int| 0 <= j < i ==> bytes_lt(#[trigger] name_key(s[j].0), name_key(k)),
            decreases self.entries.len() - i,
        {
            i = i + 1;
        }
        proof {
            lemma_lower_bound_at(s, k, i as int);
        }
        let found = i < self.entries.len() && slice_eq(
            self.entries[i].0.as_str().as_bytes(),
            name.as_str().as_bytes(),
        );
        let mut v: Vec<(String, Vec<u8>)> = Vec::new();
        std::mem::swap(&mut v, &mut self.entries);
        assert(v@.map_values(|p: (String, Vec<u8>)| (p.0@, p.1@)) == s);
        if found {
            proof {
                assert(name_key(s[i as int].0) == name_key(k));
                assert(decode_utf8(name_key(s[i as int].0)) == decode_utf8(name_key(k)));
            }
            let (_n, old_v) = v.remove(i);
            v.insert(i, (name, value));
            self.entries = v;
            proof {
                assert(self@ =~= s.update(i as int, (k, value@)));
                lemma_sorted_update(s, i as int, k, value@);
            }
            Some(old_v)
        } else {
            v.insert(i, (name, value));
            self.entries = v;
            proof {
                assert(self@ =~= s.insert(i as int, (k, value@)));
                lemma_sorted_insert(s, i as int, k, value@);
            }
            None
        }
    }
}

impl PartialEq for XattrMap {
    fn eq(&self, other: &Self) -> (r: bool) {
        if self.entries.len() != other.entries.len() {
            return false;
        }
        let mut i: usize = 0;
        while i < self.entries.len()
            invariant
                i <= self@.len(),
                self@.len() == other@.len(),
                self.entries@.len() == other.entries@.len(),
                self@.take(i as int) == other@.take(i as int),
            decreases self.entries.len() - i,
        {
            let a = &self.entries[i];
            let b = &other.entries[i];
            if !slice_eq(a.0.as_str().as_bytes(), b.0.as_str().as_bytes()) || !slice_eq(
                a.1.as_slice(),
                b.1.as_slice(),
            ) {
                proof {
                    if self@ == other@ {
                        assert(self@[i as int] == other@[i as int]);
                    }
                }
                return false;
            }
            proof {
                assert(decode_utf8(encode_utf8(a.0@)) == decode_utf8(encode_utf8(b.0@)));
                assert(self@[i as int] == other@[i as int]);
                assert(self@.take(i + 1) =~= self@.take(i as int).push(self@[i as int]));
                assert(other@.take(i + 1) =~= other@.take(i as int).push(other@[i as int]));
            }
            i = i + 1;
        }
        assert(self@.take(i as int) =~= self@);
        assert(other@.take(i as int) =~= other@);
        true
    }
}

impl vstd::std_specs::cmp::PartialEqSpecImpl for XattrMap {
    open spec fn obeys_eq_spec() -> bool {
        true
    }

    open spec fn eq_spec(&self, other: &XattrMap) -> bool {
        self@ == other@
    }
}

/// `lower_bound` is the first position whose name does not sort before `k`.
pub proof fn lemma_lower_bound_at(s: Seq<XattrPair>, k: Seq<char>, i: int)
    requires
        0 <= i <= s.len(),
        forall|j: int| 0 <= j < i ==> bytes_lt(#[trigger] name_key(s[j].0), name_key(k)),
        i == s.len() || !bytes_lt(name_key(s[i].0), name_key(k)),
    ensures
        lower_bound(s, k) == i,
    decreases i,
{
    if i > 0 {
        let t = s.drop_first();
        assert forall|j: int| 0 <= j < i - 1 implies bytes_lt(#[trigger] name_key(t[j].0), name_key(k)) by {
            assert(t[j] == s[j + 1]);
        }
        if i - 1 < t.len() {
            assert(t[i - 1] == s[i]);
        }
        lemma_lower_bound_at(t, k, i - 1);
        assert(bytes_lt(name_key(s[0].0), name_key(k)));
    }
}

proof fn lemma_sorted_update(s: Seq<XattrPair>, i: int, k: Seq<char>, v: Seq<u8>)
    requires
        sorted_pairs(s),
        0 <= i < s.len(),
        s[i].0 == k,
    ensures
        sorted_pairs(s.update(i, (k, v))),
{
    let t = s.update(i, (k, v));
    assert forall|a: int, b: int| 0 <= a < b < t.len() implies bytes_lt(
        #[trigger] name_key(t[a].0),
        #[trigger] name_key(t[b].0),
    ) by {
        assert(t[a].0 == s[a].0);
        assert(t[b].0 == s[b].0);
    }
}

proof fn lemma_sorted_insert(s: Seq<XattrPair>, i: int, k: Seq<char>, v: Seq<u8>)
    requires
        sorted_pairs(s),
        0 <= i <= s.len(),
        forall|j: int| 0 <= j < i ==> bytes_lt(#[trigger] name_key(s[j].0), name_key(k)),
        i == s.len() || !bytes_lt(name_key(s[i].0), name_key(k)),
        i == s.len() || s[i].0 != k,
    ensures
        sorted_pairs(s.insert(i, (k, v))),
{
    if i < s.len() {
        assert(name_key(s[i].0) != name_key(k)) by {
            if name_key(s[i].0) == name_key(k) {
                assert(decode_utf8(name_key(s[i].0)) == decode_utf8(name_key(k)));
            }
        }
        lemma_bytes_lt_total(name_key(s[i].0), name_key(k));
    }
    let t = s.insert(i, (k, v));
    assert forall|a: int, b: int| 0 <= a < b < t.len() implies bytes_lt(
        #[trigger] name_key(t[a].0),
        #[trigger] name_key(t[b].0),
    ) by {
        if b < i {
            assert(t[a] == s[a] && t[b] == s[b]);
        } else if b == i {
            assert(t[a] == s[a]);
        } else if a == i {
            assert(t[b] == s[b - 1]);
            if b - 1 > i {
                assert(bytes_lt(name_key(s[i].0), name_key(s[b - 1].0)));
                lemma_bytes_lt_transitive(name_key(k), name_key(s[i].0), name_key(s[b - 1].0));
            }
        } else if a < i {
            assert(t[a] == s[a] && t[b] == s[b - 1]);
        } else {
            assert(t[a] == s[a - 1] && t[b] == s[b - 1]);
        }
    }
}


/// One encoded attribute: `name ++ 0x00 ++ u32 BE length ++ value`.
pub open spec fn xattr_record(n: Seq<char>, v: Seq<u8>) -> Seq<u8> {
    encode_utf8(n) + seq![0u8] + be32(v.len() as u32) + v
}

/// The attribute blob of entry 10: the records of all pairs, in order.
pub open spec fn encode_xattrs_spec(s: Seq<XattrPair>) -> Seq<u8>
    decreases s.len(),
{
    if s.len() == 0 {
        Seq::<u8>::empty()
    } else {
        encode_xattrs_spec(s.drop_last()) + xattr_record(s.last().0, s.last().1)
    }
}

/// The first index at or after `i` that holds a zero byte, or the length.
pub open spec fn zero_from(buf: Seq<u8>, i: int) -> int
    decreases buf.len() - i,
{
    if i < 0 || i >= buf.len() {
        buf.len() as int
    } else if buf[i] == 0 {
        i
    } else {
        zero_from(buf, i + 1)
    }
}

/// `zero_from` stays between its start and the end.
pub proof fn lemma_zero_from_bounds(buf: Seq<u8>, i: int)
    requires
        0 <= i,
    ensures
        i <= buf.len() ==> i <= zero_from(buf, i) <= buf.len(),
        zero_from(buf, i) < buf.len() ==> buf[zero_from(buf, i)] == 0,
        forall|j: int| i <= j < zero_from(buf, i) ==> buf[j] != 0,
    decreases buf.len() - i,
{
    if i < buf.len() && buf[i] != 0 {
        lemma_zero_from_bounds(buf, i + 1);
    }
}

/// Decodes records from position `i` on, inserting them into `acc`. Stops
/// (keeping what it has) at a truncated record, and fails on a name that is
/// not UTF-8.
pub open spec fn decode_from(buf: Seq<u8>, i: int, acc: Seq<XattrPair>) -> Option<Seq<XattrPair>>
    decreases buf.len() - i,
{
    if i < 0 || i >= buf.len() {
        Some(acc)
    } else {
        let end = zero_from(buf, i);
        if end >= buf.len() {
            Some(acc)
        } else if !valid_utf8(buf.subrange(i, end)) {
            None
        } else {
            let j = end + 1;
            if j + 4 > buf.len() {
                Some(acc)
            } else {
                let len = be32_at(buf, j);
                let k = j + 4;
                if k + len > buf.len() {
                    Some(acc)
                } else {
                    proof {
                        lemma_zero_from_bounds(buf, i);
                    }
                    decode_from(
                        buf,
                        k + len,
                        insert_sorted(acc, decode_utf8(buf.subrange(i, end)), buf.subrange(k, k + len)),
                    )
                }
            }
        }
    }
}

/// The attributes decoded from an entry-10 blob.
pub open spec fn decode_xattrs_spec(buf: Seq<u8>) -> Option<Seq<XattrPair>> {
    decode_from(buf, 0, Seq::<XattrPair>::empty())
}

/// An entry of an AppleDouble blob: its id and its data.
pub type AdEntry = (u32, Seq<u8>);

/// The entries handed over as `(id, bytes)` values.
pub open spec fn ad_entries_view(es: Seq<(u32, Vec<u8>)>) -> Seq<AdEntry> {
    es.map_values(|e: (u32, Vec<u8>)| (e.0, e.1@))
}

/// Data of the first `n` entries, back to back.
pub open spec fn body_upto(es: Seq<AdEntry>, n: int) -> Seq<u8>
    decreases n,
{
    if n <= 0 {
        Seq::<u8>::empty()
    } else {
        body_upto(es, n - 1) + es[n - 1].1
    }
}

/// Table rows of the first `n` entries; data starts at offset `base`.
pub open spec fn table_upto(es: Seq<AdEntry>, base: int, n: int) -> Seq<u8>
    decreases n,
{
    if n <= 0 {
        Seq::<u8>::empty()
    } else {
        table_upto(es, base, n - 1) + be32(es[n - 1].0) + be32(
            (base + body_upto(es, n - 1).len()) as u32,
        ) + be32(es[n - 1].1.len() as u32)
    }
}

/// The fixed 26-byte header announcing `n` entries.
pub open spec fn header_spec(n: nat) -> Seq<u8> {
    be32(MAGIC) + be32(VERSION) + Seq::new(16, |i: int| 0u8) + be16(n as u16)
}

/// The AppleDouble blob holding `es`.
pub open spec fn serialize_spec(es: Seq<AdEntry>) -> Seq<u8> {
    header_spec(es.len()) + table_upto(es, (26 + 12 * es.len()) as int, es.len() as int) + body_upto(
        es,
        es.len() as int,
    )
}

/// The table entries from position `p` on, `k` of them; `None` when a row is
/// cut off or points past the end.
pub open spec fn parse_table(buf: Seq<u8>, p: int, k: int) -> Option<Seq<AdEntry>>
    decreases k,
{
    if k <= 0 {
        Some(Seq::<AdEntry>::empty())
    } else if p + 12 > buf.len() {
        None
    } else {
        let off = be32_at(buf, p + 4);
        let len = be32_at(buf, p + 8);
        if off + len > buf.len() {
            None
        } else {
            match parse_table(buf, p + 12, k - 1) {
                None => None,
                Some(rest) => Some(
                    seq![(be32_at(buf, p) as u32, buf.subrange(off, off + len))] + rest,
                ),
            }
        }
    }
}

/// The entries of an AppleDouble blob, or `None` when it is not one.
pub open spec fn deserialize_spec(buf: Seq<u8>) -> Option<Seq<AdEntry>> {
    if buf.len() < 26 {
        None
    } else if be32_at(buf, 0) != MAGIC {
        None
    } else {
        parse_table(buf, 26, be16_at(buf, 24))
    }
}

/// The Finder info after applying the first `n` entries: each id-9 entry
/// overwrites its first (up to 32) bytes.
pub open spec fn finder_after(es: Seq<AdEntry>, n: int) -> Seq<u8>
    decreases n,
{
    if n <= 0 {
        Seq::new(32, |i: int| 0u8)
    } else {
        let prev = finder_after(es, n - 1);
        if es[n - 1].0 == ENTRY_FINDER_INFO {
            let m = if es[n - 1].1.len() < 32 { es[n - 1].1.len() as int } else { 32 };
            es[n - 1].1.take(m) + prev.skip(m)
        } else {
            prev
        }
    }
}

/// The attributes after applying the first `n` entries: each id-10 entry
/// that decodes replaces them.
pub open spec fn others_after(es: Seq<AdEntry>, n: int) -> Seq<XattrPair>
    decreases n,
{
    if n <= 0 {
        Seq::<XattrPair>::empty()
    } else {
        let prev = others_after(es, n - 1);
        if es[n - 1].0 != ENTRY_FINDER_INFO && es[n - 1].0 == ENTRY_XATTR_BLOB {
            match decode_xattrs_spec(es[n - 1].1) {
                Some(m) => m,
                None => prev,
            }
        } else {
            prev
        }
    }
}

/// What `parse` reads out of `buf`.
pub open spec fn parse_spec(buf: Seq<u8>) -> Option<(Seq<u8>, Seq<XattrPair>)> {
    match deserialize_spec(buf) {
        None => None,
        Some(es) => Some((finder_after(es, es.len() as int), others_after(es, es.len() as int))),
    }
}

/// What `build` writes: entry 9 with the Finder info, entry 10 with the
/// encoded attributes.
pub open spec fn build_spec(finder_info: Seq<u8>, others: Seq<XattrPair>) -> Seq<u8> {
    serialize_spec(
        seq![(ENTRY_FINDER_INFO, finder_info), (ENTRY_XATTR_BLOB, encode_xattrs_spec(others))],
    )
}

/// Builds the AppleDouble blob for `finder_info` (entry 9) and the other
/// attributes (entry 10).
pub fn build(finder_info: &[u8; 32], others: &XattrMap) -> (out: Vec<u8>)
    requires
        26 + 24 + 32 + encode_xattrs_spec(others@).len() <= usize::MAX,
    ensures
        out@ == build_spec(finder_info@, others@),
{
    let mut fi: Vec<u8> = Vec::new();
    push_all(&mut fi, finder_info.as_slice());
    let blob = encode_xattrs(others);
    let mut entries: Vec<(u32, Vec<u8>)> = Vec::new();
    entries.push((ENTRY_FINDER_INFO, fi));
    entries.push((ENTRY_XATTR_BLOB, blob));
    proof {
        assert(ad_entries_view(entries@) =~= seq![
            (ENTRY_FINDER_INFO, finder_info@),
            (ENTRY_XATTR_BLOB, encode_xattrs_spec(others@)),
        ]);
        reveal_with_fuel(body_upto, 3);
    }
    serialize(entries.as_slice())
}

/// Encodes the attributes in name order.
fn encode_xattrs(map: &XattrMap) -> (out: Vec<u8>)
    ensures
        out@ == encode_xattrs_spec(map@),
{
    let mut out: Vec<u8> = Vec::new();
    let mut i: usize = 0;
    while i < map.entries.len()
        invariant
            i <= map@.len(),
            out@ == encode_xattrs_spec(map@.take(i as int)),
        decreases map.entries.len() - i,
    {
        let name = &map.entries[i].0;
        let value = &map.entries[i].1;
        push_all(&mut out, name.as_str().as_bytes());
        out.push(0);
        push_be32(&mut out, value.len() as u32);
        push_all(&mut out, value.as_slice());
        proof {
            let t = map@.take(i + 1);
            assert(t.drop_last() =~= map@.take(i as int));
            assert(t.last() == map@[i as int]);
        }
        i = i + 1;
    }
    assert(map@.take(i as int) =~= map@);
    out
}

/// Decodes the attribute blob; `None` when a name is not UTF-8.
fn decode_xattrs(buf: &[u8]) -> (r: Option<XattrMap>)
    ensures
        r matches Some(m) ==> m.wf(),
        match r {
            Some(m) => decode_xattrs_spec(buf@) == Some(m@),
            None => decode_xattrs_spec(buf@) is None,
        },
{
    let mut map = XattrMap::new();
    let mut i: usize = 0;
    while i < buf.len()
        invariant
            i <= buf@.len(),
            map.wf(),
            decode_xattrs_spec(buf@) == decode_from(buf@, i as int, map@),
        decreases buf.len() - i,
    {
        let start = i;
        let mut end = i;
        while end < buf.len() && buf[end] != 0
            invariant
                start <= end <= buf@.len(),
                start < buf@.len(),
                zero_from(buf@, start as int) == zero_from(buf@, end as int),
            decreases buf.len() - end,
        {
            end = end + 1;
        }
        if end >= buf.len() {
            return Some(map);
        }
        let name_bytes = copy_range(buf, start, end);
        let name = match string_from_utf8(name_bytes) {
            Some(n) => n,
            None => {
                return None;
            },
        };
        i = end + 1;
        if 4 > buf.len() - i {
            return Some(map);
        }
        let len = read_be32(buf, i);
        i = i + 4;
        if (len as u64) > ((buf.len() - i) as u64) {
            return Some(map);
        }
        let lenu = len as usize;
        let value = copy_range(buf, i, i + lenu);
        i = i + lenu;
        map.insert(name, value);
    }
    Some(map)
}

/// Writes the header, the table and the data of `entries`.
fn serialize(entries: &[(u32, Vec<u8>)]) -> (out: Vec<u8>)
    requires
        26 + 12 * entries@.len() + body_upto(ad_entries_view(entries@), entries@.len() as int).len()
            <= usize::MAX,
    ensures
        out@ == serialize_spec(ad_entries_view(entries@)),
{
    let ghost es = ad_entries_view(entries@);
    let n = entries.len();
    let header_len: usize = 26;
    let table_len: usize = n * 12;
    let mut out: Vec<u8> = Vec::new();
    push_be32(&mut out, MAGIC);
    push_be32(&mut out, VERSION);
    let mut z: usize = 0;
    while z < 16
        invariant
            z <= 16,
            out@ == be32(MAGIC) + be32(VERSION) + Seq::new(z as nat, |i: int| 0u8),
        decreases 16 - z,
    {
        out.push(0);
        z = z + 1;
        assert(out@ =~= be32(MAGIC) + be32(VERSION) + Seq::new(z as nat, |i: int| 0u8));
    }
    push_be16(&mut out, n as u16);
    let mut body: Vec<u8> = Vec::new();
    let mut idx: usize = 0;
    while idx < n
        invariant
            n == entries@.len(),
            es == ad_entries_view(entries@),
            idx <= n,
            header_len == 26,
            table_len == 12 * n,
            26 + 12 * n + body_upto(es, n as int).len() <= usize::MAX,
            out@ == header_spec(n as nat) + table_upto(es, (26 + 12 * n) as int, idx as int),
            body@ == body_upto(es, idx as int),
        decreases n - idx,
    {
        proof {
            lemma_body_upto_mono(es, idx as int, n as int);
        }
        let cursor = header_len + table_len + body.len();
        let id = entries[idx].0;
        let data = &entries[idx].1;
        push_be32(&mut out, id);
        push_be32(&mut out, cursor as u32);
        push_be32(&mut out, data.len() as u32);
        push_all(&mut body, data.as_slice());
        idx = idx + 1;
    }
    push_all(&mut out, body.as_slice());
    out
}

proof fn lemma_body_upto_mono(es: Seq<AdEntry>, i: int, n: int)
    requires
        0 <= i <= n <= es.len(),
    ensures
        body_upto(es, i).len() <= body_upto(es, n).len(),
    decreases n - i,
{
    if i < n {
        lemma_body_upto_mono(es, i, n - 1);
    }
}

/// Splits an AppleDouble blob into its entries; `None` when it is too short,
/// has the wrong magic, or a table row is cut off or points past the end.
fn deserialize(buf: &[u8]) -> (r: Option<Vec<(u32, Vec<u8>)>>)
    ensures
        match r {
            Some(v) => deserialize_spec(buf@) == Some(ad_entries_view(v@)),
            None => deserialize_spec(buf@) is None,
        },
{
    if buf.len() < 26 {
        return None;
    }
    let magic = read_be32(buf, 0);
    if magic != MAGIC {
        return None;
    }
    let num = read_be16(buf, 24) as usize;
    let mut entries: Vec<(u32, Vec<u8>)> = Vec::new();
    let mut p: usize = 26;
    let mut k: usize = 0;
    while k < num
        invariant
            26 <= p <= buf@.len(),
            p == 26 + 12 * k,
            k <= num,
            num == be16_at(buf@, 24),
            deserialize_spec(buf@) == match parse_table(buf@, p as int, num - k) {
                None => None,
                Some(rest) => Some(ad_entries_view(entries@) + rest),
            },
        decreases num - k,
    {
        if 12 > buf.len() - p {
            return None;
        }
        let id = read_be32(buf, p);
        let off = read_be32(buf, p + 4);
        let len = read_be32(buf, p + 8);
        p = p + 12;
        if (off as u64) + (len as u64) > buf.len() as u64 {
            return None;
        }
        let data = copy_range(buf, off as usize, (off as usize) + (len as usize));
        let ghost before = ad_entries_view(entries@);
        entries.push((id, data));
        proof {
            assert(ad_entries_view(entries@) =~= before + seq![(id, data@)]);
            match parse_table(buf@, p as int, num - k - 1) {
                None => {},
                Some(rest) => {
                    assert(before + (seq![(id, data@)] + rest) =~= ad_entries_view(entries@) + rest);
                },
            }
        }
        k = k + 1;
    }
    assert(ad_entries_view(entries@) + Seq::<AdEntry>::empty() =~= ad_entries_view(entries@));
    Some(entries)
}

/// Reads an AppleDouble blob back into (Finder info, other attributes);
/// `None` when the blob is not recognised.
pub fn parse(buf: &[u8]) -> (r: Option<([u8; 32], XattrMap)>)
    ensures
        match r {
            Some((fi, others)) => others.wf() && parse_spec(buf@) == Some((fi@, others@)),
            None => parse_spec(buf@) is None,
        },
{
    let entries = match deserialize(buf) {
        Some(e) => e,
        None => {
            return None;
        },
    };
    let ghost es = ad_entries_view(entries@);
    let mut finder_info = [0u8; 32];
    let mut others = XattrMap::new();
    let mut idx: usize = 0;
    assert(finder_info@ =~= finder_after(es, 0));
    while idx < entries.len()
        invariant
            es == ad_entries_view(entries@),
            idx <= entries@.len(),
            others.wf(),
            finder_info@ == finder_after(es, idx as int),
            others@ == others_after(es, idx as int),
        decreases entries.len() - idx,
    {
        let id = entries[idx].0;
        let data = &entries[idx].1;
        if id == ENTRY_FINDER_INFO {
            let n = if data.len() < 32 { data.len() } else { 32 };
            let ghost prev = finder_info@;
            let mut t: usize = 0;
            while t < n
                invariant
                    t <= n <= 32,
                    n <= data@.len(),
                    finder_info@ == data@.take(t as int) + prev.skip(t as int),
                    prev.len() == 32,
                decreases n - t,
            {
                finder_info[t] = data[t];
                t = t + 1;
                assert(finder_info@ =~= data@.take(t as int) + prev.skip(t as int));
            }
        } else if id == ENTRY_XATTR_BLOB {
            match decode_xattrs(data.as_slice()) {
                Some(m) => {
                    others = m;
                },
                None => {},
            }
        }
        idx = idx + 1;
    }
    Some((finder_info, others))
}

/// The Finder info written for a file whose `com.apple.FinderInfo`
/// attribute is `value`: its first 32 bytes, zero-padded.
pub fn finder_info_of(value: &[u8]) -> (fi: [u8; 32])
    ensures
        fi@ == value@.take(if value@.len() < 32 { value@.len() as int } else { 32 }) + Seq::new(32, |i: int| 0u8).skip(
            if value@.len() < 32 { value@.len() as int } else { 32 },
        ),
{
    let mut fi = [0u8; 32];
    let n = if value.len() < 32 { value.len() } else { 32 };
    let ghost zero = fi@;
    assert(zero =~= Seq::new(32, |i: int| 0u8));
    let mut t: usize = 0;
    while t < n
        invariant
            t <= n <= 32,
            n <= value@.len(),
            zero == Seq::new(32, |i: int| 0u8),
            fi@ == value@.take(t as int) + zero.skip(t as int),
        decreases n - t,
    {
        fi[t] = value[t];
        t = t + 1;
        assert(fi@ =~= value@.take(t as int) + zero.skip(t as int));
    }
    fi
}

/// Encoding a concatenation concatenates the encodings.
pub proof fn lemma_encode_xattrs_concat(p: Seq<XattrPair>, q: Seq<XattrPair>)
    ensures
        encode_xattrs_spec(p + q) == encode_xattrs_spec(p) + encode_xattrs_spec(q),
    decreases q.len(),
{
    if q.len() == 0 {
        assert(p + q =~= p);
        assert(encode_xattrs_spec(p) + encode_xattrs_spec(q) =~= encode_xattrs_spec(p));
    } else {
        assert((p + q).drop_last() =~= p + q.drop_last());
        assert((p + q).last() == q.last());
        lemma_encode_xattrs_concat(p, q.drop_last());
        assert(encode_xattrs_spec(p + q) =~= encode_xattrs_spec(p) + encode_xattrs_spec(q));
    }
}

proof fn lemma_zero_from_at(buf: Seq<u8>, i: int, l: int)
    requires
        0 <= i,
        0 <= l,
        i + l < buf.len(),
        buf[i + l] == 0,
        forall|j: int| i <= j < i + l ==> buf[j] != 0,
    ensures
        zero_from(buf, i) == i + l,
    decreases l,
{
    if l > 0 {
        lemma_zero_from_at(buf, i + 1, l - 1);
    }
}

/// The names are free of NUL and the values fit a 32-bit length.
pub open spec fn encodable_pairs(s: Seq<XattrPair>) -> bool {
    forall|i: int|
        0 <= i < s.len() ==> !(#[trigger] s[i]).0.contains('\0') && s[i].1.len() < 0x1_0000_0000
}

proof fn lemma_encode_single(p: XattrPair)
    ensures
        encode_xattrs_spec(seq![p]) == xattr_record(p.0, p.1),
{
    assert(seq![p].drop_last() =~= Seq::<XattrPair>::empty());
    assert(encode_xattrs_spec(Seq::<XattrPair>::empty()) == Seq::<u8>::empty());
    assert(Seq::<u8>::empty() + xattr_record(p.0, p.1) =~= xattr_record(p.0, p.1));
}

/// One decoding step over a well-formed record placed at `pre.len()`.
proof fn lemma_decode_step(
    pre: Seq<u8>,
    n: Seq<char>,
    v: Seq<u8>,
    rest: Seq<u8>,
    acc: Seq<XattrPair>,
)
    requires
        !n.contains('\0'),
        v.len() < 0x1_0000_0000,
    ensures
        decode_from(pre + xattr_record(n, v) + rest, pre.len() as int, acc) == decode_from(
            pre + xattr_record(n, v) + rest,
            (pre.len() + xattr_record(n, v).len()) as int,
            insert_sorted(acc, n, v),
        ),
{
    let buf = pre + xattr_record(n, v) + rest;
    let i = pre.len() as int;
    let nb = encode_utf8(n);
    let l = nb.len() as int;
    lemma_encode_utf8_nonzero(n);
    let vl = v.len() as u32;
    assert(buf =~= pre + nb + seq![0u8] + be32(vl) + v + rest);
    assert forall|j: int| i <= j < i + l implies buf[j] != 0 by {
        assert(buf[j] == nb[j - i]);
        if nb[j - i] == 0 {
            assert(nb.contains(0u8));
        }
    }
    assert(buf[i + l] == 0);
    lemma_zero_from_at(buf, i, l);
    assert(buf.subrange(i, i + l) =~= nb);
    let jj = i + l + 1;
    lemma_be32_roundtrip(vl);
    assert(buf.subrange(jj, jj + 4) =~= be32(vl));
    assert(be32_at(buf, jj) == be32_at(be32(vl), 0));
    let k = jj + 4;
    assert(buf.subrange(k, k + v.len()) =~= v);
    assert(xattr_record(n, v).len() == l + 5 + v.len());
}

proof fn lemma_decode_encode_from(s: Seq<XattrPair>, m: int)
    requires
        sorted_pairs(s),
        encodable_pairs(s),
        0 <= m <= s.len(),
    ensures
        decode_from(encode_xattrs_spec(s), encode_xattrs_spec(s.take(m)).len() as int, s.take(m))
            == Some(s),
    decreases s.len() - m,
{
    let buf = encode_xattrs_spec(s);
    let pre = encode_xattrs_spec(s.take(m));
    assert(s.take(m) + s.skip(m) =~= s);
    lemma_encode_xattrs_concat(s.take(m), s.skip(m));
    if m == s.len() {
        assert(s.take(m) =~= s);
        assert(s.skip(m) =~= Seq::<XattrPair>::empty());
    } else {
        let n = s[m].0;
        let v = s[m].1;
        assert(!s[m].0.contains('\0') && s[m].1.len() < 0x1_0000_0000);
        let rec = xattr_record(n, v);
        assert(s.skip(m) =~= seq![s[m]] + s.skip(m + 1));
        lemma_encode_xattrs_concat(seq![s[m]], s.skip(m + 1));
        lemma_encode_single(s[m]);
        let rest = encode_xattrs_spec(s.skip(m + 1));
        assert(buf =~= pre + rec + rest);
        lemma_decode_step(pre, n, v, rest, s.take(m));
        assert(s.take(m + 1) =~= s.take(m) + seq![s[m]]);
        lemma_encode_xattrs_concat(s.take(m), seq![s[m]]);
        assert forall|j: int| 0 <= j < m implies bytes_lt(
            #[trigger] name_key(s.take(m)[j].0),
            name_key(n),
        ) by {
            assert(s.take(m)[j] == s[j]);
        }
        lemma_lower_bound_at(s.take(m), n, m);
        assert(insert_sorted(s.take(m), n, v) =~= s.take(m + 1));
        lemma_decode_encode_from(s, m + 1);
    }
}

/// Decoding the encoding of sorted, encodable attributes gives them back.
pub proof fn lemma_decode_encode_xattrs(s: Seq<XattrPair>)
    requires
        sorted_pairs(s),
        encodable_pairs(s),
    ensures
        decode_xattrs_spec(encode_xattrs_spec(s)) == Some(s),
{
    assert(s.take(0) =~= Seq::<XattrPair>::empty());
    lemma_decode_encode_from(s, 0);
}

/// The two-entry blob, spelled out.
proof fn lemma_serialize_two(fi: Seq<u8>, blob: Seq<u8>)
    requires
        fi.len() == 32,
    ensures
        serialize_spec(seq![(ENTRY_FINDER_INFO, fi), (ENTRY_XATTR_BLOB, blob)]) == header_spec(2)
            + be32(9) + be32(50) + be32(32) + be32(10) + be32(82) + be32(blob.len() as u32) + fi
            + blob,
{
    let es: Seq<AdEntry> = seq![(ENTRY_FINDER_INFO, fi), (ENTRY_XATTR_BLOB, blob)];
    reveal_with_fuel(body_upto, 3);
    reveal_with_fuel(table_upto, 3);
    assert(body_upto(es, 0) =~= Seq::<u8>::empty());
    assert(body_upto(es, 1) =~= fi);
    assert(body_upto(es, 2) =~= fi + blob);
    assert(table_upto(es, 50, 1) =~= be32(9) + be32(50) + be32(32));
    assert(table_upto(es, 50, 2) =~= be32(9) + be32(50) + be32(32) + be32(10) + be32(82) + be32(
        blob.len() as u32,
    ));
}

/// The table of the two-entry blob reads back as its two entries.
#[verifier::rlimit(60)]
proof fn lemma_deserialize_two(fi: Seq<u8>, blob: Seq<u8>)
    requires
        fi.len() == 32,
        82 + blob.len() < 0x1_0000_0000,
    ensures
        deserialize_spec(
            serialize_spec(seq![(ENTRY_FINDER_INFO, fi), (ENTRY_XATTR_BLOB, blob)]),
        ) == Some(seq![(ENTRY_FINDER_INFO, fi), (ENTRY_XATTR_BLOB, blob)]),
{
    let es: Seq<AdEntry> = seq![(ENTRY_FINDER_INFO, fi), (ENTRY_XATTR_BLOB, blob)];
    let bl = blob.len() as u32;
    lemma_serialize_two(fi, blob);
    let buf = serialize_spec(es);
    assert(buf =~= be32(MAGIC) + be32(VERSION) + Seq::new(16, |i: int| 0u8) + be16(2) + be32(9)
        + be32(50) + be32(32) + be32(10) + be32(82) + be32(bl) + fi + blob);
    lemma_be32_roundtrip(MAGIC);
    lemma_be32_roundtrip(9);
    lemma_be32_roundtrip(50);
    lemma_be32_roundtrip(32);
    lemma_be32_roundtrip(10);
    lemma_be32_roundtrip(82);
    lemma_be32_roundtrip(bl);
    lemma_be16_roundtrip(2);
    assert(buf.subrange(0, 4) =~= be32(MAGIC));
    assert(buf.subrange(24, 26) =~= be16(2));
    assert(buf.subrange(26, 30) =~= be32(9));
    assert(buf.subrange(30, 34) =~= be32(50));
    assert(buf.subrange(34, 38) =~= be32(32));
    assert(buf.subrange(38, 42) =~= be32(10));
    assert(buf.subrange(42, 46) =~= be32(82));
    assert(buf.subrange(46, 50) =~= be32(bl));
    assert(be32_at(buf, 0) == be32_at(be32(MAGIC), 0));
    assert(be16_at(buf, 24) == be16_at(be16(2), 0));
    assert(be32_at(buf, 26) == be32_at(be32(9), 0));
    assert(be32_at(buf, 30) == be32_at(be32(50), 0));
    assert(be32_at(buf, 34) == be32_at(be32(32), 0));
    assert(be32_at(buf, 38) == be32_at(be32(10), 0));
    assert(be32_at(buf, 42) == be32_at(be32(82), 0));
    assert(be32_at(buf, 46) == be32_at(be32(bl), 0));
    assert(bl == blob.len());
    assert(buf.len() == 82 + blob.len());
    assert(buf.subrange(50, 82) =~= fi);
    assert(buf.subrange(82, 82 + blob.len() as int) =~= blob);
    reveal_with_fuel(parse_table, 3);
    assert(parse_table(buf, 50, 0) == Some(Seq::<AdEntry>::empty()));
    assert(parse_table(buf, 38, 1) =~= Some(seq![(ENTRY_XATTR_BLOB, blob)]));
    assert(seq![(ENTRY_FINDER_INFO, fi)] + seq![(ENTRY_XATTR_BLOB, blob)] =~= es);
    assert(parse_table(buf, 26, 2) == Some(es));
}

/// Law: what `build` writes, `parse` reads back unchanged: the same Finder
/// info and the same attributes, provided no attribute name contains NUL and
/// every length fits the format's 32-bit fields.
pub proof fn law_parse_build_roundtrip(finder_info: [u8; 32], others: XattrMap)
    requires
        others.wf(),
        encodable_pairs(others@),
        82 + encode_xattrs_spec(others@).len() < 0x1_0000_0000,
    ensures
        parse_spec(build_spec(finder_info@, others@)) == Some((finder_info@, others@)),
{
    let fi = finder_info@;
    let blob = encode_xattrs_spec(others@);
    let es: Seq<AdEntry> = seq![(ENTRY_FINDER_INFO, fi), (ENTRY_XATTR_BLOB, blob)];
    lemma_deserialize_two(fi, blob);
    assert(deserialize_spec(build_spec(fi, others@)) == Some(es));
    reveal_with_fuel(finder_after, 3);
    assert(finder_after(es, 0) =~= Seq::new(32, |i: int| 0u8));
    assert(finder_after(es, 1) =~= fi.take(32) + finder_after(es, 0).skip(32));
    assert(fi.take(32) + finder_after(es, 0).skip(32) =~= fi);
    assert(finder_after(es, 2) == fi);
    lemma_decode_encode_xattrs(others@);
    reveal_with_fuel(others_after, 3);
    assert(others_after(es, 2) == others@);
}
} // verus!
