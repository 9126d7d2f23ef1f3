//! The hash store: the per-disk file of `path:hex` records, its parser and
//! serializer, and the reconciliation of stored records with the files found
//! on disk.

use vstd::prelude::*;

use crate::error::{location_suffix, with_line_number, Error, Errors};
use crate::target::{nfc_of, TargetFile};
use crate::text::{chars_of, push_char, push_str, string_of};

verus! {

/// A 128-bit content hash.
pub type Digest128 = [u8; 16];

/// A record as the contracts see it: normalized path and hash bytes.
pub type RecordView = (Seq<char>, Seq<u8>);

// ---------------------------------------------------------------------------
// Hexadecimal notation

/// The lower-case hexadecimal digit of `n`, for `n < 16`.
pub open spec fn hex_char(n: int) -> char {
    seq!['0', '1', '2', '3', '4', '5', '6', '7', '8', '9', 'a', 'b', 'c', 'd', 'e', 'f'][n]
}

/// Two lower-case hexadecimal digits per byte, high nibble first.
pub open spec fn hex_encode(b: Seq<u8>) -> Seq<char> {
    Seq::new(
        2 * b.len(),
        |j: int|
            if j % 2 == 0 {
                hex_char(b[j / 2] as int / 16)
            } else {
                hex_char(b[j / 2] as int % 16)
            },
    )
}

/// The value of a hexadecimal digit of either case.
pub open spec fn hex_value(c: char) -> Option<int> {
    let u = c as u32;
    if 48 <= u <= 57 {
        Some(u - 48)
    } else if 97 <= u <= 102 {
        Some(u - 87)
    } else if 65 <= u <= 70 {
        Some(u - 55)
    } else {
        None
    }
}

/// An even number of hexadecimal digits.
pub open spec fn is_hex_text(s: Seq<char>) -> bool {
    &&& s.len() % 2 == 0
    &&& forall|i: int| 0 <= i < s.len() ==> (#[trigger] hex_value(s[i])) is Some
}

/// The bytes that the digit pairs of `s` stand for.
pub open spec fn hex_decode(s: Seq<char>) -> Seq<u8> {
    Seq::new(
        s.len() / 2,
        |i: int| (hex_value(s[2 * i])->0 * 16 + hex_value(s[2 * i + 1])->0) as u8,
    )
}

/// Relies on `hex::encode`: two lower-case digits per byte, high nibble first.
#[verifier::external_body]
fn encode_hex(b: &[u8]) -> (r: String)
    ensures
        r@ == hex_encode(b@),
{
    hex::encode(b)
}

/// Relies on `hex::decode`: it accepts an even number of hexadecimal digits of
/// either case (a character outside ASCII never encodes to digit bytes) and
/// returns the byte of each pair.
#[verifier::external_body]
fn decode_hex(s: &str) -> (r: Option<Vec<u8>>)
    ensures
        r is Some <==> is_hex_text(s@),
        r matches Some(v) ==> v@ == hex_decode(s@),
{
    hex::decode(s).ok()
}

proof fn lemma_hex_char_value(n: int)
    requires
        0 <= n < 16,
    ensures
        hex_value(hex_char(n)) == Some(n),
{
    let t = seq!['0', '1', '2', '3', '4', '5', '6', '7', '8', '9', 'a', 'b', 'c', 'd', 'e', 'f'];
    assert(t[0] == '0' && t[1] == '1' && t[2] == '2' && t[3] == '3' && t[4] == '4');
    assert(t[5] == '5' && t[6] == '6' && t[7] == '7' && t[8] == '8' && t[9] == '9');
    assert(t[10] == 'a' && t[11] == 'b' && t[12] == 'c' && t[13] == 'd' && t[14] == 'e'
        && t[15] == 'f');
}

/// Decoding the lower-case notation of any bytes gives those bytes back.
pub proof fn lemma_hex_round_trip(b: Seq<u8>)
    ensures
        is_hex_text(hex_encode(b)),
        hex_decode(hex_encode(b)) == b,
{
    let e = hex_encode(b);
    assert forall|i: int| 0 <= i < e.len() implies (#[trigger] hex_value(e[i])) is Some by {
        lemma_hex_char_value(b[i / 2] as int / 16);
        lemma_hex_char_value(b[i / 2] as int % 16);
    }
    assert forall|i: int| 0 <= i < b.len() implies #[trigger] hex_decode(e)[i] == b[i] by {
        assert((2 * i) / 2 == i && (2 * i) % 2 == 0);
        assert((2 * i + 1) / 2 == i && (2 * i + 1) % 2 == 1);
        lemma_hex_char_value(b[i] as int / 16);
        lemma_hex_char_value(b[i] as int % 16);
    }
    assert(hex_decode(e) =~= b);
}

// ---------------------------------------------------------------------------
// Lines

/// The lines of `t` that end in `'\n'`, and the unterminated rest.
pub open spec fn split_lines(t: Seq<char>) -> (Seq<Seq<char>>, Seq<char>)
    decreases t.len(),
{
    if t.len() == 0 {
        (Seq::empty(), Seq::empty())
    } else {
        let (done, rest) = split_lines(t.drop_last());
        if t.last() == '\n' {
            (done.push(rest), Seq::empty())
        } else {
            (done, rest.push(t.last()))
        }
    }
}

/// The lines of `t`: split at each `'\n'`, with a last line where text follows
/// the final `'\n'`.
pub open spec fn lines_of(t: Seq<char>) -> Seq<Seq<char>> {
    let (done, rest) = split_lines(t);
    if rest.len() == 0 {
        done
    } else {
        done.push(rest)
    }
}

proof fn lemma_split_prefix(t: Seq<char>, j: int)
    requires
        0 <= j <= t.len(),
    ensures
        split_lines(t.take(j)).0.len() <= split_lines(t).0.len(),
        forall|k: int|
            0 <= k < split_lines(t.take(j)).0.len() ==> split_lines(t).0[k] == split_lines(
                t.take(j),
            ).0[k],
    decreases t.len(),
{
    if j < t.len() {
        assert(t.drop_last().take(j) == t.take(j));
        lemma_split_prefix(t.drop_last(), j);
    } else {
        assert(t.take(j) == t);
    }
}

proof fn lemma_split_no_newline(a: Seq<char>, b: Seq<char>)
    requires
        forall|i: int| 0 <= i < b.len() ==> b[i] != '\n',
    ensures
        split_lines(a + b) == (split_lines(a).0, split_lines(a).1 + b),
    decreases b.len(),
{
    if b.len() == 0 {
        assert(a + b == a);
        assert(split_lines(a).1 + b == split_lines(a).1);
    } else {
        lemma_split_no_newline(a, b.drop_last());
        assert((a + b).drop_last() == a + b.drop_last());
        assert((split_lines(a).1 + b.drop_last()).push(b.last()) == split_lines(a).1 + b);
    }
}

// ---------------------------------------------------------------------------
// Records

/// The index of the first `':'` in `l`, or its length where it has none.
pub open spec fn colon_index(l: Seq<char>) -> int
    decreases l.len(),
{
    if l.len() == 0 {
        0
    } else {
        let k = colon_index(l.drop_last());
        if k < l.len() - 1 {
            k
        } else if l.last() == ':' {
            l.len() - 1
        } else {
            l.len() as int
        }
    }
}

proof fn lemma_colon_index(l: Seq<char>)
    ensures
        0 <= colon_index(l) <= l.len(),
        forall|m: int| 0 <= m < colon_index(l) ==> l[m] != ':',
        colon_index(l) < l.len() ==> l[colon_index(l)] == ':',
    decreases l.len(),
{
    if l.len() > 0 {
        lemma_colon_index(l.drop_last());
        assert forall|m: int| 0 <= m < l.len() - 1 implies l.drop_last()[m] == l[m] by {}
    }
}

/// The record that line `l` holds: the path before its first `':'`, and the
/// 16 bytes that the 32 hexadecimal digits after it stand for.
pub open spec fn parse_record(l: Seq<char>) -> Option<RecordView> {
    let k = colon_index(l);
    let h = l.subrange(k + 1, l.len() as int);
    if k < l.len() && is_hex_text(h) && h.len() == 32 {
        Some((l.take(k), hex_decode(h)))
    } else {
        None
    }
}

/// The records of `ls`, where every line holds one.
pub open spec fn parse_records(ls: Seq<Seq<char>>) -> Option<Seq<RecordView>>
    decreases ls.len(),
{
    if ls.len() == 0 {
        Some(Seq::empty())
    } else {
        match (parse_records(ls.drop_last()), parse_record(ls.last())) {
            (Some(rs), Some(r)) => Some(rs.push(r)),
            _ => None,
        }
    }
}

/// The map that `rs` describes; of two records with one path, the later one counts.
pub open spec fn records_map(rs: Seq<RecordView>) -> Map<Seq<char>, Seq<u8>>
    decreases rs.len(),
{
    if rs.len() == 0 {
        Map::empty()
    } else {
        records_map(rs.drop_last()).insert(rs.last().0, rs.last().1)
    }
}

/// What a hash store file holds, where every line is a well-formed record.
pub open spec fn parse_store(t: Seq<char>) -> Option<Map<Seq<char>, Seq<u8>>> {
    match parse_records(lines_of(t)) {
        Some(rs) => Some(records_map(rs)),
        None => None,
    }
}

/// The line that stores one record.
pub open spec fn record_line(path: Seq<char>, hash: Seq<u8>) -> Seq<char> {
    path + seq![':'] + hex_encode(hash) + seq!['\n']
}

/// The text of a hash store file holding `rs`, one line per record, in order.
pub open spec fn store_text(rs: Seq<RecordView>) -> Seq<char>
    decreases rs.len(),
{
    if rs.len() == 0 {
        Seq::empty()
    } else {
        store_text(rs.drop_last()) + record_line(rs.last().0, rs.last().1)
    }
}

/// A path that a record line can hold: no `':'` and no `'\n'`.
pub open spec fn storable_path(p: Seq<char>) -> bool {
    forall|i: int| 0 <= i < p.len() ==> p[i] != ':' && p[i] != '\n'
}

/// Records that a store file can hold and give back unchanged.
pub open spec fn storable(rs: Seq<RecordView>) -> bool {
    forall|i: int| 0 <= i < rs.len() ==> storable_path(#[trigger] rs[i].0) && rs[i].1.len() == 16
}

proof fn lemma_parse_records_all(ls: Seq<Seq<char>>)
    ensures
        parse_records(ls) is Some <==> forall|i: int|
            0 <= i < ls.len() ==> (#[trigger] parse_record(ls[i])) is Some,
        parse_records(ls) matches Some(rs) ==> rs.len() == ls.len() && forall|i: int|
            0 <= i < ls.len() ==> Some(#[trigger] rs[i]) == parse_record(ls[i]),
    decreases ls.len(),
{
    if ls.len() > 0 {
        lemma_parse_records_all(ls.drop_last());
        assert forall|i: int| 0 <= i < ls.len() - 1 implies ls.drop_last()[i] == ls[i] by {}
        if forall|i: int| 0 <= i < ls.len() ==> (#[trigger] parse_record(ls[i])) is Some {
            assert forall|i: int| 0 <= i < ls.drop_last().len() implies (#[trigger] parse_record(
                ls.drop_last()[i],
            )) is Some by {
                assert(parse_record(ls[i]) is Some);
            }
            assert(parse_record(ls[ls.len() - 1]) is Some);
        }
        if parse_records(ls) is None && parse_records(ls.drop_last()) is None {
            let i = choose|i: int|
                0 <= i < ls.drop_last().len() && (#[trigger] parse_record(ls.drop_last()[i])) is None;
            assert(parse_record(ls[i]) is None);
        }
    }
}

proof fn lemma_record_line_parses(path: Seq<char>, hash: Seq<u8>)
    requires
        storable_path(path),
        hash.len() == 16,
    ensures
        parse_record(path + seq![':'] + hex_encode(hash)) == Some((path, hash)),
{
    let l = path + seq![':'] + hex_encode(hash);
    lemma_colon_index(l);
    let k = colon_index(l);
    assert(l[path.len() as int] == ':');
    if k < path.len() {
        assert(l[k] == path[k]);
    }
    assert(k == path.len());
    lemma_hex_round_trip(hash);
    assert(l.subrange(k + 1, l.len() as int) =~= hex_encode(hash));
    assert(l.take(k) =~= path);
}

proof fn lemma_store_text_lines(rs: Seq<RecordView>)
    requires
        storable(rs),
    ensures
        split_lines(store_text(rs)).1.len() == 0,
        split_lines(store_text(rs)).0.len() == rs.len(),
        forall|i: int|
            0 <= i < rs.len() ==> #[trigger] split_lines(store_text(rs)).0[i] == rs[i].0 + seq![
                ':',
            ] + hex_encode(rs[i].1),
    decreases rs.len(),
{
    if rs.len() > 0 {
        let prev = rs.drop_last();
        assert(storable(prev)) by {
            assert forall|i: int| 0 <= i < prev.len() implies storable_path(#[trigger] prev[i].0)
                && prev[i].1.len() == 16 by {
                assert(prev[i] == rs[i]);
            }
        }
        lemma_store_text_lines(prev);
        let (p, h) = rs.last();
        assert(storable_path(rs[rs.len() - 1].0));
        let body = p + seq![':'] + hex_encode(h);
        assert forall|i: int| 0 <= i < body.len() implies body[i] != '\n' by {
            if i > p.len() {
                let j = i - p.len() - 1;
                lemma_hex_char_value(h[j / 2] as int / 16);
                lemma_hex_char_value(h[j / 2] as int % 16);
            }
        }
        lemma_split_no_newline(store_text(prev), body);
        assert(store_text(prev) + body + seq!['\n'] == store_text(rs));
        assert((store_text(prev) + body).push('\n') == store_text(rs));
        assert((store_text(prev) + body).push('\n').drop_last() == store_text(prev) + body);
        assert(split_lines(store_text(prev)).1 + body == body);
    }
}

/// Parsing the text that stores `rs` gives `rs` back, where every path is
/// free of `':'` and `'\n'` and every hash has 16 bytes.
pub proof fn lemma_parse_store_text(rs: Seq<RecordView>)
    requires
        storable(rs),
    ensures
        parse_records(lines_of(store_text(rs))) == Some(rs),
{
    lemma_store_text_lines(rs);
    let ls = lines_of(store_text(rs));
    lemma_parse_records_all(ls);
    assert forall|i: int| 0 <= i < ls.len() implies (#[trigger] parse_record(ls[i])) == Some(rs[i]) by {
        assert(storable_path(rs[i].0));
        lemma_record_line_parses(rs[i].0, rs[i].1);
    }
    let got = parse_records(ls)->0;
    assert(got =~= rs);
}

// ---------------------------------------------------------------------------
// The store

/// No two records share a path.
pub open spec fn distinct_paths(rs: Seq<RecordView>) -> bool {
    forall|i: int, j: int|
        0 <= i < rs.len() && 0 <= j < rs.len() && i != j ==> #[trigger] rs[i].0 != #[trigger] rs[j].0
}

proof fn lemma_records_map_dom(rs: Seq<RecordView>)
    ensures
        forall|k: Seq<char>|
            #[trigger] records_map(rs).dom().contains(k) <==> exists|i: int|
                0 <= i < rs.len() && (#[trigger] rs[i]).0 == k,
    decreases rs.len(),
{
    if rs.len() > 0 {
        lemma_records_map_dom(rs.drop_last());
        assert forall|k: Seq<char>| #[trigger] records_map(rs).dom().contains(k) <==> exists|i: int|
            0 <= i < rs.len() && (#[trigger] rs[i]).0 == k by {
            if records_map(rs).dom().contains(k) && k != rs.last().0 {
                assert(records_map(rs.drop_last()).dom().contains(k));
                let i = choose|i: int|
                    0 <= i < rs.drop_last().len() && (#[trigger] rs.drop_last()[i]).0 == k;
                assert(rs[i] == rs.drop_last()[i]);
            }
            if exists|i: int| 0 <= i < rs.len() && (#[trigger] rs[i]).0 == k {
                let i = choose|i: int| 0 <= i < rs.len() && (#[trigger] rs[i]).0 == k;
                if i < rs.len() - 1 {
                    assert(rs.drop_last()[i] == rs[i]);
                    assert(records_map(rs.drop_last()).dom().contains(k));
                }
            }
            if k == rs.last().0 {
                assert(rs[rs.len() - 1].0 == k);
            }
        }
    }
}

proof fn lemma_records_map_value(rs: Seq<RecordView>, i: int)
    requires
        distinct_paths(rs),
        0 <= i < rs.len(),
    ensures
        records_map(rs).dom().contains(rs[i].0),
        records_map(rs)[rs[i].0] == rs[i].1,
    decreases rs.len(),
{
    if i < rs.len() - 1 {
        let prev = rs.drop_last();
        assert(distinct_paths(prev)) by {
            assert forall|a: int, b: int|
                0 <= a < prev.len() && 0 <= b < prev.len() && a != b implies #[trigger] prev[a].0
                != #[trigger] prev[b].0 by {
                assert(prev[a] == rs[a] && prev[b] == rs[b]);
            }
        }
        assert(prev[i] == rs[i]);
        lemma_records_map_value(prev, i);
        assert(rs[i].0 != rs[rs.len() - 1].0);
    }
}

/// The records of one disk's hash store, each path at most once, in the order
/// in which they were added.
pub struct HashStore {
    records: Vec<(String, Digest128)>,
}

impl View for HashStore {
    type V = Map<Seq<char>, Seq<u8>>;

    open spec fn view(&self) -> Map<Seq<char>, Seq<u8>> {
        records_map(self.spec_records())
    }
}

impl HashStore {
    /// The records, in order.
    pub closed spec fn spec_records(&self) -> Seq<RecordView> {
        self.records@.map_values(|r: (String, Digest128)| (r.0@, r.1@))
    }

    /// Well-formed: no two records share a path, and every hash has 16 bytes.
    pub open spec fn wf(&self) -> bool {
        &&& distinct_paths(self.spec_records())
        &&& forall|i: int|
            0 <= i < self.spec_records().len() ==> (#[trigger] self.spec_records()[i]).1.len()
                == 16
    }

    /// A store without records.
    pub fn new() -> (r: HashStore)
        ensures
            r.wf(),
            r@ == Map::<Seq<char>, Seq<u8>>::empty(),
            r.spec_records() == Seq::<RecordView>::empty(),
    {
        let r = HashStore { records: Vec::new() };
        assert(r.spec_records() =~= Seq::<RecordView>::empty());
        r
    }

    /// The number of records.
    pub fn len(&self) -> (r: usize)
        ensures
            r == self.spec_records().len(),
    {
        self.records.len()
    }

    fn find(&self, path: &String) -> (r: Option<usize>)
        requires
            self.wf(),
        ensures
            r matches Some(i) ==> i < self.spec_records().len() && self.spec_records()[i as int].0
                == path@,
            r is None ==> !self@.dom().contains(path@),
    {
        let mut i: usize = 0;
        while i < self.records.len()
            invariant
                i <= self.records.len(),
                forall|j: int| 0 <= j < i ==> (#[trigger] self.spec_records()[j]).0 != path@,
            decreases self.records.len() - i,
        {
            if self.records[i].0 == *path {
                return Some(i);
            }
            i = i + 1;
        }
        proof {
            lemma_records_map_dom(self.spec_records());
        }
        None
    }

    /// The hash stored for `path`, if any.
    pub fn get(&self, path: &String) -> (r: Option<Digest128>)
        requires
            self.wf(),
        ensures
            r is Some <==> self@.dom().contains(path@),
            r matches Some(h) ==> self@[path@] == h@,
    {
        match self.find(path) {
            Some(i) => {
                proof {
                    lemma_records_map_value(self.spec_records(), i as int);
                }
                Some(self.records[i].1)
            },
            None => None,
        }
    }

    /// Whether a record for `path` is stored.
    pub fn contains(&self, path: &String) -> (r: bool)
        requires
            self.wf(),
        ensures
            r == self@.dom().contains(path@),
    {
        let found = self.find(path);
        proof {
            if let Some(i) = found {
                lemma_records_map_dom(self.spec_records());
                assert(self.spec_records()[i as int].0 == path@);
            }
        }
        found.is_some()
    }

    fn push_new(&mut self, path: String, hash: Digest128)
        requires
            old(self).wf(),
            !old(self)@.dom().contains(path@),
        ensures
            final(self).wf(),
            final(self)@ == old(self)@.insert(path@, hash@),
            final(self).spec_records() == old(self).spec_records().push((path@, hash@)),
    {
        proof {
            lemma_records_map_dom(self.spec_records());
        }
        let ghost p = path@;
        let ghost h = hash@;
        self.records.push((path, hash));
        proof {
            let rs = self.spec_records();
            assert(rs =~= old(self).spec_records().push((p, h)));
            assert(rs.drop_last() =~= old(self).spec_records());
            assert forall|i: int, j: int|
                0 <= i < rs.len() && 0 <= j < rs.len() && i != j implies #[trigger] rs[i].0
                != #[trigger] rs[j].0 by {
                if i == rs.len() - 1 {
                    assert(old(self).spec_records()[j] == rs[j]);
                } else if j == rs.len() - 1 {
                    assert(old(self).spec_records()[i] == rs[i]);
                } else {
                    assert(old(self).spec_records()[i] == rs[i]);
                    assert(old(self).spec_records()[j] == rs[j]);
                }
            }
            assert forall|i: int| 0 <= i < rs.len() implies (#[trigger] rs[i]).1.len() == 16 by {
                if i < rs.len() - 1 {
                    assert(old(self).spec_records()[i] == rs[i]);
                }
            }
        }
    }

    /// Records `hash` for `path`, replacing the hash stored for that path, if any.
    pub fn insert(&mut self, path: String, hash: Digest128)
        requires
            old(self).wf(),
        ensures
            final(self).wf(),
            final(self)@ == old(self)@.insert(path@, hash@),
    {
        match self.find(&path) {
            None => self.push_new(path, hash),
            Some(i) => {
                let ghost p = path@;
                let ghost h = hash@;
                let ghost olds = self.spec_records();
                self.records[i] = (path, hash);
                proof {
                    let rs = self.spec_records();
                    assert(rs =~= olds.update(i as int, (p, h)));
                    assert forall|a: int, b: int|
                        0 <= a < rs.len() && 0 <= b < rs.len() && a != b implies #[trigger] rs[a].0
                        != #[trigger] rs[b].0 by {
                        assert(olds[a].0 == rs[a].0 && olds[b].0 == rs[b].0);
                    }
                    assert forall|a: int| 0 <= a < rs.len() implies (#[trigger] rs[a]).1.len()
                        == 16 by {
                        if a != i {
                            assert(olds[a] == rs[a]);
                        }
                    }
                    lemma_records_map_dom(rs);
                    lemma_records_map_dom(olds);
                    assert forall|k: Seq<char>| #[trigger]
                        records_map(rs).dom().contains(k) == old(self)@.insert(p, h).dom().contains(
                            k,
                        ) by {
                        if records_map(rs).dom().contains(k) {
                            let a = choose|a: int| 0 <= a < rs.len() && (#[trigger] rs[a]).0 == k;
                            assert(olds[a].0 == rs[a].0);
                        }
                        if old(self)@.dom().contains(k) {
                            let a = choose|a: int| 0 <= a < olds.len() && (#[trigger] olds[a]).0 == k;
                            assert(olds[a].0 == rs[a].0);
                        }
                    }
                    assert forall|k: Seq<char>| #[trigger]
                        records_map(rs).dom().contains(k) implies records_map(rs)[k]
                        == old(self)@.insert(p, h)[k] by {
                        let a = choose|a: int| 0 <= a < rs.len() && (#[trigger] rs[a]).0 == k;
                        lemma_records_map_value(rs, a);
                        if a != i {
                            assert(olds[a] == rs[a]);
                            lemma_records_map_value(olds, a);
                        }
                    }
                    assert(records_map(rs) =~= old(self)@.insert(p, h));
                }
            },
        }
    }
}

// ---------------------------------------------------------------------------
// Loading

/// Relies on `String::from_utf8`: it accepts exactly the well-formed UTF-8
/// byte sequences and keeps the characters they encode.
#[verifier::external_body]
fn utf8_to_string(bytes: Vec<u8>) -> (r: Option<String>)
    ensures
        r is Some <==> vstd::utf8::valid_utf8(bytes@),
        r matches Some(s) ==> s@ == vstd::utf8::decode_utf8(bytes@),
{
    String::from_utf8(bytes).ok()
}

/// The text of a hash store file, which must be well-formed UTF-8.
pub fn decode_hash_file_contents(hash_file_bytes: Vec<u8>) -> (r: Result<String, Errors>)
    ensures
        r is Ok <==> vstd::utf8::valid_utf8(hash_file_bytes@),
        r matches Ok(s) ==> s@ == vstd::utf8::decode_utf8(hash_file_bytes@),
        r matches Err(es) ==> es.len() == 1 && es[0].spec_message()
            == "the hash store is not valid UTF-8"@,
{
    match utf8_to_string(hash_file_bytes) {
        Some(s) => Ok(s),
        None => Err(Error::new("the hash store is not valid UTF-8").as_errors()),
    }
}

/// Splits a line at its first `':'` into the path before it and the hash
/// text after it.
pub fn get_filepath_and_hash(line: &Vec<char>) -> (r: Result<(Vec<char>, Vec<char>), Errors>)
    ensures
        r is Ok <==> colon_index(line@) < line@.len(),
        r matches Ok(v) ==> v.0@ == line@.take(colon_index(line@)) && v.1@ == line@.subrange(
            colon_index(line@) + 1,
            line@.len() as int,
        ),
        r matches Err(es) ==> es.len() == 1 && es[0].spec_message()
            == "malformed hash store line"@,
{
    let n = line.len();
    let mut k: usize = 0;
    while k < n && line[k] != ':'
        invariant
            k <= n == line.len(),
            forall|m: int| 0 <= m < k ==> line@[m] != ':',
        decreases n - k,
    {
        k = k + 1;
    }
    proof {
        lemma_colon_index(line@);
    }
    assert(k == colon_index(line@));
    if k == n {
        return Err(Error::new("malformed hash store line").as_errors());
    }
    let mut path_chars: Vec<char> = Vec::new();
    let mut i: usize = 0;
    while i < k
        invariant
            i <= k < n == line.len(),
            path_chars@ == line@.take(i as int),
        decreases k - i,
    {
        path_chars.push(line[i]);
        assert(line@.take(i + 1) == line@.take(i as int).push(line@[i as int]));
        i = i + 1;
    }
    let mut hash_chars: Vec<char> = Vec::new();
    let mut j: usize = k + 1;
    while j < n
        invariant
            k < j <= n == line.len(),
            hash_chars@ == line@.subrange(k + 1, j as int),
        decreases n - j,
    {
        hash_chars.push(line[j]);
        assert(line@.subrange(k + 1, j + 1) == line@.subrange(k + 1, j as int).push(line@[j as int]));
        j = j + 1;
    }
    Ok((path_chars, hash_chars))
}

/// The 16 bytes that the 32 hexadecimal digits of `hash` stand for.
pub fn decode_hash(hash: &str) -> (r: Result<Digest128, Errors>)
    ensures
        r is Ok <==> is_hex_text(hash@) && hash@.len() == 32,
        r matches Ok(d) ==> d@ == hex_decode(hash@),
        r matches Err(es) ==> es.len() == 1 && es[0].spec_message()
            == "malformed hash store line"@,
{
    if hash.unicode_len() != 32 {
        return Err(Error::new("malformed hash store line").as_errors());
    }
    match decode_hex(hash) {
        None => Err(Error::new("malformed hash store line").as_errors()),
        Some(bytes) => {
            let mut digest: Digest128 = [0u8; 16];
            let mut b: usize = 0;
            while b < 16
                invariant
                    b <= 16,
                    bytes.len() == 16,
                    forall|m: int| 0 <= m < b ==> digest@[m] == bytes@[m],
                decreases 16 - b,
            {
                digest[b] = bytes[b];
                b = b + 1;
            }
            assert(digest@ =~= bytes@);
            Ok(digest)
        },
    }
}

/// Reads one line of a store file: the path before the first `':'`, and the
/// 16 bytes that the 32 hexadecimal digits after it stand for.
pub fn parse_hash_file_line(line: &Vec<char>) -> (r: Result<(String, Digest128), Errors>)
    ensures
        r is Ok <==> parse_record(line@) is Some,
        r matches Ok(v) ==> parse_record(line@) == Some((v.0@, v.1@)),
        r matches Err(es) ==> es.len() == 1 && es[0].spec_message()
            == "malformed hash store line"@,
{
    let (path_chars, hash_chars) = get_filepath_and_hash(line)?;
    let hash_text = string_of(&hash_chars);
    let digest = decode_hash(hash_text.as_str())?;
    Ok((string_of(&path_chars), digest))
}

/// Adds the record of `line` to `store`.
fn absorb_line(
    store: &mut HashStore,
    line: &Vec<char>,
    filepath: &str,
    line_number: usize,
) -> (r: Result<(), Errors>)
    requires
        old(store).wf(),
    ensures
        final(store).wf(),
        r is Ok <==> parse_record(line@) is Some,
        r is Err ==> final(store)@ == old(store)@,
        r is Ok ==> final(store)@ == old(store)@.insert(
            (parse_record(line@)->0).0,
            (parse_record(line@)->0).1,
        ),
        r matches Err(es) ==> es.len() == 1 && es[0].spec_message() == "malformed hash store line"@
            + location_suffix(filepath@, line_number as nat),
{
    match with_line_number(parse_hash_file_line(line), filepath, line_number) {
        Ok(v) => {
            let (p, h) = v;
            store.insert(p, h);
            Ok(())
        },
        Err(es) => Err(es),
    }
}

/// The 1-based numbers of the lines of `ls` that hold no record, in order.
pub open spec fn bad_line_numbers(ls: Seq<Seq<char>>) -> Seq<nat>
    decreases ls.len(),
{
    if ls.len() == 0 {
        Seq::empty()
    } else {
        let prev = bad_line_numbers(ls.drop_last());
        if parse_record(ls.last()) is None {
            prev.push(ls.len())
        } else {
            prev
        }
    }
}

/// Every path of `m` can be stored: none holds `':'` or `'\n'`.
pub open spec fn storable_map(m: Map<Seq<char>, Seq<u8>>) -> bool {
    forall|k: Seq<char>| #[trigger] m.dom().contains(k) ==> storable_path(k)
}

proof fn lemma_bad_lines(ls: Seq<Seq<char>>)
    ensures
        parse_records(ls) is Some <==> bad_line_numbers(ls).len() == 0,
    decreases ls.len(),
{
    if ls.len() > 0 {
        lemma_bad_lines(ls.drop_last());
    }
}

proof fn lemma_lines_without_newline(t: Seq<char>)
    ensures
        forall|i: int, j: int|
            0 <= i < split_lines(t).0.len() && 0 <= j < split_lines(t).0[i].len()
                ==> split_lines(t).0[i][j] != '\n',
        forall|j: int| 0 <= j < split_lines(t).1.len() ==> split_lines(t).1[j] != '\n',
        forall|i: int, j: int|
            0 <= i < lines_of(t).len() && 0 <= j < lines_of(t)[i].len() ==> lines_of(t)[i][j] != '\n',
    decreases t.len(),
{
    if t.len() > 0 {
        lemma_lines_without_newline(t.drop_last());
        let (d, r) = split_lines(t.drop_last());
        if t.last() == '\n' {
            assert forall|i: int, j: int|
                0 <= i < d.push(r).len() && 0 <= j < d.push(r)[i].len() implies d.push(r)[i][j]
                != '\n' by {
                if i < d.len() {
                    assert(d.push(r)[i] == d[i]);
                }
            }
        } else {
            assert forall|j: int| 0 <= j < r.push(t.last()).len() implies r.push(t.last())[j]
                != '\n' by {
                if j < r.len() {
                    assert(r.push(t.last())[j] == r[j]);
                }
            }
        }
    }
    let (d, r) = split_lines(t);
    if r.len() > 0 {
        assert forall|i: int, j: int|
            0 <= i < d.push(r).len() && 0 <= j < d.push(r)[i].len() implies d.push(r)[i][j]
            != '\n' by {
            if i < d.len() {
                assert(d.push(r)[i] == d[i]);
            }
        }
    }
}

proof fn lemma_parsed_storable(ls: Seq<Seq<char>>)
    requires
        forall|i: int, j: int| 0 <= i < ls.len() && 0 <= j < ls[i].len() ==> ls[i][j] != '\n',
        parse_records(ls) is Some,
    ensures
        storable_map(records_map(parse_records(ls)->0)),
{
    let rs = parse_records(ls)->0;
    lemma_parse_records_all(ls);
    lemma_records_map_dom(rs);
    assert forall|k: Seq<char>| #[trigger] records_map(rs).dom().contains(k) implies storable_path(
        k,
    ) by {
        let i = choose|i: int| 0 <= i < rs.len() && (#[trigger] rs[i]).0 == k;
        assert(Some(rs[i]) == parse_record(ls[i]));
        lemma_colon_index(ls[i]);
        assert forall|m: int| 0 <= m < k.len() implies k[m] != ':' && k[m] != '\n' by {
            assert(k[m] == ls[i][m]);
        }
    }
}

proof fn lemma_storable_records(s: HashStore)
    requires
        s.wf(),
        storable_map(s@),
    ensures
        storable(s.spec_records()),
{
    let rs = s.spec_records();
    lemma_records_map_dom(rs);
    assert forall|i: int| 0 <= i < rs.len() implies storable_path(#[trigger] rs[i].0) && rs[i].1.len()
        == 16 by {
        assert(s@.dom().contains(rs[i].0));
    }
}

/// Parses the text of a hash store file. Every line must hold a record;
/// each line that does not is reported with its 1-based number.
pub fn parse_hash_store(contents: &str, filepath: &str) -> (r: Result<HashStore, Errors>)
    ensures
        r is Ok <==> parse_store(contents@) is Some,
        r matches Ok(s) ==> s.wf() && Some(s@) == parse_store(contents@) && storable_map(s@),
        r matches Err(es) ==> {
            let bad = bad_line_numbers(lines_of(contents@));
            &&& es.len() == bad.len()
            &&& forall|k: int|
                0 <= k < es.len() ==> (#[trigger] es[k]).spec_message()
                    == "malformed hash store line"@ + location_suffix(filepath@, bad[k])
        },
{
    let t = chars_of(contents);
    let ghost tv = t@;
    let mut cur: Vec<char> = Vec::new();
    let mut store = HashStore::new();
    let mut errors: Errors = Vec::new();
    let mut nlines: usize = 0;
    let ghost mut rs: Seq<RecordView> = Seq::empty();
    let mut i: usize = 0;
    assert(tv.take(0) =~= Seq::<char>::empty());
    while i < t.len()
        invariant
            i <= t.len(),
            tv == t@,
            tv == contents@,
            split_lines(tv.take(i as int)).1 == cur@,
            split_lines(tv.take(i as int)).0.len() == nlines,
            errors.len() == bad_line_numbers(split_lines(tv.take(i as int)).0).len(),
            forall|k: int|
                0 <= k < errors.len() ==> (#[trigger] errors@[k]).spec_message()
                    == "malformed hash store line"@ + location_suffix(
                    filepath@,
                    bad_line_numbers(split_lines(tv.take(i as int)).0)[k],
                ),
            errors.len() == 0 ==> parse_records(split_lines(tv.take(i as int)).0) == Some(rs),
            store.wf(),
            store@ == records_map(rs),
            nlines + cur.len() <= i,
        decreases t.len() - i,
    {
        assert(tv.take(i + 1).drop_last() == tv.take(i as int));
        let c = t[i];
        if c == '\n' {
            let ghost done = split_lines(tv.take(i as int)).0;
            let ghost line = cur@;
            assert(done.push(line).drop_last() == done);
            match absorb_line(&mut store, &cur, filepath, nlines + 1) {
                Ok(()) => {
                    proof {
                        assert(rs.push(parse_record(line)->0).drop_last() == rs);
                        rs = rs.push(parse_record(line)->0);
                    }
                },
                Err(es) => {
                    let mut es = es;
                    errors.append(&mut es);
                },
            }
            cur = Vec::new();
            nlines = nlines + 1;
        } else {
            cur.push(c);
        }
        i = i + 1;
    }
    assert(tv.take(t.len() as int) == tv);
    if cur.len() > 0 {
        let ghost done = split_lines(tv).0;
        let ghost line = cur@;
        assert(done.push(line).drop_last() == done);
        match absorb_line(&mut store, &cur, filepath, nlines + 1) {
            Ok(()) => {
                proof {
                    assert(rs.push(parse_record(line)->0).drop_last() == rs);
                    rs = rs.push(parse_record(line)->0);
                }
            },
            Err(es) => {
                let mut es = es;
                errors.append(&mut es);
            },
        }
    }
    proof {
        lemma_bad_lines(lines_of(tv));
    }
    if errors.len() == 0 {
        proof {
            lemma_lines_without_newline(tv);
            lemma_parsed_storable(lines_of(tv));
        }
        Ok(store)
    } else {
        Err(errors)
    }
}

/// The records stored in a hash store file; a missing file (`None`) holds none.
pub fn load_hash_info(hash_file_bytes: Option<Vec<u8>>, filepath: &str) -> (r: Result<
    HashStore,
    Errors,
>)
    ensures
        hash_file_bytes is None ==> (r matches Ok(s) && s@ == Map::<Seq<char>, Seq<u8>>::empty()),
        hash_file_bytes matches Some(b) ==> {
            &&& r is Ok <==> vstd::utf8::valid_utf8(b@) && parse_store(
                vstd::utf8::decode_utf8(b@),
            ) is Some
            &&& r matches Ok(s) ==> s.wf() && Some(s@) == parse_store(vstd::utf8::decode_utf8(b@))
        },
        r matches Ok(s) ==> s.wf() && storable_map(s@),
{
    match hash_file_bytes {
        None => Ok(HashStore::new()),
        Some(bytes) => {
            let contents = decode_hash_file_contents(bytes)?;
            parse_hash_store(contents.as_str(), filepath)
        },
    }
}

// ---------------------------------------------------------------------------
// Writing

/// `buff` followed by the line that stores `hash` for `target_filepath`.
pub fn add_hash_file_line(buff: String, target_filepath: &str, hash: &Digest128) -> (r: String)
    ensures
        r@ == buff@ + record_line(target_filepath@, hash@),
{
    let ghost start = buff@;
    let mut buff = buff;
    push_str(&mut buff, target_filepath);
    push_char(&mut buff, ':');
    let digits = encode_hex(hash.as_slice());
    push_str(&mut buff, digits.as_str());
    push_char(&mut buff, '\n');
    assert(buff@ =~= start + record_line(target_filepath@, hash@));
    buff
}

/// The text of the store file that holds the records of `store`, in order.
pub fn to_hash_file_contents(store: &HashStore) -> (r: String)
    ensures
        r@ == store_text(store.spec_records()),
{
    let mut text = String::new();
    let mut i: usize = 0;
    while i < store.records.len()
        invariant
            i <= store.records.len(),
            text@ == store_text(store.spec_records().take(i as int)),
        decreases store.records.len() - i,
    {
        assert(store.spec_records().take(i + 1).drop_last() == store.spec_records().take(i as int));
        text = add_hash_file_line(text, store.records[i].0.as_str(), &store.records[i].1);
        i = i + 1;
    }
    assert(store.spec_records().take(i as int) == store.spec_records());
    text
}

// ---------------------------------------------------------------------------
// Reconciliation

/// The normalized paths of `ts`.
pub open spec fn target_paths(ts: Seq<TargetFile>) -> Set<Seq<char>> {
    Set::new(
        |k: Seq<char>|
            exists|i: int| 0 <= i < ts.len() && (#[trigger] ts[i]).spec_normalized_path() == k,
    )
}

/// The targets of `ts` whose path has no record in `m`, in order: the files
/// that still need hashing.
pub open spec fn pending(ts: Seq<TargetFile>, m: Map<Seq<char>, Seq<u8>>) -> Seq<TargetFile> {
    ts.filter(|t: TargetFile| !m.dom().contains(t.spec_normalized_path()))
}

fn is_target_path(target_files: &Vec<TargetFile>, path: &String) -> (r: bool)
    ensures
        r == target_paths(target_files@).contains(path@),
{
    let mut j: usize = 0;
    while j < target_files.len()
        invariant
            j <= target_files.len(),
            forall|i: int|
                0 <= i < j ==> (#[trigger] target_files@[i]).spec_normalized_path() != path@,
        decreases target_files.len() - j,
    {
        if *target_files[j].key() == *path {
            assert(target_files@[j as int].spec_normalized_path() == path@);
            return true;
        }
        j = j + 1;
    }
    false
}

/// Drops the records whose path is not the normalized path of one of
/// `target_files`: the files that are gone from the disk.
pub fn remove_hash_info_for_missing_file(hash_info: HashStore, target_files: &Vec<TargetFile>) -> (r:
    HashStore)
    requires
        hash_info.wf(),
    ensures
        r.wf(),
        r@ == hash_info@.restrict(target_paths(target_files@)),
{
    let ghost rsv = hash_info.spec_records();
    let ghost tp = target_paths(target_files@);
    let mut kept = HashStore::new();
    proof {
        assert(rsv.take(0) =~= Seq::<RecordView>::empty());
        assert(records_map(rsv.take(0)).restrict(tp) =~= kept@);
    }
    let records = hash_info.records;
    assert(forall|j: int|
        0 <= j < records@.len() ==> #[trigger] rsv[j] == (records@[j].0@, records@[j].1@));
    for rec in it: records
        invariant
            it.seq() == records@,
            rsv.len() == records@.len(),
            forall|j: int|
                0 <= j < records@.len() ==> #[trigger] rsv[j] == (records@[j].0@, records@[j].1@),
            distinct_paths(rsv),
            forall|j: int| 0 <= j < rsv.len() ==> (#[trigger] rsv[j]).1.len() == 16,
            tp == target_paths(target_files@),
            kept.wf(),
            kept@ == records_map(rsv.take(it.index() as int)).restrict(tp),
    {
        let ghost i = it.index() as int;
        let ghost before = records_map(rsv.take(i));
        let (p, h) = rec;
        assert(rsv[i] == (p@, h@));
        assert(rsv.take(i + 1).drop_last() == rsv.take(i));
        assert(rsv.take(i + 1).last() == rsv[i]);
        if is_target_path(target_files, &p) {
            proof {
                lemma_records_map_dom(rsv.take(i));
                if before.dom().contains(p@) {
                    let j = choose|j: int| 0 <= j < rsv.take(i).len() && (#[trigger] rsv.take(i)[j]).0 == p@;
                    assert(rsv.take(i)[j] == rsv[j]);
                    assert(j < i);
                    assert(rsv[j].0 != rsv[i].0);
                }
                assert(!before.dom().contains(p@));
                assert(!kept@.dom().contains(p@));
            }
            kept.push_new(p, h);
            assert(kept@ =~= before.insert(p@, h@).restrict(tp));
        } else {
            assert(kept@ =~= before.insert(p@, h@).restrict(tp));
        }
    }
    assert(rsv.take(rsv.len() as int) == rsv);
    kept
}

/// Drops the targets whose normalized path already has a record in
/// `hash_info`: those files are hashed already.
pub fn remove_calculated_file(target_files: Vec<TargetFile>, hash_info: &HashStore) -> (r: Vec<
    TargetFile,
>)
    requires
        hash_info.wf(),
    ensures
        r@ == pending(target_files@, hash_info@),
{
    let ghost ts = target_files@;
    let ghost pred = |t: TargetFile| !hash_info@.dom().contains(t.spec_normalized_path());
    let mut trimmed: Vec<TargetFile> = Vec::new();
    assert(ts.take(0).filter(pred) =~= Seq::<TargetFile>::empty()) by {
        reveal(Seq::filter);
    }
    for target_file in it: target_files
        invariant
            it.seq() == ts,
            pred == (|t: TargetFile| !hash_info@.dom().contains(t.spec_normalized_path())),
            hash_info.wf(),
            trimmed@ == ts.take(it.index() as int).filter(pred),
    {
        let ghost i = it.index() as int;
        assert(ts.take(i + 1).drop_last() == ts.take(i));
        assert(ts.take(i + 1).last() == ts[i]);
        assert(ts.take(i + 1).filter(pred) == if pred(ts[i]) {
            ts.take(i).filter(pred).push(ts[i])
        } else {
            ts.take(i).filter(pred)
        }) by {
            reveal(Seq::filter);
        }
        if !hash_info.contains(target_file.key()) {
            trimmed.push(target_file);
        }
    }
    assert(ts.take(ts.len() as int) == ts);
    trimmed
}

/// Reconciles a loaded store with the files found on disk: the records of
/// vanished files are dropped, and the files that already have a record are
/// left out of the files to hash.
pub fn reconcile(hash_info: HashStore, target_files: Vec<TargetFile>) -> (r: (HashStore, Vec<TargetFile>))
    requires
        hash_info.wf(),
    ensures
        r.0.wf(),
        r.0@ == hash_info@.restrict(target_paths(target_files@)),
        r.1@ == pending(target_files@, r.0@),
{
    let pruned = remove_hash_info_for_missing_file(hash_info, &target_files);
    let remaining = remove_calculated_file(target_files, &pruned);
    (pruned, remaining)
}

// ---------------------------------------------------------------------------
// Laws of the store

/// Rewriting a store and loading the text back gives the same map, where no
/// path holds `':'` or `'\n'`.
pub proof fn lemma_rewrite_then_load(s: HashStore)
    requires
        s.wf(),
        storable_map(s@),
    ensures
        parse_store(store_text(s.spec_records())) == Some(s@),
{
    lemma_storable_records(s);
    lemma_parse_store_text(s.spec_records());
}

/// Reconciliation drops the record of a file that is no longer on disk, and
/// the rewritten store file, loaded back, has no record for it either.
pub proof fn lemma_deletion_pruning(pruned: HashStore, loaded: HashStore, ts: Seq<TargetFile>, k: Seq<char>)
    requires
        pruned.wf(),
        storable_map(loaded@),
        pruned@ == loaded@.restrict(target_paths(ts)),
        !target_paths(ts).contains(k),
    ensures
        !pruned@.dom().contains(k),
        parse_store(store_text(pruned.spec_records())) matches Some(m) && !m.dom().contains(k),
{
    assert(storable_map(pruned@));
    lemma_storable_records(pruned);
    lemma_parse_store_text(pruned.spec_records());
}

/// `m` with a record for each of `files`, with the hash at the same position
/// of `hashes`, added in order: the records that a run appends.
pub open spec fn append_records(
    m: Map<Seq<char>, Seq<u8>>,
    files: Seq<TargetFile>,
    hashes: Seq<Seq<u8>>,
) -> Map<Seq<char>, Seq<u8>>
    decreases files.len(),
{
    if files.len() == 0 || hashes.len() == 0 {
        m
    } else {
        append_records(m, files.drop_last(), hashes.drop_last()).insert(
            files.last().spec_normalized_path(),
            hashes.last(),
        )
    }
}

proof fn lemma_append_records_dom(
    m: Map<Seq<char>, Seq<u8>>,
    files: Seq<TargetFile>,
    hashes: Seq<Seq<u8>>,
)
    requires
        files.len() == hashes.len(),
    ensures
        m.dom().subset_of(append_records(m, files, hashes).dom()),
        forall|i: int|
            0 <= i < files.len() ==> append_records(m, files, hashes).dom().contains(
                (#[trigger] files[i]).spec_normalized_path(),
            ),
    decreases files.len(),
{
    if files.len() > 0 {
        lemma_append_records_dom(m, files.drop_last(), hashes.drop_last());
        assert forall|i: int| 0 <= i < files.len() implies append_records(m, files, hashes).dom().contains(
            (#[trigger] files[i]).spec_normalized_path(),
        ) by {
            if i < files.len() - 1 {
                assert(files.drop_last()[i] == files[i]);
            }
        }
    }
}

proof fn lemma_pending_empty(ts: Seq<TargetFile>, m: Map<Seq<char>, Seq<u8>>)
    requires
        forall|i: int| 0 <= i < ts.len() ==> m.dom().contains((#[trigger] ts[i]).spec_normalized_path()),
    ensures
        pending(ts, m) == Seq::<TargetFile>::empty(),
    decreases ts.len(),
{
    reveal(Seq::filter);
    if ts.len() > 0 {
        assert forall|i: int| 0 <= i < ts.drop_last().len() implies m.dom().contains(
            (#[trigger] ts.drop_last()[i]).spec_normalized_path(),
        ) by {
            assert(ts.drop_last()[i] == ts[i]);
        }
        lemma_pending_empty(ts.drop_last(), m);
        assert(m.dom().contains(ts[ts.len() - 1].spec_normalized_path()));
    }
}

/// A second run on an unchanged set of files hashes nothing: once a run has
/// appended a record for every pending file, reconciling again leaves no file
/// to hash.
pub proof fn lemma_second_run_hashes_nothing(
    loaded: Map<Seq<char>, Seq<u8>>,
    ts: Seq<TargetFile>,
    hashes: Seq<Seq<u8>>,
)
    requires
        hashes.len() == pending(ts, loaded.restrict(target_paths(ts))).len(),
    ensures
        ({
            let pruned = loaded.restrict(target_paths(ts));
            let after = append_records(pruned, pending(ts, pruned), hashes);
            pending(ts, after.restrict(target_paths(ts))) == Seq::<TargetFile>::empty()
        }),
{
    let tp = target_paths(ts);
    let pruned = loaded.restrict(tp);
    let todo = pending(ts, pruned);
    let after = append_records(pruned, todo, hashes);
    lemma_append_records_dom(pruned, todo, hashes);
    let pred = |t: TargetFile| !pruned.dom().contains(t.spec_normalized_path());
    assert forall|i: int| 0 <= i < ts.len() implies after.restrict(tp).dom().contains(
        (#[trigger] ts[i]).spec_normalized_path(),
    ) by {
        let k = ts[i].spec_normalized_path();
        assert(tp.contains(k));
        if !pruned.dom().contains(k) {
            ts.lemma_filter_contains(pred, i);
            let j = choose|j: int| 0 <= j < todo.len() && todo[j] == ts[i];
            assert(after.dom().contains(todo[j].spec_normalized_path()));
        }
    }
    lemma_pending_empty(ts, after.restrict(tp));
}

proof fn lemma_pending_kept(ts: Seq<TargetFile>, m: Map<Seq<char>, Seq<u8>>)
    requires
        forall|i: int| 0 <= i < ts.len() ==> (#[trigger] ts[i]).wf(),
    ensures
        forall|i: int|
            0 <= i < pending(ts, m).len() ==> (#[trigger] pending(ts, m)[i]).wf() && !m.dom().contains(
                pending(ts, m)[i].spec_normalized_path(),
            ),
    decreases ts.len(),
{
    reveal(Seq::filter);
    if ts.len() > 0 {
        assert forall|i: int| 0 <= i < ts.drop_last().len() implies (#[trigger] ts.drop_last()[i]).wf() by {
            assert(ts.drop_last()[i] == ts[i]);
        }
        lemma_pending_kept(ts.drop_last(), m);
        let last = ts[ts.len() - 1];
        assert(last.wf());
        let prev = pending(ts.drop_last(), m);
        if !m.dom().contains(last.spec_normalized_path()) {
            assert(pending(ts, m) == prev.push(last));
            assert forall|i: int| 0 <= i < prev.push(last).len() implies (#[trigger] prev.push(
                last,
            )[i]).wf() && !m.dom().contains(prev.push(last)[i].spec_normalized_path()) by {
                if i < prev.len() {
                    assert(prev.push(last)[i] == prev[i]);
                }
            }
        } else {
            assert(pending(ts, m) == prev);
        }
    }
}

/// Two paths that differ only in Unicode normalization share one record: once
/// a file is hashed under one spelling, no file found under the other
/// spelling is left to hash.
pub proof fn lemma_normalization_equivalence(
    hashed: Seq<char>,
    found: Seq<char>,
    ts: Seq<TargetFile>,
    m: Map<Seq<char>, Seq<u8>>,
)
    requires
        nfc_of(hashed) == nfc_of(found),
        m.dom().contains(nfc_of(hashed)),
        forall|i: int| 0 <= i < ts.len() ==> (#[trigger] ts[i]).wf(),
    ensures
        forall|i: int|
            0 <= i < pending(ts, m).len() ==> (#[trigger] pending(ts, m)[i]).spec_actual_path()
                != found,
{
    lemma_pending_kept(ts, m);
}

} // verus!
