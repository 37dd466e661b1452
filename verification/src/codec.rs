//! The record codec: one day's observations to and from the compact
//! binary entry format.
//!
//! Layout per entry: one byte hour, one byte mental score, one byte
//! physical score, then zero or more two-byte big-endian tag ids,
//! terminated by the two-byte sentinel `0xFFFF`. The sentinel is not a
//! usable tag id, so real tags live in `0..=0xFFFE`. Decoding reads
//! strictly sequentially and rejects truncated input.

use vstd::prelude::*;

verus! {

/// One observation: an hour of day, two scores, and an ordered list of
/// tag ids (duplicates permitted at this layer).
#[derive(Debug, PartialEq, Eq)]
pub struct DataEntry {
    pub hour: u8,
    pub mental_score: u8,
    pub physical_score: u8,
    pub tags: Vec<u16>,
}

/// The mathematical shape of one observation.
pub struct EntryView {
    pub hour: u8,
    pub mental_score: u8,
    pub physical_score: u8,
    pub tags: Seq<u16>,
}

impl View for DataEntry {
    type V = EntryView;

    open spec fn view(&self) -> EntryView {
        EntryView {
            hour: self.hour,
            mental_score: self.mental_score,
            physical_score: self.physical_score,
            tags: self.tags@,
        }
    }
}

impl DeepView for DataEntry {
    type V = EntryView;

    open spec fn deep_view(&self) -> EntryView {
        self.view()
    }
}

/// Decoding failed: the bytes are not a whole number of well-framed
/// entries.
#[derive(Clone, Copy, Debug, PartialEq, Eq, Structural)]
pub struct FormatError;

/// A usable tag id: everything but the entry sentinel.
pub open spec fn tag_valid(t: u16) -> bool {
    t != 0xFFFF
}

/// All tags of the entry are usable tag ids.
pub open spec fn entry_tags_valid(e: EntryView) -> bool {
    forall|k: int| 0 <= k < e.tags.len() ==> tag_valid(#[trigger] e.tags[k])
}

/// All tags of every entry are usable tag ids.
pub open spec fn entries_valid(es: Seq<EntryView>) -> bool {
    forall|k: int| 0 <= k < es.len() ==> entry_tags_valid(#[trigger] es[k])
}

/// The two big-endian bytes of a tag id.
pub open spec fn tag_bytes(t: u16) -> Seq<u8> {
    seq![(t / 256) as u8, (t % 256) as u8]
}

/// The bytes of a tag list, without the sentinel.
pub open spec fn tags_bytes(tags: Seq<u16>) -> Seq<u8>
    decreases tags.len(),
{
    if tags.len() == 0 {
        Seq::empty()
    } else {
        tag_bytes(tags[0]) + tags_bytes(tags.skip(1))
    }
}

/// The bytes of one encoded entry, sentinel included.
pub open spec fn encode_entry(e: EntryView) -> Seq<u8> {
    seq![e.hour, e.mental_score, e.physical_score] + tags_bytes(e.tags) + seq![0xFFu8, 0xFFu8]
}

/// The bytes of an encoded day file: the entries in order.
pub open spec fn encode_entries(es: Seq<EntryView>) -> Seq<u8>
    decreases es.len(),
{
    if es.len() == 0 {
        Seq::empty()
    } else {
        encode_entry(es[0]) + encode_entries(es.skip(1))
    }
}

/// What scanning a tag list starting at `i` yields: the tags up to the
/// sentinel, or nothing if the bytes run out first.
pub open spec fn decode_tags_at(b: Seq<u8>, i: int) -> Option<Seq<u16>>
    decreases b.len() - i,
{
    if i < 0 || i + 2 > b.len() {
        None
    } else {
        let t = b[i] * 256 + b[i + 1];
        if t == 0xFFFF {
            Some(Seq::empty())
        } else {
            match decode_tags_at(b, i + 2) {
                Option::None => None,
                Option::Some(rest) => Some(seq![t as u16] + rest),
            }
        }
    }
}

/// What decoding from position `i` yields: the remaining entries, or
/// nothing on any truncation.
pub open spec fn decode_entries_at(b: Seq<u8>, i: int) -> Option<Seq<EntryView>>
    decreases b.len() - i,
{
    if i == b.len() {
        Some(Seq::empty())
    } else if i < 0 || i + 3 > b.len() {
        None
    } else {
        match decode_tags_at(b, i + 3) {
            Option::None => None,
            Option::Some(tags) => {
                let j = i + 5 + 2 * tags.len();
                if j > b.len() {
                    None
                } else {
                    match decode_entries_at(b, j) {
                        Option::None => None,
                        Option::Some(rest) => Some(
                            seq![
                                EntryView {
                                    hour: b[i] as u8,
                                    mental_score: b[i + 1] as u8,
                                    physical_score: b[i + 2] as u8,
                                    tags: tags,
                                },
                            ] + rest,
                        ),
                    }
                }
            },
        }
    }
}

impl DataEntry {
    /// Builds one observation from its parts.
    pub fn new(hour: u8, mental_score: u8, physical_score: u8, tags: Vec<u16>) -> (r: DataEntry)
        ensures
            r@ == (EntryView { hour, mental_score, physical_score, tags: tags@ }),
    {
        DataEntry { hour, mental_score, physical_score, tags }
    }
}

fn encode_tags_from(tags: &Vec<u16>, i: usize) -> (r: Vec<u8>)
    requires
        i <= tags@.len(),
    ensures
        r@ == tags_bytes(tags@.skip(i as int)),
    decreases tags@.len() - i,
{
    if i == tags.len() {
        proof {
            assert(tags@.skip(i as int) =~= Seq::<u16>::empty());
        }
        Vec::new()
    } else {
        let t = tags[i];
        let mut v: Vec<u8> = Vec::new();
        v.push((t / 256) as u8);
        v.push((t % 256) as u8);
        let mut rest = encode_tags_from(tags, i + 1);
        v.append(&mut rest);
        proof {
            assert(tags@.skip(i as int).skip(1) =~= tags@.skip(i as int + 1));
            assert(tags@.skip(i as int)[0] == tags@[i as int]);
            assert(v@ =~= tags_bytes(tags@.skip(i as int)));
        }
        v
    }
}

fn encode_one(e: &DataEntry) -> (r: Vec<u8>)
    ensures
        r@ == encode_entry(e@),
{
    let mut v: Vec<u8> = Vec::new();
    v.push(e.hour);
    v.push(e.mental_score);
    v.push(e.physical_score);
    let mut tb = encode_tags_from(&e.tags, 0);
    v.append(&mut tb);
    v.push(0xFF);
    v.push(0xFF);
    proof {
        assert(e.tags@.skip(0) =~= e.tags@);
        assert(v@ =~= encode_entry(e@));
    }
    v
}

fn encode_from(entries: &Vec<DataEntry>, i: usize) -> (r: Vec<u8>)
    requires
        i <= entries@.len(),
    ensures
        r@ == encode_entries(entries.deep_view().skip(i as int)),
    decreases entries@.len() - i,
{
    if i == entries.len() {
        proof {
            assert(entries.deep_view().skip(i as int) =~= Seq::<EntryView>::empty());
        }
        Vec::new()
    } else {
        let mut v = encode_one(&entries[i]);
        let mut rest = encode_from(entries, i + 1);
        v.append(&mut rest);
        proof {
            assert(entries.deep_view().skip(i as int).skip(1) =~= entries.deep_view().skip(
                i as int + 1,
            ));
            assert(entries.deep_view().skip(i as int)[0] == entries.deep_view()[i as int]);
            assert(v@ =~= encode_entries(entries.deep_view().skip(i as int)));
        }
        v
    }
}

/// Encodes a day's observations into the binary day-file bytes.
pub fn encode(entries: &Vec<DataEntry>) -> (r: Vec<u8>)
    requires
        entries_valid(entries.deep_view()),
    ensures
        r@ == encode_entries(entries.deep_view()),
{
    let v = encode_from(entries, 0);
    proof {
        assert(entries.deep_view().skip(0) =~= entries.deep_view());
    }
    v
}

fn decode_tags_from(bytes: &Vec<u8>, i: usize) -> (r: Result<Vec<u16>, FormatError>)
    requires
        i <= bytes@.len(),
    ensures
        match r {
            Result::Ok(v) => decode_tags_at(bytes@, i as int) == Some(v@) && i + 2 * v@.len() + 2
                <= bytes@.len() && (forall|k: int|
                0 <= k < v@.len() ==> tag_valid(#[trigger] v@[k])),
            Result::Err(_) => decode_tags_at(bytes@, i as int) is None,
        },
    decreases bytes@.len() - i,
{
    if bytes.len() - i < 2 {
        Err(FormatError)
    } else {
        let t = (bytes[i] as u16) * 256 + (bytes[i + 1] as u16);
        if t == 0xFFFF {
            Ok(Vec::new())
        } else {
            let mut rest = decode_tags_from(bytes, i + 2)?;
            rest.insert(0, t);
            proof {
                assert(rest@ =~= seq![t] + rest@.skip(1));
            }
            Ok(rest)
        }
    }
}

fn decode_entries_from(bytes: &Vec<u8>, i: usize) -> (r: Result<Vec<DataEntry>, FormatError>)
    requires
        i <= bytes@.len(),
    ensures
        match r {
            Result::Ok(v) => decode_entries_at(bytes@, i as int) == Some(v.deep_view())
                && entries_valid(v.deep_view()),
            Result::Err(_) => decode_entries_at(bytes@, i as int) is None,
        },
    decreases bytes@.len() - i,
{
    if i == bytes.len() {
        let v: Vec<DataEntry> = Vec::new();
        proof {
            assert(v.deep_view() =~= Seq::<EntryView>::empty());
        }
        Ok(v)
    } else if bytes.len() - i < 3 {
        Err(FormatError)
    } else {
        let tags = decode_tags_from(bytes, i + 3)?;
        let j = i + 5 + 2 * tags.len();
        let entry = DataEntry::new(bytes[i], bytes[i + 1], bytes[i + 2], tags);
        let ghost ev = entry@;
        let mut rest = decode_entries_from(bytes, j)?;
        let ghost rest_dv = rest.deep_view();
        rest.insert(0, entry);
        proof {
            assert(decode_entries_at(bytes@, j as int) == Some(rest_dv));
            assert(rest.deep_view() =~= seq![ev] + rest_dv);
            assert(decode_entries_at(bytes@, i as int) == Some(seq![ev] + rest_dv));
        }
        Ok(rest)
    }
}

/// Decodes day-file bytes back into observations, failing with
/// [`FormatError`] exactly when the bytes are not a whole sequence of
/// well-framed entries.
pub fn decode(bytes: &Vec<u8>) -> (r: Result<Vec<DataEntry>, FormatError>)
    ensures
        match r {
            Result::Ok(v) => decode_entries_at(bytes@, 0) == Some(v.deep_view()) && entries_valid(
                v.deep_view(),
            ),
            Result::Err(_) => decode_entries_at(bytes@, 0) is None,
        },
{
    decode_entries_from(bytes, 0)
}

proof fn lemma_tags_bytes_len(tags: Seq<u16>)
    ensures
        tags_bytes(tags).len() == 2 * tags.len(),
    decreases tags.len(),
{
    if tags.len() > 0 {
        lemma_tags_bytes_len(tags.skip(1));
    }
}

proof fn lemma_decode_tags_of_encode(b: Seq<u8>, i: int, tags: Seq<u16>, rest: Seq<u8>)
    requires
        0 <= i <= b.len(),
        b.skip(i) == tags_bytes(tags) + seq![0xFFu8, 0xFFu8] + rest,
        forall|k: int| 0 <= k < tags.len() ==> tag_valid(#[trigger] tags[k]),
    ensures
        decode_tags_at(b, i) == Some(tags),
    decreases tags.len(),
{
    let c = tags_bytes(tags) + seq![0xFFu8, 0xFFu8] + rest;
    lemma_tags_bytes_len(tags);
    assert(b.skip(i).len() == b.len() - i);
    if tags.len() == 0 {
        assert(tags_bytes(tags) =~= Seq::<u8>::empty());
        assert(c[0] == 0xFF);
        assert(c[1] == 0xFF);
        assert(b.skip(i)[0] == b[i]);
        assert(b.skip(i)[1] == b[i + 1]);
        assert(b[i] * 256 + b[i + 1] == 0xFFFF);
    } else {
        let t = tags[0];
        assert(tags_bytes(tags) == tag_bytes(t) + tags_bytes(tags.skip(1)));
        assert(tags_bytes(tags)[0] == (t / 256) as u8);
        assert(tags_bytes(tags)[1] == (t % 256) as u8);
        assert(c[0] == (t / 256) as u8);
        assert(c[1] == (t % 256) as u8);
        assert(b.skip(i)[0] == b[i]);
        assert(b.skip(i)[1] == b[i + 1]);
        assert((t / 256) * 256 + (t % 256) == t);
        assert(b[i] * 256 + b[i + 1] == t);
        assert(t != 0xFFFF);
        lemma_tags_bytes_len(tags.skip(1));
        assert(b.skip(i).skip(2) =~= b.skip(i + 2));
        assert(c.skip(2) =~= tags_bytes(tags.skip(1)) + seq![0xFFu8, 0xFFu8] + rest);
        lemma_decode_tags_of_encode(b, i + 2, tags.skip(1), rest);
        assert(seq![t] + tags.skip(1) =~= tags);
    }
}

proof fn lemma_decode_of_encode_at(b: Seq<u8>, i: int, es: Seq<EntryView>)
    requires
        0 <= i <= b.len(),
        b.skip(i) == encode_entries(es),
        entries_valid(es),
    ensures
        decode_entries_at(b, i) == Some(es),
    decreases es.len(),
{
    assert(b.skip(i).len() == b.len() - i);
    if es.len() == 0 {
        assert(b.skip(i).len() == 0);
        assert(i == b.len());
    } else {
        let e = es[0];
        lemma_tags_bytes_len(e.tags);
        let entry_len = 5 + 2 * e.tags.len();
        let c = encode_entries(es);
        assert(c == encode_entry(e) + encode_entries(es.skip(1)));
        assert(encode_entry(e).len() == entry_len);
        assert(b.len() - i >= entry_len);
        assert(encode_entry(e)[0] == e.hour);
        assert(encode_entry(e)[1] == e.mental_score);
        assert(encode_entry(e)[2] == e.physical_score);
        assert(c[0] == e.hour);
        assert(c[1] == e.mental_score);
        assert(c[2] == e.physical_score);
        assert(b.skip(i)[0] == b[i]);
        assert(b.skip(i)[1] == b[i + 1]);
        assert(b.skip(i)[2] == b[i + 2]);
        assert(b[i] == e.hour);
        assert(b[i + 1] == e.mental_score);
        assert(b[i + 2] == e.physical_score);
        assert(b.skip(i).skip(3) =~= b.skip(i + 3));
        assert(c.skip(3) =~= tags_bytes(e.tags) + seq![0xFFu8, 0xFFu8] + encode_entries(
            es.skip(1),
        ));
        assert(entry_tags_valid(e));
        lemma_decode_tags_of_encode(b, i + 3, e.tags, encode_entries(es.skip(1)));
        let j = i + 5 + 2 * e.tags.len();
        assert(b.skip(i).skip(entry_len as int) =~= b.skip(j));
        assert(c.skip(entry_len as int) =~= encode_entries(es.skip(1)));
        assert(entries_valid(es.skip(1)));
        lemma_decode_of_encode_at(b, j, es.skip(1));
        let first = EntryView {
            hour: b[i] as u8,
            mental_score: b[i + 1] as u8,
            physical_score: b[i + 2] as u8,
            tags: e.tags,
        };
        assert(seq![first] + es.skip(1) =~= es);
    }
}

/// Round trip: decoding an encoded sequence of valid observations gives
/// back exactly those observations.
pub proof fn lemma_round_trip(es: Seq<EntryView>)
    requires
        entries_valid(es),
    ensures
        decode_entries_at(encode_entries(es), 0) == Some(es),
{
    let b = encode_entries(es);
    assert(b.skip(0) =~= b);
    lemma_decode_of_encode_at(b, 0, es);
}

proof fn lemma_decode_tags_truncated(b: Seq<u8>, i: int, tags: Seq<u16>, extra: Seq<u8>)
    requires
        0 <= i <= b.len(),
        b.skip(i) == tags_bytes(tags) + extra,
        extra.len() < 2,
        forall|k: int| 0 <= k < tags.len() ==> tag_valid(#[trigger] tags[k]),
    ensures
        decode_tags_at(b, i) is None,
    decreases tags.len(),
{
    let c = tags_bytes(tags) + extra;
    lemma_tags_bytes_len(tags);
    assert(b.skip(i).len() == b.len() - i);
    if tags.len() == 0 {
        assert(b.len() - i < 2);
    } else {
        let t = tags[0];
        assert(tags_bytes(tags) == tag_bytes(t) + tags_bytes(tags.skip(1)));
        assert(tags_bytes(tags)[0] == (t / 256) as u8);
        assert(tags_bytes(tags)[1] == (t % 256) as u8);
        assert(c[0] == (t / 256) as u8);
        assert(c[1] == (t % 256) as u8);
        assert(b.skip(i)[0] == b[i]);
        assert(b.skip(i)[1] == b[i + 1]);
        assert((t / 256) * 256 + (t % 256) == t);
        assert(b[i] * 256 + b[i + 1] == t);
        assert(t != 0xFFFF);
        lemma_tags_bytes_len(tags.skip(1));
        assert(b.skip(i).skip(2) =~= b.skip(i + 2));
        assert(c.skip(2) =~= tags_bytes(tags.skip(1)) + extra);
        lemma_decode_tags_truncated(b, i + 2, tags.skip(1), extra);
    }
}

proof fn lemma_decode_truncated_at(b: Seq<u8>, i: int, es: Seq<EntryView>, k: int)
    requires
        0 <= i <= b.len(),
        es.len() > 0,
        entries_valid(es),
        1 <= k <= 2,
        b.skip(i) == encode_entries(es).take(encode_entries(es).len() - k),
    ensures
        decode_entries_at(b, i) is None,
    decreases es.len(),
{
    let e = es[0];
    lemma_tags_bytes_len(e.tags);
    let entry_len = 5 + 2 * e.tags.len();
    let tail = encode_entries(es.skip(1));
    let c = encode_entries(es).take(encode_entries(es).len() - k);
    assert(encode_entry(e).len() == entry_len);
    assert(encode_entries(es) == encode_entry(e) + tail);
    assert(b.skip(i).len() == b.len() - i);
    if es.len() == 1 {
        assert(tail.len() == 0);
        assert(encode_entries(es).len() == entry_len);
        assert(b.len() - i == entry_len - k);
        assert(i != b.len());
        let extra = seq![0xFFu8, 0xFFu8].take(2 - k);
        assert(c[0] == encode_entry(e)[0]);
        assert(c[1] == encode_entry(e)[1]);
        assert(c[2] == encode_entry(e)[2]);
        assert(b.skip(i)[0] == b[i]);
        assert(b.skip(i)[1] == b[i + 1]);
        assert(b.skip(i)[2] == b[i + 2]);
        assert(b.skip(i).skip(3) =~= b.skip(i + 3));
        assert(c.skip(3) =~= tags_bytes(e.tags) + extra);
        assert(extra.len() < 2);
        lemma_decode_tags_truncated(b, i + 3, e.tags, extra);
    } else {
        assert(tail.len() >= 5) by {
            assert(es.skip(1).len() > 0);
            assert(tail == encode_entry(es.skip(1)[0]) + encode_entries(es.skip(1).skip(1)));
            lemma_tags_bytes_len(es.skip(1)[0].tags);
        }
        let cut_tail = tail.take(tail.len() - k);
        assert(c =~= encode_entry(e) + cut_tail);
        assert(b.skip(i).skip(3) =~= b.skip(i + 3));
        assert(c.skip(3) =~= tags_bytes(e.tags) + seq![0xFFu8, 0xFFu8] + cut_tail);
        assert(entry_tags_valid(e));
        lemma_decode_tags_of_encode(b, i + 3, e.tags, cut_tail);
        let j = i + 5 + 2 * e.tags.len();
        assert(b.skip(i).skip(entry_len as int) =~= b.skip(j));
        assert(c.skip(entry_len as int) =~= cut_tail);
        assert(entries_valid(es.skip(1)));
        lemma_decode_truncated_at(b, j, es.skip(1), k);
    }
}

/// Truncation rejection: dropping the final byte, or the final two-byte
/// sentinel, of a non-empty encoded day file makes decoding fail.
pub proof fn lemma_truncation_rejected(es: Seq<EntryView>, k: int)
    requires
        es.len() > 0,
        entries_valid(es),
        1 <= k <= 2,
    ensures
        decode_entries_at(encode_entries(es).take(encode_entries(es).len() - k), 0) is None,
{
    let b = encode_entries(es).take(encode_entries(es).len() - k);
    assert(encode_entries(es).len() >= 5) by {
        assert(encode_entries(es) == encode_entry(es[0]) + encode_entries(es.skip(1)));
        lemma_tags_bytes_len(es[0].tags);
    }
    assert(b.skip(0) =~= b);
    lemma_decode_truncated_at(b, 0, es, k);
}

} // verus!
