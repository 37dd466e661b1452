//! Tag frequency sums over the whole database, derived from the day
//! files. A merge consults these to fold the less used tag into the
//! more used one.

use vstd::prelude::*;
use crate::codec::{DataEntry, EntryView};
use crate::strnum::{find_char, find_in_str, parse_u16, parse_u16_spec};
use crate::tags::count_of;

verus! {

/// Deriving the tag sums failed.
#[derive(Debug)]
pub enum DBAveragesError {
    IoError(String),
    WalkDirError(String),
    InvalidFileName(String),
}

impl DBAveragesError {
    /// The stable numeric code of this error kind.
    pub fn into_code(self) -> (r: i32)
        ensures
            self is IoError ==> r == 1,
            self is WalkDirError ==> r == 2,
            self is InvalidFileName ==> r == 3,
    {
        match self {
            Self::IoError(_) => 1,
            Self::WalkDirError(_) => 2,
            Self::InvalidFileName(_) => 3,
        }
    }
}

/// One tag's occurrence count.
pub struct TagCount {
    pub id: u16,
    pub count: u64,
}

impl View for TagCount {
    type V = (u16, u64);

    open spec fn view(&self) -> (u16, u64) {
        (self.id, self.count)
    }
}

impl DeepView for TagCount {
    type V = (u16, u64);

    open spec fn deep_view(&self) -> (u16, u64) {
        self.view()
    }
}

/// Occurrence counts per tag id, each id at most once.
pub struct Tags {
    counts: Vec<TagCount>,
}

impl View for Tags {
    type V = Seq<(u16, u64)>;

    closed spec fn view(&self) -> Seq<(u16, u64)> {
        self.counts.deep_view()
    }
}

/// Each tag id is counted in one place.
pub open spec fn tags_wf(s: Seq<(u16, u64)>) -> bool {
    forall|i: int, j: int|
        0 <= i < s.len() && 0 <= j < s.len() && i != j ==> #[trigger] s[i].0 != #[trigger] s[j].0
}

/// The recorded count of a tag (0 when absent).
pub open spec fn tag_count(s: Seq<(u16, u64)>, id: u16) -> int {
    if exists|i: int| 0 <= i < s.len() && (#[trigger] s[i]).0 == id {
        s[choose|i: int| 0 <= i < s.len() && (#[trigger] s[i]).0 == id].1 as int
    } else {
        0
    }
}

impl Tags {
    /// An empty sum table.
    pub fn new() -> (r: Tags)
        ensures
            r@ == Seq::<(u16, u64)>::empty(),
            tags_wf(r@),
    {
        let r = Tags { counts: Vec::new() };
        proof {
            assert(r@ =~= Seq::<(u16, u64)>::empty());
        }
        r
    }

    /// Counts one more occurrence of `tag_id` (counts saturate).
    pub fn add(&mut self, tag_id: u16)
        requires
            tags_wf(old(self)@),
        ensures
            tags_wf(final(self)@),
            tag_count(final(self)@, tag_id) == if tag_count(old(self)@, tag_id) < u64::MAX {
                tag_count(old(self)@, tag_id) + 1
            } else {
                u64::MAX as int
            },
            forall|t: u16| t != tag_id ==> tag_count(final(self)@, t) == tag_count(old(self)@, t),
    {
        let ghost s0 = self@;
        let mut i: usize = 0;
        while i < self.counts.len()
            invariant
                0 <= i <= self.counts@.len(),
                s0 == self@,
                s0 == old(self)@,
                s0.len() == self.counts@.len(),
                tags_wf(s0),
                forall|k: int| 0 <= k < i ==> (#[trigger] s0[k]).0 != tag_id,
            decreases self.counts@.len() - i,
        {
            if self.counts[i].id == tag_id {
                let c = self.counts[i].count;
                let nc: u64 = if c < u64::MAX {
                    c + 1
                } else {
                    c
                };
                self.counts.remove(i);
                self.counts.insert(i, TagCount { id: tag_id, count: nc });
                proof {
                    let s1 = self@;
                    assert(s1 =~= s0.update(i as int, (tag_id, nc)));
                    assert forall|a: int, b: int|
                        0 <= a < s1.len() && 0 <= b < s1.len() && a != b implies #[trigger] s1[a].0
                        != #[trigger] s1[b].0 by {
                        assert(s1[a].0 == s0[a].0 && s1[b].0 == s0[b].0);
                    }
                    assert(tag_count(s0, tag_id) == c) by {
                        assert(s0[i as int].0 == tag_id);
                        let w = choose|k: int| 0 <= k < s0.len() && (#[trigger] s0[k]).0 == tag_id;
                        assert(w == i as int);
                    }
                    assert(tag_count(s1, tag_id) == nc) by {
                        assert(s1[i as int].0 == tag_id);
                        let w = choose|k: int| 0 <= k < s1.len() && (#[trigger] s1[k]).0 == tag_id;
                        assert(w == i as int);
                    }
                    assert forall|t: u16| t != tag_id implies tag_count(s1, t) == tag_count(
                        s0,
                        t,
                    ) by {
                        if exists|k: int| 0 <= k < s0.len() && (#[trigger] s0[k]).0 == t {
                            let w = choose|k: int|
                                0 <= k < s0.len() && (#[trigger] s0[k]).0 == t;
                            assert(s1[w].0 == t);
                            let w1 = choose|k: int|
                                0 <= k < s1.len() && (#[trigger] s1[k]).0 == t;
                            assert(s0[w1].0 == s1[w1].0);
                            assert(w1 == w);
                        } else {
                            assert(forall|k: int|
                                0 <= k < s1.len() ==> (#[trigger] s1[k]).0 == s0[k].0);
                        }
                    }
                }
                return ;
            }
            i = i + 1;
        }
        self.counts.push(TagCount { id: tag_id, count: 1 });
        proof {
            let s1 = self@;
            assert(s1 =~= s0.push((tag_id, 1u64)));
            assert(forall|k: int| 0 <= k < s0.len() ==> (#[trigger] s0[k]).0 != tag_id);
            assert(tag_count(s0, tag_id) == 0);
            assert forall|a: int, b: int|
                0 <= a < s1.len() && 0 <= b < s1.len() && a != b implies #[trigger] s1[a].0
                != #[trigger] s1[b].0 by {
                if a < s0.len() && b < s0.len() {
                    assert(s1[a].0 == s0[a].0 && s1[b].0 == s0[b].0);
                } else if a < s0.len() {
                    assert(s1[a].0 == s0[a].0 && s1[b] == (tag_id, 1u64));
                } else {
                    assert(s1[a] == (tag_id, 1u64) && s1[b].0 == s0[b].0);
                }
            }
            assert(tag_count(s1, tag_id) == 1) by {
                assert(s1[s0.len() as int].0 == tag_id);
                let w = choose|k: int| 0 <= k < s1.len() && (#[trigger] s1[k]).0 == tag_id;
                assert(w == s0.len() as int);
            }
            assert forall|t: u16| t != tag_id implies tag_count(s1, t) == tag_count(s0, t) by {
                if exists|k: int| 0 <= k < s0.len() && (#[trigger] s0[k]).0 == t {
                    let w = choose|k: int| 0 <= k < s0.len() && (#[trigger] s0[k]).0 == t;
                    assert(s1[w].0 == t);
                    let w1 = choose|k: int| 0 <= k < s1.len() && (#[trigger] s1[k]).0 == t;
                    assert(w1 < s0.len() && s0[w1].0 == t);
                    assert(w1 == w);
                } else {
                    if exists|k: int| 0 <= k < s1.len() && (#[trigger] s1[k]).0 == t {
                        let w1 = choose|k: int| 0 <= k < s1.len() && (#[trigger] s1[k]).0 == t;
                        assert(w1 == s0.len() as int);
                        assert(false);
                    }
                }
            }
        }
    }

    /// The recorded count of a tag.
    pub fn get(&self, tag_id: u16) -> (r: u64)
        requires
            tags_wf(self@),
        ensures
            r == tag_count(self@, tag_id),
    {
        let mut i: usize = 0;
        while i < self.counts.len()
            invariant
                0 <= i <= self.counts@.len(),
                self@.len() == self.counts@.len(),
                tags_wf(self@),
                forall|k: int| 0 <= k < i ==> (#[trigger] self@[k]).0 != tag_id,
            decreases self.counts@.len() - i,
        {
            if self.counts[i].id == tag_id {
                proof {
                    assert(self@[i as int].0 == tag_id);
                    let w = choose|k: int|
                        0 <= k < self@.len() && (#[trigger] self@[k]).0 == tag_id;
                    assert(tags_wf(self@));
                    assert(w == i as int);
                }
                return self.counts[i].count;
            }
            i = i + 1;
        }
        0
    }
}

/// One day file's part of the tag sums input: the file stem and its
/// decoded entries.
pub struct TagSumFile {
    pub stem: String,
    pub entries: Vec<DataEntry>,
}

/// The mathematical shape of one sum input file.
pub struct TagSumFileView {
    pub stem: Seq<char>,
    pub entries: Seq<EntryView>,
}

impl View for TagSumFile {
    type V = TagSumFileView;

    open spec fn view(&self) -> TagSumFileView {
        TagSumFileView { stem: self.stem@, entries: self.entries.deep_view() }
    }
}

impl DeepView for TagSumFile {
    type V = TagSumFileView;

    open spec fn deep_view(&self) -> TagSumFileView {
        self.view()
    }
}

/// The weekday code in a day file's stem `"<day>-<weekday>"`: the
/// decimal between the first dash and the next (or the end), when it
/// fits an unsigned byte.
pub open spec fn weekday_of_stem(s: Seq<char>) -> Option<u8> {
    let d1 = find_char(s, '-');
    if d1 < 0 {
        None
    } else {
        let rest = s.skip(d1 + 1);
        let d2 = find_char(rest, '-');
        let tok = if d2 < 0 {
            rest
        } else {
            rest.take(d2)
        };
        match parse_u16_spec(tok) {
            Option::Some(v) => if v <= 255 {
                Some(v as u8)
            } else {
                None
            },
            Option::None => None,
        }
    }
}

/// Parses the weekday code out of a day file's stem.
pub fn parse_weekday_of_stem(stem: &str) -> (r: Option<u8>)
    ensures
        r == weekday_of_stem(stem@),
{
    let len = stem.unicode_len();
    let d1 = match find_in_str(stem, '-') {
        Option::Some(p) => p,
        Option::None => {
            return None;
        },
    };
    let rest = stem.substring_char(d1 + 1, len);
    proof {
        assert(rest@ =~= stem@.skip(d1 as int + 1));
    }
    let tok: &str = match find_in_str(rest, '-') {
        Option::Some(p) => rest.substring_char(0, p),
        Option::None => rest,
    };
    proof {
        let d2 = find_char(rest@, '-');
        if d2 >= 0 {
            assert(tok@ =~= rest@.take(d2));
        }
    }
    match parse_u16(tok) {
        Option::Some(v) => {
            if v <= 255 {
                Some(v as u8)
            } else {
                None
            }
        },
        Option::None => None,
    }
}

/// How often `t` occurs across a day's entries.
pub open spec fn occ_in_entries(es: Seq<EntryView>, t: u16) -> int
    decreases es.len(),
{
    if es.len() == 0 {
        0
    } else {
        occ_in_entries(es.drop_last(), t) + count_of(es.last().tags, t)
    }
}

/// How often `t` occurs across all the given day files.
pub open spec fn occ_in_files(fs: Seq<TagSumFileView>, t: u16) -> int
    decreases fs.len(),
{
    if fs.len() == 0 {
        0
    } else {
        occ_in_files(fs.drop_last(), t) + occ_in_entries(fs.last().entries, t)
    }
}

proof fn lemma_tag_count_nonneg(s: Seq<(u16, u64)>)
    ensures
        forall|t: u16| #![auto] tag_count(s, t) >= 0,
{
}

proof fn lemma_count_of_nonneg(s: Seq<u16>, t: u16)
    ensures
        count_of(s, t) >= 0,
    decreases s.len(),
{
    if s.len() > 0 {
        lemma_count_of_nonneg(s.skip(1), t);
    }
}

proof fn lemma_occ_nonneg(es: Seq<EntryView>, t: u16)
    ensures
        occ_in_entries(es, t) >= 0,
    decreases es.len(),
{
    if es.len() > 0 {
        lemma_occ_nonneg(es.drop_last(), t);
        lemma_count_of_nonneg(es.last().tags, t);
    }
}

proof fn lemma_occ_files_nonneg(fs: Seq<TagSumFileView>, t: u16)
    ensures
        occ_in_files(fs, t) >= 0,
    decreases fs.len(),
{
    if fs.len() > 0 {
        lemma_occ_files_nonneg(fs.drop_last(), t);
        lemma_occ_nonneg(fs.last().entries, t);
    }
}

/// The saturating count a table reaches after `n` occurrences.
pub open spec fn sat_count(n: int) -> int {
    if n < u64::MAX {
        n
    } else {
        u64::MAX as int
    }
}

fn add_entry_tags(sums: &mut Tags, entry: &DataEntry)
    requires
        tags_wf(old(sums)@),
    ensures
        tags_wf(final(sums)@),
        forall|t: u16|
            tag_count(final(sums)@, t) == sat_count(
                tag_count(old(sums)@, t) + count_of(entry@.tags, t),
            ),
{
    let ghost s0 = sums@;
    let mut j: usize = 0;
    while j < entry.tags.len()
        invariant
            0 <= j <= entry.tags@.len(),
            tags_wf(sums@),
            forall|t: u16|
                tag_count(sums@, t) == sat_count(
                    tag_count(s0, t) + count_of(entry@.tags.take(j as int), t),
                ),
        decreases entry.tags@.len() - j,
    {
        proof {
            assert forall|t: u16|
                count_of(entry@.tags.take(j as int + 1), t) == count_of(
                    entry@.tags.take(j as int),
                    t,
                ) + (if entry@.tags[j as int] == t {
                    1int
                } else {
                    0int
                }) by {
                lemma_count_take_step(entry@.tags, j as int, t);
            }
            assert forall|t: u16| #![auto] count_of(entry@.tags.take(j as int), t) >= 0 by {
                lemma_count_of_nonneg(entry@.tags.take(j as int), t);
            }
        }
        sums.add(entry.tags[j]);
        j = j + 1;
    }
    proof {
        assert(entry@.tags.take(entry.tags@.len() as int) =~= entry@.tags);
    }
}

proof fn lemma_count_take_step(s: Seq<u16>, j: int, t: u16)
    requires
        0 <= j < s.len(),
    ensures
        count_of(s.take(j + 1), t) == count_of(s.take(j), t) + (if s[j] == t {
            1int
        } else {
            0int
        }),
    decreases j,
{
    if j == 0 {
        assert(s.take(1)[0] == s[0]);
        assert(s.take(1).skip(1) =~= Seq::<u16>::empty());
        assert(s.take(0) =~= Seq::<u16>::empty());
    } else {
        assert(s.take(j + 1)[0] == s[0]);
        assert(s.take(j)[0] == s[0]);
        assert(s.take(j + 1).skip(1) =~= s.skip(1).take(j));
        assert(s.take(j).skip(1) =~= s.skip(1).take(j - 1));
        assert(s.skip(1)[j - 1] == s[j]);
        lemma_count_take_step(s.skip(1), j - 1, t);
    }
}

/// Derives the tag occurrence sums across all day files, failing with
/// `InvalidFileName` when a file stem does not carry a weekday code.
pub fn regenerate_tag_sums(files: &Vec<TagSumFile>) -> (r: Result<Tags, DBAveragesError>)
    ensures
        ({
            let fs = files.deep_view();
            match r {
                Result::Ok(sums) => tags_wf(sums@) && (forall|i: int|
                    0 <= i < fs.len() ==> weekday_of_stem(#[trigger] fs[i].stem) is Some) && (
                forall|t: u16| tag_count(sums@, t) == sat_count(occ_in_files(fs, t))),
                Result::Err(e) => (exists|i: int|
                    0 <= i < fs.len() && weekday_of_stem(#[trigger] fs[i].stem) is None) && e
                    is InvalidFileName,
            }
        }),
{
    let ghost fs = files.deep_view();
    let mut sums = Tags::new();
    proof {
        assert forall|t: u16| tag_count(sums@, t) == sat_count(occ_in_files(fs.take(0), t)) by {
            assert(fs.take(0) =~= Seq::<TagSumFileView>::empty());
        }
    }
    let mut i: usize = 0;
    while i < files.len()
        invariant
            0 <= i <= files@.len(),
            fs == files.deep_view(),
            fs.len() == files@.len(),
            tags_wf(sums@),
            forall|k: int| 0 <= k < i ==> weekday_of_stem(#[trigger] fs[k].stem) is Some,
            forall|t: u16| tag_count(sums@, t) == sat_count(occ_in_files(fs.take(i as int), t)),
        decreases files@.len() - i,
    {
        let f = &files[i];
        if parse_weekday_of_stem(f.stem.as_str()).is_none() {
            proof {
                assert(fs[i as int] == files@[i as int].deep_view());
                assert(weekday_of_stem(fs[i as int].stem) is None);
            }
            return Err(DBAveragesError::InvalidFileName(f.stem.clone()));
        }
        let ghost before_file = sums@;
        let mut j: usize = 0;
        while j < f.entries.len()
            invariant
                0 <= j <= f.entries@.len(),
                fs == files.deep_view(),
                fs.len() == files@.len(),
                0 <= i < files@.len(),
                f@ == fs[i as int],
                tags_wf(sums@),
                forall|t: u16|
                    tag_count(sums@, t) == sat_count(
                        tag_count(before_file, t) + occ_in_entries(
                            fs[i as int].entries.take(j as int),
                            t,
                        ),
                    ),
            decreases f.entries@.len() - j,
        {
            proof {
                let es = fs[i as int].entries;
                assert(es.take(j as int + 1).drop_last() =~= es.take(j as int));
                assert(es.take(j as int + 1).last() == es[j as int]);
                assert forall|t: u16| #![auto] occ_in_entries(es.take(j as int), t) >= 0 by {
                    lemma_occ_nonneg(es.take(j as int), t);
                }
                assert forall|t: u16| #![auto] count_of(es[j as int].tags, t) >= 0 by {
                    lemma_count_of_nonneg(es[j as int].tags, t);
                }
                lemma_tag_count_nonneg(before_file);
            }
            add_entry_tags(&mut sums, &f.entries[j]);
            j = j + 1;
        }
        proof {
            let es = fs[i as int].entries;
            assert(es.take(f.entries@.len() as int) =~= es);
            assert(fs.take(i as int + 1).drop_last() =~= fs.take(i as int));
            assert(fs.take(i as int + 1).last() == fs[i as int]);
            assert forall|t: u16|
                tag_count(sums@, t) == sat_count(occ_in_files(fs.take(i as int + 1), t)) by {
                lemma_occ_files_nonneg(fs.take(i as int), t);
                lemma_occ_nonneg(es, t);
            }
        }
        i = i + 1;
    }
    proof {
        assert(fs.take(fs.len() as int) =~= fs);
    }
    Ok(sums)
}

} // verus!
