//! The tag dictionary: a bijection between tag ids and tag names,
//! persisted as one `"<id> <name>"` line per pair, with consistent
//! rename and merge semantics.

use vstd::prelude::*;
use crate::codec::{entries_valid, entry_tags_valid, tag_valid, DataEntry, EntryView};
use crate::strnum::{dec_str, find_char, find_in_str, parse_u16, parse_u16_spec, str_eq};

verus! {

/// A dictionary operation failed.
#[derive(Debug)]
pub enum DBError {
    IoError(String),
    CorruptedTagsFile(String),
    UnknownTag(String),
    UnknownId(u16),
    TagAlreadyExists,
}

impl DBError {
    /// The stable numeric code of this error kind.
    pub fn into_code(self) -> (r: i32)
        ensures
            self is IoError ==> r == 1,
            self is CorruptedTagsFile ==> r == 2,
            self is UnknownTag ==> r == 3,
            self is UnknownId ==> r == 4,
            self is TagAlreadyExists ==> r == 5,
    {
        match self {
            Self::IoError(_) => 1,
            Self::CorruptedTagsFile(_) => 2,
            Self::UnknownTag(_) => 3,
            Self::UnknownId(_) => 4,
            Self::TagAlreadyExists => 5,
        }
    }
}

/// One persisted pair of the dictionary.
pub struct TagPair {
    pub id: u16,
    pub name: String,
}

/// The mathematical shape of one pair.
pub struct TagView {
    pub id: u16,
    pub name: Seq<char>,
}

impl View for TagPair {
    type V = TagView;

    open spec fn view(&self) -> TagView {
        TagView { id: self.id, name: self.name@ }
    }
}

impl DeepView for TagPair {
    type V = TagView;

    open spec fn deep_view(&self) -> TagView {
        self.view()
    }
}

/// The bijection invariant: no id repeats, no name repeats, and no
/// name is empty.
pub open spec fn tag_list_wf(s: Seq<TagView>) -> bool {
    &&& forall|i: int, j: int|
        0 <= i < s.len() && 0 <= j < s.len() && i != j ==> #[trigger] s[i].id != #[trigger] s[j].id
    &&& forall|i: int, j: int|
        0 <= i < s.len() && 0 <= j < s.len() && i != j ==> #[trigger] s[i].name
            != #[trigger] s[j].name
    &&& forall|i: int| 0 <= i < s.len() ==> (#[trigger] s[i].name).len() > 0
}

/// Whether some pair carries this name.
pub open spec fn has_name(s: Seq<TagView>, name: Seq<char>) -> bool {
    exists|i: int| 0 <= i < s.len() && (#[trigger] s[i].name) == name
}

/// Whether some pair carries this id.
pub open spec fn has_id(s: Seq<TagView>, id: u16) -> bool {
    exists|i: int| 0 <= i < s.len() && (#[trigger] s[i].id) == id
}

/// The position of the pair carrying `name`; meaningful under
/// [`has_name`].
pub open spec fn idx_of_name(s: Seq<TagView>, name: Seq<char>) -> int {
    choose|i: int| 0 <= i < s.len() && (#[trigger] s[i].name) == name
}

/// What parsing one `"<id> <name>"` line accepts: a decimal id, one
/// space, and a non-empty name without further spaces.
pub open spec fn tag_line_parsed(line: Seq<char>) -> Option<TagView> {
    let sp = find_char(line, ' ');
    if sp <= 0 {
        None
    } else {
        let name = line.skip(sp + 1);
        if name.len() == 0 || find_char(name, ' ') >= 0 {
            None
        } else {
            match parse_u16_spec(line.take(sp)) {
                Option::None => None,
                Option::Some(id) => Some(TagView { id, name }),
            }
        }
    }
}

/// All lines parse.
pub open spec fn tag_lines_well_formed(lines: Seq<Seq<char>>) -> bool {
    forall|i: int| 0 <= i < lines.len() ==> tag_line_parsed(#[trigger] lines[i]) is Some
}

/// The pairs of a well-formed tags file, line by line.
pub open spec fn parsed_tags(lines: Seq<Seq<char>>) -> Seq<TagView> {
    Seq::new(lines.len(), |i: int| tag_line_parsed(lines[i]).unwrap())
}

/// The persisted line of one pair.
pub open spec fn tag_line_of(t: TagView) -> Seq<char> {
    dec_str(t.id as nat) + seq![' '] + t.name
}

fn parse_tag_line(line: &str) -> (r: Option<TagPair>)
    ensures
        match r {
            Option::Some(p) => tag_line_parsed(line@) == Some(p@),
            Option::None => tag_line_parsed(line@) is None,
        },
{
    let len = line.unicode_len();
    match find_in_str(line, ' ') {
        Option::None => None,
        Option::Some(sp) => {
            if sp == 0 {
                return None;
            }
            let name_s = line.substring_char(sp + 1, len);
            proof {
                assert(name_s@ =~= line@.skip(sp + 1));
            }
            if name_s.unicode_len() == 0 {
                return None;
            }
            if find_in_str(name_s, ' ').is_some() {
                return None;
            }
            let id_s = line.substring_char(0, sp);
            proof {
                assert(id_s@ =~= line@.take(sp as int));
            }
            match parse_u16(id_s) {
                Option::None => None,
                Option::Some(id) => Some(TagPair { id, name: name_s.to_owned() }),
            }
        },
    }
}

/// The in-memory tag dictionary.
pub struct TagList {
    pairs: Vec<TagPair>,
}

impl View for TagList {
    type V = Seq<TagView>;

    closed spec fn view(&self) -> Seq<TagView> {
        self.pairs.deep_view()
    }
}

impl TagList {
    /// Loads the dictionary from the lines of `tags.txt`, failing with
    /// `CorruptedTagsFile` exactly when a line is malformed, an id or a
    /// name repeats.
    pub fn from_file(lines: &Vec<String>) -> (r: Result<TagList, DBError>)
        ensures
            r is Ok <==> tag_lines_well_formed(lines.deep_view()) && tag_list_wf(
                parsed_tags(lines.deep_view()),
            ),
            match r {
                Result::Ok(tl) => tl@ == parsed_tags(lines.deep_view()) && tag_list_wf(tl@),
                Result::Err(e) => e is CorruptedTagsFile,
            },
    {
        let ghost lviews = lines.deep_view();
        let mut pairs: Vec<TagPair> = Vec::new();
        let mut li: usize = 0;
        while li < lines.len()
            invariant
                0 <= li <= lines@.len(),
                lviews == lines.deep_view(),
                lviews.len() == lines@.len(),
                pairs.deep_view().len() == li,
                forall|i: int|
                    0 <= i < li ==> tag_line_parsed(lviews[i]) == Some(
                        #[trigger] pairs.deep_view()[i],
                    ),
                tag_list_wf(pairs.deep_view()),
            decreases lines@.len() - li,
        {
            let line = &lines[li];
            proof {
                assert(line@ == lviews[li as int]);
            }
            match parse_tag_line(line.as_str()) {
                Option::None => {
                    proof {
                        assert(tag_line_parsed(lviews[li as int]) is None);
                        assert(!tag_lines_well_formed(lviews));
                    }
                    return Err(DBError::CorruptedTagsFile(line.clone()));
                },
                Option::Some(pair) => {
                    let ghost dv = pairs.deep_view();
                    let mut j: usize = 0;
                    while j < pairs.len()
                        invariant
                            0 <= j <= pairs@.len(),
                            lviews == lines.deep_view(),
                            dv == pairs.deep_view(),
                            dv.len() == pairs@.len(),
                            dv.len() == li < lviews.len(),
                            tag_line_parsed(lviews[li as int]) == Some(pair@),
                            forall|i: int|
                                0 <= i < li ==> tag_line_parsed(lviews[i]) == Some(
                                    #[trigger] dv[i],
                                ),
                            forall|k: int|
                                0 <= k < j ==> (#[trigger] dv[k]).id != pair@.id && dv[k].name
                                    != pair@.name,
                        decreases pairs@.len() - j,
                    {
                        let dup_id = pairs[j].id == pair.id;
                        let dup_name = str_eq(pairs[j].name.as_str(), pair.name.as_str());
                        if dup_id || dup_name {
                            proof {
                                let full = parsed_tags(lviews);
                                assert(tag_line_parsed(lviews[j as int]) == Some(dv[j as int]));
                                assert(full[j as int] == dv[j as int]);
                                assert(full[li as int] == pair@);
                                assert(full[j as int].id == full[li as int].id || full[j as int].name
                                    == full[li as int].name);
                                assert(!tag_list_wf(full));
                            }
                            return Err(DBError::CorruptedTagsFile(line.clone()));
                        }
                        j = j + 1;
                    }
                    let ghost pv = pair@;
                    pairs.push(pair);
                    proof {
                        assert(pairs.deep_view() =~= dv.push(pv));
                    }
                },
            }
            li = li + 1;
        }
        proof {
            assert(pairs.deep_view() =~= parsed_tags(lviews));
            assert forall|i: int| 0 <= i < lviews.len() implies tag_line_parsed(
                #[trigger] lviews[i],
            ) is Some by {
                assert(tag_line_parsed(lviews[i]) == Some(pairs.deep_view()[i]));
            }
        }
        Ok(TagList { pairs })
    }

    fn find_name(&self, name: &str) -> (r: Option<usize>)
        ensures
            match r {
                Option::Some(i) => i < self@.len() && self@[i as int].name == name@,
                Option::None => !has_name(self@, name@),
            },
    {
        let mut i: usize = 0;
        while i < self.pairs.len()
            invariant
                0 <= i <= self.pairs@.len(),
                self@.len() == self.pairs@.len(),
                forall|k: int| 0 <= k < i ==> (#[trigger] self@[k]).name != name@,
            decreases self.pairs@.len() - i,
        {
            if str_eq(self.pairs[i].name.as_str(), name) {
                return Some(i);
            }
            i = i + 1;
        }
        None
    }

    fn find_id(&self, id: u16) -> (r: Option<usize>)
        ensures
            match r {
                Option::Some(i) => i < self@.len() && self@[i as int].id == id,
                Option::None => !has_id(self@, id),
            },
    {
        let mut i: usize = 0;
        while i < self.pairs.len()
            invariant
                0 <= i <= self.pairs@.len(),
                self@.len() == self.pairs@.len(),
                forall|k: int| 0 <= k < i ==> (#[trigger] self@[k]).id != id,
            decreases self.pairs@.len() - i,
        {
            if self.pairs[i].id == id {
                return Some(i);
            }
            i = i + 1;
        }
        None
    }

    /// Looks a tag name up, failing with `UnknownTag` when it is not
    /// bound.
    pub fn get_id(&self, tag: &str) -> (r: Result<u16, DBError>)
        ensures
            match r {
                Result::Ok(id) => exists|i: int|
                    0 <= i < self@.len() && (#[trigger] self@[i]).name == tag@ && self@[i].id == id,
                Result::Err(e) => !has_name(self@, tag@) && (match e {
                    DBError::UnknownTag(n) => n@ == tag@,
                    _ => false,
                }),
            },
    {
        match self.find_name(tag) {
            Option::Some(i) => Ok(self.pairs[i].id),
            Option::None => Err(DBError::UnknownTag(tag.to_owned())),
        }
    }

    /// Looks a tag id up, failing with `UnknownId` when it is not
    /// bound.
    pub fn get_tag(&self, tag_id: u16) -> (r: Result<String, DBError>)
        ensures
            match r {
                Result::Ok(name) => exists|i: int|
                    0 <= i < self@.len() && (#[trigger] self@[i]).id == tag_id && self@[i].name
                        == name@,
                Result::Err(e) => !has_id(self@, tag_id) && e == DBError::UnknownId(tag_id),
            },
    {
        match self.find_id(tag_id) {
            Option::Some(i) => Ok(self.pairs[i].name.clone()),
            Option::None => Err(DBError::UnknownId(tag_id)),
        }
    }

    /// Renames a tag. Fails with `TagAlreadyExists` when the new name
    /// is bound to a different pair, with `UnknownTag` when the old
    /// name is unbound; otherwise repoints the pair, leaving its id.
    /// A failed call leaves the dictionary unchanged.
    pub fn rename_tag(&mut self, old_tag: String, new_tag: String) -> (r: Result<(), DBError>)
        requires
            tag_list_wf(old(self)@),
            new_tag@.len() > 0,
            find_char(new_tag@, ' ') == -1,
        ensures
            tag_list_wf(final(self)@),
            ({
                let s0 = old(self)@;
                let collision = has_name(s0, new_tag@) && (!has_name(s0, old_tag@) || idx_of_name(
                    s0,
                    new_tag@,
                ) != idx_of_name(s0, old_tag@));
                &&& collision ==> r == Result::<(), DBError>::Err(DBError::TagAlreadyExists)
                    && final(self)@ == s0
                &&& !collision && !has_name(s0, old_tag@) ==> final(self)@ == s0 && (match r {
                    Result::Err(DBError::UnknownTag(n)) => n@ == old_tag@,
                    _ => false,
                })
                &&& !collision && has_name(s0, old_tag@) ==> r is Ok && final(self)@ == s0.update(
                    idx_of_name(s0, old_tag@),
                    TagView { id: s0[idx_of_name(s0, old_tag@)].id, name: new_tag@ },
                )
                &&& r is Ok && old_tag@ != new_tag@ ==> !has_name(final(self)@, old_tag@)
                &&& r is Ok ==> has_name(final(self)@, new_tag@) && final(self)@[idx_of_name(
                    final(self)@,
                    new_tag@,
                )].id == s0[idx_of_name(s0, old_tag@)].id
            }),
    {
        let ghost s0 = self@;
        let new_idx = self.find_name(new_tag.as_str());
        let old_idx = self.find_name(old_tag.as_str());
        proof {
            if new_idx is Some {
                let nj = new_idx->0 as int;
                assert(s0[idx_of_name(s0, new_tag@)].name == new_tag@);
                assert(idx_of_name(s0, new_tag@) == nj);
            }
            if old_idx is Some {
                let oj = old_idx->0 as int;
                assert(s0[idx_of_name(s0, old_tag@)].name == old_tag@);
                assert(idx_of_name(s0, old_tag@) == oj);
            }
        }
        if let Option::Some(nj) = new_idx {
            let collide = match old_idx {
                Option::Some(oj) => nj != oj,
                Option::None => true,
            };
            if collide {
                return Err(DBError::TagAlreadyExists);
            }
        }
        match old_idx {
            Option::None => Err(DBError::UnknownTag(old_tag)),
            Option::Some(oj) => {
                let id = self.pairs[oj].id;
                self.pairs.remove(oj);
                self.pairs.insert(oj, TagPair { id, name: new_tag });
                proof {
                    let upd = s0.update(oj as int, TagView { id, name: new_tag@ });
                    assert(self@ =~= upd);
                    assert forall|i: int, j: int|
                        0 <= i < upd.len() && 0 <= j < upd.len() && i != j implies #[trigger] upd[i].name
                        != #[trigger] upd[j].name by {
                        if i == oj as int {
                            assert(s0[j].name != new_tag@);
                        } else if j == oj as int {
                            assert(s0[i].name != new_tag@);
                        }
                    }
                    assert(tag_list_wf(self@));
                    assert(self@[oj as int].name == new_tag@);
                    assert(idx_of_name(self@, new_tag@) == oj as int) by {
                        assert(self@[idx_of_name(self@, new_tag@)].name == new_tag@);
                    }
                    if old_tag@ != new_tag@ {
                        assert forall|i: int| 0 <= i < self@.len() implies (#[trigger] self@[i]).name
                            != old_tag@ by {
                            if i != oj as int {
                                assert(self@[i].name == s0[i].name);
                                assert(s0[i].name != s0[oj as int].name);
                            }
                        }
                    }
                }
                Ok(())
            },
        }
    }

    /// Merges the less frequently used of two tags into the more
    /// frequently used one (ties keep `a`), removing the loser's pair.
    /// Returns `(winner, loser)`; the caller then rewrites every day
    /// file with [`apply_merge`]. Fails with `UnknownTag` when either
    /// name is unbound, leaving the dictionary unchanged.
    pub fn merge_tags(&mut self, a: &str, b: &str, count_a: u64, count_b: u64) -> (r: Result<
        (u16, u16),
        DBError,
    >)
        requires
            tag_list_wf(old(self)@),
        ensures
            tag_list_wf(final(self)@),
            ({
                let s0 = old(self)@;
                &&& !has_name(s0, a@) ==> final(self)@ == s0 && (match r {
                    Result::Err(DBError::UnknownTag(n)) => n@ == a@,
                    _ => false,
                })
                &&& has_name(s0, a@) && !has_name(s0, b@) ==> final(self)@ == s0 && (match r {
                    Result::Err(DBError::UnknownTag(n)) => n@ == b@,
                    _ => false,
                })
                &&& has_name(s0, a@) && has_name(s0, b@) ==> ({
                    let ia = idx_of_name(s0, a@);
                    let ib = idx_of_name(s0, b@);
                    let id_a = s0[ia].id;
                    let id_b = s0[ib].id;
                    let w = if count_b > count_a {
                        id_b
                    } else {
                        id_a
                    };
                    let l = if count_b > count_a {
                        id_a
                    } else {
                        id_b
                    };
                    &&& r == Result::<(u16, u16), DBError>::Ok((w, l))
                    &&& ia == ib ==> final(self)@ == s0
                    &&& ia != ib ==> final(self)@ == s0.remove(
                        if count_b > count_a {
                            ia
                        } else {
                            ib
                        },
                    )
                })
            }),
    {
        let ghost s0 = self@;
        let ia = match self.find_name(a) {
            Option::Some(i) => i,
            Option::None => {
                return Err(DBError::UnknownTag(a.to_owned()));
            },
        };
        let ib = match self.find_name(b) {
            Option::Some(i) => i,
            Option::None => {
                return Err(DBError::UnknownTag(b.to_owned()));
            },
        };
        proof {
            assert(s0[idx_of_name(s0, a@)].name == a@);
            assert(idx_of_name(s0, a@) == ia as int);
            assert(s0[idx_of_name(s0, b@)].name == b@);
            assert(idx_of_name(s0, b@) == ib as int);
        }
        let id_a = self.pairs[ia].id;
        let id_b = self.pairs[ib].id;
        let winner: u16;
        let loser: u16;
        let lose_idx: usize;
        if count_b > count_a {
            winner = id_b;
            loser = id_a;
            lose_idx = ia;
        } else {
            winner = id_a;
            loser = id_b;
            lose_idx = ib;
        }
        if ia == ib {
            return Ok((winner, loser));
        }
        self.pairs.remove(lose_idx);
        proof {
            let s1 = self@;
            assert(s1 =~= s0.remove(lose_idx as int));
            assert forall|i: int, j: int|
                0 <= i < s1.len() && 0 <= j < s1.len() && i != j implies #[trigger] s1[i].id
                != #[trigger] s1[j].id && s1[i].name != s1[j].name by {
                let oi = if i < lose_idx as int {
                    i
                } else {
                    i + 1
                };
                let oj = if j < lose_idx as int {
                    j
                } else {
                    j + 1
                };
                assert(s1[i] == s0[oi]);
                assert(s1[j] == s0[oj]);
            }
            assert forall|i: int| 0 <= i < s1.len() implies (#[trigger] s1[i].name).len() > 0 by {
                let oi = if i < lose_idx as int {
                    i
                } else {
                    i + 1
                };
                assert(s1[i] == s0[oi]);
            }
        }
        Ok((winner, loser))
    }

    /// The dictionary as `"<id> <name>"` lines, in stored order.
    pub fn to_lines(&self) -> (r: Vec<String>)
        ensures
            r.deep_view().len() == self@.len(),
            forall|i: int|
                0 <= i < self@.len() ==> #[trigger] r.deep_view()[i] == tag_line_of(self@[i]),
    {
        let mut out: Vec<String> = Vec::new();
        let mut i: usize = 0;
        while i < self.pairs.len()
            invariant
                0 <= i <= self.pairs@.len(),
                self@.len() == self.pairs@.len(),
                out.deep_view().len() == i,
                forall|k: int|
                    0 <= k < i ==> #[trigger] out.deep_view()[k] == tag_line_of(self@[k]),
            decreases self.pairs@.len() - i,
        {
            let mut line = crate::strnum::dec_u64_string(self.pairs[i].id as u64);
            line.append(" ");
            line.append(self.pairs[i].name.as_str());
            proof {
                reveal_strlit(" ");
                assert(" "@ =~= seq![' ']);
                assert(line@ =~= tag_line_of(self@[i as int]));
            }
            let ghost odv = out.deep_view();
            let ghost lv = line@;
            out.push(line);
            proof {
                assert(out.deep_view() =~= odv.push(lv));
            }
            i = i + 1;
        }
        out
    }
}

/// A tag list after a merge rewrite: the loser `l` replaced by the
/// winner `w`, keeping only the first resulting occurrence of `w`
/// (`seen_w` records whether one already went by).
pub open spec fn merged_tags(tags: Seq<u16>, l: u16, w: u16, seen_w: bool) -> Seq<u16>
    decreases tags.len(),
{
    if tags.len() == 0 {
        Seq::empty()
    } else {
        let t0 = if tags[0] == l {
            w
        } else {
            tags[0]
        };
        if t0 == w {
            if seen_w {
                merged_tags(tags.skip(1), l, w, true)
            } else {
                seq![w] + merged_tags(tags.skip(1), l, w, true)
            }
        } else {
            seq![t0] + merged_tags(tags.skip(1), l, w, seen_w)
        }
    }
}

/// How often `t` occurs in `s`.
pub open spec fn count_of(s: Seq<u16>, t: u16) -> int
    decreases s.len(),
{
    if s.len() == 0 {
        0
    } else {
        (if s[0] == t {
            1int
        } else {
            0int
        }) + count_of(s.skip(1), t)
    }
}

/// One entry after a merge rewrite.
pub open spec fn merged_entry(e: EntryView, l: u16, w: u16) -> EntryView {
    EntryView {
        hour: e.hour,
        mental_score: e.mental_score,
        physical_score: e.physical_score,
        tags: merged_tags(e.tags, l, w, false),
    }
}

proof fn lemma_count_cons(x: u16, s: Seq<u16>)
    ensures
        forall|t: u16|
            #[trigger] count_of(seq![x] + s, t) == (if x == t {
                1int
            } else {
                0int
            }) + count_of(s, t),
{
    assert forall|t: u16|
        #[trigger] count_of(seq![x] + s, t) == (if x == t {
            1int
        } else {
            0int
        }) + count_of(s, t) by {
        let c = seq![x] + s;
        assert(c[0] == x);
        assert(c.skip(1) =~= s);
    }
}

proof fn lemma_merged_cons(x: u16, rest: Seq<u16>, l: u16, w: u16, seen_w: bool)
    ensures
        merged_tags(seq![x] + rest, l, w, seen_w) == ({
            let t0 = if x == l {
                w
            } else {
                x
            };
            if t0 == w {
                if seen_w {
                    merged_tags(rest, l, w, true)
                } else {
                    seq![w] + merged_tags(rest, l, w, true)
                }
            } else {
                seq![t0] + merged_tags(rest, l, w, seen_w)
            }
        }),
{
    let c = seq![x] + rest;
    assert(c[0] == x);
    assert(c.skip(1) =~= rest);
}

/// The merge rewrite leaves no occurrence of the loser, and at most
/// one occurrence of the winner, in any entry's tag sequence.
pub proof fn lemma_merge_no_duplicates(tags: Seq<u16>, l: u16, w: u16, seen_w: bool)
    requires
        l != w,
    ensures
        count_of(merged_tags(tags, l, w, seen_w), l) == 0,
        count_of(merged_tags(tags, l, w, seen_w), w) <= (if seen_w {
            0int
        } else {
            1int
        }),
    decreases tags.len(),
{
    if tags.len() > 0 {
        let t0 = if tags[0] == l {
            w
        } else {
            tags[0]
        };
        if t0 == w {
            lemma_merge_no_duplicates(tags.skip(1), l, w, true);
            if !seen_w {
                lemma_count_cons(w, merged_tags(tags.skip(1), l, w, true));
            }
        } else {
            lemma_merge_no_duplicates(tags.skip(1), l, w, seen_w);
            lemma_count_cons(t0, merged_tags(tags.skip(1), l, w, seen_w));
        }
    }
}

/// Every tag of the rewrite is the winner or came from the entry.
pub proof fn lemma_merge_members(tags: Seq<u16>, l: u16, w: u16, seen_w: bool)
    ensures
        forall|x: u16|
            merged_tags(tags, l, w, seen_w).contains(x) ==> x == w || tags.contains(x),
    decreases tags.len(),
{
    if tags.len() > 0 {
        lemma_merge_members(tags.skip(1), l, w, true);
        lemma_merge_members(tags.skip(1), l, w, seen_w);
        assert forall|x: u16| merged_tags(tags, l, w, seen_w).contains(x) implies x == w
            || tags.contains(x) by {
            let m = merged_tags(tags, l, w, seen_w);
            let t0 = if tags[0] == l {
                w
            } else {
                tags[0]
            };
            if x != w {
                let i = choose|i: int| 0 <= i < m.len() && m[i] == x;
                if t0 == w && seen_w {
                    assert(merged_tags(tags.skip(1), l, w, true).contains(x));
                } else if t0 == w {
                    assert(m == seq![w] + merged_tags(tags.skip(1), l, w, true));
                    assert(m[i] == x && i > 0);
                    assert(merged_tags(tags.skip(1), l, w, true)[i - 1] == x);
                    assert(merged_tags(tags.skip(1), l, w, true).contains(x));
                } else {
                    assert(m == seq![t0] + merged_tags(tags.skip(1), l, w, seen_w));
                    if i == 0 {
                        assert(tags[0] == x);
                        assert(tags.contains(x));
                    } else {
                        assert(merged_tags(tags.skip(1), l, w, seen_w)[i - 1] == x);
                        assert(merged_tags(tags.skip(1), l, w, seen_w).contains(x));
                    }
                }
                if x != w && !(tags.contains(x)) {
                    if tags.skip(1).contains(x) {
                        let j = choose|j: int| 0 <= j < tags.skip(1).len() && tags.skip(1)[j] == x;
                        assert(tags[j + 1] == x);
                    }
                }
            }
        }
    }
}

/// Re-applying the merge rewrite changes nothing: the day-file rewrite
/// phase of a merge is idempotent file by file.
pub proof fn lemma_merge_idempotent(tags: Seq<u16>, l: u16, w: u16, seen_w: bool)
    requires
        l != w,
    ensures
        merged_tags(merged_tags(tags, l, w, seen_w), l, w, seen_w) == merged_tags(
            tags,
            l,
            w,
            seen_w,
        ),
    decreases tags.len(),
{
    if tags.len() > 0 {
        let t0 = if tags[0] == l {
            w
        } else {
            tags[0]
        };
        if t0 == w {
            lemma_merge_idempotent(tags.skip(1), l, w, true);
            if !seen_w {
                lemma_merged_cons(w, merged_tags(tags.skip(1), l, w, true), l, w, false);
            }
        } else {
            lemma_merge_idempotent(tags.skip(1), l, w, seen_w);
            lemma_merged_cons(t0, merged_tags(tags.skip(1), l, w, seen_w), l, w, seen_w);
        }
    }
}

fn merge_tag_vec(tags: &Vec<u16>, i: usize, l: u16, w: u16, seen_w: bool) -> (r: Vec<u16>)
    requires
        i <= tags@.len(),
    ensures
        r@ == merged_tags(tags@.skip(i as int), l, w, seen_w),
    decreases tags@.len() - i,
{
    if i == tags.len() {
        proof {
            assert(tags@.skip(i as int) =~= Seq::<u16>::empty());
        }
        Vec::new()
    } else {
        let x = tags[i];
        let t0 = if x == l {
            w
        } else {
            x
        };
        proof {
            assert(tags@.skip(i as int)[0] == tags@[i as int]);
            assert(tags@.skip(i as int).skip(1) =~= tags@.skip(i as int + 1));
        }
        if t0 == w {
            if seen_w {
                merge_tag_vec(tags, i + 1, l, w, true)
            } else {
                let mut r = merge_tag_vec(tags, i + 1, l, w, true);
                r.insert(0, w);
                proof {
                    assert(r@ =~= seq![w] + r@.skip(1));
                }
                r
            }
        } else {
            let mut r = merge_tag_vec(tags, i + 1, l, w, seen_w);
            r.insert(0, t0);
            proof {
                assert(r@ =~= seq![t0] + r@.skip(1));
            }
            r
        }
    }
}

/// Rewrites a day's entries for a merge of the loser tag `l` into the
/// winner `w`, never leaving the same tag twice in one entry.
pub fn apply_merge(entries: &Vec<DataEntry>, l: u16, w: u16) -> (r: Vec<DataEntry>)
    requires
        l != w,
    ensures
        r.deep_view().len() == entries.deep_view().len(),
        forall|i: int|
            0 <= i < entries.deep_view().len() ==> #[trigger] r.deep_view()[i] == merged_entry(
                entries.deep_view()[i],
                l,
                w,
            ),
        entries_valid(entries.deep_view()) && tag_valid(w) ==> entries_valid(r.deep_view()),
{
    let mut out: Vec<DataEntry> = Vec::new();
    let mut i: usize = 0;
    while i < entries.len()
        invariant
            0 <= i <= entries@.len(),
            entries.deep_view().len() == entries@.len(),
            out.deep_view().len() == i,
            forall|k: int|
                0 <= k < i ==> #[trigger] out.deep_view()[k] == merged_entry(
                    entries.deep_view()[k],
                    l,
                    w,
                ),
            l != w,
        decreases entries@.len() - i,
    {
        let e = &entries[i];
        let new_tags = merge_tag_vec(&e.tags, 0, l, w, false);
        proof {
            assert(e.tags@.skip(0) =~= e.tags@);
        }
        let ne = DataEntry::new(e.hour, e.mental_score, e.physical_score, new_tags);
        let ghost odv = out.deep_view();
        let ghost nev = ne@;
        out.push(ne);
        proof {
            assert(out.deep_view() =~= odv.push(nev));
        }
        i = i + 1;
    }
    proof {
        if entries_valid(entries.deep_view()) && tag_valid(w) {
            assert forall|k: int| 0 <= k < out.deep_view().len() implies entry_tags_valid(
                #[trigger] out.deep_view()[k],
            ) by {
                let e = entries.deep_view()[k];
                lemma_merge_members(e.tags, l, w, false);
                let m = merged_tags(e.tags, l, w, false);
                assert forall|j: int| 0 <= j < m.len() implies tag_valid(#[trigger] m[j]) by {
                    assert(m.contains(m[j]));
                    if m[j] != w {
                        assert(e.tags.contains(m[j]));
                        let p = choose|p: int| 0 <= p < e.tags.len() && e.tags[p] == m[j];
                        assert(entry_tags_valid(e));
                        assert(tag_valid(e.tags[p]));
                    }
                }
            }
        }
    }
    out
}

/// The position of the pair carrying `id`; meaningful under
/// [`has_id`].
pub open spec fn idx_of_id(s: Seq<TagView>, id: u16) -> int {
    choose|i: int| 0 <= i < s.len() && (#[trigger] s[i].id) == id
}

/// How one tag renders in an entry listing: its name, or a marker for
/// an id the dictionary does not know.
pub open spec fn display_tag(dict: Seq<TagView>, t: u16) -> Seq<char> {
    if has_id(dict, t) {
        dict[idx_of_id(dict, t)].name
    } else {
        "UNKNOWN_ID"@
    }
}

/// The tag part of an entry listing, one `"<name> "` term per tag.
pub open spec fn display_tags_suffix(dict: Seq<TagView>, tags: Seq<u16>) -> Seq<char>
    decreases tags.len(),
{
    if tags.len() == 0 {
        Seq::empty()
    } else {
        display_tags_suffix(dict, tags.drop_last()) + display_tag(dict, tags.last()) + seq![' ']
    }
}

/// One entry as a human-readable line:
/// `"\n <hour>:00 | <mental> | <physical> | <tag name> ..."`.
pub open spec fn entry_display(e: EntryView, dict: Seq<TagView>) -> Seq<char> {
    seq!['\n', ' '] + dec_str(e.hour as nat) + seq![':', '0', '0', ' ', '|', ' '] + dec_str(
        e.mental_score as nat,
    ) + seq![' ', '|', ' '] + dec_str(e.physical_score as nat) + seq![' ', '|', ' ']
        + display_tags_suffix(dict, e.tags)
}

impl DataEntry {
    /// Renders this entry with its tag names for display; the caller
    /// prints it.
    pub fn temp_display_entry(&self, tags: &TagList) -> (r: String)
        requires
            tag_list_wf(tags@),
        ensures
            r@ == entry_display(self@, tags@),
    {
        proof {
            reveal_strlit("\n ");
            reveal_strlit(":00 | ");
            reveal_strlit(" | ");
            reveal_strlit(" ");
        }
        let mut s = String::from_str("\n ");
        crate::strnum::push_dec_u64(&mut s, self.hour as u64);
        s.append(":00 | ");
        crate::strnum::push_dec_u64(&mut s, self.mental_score as u64);
        s.append(" | ");
        crate::strnum::push_dec_u64(&mut s, self.physical_score as u64);
        s.append(" | ");
        let ghost head = s@;
        proof {
            assert("\n "@ =~= seq!['\n', ' ']);
            assert(":00 | "@ =~= seq![':', '0', '0', ' ', '|', ' ']);
            assert(" | "@ =~= seq![' ', '|', ' ']);
            assert(head =~= seq!['\n', ' '] + dec_str(self.hour as nat) + seq![
                ':',
                '0',
                '0',
                ' ',
                '|',
                ' ',
            ] + dec_str(self.mental_score as nat) + seq![' ', '|', ' '] + dec_str(
                self.physical_score as nat,
            ) + seq![' ', '|', ' ']);
        }
        let mut j: usize = 0;
        while j < self.tags.len()
            invariant
                0 <= j <= self.tags@.len(),
                tag_list_wf(tags@),
                s@ == head + display_tags_suffix(tags@, self.tags@.take(j as int)),
            decreases self.tags@.len() - j,
        {
            let t = self.tags[j];
            proof {
                assert(self.tags@.take(j as int + 1).drop_last() =~= self.tags@.take(j as int));
                assert(self.tags@.take(j as int + 1).last() == self.tags@[j as int]);
            }
            match tags.get_tag(t) {
                Result::Ok(name) => {
                    proof {
                        let i = choose|i: int|
                            0 <= i < tags@.len() && (#[trigger] tags@[i]).id == t && tags@[i].name
                                == name@;
                        assert(tags@[idx_of_id(tags@, t)].id == t);
                        assert(idx_of_id(tags@, t) == i);
                        assert(display_tag(tags@, t) == name@);
                    }
                    s.append(name.as_str());
                },
                Result::Err(_) => {
                    proof {
                        reveal_strlit("UNKNOWN_ID");
                        assert(display_tag(tags@, t) == "UNKNOWN_ID"@);
                    }
                    s.append("UNKNOWN_ID");
                },
            }
            proof {
                reveal_strlit(" ");
            }
            s.append(" ");
            proof {
                assert(" "@ =~= seq![' ']);
                assert(s@ =~= head + display_tags_suffix(tags@, self.tags@.take(j as int + 1)));
            }
            j = j + 1;
        }
        proof {
            assert(self.tags@.take(self.tags@.len() as int) =~= self.tags@);
            assert(s@ =~= entry_display(self@, tags@));
        }
        s
    }
}

/// After a successful load the dictionary is a bijection: pairs with
/// different ids carry different names, and pairs with different names
/// carry different ids.
pub proof fn lemma_dictionary_bijective(s: Seq<TagView>)
    requires
        tag_list_wf(s),
    ensures
        forall|i: int, j: int|
            0 <= i < s.len() && 0 <= j < s.len() && #[trigger] s[i].id != #[trigger] s[j].id
                ==> s[i].name != s[j].name,
        forall|i: int, j: int|
            0 <= i < s.len() && 0 <= j < s.len() && #[trigger] s[i].name != #[trigger] s[j].name
                ==> s[i].id != s[j].id,
{
}

} // verus!
