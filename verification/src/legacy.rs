//! The legacy importer: converts the old plain-text day records into
//! the binary day-file format, assigning dense tag ids as tag names
//! are first met.
//!
//! One text line is
//! `"<ignored>|<hour>:<ignored>|<mental>,<ignored>|<physical>,<ignored>|<tag> <tag> ..."`,
//! and a legacy file name is `"<day of month>-<WeekdayName>"`.

use vstd::prelude::*;
use crate::codec::tag_bytes;
use crate::strnum::{dec_str, find_char, find_in_str, parse_u16, parse_u16_spec, str_eq};
use crate::tags::{tag_line_of, TagView};

verus! {

/// A legacy import failed.
#[derive(Debug)]
pub enum ImportError {
    MalformedLine(String),
    TooManyTags,
}

/// The mathematical shape of an import failure.
pub enum ImportErrView {
    MalformedLine(Seq<char>),
    TooManyTags,
}

impl View for ImportError {
    type V = ImportErrView;

    open spec fn view(&self) -> ImportErrView {
        match self {
            ImportError::MalformedLine(s) => ImportErrView::MalformedLine(s@),
            ImportError::TooManyTags => ImportErrView::TooManyTags,
        }
    }
}

/// The weekday index written into a transformed file name
/// (255 for an unknown weekday name).
pub open spec fn weekday_code(name: Seq<char>) -> u8 {
    if name == "Monday"@ {
        0
    } else if name == "Tuesday"@ {
        1
    } else if name == "Wednesday"@ {
        2
    } else if name == "Thursday"@ {
        3
    } else if name == "Friday"@ {
        4
    } else if name == "Saturday"@ {
        5
    } else if name == "Sunday"@ {
        6
    } else {
        255
    }
}

/// The index of a weekday name.
pub fn day_of_week(day_name: &str) -> (r: u8)
    ensures
        r == weekday_code(day_name@),
{
    if str_eq(day_name, "Monday") {
        0
    } else if str_eq(day_name, "Tuesday") {
        1
    } else if str_eq(day_name, "Wednesday") {
        2
    } else if str_eq(day_name, "Thursday") {
        3
    } else if str_eq(day_name, "Friday") {
        4
    } else if str_eq(day_name, "Saturday") {
        5
    } else if str_eq(day_name, "Sunday") {
        6
    } else {
        255
    }
}

/// The binary file name a legacy stem `"<day>-<WeekdayName>"` maps to:
/// `"<day>-<weekday index>.statdiary"`.
pub open spec fn transformed_name(stem: Seq<char>) -> Option<Seq<char>> {
    let d = find_char(stem, '-');
    if d < 0 {
        None
    } else {
        let rest = stem.skip(d + 1);
        let d2 = find_char(rest, '-');
        let wname = if d2 < 0 {
            rest
        } else {
            rest.take(d2)
        };
        Some(
            stem.take(d) + seq!['-'] + dec_str(weekday_code(wname) as nat) + seq!['.']
                + "statdiary"@,
        )
    }
}

/// Derives the binary file name for a legacy file stem.
pub fn transformed_file_name(stem: &str) -> (r: Option<String>)
    ensures
        match r {
            Option::Some(s) => transformed_name(stem@) == Some(s@),
            Option::None => transformed_name(stem@) is None,
        },
{
    let len = stem.unicode_len();
    let d = match find_in_str(stem, '-') {
        Option::Some(p) => p,
        Option::None => {
            return None;
        },
    };
    let rest = stem.substring_char(d + 1, len);
    proof {
        assert(rest@ =~= stem@.skip(d as int + 1));
    }
    let wname: &str = match find_in_str(rest, '-') {
        Option::Some(p) => rest.substring_char(0, p),
        Option::None => rest,
    };
    proof {
        let d2 = find_char(rest@, '-');
        if d2 >= 0 {
            assert(wname@ =~= rest@.take(d2));
        }
    }
    let code = day_of_week(wname);
    let mut out = String::new();
    let day = stem.substring_char(0, d);
    proof {
        assert(day@ =~= stem@.take(d as int));
    }
    out.append(day);
    proof {
        reveal_strlit("-");
        reveal_strlit(".");
    }
    out.append("-");
    crate::strnum::push_dec_u64(&mut out, code as u64);
    out.append(".");
    out.append("statdiary");
    proof {
        assert("-"@ =~= seq!['-']);
        assert("."@ =~= seq!['.']);
        assert(out@ =~= stem@.take(d as int) + seq!['-'] + dec_str(weekday_code(wname@) as nat)
            + seq!['.'] + "statdiary"@);
    }
    Some(out)
}

/// A score or hour field's value: the decimal before the separator
/// (or the whole field), when it fits an unsigned byte.
pub open spec fn field_value(field: Seq<char>, sep: char) -> Option<u8> {
    let cut = find_char(field, sep);
    let tok = if cut < 0 {
        field
    } else {
        field.take(cut)
    };
    match parse_u16_spec(tok) {
        Option::Some(v) => if v <= 255 {
            Some(v as u8)
        } else {
            None
        },
        Option::None => None,
    }
}

/// Parses a score or hour field.
pub fn parse_field(field: &str, sep: char) -> (r: Option<u8>)
    ensures
        r == field_value(field@, sep),
{
    let tok: &str = match find_in_str(field, sep) {
        Option::Some(p) => field.substring_char(0, p),
        Option::None => field,
    };
    proof {
        let cut = find_char(field@, sep);
        if cut >= 0 {
            assert(tok@ =~= field@.take(cut));
        }
    }
    match parse_u16(tok) {
        Option::Some(v) => {
            if v <= 255 {
                Some(v as u8)
            } else {
                None
            }
        },
        Option::None => None,
    }
}

/// The space-separated tokens of a tag field.
pub open spec fn split_spaces(s: Seq<char>) -> Seq<Seq<char>>
    decreases s.len(),
{
    let sp = find_char(s, ' ');
    if sp < 0 || sp >= s.len() {
        seq![s]
    } else {
        seq![s.take(sp)] + split_spaces(s.skip(sp + 1))
    }
}

fn any_empty(toks: &Vec<String>) -> (r: bool)
    ensures
        r == has_empty_token(toks.deep_view()),
{
    let mut k: usize = 0;
    while k < toks.len()
        invariant
            0 <= k <= toks@.len(),
            toks.deep_view().len() == toks@.len(),
            forall|q: int| 0 <= q < k ==> (#[trigger] toks.deep_view()[q]).len() > 0,
        decreases toks@.len() - k,
    {
        if toks[k].as_str().unicode_len() == 0 {
            proof {
                assert(toks.deep_view()[k as int].len() == 0);
            }
            return true;
        }
        k = k + 1;
    }
    proof {
        assert(!has_empty_token(toks.deep_view()));
    }
    false
}

fn split_tokens(s: &str) -> (r: Vec<String>)
    ensures
        r.deep_view() == split_spaces(s@),
    decreases s@.len(),
{
    let len = s.unicode_len();
    match find_in_str(s, ' ') {
        Option::None => {
            let mut r: Vec<String> = Vec::new();
            r.push(s.to_owned());
            proof {
                assert(r.deep_view() =~= seq![s@]);
            }
            r
        },
        Option::Some(sp) => {
            let head = s.substring_char(0, sp);
            let rest = s.substring_char(sp + 1, len);
            proof {
                assert(head@ =~= s@.take(sp as int));
                assert(rest@ =~= s@.skip(sp as int + 1));
            }
            let mut r = split_tokens(rest);
            let ghost rdv = r.deep_view();
            r.insert(0, head.to_owned());
            proof {
                assert(r.deep_view() =~= seq![head@] + rdv);
            }
            r
        },
    }
}

/// One parsed legacy line: the hour, the two scores and the tag names.
pub struct LegacyLineView {
    pub hour: u8,
    pub mental: u8,
    pub physical: u8,
    pub toks: Seq<Seq<char>>,
}

/// What parsing one legacy line accepts: five bar-separated parts (the
/// first ignored, anything after a fifth bar ignored), byte-sized hour
/// and scores, and non-empty tag names.
pub open spec fn legacy_line_parsed(line: Seq<char>) -> Option<LegacyLineView> {
    let b1 = find_char(line, '|');
    if b1 < 0 {
        None
    } else {
        let r1 = line.skip(b1 + 1);
        let b2 = find_char(r1, '|');
        if b2 < 0 {
            None
        } else {
            let hour_field = r1.take(b2);
            let r2 = r1.skip(b2 + 1);
            let b3 = find_char(r2, '|');
            if b3 < 0 {
                None
            } else {
                let mental_field = r2.take(b3);
                let r3 = r2.skip(b3 + 1);
                let b4 = find_char(r3, '|');
                if b4 < 0 {
                    None
                } else {
                    let physical_field = r3.take(b4);
                    let r4 = r3.skip(b4 + 1);
                    let b5 = find_char(r4, '|');
                    let tag_field = if b5 < 0 {
                        r4
                    } else {
                        r4.take(b5)
                    };
                    let toks = split_spaces(tag_field);
                    if has_empty_token(toks) {
                        None
                    } else {
                        match field_value(hour_field, ':') {
                            Option::None => None,
                            Option::Some(h) => match field_value(mental_field, ',') {
                                Option::None => None,
                                Option::Some(m) => match field_value(physical_field, ',') {
                                    Option::None => None,
                                    Option::Some(p) => Some(
                                        LegacyLineView {
                                            hour: h,
                                            mental: m,
                                            physical: p,
                                            toks,
                                        },
                                    ),
                                },
                            },
                        }
                    }
                }
            }
        }
    }
}

fn parse_legacy_line(line: &str) -> (r: Option<(u8, u8, u8, Vec<String>)>)
    ensures
        match r {
            Option::Some(t) => legacy_line_parsed(line@) == Some(
                LegacyLineView { hour: t.0, mental: t.1, physical: t.2, toks: t.3.deep_view() },
            ),
            Option::None => legacy_line_parsed(line@) is None,
        },
{
    let len = line.unicode_len();
    let b1 = match find_in_str(line, '|') {
        Option::Some(p) => p,
        Option::None => {
            return None;
        },
    };
    let r1 = line.substring_char(b1 + 1, len);
    proof {
        assert(r1@ =~= line@.skip(b1 as int + 1));
    }
    let r1len = r1.unicode_len();
    let b2 = match find_in_str(r1, '|') {
        Option::Some(p) => p,
        Option::None => {
            return None;
        },
    };
    let hour_field = r1.substring_char(0, b2);
    let r2 = r1.substring_char(b2 + 1, r1len);
    proof {
        assert(hour_field@ =~= r1@.take(b2 as int));
        assert(r2@ =~= r1@.skip(b2 as int + 1));
    }
    let r2len = r2.unicode_len();
    let b3 = match find_in_str(r2, '|') {
        Option::Some(p) => p,
        Option::None => {
            return None;
        },
    };
    let mental_field = r2.substring_char(0, b3);
    let r3 = r2.substring_char(b3 + 1, r2len);
    proof {
        assert(mental_field@ =~= r2@.take(b3 as int));
        assert(r3@ =~= r2@.skip(b3 as int + 1));
    }
    let r3len = r3.unicode_len();
    let b4 = match find_in_str(r3, '|') {
        Option::Some(p) => p,
        Option::None => {
            return None;
        },
    };
    let physical_field = r3.substring_char(0, b4);
    let r4 = r3.substring_char(b4 + 1, r3len);
    proof {
        assert(physical_field@ =~= r3@.take(b4 as int));
        assert(r4@ =~= r3@.skip(b4 as int + 1));
    }
    let tag_field: &str = match find_in_str(r4, '|') {
        Option::Some(p) => r4.substring_char(0, p),
        Option::None => r4,
    };
    proof {
        let b5 = find_char(r4@, '|');
        if b5 >= 0 {
            assert(tag_field@ =~= r4@.take(b5));
        }
    }
    let toks = split_tokens(tag_field);
    if any_empty(&toks) {
        proof {
            // Walk the line the way the parsing function does, so the
            // empty token found above is seen in the same tag field.
            let sb1 = find_char(line@, '|');
            assert(sb1 == b1 as int);
            let sr1 = line@.skip(sb1 + 1);
            assert(sr1 == r1@);
            let sb2 = find_char(sr1, '|');
            assert(sb2 == b2 as int);
            let sr2 = sr1.skip(sb2 + 1);
            assert(sr2 == r2@);
            let sb3 = find_char(sr2, '|');
            assert(sb3 == b3 as int);
            let sr3 = sr2.skip(sb3 + 1);
            assert(sr3 == r3@);
            let sb4 = find_char(sr3, '|');
            assert(sb4 == b4 as int);
            let sr4 = sr3.skip(sb4 + 1);
            assert(sr4 == r4@);
            let sb5 = find_char(sr4, '|');
            let stf = if sb5 < 0 {
                sr4
            } else {
                sr4.take(sb5)
            };
            assert(stf == tag_field@);
            assert(split_spaces(stf) == toks.deep_view());
            assert(has_empty_token(split_spaces(stf)));
            assert(legacy_line_parsed(line@) is None);
        }
        return None;
    }
    let hour = match parse_field(hour_field, ':') {
        Option::Some(v) => v,
        Option::None => {
            return None;
        },
    };
    let mental = match parse_field(mental_field, ',') {
        Option::Some(v) => v,
        Option::None => {
            return None;
        },
    };
    let physical = match parse_field(physical_field, ',') {
        Option::Some(v) => v,
        Option::None => {
            return None;
        },
    };
    Some((hour, mental, physical, toks))
}

/// Some tag token is empty.
pub open spec fn has_empty_token(toks: Seq<Seq<char>>) -> bool {
    exists|k: int| 0 <= k < toks.len() && (#[trigger] toks[k]).len() == 0
}

/// The first position of a name in the import table, or -1.
pub open spec fn name_index(names: Seq<Seq<char>>, tok: Seq<char>) -> int
    decreases names.len(),
{
    if names.len() == 0 {
        -1
    } else if names[0] == tok {
        0
    } else {
        let r = name_index(names.skip(1), tok);
        if r < 0 {
            -1
        } else {
            r + 1
        }
    }
}

proof fn lemma_name_index_at(names: Seq<Seq<char>>, tok: Seq<char>, i: int)
    requires
        0 <= i <= names.len(),
        forall|k: int| 0 <= k < i ==> names[k] != tok,
        i < names.len() ==> names[i] == tok,
    ensures
        name_index(names, tok) == if i == names.len() {
            -1
        } else {
            i
        },
    decreases i,
{
    if i == 0 {
    } else {
        assert(names[0] != tok);
        let t = names.skip(1);
        assert(forall|k: int| 0 <= k < i - 1 ==> t[k] == names[k + 1] && #[trigger] t[k] != tok);
        if i - 1 < t.len() {
            assert(t[i - 1] == names[i]);
        }
        lemma_name_index_at(t, tok, i - 1);
    }
}

/// The import-time tag table: a tag's id is its position.
pub struct ImportTags {
    names: Vec<String>,
}

impl View for ImportTags {
    type V = Seq<Seq<char>>;

    closed spec fn view(&self) -> Seq<Seq<char>> {
        self.names.deep_view()
    }
}

/// The import table stays within the usable tag-id space.
pub open spec fn import_tags_wf(s: Seq<Seq<char>>) -> bool {
    s.len() <= 0xFFFF
}

impl ImportTags {
    /// An empty import table.
    pub fn new() -> (r: ImportTags)
        ensures
            r@ == Seq::<Seq<char>>::empty(),
    {
        let r = ImportTags { names: Vec::new() };
        proof {
            assert(r@ =~= Seq::<Seq<char>>::empty());
        }
        r
    }

    /// The table as `"<id> <name>"` lines, the format of `tags.txt`.
    pub fn to_lines(&self) -> (r: Vec<String>)
        requires
            import_tags_wf(self@),
        ensures
            r.deep_view().len() == self@.len(),
            forall|i: int|
                0 <= i < self@.len() ==> #[trigger] r.deep_view()[i] == tag_line_of(
                    TagView { id: i as u16, name: self@[i] },
                ),
    {
        let mut out: Vec<String> = Vec::new();
        let mut i: usize = 0;
        while i < self.names.len()
            invariant
                0 <= i <= self.names@.len(),
                self@.len() == self.names@.len(),
                self@.len() <= 0xFFFF,
                out.deep_view().len() == i,
                forall|k: int|
                    0 <= k < i ==> #[trigger] out.deep_view()[k] == tag_line_of(
                        TagView { id: k as u16, name: self@[k] },
                    ),
            decreases self.names@.len() - i,
        {
            let mut line = crate::strnum::dec_u64_string(i as u64);
            proof {
                reveal_strlit(" ");
            }
            line.append(" ");
            line.append(self.names[i].as_str());
            proof {
                assert(" "@ =~= seq![' ']);
                assert(line@ =~= tag_line_of(TagView { id: i as u16, name: self@[i as int] }));
            }
            let ghost odv = out.deep_view();
            let ghost lv = line@;
            out.push(line);
            proof {
                assert(out.deep_view() =~= odv.push(lv));
            }
            i = i + 1;
        }
        out
    }

    /// The id of a name, assigning the next free id to a new name;
    /// fails with `TooManyTags` when the id space is exhausted.
    fn get_or_insert(&mut self, tok: &str) -> (r: Result<u16, ImportError>)
        requires
            import_tags_wf(old(self)@),
        ensures
            import_tags_wf(final(self)@),
            ({
                let s0 = old(self)@;
                let ix = name_index(s0, tok@);
                &&& ix >= 0 ==> r == Result::<u16, ImportError>::Ok(ix as u16) && final(self)@
                    == s0
                &&& ix < 0 && s0.len() <= 0xFFFE ==> r == Result::<u16, ImportError>::Ok(
                    s0.len() as u16,
                ) && final(self)@ == s0.push(tok@)
                &&& ix < 0 && s0.len() > 0xFFFE ==> r == Result::<u16, ImportError>::Err(
                    ImportError::TooManyTags,
                ) && final(self)@ == s0
            }),
    {
        let ghost s0 = self@;
        let mut i: usize = 0;
        while i < self.names.len()
            invariant
                0 <= i <= self.names@.len(),
                s0 == self@,
                s0 == old(self)@,
                s0.len() == self.names@.len(),
                s0.len() <= 0xFFFF,
                forall|k: int| 0 <= k < i ==> (#[trigger] s0[k]) != tok@,
            decreases self.names@.len() - i,
        {
            if str_eq(self.names[i].as_str(), tok) {
                proof {
                    lemma_name_index_at(s0, tok@, i as int);
                }
                return Ok(i as u16);
            }
            i = i + 1;
        }
        proof {
            lemma_name_index_at(s0, tok@, s0.len() as int);
        }
        if self.names.len() <= 0xFFFE {
            let id = self.names.len() as u16;
            self.names.push(tok.to_owned());
            proof {
                assert(self@ =~= s0.push(tok@));
            }
            Ok(id)
        } else {
            Err(ImportError::TooManyTags)
        }
    }
}

/// What encoding one line's tag list does to the bytes and the table:
/// each name's id (assigned on first sight) as two bytes, then the
/// entry sentinel.
pub open spec fn spec_assign_tags(toks: Seq<Seq<char>>, names: Seq<Seq<char>>) -> Result<
    (Seq<u8>, Seq<Seq<char>>),
    ImportErrView,
>
    decreases toks.len(),
{
    if toks.len() == 0 {
        Ok((seq![0xFFu8, 0xFFu8], names))
    } else {
        let ix = name_index(names, toks[0]);
        if ix >= 0 {
            match spec_assign_tags(toks.skip(1), names) {
                Result::Err(e) => Err(e),
                Result::Ok(rest) => Ok((tag_bytes(ix as u16) + rest.0, rest.1)),
            }
        } else if names.len() <= 0xFFFE {
            match spec_assign_tags(toks.skip(1), names.push(toks[0])) {
                Result::Err(e) => Err(e),
                Result::Ok(rest) => Ok((tag_bytes(names.len() as u16) + rest.0, rest.1)),
            }
        } else {
            Err(ImportErrView::TooManyTags)
        }
    }
}

fn assign_tags(toks: &Vec<String>, k: usize, tags: &mut ImportTags) -> (r: Result<
    Vec<u8>,
    ImportError,
>)
    requires
        k <= toks@.len(),
        import_tags_wf(old(tags)@),
    ensures
        import_tags_wf(final(tags)@),
        match r {
            Result::Ok(bytes) => spec_assign_tags(toks.deep_view().skip(k as int), old(tags)@)
                == Ok::<(Seq<u8>, Seq<Seq<char>>), ImportErrView>((bytes@, final(tags)@)),
            Result::Err(e) => spec_assign_tags(toks.deep_view().skip(k as int), old(tags)@)
                == Err::<(Seq<u8>, Seq<Seq<char>>), ImportErrView>(e@),
        },
    decreases toks@.len() - k,
{
    if k == toks.len() {
        let mut v: Vec<u8> = Vec::new();
        v.push(0xFF);
        v.push(0xFF);
        proof {
            assert(toks.deep_view().skip(k as int) =~= Seq::<Seq<char>>::empty());
            assert(v@ =~= seq![0xFFu8, 0xFFu8]);
        }
        Ok(v)
    } else {
        let ghost names0 = tags@;
        proof {
            assert(toks.deep_view().skip(k as int)[0] == toks.deep_view()[k as int]);
            assert(toks.deep_view().skip(k as int).skip(1) =~= toks.deep_view().skip(k as int + 1));
            assert(toks.deep_view()[k as int] == toks@[k as int]@);
        }
        let id = match tags.get_or_insert(toks[k].as_str()) {
            Result::Ok(v) => v,
            Result::Err(e) => {
                return Err(e);
            },
        };
        let mut v: Vec<u8> = Vec::new();
        v.push((id / 256) as u8);
        v.push((id % 256) as u8);
        proof {
            assert(v@ =~= tag_bytes(id));
        }
        let ghost vpre = v@;
        match assign_tags(toks, k + 1, tags) {
            Result::Err(e) => Err(e),
            Result::Ok(mut rest) => {
                let ghost rest0 = rest@;
                v.append(&mut rest);
                proof {
                    assert(v@ == tag_bytes(id) + rest0);
                }
                Ok(v)
            },
        }
    }
}

/// What transforming the legacy lines from position `i` on yields:
/// the binary day-file bytes and the grown tag table, or the first
/// malformed line, or an exhausted tag-id space.
pub open spec fn spec_transform(lines: Seq<Seq<char>>, names: Seq<Seq<char>>) -> Result<
    (Seq<u8>, Seq<Seq<char>>),
    ImportErrView,
>
    decreases lines.len(),
{
    if lines.len() == 0 {
        Ok((Seq::empty(), names))
    } else {
        match legacy_line_parsed(lines[0]) {
            Option::None => Err(ImportErrView::MalformedLine(lines[0])),
            Option::Some(l) => {
                match spec_assign_tags(l.toks, names) {
                    Result::Err(e) => Err(e),
                    Result::Ok(entry) => {
                        match spec_transform(lines.skip(1), entry.1) {
                            Result::Err(e) => Err(e),
                            Result::Ok(rest) => Ok(
                                (
                                    seq![l.hour, l.mental, l.physical] + entry.0 + rest.0,
                                    rest.1,
                                ),
                            ),
                        }
                    },
                }
            },
        }
    }
}

fn transform_from(lines: &Vec<String>, i: usize, tags: &mut ImportTags) -> (r: Result<
    Vec<u8>,
    ImportError,
>)
    requires
        i <= lines@.len(),
        import_tags_wf(old(tags)@),
    ensures
        import_tags_wf(final(tags)@),
        match r {
            Result::Ok(bytes) => spec_transform(lines.deep_view().skip(i as int), old(tags)@)
                == Ok::<(Seq<u8>, Seq<Seq<char>>), ImportErrView>((bytes@, final(tags)@)),
            Result::Err(e) => spec_transform(lines.deep_view().skip(i as int), old(tags)@)
                == Err::<(Seq<u8>, Seq<Seq<char>>), ImportErrView>(e@),
        },
    decreases lines@.len() - i,
{
    if i == lines.len() {
        let v: Vec<u8> = Vec::new();
        proof {
            assert(lines.deep_view().skip(i as int) =~= Seq::<Seq<char>>::empty());
            assert(v@ =~= Seq::<u8>::empty());
        }
        Ok(v)
    } else {
        proof {
            assert(lines.deep_view().skip(i as int)[0] == lines.deep_view()[i as int]);
            assert(lines.deep_view().skip(i as int).skip(1) =~= lines.deep_view().skip(
                i as int + 1,
            ));
        }
        let line = &lines[i];
        let parsed = match parse_legacy_line(line.as_str()) {
            Option::Some(t) => t,
            Option::None => {
                return Err(ImportError::MalformedLine(line.clone()));
            },
        };
        let (hour, mental, physical, toks) = parsed;
        let entry_tail = match assign_tags(&toks, 0, tags) {
            Result::Ok(v) => v,
            Result::Err(e) => {
                proof {
                    assert(toks.deep_view().skip(0) =~= toks.deep_view());
                }
                return Err(e);
            },
        };
        proof {
            assert(toks.deep_view().skip(0) =~= toks.deep_view());
        }
        let mut v: Vec<u8> = Vec::new();
        v.push(hour);
        v.push(mental);
        v.push(physical);
        let ghost head = v@;
        let mut tail = entry_tail;
        v.append(&mut tail);
        let ghost mid = v@;
        match transform_from(lines, i + 1, tags) {
            Result::Err(e) => Err(e),
            Result::Ok(mut rest) => {
                v.append(&mut rest);
                proof {
                    assert(head =~= seq![hour, mental, physical]);
                }
                Ok(v)
            },
        }
    }
}

/// Transforms a legacy file's text lines into binary day-file bytes,
/// assigning ids in the shared import table as new tag names appear.
pub fn transform_data_lines(lines: &Vec<String>, tags: &mut ImportTags) -> (r: Result<
    Vec<u8>,
    ImportError,
>)
    requires
        import_tags_wf(old(tags)@),
    ensures
        import_tags_wf(final(tags)@),
        match r {
            Result::Ok(bytes) => spec_transform(lines.deep_view(), old(tags)@) == Ok::<
                (Seq<u8>, Seq<Seq<char>>),
                ImportErrView,
            >((bytes@, final(tags)@)),
            Result::Err(e) => spec_transform(lines.deep_view(), old(tags)@) == Err::<
                (Seq<u8>, Seq<Seq<char>>),
                ImportErrView,
            >(e@),
        },
{
    proof {
        assert(lines.deep_view().skip(0) =~= lines.deep_view());
    }
    transform_from(lines, 0, tags)
}

} // verus!
