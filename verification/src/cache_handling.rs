//! The cache rebuild pipeline: recomputes every derived statistic from
//! the raw day files, bottom-up, and renders the month and year cache
//! files, overwriting stale caches.
//!
//! Averages are carried as exact integers in millionths (micro units):
//! a day's average score is `sum * 1_000_000 / count`, truncated, and a
//! month's average is the unweighted mean of its days' averages in the
//! same units. Rendering trims trailing zeros, so `77_500_000` prints
//! as `77.5` and `85_000_000` as `85`.
//!
//! The pipeline is a pure function of an in-memory picture of the
//! `data/` directory; the caller lists directories (in sorted order,
//! see [`crate::walker`]), reads the day files, and writes the
//! returned cache files back out.

use vstd::prelude::*;
use crate::codec::{decode, decode_entries_at, DataEntry, EntryView};
use crate::strnum::{dec_str, dec_u64_string, push_dec_u64, str_eq};

verus! {

/// A cache rebuild failed.
#[derive(Debug)]
pub enum RegenCachesError {
    InvalidRoot,
    IoError(String),
    FoundUnknownFile(String),
    FoundUnknownFolder(String),
    FormatError(String),
    EmptyDayFile(String),
}

/// The mathematical shape of a rebuild failure.
pub enum RegenErrView {
    InvalidRoot,
    IoError(Seq<char>),
    FoundUnknownFile(Seq<char>),
    FoundUnknownFolder(Seq<char>),
    FormatError(Seq<char>),
    EmptyDayFile(Seq<char>),
}

impl View for RegenCachesError {
    type V = RegenErrView;

    open spec fn view(&self) -> RegenErrView {
        match self {
            RegenCachesError::InvalidRoot => RegenErrView::InvalidRoot,
            RegenCachesError::IoError(s) => RegenErrView::IoError(s@),
            RegenCachesError::FoundUnknownFile(s) => RegenErrView::FoundUnknownFile(s@),
            RegenCachesError::FoundUnknownFolder(s) => RegenErrView::FoundUnknownFolder(s@),
            RegenCachesError::FormatError(s) => RegenErrView::FormatError(s@),
            RegenCachesError::EmptyDayFile(s) => RegenErrView::EmptyDayFile(s@),
        }
    }
}

impl RegenCachesError {
    /// The stable numeric code of this error kind.
    pub fn into_code(self) -> (r: i32)
        ensures
            self@ is InvalidRoot ==> r == 1,
            self@ is IoError ==> r == 2,
            self@ is FoundUnknownFile ==> r == 3,
            self@ is FoundUnknownFolder ==> r == 4,
            self@ is FormatError ==> r == 5,
            self@ is EmptyDayFile ==> r == 6,
    {
        match self {
            Self::InvalidRoot => 1,
            Self::IoError(_) => 2,
            Self::FoundUnknownFile(_) => 3,
            Self::FoundUnknownFolder(_) => 4,
            Self::FormatError(_) => 5,
            Self::EmptyDayFile(_) => 6,
        }
    }
}

/// Per-day derived statistics: score extremes, micro-unit averages,
/// and the distinct tags seen that day, ascending.
#[derive(Debug)]
pub struct Overview {
    pub min_m_score: u8,
    pub max_m_score: u8,
    pub avg_m_micro: u64,
    pub min_p_score: u8,
    pub max_p_score: u8,
    pub avg_p_micro: u64,
    pub tags: Vec<u16>,
}

/// The mathematical shape of a day overview.
pub struct OverviewView {
    pub min_m_score: u8,
    pub max_m_score: u8,
    pub avg_m_micro: u64,
    pub min_p_score: u8,
    pub max_p_score: u8,
    pub avg_p_micro: u64,
    pub tags: Seq<u16>,
}

impl View for Overview {
    type V = OverviewView;

    open spec fn view(&self) -> OverviewView {
        OverviewView {
            min_m_score: self.min_m_score,
            max_m_score: self.max_m_score,
            avg_m_micro: self.avg_m_micro,
            min_p_score: self.min_p_score,
            max_p_score: self.max_p_score,
            avg_p_micro: self.avg_p_micro,
            tags: self.tags@,
        }
    }
}

/// A period's pair of micro-unit score averages.
#[derive(Debug, Clone, Copy, PartialEq, Eq, Structural)]
pub struct ScoreAverages {
    pub avg_mental_micro: u64,
    pub avg_physical_micro: u64,
}

/// The sum of the mental scores.
pub open spec fn sum_mental(es: Seq<EntryView>) -> int
    decreases es.len(),
{
    if es.len() == 0 {
        0
    } else {
        sum_mental(es.drop_last()) + es.last().mental_score
    }
}

/// The sum of the physical scores.
pub open spec fn sum_physical(es: Seq<EntryView>) -> int
    decreases es.len(),
{
    if es.len() == 0 {
        0
    } else {
        sum_physical(es.drop_last()) + es.last().physical_score
    }
}

/// The least mental score (255 for no entries).
pub open spec fn min_mental(es: Seq<EntryView>) -> int
    decreases es.len(),
{
    if es.len() == 0 {
        255
    } else if es.last().mental_score < min_mental(es.drop_last()) {
        es.last().mental_score as int
    } else {
        min_mental(es.drop_last())
    }
}

/// The greatest mental score (0 for no entries).
pub open spec fn max_mental(es: Seq<EntryView>) -> int
    decreases es.len(),
{
    if es.len() == 0 {
        0
    } else if es.last().mental_score > max_mental(es.drop_last()) {
        es.last().mental_score as int
    } else {
        max_mental(es.drop_last())
    }
}

/// The least physical score (255 for no entries).
pub open spec fn min_physical(es: Seq<EntryView>) -> int
    decreases es.len(),
{
    if es.len() == 0 {
        255
    } else if es.last().physical_score < min_physical(es.drop_last()) {
        es.last().physical_score as int
    } else {
        min_physical(es.drop_last())
    }
}

/// The greatest physical score (0 for no entries).
pub open spec fn max_physical(es: Seq<EntryView>) -> int
    decreases es.len(),
{
    if es.len() == 0 {
        0
    } else if es.last().physical_score > max_physical(es.drop_last()) {
        es.last().physical_score as int
    } else {
        max_physical(es.drop_last())
    }
}

/// Inserts a tag into an ascending duplicate-free tag list.
pub open spec fn insert_sorted_unique(s: Seq<u16>, t: u16) -> Seq<u16>
    decreases s.len(),
{
    if s.len() == 0 {
        seq![t]
    } else if s.last() < t {
        s.push(t)
    } else if s.last() == t {
        s
    } else {
        insert_sorted_unique(s.drop_last(), t).push(s.last())
    }
}

/// Folds one entry's tags into the day's distinct tag list.
pub open spec fn insert_all_tags(s: Seq<u16>, tags: Seq<u16>) -> Seq<u16>
    decreases tags.len(),
{
    if tags.len() == 0 {
        s
    } else {
        insert_sorted_unique(insert_all_tags(s, tags.drop_last()), tags.last())
    }
}

/// The distinct tags of a day's entries, ascending.
pub open spec fn day_tags(es: Seq<EntryView>) -> Seq<u16>
    decreases es.len(),
{
    if es.len() == 0 {
        Seq::empty()
    } else {
        insert_all_tags(day_tags(es.drop_last()), es.last().tags)
    }
}

/// A day's derived statistics, for a non-empty day.
pub open spec fn day_overview(es: Seq<EntryView>) -> OverviewView {
    OverviewView {
        min_m_score: min_mental(es) as u8,
        max_m_score: max_mental(es) as u8,
        avg_m_micro: (sum_mental(es) * 1000000 / es.len() as int) as u64,
        min_p_score: min_physical(es) as u8,
        max_p_score: max_physical(es) as u8,
        avg_p_micro: (sum_physical(es) * 1000000 / es.len() as int) as u64,
        tags: day_tags(es),
    }
}

/// The fractional digits of a micro value, highest place first,
/// stopping when nothing remains (so trailing zeros are trimmed).
pub open spec fn frac_str(frac: nat, div: nat) -> Seq<char>
    decreases div,
{
    if div == 0 || frac == 0 {
        Seq::empty()
    } else {
        seq![crate::strnum::digit_char(((frac / div) % 10) as int)] + frac_str(frac % div, div
            / 10)
    }
}

/// The decimal rendering of a micro-unit average: the whole part,
/// then a point and the fractional digits when there are any.
pub open spec fn avg_str(micro: nat) -> Seq<char> {
    if micro % 1000000 == 0 {
        dec_str(micro / 1000000)
    } else {
        dec_str(micro / 1000000) + seq!['.'] + frac_str(micro % 1000000, 100000)
    }
}

fn push_frac(s: &mut String, frac: u64, div: u64)
    requires
        div <= 100000,
    ensures
        final(s)@ == old(s)@ + frac_str(frac as nat, div as nat),
    decreases div,
{
    if div == 0 || frac == 0 {
        proof {
            assert(s@ =~= old(s)@ + frac_str(frac as nat, div as nat));
        }
    } else {
        crate::strnum::push_dec_u64(s, (frac / div) % 10);
        proof {
            assert(dec_str((((frac / div) % 10) as u64) as nat) =~= seq![
                crate::strnum::digit_char(((frac / div) % 10) as int),
            ]);
        }
        push_frac(s, frac % div, div / 10);
        proof {
            assert(s@ =~= old(s)@ + frac_str(frac as nat, div as nat));
        }
    }
}

/// Appends the decimal rendering of a micro-unit average.
pub fn push_avg(s: &mut String, micro: u64)
    ensures
        final(s)@ == old(s)@ + avg_str(micro as nat),
{
    push_dec_u64(s, micro / 1000000);
    let frac = micro % 1000000;
    if frac != 0 {
        proof {
            reveal_strlit(".");
        }
        s.append(".");
        proof {
            assert("."@ =~= seq!['.']);
        }
        push_frac(s, frac, 100000);
        proof {
            assert(s@ =~= old(s)@ + avg_str(micro as nat));
        }
    } else {
        proof {
            assert(s@ =~= old(s)@ + avg_str(micro as nat));
        }
    }
}

/// The `" <tag>"` suffix of a month cache line, one term per tag.
pub open spec fn tags_suffix(tags: Seq<u16>) -> Seq<char>
    decreases tags.len(),
{
    if tags.len() == 0 {
        Seq::empty()
    } else {
        tags_suffix(tags.drop_last()) + seq![' '] + dec_str(tags.last() as nat)
    }
}

/// One day's part of a month cache line:
/// `"<min> <max> <avg> | <min> <max> <avg> | <tag> <tag> ..."`.
pub open spec fn overview_line(o: OverviewView) -> Seq<char> {
    dec_str(o.min_m_score as nat) + seq![' '] + dec_str(o.max_m_score as nat) + seq![' ']
        + avg_str(o.avg_m_micro as nat) + seq![' ', '|', ' '] + dec_str(o.min_p_score as nat)
        + seq![' '] + dec_str(o.max_p_score as nat) + seq![' '] + avg_str(o.avg_p_micro as nat)
        + seq![' ', '|'] + tags_suffix(o.tags)
}

impl Overview {
    /// Renders this overview as its month cache line part.
    pub fn to_data_str(&self) -> (r: String)
        ensures
            r@ == overview_line(self@),
    {
        proof {
            reveal_strlit(" ");
            reveal_strlit(" | ");
            reveal_strlit(" |");
        }
        let mut s = String::new();
        push_dec_u64(&mut s, self.min_m_score as u64);
        s.append(" ");
        push_dec_u64(&mut s, self.max_m_score as u64);
        s.append(" ");
        push_avg(&mut s, self.avg_m_micro);
        s.append(" | ");
        push_dec_u64(&mut s, self.min_p_score as u64);
        s.append(" ");
        push_dec_u64(&mut s, self.max_p_score as u64);
        s.append(" ");
        push_avg(&mut s, self.avg_p_micro);
        s.append(" |");
        let ghost head = s@;
        proof {
            assert(" "@ =~= seq![' ']);
            assert(" | "@ =~= seq![' ', '|', ' ']);
            assert(" |"@ =~= seq![' ', '|']);
            assert(head =~= overview_line(self@).take(
                overview_line(self@).len() - tags_suffix(self@.tags).len(),
            )) by {
                assert(head =~= dec_str(self.min_m_score as nat) + seq![' '] + dec_str(
                    self.max_m_score as nat,
                ) + seq![' '] + avg_str(self.avg_m_micro as nat) + seq![' ', '|', ' '] + dec_str(
                    self.min_p_score as nat,
                ) + seq![' '] + dec_str(self.max_p_score as nat) + seq![' '] + avg_str(
                    self.avg_p_micro as nat,
                ) + seq![' ', '|']);
            }
        }
        let mut j: usize = 0;
        while j < self.tags.len()
            invariant
                0 <= j <= self.tags@.len(),
                s@ == head + tags_suffix(self.tags@.take(j as int)),
            decreases self.tags@.len() - j,
        {
            proof {
                reveal_strlit(" ");
            }
            s.append(" ");
            push_dec_u64(&mut s, self.tags[j] as u64);
            proof {
                assert(" "@ =~= seq![' ']);
                assert(self.tags@.take(j as int + 1).drop_last() =~= self.tags@.take(j as int));
                assert(s@ =~= head + tags_suffix(self.tags@.take(j as int + 1)));
            }
            j = j + 1;
        }
        proof {
            assert(self.tags@.take(self.tags@.len() as int) =~= self.tags@);
            assert(s@ =~= overview_line(self@));
        }
        s
    }
}

impl ScoreAverages {
    /// Renders this pair as its year cache line part:
    /// `"<avg mental> | <avg physical>"`.
    pub fn to_data_str(&self) -> (r: String)
        ensures
            r@ == avg_str(self.avg_mental_micro as nat) + seq![' ', '|', ' '] + avg_str(
                self.avg_physical_micro as nat,
            ),
    {
        proof {
            reveal_strlit(" | ");
        }
        let mut s = String::new();
        push_avg(&mut s, self.avg_mental_micro);
        s.append(" | ");
        push_avg(&mut s, self.avg_physical_micro);
        proof {
            assert(" | "@ =~= seq![' ', '|', ' ']);
            assert(s@ =~= avg_str(self.avg_mental_micro as nat) + seq![' ', '|', ' '] + avg_str(
                self.avg_physical_micro as nat,
            ));
        }
        s
    }
}

fn insert_sorted_vec(s: Vec<u16>, t: u16) -> (r: Vec<u16>)
    ensures
        r@ == insert_sorted_unique(s@, t),
    decreases s@.len(),
{
    let mut s = s;
    if s.len() == 0 {
        let mut r: Vec<u16> = Vec::new();
        r.push(t);
        proof {
            assert(r@ =~= seq![t]);
        }
        r
    } else {
        let last = s[s.len() - 1];
        if last < t {
            s.push(t);
            s
        } else if last == t {
            s
        } else {
            let ghost sv = s@;
            s.pop();
            proof {
                assert(s@ =~= sv.drop_last());
            }
            let mut r = insert_sorted_vec(s, t);
            r.push(last);
            r
        }
    }
}

/// Computes a day's overview from its decoded entries.
pub fn compute_overview(entries: &Vec<DataEntry>) -> (r: Overview)
    requires
        entries.deep_view().len() > 0,
    ensures
        r@ == day_overview(entries.deep_view()),
        r.avg_m_micro <= 255000000,
        r.avg_p_micro <= 255000000,
{
    let ghost es = entries.deep_view();
    let n = entries.len();
    let mut min_m: u8 = 255;
    let mut max_m: u8 = 0;
    let mut min_p: u8 = 255;
    let mut max_p: u8 = 0;
    let mut m_sum: u128 = 0;
    let mut p_sum: u128 = 0;
    let mut tags: Vec<u16> = Vec::new();
    let mut i: usize = 0;
    while i < n
        invariant
            0 <= i <= n,
            n == entries@.len(),
            es == entries.deep_view(),
            es.len() == n,
            min_m == min_mental(es.take(i as int)),
            max_m == max_mental(es.take(i as int)),
            min_p == min_physical(es.take(i as int)),
            max_p == max_physical(es.take(i as int)),
            m_sum == sum_mental(es.take(i as int)),
            p_sum == sum_physical(es.take(i as int)),
            m_sum <= 255 * i,
            p_sum <= 255 * i,
            tags@ == day_tags(es.take(i as int)),
        decreases n - i,
    {
        let e = &entries[i];
        proof {
            assert(es.take(i as int + 1).drop_last() =~= es.take(i as int));
            assert(es.take(i as int + 1).last() == es[i as int]);
            assert(es[i as int] == e@);
        }
        if e.mental_score < min_m {
            min_m = e.mental_score;
        }
        if e.mental_score > max_m {
            max_m = e.mental_score;
        }
        if e.physical_score < min_p {
            min_p = e.physical_score;
        }
        if e.physical_score > max_p {
            max_p = e.physical_score;
        }
        m_sum = m_sum + e.mental_score as u128;
        p_sum = p_sum + e.physical_score as u128;
        let mut j: usize = 0;
        let ghost day0 = tags@;
        while j < e.tags.len()
            invariant
                0 <= j <= e.tags@.len(),
                tags@ == insert_all_tags(day0, e.tags@.take(j as int)),
            decreases e.tags@.len() - j,
        {
            proof {
                assert(e.tags@.take(j as int + 1).drop_last() =~= e.tags@.take(j as int));
                assert(e.tags@.take(j as int + 1).last() == e.tags@[j as int]);
            }
            tags = insert_sorted_vec(tags, e.tags[j]);
            j = j + 1;
        }
        proof {
            assert(e.tags@.take(e.tags@.len() as int) =~= e.tags@);
            assert(tags@ == insert_all_tags(day0, e.tags@));
        }
        i = i + 1;
    }
    proof {
        assert(es.take(n as int) =~= es);
    }
    let avg_m = avg_micro(m_sum, n);
    let avg_p = avg_micro(p_sum, n);
    Overview {
        min_m_score: min_m,
        max_m_score: max_m,
        avg_m_micro: avg_m,
        min_p_score: min_p,
        max_p_score: max_p,
        avg_p_micro: avg_p,
        tags,
    }
}

fn avg_micro(sum: u128, n: usize) -> (r: u64)
    requires
        n > 0,
        sum <= 255 * n,
    ensures
        r == sum * 1000000 / n as int,
        r <= 255000000,
{
    proof {
        assert(sum * 1000000 <= 255 * n * 1000000) by (nonlinear_arith)
            requires
                sum <= 255 * n,
        ;
        assert(255 * n * 1000000 / n as int == 255000000) by (nonlinear_arith)
            requires
                n > 0,
        ;
        assert(sum * 1000000 / n as int <= 255 * n * 1000000 / n as int) by (nonlinear_arith)
            requires
                n > 0,
                sum * 1000000 <= 255 * n * 1000000,
        ;
    }
    ((sum * 1000000) / (n as u128)) as u64
}

/// A relative path below the data directory.
pub open spec fn path_join(a: Seq<char>, b: Seq<char>) -> Seq<char> {
    a + seq!['/'] + b
}

fn join_path(a: &str, b: &str) -> (r: String)
    ensures
        r@ == path_join(a@, b@),
{
    proof {
        reveal_strlit("/");
    }
    let mut s = String::from_str(a);
    s.append("/");
    s.append(b);
    proof {
        assert("/"@ =~= seq!['/']);
        assert(s@ =~= path_join(a@, b@));
    }
    s
}

/// The index of the last occurrence of `c` in `s`, or -1 if absent.
pub open spec fn rfind_char(s: Seq<char>, c: char) -> int
    decreases s.len(),
{
    if s.len() == 0 {
        -1
    } else if s.last() == c {
        s.len() - 1
    } else {
        rfind_char(s.drop_last(), c)
    }
}

/// A file name's extension: what follows the last dot.
pub open spec fn extension_of(s: Seq<char>) -> Option<Seq<char>> {
    let r = rfind_char(s, '.');
    if r < 0 {
        None
    } else {
        Some(s.skip(r + 1))
    }
}

fn rfind_in_str(s: &str, c: char) -> (r: Option<usize>)
    ensures
        match r {
            Option::Some(i) => rfind_char(s@, c) == i && i < s@.len(),
            Option::None => rfind_char(s@, c) == -1,
        },
{
    let len = s.unicode_len();
    let mut i: usize = len;
    proof {
        assert(s@.take(len as int) =~= s@);
    }
    while i > 0
        invariant
            0 <= i <= len,
            len == s@.len(),
            rfind_char(s@, c) == rfind_char(s@.take(i as int), c),
        decreases i,
    {
        proof {
            assert(s@.take(i as int).drop_last() =~= s@.take(i as int - 1));
            assert(s@.take(i as int).last() == s@[i as int - 1]);
        }
        if s.get_char(i - 1) == c {
            return Some(i - 1);
        }
        i = i - 1;
    }
    None
}

fn has_statdiary_ext(name: &str) -> (r: bool)
    ensures
        r == (extension_of(name@) == Some("statdiary"@)),
{
    let len = name.unicode_len();
    match rfind_in_str(name, '.') {
        Option::None => false,
        Option::Some(p) => {
            let ext = name.substring_char(p + 1, len);
            proof {
                assert(ext@ =~= name@.skip(p as int + 1));
            }
            str_eq(ext, "statdiary")
        },
    }
}

/// The month folder's calendar number, when the name is a bare decimal
/// in `1..=12`.
pub open spec fn month_id_of(name: Seq<char>) -> Option<u16> {
    match crate::strnum::parse_u16_spec(name) {
        Option::None => None,
        Option::Some(v) => if 1 <= v <= 12 {
            Some(v)
        } else {
            None
        },
    }
}

/// One directory entry inside a month folder.
pub enum MonthItem {
    DayFile { name: String, bytes: Vec<u8> },
    Subdir { name: String },
}

/// The mathematical shape of a month folder entry.
pub enum MonthItemView {
    DayFile { name: Seq<char>, bytes: Seq<u8> },
    Subdir { name: Seq<char> },
}

impl View for MonthItem {
    type V = MonthItemView;

    open spec fn view(&self) -> MonthItemView {
        match self {
            MonthItem::DayFile { name, bytes } => MonthItemView::DayFile {
                name: name@,
                bytes: bytes@,
            },
            MonthItem::Subdir { name } => MonthItemView::Subdir { name: name@ },
        }
    }
}

impl DeepView for MonthItem {
    type V = MonthItemView;

    open spec fn deep_view(&self) -> MonthItemView {
        self.view()
    }
}

/// A month folder: its name and its entries in processing order.
pub struct MonthDir {
    pub name: String,
    pub items: Vec<MonthItem>,
}

/// The mathematical shape of a month folder.
pub struct MonthDirView {
    pub name: Seq<char>,
    pub items: Seq<MonthItemView>,
}

impl View for MonthDir {
    type V = MonthDirView;

    open spec fn view(&self) -> MonthDirView {
        MonthDirView { name: self.name@, items: self.items.deep_view() }
    }
}

impl DeepView for MonthDir {
    type V = MonthDirView;

    open spec fn deep_view(&self) -> MonthDirView {
        self.view()
    }
}

/// One directory entry inside a year folder.
pub enum YearItem {
    MonthFolder(MonthDir),
    PlainFile { name: String },
}

/// The mathematical shape of a year folder entry.
pub enum YearItemView {
    MonthFolder(MonthDirView),
    PlainFile { name: Seq<char> },
}

impl View for YearItem {
    type V = YearItemView;

    open spec fn view(&self) -> YearItemView {
        match self {
            YearItem::MonthFolder(m) => YearItemView::MonthFolder(m@),
            YearItem::PlainFile { name } => YearItemView::PlainFile { name: name@ },
        }
    }
}

impl DeepView for YearItem {
    type V = YearItemView;

    open spec fn deep_view(&self) -> YearItemView {
        self.view()
    }
}

/// A year folder: its name and its entries in processing order.
pub struct YearDir {
    pub name: String,
    pub items: Vec<YearItem>,
}

/// The mathematical shape of a year folder.
pub struct YearDirView {
    pub name: Seq<char>,
    pub items: Seq<YearItemView>,
}

impl View for YearDir {
    type V = YearDirView;

    open spec fn view(&self) -> YearDirView {
        YearDirView { name: self.name@, items: self.items.deep_view() }
    }
}

impl DeepView for YearDir {
    type V = YearDirView;

    open spec fn deep_view(&self) -> YearDirView {
        self.view()
    }
}

/// The rebuilt cache of one month folder: the lines of its
/// `month_cache.txt`.
#[derive(Debug)]
pub struct MonthCacheOut {
    pub name: String,
    pub lines: Vec<String>,
}

/// The mathematical shape of a month's rebuilt cache.
pub struct MonthOutView {
    pub name: Seq<char>,
    pub lines: Seq<Seq<char>>,
}

impl View for MonthCacheOut {
    type V = MonthOutView;

    open spec fn view(&self) -> MonthOutView {
        MonthOutView { name: self.name@, lines: self.lines.deep_view() }
    }
}

impl DeepView for MonthCacheOut {
    type V = MonthOutView;

    open spec fn deep_view(&self) -> MonthOutView {
        self.view()
    }
}

/// The rebuilt caches of one year folder: the lines of its
/// `year_cache.txt` and the cache of each month folder.
#[derive(Debug)]
pub struct YearCacheOut {
    pub name: String,
    pub year_lines: Vec<String>,
    pub months: Vec<MonthCacheOut>,
}

/// The mathematical shape of a year's rebuilt caches.
pub struct YearOutView {
    pub name: Seq<char>,
    pub year_lines: Seq<Seq<char>>,
    pub months: Seq<MonthOutView>,
}

impl View for YearCacheOut {
    type V = YearOutView;

    open spec fn view(&self) -> YearOutView {
        YearOutView {
            name: self.name@,
            year_lines: self.year_lines.deep_view(),
            months: self.months.deep_view(),
        }
    }
}

impl DeepView for YearCacheOut {
    type V = YearOutView;

    open spec fn deep_view(&self) -> YearOutView {
        self.view()
    }
}

/// What aggregating a month folder's entries yields: the cache lines
/// and each day's micro-unit averages, in order.
pub struct MonthAggView {
    pub lines: Seq<Seq<char>>,
    pub avgs_m: Seq<u64>,
    pub avgs_p: Seq<u64>,
}

/// The sum of a sequence of micro values.
pub open spec fn sum_u64(s: Seq<u64>) -> int
    decreases s.len(),
{
    if s.len() == 0 {
        0
    } else {
        sum_u64(s.drop_last()) + s.last()
    }
}

/// One month cache line: `"<filename> | <overview>"`.
pub open spec fn month_line(name: Seq<char>, o: OverviewView) -> Seq<char> {
    name + seq![' ', '|', ' '] + overview_line(o)
}

/// One year cache line: `"<month id> | <avg mental> | <avg physical>"`.
pub open spec fn year_line(id: u16, sa: ScoreAverages) -> Seq<char> {
    dec_str(id as nat) + seq![' ', '|', ' '] + avg_str(sa.avg_mental_micro as nat) + seq![
        ' ',
        '|',
        ' ',
    ] + avg_str(sa.avg_physical_micro as nat)
}

/// What processing a month folder's entries from position `i` on
/// yields: its own cache file is skipped, a subfolder or a file
/// without the day-file extension is a structural anomaly, and each
/// day file must decode to at least one entry.
pub open spec fn spec_month_items(items: Seq<MonthItemView>, mpath: Seq<char>) -> Result<
    MonthAggView,
    RegenErrView,
>
    decreases items.len(),
{
    if items.len() == 0 {
        Ok(MonthAggView { lines: Seq::empty(), avgs_m: Seq::empty(), avgs_p: Seq::empty() })
    } else {
        match items[0] {
            MonthItemView::Subdir { name } => Err(
                RegenErrView::FoundUnknownFolder(path_join(mpath, name)),
            ),
            MonthItemView::DayFile { name, bytes } => {
                if name == "month_cache.txt"@ {
                    spec_month_items(items.skip(1), mpath)
                } else if extension_of(name) != Some("statdiary"@) {
                    Err(RegenErrView::FoundUnknownFile(path_join(mpath, name)))
                } else {
                    match decode_entries_at(bytes, 0) {
                        Option::None => Err(RegenErrView::FormatError(path_join(mpath, name))),
                        Option::Some(es) => {
                            if es.len() == 0 {
                                Err(RegenErrView::EmptyDayFile(path_join(mpath, name)))
                            } else {
                                let o = day_overview(es);
                                match spec_month_items(items.skip(1), mpath) {
                                    Result::Err(e) => Err(e),
                                    Result::Ok(rest) => Ok(
                                        MonthAggView {
                                            lines: seq![month_line(name, o)] + rest.lines,
                                            avgs_m: seq![o.avg_m_micro] + rest.avgs_m,
                                            avgs_p: seq![o.avg_p_micro] + rest.avgs_p,
                                        },
                                    ),
                                }
                            }
                        },
                    }
                }
            },
        }
    }
}

/// What rebuilding one month folder yields: its cache and, when it
/// held any day file, the month's unweighted mean of the day averages.
pub open spec fn spec_month(m: MonthDirView, ypath: Seq<char>) -> Result<
    (MonthOutView, Option<ScoreAverages>),
    RegenErrView,
> {
    match spec_month_items(m.items, path_join(ypath, m.name)) {
        Result::Err(e) => Err(e),
        Result::Ok(agg) => {
            let out = MonthOutView { name: m.name, lines: agg.lines };
            if agg.avgs_m.len() == 0 {
                Ok((out, None))
            } else {
                Ok(
                    (
                        out,
                        Some(
                            ScoreAverages {
                                avg_mental_micro: (sum_u64(agg.avgs_m) / agg.avgs_m.len() as int)
                                    as u64,
                                avg_physical_micro: (sum_u64(agg.avgs_p) / agg.avgs_p.len() as int)
                                    as u64,
                            },
                        ),
                    ),
                )
            }
        },
    }
}

/// What aggregating a year folder's entries yields.
pub struct YearAggView {
    pub year_lines: Seq<Seq<char>>,
    pub months: Seq<MonthOutView>,
}

/// What processing a year folder's entries from position `i` on
/// yields: its own cache file is skipped, any other plain file is a
/// structural anomaly, and a month folder's name must be a calendar
/// month number.
pub open spec fn spec_year_items(items: Seq<YearItemView>, yname: Seq<char>) -> Result<
    YearAggView,
    RegenErrView,
>
    decreases items.len(),
{
    if items.len() == 0 {
        Ok(YearAggView { year_lines: Seq::empty(), months: Seq::empty() })
    } else {
        match items[0] {
            YearItemView::PlainFile { name } => {
                if name == "year_cache.txt"@ {
                    spec_year_items(items.skip(1), yname)
                } else {
                    Err(RegenErrView::FoundUnknownFile(path_join(yname, name)))
                }
            },
            YearItemView::MonthFolder(m) => {
                match month_id_of(m.name) {
                    Option::None => Err(RegenErrView::FoundUnknownFolder(path_join(yname, m.name))),
                    Option::Some(id) => {
                        match spec_month(m, yname) {
                            Result::Err(e) => Err(e),
                            Result::Ok(pair) => {
                                match spec_year_items(items.skip(1), yname) {
                                    Result::Err(e) => Err(e),
                                    Result::Ok(rest) => Ok(
                                        YearAggView {
                                            year_lines: (match pair.1 {
                                                Option::None => rest.year_lines,
                                                Option::Some(sa) => seq![year_line(id, sa)]
                                                    + rest.year_lines,
                                            }),
                                            months: seq![pair.0] + rest.months,
                                        },
                                    ),
                                }
                            },
                        }
                    },
                }
            },
        }
    }
}

/// What a full rebuild yields: for each year folder its caches, in
/// order, or the first structural anomaly, format error or empty day
/// file found.
pub open spec fn spec_rebuild(years: Seq<YearDirView>) -> Result<Seq<YearOutView>, RegenErrView>
    decreases years.len(),
{
    if years.len() == 0 {
        Ok(Seq::empty())
    } else {
        match spec_year_items(years[0].items, years[0].name) {
            Result::Err(e) => Err(e),
            Result::Ok(agg) => {
                match spec_rebuild(years.skip(1)) {
                    Result::Err(e) => Err(e),
                    Result::Ok(rest) => Ok(
                        seq![
                            YearOutView {
                                name: years[0].name,
                                year_lines: agg.year_lines,
                                months: agg.months,
                            },
                        ] + rest,
                    ),
                }
            },
        }
    }
}

fn month_items_exec(items: &Vec<MonthItem>, i: usize, mpath: &str) -> (r: Result<
    (Vec<String>, Vec<u64>, Vec<u64>),
    RegenCachesError,
>)
    requires
        i <= items@.len(),
    ensures
        ({
            let sp = spec_month_items(items.deep_view().skip(i as int), mpath@);
            match r {
                Result::Ok(t) => sp == Ok::<MonthAggView, RegenErrView>(
                    MonthAggView { lines: t.0.deep_view(), avgs_m: t.1@, avgs_p: t.2@ },
                ) && t.1@.len() == t.2@.len() && (forall|k: int|
                    0 <= k < t.1@.len() ==> #[trigger] t.1@[k] <= 255000000) && (forall|k: int|
                    0 <= k < t.2@.len() ==> #[trigger] t.2@[k] <= 255000000),
                Result::Err(e) => sp == Err::<MonthAggView, RegenErrView>(e@),
            }
        }),
    decreases items@.len() - i,
{
    if i == items.len() {
        let lines: Vec<String> = Vec::new();
        let am: Vec<u64> = Vec::new();
        let ap: Vec<u64> = Vec::new();
        proof {
            assert(items.deep_view().skip(i as int) =~= Seq::<MonthItemView>::empty());
            assert(lines.deep_view() =~= Seq::<Seq<char>>::empty());
            assert(am@ =~= Seq::<u64>::empty());
            assert(ap@ =~= Seq::<u64>::empty());
        }
        Ok((lines, am, ap))
    } else {
        proof {
            assert(items.deep_view().skip(i as int)[0] == items.deep_view()[i as int]);
            assert(items.deep_view().skip(i as int).skip(1) =~= items.deep_view().skip(
                i as int + 1,
            ));
        }
        match &items[i] {
            MonthItem::Subdir { name } => {
                Err(RegenCachesError::FoundUnknownFolder(join_path(mpath, name.as_str())))
            },
            MonthItem::DayFile { name, bytes } => {
                if str_eq(name.as_str(), "month_cache.txt") {
                    month_items_exec(items, i + 1, mpath)
                } else if !has_statdiary_ext(name.as_str()) {
                    Err(RegenCachesError::FoundUnknownFile(join_path(mpath, name.as_str())))
                } else {
                    match decode(bytes) {
                        Result::Err(_) => {
                            Err(RegenCachesError::FormatError(join_path(mpath, name.as_str())))
                        },
                        Result::Ok(es) => {
                            proof {
                                assert(es.deep_view().len() == es@.len());
                            }
                            if es.len() == 0 {
                                Err(RegenCachesError::EmptyDayFile(join_path(mpath, name.as_str())))
                            } else {
                                let o = compute_overview(&es);
                                let ov_str = o.to_data_str();
                                let mut line = String::from_str(name.as_str());
                                line.append(" | ");
                                line.append(ov_str.as_str());
                                let rest = month_items_exec(items, i + 1, mpath);
                                match rest {
                                    Result::Err(e) => Err(e),
                                    Result::Ok(t) => {
                                        let (mut lines, mut am, mut ap) = t;
                                        let ghost lines0 = lines.deep_view();
                                        let ghost am0 = am@;
                                        let ghost ap0 = ap@;
                                        let ghost lv = line@;
                                        lines.insert(0, line);
                                        am.insert(0, o.avg_m_micro);
                                        ap.insert(0, o.avg_p_micro);
                                        proof {
                                            reveal_strlit(" | ");
                                            assert(" | "@ =~= seq![' ', '|', ' ']);
                                            assert(lv =~= month_line(
                                                name@,
                                                day_overview(es.deep_view()),
                                            ));
                                            assert(lines.deep_view() =~= seq![lv] + lines0);
                                            assert(am@ =~= seq![o.avg_m_micro] + am0);
                                            assert(ap@ =~= seq![o.avg_p_micro] + ap0);
                                        }
                                        Ok((lines, am, ap))
                                    },
                                }
                            }
                        },
                    }
                }
            },
        }
    }
}

fn sum_avgs(avgs: &Vec<u64>) -> (r: u128)
    requires
        forall|k: int| 0 <= k < avgs@.len() ==> #[trigger] avgs@[k] <= 255000000,
    ensures
        r == sum_u64(avgs@),
        r <= 255000000 * avgs@.len(),
{
    let mut sum: u128 = 0;
    let mut i: usize = 0;
    while i < avgs.len()
        invariant
            0 <= i <= avgs@.len(),
            sum == sum_u64(avgs@.take(i as int)),
            sum <= 255000000 * i,
            forall|k: int| 0 <= k < avgs@.len() ==> #[trigger] avgs@[k] <= 255000000,
        decreases avgs@.len() - i,
    {
        proof {
            assert(avgs@.take(i as int + 1).drop_last() =~= avgs@.take(i as int));
            assert(avgs@.take(i as int + 1).last() == avgs@[i as int]);
        }
        sum = sum + avgs[i] as u128;
        i = i + 1;
    }
    proof {
        assert(avgs@.take(avgs@.len() as int) =~= avgs@);
    }
    sum
}

fn month_mean(sum: u128, n: usize) -> (r: u64)
    requires
        n > 0,
        sum <= 255000000 * n,
    ensures
        r == sum as int / n as int,
        r <= 255000000,
{
    proof {
        assert(255000000 * n / n as int == 255000000) by (nonlinear_arith)
            requires
                n > 0,
        ;
        assert(sum as int / n as int <= 255000000 * n / n as int) by (nonlinear_arith)
            requires
                n > 0,
                sum <= 255000000 * n,
        ;
    }
    (sum / (n as u128)) as u64
}

fn month_exec(m: &MonthDir, ypath: &str) -> (r: Result<
    (MonthCacheOut, Option<ScoreAverages>),
    RegenCachesError,
>)
    ensures
        match r {
            Result::Ok(t) => spec_month(m@, ypath@) == Ok::<(MonthOutView, Option<ScoreAverages>), RegenErrView>((t.0@, t.1)),
            Result::Err(e) => spec_month(m@, ypath@) == Err::<(MonthOutView, Option<ScoreAverages>), RegenErrView>(e@),
        },
{
    let mpath = join_path(ypath, m.name.as_str());
    proof {
        assert(m.items.deep_view().skip(0) =~= m.items.deep_view());
    }
    match month_items_exec(&m.items, 0, mpath.as_str()) {
        Result::Err(e) => Err(e),
        Result::Ok(t) => {
            let (lines, am, ap) = t;
            let out = MonthCacheOut { name: m.name.clone(), lines };
            if am.len() == 0 {
                Ok((out, None))
            } else {
                let sm = sum_avgs(&am);
                let sp2 = sum_avgs(&ap);
                let avg_m = month_mean(sm, am.len());
                let avg_p = month_mean(sp2, ap.len());
                Ok(
                    (
                        out,
                        Some(
                            ScoreAverages { avg_mental_micro: avg_m, avg_physical_micro: avg_p },
                        ),
                    ),
                )
            }
        },
    }
}

fn year_items_exec(items: &Vec<YearItem>, i: usize, yname: &str) -> (r: Result<
    (Vec<String>, Vec<MonthCacheOut>),
    RegenCachesError,
>)
    requires
        i <= items@.len(),
    ensures
        ({
            let sp = spec_year_items(items.deep_view().skip(i as int), yname@);
            match r {
                Result::Ok(t) => sp == Ok::<YearAggView, RegenErrView>(
                    YearAggView { year_lines: t.0.deep_view(), months: t.1.deep_view() },
                ),
                Result::Err(e) => sp == Err::<YearAggView, RegenErrView>(e@),
            }
        }),
    decreases items@.len() - i,
{
    if i == items.len() {
        let lines: Vec<String> = Vec::new();
        let months: Vec<MonthCacheOut> = Vec::new();
        proof {
            assert(items.deep_view().skip(i as int) =~= Seq::<YearItemView>::empty());
            assert(lines.deep_view() =~= Seq::<Seq<char>>::empty());
            assert(months.deep_view() =~= Seq::<MonthOutView>::empty());
        }
        Ok((lines, months))
    } else {
        proof {
            assert(items.deep_view().skip(i as int)[0] == items.deep_view()[i as int]);
            assert(items.deep_view().skip(i as int).skip(1) =~= items.deep_view().skip(
                i as int + 1,
            ));
        }
        match &items[i] {
            YearItem::PlainFile { name } => {
                if str_eq(name.as_str(), "year_cache.txt") {
                    year_items_exec(items, i + 1, yname)
                } else {
                    Err(RegenCachesError::FoundUnknownFile(join_path(yname, name.as_str())))
                }
            },
            YearItem::MonthFolder(m) => {
                let pid = crate::strnum::parse_u16(m.name.as_str());
                let id: u16 = match pid {
                    Option::Some(v) => {
                        if 1 <= v && v <= 12 {
                            v
                        } else {
                            return Err(
                                RegenCachesError::FoundUnknownFolder(
                                    join_path(yname, m.name.as_str()),
                                ),
                            );
                        }
                    },
                    Option::None => {
                        return Err(
                            RegenCachesError::FoundUnknownFolder(join_path(yname, m.name.as_str())),
                        );
                    },
                };
                match month_exec(m, yname) {
                    Result::Err(e) => Err(e),
                    Result::Ok(pair) => {
                        let (out, avg) = pair;
                        match year_items_exec(items, i + 1, yname) {
                            Result::Err(e) => Err(e),
                            Result::Ok(t) => {
                                let (mut lines, mut months) = t;
                                let ghost lines0 = lines.deep_view();
                                let ghost months0 = months.deep_view();
                                match avg {
                                    Option::Some(sa) => {
                                        let mut l = dec_u64_string(id as u64);
                                        l.append(" | ");
                                        l.append(sa.to_data_str().as_str());
                                        let ghost lv = l@;
                                        lines.insert(0, l);
                                        proof {
                                            reveal_strlit(" | ");
                                            assert(" | "@ =~= seq![' ', '|', ' ']);
                                            assert(lv =~= year_line(id, sa));
                                            assert(lines.deep_view() =~= seq![lv] + lines0);
                                        }
                                    },
                                    Option::None => {},
                                }
                                let ghost ov = out@;
                                months.insert(0, out);
                                proof {
                                    assert(months.deep_view() =~= seq![ov] + months0);
                                }
                                Ok((lines, months))
                            },
                        }
                    },
                }
            },
        }
    }
}

fn years_exec(data: &Vec<YearDir>, i: usize) -> (r: Result<Vec<YearCacheOut>, RegenCachesError>)
    requires
        i <= data@.len(),
    ensures
        ({
            let sp = spec_rebuild(data.deep_view().skip(i as int));
            match r {
                Result::Ok(v) => sp == Ok::<Seq<YearOutView>, RegenErrView>(v.deep_view()),
                Result::Err(e) => sp == Err::<Seq<YearOutView>, RegenErrView>(e@),
            }
        }),
    decreases data@.len() - i,
{
    if i == data.len() {
        let v: Vec<YearCacheOut> = Vec::new();
        proof {
            assert(data.deep_view().skip(i as int) =~= Seq::<YearDirView>::empty());
            assert(v.deep_view() =~= Seq::<YearOutView>::empty());
        }
        Ok(v)
    } else {
        proof {
            assert(data.deep_view().skip(i as int)[0] == data.deep_view()[i as int]);
            assert(data.deep_view().skip(i as int).skip(1) =~= data.deep_view().skip(i as int + 1));
        }
        let y = &data[i];
        proof {
            assert(y.items.deep_view().skip(0) =~= y.items.deep_view());
        }
        match year_items_exec(&y.items, 0, y.name.as_str()) {
            Result::Err(e) => Err(e),
            Result::Ok(t) => {
                let (year_lines, months) = t;
                let out = YearCacheOut { name: y.name.clone(), year_lines, months };
                match years_exec(data, i + 1) {
                    Result::Err(e) => Err(e),
                    Result::Ok(mut v) => {
                        let ghost v0 = v.deep_view();
                        let ghost ov = out@;
                        v.insert(0, out);
                        proof {
                            assert(v.deep_view() =~= seq![ov] + v0);
                        }
                        Ok(v)
                    },
                }
            },
        }
    }
}

/// Recomputes every derived statistic from the raw day files,
/// bottom-up, and returns the new month and year cache files, or the
/// first structural anomaly, format error or empty day file found.
/// Nothing is produced on failure, so caches already on disk stay
/// untouched.
pub fn regenerate_caches(data: &Vec<YearDir>) -> (r: Result<Vec<YearCacheOut>, RegenCachesError>)
    ensures
        match r {
            Result::Ok(v) => spec_rebuild(data.deep_view()) == Ok::<Seq<YearOutView>, RegenErrView>(v.deep_view()),
            Result::Err(e) => spec_rebuild(data.deep_view()) == Err::<Seq<YearOutView>, RegenErrView>(e@),
        },
{
    proof {
        assert(data.deep_view().skip(0) =~= data.deep_view());
    }
    years_exec(data, 0)
}

} // verus!

