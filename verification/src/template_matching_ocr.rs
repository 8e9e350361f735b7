//! The digit template matcher: collecting candidate matches from
//! per-position correlation scores, suppressing overlapping candidates, and
//! assembling the surviving symbols left to right into a short string.
//!
//! Scores are similarity values scaled to `0..=CONFIDENCE_SCALE` per thousand,
//! so a score of `700` stands for a similarity of `0.7`.

use vstd::prelude::*;
use crate::image_ops::GrayFrame;
use crate::str8::{Str8, STR8_CAPACITY};

verus! {

/// Scores and confidences are given per thousand: `1000` is a perfect match.
pub const CONFIDENCE_SCALE: u32 = 1000;

/// Minimum horizontal distance, in pixels, between two accepted matches.
pub const MIN_MATCH_SEPARATION: i32 = 10;

/// Default score a candidate location must reach to become a match.
pub const DEFAULT_MATCH_THRESHOLD: u32 = 700;

/// Default mean confidence a region result must reach to be accepted.
pub const DEFAULT_MIN_CONFIDENCE: u32 = 750;

/// One candidate symbol found during template matching: the matched symbol
/// byte, its x-coordinate in the search image, and its score.
#[derive(Debug, Clone, Copy, PartialEq, Eq, Structural)]
pub struct DigitMatch {
    /// The matched symbol, as an ASCII byte.
    pub digit: u8,
    /// Horizontal position of the match in the search image.
    pub x: i32,
    /// Match score, scaled to `0..=CONFIDENCE_SCALE`.
    pub confidence: u32,
}

/// Thresholds of the template matcher, scaled to `0..=CONFIDENCE_SCALE`.
#[derive(Debug, Clone, Copy)]
pub struct TemplateMatchingConfig {
    /// Score a candidate location must reach to become a match.
    pub match_threshold: u32,
    /// Mean confidence a region result must reach to be accepted.
    pub min_confidence: u32,
}

impl Default for TemplateMatchingConfig {
    /// The default thresholds: `0.7` to match, `0.75` to accept.
    fn default() -> (r: Self)
        ensures
            r.match_threshold == DEFAULT_MATCH_THRESHOLD,
            r.min_confidence == DEFAULT_MIN_CONFIDENCE,
    {
        TemplateMatchingConfig {
            match_threshold: DEFAULT_MATCH_THRESHOLD,
            min_confidence: DEFAULT_MIN_CONFIDENCE,
        }
    }
}

/// Distance between two positions.
pub open spec fn spec_abs_diff(a: int, b: int) -> int {
    if a >= b {
        a - b
    } else {
        b - a
    }
}

/// `m` keeps the minimum separation from every match in `s`.
pub open spec fn spec_separated_from(m: DigitMatch, s: Seq<DigitMatch>, sep: int) -> bool {
    forall|i: int|
        0 <= i < s.len() ==> spec_abs_diff(m.x as int, (#[trigger] s[i]).x as int) >= sep
}

/// Every pair of matches in `s` keeps the minimum separation.
pub open spec fn spec_pairwise_separated(s: Seq<DigitMatch>, sep: int) -> bool {
    forall|i: int, j: int|
        0 <= i < j < s.len() ==> spec_abs_diff(
            (#[trigger] s[i]).x as int,
            (#[trigger] s[j]).x as int,
        ) >= sep
}

/// `s` is ordered by x-position, left to right.
pub open spec fn spec_sorted_by_x(s: Seq<DigitMatch>) -> bool {
    forall|i: int, j: int| 0 <= i < j < s.len() ==> (#[trigger] s[i]).x <= (#[trigger] s[j]).x
}

/// Stable insertion of `m` into `s` by descending confidence: `m` goes after
/// every match at least as confident.
pub open spec fn spec_insert_by_conf(m: DigitMatch, s: Seq<DigitMatch>) -> Seq<DigitMatch>
    decreases s.len(),
{
    if s.len() == 0 {
        seq![m]
    } else if s[0].confidence >= m.confidence {
        seq![s[0]] + spec_insert_by_conf(m, s.drop_first())
    } else {
        seq![m] + s
    }
}

/// Stable sort of `s` by descending confidence: matches of equal confidence
/// keep their relative order.
pub open spec fn spec_sort_by_conf(s: Seq<DigitMatch>) -> Seq<DigitMatch>
    decreases s.len(),
{
    if s.len() == 0 {
        Seq::<DigitMatch>::empty()
    } else {
        spec_insert_by_conf(s.last(), spec_sort_by_conf(s.drop_last()))
    }
}

/// Stable insertion of `m` into `s` by ascending x-position: `m` goes after
/// every match at an x-position not to its right.
pub open spec fn spec_insert_by_x(m: DigitMatch, s: Seq<DigitMatch>) -> Seq<DigitMatch>
    decreases s.len(),
{
    if s.len() == 0 {
        seq![m]
    } else if s[0].x <= m.x {
        seq![s[0]] + spec_insert_by_x(m, s.drop_first())
    } else {
        seq![m] + s
    }
}

/// Stable sort of `s` by ascending x-position.
pub open spec fn spec_sort_by_x(s: Seq<DigitMatch>) -> Seq<DigitMatch>
    decreases s.len(),
{
    if s.len() == 0 {
        Seq::<DigitMatch>::empty()
    } else {
        spec_insert_by_x(s.last(), spec_sort_by_x(s.drop_last()))
    }
}

/// One-dimensional non-max suppression over candidates already ordered best
/// first: each candidate is accepted iff it keeps the minimum separation from
/// every already-accepted one.
pub open spec fn spec_nms_rec(s: Seq<DigitMatch>, acc: Seq<DigitMatch>, sep: int) -> Seq<
    DigitMatch,
>
    decreases s.len(),
{
    if s.len() == 0 {
        acc
    } else if spec_separated_from(s[0], acc, sep) {
        spec_nms_rec(s.drop_first(), acc.push(s[0]), sep)
    } else {
        spec_nms_rec(s.drop_first(), acc, sep)
    }
}

/// Non-max suppression starting from an empty accepted set.
pub open spec fn spec_nms(s: Seq<DigitMatch>, sep: int) -> Seq<DigitMatch> {
    spec_nms_rec(s, Seq::<DigitMatch>::empty(), sep)
}

/// The overlap filter as a whole: order candidates best first, keep each that
/// is separated from all previously kept ones, and put the survivors back in
/// reading order.
pub open spec fn spec_filter_overlapping(s: Seq<DigitMatch>) -> Seq<DigitMatch> {
    spec_sort_by_x(spec_nms(spec_sort_by_conf(s), MIN_MATCH_SEPARATION as int))
}

proof fn lemma_insert_by_conf_split(m: DigitMatch, s: Seq<DigitMatch>, j: int)
    requires
        0 <= j <= s.len(),
        forall|k: int| 0 <= k < j ==> (#[trigger] s[k]).confidence >= m.confidence,
        j < s.len() ==> s[j].confidence < m.confidence,
    ensures
        spec_insert_by_conf(m, s) == s.insert(j, m),
    decreases s.len(),
{
    if j == 0 {
        if s.len() == 0 {
            assert(spec_insert_by_conf(m, s) =~= s.insert(0, m));
        } else {
            assert(spec_insert_by_conf(m, s) =~= s.insert(0, m));
        }
    } else {
        lemma_insert_by_conf_split(m, s.drop_first(), j - 1);
        assert(seq![s[0]] + spec_insert_by_conf(m, s.drop_first()) =~= s.insert(j, m));
    }
}

proof fn lemma_insert_by_x_split(m: DigitMatch, s: Seq<DigitMatch>, j: int)
    requires
        0 <= j <= s.len(),
        forall|k: int| 0 <= k < j ==> (#[trigger] s[k]).x <= m.x,
        j < s.len() ==> s[j].x > m.x,
    ensures
        spec_insert_by_x(m, s) == s.insert(j, m),
    decreases s.len(),
{
    if j == 0 {
        if s.len() == 0 {
            assert(spec_insert_by_x(m, s) =~= s.insert(0, m));
        } else {
            assert(spec_insert_by_x(m, s) =~= s.insert(0, m));
        }
    } else {
        lemma_insert_by_x_split(m, s.drop_first(), j - 1);
        assert(seq![s[0]] + spec_insert_by_x(m, s.drop_first()) =~= s.insert(j, m));
    }
}

fn insert_match_by_conf(v: &mut Vec<DigitMatch>, m: DigitMatch)
    ensures
        final(v)@ == spec_insert_by_conf(m, old(v)@),
{
    let mut j: usize = 0;
    while j < v.len() && v[j].confidence >= m.confidence
        invariant
            0 <= j <= v@.len(),
            v@ == old(v)@,
            forall|k: int| 0 <= k < j ==> (#[trigger] v@[k]).confidence >= m.confidence,
        decreases v@.len() - j,
    {
        j = j + 1;
    }
    proof {
        lemma_insert_by_conf_split(m, v@, j as int);
    }
    v.insert(j, m);
}

fn insert_match_by_x(v: &mut Vec<DigitMatch>, m: DigitMatch)
    ensures
        final(v)@ == spec_insert_by_x(m, old(v)@),
{
    let mut j: usize = 0;
    while j < v.len() && v[j].x <= m.x
        invariant
            0 <= j <= v@.len(),
            v@ == old(v)@,
            forall|k: int| 0 <= k < j ==> (#[trigger] v@[k]).x <= m.x,
        decreases v@.len() - j,
    {
        j = j + 1;
    }
    proof {
        lemma_insert_by_x_split(m, v@, j as int);
    }
    v.insert(j, m);
}

/// Orders `v` by descending confidence, stably.
fn sort_matches_by_conf(v: &Vec<DigitMatch>) -> (r: Vec<DigitMatch>)
    ensures
        r@ == spec_sort_by_conf(v@),
{
    let mut r: Vec<DigitMatch> = Vec::new();
    let mut i: usize = 0;
    while i < v.len()
        invariant
            0 <= i <= v@.len(),
            r@ == spec_sort_by_conf(v@.take(i as int)),
        decreases v@.len() - i,
    {
        insert_match_by_conf(&mut r, v[i]);
        proof {
            assert(v@.take(i as int + 1).drop_last() =~= v@.take(i as int));
            assert(v@.take(i as int + 1).last() == v@[i as int]);
        }
        i = i + 1;
    }
    proof {
        assert(v@.take(v@.len() as int) =~= v@);
    }
    r
}

/// Orders `v` by ascending x-position, stably.
fn sort_matches_by_x(v: &Vec<DigitMatch>) -> (r: Vec<DigitMatch>)
    ensures
        r@ == spec_sort_by_x(v@),
{
    let mut r: Vec<DigitMatch> = Vec::new();
    let mut i: usize = 0;
    while i < v.len()
        invariant
            0 <= i <= v@.len(),
            r@ == spec_sort_by_x(v@.take(i as int)),
        decreases v@.len() - i,
    {
        insert_match_by_x(&mut r, v[i]);
        proof {
            assert(v@.take(i as int + 1).drop_last() =~= v@.take(i as int));
            assert(v@.take(i as int + 1).last() == v@[i as int]);
        }
        i = i + 1;
    }
    proof {
        assert(v@.take(v@.len() as int) =~= v@);
    }
    r
}

/// Whether `m` keeps the minimum separation from everything in `acc`.
fn separated_from_all(m: &DigitMatch, acc: &Vec<DigitMatch>, sep: i32) -> (r: bool)
    ensures
        r == spec_separated_from(*m, acc@, sep as int),
{
    let mut i: usize = 0;
    while i < acc.len()
        invariant
            0 <= i <= acc@.len(),
            forall|k: int|
                0 <= k < i ==> spec_abs_diff(m.x as int, (#[trigger] acc@[k]).x as int)
                    >= sep as int,
        decreases acc@.len() - i,
    {
        let a = m.x as i64;
        let b = acc[i].x as i64;
        let d = if a >= b {
            a - b
        } else {
            b - a
        };
        if d < sep as i64 {
            return false;
        }
        i = i + 1;
    }
    true
}

fn nms_filter(sorted: &Vec<DigitMatch>, sep: i32) -> (r: Vec<DigitMatch>)
    ensures
        r@ == spec_nms(sorted@, sep as int),
{
    let mut acc: Vec<DigitMatch> = Vec::new();
    proof {
        assert(sorted@.skip(0) =~= sorted@);
    }
    let mut i: usize = 0;
    while i < sorted.len()
        invariant
            0 <= i <= sorted@.len(),
            spec_nms_rec(sorted@.skip(i as int), acc@, sep as int) == spec_nms(
                sorted@,
                sep as int,
            ),
        decreases sorted@.len() - i,
    {
        let m = sorted[i];
        proof {
            assert(sorted@.skip(i as int)[0] == sorted@[i as int]);
            assert(sorted@.skip(i as int).drop_first() =~= sorted@.skip(i as int + 1));
        }
        if separated_from_all(&m, &acc, sep) {
            acc.push(m);
        }
        i = i + 1;
    }
    proof {
        assert(sorted@.skip(sorted@.len() as int) =~= Seq::<DigitMatch>::empty());
    }
    acc
}

/// Drops overlapping candidates, keeping the most confident of each cluster:
/// candidates are visited best first and kept iff at least
/// [`MIN_MATCH_SEPARATION`] pixels from every already-kept candidate, then
/// the kept ones are put back in reading order.
pub fn filter_overlapping_matches(matches: &Vec<DigitMatch>) -> (r: Vec<DigitMatch>)
    ensures
        r@ == spec_filter_overlapping(matches@),
{
    let sorted = sort_matches_by_conf(matches);
    let kept = nms_filter(&sorted, MIN_MATCH_SEPARATION);
    sort_matches_by_x(&kept)
}

/// Upper bound on candidate-list lengths, so that a sum of confidences
/// always fits in 64 bits.
pub const MAX_MATCH_COUNT: u32 = 0xFFFF_FFFF;

/// Every confidence in `s` is at most `c`.
pub open spec fn spec_all_conf_le(s: Seq<DigitMatch>, c: u32) -> bool {
    forall|i: int| 0 <= i < s.len() ==> (#[trigger] s[i]).confidence <= c
}

proof fn lemma_insert_conf_conf_le(m: DigitMatch, s: Seq<DigitMatch>, c: u32)
    requires
        m.confidence <= c,
        spec_all_conf_le(s, c),
    ensures
        spec_all_conf_le(spec_insert_by_conf(m, s), c),
        spec_insert_by_conf(m, s).len() == s.len() + 1,
    decreases s.len(),
{
    if s.len() != 0 && s[0].confidence >= m.confidence {
        lemma_insert_conf_conf_le(m, s.drop_first(), c);
    }
}

proof fn lemma_insert_x_conf_le(m: DigitMatch, s: Seq<DigitMatch>, c: u32)
    requires
        m.confidence <= c,
        spec_all_conf_le(s, c),
    ensures
        spec_all_conf_le(spec_insert_by_x(m, s), c),
        spec_insert_by_x(m, s).len() == s.len() + 1,
    decreases s.len(),
{
    if s.len() != 0 && s[0].x <= m.x {
        lemma_insert_x_conf_le(m, s.drop_first(), c);
    }
}

proof fn lemma_sort_conf_conf_le(s: Seq<DigitMatch>, c: u32)
    requires
        spec_all_conf_le(s, c),
    ensures
        spec_all_conf_le(spec_sort_by_conf(s), c),
        spec_sort_by_conf(s).len() == s.len(),
    decreases s.len(),
{
    if s.len() != 0 {
        lemma_sort_conf_conf_le(s.drop_last(), c);
        lemma_insert_conf_conf_le(s.last(), spec_sort_by_conf(s.drop_last()), c);
    }
}

proof fn lemma_sort_x_conf_le(s: Seq<DigitMatch>, c: u32)
    requires
        spec_all_conf_le(s, c),
    ensures
        spec_all_conf_le(spec_sort_by_x(s), c),
        spec_sort_by_x(s).len() == s.len(),
    decreases s.len(),
{
    if s.len() != 0 {
        lemma_sort_x_conf_le(s.drop_last(), c);
        lemma_insert_x_conf_le(s.last(), spec_sort_by_x(s.drop_last()), c);
    }
}

proof fn lemma_nms_conf_le(s: Seq<DigitMatch>, acc: Seq<DigitMatch>, sep: int, c: u32)
    requires
        spec_all_conf_le(s, c),
        spec_all_conf_le(acc, c),
    ensures
        spec_all_conf_le(spec_nms_rec(s, acc, sep), c),
        spec_nms_rec(s, acc, sep).len() <= acc.len() + s.len(),
    decreases s.len(),
{
    if s.len() != 0 {
        if spec_separated_from(s[0], acc, sep) {
            lemma_nms_conf_le(s.drop_first(), acc.push(s[0]), sep, c);
        } else {
            lemma_nms_conf_le(s.drop_first(), acc, sep, c);
        }
    }
}

/// Every confidence that survives the overlap filter was already bounded by
/// `c`, and the filter never grows the candidate list.
pub proof fn lemma_recognized_conf_le(s: Seq<DigitMatch>, c: u32)
    requires
        spec_all_conf_le(s, c),
    ensures
        spec_all_conf_le(spec_recognized_matches(s), c),
        spec_recognized_matches(s).len() <= s.len(),
{
    lemma_sort_x_conf_le(s, c);
    lemma_sort_conf_conf_le(spec_sort_by_x(s), c);
    lemma_nms_conf_le(
        spec_sort_by_conf(spec_sort_by_x(s)),
        Seq::<DigitMatch>::empty(),
        MIN_MATCH_SEPARATION as int,
        c,
    );
    lemma_sort_x_conf_le(
        spec_nms(spec_sort_by_conf(spec_sort_by_x(s)), MIN_MATCH_SEPARATION as int),
        c,
    );
}

/// Sum of the confidences in `s`.
pub open spec fn spec_conf_sum(s: Seq<DigitMatch>) -> int
    decreases s.len(),
{
    if s.len() == 0 {
        0
    } else {
        spec_conf_sum(s.drop_last()) + s.last().confidence
    }
}

/// Mean confidence of `s`, rounded down; zero for an empty set.
pub open spec fn spec_avg_conf(s: Seq<DigitMatch>) -> int {
    if s.len() == 0 {
        0
    } else {
        spec_conf_sum(s) / (s.len() as int)
    }
}

/// The symbols of `s`, in order.
pub open spec fn spec_glyphs(s: Seq<DigitMatch>) -> Seq<u8> {
    s.map_values(|m: DigitMatch| m.digit)
}

/// The symbols of `s` in order, truncated to the result capacity.
pub open spec fn spec_text_of_matches(s: Seq<DigitMatch>) -> Seq<u8> {
    if s.len() <= STR8_CAPACITY {
        spec_glyphs(s)
    } else {
        spec_glyphs(s).take(STR8_CAPACITY as int)
    }
}

/// The accepted match set of a region: candidates put in reading order, then
/// passed through the overlap filter.
pub open spec fn spec_recognized_matches(s: Seq<DigitMatch>) -> Seq<DigitMatch> {
    spec_filter_overlapping(spec_sort_by_x(s))
}

/// Assembles the candidate matches of one region into its result string and
/// mean confidence: order candidates left to right, suppress overlaps, read
/// off the surviving symbols (at most eight, truncating with the rest
/// ignored), and average the surviving confidences.  No survivors yield the
/// empty string with confidence zero.
pub fn recognize_digits(matches: &Vec<DigitMatch>) -> (r: (Str8, u32))
    requires
        spec_all_conf_le(matches@, CONFIDENCE_SCALE),
        matches@.len() <= MAX_MATCH_COUNT,
    ensures
        r.0@ == spec_text_of_matches(spec_recognized_matches(matches@)),
        r.1 == spec_avg_conf(spec_recognized_matches(matches@)),
        r.1 <= CONFIDENCE_SCALE,
{
    proof {
        lemma_recognized_conf_le(matches@, CONFIDENCE_SCALE);
    }
    let sorted = sort_matches_by_x(matches);
    let filtered = filter_overlapping_matches(&sorted);
    let ghost rec = spec_recognized_matches(matches@);
    proof {
        assert(filtered@ == rec);
    }
    if filtered.len() == 0 {
        proof {
            assert(spec_text_of_matches(rec) =~= Seq::<u8>::empty());
        }
        return (Str8::new(), 0);
    }
    let n = if filtered.len() < STR8_CAPACITY {
        filtered.len()
    } else {
        STR8_CAPACITY
    };
    let mut text = Str8::new();
    let mut i: usize = 0;
    while i < n
        invariant
            0 <= i <= n,
            n <= filtered@.len(),
            n <= STR8_CAPACITY,
            filtered@ == rec,
            text@ == spec_glyphs(rec).take(i as int),
        decreases n - i,
    {
        text.push(filtered[i].digit);
        proof {
            assert(spec_glyphs(rec).take(i as int + 1) =~= spec_glyphs(rec).take(i as int).push(
                rec[i as int].digit,
            ));
        }
        i = i + 1;
    }
    proof {
        if rec.len() <= STR8_CAPACITY {
            assert(spec_glyphs(rec).take(n as int) =~= spec_glyphs(rec));
        }
    }
    let mut sum: u64 = 0;
    let mut k: usize = 0;
    while k < filtered.len()
        invariant
            0 <= k <= filtered@.len(),
            filtered@ == rec,
            filtered@.len() <= MAX_MATCH_COUNT,
            spec_all_conf_le(rec, CONFIDENCE_SCALE),
            sum == spec_conf_sum(rec.take(k as int)),
            sum <= (CONFIDENCE_SCALE as int) * (k as int),
        decreases filtered@.len() - k,
    {
        let c = filtered[k].confidence;
        proof {
            assert(rec.take(k as int + 1).drop_last() =~= rec.take(k as int));
            assert(rec.take(k as int + 1).last() == rec[k as int]);
            assert(rec[k as int].confidence <= CONFIDENCE_SCALE);
            assert((CONFIDENCE_SCALE as int) * (k as int + 1) == (CONFIDENCE_SCALE as int) * (
            k as int) + CONFIDENCE_SCALE) by (nonlinear_arith);
            assert((CONFIDENCE_SCALE as int) * (k as int + 1) <= (CONFIDENCE_SCALE as int)
                * 0x1_0000_0000) by (nonlinear_arith)
                requires k as int + 1 <= 0x1_0000_0000;
        }
        sum = sum + c as u64;
        k = k + 1;
    }
    proof {
        assert(rec.take(rec.len() as int) =~= rec);
    }
    let count = filtered.len() as u64;
    let avg64 = sum / count;
    proof {
        vstd::arithmetic::div_mod::lemma_div_is_ordered(
            sum as int,
            (CONFIDENCE_SCALE as int) * (count as int),
            count as int,
        );
        vstd::arithmetic::div_mod::lemma_div_by_multiple(CONFIDENCE_SCALE as int, count as int);
    }
    (text, avg64 as u32)
}
/// The rows of a score map as plain sequences.
pub open spec fn spec_rows_view(rows: Seq<Vec<u32>>) -> Seq<Seq<u32>> {
    rows.map_values(|r: Vec<u32>| r@)
}

/// A score row is usable: its positions fit an `i32` x-coordinate and every
/// score is within scale.
pub open spec fn spec_row_ok(row: Seq<u32>) -> bool {
    &&& row.len() <= 0x7FFF_FFFF
    &&& forall|i: int| 0 <= i < row.len() ==> (#[trigger] row[i]) <= CONFIDENCE_SCALE
}

/// Every row of a score map is usable.
pub open spec fn spec_map_ok(rows: Seq<Vec<u32>>) -> bool {
    forall|i: int| 0 <= i < rows.len() ==> spec_row_ok((#[trigger] rows[i])@)
}

/// The matches one score row contributes: one candidate per position whose
/// score reaches the threshold, in position order.
pub open spec fn spec_row_matches(row: Seq<u32>, digit: u8, threshold: u32) -> Seq<DigitMatch>
    decreases row.len(),
{
    if row.len() == 0 {
        Seq::<DigitMatch>::empty()
    } else {
        let front = spec_row_matches(row.drop_last(), digit, threshold);
        if row.last() >= threshold {
            front.push(
                DigitMatch {
                    digit,
                    x: (row.len() - 1) as i32,
                    confidence: row.last(),
                },
            )
        } else {
            front
        }
    }
}

/// The matches a whole score map contributes, row-major.
pub open spec fn spec_map_matches(rows: Seq<Seq<u32>>, digit: u8, threshold: u32) -> Seq<
    DigitMatch,
>
    decreases rows.len(),
{
    if rows.len() == 0 {
        Seq::<DigitMatch>::empty()
    } else {
        spec_map_matches(rows.drop_last(), digit, threshold) + spec_row_matches(
            rows.last(),
            digit,
            threshold,
        )
    }
}

proof fn lemma_row_matches_ok(row: Seq<u32>, digit: u8, threshold: u32)
    requires
        spec_row_ok(row),
    ensures
        spec_row_matches(row, digit, threshold).len() <= row.len(),
        spec_all_conf_le(spec_row_matches(row, digit, threshold), CONFIDENCE_SCALE),
    decreases row.len(),
{
    if row.len() != 0 {
        assert(spec_row_ok(row.drop_last()));
        lemma_row_matches_ok(row.drop_last(), digit, threshold);
    }
}

/// Number of score entries in one map.
pub open spec fn spec_map_cells(rows: Seq<Vec<u32>>) -> int
    decreases rows.len(),
{
    if rows.len() == 0 {
        0
    } else {
        spec_map_cells(rows.drop_last()) + rows.last()@.len()
    }
}

/// Number of score entries over all of a region's maps.
pub open spec fn spec_maps_cells(maps: Seq<Vec<Vec<u32>>>) -> int
    decreases maps.len(),
{
    if maps.len() == 0 {
        0
    } else {
        spec_maps_cells(maps.drop_last()) + spec_map_cells(maps.last()@)
    }
}

proof fn lemma_map_matches_ok(rows: Seq<Vec<u32>>, digit: u8, threshold: u32)
    requires
        spec_map_ok(rows),
    ensures
        spec_map_matches(spec_rows_view(rows), digit, threshold).len() <= spec_map_cells(rows),
        spec_all_conf_le(spec_map_matches(spec_rows_view(rows), digit, threshold), CONFIDENCE_SCALE),
    decreases rows.len(),
{
    if rows.len() != 0 {
        assert(spec_map_ok(rows.drop_last()));
        lemma_map_matches_ok(rows.drop_last(), digit, threshold);
        lemma_row_matches_ok(rows.last()@, digit, threshold);
        assert(spec_rows_view(rows).drop_last() =~= spec_rows_view(rows.drop_last()));
        assert(spec_rows_view(rows).last() == rows.last()@);
        assert(spec_map_matches(spec_rows_view(rows), digit, threshold) == spec_map_matches(
            spec_rows_view(rows).drop_last(),
            digit,
            threshold,
        ) + spec_row_matches(spec_rows_view(rows).last(), digit, threshold));
    }
}

/// Collects every location of one template's score map whose score reaches
/// the match threshold, as candidates carrying the template's symbol.
pub fn collect_matches(scores: &Vec<Vec<u32>>, digit: u8, threshold: u32) -> (r: Vec<DigitMatch>)
    requires
        spec_map_ok(scores@),
    ensures
        r@ == spec_map_matches(spec_rows_view(scores@), digit, threshold),
{
    let mut r: Vec<DigitMatch> = Vec::new();
    let ghost rows = spec_rows_view(scores@);
    let mut y: usize = 0;
    while y < scores.len()
        invariant
            0 <= y <= scores@.len(),
            spec_map_ok(scores@),
            rows == spec_rows_view(scores@),
            r@ == spec_map_matches(rows.take(y as int), digit, threshold),
        decreases scores@.len() - y,
    {
        let ghost row = scores@[y as int]@;
        proof {
            assert(rows[y as int] == row);
        }
        let ncols = scores[y].len();
        let mut x: usize = 0;
        while x < ncols
            invariant
                0 <= y < scores@.len(),
                0 <= x <= ncols,
                spec_map_ok(scores@),
                rows == spec_rows_view(scores@),
                row == scores@[y as int]@,
                rows[y as int] == row,
                ncols == row.len(),
                r@ == spec_map_matches(rows.take(y as int), digit, threshold)
                    + spec_row_matches(row.take(x as int), digit, threshold),
            decreases ncols - x,
        {
            let c = scores[y][x];
            proof {
                assert(spec_row_ok(row));
                assert(row.take(x as int + 1).drop_last() =~= row.take(x as int));
                assert(row.take(x as int + 1).last() == row[x as int]);
            }
            if c >= threshold {
                r.push(DigitMatch { digit, x: x as i32, confidence: c });
                proof {
                    assert(r@ =~= spec_map_matches(rows.take(y as int), digit, threshold)
                        + spec_row_matches(row.take(x as int + 1), digit, threshold));
                }
            }
            x = x + 1;
        }
        proof {
            assert(row.take(row.len() as int) =~= row);
            assert(rows.take(y as int + 1).drop_last() =~= rows.take(y as int));
            assert(rows.take(y as int + 1).last() == rows[y as int]);
        }
        y = y + 1;
    }
    proof {
        assert(rows.take(rows.len() as int) =~= rows);
    }
    r
}

/// A reason engine construction can fail.
#[derive(Debug, Clone, Copy, PartialEq, Eq, Structural)]
pub enum OcrError {
    /// No usable symbol template was found among the sources.
    NoTemplates,
}

/// One decoded template file, identified by its file stem.
#[derive(Debug, Clone)]
pub struct TemplateSource {
    /// The file stem, as bytes: `slash` for the `/` symbol, or a symbol byte
    /// followed by a dash and a variant name.
    pub stem: Vec<u8>,
    /// The decoded grayscale template image.
    pub image: GrayFrame,
}

/// One usable symbol template.
#[derive(Debug, Clone)]
pub struct DigitTemplate {
    /// The symbol this template renders, as an ASCII byte.
    pub glyph: u8,
    /// The grayscale template image.
    pub image: GrayFrame,
}

/// The byte string `slash`.
pub open spec fn spec_slash_stem() -> Seq<u8> {
    seq![115u8, 108u8, 97u8, 115u8, 104u8]
}

/// Whether the stem holds a dash anywhere.
pub open spec fn spec_stem_has_dash(stem: Seq<u8>) -> bool {
    exists|i: int| 0 <= i < stem.len() && stem[i] == 45u8
}

/// The symbol a template file stem names: `slash` names `/`; a stem whose
/// first byte is a symbol other than a dash, followed somewhere by a dash and
/// a variant name, names that first byte; any other stem names no symbol and
/// is ignored.
pub open spec fn spec_glyph_of_stem(stem: Seq<u8>) -> Option<u8> {
    if stem == spec_slash_stem() {
        Some(47u8)
    } else if stem.len() > 0 && stem[0] != 45u8 && spec_stem_has_dash(stem) {
        Some(stem[0])
    } else {
        None
    }
}

/// The templates loaded from the sources, in order: sources whose stem names
/// a symbol and whose image has nonzero area, the rest skipped.
pub open spec fn spec_load_templates(sources: Seq<TemplateSource>) -> Seq<DigitTemplate>
    decreases sources.len(),
{
    if sources.len() == 0 {
        Seq::<DigitTemplate>::empty()
    } else {
        let front = spec_load_templates(sources.drop_last());
        let src = sources.last();
        if src.image.width > 0 && src.image.height > 0 && spec_glyph_of_stem(src.stem@) is Some {
            front.push(
                DigitTemplate { glyph: spec_glyph_of_stem(src.stem@)->Some_0, image: src.image },
            )
        } else {
            front
        }
    }
}

fn is_slash_stem(stem: &Vec<u8>) -> (r: bool)
    ensures
        r == (stem@ == spec_slash_stem()),
{
    if stem.len() != 5 {
        proof {
            assert(stem@ != spec_slash_stem());
        }
        return false;
    }
    let r = stem[0] == 115 && stem[1] == 108 && stem[2] == 97 && stem[3] == 115 && stem[4] == 104;
    proof {
        if r {
            assert(stem@ =~= spec_slash_stem());
        } else {
            assert(stem@ != spec_slash_stem());
        }
    }
    r
}

fn stem_has_dash(stem: &Vec<u8>) -> (r: bool)
    ensures
        r == spec_stem_has_dash(stem@),
{
    let mut i: usize = 0;
    while i < stem.len()
        invariant
            0 <= i <= stem@.len(),
            forall|k: int| 0 <= k < i ==> stem@[k] != 45u8,
        decreases stem@.len() - i,
    {
        if stem[i] == 45 {
            return true;
        }
        i = i + 1;
    }
    false
}

/// Reads the template sources into the symbol templates they name, in order.
/// With not one usable template the engine cannot recognize anything, so the
/// result is `Err(OcrError::NoTemplates)` exactly when every source is
/// skipped.
pub fn load_templates(sources: Vec<TemplateSource>) -> (r: Result<Vec<DigitTemplate>, OcrError>)
    ensures
        r is Ok <==> spec_load_templates(sources@).len() > 0,
        r is Ok ==> r->Ok_0@ == spec_load_templates(sources@),
        r is Err ==> r->Err_0 == OcrError::NoTemplates,
{
    let ghost all = sources@;
    let mut rest = sources;
    let mut templates: Vec<DigitTemplate> = Vec::new();
    let ghost i: int = 0;
    while rest.len() > 0
        invariant
            0 <= i <= all.len(),
            rest@ == all.skip(i),
            templates@ == spec_load_templates(all.take(i)),
        decreases rest@.len(),
    {
        let src = rest.remove(0);
        proof {
            assert(src == all[i]);
            assert(all.skip(i).remove(0) =~= all.skip(i + 1));
            assert(all.take(i + 1).drop_last() =~= all.take(i));
            assert(all.take(i + 1).last() == all[i]);
        }
        let TemplateSource { stem, image } = src;
        if image.width > 0 && image.height > 0 {
            if is_slash_stem(&stem) {
                templates.push(DigitTemplate { glyph: 47, image });
                proof {
                    assert(templates@ =~= spec_load_templates(all.take(i + 1)));
                }
            } else if stem.len() > 0 && stem[0] != 45 && stem_has_dash(&stem) {
                let glyph = stem[0];
                templates.push(DigitTemplate { glyph, image });
                proof {
                    assert(templates@ =~= spec_load_templates(all.take(i + 1)));
                }
            }
        }
        proof {
            i = i + 1;
        }
    }
    proof {
        assert(all.take(all.len() as int) =~= all);
    }
    if templates.len() == 0 {
        Err(OcrError::NoTemplates)
    } else {
        Ok(templates)
    }
}

/// The template-matching recognition engine: its loaded symbol templates and
/// its thresholds.
pub struct TemplateMatchingOcrEngine {
    /// The loaded symbol templates, in loading order.
    pub digit_templates: Vec<DigitTemplate>,
    /// The matcher thresholds.
    pub config: TemplateMatchingConfig,
}

impl TemplateMatchingOcrEngine {
    /// Builds the engine from decoded template sources.  Construction fails
    /// with `OcrError::NoTemplates` exactly when no source yields a usable
    /// template.
    pub fn new(config: TemplateMatchingConfig, sources: Vec<TemplateSource>) -> (r: Result<
        Self,
        OcrError,
    >)
        ensures
            r is Ok <==> spec_load_templates(sources@).len() > 0,
            r is Ok ==> {
                &&& r->Ok_0.digit_templates@ == spec_load_templates(sources@)
                &&& r->Ok_0.config == config
            },
            r is Err ==> r->Err_0 == OcrError::NoTemplates,
    {
        match load_templates(sources) {
            Ok(digit_templates) => Ok(TemplateMatchingOcrEngine { digit_templates, config }),
            Err(e) => Err(e),
        }
    }

    /// Collects the candidate matches of one template's score map, using the
    /// engine's match threshold.
    pub fn match_template(&self, scores: &Vec<Vec<u32>>, digit: u8) -> (r: Vec<DigitMatch>)
        requires
            spec_map_ok(scores@),
        ensures
            r@ == spec_map_matches(spec_rows_view(scores@), digit, self.config.match_threshold),
    {
        collect_matches(scores, digit, self.config.match_threshold)
    }
}
/// Every map of a region is usable.
pub open spec fn spec_maps_ok(maps: Seq<Vec<Vec<u32>>>) -> bool {
    forall|t: int| 0 <= t < maps.len() ==> spec_map_ok((#[trigger] maps[t])@)
}

/// All candidate matches of one region: template by template, each template's
/// score map contributes its matches carrying that template's symbol.
pub open spec fn spec_region_candidates(
    templates: Seq<DigitTemplate>,
    maps: Seq<Vec<Vec<u32>>>,
    threshold: u32,
) -> Seq<DigitMatch>
    decreases maps.len(),
{
    if maps.len() == 0 || templates.len() == 0 {
        Seq::<DigitMatch>::empty()
    } else {
        spec_region_candidates(templates.drop_last(), maps.drop_last(), threshold)
            + spec_map_matches(
            spec_rows_view(maps.last()@),
            templates.last().glyph,
            threshold,
        )
    }
}

proof fn lemma_region_candidates_ok(
    templates: Seq<DigitTemplate>,
    maps: Seq<Vec<Vec<u32>>>,
    threshold: u32,
)
    requires
        spec_maps_ok(maps),
        templates.len() == maps.len(),
    ensures
        spec_region_candidates(templates, maps, threshold).len() <= spec_maps_cells(maps),
        spec_all_conf_le(spec_region_candidates(templates, maps, threshold), CONFIDENCE_SCALE),
    decreases maps.len(),
{
    if maps.len() != 0 {
        assert(spec_maps_ok(maps.drop_last()));
        lemma_region_candidates_ok(templates.drop_last(), maps.drop_last(), threshold);
        lemma_map_matches_ok(maps.last()@, templates.last().glyph, threshold);
    }
}

/// The result of the matcher on one region, given the per-template score
/// maps: the string read off the accepted match set in reading order, and
/// the mean confidence of that set.
pub open spec fn spec_region_result(
    templates: Seq<DigitTemplate>,
    maps: Seq<Vec<Vec<u32>>>,
    threshold: u32,
) -> (Seq<u8>, int) {
    let accepted = spec_recognized_matches(spec_region_candidates(templates, maps, threshold));
    (spec_text_of_matches(accepted), spec_avg_conf(accepted))
}

impl TemplateMatchingOcrEngine {
    /// Recognizes one region from its per-template score maps, `maps[t]`
    /// being the score map of `digit_templates[t]` over the region.  Returns
    /// the assembled string and its mean confidence.
    pub fn recognize_region(&self, maps: &Vec<Vec<Vec<u32>>>) -> (r: (Str8, u32))
        requires
            maps@.len() == self.digit_templates@.len(),
            spec_maps_ok(maps@),
            spec_maps_cells(maps@) <= MAX_MATCH_COUNT,
        ensures
            r.0@ == spec_region_result(
                self.digit_templates@,
                maps@,
                self.config.match_threshold,
            ).0,
            r.1 == spec_region_result(self.digit_templates@, maps@, self.config.match_threshold).1,
            r.1 <= CONFIDENCE_SCALE,
    {
        let threshold = self.config.match_threshold;
        let ghost temps = self.digit_templates@;
        let mut cands: Vec<DigitMatch> = Vec::new();
        let mut t: usize = 0;
        while t < maps.len()
            invariant
                0 <= t <= maps@.len(),
                maps@.len() == temps.len(),
                temps == self.digit_templates@,
                threshold == self.config.match_threshold,
                spec_maps_ok(maps@),
                cands@ == spec_region_candidates(temps.take(t as int), maps@.take(t as int), threshold),
                cands@.len() <= spec_maps_cells(maps@.take(t as int)),
                spec_all_conf_le(cands@, CONFIDENCE_SCALE),
            decreases maps@.len() - t,
        {
            let glyph = self.digit_templates[t].glyph;
            proof {
                assert(maps@[t as int]@ == (maps@.take(t as int + 1)).last()@);
            }
            let mut found = collect_matches(&maps[t], glyph, threshold);
            proof {
                lemma_map_matches_ok(maps@[t as int]@, glyph, threshold);
                assert(temps.take(t as int + 1).drop_last() =~= temps.take(t as int));
                assert(maps@.take(t as int + 1).drop_last() =~= maps@.take(t as int));
                assert(temps.take(t as int + 1).last() == temps[t as int]);
                assert(maps@.take(t as int + 1).last() == maps@[t as int]);
            }
            cands.append(&mut found);
            t = t + 1;
        }
        proof {
            assert(temps.take(temps.len() as int) =~= temps);
            assert(maps@.take(maps@.len() as int) =~= maps@);
        }
        recognize_digits(&cands)
    }
}
proof fn lemma_insert_x_pairwise(m: DigitMatch, s: Seq<DigitMatch>, sep: int)
    requires
        spec_pairwise_separated(s, sep),
        spec_separated_from(m, s, sep),
    ensures
        spec_pairwise_separated(spec_insert_by_x(m, s), sep),
        forall|z: DigitMatch|
            spec_separated_from(z, s, sep) && spec_abs_diff(z.x as int, m.x as int) >= sep
                ==> #[trigger] spec_separated_from(z, spec_insert_by_x(m, s), sep),
    decreases s.len(),
{
    let res = spec_insert_by_x(m, s);
    if s.len() == 0 {
        assert forall|i: int, j: int|
            0 <= i < j < res.len() implies spec_abs_diff(res[i].x as int, res[j].x as int)
            >= sep by {}
    } else if s[0].x <= m.x {
        let rest = s.drop_first();
        assert(spec_pairwise_separated(rest, sep)) by {
            assert forall|i: int, j: int|
                0 <= i < j < rest.len() implies spec_abs_diff(rest[i].x as int, rest[j].x as int)
                >= sep by {
                assert(rest[i] == s[i + 1]);
                assert(rest[j] == s[j + 1]);
            }
        }
        assert(spec_separated_from(m, rest, sep)) by {
            assert forall|i: int|
                0 <= i < rest.len() implies spec_abs_diff(m.x as int, rest[i].x as int) >= sep by {
                assert(rest[i] == s[i + 1]);
            }
        }
        lemma_insert_x_pairwise(m, rest, sep);
        let inner = spec_insert_by_x(m, rest);
        assert(spec_separated_from(s[0], rest, sep)) by {
            assert forall|i: int|
                0 <= i < rest.len() implies spec_abs_diff(s[0].x as int, rest[i].x as int)
                >= sep by {
                assert(rest[i] == s[i + 1]);
                assert(spec_abs_diff(s[0].x as int, s[i + 1].x as int) >= sep);
            }
        }
        assert(spec_abs_diff(s[0].x as int, m.x as int) >= sep);
        assert(spec_separated_from(s[0], inner, sep));
        assert(res == seq![s[0]] + inner);
        assert forall|i: int, j: int|
            0 <= i < j < res.len() implies spec_abs_diff(res[i].x as int, res[j].x as int)
            >= sep by {
            if i == 0 {
                assert(res[0] == s[0]);
                assert(res[j] == inner[j - 1]);
            } else {
                assert(res[i] == inner[i - 1]);
                assert(res[j] == inner[j - 1]);
            }
        }
        assert forall|z: DigitMatch|
            spec_separated_from(z, s, sep) && spec_abs_diff(z.x as int, m.x as int)
                >= sep implies #[trigger] spec_separated_from(z, res, sep) by {
            assert(spec_separated_from(z, rest, sep)) by {
                assert forall|i: int|
                    0 <= i < rest.len() implies spec_abs_diff(z.x as int, rest[i].x as int)
                    >= sep by {
                    assert(rest[i] == s[i + 1]);
                }
            }
            assert(spec_separated_from(z, inner, sep));
            assert forall|i: int|
                0 <= i < res.len() implies spec_abs_diff(z.x as int, res[i].x as int) >= sep by {
                if i == 0 {
                    assert(res[0] == s[0]);
                } else {
                    assert(res[i] == inner[i - 1]);
                }
            }
        }
    } else {
        assert(res == seq![m] + s);
        assert forall|i: int, j: int|
            0 <= i < j < res.len() implies spec_abs_diff(res[i].x as int, res[j].x as int)
            >= sep by {
            if i == 0 {
                assert(res[0] == m);
                assert(res[j] == s[j - 1]);
                assert(spec_abs_diff(m.x as int, s[j - 1].x as int) >= sep);
            } else {
                assert(res[i] == s[i - 1]);
                assert(res[j] == s[j - 1]);
            }
        }
        assert forall|z: DigitMatch|
            spec_separated_from(z, s, sep) && spec_abs_diff(z.x as int, m.x as int)
                >= sep implies #[trigger] spec_separated_from(z, res, sep) by {
            assert forall|i: int|
                0 <= i < res.len() implies spec_abs_diff(z.x as int, res[i].x as int) >= sep by {
                if i == 0 {
                    assert(res[0] == m);
                } else {
                    assert(res[i] == s[i - 1]);
                }
            }
        }
    }
}

proof fn lemma_sort_x_pairwise(s: Seq<DigitMatch>, sep: int)
    requires
        spec_pairwise_separated(s, sep),
    ensures
        spec_pairwise_separated(spec_sort_by_x(s), sep),
        forall|z: DigitMatch|
            spec_separated_from(z, s, sep) ==> #[trigger] spec_separated_from(
                z,
                spec_sort_by_x(s),
                sep,
            ),
    decreases s.len(),
{
    if s.len() != 0 {
        let front = s.drop_last();
        let m = s.last();
        assert(spec_pairwise_separated(front, sep));
        lemma_sort_x_pairwise(front, sep);
        let sorted_front = spec_sort_by_x(front);
        assert(spec_separated_from(m, front, sep)) by {
            assert forall|i: int|
                0 <= i < front.len() implies spec_abs_diff(m.x as int, front[i].x as int)
                >= sep by {
                assert(spec_abs_diff(s[i].x as int, s[s.len() - 1].x as int) >= sep);
            }
        }
        assert(spec_separated_from(m, sorted_front, sep));
        lemma_insert_x_pairwise(m, sorted_front, sep);
        assert forall|z: DigitMatch|
            spec_separated_from(z, s, sep) implies #[trigger] spec_separated_from(
            z,
            spec_sort_by_x(s),
            sep,
        ) by {
            assert(spec_separated_from(z, front, sep));
            assert(spec_separated_from(z, sorted_front, sep));
            assert(spec_abs_diff(z.x as int, m.x as int) >= sep);
        }
    }
}

proof fn lemma_nms_pairwise(s: Seq<DigitMatch>, acc: Seq<DigitMatch>, sep: int)
    requires
        spec_pairwise_separated(acc, sep),
    ensures
        spec_pairwise_separated(spec_nms_rec(s, acc, sep), sep),
    decreases s.len(),
{
    if s.len() != 0 {
        if spec_separated_from(s[0], acc, sep) {
            let acc2 = acc.push(s[0]);
            assert(spec_pairwise_separated(acc2, sep)) by {
                assert forall|i: int, j: int|
                    0 <= i < j < acc2.len() implies spec_abs_diff(
                    acc2[i].x as int,
                    acc2[j].x as int,
                ) >= sep by {
                    if j == acc.len() {
                        assert(acc2[i] == acc[i]);
                        assert(acc2[j] == s[0]);
                        assert(spec_abs_diff(s[0].x as int, acc[i].x as int) >= sep);
                    } else {
                        assert(acc2[i] == acc[i]);
                        assert(acc2[j] == acc[j]);
                    }
                }
            }
            lemma_nms_pairwise(s.drop_first(), acc2, sep);
        } else {
            lemma_nms_pairwise(s.drop_first(), acc, sep);
        }
    }
}

/// Non-max suppression invariant: any two matches in the accepted match set
/// of a region lie at least [`MIN_MATCH_SEPARATION`] pixels apart.
pub proof fn lemma_accepted_matches_separated(s: Seq<DigitMatch>)
    ensures
        spec_pairwise_separated(spec_recognized_matches(s), MIN_MATCH_SEPARATION as int),
{
    let sep = MIN_MATCH_SEPARATION as int;
    let ordered = spec_sort_by_conf(spec_sort_by_x(s));
    assert(spec_pairwise_separated(Seq::<DigitMatch>::empty(), sep));
    lemma_nms_pairwise(ordered, Seq::<DigitMatch>::empty(), sep);
    lemma_sort_x_pairwise(spec_nms(ordered, sep), sep);
}

proof fn lemma_insert_x_sorted(m: DigitMatch, s: Seq<DigitMatch>)
    requires
        spec_sorted_by_x(s),
    ensures
        spec_sorted_by_x(spec_insert_by_x(m, s)),
        spec_insert_by_x(m, s).len() == s.len() + 1,
        spec_insert_by_x(m, s)[0] == m || (s.len() > 0 && spec_insert_by_x(m, s)[0] == s[0]),
    decreases s.len(),
{
    let res = spec_insert_by_x(m, s);
    if s.len() == 0 {
    } else if s[0].x <= m.x {
        let rest = s.drop_first();
        assert(spec_sorted_by_x(rest)) by {
            assert forall|i: int, j: int|
                0 <= i < j < rest.len() implies (#[trigger] rest[i]).x <= (#[trigger] rest[j]).x by {
                assert(rest[i] == s[i + 1]);
                assert(rest[j] == s[j + 1]);
            }
        }
        lemma_insert_x_sorted(m, rest);
        let inner = spec_insert_by_x(m, rest);
        assert(res == seq![s[0]] + inner);
        assert(s[0].x <= inner[0].x) by {
            if inner[0] == m {
            } else {
                assert(inner[0] == rest[0]);
                assert(rest[0] == s[1]);
            }
        }
        assert forall|i: int, j: int|
            0 <= i < j < res.len() implies (#[trigger] res[i]).x <= (#[trigger] res[j]).x by {
            if i == 0 {
                assert(res[0] == s[0]);
                assert(res[j] == inner[j - 1]);
                if j - 1 > 0 {
                    assert(inner[0].x <= inner[j - 1].x);
                }
            } else {
                assert(res[i] == inner[i - 1]);
                assert(res[j] == inner[j - 1]);
            }
        }
    } else {
        assert(res == seq![m] + s);
        assert forall|i: int, j: int|
            0 <= i < j < res.len() implies (#[trigger] res[i]).x <= (#[trigger] res[j]).x by {
            if i == 0 {
                assert(res[0] == m);
                assert(res[j] == s[j - 1]);
                if j - 1 > 0 {
                    assert(s[0].x <= s[j - 1].x);
                }
            } else {
                assert(res[i] == s[i - 1]);
                assert(res[j] == s[j - 1]);
            }
        }
    }
}

proof fn lemma_sort_x_sorted(s: Seq<DigitMatch>)
    ensures
        spec_sorted_by_x(spec_sort_by_x(s)),
    decreases s.len(),
{
    if s.len() != 0 {
        lemma_sort_x_sorted(s.drop_last());
        lemma_insert_x_sorted(s.last(), spec_sort_by_x(s.drop_last()));
    }
}

/// Ordering invariant: the accepted match set of a region is ordered by
/// ascending x-position, so the assembled string reads its symbols left to
/// right.
pub proof fn lemma_accepted_matches_ordered(s: Seq<DigitMatch>)
    ensures
        spec_sorted_by_x(spec_recognized_matches(s)),
        spec_text_of_matches(spec_recognized_matches(s)) == spec_glyphs(
            spec_recognized_matches(s),
        ).take(
            if spec_recognized_matches(s).len() < STR8_CAPACITY {
                spec_recognized_matches(s).len() as int
            } else {
                STR8_CAPACITY as int
            },
        ),
{
    lemma_sort_x_sorted(spec_nms(spec_sort_by_conf(spec_sort_by_x(s)), MIN_MATCH_SEPARATION as int));
    let rec = spec_recognized_matches(s);
    if rec.len() <= STR8_CAPACITY {
        assert(spec_glyphs(rec).take(rec.len() as int) =~= spec_glyphs(rec));
    }
}

/// Determinism of the matcher: the region result is a mathematical function
/// of the templates, score maps and threshold alone, so any two runs on the
/// same inputs return the same string and the same confidence.
pub proof fn lemma_matcher_deterministic(
    templates: Seq<DigitTemplate>,
    maps: Seq<Vec<Vec<u32>>>,
    threshold: u32,
    first: (Seq<u8>, int),
    second: (Seq<u8>, int),
)
    requires
        first == spec_region_result(templates, maps, threshold),
        second == spec_region_result(templates, maps, threshold),
    ensures
        first == second,
{
}
/// `s` is ordered by confidence, best first.
pub open spec fn spec_sorted_by_conf(s: Seq<DigitMatch>) -> bool {
    forall|i: int, j: int|
        0 <= i < j < s.len() ==> (#[trigger] s[i]).confidence >= (#[trigger] s[j]).confidence
}

proof fn lemma_insert_conf_sorted(m: DigitMatch, s: Seq<DigitMatch>)
    requires
        spec_sorted_by_conf(s),
    ensures
        spec_sorted_by_conf(spec_insert_by_conf(m, s)),
        spec_insert_by_conf(m, s).len() == s.len() + 1,
        spec_insert_by_conf(m, s)[0] == m || (s.len() > 0 && spec_insert_by_conf(m, s)[0] == s[0]),
    decreases s.len(),
{
    let res = spec_insert_by_conf(m, s);
    if s.len() == 0 {
    } else if s[0].confidence >= m.confidence {
        let rest = s.drop_first();
        assert(spec_sorted_by_conf(rest)) by {
            assert forall|i: int, j: int|
                0 <= i < j < rest.len() implies (#[trigger] rest[i]).confidence >= (
            #[trigger] rest[j]).confidence by {
                assert(rest[i] == s[i + 1]);
                assert(rest[j] == s[j + 1]);
            }
        }
        lemma_insert_conf_sorted(m, rest);
        let inner = spec_insert_by_conf(m, rest);
        assert(res == seq![s[0]] + inner);
        assert(s[0].confidence >= inner[0].confidence) by {
            if inner[0] == m {
            } else {
                assert(inner[0] == rest[0]);
                assert(rest[0] == s[1]);
            }
        }
        assert forall|i: int, j: int|
            0 <= i < j < res.len() implies (#[trigger] res[i]).confidence >= (
        #[trigger] res[j]).confidence by {
            if i == 0 {
                assert(res[0] == s[0]);
                assert(res[j] == inner[j - 1]);
                if j - 1 > 0 {
                    assert(inner[0].confidence >= inner[j - 1].confidence);
                }
            } else {
                assert(res[i] == inner[i - 1]);
                assert(res[j] == inner[j - 1]);
            }
        }
    } else {
        assert(res == seq![m] + s);
        assert forall|i: int, j: int|
            0 <= i < j < res.len() implies (#[trigger] res[i]).confidence >= (
        #[trigger] res[j]).confidence by {
            if i == 0 {
                assert(res[0] == m);
                assert(res[j] == s[j - 1]);
                if j - 1 > 0 {
                    assert(s[0].confidence >= s[j - 1].confidence);
                }
            } else {
                assert(res[i] == s[i - 1]);
                assert(res[j] == s[j - 1]);
            }
        }
    }
}

proof fn lemma_sort_conf_sorted(s: Seq<DigitMatch>)
    ensures
        spec_sorted_by_conf(spec_sort_by_conf(s)),
    decreases s.len(),
{
    if s.len() != 0 {
        lemma_sort_conf_sorted(s.drop_last());
        lemma_insert_conf_sorted(s.last(), spec_sort_by_conf(s.drop_last()));
    }
}

proof fn lemma_insert_x_contains(m: DigitMatch, s: Seq<DigitMatch>)
    ensures
        spec_insert_by_x(m, s).contains(m),
        forall|i: int| 0 <= i < s.len() ==> #[trigger] spec_insert_by_x(m, s).contains(s[i]),
    decreases s.len(),
{
    let res = spec_insert_by_x(m, s);
    if s.len() == 0 {
        assert(res[0] == m);
    } else if s[0].x <= m.x {
        let rest = s.drop_first();
        lemma_insert_x_contains(m, rest);
        let inner = spec_insert_by_x(m, rest);
        assert(res == seq![s[0]] + inner);
        let p = choose|p: int| 0 <= p < inner.len() && inner[p] == m;
        assert(res[p + 1] == m);
        assert(res.contains(m));
        assert forall|i: int| 0 <= i < s.len() implies #[trigger] res.contains(s[i]) by {
            if i == 0 {
                assert(res[0] == s[0]);
            } else {
                assert(rest[i - 1] == s[i]);
                assert(inner.contains(rest[i - 1]));
                let q = choose|q: int| 0 <= q < inner.len() && inner[q] == rest[i - 1];
                assert(res[q + 1] == s[i]);
            }
        }
    } else {
        assert(res == seq![m] + s);
        assert(res[0] == m);
        assert forall|i: int| 0 <= i < s.len() implies #[trigger] res.contains(s[i]) by {
            assert(res[i + 1] == s[i]);
        }
    }
}

proof fn lemma_insert_conf_contains(m: DigitMatch, s: Seq<DigitMatch>)
    ensures
        spec_insert_by_conf(m, s).contains(m),
        forall|i: int| 0 <= i < s.len() ==> #[trigger] spec_insert_by_conf(m, s).contains(s[i]),
    decreases s.len(),
{
    let res = spec_insert_by_conf(m, s);
    if s.len() == 0 {
        assert(res[0] == m);
    } else if s[0].confidence >= m.confidence {
        let rest = s.drop_first();
        lemma_insert_conf_contains(m, rest);
        let inner = spec_insert_by_conf(m, rest);
        assert(res == seq![s[0]] + inner);
        let p = choose|p: int| 0 <= p < inner.len() && inner[p] == m;
        assert(res[p + 1] == m);
        assert(res.contains(m));
        assert forall|i: int| 0 <= i < s.len() implies #[trigger] res.contains(s[i]) by {
            if i == 0 {
                assert(res[0] == s[0]);
            } else {
                assert(rest[i - 1] == s[i]);
                assert(inner.contains(rest[i - 1]));
                let q = choose|q: int| 0 <= q < inner.len() && inner[q] == rest[i - 1];
                assert(res[q + 1] == s[i]);
            }
        }
    } else {
        assert(res == seq![m] + s);
        assert(res[0] == m);
        assert forall|i: int| 0 <= i < s.len() implies #[trigger] res.contains(s[i]) by {
            assert(res[i + 1] == s[i]);
        }
    }
}

proof fn lemma_sort_x_contains(s: Seq<DigitMatch>)
    ensures
        forall|i: int| 0 <= i < s.len() ==> #[trigger] spec_sort_by_x(s).contains(s[i]),
    decreases s.len(),
{
    if s.len() != 0 {
        let front = s.drop_last();
        lemma_sort_x_contains(front);
        let sorted_front = spec_sort_by_x(front);
        lemma_insert_x_contains(s.last(), sorted_front);
        let res = spec_sort_by_x(s);
        assert forall|i: int| 0 <= i < s.len() implies #[trigger] res.contains(s[i]) by {
            if i == s.len() - 1 {
                assert(res.contains(s.last()));
            } else {
                assert(front[i] == s[i]);
                assert(sorted_front.contains(front[i]));
                let q = choose|q: int|
                    0 <= q < sorted_front.len() && sorted_front[q] == front[i];
                assert(res.contains(sorted_front[q]));
            }
        }
    }
}

proof fn lemma_sort_conf_contains(s: Seq<DigitMatch>)
    ensures
        forall|i: int| 0 <= i < s.len() ==> #[trigger] spec_sort_by_conf(s).contains(s[i]),
    decreases s.len(),
{
    if s.len() != 0 {
        let front = s.drop_last();
        lemma_sort_conf_contains(front);
        let sorted_front = spec_sort_by_conf(front);
        lemma_insert_conf_contains(s.last(), sorted_front);
        let res = spec_sort_by_conf(s);
        assert forall|i: int| 0 <= i < s.len() implies #[trigger] res.contains(s[i]) by {
            if i == s.len() - 1 {
                assert(res.contains(s.last()));
            } else {
                assert(front[i] == s[i]);
                assert(sorted_front.contains(front[i]));
                let q = choose|q: int|
                    0 <= q < sorted_front.len() && sorted_front[q] == front[i];
                assert(res.contains(sorted_front[q]));
            }
        }
    }
}

/// `m` is represented in `r`: some match of `r` lies within `sep` of it and
/// is at least as confident.
pub open spec fn spec_covered_by(m: DigitMatch, r: Seq<DigitMatch>, sep: int) -> bool {
    exists|j: int|
        0 <= j < r.len() && spec_abs_diff((#[trigger] r[j]).x as int, m.x as int) < sep && r[
            j
        ].confidence >= m.confidence
}

proof fn lemma_nms_rec_covers(s: Seq<DigitMatch>, acc: Seq<DigitMatch>, sep: int)
    requires
        sep > 0,
        spec_sorted_by_conf(s),
        forall|i: int, j: int|
            0 <= i < acc.len() && 0 <= j < s.len() ==> (#[trigger] acc[i]).confidence >= (
            #[trigger] s[j]).confidence,
    ensures
        spec_nms_rec(s, acc, sep).len() >= acc.len(),
        forall|j: int| 0 <= j < acc.len() ==> #[trigger] spec_nms_rec(s, acc, sep)[j] == acc[j],
        forall|i: int| 0 <= i < s.len() ==> spec_covered_by(
            #[trigger] s[i],
            spec_nms_rec(s, acc, sep),
            sep,
        ),
    decreases s.len(),
{
    let res = spec_nms_rec(s, acc, sep);
    if s.len() != 0 {
        let rest = s.drop_first();
        assert(spec_sorted_by_conf(rest)) by {
            assert forall|i: int, j: int|
                0 <= i < j < rest.len() implies (#[trigger] rest[i]).confidence >= (
            #[trigger] rest[j]).confidence by {
                assert(rest[i] == s[i + 1]);
                assert(rest[j] == s[j + 1]);
            }
        }
        if spec_separated_from(s[0], acc, sep) {
            let acc2 = acc.push(s[0]);
            assert forall|i: int, j: int|
                0 <= i < acc2.len() && 0 <= j < rest.len() implies (
            #[trigger] acc2[i]).confidence >= (#[trigger] rest[j]).confidence by {
                assert(rest[j] == s[j + 1]);
                if i < acc.len() {
                    assert(acc2[i] == acc[i]);
                } else {
                    assert(acc2[i] == s[0]);
                    assert(s[0].confidence >= s[j + 1].confidence);
                }
            }
            lemma_nms_rec_covers(rest, acc2, sep);
            assert forall|j: int| 0 <= j < acc.len() implies #[trigger] res[j] == acc[j] by {
                assert(res[j] == acc2[j]);
            }
            assert forall|i: int| 0 <= i < s.len() implies spec_covered_by(
                #[trigger] s[i],
                res,
                sep,
            ) by {
                if i == 0 {
                    assert(res[acc.len() as int] == acc2[acc.len() as int]);
                    assert(res[acc.len() as int] == s[0]);
                    assert(spec_abs_diff(s[0].x as int, s[0].x as int) == 0);
                } else {
                    assert(rest[i - 1] == s[i]);
                    assert(spec_covered_by(rest[i - 1], res, sep));
                }
            }
        } else {
            lemma_nms_rec_covers(rest, acc, sep);
            assert forall|i: int| 0 <= i < s.len() implies spec_covered_by(
                #[trigger] s[i],
                res,
                sep,
            ) by {
                if i == 0 {
                    let k = choose|k: int|
                        0 <= k < acc.len() && spec_abs_diff(s[0].x as int, acc[k].x as int) < sep;
                    assert(res[k] == acc[k]);
                    assert(acc[k].confidence >= s[0].confidence);
                    assert(spec_abs_diff(acc[k].x as int, s[0].x as int) < sep);
                } else {
                    assert(rest[i - 1] == s[i]);
                    assert(spec_covered_by(rest[i - 1], res, sep));
                }
            }
        }
    }
}

/// Local-cluster law: every candidate handed to the matcher is represented
/// in the accepted match set by a match at least as confident lying within
/// the minimum separation of it — possibly the candidate itself.  Together
/// with the separation law this is what "keep only the most confident match
/// per cluster" means.
pub proof fn lemma_accepted_matches_cover_candidates(s: Seq<DigitMatch>, i: int)
    requires
        0 <= i < s.len(),
    ensures
        spec_covered_by(s[i], spec_recognized_matches(s), MIN_MATCH_SEPARATION as int),
{
    let sep = MIN_MATCH_SEPARATION as int;
    let by_x = spec_sort_by_x(s);
    let by_conf = spec_sort_by_conf(by_x);
    let kept = spec_nms(by_conf, sep);
    let final_set = spec_recognized_matches(s);

    lemma_sort_x_contains(s);
    assert(by_x.contains(s[i]));
    let i1 = choose|i1: int| 0 <= i1 < by_x.len() && by_x[i1] == s[i];

    lemma_sort_conf_contains(by_x);
    assert(by_conf.contains(by_x[i1]));
    let i2 = choose|i2: int| 0 <= i2 < by_conf.len() && by_conf[i2] == s[i];

    lemma_sort_conf_sorted(by_x);
    lemma_nms_rec_covers(by_conf, Seq::<DigitMatch>::empty(), sep);
    assert(spec_covered_by(by_conf[i2], kept, sep));
    let j = choose|j: int|
        0 <= j < kept.len() && spec_abs_diff(kept[j].x as int, s[i].x as int) < sep && kept[
            j
        ].confidence >= s[i].confidence;

    lemma_sort_x_contains(kept);
    assert(final_set.contains(kept[j]));
    let j2 = choose|j2: int| 0 <= j2 < final_set.len() && final_set[j2] == kept[j];
    assert(spec_abs_diff(final_set[j2].x as int, s[i].x as int) < sep);
    assert(final_set[j2].confidence >= s[i].confidence);
}
} // verus!
