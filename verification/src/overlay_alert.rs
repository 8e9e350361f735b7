//! The overlay's alert decision: what one frame's analysis asks the player
//! to do.  The population region reads as `current/total`; a full (or nearly
//! full) population asks for housing, idle workers are flagged next, then a
//! missing villager icon; otherwise nothing is shown.  The rendering of the
//! chosen alert is the presentation side's business.

use vstd::prelude::*;
use crate::consts::{INDEX_IDLE, INDEX_POP, NUM_STAT_REGIONS};
use crate::image_analyzer::AnalysisResult;
use crate::ocr::SLASH_BYTE;

verus! {

/// What the overlay should show for one frame.
#[derive(Debug, Clone, Copy, PartialEq, Eq, Structural)]
pub enum OverlayAlert {
    /// Nothing worth showing: no usable population reading, or nothing wrong.
    Quiet,
    /// The population is at (or within two of) its limit.
    HousingNeeded,
    /// At least one worker is idle.
    IdleWorkers,
    /// The villager icon is missing from its search area.
    NoVillagerQueued,
}

/// Whether `s` is a plain decimal numeral: non-empty and ASCII digits only.
pub open spec fn spec_is_digits(s: Seq<u8>) -> bool {
    s.len() > 0 && forall|i: int| 0 <= i < s.len() ==> 48 <= #[trigger] s[i] <= 57
}

/// The value of a digit string.
pub open spec fn spec_digits_value(s: Seq<u8>) -> int
    decreases s.len(),
{
    if s.len() == 0 {
        0
    } else {
        spec_digits_value(s.drop_last()) * 10 + (s.last() - 48)
    }
}

/// The count a region string stands for: its decimal value if it is a plain
/// numeral that fits an `i32`, and zero for anything else (an empty or
/// unreadable string counts as zero).
pub open spec fn spec_parse_or_zero(s: Seq<u8>) -> int {
    if spec_is_digits(s) && spec_digits_value(s) <= i32::MAX {
        spec_digits_value(s)
    } else {
        0
    }
}

/// The index of the first `/` in `s`, or its length if there is none.
pub open spec fn spec_first_slash(s: Seq<u8>) -> int
    decreases s.len(),
{
    if s.len() == 0 {
        0
    } else if s[0] == SLASH_BYTE {
        0
    } else {
        1 + spec_first_slash(s.drop_first())
    }
}

/// The `current` half of a `current/total` reading: everything before the
/// first `/` (the whole string if there is none).
pub open spec fn spec_part_before_slash(s: Seq<u8>) -> Seq<u8> {
    s.take(spec_first_slash(s))
}

/// The `total` half of a `current/total` reading: everything between the
/// first `/` and the next one (empty if there is no `/`).
pub open spec fn spec_part_after_slash(s: Seq<u8>) -> Seq<u8> {
    if spec_first_slash(s) == s.len() {
        Seq::<u8>::empty()
    } else {
        let rest = s.skip(spec_first_slash(s) + 1);
        rest.take(spec_first_slash(rest))
    }
}

/// The alert for one frame, from the population region's `current/total`
/// reading, the idle region's count, and the icon decision: no usable total
/// shows nothing; a population within two of its limit asks for housing;
/// otherwise an idle worker is flagged, then a missing villager icon.
pub open spec fn spec_overlay_alert(pop: Seq<u8>, idle: Seq<u8>, has_villager: bool) -> OverlayAlert {
    let current = spec_parse_or_zero(spec_part_before_slash(pop));
    let total = spec_parse_or_zero(spec_part_after_slash(pop));
    if total <= 0 {
        OverlayAlert::Quiet
    } else if current + 2 >= total {
        OverlayAlert::HousingNeeded
    } else if spec_parse_or_zero(idle) > 0 {
        OverlayAlert::IdleWorkers
    } else if !has_villager {
        OverlayAlert::NoVillagerQueued
    } else {
        OverlayAlert::Quiet
    }
}

proof fn lemma_digits_value_nonneg(s: Seq<u8>)
    requires
        forall|i: int| 0 <= i < s.len() ==> 48 <= #[trigger] s[i] <= 57,
    ensures
        spec_digits_value(s) >= 0,
    decreases s.len(),
{
    if s.len() != 0 {
        lemma_digits_value_nonneg(s.drop_last());
    }
}

proof fn lemma_digits_value_monotone(s: Seq<u8>, i: int)
    requires
        forall|k: int| 0 <= k < s.len() ==> 48 <= #[trigger] s[k] <= 57,
        0 <= i <= s.len(),
    ensures
        spec_digits_value(s) >= spec_digits_value(s.take(i)),
    decreases s.len() - i,
{
    if i < s.len() {
        lemma_digits_value_monotone(s, i + 1);
        assert(s.take(i + 1).drop_last() =~= s.take(i));
        assert(s.take(i + 1).last() == s[i]);
        lemma_digits_value_nonneg(s.take(i));
        assert(spec_digits_value(s.take(i + 1)) == spec_digits_value(s.take(i)) * 10 + (s[i]
            - 48));
        assert(spec_digits_value(s.take(i)) * 10 >= spec_digits_value(s.take(i))) by (
        nonlinear_arith)
            requires spec_digits_value(s.take(i)) >= 0;
    } else {
        assert(s.take(i) =~= s);
    }
}

/// Reads a region string as a count: its decimal value if it is a plain
/// numeral fitting an `i32`, else zero.
pub fn parse_or_zero(s: &Vec<u8>) -> (r: i32)
    ensures
        r == spec_parse_or_zero(s@),
{
    if s.len() == 0 {
        return 0;
    }
    let mut acc: u64 = 0;
    let mut i: usize = 0;
    while i < s.len()
        invariant
            0 < s@.len(),
            0 <= i <= s@.len(),
            forall|k: int| 0 <= k < i ==> 48 <= #[trigger] s@[k] <= 57,
            acc == spec_digits_value(s@.take(i as int)),
            acc <= 0x7FFF_FFFF,
        decreases s@.len() - i,
    {
        let b = s[i];
        if b < 48 || b > 57 {
            return 0;
        }
        proof {
            assert(s@.take(i as int + 1).drop_last() =~= s@.take(i as int));
            assert(s@.take(i as int + 1).last() == s@[i as int]);
        }
        acc = acc * 10 + (b - 48) as u64;
        i = i + 1;
        if acc > 0x7FFF_FFFF {
            proof {
                assert(s@.take(i as int) =~= s@.take(i as int));
                if spec_is_digits(s@) {
                    lemma_digits_value_monotone(s@, i as int);
                }
            }
            return 0;
        }
    }
    proof {
        assert(s@.take(s@.len() as int) =~= s@);
    }
    acc as i32
}

proof fn lemma_first_slash_at(s: Seq<u8>, i: int)
    requires
        0 <= i <= s.len(),
        forall|k: int| 0 <= k < i ==> #[trigger] s[k] != SLASH_BYTE,
        i < s.len() ==> s[i] == SLASH_BYTE,
    ensures
        spec_first_slash(s) == i,
    decreases s.len(),
{
    if s.len() != 0 && s[0] != SLASH_BYTE {
        assert(i >= 1);
        let rest = s.drop_first();
        assert forall|k: int| 0 <= k < i - 1 implies #[trigger] rest[k] != SLASH_BYTE by {
            assert(rest[k] == s[k + 1]);
        }
        lemma_first_slash_at(rest, i - 1);
    }
}

fn find_slash_from(s: &Vec<u8>, start: usize) -> (r: usize)
    requires
        start <= s@.len(),
    ensures
        start <= r <= s@.len(),
        forall|k: int| start <= k < r ==> #[trigger] s@[k] != SLASH_BYTE,
        r < s@.len() ==> s@[r as int] == SLASH_BYTE,
{
    let mut i = start;
    while i < s.len()
        invariant
            start <= i <= s@.len(),
            forall|k: int| start <= k < i ==> #[trigger] s@[k] != SLASH_BYTE,
        decreases s@.len() - i,
    {
        if s[i] == SLASH_BYTE {
            return i;
        }
        i = i + 1;
    }
    i
}

fn copy_range(s: &Vec<u8>, from: usize, to: usize) -> (r: Vec<u8>)
    requires
        from <= to <= s@.len(),
    ensures
        r@ == s@.subrange(from as int, to as int),
{
    let mut r: Vec<u8> = Vec::new();
    let mut i = from;
    while i < to
        invariant
            from <= i <= to,
            to <= s@.len(),
            r@ == s@.subrange(from as int, i as int),
        decreases to - i,
    {
        r.push(s[i]);
        proof {
            assert(r@ =~= s@.subrange(from as int, i as int + 1));
        }
        i = i + 1;
    }
    r
}

/// Splits a `current/total` reading at its first `/`: the part before it and
/// the part between it and the next `/` (empty when there is no `/`).
pub fn split_population_reading(s: &Vec<u8>) -> (r: (Vec<u8>, Vec<u8>))
    ensures
        r.0@ == spec_part_before_slash(s@),
        r.1@ == spec_part_after_slash(s@),
{
    let first = find_slash_from(s, 0);
    proof {
        lemma_first_slash_at(s@, first as int);
    }
    let before = copy_range(s, 0, first);
    proof {
        assert(s@.subrange(0, first as int) =~= s@.take(first as int));
    }
    if first == s.len() {
        let after: Vec<u8> = Vec::new();
        proof {
            assert(after@ =~= spec_part_after_slash(s@));
        }
        (before, after)
    } else {
        let second = find_slash_from(s, first + 1);
        let ghost rest = s@.skip(first as int + 1);
        proof {
            assert forall|k: int| 0 <= k < second - first - 1 implies #[trigger] rest[k]
                != SLASH_BYTE by {
                assert(rest[k] == s@[k + first + 1]);
            }
            if second < s@.len() {
                assert(rest[second - first - 1] == s@[second as int]);
            }
            lemma_first_slash_at(rest, second - first - 1 as int);
        }
        let after = copy_range(s, first + 1, second);
        proof {
            assert(after@ =~= rest.take(spec_first_slash(rest)));
        }
        (before, after)
    }
}

/// The label text of each alert, as bytes; the quiet alert clears the label.
pub open spec fn spec_alert_label(alert: OverlayAlert) -> Seq<u8> {
    match alert {
        OverlayAlert::Quiet => Seq::<u8>::empty(),
        OverlayAlert::HousingNeeded => seq![72u8, 97u8, 117u8, 115u8, 33u8],
        OverlayAlert::IdleWorkers => seq![73u8, 100u8, 108u8, 101u8, 33u8],
        OverlayAlert::NoVillagerQueued => seq![
            86u8,
            105u8,
            108u8,
            108u8,
            97u8,
            103u8,
            101u8,
            114u8,
            33u8,
        ],
    }
}

impl OverlayAlert {
    /// The label the overlay shows for this alert; the quiet alert clears
    /// the label.
    pub fn label_bytes(&self) -> (r: Vec<u8>)
        ensures
            r@ == spec_alert_label(*self),
            *self is Quiet <==> r@.len() == 0,
    {
        match self {
            OverlayAlert::Quiet => {
                let v: Vec<u8> = Vec::new();
                proof {
                    assert(v@ =~= spec_alert_label(*self));
                }
                v
            },
            OverlayAlert::HousingNeeded => {
                let mut v: Vec<u8> = Vec::new();
                v.push(72);  // H
                v.push(97);  // a
                v.push(117);  // u
                v.push(115);  // s
                v.push(33);  // !
                proof {
                    assert(v@ =~= spec_alert_label(*self));
                }
                v
            },
            OverlayAlert::IdleWorkers => {
                let mut v: Vec<u8> = Vec::new();
                v.push(73);  // I
                v.push(100);  // d
                v.push(108);  // l
                v.push(101);  // e
                v.push(33);  // !
                proof {
                    assert(v@ =~= spec_alert_label(*self));
                }
                v
            },
            OverlayAlert::NoVillagerQueued => {
                let mut v: Vec<u8> = Vec::new();
                v.push(86);  // V
                v.push(105);  // i
                v.push(108);  // l
                v.push(108);  // l
                v.push(97);  // a
                v.push(103);  // g
                v.push(101);  // e
                v.push(114);  // r
                v.push(33);  // !
                proof {
                    assert(v@ =~= spec_alert_label(*self));
                }
                v
            },
        }
    }
}

/// Chooses the overlay alert for one frame's analysis.
pub fn overlay_alert(analysis: &AnalysisResult) -> (r: OverlayAlert)
    requires
        analysis.detected_texts@.len() == NUM_STAT_REGIONS,
    ensures
        r == spec_overlay_alert(
            analysis.detected_texts@[INDEX_POP as int]@,
            analysis.detected_texts@[INDEX_IDLE as int]@,
            analysis.has_villager_icon,
        ),
{
    let pop = analysis.detected_texts[INDEX_POP].bytes();
    let idle = analysis.detected_texts[INDEX_IDLE].bytes();
    let (before, after) = split_population_reading(&pop);
    let current = parse_or_zero(&before);
    let total = parse_or_zero(&after);
    if total <= 0 {
        OverlayAlert::Quiet
    } else if current as i64 + 2 >= total as i64 {
        OverlayAlert::HousingNeeded
    } else if parse_or_zero(&idle) > 0 {
        OverlayAlert::IdleWorkers
    } else if !analysis.has_villager_icon {
        OverlayAlert::NoVillagerQueued
    } else {
        OverlayAlert::Quiet
    }
}

} // verus!
