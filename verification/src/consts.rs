//! Static configuration: the named stat regions and the fixed geometry of the
//! capture area, all anchored relative to the bottom of the source frame.

use vstd::prelude::*;

verus! {

/// Width of one stat region rectangle, in pixels.
pub const STAT_RECT_WIDTH: u32 = 80;
/// Height of one stat region rectangle, in pixels.
pub const STAT_RECT_HEIGHT: u32 = 34;
/// Width of the icon search area, in pixels.
pub const VILLAGER_ICON_AREA_WIDTH: u32 = 250;
/// Height of the icon search area, in pixels.
pub const VILLAGER_ICON_AREA_HEIGHT: u32 = 80;
/// Vertical offset of the working area, measured up from the frame bottom.
pub const AREA_Y_OFFSET: i32 = -486;
/// Height of the working area cropped from the bottom of the source frame.
pub const AREA_HEIGHT: i32 = 486;
/// Width of the working area cropped from the bottom of the source frame.
pub const AREA_WIDTH: i32 = 267;

/// Classification tag of a stat region.
#[derive(Debug, Default, PartialEq, Eq, Structural, Clone, Copy)]
pub enum TextType {
    /// A region with no special downstream meaning.
    #[default]
    Unassigned,
    /// The idle-villager count region.
    Idle,
    /// The population-ratio region.
    Population,
}

/// One named stat region: an offset from the bottom-anchored working area and
/// a classification tag.  `y` is negative: it counts up from the frame bottom.
#[derive(Debug, Clone, Copy)]
pub struct Aoe4StatPos {
    /// Horizontal offset of the region within the frame.
    pub x: i32,
    /// Vertical offset of the region, relative to the frame bottom (negative).
    pub y: i32,
    /// Classification tag.
    pub text_type: TextType,
}

/// Number of stat regions in the reference configuration.
pub const NUM_STAT_REGIONS: usize = 10;

/// Index of the idle-villager region in the table.
pub const INDEX_IDLE: usize = 5;
/// Index of the population region in the table.
pub const INDEX_POP: usize = 0;

/// The region table as a mathematical sequence.
pub open spec fn spec_stat_positions() -> Seq<Aoe4StatPos> {
    seq![
        Aoe4StatPos { x: 50i32, y: -296i32, text_type: TextType::Population },
        Aoe4StatPos { x: 50i32, y: -221i32, text_type: TextType::Unassigned },
        Aoe4StatPos { x: 50i32, y: -168i32, text_type: TextType::Unassigned },
        Aoe4StatPos { x: 50i32, y: -117i32, text_type: TextType::Unassigned },
        Aoe4StatPos { x: 50i32, y: -65i32, text_type: TextType::Unassigned },
        Aoe4StatPos { x: 187i32, y: -296i32, text_type: TextType::Idle },
        Aoe4StatPos { x: 187i32, y: -224i32, text_type: TextType::Unassigned },
        Aoe4StatPos { x: 187i32, y: -171i32, text_type: TextType::Unassigned },
        Aoe4StatPos { x: 187i32, y: -120i32, text_type: TextType::Unassigned },
        Aoe4StatPos { x: 187i32, y: -67i32, text_type: TextType::Unassigned },
    ]
}

/// Builds the region table.  Exactly `NUM_STAT_REGIONS` entries, in reading
/// order: the left column top to bottom, then the right column.
pub fn stat_positions() -> (r: Vec<Aoe4StatPos>)
    ensures
        r@ == spec_stat_positions(),
        r@.len() == NUM_STAT_REGIONS,
{
    let mut v: Vec<Aoe4StatPos> = Vec::new();
    v.push(Aoe4StatPos { x: 50, y: -296, text_type: TextType::Population });
    v.push(Aoe4StatPos { x: 50, y: -221, text_type: TextType::Unassigned });
    v.push(Aoe4StatPos { x: 50, y: -168, text_type: TextType::Unassigned });
    v.push(Aoe4StatPos { x: 50, y: -117, text_type: TextType::Unassigned });
    v.push(Aoe4StatPos { x: 50, y: -65, text_type: TextType::Unassigned });
    v.push(Aoe4StatPos { x: 187, y: -296, text_type: TextType::Idle });
    v.push(Aoe4StatPos { x: 187, y: -224, text_type: TextType::Unassigned });
    v.push(Aoe4StatPos { x: 187, y: -171, text_type: TextType::Unassigned });
    v.push(Aoe4StatPos { x: 187, y: -120, text_type: TextType::Unassigned });
    v.push(Aoe4StatPos { x: 187, y: -67, text_type: TextType::Unassigned });
    proof {
        assert(v@ =~= spec_stat_positions());
    }
    v
}

} // verus!
