//! Mouse hit-testing: which part of the user interface lies under a point.
use vstd::prelude::*;

use crate::console::graphics::Region;

verus! {

#[derive(Clone, Copy, PartialEq, Eq, Structural, Debug)]
pub enum ScrollDirection {
    Up,
    Down,
    Left,
    Right,
}

#[derive(Clone, Copy, PartialEq, Eq, Structural, Debug)]
pub enum HitTarget {
    /// A desktop tab of the top bar, numbered from 1.
    DesktopTab(u8),
    /// The content area of a window.
    WindowContent(u8),
    /// The title bar of a window.
    WindowTitleBar(u8),
    /// A title bar button: window, button.
    WindowButton(u8, u8),
    /// A scroll arrow: window, direction.
    ScrollArrow(u8, ScrollDirection),
}

#[derive(Clone, Copy, PartialEq, Eq, Structural, Debug)]
pub struct HitZone {
    pub region: Region,
    pub target: HitTarget,
}

pub struct HitMap {
    pub zones: Vec<HitZone>,
}

/// The target of the last zone that holds the point.
pub open spec fn hit_at(zones: Seq<HitZone>, x: int, y: int) -> Option<HitTarget>
    decreases zones.len(),
{
    if zones.len() == 0 {
        None
    } else if zones.last().region.holds(x, y) {
        Some(zones.last().target)
    } else {
        hit_at(zones.drop_last(), x, y)
    }
}

impl View for HitMap {
    type V = Seq<HitZone>;

    open spec fn view(&self) -> Seq<HitZone> {
        self.zones@
    }
}

impl HitMap {
    pub open spec fn wf(&self) -> bool {
        forall|i: int| 0 <= i < self@.len() ==> (#[trigger] self@[i]).region.wf()
    }

    pub fn new() -> (r: Self)
        ensures
            r@ == Seq::<HitZone>::empty(),
    {
        Self { zones: Vec::new() }
    }

    /// Drop all zones, as at the start of each frame.
    pub fn clear(&mut self)
        ensures
            final(self)@ == Seq::<HitZone>::empty(),
    {
        self.zones.clear();
    }

    /// Register a clickable zone above all the others.
    pub fn add(&mut self, region: Region, target: HitTarget)
        ensures
            final(self)@ == old(self)@.push(HitZone { region, target }),
    {
        self.zones.push(HitZone { region, target });
    }

    /// What lies under the point.
    pub fn test(&self, x: u16, y: u16) -> (r: Option<HitTarget>)
        requires
            self.wf(),
        ensures
            r == hit_at(self@, x as int, y as int),
    {
        let mut i: usize = self.zones.len();
        assert(self@.subrange(0, i as int) =~= self@);
        while i > 0
            invariant
                i <= self@.len(),
                self.wf(),
                hit_at(self@, x as int, y as int)
                    == hit_at(self@.subrange(0, i as int), x as int, y as int),
            decreases i,
        {
            i -= 1;
            let zone: &HitZone = &self.zones[i];
            let r: &Region = &zone.region;
            proof {
                let s = self@.subrange(0, i + 1);
                assert(s.last() == self@[i as int]);
                assert(s.drop_last() =~= self@.subrange(0, i as int));
                assert(self@[i as int].region.wf());
            }
            if x >= r.x && x < r.x + r.width && y >= r.y && y < r.y + r.height {
                return Some(zone.target);
            }
        }
        None
    }
}

/// Where zones overlap, the one added last wins.
pub proof fn newest_zone_wins(zones: Seq<HitZone>, zone: HitZone, x: int, y: int)
    ensures
        zone.region.holds(x, y) ==> hit_at(zones.push(zone), x, y) == Some(zone.target),
        !zone.region.holds(x, y) ==> hit_at(zones.push(zone), x, y) == hit_at(zones, x, y),
{
    assert(zones.push(zone).drop_last() =~= zones);
}

/// A point is a hit exactly where some zone holds it.
pub proof fn hit_iff_some_zone_holds(zones: Seq<HitZone>, x: int, y: int)
    ensures
        hit_at(zones, x, y).is_some() <==> exists|i: int|
            0 <= i < zones.len() && (#[trigger] zones[i]).region.holds(x, y),
    decreases zones.len(),
{
    if zones.len() > 0 {
        hit_iff_some_zone_holds(zones.drop_last(), x, y);
        let rest = zones.drop_last();
        if zones.last().region.holds(x, y) {
            assert(zones[zones.len() - 1].region.holds(x, y));
        } else {
            if hit_at(rest, x, y).is_some() {
                let i = choose|i: int|
                    0 <= i < rest.len() && (#[trigger] rest[i]).region.holds(x, y);
                assert(zones[i].region.holds(x, y));
            }
            if exists|i: int| 0 <= i < zones.len() && (#[trigger] zones[i]).region.holds(x, y) {
                let i = choose|i: int|
                    0 <= i < zones.len() && (#[trigger] zones[i]).region.holds(x, y);
                assert(rest[i].region.holds(x, y));
            }
        }
    }
}

} // verus!
