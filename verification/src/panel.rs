use vstd::prelude::*;

use crate::area::{Area, Control, layout_areas, spec_layout, spec_touch_value, touch_value};
use crate::touch::{Touch, TouchKind, spec_touch_fields};

verus! {

/// Whether area `i` is the one a touch at `(x, y)` lands in: it
/// contains the point, and no earlier area in the list does.  A point
/// on the column two neighbouring areas share is attributed to the
/// earlier one.
pub open spec fn is_first_hit(areas: Seq<Area>, x: int, y: int, i: int) -> bool {
    &&& 0 <= i < areas.len()
    &&& areas[i].spec_contains_xy(x, y)
    &&& forall|k: int| 0 <= k < i ==> !(#[trigger] areas[k]).spec_contains_xy(x, y)
}

/// How one area changes when a touch at vertical position `y` lands in
/// it: the rectangle and control stay, and the value is recomputed from
/// the touch's local vertical offset.
pub open spec fn area_updated(pre: Area, post: Area, y: int) -> bool {
    &&& post.upper_left == pre.upper_left
    &&& post.lower_right == pre.lower_right
    &&& post.control == pre.control
    &&& post.value == spec_touch_value(y - pre.upper_left[1], pre.spec_height())
}

/// How the whole area list changes when a Press or Move at `(x, y)` is
/// dispatched: the area the touch lands in (if any) takes its new
/// value, and every other area is untouched.
pub open spec fn spec_dispatch(pre: Seq<Area>, post: Seq<Area>, x: int, y: int) -> bool {
    &&& post.len() == pre.len()
    &&& forall|i: int| #![trigger post[i]] 0 <= i < pre.len() ==> {
        if is_first_hit(pre, x, y, i) {
            area_updated(pre[i], post[i], y)
        } else {
            post[i] == pre[i]
        }
    }
}

/// The control panel: the ordered list of slider areas, left to right.
pub struct Midibato {
    pub areas: Vec<Area>,
}

impl Midibato {
    /// Every area of the panel is well formed.
    pub open spec fn wf(self) -> bool {
        forall|i: int| 0 <= i < self.areas@.len() ==> (#[trigger] self.areas@[i]).wf()
    }

    /// Builds the panel for an ordered list of controls on a display of
    /// `width` by `height` pixels, one slider area per control.
    pub fn new(controls: &Vec<Control>, width: u32, height: u32) -> (panel: Midibato)
        requires
            controls@.len() >= 1,
            controls@.len() <= u32::MAX,
            forall|i: int| 0 <= i < controls@.len() ==> (#[trigger] controls@[i]).wf(),
            width < u32::MAX,
            height >= 1,
        ensures
            panel.wf(),
            spec_layout(panel.areas@, controls@, width as int, height as int),
    {
        Midibato { areas: layout_areas(controls, width, height) }
    }

    /// Routes one decoded touch event.  A Press or Move recomputes the
    /// value of the area the touch lands in (if any) and asks for a
    /// redraw; a Release changes nothing.
    pub fn handle_touch(&mut self, touch: Touch) -> (redraw: bool)
        requires
            old(self).wf(),
        ensures
            final(self).wf(),
            redraw == (touch.kind != TouchKind::Release),
            touch.kind == TouchKind::Release ==> *final(self) == *old(self),
            touch.kind != TouchKind::Release ==> spec_dispatch(old(self).areas@,
                final(self).areas@, touch.position[0] as int, touch.position[1] as int),
    {
        if touch.kind == TouchKind::Release {
            return false;
        }
        let ghost x = touch.position[0] as int;
        let ghost y = touch.position[1] as int;
        let n = self.areas.len();
        let mut j: usize = 0;
        let mut target: usize = n;
        while j < n
            invariant_except_break
                target == n,
            invariant
                j <= n,
                n == self.areas@.len(),
                self.areas@ == old(self).areas@,
                old(self).wf(),
                x == touch.position[0] as int,
                y == touch.position[1] as int,
                forall|k: int| 0 <= k < j ==> !(#[trigger] self.areas@[k]).spec_contains_xy(x,
                    y),
            ensures
                n == self.areas@.len(),
                self.areas@ == old(self).areas@,
                old(self).wf(),
                target <= n,
                target < n ==> is_first_hit(self.areas@, x, y, target as int),
                target == n ==> forall|k: int|
                    0 <= k < n ==> !(#[trigger] self.areas@[k]).spec_contains_xy(x, y),
            decreases n - j,
        {
            if self.areas[j].point_inside(touch.position).is_some() {
                target = j;
                break ;
            }
            j = j + 1;
        }
        if target < n {
            let area = self.areas[target];
            let local_y = touch.position[1] - area.upper_left[1];
            let h = area.dimensions()[1];
            let v = touch_value(local_y, h);
            let mut updated = area;
            updated.value = v;
            self.areas.set(target, updated);
            proof {
                assert forall|i: int| 0 <= i < old(self).areas@.len()
                    && i != target as int implies !is_first_hit(old(self).areas@, x, y, i) by {
                    if i > target as int {
                        assert(old(self).areas@[target as int].spec_contains_xy(x, y));
                    }
                }
            }
        } else {
            proof {
                assert forall|i: int| 0 <= i < old(self).areas@.len()
                    implies !is_first_hit(old(self).areas@, x, y, i) by {}
            }
        }
        true
    }

    /// Decodes one line of the touch protocol and routes the event.  A
    /// malformed line is silently discarded; a Release is recognized
    /// and discarded; a Press or Move updates the touched area and asks
    /// for a redraw.
    pub fn handle_line(&mut self, line: &str) -> (redraw: bool)
        requires
            old(self).wf(),
        ensures
            final(self).wf(),
            match spec_touch_fields(line@) {
                None => !redraw && *final(self) == *old(self),
                Some(f) => {
                    &&& redraw == (f.0 != TouchKind::Release)
                    &&& (f.0 == TouchKind::Release ==> *final(self) == *old(self))
                    &&& (f.0 != TouchKind::Release ==> spec_dispatch(old(self).areas@,
                        final(self).areas@, f.2 as int, f.3 as int))
                },
            },
    {
        match Touch::from_str(line) {
            Some(touch) => self.handle_touch(touch),
            None => false,
        }
    }
}

} // verus!
