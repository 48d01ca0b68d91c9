use vstd::prelude::*;
use vstd::arithmetic::div_mod::{lemma_fundamental_div_mod, lemma_multiply_divide_le,
    lemma_multiply_divide_lt};
use vstd::arithmetic::mul::{lemma_mul_inequality, lemma_mul_is_commutative,
    lemma_mul_is_distributive_add_other_way};

verus! {

/// Static configuration for one MIDI continuous-controller emitter:
/// output device, channel, controller number, the value a fresh slider
/// starts at, and the colour the slider is drawn with (byte components).
#[derive(Copy, Clone, Debug)]
pub struct Control {
    pub device_id: i32,
    pub channel: u8,
    pub cc: u8,
    pub default_value: u8,
    pub color: [u8; 3],
}

impl Control {
    /// A control is well formed when its starting value is a legal
    /// continuous-controller value.
    pub open spec fn wf(self) -> bool {
        self.default_value <= 127
    }
}

/// One rectangular slider region of the display, bound to a control and
/// carrying the live slider value.  Corners are inclusive pixel
/// coordinates, `[x, y]`.
#[derive(Copy, Clone, Debug)]
pub struct Area {
    pub upper_left: [u32; 2],
    pub lower_right: [u32; 2],
    pub control: Control,
    pub value: u8,
}

/// The slider value a touch at local vertical offset `local_y` selects
/// inside an area of height `area_height`: the top row maps to 127, and
/// the value falls linearly towards the bottom row.
pub open spec fn spec_touch_value(local_y: int, area_height: int) -> int {
    127 - (127 * local_y) / area_height
}

impl Area {
    /// The construction invariant: the corners are ordered on both axes,
    /// the inclusive extent fits in `u32`, and the value is a legal
    /// continuous-controller value.
    pub open spec fn wf(self) -> bool {
        &&& self.upper_left[0] <= self.lower_right[0]
        &&& self.upper_left[1] <= self.lower_right[1]
        &&& self.lower_right[0] - self.upper_left[0] + 1 <= u32::MAX
        &&& self.lower_right[1] - self.upper_left[1] + 1 <= u32::MAX
        &&& self.value <= 127
    }

    /// Width of the inclusive rectangle, in pixels.
    pub open spec fn spec_width(self) -> int {
        self.lower_right[0] - self.upper_left[0] + 1
    }

    /// Height of the inclusive rectangle, in pixels.
    pub open spec fn spec_height(self) -> int {
        self.lower_right[1] - self.upper_left[1] + 1
    }

    /// Whether the point `(x, y)` lies within the inclusive rectangle on
    /// both axes.
    pub open spec fn spec_contains_xy(self, x: int, y: int) -> bool {
        &&& self.upper_left[0] <= x <= self.lower_right[0]
        &&& self.upper_left[1] <= y <= self.lower_right[1]
    }

    /// Whether `point` lies within the inclusive rectangle on both axes.
    pub open spec fn spec_contains(self, point: [u32; 2]) -> bool {
        self.spec_contains_xy(point[0] as int, point[1] as int)
    }

    /// `[width, height]` of the area.  Always positive given `wf`.
    pub fn dimensions(&self) -> (d: [u32; 2])
        requires
            self.wf(),
        ensures
            d[0] == self.spec_width(),
            d[1] == self.spec_height(),
            d[0] >= 1,
            d[1] >= 1,
    {
        [
            self.lower_right[0] - self.upper_left[0] + 1,
            self.lower_right[1] - self.upper_left[1] + 1,
        ]
    }

    /// Pure containment test: `Some(point - upper_left)` when `point`
    /// lies within the inclusive rectangle `[upper_left, lower_right]`
    /// on both axes, `None` otherwise.
    pub fn point_inside(&self, point: [u32; 2]) -> (r: Option<[u32; 2]>)
        ensures
            r is Some <==> self.spec_contains(point),
            r matches Some(local) ==> {
                &&& local[0] == point[0] - self.upper_left[0]
                &&& local[1] == point[1] - self.upper_left[1]
            },
    {
        let is_inside = self.upper_left[0] <= point[0] && point[0] <= self.lower_right[0]
            && self.upper_left[1] <= point[1] && point[1] <= self.lower_right[1];

        if is_inside {
            Some([point[0] - self.upper_left[0], point[1] - self.upper_left[1]])
        } else {
            None
        }
    }

    /// The vertical split of the slider rectangle as it is drawn: the
    /// topmost row of the filled (foreground) part, and the bottom row
    /// of the empty (background) part just above it.  When the fill
    /// reaches the top of the display, both parts meet at row 0.
    pub fn fill_rows(&self) -> (r: (u32, u32))
        requires
            self.wf(),
        ensures
            r.0 == self.lower_right[1] - (self.value * (self.lower_right[1]
                - self.upper_left[1])) / 127,
            r.1 == if r.0 > 0 { r.0 - 1 } else { r.0 as int },
            self.upper_left[1] <= r.0 <= self.lower_right[1],
    {
        let h = self.lower_right[1] - self.upper_left[1];
        proof {
            assert(self.value * h <= 127 * h) by {
                lemma_mul_inequality(self.value as int, 127, h as int);
            }
            lemma_multiply_divide_le(self.value * h, 127, h as int);
            assert(self.value as u64 * h as u64 <= 127 * 0xFFFF_FFFF) by {
                vstd::arithmetic::mul::lemma_mul_upper_bound(self.value as int, 127, h as int,
                    0xFFFF_FFFF);
            }
        }
        let fill = ((self.value as u64 * h as u64) / 127) as u32;
        let y_t = self.lower_right[1] - fill;
        let y_b = if y_t > 0 { y_t - 1 } else { y_t };
        (y_t, y_b)
    }
}

/// Maps a touch's local vertical offset to a slider value: 0 at the top
/// of the area maps to 127, and the bottom row maps to the smallest
/// reachable value, never below 0.
pub fn touch_value(local_y: u32, area_height: u32) -> (v: u8)
    requires
        area_height >= 1,
        local_y < area_height,
    ensures
        v == spec_touch_value(local_y as int, area_height as int),
        v <= 127,
{
    let q = (127u64 * local_y as u64) / area_height as u64;
    proof {
        assert(127 * local_y < area_height * 127) by {
            lemma_mul_inequality(local_y as int + 1, area_height as int, 127);
        }
        lemma_multiply_divide_lt(127 * local_y, area_height as int, 127);
        assert(q == (127 * local_y) / area_height as int);
    }
    (127 - q as u32) as u8
}

/// Law: a touch on an area's top row selects the full value 127, and a
/// touch on its bottom row selects `127 - (127 * (h - 1)) / h`, which is
/// never negative, for every positive area height `h`.
pub proof fn lemma_value_boundaries(h: int)
    requires
        h >= 1,
    ensures
        spec_touch_value(0, h) == 127,
        spec_touch_value(h - 1, h) == 127 - (127 * (h - 1)) / h,
        spec_touch_value(h - 1, h) >= 0,
{
    vstd::arithmetic::div_mod::lemma_div_of0(h);
    lemma_multiply_divide_le(127 * (h - 1), h, 127);
    assert(127 * (h - 1) <= h * 127) by {
        lemma_mul_inequality(h - 1, h, 127);
    }
}

/// Law: containment is reflexive at an area's corners.  The upper-left
/// corner lies inside with local offset `[0, 0]`, and the lower-right
/// corner lies inside with local offset `dimensions - [1, 1]`.
pub proof fn lemma_corners_inside(a: Area)
    requires
        a.wf(),
    ensures
        a.spec_contains_xy(a.upper_left[0] as int, a.upper_left[1] as int),
        a.spec_contains_xy(a.lower_right[0] as int, a.lower_right[1] as int),
        a.lower_right[0] - a.upper_left[0] == a.spec_width() - 1,
        a.lower_right[1] - a.upper_left[1] == a.spec_height() - 1,
{
}

/// The layout policy: given `n` controls and a display `width`, area `i`
/// spans columns `i * (width / n)` through `(i + 1) * (width / n)`
/// inclusive and the full display height.  Adjacent areas share their
/// boundary column, and the `width % n` leftover pixels on the right are
/// not assigned to any area.
pub open spec fn spec_layout(areas: Seq<Area>, controls: Seq<Control>, width: int,
    height: int) -> bool {
    &&& areas.len() == controls.len()
    &&& forall|i: int| 0 <= i < areas.len() ==> {
        let wd = width / (controls.len() as int);
        &&& (#[trigger] areas[i]).upper_left[0] == i * wd
        &&& areas[i].upper_left[1] == 0
        &&& areas[i].lower_right[0] == (i + 1) * wd
        &&& areas[i].lower_right[1] == height - 1
        &&& areas[i].control == controls[i]
        &&& areas[i].value == controls[i].default_value
    }
}

/// Builds the slider areas for an ordered list of controls on a display
/// of `width` by `height` pixels, one area per control, left to right,
/// each starting at its control's default value.
pub fn layout_areas(controls: &Vec<Control>, width: u32, height: u32) -> (areas: Vec<Area>)
    requires
        controls@.len() >= 1,
        controls@.len() <= u32::MAX,
        forall|i: int| 0 <= i < controls@.len() ==> (#[trigger] controls@[i]).wf(),
        width < u32::MAX,
        height >= 1,
    ensures
        spec_layout(areas@, controls@, width as int, height as int),
        forall|i: int| 0 <= i < areas@.len() ==> (#[trigger] areas@[i]).wf(),
{
    let n: u32 = controls.len() as u32;
    let width_div: u32 = width / n;
    proof {
        lemma_fundamental_div_mod(width as int, n as int);
        assert(n * width_div <= width) by {
            assert(width as int % (n as int) >= 0);
        }
    }
    let mut areas: Vec<Area> = Vec::new();
    let mut x_offset: u32 = 0;
    let mut idx: usize = 0;
    while idx < controls.len()
        invariant
            idx <= controls@.len(),
            controls@.len() >= 1,
            controls@.len() <= u32::MAX,
            n == controls@.len(),
            width_div == width as int / (controls@.len() as int),
            n * width_div <= width,
            width < u32::MAX,
            height >= 1,
            forall|i: int| 0 <= i < controls@.len() ==> (#[trigger] controls@[i]).wf(),
            areas@.len() == idx,
            x_offset == idx * width_div,
            forall|i: int| 0 <= i < idx as int ==> {
                let wd = width as int / (controls@.len() as int);
                &&& (#[trigger] areas@[i]).upper_left[0] == i * wd
                &&& areas@[i].upper_left[1] == 0
                &&& areas@[i].lower_right[0] == (i + 1) * wd
                &&& areas@[i].lower_right[1] == height - 1
                &&& areas@[i].control == controls@[i]
                &&& areas@[i].value == controls@[i].default_value
                &&& areas@[i].wf()
            },
        decreases controls@.len() - idx,
    {
        proof {
            assert((idx + 1) * width_div <= n * width_div) by {
                lemma_mul_inequality(idx as int + 1, n as int, width_div as int);
            }
            assert((idx + 1) * width_div == idx * width_div + width_div) by {
                lemma_mul_is_distributive_add_other_way(width_div as int, idx as int, 1);
            }
        }
        let control = controls[idx];
        areas.push(Area {
            upper_left: [x_offset, 0],
            lower_right: [x_offset + width_div, height - 1],
            control: control,
            value: control.default_value,
        });
        x_offset = x_offset + width_div;
        idx = idx + 1;
    }
    areas
}

/// Sum of the horizontal extents `lower_right.x - upper_left.x` over a
/// list of areas: the display width the areas jointly span, counting a
/// column shared by two neighbours once.
pub open spec fn sum_extents(areas: Seq<Area>) -> int
    decreases areas.len(),
{
    if areas.len() == 0 {
        0
    } else {
        sum_extents(areas.drop_last()) + (areas.last().lower_right[0]
            - areas.last().upper_left[0])
    }
}

proof fn lemma_sum_extents_layout(areas: Seq<Area>, controls: Seq<Control>, width: int,
    height: int, m: int)
    requires
        spec_layout(areas, controls, width, height),
        controls.len() >= 1,
        0 <= m <= areas.len(),
    ensures
        sum_extents(areas.take(m)) == m * (width / (controls.len() as int)),
    decreases m,
{
    let wd = width / (controls.len() as int);
    if m == 0 {
        assert(areas.take(0).len() == 0);
    } else {
        lemma_sum_extents_layout(areas, controls, width, height, m - 1);
        assert(areas.take(m).drop_last() =~= areas.take(m - 1));
        assert(areas.take(m).last() == areas[m - 1]);
        assert(areas[m - 1].lower_right[0] - areas[m - 1].upper_left[0] == wd) by {
            assert(areas[m - 1].upper_left[0] == (m - 1) * wd);
            assert(areas[m - 1].lower_right[0] == m * wd);
            lemma_mul_is_distributive_add_other_way(wd, m - 1, 1);
        }
        assert(m * wd == (m - 1) * wd + wd) by {
            lemma_mul_is_distributive_add_other_way(wd, m - 1, 1);
        }
    }
}

/// Law: a generated layout's areas have non-decreasing left edges, their
/// interiors do not overlap (each area ends no later than the next one
/// begins), and together their extents cover at least
/// `width - width % n` pixels of the display width.
pub proof fn lemma_layout_properties(areas: Seq<Area>, controls: Seq<Control>, width: int,
    height: int)
    requires
        spec_layout(areas, controls, width, height),
        controls.len() >= 1,
        width >= 0,
    ensures
        forall|i: int, j: int| 0 <= i <= j < areas.len()
            ==> (#[trigger] areas[i]).upper_left[0] <= (#[trigger] areas[j]).upper_left[0],
        forall|i: int, j: int| 0 <= i < j < areas.len()
            ==> (#[trigger] areas[i]).lower_right[0] <= (#[trigger] areas[j]).upper_left[0],
        sum_extents(areas) >= width - width % (areas.len() as int),
{
    let n = controls.len() as int;
    let wd = width / n;
    assert(wd >= 0) by {
        vstd::arithmetic::div_mod::lemma_div_pos_is_pos(width, n);
    }
    assert forall|i: int, j: int| 0 <= i <= j < areas.len()
        implies (#[trigger] areas[i]).upper_left[0] <= (#[trigger] areas[j]).upper_left[0] by {
        lemma_mul_inequality(i, j, wd);
    }
    assert forall|i: int, j: int| 0 <= i < j < areas.len()
        implies (#[trigger] areas[i]).lower_right[0] <= (#[trigger] areas[j]).upper_left[0] by {
        lemma_mul_inequality(i + 1, j, wd);
    }
    lemma_sum_extents_layout(areas, controls, width, height, areas.len() as int);
    assert(areas.take(areas.len() as int) =~= areas);
    lemma_fundamental_div_mod(width, n);
    assert(areas.len() as int * wd == n * wd) by {
        lemma_mul_is_commutative(areas.len() as int, wd);
        lemma_mul_is_commutative(n, wd);
    }
}

} // verus!
