//! A multi-slider touch control panel.
//!
//! A fixed display is divided into rectangular slider areas, one per
//! configured MIDI continuous controller.  Touch events arrive as text
//! lines, are parsed into structured events, and are mapped to the area
//! under the touch point, whose slider value (0..=127) is recomputed from
//! the vertical position of the touch.

mod area;
mod panel;
pub mod touch;

pub use area::Area;
pub use area::Control;
pub use area::layout_areas;
pub use area::lemma_corners_inside;
pub use area::lemma_layout_properties;
pub use area::lemma_value_boundaries;
pub use area::spec_layout;
pub use area::spec_touch_value;
pub use area::sum_extents;
pub use area::touch_value;
pub use panel::Midibato;
pub use panel::area_updated;
pub use panel::is_first_hit;
pub use panel::spec_dispatch;
