//! The colours of the layout's gizmos and the selection of a segment to highlight.

use crate::layout::components::Connection;
use vstd::prelude::*;

verus! {

/// The colours of a segment's gizmos, as sRGB bytes.
#[derive(Clone, Copy, Debug)]
pub struct GizmoColors {
    /// The colour of the segment.
    pub segment: [u8; 3],
    /// The colour of the point placed at the end of the segment.
    pub point: [u8; 3],
}

impl GizmoColors {
    pub fn srgb_u8(segment: [u8; 3], point: [u8; 3]) -> (r: Self)
        ensures
            r == (GizmoColors { segment, point }),
    {
        GizmoColors { segment, point }
    }

    /// The colours of a segment by its connection: yellow for a merge, white for a
    /// direct connection, grey for a diverge and red for an end point.
    pub fn get_colors(connection: &Connection) -> (r: GizmoColors)
        ensures
            r == spec_colors(*connection),
    {
        match connection {
            Connection::Merge { .. } => GizmoColors::srgb_u8([200, 200, 46], [149, 149, 34]),
            Connection::Direct { .. } => GizmoColors::srgb_u8([203, 203, 203], [142, 142, 142]),
            Connection::Diverge { .. } => GizmoColors::srgb_u8([100, 100, 100], [100, 100, 100]),
            Connection::EndPoint { .. } => GizmoColors::srgb_u8([200, 20, 32], [161, 16, 25]),
        }
    }
}

/// The colours of segments with `connection`.
pub open spec fn spec_colors(connection: Connection) -> GizmoColors {
    match connection {
        Connection::Merge { .. } => GizmoColors { segment: [200, 200, 46], point: [149, 149, 34] },
        Connection::Direct { .. } => GizmoColors { segment: [203, 203, 203], point: [142, 142, 142] },
        Connection::Diverge { .. } => GizmoColors { segment: [100, 100, 100], point: [100, 100, 100] },
        Connection::EndPoint { .. } => GizmoColors { segment: [200, 20, 32], point: [161, 16, 25] },
    }
}

/// The segment selected for highlighting, if any.
pub struct SegmentInspectorState {
    pub selected_index: Option<usize>,
}

/// The selection after a frame with `number_of_segments` segments, where `tab_pressed`
/// tells whether the key that cycles the selection was pressed, and the segment to
/// highlight on this frame.
pub open spec fn spec_cycle_selection(selected_index: Option<usize>, tab_pressed: bool, number_of_segments: int) -> (
    Option<usize>,
    Option<usize>,
) {
    if number_of_segments == 0 {
        (selected_index, None)
    } else {
        let selected = if tab_pressed {
            Some(
                match selected_index {
                    Some(index) => ((index + 1) % number_of_segments) as usize,
                    None => 0,
                },
            )
        } else {
            selected_index
        };
        match selected {
            None => (None, None),
            Some(index) => if index < number_of_segments {
                (selected, Some(index))
            } else {
                // Clamped to the last segment where the selection has gone past it.
                (Some((number_of_segments - 1) as usize), None)
            },
        }
    }
}

impl SegmentInspectorState {
    /// Cycles the selection to the next segment where the key was pressed, and returns
    /// the segment to highlight on this frame.
    pub fn cycle(&mut self, tab_pressed: bool, number_of_segments: usize) -> (r: Option<usize>)
        requires
            tab_pressed && number_of_segments > 0 ==> (old(self).selected_index matches Some(index)
                ==> index < usize::MAX),
        ensures
            (final(self).selected_index, r) == spec_cycle_selection(
                old(self).selected_index,
                tab_pressed,
                number_of_segments as int,
            ),
            r matches Some(index) ==> index < number_of_segments,
    {
        if number_of_segments == 0 {
            return None;
        }
        if tab_pressed {
            self.selected_index = Some(
                match self.selected_index {
                    Some(index) => (index + 1) % number_of_segments,
                    None => 0,
                },
            );
        }
        match self.selected_index {
            None => None,
            Some(index) => {
                if index < number_of_segments {
                    Some(index)
                } else {
                    self.selected_index = Some(number_of_segments - 1);
                    None
                }
            },
        }
    }
}

} // verus!
